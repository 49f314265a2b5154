use nami_core::inline_lisp::ExpandReport;
use nami_core::lisp::{attr_key, read_string_literal, string_literal, SexpOptions};

#[test]
fn sexp_options_default_is_pretty_trimmed_unbounded() {
    let o = SexpOptions::default();
    assert_eq!(o.depth_cap, None);
    assert!(o.pretty);
    assert!(o.trim_whitespace);
}

#[test]
fn expand_report_starts_at_zero() {
    assert_eq!(ExpandReport::default(), ExpandReport { evaluated: 0, failed: 0 });
}


#[test]
fn lisp_string_literal_escapes() {
    assert_eq!(string_literal("plain"), "\"plain\"");
    assert_eq!(string_literal("a \"q\" \\ b"), "\"a \\\"q\\\" \\\\ b\"");
    assert_eq!(string_literal("l1\nl2\r\t"), "\"l1\\nl2\\r\\t\"");
    assert_eq!(string_literal("\u{1}"), "\"\\u{0001}\"");
    assert_eq!(string_literal("é"), "\"é\"");
}

#[test]
fn lisp_attr_key_bare_or_quoted() {
    assert_eq!(attr_key("data-id"), "data-id");
    assert_eq!(attr_key("x_1"), "x_1");
    assert_eq!(attr_key("aria:label"), "\"aria:label\"");
    assert_eq!(attr_key(""), "\"\"");
}

#[test]
fn lisp_read_string_literal_roundtrips() {
    for s in ["", "plain", "a \"q\" \\ b", "l1\nl2\r\t", "\u{1}\u{1f}x", "日本"] {
        let lit = string_literal(s);
        let with_tail = format!("{lit} (rest)");
        let (back, end) = read_string_literal(&with_tail).unwrap();
        assert_eq!(back, s);
        assert_eq!(end, lit.chars().count());
    }
}

#[test]
fn lisp_read_string_literal_errors() {
    assert_eq!(read_string_literal("\"open"), Err("unterminated string".to_string()));
    assert_eq!(read_string_literal("\"a\\"), Err("trailing backslash in string".to_string()));
    assert_eq!(read_string_literal("\"\\q\""), Err("unknown escape: \\q".to_string()));
    assert_eq!(read_string_literal("\"\\ux\""), Err("expected '{' after \\u".to_string()));
    assert_eq!(read_string_literal("\"\\u{zz}\""), Err("invalid hex in \\u{…}: 'z'".to_string()));
    assert_eq!(read_string_literal("\"\\u{41"), Err("unterminated \\u{…}".to_string()));
    assert_eq!(read_string_literal("\"\\u{d800}\""), Err("invalid codepoint U+d800".to_string()));
    assert_eq!(read_string_literal("\"\\u{110000}\""), Err("invalid codepoint U+110000".to_string()));
    assert!(read_string_literal("\"\\u{}\"").unwrap_err().starts_with("hex decode: "));
    assert!(read_string_literal("\"\\u{123456789}\"").unwrap_err().starts_with("hex decode: "));
    assert_eq!(read_string_literal("\"\\u{41}\\u{1F600}\""), Ok(("A😀".to_string(), 17)));
}
