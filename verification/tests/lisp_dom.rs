use nami_core::dom::{Document, ElementData, Node, NodeData};
use nami_core::lisp::{dom_to_sexp, dom_to_sexp_with, node_to_sexp, sexp_to_dom, SexpOptions};

fn el(tag: &str, attrs: &[(&str, &str)], children: Vec<Node>) -> Node {
    Node {
        data: NodeData::Element(ElementData {
            tag: tag.to_string(),
            attributes: attrs.iter().map(|(k, v)| (k.to_string(), v.to_string())).collect(),
        }),
        children,
    }
}

fn text(t: &str) -> Node {
    Node { data: NodeData::Text(t.to_string()), children: Vec::new() }
}

fn comment(c: &str) -> Node {
    Node { data: NodeData::Comment(c.to_string()), children: Vec::new() }
}

/// `<html><head></head><body>…</body></html>`, as an HTML parser builds it.
fn page(body: Vec<Node>) -> Document {
    Document {
        root: Node {
            data: NodeData::Document,
            children: vec![el("html", &[], vec![el("head", &[], vec![]), el("body", &[], body)])],
        },
    }
}

fn compact() -> SexpOptions {
    SexpOptions { depth_cap: None, pretty: false, trim_whitespace: true }
}

fn text_content(n: &Node) -> String {
    match &n.data {
        NodeData::Text(t) => t.clone(),
        _ => n.children.iter().map(text_content).collect(),
    }
}

fn find<'a>(n: &'a Node, tag: &str) -> Option<&'a Node> {
    if let NodeData::Element(e) = &n.data {
        if e.tag == tag {
            return Some(n);
        }
    }
    n.children.iter().find_map(|c| find(c, tag))
}

fn attr<'a>(n: &'a Node, key: &str) -> Option<&'a str> {
    match &n.data {
        NodeData::Element(e) => e.attributes.iter().find(|(k, _)| k == key).map(|(_, v)| v.as_str()),
        _ => None,
    }
}

fn roundtrip(doc: &Document) -> Document {
    let sexp = dom_to_sexp_with(doc, &compact());
    sexp_to_dom(&sexp).expect("roundtrip")
}

#[test]
fn emits_compact_line() {
    let doc = page(vec![el("p", &[], vec![text("hi")])]);
    let sexp = dom_to_sexp_with(&doc, &compact());
    assert!(sexp.starts_with("(document"));
    assert!(sexp.ends_with(')'));
    assert!(sexp.contains(r#"(element :tag "html""#));
    assert!(sexp.contains(r#"(element :tag "p""#));
    assert!(sexp.contains(r#"(text "hi")"#));
}

#[test]
fn preserves_attributes_as_kv_list() {
    let doc = page(vec![el("a", &[("href", "https://x"), ("class", "hero")], vec![text("go")])]);
    let sexp = dom_to_sexp(&doc);
    assert!(sexp.contains(r#":attrs ((:href "https://x") (:class "hero"))"#));
}

#[test]
fn escapes_quotes_and_newlines() {
    let doc = page(vec![el("p", &[], vec![text("quoted \"value\" newline here")])]);
    let sexp = dom_to_sexp(&doc);
    assert!(sexp.contains(r#"quoted \"value\""#));
}

#[test]
fn preserves_comments() {
    let doc = page(vec![comment(" hidden "), el("p", &[], vec![text("x")])]);
    let sexp = dom_to_sexp(&doc);
    assert!(sexp.contains(r#"(comment " hidden ")"#));
}

#[test]
fn depth_cap_elides_deep_subtrees() {
    let deep = el("div", &[], vec![el("div", &[], vec![el("div", &[], vec![el("div", &[], vec![el("p", &[], vec![text("deep")])])])])]);
    let doc = page(vec![deep]);
    let opts = SexpOptions { depth_cap: Some(3), pretty: false, trim_whitespace: true };
    let sexp = dom_to_sexp_with(&doc, &opts);
    assert!(sexp.contains(":elided"));
}

#[test]
fn pretty_prints_with_newlines_and_indent() {
    let doc = page(vec![el("p", &[], vec![text("hi")])]);
    let sexp = dom_to_sexp(&doc);
    assert!(sexp.contains('\n'));
}

#[test]
fn framework_attributes_pass_through_verbatim() {
    let doc = page(vec![el(
        "button",
        &[("hx-get", "/api/x"), ("hx-target", "#result"), ("data-state", "open")],
        vec![text("go")],
    )]);
    let sexp = dom_to_sexp(&doc);
    assert!(sexp.contains(r#"(:hx-get "/api/x")"#));
    assert!(sexp.contains(r##"(:hx-target "#result")"##));
    assert!(sexp.contains(r#"(:data-state "open")"#));
}

#[test]
fn framework_agnostic_shape() {
    let react = page(vec![el("div", &[("data-reactroot", "")], vec![el("p", &[], vec![text("hi")])])]);
    let plain = page(vec![el("div", &[], vec![el("p", &[], vec![text("hi")])])]);
    let r_sexp = dom_to_sexp(&react);
    let p_sexp = dom_to_sexp(&plain);
    assert!(r_sexp.contains(r#"(element :tag "p""#));
    assert!(p_sexp.contains(r#"(element :tag "p""#));
    assert!(r_sexp.contains(":data-reactroot"));
    assert!(!p_sexp.contains(":data-reactroot"));
}

#[test]
fn node_to_sexp_emits_subtree() {
    let doc = page(vec![el("article", &[], vec![el("h2", &[], vec![text("Title")])])]);
    let article = find(&doc.root, "article").unwrap();
    let sexp = node_to_sexp(article, &SexpOptions { pretty: false, trim_whitespace: true, depth_cap: None });
    assert!(sexp.starts_with(r#"(element :tag "article""#));
    assert!(sexp.contains(r#"(element :tag "h2""#));
}

#[test]
fn roundtrips_plain_element() {
    let back = roundtrip(&page(vec![el("p", &[], vec![text("hi")])]));
    assert!(text_content(&back.root).contains("hi"));
}

#[test]
fn roundtrips_attributes() {
    let back = roundtrip(&page(vec![el("a", &[("href", "https://x"), ("class", "hero")], vec![text("go")])]));
    let a = find(&back.root, "a").unwrap();
    assert_eq!(attr(a, "href"), Some("https://x"));
    assert_eq!(attr(a, "class"), Some("hero"));
}

#[test]
fn roundtrips_comments() {
    let back = roundtrip(&page(vec![comment(" note "), el("p", &[], vec![text("x")])]));
    fn has_note(n: &Node) -> bool {
        matches!(&n.data, NodeData::Comment(c) if c.contains("note")) || n.children.iter().any(has_note)
    }
    assert!(has_note(&back.root));
}

#[test]
fn roundtrips_framework_attributes() {
    let back =
        roundtrip(&page(vec![el("button", &[("hx-get", "/api/x"), ("data-state", "open")], vec![text("go")])]));
    let btn = find(&back.root, "button").unwrap();
    assert_eq!(attr(btn, "hx-get"), Some("/api/x"));
    assert_eq!(attr(btn, "data-state"), Some("open"));
}

#[test]
fn roundtrips_escaped_text() {
    let back = roundtrip(&page(vec![el("p", &[], vec![text(r#"quoted "value" with \backslash"#)])]));
    let p = find(&back.root, "p").unwrap();
    assert!(text_content(p).contains(r#""value""#));
}

#[test]
fn parses_pretty_printed_sexp() {
    let src = page(vec![el("section", &[], vec![el("p", &[], vec![text("hi")])])]);
    let sexp = dom_to_sexp(&src);
    let back = sexp_to_dom(&sexp).expect("parse pretty");
    assert!(text_content(&back.root).contains("hi"));
}

#[test]
fn rejects_garbage() {
    assert!(sexp_to_dom("not an s-expression").is_err());
    assert!(sexp_to_dom("(not-a-document)").is_err());
    assert!(sexp_to_dom("(document (unknown))").is_err());
}

#[test]
fn handles_elided_subtree_placeholder() {
    let input = r#"(document (element :tag "html" (… :elided 3)))"#;
    let doc = sexp_to_dom(input).expect("elided parses");
    let html = doc.root.children.first().and_then(|n| match &n.data {
        NodeData::Element(e) => Some(e),
        _ => None,
    });
    assert_eq!(html.expect("html").tag, "html");
    let kids = &doc.root.children[0].children;
    assert_eq!(kids.len(), 1);
    assert!(matches!(&kids[0].data, NodeData::Text(t) if t.is_empty()) && kids[0].children.is_empty());
}

#[test]
fn ignores_line_comments() {
    let src = r#"
            ; this is a comment
            (document
              (element :tag "html"
                ; another
                (element :tag "body"
                  (text "ok"))))
        "#;
    let back = sexp_to_dom(src).expect("comments-ok");
    assert!(text_content(&back.root).contains("ok"));
}

#[test]
fn roundtrip_is_idempotent_after_two_cycles() {
    let once = roundtrip(&page(vec![el("p", &[], vec![text("hi")])]));
    let sexp1 = dom_to_sexp_with(&once, &compact());
    let twice = sexp_to_dom(&sexp1).expect("second parse");
    let sexp2 = dom_to_sexp_with(&twice, &compact());
    assert_eq!(sexp1, sexp2, "roundtrip should be a fixed point");
}

#[test]
fn sexp_exact_compact_and_pretty_text() {
    let doc = Document {
        root: Node {
            data: NodeData::Document,
            children: vec![el("p", &[("id", "a b")], vec![text("  hi\n"), text("   "), comment("c")])],
        },
    };
    assert_eq!(
        dom_to_sexp_with(&doc, &compact()),
        r#"(document (element :tag "p" :attrs ((:id "a b")) (text "hi") (comment "c")))"#
    );
    assert_eq!(
        dom_to_sexp(&doc),
        "(document\n  (element :tag \"p\" :attrs ((:id \"a b\"))\n    (text \"hi\")\n    (comment \"c\")\n  )\n)"
    );
    let keep = SexpOptions { depth_cap: None, pretty: false, trim_whitespace: false };
    assert_eq!(
        dom_to_sexp_with(&doc, &keep),
        r#"(document (element :tag "p" :attrs ((:id "a b")) (text "  hi\n") (text "   ") (comment "c")))"#
    );
    let capped = SexpOptions { depth_cap: Some(1), pretty: false, trim_whitespace: true };
    assert_eq!(
        dom_to_sexp_with(&doc, &capped),
        r#"(document (element :tag "p" :attrs ((:id "a b")) (… :elided 3)))"#
    );
}

#[test]
fn sexp_quoted_attribute_keys_and_control_characters() {
    let doc = page(vec![el("p", &[("x y", "1")], vec![text("a\u{1}b")])]);
    let sexp = dom_to_sexp_with(&doc, &compact());
    assert!(sexp.contains(r#"("x y" "1")"#));
    assert!(sexp.contains(r#"(text "a\u{0001}b")"#));
    // A key that is not written bare is written as a string, and reads back.
    let back = sexp_to_dom(&sexp).unwrap();
    assert_eq!(dom_to_sexp_with(&back, &compact()), sexp);
    let click = Document {
        root: Node { data: NodeData::Document, children: vec![el("b", &[("@click", "go")], vec![])] },
    };
    let text = dom_to_sexp_with(&click, &compact());
    assert_eq!(text, r#"(document (element :tag "b" :attrs (("@click" "go"))))"#);
    let again = sexp_to_dom(&text).unwrap();
    assert_eq!(format!("{again:?}"), format!("{click:?}"));
}

#[test]
fn sexp_roundtrip_gives_the_written_tree() {
    let doc = Document {
        root: Node {
            data: NodeData::Document,
            children: vec![
                el("div", &[("class", "x"), ("data-k", "v\"q")], vec![text(" a "), text("\n"), el("br", &[], vec![])]),
                comment(" c "),
            ],
        },
    };
    let back = roundtrip(&doc);
    let expected = Document {
        root: Node {
            data: NodeData::Document,
            children: vec![
                el("div", &[("class", "x"), ("data-k", "v\"q")], vec![text("a"), el("br", &[], vec![])]),
                comment(" c "),
            ],
        },
    };
    assert_eq!(format!("{back:?}"), format!("{expected:?}"));
}

#[test]
fn sexp_error_messages() {
    assert_eq!(sexp_to_dom("not an s-expression").unwrap_err(), "trailing content after (document …)");
    assert_eq!(
        sexp_to_dom("(not-a-document)").unwrap_err(),
        r#"expected top-level (document …), got (Symbol("not-a-document") …)"#
    );
    assert_eq!(sexp_to_dom("(document (unknown))").unwrap_err(), "unknown node head: unknown");
    assert_eq!(sexp_to_dom("").unwrap_err(), "unexpected EOF");
    assert_eq!(sexp_to_dom("(document").unwrap_err(), "unterminated list (missing `)`)");
    assert_eq!(sexp_to_dom(")").unwrap_err(), "unexpected character ')'");
    assert_eq!(sexp_to_dom("\"x\"").unwrap_err(), r#"expected list at top level, got String("x")"#);
    assert_eq!(sexp_to_dom("()").unwrap_err(), "empty form");
    assert_eq!(sexp_to_dom("(document (text))").unwrap_err(), "(text …) expects one string arg");
    assert_eq!(sexp_to_dom("(document (text :k))").unwrap_err(), r#"expected string, got Keyword("k")"#);
    assert_eq!(sexp_to_dom("(document (element))").unwrap_err(), "(element …) missing :tag");
    assert_eq!(sexp_to_dom("(document (element :tag))").unwrap_err(), ":tag missing value");
    assert_eq!(
        sexp_to_dom(r#"(document (element :tag "p" :attrs ((a "b" "c"))))"#).unwrap_err(),
        r#":attrs entry must be (:key "value")"#
    );
    assert_eq!(
        sexp_to_dom(r#"(document (element :tag "p" :attrs ((("x") "b"))))"#).unwrap_err(),
        r#"attr key must be keyword or string, got List([String("x")])"#
    );
    assert_eq!(
        sexp_to_dom(r#"(document (element :tag "p" :id "x"))"#).unwrap_err(),
        r#"unexpected form in (element …): Keyword("id")"#
    );
    assert_eq!(sexp_to_dom("(document x)").unwrap_err(), r#"expected list, got Symbol("x")"#);
    assert_eq!(sexp_to_dom("(document (:k))").unwrap_err(), r#"expected symbol at head, got Keyword("k")"#);
    assert_eq!(sexp_to_dom("(document ())").unwrap_err(), "empty node form");
    assert_eq!(sexp_to_dom("(document :)").unwrap_err(), "bare ':' with no keyword name");
}

#[test]
fn sexp_reads_elided_nodes_and_attribute_strings() {
    let doc = sexp_to_dom(r#"(document (… :elided 2) (element :tag "a" :tag "b" :attrs (("k" "v")) :attrs ((:j "w"))))"#)
        .unwrap();
    assert_eq!(doc.root.children.len(), 2);
    assert!(matches!(&doc.root.children[0].data, NodeData::Text(t) if t.is_empty()));
    match &doc.root.children[1].data {
        NodeData::Element(e) => {
            assert_eq!(e.tag, "b");
            assert_eq!(e.attributes, vec![("k".to_string(), "v".to_string()), ("j".to_string(), "w".to_string())]);
        }
        _ => panic!("expected an element"),
    }
}
