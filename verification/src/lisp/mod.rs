//! The S-expression form of a document: the options for writing it, and the string literals it
//! is written with. A literal is a double-quoted string in which `"`, `\`, newline, carriage
//! return and tab are escaped with a backslash and other control characters as `\u{XXXX}`;
//! reading a literal back gives the original text.
pub mod emit;
pub mod parse;
pub mod roundtrip;

pub use emit::{dom_to_sexp, dom_to_sexp_with, node_to_sexp};
pub use parse::sexp_to_dom;

use vstd::prelude::*;

use crate::high_contrast::{hex_val, is_hex, is_hex_exec};
use crate::text::{chars_of, owned, push, push_str, string_from_chars};

verus! {

/// How a document is written as an S-expression.
#[derive(Debug, Clone, Copy, PartialEq, Eq, Structural)]
pub struct SexpOptions {
    /// Deepest element nesting written; deeper subtrees collapse to `(… :elided N)`. `None` is
    /// unbounded.
    pub depth_cap: Option<usize>,
    /// Newlines and indentation; otherwise one compact line.
    pub pretty: bool,
    /// Drop whitespace-only text nodes.
    pub trim_whitespace: bool,
}

impl Default for SexpOptions {
    fn default() -> (r: Self)
        ensures
            r == (SexpOptions { depth_cap: None, pretty: true, trim_whitespace: true }),
    {
        SexpOptions { depth_cap: None, pretty: true, trim_whitespace: true }
    }
}

// ─── writing literals ────────────────────────────────────────────

/// The lower-case hexadecimal digit for `d < 16`.
pub open spec fn hex_lower(d: nat) -> char {
    if d < 10 {
        ((48 + d) as u8) as char
    } else {
        ((87 + d) as u8) as char
    }
}

/// `n` in lower-case hexadecimal, without leading zeros.
pub open spec fn lower_hex(n: nat) -> Seq<char>
    decreases n,
{
    if n < 16 {
        seq![hex_lower(n)]
    } else {
        lower_hex(n / 16).push(hex_lower(n % 16))
    }
}

/// `n` in lower-case hexadecimal padded with zeros to at least four digits, as `{:04x}` writes it.
pub open spec fn hex4(n: nat) -> Seq<char> {
    if n < 0x10000 {
        seq![hex_lower((n / 4096) % 16), hex_lower((n / 256) % 16), hex_lower((n / 16) % 16), hex_lower(n % 16)]
    } else {
        lower_hex(n)
    }
}

/// How one character is written inside a literal.
pub open spec fn escape_char(c: char) -> Seq<char> {
    if c == '"' {
        seq!['\\', '"']
    } else if c == '\\' {
        seq!['\\', '\\']
    } else if c == '\n' {
        seq!['\\', 'n']
    } else if c == '\r' {
        seq!['\\', 'r']
    } else if c == '\t' {
        seq!['\\', 't']
    } else if (c as u32) < 0x20 {
        seq!['\\', 'u', '{'] + hex4((c as u32) as nat) + seq!['}']
    } else {
        seq![c]
    }
}

/// The body of the literal for `s`: each character escaped in turn.
pub open spec fn escaped(s: Seq<char>) -> Seq<char>
    decreases s.len(),
{
    if s.len() == 0 {
        seq![]
    } else {
        escape_char(s[0]) + escaped(s.drop_first())
    }
}

/// The literal for `s`: its escaped body in double quotes.
pub open spec fn literal(s: Seq<char>) -> Seq<char> {
    seq!['"'] + escaped(s) + seq!['"']
}

/// An attribute key that can be written bare: non-empty, ASCII letters, digits, `-` and `_`.
pub open spec fn key_is_bare(k: Seq<char>) -> bool {
    k.len() > 0 && forall|i: int| 0 <= i < k.len() ==> is_key_char(#[trigger] k[i])
}

/// An attribute key: as it is when it can be written bare; else as a literal.
pub open spec fn attr_key_text(k: Seq<char>) -> Seq<char> {
    if key_is_bare(k) {
        k
    } else {
        literal(k)
    }
}

/// An attribute key in an attribute's entry: a keyword `:key` when it can be written bare, else
/// a string literal.
pub open spec fn attr_key_part(k: Seq<char>) -> Seq<char> {
    if key_is_bare(k) {
        seq![':'] + k
    } else {
        literal(k)
    }
}

/// A character that an attribute key may carry bare.
pub open spec fn is_key_char(c: char) -> bool {
    ('a' <= c <= 'z') || ('A' <= c <= 'Z') || ('0' <= c <= '9') || c == '-' || c == '_'
}

/// `escaped` of a concatenation is the concatenation of `escaped`.
proof fn lemma_escaped_append(a: Seq<char>, b: Seq<char>)
    ensures
        escaped(a + b) == escaped(a) + escaped(b),
    decreases a.len(),
{
    if a.len() == 0 {
        assert(a + b =~= b);
    } else {
        assert((a + b).drop_first() =~= a.drop_first() + b);
        lemma_escaped_append(a.drop_first(), b);
    }
}

/// Appends `n < 0x10000` as four lower-case hexadecimal digits.
fn push_hex4(out: &mut String, n: u32)
    requires
        n < 0x10000,
    ensures
        final(out)@ == old(out)@ + hex4(n as nat),
{
    let digits: [u32; 4] = [(n / 4096) % 16, (n / 256) % 16, (n / 16) % 16, n % 16];
    let mut k: usize = 0;
    while k < 4
        invariant
            k <= 4,
            n < 0x10000,
            digits@ == seq![(n / 4096) % 16, (n / 256) % 16, (n / 16) % 16, n % 16],
            out@ == old(out)@ + hex4(n as nat).take(k as int),
        decreases 4 - k,
    {
        let d = digits[k];
        let c: char = if d < 10 {
            ((48 + d) as u8) as char
        } else {
            ((87 + d) as u8) as char
        };
        assert(c == hex_lower(d as nat));
        push(out, c);
        assert(hex4(n as nat).take(k + 1) =~= hex4(n as nat).take(k as int).push(c));
        k += 1;
    }
    assert(hex4(n as nat).take(4) =~= hex4(n as nat));
}

/// The literal for `s`: double quotes around it, with `"`, `\`, newline, carriage return and tab
/// escaped by a backslash and other control characters as `\u{XXXX}`.
pub fn string_literal(s: &str) -> (r: String)
    ensures
        r@ == literal(s@),
{
    let cs = chars_of(s);
    let mut out = String::new();
    push(&mut out, '"');
    let mut i: usize = 0;
    while i < cs.len()
        invariant
            i <= cs@.len(),
            cs@ == s@,
            out@ == seq!['"'] + escaped(cs@.take(i as int)),
        decreases cs@.len() - i,
    {
        let c = cs[i];
        let ghost before = out@;
        if c == '"' {
            push_str(&mut out, "\\\"");
            proof {
                reveal_strlit("\\\"");
            }
        } else if c == '\\' {
            push_str(&mut out, "\\\\");
            proof {
                reveal_strlit("\\\\");
            }
        } else if c == '\n' {
            push_str(&mut out, "\\n");
            proof {
                reveal_strlit("\\n");
            }
        } else if c == '\r' {
            push_str(&mut out, "\\r");
            proof {
                reveal_strlit("\\r");
            }
        } else if c == '\t' {
            push_str(&mut out, "\\t");
            proof {
                reveal_strlit("\\t");
            }
        } else if (c as u32) < 0x20 {
            push_str(&mut out, "\\u{");
            proof {
                reveal_strlit("\\u{");
            }
            let ghost mid = out@;
            assert(mid =~= before + seq!['\\', 'u', '{']);
            push_hex4(&mut out, c as u32);
            push(&mut out, '}');
            assert(out@ =~= before + (seq!['\\', 'u', '{'] + hex4((c as u32) as nat) + seq!['}']));
        } else {
            push(&mut out, c);
        }
        proof {
            assert(out@ =~= before + escape_char(c));
            assert(cs@.take(i + 1) =~= cs@.take(i as int) + seq![c]);
            lemma_escaped_append(cs@.take(i as int), seq![c]);
            assert(seq![c].drop_first() =~= Seq::<char>::empty());
            assert(escaped(Seq::<char>::empty()) == Seq::<char>::empty());
            assert(escaped(seq![c]) =~= escape_char(c));
        }
        i += 1;
    }
    push(&mut out, '"');
    assert(cs@.take(cs@.len() as int) =~= cs@);
    out
}

/// An attribute key as it is written: bare when it is non-empty and made of ASCII letters,
/// digits, `-` and `_`; else as a literal.
pub fn attr_key(k: &str) -> (r: String)
    ensures
        r@ == attr_key_text(k@),
{
    let cs = chars_of(k);
    let mut safe = cs.len() > 0;
    let mut i: usize = 0;
    while i < cs.len()
        invariant
            i <= cs@.len(),
            cs@ == k@,
            safe == (cs@.len() > 0 && forall|j: int| 0 <= j < i ==> is_key_char(#[trigger] cs@[j])),
        decreases cs@.len() - i,
    {
        let c = cs[i];
        if !(('a' <= c && c <= 'z') || ('A' <= c && c <= 'Z') || ('0' <= c && c <= '9') || c == '-' || c == '_') {
            safe = false;
        }
        i += 1;
    }
    if safe {
        owned(k)
    } else {
        string_literal(k)
    }
}

// ─── reading literals ────────────────────────────────────────────

/// The text `{:?}` writes for a character.
pub uninterp spec fn char_debug(c: char) -> Seq<char>;

/// `format!("{c:?}")`: how `Debug` writes a character. Claimed: the text is the one named
/// `char_debug` of the character, a function of the character alone.
#[verifier::external_body]
pub(crate) fn debug_char(c: char) -> (r: String)
    ensures
        r@ == char_debug(c),
{
    format!("{c:?}")
}

/// The text of the error `u32::from_str_radix(digits, 16)` reports for `digits`.
pub uninterp spec fn int_error_text(digits: Seq<char>) -> Seq<char>;

/// The value of hexadecimal digits, most significant first.
pub open spec fn hex_number(ds: Seq<char>) -> nat
    decreases ds.len(),
{
    if ds.len() == 0 {
        0
    } else {
        hex_number(ds.drop_last()) * 16 + hex_val(ds.last())
    }
}

/// `u32::from_str_radix(digits, 16)` on hexadecimal digits. Claimed, as its documentation says:
/// the value of the digits when there is at least one and the value fits in 32 bits; otherwise
/// an error, whose text is the one named `int_error_text` of the digits.
#[verifier::external_body]
fn parse_hex_u32(digits: &str) -> (r: Result<u32, String>)
    requires
        forall|i: int| 0 <= i < digits@.len() ==> is_hex(#[trigger] digits@[i]),
    ensures
        match r {
            Ok(v) => digits@.len() > 0 && hex_number(digits@) < 0x1_0000_0000 && v == hex_number(digits@),
            Err(m) => (digits@.len() == 0 || hex_number(digits@) >= 0x1_0000_0000) && m@ == int_error_text(
                digits@,
            ),
        },
{
    u32::from_str_radix(digits, 16).map_err(|e| e.to_string())
}

/// A Unicode scalar value: not a surrogate, at most U+10FFFF.
pub open spec fn valid_scalar(n: int) -> bool {
    (0 <= n < 0xD800) || (0xE000 <= n <= 0x10FFFF)
}

/// `char::from_u32`: the character with code point `cp`. Claimed, as its documentation says:
/// a character exactly for Unicode scalar values, and then the one with that code point.
#[verifier::external_body]
fn char_from_u32(cp: u32) -> (r: Option<char>)
    ensures
        match r {
            Some(c) => valid_scalar(cp as int) && c as int == cp as int,
            None => !valid_scalar(cp as int),
        },
{
    char::from_u32(cp)
}

/// Reading the digits of `\u{…}` from index `j`: the hexadecimal digits up to the closing brace
/// and the index after it, or why not.
pub open spec fn read_hex_digits(s: Seq<char>, j: int) -> Result<(Seq<char>, int), Seq<char>>
    decreases s.len() - j,
{
    if j < 0 || j >= s.len() {
        Err("unterminated \\u{…}"@)
    } else if s[j] == '}' {
        Ok((seq![], j + 1))
    } else if is_hex(s[j]) {
        match read_hex_digits(s, j + 1) {
            Ok((d, e)) => Ok((seq![s[j]] + d, e)),
            Err(m) => Err(m),
        }
    } else {
        Err("invalid hex in \\u{…}: "@ + char_debug(s[j]))
    }
}

/// The digits read are hexadecimal and the reading moves forward.
pub proof fn lemma_read_hex_digits(s: Seq<char>, j: int)
    ensures
        match read_hex_digits(s, j) {
            Ok((d, e)) => j < e <= s.len() && (forall|k: int| 0 <= k < d.len() ==> is_hex(#[trigger] d[k])),
            Err(_) => true,
        },
    decreases s.len() - j,
{
    if 0 <= j < s.len() && s[j] != '}' && is_hex(s[j]) {
        lemma_read_hex_digits(s, j + 1);
        match read_hex_digits(s, j + 1) {
            Ok((d, e)) => {
                let dd = seq![s[j]] + d;
                assert forall|k: int| 0 <= k < dd.len() implies is_hex(#[trigger] dd[k]) by {
                    if k > 0 {
                        assert(dd[k] == d[k - 1]);
                    }
                }
            },
            Err(_) => {},
        }
    }
}

/// `c` in front of what was read.
pub open spec fn prepend(c: char, r: Result<(Seq<char>, int), Seq<char>>) -> Result<(Seq<char>, int), Seq<char>> {
    match r {
        Ok((t, e)) => Ok((seq![c] + t, e)),
        Err(m) => Err(m),
    }
}

/// Reading the rest of a literal from index `i`, just after its opening quote: its text and the
/// index after the closing quote, or why not. Escapes are `\"`, `\\`, `\n`, `\r`, `\t` and
/// `\u{HEX}`.
pub open spec fn read_lit(s: Seq<char>, i: int) -> Result<(Seq<char>, int), Seq<char>>
    decreases s.len() - i,
{
    if i < 0 || i >= s.len() {
        Err("unterminated string"@)
    } else if s[i] == '"' {
        Ok((seq![], i + 1))
    } else if s[i] != '\\' {
        prepend(s[i], read_lit(s, i + 1))
    } else if i + 1 >= s.len() {
        Err("trailing backslash in string"@)
    } else {
        let e = s[i + 1];
        if e == '"' {
            prepend('"', read_lit(s, i + 2))
        } else if e == '\\' {
            prepend('\\', read_lit(s, i + 2))
        } else if e == 'n' {
            prepend('\n', read_lit(s, i + 2))
        } else if e == 'r' {
            prepend('\r', read_lit(s, i + 2))
        } else if e == 't' {
            prepend('\t', read_lit(s, i + 2))
        } else if e == 'u' {
            if i + 2 >= s.len() || s[i + 2] != '{' {
                Err("expected '{' after \\u"@)
            } else {
                proof {
                    lemma_read_hex_digits(s, i + 3);
                }
                match read_hex_digits(s, i + 3) {
                    Err(m) => Err(m),
                    Ok((ds, k)) => if ds.len() == 0 || hex_number(ds) >= 0x1_0000_0000 {
                        Err("hex decode: "@ + int_error_text(ds))
                    } else if !valid_scalar(hex_number(ds) as int) {
                        Err("invalid codepoint U+"@ + hex4(hex_number(ds)))
                    } else {
                        prepend((hex_number(ds) as int) as char, read_lit(s, k))
                    },
                }
            }
        } else {
            Err("unknown escape: \\"@ + seq![e])
        }
    }
}

/// `digits` in front of what reading hex digits gave.
pub open spec fn glue(front: Seq<char>, r: Result<(Seq<char>, int), Seq<char>>) -> Result<(Seq<char>, int), Seq<char>> {
    match r {
        Ok((t, e)) => Ok((front + t, e)),
        Err(m) => Err(m),
    }
}

/// Reads the digits of `\u{…}` from index `j`.
fn read_hex_run(cs: &[char], j: usize) -> (r: Result<(Vec<char>, usize), String>)
    requires
        j <= cs@.len(),
    ensures
        match read_hex_digits(cs@, j as int) {
            Ok((d, e)) => r matches Ok((x, k)) && x@ == d && k == e,
            Err(m) => r matches Err(x) && x@ == m,
        },
{
    let mut digits: Vec<char> = Vec::new();
    let mut k = j;
    while k < cs.len() && cs[k] != '}' && is_hex_exec(cs[k])
        invariant
            j <= k <= cs@.len(),
            read_hex_digits(cs@, j as int) == glue(digits@, read_hex_digits(cs@, k as int)),
        decreases cs@.len() - k,
    {
        let ghost before = digits@;
        digits.push(cs[k]);
        proof {
            match read_hex_digits(cs@, k + 1) {
                Ok((d, e)) => {
                    assert(before + (seq![cs@[k as int]] + d) =~= digits@ + d);
                },
                Err(_) => {},
            }
        }
        k += 1;
    }
    if k >= cs.len() {
        proof {
            reveal_strlit("unterminated \\u{…}");
        }
        return Err(owned("unterminated \\u{…}"));
    }
    if cs[k] == '}' {
        assert(digits@ + Seq::<char>::empty() =~= digits@);
        return Ok((digits, k + 1));
    }
    let mut m = owned("invalid hex in \\u{…}: ");
    let d = debug_char(cs[k]);
    push_str(&mut m, d.as_str());
    Err(m)
}

/// Reads the rest of a literal from index `i`, just after its opening quote.
pub(crate) fn read_literal_body(cs: &[char], i0: usize) -> (r: Result<(String, usize), String>)
    ensures
        match read_lit(cs@, i0 as int) {
            Ok((t, e)) => r matches Ok((x, k)) && x@ == t && k == e,
            Err(m) => r matches Err(x) && x@ == m,
        },
{
    let mut acc: Vec<char> = Vec::new();
    let mut i = i0;
    loop
        invariant
            i0 <= i,
            read_lit(cs@, i0 as int) == glue(acc@, read_lit(cs@, i as int)),
        decreases cs@.len() - i,
    {
        if i >= cs.len() {
            return Err(owned("unterminated string"));
        }
        let c = cs[i];
        if c == '"' {
            assert(acc@ + Seq::<char>::empty() =~= acc@);
            return Ok((string_from_chars(acc.as_slice()), i + 1));
        }
        if c != '\\' {
            let ghost before = acc@;
            acc.push(c);
            proof {
                match read_lit(cs@, i + 1) {
                    Ok((t, e)) => {
                        assert(before + (seq![c] + t) =~= acc@ + t);
                    },
                    Err(_) => {},
                }
            }
            i += 1;
        } else {
            if i + 1 >= cs.len() {
                return Err(owned("trailing backslash in string"));
            }
            let e = cs[i + 1];
            let simple: Option<char> = if e == '"' {
                Some('"')
            } else if e == '\\' {
                Some('\\')
            } else if e == 'n' {
                Some('\n')
            } else if e == 'r' {
                Some('\r')
            } else if e == 't' {
                Some('\t')
            } else {
                None
            };
            match simple {
                Some(x) => {
                    let ghost before = acc@;
                    acc.push(x);
                    proof {
                        match read_lit(cs@, i + 2) {
                            Ok((t, e2)) => {
                                assert(before + (seq![x] + t) =~= acc@ + t);
                            },
                            Err(_) => {},
                        }
                    }
                    i += 2;
                },
                None => {
                    if e != 'u' {
                        let mut m = owned("unknown escape: \\");
                        push(&mut m, e);
                        proof {
                            reveal_strlit("unknown escape: \\");
                        }
                        return Err(m);
                    }
                    if i + 2 >= cs.len() || cs[i + 2] != '{' {
                        return Err(owned("expected '{' after \\u"));
                    }
                    proof {
                        lemma_read_hex_digits(cs@, i + 3);
                    }
                    match read_hex_run(cs, i + 3) {
                        Err(m) => {
                            return Err(m);
                        },
                        Ok((digits, k)) => {
                            let ds = string_from_chars(digits.as_slice());
                            match parse_hex_u32(ds.as_str()) {
                                Err(m) => {
                                    let mut msg = owned("hex decode: ");
                                    push_str(&mut msg, m.as_str());
                                    return Err(msg);
                                },
                                Ok(cp) => match char_from_u32(cp) {
                                    None => {
                                        let mut msg = owned("invalid codepoint U+");
                                        push_hex_padded(&mut msg, cp);
                                        return Err(msg);
                                    },
                                    Some(x) => {
                                        let ghost before = acc@;
                                        acc.push(x);
                                        proof {
                                            assert(x == (hex_number(digits@) as int) as char);
                                            match read_lit(cs@, k as int) {
                                                Ok((t, e2)) => {
                                                    assert(before + (seq![x] + t) =~= acc@ + t);
                                                },
                                                Err(_) => {},
                                            }
                                        }
                                        i = k;
                                    },
                                },
                            }
                        },
                    }
                },
            }
        }
    }
}

/// Appends `n` as `{:04x}` writes it.
fn push_hex_padded(out: &mut String, n: u32)
    ensures
        final(out)@ == old(out)@ + hex4(n as nat),
{
    if n < 0x10000 {
        push_hex4(out, n);
    } else {
        let mut digits: Vec<char> = Vec::new();
        push_lower_hex(&mut digits, n);
        push_str(out, string_from_chars(digits.as_slice()).as_str());
    }
}

/// Appends `n` in lower-case hexadecimal.
fn push_lower_hex(out: &mut Vec<char>, n: u32)
    ensures
        final(out)@ == old(out)@ + lower_hex(n as nat),
    decreases n,
{
    if n >= 16 {
        push_lower_hex(out, n / 16);
    }
    let d = n % 16;
    let c: char = if d < 10 {
        ((48 + d) as u8) as char
    } else {
        ((87 + d) as u8) as char
    };
    out.push(c);
    assert(lower_hex(n as nat) == if n < 16 { seq![hex_lower(n as nat)] } else { lower_hex((n / 16) as nat).push(hex_lower((n % 16) as nat)) });
}

/// Reads the string literal that `text` starts with: its text, and the number of characters it
/// spans, quotes included; or why it is not a well-formed literal.
pub fn read_string_literal(text: &str) -> (r: Result<(String, usize), String>)
    requires
        text@.len() > 0,
        text@[0] == '"',
    ensures
        match read_lit(text@, 1) {
            Ok((t, e)) => r matches Ok((x, k)) && x@ == t && k == e,
            Err(m) => r matches Err(x) && x@ == m,
        },
{
    let cs = chars_of(text);
    read_literal_body(cs.as_slice(), 1)
}

/// Reading four hexadecimal digits and a closing brace at `j`.
proof fn lemma_read_hex4(w: Seq<char>, j: int, n: nat)
    requires
        0 <= j,
        j + 5 <= w.len(),
        n < 0x20,
        w.subrange(j, j + 4) == hex4(n),
        w[j + 4] == '}',
    ensures
        read_hex_digits(w, j) == Ok::<(Seq<char>, int), Seq<char>>((hex4(n), j + 5)),
        hex_number(hex4(n)) == n,
{
    let h = hex4(n);
    assert(h[0] == w[j] && h[1] == w[j + 1] && h[2] == w[j + 2] && h[3] == w[j + 3]);
    assert(n / 4096 == 0 && n / 256 == 0);
    assert(h[0] == '0' && h[1] == '0');
    let d2 = (n / 16) % 16;
    let d3 = n % 16;
    assert(hex_val(hex_lower(d2)) == d2);
    assert(hex_val(hex_lower(d3)) == d3);
    assert(read_hex_digits(w, j + 4) == Ok::<(Seq<char>, int), Seq<char>>((seq![], j + 5)));
    assert(read_hex_digits(w, j + 3) == Ok::<(Seq<char>, int), Seq<char>>((seq![h[3]], j + 5))) by {
        assert(seq![h[3]] + Seq::<char>::empty() =~= seq![h[3]]);
    }
    assert(read_hex_digits(w, j + 2) == Ok::<(Seq<char>, int), Seq<char>>((seq![h[2], h[3]], j + 5))) by {
        assert(seq![h[2]] + seq![h[3]] =~= seq![h[2], h[3]]);
    }
    assert(read_hex_digits(w, j + 1) == Ok::<(Seq<char>, int), Seq<char>>((seq![h[1], h[2], h[3]], j + 5))) by {
        assert(seq![h[1]] + seq![h[2], h[3]] =~= seq![h[1], h[2], h[3]]);
    }
    assert(read_hex_digits(w, j) == Ok::<(Seq<char>, int), Seq<char>>((seq![h[0], h[1], h[2], h[3]], j + 5))) by {
        assert(seq![h[0]] + seq![h[1], h[2], h[3]] =~= seq![h[0], h[1], h[2], h[3]]);
    }
    assert(seq![h[0], h[1], h[2], h[3]] =~= h);
    let h1 = h.drop_last();
    let h2 = h1.drop_last();
    let h3 = h2.drop_last();
    assert(h3.len() == 1 && h3[0] == h[0]);
    assert(h3.drop_last().len() == 0);
    assert(hex_number(h3.drop_last()) == 0);
    assert(hex_val(h3.last()) == 0);
    assert(hex_number(h3) == 0);
    assert(hex_number(h2) == 0);
    assert(hex_number(h1) == d2);
    assert(hex_number(h) == d2 * 16 + d3);
}

/// A character's code point fits in 32 bits and names it.
proof fn lemma_char_code(c: char)
    ensures
        (c as u32) as int == c as int,
        ((c as int) as char) == c,
{
    assert(c as int <= 0x10FFFF);
}

/// Reading an escaped text followed by a closing quote gives the text back.
pub(crate) proof fn lemma_read_escaped(p: Seq<char>, s: Seq<char>, t: Seq<char>)
    ensures
        read_lit(p + escaped(s) + seq!['"'] + t, p.len() as int) == Ok::<(Seq<char>, int), Seq<char>>(
            (s, (p.len() + escaped(s).len() + 1) as int),
        ),
    decreases s.len(),
{
    let w = p + escaped(s) + seq!['"'] + t;
    let i = p.len() as int;
    if s.len() == 0 {
        assert(escaped(s) == Seq::<char>::empty());
        assert(w[i] == '"');
        assert(s =~= Seq::<char>::empty());
    } else {
        let c = s[0];
        let rest = s.drop_first();
        let ec = escape_char(c);
        let p2 = p + ec;
        assert(escaped(s) == ec + escaped(rest));
        assert(w =~= p2 + escaped(rest) + seq!['"'] + t);
        lemma_read_escaped(p2, rest, t);
        let after = read_lit(w, p2.len() as int);
        assert(after == Ok::<(Seq<char>, int), Seq<char>>((rest, (p2.len() + escaped(rest).len() + 1) as int)));
        assert(seq![c] + rest =~= s);
        assert(forall|k: int| 0 <= k < ec.len() ==> w[i + k] == ec[k]);
        if c == '"' || c == '\\' || c == '\n' || c == '\r' || c == '\t' {
            assert(w[i] == '\\');
            assert(read_lit(w, i) == prepend(c, after));
        } else if (c as u32) < 0x20 {
            let n = (c as u32) as nat;
            assert(w[i] == '\\' && w[i + 1] == 'u' && w[i + 2] == '{');
            assert(w.subrange(i + 3, i + 7) =~= hex4(n));
            assert(w[i + 7] == '}');
            lemma_read_hex4(w, i + 3, n);
            assert(hex4(n).len() == 4);
            lemma_char_code(c);
            assert(read_lit(w, i) == prepend(c, read_lit(w, i + 8)));
        } else {
            assert(w[i] == c);
            assert(ec == seq![c]);
            assert(read_lit(w, i) == prepend(c, after));
        }
        assert(prepend(c, after) == Ok::<(Seq<char>, int), Seq<char>>((s, (p.len() + escaped(s).len() + 1) as int)));
    }
}

/// Reading a literal back gives the text it was written from, and stops just after it: written
/// by `string_literal`, read by `read_string_literal`, whatever follows it.
pub proof fn law_literal_roundtrip(s: Seq<char>, rest: Seq<char>)
    ensures
        read_lit(literal(s) + rest, 1) == Ok::<(Seq<char>, int), Seq<char>>((s, literal(s).len() as int)),
{
    lemma_read_escaped(seq!['"'], s, rest);
    assert(literal(s) + rest =~= seq!['"'] + escaped(s) + seq!['"'] + rest);
}

} // verus!
