//! Inline Lisp macros in a page: which elements are macros, how a string is quoted for the
//! evaluator, and the tally of one expansion pass.
use vstd::prelude::*;

use crate::dom::{attr_value, DataView, Node, NodeData};
use crate::text::{chars_of, lower, push, str_eq, string_from_chars, to_ascii_lowercase, trim, trim_chars};

verus! {

/// What one expansion pass did.
#[derive(Debug, Clone, Copy, PartialEq, Eq, Structural)]
pub struct ExpandReport {
    /// Macros evaluated.
    pub evaluated: usize,
    /// Macros whose body failed; each was spliced out empty.
    pub failed: usize,
}

impl Default for ExpandReport {
    fn default() -> (r: Self)
        ensures
            r == (ExpandReport { evaluated: 0, failed: 0 }),
    {
        ExpandReport { evaluated: 0, failed: 0 }
    }
}

/// A `type` naming Lisp source, already trimmed and lower-cased.
pub open spec fn lisp_script_type(t: Seq<char>) -> bool {
    t == "application/tatara-lisp"@ || t == "text/tatara-lisp"@ || t == "text/lisp"@ || t == "application/lisp"@
}

/// A macro element: `<l-eval>`, or a `<script>` whose `type`, trimmed, names Lisp source; tags
/// and types compared without regard to ASCII case.
pub open spec fn macro_element(data: DataView) -> bool {
    match data {
        DataView::Element { tag, attributes } => lower(tag) == "l-eval"@ || (lower(tag) == "script"@ && match attr_value(
            attributes,
            "type"@,
        ) {
            Some(ty) => lisp_script_type(lower(trim(ty))),
            None => false,
        }),
        _ => false,
    }
}

/// Whether `node` is a macro element.
pub fn is_macro_element(node: &Node) -> (r: bool)
    ensures
        r == macro_element(node@.data),
{
    let el = match &node.data {
        NodeData::Element(el) => el,
        _ => return false,
    };
    let tag = to_ascii_lowercase(el.tag.as_str());
    if str_eq(tag.as_str(), "l-eval") {
        return true;
    }
    if str_eq(tag.as_str(), "script") {
        if let Some(ty) = el.get_attribute("type") {
            let cs = chars_of(ty);
            let t = trim_chars(cs.as_slice());
            let ts = string_from_chars(t.as_slice());
            let l = to_ascii_lowercase(ts.as_str());
            return str_eq(l.as_str(), "application/tatara-lisp") || str_eq(l.as_str(), "text/tatara-lisp")
                || str_eq(l.as_str(), "text/lisp") || str_eq(l.as_str(), "application/lisp");
        }
    }
    false
}

/// `s` with `"` and `\` escaped by a backslash.
pub open spec fn quote_escaped(s: Seq<char>) -> Seq<char>
    decreases s.len(),
{
    if s.len() == 0 {
        seq![]
    } else {
        quote_escaped(s.drop_last()) + if s.last() == '"' || s.last() == '\\' {
            seq!['\\', s.last()]
        } else {
            seq![s.last()]
        }
    }
}

/// `s` as a Lisp string literal: in double quotes, with `"` and `\` escaped.
pub fn escape_sexp_string(s: &str) -> (r: String)
    ensures
        r@ == seq!['"'] + quote_escaped(s@) + seq!['"'],
{
    let cs = chars_of(s);
    let mut out = String::new();
    push(&mut out, '"');
    let mut i: usize = 0;
    while i < cs.len()
        invariant
            i <= cs@.len(),
            cs@ == s@,
            out@ == seq!['"'] + quote_escaped(cs@.take(i as int)),
        decreases cs@.len() - i,
    {
        let ch = cs[i];
        proof {
            assert(cs@.take(i + 1).drop_last() =~= cs@.take(i as int));
            assert(cs@.take(i + 1).last() == ch);
        }
        if ch == '"' || ch == '\\' {
            push(&mut out, '\\');
        }
        push(&mut out, ch);
        proof {
            let e = quote_escaped(cs@.take(i + 1));
            assert(out@ =~= seq!['"'] + e);
        }
        i += 1;
    }
    push(&mut out, '"');
    assert(cs@.take(cs@.len() as int) =~= cs@);
    out
}

} // verus!
