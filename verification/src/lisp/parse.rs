//! Reading the S-expression form of a document back into a tree. A small reader for exactly
//! this grammar:
//!
//! ```text
//!   (document CHILD…)
//!   (element :tag "NAME" [:attrs ((KEY "VALUE") …)] CHILD…)
//!   (text "STRING")
//!   (comment "STRING")
//!   (… :elided N)
//! ```
//!
//! Text is first read into forms (symbols, `:keywords`, string literals and lists, with
//! whitespace and `;` line comments between them), and the forms are then turned into nodes.
use vstd::prelude::*;

use super::{char_debug, debug_char, read_lit, read_literal_body};
use crate::dom::{attrs_view, nodes_view, DataView, Document, ElementData, Node, NodeData, NodeView};
use crate::text::{is_ws, is_ws_exec, push_str, string_from_chars};

verus! {

// ─── forms ───────────────────────────────────────────────────────

/// A form as read: a symbol, a keyword without its colon, a string, or a list of forms.
pub enum SForm {
    Symbol(Seq<char>),
    Keyword(Seq<char>),
    Str(Seq<char>),
    List(Seq<SForm>),
}

/// The text `{:?}` writes for a string.
pub uninterp spec fn str_debug(s: Seq<char>) -> Seq<char>;

/// `format!("{s:?}")`: how `Debug` writes a string. Claimed: the text is the one named
/// `str_debug` of the string, a function of the string alone.
#[verifier::external_body]
fn debug_str(s: &str) -> (r: String)
    ensures
        r@ == str_debug(s@),
{
    format!("{s:?}")
}

/// How a form is shown in an error: as `Debug` shows the reader's forms, `Symbol("x")`,
/// `Keyword("x")`, `String("x")` or `List([…, …])`.
pub open spec fn form_debug(f: SForm) -> Seq<char>
    decreases f,
{
    match f {
        SForm::Symbol(s) => "Symbol("@ + str_debug(s) + ")"@,
        SForm::Keyword(s) => "Keyword("@ + str_debug(s) + ")"@,
        SForm::Str(s) => "String("@ + str_debug(s) + ")"@,
        SForm::List(v) => "List(["@ + forms_debug(v) + "])"@,
    }
}

/// Forms shown one after another, separated by `, `.
pub open spec fn forms_debug(v: Seq<SForm>) -> Seq<char>
    decreases v,
{
    if v.len() == 0 {
        seq![]
    } else {
        proof {
            assert(decreases_to!(v => v.drop_last()));
            assert(decreases_to!(v => v[v.len() - 1]));
        }
        if v.len() == 1 {
            form_debug(v[0])
        } else {
            forms_debug(v.drop_last()) + ", "@ + form_debug(v.last())
        }
    }
}

// ─── reading forms, as spec ──────────────────────────────────────

/// The index of the first character from `i` on that is neither whitespace nor inside a `;`
/// comment (which runs to the end of its line).
pub open spec fn skip_ws(s: Seq<char>, i: int) -> int
    decreases s.len() - i, 1int,
{
    if i < 0 || i >= s.len() {
        i
    } else if is_ws(s[i]) {
        skip_ws(s, i + 1)
    } else if s[i] == ';' {
        skip_line(s, i + 1)
    } else {
        i
    }
}

/// Inside a comment: skipping up to and past the end of the line, then on as `skip_ws`.
pub open spec fn skip_line(s: Seq<char>, i: int) -> int
    decreases s.len() - i, 0int,
{
    if i < 0 || i >= s.len() {
        i
    } else if s[i] == '\n' {
        skip_ws(s, i + 1)
    } else {
        skip_line(s, i + 1)
    }
}

/// A character that ends a symbol or keyword.
pub open spec fn is_delim(c: char) -> bool {
    is_ws(c) || c == '(' || c == ')' || c == '"'
}

/// The end of the symbol or keyword that starts at `i`.
pub open spec fn ident_end(s: Seq<char>, i: int) -> int
    decreases s.len() - i,
{
    if i < 0 || i >= s.len() || is_delim(s[i]) {
        i
    } else {
        ident_end(s, i + 1)
    }
}

/// Reading one form from `i`: the form and the index just after it, or why not.
pub open spec fn read_form(s: Seq<char>, i: int) -> Result<(SForm, int), Seq<char>>
    decreases s.len() - i, 0int,
{
    let j = skip_ws(s, i);
    if j < 0 || j >= s.len() {
        Err("unexpected EOF"@)
    } else if s[j] == '(' {
        proof {
            lemma_skip_ws(s, i);
        }
        if j < i {
            Err("unexpected EOF"@)
        } else {
            match read_items(s, j + 1) {
                Ok((v, e)) => Ok((SForm::List(v), e)),
                Err(m) => Err(m),
            }
        }
    } else if s[j] == '"' {
        match read_lit(s, j + 1) {
            Ok((t, e)) => Ok((SForm::Str(t), e)),
            Err(m) => Err(m),
        }
    } else if s[j] == ':' {
        let e = ident_end(s, j + 1);
        if e == j + 1 {
            Err("bare ':' with no keyword name"@)
        } else {
            Ok((SForm::Keyword(s.subrange(j + 1, e)), e))
        }
    } else {
        let e = ident_end(s, j);
        if e == j {
            Err("unexpected character "@ + char_debug(s[j]))
        } else {
            Ok((SForm::Symbol(s.subrange(j, e)), e))
        }
    }
}

/// Reading the rest of a list from `i`, just after its opening parenthesis or a form in it: the
/// forms up to the closing parenthesis and the index after it, or why not.
pub open spec fn read_items(s: Seq<char>, i: int) -> Result<(Seq<SForm>, int), Seq<char>>
    decreases s.len() - i, 1int,
{
    let j = skip_ws(s, i);
    proof {
        lemma_skip_ws(s, i);
    }
    if j < 0 || j >= s.len() || j < i {
        Err("unterminated list (missing `)`)"@)
    } else if s[j] == ')' {
        Ok((seq![], j + 1))
    } else {
        match read_form(s, j) {
            Err(m) => Err(m),
            Ok((f, k)) => if k <= j || k > s.len() {
                Err("unterminated list (missing `)`)"@)
            } else {
                match read_items(s, k) {
                    Ok((fs, e)) => Ok((seq![f] + fs, e)),
                    Err(m) => Err(m),
                }
            },
        }
    }
}

/// Skipping moves forward, and stops at the end or at a character that starts a form.
pub proof fn lemma_skip_ws(s: Seq<char>, i: int)
    ensures
        0 <= i ==> i <= skip_ws(s, i),
        0 <= i <= s.len() ==> skip_ws(s, i) <= s.len(),
        0 <= i <= s.len() && skip_ws(s, i) < s.len() ==> !is_ws(s[skip_ws(s, i)]) && s[skip_ws(s, i)] != ';',
    decreases s.len() - i, 1int,
{
    if 0 <= i < s.len() {
        if is_ws(s[i]) {
            lemma_skip_ws(s, i + 1);
        } else if s[i] == ';' {
            lemma_skip_line(s, i + 1);
        }
    }
}

/// Skipping a comment moves forward, and stops as `skip_ws` does.
pub proof fn lemma_skip_line(s: Seq<char>, i: int)
    ensures
        0 <= i ==> i <= skip_line(s, i),
        0 <= i <= s.len() ==> skip_line(s, i) <= s.len(),
        0 <= i <= s.len() && skip_line(s, i) < s.len() ==> !is_ws(s[skip_line(s, i)]) && s[skip_line(s, i)]
            != ';',
    decreases s.len() - i, 0int,
{
    if 0 <= i < s.len() {
        if s[i] == '\n' {
            lemma_skip_ws(s, i + 1);
        } else {
            lemma_skip_line(s, i + 1);
        }
    }
}

/// A symbol or keyword runs up to the first delimiter.
pub proof fn lemma_ident_end(s: Seq<char>, i: int)
    requires
        0 <= i <= s.len(),
    ensures
        i <= ident_end(s, i) <= s.len(),
        ident_end(s, i) < s.len() ==> is_delim(s[ident_end(s, i)]),
        forall|k: int| i <= k < ident_end(s, i) ==> !is_delim(#[trigger] s[k]),
    decreases s.len() - i,
{
    if i < s.len() && !is_delim(s[i]) {
        lemma_ident_end(s, i + 1);
    }
}

/// Reading a literal moves forward and stays within the text.
pub proof fn lemma_read_lit_progress(s: Seq<char>, i: int)
    requires
        0 <= i,
    ensures
        read_lit(s, i) matches Ok((_, e)) ==> i < e <= s.len(),
    decreases s.len() - i,
{
    if i < s.len() && s[i] != '"' {
        if s[i] != '\\' {
            lemma_read_lit_progress(s, i + 1);
        } else if i + 1 < s.len() {
            let e = s[i + 1];
            if e == '"' || e == '\\' || e == 'n' || e == 'r' || e == 't' {
                lemma_read_lit_progress(s, i + 2);
            } else if e == 'u' && i + 2 < s.len() && s[i + 2] == '{' {
                super::lemma_read_hex_digits(s, i + 3);
                match super::read_hex_digits(s, i + 3) {
                    Ok((ds, k)) => {
                        lemma_read_lit_progress(s, k);
                    },
                    Err(_) => {},
                }
            }
        }
    }
}

/// Reading a form or the rest of a list moves forward and stays within the text.
pub proof fn lemma_read_progress(s: Seq<char>, i: int)
    requires
        0 <= i <= s.len(),
    ensures
        read_form(s, i) matches Ok((_, e)) ==> i < e <= s.len() && skip_ws(s, i) < e,
        read_items(s, i) matches Ok((_, e)) ==> i < e <= s.len(),
    decreases s.len() - i,
{
    lemma_skip_ws(s, i);
    let j = skip_ws(s, i);
    if j < s.len() {
        if s[j] == '(' {
            if j + 1 <= s.len() {
                lemma_read_progress(s, j + 1);
            }
        } else if s[j] == '"' {
            lemma_read_lit_progress(s, j + 1);
        } else if s[j] == ':' {
            lemma_ident_end(s, j + 1);
        } else {
            lemma_ident_end(s, j);
        }
        if s[j] != ')' {
            match read_form(s, j) {
                Ok((f, k)) => {
                    if j < k <= s.len() {
                        lemma_read_progress(s, k);
                    }
                },
                Err(_) => {},
            }
        }
    }
}

// ─── forms into nodes, as spec ───────────────────────────────────

/// A text node.
pub open spec fn text_node(t: Seq<char>) -> NodeView {
    NodeView { data: DataView::Text(t), children: seq![] }
}

/// A document node with these children.
pub open spec fn document_node(children: Seq<NodeView>) -> NodeView {
    NodeView { data: DataView::Document, children }
}

/// The string a form holds, or why it is not a string.
pub open spec fn expect_string(f: SForm) -> Result<Seq<char>, Seq<char>> {
    match f {
        SForm::Str(s) => Ok(s),
        _ => Err("expected string, got "@ + form_debug(f)),
    }
}

/// The forms a list holds, or why it is not a list.
pub open spec fn expect_list(f: SForm) -> Result<Seq<SForm>, Seq<char>> {
    match f {
        SForm::List(v) => Ok(v),
        _ => Err("expected list, got "@ + form_debug(f)),
    }
}

/// An attribute key: a keyword or a string.
pub open spec fn attr_key_of(f: SForm) -> Result<Seq<char>, Seq<char>> {
    match f {
        SForm::Keyword(k) => Ok(k),
        SForm::Str(k) => Ok(k),
        _ => Err("attr key must be keyword or string, got "@ + form_debug(f)),
    }
}

/// One `(KEY "VALUE")` entry of `:attrs`.
pub open spec fn attr_pair(p: SForm) -> Result<(Seq<char>, Seq<char>), Seq<char>> {
    match expect_list(p) {
        Err(m) => Err(m),
        Ok(items) => if items.len() != 2 {
            Err(":attrs entry must be (:key \"value\")"@)
        } else {
            match attr_key_of(items[0]) {
                Err(m) => Err(m),
                Ok(k) => match expect_string(items[1]) {
                    Ok(v) => Ok((k, v)),
                    Err(m) => Err(m),
                },
            }
        },
    }
}

/// All entries of `:attrs`, in order; the first bad entry is the error.
pub open spec fn attr_pairs(ps: Seq<SForm>) -> Result<Seq<(Seq<char>, Seq<char>)>, Seq<char>>
    decreases ps.len(),
{
    if ps.len() == 0 {
        Ok(seq![])
    } else {
        match attr_pairs(ps.drop_last()) {
            Err(m) => Err(m),
            Ok(a) => match attr_pair(ps.last()) {
                Ok(p) => Ok(a.push(p)),
                Err(m) => Err(m),
            },
        }
    }
}

/// `(text "S")` or `(comment "S")` after its head: exactly one string.
pub open spec fn one_string(rest: Seq<SForm>, what: Seq<char>) -> Result<Seq<char>, Seq<char>> {
    if rest.len() != 1 {
        Err(what + " expects one string arg"@)
    } else {
        expect_string(rest[0])
    }
}

/// The rest of `(element …)` from position `k`, with the tag, attributes and children found so
/// far. `:tag` takes the string after it (a later one wins), `:attrs` the list after it (each
/// adds its entries), and a list is a child (an elided subtree `(… :elided N)` is an empty text
/// node).
pub open spec fn element_scan(
    rest: Seq<SForm>,
    k: int,
    tag: Option<Seq<char>>,
    attrs: Seq<(Seq<char>, Seq<char>)>,
    children: Seq<NodeView>,
) -> Result<NodeView, Seq<char>>
    decreases rest, rest.len() - k,
{
    if k < 0 || k >= rest.len() {
        match tag {
            None => Err("(element …) missing :tag"@),
            Some(t) => Ok(NodeView { data: DataView::Element { tag: t, attributes: attrs }, children }),
        }
    } else {
        match rest[k] {
            SForm::Keyword(kw) => if kw == "tag"@ {
                if k + 1 >= rest.len() {
                    Err(":tag missing value"@)
                } else {
                    match expect_string(rest[k + 1]) {
                        Ok(v) => element_scan(rest, k + 2, Some(v), attrs, children),
                        Err(m) => Err(m),
                    }
                }
            } else if kw == "attrs"@ {
                if k + 1 >= rest.len() {
                    Err(":attrs missing value"@)
                } else {
                    match expect_list(rest[k + 1]) {
                        Err(m) => Err(m),
                        Ok(ps) => match attr_pairs(ps) {
                            Ok(a) => element_scan(rest, k + 2, tag, attrs + a, children),
                            Err(m) => Err(m),
                        },
                    }
                }
            } else {
                Err("unexpected form in (element …): "@ + form_debug(rest[k]))
            },
            SForm::List(_) => {
                proof {
                    assert(decreases_to!(rest => rest[k]));
                }
                match form_to_node(rest[k]) {
                    Ok(n) => element_scan(rest, k + 1, tag, attrs, children.push(n)),
                    Err(m) => Err(m),
                }
            },
            _ => Err("unexpected form in (element …): "@ + form_debug(rest[k])),
        }
    }
}

/// Each form as a node, in order; the first bad form is the error.
pub open spec fn forms_to_nodes(rest: Seq<SForm>) -> Result<Seq<NodeView>, Seq<char>>
    decreases rest, 0int,
{
    if rest.len() == 0 {
        Ok(seq![])
    } else {
        proof {
            assert(decreases_to!(rest => rest.drop_last()));
            assert(decreases_to!(rest => rest[rest.len() - 1]));
        }
        match forms_to_nodes(rest.drop_last()) {
            Err(m) => Err(m),
            Ok(ns) => match form_to_node(rest.last()) {
                Ok(n) => Ok(ns.push(n)),
                Err(m) => Err(m),
            },
        }
    }
}

/// A form as a node, by the symbol at its head: `text`, `comment`, `element`, `document`, or
/// `…` for an elided subtree (an empty text node).
pub open spec fn form_to_node(f: SForm) -> Result<NodeView, Seq<char>>
    decreases f, 0int,
{
    match f {
        SForm::List(items) => if items.len() == 0 {
            Err("empty node form"@)
        } else {
            match items[0] {
                SForm::Symbol(h) => {
                    proof {
                        assert(decreases_to!(f => items));
                        assert(decreases_to!(items => items.drop_first()));
                    }
                    let rest = items.drop_first();
                    if h == "text"@ {
                        match one_string(rest, "(text …)"@) {
                            Ok(t) => Ok(text_node(t)),
                            Err(m) => Err(m),
                        }
                    } else if h == "comment"@ {
                        match one_string(rest, "(comment …)"@) {
                            Ok(t) => Ok(NodeView { data: DataView::Comment(t), children: seq![] }),
                            Err(m) => Err(m),
                        }
                    } else if h == "element"@ {
                        element_scan(rest, 0, None, seq![], seq![])
                    } else if h == "document"@ {
                        match forms_to_nodes(rest) {
                            Ok(cs) => Ok(document_node(cs)),
                            Err(m) => Err(m),
                        }
                    } else if h == "…"@ {
                        Ok(text_node(seq![]))
                    } else {
                        Err("unknown node head: "@ + h)
                    }
                },
                _ => Err("expected symbol at head, got "@ + form_debug(items[0])),
            }
        },
        _ => Err("expected list, got "@ + form_debug(f)),
    }
}

/// The top-level form: `(document CHILD…)`.
pub open spec fn document_root(f: SForm) -> Result<NodeView, Seq<char>> {
    match f {
        SForm::List(items) => if items.len() == 0 {
            Err("empty form"@)
        } else if items[0] == SForm::Symbol("document"@) {
            match forms_to_nodes(items.drop_first()) {
                Ok(cs) => Ok(document_node(cs)),
                Err(m) => Err(m),
            }
        } else {
            Err("expected top-level (document …), got ("@ + form_debug(items[0]) + " …)"@)
        },
        _ => Err("expected list at top level, got "@ + form_debug(f)),
    }
}

/// Reading a whole text: one form, then nothing but whitespace and comments, and the form as a
/// document.
pub open spec fn parse_sexp(s: Seq<char>) -> Result<NodeView, Seq<char>> {
    match read_form(s, skip_ws(s, 0)) {
        Err(m) => Err(m),
        Ok((f, e)) => if skip_ws(s, e) < s.len() {
            Err("trailing content after (document …)"@)
        } else {
            document_root(f)
        },
    }
}

// ─── reading forms ───────────────────────────────────────────────

/// A form as the reader builds it.
enum Form {
    Symbol(String),
    Keyword(String),
    Str(String),
    List(Vec<Form>),
}

/// A form as a plain value.
spec fn form_view(f: Form) -> SForm
    decreases f,
{
    match f {
        Form::Symbol(s) => SForm::Symbol(s@),
        Form::Keyword(s) => SForm::Keyword(s@),
        Form::Str(s) => SForm::Str(s@),
        Form::List(v) => {
            proof {
                assert(decreases_to!(v => v@));
            }
            SForm::List(forms_view(v@))
        },
    }
}

/// Forms as plain values, in order.
spec fn forms_view(v: Seq<Form>) -> Seq<SForm>
    decreases v,
{
    if v.len() == 0 {
        seq![]
    } else {
        proof {
            assert(decreases_to!(v => v.drop_last()));
            assert(decreases_to!(v => v[v.len() - 1]));
        }
        forms_view(v.drop_last()).push(form_view(v.last()))
    }
}

proof fn lemma_forms_view(v: Seq<Form>)
    ensures
        forms_view(v).len() == v.len(),
        forall|i: int| 0 <= i < v.len() ==> #[trigger] forms_view(v)[i] == form_view(v[i]),
    decreases v.len(),
{
    if v.len() > 0 {
        lemma_forms_view(v.drop_last());
    }
}

/// `front` in front of the forms read.
pub open spec fn glue_forms(front: Seq<SForm>, r: Result<(Seq<SForm>, int), Seq<char>>) -> Result<
    (Seq<SForm>, int),
    Seq<char>,
> {
    match r {
        Ok((fs, e)) => Ok((front + fs, e)),
        Err(m) => Err(m),
    }
}

fn form_debug_exec(f: &Form) -> (r: String)
    ensures
        r@ == form_debug(form_view(*f)),
    decreases f, 1int,
{
    match f {
        Form::Symbol(s) => {
            let mut out = crate::text::owned("Symbol(");
            push_str(&mut out, debug_str(s.as_str()).as_str());
            push_str(&mut out, ")");
            out
        },
        Form::Keyword(s) => {
            let mut out = crate::text::owned("Keyword(");
            push_str(&mut out, debug_str(s.as_str()).as_str());
            push_str(&mut out, ")");
            out
        },
        Form::Str(s) => {
            let mut out = crate::text::owned("String(");
            push_str(&mut out, debug_str(s.as_str()).as_str());
            push_str(&mut out, ")");
            out
        },
        Form::List(v) => {
            let mut out = crate::text::owned("List([");
            let inner = forms_debug_exec(v);
            push_str(&mut out, inner.as_str());
            push_str(&mut out, "])");
            out
        },
    }
}

fn forms_debug_exec(v: &Vec<Form>) -> (r: String)
    ensures
        r@ == forms_debug(forms_view(v@)),
    decreases v, 0int,
{
    let ghost fv = forms_view(v@);
    proof {
        lemma_forms_view(v@);
    }
    let mut out = String::new();
    let mut i: usize = 0;
    while i < v.len()
        invariant
            i <= v@.len(),
            fv == forms_view(v@),
            fv.len() == v@.len(),
            forall|j: int| 0 <= j < fv.len() ==> #[trigger] fv[j] == form_view(v@[j]),
            out@ == forms_debug(fv.take(i as int)),
        decreases v@.len() - i,
    {
        proof {
            assert(fv.take(i + 1).drop_last() =~= fv.take(i as int));
            assert(decreases_to!(v => v@));
            assert(decreases_to!(v@ => v@[i as int]));
        }
        if i > 0 {
            push_str(&mut out, ", ");
        }
        let d = form_debug_exec(&v[i]);
        push_str(&mut out, d.as_str());
        i += 1;
    }
    assert(fv.take(fv.len() as int) =~= fv);
    out
}

fn skip_ws_exec(cs: &[char], i: usize) -> (r: usize)
    requires
        i <= cs@.len(),
    ensures
        r == skip_ws(cs@, i as int),
{
    let mut k = i;
    let mut in_comment = false;
    while k < cs.len() && (in_comment || is_ws_exec(cs[k]) || cs[k] == ';')
        invariant
            i <= k <= cs@.len(),
            skip_ws(cs@, i as int) == if in_comment {
                skip_line(cs@, k as int)
            } else {
                skip_ws(cs@, k as int)
            },
        decreases cs@.len() - k,
    {
        if in_comment {
            if cs[k] == '\n' {
                in_comment = false;
            }
        } else if !is_ws_exec(cs[k]) {
            in_comment = true;
        }
        k += 1;
    }
    k
}

fn ident_end_exec(cs: &[char], i: usize) -> (r: usize)
    requires
        i <= cs@.len(),
    ensures
        r == ident_end(cs@, i as int),
{
    let mut k = i;
    while k < cs.len() && !(is_ws_exec(cs[k]) || cs[k] == '(' || cs[k] == ')' || cs[k] == '"')
        invariant
            i <= k <= cs@.len(),
            ident_end(cs@, i as int) == ident_end(cs@, k as int),
        decreases cs@.len() - k,
    {
        k += 1;
    }
    k
}

fn read_form_exec(cs: &[char], i: usize) -> (r: Result<(Form, usize), String>)
    requires
        i <= cs@.len(),
    ensures
        match read_form(cs@, i as int) {
            Ok((f, e)) => r matches Ok((x, k)) && form_view(x) == f && k == e,
            Err(m) => r matches Err(x) && x@ == m,
        },
    decreases cs@.len() - i, 0int,
{
    let j = skip_ws_exec(cs, i);
    proof {
        lemma_skip_ws(cs@, i as int);
    }
    if j >= cs.len() {
        return Err(crate::text::owned("unexpected EOF"));
    }
    let c = cs[j];
    if c == '(' {
        match read_items_exec(cs, j + 1) {
            Ok((v, e)) => Ok((Form::List(v), e)),
            Err(m) => Err(m),
        }
    } else if c == '"' {
        match read_literal_body(cs, j + 1) {
            Ok((t, e)) => Ok((Form::Str(t), e)),
            Err(m) => Err(m),
        }
    } else if c == ':' {
        let e = ident_end_exec(cs, j + 1);
        proof {
            lemma_ident_end(cs@, j + 1);
        }
        if e == j + 1 {
            Err(crate::text::owned("bare ':' with no keyword name"))
        } else {
            let name = crate::text::slice_chars(cs, j + 1, e);
            Ok((Form::Keyword(string_from_chars(name.as_slice())), e))
        }
    } else {
        let e = ident_end_exec(cs, j);
        proof {
            lemma_ident_end(cs@, j as int);
        }
        if e == j {
            let mut m = crate::text::owned("unexpected character ");
            push_str(&mut m, debug_char(c).as_str());
            Err(m)
        } else {
            let name = crate::text::slice_chars(cs, j, e);
            Ok((Form::Symbol(string_from_chars(name.as_slice())), e))
        }
    }
}

fn read_items_exec(cs: &[char], i: usize) -> (r: Result<(Vec<Form>, usize), String>)
    requires
        i <= cs@.len(),
    ensures
        match read_items(cs@, i as int) {
            Ok((v, e)) => r matches Ok((x, k)) && forms_view(x@) == v && k == e,
            Err(m) => r matches Err(x) && x@ == m,
        },
    decreases cs@.len() - i, 1int,
{
    let mut out: Vec<Form> = Vec::new();
    let mut k = i;
    assert(forms_view(out@) =~= Seq::<SForm>::empty());
    assert(read_items(cs@, i as int) == glue_forms(forms_view(out@), read_items(cs@, k as int))) by {
        match read_items(cs@, i as int) {
            Ok((fs, e)) => {
                assert(Seq::<SForm>::empty() + fs =~= fs);
            },
            Err(_) => {},
        }
    }
    loop
        invariant
            i <= k <= cs@.len(),
            read_items(cs@, i as int) == glue_forms(forms_view(out@), read_items(cs@, k as int)),
        decreases cs@.len() - k,
    {
        let j = skip_ws_exec(cs, k);
        proof {
            lemma_skip_ws(cs@, k as int);
        }
        if j >= cs.len() {
            return Err(crate::text::owned("unterminated list (missing `)`)"));
        }
        if cs[j] == ')' {
            proof {
                assert(forms_view(out@) + Seq::<SForm>::empty() =~= forms_view(out@));
            }
            return Ok((out, j + 1));
        }
        proof {
            lemma_read_progress(cs@, j as int);
            lemma_skip_ws(cs@, j as int);
            assert(skip_ws(cs@, j as int) == j);
        }
        match read_form_exec(cs, j) {
            Err(m) => {
                return Err(m);
            },
            Ok((f, e)) => {
                let ghost before = forms_view(out@);
                let ghost before_seq = out@;
                let ghost fv = form_view(f);
                proof {
                    assert(read_items(cs@, k as int) == match read_items(cs@, e as int) {
                        Ok((fs, e2)) => Ok((seq![fv] + fs, e2)),
                        Err(m) => Err(m),
                    });
                }
                out.push(f);
                proof {
                    assert(out@.drop_last() =~= before_seq);
                    assert(forms_view(out@) == before.push(fv));
                    match read_items(cs@, e as int) {
                        Ok((fs, e2)) => {
                            assert(before + (seq![fv] + fs) =~= before.push(fv) + fs);
                        },
                        Err(_) => {},
                    }
                }
                k = e;
            },
        }
    }
}

// ─── forms into nodes ────────────────────────────────────────────

/// An optional string as optional text.
spec fn opt_view(o: Option<String>) -> Option<Seq<char>> {
    match o {
        Some(x) => Some(x@),
        None => None,
    }
}

/// A bad prefix makes the whole list of entries bad, with the same error.
proof fn lemma_attr_pairs_err(ps: Seq<SForm>, j: int)
    requires
        0 <= j <= ps.len(),
        attr_pairs(ps.take(j)) is Err,
    ensures
        attr_pairs(ps) == attr_pairs(ps.take(j)),
    decreases ps.len(),
{
    if j == ps.len() {
        assert(ps.take(j) =~= ps);
    } else {
        assert(ps.drop_last().take(j) =~= ps.take(j));
        lemma_attr_pairs_err(ps.drop_last(), j);
    }
}

/// A bad prefix makes the whole list of forms bad, with the same error.
proof fn lemma_forms_to_nodes_err(fs: Seq<SForm>, j: int)
    requires
        0 <= j <= fs.len(),
        forms_to_nodes(fs.take(j)) is Err,
    ensures
        forms_to_nodes(fs) == forms_to_nodes(fs.take(j)),
    decreases fs.len(),
{
    if j == fs.len() {
        assert(fs.take(j) =~= fs);
    } else {
        assert(fs.drop_last().take(j) =~= fs.take(j));
        lemma_forms_to_nodes_err(fs.drop_last(), j);
    }
}

fn with_debug(prefix: &str, f: &Form) -> (r: String)
    ensures
        r@ == prefix@ + form_debug(form_view(*f)),
{
    let mut m = crate::text::owned(prefix);
    let d = form_debug_exec(f);
    push_str(&mut m, d.as_str());
    m
}

fn expect_string_exec(f: &Form) -> (r: Result<String, String>)
    ensures
        match expect_string(form_view(*f)) {
            Ok(v) => r matches Ok(x) && x@ == v,
            Err(m) => r matches Err(x) && x@ == m,
        },
{
    match f {
        Form::Str(s) => Ok(crate::text::owned(s.as_str())),
        _ => Err(with_debug("expected string, got ", f)),
    }
}

fn attr_pair_exec(p: &Form) -> (r: Result<(String, String), String>)
    ensures
        match attr_pair(form_view(*p)) {
            Ok(kv) => r matches Ok(x) && x.0@ == kv.0 && x.1@ == kv.1,
            Err(m) => r matches Err(x) && x@ == m,
        },
{
    match p {
        Form::List(items) => {
            proof {
                lemma_forms_view(items@);
            }
            if items.len() != 2 {
                return Err(crate::text::owned(":attrs entry must be (:key \"value\")"));
            }
            let key = match &items[0] {
                Form::Keyword(k) => crate::text::owned(k.as_str()),
                Form::Str(k) => crate::text::owned(k.as_str()),
                _ => {
                    return Err(with_debug("attr key must be keyword or string, got ", &items[0]));
                },
            };
            match expect_string_exec(&items[1]) {
                Ok(v) => Ok((key, v)),
                Err(m) => Err(m),
            }
        },
        _ => Err(with_debug("expected list, got ", p)),
    }
}

fn attr_pairs_exec(ps: &Vec<Form>) -> (r: Result<Vec<(String, String)>, String>)
    ensures
        match attr_pairs(forms_view(ps@)) {
            Ok(a) => r matches Ok(x) && attrs_view(x@) == a,
            Err(m) => r matches Err(x) && x@ == m,
        },
{
    let ghost fv = forms_view(ps@);
    proof {
        lemma_forms_view(ps@);
        assert(fv.take(0) =~= Seq::<SForm>::empty());
        assert(attrs_view(Seq::<(String, String)>::empty()) =~= Seq::<(Seq<char>, Seq<char>)>::empty());
    }
    let mut out: Vec<(String, String)> = Vec::new();
    let mut i: usize = 0;
    while i < ps.len()
        invariant
            i <= ps@.len(),
            fv == forms_view(ps@),
            fv.len() == ps@.len(),
            forall|j: int| 0 <= j < fv.len() ==> #[trigger] fv[j] == form_view(ps@[j]),
            attr_pairs(fv.take(i as int)) == Ok::<Seq<(Seq<char>, Seq<char>)>, Seq<char>>(attrs_view(out@)),
        decreases ps@.len() - i,
    {
        proof {
            assert(fv.take(i + 1).drop_last() =~= fv.take(i as int));
        }
        match attr_pair_exec(&ps[i]) {
            Ok(kv) => {
                let ghost before = out@;
                out.push(kv);
                proof {
                    assert(attrs_view(out@) =~= attrs_view(before).push((out@.last().0@, out@.last().1@)));
                }
            },
            Err(m) => {
                proof {
                    lemma_attr_pairs_err(fv, i + 1);
                }
                return Err(m);
            },
        }
        i += 1;
    }
    assert(fv.take(fv.len() as int) =~= fv);
    Ok(out)
}

fn one_string_exec(items: &Vec<Form>, what: &str) -> (r: Result<String, String>)
    requires
        items@.len() > 0,
    ensures
        match one_string(forms_view(items@).drop_first(), what@) {
            Ok(v) => r matches Ok(x) && x@ == v,
            Err(m) => r matches Err(x) && x@ == m,
        },
{
    proof {
        lemma_forms_view(items@);
    }
    if items.len() != 2 {
        let mut m = crate::text::owned(what);
        push_str(&mut m, " expects one string arg");
        return Err(m);
    }
    expect_string_exec(&items[1])
}

fn element_exec(items: &Vec<Form>) -> (r: Result<Node, String>)
    requires
        items@.len() > 0,
    ensures
        match element_scan(forms_view(items@).drop_first(), 0, None, seq![], seq![]) {
            Ok(n) => r matches Ok(x) && x@ == n,
            Err(m) => r matches Err(x) && x@ == m,
        },
    decreases items, 0int,
{
    let ghost fv = forms_view(items@);
    let ghost rest = fv.drop_first();
    proof {
        lemma_forms_view(items@);
        assert(attrs_view(Seq::<(String, String)>::empty()) =~= Seq::<(Seq<char>, Seq<char>)>::empty());
        assert(nodes_view(Seq::<Node>::empty()) =~= Seq::<NodeView>::empty());
    }
    let mut tag: Option<String> = None;
    let mut attributes: Vec<(String, String)> = Vec::new();
    let mut children: Vec<Node> = Vec::new();
    let mut t: usize = 1;
    while t < items.len()
        invariant
            1 <= t <= items@.len(),
            fv == forms_view(items@),
            rest == fv.drop_first(),
            fv.len() == items@.len(),
            forall|j: int| 0 <= j < fv.len() ==> #[trigger] fv[j] == form_view(items@[j]),
            element_scan(rest, 0, None, seq![], seq![]) == element_scan(
                rest,
                t - 1,
                opt_view(tag),
                attrs_view(attributes@),
                nodes_view(children@),
            ),
        decreases items@.len() - t,
    {
        proof {
            assert(rest[t - 1] == fv[t as int]);
        }
        match &items[t] {
            Form::Keyword(kw) => {
                if crate::text::str_eq(kw.as_str(), "tag") {
                    if t + 1 >= items.len() {
                        return Err(crate::text::owned(":tag missing value"));
                    }
                    proof {
                        assert(rest[t as int] == fv[t + 1]);
                    }
                    match expect_string_exec(&items[t + 1]) {
                        Ok(v) => {
                            tag = Some(v);
                        },
                        Err(m) => {
                            return Err(m);
                        },
                    }
                    t += 2;
                } else if crate::text::str_eq(kw.as_str(), "attrs") {
                    if t + 1 >= items.len() {
                        return Err(crate::text::owned(":attrs missing value"));
                    }
                    proof {
                        assert(rest[t as int] == fv[t + 1]);
                    }
                    match &items[t + 1] {
                        Form::List(ps) => {
                            match attr_pairs_exec(ps) {
                                Ok(more) => {
                                    let ghost before = attributes@;
                                    let mut q: usize = 0;
                                    while q < more.len()
                                        invariant
                                            q <= more@.len(),
                                            attrs_view(attributes@) == attrs_view(before) + attrs_view(more@).take(
                                                q as int,
                                            ),
                                        decreases more@.len() - q,
                                    {
                                        let ghost mid = attributes@;
                                        let k = crate::text::owned(more[q].0.as_str());
                                        let v = crate::text::owned(more[q].1.as_str());
                                        attributes.push((k, v));
                                        proof {
                                            assert(attrs_view(attributes@) =~= attrs_view(mid).push(
                                                (more@[q as int].0@, more@[q as int].1@),
                                            ));
                                            assert(attrs_view(more@).take(q + 1) =~= attrs_view(more@).take(
                                                q as int,
                                            ).push((more@[q as int].0@, more@[q as int].1@)));
                                        }
                                        q += 1;
                                    }
                                    proof {
                                        assert(attrs_view(more@).take(more@.len() as int) =~= attrs_view(more@));
                                    }
                                },
                                Err(m) => {
                                    return Err(m);
                                },
                            }
                        },
                        _ => {
                            return Err(with_debug("expected list, got ", &items[t + 1]));
                        },
                    }
                    t += 2;
                } else {
                    return Err(with_debug("unexpected form in (element …): ", &items[t]));
                }
            },
            Form::List(_) => {
                proof {
                    assert(decreases_to!(items => items@));
                    assert(decreases_to!(items@ => items@[t as int]));
                }
                match form_to_node_exec(&items[t]) {
                    Ok(n) => {
                        let ghost before = children@;
                        children.push(n);
                        proof {
                            assert(children@.drop_last() =~= before);
                        }
                    },
                    Err(m) => {
                        return Err(m);
                    },
                }
                t += 1;
            },
            _ => {
                return Err(with_debug("unexpected form in (element …): ", &items[t]));
            },
        }
    }
    match tag {
        None => Err(crate::text::owned("(element …) missing :tag")),
        Some(name) => Ok(Node { data: NodeData::Element(ElementData { tag: name, attributes }), children }),
    }
}

fn forms_exec(items: &Vec<Form>) -> (r: Result<Vec<Node>, String>)
    requires
        items@.len() > 0,
    ensures
        match forms_to_nodes(forms_view(items@).drop_first()) {
            Ok(ns) => r matches Ok(x) && nodes_view(x@) == ns,
            Err(m) => r matches Err(x) && x@ == m,
        },
    decreases items, 0int,
{
    let ghost fv = forms_view(items@);
    let ghost rest = fv.drop_first();
    proof {
        lemma_forms_view(items@);
        assert(rest.take(0) =~= Seq::<SForm>::empty());
        assert(nodes_view(Seq::<Node>::empty()) =~= Seq::<NodeView>::empty());
    }
    let mut out: Vec<Node> = Vec::new();
    let mut t: usize = 1;
    while t < items.len()
        invariant
            1 <= t <= items@.len(),
            fv == forms_view(items@),
            rest == fv.drop_first(),
            fv.len() == items@.len(),
            forall|j: int| 0 <= j < fv.len() ==> #[trigger] fv[j] == form_view(items@[j]),
            forms_to_nodes(rest.take(t - 1)) == Ok::<Seq<NodeView>, Seq<char>>(nodes_view(out@)),
        decreases items@.len() - t,
    {
        proof {
            assert(rest.take(t as int).drop_last() =~= rest.take(t - 1));
            assert(rest.take(t as int).last() == fv[t as int]);
            assert(decreases_to!(items => items@));
            assert(decreases_to!(items@ => items@[t as int]));
        }
        match form_to_node_exec(&items[t]) {
            Ok(n) => {
                let ghost before = out@;
                out.push(n);
                proof {
                    assert(out@.drop_last() =~= before);
                }
            },
            Err(m) => {
                proof {
                    lemma_forms_to_nodes_err(rest, t as int);
                }
                return Err(m);
            },
        }
        t += 1;
    }
    assert(rest.take(rest.len() as int) =~= rest);
    Ok(out)
}

fn form_to_node_exec(f: &Form) -> (r: Result<Node, String>)
    ensures
        match form_to_node(form_view(*f)) {
            Ok(n) => r matches Ok(x) && x@ == n,
            Err(m) => r matches Err(x) && x@ == m,
        },
    decreases f, 1int,
{
    match f {
        Form::List(items) => {
            proof {
                lemma_forms_view(items@);
                assert(decreases_to!(f => items));
            }
            if items.len() == 0 {
                return Err(crate::text::owned("empty node form"));
            }
            match &items[0] {
                Form::Symbol(h) => {
                    if crate::text::str_eq(h.as_str(), "text") {
                        match one_string_exec(items, "(text …)") {
                            Ok(t) => Ok(Node { data: NodeData::Text(t), children: Vec::new() }),
                            Err(m) => Err(m),
                        }
                    } else if crate::text::str_eq(h.as_str(), "comment") {
                        match one_string_exec(items, "(comment …)") {
                            Ok(t) => Ok(Node { data: NodeData::Comment(t), children: Vec::new() }),
                            Err(m) => Err(m),
                        }
                    } else if crate::text::str_eq(h.as_str(), "element") {
                        element_exec(items)
                    } else if crate::text::str_eq(h.as_str(), "document") {
                        match forms_exec(items) {
                            Ok(cs) => Ok(Node { data: NodeData::Document, children: cs }),
                            Err(m) => Err(m),
                        }
                    } else if crate::text::str_eq(h.as_str(), "…") {
                        Ok(Node { data: NodeData::Text(String::new()), children: Vec::new() })
                    } else {
                        let mut m = crate::text::owned("unknown node head: ");
                        push_str(&mut m, h.as_str());
                        Err(m)
                    }
                },
                _ => Err(with_debug("expected symbol at head, got ", &items[0])),
            }
        },
        _ => Err(with_debug("expected list, got ", f)),
    }
}

fn document_root_exec(f: &Form) -> (r: Result<Document, String>)
    ensures
        match document_root(form_view(*f)) {
            Ok(n) => r matches Ok(x) && x@ == n,
            Err(m) => r matches Err(x) && x@ == m,
        },
{
    match f {
        Form::List(items) => {
            proof {
                lemma_forms_view(items@);
            }
            if items.len() == 0 {
                return Err(crate::text::owned("empty form"));
            }
            let is_doc = match &items[0] {
                Form::Symbol(h) => crate::text::str_eq(h.as_str(), "document"),
                _ => false,
            };
            if is_doc {
                match forms_exec(items) {
                    Ok(cs) => Ok(Document { root: Node { data: NodeData::Document, children: cs } }),
                    Err(m) => Err(m),
                }
            } else {
                let mut m = with_debug("expected top-level (document …), got (", &items[0]);
                push_str(&mut m, " …)");
                Err(m)
            }
        },
        _ => Err(with_debug("expected list at top level, got ", f)),
    }
}

/// Reads the S-expression form of a document back into a tree: the document, or the first
/// thing wrong with the text.
pub fn sexp_to_dom(src: &str) -> (r: Result<Document, String>)
    ensures
        match parse_sexp(src@) {
            Ok(n) => r matches Ok(d) && d@ == n,
            Err(m) => r matches Err(x) && x@ == m,
        },
{
    let cs = crate::text::chars_of(src);
    let i = skip_ws_exec(cs.as_slice(), 0);
    proof {
        lemma_skip_ws(cs@, 0);
    }
    match read_form_exec(cs.as_slice(), i) {
        Err(m) => Err(m),
        Ok((f, e)) => {
            proof {
                lemma_read_progress(cs@, i as int);
            }
            let j = skip_ws_exec(cs.as_slice(), e);
            if j < cs.len() {
                Err(crate::text::owned("trailing content after (document …)"))
            } else {
                document_root_exec(&f)
            }
        },
    }
}

} // verus!
