//! Reading back what was written: a document written as an S-expression without a depth cap
//! reads back as the tree that was written, whitespace-only text dropped and the rest trimmed
//! when whitespace is trimmed.
use vstd::prelude::*;

use super::emit::{
    attr_sexp, attrs_sexp, child_sep, children_sexp, closing, document_sexp, dropped, element_head, indent,
    node_sexp, shown_text,
};
use super::parse::{
    attr_pair, attr_pairs, element_scan, expect_list, form_to_node, forms_to_nodes, glue_forms, ident_end, is_delim, lemma_read_progress,
    document_node, lemma_skip_ws, parse_sexp, read_form, read_items, skip_ws, SForm,
};
use super::{escaped, is_key_char, key_is_bare, lemma_read_escaped, literal, SexpOptions};
use crate::dom::{DataView, NodeView};
use crate::text::{is_ws, lemma_trim_idempotent};

verus! {

/// The words of the grammar are distinct.
proof fn lemma_words()
    ensures
        "attrs"@ != "tag"@,
        "comment"@ != "text"@,
        "element"@ != "text"@,
        "element"@ != "comment"@,
        "document"@ != "text"@,
        "document"@ != "comment"@,
        "document"@ != "element"@,
        "text"@ != "…"@,
        "comment"@ != "…"@,
        "element"@ != "…"@,
        "document"@ != "…"@,
{
    reveal_strlit("tag");
    reveal_strlit("attrs");
    reveal_strlit("text");
    reveal_strlit("comment");
    reveal_strlit("element");
    reveal_strlit("document");
    reveal_strlit("…");
    assert("tag"@.len() == 3);
    assert("attrs"@.len() == 5);
    assert("text"@.len() == 4);
    assert("comment"@.len() == 7);
    assert("element"@.len() == 7);
    assert("document"@.len() == 8);
    assert("…"@.len() == 1);
    assert("element"@[0] != "comment"@[0]);
}

// ─── positions in a text ─────────────────────────────────────────

/// `w` stands in `s` from index `i`.
pub open spec fn at(s: Seq<char>, i: int, w: Seq<char>) -> bool {
    0 <= i && i + w.len() <= s.len() && s.subrange(i, i + w.len()) == w
}

/// Every character of `w` is whitespace.
pub open spec fn all_ws(w: Seq<char>) -> bool {
    forall|k: int| 0 <= k < w.len() ==> is_ws(#[trigger] w[k])
}

proof fn lemma_at_split(s: Seq<char>, i: int, a: Seq<char>, b: Seq<char>)
    requires
        at(s, i, a + b),
    ensures
        at(s, i, a),
        at(s, i + a.len(), b),
{
    let w = s.subrange(i, i + (a + b).len());
    assert(w == a + b);
    assert(s.subrange(i, i + a.len()) =~= w.subrange(0, a.len() as int));
    assert(w.subrange(0, a.len() as int) =~= a);
    assert(s.subrange(i + a.len(), i + a.len() + b.len()) =~= w.subrange(a.len() as int, w.len() as int));
    assert(w.subrange(a.len() as int, w.len() as int) =~= b);
}

proof fn lemma_at_char(s: Seq<char>, i: int, w: Seq<char>, k: int)
    requires
        at(s, i, w),
        0 <= k < w.len(),
    ensures
        s[i + k] == w[k],
{
    assert(s.subrange(i, i + w.len())[k] == s[i + k]);
}

/// Skipping whitespace `w` that is followed by the start of a form.
proof fn lemma_skip_over(s: Seq<char>, i: int, w: Seq<char>)
    requires
        at(s, i, w),
        all_ws(w),
        i + w.len() < s.len(),
        !is_ws(s[i + w.len()]),
        s[i + w.len()] != ';',
    ensures
        skip_ws(s, i) == i + w.len(),
    decreases w.len(),
{
    if w.len() > 0 {
        lemma_at_char(s, i, w, 0);
        assert(w =~= seq![w[0]] + w.drop_first());
        lemma_at_split(s, i, seq![w[0]], w.drop_first());
        lemma_skip_over(s, i + 1, w.drop_first());
    }
}

proof fn lemma_glue_assoc(a: Seq<SForm>, b: Seq<SForm>, r: Result<(Seq<SForm>, int), Seq<char>>)
    ensures
        glue_forms(a, glue_forms(b, r)) == glue_forms(a + b, r),
{
    match r {
        Ok((fs, e)) => {
            assert(a + (b + fs) =~= (a + b) + fs);
        },
        Err(_) => {},
    }
}

proof fn lemma_glue_empty(r: Result<(Seq<SForm>, int), Seq<char>>)
    ensures
        glue_forms(seq![], r) == r,
{
    match r {
        Ok((fs, e)) => {
            assert(Seq::<SForm>::empty() + fs =~= fs);
        },
        Err(_) => {},
    }
}

/// One more form in a list, after whitespace.
proof fn lemma_items_step(s: Seq<char>, i: int, w: Seq<char>, f: SForm, k: int)
    requires
        at(s, i, w),
        all_ws(w),
        i + w.len() < s.len(),
        !is_ws(s[i + w.len()]),
        s[i + w.len()] != ';',
        s[i + w.len()] != ')',
        read_form(s, i + w.len()) == Ok::<(SForm, int), Seq<char>>((f, k)),
    ensures
        read_items(s, i) == glue_forms(seq![f], read_items(s, k)),
{
    lemma_skip_over(s, i, w);
    lemma_skip_ws(s, i);
    lemma_read_progress(s, i + w.len());
}

/// The end of a list, after whitespace.
proof fn lemma_items_end(s: Seq<char>, i: int, w: Seq<char>)
    requires
        at(s, i, w + ")"@),
        all_ws(w),
    ensures
        read_items(s, i) == Ok::<(Seq<SForm>, int), Seq<char>>((seq![], i + w.len() + 1)),
{
    reveal_strlit(")");
    lemma_at_split(s, i, w, ")"@);
    lemma_at_char(s, i + w.len(), ")"@, 0);
    lemma_skip_over(s, i, w);
    lemma_skip_ws(s, i);
}

/// A list, read from its opening parenthesis.
proof fn lemma_read_list(s: Seq<char>, i: int)
    requires
        0 <= i < s.len(),
        s[i] == '(',
    ensures
        read_form(s, i) == match read_items(s, i + 1) {
            Ok((v, e)) => Ok((SForm::List(v), e)),
            Err(m) => Err(m),
        },
{
}

/// A string literal, read from its opening quote.
proof fn lemma_read_string(s: Seq<char>, i: int, t: Seq<char>)
    requires
        at(s, i, literal(t)),
    ensures
        read_form(s, i) == Ok::<(SForm, int), Seq<char>>((SForm::Str(t), i + literal(t).len())),
{
    let p = s.subrange(0, i + 1);
    let rest = s.subrange(i + literal(t).len(), s.len() as int);
    assert(literal(t)[0] == '"');
    lemma_at_char(s, i, literal(t), 0);
    assert(s =~= p + escaped(t) + seq!['"'] + rest) by {
        assert(s.subrange(i, i + literal(t).len()) == literal(t));
        assert forall|k: int| 0 <= k < s.len() implies s[k] == (p + escaped(t) + seq!['"'] + rest)[k] by {
            if k > i && k < i + literal(t).len() {
                lemma_at_char(s, i, literal(t), k - i);
            }
        }
    }
    lemma_read_escaped(p, t, rest);
}

/// A run of characters that are neither delimiters nor comment starts.
pub open spec fn plain(w: Seq<char>) -> bool {
    forall|k: int| 0 <= k < w.len() ==> !is_delim(#[trigger] w[k])
}

proof fn lemma_ident_over(s: Seq<char>, j: int, w: Seq<char>)
    requires
        at(s, j, w),
        plain(w),
        j + w.len() == s.len() || is_delim(s[j + w.len()]),
    ensures
        ident_end(s, j) == j + w.len(),
    decreases w.len(),
{
    if w.len() > 0 {
        lemma_at_char(s, j, w, 0);
        assert(w =~= seq![w[0]] + w.drop_first());
        lemma_at_split(s, j, seq![w[0]], w.drop_first());
        lemma_ident_over(s, j + 1, w.drop_first());
    }
}

/// A symbol, read from its first character.
proof fn lemma_read_symbol(s: Seq<char>, j: int, w: Seq<char>)
    requires
        at(s, j, w),
        w.len() > 0,
        plain(w),
        w[0] != ':' && w[0] != ';',
        j + w.len() == s.len() || is_delim(s[j + w.len()]),
    ensures
        read_form(s, j) == Ok::<(SForm, int), Seq<char>>((SForm::Symbol(w), j + w.len())),
{
    lemma_at_char(s, j, w, 0);
    lemma_ident_over(s, j, w);
}

/// A keyword, read from its colon.
proof fn lemma_read_keyword(s: Seq<char>, j: int, w: Seq<char>)
    requires
        at(s, j, seq![':'] + w),
        w.len() > 0,
        plain(w),
        j + 1 + w.len() == s.len() || is_delim(s[j + 1 + w.len()]),
    ensures
        read_form(s, j) == Ok::<(SForm, int), Seq<char>>((SForm::Keyword(w), j + 1 + w.len())),
{
    lemma_at_split(s, j, seq![':'], w);
    lemma_at_char(s, j, seq![':'], 0);
    lemma_ident_over(s, j + 1, w);
}

// ─── what is written, as forms and as a tree ─────────────────────

/// An attribute as the form it is written as: `(:key "value")`, or `("key" "value")` for a key
/// that cannot be written bare.
pub open spec fn attr_form(p: (Seq<char>, Seq<char>)) -> SForm {
    if key_is_bare(p.0) {
        SForm::List(seq![SForm::Keyword(p.0), SForm::Str(p.1)])
    } else {
        SForm::List(seq![SForm::Str(p.0), SForm::Str(p.1)])
    }
}

/// The attributes as forms.
pub open spec fn attr_forms(a: Seq<(Seq<char>, Seq<char>)>) -> Seq<SForm>
    decreases a.len(),
{
    if a.len() == 0 {
        seq![]
    } else {
        attr_forms(a.drop_last()).push(attr_form(a.last()))
    }
}

/// The forms after `(element`: `:tag "NAME"`, then `:attrs (…)` when there are attributes.
pub open spec fn element_head_forms(tag: Seq<char>, attributes: Seq<(Seq<char>, Seq<char>)>) -> Seq<SForm> {
    seq![SForm::Keyword("tag"@), SForm::Str(tag)] + if attributes.len() > 0 {
        seq![SForm::Keyword("attrs"@), SForm::List(attr_forms(attributes))]
    } else {
        seq![]
    }
}

/// The form a node is written as.
pub open spec fn written_form(n: NodeView, opts: SexpOptions) -> SForm
    decreases n,
{
    proof {
        assert(decreases_to!(n => n.children));
    }
    match n.data {
        DataView::Document => SForm::List(seq![SForm::Symbol("document"@)] + children_forms(n.children, opts)),
        DataView::Element { tag, attributes } => SForm::List(
            seq![SForm::Symbol("element"@)] + element_head_forms(tag, attributes) + children_forms(n.children, opts),
        ),
        DataView::Text(t) => SForm::List(seq![SForm::Symbol("text"@), SForm::Str(shown_text(t, opts))]),
        DataView::Comment(c) => SForm::List(seq![SForm::Symbol("comment"@), SForm::Str(c)]),
    }
}

/// The forms the children are written as: each child that is not dropped.
pub open spec fn children_forms(cs: Seq<NodeView>, opts: SexpOptions) -> Seq<SForm>
    decreases cs,
{
    if cs.len() == 0 {
        seq![]
    } else {
        proof {
            assert(decreases_to!(cs => cs.drop_last()));
            assert(decreases_to!(cs => cs[cs.len() - 1]));
        }
        children_forms(cs.drop_last(), opts) + if dropped(cs.last(), opts) {
            seq![]
        } else {
            seq![written_form(cs.last(), opts)]
        }
    }
}

/// The tree as it is written: text shown as written and without children, comments without
/// children, and whitespace-only text dropped when whitespace is trimmed.
pub open spec fn written(n: NodeView, opts: SexpOptions) -> NodeView
    decreases n,
{
    proof {
        assert(decreases_to!(n => n.children));
    }
    match n.data {
        DataView::Text(t) => NodeView { data: DataView::Text(shown_text(t, opts)), children: seq![] },
        DataView::Comment(c) => NodeView { data: DataView::Comment(c), children: seq![] },
        _ => NodeView { data: n.data, children: written_forest(n.children, opts) },
    }
}

/// The trees as written, dropped children left out.
pub open spec fn written_forest(cs: Seq<NodeView>, opts: SexpOptions) -> Seq<NodeView>
    decreases cs,
{
    if cs.len() == 0 {
        seq![]
    } else {
        proof {
            assert(decreases_to!(cs => cs.drop_last()));
            assert(decreases_to!(cs => cs[cs.len() - 1]));
        }
        written_forest(cs.drop_last(), opts) + if dropped(cs.last(), opts) {
            seq![]
        } else {
            seq![written(cs.last(), opts)]
        }
    }
}

// ─── forms back into nodes ───────────────────────────────────────

/// A list headed by a symbol other than `…`: a child, not an elided marker.
pub open spec fn child_form(f: SForm) -> bool {
    f matches SForm::List(items) && items.len() > 0 && (items[0] matches SForm::Symbol(h) && h != "…"@)
}

proof fn lemma_attr_forms(a: Seq<(Seq<char>, Seq<char>)>)
    ensures
        attr_forms(a).len() == a.len(),
        attr_pairs(attr_forms(a)) == Ok::<Seq<(Seq<char>, Seq<char>)>, Seq<char>>(a),
    decreases a.len(),
{
    if a.len() > 0 {
        lemma_attr_forms(a.drop_last());
        let x = attr_forms(a);
        assert(x == attr_forms(a.drop_last()).push(attr_form(a.last())));
        assert(x.drop_last() =~= attr_forms(a.drop_last()));
        assert(x.last() == attr_form(a.last()));
        let l = a.last();
        assert(attr_pair(attr_form(l)) == Ok::<(Seq<char>, Seq<char>), Seq<char>>((l.0, l.1)));
        assert(attr_pairs(x.drop_last()) == Ok::<Seq<(Seq<char>, Seq<char>)>, Seq<char>>(a.drop_last()));
        assert(a.drop_last().push(l) =~= a);
        assert(attr_pairs(x) == Ok::<Seq<(Seq<char>, Seq<char>)>, Seq<char>>(a.drop_last().push(l)));
    } else {
        assert(a =~= Seq::<(Seq<char>, Seq<char>)>::empty());
    }
}

proof fn lemma_forms_pointwise(fs: Seq<SForm>, ns: Seq<NodeView>)
    requires
        fs.len() == ns.len(),
        forall|q: int| 0 <= q < fs.len() ==> form_to_node(#[trigger] fs[q]) == Ok::<NodeView, Seq<char>>(ns[q]),
    ensures
        forms_to_nodes(fs) == Ok::<Seq<NodeView>, Seq<char>>(ns),
    decreases fs.len(),
{
    if fs.len() > 0 {
        assert(form_to_node(fs[fs.len() - 1]) == Ok::<NodeView, Seq<char>>(ns[ns.len() - 1]));
        assert forall|q: int| 0 <= q < fs.drop_last().len() implies form_to_node(
            #[trigger] fs.drop_last()[q],
        ) == Ok::<NodeView, Seq<char>>(ns.drop_last()[q]) by {
            assert(fs.drop_last()[q] == fs[q]);
        }
        lemma_forms_pointwise(fs.drop_last(), ns.drop_last());
        assert(ns.drop_last().push(ns.last()) =~= ns);
        assert(forms_to_nodes(fs) == Ok::<Seq<NodeView>, Seq<char>>(ns.drop_last().push(ns.last())));
    } else {
        assert(ns =~= Seq::<NodeView>::empty());
    }
}

/// Scanning the children of an element, once its tag and attributes are read.
proof fn lemma_scan_children(
    rest: Seq<SForm>,
    k0: int,
    fs: Seq<SForm>,
    ns: Seq<NodeView>,
    q: int,
    tag: Seq<char>,
    attrs: Seq<(Seq<char>, Seq<char>)>,
)
    requires
        0 <= k0,
        0 <= q <= fs.len(),
        rest.len() == k0 + fs.len(),
        forall|j: int| 0 <= j < fs.len() ==> #[trigger] rest[k0 + j] == fs[j],
        fs.len() == ns.len(),
        forall|j: int|
            0 <= j < fs.len() ==> child_form(#[trigger] fs[j]) && form_to_node(fs[j]) == Ok::<NodeView, Seq<char>>(
                ns[j],
            ),
    ensures
        element_scan(rest, k0 + q, Some(tag), attrs, ns.take(q)) == Ok::<NodeView, Seq<char>>(
            NodeView { data: DataView::Element { tag, attributes: attrs }, children: ns },
        ),
    decreases fs.len() - q,
{
    if q == fs.len() {
        assert(ns.take(q) =~= ns);
    } else {
        assert(rest[k0 + q] == fs[q]);
        assert(child_form(fs[q]));
        assert(ns.take(q).push(ns[q]) =~= ns.take(q + 1));
        lemma_scan_children(rest, k0, fs, ns, q + 1, tag, attrs);
    }
}

/// The `:tag` and `:attrs` of a written element read back as its tag and attributes.
proof fn lemma_scan_head(rest: Seq<SForm>, tag: Seq<char>, attributes: Seq<(Seq<char>, Seq<char>)>)
    requires
        rest.len() >= element_head_forms(tag, attributes).len(),
        forall|j: int|
            0 <= j < element_head_forms(tag, attributes).len() ==> #[trigger] rest[j] == element_head_forms(
                tag,
                attributes,
            )[j],
    ensures
        element_scan(rest, 0, None, seq![], seq![]) == element_scan(
            rest,
            element_head_forms(tag, attributes).len() as int,
            Some(tag),
            attributes,
            seq![],
        ),
{
    reveal_strlit("tag");
    reveal_strlit("attrs");
    let head = element_head_forms(tag, attributes);
    assert(rest[0] == head[0]);
    assert(rest[1] == head[1]);
    assert(rest[0] == SForm::Keyword("tag"@));
    assert(rest[1] == SForm::Str(tag));
    if attributes.len() > 0 {
        assert(rest[2] == head[2]);
        assert(rest[3] == head[3]);
        assert(rest[2] == SForm::Keyword("attrs"@));
        assert(rest[3] == SForm::List(attr_forms(attributes)));
        lemma_attr_forms(attributes);
        assert(Seq::<(Seq<char>, Seq<char>)>::empty() + attributes =~= attributes);
        lemma_words();
        assert(expect_list(rest[3]) == Ok::<Seq<SForm>, Seq<char>>(attr_forms(attributes)));
        assert(element_scan(rest, 2, Some(tag), seq![], seq![]) == element_scan(
            rest,
            4,
            Some(tag),
            attributes,
            seq![],
        ));
    } else {
        assert(attributes =~= Seq::<(Seq<char>, Seq<char>)>::empty());
    }
}

/// What a written element reads back as.
proof fn lemma_convert_element(n: NodeView, opts: SexpOptions)
    requires
        n.data is Element,
    ensures
        form_to_node(written_form(n, opts)) == Ok::<NodeView, Seq<char>>(written(n, opts)),
    decreases n, 0int,
{
    lemma_words();
    assert(decreases_to!(n => n.children));
    lemma_convert_forest(n.children, opts);
    let fs = children_forms(n.children, opts);
    let ns = written_forest(n.children, opts);
    let tag = n.data->tag;
    let attributes = n.data->attributes;
    let head = element_head_forms(tag, attributes);
    let items = seq![SForm::Symbol("element"@)] + head + fs;
    let rest = items.drop_first();
    assert(written_form(n, opts) == SForm::List(items));
    assert(rest =~= head + fs);
    let k0 = head.len() as int;
    assert forall|j: int| 0 <= j < fs.len() implies #[trigger] rest[k0 + j] == fs[j] by {}
    assert forall|j: int| 0 <= j < head.len() implies #[trigger] rest[j] == head[j] by {}
    lemma_scan_head(rest, tag, attributes);
    lemma_scan_children(rest, k0, fs, ns, 0, tag, attributes);
    assert(ns.take(0) =~= Seq::<NodeView>::empty());
    assert(written(n, opts) == NodeView {
        data: DataView::Element { tag, attributes },
        children: ns,
    });
    assert(form_to_node(SForm::List(items)) == element_scan(rest, 0, None, seq![], seq![]));
}

/// What each written node reads back as.
proof fn lemma_convert_node(n: NodeView, opts: SexpOptions)
    ensures
        child_form(written_form(n, opts)),
        form_to_node(written_form(n, opts)) == Ok::<NodeView, Seq<char>>(written(n, opts)),
    decreases n, 1int,
{
    lemma_words();
    match n.data {
        DataView::Document => {
            assert(decreases_to!(n => n.children));
            lemma_convert_forest(n.children, opts);
            let fs = children_forms(n.children, opts);
            let ns = written_forest(n.children, opts);
            let items = seq![SForm::Symbol("document"@)] + fs;
            assert(items.drop_first() =~= fs);
            assert(items[0] == SForm::Symbol("document"@));
            assert(written_form(n, opts) == SForm::List(items));
            lemma_forms_pointwise(fs, ns);
            assert(form_to_node(SForm::List(items)) == Ok::<NodeView, Seq<char>>(
                NodeView { data: DataView::Document, children: ns },
            ));
            assert(written(n, opts) == NodeView { data: DataView::Document, children: ns });
            assert(form_to_node(written_form(n, opts)) == Ok::<NodeView, Seq<char>>(written(n, opts)));
        },
        DataView::Element { .. } => {
            lemma_convert_element(n, opts);
        },
        DataView::Text(t) => {
            let items = seq![SForm::Symbol("text"@), SForm::Str(shown_text(t, opts))];
            assert(items.drop_first() =~= seq![SForm::Str(shown_text(t, opts))]);
            assert(form_to_node(written_form(n, opts)) == Ok::<NodeView, Seq<char>>(written(n, opts)));
        },
        DataView::Comment(c) => {
            let items = seq![SForm::Symbol("comment"@), SForm::Str(c)];
            assert(items.drop_first() =~= seq![SForm::Str(c)]);
            assert(form_to_node(written_form(n, opts)) == Ok::<NodeView, Seq<char>>(written(n, opts)));
        },
    }
}

/// What the children read back as, form by form.
proof fn lemma_convert_forest(cs: Seq<NodeView>, opts: SexpOptions)
    ensures
        children_forms(cs, opts).len() == written_forest(cs, opts).len(),
        forall|j: int|
            0 <= j < children_forms(cs, opts).len() ==> child_form(#[trigger] children_forms(cs, opts)[j])
                && form_to_node(children_forms(cs, opts)[j]) == Ok::<NodeView, Seq<char>>(
                written_forest(cs, opts)[j],
            ),
    decreases cs, 0int,
{
    if cs.len() > 0 {
        assert(decreases_to!(cs => cs.drop_last()));
        assert(decreases_to!(cs => cs[cs.len() - 1]));
        lemma_convert_forest(cs.drop_last(), opts);
        lemma_convert_node(cs.last(), opts);
    }
}

// ─── reading the written text ────────────────────────────────────

/// A list read from what was read inside it.
pub open spec fn as_list(r: Result<(Seq<SForm>, int), Seq<char>>) -> Result<(SForm, int), Seq<char>> {
    match r {
        Ok((v, e)) => Ok((SForm::List(v), e)),
        Err(m) => Err(m),
    }
}

proof fn lemma_indent_ws(d: nat)
    ensures
        all_ws(indent(d)),
    decreases d,
{
    reveal_strlit("  ");
    if d > 0 {
        lemma_indent_ws((d - 1) as nat);
        let a = indent((d - 1) as nat);
        assert forall|k: int| 0 <= k < indent(d).len() implies is_ws(#[trigger] indent(d)[k]) by {
            if k < a.len() {
                assert(indent(d)[k] == a[k]);
            } else {
                assert(indent(d)[k] == "  "@[k - a.len()]);
            }
        }
    }
}

proof fn lemma_layout_ws(n: nat, depth: nat, opts: SexpOptions)
    ensures
        all_ws(child_sep(depth, opts)),
        child_sep(depth, opts).len() > 0,
        all_ws(closing(n, depth, opts)),
{
    reveal_strlit("\n");
    reveal_strlit(" ");
    lemma_indent_ws(depth + 1);
    lemma_indent_ws(depth);
    let a = indent(depth + 1);
    let b = indent(depth);
    assert forall|k: int| 0 <= k < ("\n"@ + a).len() implies is_ws(#[trigger] ("\n"@ + a)[k]) by {
        if k > 0 {
            assert(("\n"@ + a)[k] == a[k - 1]);
        }
    }
    assert forall|k: int| 0 <= k < ("\n"@ + b).len() implies is_ws(#[trigger] ("\n"@ + b)[k]) by {
        if k > 0 {
            assert(("\n"@ + b)[k] == b[k - 1]);
        }
    }
}

/// Every node is written starting with `(`.
proof fn lemma_node_first(n: NodeView, depth: nat, opts: SexpOptions)
    ensures
        node_sexp(n, depth, opts).len() > 0,
        node_sexp(n, depth, opts)[0] == '(',
{
    reveal_strlit("(document");
    reveal_strlit("(element :tag ");
    reveal_strlit("(text ");
    reveal_strlit("(comment ");
    match n.data {
        DataView::Element { tag, attributes } => {
            let h = element_head(tag, attributes);
            assert(h[0] == '(');
        },
        _ => {},
    }
}

/// The children of a node are written starting with whitespace, if at all.
proof fn lemma_children_first(cs: Seq<NodeView>, depth: nat, opts: SexpOptions)
    ensures
        children_sexp(cs, depth, opts).len() > 0 ==> is_ws(children_sexp(cs, depth, opts)[0]),
    decreases cs.len(),
{
    if cs.len() > 0 {
        lemma_children_first(cs.drop_last(), depth, opts);
        lemma_layout_ws(0, depth, opts);
        let a = children_sexp(cs.drop_last(), depth, opts);
        if a.len() == 0 && !dropped(cs.last(), opts) {
            let sep = child_sep(depth, opts);
            assert(children_sexp(cs, depth, opts)[0] == sep[0]);
        }
    }
}

/// A list that opens with a symbol.
proof fn lemma_read_head(s: Seq<char>, i: int, word: Seq<char>)
    requires
        at(s, i, seq!['('] + word),
        word.len() > 0,
        plain(word),
        word[0] != ':' && word[0] != ';',
        i + 1 + word.len() < s.len(),
        is_delim(s[i + 1 + word.len()]),
    ensures
        read_form(s, i) == as_list(glue_forms(seq![SForm::Symbol(word)], read_items(s, i + 1 + word.len()))),
{
    lemma_at_split(s, i, seq!['('], word);
    lemma_at_char(s, i, seq!['('], 0);
    lemma_read_symbol(s, i + 1, word);
    lemma_at_char(s, i + 1, word, 0);
    assert(s.subrange(i + 1, i + 1) =~= Seq::<char>::empty());
    assert(at(s, i + 1, Seq::<char>::empty()));
    lemma_items_step(s, i + 1, seq![], SForm::Symbol(word), i + 1 + word.len());
    lemma_read_list(s, i);
}

/// A string after whitespace, as the next item of a list.
proof fn lemma_items_string(s: Seq<char>, i: int, w: Seq<char>, t: Seq<char>)
    requires
        at(s, i, w + literal(t)),
        all_ws(w),
    ensures
        read_items(s, i) == glue_forms(seq![SForm::Str(t)], read_items(s, i + w.len() + literal(t).len())),
{
    lemma_at_split(s, i, w, literal(t));
    lemma_read_string(s, i + w.len(), t);
    lemma_at_char(s, i + w.len(), literal(t), 0);
    lemma_items_step(s, i, w, SForm::Str(t), i + w.len() + literal(t).len());
}

/// A keyword after whitespace, as the next item of a list.
proof fn lemma_items_keyword(s: Seq<char>, i: int, w: Seq<char>, word: Seq<char>)
    requires
        at(s, i, w + seq![':'] + word),
        all_ws(w),
        word.len() > 0,
        plain(word),
        i + w.len() + 1 + word.len() < s.len(),
        is_delim(s[i + w.len() + 1 + word.len()]),
    ensures
        read_items(s, i) == glue_forms(seq![SForm::Keyword(word)], read_items(s, i + w.len() + 1 + word.len())),
{
    assert(w + seq![':'] + word =~= w + (seq![':'] + word));
    lemma_at_split(s, i, w, seq![':'] + word);
    lemma_read_keyword(s, i + w.len(), word);
    lemma_at_char(s, i + w.len(), seq![':'] + word, 0);
    lemma_items_step(s, i, w, SForm::Keyword(word), i + w.len() + 1 + word.len());
}

proof fn lemma_key_plain(k: Seq<char>)
    requires
        key_is_bare(k),
    ensures
        plain(k),
        k[0] != ':' && k[0] != ';',
{
    assert forall|j: int| 0 <= j < k.len() implies !is_delim(#[trigger] k[j]) by {
        assert(is_key_char(k[j]));
    }
    assert(is_key_char(k[0]));
}

/// One attribute: `(:key "value")` or `("key" "value")`.
proof fn lemma_read_attr(s: Seq<char>, j: int, p: (Seq<char>, Seq<char>))
    requires
        at(s, j, attr_sexp(p)),
    ensures
        read_form(s, j) == Ok::<(SForm, int), Seq<char>>((attr_form(p), j + attr_sexp(p).len())),
{
    reveal_strlit("(");
    reveal_strlit(" ");
    reveal_strlit(")");
    let k = p.0;
    let lit = literal(p.1);
    let kp = super::attr_key_part(k);
    let w = attr_sexp(p);
    assert(w =~= seq!['('] + (kp + (" "@ + lit + ")"@)));
    lemma_at_split(s, j, seq!['('], kp + (" "@ + lit + ")"@));
    lemma_at_char(s, j, seq!['('], 0);
    lemma_read_list(s, j);
    let a = j + 1;
    lemma_at_split(s, a, kp, " "@ + lit + ")"@);
    assert(" "@ + lit + ")"@ =~= " "@ + (lit + ")"@));
    lemma_at_split(s, a + kp.len(), " "@, lit + ")"@);
    lemma_at_char(s, a + kp.len(), " "@, 0);
    assert(all_ws(Seq::<char>::empty()));
    let kf = if key_is_bare(k) {
        SForm::Keyword(k)
    } else {
        SForm::Str(k)
    };
    if key_is_bare(k) {
        lemma_key_plain(k);
        assert(Seq::<char>::empty() + seq![':'] + k =~= seq![':'] + k);
        assert(at(s, a, Seq::<char>::empty() + seq![':'] + k));
        lemma_items_keyword(s, a, seq![], k);
    } else {
        assert(Seq::<char>::empty() + literal(k) =~= literal(k));
        assert(at(s, a, Seq::<char>::empty() + literal(k)));
        lemma_items_string(s, a, seq![], k);
    }
    assert(read_items(s, a) == glue_forms(seq![kf], read_items(s, a + kp.len())));
    let b = a + kp.len();
    assert(" "@ + lit + ")"@ =~= (" "@ + lit) + ")"@);
    lemma_at_split(s, b, " "@ + lit, ")"@);
    assert(all_ws(" "@));
    lemma_items_string(s, b, " "@, p.1);
    let c = b + 1 + lit.len();
    assert(Seq::<char>::empty() + ")"@ =~= ")"@);
    lemma_items_end(s, c, seq![]);
    lemma_glue_assoc(seq![kf], seq![SForm::Str(p.1)], read_items(s, c));
    assert(seq![kf] + seq![SForm::Str(p.1)] + Seq::<SForm>::empty() =~= seq![kf, SForm::Str(p.1)]);
}

/// The attributes, separated by spaces, as the next items of a list.
proof fn lemma_read_attrs(s: Seq<char>, p: int, a: Seq<(Seq<char>, Seq<char>)>, k: int)
    requires
        0 <= k <= a.len(),
        at(s, p, attrs_sexp(a.take(k))),
        p + attrs_sexp(a.take(k)).len() < s.len(),
    ensures
        read_items(s, p) == glue_forms(attr_forms(a.take(k)), read_items(s, p + attrs_sexp(a.take(k)).len())),
    decreases k,
{
    if k == 0 {
        assert(a.take(0) =~= Seq::<(Seq<char>, Seq<char>)>::empty());
        lemma_glue_empty(read_items(s, p));
    } else {
        reveal_strlit(" ");
        let t = a.take(k);
        let prev = a.take(k - 1);
        assert(t.drop_last() =~= prev);
        assert(t.last() == a[k - 1]);
        let w: Seq<char> = if k == 1 {
            seq![]
        } else {
            " "@
        };
        assert(attrs_sexp(t) =~= attrs_sexp(prev) + (w + attr_sexp(a[k - 1]))) by {
            if k == 1 {
                assert(prev =~= Seq::<(Seq<char>, Seq<char>)>::empty());
                assert(t.len() == 1 && t[0] == a[0]);
            }
        }
        lemma_at_split(s, p, attrs_sexp(prev), w + attr_sexp(a[k - 1]));
        lemma_read_attrs(s, p, a, k - 1);
        let q = p + attrs_sexp(prev).len();
        lemma_at_split(s, q, w, attr_sexp(a[k - 1]));
        lemma_read_attr(s, q + w.len(), a[k - 1]);
        reveal_strlit("(");
        lemma_at_char(s, q + w.len(), attr_sexp(a[k - 1]), 0);
        assert(all_ws(w));
        lemma_items_step(s, q, w, attr_form(a[k - 1]), q + w.len() + attr_sexp(a[k - 1]).len());
        lemma_glue_assoc(
            attr_forms(prev),
            seq![attr_form(a[k - 1])],
            read_items(s, q + w.len() + attr_sexp(a[k - 1]).len()),
        );
        assert(attr_forms(t) == attr_forms(prev).push(attr_form(a[k - 1])));
        assert(attr_forms(prev) + seq![attr_form(a[k - 1])] =~= attr_forms(prev).push(attr_form(a[k - 1])));
    }
}

/// `(text "…")` or `(comment "…")`.
proof fn lemma_read_leaf(s: Seq<char>, i: int, word: Seq<char>, t: Seq<char>)
    requires
        at(s, i, seq!['('] + word + seq![' '] + literal(t) + seq![')']),
        word.len() > 0,
        plain(word),
        word[0] != ':' && word[0] != ';',
    ensures
        read_form(s, i) == Ok::<(SForm, int), Seq<char>>(
            (SForm::List(seq![SForm::Symbol(word), SForm::Str(t)]), i + word.len() + literal(t).len() + 3),
        ),
{
    let lit = literal(t);
    assert(seq!['('] + word + seq![' '] + lit + seq![')'] =~= (seq!['('] + word) + ((seq![' '] + lit) + seq![')']));
    lemma_at_split(s, i, seq!['('] + word, (seq![' '] + lit) + seq![')']);
    let a = i + 1 + word.len();
    lemma_at_split(s, a, seq![' '] + lit, seq![')']);
    lemma_at_char(s, a, seq![' '] + lit, 0);
    lemma_read_head(s, i, word);
    assert(all_ws(seq![' ']));
    lemma_items_string(s, a, seq![' '], t);
    let b = a + 1 + lit.len();
    reveal_strlit(")");
    assert(seq![')'] =~= ")"@);
    assert(Seq::<char>::empty() + ")"@ =~= ")"@);
    lemma_items_end(s, b, seq![]);
    assert(seq![SForm::Str(t)] + Seq::<SForm>::empty() =~= seq![SForm::Str(t)]);
    assert(seq![SForm::Symbol(word)] + seq![SForm::Str(t)] =~= seq![SForm::Symbol(word), SForm::Str(t)]);
}

proof fn lemma_plain_words()
    ensures
        plain("text"@),
        plain("comment"@),
        plain("element"@),
        plain("document"@),
        plain("tag"@),
        plain("attrs"@),
        "text"@.len() == 4 && "text"@[0] == 't',
        "comment"@.len() == 7 && "comment"@[0] == 'c',
        "element"@.len() == 7 && "element"@[0] == 'e',
        "document"@.len() == 8 && "document"@[0] == 'd',
        "tag"@.len() == 3,
        "attrs"@.len() == 5,
{
    reveal_strlit("text");
    reveal_strlit("comment");
    reveal_strlit("element");
    reveal_strlit("document");
    reveal_strlit("tag");
    reveal_strlit("attrs");
    assert forall|k: int| 0 <= k < "text"@.len() implies !is_delim(#[trigger] "text"@[k]) by {}
    assert forall|k: int| 0 <= k < "comment"@.len() implies !is_delim(#[trigger] "comment"@[k]) by {}
    assert forall|k: int| 0 <= k < "element"@.len() implies !is_delim(#[trigger] "element"@[k]) by {}
    assert forall|k: int| 0 <= k < "document"@.len() implies !is_delim(#[trigger] "document"@[k]) by {}
    assert forall|k: int| 0 <= k < "tag"@.len() implies !is_delim(#[trigger] "tag"@[k]) by {}
    assert forall|k: int| 0 <= k < "attrs"@.len() implies !is_delim(#[trigger] "attrs"@[k]) by {}
}

/// A list of children as the next items of a list: each child that is not dropped, after its
/// separator.
proof fn lemma_read_children(s: Seq<char>, p: int, cs: Seq<NodeView>, k: int, depth: nat, opts: SexpOptions)
    requires
        0 <= k <= cs.len(),
        opts.depth_cap is None,
        at(s, p, children_sexp(cs.take(k), depth, opts)),
    ensures
        read_items(s, p) == glue_forms(
            children_forms(cs.take(k), opts),
            read_items(s, p + children_sexp(cs.take(k), depth, opts).len()),
        ),
    decreases cs, k,
{
    if k == 0 {
        assert(cs.take(0) =~= Seq::<NodeView>::empty());
        lemma_glue_empty(read_items(s, p));
    } else {
        let t = cs.take(k);
        let prev = cs.take(k - 1);
        let c = cs[k - 1];
        assert(t.drop_last() =~= prev);
        assert(t.last() == c);
        let piece: Seq<char> = if dropped(c, opts) {
            seq![]
        } else {
            child_sep(depth, opts) + node_sexp(c, depth + 1, opts)
        };
        assert(children_sexp(t, depth, opts) == children_sexp(prev, depth, opts) + piece);
        lemma_at_split(s, p, children_sexp(prev, depth, opts), piece);
        assert(decreases_to!(cs => cs[k - 1]));
        lemma_read_children(s, p, cs, k - 1, depth, opts);
        let q = p + children_sexp(prev, depth, opts).len();
        if dropped(c, opts) {
            assert(children_forms(t, opts) == children_forms(prev, opts) + Seq::<SForm>::empty());
            assert(children_forms(prev, opts) + Seq::<SForm>::empty() =~= children_forms(prev, opts));
        } else {
            let sep = child_sep(depth, opts);
            let body = node_sexp(c, depth + 1, opts);
            lemma_at_split(s, q, sep, body);
            lemma_layout_ws(0, depth, opts);
            lemma_read_node(s, q + sep.len(), c, depth + 1, opts);
            lemma_node_first(c, depth + 1, opts);
            lemma_at_char(s, q + sep.len(), body, 0);
            lemma_items_step(s, q, sep, written_form(c, opts), q + sep.len() + body.len());
            lemma_glue_assoc(
                children_forms(prev, opts),
                seq![written_form(c, opts)],
                read_items(s, q + sep.len() + body.len()),
            );
            assert(children_forms(t, opts) == children_forms(prev, opts) + seq![written_form(c, opts)]);
        }
    }
}

/// `(document` and children, closed after whitespace.
proof fn lemma_read_doc(s: Seq<char>, i: int, cs: Seq<NodeView>, depth: nat, opts: SexpOptions, cl: Seq<char>)
    requires
        opts.depth_cap is None,
        all_ws(cl),
        at(s, i, "(document"@ + children_sexp(cs, depth, opts) + cl + ")"@),
    ensures
        read_form(s, i) == Ok::<(SForm, int), Seq<char>>(
            (
                SForm::List(seq![SForm::Symbol("document"@)] + children_forms(cs, opts)),
                i + ("(document"@ + children_sexp(cs, depth, opts) + cl + ")"@).len(),
            ),
        ),
    decreases cs, cs.len() + 1,
{
    reveal_strlit("(document");
    reveal_strlit(")");
    lemma_plain_words();
    let body = children_sexp(cs, depth, opts);
    assert("(document"@ =~= seq!['('] + "document"@) by {
        reveal_strlit("document");
    }
    let w = "(document"@ + body + cl + ")"@;
    assert(w =~= (seq!['('] + "document"@) + (body + (cl + ")"@)));
    lemma_at_split(s, i, seq!['('] + "document"@, body + (cl + ")"@));
    let a = i + 9;
    lemma_at_split(s, a, body, cl + ")"@);
    lemma_children_first(cs, depth, opts);
    lemma_at_split(s, a + body.len(), cl, ")"@);
    if body.len() > 0 {
        lemma_at_char(s, a, body, 0);
    } else if cl.len() > 0 {
        lemma_at_char(s, a, cl, 0);
    } else {
        lemma_at_char(s, a, ")"@, 0);
    }
    lemma_read_head(s, i, "document"@);
    assert(cs.take(cs.len() as int) =~= cs);
    lemma_read_children(s, a, cs, cs.len() as int, depth, opts);
    lemma_items_end(s, a + body.len(), cl);
    lemma_glue_assoc(
        seq![SForm::Symbol("document"@)],
        children_forms(cs, opts),
        read_items(s, a + body.len()),
    );
    assert(children_forms(cs, opts) + Seq::<SForm>::empty() =~= children_forms(cs, opts));
}

/// ` :attrs ((:k "v") …)` as the next two items of a list.
proof fn lemma_read_attrs_block(s: Seq<char>, c: int, attributes: Seq<(Seq<char>, Seq<char>)>)
    requires
        attributes.len() > 0,
        at(s, c, " :attrs ("@ + attrs_sexp(attributes) + ")"@),
        c + (" :attrs ("@ + attrs_sexp(attributes) + ")"@).len() < s.len(),
    ensures
        read_items(s, c) == glue_forms(
            seq![SForm::Keyword("attrs"@), SForm::List(attr_forms(attributes))],
            read_items(s, c + (" :attrs ("@ + attrs_sexp(attributes) + ")"@).len()),
        ),
{
    reveal_strlit(" :attrs (");
    reveal_strlit(")");
    lemma_plain_words();
    let at_text = attrs_sexp(attributes);
    let attr_text = " :attrs ("@ + at_text + ")"@;
    let d = c + attr_text.len();
    assert(" :attrs ("@ =~= (seq![' '] + seq![':'] + "attrs"@) + (seq![' '] + seq!['('])) by {
        reveal_strlit("attrs");
    }
    assert(attr_text =~= (seq![' '] + seq![':'] + "attrs"@) + (seq![' '] + (seq!['('] + (at_text + ")"@))));
    lemma_at_split(s, c, seq![' '] + seq![':'] + "attrs"@, seq![' '] + (seq!['('] + (at_text + ")"@)));
    lemma_at_split(s, c + 7, seq![' '], seq!['('] + (at_text + ")"@));
    lemma_at_split(s, c + 8, seq!['('], at_text + ")"@);
    lemma_at_split(s, c + 9, at_text, ")"@);
    lemma_at_char(s, c + 7, seq![' '], 0);
    lemma_at_char(s, c + 8, seq!['('], 0);
    assert(all_ws(seq![' ']));
    lemma_items_keyword(s, c, seq![' '], "attrs"@);
    assert(attributes.take(attributes.len() as int) =~= attributes);
    lemma_read_attrs(s, c + 9, attributes, attributes.len() as int);
    assert(Seq::<char>::empty() + ")"@ =~= ")"@);
    lemma_items_end(s, c + 9 + at_text.len(), seq![]);
    lemma_read_list(s, c + 8);
    assert(attr_forms(attributes) + Seq::<SForm>::empty() =~= attr_forms(attributes));
    assert(read_form(s, c + 8) == Ok::<(SForm, int), Seq<char>>((SForm::List(attr_forms(attributes)), d)));
    lemma_items_step(s, c + 7, seq![' '], SForm::List(attr_forms(attributes)), d);
    lemma_glue_assoc(seq![SForm::Keyword("attrs"@)], seq![SForm::List(attr_forms(attributes))], read_items(s, d));
    assert(seq![SForm::Keyword("attrs"@)] + seq![SForm::List(attr_forms(attributes))] =~= seq![
        SForm::Keyword("attrs"@),
        SForm::List(attr_forms(attributes)),
    ]);
}

/// An element, written without a depth cap.
#[verifier::rlimit(40)]
proof fn lemma_read_element(s: Seq<char>, i: int, n: NodeView, depth: nat, opts: SexpOptions)
    requires
        n.data is Element,
        opts.depth_cap is None,
        at(s, i, node_sexp(n, depth, opts)),
    ensures
        read_form(s, i) == Ok::<(SForm, int), Seq<char>>((written_form(n, opts), i + node_sexp(n, depth, opts).len())),
    decreases n, 0int,
{
    reveal_strlit("(element :tag ");
    reveal_strlit(" :attrs (");
    reveal_strlit(")");
    lemma_plain_words();
    let tag = n.data->tag;
    let attributes = n.data->attributes;
    let cs = n.children;
    let lit = literal(tag);
    let attr_text: Seq<char> = if attributes.len() > 0 {
        " :attrs ("@ + attrs_sexp(attributes) + ")"@
    } else {
        seq![]
    };
    let body = children_sexp(cs, depth, opts);
    let cl = closing(cs.len(), depth, opts);
    let w = node_sexp(n, depth, opts);
    assert(w == element_head(tag, attributes) + body + cl + ")"@);
    assert("(element :tag "@ =~= (seq!['('] + "element"@) + (seq![' '] + (seq![':'] + "tag"@) + seq![' '])) by {
        reveal_strlit("element");
        reveal_strlit("tag");
    }
    assert(w =~= (seq!['('] + "element"@) + ((seq![' '] + seq![':'] + "tag"@) + ((seq![' '] + lit) + (attr_text + (
    body + (cl + ")"@))))));
    lemma_at_split(s, i, seq!['('] + "element"@, (seq![' '] + seq![':'] + "tag"@) + ((seq![' '] + lit) + (attr_text + (
    body + (cl + ")"@)))));
    let a = i + 8;
    lemma_at_split(s, a, seq![' '] + seq![':'] + "tag"@, (seq![' '] + lit) + (attr_text + (body + (cl + ")"@))));
    let b = a + 5;
    lemma_at_split(s, b, seq![' '] + lit, attr_text + (body + (cl + ")"@)));
    let c = b + 1 + lit.len();
    lemma_at_split(s, c, attr_text, body + (cl + ")"@));
    let d = c + attr_text.len();
    lemma_at_split(s, d, body, cl + ")"@);
    let e = d + body.len();
    lemma_at_split(s, e, cl, ")"@);
    // `(element`
    lemma_at_char(s, a, seq![' '] + seq![':'] + "tag"@, 0);
    lemma_read_head(s, i, "element"@);
    // ` :tag`
    assert(all_ws(seq![' ']));
    lemma_at_char(s, b, seq![' '] + lit, 0);
    lemma_items_keyword(s, a, seq![' '], "tag"@);
    // ` "NAME"`
    lemma_items_string(s, b, seq![' '], tag);
    // ` :attrs (…)`
    let head_forms = element_head_forms(tag, attributes);
    if attributes.len() > 0 {
        lemma_read_attrs_block(s, c, attributes);
    } else {
        assert(attr_text.len() == 0);
        lemma_glue_empty(read_items(s, c));
    }
    // children and the closing parenthesis
    assert(cs.take(cs.len() as int) =~= cs);
    assert(decreases_to!(n => n.children));
    lemma_read_children(s, d, cs, cs.len() as int, depth, opts);
    lemma_layout_ws(cs.len(), depth, opts);
    lemma_items_end(s, e, cl);
    // put together
    let rest_forms = if attributes.len() > 0 {
        seq![SForm::Keyword("attrs"@), SForm::List(attr_forms(attributes))]
    } else {
        seq![]
    };
    assert(read_items(s, c) == glue_forms(rest_forms, read_items(s, d)));
    lemma_glue_assoc(rest_forms, children_forms(cs, opts), read_items(s, e));
    lemma_glue_assoc(seq![SForm::Str(tag)], rest_forms + children_forms(cs, opts), read_items(s, e));
    lemma_glue_assoc(seq![SForm::Keyword("tag"@)], seq![SForm::Str(tag)] + (rest_forms + children_forms(cs, opts)), read_items(s, e));
    lemma_glue_assoc(
        seq![SForm::Symbol("element"@)],
        seq![SForm::Keyword("tag"@)] + (seq![SForm::Str(tag)] + (rest_forms + children_forms(cs, opts))),
        read_items(s, e),
    );
    assert(seq![SForm::Symbol("element"@)] + (seq![SForm::Keyword("tag"@)] + (seq![SForm::Str(tag)] + (rest_forms
        + children_forms(cs, opts)))) + Seq::<SForm>::empty() =~= seq![SForm::Symbol("element"@)] + head_forms
        + children_forms(cs, opts));
}

/// Any node, written without a depth cap, reads back as the form it was written as.
proof fn lemma_read_node(s: Seq<char>, i: int, n: NodeView, depth: nat, opts: SexpOptions)
    requires
        opts.depth_cap is None,
        at(s, i, node_sexp(n, depth, opts)),
    ensures
        read_form(s, i) == Ok::<(SForm, int), Seq<char>>((written_form(n, opts), i + node_sexp(n, depth, opts).len())),
    decreases n, 1int,
{
    lemma_plain_words();
    match n.data {
        DataView::Document => {
            assert(decreases_to!(n => n.children));
            lemma_layout_ws(n.children.len(), depth, opts);
            lemma_read_doc(s, i, n.children, depth, opts, closing(n.children.len(), depth, opts));
        },
        DataView::Element { .. } => {
            lemma_read_element(s, i, n, depth, opts);
        },
        DataView::Text(t) => {
            reveal_strlit("(text ");
            reveal_strlit("text");
            reveal_strlit(")");
            let sh = shown_text(t, opts);
            assert(node_sexp(n, depth, opts) =~= seq!['('] + "text"@ + seq![' '] + literal(sh) + seq![')']);
            lemma_read_leaf(s, i, "text"@, sh);
        },
        DataView::Comment(c) => {
            reveal_strlit("(comment ");
            reveal_strlit("comment");
            reveal_strlit(")");
            assert(node_sexp(n, depth, opts) =~= seq!['('] + "comment"@ + seq![' '] + literal(c) + seq![')']);
            lemma_read_leaf(s, i, "comment"@, c);
        },
    }
}

// ─── the law ─────────────────────────────────────────────────────

/// Reading back what was written gives the tree back. A document written by `dom_to_sexp_with`
/// without a depth cap reads back through `sexp_to_dom` as a document whose children are the
/// root's children as written: whitespace-only text dropped and other text trimmed when
/// whitespace is trimmed, text and comment nodes without children.
pub proof fn law_sexp_roundtrip(root: NodeView, opts: SexpOptions)
    requires
        opts.depth_cap is None,
    ensures
        parse_sexp(document_sexp(root, opts)) == Ok::<NodeView, Seq<char>>(
            document_node(written_forest(root.children, opts)),
        ),
{
    reveal_strlit("(document");
    reveal_strlit("\n");
    reveal_strlit("document");
    let s = document_sexp(root, opts);
    let cs = root.children;
    let cl: Seq<char> = if opts.pretty {
        "\n"@
    } else {
        seq![]
    };
    assert(s == "(document"@ + children_sexp(cs, 0, opts) + cl + ")"@);
    assert(s.subrange(0, s.len() as int) =~= s);
    assert(all_ws(cl));
    lemma_read_doc(s, 0, cs, 0, opts, cl);
    assert(s[0] == '(');
    assert(skip_ws(s, 0) == 0);
    assert(skip_ws(s, s.len() as int) == s.len());
    let items = seq![SForm::Symbol("document"@)] + children_forms(cs, opts);
    assert(items[0] == SForm::Symbol("document"@));
    assert(items.drop_first() =~= children_forms(cs, opts));
    lemma_convert_forest(cs, opts);
    lemma_forms_pointwise(children_forms(cs, opts), written_forest(cs, opts));
}

// ─── a second cycle ──────────────────────────────────────────────

/// Written compactly, a node as written gives the text the node gives.
proof fn lemma_written_same_text(n: NodeView, depth: nat, opts: SexpOptions)
    requires
        opts.depth_cap is None,
        !opts.pretty,
    ensures
        node_sexp(written(n, opts), depth, opts) == node_sexp(n, depth, opts),
    decreases n, 1int,
{
    assert(decreases_to!(n => n.children));
    match n.data {
        DataView::Text(t) => {
            lemma_trim_idempotent(t);
        },
        DataView::Comment(_) => {},
        _ => {
            lemma_written_forest_same_text(n.children, depth, opts);
        },
    }
}

/// Written compactly, the trees as written give the text the trees give.
proof fn lemma_written_forest_same_text(cs: Seq<NodeView>, depth: nat, opts: SexpOptions)
    requires
        opts.depth_cap is None,
        !opts.pretty,
    ensures
        children_sexp(written_forest(cs, opts), depth, opts) == children_sexp(cs, depth, opts),
    decreases cs, 0int,
{
    if cs.len() > 0 {
        assert(decreases_to!(cs => cs.drop_last()));
        assert(decreases_to!(cs => cs[cs.len() - 1]));
        let a = written_forest(cs.drop_last(), opts);
        lemma_written_forest_same_text(cs.drop_last(), depth, opts);
        let last = cs.last();
        if !dropped(last, opts) {
            let w = written(last, opts);
            lemma_written_same_text(last, depth + 1, opts);
            if let DataView::Text(t) = last.data {
                lemma_trim_idempotent(t);
            }
            assert(!dropped(w, opts));
            assert(a.push(w).drop_last() =~= a);
            assert(written_forest(cs, opts) == a.push(w));
        } else {
            assert(written_forest(cs, opts) == a + Seq::<NodeView>::empty());
            assert(a + Seq::<NodeView>::empty() =~= a);
        }
    }
}

/// A second cycle changes nothing: written compactly without a depth cap, a document reads back
/// as a tree that is written to the very same text.
pub proof fn law_sexp_second_cycle(root: NodeView, opts: SexpOptions)
    requires
        opts.depth_cap is None,
        !opts.pretty,
    ensures
        parse_sexp(document_sexp(root, opts)) matches Ok(d) && document_sexp(d, opts) == document_sexp(
            root,
            opts,
        ),
{
    law_sexp_roundtrip(root, opts);
    lemma_written_forest_same_text(root.children, 0, opts);
}

} // verus!
