//! Writing a document tree as an S-expression:
//! `(document (element :tag "p" :attrs ((:class "x")) (text "hi")) (comment " c "))`.
use vstd::prelude::*;

use super::{attr_key, attr_key_part, attr_key_text, is_key_char, key_is_bare, literal, string_literal, SexpOptions};
use crate::dom::{
    attrs_view, data_view, descendants, descendants_of, lemma_descendants_prefix, lemma_nodes_view, node_view, nodes_view,
    DataView, Document, ElementData, Node, NodeData, NodeView,
};
use crate::outline::{decimal, push_decimal};
use crate::text::{chars_of, push_str, string_from_chars, trim, trim_chars};

verus! {

// ─── the text written, as spec ───────────────────────────────────

/// Two spaces per level of depth.
pub open spec fn indent(depth: nat) -> Seq<char>
    decreases depth,
{
    if depth == 0 {
        seq![]
    } else {
        indent((depth - 1) as nat) + "  "@
    }
}

/// A whitespace-only text node, left out when whitespace is trimmed.
pub open spec fn dropped(n: NodeView, opts: SexpOptions) -> bool {
    opts.trim_whitespace && (n.data matches DataView::Text(t) && trim(t).len() == 0)
}

/// What goes before a child written at `depth + 1`: a newline and indentation, or one space.
pub open spec fn child_sep(depth: nat, opts: SexpOptions) -> Seq<char> {
    if opts.pretty {
        "\n"@ + indent(depth + 1)
    } else {
        " "@
    }
}

/// What goes before the closing parenthesis of a node with `n` children written at `depth`.
pub open spec fn closing(n: nat, depth: nat, opts: SexpOptions) -> Seq<char> {
    if opts.pretty && n > 0 {
        "\n"@ + indent(depth)
    } else {
        seq![]
    }
}

/// One attribute: `(:key "value")`, or `("key" "value")` for a key that cannot be written bare.
pub open spec fn attr_sexp(p: (Seq<char>, Seq<char>)) -> Seq<char> {
    "("@ + attr_key_part(p.0) + " "@ + literal(p.1) + ")"@
}

/// The attributes, separated by single spaces.
pub open spec fn attrs_sexp(a: Seq<(Seq<char>, Seq<char>)>) -> Seq<char>
    decreases a.len(),
{
    if a.len() == 0 {
        seq![]
    } else if a.len() == 1 {
        attr_sexp(a[0])
    } else {
        attrs_sexp(a.drop_last()) + " "@ + attr_sexp(a.last())
    }
}

/// The head of an element: `(element :tag "NAME"`, then ` :attrs (…)` when it has attributes.
pub open spec fn element_head(tag: Seq<char>, attributes: Seq<(Seq<char>, Seq<char>)>) -> Seq<char> {
    "(element :tag "@ + literal(tag) + if attributes.len() > 0 {
        " :attrs ("@ + attrs_sexp(attributes) + ")"@
    } else {
        seq![]
    }
}

/// The text shown for a text node: trimmed when whitespace is trimmed.
pub open spec fn shown_text(t: Seq<char>, opts: SexpOptions) -> Seq<char> {
    if opts.trim_whitespace {
        trim(t)
    } else {
        t
    }
}

/// The children of a node at `depth`, each written at `depth + 1` after its separator.
pub open spec fn children_sexp(cs: Seq<NodeView>, depth: nat, opts: SexpOptions) -> Seq<char>
    decreases cs,
{
    if cs.len() == 0 {
        seq![]
    } else {
        proof {
            assert(decreases_to!(cs => cs.drop_last()));
            assert(decreases_to!(cs => cs[cs.len() - 1]));
        }
        children_sexp(cs.drop_last(), depth, opts) + if dropped(cs.last(), opts) {
            seq![]
        } else {
            child_sep(depth, opts) + node_sexp(cs.last(), depth + 1, opts)
        }
    }
}

/// A node written at `depth`. An element at or below the depth cap that has children is written
/// as its head and `(… :elided N)`, `N` the number of nodes below it.
pub open spec fn node_sexp(n: NodeView, depth: nat, opts: SexpOptions) -> Seq<char>
    decreases n,
{
    proof {
        assert(decreases_to!(n => n.children));
    }
    match n.data {
        DataView::Document => "(document"@ + children_sexp(n.children, depth, opts) + closing(
            n.children.len(),
            depth,
            opts,
        ) + ")"@,
        DataView::Element { tag, attributes } => {
            let head = element_head(tag, attributes);
            if opts.depth_cap matches Some(cap) && depth >= cap && n.children.len() > 0 {
                head + " (… :elided "@ + decimal(descendants(n)) + "))"@
            } else {
                head + children_sexp(n.children, depth, opts) + closing(n.children.len(), depth, opts) + ")"@
            }
        },
        DataView::Text(t) => "(text "@ + literal(shown_text(t, opts)) + ")"@,
        DataView::Comment(c) => "(comment "@ + literal(c) + ")"@,
    }
}

/// A whole document: `(document` and the root's children written at depth one, then a newline
/// when pretty-printing, then `)`.
pub open spec fn document_sexp(root: NodeView, opts: SexpOptions) -> Seq<char> {
    "(document"@ + children_sexp(root.children, 0, opts) + (if opts.pretty {
        "\n"@
    } else {
        seq![]
    }) + ")"@
}

// ─── writing ─────────────────────────────────────────────────────

fn push_indent(out: &mut String, depth: usize)
    ensures
        final(out)@ == old(out)@ + indent(depth as nat),
{
    let mut k: usize = 0;
    while k < depth
        invariant
            k <= depth,
            out@ == old(out)@ + indent(k as nat),
        decreases depth - k,
    {
        push_str(out, "  ");
        k += 1;
        assert(indent(k as nat) == indent((k - 1) as nat) + "  "@);
    }
}

fn count_descendants(node: &Node) -> (r: usize)
    requires
        descendants(node@) < usize::MAX,
    ensures
        r == descendants(node@),
    decreases node,
{
    let ghost cs = nodes_view(node.children@);
    proof {
        lemma_nodes_view(node.children@);
        assert(node@.children == cs);
    }
    let mut n: usize = 0;
    let mut i: usize = 0;
    while i < node.children.len()
        invariant
            i <= node.children@.len(),
            cs == nodes_view(node.children@),
            cs.len() == node.children@.len(),
            forall|j: int| 0 <= j < cs.len() ==> #[trigger] cs[j] == node_view(node.children@[j]),
            descendants_of(cs) < usize::MAX,
            n == descendants_of(cs.take(i as int)),
        decreases node.children@.len() - i,
    {
        proof {
            lemma_descendants_prefix(cs, i as int);
            assert(decreases_to!(node => node.children));
            assert(decreases_to!(node.children => node.children@));
            assert(decreases_to!(node.children@ => node.children@[i as int]));
        }
        let d = count_descendants(&node.children[i]);
        n = n + 1 + d;
        i += 1;
    }
    assert(cs.take(cs.len() as int) =~= cs);
    n
}

fn push_key_part(out: &mut String, key: &str)
    ensures
        final(out)@ == old(out)@ + attr_key_part(key@),
{
    let k = attr_key(key);
    let cs = chars_of(k.as_str());
    proof {
        if key_is_bare(key@) {
            assert(is_key_char(key@[0]));
        } else {
            assert(literal(key@)[0] == '"');
        }
    }
    if cs.len() > 0 && cs[0] == '"' {
        push_str(out, k.as_str());
    } else {
        push_str(out, ":");
        push_str(out, k.as_str());
        proof {
            reveal_strlit(":");
            assert(":"@ =~= seq![':']);
            assert(old(out)@ + ":"@ + k@ =~= old(out)@ + (seq![':'] + key@));
        }
    }
}

fn push_attrs(out: &mut String, attrs: &Vec<(String, String)>)
    ensures
        final(out)@ == old(out)@ + attrs_sexp(attrs_view(attrs@)),
{
    let ghost a = attrs_view(attrs@);
    let mut i: usize = 0;
    while i < attrs.len()
        invariant
            i <= attrs@.len(),
            a == attrs_view(attrs@),
            a.len() == attrs@.len(),
            out@ == old(out)@ + attrs_sexp(a.take(i as int)),
        decreases attrs@.len() - i,
    {
        if i > 0 {
            push_str(out, " ");
        }
        push_str(out, "(");
        push_key_part(out, attrs[i].0.as_str());
        push_str(out, " ");
        let v = string_literal(attrs[i].1.as_str());
        push_str(out, v.as_str());
        push_str(out, ")");
        proof {
            assert(a.take(i + 1).drop_last() =~= a.take(i as int));
            assert(a[i as int] == (attrs@[i as int].0@, attrs@[i as int].1@));
            if i == 0 {
                assert(a.take(0) =~= Seq::<(Seq<char>, Seq<char>)>::empty());
            }
        }
        i += 1;
    }
    assert(a.take(a.len() as int) =~= a);
}

fn emit_children(out: &mut String, children: &Vec<Node>, depth: usize, opts: &SexpOptions)
    requires
        depth + descendants_of(nodes_view(children@)) < usize::MAX,
    ensures
        final(out)@ == old(out)@ + children_sexp(nodes_view(children@), depth as nat, *opts),
    decreases children, 2nat,
{
    let ghost cs = nodes_view(children@);
    proof {
        lemma_nodes_view(children@);
    }
    let mut i: usize = 0;
    while i < children.len()
        invariant
            i <= children@.len(),
            cs == nodes_view(children@),
            cs.len() == children@.len(),
            forall|j: int| 0 <= j < cs.len() ==> #[trigger] cs[j] == node_view(children@[j]),
            depth + descendants_of(cs) < usize::MAX,
            out@ == old(out)@ + children_sexp(cs.take(i as int), depth as nat, *opts),
        decreases children@.len() - i,
    {
        proof {
            lemma_descendants_prefix(cs, i as int);
            assert(cs.take(i + 1).drop_last() =~= cs.take(i as int));
            assert(decreases_to!(children => children@));
            assert(decreases_to!(children@ => children@[i as int]));
        }
        let child = &children[i];
        let skip = match &child.data {
            NodeData::Text(t) => {
                let cs_t = chars_of(t.as_str());
                let tr = trim_chars(cs_t.as_slice());
                opts.trim_whitespace && tr.len() == 0
            },
            _ => false,
        };
        if !skip {
            if opts.pretty {
                push_str(out, "\n");
                push_indent(out, depth + 1);
            } else {
                push_str(out, " ");
            }
            emit_node(out, child, depth + 1, opts);
        }
        i += 1;
    }
    assert(cs.take(cs.len() as int) =~= cs);
}

fn push_head(out: &mut String, el: &ElementData)
    ensures
        final(out)@ == old(out)@ + element_head(el.tag@, attrs_view(el.attributes@)),
{
    push_str(out, "(element :tag ");
    let lit = string_literal(el.tag.as_str());
    push_str(out, lit.as_str());
    if el.attributes.len() > 0 {
        push_str(out, " :attrs (");
        push_attrs(out, &el.attributes);
        push_str(out, ")");
    }
}

fn emit_element(out: &mut String, node: &Node, el: &ElementData, depth: usize, opts: &SexpOptions)
    requires
        node.data == NodeData::Element(*el),
        depth + descendants(node@) < usize::MAX,
    ensures
        final(out)@ == old(out)@ + node_sexp(node@, depth as nat, *opts),
    decreases node, 0nat,
{
    proof {
        assert(node@.children == nodes_view(node.children@));
        lemma_nodes_view(node.children@);
        assert(node@.data == data_view(node.data));
    }
    push_head(out, el);
    let capped = match opts.depth_cap {
        Some(cap) => depth >= cap && node.children.len() > 0,
        None => false,
    };
    if capped {
        let n = count_descendants(node);
        push_str(out, " (… :elided ");
        let mut digits: Vec<char> = Vec::new();
        push_decimal(&mut digits, n);
        let d = string_from_chars(digits.as_slice());
        push_str(out, d.as_str());
        push_str(out, "))");
    } else {
        if node.children.len() > 0 {
            proof {
                assert(decreases_to!(node => node.children));
            }
            emit_children(out, &node.children, depth, opts);
            if opts.pretty {
                push_str(out, "\n");
                push_indent(out, depth);
            }
        }
        push_str(out, ")");
    }
}

fn emit_node(out: &mut String, node: &Node, depth: usize, opts: &SexpOptions)
    requires
        depth + descendants(node@) < usize::MAX,
    ensures
        final(out)@ == old(out)@ + node_sexp(node@, depth as nat, *opts),
    decreases node, 1nat,
{
    proof {
        assert(decreases_to!(node => node.children));
        assert(node@.children == nodes_view(node.children@));
        lemma_nodes_view(node.children@);
    }
    match &node.data {
        NodeData::Document => {
            push_str(out, "(document");
            emit_children(out, &node.children, depth, opts);
            if opts.pretty && node.children.len() > 0 {
                push_str(out, "\n");
                push_indent(out, depth);
            }
            push_str(out, ")");
        },
        NodeData::Element(el) => emit_element(out, node, el, depth, opts),
        NodeData::Text(t) => {
            push_str(out, "(text ");
            let shown = if opts.trim_whitespace {
                let cs_t = chars_of(t.as_str());
                let tr = trim_chars(cs_t.as_slice());
                string_from_chars(tr.as_slice())
            } else {
                string_from_chars(chars_of(t.as_str()).as_slice())
            };
            let lit = string_literal(shown.as_str());
            push_str(out, lit.as_str());
            push_str(out, ")");
        },
        NodeData::Comment(c) => {
            push_str(out, "(comment ");
            let lit = string_literal(c.as_str());
            push_str(out, lit.as_str());
            push_str(out, ")");
        },
    }
}

/// The whole document as an S-expression, pretty-printed, whitespace-only text dropped and
/// other text trimmed, nothing elided.
pub fn dom_to_sexp(doc: &Document) -> (r: String)
    requires
        descendants(doc@) < usize::MAX,
    ensures
        r@ == document_sexp(doc@, SexpOptions { depth_cap: None, pretty: true, trim_whitespace: true }),
{
    let opts = SexpOptions::default();
    dom_to_sexp_with(doc, &opts)
}

/// The whole document as an S-expression written with `opts`.
pub fn dom_to_sexp_with(doc: &Document, opts: &SexpOptions) -> (r: String)
    requires
        descendants(doc@) < usize::MAX,
    ensures
        r@ == document_sexp(doc@, *opts),
{
    proof {
        assert(doc@.children == nodes_view(doc.root.children@));
    }
    let mut out = String::new();
    push_str(&mut out, "(document");
    emit_children(&mut out, &doc.root.children, 0, opts);
    if opts.pretty {
        push_str(&mut out, "\n");
    }
    push_str(&mut out, ")");
    out
}

/// One subtree as an S-expression written with `opts`, starting at depth zero.
pub fn node_to_sexp(node: &Node, opts: &SexpOptions) -> (r: String)
    requires
        descendants(node@) < usize::MAX,
    ensures
        r@ == node_sexp(node@, 0, *opts),
{
    let mut out = String::new();
    emit_node(&mut out, node, 0, opts);
    out
}

} // verus!
