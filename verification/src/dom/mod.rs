//! The document tree that the S-expression form is written from and read back into: a root
//! node whose children are elements, text and comments, each element with its tag, its
//! attributes in document order and its own children.
use vstd::prelude::*;

use crate::text::{push_str, split_whitespace, str_eq, views, words};

verus! {

/// A parsed document.
#[derive(Debug)]
pub struct Document {
    pub root: Node,
}

/// A node and its children, in order.
#[derive(Debug)]
pub struct Node {
    pub data: NodeData,
    pub children: Vec<Node>,
}

/// What a node is.
#[derive(Debug, Clone, PartialEq, Eq)]
pub enum NodeData {
    Document,
    Element(ElementData),
    Text(String),
    Comment(String),
}

/// An element: its tag name and its attributes as `(name, value)` pairs, in document order.
#[derive(Debug, Clone, PartialEq, Eq)]
pub struct ElementData {
    pub tag: String,
    pub attributes: Vec<(String, String)>,
}

// ─── the tree as a value ─────────────────────────────────────────

/// What a node is, as plain text values.
pub enum DataView {
    Document,
    Element { tag: Seq<char>, attributes: Seq<(Seq<char>, Seq<char>)> },
    Text(Seq<char>),
    Comment(Seq<char>),
}

/// A node and its children, as plain values.
pub struct NodeView {
    pub data: DataView,
    pub children: Seq<NodeView>,
}

/// The attribute pairs as text.
pub open spec fn attrs_view(a: Seq<(String, String)>) -> Seq<(Seq<char>, Seq<char>)> {
    a.map_values(|p: (String, String)| (p.0@, p.1@))
}

/// What a node's data is, as plain values.
pub open spec fn data_view(d: NodeData) -> DataView {
    match d {
        NodeData::Document => DataView::Document,
        NodeData::Element(el) => DataView::Element { tag: el.tag@, attributes: attrs_view(el.attributes@) },
        NodeData::Text(t) => DataView::Text(t@),
        NodeData::Comment(c) => DataView::Comment(c@),
    }
}

/// A node as a plain value.
pub open spec fn node_view(n: Node) -> NodeView
    decreases n,
{
    proof {
        assert(decreases_to!(n => n.children));
        assert(decreases_to!(n.children => n.children@));
    }
    NodeView { data: data_view(n.data), children: nodes_view(n.children@) }
}

/// Nodes as plain values, in order.
pub open spec fn nodes_view(s: Seq<Node>) -> Seq<NodeView>
    decreases s,
{
    if s.len() == 0 {
        seq![]
    } else {
        proof {
            assert(decreases_to!(s => s.drop_last()));
            assert(decreases_to!(s => s[s.len() - 1]));
        }
        nodes_view(s.drop_last()).push(node_view(s.last()))
    }
}

/// `nodes_view` keeps the length and maps each node in place.
pub proof fn lemma_nodes_view(s: Seq<Node>)
    ensures
        nodes_view(s).len() == s.len(),
        forall|i: int| 0 <= i < s.len() ==> #[trigger] nodes_view(s)[i] == node_view(s[i]),
    decreases s.len(),
{
    if s.len() > 0 {
        lemma_nodes_view(s.drop_last());
    }
}

// ─── counting ────────────────────────────────────────────────────

/// How many nodes lie below `n`, at any depth.
pub open spec fn descendants(n: NodeView) -> nat
    decreases n,
{
    descendants_of(n.children)
}

/// How many nodes the trees `cs` hold together, their roots included.
pub open spec fn descendants_of(cs: Seq<NodeView>) -> nat
    decreases cs,
{
    if cs.len() == 0 {
        0
    } else {
        proof {
            assert(decreases_to!(cs => cs.drop_last()));
            assert(decreases_to!(cs => cs[cs.len() - 1]));
        }
        descendants_of(cs.drop_last()) + 1 + descendants(cs.last())
    }
}

/// A prefix of a forest holds no more nodes than the forest, and each tree of it holds fewer.
pub proof fn lemma_descendants_prefix(cs: Seq<NodeView>, i: int)
    requires
        0 <= i < cs.len(),
    ensures
        descendants_of(cs.take(i + 1)) <= descendants_of(cs),
        descendants_of(cs.take(i)) + 1 + descendants(cs[i]) == descendants_of(cs.take(i + 1)),
    decreases cs.len(),
{
    assert(cs.take(i + 1).drop_last() =~= cs.take(i));
    if i + 1 < cs.len() {
        lemma_descendants_prefix(cs.drop_last(), i);
        assert(cs.drop_last().take(i + 1) =~= cs.take(i + 1));
    } else {
        assert(cs.take(i + 1) =~= cs);
    }
}

// ─── reading a tree ──────────────────────────────────────────────

/// The value of the first attribute named `name`.
pub open spec fn attr_value(attrs: Seq<(Seq<char>, Seq<char>)>, name: Seq<char>) -> Option<Seq<char>>
    decreases attrs.len(),
{
    if attrs.len() == 0 {
        None
    } else if attrs[0].0 == name {
        Some(attrs[0].1)
    } else {
        attr_value(attrs.drop_first(), name)
    }
}

/// The element carries `class` among the whitespace-separated words of its `class` attribute.
pub open spec fn has_class_spec(attrs: Seq<(Seq<char>, Seq<char>)>, class: Seq<char>) -> bool {
    match attr_value(attrs, "class"@) {
        Some(v) => words(v).contains(class),
        None => false,
    }
}

/// The text of a subtree: the text of every text node in it, in document order.
pub open spec fn text_of(n: NodeView) -> Seq<char>
    decreases n,
{
    proof {
        assert(decreases_to!(n => n.children));
    }
    (match n.data {
        DataView::Text(t) => t,
        _ => seq![],
    }) + texts_of(n.children)
}

/// The text of the trees, one after another.
pub open spec fn texts_of(cs: Seq<NodeView>) -> Seq<char>
    decreases cs,
{
    if cs.len() == 0 {
        seq![]
    } else {
        proof {
            assert(decreases_to!(cs => cs.drop_last()));
            assert(decreases_to!(cs => cs[cs.len() - 1]));
        }
        texts_of(cs.drop_last()) + text_of(cs.last())
    }
}

impl ElementData {
    /// The value of the first attribute named `name`.
    pub fn get_attribute(&self, name: &str) -> (r: Option<&str>)
        ensures
            match attr_value(attrs_view(self.attributes@), name@) {
                Some(v) => r matches Some(x) && x@ == v,
                None => r is None,
            },
    {
        let ghost a = attrs_view(self.attributes@);
        let mut i: usize = 0;
        assert(a.skip(0) =~= a);
        while i < self.attributes.len()
            invariant
                i <= self.attributes@.len(),
                a == attrs_view(self.attributes@),
                a.len() == self.attributes@.len(),
                attr_value(a, name@) == attr_value(a.skip(i as int), name@),
            decreases self.attributes@.len() - i,
        {
            assert(a.skip(i as int)[0] == a[i as int]);
            assert(a.skip(i as int).drop_first() =~= a.skip(i + 1));
            if str_eq(self.attributes[i].0.as_str(), name) {
                return Some(self.attributes[i].1.as_str());
            }
            i += 1;
        }
        None
    }

    /// The `id` attribute.
    pub fn id(&self) -> (r: Option<&str>)
        ensures
            match attr_value(attrs_view(self.attributes@), "id"@) {
                Some(v) => r matches Some(x) && x@ == v,
                None => r is None,
            },
    {
        self.get_attribute("id")
    }

    /// Whether `class` is one of the words of the `class` attribute.
    pub fn has_class(&self, class: &str) -> (r: bool)
        ensures
            r == has_class_spec(attrs_view(self.attributes@), class@),
    {
        match self.get_attribute("class") {
            Some(v) => {
                let ws = split_whitespace(v);
                let mut i: usize = 0;
                while i < ws.len()
                    invariant
                        i <= ws@.len(),
                        views(ws@) == words(v@),
                        attr_value(attrs_view(self.attributes@), "class"@) == Some(v@),
                        forall|j: int| 0 <= j < i ==> ws@[j]@ != class@,
                    decreases ws@.len() - i,
                {
                    if str_eq(ws[i].as_str(), class) {
                        assert(views(ws@)[i as int] == class@);
                        assert(words(v@)[i as int] == class@);
                        assert(words(v@).contains(class@));
                        return true;
                    }
                    i += 1;
                }
                proof {
                    if words(v@).contains(class@) {
                        let j = choose|j: int| 0 <= j < words(v@).len() && words(v@)[j] == class@;
                        assert(views(ws@)[j] == ws@[j]@);
                    }
                }
                false
            },
            None => false,
        }
    }
}

impl Node {
    /// The element data, for an element.
    pub fn as_element(&self) -> (r: Option<&ElementData>)
        ensures
            match self.data {
                NodeData::Element(e) => r == Some(&e),
                _ => r is None,
            },
    {
        match &self.data {
            NodeData::Element(e) => Some(e),
            _ => None,
        }
    }

    /// The text of the subtree: every text node's text, in document order.
    pub fn text_content(&self) -> (r: String)
        ensures
            r@ == text_of(self@),
    {
        let mut out = String::new();
        push_text_of(&mut out, self);
        out
    }
}

fn push_text_of(out: &mut String, n: &Node)
    ensures
        final(out)@ == old(out)@ + text_of(n@),
    decreases n,
{
    proof {
        lemma_nodes_view(n.children@);
    }
    match &n.data {
        NodeData::Text(t) => push_str(out, t.as_str()),
        _ => {},
    }
    let ghost mid = out@;
    let ghost cs = nodes_view(n.children@);
    let mut i: usize = 0;
    while i < n.children.len()
        invariant
            i <= n.children@.len(),
            cs == nodes_view(n.children@),
            cs.len() == n.children@.len(),
            forall|j: int| 0 <= j < cs.len() ==> #[trigger] cs[j] == node_view(n.children@[j]),
            out@ == mid + texts_of(cs.take(i as int)),
        decreases n.children@.len() - i,
    {
        proof {
            assert(cs.take(i + 1).drop_last() =~= cs.take(i as int));
            assert(decreases_to!(n => n.children));
            assert(decreases_to!(n.children => n.children@));
            assert(decreases_to!(n.children@ => n.children@[i as int]));
        }
        push_text_of(out, &n.children[i]);
        i += 1;
    }
    proof {
        assert(cs.take(cs.len() as int) =~= cs);
        assert(n@.children == cs);
    }
}

impl View for Node {
    type V = NodeView;

    open spec fn view(&self) -> NodeView {
        node_view(*self)
    }
}

impl View for Document {
    type V = NodeView;

    open spec fn view(&self) -> NodeView {
        node_view(self.root)
    }
}

} // verus!
