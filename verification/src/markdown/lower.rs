//! Lowering a document to the Markdown AST. The `<body>` subtree is walked (the whole tree when
//! there is none): block elements become blocks, loose text and inline elements gather into a
//! paragraph that is closed at every block boundary, other containers are transparent, and
//! script, style and the like are skipped with their content.
use vstd::prelude::*;

use super::{
    block_view, blocks_md, blocks_view, inline_view, inlines_view, items_view, lemma_inlines_view, Block, BlockView,
    Inline, InlineView, Markdown,
};
use crate::dom::{
    attr_value, attrs_view, lemma_nodes_view, node_view, nodes_view, text_of, DataView, Document, ElementData, Node,
    NodeData,
    NodeView,
};
use crate::outline::{heading_level, heading_level_spec, normalize_text};
use crate::text::{
    chars_of, has_prefix, is_prefix, is_ws, is_ws_exec, join, lower, owned, slice_chars, split_whitespace, str_eq,
    string_from_chars, to_ascii_lowercase, trim, trim_chars, trim_end, trim_start, views, words,
};

verus! {

// ─── tag classes ─────────────────────────────────────────────────

/// Tags whose element and content are left out.
pub open spec fn skipped_tag(t: Seq<char>) -> bool {
    t == "script"@ || t == "style"@ || t == "noscript"@ || t == "template"@ || t == "head"@ || t == "title"@
        || t == "meta"@ || t == "link"@
}

/// Inline tags: their content is inline, never a block boundary.
pub open spec fn inline_tag(t: Seq<char>) -> bool {
    t == "a"@ || t == "b"@ || t == "strong"@ || t == "i"@ || t == "em"@ || t == "code"@ || t == "br"@ || t
        == "img"@ || t == "span"@ || t == "small"@ || t == "sub"@ || t == "sup"@ || t == "mark"@ || t == "u"@
        || t == "abbr"@ || t == "cite"@
}

// ─── text and soft breaks ────────────────────────────────────────

/// `s` holds a whitespace character.
pub open spec fn has_ws(s: Seq<char>) -> bool {
    exists|i: int| 0 <= i < s.len() && is_ws(#[trigger] s[i])
}

/// Loose text added to an inline run: whitespace runs collapse to one space, whitespace at
/// either end becomes a soft break (a leading one only after something), and whitespace-only
/// text is one soft break after something, else nothing.
pub open spec fn push_text_spec(out: Seq<InlineView>, raw: Seq<char>) -> Seq<InlineView> {
    if trim(raw).len() == 0 {
        if has_ws(raw) && out.len() > 0 {
            out.push(InlineView::SoftBreak)
        } else {
            out
        }
    } else {
        let o1 = if is_ws(raw[0]) && out.len() > 0 {
            out.push(InlineView::SoftBreak)
        } else {
            out
        };
        let o2 = o1.push(InlineView::Text(join(words(raw), " "@)));
        if is_ws(raw.last()) {
            o2.push(InlineView::SoftBreak)
        } else {
            o2
        }
    }
}

/// An inline run without leading soft breaks.
pub open spec fn trim_soft_start(s: Seq<InlineView>) -> Seq<InlineView>
    decreases s.len(),
{
    if s.len() > 0 && s[0] is SoftBreak {
        trim_soft_start(s.drop_first())
    } else {
        s
    }
}

/// An inline run without trailing soft breaks.
pub open spec fn trim_soft_end(s: Seq<InlineView>) -> Seq<InlineView>
    decreases s.len(),
{
    if s.len() > 0 && s.last() is SoftBreak {
        trim_soft_end(s.drop_last())
    } else {
        s
    }
}

/// An inline run without soft breaks at either end.
pub open spec fn trim_soft(s: Seq<InlineView>) -> Seq<InlineView> {
    trim_soft_end(trim_soft_start(s))
}

/// Closing the loose inline run: it becomes a paragraph when anything is left of it.
pub open spec fn flushed(st: (Seq<BlockView>, Seq<InlineView>)) -> Seq<BlockView> {
    if trim_soft(st.1).len() > 0 {
        st.0.push(BlockView::Paragraph(trim_soft(st.1)))
    } else {
        st.0
    }
}

// ─── attributes and languages ────────────────────────────────────

/// An attribute's value, or empty text.
pub open spec fn attr_or_empty(attrs: Seq<(Seq<char>, Seq<char>)>, name: Seq<char>) -> Seq<char> {
    match attr_value(attrs, name) {
        Some(v) => v,
        None => seq![],
    }
}

/// The attributes of the first `code` element of a subtree in document order, the root first.
pub open spec fn first_code(n: NodeView) -> Option<Seq<(Seq<char>, Seq<char>)>>
    decreases n,
{
    proof {
        assert(decreases_to!(n => n.children));
    }
    match n.data {
        DataView::Element { tag, attributes } if lower(tag) == "code"@ => Some(attributes),
        _ => first_code_in(n.children),
    }
}

/// The attributes of the first `code` element of the trees, in document order.
pub open spec fn first_code_in(cs: Seq<NodeView>) -> Option<Seq<(Seq<char>, Seq<char>)>>
    decreases cs,
{
    if cs.len() == 0 {
        None
    } else {
        proof {
            assert(decreases_to!(cs => cs[0]));
            assert(decreases_to!(cs => cs.drop_first()));
        }
        match first_code(cs[0]) {
            Some(a) => Some(a),
            None => first_code_in(cs.drop_first()),
        }
    }
}

/// The first class word `language-X`, as `X`.
pub open spec fn lang_of(ws: Seq<Seq<char>>) -> Option<Seq<char>>
    decreases ws.len(),
{
    if ws.len() == 0 {
        None
    } else if is_prefix("language-"@, ws[0]) {
        Some(ws[0].skip(9))
    } else {
        lang_of(ws.drop_first())
    }
}

/// The language of a code block: from the `language-X` class of its first `code` element.
pub open spec fn code_lang(n: NodeView) -> Option<Seq<char>> {
    match first_code(n) {
        Some(attrs) => match attr_value(attrs, "class"@) {
            Some(v) => lang_of(words(v)),
            None => None,
        },
        None => None,
    }
}

/// The first `body` element of a tree in document order, the root first.
pub open spec fn first_body(n: NodeView) -> Option<NodeView>
    decreases n,
{
    proof {
        assert(decreases_to!(n => n.children));
    }
    match n.data {
        DataView::Element { tag, .. } if lower(tag) == "body"@ => Some(n),
        _ => first_body_in(n.children),
    }
}

/// The first `body` element of the trees, in document order.
pub open spec fn first_body_in(cs: Seq<NodeView>) -> Option<NodeView>
    decreases cs,
{
    if cs.len() == 0 {
        None
    } else {
        proof {
            assert(decreases_to!(cs => cs[0]));
            assert(decreases_to!(cs => cs.drop_first()));
        }
        match first_body(cs[0]) {
            Some(b) => Some(b),
            None => first_body_in(cs.drop_first()),
        }
    }
}

// ─── lowering ────────────────────────────────────────────────────

/// The lowered tag of an element child, or empty text for other nodes.
pub open spec fn tag_of(n: NodeView) -> Seq<char> {
    match n.data {
        DataView::Element { tag, .. } => lower(tag),
        _ => seq![],
    }
}

/// The inline a lowered inline tag stands for, or none (then its content is walked through).
pub open spec fn inline_for(t: Seq<char>, n: NodeView) -> Option<InlineView>
    decreases n, 2int,
{
    let attrs = match n.data {
        DataView::Element { attributes, .. } => attributes,
        _ => seq![],
    };
    if t == "strong"@ || t == "b"@ {
        Some(InlineView::Strong(inlines_of(n)))
    } else if t == "em"@ || t == "i"@ {
        Some(InlineView::Emphasis(inlines_of(n)))
    } else if t == "code"@ {
        Some(InlineView::Code(text_of(n)))
    } else if t == "br"@ {
        Some(InlineView::HardBreak)
    } else if t == "a"@ {
        Some(InlineView::Link { text: inlines_of(n), href: attr_or_empty(attrs, "href"@) })
    } else if t == "img"@ {
        Some(InlineView::Image { alt: attr_or_empty(attrs, "alt"@), src: attr_or_empty(attrs, "src"@) })
    } else {
        None
    }
}

/// The inline content of a node: its children collected, soft breaks trimmed at the ends.
pub open spec fn inlines_of(n: NodeView) -> Seq<InlineView>
    decreases n, 1int,
{
    proof {
        assert(decreases_to!(n => n.children));
    }
    trim_soft(collect(n.children, seq![]))
}

/// Collecting the inline content of the trees after `out`: text, inline elements, and the
/// content of other elements, skipped tags left out.
pub open spec fn collect(cs: Seq<NodeView>, out: Seq<InlineView>) -> Seq<InlineView>
    decreases cs, 0int,
{
    if cs.len() == 0 {
        out
    } else {
        proof {
            assert(decreases_to!(cs => cs.drop_last()));
            assert(decreases_to!(cs => cs[cs.len() - 1]));
        }
        collect_one(cs.last(), collect(cs.drop_last(), out))
    }
}

/// Collecting one node's inline content after `out`.
pub open spec fn collect_one(c: NodeView, out: Seq<InlineView>) -> Seq<InlineView>
    decreases c, 3int,
{
    proof {
        assert(decreases_to!(c => c.children));
    }
    match c.data {
        DataView::Text(t) => push_text_spec(out, t),
        DataView::Element { .. } => {
            let t = tag_of(c);
            if skipped_tag(t) {
                out
            } else {
                match inline_for(t, c) {
                    Some(i) => out.push(i),
                    None => collect(c.children, out),
                }
            }
        },
        _ => out,
    }
}

/// The block a lowered block tag stands for, or none.
pub open spec fn block_for(t: Seq<char>, n: NodeView) -> Option<BlockView>
    decreases n, 2int,
{
    proof {
        assert(decreases_to!(n => n.children));
    }
    if heading_level_spec(t) is Some {
        Some(BlockView::Heading { level: heading_level_spec(t)->0, inlines: inlines_of(n) })
    } else if t == "p"@ {
        Some(BlockView::Paragraph(inlines_of(n)))
    } else if t == "blockquote"@ {
        Some(BlockView::BlockQuote(flushed(convert(n.children, (seq![], seq![])))))
    } else if t == "pre"@ {
        Some(BlockView::CodeBlock { lang: code_lang(n), text: text_of(n) })
    } else if t == "ul"@ || t == "ol"@ {
        Some(BlockView::List { ordered: t == "ol"@, items: list_items(n.children) })
    } else if t == "hr"@ {
        Some(BlockView::ThematicBreak)
    } else {
        None
    }
}

/// The items of a list: the blocks of each `li` child.
pub open spec fn list_items(cs: Seq<NodeView>) -> Seq<Seq<BlockView>>
    decreases cs, 0int,
{
    if cs.len() == 0 {
        seq![]
    } else {
        proof {
            assert(decreases_to!(cs => cs.drop_last()));
            assert(decreases_to!(cs => cs[cs.len() - 1]));
            assert(decreases_to!(cs[cs.len() - 1] => cs[cs.len() - 1].children));
        }
        let li = cs.last();
        list_items(cs.drop_last()) + if li.data is Element && tag_of(li) == "li"@ {
            seq![flushed(convert(li.children, (seq![], seq![])))]
        } else {
            seq![]
        }
    }
}

/// Walking the trees in block context from the blocks and loose inline run `st`.
pub open spec fn convert(cs: Seq<NodeView>, st: (Seq<BlockView>, Seq<InlineView>)) -> (
    Seq<BlockView>,
    Seq<InlineView>,
)
    decreases cs, 0int,
{
    if cs.len() == 0 {
        st
    } else {
        proof {
            assert(decreases_to!(cs => cs.drop_last()));
            assert(decreases_to!(cs => cs[cs.len() - 1]));
        }
        convert_one(cs.last(), convert(cs.drop_last(), st))
    }
}

/// One node in block context: text joins the run; a block element closes the run and adds its
/// block; an inline element joins the run as its inline (an inline tag with none is dropped);
/// any other element is walked through.
pub open spec fn convert_one(c: NodeView, st: (Seq<BlockView>, Seq<InlineView>)) -> (
    Seq<BlockView>,
    Seq<InlineView>,
)
    decreases c, 3int,
{
    proof {
        assert(decreases_to!(c => c.children));
    }
    match c.data {
        DataView::Text(t) => (st.0, push_text_spec(st.1, t)),
        DataView::Element { .. } => {
            let t = tag_of(c);
            if skipped_tag(t) {
                st
            } else {
                match block_for(t, c) {
                    Some(b) => (flushed(st).push(b), seq![]),
                    None => if inline_tag(t) {
                        match inline_for(t, c) {
                            Some(i) => (st.0, st.1.push(i)),
                            None => st,
                        }
                    } else {
                        convert(c.children, st)
                    },
                }
            }
        },
        _ => st,
    }
}

/// The Markdown AST of a document: the blocks of its `body` (or of the whole tree), the last
/// loose run closed.
pub open spec fn lowered(doc: NodeView) -> Seq<BlockView> {
    let root = match first_body(doc) {
        Some(b) => b,
        None => doc,
    };
    flushed(convert(root.children, (seq![], seq![])))
}

// ─── lowering ────────────────────────────────────────────────────

proof fn lemma_inlines_push(v: Seq<Inline>, x: Inline)
    ensures
        inlines_view(v.push(x)) == inlines_view(v).push(inline_view(x)),
{
    assert(v.push(x).drop_last() =~= v);
}

proof fn lemma_blocks_push(v: Seq<Block>, x: Block)
    ensures
        blocks_view(v.push(x)) == blocks_view(v).push(block_view(x)),
{
    assert(v.push(x).drop_last() =~= v);
}

fn soft_break(out: &mut Vec<Inline>)
    ensures
        inlines_view(final(out)@) == inlines_view(old(out)@).push(InlineView::SoftBreak),
{
    proof {
        lemma_inlines_push(out@, Inline::SoftBreak);
    }
    out.push(Inline::SoftBreak);
}

fn push_text(out: &mut Vec<Inline>, raw: &str)
    ensures
        inlines_view(final(out)@) == push_text_spec(inlines_view(old(out)@), raw@),
{
    proof {
        lemma_inlines_view(out@);
    }
    let cs = chars_of(raw);
    let tr = trim_chars(cs.as_slice());
    if tr.len() == 0 {
        let mut any = false;
        let mut i: usize = 0;
        while i < cs.len()
            invariant
                i <= cs@.len(),
                cs@ == raw@,
                any == exists|j: int| 0 <= j < i && is_ws(#[trigger] cs@[j]),
            decreases cs@.len() - i,
        {
            if is_ws_exec(cs[i]) {
                any = true;
            }
            i += 1;
        }
        if any && out.len() > 0 {
            soft_break(out);
        }
        return;
    }
    proof {
        if raw@.len() == 0 {
            assert(trim_start(raw@) == raw@);
            assert(trim_end(raw@) == raw@);
        }
    }
    let leading = is_ws_exec(cs[0]);
    let trailing = is_ws_exec(cs[cs.len() - 1]);
    if leading && out.len() > 0 {
        soft_break(out);
    }
    let collapsed = normalize_text(raw);
    proof {
        reveal_strlit(" ");
        assert(" "@ =~= seq![' ']);
        lemma_inlines_push(out@, Inline::Text(collapsed));
    }
    out.push(Inline::Text(collapsed));
    if trailing {
        soft_break(out);
    }
}

/// Drops soft breaks at either end of an inline run.
fn trim_inlines(v: &mut Vec<Inline>)
    ensures
        inlines_view(final(v)@) == trim_soft(inlines_view(old(v)@)),
{
    proof {
        lemma_inlines_view(v@);
    }
    while v.len() > 0 && matches!(v[0], Inline::SoftBreak)
        invariant
            trim_soft_start(inlines_view(old(v)@)) == trim_soft_start(inlines_view(v@)),
        decreases v@.len(),
    {
        let ghost before = v@;
        proof {
            lemma_inlines_view(before);
        }
        let _ = v.remove(0);
        proof {
            lemma_inlines_view(v@);
            assert(inlines_view(before).drop_first() =~= inlines_view(v@));
        }
    }
    proof {
        lemma_inlines_view(v@);
    }
    let ghost start = v@;
    while v.len() > 0 && matches!(v[v.len() - 1], Inline::SoftBreak)
        invariant
            trim_soft_end(inlines_view(start)) == trim_soft_end(inlines_view(v@)),
        decreases v@.len(),
    {
        let ghost before = v@;
        proof {
            lemma_inlines_view(before);
        }
        let _ = v.pop();
        proof {
            assert(before.drop_last() =~= v@);
            assert(inlines_view(before).last() == inline_view(before.last()));
            assert(inlines_view(before).drop_last() == inlines_view(v@));
        }
    }
    proof {
        lemma_inlines_view(v@);
    }
}

fn flush(blocks: &mut Vec<Block>, pending: &mut Vec<Inline>)
    ensures
        blocks_view(final(blocks)@) == flushed((blocks_view(old(blocks)@), inlines_view(old(pending)@))),
        final(pending)@.len() == 0,
{
    trim_inlines(pending);
    let mut p: Vec<Inline> = Vec::new();
    std::mem::swap(&mut p, pending);
    if p.len() > 0 {
        proof {
            lemma_blocks_push(blocks@, Block::Paragraph(p));
        }
        blocks.push(Block::Paragraph(p));
    } else {
        proof {
            lemma_inlines_view(p@);
        }
    }
}

fn is_skipped(t: &str) -> (r: bool)
    ensures
        r == skipped_tag(t@),
{
    str_eq(t, "script") || str_eq(t, "style") || str_eq(t, "noscript") || str_eq(t, "template") || str_eq(t, "head")
        || str_eq(t, "title") || str_eq(t, "meta") || str_eq(t, "link")
}

fn is_inline(t: &str) -> (r: bool)
    ensures
        r == inline_tag(t@),
{
    str_eq(t, "a") || str_eq(t, "b") || str_eq(t, "strong") || str_eq(t, "i") || str_eq(t, "em") || str_eq(t, "code")
        || str_eq(t, "br") || str_eq(t, "img") || str_eq(t, "span") || str_eq(t, "small") || str_eq(t, "sub")
        || str_eq(t, "sup") || str_eq(t, "mark") || str_eq(t, "u") || str_eq(t, "abbr") || str_eq(t, "cite")
}

fn lowered_tag(n: &Node) -> (r: String)
    ensures
        r@ == tag_of(n@),
{
    match &n.data {
        NodeData::Element(el) => to_ascii_lowercase(el.tag.as_str()),
        _ => String::new(),
    }
}

fn attr_string(el: &ElementData, name: &str) -> (r: String)
    ensures
        r@ == attr_or_empty(attrs_view(el.attributes@), name@),
{
    match el.get_attribute(name) {
        Some(v) => owned(v),
        None => String::new(),
    }
}

fn first_code_exec(n: &Node) -> (r: Option<&ElementData>)
    ensures
        match first_code(n@) {
            Some(a) => r matches Some(e) && attrs_view(e.attributes@) == a,
            None => r is None,
        },
    decreases n,
{
    proof {
        lemma_nodes_view(n.children@);
        assert(n@.children == nodes_view(n.children@));
    }
    match &n.data {
        NodeData::Element(el) => {
            let t = to_ascii_lowercase(el.tag.as_str());
            if str_eq(t.as_str(), "code") {
                return Some(el);
            }
        },
        _ => {},
    }
    let ghost cs = nodes_view(n.children@);
    let mut i: usize = 0;
    assert(cs.skip(0) =~= cs);
    while i < n.children.len()
        invariant
            i <= n.children@.len(),
            cs == nodes_view(n.children@),
            cs.len() == n.children@.len(),
            forall|j: int| 0 <= j < cs.len() ==> #[trigger] cs[j] == node_view(n.children@[j]),
            first_code_in(cs) == first_code_in(cs.skip(i as int)),
            first_code(n@) == first_code_in(cs),
        decreases n.children@.len() - i,
    {
        proof {
            assert(cs.skip(i as int)[0] == cs[i as int]);
            assert(cs.skip(i as int).drop_first() =~= cs.skip(i + 1));
            assert(decreases_to!(n => n.children));
            assert(decreases_to!(n.children => n.children@));
            assert(decreases_to!(n.children@ => n.children@[i as int]));
        }
        match first_code_exec(&n.children[i]) {
            Some(e) => {
                proof {
                    assert(first_code_in(cs.skip(i as int)) == first_code(cs[i as int]));
                }
                return Some(e);
            },
            None => {},
        }
        i += 1;
    }
    assert(cs.skip(i as int) =~= Seq::<NodeView>::empty());
    None
}

fn code_lang_exec(n: &Node) -> (r: Option<String>)
    ensures
        match code_lang(n@) {
            Some(l) => r matches Some(x) && x@ == l,
            None => r is None,
        },
{
    match first_code_exec(n) {
        Some(el) => match el.get_attribute("class") {
            Some(class) => {
                let ws = split_whitespace(class);
                let ghost wv = views(ws@);
                let prefix = chars_of("language-");
                proof {
                    reveal_strlit("language-");
                }
                let mut i: usize = 0;
                assert(wv.skip(0) =~= wv);
                while i < ws.len()
                    invariant
                        i <= ws@.len(),
                        wv == views(ws@),
                        wv == words(class@),
                        prefix@ == "language-"@,
                        prefix@.len() == 9,
                        lang_of(wv) == lang_of(wv.skip(i as int)),
                        code_lang(n@) == lang_of(wv),
                    decreases ws@.len() - i,
                {
                    proof {
                        assert(wv.skip(i as int)[0] == ws@[i as int]@);
                        assert(wv.skip(i as int).drop_first() =~= wv.skip(i + 1));
                    }
                    let w = chars_of(ws[i].as_str());
                    if has_prefix(w.as_slice(), prefix.as_slice()) {
                        let rest = slice_chars(w.as_slice(), 9, w.len());
                        assert(w@.subrange(9, w@.len() as int) =~= w@.skip(9));
                        assert(lang_of(wv.skip(i as int)) == Some(w@.skip(9)));
                        return Some(string_from_chars(rest.as_slice()));
                    }
                    i += 1;
                }
                assert(wv.skip(i as int) =~= Seq::<Seq<char>>::empty());
                None
            },
            None => None,
        },
        None => None,
    }
}

fn first_body_exec(n: &Node) -> (r: Option<&Node>)
    ensures
        match first_body(n@) {
            Some(b) => r matches Some(x) && x@ == b,
            None => r is None,
        },
    decreases n,
{
    proof {
        lemma_nodes_view(n.children@);
        assert(n@.children == nodes_view(n.children@));
    }
    match &n.data {
        NodeData::Element(el) => {
            let t = to_ascii_lowercase(el.tag.as_str());
            if str_eq(t.as_str(), "body") {
                return Some(n);
            }
        },
        _ => {},
    }
    let ghost cs = nodes_view(n.children@);
    let mut i: usize = 0;
    assert(cs.skip(0) =~= cs);
    while i < n.children.len()
        invariant
            i <= n.children@.len(),
            cs == nodes_view(n.children@),
            cs.len() == n.children@.len(),
            forall|j: int| 0 <= j < cs.len() ==> #[trigger] cs[j] == node_view(n.children@[j]),
            first_body_in(cs) == first_body_in(cs.skip(i as int)),
            first_body(n@) == first_body_in(cs),
        decreases n.children@.len() - i,
    {
        proof {
            assert(cs.skip(i as int)[0] == cs[i as int]);
            assert(cs.skip(i as int).drop_first() =~= cs.skip(i + 1));
            assert(decreases_to!(n => n.children));
            assert(decreases_to!(n.children => n.children@));
            assert(decreases_to!(n.children@ => n.children@[i as int]));
        }
        match first_body_exec(&n.children[i]) {
            Some(b) => {
                proof {
                    assert(first_body_in(cs.skip(i as int)) == first_body(cs[i as int]));
                }
                return Some(b);
            },
            None => {},
        }
        i += 1;
    }
    assert(cs.skip(i as int) =~= Seq::<NodeView>::empty());
    None
}

proof fn lemma_items_push(v: Seq<Vec<Block>>, x: Vec<Block>)
    ensures
        items_view(v.push(x)) == items_view(v).push(blocks_view(x@)),
{
    assert(v.push(x).drop_last() =~= v);
}

fn inline_for_exec(t: &str, n: &Node) -> (r: Option<Inline>)
    ensures
        match inline_for(t@, n@) {
            Some(i) => r matches Some(x) && x@ == i,
            None => r is None,
        },
    decreases n, 2int,
{
    if str_eq(t, "strong") || str_eq(t, "b") {
        return Some(Inline::Strong(inlines_of_exec(n)));
    }
    if str_eq(t, "em") || str_eq(t, "i") {
        return Some(Inline::Emphasis(inlines_of_exec(n)));
    }
    if str_eq(t, "code") {
        return Some(Inline::Code(n.text_content()));
    }
    if str_eq(t, "br") {
        return Some(Inline::HardBreak);
    }
    if str_eq(t, "a") {
        let href = match n.as_element() {
            Some(el) => attr_string(el, "href"),
            None => String::new(),
        };
        return Some(Inline::Link { text: inlines_of_exec(n), href });
    }
    if str_eq(t, "img") {
        let (alt, src) = match n.as_element() {
            Some(el) => (attr_string(el, "alt"), attr_string(el, "src")),
            None => (String::new(), String::new()),
        };
        return Some(Inline::Image { alt, src });
    }
    None
}

fn inlines_of_exec(n: &Node) -> (r: Vec<Inline>)
    ensures
        inlines_view(r@) == inlines_of(n@),
    decreases n, 1int,
{
    proof {
        assert(n@.children == nodes_view(n.children@));
        assert(decreases_to!(n => n.children));
    }
    let mut out: Vec<Inline> = Vec::new();
    collect_exec(&n.children, &mut out);
    trim_inlines(&mut out);
    out
}

fn collect_exec(cs: &Vec<Node>, out: &mut Vec<Inline>)
    ensures
        inlines_view(final(out)@) == collect(nodes_view(cs@), inlines_view(old(out)@)),
    decreases cs, 0int,
{
    let ghost cv = nodes_view(cs@);
    let ghost iv0 = inlines_view(out@);
    proof {
        lemma_nodes_view(cs@);
        assert(cv.take(0) =~= Seq::<NodeView>::empty());
    }
    let mut i: usize = 0;
    while i < cs.len()
        invariant
            i <= cs@.len(),
            cv == nodes_view(cs@),
            cv.len() == cs@.len(),
            forall|j: int| 0 <= j < cv.len() ==> #[trigger] cv[j] == node_view(cs@[j]),
            inlines_view(out@) == collect(cv.take(i as int), iv0),
        decreases cs@.len() - i,
    {
        proof {
            assert(cv.take(i + 1).drop_last() =~= cv.take(i as int));
            assert(cv.take(i + 1).last() == cv[i as int]);
            assert(decreases_to!(cs => cs@));
            assert(decreases_to!(cs@ => cs@[i as int]));
        }
        collect_one_exec(&cs[i], out);
        i += 1;
    }
    assert(cv.take(cv.len() as int) =~= cv);
}

fn collect_one_exec(c: &Node, out: &mut Vec<Inline>)
    ensures
        inlines_view(final(out)@) == collect_one(c@, inlines_view(old(out)@)),
    decreases c, 3int,
{
    proof {
        assert(c@.children == nodes_view(c.children@));
        assert(decreases_to!(c => c.children));
    }
    match &c.data {
        NodeData::Text(t) => push_text(out, t.as_str()),
        NodeData::Element(_) => {
            let t = lowered_tag(c);
            if is_skipped(t.as_str()) {
                return;
            }
            match inline_for_exec(t.as_str(), c) {
                Some(i) => {
                    proof {
                        lemma_inlines_push(out@, i);
                    }
                    out.push(i);
                },
                None => collect_exec(&c.children, out),
            }
        },
        _ => {},
    }
}

fn block_for_exec(t: &str, n: &Node) -> (r: Option<Block>)
    ensures
        match block_for(t@, n@) {
            Some(b) => r matches Some(x) && x@ == b,
            None => r is None,
        },
    decreases n, 2int,
{
    proof {
        assert(n@.children == nodes_view(n.children@));
        assert(decreases_to!(n => n.children));
    }
    match heading_level(t) {
        Some(l) => {
            return Some(Block::Heading { level: l, inlines: inlines_of_exec(n) });
        },
        None => {},
    }
    if str_eq(t, "p") {
        return Some(Block::Paragraph(inlines_of_exec(n)));
    }
    if str_eq(t, "blockquote") {
        let mut inner: Vec<Block> = Vec::new();
        let mut pending: Vec<Inline> = Vec::new();
        proof {
            assert(blocks_view(inner@) =~= Seq::<BlockView>::empty());
            assert(inlines_view(pending@) =~= Seq::<InlineView>::empty());
        }
        convert_exec(&n.children, &mut inner, &mut pending);
        flush(&mut inner, &mut pending);
        return Some(Block::BlockQuote(inner));
    }
    if str_eq(t, "pre") {
        let lang = code_lang_exec(n);
        let text = n.text_content();
        return Some(Block::CodeBlock { lang, text });
    }
    if str_eq(t, "ul") || str_eq(t, "ol") {
        let ordered = str_eq(t, "ol");
        return Some(Block::List { ordered, items: list_items_exec(&n.children) });
    }
    if str_eq(t, "hr") {
        return Some(Block::ThematicBreak);
    }
    None
}

fn list_items_exec(cs: &Vec<Node>) -> (r: Vec<Vec<Block>>)
    ensures
        items_view(r@) == list_items(nodes_view(cs@)),
    decreases cs, 0int,
{
    let ghost cv = nodes_view(cs@);
    proof {
        lemma_nodes_view(cs@);
        assert(cv.take(0) =~= Seq::<NodeView>::empty());
    }
    let mut out: Vec<Vec<Block>> = Vec::new();
    let mut i: usize = 0;
    while i < cs.len()
        invariant
            i <= cs@.len(),
            cv == nodes_view(cs@),
            cv.len() == cs@.len(),
            forall|j: int| 0 <= j < cv.len() ==> #[trigger] cv[j] == node_view(cs@[j]),
            items_view(out@) == list_items(cv.take(i as int)),
        decreases cs@.len() - i,
    {
        proof {
            assert(cv.take(i + 1).drop_last() =~= cv.take(i as int));
            assert(cv.take(i + 1).last() == cv[i as int]);
        }
        let li = &cs[i];
        let is_li = match &li.data {
            NodeData::Element(el) => {
                let t = to_ascii_lowercase(el.tag.as_str());
                str_eq(t.as_str(), "li")
            },
            _ => false,
        };
        if is_li {
            proof {
                assert(decreases_to!(cs => cs@));
                assert(decreases_to!(cs@ => cs@[i as int]));
                assert(decreases_to!(cs@[i as int] => cs@[i as int].children));
                assert(cv[i as int].children == nodes_view(li.children@));
            }
            let mut inner: Vec<Block> = Vec::new();
            let mut pending: Vec<Inline> = Vec::new();
            proof {
                assert(blocks_view(inner@) =~= Seq::<BlockView>::empty());
                assert(inlines_view(pending@) =~= Seq::<InlineView>::empty());
            }
            convert_exec(&li.children, &mut inner, &mut pending);
            flush(&mut inner, &mut pending);
            proof {
                lemma_items_push(out@, inner);
            }
            out.push(inner);
        } else {
            assert(list_items(cv.take(i as int)) + Seq::<Seq<BlockView>>::empty() =~= list_items(cv.take(i as int)));
        }
        i += 1;
    }
    assert(cv.take(cv.len() as int) =~= cv);
    out
}

fn convert_exec(cs: &Vec<Node>, blocks: &mut Vec<Block>, pending: &mut Vec<Inline>)
    ensures
        (blocks_view(final(blocks)@), inlines_view(final(pending)@)) == convert(
            nodes_view(cs@),
            (blocks_view(old(blocks)@), inlines_view(old(pending)@)),
        ),
    decreases cs, 0int,
{
    let ghost cv = nodes_view(cs@);
    let ghost st0 = (blocks_view(blocks@), inlines_view(pending@));
    proof {
        lemma_nodes_view(cs@);
        assert(cv.take(0) =~= Seq::<NodeView>::empty());
    }
    let mut i: usize = 0;
    while i < cs.len()
        invariant
            i <= cs@.len(),
            cv == nodes_view(cs@),
            cv.len() == cs@.len(),
            forall|j: int| 0 <= j < cv.len() ==> #[trigger] cv[j] == node_view(cs@[j]),
            (blocks_view(blocks@), inlines_view(pending@)) == convert(cv.take(i as int), st0),
        decreases cs@.len() - i,
    {
        proof {
            assert(cv.take(i + 1).drop_last() =~= cv.take(i as int));
            assert(cv.take(i + 1).last() == cv[i as int]);
            assert(decreases_to!(cs => cs@));
            assert(decreases_to!(cs@ => cs@[i as int]));
        }
        convert_one_exec(&cs[i], blocks, pending);
        i += 1;
    }
    assert(cv.take(cv.len() as int) =~= cv);
}

fn convert_one_exec(c: &Node, blocks: &mut Vec<Block>, pending: &mut Vec<Inline>)
    ensures
        (blocks_view(final(blocks)@), inlines_view(final(pending)@)) == convert_one(
            c@,
            (blocks_view(old(blocks)@), inlines_view(old(pending)@)),
        ),
    decreases c, 3int,
{
    proof {
        assert(c@.children == nodes_view(c.children@));
        assert(decreases_to!(c => c.children));
    }
    match &c.data {
        NodeData::Text(t) => push_text(pending, t.as_str()),
        NodeData::Element(_) => {
            let t = lowered_tag(c);
            if is_skipped(t.as_str()) {
                return;
            }
            match block_for_exec(t.as_str(), c) {
                Some(b) => {
                    flush(blocks, pending);
                    proof {
                        lemma_blocks_push(blocks@, b);
                        assert(inlines_view(pending@) =~= Seq::<InlineView>::empty());
                    }
                    blocks.push(b);
                },
                None => {
                    if is_inline(t.as_str()) {
                        match inline_for_exec(t.as_str(), c) {
                            Some(i) => {
                                proof {
                                    lemma_inlines_push(pending@, i);
                                }
                                pending.push(i);
                            },
                            None => {},
                        }
                    } else {
                        convert_exec(&c.children, blocks, pending);
                    }
                },
            }
        },
        _ => {},
    }
}

/// The Markdown AST of a document: the blocks of its `body`, or of the whole tree when there is
/// no `body` element.
pub fn document_to_markdown(doc: &Document) -> (r: Markdown)
    ensures
        r@ == lowered(doc@),
{
    let root = match first_body_exec(&doc.root) {
        Some(b) => b,
        None => &doc.root,
    };
    proof {
        assert(root@.children == nodes_view(root.children@));
    }
    let mut blocks: Vec<Block> = Vec::new();
    let mut pending: Vec<Inline> = Vec::new();
    proof {
        assert(blocks_view(blocks@) =~= Seq::<BlockView>::empty());
        assert(inlines_view(pending@) =~= Seq::<InlineView>::empty());
    }
    convert_exec(&root.children, &mut blocks, &mut pending);
    flush(&mut blocks, &mut pending);
    Markdown { blocks }
}

/// A document as Markdown text: its AST rendered.
pub fn to_markdown(doc: &Document) -> (r: String)
    ensures
        r@ == blocks_md(lowered(doc@)),
{
    document_to_markdown(doc).render()
}

} // verus!
