//! A typed Markdown AST and its rendering: headings, paragraphs, block quotes, fenced code,
//! ordered and unordered lists, thematic breaks, and the inline runs inside them. Rendering is
//! the only way Markdown text is produced.
pub mod lower;

pub use lower::{document_to_markdown, to_markdown};

use vstd::prelude::*;

use crate::outline::{decimal, push_decimal};
use crate::text::{chars_of, join, string_from_chars};

verus! {

/// A Markdown document: blocks in order.
#[derive(Debug)]
pub struct Markdown {
    pub blocks: Vec<Block>,
}

/// A block-level construct.
#[derive(Debug)]
pub enum Block {
    /// `#` to `######`; the level is clamped to 1..=6 when rendered.
    Heading { level: u8, inlines: Vec<Inline> },
    /// A paragraph.
    Paragraph(Vec<Inline>),
    /// `> ` quoted blocks.
    BlockQuote(Vec<Block>),
    /// A fenced code block with an optional info string.
    CodeBlock { lang: Option<String>, text: String },
    /// A `-` or `1.` list; each item is a sequence of blocks.
    List { ordered: bool, items: Vec<Vec<Block>> },
    /// `---`
    ThematicBreak,
}

/// An inline construct.
#[derive(Debug)]
pub enum Inline {
    Text(String),
    Strong(Vec<Inline>),
    Emphasis(Vec<Inline>),
    Code(String),
    Link { text: Vec<Inline>, href: String },
    Image { alt: String, src: String },
    /// Whitespace between runs: one space.
    SoftBreak,
    /// A hard line break: two spaces and a newline.
    HardBreak,
}

// ─── the AST as a value ──────────────────────────────────────────

/// An inline, as plain values.
pub enum InlineView {
    Text(Seq<char>),
    Strong(Seq<InlineView>),
    Emphasis(Seq<InlineView>),
    Code(Seq<char>),
    Link { text: Seq<InlineView>, href: Seq<char> },
    Image { alt: Seq<char>, src: Seq<char> },
    SoftBreak,
    HardBreak,
}

/// A block, as plain values.
pub enum BlockView {
    Heading { level: u8, inlines: Seq<InlineView> },
    Paragraph(Seq<InlineView>),
    BlockQuote(Seq<BlockView>),
    CodeBlock { lang: Option<Seq<char>>, text: Seq<char> },
    List { ordered: bool, items: Seq<Seq<BlockView>> },
    ThematicBreak,
}

/// An inline as a plain value.
pub open spec fn inline_view(i: Inline) -> InlineView
    decreases i,
{
    match i {
        Inline::Text(s) => InlineView::Text(s@),
        Inline::Strong(v) => {
            proof {
                assert(decreases_to!(v => v@));
            }
            InlineView::Strong(inlines_view(v@))
        },
        Inline::Emphasis(v) => {
            proof {
                assert(decreases_to!(v => v@));
            }
            InlineView::Emphasis(inlines_view(v@))
        },
        Inline::Code(s) => InlineView::Code(s@),
        Inline::Link { text, href } => {
            proof {
                assert(decreases_to!(text => text@));
            }
            InlineView::Link { text: inlines_view(text@), href: href@ }
        },
        Inline::Image { alt, src } => InlineView::Image { alt: alt@, src: src@ },
        Inline::SoftBreak => InlineView::SoftBreak,
        Inline::HardBreak => InlineView::HardBreak,
    }
}

/// Inlines as plain values, in order.
pub open spec fn inlines_view(s: Seq<Inline>) -> Seq<InlineView>
    decreases s,
{
    if s.len() == 0 {
        seq![]
    } else {
        proof {
            assert(decreases_to!(s => s.drop_last()));
            assert(decreases_to!(s => s[s.len() - 1]));
        }
        inlines_view(s.drop_last()).push(inline_view(s.last()))
    }
}

/// A block as a plain value.
pub open spec fn block_view(b: Block) -> BlockView
    decreases b,
{
    match b {
        Block::Heading { level, inlines } => BlockView::Heading { level, inlines: inlines_view(inlines@) },
        Block::Paragraph(v) => BlockView::Paragraph(inlines_view(v@)),
        Block::BlockQuote(v) => {
            proof {
                assert(decreases_to!(v => v@));
            }
            BlockView::BlockQuote(blocks_view(v@))
        },
        Block::CodeBlock { lang, text } => BlockView::CodeBlock {
            lang: match lang {
                Some(l) => Some(l@),
                None => None,
            },
            text: text@,
        },
        Block::List { ordered, items } => {
            proof {
                assert(decreases_to!(items => items@));
            }
            BlockView::List { ordered, items: items_view(items@) }
        },
        Block::ThematicBreak => BlockView::ThematicBreak,
    }
}

/// Blocks as plain values, in order.
pub open spec fn blocks_view(s: Seq<Block>) -> Seq<BlockView>
    decreases s,
{
    if s.len() == 0 {
        seq![]
    } else {
        proof {
            assert(decreases_to!(s => s.drop_last()));
            assert(decreases_to!(s => s[s.len() - 1]));
        }
        blocks_view(s.drop_last()).push(block_view(s.last()))
    }
}

/// List items as plain values, in order.
pub open spec fn items_view(s: Seq<Vec<Block>>) -> Seq<Seq<BlockView>>
    decreases s,
{
    if s.len() == 0 {
        seq![]
    } else {
        proof {
            assert(decreases_to!(s => s.drop_last()));
            assert(decreases_to!(s => s[s.len() - 1]));
            assert(decreases_to!(s[s.len() - 1] => s[s.len() - 1]@));
        }
        items_view(s.drop_last()).push(blocks_view(s.last()@))
    }
}

/// The views keep the length and map each item in place.
pub proof fn lemma_inlines_view(s: Seq<Inline>)
    ensures
        inlines_view(s).len() == s.len(),
        forall|i: int| 0 <= i < s.len() ==> #[trigger] inlines_view(s)[i] == inline_view(s[i]),
    decreases s.len(),
{
    if s.len() > 0 {
        lemma_inlines_view(s.drop_last());
    }
}

/// The views keep the length and map each item in place.
pub proof fn lemma_blocks_view(s: Seq<Block>)
    ensures
        blocks_view(s).len() == s.len(),
        forall|i: int| 0 <= i < s.len() ==> #[trigger] blocks_view(s)[i] == block_view(s[i]),
    decreases s.len(),
{
    if s.len() > 0 {
        lemma_blocks_view(s.drop_last());
    }
}

/// The views keep the length and map each item in place.
pub proof fn lemma_items_view(s: Seq<Vec<Block>>)
    ensures
        items_view(s).len() == s.len(),
        forall|i: int| 0 <= i < s.len() ==> #[trigger] items_view(s)[i] == blocks_view(s[i]@),
    decreases s.len(),
{
    if s.len() > 0 {
        lemma_items_view(s.drop_last());
    }
}

impl View for Inline {
    type V = InlineView;

    open spec fn view(&self) -> InlineView {
        inline_view(*self)
    }
}

impl View for Block {
    type V = BlockView;

    open spec fn view(&self) -> BlockView {
        block_view(*self)
    }
}

impl View for Markdown {
    type V = Seq<BlockView>;

    open spec fn view(&self) -> Seq<BlockView> {
        blocks_view(self.blocks@)
    }
}

// ─── rendering, as spec ──────────────────────────────────────────

/// `n` copies of `c`.
pub open spec fn repeat(c: char, n: nat) -> Seq<char> {
    Seq::new(n, |_i: int| c)
}

/// The Markdown text of an inline.
pub open spec fn inline_md(i: InlineView) -> Seq<char>
    decreases i,
{
    match i {
        InlineView::Text(s) => s,
        InlineView::Strong(v) => "**"@ + inlines_md(v) + "**"@,
        InlineView::Emphasis(v) => "*"@ + inlines_md(v) + "*"@,
        InlineView::Code(s) => "`"@ + s + "`"@,
        InlineView::Link { text, href } => "["@ + inlines_md(text) + "]("@ + href + ")"@,
        InlineView::Image { alt, src } => "!["@ + alt + "]("@ + src + ")"@,
        InlineView::SoftBreak => " "@,
        InlineView::HardBreak => "  \n"@,
    }
}

/// The Markdown text of an inline run: the inlines one after another.
pub open spec fn inlines_md(s: Seq<InlineView>) -> Seq<char>
    decreases s,
{
    if s.len() == 0 {
        seq![]
    } else {
        proof {
            assert(decreases_to!(s => s.drop_last()));
            assert(decreases_to!(s => s[s.len() - 1]));
        }
        inlines_md(s.drop_last()) + inline_md(s.last())
    }
}

/// Index of the first newline of `s`, or its length when there is none.
pub open spec fn newline_at(s: Seq<char>) -> int
    decreases s.len(),
{
    if s.len() == 0 {
        0
    } else if s[0] == '\n' {
        0
    } else {
        1 + newline_at(s.drop_first())
    }
}

/// `newline_at` names the first newline, or the end.
pub proof fn lemma_newline_at(s: Seq<char>)
    ensures
        0 <= newline_at(s) <= s.len(),
        newline_at(s) < s.len() ==> s[newline_at(s)] == '\n',
        forall|j: int| 0 <= j < newline_at(s) ==> s[j] != '\n',
    decreases s.len(),
{
    if s.len() > 0 && s[0] != '\n' {
        lemma_newline_at(s.drop_first());
        assert forall|j: int| 0 <= j < newline_at(s) implies s[j] != '\n' by {
            if j > 0 {
                assert(s[j] == s.drop_first()[j - 1]);
            }
        }
    }
}

/// `s` without one trailing carriage return.
pub open spec fn strip_cr(s: Seq<char>) -> Seq<char> {
    if s.len() > 0 && s.last() == '\r' {
        s.drop_last()
    } else {
        s
    }
}

/// The lines of `s`, as `str::lines` yields them: split at each newline, a carriage return just
/// before a newline dropped, and no empty line after a final newline.
pub open spec fn lines(s: Seq<char>) -> Seq<Seq<char>>
    decreases s.len(),
{
    if s.len() == 0 {
        seq![]
    } else {
        let k = newline_at(s);
        proof {
            lemma_newline_at(s);
        }
        if k == s.len() {
            seq![s]
        } else {
            seq![strip_cr(s.take(k))] + lines(s.skip(k + 1))
        }
    }
}

/// A quoted line: `>` alone for an empty line, else `> ` and the line.
pub open spec fn quote_line(l: Seq<char>) -> Seq<char> {
    if l.len() == 0 {
        seq!['>']
    } else {
        "> "@ + l
    }
}

/// Every line of `text` quoted, joined by newlines.
pub open spec fn quoted(text: Seq<char>) -> Seq<char> {
    join(lines(text).map_values(|l: Seq<char>| quote_line(l)), "\n"@)
}

/// The lines after the first indented by `n` spaces.
pub open spec fn hang(ls: Seq<Seq<char>>, n: nat) -> Seq<Seq<char>> {
    Seq::new(ls.len(), |j: int| if j == 0 { ls[0] } else { repeat(' ', n) + ls[j] })
}

/// The marker of list item `i`: `N. ` counting from one, or `- `.
pub open spec fn marker(ordered: bool, i: nat) -> Seq<char> {
    if ordered {
        decimal(i + 1) + ". "@
    } else {
        "- "@
    }
}

/// A list item: its marker, its first line, and its other lines indented to the marker's width.
pub open spec fn item_md(ordered: bool, i: nat, body: Seq<char>) -> Seq<char> {
    let m = marker(ordered, i);
    m + join(hang(lines(body), m.len()), "\n"@)
}

/// The heading level in force: clamped to 1..=6.
pub open spec fn heading_level(level: u8) -> nat {
    if level < 1 {
        1
    } else if level > 6 {
        6
    } else {
        level as nat
    }
}

/// The Markdown text of a block.
pub open spec fn block_md(b: BlockView) -> Seq<char>
    decreases b,
{
    match b {
        BlockView::Heading { level, inlines } => repeat('#', heading_level(level)) + " "@ + inlines_md(inlines),
        BlockView::Paragraph(v) => inlines_md(v),
        BlockView::BlockQuote(v) => quoted(blocks_md(v)),
        BlockView::CodeBlock { lang, text } => {
            let info = match lang {
                Some(l) => l,
                None => seq![],
            };
            let close = if text.len() > 0 && text.last() == '\n' {
                seq![]
            } else {
                "\n"@
            };
            "```"@ + info + "\n"@ + text + close + "```"@
        },
        BlockView::List { ordered, items } => items_md(ordered, items),
        BlockView::ThematicBreak => "---"@,
    }
}

/// Blocks separated by blank lines.
pub open spec fn blocks_md(s: Seq<BlockView>) -> Seq<char>
    decreases s,
{
    if s.len() == 0 {
        seq![]
    } else {
        proof {
            assert(decreases_to!(s => s.drop_last()));
            assert(decreases_to!(s => s[s.len() - 1]));
        }
        if s.len() == 1 {
            block_md(s[0])
        } else {
            blocks_md(s.drop_last()) + "\n\n"@ + block_md(s.last())
        }
    }
}

/// List items, one per line group, separated by newlines.
pub open spec fn items_md(ordered: bool, items: Seq<Seq<BlockView>>) -> Seq<char>
    decreases items,
{
    if items.len() == 0 {
        seq![]
    } else {
        proof {
            assert(decreases_to!(items => items.drop_last()));
            assert(decreases_to!(items => items[items.len() - 1]));
        }
        let last = item_md(ordered, (items.len() - 1) as nat, blocks_md(items.last()));
        if items.len() == 1 {
            last
        } else {
            items_md(ordered, items.drop_last()) + "\n"@ + last
        }
    }
}

// ─── rendering ───────────────────────────────────────────────────

/// Appends the characters of `s`.
fn push_all(out: &mut Vec<char>, s: &str)
    ensures
        final(out)@ == old(out)@ + s@,
{
    let cs = chars_of(s);
    let mut i: usize = 0;
    while i < cs.len()
        invariant
            i <= cs@.len(),
            cs@ == s@,
            out@ == old(out)@ + cs@.take(i as int),
        decreases cs@.len() - i,
    {
        out.push(cs[i]);
        assert(cs@.take(i + 1) =~= cs@.take(i as int).push(cs@[i as int]));
        i += 1;
    }
    assert(cs@.take(cs@.len() as int) =~= cs@);
}

/// Appends the characters of `cs`.
fn push_chars(out: &mut Vec<char>, cs: &[char])
    ensures
        final(out)@ == old(out)@ + cs@,
{
    let mut i: usize = 0;
    while i < cs.len()
        invariant
            i <= cs@.len(),
            out@ == old(out)@ + cs@.take(i as int),
        decreases cs@.len() - i,
    {
        out.push(cs[i]);
        assert(cs@.take(i + 1) =~= cs@.take(i as int).push(cs@[i as int]));
        i += 1;
    }
    assert(cs@.take(cs@.len() as int) =~= cs@);
}

/// Appends `n` copies of `c`.
fn push_repeat(out: &mut Vec<char>, c: char, n: usize)
    ensures
        final(out)@ == old(out)@ + repeat(c, n as nat),
{
    let mut i: usize = 0;
    while i < n
        invariant
            i <= n,
            out@ == old(out)@ + repeat(c, i as nat),
        decreases n - i,
    {
        out.push(c);
        assert(repeat(c, (i + 1) as nat) =~= repeat(c, i as nat).push(c));
        i += 1;
    }
}

/// Appends the Markdown text of an inline.
fn push_inline(out: &mut Vec<char>, i: &Inline)
    ensures
        final(out)@ == old(out)@ + inline_md(i@),
    decreases i,
{
    match i {
        Inline::Text(s) => push_all(out, s.as_str()),
        Inline::Strong(v) => {
            push_all(out, "**");
            push_inlines(out, v);
            push_all(out, "**");
        },
        Inline::Emphasis(v) => {
            push_all(out, "*");
            push_inlines(out, v);
            push_all(out, "*");
        },
        Inline::Code(s) => {
            push_all(out, "`");
            push_all(out, s.as_str());
            push_all(out, "`");
        },
        Inline::Link { text, href } => {
            push_all(out, "[");
            push_inlines(out, text);
            push_all(out, "](");
            push_all(out, href.as_str());
            push_all(out, ")");
        },
        Inline::Image { alt, src } => {
            push_all(out, "![");
            push_all(out, alt.as_str());
            push_all(out, "](");
            push_all(out, src.as_str());
            push_all(out, ")");
        },
        Inline::SoftBreak => push_all(out, " "),
        Inline::HardBreak => push_all(out, "  \n"),
    }
}

/// Appends the Markdown text of an inline run.
fn push_inlines(out: &mut Vec<char>, v: &Vec<Inline>)
    ensures
        final(out)@ == old(out)@ + inlines_md(inlines_view(v@)),
    decreases v,
{
    proof {
        lemma_inlines_view(v@);
        assert(inlines_view(v@).take(0) =~= Seq::<InlineView>::empty());
    }
    let mut k: usize = 0;
    while k < v.len()
        invariant
            k <= v@.len(),
            out@ == old(out)@ + inlines_md(inlines_view(v@).take(k as int)),
            inlines_view(v@).len() == v@.len(),
            forall|j: int| 0 <= j < v@.len() ==> #[trigger] inlines_view(v@)[j] == inline_view(v@[j]),
        decreases v@.len() - k,
    {
        proof {
            let t = inlines_view(v@).take(k + 1);
            assert(t.drop_last() =~= inlines_view(v@).take(k as int));
            assert(decreases_to!(v => v@));
            assert(decreases_to!(v@ => v@[k as int]));
        }
        push_inline(out, &v[k]);
        k += 1;
    }
    assert(inlines_view(v@).take(v@.len() as int) =~= inlines_view(v@));
}

/// The lines of `cs`, as `str::lines` yields them.
fn split_lines(cs: &[char]) -> (r: Vec<Vec<char>>)
    ensures
        r@.map_values(|l: Vec<char>| l@) == lines(cs@),
{
    let mut out: Vec<Vec<char>> = Vec::new();
    let mut i: usize = 0;
    assert(cs@.skip(0) =~= cs@);
    while i < cs.len()
        invariant
            i <= cs@.len(),
            lines(cs@) == out@.map_values(|l: Vec<char>| l@) + lines(cs@.skip(i as int)),
        decreases cs@.len() - i,
    {
        let ghost rest = cs@.skip(i as int);
        let mut j: usize = i;
        while j < cs.len() && cs[j] != '\n'
            invariant
                i <= j <= cs@.len(),
                forall|k: int| i <= k < j ==> cs@[k] != '\n',
            decreases cs@.len() - j,
        {
            j += 1;
        }
        proof {
            lemma_newline_at(rest);
            let k = newline_at(rest);
            if k < j - i {
                assert(rest[k] == cs@[i + k]);
            }
            if j - i < k {
                assert(rest[j - i] == cs@[j as int]);
            }
            assert(k == j - i);
        }
        let mut line: Vec<char> = Vec::new();
        let mut end = j;
        if j < cs.len() && j > i && cs[j - 1] == '\r' {
            end = j - 1;
        }
        let mut p: usize = i;
        while p < end
            invariant
                i <= p <= end <= j <= cs@.len(),
                line@ == cs@.subrange(i as int, p as int),
            decreases end - p,
        {
            line.push(cs[p]);
            assert(cs@.subrange(i as int, p + 1) =~= cs@.subrange(i as int, p as int).push(cs@[p as int]));
            p += 1;
        }
        let ghost before = out@;
        out.push(line);
        proof {
            assert(out@.map_values(|l: Vec<char>| l@) =~= before.map_values(|l: Vec<char>| l@).push(
                cs@.subrange(i as int, end as int),
            ));
            if j == cs.len() {
                assert(rest =~= cs@.subrange(i as int, j as int));
                assert(lines(rest) == seq![rest]);
                assert(cs@.skip(j as int) =~= Seq::<char>::empty());
                assert(lines(cs@.skip(j as int)) == Seq::<Seq<char>>::empty());
            } else {
                assert(rest.take(j - i) =~= cs@.subrange(i as int, j as int));
                assert(strip_cr(rest.take(j - i)) =~= cs@.subrange(i as int, end as int));
                assert(rest.skip(j - i + 1) =~= cs@.skip(j + 1));
            }
        }
        if j < cs.len() {
            i = j + 1;
        } else {
            i = j;
        }
        assert(lines(cs@) =~= out@.map_values(|l: Vec<char>| l@) + lines(cs@.skip(i as int)));
    }
    proof {
        assert(cs@.skip(i as int) =~= Seq::<char>::empty());
        assert(lines(cs@.skip(i as int)) == Seq::<Seq<char>>::empty());
        assert(lines(cs@) =~= out@.map_values(|l: Vec<char>| l@));
    }
    out
}

/// Appends every line of `text` quoted, joined by newlines.
fn push_quoted(out: &mut Vec<char>, text: &[char])
    ensures
        final(out)@ == old(out)@ + quoted(text@),
{
    let ls = split_lines(text);
    let ghost views = ls@.map_values(|l: Vec<char>| l@);
    let ghost q = views.map_values(|l: Seq<char>| quote_line(l));
    let mut k: usize = 0;
    while k < ls.len()
        invariant
            k <= ls@.len(),
            views == ls@.map_values(|l: Vec<char>| l@),
            q == views.map_values(|l: Seq<char>| quote_line(l)),
            out@ == old(out)@ + join(q.take(k as int), "\n"@),
        decreases ls@.len() - k,
    {
        proof {
            let t = q.take(k + 1);
            assert(t.drop_last() =~= q.take(k as int));
            assert(t.last() == quote_line(ls@[k as int]@));
        }
        if k > 0 {
            push_all(out, "\n");
        }
        if ls[k].len() == 0 {
            out.push('>');
            assert(quote_line(ls@[k as int]@) =~= seq!['>']);
        } else {
            push_all(out, "> ");
            push_chars(out, ls[k].as_slice());
        }
        proof {
            let t = q.take(k + 1);
            if k == 0 {
                assert(q.take(0) =~= Seq::<Seq<char>>::empty());
                assert(join(t, "\n"@) == t[0]);
            }
        }
        k += 1;
    }
    assert(q.take(q.len() as int) =~= q);
}

/// Appends list item `i`: its marker, then the lines of `body`, the later ones indented.
fn push_item(out: &mut Vec<char>, ordered: bool, i: usize, body: &[char])
    requires
        i < usize::MAX,
    ensures
        final(out)@ == old(out)@ + item_md(ordered, i as nat, body@),
{
    let mut m: Vec<char> = Vec::new();
    if ordered {
        push_decimal(&mut m, i + 1);
        push_all(&mut m, ". ");
    } else {
        push_all(&mut m, "- ");
    }
    assert(m@ == marker(ordered, i as nat));
    push_chars(out, m.as_slice());
    let ghost base = out@;
    let width = m.len();
    let ls = split_lines(body);
    let ghost views = ls@.map_values(|l: Vec<char>| l@);
    let ghost h = hang(views, width as nat);
    let mut k: usize = 0;
    while k < ls.len()
        invariant
            k <= ls@.len(),
            views == ls@.map_values(|l: Vec<char>| l@),
            h == hang(views, width as nat),
            out@ == base + join(h.take(k as int), "\n"@),
        decreases ls@.len() - k,
    {
        proof {
            let t = h.take(k + 1);
            assert(t.drop_last() =~= h.take(k as int));
        }
        if k > 0 {
            push_all(out, "\n");
            push_repeat(out, ' ', width);
        }
        push_chars(out, ls[k].as_slice());
        proof {
            let t = h.take(k + 1);
            if k == 0 {
                assert(h.take(0) =~= Seq::<Seq<char>>::empty());
                assert(join(t, "\n"@) == t[0]);
            }
        }
        k += 1;
    }
    assert(h.take(h.len() as int) =~= h);
}

/// The Markdown text of a block.
fn block_chars(b: &Block) -> (r: Vec<char>)
    ensures
        r@ == block_md(b@),
    decreases b,
{
    let mut out: Vec<char> = Vec::new();
    match b {
        Block::Heading { level, inlines } => {
            let n: usize = if *level < 1 {
                1
            } else if *level > 6 {
                6
            } else {
                *level as usize
            };
            push_repeat(&mut out, '#', n);
            push_all(&mut out, " ");
            push_inlines(&mut out, inlines);
        },
        Block::Paragraph(v) => push_inlines(&mut out, v),
        Block::BlockQuote(v) => {
            let inner = blocks_chars(v);
            push_quoted(&mut out, inner.as_slice());
        },
        Block::CodeBlock { lang, text } => {
            push_all(&mut out, "```");
            match lang {
                Some(l) => push_all(&mut out, l.as_str()),
                None => {},
            }
            push_all(&mut out, "\n");
            let t = chars_of(text.as_str());
            push_chars(&mut out, t.as_slice());
            if !(t.len() > 0 && t[t.len() - 1] == '\n') {
                push_all(&mut out, "\n");
            }
            push_all(&mut out, "```");
        },
        Block::List { ordered, items } => {
            out = items_chars(*ordered, items);
        },
        Block::ThematicBreak => push_all(&mut out, "---"),
    }
    out
}

/// Blocks separated by blank lines.
fn blocks_chars(v: &Vec<Block>) -> (r: Vec<char>)
    ensures
        r@ == blocks_md(blocks_view(v@)),
    decreases v,
{
    let mut out: Vec<char> = Vec::new();
    proof {
        lemma_blocks_view(v@);
        assert(blocks_view(v@).take(0) =~= Seq::<BlockView>::empty());
    }
    let mut k: usize = 0;
    while k < v.len()
        invariant
            k <= v@.len(),
            out@ == blocks_md(blocks_view(v@).take(k as int)),
            blocks_view(v@).len() == v@.len(),
            forall|j: int| 0 <= j < v@.len() ==> #[trigger] blocks_view(v@)[j] == block_view(v@[j]),
        decreases v@.len() - k,
    {
        proof {
            let t = blocks_view(v@).take(k + 1);
            assert(t.drop_last() =~= blocks_view(v@).take(k as int));
            assert(decreases_to!(v => v@));
            assert(decreases_to!(v@ => v@[k as int]));
        }
        if k > 0 {
            push_all(&mut out, "\n\n");
        }
        let b = block_chars(&v[k]);
        push_chars(&mut out, b.as_slice());
        proof {
            if k == 0 {
                assert(blocks_view(v@).take(0) =~= Seq::<BlockView>::empty());
            }
        }
        k += 1;
    }
    assert(blocks_view(v@).take(v@.len() as int) =~= blocks_view(v@));
    out
}

/// List items separated by newlines.
fn items_chars(ordered: bool, items: &Vec<Vec<Block>>) -> (r: Vec<char>)
    ensures
        r@ == items_md(ordered, items_view(items@)),
    decreases items,
{
    let mut out: Vec<char> = Vec::new();
    proof {
        lemma_items_view(items@);
    }
    let mut k: usize = 0;
    while k < items.len()
        invariant
            k <= items@.len(),
            out@ == items_md(ordered, items_view(items@).take(k as int)),
            items_view(items@).len() == items@.len(),
            forall|j: int| 0 <= j < items@.len() ==> #[trigger] items_view(items@)[j] == blocks_view(items@[j]@),
        decreases items@.len() - k,
    {
        proof {
            let t = items_view(items@).take(k + 1);
            assert(t.drop_last() =~= items_view(items@).take(k as int));
            assert(decreases_to!(items => items@));
            assert(decreases_to!(items@ => items@[k as int]));
        }
        if k > 0 {
            push_all(&mut out, "\n");
        }
        let body = blocks_chars(&items[k]);
        push_item(&mut out, ordered, k, body.as_slice());
        proof {
            if k == 0 {
                assert(items_view(items@).take(0) =~= Seq::<Seq<BlockView>>::empty());
            }
        }
        k += 1;
    }
    assert(items_view(items@).take(items@.len() as int) =~= items_view(items@));
    out
}

impl Default for Markdown {
    fn default() -> (r: Self)
        ensures
            r.blocks@.len() == 0,
    {
        Markdown { blocks: Vec::new() }
    }
}

impl Markdown {
    /// The document as Markdown text: its blocks separated by blank lines.
    pub fn render(&self) -> (r: String)
        ensures
            r@ == blocks_md(self@),
    {
        let cs = blocks_chars(&self.blocks);
        string_from_chars(cs.as_slice())
    }
}

impl Block {
    /// The block as Markdown text.
    pub fn render(&self) -> (r: String)
        ensures
            r@ == block_md(self@),
    {
        let cs = block_chars(self);
        string_from_chars(cs.as_slice())
    }
}

impl Inline {
    /// The inline as Markdown text.
    pub fn render(&self) -> (r: String)
        ensures
            r@ == inline_md(self@),
    {
        let mut out: Vec<char> = Vec::new();
        push_inline(&mut out, self);
        string_from_chars(out.as_slice())
    }
}

} // verus!
