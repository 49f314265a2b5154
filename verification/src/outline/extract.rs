//! Extracting an outline from a document: the headings within the profile's level band, and
//! the elements its extra selectors pick, in reading order, skipping whatever its exclude
//! selectors match together with everything under it. Selectors are `tag`, `.class`, `#id`,
//! `[attr]` and `[attr=value]`.
use vstd::prelude::*;

use super::{
    entry_head, entry_id, entry_trees, heading_level, heading_level_spec, leaf, lemma_entry_trees, nest_entries,
    nested, nested_below, normalize_text, preorder, resolve_id, OutlineEntry, OutlineSpec, Tree,
};
use crate::dom::{
    attr_value, attrs_view, descendants, descendants_of, has_class_spec, lemma_descendants_prefix, lemma_nodes_view,
    node_view, nodes_view, text_of, DataView, Document, ElementData, Node, NodeData, NodeView,
};
use crate::text::{
    chars_of, join, lower, slice_chars, str_eq, string_from_chars, trim, trim_chars, views,
    words,
};

verus! {

// ─── selectors, as spec ──────────────────────────────────────────

/// A quote character, stripped from around an attribute value.
pub open spec fn is_quote(c: char) -> bool {
    c == '"' || c == '\''
}

/// `s` without leading quote characters.
pub open spec fn unquote_start(s: Seq<char>) -> Seq<char>
    decreases s.len(),
{
    if s.len() > 0 && is_quote(s[0]) {
        unquote_start(s.drop_first())
    } else {
        s
    }
}

/// `s` without trailing quote characters.
pub open spec fn unquote_end(s: Seq<char>) -> Seq<char>
    decreases s.len(),
{
    if s.len() > 0 && is_quote(s.last()) {
        unquote_end(s.drop_last())
    } else {
        s
    }
}

/// The index of the first `c` in `s` at or after `i`.
pub open spec fn first_of(s: Seq<char>, c: char, i: int) -> Option<int>
    decreases s.len() - i,
{
    if i < 0 || i >= s.len() {
        None
    } else if s[i] == c {
        Some(i)
    } else {
        first_of(s, c, i + 1)
    }
}

/// The body of `[…]`: `name=value` holds when the attribute `name` has the value, spaces
/// around either and quotes around the value ignored; `name` alone holds when the attribute is
/// there.
pub open spec fn attr_match_spec(attrs: Seq<(Seq<char>, Seq<char>)>, body: Seq<char>) -> bool {
    match first_of(body, '=', 0) {
        Some(k) => attr_value(attrs, trim(body.take(k))) == Some(
            unquote_end(unquote_start(trim(body.skip(k + 1)))),
        ),
        None => attr_value(attrs, trim(body)) is Some,
    }
}

/// Whether an element with this tag and these attributes matches the selector `pattern`.
pub open spec fn selector_matches(tag: Seq<char>, attrs: Seq<(Seq<char>, Seq<char>)>, pattern: Seq<char>) -> bool {
    let p = trim(pattern);
    if p.len() == 0 {
        false
    } else if p[0] == '.' {
        has_class_spec(attrs, p.drop_first())
    } else if p[0] == '#' {
        attr_value(attrs, "id"@) == Some(p.drop_first())
    } else if p[0] == '[' && p.len() >= 2 && p.last() == ']' {
        attr_match_spec(attrs, p.subrange(1, p.len() - 1))
    } else {
        lower(tag) == lower(p)
    }
}

/// Whether any of the selectors matches.
pub open spec fn any_matches(tag: Seq<char>, attrs: Seq<(Seq<char>, Seq<char>)>, patterns: Seq<Seq<char>>) -> bool {
    exists|i: int| 0 <= i < patterns.len() && selector_matches(tag, attrs, #[trigger] patterns[i])
}

// ─── the walk, as spec ───────────────────────────────────────────

/// An entry without children: level, text, id.
pub type Head = (u8, Seq<char>, Seq<char>);

/// The entry an element gives, if any, and the id counter after it. An element gives one when
/// its level is in the band or an extra selector picks it, and its normalized text is not empty;
/// a picked element that is not a heading is at level 1.
pub open spec fn own_entry(
    text: Seq<char>,
    tag: Seq<char>,
    attrs: Seq<(Seq<char>, Seq<char>)>,
    lo: u8,
    hi: u8,
    sp: OutlineSpec,
    count: nat,
) -> (Seq<Head>, nat) {
    let level = heading_level_spec(lower(tag));
    let in_band = level matches Some(l) && lo <= l && l <= hi;
    let picked = in_band || any_matches(tag, attrs, views(sp.includes@));
    if picked && text.len() > 0 {
        let existing = attr_value(attrs, "id"@);
        let c = if (existing matches Some(e) && e.len() > 0) || !sp.generate_ids {
            count
        } else {
            count + 1
        };
        let l: u8 = match level {
            Some(l) => l,
            None => 1,
        };
        (seq![(l, text, entry_id(existing, text, sp.generate_ids, c))], c)
    } else {
        (seq![], count)
    }
}

/// The entries of a subtree in reading order, and the id counter after them. An excluded
/// element is skipped with everything under it.
pub open spec fn walk_node(n: NodeView, lo: u8, hi: u8, sp: OutlineSpec, count: nat) -> (Seq<Head>, nat)
    decreases n,
{
    proof {
        assert(decreases_to!(n => n.children));
    }
    match n.data {
        DataView::Element { tag, attributes } => if any_matches(tag, attributes, views(sp.exclude@)) {
            (seq![], count)
        } else {
            let text = join(words(text_of(n)), seq![' ']);
            let (own, c1) = own_entry(text, tag, attributes, lo, hi, sp, count);
            let (rest, c2) = walk_children(n.children, lo, hi, sp, c1);
            (own + rest, c2)
        },
        _ => walk_children(n.children, lo, hi, sp, count),
    }
}

/// The entries of the trees in order, and the id counter after them.
pub open spec fn walk_children(cs: Seq<NodeView>, lo: u8, hi: u8, sp: OutlineSpec, count: nat) -> (Seq<Head>, nat)
    decreases cs,
{
    if cs.len() == 0 {
        (seq![], count)
    } else {
        proof {
            assert(decreases_to!(cs => cs.drop_last()));
            assert(decreases_to!(cs => cs[cs.len() - 1]));
        }
        let (a, c1) = walk_children(cs.drop_last(), lo, hi, sp, count);
        let (b, c2) = walk_node(cs.last(), lo, hi, sp, c1);
        (a + b, c2)
    }
}

/// The lowest level kept: the profile's, clamped to 1..=6.
pub open spec fn band_lo(sp: OutlineSpec) -> u8 {
    if sp.min_level < 1 {
        1
    } else if sp.min_level > 6 {
        6
    } else {
        sp.min_level
    }
}

/// The highest level kept: the profile's, clamped to the lowest..=6.
pub open spec fn band_hi(sp: OutlineSpec) -> u8 {
    if sp.max_level < band_lo(sp) {
        band_lo(sp)
    } else if sp.max_level > 6 {
        6
    } else {
        sp.max_level
    }
}

/// The outline of a document, in reading order.
pub open spec fn outline_of(doc: NodeView, sp: OutlineSpec) -> Seq<Head> {
    walk_node(doc, band_lo(sp), band_hi(sp), sp, 0).0
}

/// The entries without their children.
pub open spec fn heads(es: Seq<OutlineEntry>) -> Seq<Head> {
    es.map_values(|e: OutlineEntry| entry_head(e))
}

/// Headings as childless trees.
pub open spec fn leaves_of(hs: Seq<Head>) -> Seq<Tree> {
    hs.map_values(|h: Head| leaf(h))
}

/// No entry has children.
pub open spec fn leaves(es: Seq<OutlineEntry>) -> bool {
    forall|i: int| 0 <= i < es.len() ==> (#[trigger] es[i]).children@.len() == 0
}

/// The counter moves at most once per element.
pub proof fn lemma_walk_count(n: NodeView, lo: u8, hi: u8, sp: OutlineSpec, count: nat)
    ensures
        count <= walk_node(n, lo, hi, sp, count).1 <= count + 1 + descendants(n),
    decreases n, 1int,
{
    assert(decreases_to!(n => n.children));
    match n.data {
        DataView::Element { tag, attributes } => {
            if !any_matches(tag, attributes, views(sp.exclude@)) {
                let text = join(words(text_of(n)), seq![' ']);
                let c1 = own_entry(text, tag, attributes, lo, hi, sp, count).1;
                lemma_walk_children_count(n.children, lo, hi, sp, c1);
            }
        },
        _ => {
            lemma_walk_children_count(n.children, lo, hi, sp, count);
        },
    }
}

/// The counter moves at most once per element of the trees.
pub proof fn lemma_walk_children_count(cs: Seq<NodeView>, lo: u8, hi: u8, sp: OutlineSpec, count: nat)
    ensures
        count <= walk_children(cs, lo, hi, sp, count).1 <= count + descendants_of(cs),
    decreases cs, 0int,
{
    if cs.len() > 0 {
        assert(decreases_to!(cs => cs.drop_last()));
        assert(decreases_to!(cs => cs[cs.len() - 1]));
        lemma_walk_children_count(cs.drop_last(), lo, hi, sp, count);
        let c1 = walk_children(cs.drop_last(), lo, hi, sp, count).1;
        lemma_walk_count(cs.last(), lo, hi, sp, c1);
    }
}

/// The reading order of childless entries is the entries themselves.
pub proof fn lemma_preorder_leaves(es: Seq<OutlineEntry>)
    requires
        leaves(es),
    ensures
        preorder(es) == heads(es),
    decreases es.len(),
{
    if es.len() > 0 {
        let e = es.last();
        assert(es[es.len() - 1].children@.len() == 0);
        assert(e.children@ =~= Seq::<OutlineEntry>::empty());
        assert(leaves(es.drop_last()));
        lemma_preorder_leaves(es.drop_last());
        assert(heads(es) =~= heads(es.drop_last()) + seq![entry_head(e)]);
        assert(preorder(Seq::<OutlineEntry>::empty()) == Seq::<Head>::empty());
        assert(heads(es.drop_last()) + seq![entry_head(e)] + Seq::<Head>::empty() =~= heads(es));
    } else {
        assert(heads(es) =~= Seq::<Head>::empty());
    }
}

// ─── selectors ───────────────────────────────────────────────────

fn unquote(s: &[char]) -> (r: Vec<char>)
    ensures
        r@ == unquote_end(unquote_start(s@)),
{
    let mut a: usize = 0;
    assert(s@.skip(0) =~= s@);
    while a < s.len() && (s[a] == '"' || s[a] == '\'')
        invariant
            a <= s@.len(),
            unquote_start(s@) == unquote_start(s@.skip(a as int)),
        decreases s@.len() - a,
    {
        assert(s@.skip(a as int).drop_first() =~= s@.skip(a + 1));
        a += 1;
    }
    assert(unquote_start(s@.skip(a as int)) == s@.skip(a as int));
    let mut b: usize = s.len();
    assert(s@.subrange(a as int, s@.len() as int) =~= s@.skip(a as int));
    while b > a && (s[b - 1] == '"' || s[b - 1] == '\'')
        invariant
            a <= b <= s@.len(),
            unquote_end(unquote_start(s@)) == unquote_end(s@.subrange(a as int, b as int)),
        decreases b,
    {
        assert(s@.subrange(a as int, b as int).drop_last() =~= s@.subrange(a as int, b - 1));
        b -= 1;
    }
    slice_chars(s, a, b)
}

fn attr_match(el: &ElementData, body: &str) -> (r: bool)
    ensures
        r == attr_match_spec(attrs_view(el.attributes@), body@),
{
    let cs = chars_of(body);
    let mut k: usize = 0;
    while k < cs.len() && cs[k] != '='
        invariant
            k <= cs@.len(),
            cs@ == body@,
            first_of(cs@, '=', 0) == first_of(cs@, '=', k as int),
        decreases cs@.len() - k,
    {
        k += 1;
    }
    if k < cs.len() {
        let name = trim_chars(slice_chars(cs.as_slice(), 0, k).as_slice());
        let value = trim_chars(slice_chars(cs.as_slice(), k + 1, cs.len()).as_slice());
        let value = unquote(value.as_slice());
        proof {
            assert(cs@.subrange(0, k as int) =~= body@.take(k as int));
            assert(cs@.subrange(k + 1, cs@.len() as int) =~= body@.skip(k + 1));
        }
        let name_s = string_from_chars(name.as_slice());
        let value_s = string_from_chars(value.as_slice());
        match el.get_attribute(name_s.as_str()) {
            Some(v) => str_eq(v, value_s.as_str()),
            None => false,
        }
    } else {
        let name = trim_chars(cs.as_slice());
        let name_s = string_from_chars(name.as_slice());
        el.get_attribute(name_s.as_str()).is_some()
    }
}

fn element_matches(tag: &str, el: &ElementData, pattern: &str) -> (r: bool)
    ensures
        r == selector_matches(tag@, attrs_view(el.attributes@), pattern@),
{
    let p = trim_chars(chars_of(pattern).as_slice());
    let n = p.len();
    if n == 0 {
        return false;
    }
    if p[0] == '.' {
        let rest = string_from_chars(slice_chars(p.as_slice(), 1, n).as_slice());
        assert(p@.subrange(1, n as int) =~= p@.drop_first());
        return el.has_class(rest.as_str());
    }
    if p[0] == '#' {
        let rest = string_from_chars(slice_chars(p.as_slice(), 1, n).as_slice());
        assert(p@.subrange(1, n as int) =~= p@.drop_first());
        return match el.id() {
            Some(x) => str_eq(x, rest.as_str()),
            None => false,
        };
    }
    if p[0] == '[' && n >= 2 && p[n - 1] == ']' {
        let body = string_from_chars(slice_chars(p.as_slice(), 1, n - 1).as_slice());
        return attr_match(el, body.as_str());
    }
    let a = crate::text::lower_chars(chars_of(tag).as_slice());
    let b = crate::text::lower_chars(p.as_slice());
    crate::text::chars_eq(a.as_slice(), b.as_slice())
}

fn matches_any(tag: &str, el: &ElementData, patterns: &Vec<String>) -> (r: bool)
    ensures
        r == any_matches(tag@, attrs_view(el.attributes@), views(patterns@)),
{
    let ghost ps = views(patterns@);
    let mut i: usize = 0;
    while i < patterns.len()
        invariant
            i <= patterns@.len(),
            ps == views(patterns@),
            forall|j: int| 0 <= j < i ==> !selector_matches(tag@, attrs_view(el.attributes@), #[trigger] ps[j]),
        decreases patterns@.len() - i,
    {
        if element_matches(tag, el, patterns[i].as_str()) {
            assert(ps[i as int] == patterns@[i as int]@);
            return true;
        }
        i += 1;
    }
    false
}

// ─── the walk ────────────────────────────────────────────────────

proof fn lemma_heads_push(es: Seq<OutlineEntry>, e: OutlineEntry)
    ensures
        heads(es.push(e)) == heads(es) + seq![entry_head(e)],
        leaves(es) && e.children@.len() == 0 ==> leaves(es.push(e)),
{
    assert(heads(es.push(e)) =~= heads(es) + seq![entry_head(e)]);
    if leaves(es) && e.children@.len() == 0 {
        assert forall|i: int| 0 <= i < es.push(e).len() implies (#[trigger] es.push(e)[i]).children@.len() == 0 by {
            if i < es.len() {
                assert(es.push(e)[i] == es[i]);
            }
        }
    }
}

fn push_own_entry(
    node: &Node,
    el: &ElementData,
    lo: u8,
    hi: u8,
    spec: &OutlineSpec,
    out: &mut Vec<OutlineEntry>,
    counter: &mut usize,
)
    requires
        node.data == NodeData::Element(*el),
        *old(counter) < usize::MAX,
    ensures
        heads(final(out)@) == heads(old(out)@) + own_entry(
            join(words(text_of(node@)), seq![' ']),
            el.tag@,
            attrs_view(el.attributes@),
            lo,
            hi,
            *spec,
            *old(counter) as nat,
        ).0,
        *final(counter) == own_entry(
            join(words(text_of(node@)), seq![' ']),
            el.tag@,
            attrs_view(el.attributes@),
            lo,
            hi,
            *spec,
            *old(counter) as nat,
        ).1,
        leaves(old(out)@) ==> leaves(final(out)@),
{
    let ltag = crate::text::to_ascii_lowercase(el.tag.as_str());
    let level = heading_level(ltag.as_str());
    let in_band = match level {
        Some(l) => lo <= l && l <= hi,
        None => false,
    };
    let picked = in_band || matches_any(el.tag.as_str(), el, &spec.includes);
    if picked {
        let text = normalize_text(node.text_content().as_str());
        if chars_of(text.as_str()).len() > 0 {
            let id = resolve_id(el.id(), text.as_str(), spec.generate_ids, counter);
            let eff: u8 = match level {
                Some(l) => l,
                None => 1,
            };
            let ghost before = out@;
            let e = OutlineEntry { level: eff, text, id, children: Vec::new() };
            out.push(e);
            proof {
                lemma_heads_push(before, out@.last());
                assert(out@ == before.push(out@.last()));
            }
        } else {
            assert(heads(out@) + Seq::<Head>::empty() =~= heads(out@));
        }
    } else {
        assert(heads(out@) + Seq::<Head>::empty() =~= heads(out@));
    }
}

fn walk_for_headings(
    node: &Node,
    lo: u8,
    hi: u8,
    spec: &OutlineSpec,
    out: &mut Vec<OutlineEntry>,
    counter: &mut usize,
)
    requires
        *old(counter) + 1 + descendants(node@) < usize::MAX,
    ensures
        heads(final(out)@) == heads(old(out)@) + walk_node(node@, lo, hi, *spec, *old(counter) as nat).0,
        *final(counter) == walk_node(node@, lo, hi, *spec, *old(counter) as nat).1,
        leaves(old(out)@) ==> leaves(final(out)@),
    decreases node,
{
    let ghost c0 = *counter as nat;
    let ghost out0 = out@;
    let ghost cs = nodes_view(node.children@);
    proof {
        lemma_nodes_view(node.children@);
        assert(node@.children == cs);
    }
    let ghost own: Seq<Head> = seq![];
    match &node.data {
        NodeData::Element(el) => {
            if matches_any(el.tag.as_str(), el, &spec.exclude) {
                assert(heads(out@) + Seq::<Head>::empty() =~= heads(out@));
                return;
            }
            push_own_entry(node, el, lo, hi, spec, out, counter);
            proof {
                own = own_entry(
                    join(words(text_of(node@)), seq![' ']),
                    el.tag@,
                    attrs_view(el.attributes@),
                    lo,
                    hi,
                    *spec,
                    c0,
                ).0;
            }
        },
        _ => {},
    }
    let ghost c1 = *counter as nat;
    assert(c1 <= c0 + 1);
    assert(heads(out@) == heads(out0) + own);
    let mut i: usize = 0;
    assert(cs.take(0) =~= Seq::<NodeView>::empty());
    while i < node.children.len()
        invariant
            i <= node.children@.len(),
            cs == nodes_view(node.children@),
            cs.len() == node.children@.len(),
            forall|j: int| 0 <= j < cs.len() ==> #[trigger] cs[j] == node_view(node.children@[j]),
            c1 <= c0 + 1,
            c0 + 1 + descendants_of(cs) < usize::MAX,
            heads(out@) == heads(out0) + own + walk_children(cs.take(i as int), lo, hi, *spec, c1).0,
            *counter == walk_children(cs.take(i as int), lo, hi, *spec, c1).1,
            leaves(out0) ==> leaves(out@),
        decreases node.children@.len() - i,
    {
        proof {
            let t = cs.take(i + 1);
            assert(t.drop_last() =~= cs.take(i as int));
            assert(t.last() == cs[i as int]);
            lemma_descendants_prefix(cs, i as int);
            lemma_walk_children_count(cs.take(i as int), lo, hi, *spec, c1);
            assert(decreases_to!(node => node.children));
            assert(decreases_to!(node.children => node.children@));
            assert(decreases_to!(node.children@ => node.children@[i as int]));
        }
        let ghost before = heads(out@);
        walk_for_headings(&node.children[i], lo, hi, spec, out, counter);
        proof {
            let a = walk_children(cs.take(i as int), lo, hi, *spec, c1).0;
            let b = walk_node(cs[i as int], lo, hi, *spec, walk_children(cs.take(i as int), lo, hi, *spec, c1).1).0;
            assert(heads(out0) + own + a + b =~= heads(out0) + own + (a + b));
        }
        i += 1;
    }
    proof {
        assert(cs.take(cs.len() as int) =~= cs);
        if node.data is Element {
            assert(heads(out0) + own + walk_children(cs, lo, hi, *spec, c1).0 =~= heads(out0) + (own
                + walk_children(cs, lo, hi, *spec, c1).0));
        } else {
            assert(own =~= Seq::<Head>::empty());
            assert(c1 == c0);
            assert(heads(out0) + own =~= heads(out0));
        }
    }
}

/// The outline of a document under a profile: the entries in reading order, flat when the
/// profile says so, else nested, each entry under the nearest preceding shallower one.
pub fn extract_outline(doc: &Document, spec: &OutlineSpec) -> (r: Vec<OutlineEntry>)
    requires
        descendants(doc@) + 1 < usize::MAX,
    ensures
        spec.flatten ==> heads(r@) == outline_of(doc@, *spec) && leaves(r@),
        !spec.flatten ==> entry_trees(r@) == nested(leaves_of(outline_of(doc@, *spec))),
        !spec.flatten ==> preorder(r@) == outline_of(doc@, *spec) && nested_below(r@, -1),
{
    let lo: u8 = if spec.min_level < 1 {
        1
    } else if spec.min_level > 6 {
        6
    } else {
        spec.min_level
    };
    let hi: u8 = if spec.max_level < lo {
        lo
    } else if spec.max_level > 6 {
        6
    } else {
        spec.max_level
    };
    let mut flat: Vec<OutlineEntry> = Vec::new();
    let mut counter: usize = 0;
    assert(heads(flat@) =~= Seq::<Head>::empty());
    walk_for_headings(&doc.root, lo, hi, spec, &mut flat, &mut counter);
    assert(heads(flat@) =~= outline_of(doc@, *spec));
    if spec.flatten {
        flat
    } else {
        proof {
            lemma_entry_trees(flat@);
            assert(entry_trees(flat@) =~= leaves_of(heads(flat@))) by {
                assert forall|i: int| 0 <= i < flat@.len() implies #[trigger] entry_trees(flat@)[i] == leaves_of(
                    heads(flat@),
                )[i] by {
                    assert(flat@[i].children@ =~= Seq::<OutlineEntry>::empty());
                    assert(entry_trees(flat@[i].children@) =~= Seq::<Tree>::empty());
                }
            }
            lemma_preorder_leaves(flat@);
            assert forall|i: int| 0 <= i < flat@.len() implies nested_below(
                #[trigger] flat@[i].children@,
                flat@[i].level as int,
            ) by {
                assert(flat@[i].children@ =~= Seq::<OutlineEntry>::empty());
            }
        }
        nest_entries(flat)
    }
}

// ─── flat and nested outlines agree ──────────────────────────────

/// The walk reads only the selectors and the id setting of a profile.
proof fn lemma_walk_same(n: NodeView, lo: u8, hi: u8, a: OutlineSpec, b: OutlineSpec, count: nat)
    requires
        a.exclude@ == b.exclude@,
        a.includes@ == b.includes@,
        a.generate_ids == b.generate_ids,
    ensures
        walk_node(n, lo, hi, a, count) == walk_node(n, lo, hi, b, count),
    decreases n, 1int,
{
    assert(decreases_to!(n => n.children));
    match n.data {
        DataView::Element { tag, attributes } => {
            let text = join(words(text_of(n)), seq![' ']);
            let c1 = own_entry(text, tag, attributes, lo, hi, a, count).1;
            lemma_walk_children_same(n.children, lo, hi, a, b, c1);
        },
        _ => {
            lemma_walk_children_same(n.children, lo, hi, a, b, count);
        },
    }
}

proof fn lemma_walk_children_same(cs: Seq<NodeView>, lo: u8, hi: u8, a: OutlineSpec, b: OutlineSpec, count: nat)
    requires
        a.exclude@ == b.exclude@,
        a.includes@ == b.includes@,
        a.generate_ids == b.generate_ids,
    ensures
        walk_children(cs, lo, hi, a, count) == walk_children(cs, lo, hi, b, count),
    decreases cs, 0int,
{
    if cs.len() > 0 {
        assert(decreases_to!(cs => cs.drop_last()));
        assert(decreases_to!(cs => cs[cs.len() - 1]));
        lemma_walk_children_same(cs.drop_last(), lo, hi, a, b, count);
        let c1 = walk_children(cs.drop_last(), lo, hi, a, count).1;
        lemma_walk_same(cs.last(), lo, hi, a, b, c1);
    }
}

/// Flattening changes only the shape of an outline: under two profiles that differ only in
/// `flatten`, the flat outline lists exactly the entries of the nested one in reading order.
pub proof fn law_flat_outline_is_nested_reading_order(doc: NodeView, flat: OutlineSpec, nested: OutlineSpec)
    requires
        flat.min_level == nested.min_level,
        flat.max_level == nested.max_level,
        flat.exclude@ == nested.exclude@,
        flat.includes@ == nested.includes@,
        flat.generate_ids == nested.generate_ids,
    ensures
        outline_of(doc, flat) == outline_of(doc, nested),
{
    lemma_walk_same(doc, band_lo(flat), band_hi(flat), flat, nested, 0);
}

} // verus!
