//! `(defoutline)` — table-of-contents profiles, and the text work of building an outline:
//! heading levels, whitespace-normalized heading text, URL-safe slugs for generated ids, and the
//! nesting of a flat heading list into a tree.
pub mod extract;

use vstd::prelude::*;

use crate::registry::{
    find_key, index_of_key, lemma_first_where_spec, upsert, upsert_all, upserted, upserted_all, Named,
};
use crate::text::{chars_of, join, join_strings, lower, lower_char, lower_char_exec, owned, push, slice_chars, split_whitespace, string_from_chars, views, words};

verus! {

/// An outline-extraction profile.
#[derive(Debug, Clone, PartialEq)]
pub struct OutlineSpec {
    pub name: String,
    /// Lowest heading level kept (1 is `<h1>`).
    pub min_level: u8,
    /// Highest heading level kept; clamped to 1..=6.
    pub max_level: u8,
    /// Extra selectors whose elements count as entries.
    pub includes: Vec<String>,
    /// Selectors whose elements, and what is under them, are skipped.
    pub exclude: Vec<String>,
    /// Give matched elements without an id a generated slug id.
    pub generate_ids: bool,
    /// Return a flat list instead of a tree.
    pub flatten: bool,
    pub description: Option<String>,
}

impl Named for OutlineSpec {
    open spec fn key(&self) -> Seq<char> {
        self.name@
    }

    fn name_ref(&self) -> (r: &str) {
        self.name.as_str()
    }
}

/// The lowest level kept when none is given.
pub fn default_min_level() -> (r: u8)
    ensures
        r == 1,
{
    1
}

/// The highest level kept when none is given.
pub fn default_max_level() -> (r: u8)
    ensures
        r == 4,
{
    4
}

/// Ids are generated unless said otherwise.
pub fn default_generate_ids() -> (r: bool)
    ensures
        r,
{
    true
}

impl OutlineSpec {
    /// The built-in profile: `<h1>`..`<h4>`, footnotes and hidden elements skipped, ids
    /// generated, nested.
    pub fn default_profile() -> (r: Self)
        ensures
            r.name@ == "default"@,
            r.min_level == 1,
            r.max_level == 4,
            r.includes@.len() == 0,
            views(r.exclude@) == seq![".footnote"@, "[aria-hidden=true]"@],
            r.generate_ids,
            !r.flatten,
            r.description.is_some(),
    {
        let exclude = vec![owned(".footnote"), owned("[aria-hidden=true]")];
        assert(views(exclude@) =~= seq![".footnote"@, "[aria-hidden=true]"@]);
        OutlineSpec {
            name: owned("default"),
            min_level: 1,
            max_level: 4,
            includes: Vec::new(),
            exclude,
            generate_ids: true,
            flatten: false,
            description: Some(owned("Default outline — h1..h4, generate ids, nested.")),
        }
    }
}

/// One outline entry.
#[derive(Debug)]
pub struct OutlineEntry {
    /// Heading level, 1..=6.
    pub level: u8,
    /// Visible text, whitespace-normalized.
    pub text: String,
    /// Element id, existing or generated; empty when there is none.
    pub id: String,
    /// Nested entries, when the outline is not flattened.
    pub children: Vec<OutlineEntry>,
}

/// Outline profiles, one per name.
#[derive(Debug, Clone)]
pub struct OutlineRegistry {
    specs: Vec<OutlineSpec>,
}

impl View for OutlineRegistry {
    type V = Seq<OutlineSpec>;

    closed spec fn view(&self) -> Seq<OutlineSpec> {
        self.specs@
    }
}

impl OutlineRegistry {
    /// An empty registry.
    pub fn new() -> (r: Self)
        ensures
            r@ == Seq::<OutlineSpec>::empty(),
    {
        OutlineRegistry { specs: Vec::new() }
    }

    /// Adds `spec`, replacing any entry of the same name.
    pub fn insert(&mut self, spec: OutlineSpec)
        ensures
            final(self)@ == upserted(old(self)@, spec),
    {
        upsert(&mut self.specs, spec);
    }

    /// Adds each spec in order.
    pub fn extend(&mut self, specs: Vec<OutlineSpec>)
        ensures
            final(self)@ == upserted_all(old(self)@, specs@),
    {
        upsert_all(&mut self.specs, specs);
    }

    /// Number of entries.
    pub fn len(&self) -> (r: usize)
        ensures
            r == self@.len(),
    {
        self.specs.len()
    }

    /// No entry is registered.
    pub fn is_empty(&self) -> (r: bool)
        ensures
            r == (self@.len() == 0),
    {
        self.specs.len() == 0
    }

    /// The entries in order.
    pub fn specs(&self) -> (r: &[OutlineSpec])
        ensures
            r@ == self@,
    {
        self.specs.as_slice()
    }

    /// The first entry named `name`.
    pub fn get(&self, name: &str) -> (r: Option<&OutlineSpec>)
        ensures
            match index_of_key(self@, name@) {
                Some(i) => r == Some(&self@[i]),
                None => r.is_none(),
            },
    {
        match find_key(&self.specs, name) {
            Some(i) => {
                proof {
                    lemma_first_where_spec(self.specs@, crate::registry::key_equals::<OutlineSpec>(name@));
                }
                Some(&self.specs[i])
            },
            None => None,
        }
    }
}

// ─── heading text ────────────────────────────────────────────────

/// The level of a lower-cased heading tag: `h1` .. `h6`.
pub open spec fn heading_level_spec(tag: Seq<char>) -> Option<u8> {
    if tag.len() == 2 && tag[0] == 'h' && '1' <= tag[1] <= '6' {
        Some(((tag[1] as u32) - 48) as u8)
    } else {
        None
    }
}

/// The level of a lower-cased heading tag.
pub fn heading_level(tag: &str) -> (r: Option<u8>)
    ensures
        r == heading_level_spec(tag@),
{
    let cs = chars_of(tag);
    if cs.len() == 2 && cs[0] == 'h' && '1' <= cs[1] && cs[1] <= '6' {
        let d: u32 = cs[1] as u32;
        Some((d - 48) as u8)
    } else {
        None
    }
}

/// Whitespace runs collapsed to one space, and none at either end: the words joined by spaces.
pub fn normalize_text(s: &str) -> (r: String)
    ensures
        r@ == join(words(s@), seq![' ']),
{
    let ws = split_whitespace(s);
    let sep = " ";
    proof {
        reveal_strlit(" ");
    }
    assert(sep@ =~= seq![' ']);
    join_strings(&ws, sep)
}

/// An ASCII letter or digit.
pub open spec fn is_alnum(c: char) -> bool {
    ('a' <= c <= 'z') || ('A' <= c <= 'Z') || ('0' <= c <= '9')
}

/// The run of letters and digits that `s` starts with.
pub open spec fn alnum_prefix(s: Seq<char>) -> Seq<char>
    decreases s.len(),
{
    if s.len() == 0 || !is_alnum(s[0]) {
        seq![]
    } else {
        seq![s[0]] + alnum_prefix(s.drop_first())
    }
}

/// An alphanumeric prefix is a prefix of `s`, non-empty when `s` starts with a letter or digit.
pub proof fn lemma_alnum_prefix(s: Seq<char>)
    ensures
        alnum_prefix(s).len() <= s.len(),
        s.len() > 0 && is_alnum(s[0]) ==> alnum_prefix(s).len() > 0,
    decreases s.len(),
{
    if s.len() > 0 && is_alnum(s[0]) {
        lemma_alnum_prefix(s.drop_first());
    }
}

/// A run of letters and digits ended by anything else, or by the end, is the alphanumeric prefix.
proof fn lemma_alnum_prefix_at(s: Seq<char>, j: int)
    requires
        0 <= j <= s.len(),
        forall|k: int| 0 <= k < j ==> is_alnum(#[trigger] s[k]),
        j == s.len() || !is_alnum(s[j]),
    ensures
        alnum_prefix(s) == s.take(j),
    decreases j,
{
    if j == 0 {
        assert(s.take(0) =~= seq![]);
    } else {
        let t = s.drop_first();
        assert forall|k: int| 0 <= k < j - 1 implies is_alnum(#[trigger] t[k]) by {
            assert(t[k] == s[k + 1]);
        }
        if j < s.len() {
            assert(t[j - 1] == s[j]);
        }
        lemma_alnum_prefix_at(t, j - 1);
        assert(seq![s[0]] + t.take(j - 1) =~= s.take(j));
    }
}

/// The maximal runs of ASCII letters and digits of `s`, in order.
pub open spec fn alnum_runs(s: Seq<char>) -> Seq<Seq<char>>
    decreases s.len(),
{
    if s.len() == 0 {
        seq![]
    } else if !is_alnum(s[0]) {
        alnum_runs(s.drop_first())
    } else {
        let w = alnum_prefix(s);
        proof {
            lemma_alnum_prefix(s);
        }
        seq![w] + alnum_runs(s.skip(w.len() as int))
    }
}

/// A URL-safe slug: the runs of ASCII letters and digits of the ASCII-lowered text, joined by `-`.
pub open spec fn slug(s: Seq<char>) -> Seq<char> {
    join(alnum_runs(lower(s)), seq!['-'])
}

/// The slug of `s`.
pub fn slugify(s: &str) -> (r: String)
    ensures
        r@ == slug(s@),
{
    let raw = chars_of(s);
    let mut cs: Vec<char> = Vec::new();
    let mut k: usize = 0;
    while k < raw.len()
        invariant
            k <= raw@.len(),
            cs@ == lower(raw@.take(k as int)),
        decreases raw@.len() - k,
    {
        cs.push(lower_char_exec(raw[k]));
        assert(lower(raw@.take(k + 1)) =~= lower(raw@.take(k as int)).push(lower_char(raw@[k as int])));
        k += 1;
    }
    assert(raw@.take(raw@.len() as int) =~= raw@);
    let mut runs: Vec<String> = Vec::new();
    let ghost mut done: Seq<Seq<char>> = seq![];
    let mut i: usize = 0;
    assert(cs@.skip(0) =~= cs@);
    while i < cs.len()
        invariant
            i <= cs@.len(),
            cs@ == lower(s@),
            views(runs@) == done,
            alnum_runs(cs@) == done + alnum_runs(cs@.skip(i as int)),
        decreases cs@.len() - i,
    {
        let ghost u = cs@.skip(i as int);
        let c = cs[i];
        if !(('a' <= c && c <= 'z') || ('A' <= c && c <= 'Z') || ('0' <= c && c <= '9')) {
            assert(u.drop_first() =~= cs@.skip(i + 1));
            i += 1;
        } else {
            let mut j: usize = i;
            while j < cs.len() && (('a' <= cs[j] && cs[j] <= 'z') || ('A' <= cs[j] && cs[j] <= 'Z') || ('0' <= cs[j]
                && cs[j] <= '9'))
                invariant
                    i <= j <= cs@.len(),
                    forall|k: int| i <= k < j ==> is_alnum(#[trigger] cs@[k]),
                decreases cs@.len() - j,
            {
                j += 1;
            }
            proof {
                assert forall|k: int| 0 <= k < j - i implies is_alnum(#[trigger] u[k]) by {
                    assert(u[k] == cs@[i + k]);
                }
                if j < cs@.len() {
                    assert(u[j - i] == cs@[j as int]);
                }
                lemma_alnum_prefix_at(u, j - i);
                assert(u.take(j - i) =~= cs@.subrange(i as int, j as int));
                assert(u.skip(j - i) =~= cs@.skip(j as int));
            }
            let w = string_from_chars(slice_chars(cs.as_slice(), i, j).as_slice());
            runs.push(w);
            proof {
                let wv = cs@.subrange(i as int, j as int);
                assert(views(runs@) =~= done.push(wv));
                assert(done.push(wv) + alnum_runs(cs@.skip(j as int)) =~= done + (seq![wv] + alnum_runs(
                    cs@.skip(j as int),
                )));
                done = done.push(wv);
            }
            i = j;
        }
    }
    proof {
        assert(cs@.skip(cs@.len() as int) =~= seq![]);
        assert(done + seq![] =~= done);
    }
    let sep = "-";
    proof {
        reveal_strlit("-");
    }
    assert(sep@ =~= seq!['-']);
    join_strings(&runs, sep)
}

// ─── decimal numbers and generated ids ──────────────────────────

/// The decimal digit for `d < 10`.
pub open spec fn digit(d: nat) -> char {
    ((48 + d) as u8) as char
}

/// `n` written in decimal.
pub open spec fn decimal(n: nat) -> Seq<char>
    decreases n,
{
    if n < 10 {
        seq![digit(n)]
    } else {
        decimal(n / 10).push(digit(n % 10))
    }
}

/// Appends `n` in decimal to `out`.
pub fn push_decimal(out: &mut Vec<char>, n: usize)
    ensures
        final(out)@ == old(out)@ + decimal(n as nat),
    decreases n,
{
    if n >= 10 {
        push_decimal(out, n / 10);
    }
    let d: u8 = (n % 10) as u8;
    out.push((48 + d) as char);
    assert(decimal(n as nat) == if n < 10 { seq![digit(n as nat)] } else { decimal((n / 10) as nat).push(digit((n % 10) as nat)) });
}

/// The id an entry gets: the element's own non-empty id; else, when ids are generated, the
/// slug of its text and the running count (`slug-N`, or `h-N` for an empty slug); else none.
pub open spec fn entry_id(existing: Option<Seq<char>>, text: Seq<char>, generate: bool, count: nat) -> Seq<char> {
    match existing {
        Some(e) if e.len() > 0 => e,
        _ => if !generate {
            seq![]
        } else if slug(text).len() == 0 {
            seq!['h', '-'] + decimal(count)
        } else {
            slug(text) + seq!['-'] + decimal(count)
        },
    }
}

/// The id of an entry; the counter advances each time an id is generated.
pub fn resolve_id(existing: Option<&str>, text: &str, generate: bool, counter: &mut usize) -> (r: String)
    requires
        *old(counter) < usize::MAX,
    ensures
        r@ == entry_id(
            match existing {
                Some(e) => Some(e@),
                None => None,
            },
            text@,
            generate,
            *final(counter) as nat,
        ),
        *final(counter) == if (existing matches Some(e) && e@.len() > 0) || !generate {
            *old(counter)
        } else {
            (*old(counter) + 1) as usize
        },
{
    match existing {
        Some(e) => {
            if chars_of(e).len() > 0 {
                return owned(e);
            }
        },
        None => {},
    }
    if !generate {
        return String::new();
    }
    *counter = *counter + 1;
    let s = slugify(text);
    let mut out: Vec<char> = if chars_of(s.as_str()).len() == 0 {
        vec!['h', '-']
    } else {
        let mut v = chars_of(s.as_str());
        v.push('-');
        v
    };
    push_decimal(&mut out, *counter);
    string_from_chars(out.as_slice())
}

// ─── nesting ─────────────────────────────────────────────────────

/// An entry without its children.
pub open spec fn entry_head(e: OutlineEntry) -> (u8, Seq<char>, Seq<char>) {
    (e.level, e.text@, e.id@)
}

/// The entries in reading order: each entry, then its children, depth first.
pub open spec fn preorder(es: Seq<OutlineEntry>) -> Seq<(u8, Seq<char>, Seq<char>)>
    decreases es,
{
    if es.len() == 0 {
        seq![]
    } else {
        let e = es.last();
        proof {
            assert(decreases_to!(es => es.drop_last()));
            assert(decreases_to!(es => es[es.len() - 1]));
        }
        preorder(es.drop_last()) + seq![entry_head(e)] + preorder(e.children@)
    }
}

/// Every entry of `es` is deeper than `bound`, and every child deeper than its parent.
pub open spec fn nested_below(es: Seq<OutlineEntry>, bound: int) -> bool
    decreases es,
{
    if es.len() == 0 {
        true
    } else {
        let e = es.last();
        proof {
            assert(decreases_to!(es => es.drop_last()));
            assert(decreases_to!(es => es[es.len() - 1]));
        }
        nested_below(es.drop_last(), bound) && e.level > bound && nested_below(e.children@, e.level as int)
    }
}

/// An outline entry as a plain tree: its level, text and id, and its children.
pub struct Tree {
    pub head: (u8, Seq<char>, Seq<char>),
    pub kids: Seq<Tree>,
}

/// An entry as a plain tree.
pub open spec fn entry_tree(e: OutlineEntry) -> Tree
    decreases e,
{
    proof {
        assert(decreases_to!(e => e.children));
        assert(decreases_to!(e.children => e.children@));
    }
    Tree { head: entry_head(e), kids: entry_trees(e.children@) }
}

/// Entries as plain trees, in order.
pub open spec fn entry_trees(s: Seq<OutlineEntry>) -> Seq<Tree>
    decreases s,
{
    if s.len() == 0 {
        seq![]
    } else {
        proof {
            assert(decreases_to!(s => s.drop_last()));
            assert(decreases_to!(s => s[s.len() - 1]));
        }
        entry_trees(s.drop_last()).push(entry_tree(s.last()))
    }
}

/// `t` added to `roots` as the original's outline does it: as the last child of the last root
/// when that root is shallower, following the last entries down, else as a new last root.
pub open spec fn insert_tree(roots: Seq<Tree>, t: Tree) -> Seq<Tree>
    decreases roots,
{
    if roots.len() > 0 && roots.last().head.0 < t.head.0 {
        let last = roots.last();
        proof {
            assert(decreases_to!(roots => roots[roots.len() - 1]));
            assert(decreases_to!(roots[roots.len() - 1] => roots[roots.len() - 1].kids));
        }
        roots.drop_last().push(Tree { head: last.head, kids: insert_tree(last.kids, t) })
    } else {
        roots.push(t)
    }
}

/// The trees `ts` inserted one after another into an empty outline.
pub open spec fn nested(ts: Seq<Tree>) -> Seq<Tree>
    decreases ts.len(),
{
    if ts.len() == 0 {
        seq![]
    } else {
        insert_tree(nested(ts.drop_last()), ts.last())
    }
}

/// A heading without children, as a tree.
pub open spec fn leaf(h: (u8, Seq<char>, Seq<char>)) -> Tree {
    Tree { head: h, kids: seq![] }
}

/// `entry_trees` of a list grown by one entry.
pub proof fn lemma_entry_trees_push(s: Seq<OutlineEntry>, e: OutlineEntry)
    ensures
        entry_trees(s.push(e)) == entry_trees(s).push(entry_tree(e)),
{
    assert(s.push(e).drop_last() =~= s);
}

/// `entry_trees` keeps the length and maps each entry in place.
pub proof fn lemma_entry_trees(s: Seq<OutlineEntry>)
    ensures
        entry_trees(s).len() == s.len(),
        forall|i: int| 0 <= i < s.len() ==> #[trigger] entry_trees(s)[i] == entry_tree(s[i]),
    decreases s.len(),
{
    if s.len() > 0 {
        lemma_entry_trees(s.drop_last());
    }
}

/// Reading order of a list grown by one entry.
pub proof fn lemma_preorder_push(s: Seq<OutlineEntry>, e: OutlineEntry)
    ensures
        preorder(s.push(e)) == preorder(s) + preorder(seq![e]),
        preorder(seq![e]) == seq![entry_head(e)] + preorder(e.children@),
{
    let one = seq![e];
    assert(one.drop_last() =~= Seq::<OutlineEntry>::empty());
    assert(preorder(Seq::<OutlineEntry>::empty()) == Seq::<(u8, Seq<char>, Seq<char>)>::empty());
    assert(s.push(e).drop_last() =~= s);
    assert(preorder(one) =~= seq![entry_head(e)] + preorder(e.children@));
    assert(preorder(s.push(e)) =~= preorder(s) + preorder(one));
}

/// Nesting of a list grown by one entry.
pub proof fn lemma_nested_push(s: Seq<OutlineEntry>, e: OutlineEntry, b: int)
    ensures
        nested_below(s.push(e), b) == (nested_below(s, b) && e.level > b && nested_below(e.children@, e.level as int)),
{
    assert(s.push(e).drop_last() =~= s);
}

/// Adds `entry` under the last entry of `roots` that is shallower than it, following the last
/// entries down; at the top level when there is none.
fn insert_by_level(roots: &mut Vec<OutlineEntry>, entry: OutlineEntry)
    ensures
        preorder(final(roots)@) == preorder(old(roots)@) + preorder(seq![entry]),
        entry_trees(final(roots)@) == insert_tree(entry_trees(old(roots)@), entry_tree(entry)),
        forall|b: int|
            nested_below(old(roots)@, b) && entry.level > b && nested_below(entry.children@, entry.level as int)
                ==> #[trigger] nested_below(final(roots)@, b),
    decreases old(roots)@,
{
    let ghost r0 = roots@;
    let ghost e0 = entry;
    proof {
        lemma_preorder_push(r0, entry);
    }
    let n = roots.len();
    if n > 0 && roots[n - 1].level < entry.level {
        let popped = roots.pop();
        match popped {
            Some(mut last) => {
                assert(roots@ =~= r0.drop_last());
                assert(last == r0[n - 1]);
                proof {
                    assert(decreases_to!(r0 => r0[n - 1]));
                    assert(r0.drop_last().push(r0[n - 1]) =~= r0);
                    lemma_preorder_push(r0.drop_last(), r0[n - 1]);
                }
                let ghost l0 = last;
                let ghost c0 = last.children@;
                insert_by_level(&mut last.children, entry);
                roots.push(last);
                proof {
                    lemma_entry_trees_push(r0.drop_last(), l0);
                    lemma_entry_trees_push(r0.drop_last(), last);
                    assert(entry_tree(last).head == entry_tree(l0).head);
                    assert(entry_tree(last).kids == insert_tree(entry_tree(l0).kids, entry_tree(e0)));
                    assert(entry_trees(roots@) =~= insert_tree(entry_trees(r0), entry_tree(e0)));
                    lemma_preorder_push(r0.drop_last(), last);
                    assert(preorder(roots@) =~= preorder(r0) + preorder(seq![e0]));
                    assert forall|b: int|
                        nested_below(r0, b) && e0.level > b && nested_below(e0.children@, e0.level as int)
                            implies #[trigger] nested_below(roots@, b) by {
                        lemma_nested_push(r0.drop_last(), l0, b);
                        lemma_nested_push(r0.drop_last(), last, b);
                        assert(nested_below(c0, l0.level as int));
                        assert(nested_below(last.children@, l0.level as int));
                    }
                }
            },
            None => {},
        }
    } else {
        roots.push(entry);
        proof {
            lemma_entry_trees_push(r0, e0);
            if n > 0 {
                assert(r0.drop_last().push(r0[n - 1]) =~= r0);
                lemma_entry_trees_push(r0.drop_last(), r0[n - 1]);
            }
            assert forall|b: int|
                nested_below(r0, b) && e0.level > b && nested_below(e0.children@, e0.level as int)
                    implies #[trigger] nested_below(roots@, b) by {
                lemma_nested_push(r0, e0, b);
            }
        }
    }
}

/// Nests a reading-order list of entries into a tree: each entry becomes the last child of the
/// last entry, at each depth, that is shallower than it, or a new top-level entry when there is
/// none.
pub fn nest_entries(flat: Vec<OutlineEntry>) -> (r: Vec<OutlineEntry>)
    ensures
        entry_trees(r@) == nested(entry_trees(flat@)),
        preorder(r@) == preorder(flat@),
        (forall|i: int| 0 <= i < flat@.len() ==> nested_below(#[trigger] flat@[i].children@, flat@[i].level as int))
            ==> nested_below(r@, -1),
{
    let ghost all = flat@;
    let mut roots: Vec<OutlineEntry> = Vec::new();
    proof {
        assert(all.take(0) =~= Seq::<OutlineEntry>::empty());
    }
    for e in it: flat
        invariant
            it.seq() == all,
            preorder(roots@) == preorder(all.take(it.index() as int)),
            entry_trees(roots@) == nested(entry_trees(all.take(it.index() as int))),
            (forall|i: int| 0 <= i < all.len() ==> nested_below(#[trigger] all[i].children@, all[i].level as int))
                ==> nested_below(roots@, -1),
    {
        let ghost k = it.index() as int;
        proof {
            let t = all.take(k + 1);
            assert(all.take(k).push(all[k]) =~= t);
            lemma_preorder_push(all.take(k), all[k]);
            lemma_entry_trees_push(all.take(k), all[k]);
            assert(entry_trees(t).drop_last() =~= entry_trees(all.take(k)));
        }
        insert_by_level(&mut roots, e);
        proof {
            if forall|i: int| 0 <= i < all.len() ==> nested_below(#[trigger] all[i].children@, all[i].level as int) {
                assert(nested_below(all[k].children@, all[k].level as int));
            }
        }
    }
    proof {
        assert(all.take(all.len() as int) =~= all);
    }
    roots
}

} // verus!
