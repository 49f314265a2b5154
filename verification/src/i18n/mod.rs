//! `(defi18n)` — localized message bundles, one per namespace and locale, merged key-wise
//! and resolved through a fallback chain: exact locale, then the locale's language prefix,
//! then `"en"`, then the raw key. `{placeholder}` tokens are filled in by [`MessageRegistry::format`].
use vstd::prelude::*;

use crate::registry::{
    first_where, lemma_first_where_found, lemma_first_where_none, lemma_first_where_push,
    lemma_first_where_spec, lemma_first_where_update,
};
use crate::extension::{contains_string, has_view};
use crate::sorted::{insert_sorted, insert_sorted_pair, pair_views, pairs_sorted, strictly_sorted};
use crate::text::{
    before_any, before_any_chars, chars_of, has_char, lemma_before_any_len, slice_chars, str_eq, string_from_chars, views,
};

verus! {

/// One `(namespace, locale)` bundle, as authored in a single `(defi18n)` form.
#[derive(Debug, Clone, PartialEq)]
pub struct MessageSpec {
    /// Scope: "core" for the browser chrome, or an extension's name.
    pub namespace: String,
    /// BCP-47 tag such as "en", "en-US" or "pt-BR".
    pub locale: String,
    /// Key → translated string; of two pairs with one key, the later wins.
    pub strings: Vec<(String, String)>,
    pub description: Option<String>,
}

// ─── the model ───────────────────────────────────────────────────

/// An entry is keyed `k`.
pub open spec fn key_is(k: Seq<char>) -> spec_fn((Seq<char>, Seq<char>)) -> bool {
    |e: (Seq<char>, Seq<char>)| e.0 == k
}

/// Index of the first entry whose key is `k`.
pub open spec fn entry_index(es: Seq<(Seq<char>, Seq<char>)>, k: Seq<char>) -> Option<int> {
    first_where(es, key_is(k))
}

/// The value that `es` holds for `k`.
pub open spec fn value_of(es: Seq<(Seq<char>, Seq<char>)>, k: Seq<char>) -> Option<Seq<char>> {
    match entry_index(es, k) {
        Some(i) => Some(es[i].1),
        None => None,
    }
}

/// `es` with `k` set to `v`: replaced in place when present, else appended.
pub open spec fn put(es: Seq<(Seq<char>, Seq<char>)>, k: Seq<char>, v: Seq<char>) -> Seq<(Seq<char>, Seq<char>)> {
    match entry_index(es, k) {
        Some(i) => es.update(i, (k, v)),
        None => es.push((k, v)),
    }
}

/// `es` after setting each pair of `items`, in order.
pub open spec fn put_all(es: Seq<(Seq<char>, Seq<char>)>, items: Seq<(Seq<char>, Seq<char>)>) -> Seq<
    (Seq<char>, Seq<char>),
>
    decreases items.len(),
{
    if items.len() == 0 {
        es
    } else {
        put(put_all(es, items.drop_last()), items.last().0, items.last().1)
    }
}

/// The value that the last pair naming `k` gives it.
pub open spec fn last_value(items: Seq<(Seq<char>, Seq<char>)>, k: Seq<char>) -> Option<Seq<char>>
    decreases items.len(),
{
    if items.len() == 0 {
        None
    } else if items.last().0 == k {
        Some(items.last().1)
    } else {
        last_value(items.drop_last(), k)
    }
}

/// A bundle is the one for `(ns, loc)`.
pub open spec fn bundle_is(ns: Seq<char>, loc: Seq<char>) -> spec_fn((Seq<char>, Seq<char>, Seq<(Seq<char>, Seq<char>)>)) -> bool {
    |b: (Seq<char>, Seq<char>, Seq<(Seq<char>, Seq<char>)>)| b.0 == ns && b.1 == loc
}

/// Index of the first bundle for `(ns, loc)`.
pub open spec fn bundle_index(s: Seq<(Seq<char>, Seq<char>, Seq<(Seq<char>, Seq<char>)>)>, ns: Seq<char>, loc: Seq<char>) -> Option<int> {
    first_where(s, bundle_is(ns, loc))
}

/// The translation of `k` held by the `(ns, loc)` bundle.
pub open spec fn lookup_spec(s: Seq<(Seq<char>, Seq<char>, Seq<(Seq<char>, Seq<char>)>)>, ns: Seq<char>, loc: Seq<char>, k: Seq<char>) -> Option<Seq<char>> {
    match bundle_index(s, ns, loc) {
        Some(i) => value_of(s[i].2, k),
        None => None,
    }
}

/// The bundles after installing `spec`: merged key-wise into its bundle, or added as a new one.
pub open spec fn inserted(s: Seq<(Seq<char>, Seq<char>, Seq<(Seq<char>, Seq<char>)>)>, spec: MessageSpec) -> Seq<
    (Seq<char>, Seq<char>, Seq<(Seq<char>, Seq<char>)>),
> {
    let ns = spec.namespace@;
    let loc = spec.locale@;
    let items = pair_views(spec.strings@);
    match bundle_index(s, ns, loc) {
        Some(i) => s.update(i, (ns, loc, put_all(s[i].2, items))),
        None => s.push((ns, loc, put_all(seq![], items))),
    }
}

/// The bundles after installing each of `specs`, in order.
pub open spec fn inserted_all(s: Seq<(Seq<char>, Seq<char>, Seq<(Seq<char>, Seq<char>)>)>, specs: Seq<MessageSpec>) -> Seq<
    (Seq<char>, Seq<char>, Seq<(Seq<char>, Seq<char>)>),
>
    decreases specs.len(),
{
    if specs.len() == 0 {
        s
    } else {
        inserted(inserted_all(s, specs.drop_last()), specs.last())
    }
}

/// No two bundles share a namespace and a locale.
pub open spec fn bundles_distinct(s: Seq<(Seq<char>, Seq<char>, Seq<(Seq<char>, Seq<char>)>)>) -> bool {
    forall|i: int, j: int|
        0 <= i < s.len() && 0 <= j < s.len() && i != j ==> !(s[i].0 == s[j].0 && s[i].1 == s[j].1)
}

/// `"en"`.
pub open spec fn english() -> Seq<char> {
    seq!['e', 'n']
}

/// The language part of `loc`, before its first `-`, when it has one.
pub open spec fn locale_prefix(loc: Seq<char>) -> Option<Seq<char>> {
    if loc.contains('-') {
        Some(before_any(loc, seq!['-']))
    } else {
        None
    }
}

/// What `get` answers: the exact bundle, then the language prefix, then `"en"`, then `key` itself.
pub open spec fn resolve_message(s: Seq<(Seq<char>, Seq<char>, Seq<(Seq<char>, Seq<char>)>)>, ns: Seq<char>, loc: Seq<char>, key: Seq<char>) -> Seq<char> {
    match lookup_spec(s, ns, loc, key) {
        Some(v) => v,
        None => match (match locale_prefix(loc) {
            Some(p) => lookup_spec(s, ns, p, key),
            None => None,
        }) {
            Some(v) => v,
            None => if loc != english() {
                match lookup_spec(s, ns, english(), key) {
                    Some(v) => v,
                    None => key,
                }
            } else {
                key
            },
        },
    }
}

/// What `bundle_index` finds: the first bundle for `(ns, loc)`, or none at all.
pub proof fn lemma_bundle_index(s: Seq<(Seq<char>, Seq<char>, Seq<(Seq<char>, Seq<char>)>)>, ns: Seq<char>, loc: Seq<char>)
    ensures
        match bundle_index(s, ns, loc) {
            Some(i) => 0 <= i < s.len() && s[i].0 == ns && s[i].1 == loc && forall|j: int|
                0 <= j < i ==> !(#[trigger] s[j].0 == ns && s[j].1 == loc),
            None => forall|j: int| 0 <= j < s.len() ==> !(#[trigger] s[j].0 == ns && s[j].1 == loc),
        },
{
    let p = bundle_is(ns, loc);
    lemma_first_where_spec(s, p);
    match first_where(s, p) {
        Some(i) => {
            assert(p(s[i]));
            assert forall|j: int| 0 <= j < i implies !(#[trigger] s[j].0 == ns && s[j].1 == loc) by {
                assert(!p(s[j]));
            }
        },
        None => {
            assert forall|j: int| 0 <= j < s.len() implies !(#[trigger] s[j].0 == ns && s[j].1 == loc) by {
                assert(!p(s[j]));
            }
        },
    }
}

/// What `entry_index` finds: the first entry keyed `k`, or none at all.
pub proof fn lemma_entry_index(es: Seq<(Seq<char>, Seq<char>)>, k: Seq<char>)
    ensures
        match entry_index(es, k) {
            Some(i) => 0 <= i < es.len() && es[i].0 == k && forall|j: int| 0 <= j < i ==> #[trigger] es[j].0 != k,
            None => forall|j: int| 0 <= j < es.len() ==> #[trigger] es[j].0 != k,
        },
{
    let p = key_is(k);
    lemma_first_where_spec(es, p);
    match first_where(es, p) {
        Some(i) => {
            assert(p(es[i]));
            assert forall|j: int| 0 <= j < i implies #[trigger] es[j].0 != k by {
                assert(!p(es[j]));
            }
        },
        None => {
            assert forall|j: int| 0 <= j < es.len() implies #[trigger] es[j].0 != k by {
                assert(!p(es[j]));
            }
        },
    }
}

/// What `{tok}` becomes: the value the arguments give `tok`, else the token kept as written.
pub open spec fn placeholder(tok: Seq<char>, args: Seq<(Seq<char>, Seq<char>)>) -> Seq<char> {
    match last_value(args, tok) {
        Some(v) => v,
        None => seq!['{'] + tok + seq!['}'],
    }
}

/// `t` with each closed `{token}` replaced; an unclosed `{` and all after it stay as written.
pub open spec fn render(t: Seq<char>, args: Seq<(Seq<char>, Seq<char>)>) -> Seq<char>
    decreases t.len(),
{
    if t.len() == 0 {
        seq![]
    } else if t[0] != '{' {
        seq![t[0]] + render(t.drop_first(), args)
    } else {
        let rest = t.drop_first();
        let tok = before_any(rest, seq!['}']);
        if tok.len() < rest.len() {
            placeholder(tok, args) + render(rest.skip(tok.len() as int + 1), args)
        } else {
            t
        }
    }
}

// ─── the registry ────────────────────────────────────────────────

#[derive(Debug, Clone)]
struct Bundle {
    namespace: String,
    locale: String,
    entries: Vec<(String, String)>,
}

impl Bundle {
    closed spec fn view(&self) -> (Seq<char>, Seq<char>, Seq<(Seq<char>, Seq<char>)>) {
        (self.namespace@, self.locale@, pair_views(self.entries@))
    }
}

/// Translations merged by `(namespace, locale)`.
#[derive(Debug, Clone)]
pub struct MessageRegistry {
    bundles: Vec<Bundle>,
}

impl View for MessageRegistry {
    type V = Seq<(Seq<char>, Seq<char>, Seq<(Seq<char>, Seq<char>)>)>;

    closed spec fn view(&self) -> Seq<(Seq<char>, Seq<char>, Seq<(Seq<char>, Seq<char>)>)> {
        self.bundles@.map_values(|b: Bundle| b.view())
    }
}

/// Position of the first entry keyed `k`.
fn entry_position(es: &Vec<(String, String)>, k: &str) -> (r: Option<usize>)
    ensures
        match r {
            Some(i) => entry_index(pair_views(es@), k@) == Some(i as int) && i < es@.len(),
            None => entry_index(pair_views(es@), k@).is_none(),
        },
{
    let ghost pv = pair_views(es@);
    let ghost p = key_is(k@);
    let mut i: usize = 0;
    while i < es.len()
        invariant
            i <= es@.len(),
            pv == pair_views(es@),
            p == key_is(k@),
            forall|j: int| 0 <= j < i ==> !p(#[trigger] pv[j]),
        decreases es@.len() - i,
    {
        if str_eq(es[i].0.as_str(), k) {
            proof {
                lemma_first_where_found(pv, p, i as int);
            }
            return Some(i);
        }
        i += 1;
    }
    proof {
        lemma_first_where_none(pv, p);
    }
    None
}

/// Sets `k` to `v` in `es`.
fn put_entry(es: &mut Vec<(String, String)>, k: String, v: String)
    ensures
        pair_views(final(es)@) == put(pair_views(old(es)@), k@, v@),
{
    let ghost before = pair_views(es@);
    match entry_position(es, k.as_str()) {
        Some(i) => {
            es.set(i, (k, v));
            assert(pair_views(es@) =~= before.update(i as int, (k@, v@)));
        },
        None => {
            es.push((k, v));
            assert(pair_views(es@) =~= before.push((k@, v@)));
        },
    }
}

/// Sets each pair of `items` in `es`, in order.
fn put_entries(es: &mut Vec<(String, String)>, items: &Vec<(String, String)>)
    ensures
        pair_views(final(es)@) == put_all(pair_views(old(es)@), pair_views(items@)),
{
    let ghost start = pair_views(es@);
    let ghost all = pair_views(items@);
    let mut i: usize = 0;
    while i < items.len()
        invariant
            i <= items@.len(),
            all == pair_views(items@),
            pair_views(es@) == put_all(start, all.take(i as int)),
        decreases items@.len() - i,
    {
        let k = items[i].0.clone();
        let v = items[i].1.clone();
        put_entry(es, k, v);
        proof {
            assert(all.take(i + 1).drop_last() =~= all.take(i as int));
            assert(all.take(i + 1).last() == all[i as int]);
        }
        i += 1;
    }
    assert(all.take(items@.len() as int) =~= all);
}

/// Some string of `v` reads `x` exactly when `x` is among the views of `v`.
proof fn lemma_has_view(v: Seq<String>, x: Seq<char>)
    ensures
        has_view(v, x) == views(v).contains(x),
{
    if has_view(v, x) {
        let i = choose|i: int| 0 <= i < v.len() && #[trigger] v[i]@ == x;
        assert(views(v)[i] == x);
    }
    if views(v).contains(x) {
        let i = choose|i: int| 0 <= i < views(v).len() && views(v)[i] == x;
        assert(v[i]@ == x);
    }
}

/// Appends the characters of `s` to `out`.
fn append_chars(out: &mut Vec<char>, s: &[char])
    ensures
        final(out)@ == old(out)@ + s@,
{
    let mut i: usize = 0;
    while i < s.len()
        invariant
            i <= s@.len(),
            out@ == old(out)@ + s@.take(i as int),
        decreases s@.len() - i,
    {
        out.push(s[i]);
        assert(s@.take(i + 1) =~= s@.take(i as int).push(s@[i as int]));
        i += 1;
    }
    assert(s@.take(s@.len() as int) =~= s@);
}

/// The value that the last pair of `args` named `k` gives it.
fn argument<'a>(args: &'a [(String, String)], k: &str) -> (r: Option<&'a String>)
    ensures
        match r {
            Some(v) => last_value(pair_views(args@), k@) == Some(v@),
            None => last_value(pair_views(args@), k@).is_none(),
        },
{
    let ghost pv = pair_views(args@);
    let mut j: usize = args.len();
    assert(pv.take(j as int) =~= pv);
    while j > 0
        invariant
            j <= args@.len(),
            pv == pair_views(args@),
            last_value(pv, k@) == last_value(pv.take(j as int), k@),
        decreases j,
    {
        let ghost t = pv.take(j as int);
        assert(t.last() == pv[j - 1]);
        if str_eq(args[j - 1].0.as_str(), k) {
            return Some(&args[j - 1].1);
        }
        assert(t.drop_last() =~= pv.take(j - 1));
        j -= 1;
    }
    None
}

impl MessageRegistry {
    /// An empty registry.
    pub fn new() -> (r: Self)
        ensures
            r@ == Seq::<(Seq<char>, Seq<char>, Seq<(Seq<char>, Seq<char>)>)>::empty(),
    {
        let r = MessageRegistry { bundles: Vec::new() };
        assert(r@ =~= Seq::<(Seq<char>, Seq<char>, Seq<(Seq<char>, Seq<char>)>)>::empty());
        r
    }

    /// Position of the `(ns, loc)` bundle.
    fn position(&self, ns: &str, loc: &str) -> (r: Option<usize>)
        ensures
            match r {
                Some(i) => bundle_index(self@, ns@, loc@) == Some(i as int) && i < self@.len(),
                None => bundle_index(self@, ns@, loc@).is_none(),
            },
    {
        let ghost s = self@;
        let ghost p = bundle_is(ns@, loc@);
        let mut i: usize = 0;
        while i < self.bundles.len()
            invariant
                i <= self.bundles@.len(),
                s == self@,
                s.len() == self.bundles@.len(),
                p == bundle_is(ns@, loc@),
                forall|j: int| 0 <= j < i ==> !p(#[trigger] s[j]),
            decreases self.bundles@.len() - i,
        {
            let b = &self.bundles[i];
            if str_eq(b.namespace.as_str(), ns) && str_eq(b.locale.as_str(), loc) {
                proof {
                    assert(s[i as int] == b.view());
                    lemma_first_where_found(s, p, i as int);
                }
                return Some(i);
            }
            assert(s[i as int] == b.view());
            i += 1;
        }
        proof {
            lemma_first_where_none(s, p);
        }
        None
    }

    /// Installs a bundle; entries for a `(namespace, locale)` already present are merged
    /// key-wise, the new value winning.
    pub fn insert(&mut self, spec: MessageSpec)
        ensures
            final(self)@ == inserted(old(self)@, spec),
            bundles_distinct(old(self)@) ==> bundles_distinct(final(self)@),
    {
        let ghost s = self@;
        let ghost ns = spec.namespace@;
        let ghost loc = spec.locale@;
        match self.position(spec.namespace.as_str(), spec.locale.as_str()) {
            Some(i) => {
                proof {
                    lemma_bundle_index(s, ns, loc);
                }
                let mut b = self.bundles.remove(i);
                assert(b.view() == s[i as int]);
                put_entries(&mut b.entries, &spec.strings);
                self.bundles.insert(i, b);
                assert(self@ =~= s.update(i as int, (ns, loc, put_all(s[i as int].2, pair_views(spec.strings@)))));
            },
            None => {
                let mut es: Vec<(String, String)> = Vec::new();
                assert(pair_views(es@) =~= seq![]);
                put_entries(&mut es, &spec.strings);
                self.bundles.push(Bundle { namespace: spec.namespace, locale: spec.locale, entries: es });
                assert(self@ =~= s.push((ns, loc, put_all(seq![], pair_views(spec.strings@)))));
                proof {
                    lemma_bundle_index(s, ns, loc);
                }
            },
        }
    }

    /// Installs each spec in order.
    pub fn extend(&mut self, specs: Vec<MessageSpec>)
        ensures
            final(self)@ == inserted_all(old(self)@, specs@),
            bundles_distinct(old(self)@) ==> bundles_distinct(final(self)@),
    {
        let ghost start = self@;
        let ghost all = specs@;
        for spec in it: specs
            invariant
                it.seq() == all,
                self@ == inserted_all(start, all.take(it.index() as int)),
                bundles_distinct(start) ==> bundles_distinct(self@),
        {
            proof {
                let k = it.index() as int;
                assert(all.take(k + 1).drop_last() =~= all.take(k));
                assert(all.take(k + 1).last() == all[k]);
            }
            self.insert(spec);
        }
        proof {
            assert(all.take(all.len() as int) =~= all);
        }
    }

    /// Number of bundles.
    pub fn len(&self) -> (r: usize)
        ensures
            r == self@.len(),
    {
        self.bundles.len()
    }

    /// No bundle is installed.
    pub fn is_empty(&self) -> (r: bool)
        ensures
            r == (self@.len() == 0),
    {
        self.bundles.len() == 0
    }

    /// The translation of `key` in the `(namespace, locale)` bundle, without fallback.
    pub fn lookup(&self, namespace: &str, locale: &str, key: &str) -> (r: Option<String>)
        ensures
            match r {
                Some(v) => lookup_spec(self@, namespace@, locale@, key@) == Some(v@),
                None => lookup_spec(self@, namespace@, locale@, key@).is_none(),
            },
    {
        match self.position(namespace, locale) {
            Some(i) => {
                let b = &self.bundles[i];
                assert(self@[i as int] == b.view());
                match entry_position(&b.entries, key) {
                    Some(j) => {
                        assert(pair_views(b.entries@)[j as int] == (b.entries@[j as int].0@, b.entries@[j as int].1@));
                        Some(b.entries[j].1.clone())
                    },
                    None => None,
                }
            },
            None => None,
        }
    }

    /// The translation of `key`: the exact bundle, then the locale's language prefix
    /// (`"en-US"` → `"en"`), then `"en"`, and failing all of them `key` itself.
    pub fn get(&self, namespace: &str, locale: &str, key: &str) -> (r: String)
        ensures
            r@ == resolve_message(self@, namespace@, locale@, key@),
    {
        if let Some(hit) = self.lookup(namespace, locale, key) {
            return hit;
        }
        let lc = chars_of(locale);
        if has_char(lc.as_slice(), '-') {
            let stops: Vec<char> = vec!['-'];
            assert(stops@ =~= seq!['-']);
            let prefix = string_from_chars(before_any_chars(lc.as_slice(), stops.as_slice()).as_slice());
            if let Some(hit) = self.lookup(namespace, prefix.as_str(), key) {
                return hit;
            }
        }
        let en = "en";
        proof {
            reveal_strlit("en");
        }
        assert(en@ =~= english());
        if !str_eq(locale, en) {
            if let Some(hit) = self.lookup(namespace, en, key) {
                return hit;
            }
        }
        let ks = chars_of(key);
        string_from_chars(ks.as_slice())
    }

    /// Every `(namespace, locale)` pair installed, sorted.
    pub fn pairs(&self) -> (r: Vec<(String, String)>)
        ensures
            pairs_sorted(pair_views(r@)),
            forall|p: (Seq<char>, Seq<char>)| pair_views(r@).contains(p) <==> exists|m: int|
                0 <= m < self@.len() && (#[trigger] self@[m]).0 == p.0 && self@[m].1 == p.1,
    {
        let ghost s = self@;
        let mut out: Vec<(String, String)> = Vec::new();
        assert(pair_views(out@) =~= seq![]);
        let mut j: usize = 0;
        while j < self.bundles.len()
            invariant
                j <= self.bundles@.len(),
                s == self@,
                s.len() == self.bundles@.len(),
                pairs_sorted(pair_views(out@)),
                forall|p: (Seq<char>, Seq<char>)| pair_views(out@).contains(p) <==> exists|m: int|
                    0 <= m < j && (#[trigger] s[m]).0 == p.0 && s[m].1 == p.1,
            decreases self.bundles@.len() - j,
        {
            let b = &self.bundles[j];
            assert(s[j as int] == b.view());
            let ghost before = pair_views(out@);
            insert_sorted_pair(&mut out, (b.namespace.clone(), b.locale.clone()));
            assert forall|p: (Seq<char>, Seq<char>)| pair_views(out@).contains(p) <==> exists|m: int|
                0 <= m < j + 1 && (#[trigger] s[m]).0 == p.0 && s[m].1 == p.1 by {
                if p == (s[j as int].0, s[j as int].1) {
                    assert(s[j as int].0 == p.0 && s[j as int].1 == p.1);
                }
                if exists|m: int| 0 <= m < j + 1 && (#[trigger] s[m]).0 == p.0 && s[m].1 == p.1 {
                    let m = choose|m: int| 0 <= m < j + 1 && (#[trigger] s[m]).0 == p.0 && s[m].1 == p.1;
                    if m < j {
                        assert(before.contains(p));
                    }
                }
            }
            j += 1;
        }
        out
    }

    /// The keys of the `(namespace, locale)` bundle, sorted; empty when there is no such bundle.
    pub fn keys(&self, namespace: &str, locale: &str) -> (r: Vec<String>)
        ensures
            strictly_sorted(views(r@)),
            forall|k: Seq<char>| views(r@).contains(k) <==> lookup_spec(self@, namespace@, locale@, k).is_some(),
    {
        let mut out: Vec<String> = Vec::new();
        assert(views(out@) =~= seq![]);
        match self.position(namespace, locale) {
            Some(i) => {
                let b = &self.bundles[i];
                assert(self@[i as int] == b.view());
                let ghost es = pair_views(b.entries@);
                let mut j: usize = 0;
                while j < b.entries.len()
                    invariant
                        j <= b.entries@.len(),
                        es == pair_views(b.entries@),
                        strictly_sorted(views(out@)),
                        forall|k: Seq<char>| views(out@).contains(k) <==> exists|m: int| 0 <= m < j && (#[trigger] es[m]).0 == k,
                    decreases b.entries@.len() - j,
                {
                    let ghost before = views(out@);
                    insert_sorted(&mut out, b.entries[j].0.clone());
                    assert(es[j as int].0 == b.entries@[j as int].0@);
                    assert forall|k: Seq<char>| views(out@).contains(k) <==> exists|m: int| 0 <= m < j + 1 && (#[trigger] es[m]).0 == k by {
                        if exists|m: int| 0 <= m < j + 1 && (#[trigger] es[m]).0 == k {
                            let m = choose|m: int| 0 <= m < j + 1 && (#[trigger] es[m]).0 == k;
                            if m < j {
                                assert(before.contains(k));
                            }
                        }
                    }
                    j += 1;
                }
                proof {
                    assert forall|k: Seq<char>| views(out@).contains(k) <==> lookup_spec(self@, namespace@, locale@, k).is_some() by {
                        lemma_entry_index(es, k);
                        if exists|m: int| 0 <= m < es.len() && (#[trigger] es[m]).0 == k {
                            let m = choose|m: int| 0 <= m < es.len() && (#[trigger] es[m]).0 == k;
                            assert(es[m].0 == k);
                        }
                    }
                }
            },
            None => {},
        }
        out
    }

    /// The locales installed for `namespace`, sorted.
    pub fn locales_for(&self, namespace: &str) -> (r: Vec<String>)
        ensures
            strictly_sorted(views(r@)),
            forall|l: Seq<char>| views(r@).contains(l) <==> exists|m: int|
                0 <= m < self@.len() && (#[trigger] self@[m]).0 == namespace@ && self@[m].1 == l,
    {
        let ghost s = self@;
        let mut out: Vec<String> = Vec::new();
        assert(views(out@) =~= seq![]);
        let mut j: usize = 0;
        while j < self.bundles.len()
            invariant
                j <= self.bundles@.len(),
                s == self@,
                s.len() == self.bundles@.len(),
                strictly_sorted(views(out@)),
                forall|l: Seq<char>| views(out@).contains(l) <==> exists|m: int|
                    0 <= m < j && (#[trigger] s[m]).0 == namespace@ && s[m].1 == l,
            decreases self.bundles@.len() - j,
        {
            let b = &self.bundles[j];
            assert(s[j as int] == b.view());
            let ghost before = views(out@);
            if str_eq(b.namespace.as_str(), namespace) {
                insert_sorted(&mut out, b.locale.clone());
            }
            assert forall|l: Seq<char>| views(out@).contains(l) <==> exists|m: int|
                0 <= m < j + 1 && (#[trigger] s[m]).0 == namespace@ && s[m].1 == l by {
                if exists|m: int| 0 <= m < j + 1 && (#[trigger] s[m]).0 == namespace@ && s[m].1 == l {
                    let m = choose|m: int| 0 <= m < j + 1 && (#[trigger] s[m]).0 == namespace@ && s[m].1 == l;
                    if m < j {
                        assert(before.contains(l));
                    }
                }
            }
            j += 1;
        }
        out
    }

    /// Keys that the `(namespace, "en")` bundle has and the `(namespace, locale)` bundle lacks, sorted.
    pub fn missing(&self, namespace: &str, locale: &str) -> (r: Vec<String>)
        ensures
            strictly_sorted(views(r@)),
            forall|k: Seq<char>| views(r@).contains(k) <==> (lookup_spec(self@, namespace@, english(), k).is_some()
                && lookup_spec(self@, namespace@, locale@, k).is_none()),
    {
        let en = "en";
        proof {
            reveal_strlit("en");
        }
        assert(en@ =~= english());
        let en_keys = self.keys(namespace, en);
        let here = self.keys(namespace, locale);
        let mut out: Vec<String> = Vec::new();
        assert(views(out@) =~= seq![]);
        let ghost ek = views(en_keys@);
        let mut j: usize = 0;
        while j < en_keys.len()
            invariant
                j <= en_keys@.len(),
                ek == views(en_keys@),
                strictly_sorted(views(out@)),
                forall|k: Seq<char>| views(out@).contains(k) <==> (exists|m: int| 0 <= m < j && #[trigger] ek[m] == k)
                    && !views(here@).contains(k),
            decreases en_keys@.len() - j,
        {
            let ghost before = views(out@);
            let present = contains_string(&here, en_keys[j].as_str());
            proof {
                lemma_has_view(here@, en_keys@[j as int]@);
            }
            if !present {
                insert_sorted(&mut out, en_keys[j].clone());
            }
            assert forall|k: Seq<char>| views(out@).contains(k) <==> (exists|m: int| 0 <= m < j + 1 && #[trigger] ek[m] == k)
                && !views(here@).contains(k) by {
                if exists|m: int| 0 <= m < j + 1 && #[trigger] ek[m] == k {
                    let m = choose|m: int| 0 <= m < j + 1 && #[trigger] ek[m] == k;
                    if m < j {
                        assert(exists|m: int| 0 <= m < j && #[trigger] ek[m] == k);
                    }
                }
                if views(out@).contains(k) && !before.contains(k) {
                    assert(ek[j as int] == k);
                }
            }
            j += 1;
        }
        proof {
            assert forall|k: Seq<char>| views(out@).contains(k) <==> (lookup_spec(self@, namespace@, english(), k).is_some()
                && lookup_spec(self@, namespace@, locale@, k).is_none()) by {
                assert(ek.contains(k) == lookup_spec(self@, namespace@, en@, k).is_some());
                assert(views(here@).contains(k) == lookup_spec(self@, namespace@, locale@, k).is_some());
                if ek.contains(k) {
                    let m = choose|m: int| 0 <= m < ek.len() && ek[m] == k;
                    assert(ek[m] == k);
                }
            }
        }
        out
    }

    /// The resolved template of `key` with each closed `{token}` replaced by its argument;
    /// tokens without an argument, and an unclosed `{`, are kept as written.
    pub fn format(&self, namespace: &str, locale: &str, key: &str, args: &[(String, String)]) -> (r: String)
        ensures
            r@ == render(resolve_message(self@, namespace@, locale@, key@), pair_views(args@)),
    {
        let template = self.get(namespace, locale, key);
        let t = chars_of(template.as_str());
        let ghost a = pair_views(args@);
        let stops: Vec<char> = vec!['}'];
        assert(stops@ =~= seq!['}']);
        let mut out: Vec<char> = Vec::new();
        let mut i: usize = 0;
        assert(t@.skip(0) =~= t@);
        assert(out@ + render(t@, a) =~= render(t@, a));
        while i < t.len()
            invariant
                i <= t@.len(),
                stops@ == seq!['}'],
                a == pair_views(args@),
                out@ + render(t@.skip(i as int), a) == render(t@, a),
            decreases t@.len() - i,
        {
            let ghost u = t@.skip(i as int);
            let ghost before = out@;
            if t[i] != '{' {
                out.push(t[i]);
                proof {
                    assert(u[0] == t@[i as int]);
                    assert(u.drop_first() =~= t@.skip(i + 1));
                    assert(out@ + render(t@.skip(i + 1), a) =~= before + render(u, a));
                }
                i += 1;
            } else {
                let rest = slice_chars(t.as_slice(), i + 1, t.len());
                assert(rest@ =~= u.drop_first());
                let tok = before_any_chars(rest.as_slice(), stops.as_slice());
                if tok.len() < rest.len() {
                    proof {
                        lemma_before_any_len(rest@, seq!['}']);
                    }
                    let name = string_from_chars(tok.as_slice());
                    match argument(args, name.as_str()) {
                        Some(v) => {
                            let vc = chars_of(v.as_str());
                            append_chars(&mut out, vc.as_slice());
                        },
                        None => {
                            out.push('{');
                            append_chars(&mut out, tok.as_slice());
                            out.push('}');
                        },
                    }
                    proof {
                        assert(rest@.skip(tok@.len() as int + 1) =~= t@.skip(i + 1 + tok@.len() as int + 1));
                        assert(out@ =~= before + placeholder(tok@, a));
                        assert(out@ + render(t@.skip(i + 1 + tok@.len() as int + 1), a) =~= before + render(u, a));
                    }
                    i = i + 1 + tok.len() + 1;
                } else {
                    let tail = slice_chars(t.as_slice(), i, t.len());
                    append_chars(&mut out, tail.as_slice());
                    proof {
                        assert(tail@ =~= u);
                        assert(t@.skip(t@.len() as int) =~= seq![]);
                        assert(out@ + render(t@.skip(t@.len() as int), a) =~= before + render(u, a));
                    }
                    i = t.len();
                }
            }
        }
        string_from_chars(out.as_slice())
    }
}

// ─── laws ────────────────────────────────────────────────────────

/// Setting `k` answers `v` for `k` and leaves every other key as it was.
pub proof fn lemma_put_value(es: Seq<(Seq<char>, Seq<char>)>, k: Seq<char>, v: Seq<char>, q: Seq<char>)
    ensures
        value_of(put(es, k, v), q) == if q == k {
            Some(v)
        } else {
            value_of(es, q)
        },
{
    lemma_entry_index(es, k);
    lemma_entry_index(es, q);
    match entry_index(es, k) {
        Some(i) => {
            lemma_first_where_update(es, key_is(q), i, (k, v));
            if q != k {
                match entry_index(es, q) {
                    Some(j) => {
                        assert(j != i);
                    },
                    None => {},
                }
            }
        },
        None => {
            lemma_first_where_push(es, key_is(q), (k, v));
        },
    }
}

/// Setting a list of pairs: each key ends with the value of the last pair naming it.
pub proof fn lemma_put_all_value(es: Seq<(Seq<char>, Seq<char>)>, items: Seq<(Seq<char>, Seq<char>)>, q: Seq<char>)
    ensures
        value_of(put_all(es, items), q) == match last_value(items, q) {
            Some(v) => Some(v),
            None => value_of(es, q),
        },
    decreases items.len(),
{
    if items.len() > 0 {
        lemma_put_all_value(es, items.drop_last(), q);
        lemma_put_value(put_all(es, items.drop_last()), items.last().0, items.last().1, q);
    }
}

/// Installing a bundle: a key it names reads the value of its last pair for that key; every
/// other key, and every other `(namespace, locale)`, reads as before.
pub proof fn law_insert_then_lookup(
    s: Seq<(Seq<char>, Seq<char>, Seq<(Seq<char>, Seq<char>)>)>,
    spec: MessageSpec,
    ns: Seq<char>,
    loc: Seq<char>,
    k: Seq<char>,
)
    ensures
        lookup_spec(inserted(s, spec), ns, loc, k) == if ns == spec.namespace@ && loc == spec.locale@ {
            match last_value(pair_views(spec.strings@), k) {
                Some(v) => Some(v),
                None => lookup_spec(s, ns, loc, k),
            }
        } else {
            lookup_spec(s, ns, loc, k)
        },
{
    let ns0 = spec.namespace@;
    let loc0 = spec.locale@;
    let items = pair_views(spec.strings@);
    lemma_bundle_index(s, ns0, loc0);
    lemma_bundle_index(s, ns, loc);
    match bundle_index(s, ns0, loc0) {
        Some(i) => {
            let nb = (ns0, loc0, put_all(s[i].2, items));
            lemma_first_where_update(s, bundle_is(ns, loc), i, nb);
            if ns == ns0 && loc == loc0 {
                lemma_put_all_value(s[i].2, items, k);
            } else {
                match bundle_index(s, ns, loc) {
                    Some(j) => {
                        assert(j != i);
                    },
                    None => {},
                }
            }
        },
        None => {
            let nb = (ns0, loc0, put_all(seq![], items));
            lemma_first_where_push(s, bundle_is(ns, loc), nb);
            if ns == ns0 && loc == loc0 {
                lemma_put_all_value(seq![], items, k);
                lemma_entry_index(seq![], k);
            }
        },
    }
}

/// With no key named twice, the last value for a pair's key is that pair's value.
proof fn lemma_last_value_distinct(items: Seq<(Seq<char>, Seq<char>)>, i: int)
    requires
        0 <= i < items.len(),
        forall|a: int, b: int| 0 <= a < b < items.len() ==> #[trigger] items[a].0 != #[trigger] items[b].0,
    ensures
        last_value(items, items[i].0) == Some(items[i].1),
    decreases items.len(),
{
    if i < items.len() - 1 {
        let d = items.drop_last();
        assert(items[i].0 != items[items.len() - 1].0);
        assert forall|a: int, b: int| 0 <= a < b < d.len() implies #[trigger] d[a].0 != #[trigger] d[b].0 by {
            assert(d[a] == items[a] && d[b] == items[b]);
        }
        lemma_last_value_distinct(d, i);
        assert(d[i] == items[i]);
    }
}

/// Installing a bundle whose keys are all different: each of its pairs reads back, and the
/// registry holds one more bundle exactly when it had none for that namespace and locale.
pub proof fn law_insert_pairs_read_back(
    s: Seq<(Seq<char>, Seq<char>, Seq<(Seq<char>, Seq<char>)>)>,
    spec: MessageSpec,
    i: int,
)
    requires
        0 <= i < spec.strings@.len(),
        forall|a: int, b: int|
            0 <= a < b < spec.strings@.len() ==> #[trigger] spec.strings@[a].0@ != #[trigger] spec.strings@[b].0@,
    ensures
        lookup_spec(inserted(s, spec), spec.namespace@, spec.locale@, spec.strings@[i].0@) == Some(
            spec.strings@[i].1@,
        ),
        inserted(s, spec).len() == s.len() + if bundle_index(s, spec.namespace@, spec.locale@) is None {
            1int
        } else {
            0int
        },
{
    let items = pair_views(spec.strings@);
    assert(items.len() == spec.strings@.len());
    assert forall|a: int, b: int| 0 <= a < b < items.len() implies #[trigger] items[a].0 != #[trigger] items[b].0 by {
        assert(items[a].0 == spec.strings@[a].0@);
        assert(items[b].0 == spec.strings@[b].0@);
    }
    lemma_last_value_distinct(items, i);
    law_insert_then_lookup(s, spec, spec.namespace@, spec.locale@, spec.strings@[i].0@);
    lemma_bundle_index(s, spec.namespace@, spec.locale@);
}

/// A template without `{` is its own rendering, whatever the arguments.
pub proof fn law_plain_text_renders_unchanged(t: Seq<char>, args: Seq<(Seq<char>, Seq<char>)>)
    requires
        !t.contains('{'),
    ensures
        render(t, args) == t,
    decreases t.len(),
{
    if t.len() > 0 {
        assert(t[0] != '{');
        let r = t.drop_first();
        assert(!r.contains('{')) by {
            if r.contains('{') {
                let j = choose|j: int| 0 <= j < r.len() && r[j] == '{';
                assert(t[j + 1] == '{');
            }
        }
        law_plain_text_renders_unchanged(r, args);
        assert(seq![t[0]] + r =~= t);
    }
}

} // verus!
