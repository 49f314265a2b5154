//! Ordered, name-keyed collections shared by the policy registries.
use vstd::prelude::*;

use crate::extension::glob::{host_field_matches, host_pattern_matches};
use crate::text::{chars_eq, chars_of, str_eq};

verus! {

/// A profile that is identified by its `name`.
pub trait Named {
    spec fn key(&self) -> Seq<char>;

    fn name_ref(&self) -> (r: &str)
        ensures
            r@ == self.key();
}

/// An item is named otherwise than `n`.
pub open spec fn key_differs<T: Named>(n: Seq<char>) -> spec_fn(T) -> bool {
    |x: T| x.key() != n
}

/// An item is named `n`.
pub open spec fn key_equals<T: Named>(n: Seq<char>) -> spec_fn(T) -> bool {
    |x: T| x.key() == n
}

/// `s` without the items whose name is `n`, in the original order.
pub open spec fn without_key<T: Named>(s: Seq<T>, n: Seq<char>) -> Seq<T> {
    s.filter(key_differs(n))
}

/// `s` with `item` replacing every entry of the same name, moved to the end.
pub open spec fn upserted<T: Named>(s: Seq<T>, item: T) -> Seq<T> {
    without_key(s, item.key()).push(item)
}

/// No two entries of `s` share a name.
pub open spec fn keys_unique<T: Named>(s: Seq<T>) -> bool {
    forall|i: int, j: int| 0 <= i < s.len() && 0 <= j < s.len() && i != j ==> s[i].key() != s[j].key()
}

/// Index of the first entry of `s` satisfying `p`.
pub open spec fn first_where<T>(s: Seq<T>, p: spec_fn(T) -> bool) -> Option<int>
    decreases s.len(),
{
    if s.len() == 0 {
        None
    } else if p(s[0]) {
        Some(0)
    } else {
        match first_where(s.drop_first(), p) {
            Some(i) => Some(i + 1),
            None => None,
        }
    }
}

/// Index of the first entry named `n`.
pub open spec fn index_of_key<T: Named>(s: Seq<T>, n: Seq<char>) -> Option<int> {
    first_where(s, key_equals(n))
}

/// `first_where` names the first satisfying index.
pub proof fn lemma_first_where_found<T>(s: Seq<T>, p: spec_fn(T) -> bool, i: int)
    requires
        0 <= i < s.len(),
        p(s[i]),
        forall|j: int| 0 <= j < i ==> !p(s[j]),
    ensures
        first_where(s, p) == Some(i),
    decreases s.len(),
{
    if i > 0 {
        let t = s.drop_first();
        assert forall|j: int| 0 <= j < i - 1 implies !p(t[j]) by {
            assert(t[j] == s[j + 1]);
        }
        lemma_first_where_found(t, p, i - 1);
    }
}

/// `first_where` is `None` when nothing satisfies the predicate.
pub proof fn lemma_first_where_none<T>(s: Seq<T>, p: spec_fn(T) -> bool)
    requires
        forall|j: int| 0 <= j < s.len() ==> !p(s[j]),
    ensures
        first_where(s, p).is_none(),
    decreases s.len(),
{
    if s.len() > 0 {
        let t = s.drop_first();
        assert forall|j: int| 0 <= j < t.len() implies !p(t[j]) by {
            assert(t[j] == s[j + 1]);
        }
        lemma_first_where_none(t, p);
    }
}

/// The index that `first_where` returns satisfies the predicate, and no earlier one does.
pub proof fn lemma_first_where_spec<T>(s: Seq<T>, p: spec_fn(T) -> bool)
    ensures
        match first_where(s, p) {
            Some(i) => 0 <= i < s.len() && p(s[i]) && forall|j: int| 0 <= j < i ==> !p(s[j]),
            None => forall|j: int| 0 <= j < s.len() ==> !p(s[j]),
        },
    decreases s.len(),
{
    if s.len() > 0 {
        let t = s.drop_first();
        lemma_first_where_spec(t, p);
        if !p(s[0]) {
            match first_where(t, p) {
                Some(i) => {
                    assert forall|j: int| 0 <= j < i + 1 implies !p(s[j]) by {
                        if j > 0 {
                            assert(s[j] == t[j - 1]);
                        }
                    }
                },
                None => {
                    assert forall|j: int| 0 <= j < s.len() implies !p(s[j]) by {
                        if j > 0 {
                            assert(s[j] == t[j - 1]);
                        }
                    }
                },
            }
        }
    }
}

/// Replacing an entry by one that the predicate judges alike leaves the first match in place.
pub proof fn lemma_first_where_update<T>(s: Seq<T>, p: spec_fn(T) -> bool, i: int, x: T)
    requires
        0 <= i < s.len(),
        p(x) == p(s[i]),
    ensures
        first_where(s.update(i, x), p) == first_where(s, p),
{
    let t = s.update(i, x);
    lemma_first_where_spec(s, p);
    match first_where(s, p) {
        Some(k) => {
            assert forall|j: int| 0 <= j < k implies !p(t[j]) by {
                if j != i {
                    assert(t[j] == s[j]);
                }
            }
            if k != i {
                assert(t[k] == s[k]);
            }
            lemma_first_where_found(t, p, k);
        },
        None => {
            assert forall|j: int| 0 <= j < t.len() implies !p(t[j]) by {
                if j != i {
                    assert(t[j] == s[j]);
                }
            }
            lemma_first_where_none(t, p);
        },
    }
}

/// Appending an entry only matters when nothing earlier matched.
pub proof fn lemma_first_where_push<T>(s: Seq<T>, p: spec_fn(T) -> bool, x: T)
    ensures
        first_where(s.push(x), p) == match first_where(s, p) {
            Some(k) => Some(k),
            None => if p(x) {
                Some(s.len() as int)
            } else {
                None
            },
        },
{
    let t = s.push(x);
    lemma_first_where_spec(s, p);
    match first_where(s, p) {
        Some(k) => {
            assert forall|j: int| 0 <= j < k implies !p(t[j]) by {
                assert(t[j] == s[j]);
            }
            assert(t[k] == s[k]);
            lemma_first_where_found(t, p, k);
        },
        None => {
            assert forall|j: int| 0 <= j < s.len() implies !p(t[j]) by {
                assert(t[j] == s[j]);
            }
            if p(x) {
                lemma_first_where_found(t, p, s.len() as int);
            } else {
                lemma_first_where_none(t, p);
            }
        },
    }
}

/// Filtering one more element at the end.
pub proof fn lemma_filter_push<T>(s: Seq<T>, x: T, p: spec_fn(T) -> bool)
    ensures
        s.push(x).filter(p) == if p(x) { s.filter(p).push(x) } else { s.filter(p) },
{
    reveal_with_fuel(Seq::<_>::filter, 1);
    assert(s.push(x).drop_last() =~= s);
}

/// Filtering a sequence whose items all pass keeps it whole.
proof fn lemma_filter_all<T>(s: Seq<T>, p: spec_fn(T) -> bool)
    requires
        forall|j: int| 0 <= j < s.len() ==> p(s[j]),
    ensures
        s.filter(p) == s,
    decreases s.len(),
{
    reveal_with_fuel(Seq::<_>::filter, 1);
    if s.len() > 0 {
        lemma_filter_all(s.drop_last(), p);
        assert(s.drop_last().push(s.last()) =~= s);
    }
}

/// Every item of `without_key(s, n)` has another name.
proof fn lemma_without_key_names<T: Named>(s: Seq<T>, n: Seq<char>)
    ensures
        forall|j: int| 0 <= j < without_key(s, n).len() ==> #[trigger] without_key(s, n)[j].key() != n,
{
    let pred = key_differs::<T>(n);
    assert forall|j: int| 0 <= j < without_key(s, n).len() implies #[trigger] without_key(s, n)[j].key() != n by {
        s.lemma_filter_pred(pred, j);
    }
}

/// Removing by name: no entry of that name is left, and the list got shorter exactly when an
/// entry had that name.
pub proof fn law_remove_key<T: Named>(s: Seq<T>, n: Seq<char>)
    ensures
        index_of_key(without_key(s, n), n) is None,
        without_key(s, n).len() <= s.len(),
        (without_key(s, n).len() < s.len()) == (exists|i: int| 0 <= i < s.len() && #[trigger] s[i].key() == n),
    decreases s.len(),
{
    lemma_without_key_names(s, n);
    let w = without_key(s, n);
    assert forall|j: int| 0 <= j < w.len() implies !key_equals::<T>(n)(#[trigger] w[j]) by {}
    lemma_first_where_none(w, key_equals::<T>(n));
    if s.len() > 0 {
        let d = s.drop_last();
        law_remove_key(d, n);
        assert(d.push(s.last()) =~= s);
        lemma_filter_push(d, s.last(), key_differs::<T>(n));
        if s.last().key() == n {
            assert(s[s.len() - 1].key() == n);
        } else {
            if exists|i: int| 0 <= i < s.len() && #[trigger] s[i].key() == n {
                let i = choose|i: int| 0 <= i < s.len() && #[trigger] s[i].key() == n;
                assert(i < s.len() - 1);
                assert(d[i] == s[i]);
            }
            if exists|i: int| 0 <= i < d.len() && #[trigger] d[i].key() == n {
                let i = choose|i: int| 0 <= i < d.len() && #[trigger] d[i].key() == n;
                assert(s[i] == d[i]);
            }
        }
    } else {
        assert(s.filter(key_differs::<T>(n)).len() == 0) by {
            reveal_with_fuel(Seq::<_>::filter, 1);
        }
    }
}

/// The first item that `p` picks survives a filter by any `q` that `p` implies.
proof fn lemma_first_where_filter<T>(s: Seq<T>, p: spec_fn(T) -> bool, q: spec_fn(T) -> bool)
    requires
        forall|x: T| #[trigger] p(x) ==> q(x),
    ensures
        match first_where(s, p) {
            Some(i) => match first_where(s.filter(q), p) {
                Some(j) => 0 <= j < s.filter(q).len() && s.filter(q)[j] == s[i],
                None => false,
            },
            None => first_where(s.filter(q), p) is None,
        },
    decreases s.len(),
{
    reveal_with_fuel(Seq::<_>::filter, 1);
    if s.len() == 0 {
        lemma_first_where_none(s.filter(q), p);
    } else {
        let t = s.drop_last();
        let x = s.last();
        assert(t.push(x) =~= s);
        lemma_first_where_filter(t, p, q);
        lemma_first_where_push(t, p, x);
        lemma_first_where_spec(t, p);
        lemma_first_where_spec(t.filter(q), p);
        if q(x) {
            lemma_first_where_push(t.filter(q), p, x);
        }
    }
}

/// Inserting into a registry and then looking the name up gives back what was inserted: it is
/// the last entry, and the first one with that name.
pub proof fn law_upsert_then_lookup<T: Named>(s: Seq<T>, item: T)
    ensures
        upserted(s, item).last() == item,
        index_of_key(upserted(s, item), item.key()) == Some(upserted(s, item).len() - 1),
{
    let n = item.key();
    let w = without_key(s, n);
    lemma_without_key_names(s, n);
    let p = key_equals::<T>(n);
    assert forall|j: int| 0 <= j < w.len() implies !p(w[j]) by {
        assert(w[j].key() != n);
    }
    lemma_first_where_none(w, p);
    lemma_first_where_push(w, p, item);
}

/// Inserting two entries of the same name leaves what inserting the second alone leaves: the
/// later one wins, and no duplicate is kept.
pub proof fn law_upsert_latest_wins<T: Named>(s: Seq<T>, a: T, b: T)
    requires
        a.key() == b.key(),
    ensures
        upserted(upserted(s, a), b) == upserted(s, b),
{
    let n = a.key();
    let pred = key_differs::<T>(n);
    let w = without_key(s, n);
    lemma_without_key_names(s, n);
    lemma_filter_push(w, a, pred);
    assert forall|j: int| 0 <= j < w.len() implies pred(w[j]) by {
        assert(w[j].key() != n);
    }
    lemma_filter_all(w, pred);
}

/// Inserting an entry leaves the lookup of every other name unchanged.
pub proof fn law_upsert_keeps_others<T: Named>(s: Seq<T>, item: T, n: Seq<char>)
    requires
        n != item.key(),
    ensures
        match index_of_key(s, n) {
            Some(i) => match index_of_key(upserted(s, item), n) {
                Some(j) => upserted(s, item)[j] == s[i],
                None => false,
            },
            None => index_of_key(upserted(s, item), n) is None,
        },
{
    let k = item.key();
    let p = key_equals::<T>(n);
    let q = key_differs::<T>(k);
    assert forall|x: T| #[trigger] p(x) implies q(x) by {}
    lemma_first_where_filter(s, p, q);
    let w = s.filter(q);
    lemma_first_where_push(w, p, item);
    lemma_first_where_spec(w, p);
}

/// Inserting keeps the names of a registry distinct.
pub proof fn law_upsert_keeps_names_unique<T: Named>(s: Seq<T>, item: T)
    requires
        keys_unique(s),
    ensures
        keys_unique(upserted(s, item)),
{
    let n = item.key();
    let w = without_key(s, n);
    lemma_without_key_names(s, n);
    lemma_filter_keeps_unique(s, key_differs::<T>(n));
    let u = w.push(item);
    assert forall|i: int, j: int| 0 <= i < u.len() && 0 <= j < u.len() && i != j implies u[i].key() != u[j].key() by {
        if i < w.len() && j < w.len() {
            assert(u[i] == w[i] && u[j] == w[j]);
        } else if i < w.len() {
            assert(u[i] == w[i]);
            assert(w[i].key() != n);
        } else {
            assert(u[j] == w[j]);
            assert(w[j].key() != n);
        }
    }
}

/// A filter keeps distinct names distinct.
proof fn lemma_filter_keeps_unique<T: Named>(s: Seq<T>, q: spec_fn(T) -> bool)
    requires
        keys_unique(s),
    ensures
        keys_unique(s.filter(q)),
    decreases s.len(),
{
    reveal_with_fuel(Seq::<_>::filter, 1);
    if s.len() > 0 {
        let t = s.drop_last();
        let x = s.last();
        assert(keys_unique(t)) by {
            assert forall|i: int, j: int| 0 <= i < t.len() && 0 <= j < t.len() && i != j implies t[i].key() != t[j].key() by {
                assert(t[i] == s[i] && t[j] == s[j]);
            }
        }
        lemma_filter_keeps_unique(t, q);
        if q(x) {
            let f = t.filter(q);
            let g = f.push(x);
            assert forall|i: int, j: int| 0 <= i < g.len() && 0 <= j < g.len() && i != j implies g[i].key() != g[j].key() by {
                if i < f.len() && j < f.len() {
                    assert(g[i] == f[i] && g[j] == f[j]);
                } else {
                    let m = if i < f.len() { i } else { j };
                    assert(g[m] == f[m]);
                    t.lemma_filter_contains_rev(q, f[m]);
                    let r = choose|r: int| 0 <= r < t.len() && t[r] == f[m];
                    assert(s[r] == t[r]);
                    assert(s[s.len() - 1] == x);
                }
            }
        }
    }
}

/// Removes every entry named `n`, keeping the others in order.
pub fn remove_key<T: Named>(v: &mut Vec<T>, n: &str)
    ensures
        final(v)@ == without_key(old(v)@, n@),
{
    let ghost pred = key_differs::<T>(n@);
    let ghost orig = v@;
    let mut i: usize = 0;
    let ghost mut j: int = 0;
    while i < v.len()
        invariant
            0 <= i <= v@.len(),
            0 <= j <= orig.len(),
            v@.take(i as int) == orig.take(j).filter(pred),
            v@.skip(i as int) == orig.skip(j),
            v@.len() - i == orig.len() - j,
            pred == key_differs::<T>(n@),
        decreases v@.len() - i,
    {
        let same = str_eq(v[i].name_ref(), n);
        proof {
            assert(orig.take(j + 1) =~= orig.take(j).push(orig[j]));
            assert(orig[j] == v@[i as int]) by {
                assert(v@.skip(i as int)[0] == orig.skip(j)[0]);
            }
            lemma_filter_push(orig.take(j), orig[j], pred);
        }
        if same {
            let ghost before = v@;
            let _removed = v.remove(i);
            proof {
                assert(v@.take(i as int) =~= before.take(i as int));
                assert(v@.skip(i as int) =~= before.skip(i as int).drop_first());
                assert(orig.skip(j + 1) =~= orig.skip(j).drop_first());
                j = j + 1;
            }
        } else {
            proof {
                assert(v@.take(i + 1) =~= v@.take(i as int).push(v@[i as int]));
                assert(v@.skip(i + 1) =~= v@.skip(i as int).drop_first());
                assert(orig.skip(j + 1) =~= orig.skip(j).drop_first());
                j = j + 1;
            }
            i += 1;
        }
    }
    proof {
        assert(v@.skip(i as int).len() == 0);
        assert(orig.skip(j).len() == 0);
        assert(orig.take(j) =~= orig);
        assert(v@.take(i as int) =~= v@);
    }
}

/// Inserts `item`, replacing any entry of the same name.
pub fn upsert<T: Named>(v: &mut Vec<T>, item: T)
    ensures
        final(v)@ == upserted(old(v)@, item),
{
    let n = item.name_ref();
    remove_key(v, n);
    v.push(item);
}

/// `s` after upserting each of `items` in order.
pub open spec fn upserted_all<T: Named>(s: Seq<T>, items: Seq<T>) -> Seq<T>
    decreases items.len(),
{
    if items.len() == 0 {
        s
    } else {
        upserted(upserted_all(s, items.drop_last()), items.last())
    }
}

/// Upserts every item of `items`, in order.
pub fn upsert_all<T: Named>(v: &mut Vec<T>, items: Vec<T>)
    ensures
        final(v)@ == upserted_all(old(v)@, items@),
{
    let ghost start = v@;
    let ghost all = items@;
    for item in it: items
        invariant
            it.seq() == all,
            v@ == upserted_all(start, all.take(it.index() as int)),
    {
        proof {
            let k = it.index() as int;
            assert(all.take(k + 1).drop_last() =~= all.take(k));
            assert(all.take(k + 1).last() == all[k]);
        }
        upsert(v, item);
    }
    proof {
        assert(all.take(all.len() as int) =~= all);
    }
}

/// Index of the first entry named `n`.
pub fn find_key<T: Named>(v: &Vec<T>, n: &str) -> (r: Option<usize>)
    ensures
        match r {
            Some(i) => index_of_key(v@, n@) == Some(i as int),
            None => index_of_key(v@, n@).is_none(),
        },
{
    let ghost pred = key_equals::<T>(n@);
    let mut i: usize = 0;
    while i < v.len()
        invariant
            i <= v@.len(),
            forall|j: int| 0 <= j < i ==> !pred(v@[j]),
            pred == key_equals::<T>(n@),
        decreases v@.len() - i,
    {
        if str_eq(v[i].name_ref(), n) {
            proof {
                lemma_first_where_found(v@, pred, i as int);
            }
            return Some(i);
        }
        i += 1;
    }
    proof {
        lemma_first_where_none(v@, pred);
    }
    None
}

/// A profile scoped to hosts by a pattern field, which may be switched off.
pub trait HostScoped {
    spec fn scope(&self) -> Seq<char>;

    spec fn active(&self) -> bool;

    fn scope_ref(&self) -> (r: &str)
        ensures
            r@ == self.scope();

    fn is_active(&self) -> (r: bool)
        ensures
            r == self.active();
}

/// An active profile whose pattern is neither empty nor `*` and admits `host`.
pub open spec fn is_specific_for<T: HostScoped>(s: T, host: Seq<char>) -> bool {
    s.active() && s.scope().len() > 0 && s.scope() != seq!['*'] && host_field_matches(s.scope(), host)
}

/// An active profile whose pattern admits `host`.
pub open spec fn is_fallback_for<T: HostScoped>(s: T, host: Seq<char>) -> bool {
    s.active() && host_field_matches(s.scope(), host)
}

/// A profile is a host-specific match for `host`.
pub open spec fn specific_for<T: HostScoped>(host: Seq<char>) -> spec_fn(T) -> bool {
    |x: T| is_specific_for(x, host)
}

/// A profile admits `host`.
pub open spec fn fallback_for<T: HostScoped>(host: Seq<char>) -> spec_fn(T) -> bool {
    |x: T| is_fallback_for(x, host)
}

/// The profile that applies to `host`: the first host-specific one, else the first that admits it.
pub open spec fn resolve_scoped<T: HostScoped>(s: Seq<T>, host: Seq<char>) -> Option<int> {
    match first_where(s, specific_for(host)) {
        Some(i) => Some(i),
        None => first_where(s, fallback_for(host)),
    }
}

/// Whether `s` is a host-specific match for `host`.
fn specific_exec<T: HostScoped>(s: &T, host: &str) -> (r: bool)
    ensures
        r == is_specific_for(*s, host@),
{
    if !s.is_active() {
        return false;
    }
    let f = chars_of(s.scope_ref());
    if f.len() == 0 {
        return false;
    }
    let star: Vec<char> = vec!['*'];
    assert(star@ =~= seq!['*']);
    if chars_eq(f.as_slice(), star.as_slice()) {
        return false;
    }
    host_pattern_matches(s.scope_ref(), host)
}

/// Index of the profile that applies to `host`.
pub fn resolve_index<T: HostScoped>(v: &Vec<T>, host: &str) -> (r: Option<usize>)
    ensures
        match r {
            Some(k) => resolve_scoped(v@, host@) == Some(k as int) && k < v@.len(),
            None => resolve_scoped(v@, host@).is_none(),
        },
{
    let ghost sp = specific_for::<T>(host@);
    let ghost fp = fallback_for::<T>(host@);
    let mut i: usize = 0;
    while i < v.len()
        invariant
            i <= v@.len(),
            forall|j: int| 0 <= j < i ==> !sp(v@[j]),
            sp == specific_for::<T>(host@),
        decreases v@.len() - i,
    {
        if specific_exec(&v[i], host) {
            proof {
                lemma_first_where_found(v@, sp, i as int);
            }
            return Some(i);
        }
        i += 1;
    }
    proof {
        lemma_first_where_none(v@, sp);
    }
    let mut i: usize = 0;
    while i < v.len()
        invariant
            i <= v@.len(),
            forall|j: int| 0 <= j < i ==> !fp(v@[j]),
            fp == fallback_for::<T>(host@),
            first_where(v@, sp).is_none(),
            sp == specific_for::<T>(host@),
        decreases v@.len() - i,
    {
        if v[i].is_active() && host_pattern_matches(v[i].scope_ref(), host) {
            proof {
                lemma_first_where_found(v@, fp, i as int);
            }
            return Some(i);
        }
        i += 1;
    }
    proof {
        lemma_first_where_none(v@, fp);
    }
    None
}

/// A host-scoped registry only ever resolves to an enabled profile whose pattern admits the
/// host, and resolves to nothing only when no enabled profile admits it: a disabled profile never
/// resolves.
pub proof fn law_resolved_profile_admits_host<T: HostScoped>(s: Seq<T>, host: Seq<char>)
    ensures
        match resolve_scoped(s, host) {
            Some(i) => 0 <= i < s.len() && s[i].active() && host_field_matches(s[i].scope(), host),
            None => forall|j: int| 0 <= j < s.len() ==> !(s[j].active() && host_field_matches(s[j].scope(), host)),
        },
{
    lemma_first_where_spec(s, specific_for::<T>(host));
    lemma_first_where_spec(s, fallback_for::<T>(host));
}

/// A profile naming a specific host pattern wins over catch-all ones: whenever an enabled
/// specific profile admits the host, the resolved profile is the first such one.
pub proof fn law_specific_beats_catch_all<T: HostScoped>(s: Seq<T>, host: Seq<char>, k: int)
    requires
        0 <= k < s.len(),
        is_specific_for(s[k], host),
    ensures
        match resolve_scoped(s, host) {
            Some(i) => i <= k && is_specific_for(s[i], host) && forall|j: int| 0 <= j < i ==> !is_specific_for(s[j], host),
            None => false,
        },
{
    lemma_first_where_spec(s, specific_for::<T>(host));
}

} // verus!
