//! Lexicographic order on strings and sorted, duplicate-free string lists.
use vstd::prelude::*;

use crate::text::{chars_eq, chars_of, str_eq, views};

verus! {

/// `a` sorts before `b` when both are compared from index `i` on, code point by code point.
pub open spec fn lex_lt_from(a: Seq<char>, b: Seq<char>, i: nat) -> bool
    decreases a.len() - i,
{
    if i >= a.len() {
        i < b.len()
    } else if i >= b.len() {
        false
    } else if a[i as int] != b[i as int] {
        a[i as int] < b[i as int]
    } else {
        lex_lt_from(a, b, i + 1)
    }
}

/// `a` sorts strictly before `b`, as `str` ordering does.
pub open spec fn lex_lt(a: Seq<char>, b: Seq<char>) -> bool {
    lex_lt_from(a, b, 0)
}

/// No string sorts before itself.
pub proof fn lemma_lex_irreflexive(a: Seq<char>, i: nat)
    ensures
        !lex_lt_from(a, a, i),
    decreases a.len() - i,
{
    if i < a.len() {
        lemma_lex_irreflexive(a, i + 1);
    }
}

/// The order is transitive.
pub proof fn lemma_lex_transitive(a: Seq<char>, b: Seq<char>, c: Seq<char>, i: nat)
    requires
        lex_lt_from(a, b, i),
        lex_lt_from(b, c, i),
    ensures
        lex_lt_from(a, c, i),
    decreases a.len() - i,
{
    if i < a.len() && i < b.len() && i < c.len() && a[i as int] == b[i as int] && b[i as int] == c[i as int] {
        lemma_lex_transitive(a, b, c, i + 1);
    }
}

/// Two different strings are ordered one way or the other.
pub proof fn lemma_lex_total(a: Seq<char>, b: Seq<char>, i: nat)
    requires
        i <= a.len(),
        i <= b.len(),
    ensures
        lex_lt_from(a, b, i) || lex_lt_from(b, a, i) || (a.len() == b.len() && forall|k: int|
            i <= k < a.len() ==> a[k] == b[k]),
    decreases a.len() - i,
{
    if i < a.len() && i < b.len() && a[i as int] == b[i as int] {
        lemma_lex_total(a, b, i + 1);
        if a.len() == b.len() && forall|k: int| i + 1 <= k < a.len() ==> a[k] == b[k] {
            assert forall|k: int| i <= k < a.len() implies a[k] == b[k] by {
                if k > i {
                    assert(i + 1 <= k);
                }
            }
        }
    }
}

/// Different strings are ordered one way or the other.
pub proof fn lemma_lex_trichotomy(a: Seq<char>, b: Seq<char>)
    ensures
        a == b || lex_lt(a, b) || lex_lt(b, a),
        !(lex_lt(a, b) && lex_lt(b, a)),
        !lex_lt(a, a),
{
    lemma_lex_total(a, b, 0);
    if a.len() == b.len() && forall|k: int| 0 <= k < a.len() ==> a[k] == b[k] {
        assert(a =~= b);
    }
    if lex_lt(a, b) && lex_lt(b, a) {
        lemma_lex_transitive(a, b, a, 0);
        lemma_lex_irreflexive(a, 0);
    }
    lemma_lex_irreflexive(a, 0);
}

/// `lex_lt` on character slices.
pub fn lex_lt_chars(a: &[char], b: &[char]) -> (r: bool)
    ensures
        r == lex_lt(a@, b@),
{
    let mut i: usize = 0;
    while i < a.len() && i < b.len() && a[i] == b[i]
        invariant
            i <= a@.len(),
            i <= b@.len(),
            lex_lt(a@, b@) == lex_lt_from(a@, b@, i as nat),
        decreases a@.len() - i,
    {
        i += 1;
    }
    if i >= a.len() {
        i < b.len()
    } else if i >= b.len() {
        false
    } else {
        a[i] < b[i]
    }
}

/// `a < b` for string slices.
pub fn str_lt(a: &str, b: &str) -> (r: bool)
    ensures
        r == lex_lt(a@, b@),
{
    let x = chars_of(a);
    let y = chars_of(b);
    lex_lt_chars(x.as_slice(), y.as_slice())
}

/// Every string of `s` sorts strictly before the ones after it.
pub open spec fn strictly_sorted(s: Seq<Seq<char>>) -> bool {
    forall|i: int, j: int| 0 <= i < j < s.len() ==> lex_lt(s[i], s[j])
}

/// Inserts `x` into the sorted list `v` at its place, unless it is already there.
pub fn insert_sorted(v: &mut Vec<String>, x: String)
    requires
        strictly_sorted(views(old(v)@)),
    ensures
        strictly_sorted(views(final(v)@)),
        forall|y: Seq<char>| views(final(v)@).contains(y) <==> (views(old(v)@).contains(y) || y == x@),
{
    let ghost old_v = views(v@);
    let xs = chars_of(x.as_str());
    let mut i: usize = 0;
    while i < v.len()
        invariant
            i <= v@.len(),
            views(v@) == old_v,
            xs@ == x@,
            forall|j: int| 0 <= j < i ==> lex_lt(#[trigger] old_v[j], x@),
        ensures
            i <= v@.len(),
            views(v@) == old_v,
            xs@ == x@,
            forall|j: int| 0 <= j < i ==> lex_lt(#[trigger] old_v[j], x@),
            i < v@.len() ==> !lex_lt(old_v[i as int], x@),
        decreases v@.len() - i,
    {
        let vs = chars_of(v[i].as_str());
        if !lex_lt_chars(vs.as_slice(), xs.as_slice()) {
            break;
        }
        i += 1;
    }
    if i < v.len() {
        let vs = chars_of(v[i].as_str());
        if chars_eq(vs.as_slice(), xs.as_slice()) {
            assert(old_v[i as int] == x@);
            return;
        }
        proof {
            lemma_lex_trichotomy(old_v[i as int], x@);
        }
    }
    proof {
        assert forall|j: int| i <= j < old_v.len() implies lex_lt(x@, #[trigger] old_v[j]) by {
            if j > i {
                assert(strictly_sorted(old_v));
                assert(lex_lt(old_v[i as int], old_v[j]));
                lemma_lex_transitive(x@, old_v[i as int], old_v[j], 0);
            }
        }
    }
    v.insert(i, x);
    proof {
        let nv = views(v@);
        assert(nv =~= old_v.insert(i as int, x@));
        assert forall|a: int, b: int| 0 <= a < b < nv.len() implies lex_lt(nv[a], nv[b]) by {
            if b < i {
            } else if b == i {
            } else if a < i {
                lemma_lex_transitive(nv[a], x@, nv[b], 0);
            } else if a == i {
            } else {
            }
        }
        assert forall|y: Seq<char>| nv.contains(y) <==> (old_v.contains(y) || y == x@) by {
            if nv.contains(y) {
                let k = choose|k: int| 0 <= k < nv.len() && nv[k] == y;
                if k < i {
                    assert(old_v[k] == y);
                } else if k > i {
                    assert(old_v[k - 1] == y);
                }
            }
            if old_v.contains(y) {
                let k = choose|k: int| 0 <= k < old_v.len() && old_v[k] == y;
                if k < i {
                    assert(nv[k] == y);
                } else {
                    assert(nv[k + 1] == y);
                }
            }
            if y == x@ {
                assert(nv[i as int] == y);
            }
        }
    }
}

/// Pairs of strings ordered by their first string, then by their second.
pub open spec fn pair_lt(a: (Seq<char>, Seq<char>), b: (Seq<char>, Seq<char>)) -> bool {
    lex_lt(a.0, b.0) || (a.0 == b.0 && lex_lt(a.1, b.1))
}

/// The order on pairs is a strict total order.
pub proof fn lemma_pair_order(a: (Seq<char>, Seq<char>), b: (Seq<char>, Seq<char>), c: (Seq<char>, Seq<char>))
    ensures
        !pair_lt(a, a),
        a == b || pair_lt(a, b) || pair_lt(b, a),
        pair_lt(a, b) && pair_lt(b, c) ==> pair_lt(a, c),
{
    lemma_lex_trichotomy(a.0, b.0);
    lemma_lex_trichotomy(a.1, b.1);
    lemma_lex_trichotomy(b.0, c.0);
    lemma_lex_trichotomy(a.0, c.0);
    if lex_lt(a.0, b.0) && lex_lt(b.0, c.0) {
        lemma_lex_transitive(a.0, b.0, c.0, 0);
    }
    if lex_lt(a.1, b.1) && lex_lt(b.1, c.1) {
        lemma_lex_transitive(a.1, b.1, c.1, 0);
    }
}

/// The views of a sequence of string pairs.
pub open spec fn pair_views(v: Seq<(String, String)>) -> Seq<(Seq<char>, Seq<char>)> {
    v.map_values(|p: (String, String)| (p.0@, p.1@))
}

/// Every pair of `s` sorts strictly before the ones after it.
pub open spec fn pairs_sorted(s: Seq<(Seq<char>, Seq<char>)>) -> bool {
    forall|i: int, j: int| 0 <= i < j < s.len() ==> pair_lt(s[i], s[j])
}

/// `pair_lt` on pairs of string slices.
fn pair_lt_exec(a0: &str, a1: &str, b0: &str, b1: &str) -> (r: bool)
    ensures
        r == pair_lt((a0@, a1@), (b0@, b1@)),
{
    if str_lt(a0, b0) {
        return true;
    }
    let x = chars_of(a0);
    let y = chars_of(b0);
    chars_eq(x.as_slice(), y.as_slice()) && str_lt(a1, b1)
}

/// Inserts the pair `x` into the sorted list `v` at its place, unless it is already there.
pub fn insert_sorted_pair(v: &mut Vec<(String, String)>, x: (String, String))
    requires
        pairs_sorted(pair_views(old(v)@)),
    ensures
        pairs_sorted(pair_views(final(v)@)),
        forall|y: (Seq<char>, Seq<char>)| pair_views(final(v)@).contains(y) <==> (pair_views(old(v)@).contains(y) || y == (
        x.0@, x.1@)),
{
    let ghost old_v = pair_views(v@);
    let ghost xv = (x.0@, x.1@);
    let mut i: usize = 0;
    while i < v.len()
        invariant
            i <= v@.len(),
            pair_views(v@) == old_v,
            xv == (x.0@, x.1@),
            forall|j: int| 0 <= j < i ==> pair_lt(#[trigger] old_v[j], xv),
        ensures
            i <= v@.len(),
            pair_views(v@) == old_v,
            forall|j: int| 0 <= j < i ==> pair_lt(#[trigger] old_v[j], xv),
            i < v@.len() ==> !pair_lt(old_v[i as int], xv),
        decreases v@.len() - i,
    {
        if !pair_lt_exec(v[i].0.as_str(), v[i].1.as_str(), x.0.as_str(), x.1.as_str()) {
            break;
        }
        i += 1;
    }
    if i < v.len() {
        if str_eq(v[i].0.as_str(), x.0.as_str()) && str_eq(v[i].1.as_str(), x.1.as_str()) {
            assert(old_v[i as int] == xv);
            return;
        }
        proof {
            lemma_pair_order(old_v[i as int], xv, xv);
        }
    }
    proof {
        assert forall|j: int| i <= j < old_v.len() implies pair_lt(xv, #[trigger] old_v[j]) by {
            if j > i {
                assert(pairs_sorted(old_v));
                assert(pair_lt(old_v[i as int], old_v[j]));
                lemma_pair_order(xv, old_v[i as int], old_v[j]);
            }
        }
    }
    v.insert(i, x);
    proof {
        let nv = pair_views(v@);
        assert(nv =~= old_v.insert(i as int, xv));
        assert forall|a: int, b: int| 0 <= a < b < nv.len() implies pair_lt(nv[a], nv[b]) by {
            if a < i && b > i {
                lemma_pair_order(nv[a], xv, nv[b]);
            }
        }
        assert forall|y: (Seq<char>, Seq<char>)| nv.contains(y) <==> (old_v.contains(y) || y == xv) by {
            if nv.contains(y) {
                let k = choose|k: int| 0 <= k < nv.len() && nv[k] == y;
                if k < i {
                    assert(old_v[k] == y);
                } else if k > i {
                    assert(old_v[k - 1] == y);
                }
            }
            if old_v.contains(y) {
                let k = choose|k: int| 0 <= k < old_v.len() && old_v[k] == y;
                if k < i {
                    assert(nv[k] == y);
                } else {
                    assert(nv[k + 1] == y);
                }
            }
            if y == xv {
                assert(nv[i as int] == y);
            }
        }
    }
}

} // verus!
