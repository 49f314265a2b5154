//! Host-pattern globbing: `*` matches any run of characters, `?` any one.
use vstd::prelude::*;

use crate::text::{
    chars_eq, chars_of, find_char, find_chars, find_sub, lower, lower_chars, occurs_at, push,
};

verus! {

/// `t` matches the glob pattern `p`.
pub open spec fn glob(p: Seq<char>, t: Seq<char>) -> bool
    decreases p.len() + t.len(),
{
    if p.len() == 0 {
        t.len() == 0
    } else if p[0] == '*' {
        glob(p.drop_first(), t) || (t.len() > 0 && glob(p, t.drop_first()))
    } else {
        t.len() > 0 && (p[0] == '?' || p[0] == t[0]) && glob(p.drop_first(), t.drop_first())
    }
}

/// The glob relation between the suffixes of `p` from `i` and of `t` from `j`.
pub open spec fn glob_from(p: Seq<char>, t: Seq<char>, i: int, j: int) -> bool {
    glob(p.skip(i), t.skip(j))
}

proof fn lemma_glob_step(p: Seq<char>, t: Seq<char>, i: int, j: int)
    requires
        0 <= i <= p.len(),
        0 <= j <= t.len(),
    ensures
        i == p.len() ==> (glob_from(p, t, i, j) == (j == t.len())),
        i < p.len() && p[i] == '*' ==> glob_from(p, t, i, j) == (glob_from(p, t, i + 1, j) || (j < t.len()
            && glob_from(p, t, i, j + 1))),
        i < p.len() && p[i] != '*' ==> glob_from(p, t, i, j) == (j < t.len() && (p[i] == '?' || p[i]
            == t[j]) && glob_from(p, t, i + 1, j + 1)),
{
    let ps = p.skip(i);
    let ts = t.skip(j);
    if i < p.len() {
        assert(ps.drop_first() =~= p.skip(i + 1));
        assert(ps[0] == p[i]);
        if j < t.len() {
            assert(ts.drop_first() =~= t.skip(j + 1));
            assert(ts[0] == t[j]);
        }
    }
}

/// One row of the matching table: entry `k` holds `glob_from(p, t, i, t.len() - k)`.
spec fn row_ok(row: Seq<bool>, p: Seq<char>, t: Seq<char>, i: int, upto: int) -> bool {
    &&& row.len() == upto + 1
    &&& forall|k: int| 0 <= k <= upto ==> row[k] == glob_from(p, t, i, t.len() - k)
}

/// Whether `t` matches the glob pattern `p`.
pub fn glob_chars(p: &[char], t: &[char]) -> (r: bool)
    ensures
        r == glob(p@, t@),
{
    let n = t.len();
    let m = p.len();
    // Row for the empty pattern suffix.
    let mut next: Vec<bool> = Vec::new();
    next.push(true);
    let mut k: usize = 0;
    while k < n
        invariant
            n == t@.len(),
            m == p@.len(),
            k <= n,
            row_ok(next@, p@, t@, m as int, k as int),
        decreases n - k,
    {
        proof {
            lemma_glob_step(p@, t@, m as int, (n - k - 1) as int);
        }
        next.push(false);
        k += 1;
    }
    proof {
        assert forall|k: int| 0 <= k <= 0 implies next@[k] == glob_from(p@, t@, m as int, t@.len() - k) by {
            lemma_glob_step(p@, t@, m as int, t@.len() as int);
        }
    }
    let mut i: usize = m;
    while i > 0
        invariant
            n == t@.len(),
            m == p@.len(),
            i <= m,
            row_ok(next@, p@, t@, i as int, n as int),
        decreases i,
    {
        i -= 1;
        let c = p[i];
        let mut cur: Vec<bool> = Vec::new();
        proof {
            lemma_glob_step(p@, t@, i as int, n as int);
        }
        if c == '*' {
            cur.push(next[0]);
        } else {
            cur.push(false);
        }
        let mut k: usize = 0;
        while k < n
            invariant
                n == t@.len(),
                m == p@.len(),
                i < m,
                c == p@[i as int],
                k <= n,
                row_ok(next@, p@, t@, i + 1, n as int),
                row_ok(cur@, p@, t@, i as int, k as int),
            decreases n - k,
        {
            let j = n - k - 1;
            proof {
                lemma_glob_step(p@, t@, i as int, j as int);
            }
            let v = if c == '*' {
                next[k + 1] || cur[k]
            } else {
                (c == '?' || c == t[j]) && next[k]
            };
            cur.push(v);
            k += 1;
        }
        next = cur;
    }
    proof {
        assert(p@.skip(0) =~= p@);
        assert(t@.skip(0) =~= t@);
    }
    next[n]
}

/// The host part of a match pattern: after any `scheme://`, up to the first `/`.
pub open spec fn host_part(pattern: Seq<char>) -> Seq<char> {
    let after = match find_sub(pattern, seq![':', '/', '/']) {
        Some(i) => pattern.skip(i + 3),
        None => pattern,
    };
    match find_char(after, '/') {
        Some(i) => after.take(i),
        None => after,
    }
}

/// `host` matches the host part of `pattern`, ignoring ASCII case.
pub open spec fn glob_host(pattern: Seq<char>, host: Seq<char>) -> bool {
    glob(lower(host_part(pattern)), lower(host))
}

/// The host part of a match pattern.
pub fn extract_host_part(pattern: &[char]) -> (r: Vec<char>)
    ensures
        r@ == host_part(pattern@),
{
    let sep: Vec<char> = vec![':', '/', '/'];
    assert(sep@ =~= seq![':', '/', '/']);
    let mut after: Vec<char> = Vec::new();
    match find_chars(pattern, sep.as_slice()) {
        Some(i) => {
            proof {
                assert(occurs_at(pattern@, sep@, i as int)) by {
                    crate::text::lemma_find_sub_spec(pattern@, sep@);
                }
            }
            let plen = pattern.len();
            assert(i + 3 <= plen);
            let mut k: usize = i + 3;
            while k < pattern.len()
                invariant
                    i + 3 <= k <= pattern@.len(),
                    after@ == pattern@.subrange(i + 3, k as int),
                decreases pattern@.len() - k,
            {
                after.push(pattern[k]);
                assert(pattern@.subrange(i + 3, k + 1) =~= pattern@.subrange(i + 3, k as int).push(pattern@[k as int]));
                k += 1;
            }
            assert(after@ =~= pattern@.skip(i + 3));
        },
        None => {
            let mut k: usize = 0;
            while k < pattern.len()
                invariant
                    k <= pattern@.len(),
                    after@ == pattern@.take(k as int),
                decreases pattern@.len() - k,
            {
                after.push(pattern[k]);
                assert(pattern@.take(k + 1) =~= pattern@.take(k as int).push(pattern@[k as int]));
                k += 1;
            }
            assert(after@ =~= pattern@);
        },
    }
    let slash: Vec<char> = vec!['/'];
    assert(slash@ =~= seq!['/']);
    match find_chars(after.as_slice(), slash.as_slice()) {
        Some(i) => {
            proof {
                crate::text::lemma_find_sub_spec(after@, slash@);
            }
            let mut out: Vec<char> = Vec::new();
            let mut k: usize = 0;
            while k < i
                invariant
                    i <= after@.len(),
                    k <= i,
                    out@ == after@.take(k as int),
                decreases i - k,
            {
                out.push(after[k]);
                assert(after@.take(k + 1) =~= after@.take(k as int).push(after@[k as int]));
                k += 1;
            }
            out
        },
        None => after,
    }
}

/// Whether `host` matches the host part of `pattern`, case-insensitively.
pub fn glob_match_host(pattern: &str, host: &str) -> (r: bool)
    ensures
        r == glob_host(pattern@, host@),
{
    let pc = chars_of(pattern);
    let hp = extract_host_part(pc.as_slice());
    let lp = lower_chars(hp.as_slice());
    let hc = chars_of(host);
    let lh = lower_chars(hc.as_slice());
    glob_chars(lp.as_slice(), lh.as_slice())
}

/// A profile host field matches everywhere when it is empty or `*`.
pub open spec fn host_field_matches(field: Seq<char>, host: Seq<char>) -> bool {
    field.len() == 0 || field == seq!['*'] || glob_host(field, host)
}

/// Whether a profile's `host` field admits `host`.
pub fn host_pattern_matches(field: &str, host: &str) -> (r: bool)
    ensures
        r == host_field_matches(field@, host@),
{
    let f = chars_of(field);
    if f.len() == 0 {
        return true;
    }
    let star: Vec<char> = vec!['*'];
    if chars_eq(f.as_slice(), star.as_slice()) {
        assert(star@ =~= seq!['*']);
        return true;
    }
    assert(star@ =~= seq!['*']);
    glob_match_host(field, host)
}

/// Some pattern in `patterns` matches `host`.
pub open spec fn any_glob_host(patterns: Seq<String>, host: Seq<char>) -> bool {
    exists|i: int| 0 <= i < patterns.len() && glob_host(#[trigger] patterns[i]@, host)
}

/// Whether any of `patterns` matches `host`.
pub fn any_host_matches(patterns: &Vec<String>, host: &str) -> (r: bool)
    ensures
        r == any_glob_host(patterns@, host@),
{
    let mut i: usize = 0;
    while i < patterns.len()
        invariant
            i <= patterns@.len(),
            forall|j: int| 0 <= j < i ==> !glob_host(#[trigger] patterns@[j]@, host@),
        decreases patterns@.len() - i,
    {
        if glob_match_host(patterns[i].as_str(), host) {
            return true;
        }
        i += 1;
    }
    false
}

/// The field value `"*"`.
pub fn star_host() -> (r: String)
    ensures
        r@ == seq!['*'],
{
    let mut s = String::new();
    push(&mut s, '*');
    s
}

} // verus!
