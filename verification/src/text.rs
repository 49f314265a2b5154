//! Character-level text utilities shared by every module.
use vstd::prelude::*;

verus! {

// ─── specifications ──────────────────────────────────────────────

/// `c` with ASCII upper-case letters mapped to lower case.
pub open spec fn lower_char(c: char) -> char {
    if 'A' <= c <= 'Z' {
        ((c as u32) + 32) as char
    } else {
        c
    }
}

/// `s` with every ASCII upper-case letter lowered.
pub open spec fn lower(s: Seq<char>) -> Seq<char> {
    s.map_values(|c: char| lower_char(c))
}

/// `p` is a prefix of `s`.
pub open spec fn is_prefix(p: Seq<char>, s: Seq<char>) -> bool {
    p.len() <= s.len() && s.take(p.len() as int) == p
}

/// `p` is a suffix of `s`.
pub open spec fn is_suffix(p: Seq<char>, s: Seq<char>) -> bool {
    p.len() <= s.len() && s.skip(s.len() - p.len()) == p
}

/// `p` occurs in `s` starting at index `i`.
pub open spec fn occurs_at(s: Seq<char>, p: Seq<char>, i: int) -> bool {
    0 <= i && i + p.len() <= s.len() && s.subrange(i, i + p.len()) == p
}

/// `p` occurs somewhere in `s`.
pub open spec fn contains_sub(s: Seq<char>, p: Seq<char>) -> bool {
    exists|i: int| occurs_at(s, p, i)
}

/// `i` is the first index at which `p` occurs in `s`.
pub open spec fn is_first_occurrence(s: Seq<char>, p: Seq<char>, i: int) -> bool {
    occurs_at(s, p, i) && forall|j: int| 0 <= j < i ==> !occurs_at(s, p, j)
}

/// The first index at which `p` occurs in `s`, if any.
pub open spec fn find_sub(s: Seq<char>, p: Seq<char>) -> Option<int> {
    if contains_sub(s, p) {
        Some(choose|i: int| is_first_occurrence(s, p, i))
    } else {
        None
    }
}

/// The first index at which `c` occurs in `s`, if any.
pub open spec fn find_char(s: Seq<char>, c: char) -> Option<int> {
    find_sub(s, seq![c])
}

// ─── lemmas ──────────────────────────────────────────────────────

/// The first occurrence is unique, so `find_sub` names it.
pub proof fn lemma_find_sub_first(s: Seq<char>, p: Seq<char>, i: int)
    requires
        is_first_occurrence(s, p, i),
    ensures
        find_sub(s, p) == Some(i),
{
    assert(contains_sub(s, p));
    let k = choose|k: int| is_first_occurrence(s, p, k);
    assert(is_first_occurrence(s, p, k));
    if k < i {
        assert(!occurs_at(s, p, k));
    } else if i < k {
        assert(!occurs_at(s, p, i));
    }
}

/// What `find_sub` returns is an occurrence, and the first one.
pub proof fn lemma_find_sub_spec(s: Seq<char>, p: Seq<char>)
    ensures
        match find_sub(s, p) {
            Some(i) => is_first_occurrence(s, p, i),
            None => forall|j: int| !occurs_at(s, p, j),
        },
{
    if contains_sub(s, p) {
        let w = choose|i: int| occurs_at(s, p, i);
        lemma_first_exists(s, p, w);
    }
}

/// Some occurrence at or before `w` is the first one.
proof fn lemma_first_exists(s: Seq<char>, p: Seq<char>, w: int)
    requires
        occurs_at(s, p, w),
    ensures
        exists|i: int| is_first_occurrence(s, p, i),
    decreases w,
{
    if exists|j: int| 0 <= j < w && occurs_at(s, p, j) {
        let j = choose|j: int| 0 <= j < w && occurs_at(s, p, j);
        lemma_first_exists(s, p, j);
    } else {
        assert(is_first_occurrence(s, p, w));
    }
}

/// A lowered sequence keeps its length and lowers each position.
pub proof fn lemma_lower_index(s: Seq<char>, i: int)
    requires
        0 <= i < s.len(),
    ensures
        lower(s).len() == s.len(),
        lower(s)[i] == lower_char(s[i]),
{
}

// ─── conversions ─────────────────────────────────────────────────

/// The characters of `s`, in order.
pub fn chars_of(s: &str) -> (r: Vec<char>)
    ensures
        r@ == s@,
{
    let mut out: Vec<char> = Vec::new();
    for c in it: s.chars()
        invariant
            out@ == it.seq().take(it.index() as int),
            it.seq() == s@,
    {
        out.push(c);
    }
    out
}

#[verifier::external_body]
fn push_char(s: &mut String, c: char)
    ensures
        final(s)@ == old(s)@.push(c),
{
    s.push(c);
}

/// A `String` holding exactly the characters of `cs`.
pub fn string_from_chars(cs: &[char]) -> (r: String)
    ensures
        r@ == cs@,
{
    let mut out = String::new();
    let mut i: usize = 0;
    while i < cs.len()
        invariant
            i <= cs@.len(),
            out@ == cs@.take(i as int),
        decreases cs@.len() - i,
    {
        push_char(&mut out, cs[i]);
        assert(cs@.take(i + 1) =~= cs@.take(i as int).push(cs@[i as int]));
        i += 1;
    }
    assert(cs@.take(cs@.len() as int) =~= cs@);
    out
}

/// A copy of a string slice as an owned `String`.
pub fn owned(s: &str) -> (r: String)
    ensures
        r@ == s@,
{
    let cs = chars_of(s);
    string_from_chars(cs.as_slice())
}

/// Appends the characters of `s` to `out`.
pub fn push_str(out: &mut String, s: &str)
    ensures
        final(out)@ == old(out)@ + s@,
{
    let cs = chars_of(s);
    let mut i: usize = 0;
    while i < cs.len()
        invariant
            i <= cs@.len(),
            cs@ == s@,
            out@ == old(out)@ + cs@.take(i as int),
        decreases cs@.len() - i,
    {
        push_char(out, cs[i]);
        assert(cs@.take(i + 1) =~= cs@.take(i as int).push(cs@[i as int]));
        i += 1;
    }
    assert(cs@.take(cs@.len() as int) =~= cs@);
}

/// Appends one character to `out`.
pub fn push(out: &mut String, c: char)
    ensures
        final(out)@ == old(out)@.push(c),
{
    push_char(out, c);
}

// ─── comparisons and searches ────────────────────────────────────

/// ASCII lower case of one character.
pub fn lower_char_exec(c: char) -> (r: char)
    ensures
        r == lower_char(c),
{
    if 'A' <= c && c <= 'Z' {
        let b: u8 = (c as u32) as u8;
        assert(b as u32 == c as u32);
        let l: u8 = b + 32;
        l as char
    } else {
        c
    }
}

/// The characters of `s`, ASCII-lowered.
pub fn lower_chars(s: &[char]) -> (r: Vec<char>)
    ensures
        r@ == lower(s@),
{
    let mut out: Vec<char> = Vec::new();
    let mut i: usize = 0;
    while i < s.len()
        invariant
            i <= s@.len(),
            out@ == lower(s@.take(i as int)),
        decreases s@.len() - i,
    {
        let l = lower_char_exec(s[i]);
        out.push(l);
        assert(lower(s@.take(i + 1)) =~= lower(s@.take(i as int)).push(lower_char(s@[i as int])));
        i += 1;
    }
    assert(s@.take(s@.len() as int) =~= s@);
    out
}

/// `str::to_ascii_lowercase`.
pub fn to_ascii_lowercase(s: &str) -> (r: String)
    ensures
        r@ == lower(s@),
{
    let cs = chars_of(s);
    let l = lower_chars(cs.as_slice());
    string_from_chars(l.as_slice())
}

/// `c` with ASCII lower-case letters mapped to upper case.
pub open spec fn upper_char(c: char) -> char {
    if 'a' <= c <= 'z' {
        ((c as u32) - 32) as char
    } else {
        c
    }
}

/// `s` with every ASCII lower-case letter raised.
pub open spec fn upper(s: Seq<char>) -> Seq<char> {
    s.map_values(|c: char| upper_char(c))
}

/// ASCII upper case of one character.
pub fn upper_char_exec(c: char) -> (r: char)
    ensures
        r == upper_char(c),
{
    if 'a' <= c && c <= 'z' {
        let b: u8 = (c as u32) as u8;
        assert(b as u32 == c as u32);
        let u: u8 = b - 32;
        u as char
    } else {
        c
    }
}

/// `str::to_ascii_uppercase`.
pub fn to_ascii_uppercase(s: &str) -> (r: String)
    ensures
        r@ == upper(s@),
{
    let cs = chars_of(s);
    let mut out: Vec<char> = Vec::new();
    let mut i: usize = 0;
    while i < cs.len()
        invariant
            i <= cs@.len(),
            out@ == upper(cs@.take(i as int)),
        decreases cs@.len() - i,
    {
        let u = upper_char_exec(cs[i]);
        out.push(u);
        assert(upper(cs@.take(i + 1)) =~= upper(cs@.take(i as int)).push(upper_char(cs@[i as int])));
        i += 1;
    }
    assert(cs@.take(cs@.len() as int) =~= cs@);
    string_from_chars(out.as_slice())
}

/// Character sequences are equal.
pub fn chars_eq(a: &[char], b: &[char]) -> (r: bool)
    ensures
        r == (a@ == b@),
{
    if a.len() != b.len() {
        return false;
    }
    let mut i: usize = 0;
    while i < a.len()
        invariant
            i <= a@.len(),
            a@.len() == b@.len(),
            forall|j: int| 0 <= j < i ==> a@[j] == b@[j],
        decreases a@.len() - i,
    {
        if a[i] != b[i] {
            return false;
        }
        i += 1;
    }
    assert(a@ =~= b@);
    true
}

/// String slices are equal.
pub fn str_eq(a: &str, b: &str) -> (r: bool)
    ensures
        r == (a@ == b@),
{
    let x = chars_of(a);
    let y = chars_of(b);
    chars_eq(x.as_slice(), y.as_slice())
}

/// `p` occurs in `s` at `i`.
pub fn occurs_at_exec(s: &[char], p: &[char], i: usize) -> (r: bool)
    ensures
        r == occurs_at(s@, p@, i as int),
{
    if i > s.len() || p.len() > s.len() - i {
        return false;
    }
    let n = s.len();
    let mut k: usize = 0;
    while k < p.len()
        invariant
            n == s@.len(),
            i + p@.len() <= s@.len(),
            k <= p@.len(),
            forall|j: int| 0 <= j < k ==> s@[i + j] == p@[j],
        decreases p@.len() - k,
    {
        assert(i + k < n);
        if s[i + k] != p[k] {
            assert(s@.subrange(i as int, i + p@.len())[k as int] != p@[k as int]);
            return false;
        }
        k += 1;
    }
    assert(s@.subrange(i as int, i + p@.len()) =~= p@);
    true
}

/// The first index of `p` in `s`.
pub fn find_chars(s: &[char], p: &[char]) -> (r: Option<usize>)
    ensures
        match r {
            Some(i) => find_sub(s@, p@) == Some(i as int),
            None => find_sub(s@, p@).is_none(),
        },
{
    let mut i: usize = 0;
    while i < s.len()
        invariant
            i <= s@.len(),
            forall|j: int| 0 <= j < i ==> !occurs_at(s@, p@, j),
        decreases s@.len() - i,
    {
        if occurs_at_exec(s, p, i) {
            proof {
                lemma_find_sub_first(s@, p@, i as int);
            }
            return Some(i);
        }
        i += 1;
    }
    if occurs_at_exec(s, p, i) {
        proof {
            lemma_find_sub_first(s@, p@, i as int);
        }
        return Some(i);
    }
    assert(!contains_sub(s@, p@)) by {
        assert forall|j: int| !occurs_at(s@, p@, j) by {
            if 0 <= j && j < i {
            }
        }
    }
    None
}

/// `p` is a prefix of `s`.
pub fn has_prefix(s: &[char], p: &[char]) -> (r: bool)
    ensures
        r == is_prefix(p@, s@),
{
    let r = occurs_at_exec(s, p, 0);
    proof {
        if p@.len() <= s@.len() {
            assert(s@.subrange(0, p@.len() as int) =~= s@.take(p@.len() as int));
        }
    }
    r
}

/// `p` is a suffix of `s`.
pub fn has_suffix(s: &[char], p: &[char]) -> (r: bool)
    ensures
        r == is_suffix(p@, s@),
{
    if p.len() > s.len() {
        return false;
    }
    let r = occurs_at_exec(s, p, s.len() - p.len());
    proof {
        assert(s@.subrange(s@.len() - p@.len(), s@.len() as int) =~= s@.skip(s@.len() - p@.len()));
    }
    r
}

/// `str::starts_with` with a string pattern.
pub fn starts_with(s: &str, p: &str) -> (r: bool)
    ensures
        r == is_prefix(p@, s@),
{
    let a = chars_of(s);
    let b = chars_of(p);
    has_prefix(a.as_slice(), b.as_slice())
}

/// `str::contains` with a string pattern.
pub fn contains_str(s: &str, p: &str) -> (r: bool)
    ensures
        r == contains_sub(s@, p@),
{
    let a = chars_of(s);
    let b = chars_of(p);
    let f = find_chars(a.as_slice(), b.as_slice());
    f.is_some()
}

/// `s` with every occurrence of `pat` replaced by `rep`, scanning left to right without overlap,
/// as `str::replace` does for a non-empty pattern.
pub open spec fn replace_all(s: Seq<char>, pat: Seq<char>, rep: Seq<char>) -> Seq<char>
    recommends
        pat.len() > 0,
    decreases s.len(),
{
    if s.len() == 0 {
        seq![]
    } else if pat.len() > 0 && is_prefix(pat, s) {
        rep + replace_all(s.skip(pat.len() as int), pat, rep)
    } else {
        seq![s[0]] + replace_all(s.drop_first(), pat, rep)
    }
}

/// `str::replace` with a non-empty pattern.
pub fn replace_str(s: &str, pat: &str, rep: &str) -> (r: String)
    requires
        pat@.len() > 0,
    ensures
        r@ == replace_all(s@, pat@, rep@),
{
    let cs = chars_of(s);
    let ps = chars_of(pat);
    let rs = chars_of(rep);
    let mut out: Vec<char> = Vec::new();
    let mut i: usize = 0;
    assert(cs@.skip(0) =~= cs@);
    assert(out@ + replace_all(cs@, pat@, rep@) =~= replace_all(cs@, pat@, rep@));
    while i < cs.len()
        invariant
            i <= cs@.len(),
            cs@ == s@,
            ps@ == pat@,
            rs@ == rep@,
            pat@.len() > 0,
            out@ + replace_all(cs@.skip(i as int), pat@, rep@) == replace_all(s@, pat@, rep@),
        decreases cs@.len() - i,
    {
        let ghost u = cs@.skip(i as int);
        let ghost before = out@;
        if occurs_at_exec(cs.as_slice(), ps.as_slice(), i) {
            proof {
                assert(u.take(pat@.len() as int) =~= cs@.subrange(i as int, i + pat@.len()));
                assert(u.skip(pat@.len() as int) =~= cs@.skip(i + pat@.len()));
            }
            let mut k: usize = 0;
            while k < rs.len()
                invariant
                    k <= rs@.len(),
                    out@ == before + rs@.take(k as int),
                decreases rs@.len() - k,
            {
                out.push(rs[k]);
                assert(rs@.take(k + 1) =~= rs@.take(k as int).push(rs@[k as int]));
                k += 1;
            }
            proof {
                assert(rs@.take(rs@.len() as int) =~= rs@);
                assert(out@ + replace_all(cs@.skip(i + pat@.len()), pat@, rep@) =~= before + replace_all(u, pat@, rep@));
            }
            i = i + ps.len();
        } else {
            proof {
                if is_prefix(pat@, u) {
                    assert(u.take(pat@.len() as int) =~= cs@.subrange(i as int, i + pat@.len()));
                }
                assert(u.drop_first() =~= cs@.skip(i + 1));
                assert(u[0] == cs@[i as int]);
            }
            out.push(cs[i]);
            proof {
                assert(out@ + replace_all(cs@.skip(i + 1), pat@, rep@) =~= before + replace_all(u, pat@, rep@));
            }
            i += 1;
        }
    }
    proof {
        assert(cs@.skip(cs@.len() as int) =~= seq![]);
        assert(out@ + seq![] =~= out@);
    }
    string_from_chars(out.as_slice())
}

/// `c` occurs in `s`.
pub fn has_char(s: &[char], c: char) -> (r: bool)
    ensures
        r == s@.contains(c),
{
    let mut i: usize = 0;
    while i < s.len()
        invariant
            i <= s@.len(),
            forall|j: int| 0 <= j < i ==> s@[j] != c,
        decreases s@.len() - i,
    {
        if s[i] == c {
            return true;
        }
        i += 1;
    }
    false
}

// ─── joining, trimming, splitting ────────────────────────────────

/// The views of a sequence of strings.
pub open spec fn views(v: Seq<String>) -> Seq<Seq<char>> {
    v.map_values(|s: String| s@)
}

/// `list` joined with `sep` between consecutive items.
pub open spec fn join(list: Seq<Seq<char>>, sep: Seq<char>) -> Seq<char>
    decreases list.len(),
{
    if list.len() == 0 {
        seq![]
    } else if list.len() == 1 {
        list[0]
    } else {
        join(list.drop_last(), sep) + sep + list.last()
    }
}

/// `[String]::join`.
pub fn join_strings(list: &Vec<String>, sep: &str) -> (r: String)
    ensures
        r@ == join(views(list@), sep@),
{
    let mut out = String::new();
    let mut i: usize = 0;
    while i < list.len()
        invariant
            i <= list@.len(),
            out@ == join(views(list@).take(i as int), sep@),
        decreases list@.len() - i,
    {
        let ghost vs = views(list@);
        if i > 0 {
            push_str(&mut out, sep);
        }
        push_str(&mut out, list[i].as_str());
        proof {
            assert(vs.take(i + 1).drop_last() =~= vs.take(i as int));
            assert(vs.take(i + 1).last() == list@[i as int]@);
            if i == 0 {
                assert(vs.take(1).len() == 1);
                assert(out@ =~= vs.take(1)[0]);
            }
        }
        i += 1;
    }
    proof {
        assert(views(list@).take(list@.len() as int) =~= views(list@));
    }
    out
}

/// Unicode `White_Space`, as `char::is_whitespace` classifies it.
pub open spec fn is_ws(c: char) -> bool {
    ('\u{9}' <= c <= '\u{d}') || c == ' ' || c == '\u{85}' || c == '\u{a0}' || c == '\u{1680}'
        || ('\u{2000}' <= c <= '\u{200a}') || c == '\u{2028}' || c == '\u{2029}' || c == '\u{202f}'
        || c == '\u{205f}' || c == '\u{3000}'
}

/// `char::is_whitespace`.
pub fn is_ws_exec(c: char) -> (r: bool)
    ensures
        r == is_ws(c),
{
    ('\u{9}' <= c && c <= '\u{d}') || c == ' ' || c == '\u{85}' || c == '\u{a0}' || c == '\u{1680}'
        || ('\u{2000}' <= c && c <= '\u{200a}') || c == '\u{2028}' || c == '\u{2029}' || c == '\u{202f}'
        || c == '\u{205f}' || c == '\u{3000}'
}

/// `s` without leading whitespace.
pub open spec fn trim_start(s: Seq<char>) -> Seq<char>
    decreases s.len(),
{
    if s.len() > 0 && is_ws(s[0]) {
        trim_start(s.drop_first())
    } else {
        s
    }
}

/// `s` without trailing whitespace.
pub open spec fn trim_end(s: Seq<char>) -> Seq<char>
    decreases s.len(),
{
    if s.len() > 0 && is_ws(s.last()) {
        trim_end(s.drop_last())
    } else {
        s
    }
}

/// `str::trim`.
pub open spec fn trim(s: Seq<char>) -> Seq<char> {
    trim_end(trim_start(s))
}

/// Trailing whitespace comes off the end: what is left is a prefix ending in a non-whitespace
/// character, or nothing.
proof fn lemma_trim_end_shape(s: Seq<char>)
    ensures
        trim_end(s).len() <= s.len(),
        trim_end(s) == s.take(trim_end(s).len() as int),
        trim_end(s).len() == 0 || !is_ws(trim_end(s).last()),
    decreases s.len(),
{
    if s.len() > 0 && is_ws(s.last()) {
        lemma_trim_end_shape(s.drop_last());
        let k = trim_end(s.drop_last()).len() as int;
        assert(s.drop_last().take(k) =~= s.take(k));
    } else {
        assert(s.take(s.len() as int) =~= s);
    }
}

/// Trimming twice is trimming once.
pub proof fn lemma_trim_idempotent(s: Seq<char>)
    ensures
        trim(trim(s)) == trim(s),
{
    let x = trim_start(s);
    lemma_trim_start_shape(s);
    lemma_trim_end_shape(x);
    let y = trim_end(x);
    if y.len() > 0 {
        assert(y[0] == x[0]);
    }
    assert(trim_start(y) == y);
    lemma_trim_end_shape(y);
    assert(trim_end(y) == y);
}

/// Leading whitespace comes off the start: what is left starts with a non-whitespace character,
/// or is empty.
proof fn lemma_trim_start_shape(s: Seq<char>)
    ensures
        trim_start(s).len() == 0 || !is_ws(trim_start(s)[0]),
    decreases s.len(),
{
    if s.len() > 0 && is_ws(s[0]) {
        lemma_trim_start_shape(s.drop_first());
    }
}

/// A copy of `s[from..to]`.
pub fn slice_chars(s: &[char], from: usize, to: usize) -> (r: Vec<char>)
    requires
        from <= to <= s@.len(),
    ensures
        r@ == s@.subrange(from as int, to as int),
{
    let mut out: Vec<char> = Vec::new();
    let mut k = from;
    while k < to
        invariant
            from <= k <= to <= s@.len(),
            out@ == s@.subrange(from as int, k as int),
        decreases to - k,
    {
        out.push(s[k]);
        assert(s@.subrange(from as int, k + 1) =~= s@.subrange(from as int, k as int).push(s@[k as int]));
        k += 1;
    }
    out
}

/// `str::trim` on characters.
pub fn trim_chars(s: &[char]) -> (r: Vec<char>)
    ensures
        r@ == trim(s@),
{
    let mut a: usize = 0;
    assert(s@.skip(0) =~= s@);
    while a < s.len() && is_ws_exec(s[a])
        invariant
            a <= s@.len(),
            trim_start(s@) == trim_start(s@.skip(a as int)),
        decreases s@.len() - a,
    {
        assert(s@.skip(a as int).drop_first() =~= s@.skip(a + 1));
        a += 1;
    }
    assert(trim_start(s@.skip(a as int)) == s@.skip(a as int));
    let mut b: usize = s.len();
    while b > a && is_ws_exec(s[b - 1])
        invariant
            a <= b <= s@.len(),
            trim_start(s@) == s@.skip(a as int),
            trim(s@) == trim_end(s@.subrange(a as int, b as int)),
        decreases b,
    {
        assert(s@.subrange(a as int, b as int).drop_last() =~= s@.subrange(a as int, b - 1));
        b -= 1;
    }
    proof {
        if a == 0 {
            assert(s@.skip(0) =~= s@);
        }
        assert(s@.subrange(a as int, s@.len() as int) =~= s@.skip(a as int));
    }
    slice_chars(s, a, b)
}

/// The run of non-whitespace characters that `s` starts with.
pub open spec fn word_prefix(s: Seq<char>) -> Seq<char>
    decreases s.len(),
{
    if s.len() == 0 || is_ws(s[0]) {
        seq![]
    } else {
        seq![s[0]] + word_prefix(s.drop_first())
    }
}

/// A word prefix is a prefix of `s`, non-empty when `s` starts with a non-whitespace character.
pub proof fn lemma_word_prefix(s: Seq<char>)
    ensures
        word_prefix(s).len() <= s.len(),
        word_prefix(s) == s.take(word_prefix(s).len() as int),
        s.len() > 0 && !is_ws(s[0]) ==> word_prefix(s).len() > 0,
    decreases s.len(),
{
    if s.len() > 0 && !is_ws(s[0]) {
        lemma_word_prefix(s.drop_first());
        assert(seq![s[0]] + word_prefix(s.drop_first()) =~= s.take(word_prefix(s.drop_first()).len() as int + 1));
    } else {
        assert(s.take(0) =~= seq![]);
    }
}

/// A non-whitespace run ended by whitespace or the end of `s` is its word prefix.
pub proof fn lemma_word_prefix_at(s: Seq<char>, j: int)
    requires
        0 <= j <= s.len(),
        forall|k: int| 0 <= k < j ==> !is_ws(#[trigger] s[k]),
        j == s.len() || is_ws(s[j]),
    ensures
        word_prefix(s) == s.take(j),
    decreases j,
{
    if j == 0 {
        assert(s.take(0) =~= seq![]);
    } else {
        let t = s.drop_first();
        assert forall|k: int| 0 <= k < j - 1 implies !is_ws(#[trigger] t[k]) by {
            assert(t[k] == s[k + 1]);
        }
        if j < s.len() {
            assert(t[j - 1] == s[j]);
        }
        lemma_word_prefix_at(t, j - 1);
        assert(seq![s[0]] + t.take(j - 1) =~= s.take(j));
    }
}

/// The whitespace-separated words of `s`, as `str::split_whitespace` yields them.
pub open spec fn words(s: Seq<char>) -> Seq<Seq<char>>
    decreases s.len(),
{
    if s.len() == 0 {
        seq![]
    } else if is_ws(s[0]) {
        words(s.drop_first())
    } else {
        let w = word_prefix(s);
        proof {
            lemma_word_prefix(s);
        }
        seq![w] + words(s.skip(w.len() as int))
    }
}

/// A word: non-empty, with no whitespace in it.
pub open spec fn is_word(w: Seq<char>) -> bool {
    w.len() > 0 && forall|k: int| 0 <= k < w.len() ==> !is_ws(#[trigger] w[k])
}

/// A word prefix holds no whitespace.
proof fn lemma_word_prefix_chars(s: Seq<char>)
    ensures
        forall|k: int| 0 <= k < word_prefix(s).len() ==> !is_ws(#[trigger] word_prefix(s)[k]),
    decreases s.len(),
{
    if s.len() > 0 && !is_ws(s[0]) {
        lemma_word_prefix_chars(s.drop_first());
        let w = word_prefix(s);
        assert forall|k: int| 0 <= k < w.len() implies !is_ws(#[trigger] w[k]) by {
            if k > 0 {
                assert(w[k] == word_prefix(s.drop_first())[k - 1]);
            }
        }
    }
}

/// Every word `words` yields is a word.
pub proof fn lemma_words_are_words(s: Seq<char>)
    ensures
        forall|i: int| 0 <= i < words(s).len() ==> is_word(#[trigger] words(s)[i]),
    decreases s.len(),
{
    if s.len() > 0 {
        if is_ws(s[0]) {
            lemma_words_are_words(s.drop_first());
            assert(words(s) == words(s.drop_first()));
        } else {
            let w = word_prefix(s);
            lemma_word_prefix(s);
            lemma_word_prefix_chars(s);
            lemma_words_are_words(s.skip(w.len() as int));
            assert(words(s) == seq![w] + words(s.skip(w.len() as int)));
            assert(is_word(w));
            assert forall|i: int| 0 <= i < words(s).len() implies is_word(#[trigger] words(s)[i]) by {
                if i == 0 {
                    assert(words(s)[0] == w);
                } else {
                    assert(words(s)[i] == words(s.skip(w.len() as int))[i - 1]);
                }
            }
        }
    }
}

proof fn lemma_word_prefix_sep(x: Seq<char>, y: Seq<char>)
    ensures
        word_prefix(x + seq![' '] + y) == word_prefix(x),
    decreases x.len(),
{
    let z = x + seq![' '] + y;
    if x.len() > 0 && !is_ws(x[0]) {
        assert(z.drop_first() =~= x.drop_first() + seq![' '] + y);
        lemma_word_prefix_sep(x.drop_first(), y);
    } else {
        assert(z[0] == if x.len() > 0 { x[0] } else { ' ' });
    }
}

/// A space splits the words of its two sides.
pub proof fn lemma_words_sep(x: Seq<char>, y: Seq<char>)
    ensures
        words(x + seq![' '] + y) == words(x) + words(y),
    decreases x.len(),
{
    let z = x + seq![' '] + y;
    if x.len() == 0 {
        assert(z.drop_first() =~= y);
        assert(words(x) =~= Seq::<Seq<char>>::empty());
        assert(words(x) + words(y) =~= words(y));
    } else if is_ws(x[0]) {
        assert(z.drop_first() =~= x.drop_first() + seq![' '] + y);
        lemma_words_sep(x.drop_first(), y);
    } else {
        let w = word_prefix(x);
        lemma_word_prefix(x);
        lemma_word_prefix_sep(x, y);
        assert(z.skip(w.len() as int) =~= x.skip(w.len() as int) + seq![' '] + y);
        lemma_words_sep(x.skip(w.len() as int), y);
        assert(seq![w] + (words(x.skip(w.len() as int)) + words(y)) =~= seq![w] + words(x.skip(w.len() as int))
            + words(y));
    }
}

/// Words joined by single spaces: no space at either end and no two spaces in a row.
pub proof fn lemma_join_words_spacing(ws: Seq<Seq<char>>)
    requires
        forall|i: int| 0 <= i < ws.len() ==> is_word(#[trigger] ws[i]),
    ensures
        ws.len() > 0 ==> join(ws, seq![' ']).len() > 0,
        join(ws, seq![' ']).len() > 0 ==> join(ws, seq![' '])[0] != ' ' && join(ws, seq![' ']).last() != ' ',
        forall|i: int|
            0 <= i < join(ws, seq![' ']).len() - 1 ==> !(#[trigger] join(ws, seq![' '])[i] == ' ' && join(
                ws,
                seq![' '],
            )[i + 1] == ' '),
    decreases ws.len(),
{
    let j = join(ws, seq![' ']);
    if ws.len() == 0 {
    } else {
        let w = ws.last();
        assert(is_word(ws[ws.len() - 1]));
        assert(!is_ws(w[0]) && !is_ws(w[w.len() - 1]));
        assert forall|k: int| 0 <= k < w.len() implies #[trigger] w[k] != ' ' by {
            assert(!is_ws(w[k]));
        }
        if ws.len() == 1 {
            assert(j == ws[0]);
        } else {
            let d = ws.drop_last();
            assert forall|i: int| 0 <= i < d.len() implies is_word(#[trigger] d[i]) by {
                assert(d[i] == ws[i]);
            }
            lemma_join_words_spacing(d);
            let a = join(d, seq![' ']);
            assert(j == a + seq![' '] + w);
            assert(j[0] == a[0]);
            assert(j.last() == w.last());
            assert forall|i: int| 0 <= i < j.len() - 1 implies !(#[trigger] j[i] == ' ' && j[i + 1] == ' ') by {
                if i < a.len() - 1 {
                    assert(j[i] == a[i] && j[i + 1] == a[i + 1]);
                } else if i == a.len() - 1 {
                    assert(j[i] == a.last());
                } else if i == a.len() {
                    assert(j[i + 1] == w[0]);
                } else {
                    assert(j[i] == w[i - a.len() - 1]);
                }
            }
        }
    }
}

/// Words joined by single spaces split back into the same words.
pub proof fn lemma_words_join(ws: Seq<Seq<char>>)
    requires
        forall|i: int| 0 <= i < ws.len() ==> is_word(#[trigger] ws[i]),
    ensures
        words(join(ws, seq![' '])) == ws,
    decreases ws.len(),
{
    if ws.len() == 0 {
        assert(words(Seq::<char>::empty()) =~= ws);
    } else {
        let w = ws.last();
        assert(is_word(ws[ws.len() - 1]));
        lemma_word_prefix_at(w, w.len() as int);
        assert(w.take(w.len() as int) =~= w);
        assert(w.skip(w.len() as int) =~= Seq::<char>::empty());
        assert(!is_ws(w[0]));
        assert(word_prefix(w) == w);
        assert(words(Seq::<char>::empty()) =~= Seq::<Seq<char>>::empty());
        assert(words(w) == seq![w] + words(w.skip(w.len() as int)));
        assert(words(w) =~= seq![w]);
        if ws.len() == 1 {
            assert(ws =~= seq![w]);
        } else {
            let rest = ws.drop_last();
            assert forall|i: int| 0 <= i < rest.len() implies is_word(#[trigger] rest[i]) by {
                assert(rest[i] == ws[i]);
            }
            lemma_words_join(rest);
            lemma_words_sep(join(rest, seq![' ']), w);
            assert(rest + seq![w] =~= ws);
        }
    }
}

/// `str::split_whitespace`, collected.
pub fn split_whitespace(s: &str) -> (r: Vec<String>)
    ensures
        views(r@) == words(s@),
{
    let cs = chars_of(s);
    let mut out: Vec<String> = Vec::new();
    let ghost mut done: Seq<Seq<char>> = seq![];
    let mut i: usize = 0;
    assert(cs@.skip(0) =~= cs@);
    while i < cs.len()
        invariant
            i <= cs@.len(),
            cs@ == s@,
            views(out@) == done,
            words(cs@) == done + words(cs@.skip(i as int)),
        decreases cs@.len() - i,
    {
        let ghost u = cs@.skip(i as int);
        if is_ws_exec(cs[i]) {
            assert(u.drop_first() =~= cs@.skip(i + 1));
            i += 1;
        } else {
            let mut j: usize = i;
            while j < cs.len() && !is_ws_exec(cs[j])
                invariant
                    i <= j <= cs@.len(),
                    forall|k: int| i <= k < j ==> !is_ws(#[trigger] cs@[k]),
                decreases cs@.len() - j,
            {
                j += 1;
            }
            proof {
                assert forall|k: int| 0 <= k < j - i implies !is_ws(#[trigger] u[k]) by {
                    assert(u[k] == cs@[i + k]);
                }
                if j < cs@.len() {
                    assert(u[j - i] == cs@[j as int]);
                }
                lemma_word_prefix_at(u, j - i);
                assert(u.take(j - i) =~= cs@.subrange(i as int, j as int));
                assert(u.skip(j - i) =~= cs@.skip(j as int));
            }
            let w = string_from_chars(slice_chars(cs.as_slice(), i, j).as_slice());
            out.push(w);
            proof {
                let wv = cs@.subrange(i as int, j as int);
                assert(views(out@) =~= done.push(wv));
                assert(done.push(wv) + words(cs@.skip(j as int)) =~= done + (seq![wv] + words(cs@.skip(j as int))));
                done = done.push(wv);
            }
            i = j;
        }
    }
    proof {
        assert(cs@.skip(cs@.len() as int) =~= seq![]);
        assert(done + seq![] =~= done);
    }
    out
}

/// The part of `s` before the first character that is in `stops`.
pub open spec fn before_any(s: Seq<char>, stops: Seq<char>) -> Seq<char>
    decreases s.len(),
{
    if s.len() == 0 {
        s
    } else if stops.contains(s[0]) {
        seq![]
    } else {
        seq![s[0]] + before_any(s.drop_first(), stops)
    }
}

/// `before_any` is the longest prefix free of `stops`; when it falls short of `s`,
/// the character after it is one of `stops`.
pub proof fn lemma_before_any_len(s: Seq<char>, stops: Seq<char>)
    ensures
        before_any(s, stops).len() <= s.len(),
        before_any(s, stops) == s.take(before_any(s, stops).len() as int),
        before_any(s, stops).len() < s.len() ==> stops.contains(s[before_any(s, stops).len() as int]),
    decreases s.len(),
{
    if s.len() > 0 && !stops.contains(s[0]) {
        lemma_before_any_len(s.drop_first(), stops);
        let b = before_any(s.drop_first(), stops);
        assert(seq![s[0]] + b =~= s.take(b.len() as int + 1));
        if b.len() < s.len() - 1 {
            assert(s[b.len() as int + 1] == s.drop_first()[b.len() as int]);
        }
    } else if s.len() > 0 {
        assert(s.take(0) =~= seq![]);
    }
}

/// The part of `s` before the first character in `stops`.
pub fn before_any_chars(s: &[char], stops: &[char]) -> (r: Vec<char>)
    ensures
        r@ == before_any(s@, stops@),
{
    let mut i: usize = 0;
    assert(s@.skip(0) =~= s@);
    assert(s@.take(0) + before_any(s@, stops@) =~= before_any(s@, stops@));
    while i < s.len() && !has_char(stops, s[i])
        invariant
            i <= s@.len(),
            before_any(s@, stops@) == s@.take(i as int) + before_any(s@.skip(i as int), stops@),
        decreases s@.len() - i,
    {
        proof {
            let t = s@.skip(i as int);
            assert(t.drop_first() =~= s@.skip(i + 1));
            assert(s@.take(i + 1) =~= s@.take(i as int) + seq![s@[i as int]]);
            assert(s@.take(i as int) + (seq![t[0]] + before_any(t.drop_first(), stops@)) =~= s@.take(i + 1)
                + before_any(s@.skip(i + 1), stops@));
        }
        i += 1;
    }
    proof {
        let t = s@.skip(i as int);
        if i < s@.len() {
            assert(stops@.contains(t[0]));
        }
        assert(s@.take(i as int) + before_any(t, stops@) =~= s@.take(i as int));
    }
    slice_chars(s, 0, i)
}

} // verus!
