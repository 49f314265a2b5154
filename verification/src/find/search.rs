//! The find-in-page search: every hit of a query in the document's text nodes, in document
//! order, with the enclosing tag, the text node's depth-first index, the character offset and
//! the matched text as it appears in the document. A literal query is searched for as a
//! substring (both sides lower-cased character by character unless case matters, and
//! optionally only between word boundaries); a regular expression is handed to the `regex`
//! crate.
use vstd::prelude::*;
use vstd::utf8::{char_is_scalar, encode_scalar, encode_utf8};

use super::{FindMatch, FindSpec};
use crate::dom::{
    descendants, descendants_of, lemma_descendants_prefix, lemma_nodes_view, node_view, nodes_view, DataView,
    Document, Node, NodeData, NodeView,
};
use crate::text::{
    chars_of, lower, occurs_at, occurs_at_exec, owned, slice_chars, str_eq, string_from_chars, to_ascii_lowercase,
};

verus! {

// ─── outside calls ───────────────────────────────────────────────

/// What `char::to_lowercase` gives for a character.
pub uninterp spec fn char_lower(c: char) -> Seq<char>;

/// `char::to_lowercase`, collected. Claimed: the text is the one named `char_lower` of the
/// character, and, as its documentation says, one or more characters long.
#[verifier::external_body]
fn char_to_lowercase(c: char) -> (r: String)
    ensures
        r@ == char_lower(c),
        r@.len() >= 1,
{
    c.to_lowercase().collect()
}

/// What `char::is_alphanumeric` says of a character.
pub uninterp spec fn unicode_alnum(c: char) -> bool;

/// `char::is_alphanumeric`. Claimed: the answer is the one named `unicode_alnum` of the
/// character.
#[verifier::external_body]
fn is_alphanumeric(c: char) -> (r: bool)
    ensures
        r == unicode_alnum(c),
{
    c.is_alphanumeric()
}

/// Whether `regex::RegexBuilder` builds the pattern, case-insensitively or not.
pub uninterp spec fn regex_builds(pattern: Seq<char>, case_insensitive: bool) -> bool;

/// The hits `Regex::find_iter` gives in a text: byte offset and matched text of each, in order.
pub uninterp spec fn regex_hits(pattern: Seq<char>, case_insensitive: bool, hay: Seq<char>) -> Seq<(nat, Seq<char>)>;

/// `regex::RegexBuilder::new(pattern).case_insensitive(..).build()` and then `find_iter` over
/// `hay`, each hit as its start and text. Claimed: `None` exactly when the pattern does not
/// build (named `regex_builds`, a function of the pattern and the flag), else the hits named
/// `regex_hits` of the pattern, the flag and the text; and, as `Match::start` documents, each
/// start falls on a character boundary of `hay`.
#[verifier::external_body]
fn regex_find_all(pattern: &str, case_insensitive: bool, hay: &str) -> (r: Option<Vec<(usize, String)>>)
    ensures
        match r {
            Some(v) => regex_builds(pattern@, case_insensitive) && hits_view(v@) == regex_hits(
                pattern@,
                case_insensitive,
                hay@,
            ) && forall|i: int| 0 <= i < v@.len() ==> char_at_byte(hay@, #[trigger] v@[i].0 as int) is Some,
            None => !regex_builds(pattern@, case_insensitive),
        },
{
    match regex::RegexBuilder::new(pattern).case_insensitive(case_insensitive).build() {
        Ok(re) => Some(re.find_iter(hay).map(|m| (m.start(), m.as_str().to_owned())).collect()),
        Err(_) => None,
    }
}

// ─── bytes ───────────────────────────────────────────────────────

/// The number of bytes UTF-8 takes for a character.
pub open spec fn utf8_len(c: char) -> nat {
    if (c as u32) < 0x80 {
        1
    } else if (c as u32) < 0x800 {
        2
    } else if (c as u32) < 0x10000 {
        3
    } else {
        4
    }
}

/// The number of bytes UTF-8 takes for a text.
pub open spec fn bytes_of(s: Seq<char>) -> nat
    decreases s.len(),
{
    if s.len() == 0 {
        0
    } else {
        bytes_of(s.drop_last()) + utf8_len(s.last())
    }
}

/// The hits as plain values.
pub open spec fn hits_view(v: Seq<(usize, String)>) -> Seq<(nat, Seq<char>)> {
    v.map_values(|h: (usize, String)| (h.0 as nat, h.1@))
}

/// A text's UTF-8 form fits in memory: its byte count is a `usize`.
pub open spec fn fits(s: Seq<char>) -> bool {
    bytes_of(s) <= usize::MAX
}

/// The character index at which byte offset `b` falls on a character boundary of `s`.
pub open spec fn char_at_byte(s: Seq<char>, b: int) -> Option<int> {
    if exists|i: int| 0 <= i <= s.len() && bytes_of(s.take(i)) == b {
        Some(choose|i: int| 0 <= i <= s.len() && bytes_of(s.take(i)) == b)
    } else {
        None
    }
}

// ─── the literal search, as spec ─────────────────────────────────

/// What one character is compared as: itself when case matters, else its lower-case mapping.
pub open spec fn group(c: char, case_sensitive: bool) -> Seq<char> {
    if case_sensitive {
        seq![c]
    } else {
        char_lower(c)
    }
}

/// A text as it is compared: each character's `group`, in order.
pub open spec fn fold(s: Seq<char>, case_sensitive: bool) -> Seq<char>
    decreases s.len(),
{
    if s.len() == 0 {
        seq![]
    } else {
        fold(s.drop_last(), case_sensitive) + group(s.last(), case_sensitive)
    }
}

/// Where character `i` of `s` starts in the compared text.
pub open spec fn pos(s: Seq<char>, case_sensitive: bool, i: int) -> nat {
    fold(s.take(i), case_sensitive).len()
}

/// The first character index of `s` that starts at position `p` of the compared text (the end
/// of the text counting as index `s.len()`), if any does.
#[verifier::opaque]
pub open spec fn char_at(s: Seq<char>, case_sensitive: bool, p: int) -> Option<int> {
    if exists|i: int| 0 <= i <= s.len() && pos(s, case_sensitive, i) == p {
        Some(
            choose|i: int|
                0 <= i <= s.len() && pos(s, case_sensitive, i) == p && forall|j: int|
                    0 <= j < i ==> pos(s, case_sensitive, j) != p,
        )
    } else {
        None
    }
}

/// A character that counts as part of a word: alphanumeric or `_`.
pub open spec fn wordy(c: char) -> bool {
    unicode_alnum(c) || c == '_'
}

/// The characters `a..b` of `h` stand between word boundaries.
pub open spec fn at_word_boundary(h: Seq<char>, a: int, b: int) -> bool {
    !(a > 0 && wordy(h[a - 1])) && !(b < h.len() && wordy(h[b]))
}

/// The literal hits of `n` in the compared text `c` of `h` from position `k` on. An occurrence
/// counts when both its ends fall where characters of `h` start (or at the end of `h`); it is
/// reported as the character offset in `h` and the characters of `h` it spans, and the search
/// goes on right after it, or stops when `n` is empty. With `whole_word`, only hits between
/// word boundaries of `h` are reported. An occurrence that does not line up with the
/// characters of `h` is passed over.
#[verifier::opaque]
pub open spec fn literal_hits_from(
    h: Seq<char>,
    c: Seq<char>,
    n: Seq<char>,
    case_sensitive: bool,
    whole_word: bool,
    k: int,
) -> Seq<(nat, Seq<char>)>
    decreases c.len() - k,
{
    if k < 0 || k + n.len() > c.len() {
        seq![]
    } else if occurs_at(c, n, k) && char_at(h, case_sensitive, k) is Some && char_at(
        h,
        case_sensitive,
        k + n.len(),
    ) is Some {
        let a = char_at(h, case_sensitive, k)->0;
        let b = char_at(h, case_sensitive, k + n.len())->0;
        let rest = if n.len() == 0 {
            seq![]
        } else {
            literal_hits_from(h, c, n, case_sensitive, whole_word, k + n.len())
        };
        if (!whole_word || at_word_boundary(h, a, b)) && 0 <= a <= b {
            seq![(a as nat, h.subrange(a, b))] + rest
        } else {
            rest
        }
    } else if k < c.len() {
        literal_hits_from(h, c, n, case_sensitive, whole_word, k + 1)
    } else {
        seq![]
    }
}

/// The needle a literal query is compared as: the query itself when case matters, else its
/// characters lower-cased.
pub open spec fn needle_of(query: Seq<char>, case_sensitive: bool) -> Seq<char> {
    fold(query, case_sensitive)
}

/// The literal hits of `needle` in `hay`, compared as `fold` gives them.
pub open spec fn literal_hits(hay: Seq<char>, needle: Seq<char>, case_sensitive: bool, whole_word: bool) -> Seq<
    (nat, Seq<char>),
> {
    literal_hits_from(hay, fold(hay, case_sensitive), needle, case_sensitive, whole_word, 0)
}

// ─── byte counts ─────────────────────────────────────────────────

proof fn lemma_bytes_step(s: Seq<char>, i: int)
    requires
        0 <= i < s.len(),
    ensures
        bytes_of(s.take(i + 1)) == bytes_of(s.take(i)) + utf8_len(s[i]),
{
    assert(s.take(i + 1).drop_last() =~= s.take(i));
}

proof fn lemma_bytes_mono(s: Seq<char>, i: int, j: int)
    requires
        0 <= i < j <= s.len(),
    ensures
        bytes_of(s.take(i)) < bytes_of(s.take(j)),
    decreases j - i,
{
    lemma_bytes_step(s, j - 1);
    if i < j - 1 {
        lemma_bytes_mono(s, i, j - 1);
    }
}

proof fn lemma_bytes_prefix(s: Seq<char>, i: int)
    requires
        0 <= i <= s.len(),
    ensures
        bytes_of(s.take(i)) <= bytes_of(s),
{
    assert(s.take(s.len() as int) =~= s);
    if i < s.len() {
        lemma_bytes_mono(s, i, s.len() as int);
    }
}

proof fn lemma_bytes_concat(a: Seq<char>, b: Seq<char>)
    ensures
        bytes_of(a + b) == bytes_of(a) + bytes_of(b),
    decreases b.len(),
{
    if b.len() == 0 {
        assert(a + b =~= a);
    } else {
        lemma_bytes_concat(a, b.drop_last());
        assert((a + b).drop_last() =~= a + b.drop_last());
    }
}

/// `bytes_of` counts the bytes of the UTF-8 encoding.
proof fn lemma_bytes_encoded(s: Seq<char>)
    ensures
        encode_utf8(s).len() == bytes_of(s),
    decreases s.len(),
{
    if s.len() > 0 {
        lemma_bytes_encoded(s.drop_first());
        assert(s =~= seq![s[0]] + s.drop_first());
        lemma_bytes_concat(seq![s[0]], s.drop_first());
        let one = seq![s[0]];
        assert(one.drop_last() =~= Seq::<char>::empty());
        assert(bytes_of(one.drop_last()) == 0);
        assert(one.last() == s[0]);
        assert(bytes_of(one) == utf8_len(s[0]));
        char_is_scalar(s[0]);
        let v = s[0] as u32;
        assert(encode_scalar(v).len() == utf8_len(s[0]));
        assert(encode_utf8(s) == encode_scalar(v) + encode_utf8(s.drop_first()));
    }
}

// ─── compared positions ──────────────────────────────────────────

proof fn lemma_fold_step(s: Seq<char>, cs: bool, i: int)
    requires
        0 <= i < s.len(),
    ensures
        fold(s.take(i + 1), cs) == fold(s.take(i), cs) + group(s[i], cs),
        pos(s, cs, i + 1) == pos(s, cs, i) + group(s[i], cs).len(),
{
    assert(s.take(i + 1).drop_last() =~= s.take(i));
}

proof fn lemma_pos_mono(s: Seq<char>, cs: bool, i: int, j: int)
    requires
        0 <= i <= j <= s.len(),
    ensures
        pos(s, cs, i) <= pos(s, cs, j),
    decreases j - i,
{
    if i < j {
        lemma_fold_step(s, cs, j - 1);
        lemma_pos_mono(s, cs, i, j - 1);
    }
}

proof fn lemma_fold_full(s: Seq<char>, cs: bool)
    ensures
        pos(s, cs, s.len() as int) == fold(s, cs).len(),
{
    assert(s.take(s.len() as int) =~= s);
}

// ─── byte offsets ────────────────────────────────────────────────

fn utf8_len_exec(ch: char) -> (r: usize)
    ensures
        r == utf8_len(ch),
{
    let v: u32 = ch as u32;
    if v < 0x80 {
        1
    } else if v < 0x800 {
        2
    } else if v < 0x10000 {
        3
    } else {
        4
    }
}

/// Moves the cursor `(hi, hb)` over `h` forward to byte `t`: the character index whose prefix
/// takes `t` bytes, if there is one.
fn locate_byte(h: &Vec<char>, hi: usize, hb: usize, t: usize) -> (r: (bool, usize))
    requires
        hi <= h@.len(),
        hb == bytes_of(h@.take(hi as int)),
        hb <= t,
        fits(h@),
    ensures
        r.0 ==> char_at_byte(h@, t as int) == Some(r.1 as int) && hi <= r.1 <= h@.len() && bytes_of(
            h@.take(r.1 as int),
        ) == t,
        !r.0 ==> char_at_byte(h@, t as int) is None,
{
    let mut i = hi;
    let mut b = hb;
    assert forall|j: int| 0 <= j < i implies bytes_of(h@.take(j)) < t by {
        lemma_bytes_mono(h@, j, i as int);
    }
    while i < h.len() && b < t
        invariant
            i <= h@.len(),
            hi <= i,
            b == bytes_of(h@.take(i as int)),
            fits(h@),
            forall|j: int| 0 <= j < i ==> bytes_of(h@.take(j)) < t,
        decreases h@.len() - i,
    {
        proof {
            lemma_bytes_step(h@, i as int);
            lemma_bytes_prefix(h@, i + 1);
        }
        let u = utf8_len_exec(h[i]);
        b = b + u;
        i += 1;
    }
    if b == t {
        proof {
            assert(0 <= i <= h@.len() && bytes_of(h@.take(i as int)) == t);
            let i0 = choose|j: int| 0 <= j <= h@.len() && bytes_of(h@.take(j)) == t;
            if i0 > i {
                lemma_bytes_mono(h@, i as int, i0);
            }
        }
        (true, i)
    } else {
        proof {
            assert forall|j: int| 0 <= j <= h@.len() implies bytes_of(h@.take(j)) != t by {
                if j > i {
                    lemma_bytes_mono(h@, i as int, j);
                }
            }
        }
        (false, i)
    }
}

// ─── the literal search ──────────────────────────────────────────

/// The group lengths of `h` and its compared text.
fn fold_chars(h: &Vec<char>, case_sensitive: bool) -> (r: (Vec<char>, Vec<usize>))
    ensures
        r.0@ == fold(h@, case_sensitive),
        r.1@.len() == h@.len(),
        forall|i: int| 0 <= i < h@.len() ==> #[trigger] r.1@[i] == group(h@[i], case_sensitive).len(),
{
    let mut c: Vec<char> = Vec::new();
    let mut lens: Vec<usize> = Vec::new();
    let mut i: usize = 0;
    assert(h@.take(0) =~= Seq::<char>::empty());
    while i < h.len()
        invariant
            i <= h@.len(),
            c@ == fold(h@.take(i as int), case_sensitive),
            lens@.len() == i,
            forall|j: int| 0 <= j < i ==> #[trigger] lens@[j] == group(h@[j], case_sensitive).len(),
        decreases h@.len() - i,
    {
        proof {
            lemma_fold_step(h@, case_sensitive, i as int);
        }
        let ghost before = c@;
        if case_sensitive {
            c.push(h[i]);
            lens.push(1);
            assert(c@ =~= before + seq![h@[i as int]]);
        } else {
            let l = char_to_lowercase(h[i]);
            let ls = chars_of(l.as_str());
            let mut j: usize = 0;
            while j < ls.len()
                invariant
                    j <= ls@.len(),
                    c@ == before + ls@.take(j as int),
                decreases ls@.len() - j,
            {
                c.push(ls[j]);
                assert(ls@.take(j + 1) =~= ls@.take(j as int).push(ls@[j as int]));
                j += 1;
            }
            assert(ls@.take(ls@.len() as int) =~= ls@);
            lens.push(ls.len());
        }
        i += 1;
    }
    assert(h@.take(h@.len() as int) =~= h@);
    (c, lens)
}

/// Moves the cursor `(hi, hp)` over `h` forward to compared position `t`: the first character
/// index starting there, if there is one. The cursor ends before the first index at or past `t`.
fn locate(h: &Vec<char>, cs: bool, lens: &Vec<usize>, hi: usize, hp: usize, t: usize) -> (r: (bool, usize, usize))
    requires
        lens@.len() == h@.len(),
        forall|i: int| 0 <= i < h@.len() ==> #[trigger] lens@[i] == group(h@[i], cs).len(),
        pos(h@, cs, h@.len() as int) <= usize::MAX,
        hi <= h@.len(),
        hp == pos(h@, cs, hi as int),
        forall|j: int| 0 <= j < hi ==> pos(h@, cs, j) < t,
    ensures
        hi <= r.1 <= h@.len(),
        r.2 == pos(h@, cs, r.1 as int),
        forall|j: int| 0 <= j < r.1 ==> pos(h@, cs, j) < t,
        r.0 ==> r.2 == t && char_at(h@, cs, t as int) == Some(r.1 as int),
        !r.0 ==> char_at(h@, cs, t as int) is None,
{
    proof {
        reveal(char_at);
    }
    let mut i = hi;
    let mut p = hp;
    while i < h.len() && p < t
        invariant
            lens@.len() == h@.len(),
            forall|k: int| 0 <= k < h@.len() ==> #[trigger] lens@[k] == group(h@[k], cs).len(),
            pos(h@, cs, h@.len() as int) <= usize::MAX,
            hi <= i <= h@.len(),
            p == pos(h@, cs, i as int),
            forall|j: int| 0 <= j < i ==> pos(h@, cs, j) < t,
        decreases h@.len() - i,
    {
        proof {
            lemma_fold_step(h@, cs, i as int);
            lemma_pos_mono(h@, cs, i + 1, h@.len() as int);
        }
        p = p + lens[i];
        i += 1;
    }
    if p == t {
        proof {
            let w = i as int;
            assert(0 <= w <= h@.len() && pos(h@, cs, w) == t && forall|j: int|
                0 <= j < w ==> pos(h@, cs, j) != t);
            let i0 = choose|k: int|
                0 <= k <= h@.len() && pos(h@, cs, k) == t && forall|j: int| 0 <= j < k ==> pos(h@, cs, j) != t;
            if i0 < w {
                assert(pos(h@, cs, i0) < t);
            } else if i0 > w {
                assert(pos(h@, cs, w) != t);
            }
        }
        (true, i, p)
    } else {
        proof {
            assert forall|j: int| 0 <= j <= h@.len() implies pos(h@, cs, j) != t by {
                if j > i {
                    lemma_pos_mono(h@, cs, i as int, j);
                }
            }
        }
        (false, i, p)
    }
}

fn wordy_exec(ch: char) -> (r: bool)
    ensures
        r == wordy(ch),
{
    is_alphanumeric(ch) || ch == '_'
}

fn boundary_exec(h: &Vec<char>, a: usize, b: usize) -> (r: bool)
    requires
        a <= b <= h@.len(),
    ensures
        r == at_word_boundary(h@, a as int, b as int),
{
    let before = a > 0 && wordy_exec(h[a - 1]);
    let after = b < h.len() && wordy_exec(h[b]);
    !before && !after
}

/// The hits from an occurrence at `k` that lines up with characters `a..b` of `h`.
proof fn lemma_hits_at(h: Seq<char>, c: Seq<char>, n: Seq<char>, cs: bool, ww: bool, k: int, a: int, b: int)
    requires
        0 <= k,
        k + n.len() <= c.len(),
        occurs_at(c, n, k),
        char_at(h, cs, k) == Some(a),
        char_at(h, cs, k + n.len()) == Some(b),
        0 <= a <= b,
    ensures
        literal_hits_from(h, c, n, cs, ww, k) == ({
            let rest = if n.len() == 0 {
                Seq::<(nat, Seq<char>)>::empty()
            } else {
                literal_hits_from(h, c, n, cs, ww, k + n.len())
            };
            if !ww || at_word_boundary(h, a, b) {
                seq![(a as nat, h.subrange(a, b))] + rest
            } else {
                rest
            }
        }),
{
    reveal(literal_hits_from);
}

/// The hits from a position holding no occurrence that lines up with the characters of `h`.
proof fn lemma_hits_skip(h: Seq<char>, c: Seq<char>, n: Seq<char>, cs: bool, ww: bool, k: int)
    requires
        0 <= k,
        k + n.len() <= c.len(),
        !(occurs_at(c, n, k) && char_at(h, cs, k) is Some && char_at(h, cs, k + n.len()) is Some),
    ensures
        literal_hits_from(h, c, n, cs, ww, k) == if k < c.len() {
            literal_hits_from(h, c, n, cs, ww, k + 1)
        } else {
            Seq::<(nat, Seq<char>)>::empty()
        },
{
    reveal(literal_hits_from);
}

/// What one position of the literal search adds: the spec's hits from `k` are those pushed onto
/// `out` followed by the hits from the returned position, or nothing more when the search is done.
fn literal_step(
    h: &Vec<char>,
    c: &Vec<char>,
    n: &Vec<char>,
    cs: bool,
    ww: bool,
    lens: &Vec<usize>,
    k: usize,
    hi: usize,
    hp: usize,
    out: &mut Vec<(usize, String)>,
) -> (r: (bool, usize, usize, usize))
    requires
        c@ == fold(h@, cs),
        pos(h@, cs, h@.len() as int) == c@.len(),
        lens@.len() == h@.len(),
        forall|i: int| 0 <= i < h@.len() ==> #[trigger] lens@[i] == group(h@[i], cs).len(),
        k + n@.len() <= c@.len(),
        hi <= h@.len(),
        hp == pos(h@, cs, hi as int),
        forall|j: int| 0 <= j < hi ==> pos(h@, cs, j) < k,
    ensures
        hits_view(old(out)@) + literal_hits_from(h@, c@, n@, cs, ww, k as int) == hits_view(final(out)@) + (if r.0 {
            Seq::<(nat, Seq<char>)>::empty()
        } else {
            literal_hits_from(h@, c@, n@, cs, ww, r.1 as int)
        }),
        !r.0 ==> k < r.1 <= c@.len() && r.2 <= h@.len() && r.3 == pos(h@, cs, r.2 as int) && forall|j: int|
            0 <= j < r.2 ==> pos(h@, cs, j) < r.1,
{
    let ghost hv = h@;
    let ghost cv = c@;
    let ghost before = out@;
    let c_len = c.len();
    let n_len = n.len();
    let mut hi = hi;
    let mut hp = hp;
    let mut hit = false;
    if occurs_at_exec(c.as_slice(), n.as_slice(), k) {
        let (fa, ai, ap) = locate(h, cs, lens, hi, hp, k);
        hi = ai;
        hp = ap;
        if fa {
            let end = k + n_len;
            let (fb, bi, bp) = locate(h, cs, lens, ai, ap, end);
            if fb {
                let pass = !ww || boundary_exec(h, ai, bi);
                if pass {
                    let piece = slice_chars(h.as_slice(), ai, bi);
                    let text = string_from_chars(piece.as_slice());
                    out.push((ai, text));
                }
                proof {
                    lemma_hits_at(hv, cv, n@, cs, ww, k as int, ai as int, bi as int);
                    let x = (ai as nat, hv.subrange(ai as int, bi as int));
                    let rest = if n@.len() == 0 {
                        Seq::<(nat, Seq<char>)>::empty()
                    } else {
                        literal_hits_from(hv, cv, n@, cs, ww, k + n@.len())
                    };
                    if pass {
                        assert(hits_view(out@) =~= hits_view(before).push(x));
                        assert(hits_view(before) + (seq![x] + rest) =~= hits_view(out@) + rest);
                    } else {
                        assert(hits_view(out@) == hits_view(before));
                    }
                }
                if n_len == 0 {
                    return (true, k, hi, hp);
                }
                return (false, end, bi, bp);
            }
        }
    } else {
        proof {
            if n@.len() == 0 {
                assert(cv.subrange(k as int, k as int) =~= n@);
            }
        }
    }
    proof {
        lemma_hits_skip(hv, cv, n@, cs, ww, k as int);
    }
    if k < c_len {
        (false, k + 1, hi, hp)
    } else {
        assert(hits_view(out@) + Seq::<(nat, Seq<char>)>::empty() =~= hits_view(out@));
        (true, k, hi, hp)
    }
}

/// Every literal hit of `needle` in `hay`, in order: each as its character offset in `hay` and
/// the characters of `hay` it spans. Unless case matters, `hay` is compared with each character
/// lower-cased; the needle is taken as given. With `whole_word`, a hit counts only between word
/// boundaries.
pub fn literal_find_all(hay: &str, needle: &str, case_sensitive: bool, whole_word: bool) -> (r: Vec<
    (usize, String),
>)
    ensures
        hits_view(r@) == literal_hits(hay@, needle@, case_sensitive, whole_word),
{
    let h = chars_of(hay);
    let n = chars_of(needle);
    let (c, lens) = fold_chars(&h, case_sensitive);
    let ghost hv = h@;
    let ghost cv = c@;
    let ghost whole = literal_hits_from(hv, cv, n@, case_sensitive, whole_word, 0);
    proof {
        lemma_fold_full(hv, case_sensitive);
    }
    assert(whole == literal_hits(hay@, needle@, case_sensitive, whole_word));
    let mut out: Vec<(usize, String)> = Vec::new();
    let mut k: usize = 0;
    let mut hi: usize = 0;
    let mut hp: usize = 0;
    assert(hv.take(0) =~= Seq::<char>::empty());
    assert(hits_view(out@) + whole =~= whole);
    while n.len() <= c.len() - k
        invariant
            hv == h@,
            cv == c@,
            cv == fold(hv, case_sensitive),
            pos(hv, case_sensitive, hv.len() as int) == cv.len(),
            lens@.len() == hv.len(),
            forall|i: int| 0 <= i < hv.len() ==> #[trigger] lens@[i] == group(hv[i], case_sensitive).len(),
            k <= cv.len(),
            hi <= hv.len(),
            hp == pos(hv, case_sensitive, hi as int),
            forall|j: int| 0 <= j < hi ==> pos(hv, case_sensitive, j) < k,
            whole == hits_view(out@) + literal_hits_from(hv, cv, n@, case_sensitive, whole_word, k as int),
            whole == literal_hits(hay@, needle@, case_sensitive, whole_word),
        decreases cv.len() - k,
    {
        let (done, k2, hi2, hp2) = literal_step(&h, &c, &n, case_sensitive, whole_word, &lens, k, hi, hp, &mut out);
        if done {
            assert(hits_view(out@) + Seq::<(nat, Seq<char>)>::empty() =~= hits_view(out@));
            return out;
        }
        k = k2;
        hi = hi2;
        hp = hp2;
    }
    proof {
        reveal(literal_hits_from);
    }
    assert(literal_hits_from(hv, cv, n@, case_sensitive, whole_word, k as int) == Seq::<(nat, Seq<char>)>::empty());
    assert(hits_view(out@) + Seq::<(nat, Seq<char>)>::empty() =~= hits_view(out@));
    out
}

// ─── the document walk ───────────────────────────────────────────

/// A hit in a document, as plain values.
pub struct HitView {
    pub tag: Option<Seq<char>>,
    pub index: nat,
    pub offset: nat,
    pub text: Seq<char>,
}

/// An optional text as a plain value.
pub open spec fn opt_view(o: Option<String>) -> Option<Seq<char>> {
    match o {
        Some(t) => Some(t@),
        None => None,
    }
}

/// A hit as a plain value.
pub open spec fn hit_view(m: FindMatch) -> HitView {
    HitView {
        tag: opt_view(m.enclosing_tag),
        index: m.text_node_index as nat,
        offset: m.offset as nat,
        text: m.matched@,
    }
}

/// Hits as plain values.
pub open spec fn matches_view(v: Seq<FindMatch>) -> Seq<HitView> {
    v.map_values(|m: FindMatch| hit_view(m))
}

/// Regular-expression hits with their byte offsets turned into character offsets.
pub open spec fn regex_char_hits(t: Seq<char>, hs: Seq<(nat, Seq<char>)>) -> Seq<(nat, Seq<char>)> {
    hs.map_values(|x: (nat, Seq<char>)| ((char_at_byte(t, x.0 as int)->0) as nat, x.1))
}

/// The hits of the query in one text: by the regular expression in regex mode, else by
/// literal search.
pub open spec fn text_hits(t: Seq<char>, query: Seq<char>, sp: FindSpec) -> Seq<(nat, Seq<char>)> {
    if sp.regex {
        regex_char_hits(t, regex_hits(query, !sp.case_sensitive, t))
    } else {
        literal_hits(t, needle_of(query, sp.case_sensitive), sp.case_sensitive, sp.whole_word)
    }
}

/// A text node's hits, each with the enclosing tag and the text node's index.
pub open spec fn tagged(tag: Option<Seq<char>>, index: nat, hs: Seq<(nat, Seq<char>)>) -> Seq<HitView> {
    hs.map_values(|h: (nat, Seq<char>)| HitView { tag: tag, index: index, offset: h.0, text: h.1 })
}

/// The cap is reached: it is set and `out` holds that many hits.
pub open spec fn full(out: Seq<HitView>, cap: usize) -> bool {
    cap > 0 && out.len() >= cap
}

/// `out` followed by as many of `new` as the cap leaves room for (all of them without a cap).
pub open spec fn capped(out: Seq<HitView>, new: Seq<HitView>, cap: usize) -> Seq<HitView> {
    if cap == 0 {
        out + new
    } else if out.len() >= cap {
        out
    } else if new.len() <= cap - out.len() {
        out + new
    } else {
        out + new.take(cap - out.len())
    }
}

/// Elements whose text is not searched.
pub open spec fn skipped_tag(t: Seq<char>) -> bool {
    t == "script"@ || t == "style"@ || t == "noscript"@ || t == "template"@
}

/// The search of a subtree from state `st` (the hits so far and the next text node's index).
/// A text node takes its hits, as far as the cap
/// allows, and the next index; an element whose lower-cased tag is skipped is passed over
/// with all it holds, another is searched child by child, as long as the cap is not reached,
/// with its lower-cased tag as the enclosing one; the document node searches all its
/// children; a comment holds nothing.
pub open spec fn walk_node(n: NodeView, tag: Option<Seq<char>>, query: Seq<char>, sp: FindSpec, st: (
    Seq<HitView>,
    nat,
)) -> (Seq<HitView>, nat)
    decreases n,
{
    proof {
        assert(decreases_to!(n => n.children));
    }
    match n.data {
        DataView::Text(t) => (capped(st.0, tagged(tag, st.1, text_hits(t, query, sp)), sp.max_matches), st.1 + 1),
        DataView::Element { tag: et, attributes: _ } => if skipped_tag(lower(et)) {
            st
        } else {
            walk_children(n.children, Some(lower(et)), true, query, sp, st)
        },
        DataView::Document => walk_children(n.children, tag, false, query, sp, st),
        DataView::Comment(_) => st,
    }
}

/// The search of the trees `cs` in order; with `checked`, a tree is passed over once the cap
/// is reached.
pub open spec fn walk_children(
    cs: Seq<NodeView>,
    tag: Option<Seq<char>>,
    checked: bool,
    query: Seq<char>,
    sp: FindSpec,
    st: (Seq<HitView>, nat),
) -> (Seq<HitView>, nat)
    decreases cs,
{
    if cs.len() == 0 {
        st
    } else {
        proof {
            assert(decreases_to!(cs => cs.drop_last()));
            assert(decreases_to!(cs => cs[cs.len() - 1]));
        }
        let s1 = walk_children(cs.drop_last(), tag, checked, query, sp, st);
        if checked && full(s1.0, sp.max_matches) {
            s1
        } else {
            walk_node(cs.last(), tag, query, sp, s1)
        }
    }
}

/// The hits of `query` in a document: none for an empty query or a regular expression that
/// does not build, else those of the walk from the root.
pub open spec fn find_hits(doc: NodeView, query: Seq<char>, sp: FindSpec) -> Seq<HitView> {
    if query.len() == 0 || (sp.regex && !regex_builds(query, !sp.case_sensitive)) {
        seq![]
    } else {
        walk_node(doc, None, query, sp, (seq![], 0)).0
    }
}

proof fn lemma_walk_count(n: NodeView, tag: Option<Seq<char>>, query: Seq<char>, sp: FindSpec, st: (
    Seq<HitView>,
    nat,
))
    ensures
        st.1 <= walk_node(n, tag, query, sp, st).1 <= st.1 + 1 + descendants(n),
    decreases n, 1int,
{
    assert(decreases_to!(n => n.children));
    match n.data {
        DataView::Element { tag: et, attributes: _ } => {
            lemma_children_count(n.children, Some(lower(et)), true, query, sp, st);
        },
        DataView::Document => {
            lemma_children_count(n.children, tag, false, query, sp, st);
        },
        _ => {},
    }
}

proof fn lemma_children_count(
    cs: Seq<NodeView>,
    tag: Option<Seq<char>>,
    checked: bool,
    query: Seq<char>,
    sp: FindSpec,
    st: (Seq<HitView>, nat),
)
    ensures
        st.1 <= walk_children(cs, tag, checked, query, sp, st).1 <= st.1 + descendants_of(cs),
    decreases cs, 0int,
{
    if cs.len() > 0 {
        assert(decreases_to!(cs => cs.drop_last()));
        assert(decreases_to!(cs => cs[cs.len() - 1]));
        lemma_children_count(cs.drop_last(), tag, checked, query, sp, st);
        lemma_walk_count(cs.last(), tag, query, sp, walk_children(cs.drop_last(), tag, checked, query, sp, st));
    }
}

proof fn lemma_walk_capped(n: NodeView, tag: Option<Seq<char>>, query: Seq<char>, sp: FindSpec, st: (
    Seq<HitView>,
    nat,
))
    requires
        sp.max_matches > 0,
        st.0.len() <= sp.max_matches,
    ensures
        walk_node(n, tag, query, sp, st).0.len() <= sp.max_matches,
    decreases n, 1int,
{
    assert(decreases_to!(n => n.children));
    match n.data {
        DataView::Element { tag: et, attributes: _ } => {
            lemma_children_capped(n.children, Some(lower(et)), true, query, sp, st);
        },
        DataView::Document => {
            lemma_children_capped(n.children, tag, false, query, sp, st);
        },
        _ => {},
    }
}

proof fn lemma_children_capped(
    cs: Seq<NodeView>,
    tag: Option<Seq<char>>,
    checked: bool,
    query: Seq<char>,
    sp: FindSpec,
    st: (Seq<HitView>, nat),
)
    requires
        sp.max_matches > 0,
        st.0.len() <= sp.max_matches,
    ensures
        walk_children(cs, tag, checked, query, sp, st).0.len() <= sp.max_matches,
    decreases cs, 0int,
{
    if cs.len() > 0 {
        assert(decreases_to!(cs => cs.drop_last()));
        assert(decreases_to!(cs => cs[cs.len() - 1]));
        lemma_children_capped(cs.drop_last(), tag, checked, query, sp, st);
        lemma_walk_capped(cs.last(), tag, query, sp, walk_children(cs.drop_last(), tag, checked, query, sp, st));
    }
}

/// The cap is honoured: with `max_matches` set, a search gives at most that many hits.
pub proof fn law_find_capped(doc: NodeView, query: Seq<char>, sp: FindSpec)
    requires
        sp.max_matches > 0,
    ensures
        find_hits(doc, query, sp).len() <= sp.max_matches,
{
    lemma_walk_capped(doc, None, query, sp, (seq![], 0));
}

fn clone_tag(tag: &Option<String>) -> (r: Option<String>)
    ensures
        opt_view(r) == opt_view(*tag),
{
    match tag {
        Some(t) => Some(t.clone()),
        None => None,
    }
}

/// The hits of the query in one text.
fn hits_in(t: &str, query: &str, needle: &str, spec: &FindSpec) -> (r: Vec<(usize, String)>)
    requires
        !spec.regex ==> needle@ == needle_of(query@, spec.case_sensitive),
        spec.regex ==> regex_builds(query@, !spec.case_sensitive),
    ensures
        hits_view(r@) == text_hits(t@, query@, *spec),
{
    if spec.regex {
        regex_in(t, query, !spec.case_sensitive)
    } else {
        literal_find_all(t, needle, spec.case_sensitive, spec.whole_word)
    }
}

/// The hits of a pattern that builds, with character offsets.
fn regex_in(t: &str, pattern: &str, case_insensitive: bool) -> (r: Vec<(usize, String)>)
    requires
        regex_builds(pattern@, case_insensitive),
    ensures
        hits_view(r@) == regex_char_hits(t@, regex_hits(pattern@, case_insensitive, t@)),
{
    let total = t.as_bytes().len();
    proof {
        lemma_bytes_encoded(t@);
    }
    assert(total == bytes_of(t@));
    let h = chars_of(t);
    let raw = match regex_find_all(pattern, case_insensitive, t) {
        Some(v) => v,
        None => Vec::new(),
    };
    let ghost hs = regex_hits(pattern@, case_insensitive, t@);
    assert(hits_view(raw@) == hs);
    assert(h@.take(0) =~= Seq::<char>::empty());
    let mut out: Vec<(usize, String)> = Vec::new();
    let mut i: usize = 0;
    while i < raw.len()
        invariant
            i <= raw@.len(),
            h@ == t@,
            fits(h@),
            bytes_of(h@.take(0)) == 0,
            hits_view(raw@) == hs,
            forall|j: int| 0 <= j < raw@.len() ==> char_at_byte(t@, #[trigger] raw@[j].0 as int) is Some,
            hits_view(out@) == regex_char_hits(t@, hs).take(i as int),
        decreases raw@.len() - i,
    {
        let (found, ci) = locate_byte(&h, 0, 0, raw[i].0);
        assert(char_at_byte(t@, raw@[i as int].0 as int) is Some);
        assert(found);
        let text = raw[i].1.clone();
        let ghost before = out@;
        out.push((ci, text));
        proof {
            assert(hs[i as int] == (raw@[i as int].0 as nat, raw@[i as int].1@));
            assert(regex_char_hits(t@, hs).take(i + 1) =~= regex_char_hits(t@, hs).take(i as int).push(
                regex_char_hits(t@, hs)[i as int],
            ));
            assert(hits_view(out@) =~= hits_view(before).push((ci as nat, text@)));
        }
        i += 1;
    }
    assert(regex_char_hits(t@, hs).take(raw@.len() as int) =~= regex_char_hits(t@, hs));
    out
}

/// Appends a text node's hits under the cap.
fn push_hits(tag: &Option<String>, index: usize, hs: &Vec<(usize, String)>, cap: usize, out: &mut Vec<FindMatch>)
    ensures
        matches_view(final(out)@) == capped(
            matches_view(old(out)@),
            tagged(opt_view(*tag), index as nat, hits_view(hs@)),
            cap,
        ),
{
    let ghost o0 = matches_view(out@);
    let ghost new = tagged(opt_view(*tag), index as nat, hits_view(hs@));
    let mut j: usize = 0;
    assert(new.take(0) =~= Seq::<HitView>::empty());
    assert(o0 + Seq::<HitView>::empty() =~= o0);
    while j < hs.len()
        invariant
            j <= hs@.len(),
            new == tagged(opt_view(*tag), index as nat, hits_view(hs@)),
            new.len() == hs@.len(),
            matches_view(out@) == capped(o0, new.take(j as int), cap),
        decreases hs@.len() - j,
    {
        let ghost cur = out@;
        if cap > 0 && out.len() >= cap {
            proof {
                assert(matches_view(cur).len() == cur.len());
                if o0.len() < cap {
                    assert(new.take(j + 1).take(cap - o0.len()) =~= new.take(cap - o0.len()));
                    assert(new.take(j as int).take(cap - o0.len()) =~= new.take(cap - o0.len()));
                }
            }
        } else {
            let m = FindMatch {
                enclosing_tag: clone_tag(tag),
                text_node_index: index,
                offset: hs[j].0,
                matched: hs[j].1.clone(),
            };
            out.push(m);
            proof {
                assert(matches_view(out@) =~= matches_view(cur).push(hit_view(m)));
                assert(hit_view(m) == new[j as int]);
                assert(new.take(j + 1) =~= new.take(j as int).push(new[j as int]));
                assert(matches_view(cur).len() == cur.len());
                if cap == 0 {
                    assert(o0 + new.take(j + 1) =~= (o0 + new.take(j as int)).push(new[j as int]));
                } else {
                    assert(o0.len() < cap);
                    assert(j < cap - o0.len());
                    assert(o0 + new.take(j + 1) =~= (o0 + new.take(j as int)).push(new[j as int]));
                }
            }
        }
        j += 1;
    }
    assert(new.take(hs@.len() as int) =~= new);
}

/// The search of a subtree; `false` where a text's search panics.
fn walk(
    node: &Node,
    tag: &Option<String>,
    query: &str,
    needle: &str,
    spec: &FindSpec,
    out: &mut Vec<FindMatch>,
    idx: &mut usize,
)
    requires
        *old(idx) + 1 + descendants(node@) < usize::MAX,
        !spec.regex ==> needle@ == needle_of(query@, spec.case_sensitive),
        spec.regex ==> regex_builds(query@, !spec.case_sensitive),
    ensures
        walk_node(node@, opt_view(*tag), query@, *spec, (matches_view(old(out)@), *old(idx) as nat)) == (
            matches_view(final(out)@),
            *final(idx) as nat,
        ),
    decreases node,
{
    let ghost cs = nodes_view(node.children@);
    proof {
        lemma_nodes_view(node.children@);
        assert(node@.children == cs);
    }
    match &node.data {
        NodeData::Text(t) => {
            let hs = hits_in(t.as_str(), query, needle, spec);
            let this_idx = *idx;
            *idx = *idx + 1;
            push_hits(tag, this_idx, &hs, spec.max_matches, out);
        },
        NodeData::Comment(_) => {},
        NodeData::Element(el) => {
            let lt = to_ascii_lowercase(el.tag.as_str());
            if str_eq(lt.as_str(), "script") || str_eq(lt.as_str(), "style") || str_eq(lt.as_str(), "noscript")
                || str_eq(lt.as_str(), "template") {
                return ;
            }
            let inner = Some(lt);
            walk_children_exec(node, &inner, true, query, needle, spec, out, idx);
        },
        NodeData::Document => walk_children_exec(node, tag, false, query, needle, spec, out, idx),
    }
}

fn walk_children_exec(
    node: &Node,
    tag: &Option<String>,
    checked: bool,
    query: &str,
    needle: &str,
    spec: &FindSpec,
    out: &mut Vec<FindMatch>,
    idx: &mut usize,
)
    requires
        *old(idx) + 1 + descendants(node@) < usize::MAX,
        !spec.regex ==> needle@ == needle_of(query@, spec.case_sensitive),
        spec.regex ==> regex_builds(query@, !spec.case_sensitive),
    ensures
        walk_children(
            node@.children,
            opt_view(*tag),
            checked,
            query@,
            *spec,
            (matches_view(old(out)@), *old(idx) as nat),
        ) == (matches_view(final(out)@), *final(idx) as nat),
    decreases node, 0int,
{
    let ghost cs = nodes_view(node.children@);
    let ghost st0 = (matches_view(out@), *idx as nat);
    let ghost tv = opt_view(*tag);
    proof {
        lemma_nodes_view(node.children@);
        assert(node@.children == cs);
        assert(descendants(node@) == descendants_of(cs));
    }
    let mut i: usize = 0;
    assert(cs.take(0) =~= Seq::<NodeView>::empty());
    while i < node.children.len()
        invariant
            i <= node.children@.len(),
            cs == nodes_view(node.children@),
            node@.children == cs,
            st0 == (matches_view(old(out)@), *old(idx) as nat),
            cs.len() == node.children@.len(),
            forall|j: int| 0 <= j < cs.len() ==> #[trigger] cs[j] == node_view(node.children@[j]),
            st0.1 + 1 + descendants_of(cs) < usize::MAX,
            tv == opt_view(*tag),
            !spec.regex ==> needle@ == needle_of(query@, spec.case_sensitive),
            spec.regex ==> regex_builds(query@, !spec.case_sensitive),
            walk_children(cs.take(i as int), tv, checked, query@, *spec, st0) == (matches_view(out@), *idx as nat),
        decreases node.children@.len() - i,
    {
        proof {
            let t = cs.take(i + 1);
            assert(t.drop_last() =~= cs.take(i as int));
            assert(t.last() == cs[i as int]);
            lemma_descendants_prefix(cs, i as int);
            lemma_children_count(cs.take(i as int), tv, checked, query@, *spec, st0);
            assert(decreases_to!(node => node.children));
            assert(decreases_to!(node.children => node.children@));
            assert(decreases_to!(node.children@ => node.children@[i as int]));
        }
        if checked && spec.max_matches > 0 && out.len() >= spec.max_matches {
            proof {
                assert(matches_view(out@).len() == out@.len());
            }
        } else {
            proof {
                assert(matches_view(out@).len() == out@.len());
            }
            let ghost s1 = (matches_view(out@), *idx as nat);
            assert(!(checked && full(s1.0, spec.max_matches)));
            walk(&node.children[i], tag, query, needle, spec, out, idx);
        }
        i += 1;
    }
    assert(cs.take(cs.len() as int) =~= cs);
}

/// Every hit of `query` in `doc`, in document order: none for an empty query or a regular
/// expression that does not build; at most `max_matches` when that is set. Text under
/// `script`, `style`, `noscript` and `template` is not searched.
pub fn find_in_document(doc: &Document, query: &str, spec: &FindSpec) -> (r: Vec<FindMatch>)
    requires
        descendants(doc@) + 1 < usize::MAX,
    ensures
        matches_view(r@) == find_hits(doc@, query@, *spec),
{
    let q = chars_of(query);
    if q.len() == 0 {
        return Vec::new();
    }
    if spec.regex {
        if regex_find_all(query, !spec.case_sensitive, "").is_none() {
            return Vec::new();
        }
    }
    let needle = if spec.regex {
        owned(query)
    } else {
        let (f, _) = fold_chars(&q, spec.case_sensitive);
        string_from_chars(f.as_slice())
    };
    let mut out: Vec<FindMatch> = Vec::new();
    let mut idx: usize = 0;
    let none: Option<String> = None;
    assert(matches_view(out@) =~= Seq::<HitView>::empty());
    walk(&doc.root, &none, query, needle.as_str(), spec, &mut out, &mut idx);
    out
}

} // verus!
