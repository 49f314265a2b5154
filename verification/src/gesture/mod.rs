//! `(defgesture)` — mouse-gesture bindings. A stroke is a space-separated list of direction
//! tokens (`U`, `D`, `L`, `R` and the diagonals) and button or wheel tokens (`click`,
//! `right-click`, `wheel-up`, ...); it names a command. Strokes are compared in canonical form:
//! whitespace collapsed, direction tokens upper-cased, every other token lower-cased.
use vstd::prelude::*;

use crate::registry::{first_where, lemma_filter_push, lemma_first_where_found, lemma_first_where_none};
use crate::text::{
    chars_of, is_word, is_ws, join, join_strings, lemma_join_words_spacing, lemma_words_are_words, lemma_words_join, lower, lower_char,
    split_whitespace, str_eq, to_ascii_lowercase, to_ascii_uppercase, upper, upper_char, views, words,
};

verus! {

/// One gesture binding.
#[derive(Debug, Clone, PartialEq)]
pub struct GestureSpec {
    /// The stroke, as authored.
    pub stroke: String,
    /// The command it fires.
    pub command: String,
    /// Optional predicate gate.
    pub when: Option<String>,
    pub description: Option<String>,
}

/// `u` or `d`.
pub open spec fn is_vertical(c: char) -> bool {
    c == 'u' || c == 'd'
}

/// `l` or `r`.
pub open spec fn is_horizontal(c: char) -> bool {
    c == 'l' || c == 'r'
}

/// A lower-cased direction token: `u`, `d`, `l`, `r`, or a vertical and a horizontal letter in
/// either order (`ul`, `ur`, `dl`, `dr`, `lu`, `ru`, `ld`, `rd`).
pub open spec fn is_direction(t: Seq<char>) -> bool {
    (t.len() == 1 && (is_vertical(t[0]) || is_horizontal(t[0]))) || (t.len() == 2 && ((is_vertical(t[0])
        && is_horizontal(t[1])) || (is_horizontal(t[0]) && is_vertical(t[1]))))
}

/// A token in canonical form: direction tokens upper-cased, all others lower-cased.
pub open spec fn canonical_token(t: Seq<char>) -> Seq<char> {
    if is_direction(lower(t)) {
        upper(lower(t))
    } else {
        lower(t)
    }
}

/// Each token of `ws` in canonical form.
pub open spec fn canonical_tokens(ws: Seq<Seq<char>>) -> Seq<Seq<char>> {
    ws.map_values(|w: Seq<char>| canonical_token(w))
}

/// A stroke in canonical form: its tokens canonicalized and joined by single spaces.
pub open spec fn canonical(s: Seq<char>) -> Seq<char> {
    join(canonical_tokens(words(s)), seq![' '])
}

/// The canonical form of one token.
fn canonicalize_token(t: &str) -> (r: String)
    ensures
        r@ == canonical_token(t@),
{
    let l = to_ascii_lowercase(t);
    let c = chars_of(l.as_str());
    let v0 = c.len() >= 1 && (c[0] == 'u' || c[0] == 'd');
    let h0 = c.len() >= 1 && (c[0] == 'l' || c[0] == 'r');
    let v1 = c.len() >= 2 && (c[1] == 'u' || c[1] == 'd');
    let h1 = c.len() >= 2 && (c[1] == 'l' || c[1] == 'r');
    let dir = (c.len() == 1 && (v0 || h0)) || (c.len() == 2 && ((v0 && h1) || (h0 && v1)));
    if dir {
        to_ascii_uppercase(l.as_str())
    } else {
        l
    }
}

/// The canonical form of a stroke.
pub fn canonicalize_stroke(input: &str) -> (r: String)
    ensures
        r@ == canonical(input@),
{
    let ws = split_whitespace(input);
    let ghost all = views(ws@);
    let mut out: Vec<String> = Vec::new();
    let mut i: usize = 0;
    while i < ws.len()
        invariant
            i <= ws@.len(),
            all == views(ws@),
            views(out@) == canonical_tokens(all.take(i as int)),
        decreases ws@.len() - i,
    {
        let t = canonicalize_token(ws[i].as_str());
        let ghost prev = views(out@);
        let ghost old_out = out@;
        let ghost tv = t@;
        out.push(t);
        proof {
            let a = canonical_tokens(all.take(i + 1));
            let b = views(out@);
            assert(prev == canonical_tokens(all.take(i as int)));
            assert(all.len() == ws@.len());
            assert(all.take(i as int).len() == i);
            assert(prev.len() == old_out.len());
            assert(old_out.len() == i);
            assert(b.len() == a.len());
            assert forall|k: int| 0 <= k < a.len() implies b[k] == a[k] by {
                if k < i {
                    assert(b[k] == out@[k]@);
                    assert(out@[k] == old_out[k]);
                    assert(prev[k] == old_out[k]@);
                    assert(all.take(i as int)[k] == all.take(i + 1)[k]);
                } else {
                    assert(b[k] == tv);
                    assert(all[k] == ws@[k]@);
                }
            }
            assert(b =~= a);
        }
        i += 1;
    }
    assert(all.take(ws@.len() as int) =~= all);
    let sep = " ";
    proof {
        reveal_strlit(" ");
    }
    assert(sep@ =~= seq![' ']);
    join_strings(&out, sep)
}

impl GestureSpec {
    /// This binding's stroke in canonical form.
    pub fn canonical_stroke(&self) -> (r: String)
        ensures
            r@ == canonical(self.stroke@),
    {
        canonicalize_stroke(self.stroke.as_str())
    }
}

/// A binding's stroke canonicalizes to `c`.
pub open spec fn stroke_is(c: Seq<char>) -> spec_fn(GestureSpec) -> bool {
    |g: GestureSpec| canonical(g.stroke@) == c
}

/// A binding's stroke canonicalizes to something other than `c`.
pub open spec fn stroke_differs(c: Seq<char>) -> spec_fn(GestureSpec) -> bool {
    |g: GestureSpec| canonical(g.stroke@) != c
}

/// The bindings after adding `g`: every binding with the same canonical stroke dropped, `g` last.
pub open spec fn with_gesture(s: Seq<GestureSpec>, g: GestureSpec) -> Seq<GestureSpec> {
    s.filter(stroke_differs(canonical(g.stroke@))).push(g)
}

/// The bindings after adding each of `gs` in order.
pub open spec fn with_gestures(s: Seq<GestureSpec>, gs: Seq<GestureSpec>) -> Seq<GestureSpec>
    decreases gs.len(),
{
    if gs.len() == 0 {
        s
    } else {
        with_gesture(with_gestures(s, gs.drop_last()), gs.last())
    }
}

/// Index of the first binding whose stroke canonicalizes to `c`.
pub open spec fn stroke_index(s: Seq<GestureSpec>, c: Seq<char>) -> Option<int> {
    first_where(s, stroke_is(c))
}

/// No two bindings share a canonical stroke.
pub open spec fn strokes_distinct(s: Seq<GestureSpec>) -> bool {
    forall|i: int, j: int|
        0 <= i < s.len() && 0 <= j < s.len() && i != j ==> canonical(s[i].stroke@) != canonical(s[j].stroke@)
}

/// Gesture bindings keyed by canonical stroke.
#[derive(Debug)]
pub struct GestureRegistry {
    specs: Vec<GestureSpec>,
}

impl View for GestureRegistry {
    type V = Seq<GestureSpec>;

    closed spec fn view(&self) -> Seq<GestureSpec> {
        self.specs@
    }
}

impl GestureRegistry {
    /// No two bindings share a canonical stroke.
    #[verifier::type_invariant]
    spec fn strokes_unique(self) -> bool {
        strokes_distinct(self.specs@)
    }

    /// An empty registry.
    pub fn new() -> (r: Self)
        ensures
            r@ == Seq::<GestureSpec>::empty(),
    {
        GestureRegistry { specs: Vec::new() }
    }

    /// Adds `spec`, replacing every binding with the same canonical stroke.
    pub fn insert(&mut self, spec: GestureSpec)
        ensures
            final(self)@ == with_gesture(old(self)@, spec),
            strokes_distinct(final(self)@),
    {
        proof {
            use_type_invariant(&*self);
        }
        let canon = canonicalize_stroke(spec.stroke.as_str());
        let mut old_specs: Vec<GestureSpec> = Vec::new();
        std::mem::swap(&mut old_specs, &mut self.specs);
        let ghost o = old_specs@;
        let ghost p = stroke_differs(canon@);
        let mut kept: Vec<GestureSpec> = Vec::new();
        assert(o.take(0) =~= seq![]);
        assert(kept@ =~= o.take(0).filter(p));
        for g in it: old_specs
            invariant
                it.seq() == o,
                p == stroke_differs(canon@),
                kept@ == o.take(it.index() as int).filter(p),
        {
            let ghost k = it.index() as int;
            proof {
                assert(o.take(k + 1) =~= o.take(k).push(o[k]));
                lemma_filter_push(o.take(k), o[k], p);
            }
            let c = canonicalize_stroke(g.stroke.as_str());
            if !str_eq(c.as_str(), canon.as_str()) {
                kept.push(g);
            }
        }
        assert(o.take(o.len() as int) =~= o);
        kept.push(spec);
        proof {
            law_insert_then_resolve(o, spec);
        }
        self.specs = kept;
    }

    /// Adds each spec in order.
    pub fn extend(&mut self, specs: Vec<GestureSpec>)
        ensures
            final(self)@ == with_gestures(old(self)@, specs@),
            strokes_distinct(final(self)@),
    {
        proof {
            use_type_invariant(&*self);
        }
        let ghost start = self@;
        let ghost all = specs@;
        for spec in it: specs
            invariant
                it.seq() == all,
                self@ == with_gestures(start, all.take(it.index() as int)),
        {
            proof {
                let k = it.index() as int;
                assert(all.take(k + 1).drop_last() =~= all.take(k));
                assert(all.take(k + 1).last() == all[k]);
            }
            self.insert(spec);
        }
        proof {
            assert(all.take(all.len() as int) =~= all);
            use_type_invariant(&*self);
        }
    }

    /// Number of bindings.
    pub fn len(&self) -> (r: usize)
        ensures
            r == self@.len(),
    {
        self.specs.len()
    }

    /// No binding is registered.
    pub fn is_empty(&self) -> (r: bool)
        ensures
            r == (self@.len() == 0),
    {
        self.specs.len() == 0
    }

    /// The bindings in order; no two share a canonical stroke.
    pub fn specs(&self) -> (r: &[GestureSpec])
        ensures
            r@ == self@,
            strokes_distinct(r@),
    {
        proof {
            use_type_invariant(self);
        }
        self.specs.as_slice()
    }

    /// The binding whose stroke is, in canonical form, the same as `stroke`.
    pub fn resolve(&self, stroke: &str) -> (r: Option<&GestureSpec>)
        ensures
            match stroke_index(self@, canonical(stroke@)) {
                Some(i) => r == Some(&self@[i]),
                None => r.is_none(),
            },
    {
        let canon = canonicalize_stroke(stroke);
        let ghost p = stroke_is(canon@);
        let mut i: usize = 0;
        while i < self.specs.len()
            invariant
                i <= self.specs@.len(),
                canon@ == canonical(stroke@),
                p == stroke_is(canon@),
                forall|j: int| 0 <= j < i ==> !p(#[trigger] self.specs@[j]),
            decreases self.specs@.len() - i,
        {
            let c = canonicalize_stroke(self.specs[i].stroke.as_str());
            if str_eq(c.as_str(), canon.as_str()) {
                proof {
                    lemma_first_where_found(self.specs@, p, i as int);
                }
                return Some(&self.specs[i]);
            }
            i += 1;
        }
        proof {
            lemma_first_where_none(self.specs@, p);
        }
        None
    }

    /// The canonical stroke of each binding, in order.
    pub fn strokes(&self) -> (r: Vec<String>)
        ensures
            r@.len() == self@.len(),
            forall|i: int| 0 <= i < self@.len() ==> #[trigger] r@[i]@ == canonical(self@[i].stroke@),
    {
        let mut out: Vec<String> = Vec::new();
        let mut i: usize = 0;
        while i < self.specs.len()
            invariant
                i <= self.specs@.len(),
                out@.len() == i,
                forall|j: int| 0 <= j < i ==> #[trigger] out@[j]@ == canonical(self.specs@[j].stroke@),
            decreases self.specs@.len() - i,
        {
            out.push(canonicalize_stroke(self.specs[i].stroke.as_str()));
            i += 1;
        }
        out
    }
}

/// After adding `g`, its canonical stroke resolves to `g`, and no two bindings share a canonical
/// stroke if none did before.
pub proof fn law_insert_then_resolve(s: Seq<GestureSpec>, g: GestureSpec)
    ensures
        stroke_index(with_gesture(s, g), canonical(g.stroke@)) == Some(with_gesture(s, g).len() - 1),
        with_gesture(s, g).last() == g,
        strokes_distinct(s) ==> strokes_distinct(with_gesture(s, g)),
{
    let c = canonical(g.stroke@);
    let f = s.filter(stroke_differs(c));
    s.filter_lemma(stroke_differs(c));
    assert forall|j: int| 0 <= j < f.len() implies !stroke_is(c)(#[trigger] f[j]) by {
        assert(stroke_differs(c)(f[j]));
    }
    lemma_first_where_none(f, stroke_is(c));
    crate::registry::lemma_first_where_push(f, stroke_is(c), g);
    if strokes_distinct(s) {
        lemma_filter_keeps_distinct(s, stroke_differs(c));
        let t = f.push(g);
        assert forall|i: int, j: int| 0 <= i < t.len() && 0 <= j < t.len() && i != j implies canonical(
            t[i].stroke@,
        ) != canonical(t[j].stroke@) by {
            if i < f.len() && j >= f.len() {
                assert(stroke_differs(c)(f[i]));
            } else if j < f.len() && i >= f.len() {
                assert(stroke_differs(c)(f[j]));
            }
        }
    }
}

/// Dropping bindings keeps canonical strokes distinct.
proof fn lemma_filter_keeps_distinct(s: Seq<GestureSpec>, p: spec_fn(GestureSpec) -> bool)
    requires
        strokes_distinct(s),
    ensures
        strokes_distinct(s.filter(p)),
    decreases s.len(),
{
    if s.len() > 0 {
        let t = s.drop_last();
        let x = s.last();
        assert(t.push(x) =~= s);
        assert(strokes_distinct(t)) by {
            assert forall|i: int, j: int| 0 <= i < t.len() && 0 <= j < t.len() && i != j implies canonical(
                t[i].stroke@,
            ) != canonical(t[j].stroke@) by {
                assert(t[i] == s[i] && t[j] == s[j]);
            }
        }
        lemma_filter_keeps_distinct(t, p);
        lemma_filter_push(t, x, p);
        if p(x) {
            let ft = t.filter(p);
            assert forall|i: int| 0 <= i < ft.len() implies canonical(#[trigger] ft[i].stroke@) != canonical(x.stroke@) by {
                t.lemma_filter_contains_rev(p, ft[i]);
                assert(ft.contains(ft[i]));
                let k = choose|k: int| 0 <= k < t.len() && t[k] == ft[i];
                assert(s[k] == t[k]);
                assert(s[s.len() - 1] == x);
            }
            let fs = ft.push(x);
            assert forall|i: int, j: int| 0 <= i < fs.len() && 0 <= j < fs.len() && i != j implies canonical(
                fs[i].stroke@,
            ) != canonical(fs[j].stroke@) by {
                if i == ft.len() {
                    assert(canonical(ft[j].stroke@) != canonical(x.stroke@));
                } else if j == ft.len() {
                    assert(canonical(ft[i].stroke@) != canonical(x.stroke@));
                }
            }
        }
    }
}

// ─── canonical form ──────────────────────────────────────────────

proof fn lemma_token_case(t: Seq<char>)
    ensures
        lower(lower(t)) == lower(t),
        lower(upper(lower(t))) == lower(t),
{
    assert(lower(lower(t)) =~= lower(t));
    assert(lower(upper(lower(t))) =~= lower(t));
}

/// A canonical token is its own canonical form, and a word stays a word.
proof fn lemma_canonical_token(t: Seq<char>)
    ensures
        canonical_token(canonical_token(t)) == canonical_token(t),
        is_word(t) ==> is_word(canonical_token(t)),
{
    lemma_token_case(t);
    let c = canonical_token(t);
    if is_word(t) {
        assert forall|k: int| 0 <= k < c.len() implies !is_ws(#[trigger] c[k]) by {
            assert(!is_ws(t[k]));
            assert(!is_ws(lower_char(t[k])));
            assert(!is_ws(upper_char(lower_char(t[k]))));
        }
    }
}

/// Canonicalizing a stroke twice changes nothing, and a canonical stroke is its words, each
/// non-empty and free of whitespace, joined by single spaces: no leading, trailing or doubled
/// space.
pub proof fn law_canonical_stroke(s: Seq<char>)
    ensures
        canonical(canonical(s)) == canonical(s),
        words(canonical(s)) == canonical_tokens(words(s)),
        canonical(s) == join(words(canonical(s)), seq![' ']),
        forall|i: int| 0 <= i < words(canonical(s)).len() ==> is_word(#[trigger] words(canonical(s))[i]),
        canonical(s).len() > 0 ==> canonical(s)[0] != ' ' && canonical(s).last() != ' ',
        forall|i: int|
            0 <= i < canonical(s).len() - 1 ==> !(#[trigger] canonical(s)[i] == ' ' && canonical(s)[i + 1] == ' '),
{
    let ws = words(s);
    let cs = canonical_tokens(ws);
    lemma_words_are_words(s);
    assert forall|i: int| 0 <= i < cs.len() implies is_word(#[trigger] cs[i]) by {
        assert(is_word(ws[i]));
        lemma_canonical_token(ws[i]);
    }
    lemma_words_join(cs);
    lemma_join_words_spacing(cs);
    assert forall|i: int| 0 <= i < cs.len() implies #[trigger] canonical_tokens(cs)[i] == cs[i] by {
        lemma_canonical_token(ws[i]);
    }
    assert(canonical_tokens(cs) =~= cs);
}

} // verus!
