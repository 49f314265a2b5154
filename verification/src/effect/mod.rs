//! `(defeffect)` — effects: when a trigger fires and an optional predicate holds, a Lisp
//! expression runs against the state store. Deciding which effects fire is separate from
//! running them.
use vstd::prelude::*;

use crate::registry::{find_key, index_of_key, lemma_first_where_spec, upsert, upsert_all, upserted, upserted_all, Named};
use crate::text::{owned, push_str, str_eq};

verus! {

/// A named effect.
#[derive(Debug, Clone, PartialEq)]
pub struct EffectSpec {
    pub name: String,
    pub description: Option<String>,
    /// The trigger, such as `"page-load"`.
    pub on: String,
    /// A predicate that gates the effect.
    pub when: Option<String>,
    /// Lisp source run when the effect fires.
    pub run: String,
    pub tags: Vec<String>,
}

impl Named for EffectSpec {
    open spec fn key(&self) -> Seq<char> {
        self.name@
    }

    fn name_ref(&self) -> (r: &str) {
        self.name.as_str()
    }
}
/// Effects, one per name.
#[derive(Debug, Clone)]
pub struct EffectRegistry {
    effects: Vec<EffectSpec>,
}

impl View for EffectRegistry {
    type V = Seq<EffectSpec>;

    closed spec fn view(&self) -> Seq<EffectSpec> {
        self.effects@
    }
}

impl EffectRegistry {
    /// An empty registry.
    pub fn new() -> (r: Self)
        ensures
            r@ == Seq::<EffectSpec>::empty(),
    {
        EffectRegistry { effects: Vec::new() }
    }

    /// Adds `spec`, replacing any entry of the same name.
    pub fn insert(&mut self, spec: EffectSpec)
        ensures
            final(self)@ == upserted(old(self)@, spec),
    {
        upsert(&mut self.effects, spec);
    }

    /// Adds each spec in order.
    pub fn extend(&mut self, specs: Vec<EffectSpec>)
        ensures
            final(self)@ == upserted_all(old(self)@, specs@),
    {
        upsert_all(&mut self.effects, specs);
    }

    /// Number of entries.
    pub fn len(&self) -> (r: usize)
        ensures
            r == self@.len(),
    {
        self.effects.len()
    }

    /// No entry is registered.
    pub fn is_empty(&self) -> (r: bool)
        ensures
            r == (self@.len() == 0),
    {
        self.effects.len() == 0
    }

    /// The entries in order.
    pub fn specs(&self) -> (r: &[EffectSpec])
        ensures
            r@ == self@,
    {
        self.effects.as_slice()
    }

    /// The first entry named `name`.
    pub fn get(&self, name: &str) -> (r: Option<&EffectSpec>)
        ensures
            match index_of_key(self@, name@) {
                Some(i) => r == Some(&self@[i]),
                None => r.is_none(),
            },
    {
        match find_key(&self.effects, name) {
            Some(i) => {
                proof {
                    lemma_first_where_spec(self.effects@, crate::registry::key_equals::<EffectSpec>(name@));
                }
                Some(&self.effects[i])
            },
            None => None,
        }
    }
}

/// An effect listens on `trigger`.
pub open spec fn listens_on(trigger: Seq<char>) -> spec_fn(EffectSpec) -> bool {
    |e: EffectSpec| e.on@ == trigger
}

impl EffectRegistry {
    /// The effects with trigger `trigger`, in order.
    pub fn for_trigger(&self, trigger: &str) -> (r: Vec<&EffectSpec>)
        ensures
            r@.map_values(|x: &EffectSpec| *x) == self@.filter(listens_on(trigger@)),
    {
        let ghost pred = listens_on(trigger@);
        let mut out: Vec<&EffectSpec> = Vec::new();
        let mut i: usize = 0;
        while i < self.effects.len()
            invariant
                i <= self.effects@.len(),
                pred == listens_on(trigger@),
                out@.map_values(|x: &EffectSpec| *x) == self.effects@.take(i as int).filter(pred),
            decreases self.effects@.len() - i,
        {
            let s = &self.effects[i];
            let ghost before = out@;
            proof {
                let t = self.effects@.take(i + 1);
                assert(t.drop_last() =~= self.effects@.take(i as int));
                reveal_with_fuel(Seq::<_>::filter, 1);
            }
            if str_eq(s.on.as_str(), trigger) {
                out.push(s);
                assert(out@.map_values(|x: &EffectSpec| *x) =~= before.map_values(|x: &EffectSpec| *x).push(*s));
            }
            i += 1;
        }
        proof {
            assert(self.effects@.take(self.effects@.len() as int) =~= self.effects@);
        }
        out
    }
}

/// The decision about one effect.
#[derive(Debug, Clone, PartialEq, Eq)]
pub struct EffectDecision {
    pub effect: String,
    pub fired: bool,
    /// The source to run, when it fired.
    pub run: Option<String>,
    /// Why it did not fire.
    pub skipped_reason: Option<String>,
}

/// What running one fired effect gave.
#[derive(Debug, Clone, PartialEq, Eq)]
pub struct EffectRunReport {
    pub effect: String,
    pub ok: bool,
    pub error: Option<String>,
}

/// The predicate's name as text, empty when the effect has none.
pub open spec fn when_text(when: Option<String>) -> Seq<char> {
    match when {
        Some(w) => w@,
        None => Seq::empty(),
    }
}

/// `r` is the decision for `spec` given `verdict`: `None` when it has no predicate, else the
/// predicate's verdict or its error message. A false verdict or an error skips the effect.
pub open spec fn decided(spec: EffectSpec, verdict: Option<Result<bool, String>>, r: EffectDecision) -> bool {
    &&& r.effect@ == spec.name@
    &&& match verdict {
        Some(Ok(false)) => {
            &&& !r.fired
            &&& r.run is None
            &&& match r.skipped_reason {
                Some(m) => m@ == "predicate "@ + when_text(spec.when) + " was false"@,
                None => false,
            }
        },
        Some(Err(e)) => {
            &&& !r.fired
            &&& r.run is None
            &&& match r.skipped_reason {
                Some(m) => m@ == "predicate error: "@ + e@,
                None => false,
            }
        },
        _ => {
            &&& r.fired
            &&& match r.run {
                Some(x) => x@ == spec.run@,
                None => false,
            }
            &&& r.skipped_reason is None
        },
    }
}

/// The decision for `spec`, given what its predicate gave: `None` when it has no predicate, else
/// the predicate's verdict or its error message. A false verdict or an error skips the effect.
pub fn decision_for(spec: &EffectSpec, verdict: &Option<Result<bool, String>>) -> (r: EffectDecision)
    ensures
        decided(*spec, *verdict, r),
{
    let name = owned(spec.name.as_str());
    match verdict {
        Some(Ok(false)) => {
            let mut m = owned("predicate ");
            match &spec.when {
                Some(w) => push_str(&mut m, w.as_str()),
                None => {},
            }
            push_str(&mut m, " was false");
            EffectDecision { effect: name, fired: false, run: None, skipped_reason: Some(m) }
        },
        Some(Err(e)) => {
            let mut m = owned("predicate error: ");
            push_str(&mut m, e.as_str());
            EffectDecision { effect: name, fired: false, run: None, skipped_reason: Some(m) }
        },
        _ => EffectDecision { effect: name, fired: true, run: Some(owned(spec.run.as_str())), skipped_reason: None },
    }
}

/// The verdict handed for the `i`-th effect: absent entries count as "no predicate".
pub open spec fn verdict_at(verdicts: Seq<Option<Result<bool, String>>>, i: int) -> Option<Result<bool, String>> {
    if 0 <= i < verdicts.len() {
        verdicts[i]
    } else {
        None
    }
}

/// Phase one: the decisions for the effects listening on `trigger`, in order. `verdicts[i]` is
/// what the predicate of the `i`-th such effect gave (`None` where it has none).
pub fn decide(registry: &EffectRegistry, trigger: &str, verdicts: &[Option<Result<bool, String>>]) -> (r: Vec<
    EffectDecision,
>)
    ensures
        r@.len() == registry@.filter(listens_on(trigger@)).len(),
        forall|i: int|
            0 <= i < r@.len() ==> decided(
                #[trigger] registry@.filter(listens_on(trigger@))[i],
                verdict_at(verdicts@, i),
                r@[i],
            ),
{
    let chosen = registry.for_trigger(trigger);
    let ghost sel = registry@.filter(listens_on(trigger@));
    assert(chosen@.len() == sel.len()) by {
        assert(chosen@.map_values(|x: &EffectSpec| *x).len() == chosen@.len());
    }
    let mut out: Vec<EffectDecision> = Vec::new();
    let mut i: usize = 0;
    while i < chosen.len()
        invariant
            i <= chosen@.len(),
            sel == registry@.filter(listens_on(trigger@)),
            chosen@.map_values(|x: &EffectSpec| *x) == sel,
            chosen@.len() == sel.len(),
            out@.len() == i,
            forall|j: int| 0 <= j < i ==> decided(#[trigger] sel[j], verdict_at(verdicts@, j), out@[j]),
        decreases chosen@.len() - i,
    {
        let none: Option<Result<bool, String>> = None;
        let v = if i < verdicts.len() {
            &verdicts[i]
        } else {
            &none
        };
        assert(*chosen@[i as int] == sel[i as int]) by {
            assert(chosen@.map_values(|x: &EffectSpec| *x)[i as int] == *chosen@[i as int]);
        }
        let d = decision_for(chosen[i], v);
        out.push(d);
        i += 1;
    }
    out
}

} // verus!
