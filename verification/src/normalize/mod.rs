//! `(defnormalize)` — canonical-form rewrites: rename the elements a selector matches to a
//! canonical tag, optionally only on pages where a given framework was detected.
use vstd::prelude::*;

use crate::framework::Framework;
use crate::registry::{upsert, upsert_all, upserted, upserted_all, Named};
use crate::text::{contains_str, contains_sub, lower, str_eq, to_ascii_lowercase};

verus! {

/// One rewrite rule.
#[derive(Debug, Clone, PartialEq)]
pub struct NormalizeSpec {
    pub name: String,
    /// Fire only when this framework was detected; matched case-insensitively against the
    /// framework's variant name.
    pub framework: Option<String>,
    pub selector: String,
    /// The new tag of every matching element.
    pub rename_to: String,
    pub description: Option<String>,
}

impl Named for NormalizeSpec {
    open spec fn key(&self) -> Seq<char> {
        self.name@
    }

    fn name_ref(&self) -> (r: &str) {
        self.name.as_str()
    }
}
/// Normalize rules, one per name.
#[derive(Debug, Clone)]
pub struct NormalizeRegistry {
    specs: Vec<NormalizeSpec>,
}

impl View for NormalizeRegistry {
    type V = Seq<NormalizeSpec>;

    closed spec fn view(&self) -> Seq<NormalizeSpec> {
        self.specs@
    }
}

impl NormalizeRegistry {
    /// An empty registry.
    pub fn new() -> (r: Self)
        ensures
            r@ == Seq::<NormalizeSpec>::empty(),
    {
        NormalizeRegistry { specs: Vec::new() }
    }

    /// Adds `spec`, replacing any entry of the same name.
    pub fn insert(&mut self, spec: NormalizeSpec)
        ensures
            final(self)@ == upserted(old(self)@, spec),
    {
        upsert(&mut self.specs, spec);
    }

    /// Adds each spec in order.
    pub fn extend(&mut self, specs: Vec<NormalizeSpec>)
        ensures
            final(self)@ == upserted_all(old(self)@, specs@),
    {
        upsert_all(&mut self.specs, specs);
    }

    /// Number of entries.
    pub fn len(&self) -> (r: usize)
        ensures
            r == self@.len(),
    {
        self.specs.len()
    }

    /// No entry is registered.
    pub fn is_empty(&self) -> (r: bool)
        ensures
            r == (self@.len() == 0),
    {
        self.specs.len() == 0
    }

    /// The entries in order.
    pub fn specs(&self) -> (r: &[NormalizeSpec])
        ensures
            r@ == self@,
    {
        self.specs.as_slice()
    }
}

/// One element rewritten.
#[derive(Debug, Clone, PartialEq, Eq)]
pub struct NormalizeHit {
    pub rule: String,
    pub from_tag: String,
    pub to_tag: String,
}

/// The rewrites one pass made.
#[derive(Debug, Clone, PartialEq, Eq)]
pub struct NormalizeReport {
    pub hits: Vec<NormalizeHit>,
}

impl Default for NormalizeReport {
    fn default() -> (r: Self)
        ensures
            r.hits@.len() == 0,
    {
        NormalizeReport { hits: Vec::new() }
    }
}

impl NormalizeReport {
    /// Number of elements rewritten.
    pub fn applied(&self) -> (r: usize)
        ensures
            r == self.hits@.len(),
    {
        self.hits.len()
    }
}

/// A framework satisfies the wanted (lower-cased) name: its lower-cased variant name is it or
/// contains it.
pub open spec fn framework_named(f: Framework, want: Seq<char>) -> bool {
    let n = lower(f.variant_name()@);
    n == want || contains_sub(n, want)
}

/// The rule's framework gate passes: no gate, or some detected framework satisfies it.
pub open spec fn gate_passes(gate: Option<Seq<char>>, detected: Seq<Framework>) -> bool {
    match gate {
        None => true,
        Some(want) => exists|i: int| 0 <= i < detected.len() && framework_named(#[trigger] detected[i], lower(want)),
    }
}

/// Whether a rule with framework gate `gate` fires on a page where `detected` were found.
pub fn framework_matches(gate: Option<&str>, detected: &[Framework]) -> (r: bool)
    ensures
        r == gate_passes(
            match gate {
                Some(g) => Some(g@),
                None => None,
            },
            detected@,
        ),
{
    let want = match gate {
        None => {
            return true;
        },
        Some(g) => to_ascii_lowercase(g),
    };
    let mut i: usize = 0;
    while i < detected.len()
        invariant
            i <= detected@.len(),
            gate matches Some(g) && want@ == lower(g@),
            forall|j: int| 0 <= j < i ==> !framework_named(#[trigger] detected@[j], want@),
        decreases detected@.len() - i,
    {
        let name = to_ascii_lowercase(detected[i].variant());
        if str_eq(name.as_str(), want.as_str()) || contains_str(name.as_str(), want.as_str()) {
            return true;
        }
        i += 1;
    }
    false
}

} // verus!
