//! `(defidentity)` — named browsing identities (personal, work, …) with
//! vault bindings, cookie jars and host auto-selection.
use vstd::prelude::*;

use crate::extension::glob::{any_glob_host, any_host_matches};
use crate::registry::{
    find_key, first_where, index_of_key, lemma_first_where_found, lemma_first_where_none, lemma_first_where_spec,
    upsert, upsert_all, upserted, upserted_all, Named,
};
use crate::text::{owned, str_eq};

verus! {

/// How strongly an identity is isolated from the others.
#[derive(Debug, Clone, Copy, PartialEq, Eq, Structural)]
pub enum IdentityIsolation {
    /// Shares storage with every other identity.
    Shared,
    /// Own cookie jar and storage partition.
    PerProfile,
    /// Wiped when the last window of the identity closes.
    Ephemeral,
    /// Separate OS process.
    OsProcess,
}

impl Default for IdentityIsolation {
    fn default() -> (r: Self)
        ensures
            r == IdentityIsolation::PerProfile,
    {
        IdentityIsolation::PerProfile
    }
}

/// A browsing identity.
#[derive(Debug, Clone, PartialEq)]
pub struct IdentitySpec {
    pub name: String,
    pub display_name: String,
    pub avatar_url: Option<String>,
    pub color: Option<String>,
    pub vault: Option<String>,
    pub cookie_jar: Option<String>,
    pub default_email: Option<String>,
    pub default_full_name: Option<String>,
    pub auto_apply_hosts: Vec<String>,
    pub isolation: IdentityIsolation,
    pub default: bool,
    pub totp_profiles: Vec<String>,
    pub priority: i32,
    pub enabled: bool,
    pub description: Option<String>,
}

impl Named for IdentitySpec {
    open spec fn key(&self) -> Seq<char> {
        self.name@
    }

    fn name_ref(&self) -> (r: &str) {
        self.name.as_str()
    }
}

impl IdentitySpec {
    /// The identity is auto-selected on `host`.
    pub open spec fn auto_applies(&self, host: Seq<char>) -> bool {
        any_glob_host(self.auto_apply_hosts@, host)
    }

    /// The identity is bound to the vault `vault`.
    pub open spec fn bound_to(&self, vault: Seq<char>) -> bool {
        match self.vault {
            Some(v) => v@ == vault,
            None => false,
        }
    }

    /// The built-in personal identity.
    pub fn default_profile() -> (r: Self)
        ensures
            r.name@ == "personal"@,
            r.display_name@ == "Personal"@,
            r.avatar_url.is_none(),
            r.color matches Some(c) && c@ == "#6366f1"@,
            r.vault matches Some(v) && v@ == "primary"@,
            r.cookie_jar.is_none(),
            r.default_email.is_none(),
            r.default_full_name.is_none(),
            r.auto_apply_hosts@.len() == 0,
            r.isolation == IdentityIsolation::PerProfile,
            r.default,
            r.totp_profiles@.len() == 0,
            r.priority == 0,
            r.enabled,
            r.description.is_some(),
    {
        IdentitySpec {
            name: owned("personal"),
            display_name: owned("Personal"),
            avatar_url: None,
            color: Some(owned("#6366f1")),
            vault: Some(owned("primary")),
            cookie_jar: None,
            default_email: None,
            default_full_name: None,
            auto_apply_hosts: Vec::new(),
            isolation: IdentityIsolation::PerProfile,
            default: true,
            totp_profiles: Vec::new(),
            priority: 0,
            enabled: true,
            description: Some(owned("Default personal identity — per-profile isolation.")),
        }
    }

    /// The display name, or the name when the display name is empty.
    pub fn label(&self) -> (r: &str)
        ensures
            r@ == if self.display_name@.len() == 0 { self.name@ } else { self.display_name@ },
    {
        if self.display_name.as_str().is_empty() {
            self.name.as_str()
        } else {
            self.display_name.as_str()
        }
    }

    /// Whether the identity is auto-selected on `host`.
    pub fn applies_to(&self, host: &str) -> (r: bool)
        ensures
            r == self.auto_applies(host@),
    {
        any_host_matches(&self.auto_apply_hosts, host)
    }
}

/// Index of the entry satisfying `p` with the highest priority; the last such on ties.
pub open spec fn best_by_priority(s: Seq<IdentitySpec>, p: spec_fn(IdentitySpec) -> bool) -> Option<int>
    decreases s.len(),
{
    if s.len() == 0 {
        None
    } else {
        let prev = best_by_priority(s.drop_last(), p);
        if p(s.last()) {
            match prev {
                Some(j) => if s.last().priority >= s[j].priority {
                    Some(s.len() - 1)
                } else {
                    Some(j)
                },
                None => Some(s.len() - 1),
            }
        } else {
            prev
        }
    }
}

/// Enabled and auto-selected on `host`.
pub open spec fn auto_candidate(host: Seq<char>) -> spec_fn(IdentitySpec) -> bool {
    |s: IdentitySpec| s.enabled && s.auto_applies(host)
}

/// Enabled and marked default.
pub open spec fn default_candidate() -> spec_fn(IdentitySpec) -> bool {
    |s: IdentitySpec| s.enabled && s.default
}

/// Enabled.
pub open spec fn enabled_candidate() -> spec_fn(IdentitySpec) -> bool {
    |s: IdentitySpec| s.enabled
}

/// The identity for `host`: the highest-priority enabled auto-match, else the highest-priority
/// enabled default, else the first enabled identity.
pub open spec fn resolve_identity(s: Seq<IdentitySpec>, host: Seq<char>) -> Option<int> {
    match best_by_priority(s, auto_candidate(host)) {
        Some(i) => Some(i),
        None => match best_by_priority(s, default_candidate()) {
            Some(i) => Some(i),
            None => first_where(s, enabled_candidate()),
        },
    }
}

proof fn lemma_best_in_range(s: Seq<IdentitySpec>, p: spec_fn(IdentitySpec) -> bool)
    ensures
        best_by_priority(s, p) matches Some(j) ==> 0 <= j < s.len() && p(s[j]),
    decreases s.len(),
{
    if s.len() > 0 {
        lemma_best_in_range(s.drop_last(), p);
    }
}

/// Identity profiles, one per name.
#[derive(Debug, Clone)]
pub struct IdentityRegistry {
    specs: Vec<IdentitySpec>,
}

impl View for IdentityRegistry {
    type V = Seq<IdentitySpec>;

    closed spec fn view(&self) -> Seq<IdentitySpec> {
        self.specs@
    }
}

impl IdentityRegistry {
    /// An empty registry.
    pub fn new() -> (r: Self)
        ensures
            r@ == Seq::<IdentitySpec>::empty(),
    {
        IdentityRegistry { specs: Vec::new() }
    }

    /// Adds `spec`, replacing any identity of the same name.
    pub fn insert(&mut self, spec: IdentitySpec)
        ensures
            final(self)@ == upserted(old(self)@, spec),
    {
        upsert(&mut self.specs, spec);
    }

    /// Adds each spec in order.
    pub fn extend(&mut self, specs: Vec<IdentitySpec>)
        ensures
            final(self)@ == upserted_all(old(self)@, specs@),
    {
        upsert_all(&mut self.specs, specs);
    }

    /// Number of identities.
    pub fn len(&self) -> (r: usize)
        ensures
            r == self@.len(),
    {
        self.specs.len()
    }

    /// No identity is registered.
    pub fn is_empty(&self) -> (r: bool)
        ensures
            r == (self@.len() == 0),
    {
        self.specs.len() == 0
    }

    /// The identities in order.
    pub fn specs(&self) -> (r: &[IdentitySpec])
        ensures
            r@ == self@,
    {
        self.specs.as_slice()
    }

    /// The first identity named `name`.
    pub fn get(&self, name: &str) -> (r: Option<&IdentitySpec>)
        ensures
            match index_of_key(self@, name@) {
                Some(i) => r == Some(&self@[i]),
                None => r.is_none(),
            },
    {
        match find_key(&self.specs, name) {
            Some(i) => {
                proof {
                    lemma_first_where_spec(self.specs@, crate::registry::key_equals::<IdentitySpec>(name@));
                }
                Some(&self.specs[i])
            },
            None => None,
        }
    }

    /// Highest-priority index among entries passing `auto` (when `use_auto`) or default ones.
    fn best_index(&self, host: &str, use_auto: bool) -> (r: Option<usize>)
        ensures
            match r {
                Some(k) => best_by_priority(self.specs@, if use_auto { auto_candidate(host@) } else { default_candidate() })
                    == Some(k as int),
                None => best_by_priority(self.specs@, if use_auto { auto_candidate(host@) } else { default_candidate() }).is_none(),
            },
    {
        let ghost p = if use_auto { auto_candidate(host@) } else { default_candidate() };
        let mut best: Option<usize> = None;
        let mut i: usize = 0;
        while i < self.specs.len()
            invariant
                i <= self.specs@.len(),
                p == (if use_auto { auto_candidate(host@) } else { default_candidate() }),
                match best {
                    Some(k) => best_by_priority(self.specs@.take(i as int), p) == Some(k as int),
                    None => best_by_priority(self.specs@.take(i as int), p).is_none(),
                },
            decreases self.specs@.len() - i,
        {
            let s = &self.specs[i];
            let ok = if use_auto {
                s.enabled && s.applies_to(host)
            } else {
                s.enabled && s.default
            };
            proof {
                let t = self.specs@.take(i + 1);
                assert(t.drop_last() =~= self.specs@.take(i as int));
                assert(t.last() == self.specs@[i as int]);
                lemma_best_in_range(self.specs@.take(i as int), p);
                assert(ok == p(self.specs@[i as int]));
            }
            if ok {
                match best {
                    Some(k) => {
                        assert(self.specs@.take(i as int)[k as int] == self.specs@[k as int]);
                        if s.priority >= self.specs[k].priority {
                            best = Some(i);
                        }
                    },
                    None => {
                        best = Some(i);
                    },
                }
            }
            i += 1;
        }
        proof {
            assert(self.specs@.take(self.specs@.len() as int) =~= self.specs@);
        }
        best
    }

    /// The identity for `host`: the highest-priority enabled identity auto-applying to it
    /// (the later one on ties), else the highest-priority enabled default, else the first
    /// enabled identity.
    pub fn resolve(&self, host: &str) -> (r: Option<&IdentitySpec>)
        ensures
            match resolve_identity(self@, host@) {
                Some(i) => r == Some(&self@[i]),
                None => r.is_none(),
            },
    {
        proof {
            lemma_best_in_range(self.specs@, auto_candidate(host@));
            lemma_best_in_range(self.specs@, default_candidate());
        }
        if let Some(k) = self.best_index(host, true) {
            return Some(&self.specs[k]);
        }
        assert(best_by_priority(self.specs@, auto_candidate(host@)).is_none());
        if let Some(k) = self.best_index(host, false) {
            return Some(&self.specs[k]);
        }
        assert(best_by_priority(self.specs@, default_candidate()).is_none());
        let ghost p = enabled_candidate();
        let mut i: usize = 0;
        while i < self.specs.len()
            invariant
                i <= self.specs@.len(),
                p == enabled_candidate(),
                forall|j: int| 0 <= j < i ==> !p(self.specs@[j]),
                best_by_priority(self.specs@, auto_candidate(host@)).is_none(),
                best_by_priority(self.specs@, default_candidate()).is_none(),
            decreases self.specs@.len() - i,
        {
            if self.specs[i].enabled {
                proof {
                    lemma_first_where_found(self.specs@, p, i as int);
                    assert(resolve_identity(self.specs@, host@) == Some(i as int));
                }
                return Some(&self.specs[i]);
            }
            i += 1;
        }
        proof {
            lemma_first_where_none(self.specs@, p);
        }
        None
    }

    /// The enabled identities bound to `vault`, in order.
    pub fn for_vault(&self, vault: &str) -> (r: Vec<&IdentitySpec>)
        ensures
            r@.map_values(|x: &IdentitySpec| *x) == self@.filter(|s: IdentitySpec| s.enabled && s.bound_to(vault@)),
    {
        let ghost pred = |s: IdentitySpec| s.enabled && s.bound_to(vault@);
        let mut out: Vec<&IdentitySpec> = Vec::new();
        let mut i: usize = 0;
        while i < self.specs.len()
            invariant
                i <= self.specs@.len(),
                pred == (|s: IdentitySpec| s.enabled && s.bound_to(vault@)),
                out@.map_values(|x: &IdentitySpec| *x) == self.specs@.take(i as int).filter(pred),
            decreases self.specs@.len() - i,
        {
            let s = &self.specs[i];
            let bound = match &s.vault {
                Some(v) => str_eq(v.as_str(), vault),
                None => false,
            };
            let ghost before = out@;
            proof {
                let t = self.specs@.take(i + 1);
                assert(t.drop_last() =~= self.specs@.take(i as int));
                reveal_with_fuel(Seq::<_>::filter, 1);
            }
            if s.enabled && bound {
                out.push(s);
                assert(out@.map_values(|x: &IdentitySpec| *x) =~= before.map_values(|x: &IdentitySpec| *x).push(*s));
            }
            i += 1;
        }
        proof {
            assert(self.specs@.take(self.specs@.len() as int) =~= self.specs@);
        }
        out
    }
}

} // verus!
