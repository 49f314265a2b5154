//! `(defpasskey)` — WebAuthn passkey policy: authenticator kind, user
//! verification, and which relying parties may use the vault.
use vstd::prelude::*;

use crate::extension::has_view;
use crate::registry::{
    find_key, index_of_key, lemma_first_where_spec, upsert, upsert_all, upserted, upserted_all, Named,
};
use crate::text::{chars_of, has_suffix, is_suffix, push, push_str, str_eq};

verus! {

/// Which authenticators may hold passkeys.
#[derive(Debug, Clone, Copy, PartialEq, Eq, Structural)]
pub enum Authenticator {
    Any,
    Platform,
    CrossPlatform,
}

impl Default for Authenticator {
    fn default() -> (r: Self)
        ensures
            r == Authenticator::Any,
    {
        Authenticator::Any
    }
}

/// WebAuthn user-verification requirement.
#[derive(Debug, Clone, Copy, PartialEq, Eq, Structural)]
pub enum UserVerification {
    Required,
    Preferred,
    Discouraged,
}

impl Default for UserVerification {
    fn default() -> (r: Self)
        ensures
            r == UserVerification::Preferred,
    {
        UserVerification::Preferred
    }
}

/// A passkey profile.
#[derive(Debug, Clone, PartialEq)]
pub struct PasskeySpec {
    pub name: String,
    pub vault: String,
    pub authenticator: Authenticator,
    pub user_verification: UserVerification,
    pub sync_passkeys: bool,
    pub allowed_rp_ids: Vec<String>,
    pub blocked_rp_ids: Vec<String>,
    pub resident_key: bool,
    pub description: Option<String>,
}

impl Named for PasskeySpec {
    open spec fn key(&self) -> Seq<char> {
        self.name@
    }

    fn name_ref(&self) -> (r: &str) {
        self.name.as_str()
    }
}

/// One stored passkey.
#[derive(Debug, Clone, PartialEq, Eq)]
pub struct PasskeyRecord {
    pub credential_id: String,
    pub rp_id: String,
    pub rp_name: String,
    pub user_handle: String,
    pub user_name: String,
    pub algorithm: i32,
    pub authenticator: Authenticator,
    pub user_verification: UserVerification,
    pub public_key: String,
    pub created_at: i64,
    pub last_used_at: i64,
    pub sign_count: u32,
}

impl PasskeyRecord {
    /// A copy without the public key and the user handle.
    pub fn redacted(&self) -> (r: Self)
        ensures
            r.credential_id == self.credential_id,
            r.rp_id == self.rp_id,
            r.rp_name == self.rp_name,
            r.user_handle@.len() == 0,
            r.user_name == self.user_name,
            r.algorithm == self.algorithm,
            r.authenticator == self.authenticator,
            r.user_verification == self.user_verification,
            r.public_key@.len() == 0,
            r.created_at == self.created_at,
            r.last_used_at == self.last_used_at,
            r.sign_count == self.sign_count,
    {
        PasskeyRecord {
            credential_id: self.credential_id.clone(),
            rp_id: self.rp_id.clone(),
            rp_name: self.rp_name.clone(),
            user_handle: String::new(),
            user_name: self.user_name.clone(),
            algorithm: self.algorithm,
            authenticator: self.authenticator,
            user_verification: self.user_verification,
            public_key: String::new(),
            created_at: self.created_at,
            last_used_at: self.last_used_at,
            sign_count: self.sign_count,
        }
    }
}

/// `rp_id` is `allowed` or one of its subdomains.
pub open spec fn rp_covered(allowed: Seq<char>, rp_id: Seq<char>) -> bool {
    allowed == rp_id || is_suffix(seq!['.'] + allowed, rp_id)
}

impl PasskeySpec {
    /// Block list first; then an empty or `*` allow list admits everything;
    /// else the RP must be an allowed id or a subdomain of one.
    pub open spec fn admits_rp(&self, rp_id: Seq<char>) -> bool {
        if has_view(self.blocked_rp_ids@, rp_id) {
            false
        } else if self.allowed_rp_ids@.len() == 0 || has_view(self.allowed_rp_ids@, seq!['*']) {
            true
        } else {
            exists|i: int| 0 <= i < self.allowed_rp_ids@.len() && rp_covered(#[trigger] self.allowed_rp_ids@[i]@, rp_id)
        }
    }

    /// Whether the relying party `rp_id` may use this profile.
    pub fn allows_rp(&self, rp_id: &str) -> (r: bool)
        ensures
            r == self.admits_rp(rp_id@),
    {
        if crate::extension::contains_string(&self.blocked_rp_ids, rp_id) {
            return false;
        }
        let mut star = String::new();
        push(&mut star, '*');
        assert(star@ =~= seq!['*']);
        if self.allowed_rp_ids.len() == 0 || crate::extension::contains_string(&self.allowed_rp_ids, star.as_str()) {
            return true;
        }
        let rc = chars_of(rp_id);
        let mut i: usize = 0;
        while i < self.allowed_rp_ids.len()
            invariant
                i <= self.allowed_rp_ids@.len(),
                rc@ == rp_id@,
                !has_view(self.blocked_rp_ids@, rp_id@),
                !(self.allowed_rp_ids@.len() == 0 || has_view(self.allowed_rp_ids@, seq!['*'])),
                forall|j: int| 0 <= j < i ==> !rp_covered(#[trigger] self.allowed_rp_ids@[j]@, rp_id@),
            decreases self.allowed_rp_ids@.len() - i,
        {
            let allowed = self.allowed_rp_ids[i].as_str();
            let mut dotted = String::new();
            push(&mut dotted, '.');
            push_str(&mut dotted, allowed);
            let dc = chars_of(dotted.as_str());
            assert(dotted@ =~= seq!['.'] + allowed@);
            if str_eq(allowed, rp_id) || has_suffix(rc.as_slice(), dc.as_slice()) {
                assert(rp_covered(self.allowed_rp_ids@[i as int]@, rp_id@));
                return true;
            }
            i += 1;
        }
        false
    }
}

/// Passkey profiles, one per name.
#[derive(Debug, Clone)]
pub struct PasskeyRegistry {
    specs: Vec<PasskeySpec>,
}

impl View for PasskeyRegistry {
    type V = Seq<PasskeySpec>;

    closed spec fn view(&self) -> Seq<PasskeySpec> {
        self.specs@
    }
}

impl PasskeyRegistry {
    /// An empty registry.
    pub fn new() -> (r: Self)
        ensures
            r@ == Seq::<PasskeySpec>::empty(),
    {
        PasskeyRegistry { specs: Vec::new() }
    }

    /// Adds `spec`, replacing any entry of the same name.
    pub fn insert(&mut self, spec: PasskeySpec)
        ensures
            final(self)@ == upserted(old(self)@, spec),
    {
        upsert(&mut self.specs, spec);
    }

    /// Adds each spec in order.
    pub fn extend(&mut self, specs: Vec<PasskeySpec>)
        ensures
            final(self)@ == upserted_all(old(self)@, specs@),
    {
        upsert_all(&mut self.specs, specs);
    }

    /// Number of entries.
    pub fn len(&self) -> (r: usize)
        ensures
            r == self@.len(),
    {
        self.specs.len()
    }

    /// No entry is registered.
    pub fn is_empty(&self) -> (r: bool)
        ensures
            r == (self@.len() == 0),
    {
        self.specs.len() == 0
    }

    /// The entries in order.
    pub fn specs(&self) -> (r: &[PasskeySpec])
        ensures
            r@ == self@,
    {
        self.specs.as_slice()
    }

    /// The first entry named `name`.
    pub fn get(&self, name: &str) -> (r: Option<&PasskeySpec>)
        ensures
            match index_of_key(self@, name@) {
                Some(i) => r == Some(&self@[i]),
                None => r.is_none(),
            },
    {
        match find_key(&self.specs, name) {
            Some(i) => {
                proof {
                    lemma_first_where_spec(self.specs@, crate::registry::key_equals::<PasskeySpec>(name@));
                }
                Some(&self.specs[i])
            },
            None => None,
        }
    }

    /// The profiles that admit `rp_id`, in order.
    pub fn applicable(&self, rp_id: &str) -> (r: Vec<&PasskeySpec>)
        ensures
            r@.map_values(|x: &PasskeySpec| *x) == self@.filter(|s: PasskeySpec| s.admits_rp(rp_id@)),
    {
        let ghost pred = |s: PasskeySpec| s.admits_rp(rp_id@);
        let mut out: Vec<&PasskeySpec> = Vec::new();
        let mut i: usize = 0;
        while i < self.specs.len()
            invariant
                i <= self.specs@.len(),
                pred == (|s: PasskeySpec| s.admits_rp(rp_id@)),
                out@.map_values(|x: &PasskeySpec| *x) == self.specs@.take(i as int).filter(pred),
            decreases self.specs@.len() - i,
        {
            let s = &self.specs[i];
            let ghost before = out@;
            proof {
                let t = self.specs@.take(i + 1);
                assert(t.drop_last() =~= self.specs@.take(i as int));
                reveal_with_fuel(Seq::<_>::filter, 1);
            }
            if s.allows_rp(rp_id) {
                out.push(s);
                assert(out@.map_values(|x: &PasskeySpec| *x) =~= before.map_values(|x: &PasskeySpec| *x).push(*s));
            }
            i += 1;
        }
        proof {
            assert(self.specs@.take(self.specs@.len() as int) =~= self.specs@);
        }
        out
    }
}

} // verus!
