//! `(defpasswords)` — password-vault backends, auto-fill scoping, and
//! credential records.
use vstd::prelude::*;

use crate::extension::glob::{any_glob_host, any_host_matches};
use crate::registry::{
    find_key, index_of_key, lemma_first_where_spec, upsert, upserted, Named,
};
use crate::text::{chars_of, has_suffix, is_suffix, owned, push, push_str, str_eq, trim, trim_chars};

verus! {

/// Where credentials come from.
#[derive(Debug, Clone, Copy, PartialEq, Eq, Structural)]
pub enum VaultSource {
    Local,
    Kagibako,
    OnePassword,
    Bitwarden,
    LastPass,
    Dashlane,
    NordPass,
    ProtonPass,
    Enpass,
    RoboForm,
    ZohoVault,
    Keepass,
    Pass,
    Gopass,
    MacOsKeychain,
    WindowsCredentialManager,
    LibSecret,
    HashiCorpVault,
    Akeyless,
    AwsSecretsManager,
    GcpSecretManager,
    AzureKeyVault,
    Process,
}

impl Default for VaultSource {
    fn default() -> (r: Self)
        ensures
            r == VaultSource::Local,
    {
        VaultSource::Local
    }
}

impl VaultSource {
    /// The variant's name, as `Debug` prints it.
    pub open spec fn debug_name(self) -> &'static str {
        match self {
            VaultSource::Local => "Local",
            VaultSource::Kagibako => "Kagibako",
            VaultSource::OnePassword => "OnePassword",
            VaultSource::Bitwarden => "Bitwarden",
            VaultSource::LastPass => "LastPass",
            VaultSource::Dashlane => "Dashlane",
            VaultSource::NordPass => "NordPass",
            VaultSource::ProtonPass => "ProtonPass",
            VaultSource::Enpass => "Enpass",
            VaultSource::RoboForm => "RoboForm",
            VaultSource::ZohoVault => "ZohoVault",
            VaultSource::Keepass => "Keepass",
            VaultSource::Pass => "Pass",
            VaultSource::Gopass => "Gopass",
            VaultSource::MacOsKeychain => "MacOsKeychain",
            VaultSource::WindowsCredentialManager => "WindowsCredentialManager",
            VaultSource::LibSecret => "LibSecret",
            VaultSource::HashiCorpVault => "HashiCorpVault",
            VaultSource::Akeyless => "Akeyless",
            VaultSource::AwsSecretsManager => "AwsSecretsManager",
            VaultSource::GcpSecretManager => "GcpSecretManager",
            VaultSource::AzureKeyVault => "AzureKeyVault",
            VaultSource::Process => "Process",
        }
    }

    /// The variant's name.
    pub fn name_str(&self) -> (r: &'static str)
        ensures
            r == self.debug_name(),
    {
        match self {
            VaultSource::Local => "Local",
            VaultSource::Kagibako => "Kagibako",
            VaultSource::OnePassword => "OnePassword",
            VaultSource::Bitwarden => "Bitwarden",
            VaultSource::LastPass => "LastPass",
            VaultSource::Dashlane => "Dashlane",
            VaultSource::NordPass => "NordPass",
            VaultSource::ProtonPass => "ProtonPass",
            VaultSource::Enpass => "Enpass",
            VaultSource::RoboForm => "RoboForm",
            VaultSource::ZohoVault => "ZohoVault",
            VaultSource::Keepass => "Keepass",
            VaultSource::Pass => "Pass",
            VaultSource::Gopass => "Gopass",
            VaultSource::MacOsKeychain => "MacOsKeychain",
            VaultSource::WindowsCredentialManager => "WindowsCredentialManager",
            VaultSource::LibSecret => "LibSecret",
            VaultSource::HashiCorpVault => "HashiCorpVault",
            VaultSource::Akeyless => "Akeyless",
            VaultSource::AwsSecretsManager => "AwsSecretsManager",
            VaultSource::GcpSecretManager => "GcpSecretManager",
            VaultSource::AzureKeyVault => "AzureKeyVault",
            VaultSource::Process => "Process",
        }
    }

    /// Sources that read a vault file.
    pub open spec fn needs_path(self) -> bool {
        self == VaultSource::Local || self == VaultSource::Keepass
    }

    /// Sources that talk to a remote endpoint.
    pub open spec fn needs_endpoint(self) -> bool {
        self == VaultSource::Bitwarden || self == VaultSource::ZohoVault || self == VaultSource::HashiCorpVault
            || self == VaultSource::Akeyless
    }
}

/// A vault backend.
#[derive(Debug, Clone, PartialEq)]
pub struct PasswordsSpec {
    pub name: String,
    pub source: VaultSource,
    pub vault_path: Option<String>,
    pub endpoint: Option<String>,
    pub command: Option<Vec<String>>,
    pub unlock_timeout_seconds: u64,
    pub require_biometrics: bool,
    pub sync_interval_seconds: u64,
    pub auto_fill_hosts: Vec<String>,
    pub blocked_hosts: Vec<String>,
    pub description: Option<String>,
}

impl Named for PasswordsSpec {
    open spec fn key(&self) -> Seq<char> {
        self.name@
    }

    fn name_ref(&self) -> (r: &str) {
        self.name.as_str()
    }
}

/// One stored credential.
#[derive(Debug, Clone, PartialEq, Eq)]
pub struct CredentialRecord {
    pub title: String,
    pub username: String,
    pub password: String,
    pub url: String,
    pub totp_secret: Option<String>,
    pub fields: Vec<(String, String)>,
    pub created_at: i64,
    pub updated_at: i64,
}

/// The host that the URL parser finds in `url`, if it parses and has one.
pub uninterp spec fn url_host(url: Seq<char>) -> Option<Seq<char>>;

/// `url::Url::parse(url)` followed by `Url::host_str`: the host of the parsed URL, `None`
/// when the text does not parse or the URL has no host. The result is named by `url_host`;
/// nothing more about the URL grammar is stated here.
#[verifier::external_body]
pub(crate) fn parsed_url_host(url: &str) -> (r: Option<String>)
    ensures
        match r {
            Some(h) => url_host(url@) == Some(h@),
            None => url_host(url@).is_none(),
        },
{
    match url::Url::parse(url) {
        Ok(parsed) => parsed.host_str().map(|h| h.to_string()),
        Err(_) => None,
    }
}

/// `host` is `credential_host` or one of its subdomains.
pub open spec fn host_covers(credential_host: Seq<char>, host: Seq<char>) -> bool {
    host == credential_host || is_suffix(seq!['.'] + credential_host, host)
}

/// Same pairs, element by element.
fn clone_pairs(v: &Vec<(String, String)>) -> (r: Vec<(String, String)>)
    ensures
        r@ == v@,
{
    let mut out: Vec<(String, String)> = Vec::new();
    let mut i: usize = 0;
    while i < v.len()
        invariant
            i <= v@.len(),
            out@ == v@.take(i as int),
        decreases v@.len() - i,
    {
        let a = v[i].0.clone();
        let b = v[i].1.clone();
        out.push((a, b));
        assert(out@ =~= v@.take(i + 1));
        i += 1;
    }
    assert(v@.take(v@.len() as int) =~= v@);
    out
}

impl CredentialRecord {
    /// Whether the credential applies to `host`: the URL's host itself or a subdomain of it.
    pub fn matches_host(&self, host: &str) -> (r: bool)
        ensures
            r == match url_host(self.url@) {
                Some(h) => host_covers(h, host@),
                None => false,
            },
    {
        match parsed_url_host(self.url.as_str()) {
            Some(credential_host) => {
                if str_eq(host, credential_host.as_str()) {
                    return true;
                }
                let mut dotted = String::new();
                push(&mut dotted, '.');
                push_str(&mut dotted, credential_host.as_str());
                let hs = chars_of(host);
                let ds = chars_of(dotted.as_str());
                has_suffix(hs.as_slice(), ds.as_slice())
            },
            None => false,
        }
    }

    /// A copy without the password and the TOTP secret.
    pub fn redacted(&self) -> (r: Self)
        ensures
            r.title == self.title,
            r.username == self.username,
            r.password@.len() == 0,
            r.url == self.url,
            r.totp_secret.is_none(),
            r.fields@ == self.fields@,
            r.created_at == self.created_at,
            r.updated_at == self.updated_at,
    {
        CredentialRecord {
            title: self.title.clone(),
            username: self.username.clone(),
            password: String::new(),
            url: self.url.clone(),
            totp_secret: None,
            fields: clone_pairs(&self.fields),
            created_at: self.created_at,
            updated_at: self.updated_at,
        }
    }
}

impl PasswordsSpec {
    /// Why the spec is rejected, if it is.
    pub open spec fn rejection(&self) -> Option<Seq<char>> {
        if trim(self.name@).len() == 0 {
            Some("passwords spec name is empty"@)
        } else if self.source.needs_path() && self.vault_path.is_none() {
            Some(self.source.debug_name()@ + " vault '"@ + self.name@ + "' requires :vault-path"@)
        } else if self.source.needs_endpoint() && self.endpoint.is_none() {
            Some(self.source.debug_name()@ + " vault '"@ + self.name@ + "' requires :endpoint"@)
        } else if self.source == VaultSource::Process && match self.command {
            Some(c) => c@.len() == 0,
            None => true,
        } {
            Some("process vault '"@ + self.name@ + "' requires :command"@)
        } else {
            None
        }
    }

    /// Whether auto-fill runs on `host`: never on blocked hosts; everywhere when the
    /// allow list is empty; else only on listed hosts.
    pub open spec fn fills(&self, host: Seq<char>) -> bool {
        !any_glob_host(self.blocked_hosts@, host) && (self.auto_fill_hosts@.len() == 0 || any_glob_host(
            self.auto_fill_hosts@,
            host,
        ))
    }

    /// Checks the fields the backend needs.
    pub fn validate(&self) -> (r: Result<(), String>)
        ensures
            match self.rejection() {
                Some(m) => r matches Err(e) && e@ == m,
                None => r is Ok,
            },
    {
        let n = chars_of(self.name.as_str());
        let t = trim_chars(n.as_slice());
        if t.len() == 0 {
            return Err(owned("passwords spec name is empty"));
        }
        match self.source {
            VaultSource::Local | VaultSource::Keepass => {
                if self.vault_path.is_none() {
                    let mut m = owned(self.source.name_str());
                    push_str(&mut m, " vault '");
                    push_str(&mut m, self.name.as_str());
                    push_str(&mut m, "' requires :vault-path");
                    return Err(m);
                }
            },
            VaultSource::Bitwarden | VaultSource::ZohoVault | VaultSource::HashiCorpVault | VaultSource::Akeyless => {
                if self.endpoint.is_none() {
                    let mut m = owned(self.source.name_str());
                    push_str(&mut m, " vault '");
                    push_str(&mut m, self.name.as_str());
                    push_str(&mut m, "' requires :endpoint");
                    return Err(m);
                }
            },
            VaultSource::Process => {
                let missing = match &self.command {
                    Some(c) => c.len() == 0,
                    None => true,
                };
                if missing {
                    let mut m = owned("process vault '");
                    push_str(&mut m, self.name.as_str());
                    push_str(&mut m, "' requires :command");
                    return Err(m);
                }
            },
            _ => {},
        }
        Ok(())
    }

    /// Whether auto-fill runs on `host`.
    pub fn auto_fills_host(&self, host: &str) -> (r: bool)
        ensures
            r == self.fills(host@),
    {
        if any_host_matches(&self.blocked_hosts, host) {
            return false;
        }
        if self.auto_fill_hosts.len() == 0 {
            return true;
        }
        any_host_matches(&self.auto_fill_hosts, host)
    }
}

/// `s` after inserting each valid item of `items` in order; invalid ones are skipped.
pub open spec fn inserted_valid(s: Seq<PasswordsSpec>, items: Seq<PasswordsSpec>) -> Seq<PasswordsSpec>
    decreases items.len(),
{
    if items.len() == 0 {
        s
    } else {
        let prev = inserted_valid(s, items.drop_last());
        if items.last().rejection().is_none() {
            upserted(prev, items.last())
        } else {
            prev
        }
    }
}

/// Vault backends, one per name; every entry passed validation.
#[derive(Debug, Clone)]
pub struct PasswordsRegistry {
    specs: Vec<PasswordsSpec>,
}

impl View for PasswordsRegistry {
    type V = Seq<PasswordsSpec>;

    closed spec fn view(&self) -> Seq<PasswordsSpec> {
        self.specs@
    }
}

impl PasswordsRegistry {
    /// An empty registry.
    pub fn new() -> (r: Self)
        ensures
            r@ == Seq::<PasswordsSpec>::empty(),
    {
        PasswordsRegistry { specs: Vec::new() }
    }

    /// Adds `spec` when it validates, replacing any backend of the same name.
    pub fn insert(&mut self, spec: PasswordsSpec) -> (r: Result<(), String>)
        ensures
            match spec.rejection() {
                Some(m) => r matches Err(e) && e@ == m && final(self)@ == old(self)@,
                None => r is Ok && final(self)@ == upserted(old(self)@, spec),
            },
    {
        match spec.validate() {
            Err(e) => Err(e),
            Ok(()) => {
                upsert(&mut self.specs, spec);
                Ok(())
            },
        }
    }

    /// Adds each valid spec in order; invalid ones are dropped.
    pub fn extend(&mut self, specs: Vec<PasswordsSpec>)
        ensures
            final(self)@ == inserted_valid(old(self)@, specs@),
    {
        let ghost start = self@;
        let ghost all = specs@;
        for s in it: specs
            invariant
                it.seq() == all,
                self@ == inserted_valid(start, all.take(it.index() as int)),
        {
            proof {
                let k = it.index() as int;
                assert(all.take(k + 1).drop_last() =~= all.take(k));
                assert(all.take(k + 1).last() == all[k]);
            }
            let _ = self.insert(s);
        }
        proof {
            assert(all.take(all.len() as int) =~= all);
        }
    }

    /// Number of backends.
    pub fn len(&self) -> (r: usize)
        ensures
            r == self@.len(),
    {
        self.specs.len()
    }

    /// No backend is registered.
    pub fn is_empty(&self) -> (r: bool)
        ensures
            r == (self@.len() == 0),
    {
        self.specs.len() == 0
    }

    /// The backends in order.
    pub fn specs(&self) -> (r: &[PasswordsSpec])
        ensures
            r@ == self@,
    {
        self.specs.as_slice()
    }

    /// The first backend named `name`.
    pub fn get(&self, name: &str) -> (r: Option<&PasswordsSpec>)
        ensures
            match index_of_key(self@, name@) {
                Some(i) => r == Some(&self@[i]),
                None => r.is_none(),
            },
    {
        match find_key(&self.specs, name) {
            Some(i) => {
                proof {
                    lemma_first_where_spec(self.specs@, crate::registry::key_equals::<PasswordsSpec>(name@));
                }
                Some(&self.specs[i])
            },
            None => None,
        }
    }

    /// The backends that auto-fill on `host`, in order.
    pub fn applicable(&self, host: &str) -> (r: Vec<&PasswordsSpec>)
        ensures
            r@.map_values(|x: &PasswordsSpec| *x) == self@.filter(|s: PasswordsSpec| s.fills(host@)),
    {
        let ghost pred = |s: PasswordsSpec| s.fills(host@);
        let mut out: Vec<&PasswordsSpec> = Vec::new();
        let mut i: usize = 0;
        while i < self.specs.len()
            invariant
                i <= self.specs@.len(),
                pred == (|s: PasswordsSpec| s.fills(host@)),
                out@.map_values(|x: &PasswordsSpec| *x) == self.specs@.take(i as int).filter(pred),
            decreases self.specs@.len() - i,
        {
            let s = &self.specs[i];
            let ghost before = out@;
            proof {
                let t = self.specs@.take(i + 1);
                assert(t.drop_last() =~= self.specs@.take(i as int));
                reveal_with_fuel(Seq::<_>::filter, 1);
            }
            if s.auto_fills_host(host) {
                out.push(s);
                assert(out@.map_values(|x: &PasswordsSpec| *x) =~= before.map_values(|x: &PasswordsSpec| *x).push(*s));
            }
            i += 1;
        }
        proof {
            assert(self.specs@.take(self.specs@.len() as int) =~= self.specs@);
        }
        out
    }
}

} // verus!
