//! `(defhistory-policy)` — which pages enter browsing history, how long
//! they live, and what metadata is captured.
use vstd::prelude::*;

use crate::extension::glob::{any_glob_host, any_host_matches, host_field_matches, host_pattern_matches};
use crate::registry::{resolve_index, resolve_scoped, upsert, upsert_all, upserted, upserted_all, HostScoped, Named};
use crate::text::{chars_of, has_prefix, is_prefix, owned};

verus! {

/// How long history entries survive.
#[derive(Debug, Clone, Copy, PartialEq, Eq, Structural)]
pub enum Retention {
    /// No history recorded.
    Off,
    /// Cleared at browser close.
    Session,
    /// Kept for `retention_days` days.
    Days,
    /// Kept forever.
    Forever,
    /// Kept only if the user bookmarks or tags the page.
    OnlyIfBookmarked,
}

impl Default for Retention {
    fn default() -> (r: Self)
        ensures
            r == Retention::Days,
    {
        Retention::Days
    }
}

/// Metadata captured per entry.
#[derive(Debug, Clone, Copy, PartialEq, Eq, Hash, Structural)]
pub enum CaptureField {
    Title,
    Url,
    Favicon,
    VisitTime,
    VisitCount,
    Referrer,
    PageSnippet,
    Screenshot,
    NavigationType,
    DwellTime,
}

/// Whether entries surface in suggestions.
#[derive(Debug, Clone, Copy, PartialEq, Eq, Structural)]
pub enum Visibility {
    Full,
    LocalOnly,
    SuppressSuggestions,
    /// Not even stored (the effect of `Retention::Off`, scoped).
    Hidden,
}

impl Default for Visibility {
    fn default() -> (r: Self)
        ensures
            r == Visibility::Full,
    {
        Visibility::Full
    }
}

/// A history-policy profile.
#[derive(Debug, Clone, PartialEq)]
pub struct HistoryPolicySpec {
    pub name: String,
    pub host: String,
    pub retention: Retention,
    pub retention_days: u32,
    pub capture: Vec<CaptureField>,
    pub visibility: Visibility,
    pub private_hosts: Vec<String>,
    pub excluded_schemes: Vec<String>,
    pub filter_short_typed_urls: bool,
    pub min_dwell_seconds: u32,
    pub cascade_delete_storage: bool,
    pub sync: bool,
    pub search_indexed: bool,
    pub enabled: bool,
    pub description: Option<String>,
}

impl Named for HistoryPolicySpec {
    open spec fn key(&self) -> Seq<char> {
        self.name@
    }

    fn name_ref(&self) -> (r: &str) {
        self.name.as_str()
    }
}

impl HostScoped for HistoryPolicySpec {
    open spec fn scope(&self) -> Seq<char> {
        self.host@
    }

    open spec fn active(&self) -> bool {
        self.enabled
    }

    fn scope_ref(&self) -> (r: &str) {
        self.host.as_str()
    }

    fn is_active(&self) -> (r: bool) {
        self.enabled
    }
}

/// The capture fields of the default profile.
pub open spec fn default_capture_spec() -> Seq<CaptureField> {
    seq![CaptureField::Title, CaptureField::Url, CaptureField::Favicon, CaptureField::VisitTime, CaptureField::VisitCount]
}

fn default_capture() -> (r: Vec<CaptureField>)
    ensures
        r@ == default_capture_spec(),
{
    let r = vec![CaptureField::Title, CaptureField::Url, CaptureField::Favicon, CaptureField::VisitTime, CaptureField::VisitCount];
    assert(r@ =~= default_capture_spec());
    r
}

/// The schemes the default profile keeps out of history.
pub open spec fn default_excluded_schemes_spec() -> Seq<Seq<char>> {
    seq!["chrome://"@, "about:"@, "view-source:"@, "data:"@]
}

fn default_excluded_schemes() -> (r: Vec<String>)
    ensures
        r@.map_values(|s: String| s@) == default_excluded_schemes_spec(),
{
    let mut r: Vec<String> = Vec::new();
    r.push(owned("chrome://"));
    r.push(owned("about:"));
    r.push(owned("view-source:"));
    r.push(owned("data:"));
    assert(r@.map_values(|s: String| s@) =~= default_excluded_schemes_spec());
    r
}

/// `url` starts with one of `schemes`.
pub open spec fn has_excluded_scheme(schemes: Seq<String>, url: Seq<char>) -> bool {
    exists|i: int| 0 <= i < schemes.len() && is_prefix(#[trigger] schemes[i]@, url)
}

impl HistoryPolicySpec {
    /// Whether a visit is recorded.
    pub open spec fn records(&self, host: Seq<char>, url: Seq<char>, dwell_seconds: u32) -> bool {
        &&& self.enabled
        &&& self.retention != Retention::Off
        &&& self.visibility != Visibility::Hidden
        &&& !has_excluded_scheme(self.excluded_schemes@, url)
        &&& !any_glob_host(self.private_hosts@, host)
        &&& dwell_seconds >= self.min_dwell_seconds
    }

    /// Retention in seconds: 0 for none/session, `u64::MAX` for unbounded.
    pub open spec fn retention_secs(&self) -> u64 {
        match self.retention {
            Retention::Off | Retention::Session => 0,
            Retention::Days => (self.retention_days as u64 * 86_400) as u64,
            Retention::Forever | Retention::OnlyIfBookmarked => u64::MAX,
        }
    }

    /// The built-in profile: 90-day retention, standard metadata, no private hosts.
    pub fn default_profile() -> (r: Self)
        ensures
            r.name@ == "default"@,
            r.host@ == "*"@,
            r.retention == Retention::Days,
            r.retention_days == 90,
            r.capture@ == default_capture_spec(),
            r.visibility == Visibility::Full,
            r.private_hosts@.len() == 0,
            r.excluded_schemes@.map_values(|s: String| s@) == default_excluded_schemes_spec(),
            r.filter_short_typed_urls,
            r.min_dwell_seconds == 0,
            !r.cascade_delete_storage,
            r.sync,
            r.search_indexed,
            r.enabled,
            r.description.is_some(),
    {
        HistoryPolicySpec {
            name: owned("default"),
            host: owned("*"),
            retention: Retention::Days,
            retention_days: 90,
            capture: default_capture(),
            visibility: Visibility::Full,
            private_hosts: Vec::new(),
            excluded_schemes: default_excluded_schemes(),
            filter_short_typed_urls: true,
            min_dwell_seconds: 0,
            cascade_delete_storage: false,
            sync: true,
            search_indexed: true,
            enabled: true,
            description: Some(owned("Default history — Days retention (90), full metadata, no private hosts.")),
        }
    }

    /// Whether the profile's host pattern admits `host`.
    pub fn matches_host(&self, host: &str) -> (r: bool)
        ensures
            r == host_field_matches(self.host@, host@),
    {
        host_pattern_matches(self.host.as_str(), host)
    }

    /// Whether `host` is one of the private hosts.
    pub fn is_private_host(&self, host: &str) -> (r: bool)
        ensures
            r == any_glob_host(self.private_hosts@, host@),
    {
        any_host_matches(&self.private_hosts, host)
    }

    /// Whether `url` uses an excluded scheme.
    pub fn is_excluded_scheme(&self, url: &str) -> (r: bool)
        ensures
            r == has_excluded_scheme(self.excluded_schemes@, url@),
    {
        let u = chars_of(url);
        let mut i: usize = 0;
        while i < self.excluded_schemes.len()
            invariant
                i <= self.excluded_schemes@.len(),
                u@ == url@,
                forall|j: int| 0 <= j < i ==> !is_prefix(#[trigger] self.excluded_schemes@[j]@, url@),
            decreases self.excluded_schemes@.len() - i,
        {
            let p = chars_of(self.excluded_schemes[i].as_str());
            if has_prefix(u.as_slice(), p.as_slice()) {
                return true;
            }
            i += 1;
        }
        false
    }

    /// Whether `field` is captured.
    pub fn captures(&self, field: CaptureField) -> (r: bool)
        ensures
            r == self.capture@.contains(field),
    {
        let mut i: usize = 0;
        while i < self.capture.len()
            invariant
                i <= self.capture@.len(),
                forall|j: int| 0 <= j < i ==> self.capture@[j] != field,
            decreases self.capture@.len() - i,
        {
            if self.capture[i] == field {
                return true;
            }
            i += 1;
        }
        false
    }

    /// Whether the visit `(host, url, dwell_seconds)` is recorded.
    pub fn should_record(&self, host: &str, url: &str, dwell_seconds: u32) -> (r: bool)
        ensures
            r == self.records(host@, url@, dwell_seconds),
    {
        if !self.enabled {
            return false;
        }
        if self.retention == Retention::Off || self.visibility == Visibility::Hidden {
            return false;
        }
        if self.is_excluded_scheme(url) {
            return false;
        }
        if self.is_private_host(host) {
            return false;
        }
        if dwell_seconds < self.min_dwell_seconds {
            return false;
        }
        true
    }

    /// Effective retention in seconds.
    pub fn retention_seconds(&self) -> (r: u64)
        ensures
            r == self.retention_secs(),
    {
        match self.retention {
            Retention::Off | Retention::Session => 0,
            Retention::Days => (self.retention_days as u64) * 86_400,
            Retention::Forever | Retention::OnlyIfBookmarked => u64::MAX,
        }
    }
}

/// History-policy profiles, one per name.
#[derive(Debug, Clone)]
pub struct HistoryPolicyRegistry {
    specs: Vec<HistoryPolicySpec>,
}

impl View for HistoryPolicyRegistry {
    type V = Seq<HistoryPolicySpec>;

    closed spec fn view(&self) -> Seq<HistoryPolicySpec> {
        self.specs@
    }
}

impl HistoryPolicyRegistry {
    /// An empty registry.
    pub fn new() -> (r: Self)
        ensures
            r@ == Seq::<HistoryPolicySpec>::empty(),
    {
        HistoryPolicyRegistry { specs: Vec::new() }
    }

    /// Adds `spec`, replacing any profile of the same name.
    pub fn insert(&mut self, spec: HistoryPolicySpec)
        ensures
            final(self)@ == upserted(old(self)@, spec),
    {
        upsert(&mut self.specs, spec);
    }

    /// Adds each spec in order.
    pub fn extend(&mut self, specs: Vec<HistoryPolicySpec>)
        ensures
            final(self)@ == upserted_all(old(self)@, specs@),
    {
        upsert_all(&mut self.specs, specs);
    }

    /// Number of profiles.
    pub fn len(&self) -> (r: usize)
        ensures
            r == self@.len(),
    {
        self.specs.len()
    }

    /// No profile is registered.
    pub fn is_empty(&self) -> (r: bool)
        ensures
            r == (self@.len() == 0),
    {
        self.specs.len() == 0
    }

    /// The profiles in order.
    pub fn specs(&self) -> (r: &[HistoryPolicySpec])
        ensures
            r@ == self@,
    {
        self.specs.as_slice()
    }

    /// The enabled profile for `host`: host-specific first, then any match.
    pub fn resolve(&self, host: &str) -> (r: Option<&HistoryPolicySpec>)
        ensures
            match resolve_scoped(self@, host@) {
                Some(i) => r == Some(&self@[i]),
                None => r.is_none(),
            },
    {
        match resolve_index(&self.specs, host) {
            Some(i) => Some(&self.specs[i]),
            None => None,
        }
    }
}


/// How long history is kept: not at all when it is off or kept for the session only, the
/// configured number of days in seconds, and without end when kept forever or only for
/// bookmarked pages. The span is zero exactly for off and session history and for zero days.
pub proof fn law_retention_span(s: HistoryPolicySpec)
    ensures
        s.retention == Retention::Off ==> s.retention_secs() == 0,
        s.retention == Retention::Session ==> s.retention_secs() == 0,
        s.retention == Retention::Days ==> s.retention_secs() == s.retention_days * 86_400,
        s.retention == Retention::Forever ==> s.retention_secs() == u64::MAX,
        s.retention == Retention::OnlyIfBookmarked ==> s.retention_secs() == u64::MAX,
        (s.retention_secs() == 0) == (s.retention == Retention::Off || s.retention == Retention::Session || (s.retention
            == Retention::Days && s.retention_days == 0)),
{
    assert(s.retention_days * 86_400 <= u64::MAX) by (nonlinear_arith)
        requires
            s.retention_days <= u32::MAX,
    ;
}

} // verus!
