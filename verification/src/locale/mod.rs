//! `(deflocale)` — per-host language, region and formatting overrides.
use vstd::prelude::*;

use crate::extension::glob::{any_glob_host, any_host_matches, host_field_matches, host_pattern_matches};
use crate::extension::{contains_string, has_view};
use crate::registry::{resolve_index, resolve_scoped, upsert, upsert_all, upserted, upserted_all, HostScoped, Named};
use crate::text::{
    before_any, before_any_chars, chars_of, contains_sub, find_chars, join, join_strings, owned, push,
    push_str, string_from_chars, trim, trim_chars, views,
};

verus! {

/// Unit system exposed to pages.
#[derive(Debug, Clone, Copy, PartialEq, Eq, Structural)]
pub enum Measurement {
    Passthrough,
    Metric,
    Imperial,
    Uk,
}

impl Default for Measurement {
    fn default() -> (r: Self)
        ensures
            r == Measurement::Passthrough,
    {
        Measurement::Passthrough
    }
}

/// First day of the week.
#[derive(Debug, Clone, Copy, PartialEq, Eq, Structural)]
pub enum FirstDay {
    Locale,
    Sunday,
    Monday,
    Saturday,
}

impl Default for FirstDay {
    fn default() -> (r: Self)
        ensures
            r == FirstDay::Locale,
    {
        FirstDay::Locale
    }
}

/// Digit system.
#[derive(Debug, Clone, Copy, PartialEq, Eq, Structural)]
pub enum NumberingSystem {
    Latn,
    Arab,
    Arabext,
    Beng,
    Deva,
    Thai,
    Hanidec,
    Roman,
}

impl Default for NumberingSystem {
    fn default() -> (r: Self)
        ensures
            r == NumberingSystem::Latn,
    {
        NumberingSystem::Latn
    }
}

/// Clock style.
#[derive(Debug, Clone, Copy, PartialEq, Eq, Structural)]
pub enum TimeFormat {
    Locale,
    H12,
    H24,
}

impl Default for TimeFormat {
    fn default() -> (r: Self)
        ensures
            r == TimeFormat::Locale,
    {
        TimeFormat::Locale
    }
}

/// Date style.
#[derive(Debug, Clone, Copy, PartialEq, Eq, Structural)]
pub enum DateFormat {
    Locale,
    UsSlash,
    EuSlash,
    Iso,
    JaJp,
    Dotted,
}

impl Default for DateFormat {
    fn default() -> (r: Self)
        ensures
            r == DateFormat::Locale,
    {
        DateFormat::Locale
    }
}

/// A locale profile.
#[derive(Debug, Clone, PartialEq)]
pub struct LocaleSpec {
    pub name: String,
    pub host: String,
    pub primary: String,
    pub accept_languages: Vec<String>,
    pub timezone: String,
    pub date_format: DateFormat,
    pub time_format: TimeFormat,
    pub first_day_of_week: FirstDay,
    pub measurement: Measurement,
    pub currency: Option<String>,
    pub numbering_system: NumberingSystem,
    pub expose_to_js: bool,
    pub exempt_hosts: Vec<String>,
    pub enabled: bool,
    pub description: Option<String>,
}

impl Named for LocaleSpec {
    open spec fn key(&self) -> Seq<char> {
        self.name@
    }

    fn name_ref(&self) -> (r: &str) {
        self.name.as_str()
    }
}

impl HostScoped for LocaleSpec {
    open spec fn scope(&self) -> Seq<char> {
        self.host@
    }

    open spec fn active(&self) -> bool {
        self.enabled
    }

    fn scope_ref(&self) -> (r: &str) {
        self.host.as_str()
    }

    fn is_active(&self) -> (r: bool) {
        self.enabled
    }
}

/// An entry that already carries its own `;q=` weight.
pub open spec fn has_explicit_q(e: Seq<char>) -> bool {
    contains_sub(e, seq![';', 'q', '=']) || contains_sub(e, seq![';', ' ', 'q', '='])
}

/// Number of entries among the first `n` without an explicit weight.
pub open spec fn implicit_count(s: Seq<Seq<char>>, n: int) -> nat
    decreases n,
{
    if n <= 0 {
        0
    } else if has_explicit_q(s[n - 1]) {
        implicit_count(s, n - 1)
    } else {
        implicit_count(s, n - 1) + 1
    }
}

/// The weight, in tenths, of the `k`-th implicitly weighted entry (k ≥ 1): 0.9, 0.8, … never below 0.1.
pub open spec fn q_tenths(k: nat) -> nat {
    if k >= 9 {
        1
    } else {
        (10 - k) as nat
    }
}

/// An implicitly weighted entry as rendered: the first bare, later ones with `;q=0.d`.
pub open spec fn weighted(e: Seq<char>, k: nat) -> Seq<char> {
    if k == 0 {
        e
    } else {
        e + seq![';', 'q', '=', '0', '.', ((48 + q_tenths(k)) as u8) as char]
    }
}

/// Each accept-language entry as rendered in the header.
pub open spec fn rendered_entries(s: Seq<Seq<char>>) -> Seq<Seq<char>> {
    Seq::new(s.len(), |i: int| if has_explicit_q(s[i]) { s[i] } else { weighted(s[i], implicit_count(s, i)) })
}

/// The language tag of an accept-language entry: before any `;` or `,`, trimmed.
pub open spec fn lang_tag(e: Seq<char>) -> Seq<char> {
    trim(before_any(e, seq![';', ',']))
}

/// `init` extended with the non-empty, not yet present tags of `entries`, in order.
pub open spec fn add_tags(init: Seq<Seq<char>>, entries: Seq<Seq<char>>) -> Seq<Seq<char>>
    decreases entries.len(),
{
    if entries.len() == 0 {
        init
    } else {
        let prev = add_tags(init, entries.drop_last());
        let t = lang_tag(entries.last());
        if t.len() > 0 && !prev.contains(t) {
            prev.push(t)
        } else {
            prev
        }
    }
}

impl LocaleSpec {
    /// The `Accept-Language` header value.
    pub open spec fn accept_language_header(&self) -> Seq<char> {
        if self.accept_languages@.len() == 0 {
            self.primary@
        } else {
            join(rendered_entries(views(self.accept_languages@)), seq![',', ' '])
        }
    }

    /// The language list exposed as `navigator.languages`.
    pub open spec fn js_language_list(&self) -> Seq<Seq<char>> {
        if !self.expose_to_js {
            seq![]
        } else {
            add_tags(
                if self.primary@.len() > 0 { seq![self.primary@] } else { seq![] },
                views(self.accept_languages@),
            )
        }
    }

    /// The built-in passthrough profile.
    pub fn default_profile() -> (r: Self)
        ensures
            r.name@ == "default"@,
            r.host@ == "*"@,
            r.primary@.len() == 0,
            r.accept_languages@.len() == 0,
            r.timezone@.len() == 0,
            r.date_format == DateFormat::Locale,
            r.time_format == TimeFormat::Locale,
            r.first_day_of_week == FirstDay::Locale,
            r.measurement == Measurement::Passthrough,
            r.currency.is_none(),
            r.numbering_system == NumberingSystem::Latn,
            r.expose_to_js,
            r.exempt_hosts@.len() == 0,
            r.enabled,
            r.description.is_some(),
    {
        LocaleSpec {
            name: owned("default"),
            host: owned("*"),
            primary: String::new(),
            accept_languages: Vec::new(),
            timezone: String::new(),
            date_format: DateFormat::Locale,
            time_format: TimeFormat::Locale,
            first_day_of_week: FirstDay::Locale,
            measurement: Measurement::Passthrough,
            currency: None,
            numbering_system: NumberingSystem::Latn,
            expose_to_js: true,
            exempt_hosts: Vec::new(),
            enabled: true,
            description: Some(owned("Default locale — passthrough. Set primary + accept-languages to override.")),
        }
    }

    /// Whether the profile's host pattern admits `host`.
    pub fn matches_host(&self, host: &str) -> (r: bool)
        ensures
            r == host_field_matches(self.host@, host@),
    {
        host_pattern_matches(self.host.as_str(), host)
    }

    /// Whether `host` is exempt from the override.
    pub fn is_exempt(&self, host: &str) -> (r: bool)
        ensures
            r == any_glob_host(self.exempt_hosts@, host@),
    {
        any_host_matches(&self.exempt_hosts, host)
    }

    /// The `Accept-Language` header: entries weighted 1.0, 0.9, 0.8, … (never below 0.1)
    /// unless they carry an explicit weight; the primary tag when the list is empty.
    pub fn render_accept_language(&self) -> (r: String)
        ensures
            r@ == self.accept_language_header(),
    {
        if self.accept_languages.len() == 0 {
            return owned(self.primary.as_str());
        }
        let ghost s = views(self.accept_languages@);
        let mut out: Vec<String> = Vec::new();
        let mut implicit_idx: u64 = 0;
        let mut i: usize = 0;
        while i < self.accept_languages.len()
            invariant
                i <= self.accept_languages@.len(),
                s == views(self.accept_languages@),
                implicit_idx == implicit_count(s, i as int),
                implicit_idx <= i,
                views(out@) == rendered_entries(s).take(i as int),
            decreases self.accept_languages@.len() - i,
        {
            let entry = self.accept_languages[i].as_str();
            let explicit = has_q_marker(entry);
            let ghost prev = out@;
            assert(entry@ == s[i as int]);
            if explicit {
                out.push(owned(entry));
                proof {
                    assert(implicit_count(s, i + 1) == implicit_count(s, i as int));
                    assert(out@.last()@ == rendered_entries(s)[i as int]);
                }
            } else {
                let mut e = owned(entry);
                proof {
                    reveal_strlit(";q=0.");
                }
                if implicit_idx > 0 {
                    let tenths: u64 = if implicit_idx >= 9 { 1 } else { 10 - implicit_idx };
                    push_str(&mut e, ";q=0.");
                    let d: u8 = (48 + tenths) as u8;
                    push(&mut e, d as char);
                    proof {
                        assert(tenths == q_tenths(implicit_idx as nat));
                        assert(e@ =~= weighted(entry@, implicit_idx as nat));
                    }
                }
                proof {
                    assert(e@ == weighted(entry@, implicit_idx as nat));
                    assert(implicit_count(s, i + 1) == implicit_count(s, i as int) + 1);
                }
                implicit_idx += 1;
                out.push(e);
                proof {
                    assert(out@.last()@ == rendered_entries(s)[i as int]);
                }
            }
            proof {
                assert(out@ == prev.push(out@.last()));
                assert(views(out@) =~= views(prev).push(rendered_entries(s)[i as int]));
            }
            proof {
                assert(views(out@) =~= rendered_entries(s).take(i + 1));
            }
            i += 1;
        }
        proof {
            assert(rendered_entries(s).take(i as int) =~= rendered_entries(s));
        }
        let mut sep = String::new();
        push(&mut sep, ',');
        push(&mut sep, ' ');
        proof {
            assert(sep@ =~= seq![',', ' ']);
        }
        join_strings(&out, sep.as_str())
    }

    /// The primary language tag: `primary`, else the first accept-language entry, else empty.
    pub fn primary_tag(&self) -> (r: &str)
        ensures
            r@ == if self.primary@.len() > 0 {
                self.primary@
            } else if self.accept_languages@.len() > 0 {
                self.accept_languages@[0]@
            } else {
                Seq::<char>::empty()
            },
    {
        if self.primary.as_str().is_empty() == false {
            return self.primary.as_str();
        }
        if self.accept_languages.len() > 0 {
            return self.accept_languages[0].as_str();
        }
        proof {
            reveal_strlit("");
        }
        ""
    }

    /// `navigator.languages`: the primary tag then each entry's tag, deduplicated;
    /// empty when the profile hides languages from scripts.
    pub fn js_languages(&self) -> (r: Vec<String>)
        ensures
            views(r@) == self.js_language_list(),
    {
        if !self.expose_to_js {
            let r: Vec<String> = Vec::new();
            assert(views(r@) =~= Seq::<Seq<char>>::empty());
            return r;
        }
        let mut out: Vec<String> = Vec::new();
        if !self.primary.as_str().is_empty() {
            out.push(owned(self.primary.as_str()));
        }
        let ghost init = views(out@);
        proof {
            if self.primary@.len() > 0 {
                assert(init =~= seq![self.primary@]);
            } else {
                assert(init =~= Seq::<Seq<char>>::empty());
            }
        }
        let ghost s = views(self.accept_languages@);
        let stops: Vec<char> = vec![';', ','];
        assert(stops@ =~= seq![';', ',']);
        let mut i: usize = 0;
        while i < self.accept_languages.len()
            invariant
                i <= self.accept_languages@.len(),
                s == views(self.accept_languages@),
                stops@ == seq![';', ','],
                views(out@) == add_tags(init, s.take(i as int)),
            decreases self.accept_languages@.len() - i,
        {
            let cs = chars_of(self.accept_languages[i].as_str());
            let head = before_any_chars(cs.as_slice(), stops.as_slice());
            let t = trim_chars(head.as_slice());
            let tag = string_from_chars(t.as_slice());
            let ghost prev = views(out@);
            proof {
                assert(s.take(i + 1).drop_last() =~= s.take(i as int));
                assert(s.take(i + 1).last() == s[i as int]);
                assert(tag@ == lang_tag(s[i as int]));
            }
            if t.len() > 0 && !contains_string(&out, tag.as_str()) {
                out.push(tag);
                proof {
                    assert(views(out@) =~= prev.push(lang_tag(s[i as int])));
                    assert(!prev.contains(lang_tag(s[i as int]))) by {
                        if prev.contains(lang_tag(s[i as int])) {
                            let w = choose|w: int| 0 <= w < prev.len() && prev[w] == lang_tag(s[i as int]);
                            assert(has_view(out@.drop_last(), lang_tag(s[i as int]))) by {
                                assert(out@.drop_last()[w]@ == prev[w]);
                            }
                            assert(false);
                        }
                    }
                }
            } else {
                proof {
                    if t@.len() > 0 {
                        let w = choose|w: int| 0 <= w < out@.len() && #[trigger] out@[w]@ == tag@;
                        assert(prev[w] == tag@);
                        assert(prev.contains(lang_tag(s[i as int])));
                    }
                }
            }
            i += 1;
        }
        proof {
            assert(s.take(s.len() as int) =~= s);
        }
        out
    }
}

/// The entry carries `;q=` or `; q=`.
fn has_q_marker(entry: &str) -> (r: bool)
    ensures
        r == has_explicit_q(entry@),
{
    let cs = chars_of(entry);
    let a: Vec<char> = vec![';', 'q', '='];
    let b: Vec<char> = vec![';', ' ', 'q', '='];
    assert(a@ =~= seq![';', 'q', '=']);
    assert(b@ =~= seq![';', ' ', 'q', '=']);
    find_chars(cs.as_slice(), a.as_slice()).is_some() || find_chars(cs.as_slice(), b.as_slice()).is_some()
}

/// Locale profiles, one per name.
#[derive(Debug, Clone)]
pub struct LocaleRegistry {
    specs: Vec<LocaleSpec>,
}

impl View for LocaleRegistry {
    type V = Seq<LocaleSpec>;

    closed spec fn view(&self) -> Seq<LocaleSpec> {
        self.specs@
    }
}

impl LocaleRegistry {
    /// An empty registry.
    pub fn new() -> (r: Self)
        ensures
            r@ == Seq::<LocaleSpec>::empty(),
    {
        LocaleRegistry { specs: Vec::new() }
    }

    /// Adds `spec`, replacing any profile of the same name.
    pub fn insert(&mut self, spec: LocaleSpec)
        ensures
            final(self)@ == upserted(old(self)@, spec),
    {
        upsert(&mut self.specs, spec);
    }

    /// Adds each spec in order.
    pub fn extend(&mut self, specs: Vec<LocaleSpec>)
        ensures
            final(self)@ == upserted_all(old(self)@, specs@),
    {
        upsert_all(&mut self.specs, specs);
    }

    /// Number of profiles.
    pub fn len(&self) -> (r: usize)
        ensures
            r == self@.len(),
    {
        self.specs.len()
    }

    /// No profile is registered.
    pub fn is_empty(&self) -> (r: bool)
        ensures
            r == (self@.len() == 0),
    {
        self.specs.len() == 0
    }

    /// The profiles in order.
    pub fn specs(&self) -> (r: &[LocaleSpec])
        ensures
            r@ == self@,
    {
        self.specs.as_slice()
    }

    /// The enabled profile for `host`: host-specific first, then any match.
    pub fn resolve(&self, host: &str) -> (r: Option<&LocaleSpec>)
        ensures
            match resolve_scoped(self@, host@) {
                Some(i) => r == Some(&self@[i]),
                None => r.is_none(),
            },
    {
        match resolve_index(&self.specs, host) {
            Some(i) => Some(&self.specs[i]),
            None => None,
        }
    }
}

} // verus!
