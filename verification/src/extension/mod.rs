//! `(defextension)` — declarative browser extensions: permissions, host
//! scoping, owned rules, and a content hash for attestation.
use vstd::prelude::*;

pub mod base32;
pub mod glob;
pub mod signature;

pub use self::glob::{glob_match_host, host_pattern_matches};
use self::glob::{any_glob_host, any_host_matches};
use crate::registry::{
    find_key, first_where, index_of_key, lemma_first_where_found, lemma_first_where_none,
    remove_key, upsert, upsert_all, upserted, upserted_all, without_key, Named,
};
use crate::text::str_eq;

verus! {

/// Capability an extension may request.
#[derive(Debug, Clone, Copy, PartialEq, Eq, Hash, Structural)]
pub enum Permission {
    Storage,
    Cookies,
    Tabs,
    ActiveTab,
    History,
    Bookmarks,
    WebRequest,
    DeclarativeNetRequest,
    Notifications,
    ContextMenus,
    Omnibox,
    Scripting,
    Downloads,
    Clipboard,
}

impl Permission {
    /// The Chrome-manifest spelling of a permission.
    pub open spec fn manifest_name(self) -> &'static str {
        match self {
            Permission::Storage => "storage",
            Permission::Cookies => "cookies",
            Permission::Tabs => "tabs",
            Permission::ActiveTab => "activeTab",
            Permission::History => "history",
            Permission::Bookmarks => "bookmarks",
            Permission::WebRequest => "webRequest",
            Permission::DeclarativeNetRequest => "declarativeNetRequest",
            Permission::Notifications => "notifications",
            Permission::ContextMenus => "contextMenus",
            Permission::Omnibox => "omnibox",
            Permission::Scripting => "scripting",
            Permission::Downloads => "downloads",
            Permission::Clipboard => "clipboard",
        }
    }

    /// Chrome-manifest string for this permission.
    pub fn as_manifest_str(&self) -> (r: &'static str)
        ensures
            r == self.manifest_name(),
    {
        match self {
            Permission::Storage => "storage",
            Permission::Cookies => "cookies",
            Permission::Tabs => "tabs",
            Permission::ActiveTab => "activeTab",
            Permission::History => "history",
            Permission::Bookmarks => "bookmarks",
            Permission::WebRequest => "webRequest",
            Permission::DeclarativeNetRequest => "declarativeNetRequest",
            Permission::Notifications => "notifications",
            Permission::ContextMenus => "contextMenus",
            Permission::Omnibox => "omnibox",
            Permission::Scripting => "scripting",
            Permission::Downloads => "downloads",
            Permission::Clipboard => "clipboard",
        }
    }
}

/// One declared extension.
#[derive(Debug, Clone, PartialEq)]
pub struct ExtensionSpec {
    pub name: String,
    pub version: String,
    pub description: Option<String>,
    pub author: Option<String>,
    pub homepage_url: Option<String>,
    pub icon: Option<String>,
    pub permissions: Vec<Permission>,
    pub host_permissions: Vec<String>,
    pub rules: Vec<String>,
    pub enabled: bool,
}

impl Named for ExtensionSpec {
    open spec fn key(&self) -> Seq<char> {
        self.name@
    }

    fn name_ref(&self) -> (r: &str) {
        self.name.as_str()
    }
}

/// `seq` holds an entry whose view is `s`.
pub open spec fn has_view(seq: Seq<String>, s: Seq<char>) -> bool {
    exists|i: int| 0 <= i < seq.len() && #[trigger] seq[i]@ == s
}

/// Whether some entry of `v` reads `s`.
pub fn contains_string(v: &Vec<String>, s: &str) -> (r: bool)
    ensures
        r == has_view(v@, s@),
{
    let mut i: usize = 0;
    while i < v.len()
        invariant
            i <= v@.len(),
            forall|j: int| 0 <= j < i ==> #[trigger] v@[j]@ != s@,
        decreases v@.len() - i,
    {
        if str_eq(v[i].as_str(), s) {
            return true;
        }
        i += 1;
    }
    false
}

impl ExtensionSpec {
    /// Host scoping: no host permissions means every host.
    pub open spec fn admits_host(&self, host: Seq<char>) -> bool {
        self.host_permissions@.len() == 0 || any_glob_host(self.host_permissions@, host)
    }

    /// The extension owns the rule called `rule`.
    pub open spec fn owns(&self, rule: Seq<char>) -> bool {
        has_view(self.rules@, rule)
    }

    /// Whether the extension is scoped to `host`.
    pub fn matches_host(&self, host: &str) -> (r: bool)
        ensures
            r == self.admits_host(host@),
    {
        if self.host_permissions.len() == 0 {
            return true;
        }
        any_host_matches(&self.host_permissions, host)
    }

    /// Whether the extension was granted `perm`.
    pub fn has_permission(&self, perm: Permission) -> (r: bool)
        ensures
            r == self.permissions@.contains(perm),
    {
        let mut i: usize = 0;
        while i < self.permissions.len()
            invariant
                i <= self.permissions@.len(),
                forall|j: int| 0 <= j < i ==> self.permissions@[j] != perm,
            decreases self.permissions@.len() - i,
        {
            if self.permissions[i] == perm {
                return true;
            }
            i += 1;
        }
        false
    }

    /// Whether the extension owns the rule `rule_name`.
    pub fn owns_rule(&self, rule_name: &str) -> (r: bool)
        ensures
            r == self.owns(rule_name@),
    {
        contains_string(&self.rules, rule_name)
    }
}

/// Installed extensions, in install order, one per name.
#[derive(Debug, Clone)]
pub struct ExtensionRegistry {
    specs: Vec<ExtensionSpec>,
}

impl View for ExtensionRegistry {
    type V = Seq<ExtensionSpec>;

    closed spec fn view(&self) -> Seq<ExtensionSpec> {
        self.specs@
    }
}

/// The first extension owning `rule`, if any.
pub open spec fn owner_of(specs: Seq<ExtensionSpec>, rule: Seq<char>) -> Option<int> {
    first_where(specs, |s: ExtensionSpec| s.owns(rule))
}

/// A rule is allowed when no extension owns it, or its owner is enabled and scoped to `host`.
pub open spec fn rule_allowed_spec(specs: Seq<ExtensionSpec>, rule: Seq<char>, host: Seq<char>) -> bool {
    match owner_of(specs, rule) {
        None => true,
        Some(i) => specs[i].enabled && specs[i].admits_host(host),
    }
}

/// Some extension in `specs` owns a rule reading `r`.
pub open spec fn some_owns(specs: Seq<ExtensionSpec>, r: Seq<char>) -> bool {
    exists|i: int| 0 <= i < specs.len() && (#[trigger] specs[i]).owns(r)
}

impl ExtensionRegistry {
    /// An empty registry.
    pub fn new() -> (r: Self)
        ensures
            r@ == Seq::<ExtensionSpec>::empty(),
    {
        ExtensionRegistry { specs: Vec::new() }
    }

    /// Installs `spec`, replacing any extension of the same name.
    pub fn insert(&mut self, spec: ExtensionSpec)
        ensures
            final(self)@ == upserted(old(self)@, spec),
    {
        upsert(&mut self.specs, spec);
    }

    /// Installs each spec in order.
    pub fn extend(&mut self, specs: Vec<ExtensionSpec>)
        ensures
            final(self)@ == upserted_all(old(self)@, specs@),
    {
        upsert_all(&mut self.specs, specs);
    }

    /// Uninstalls every extension named `name`; true when one was removed.
    pub fn remove(&mut self, name: &str) -> (r: bool)
        ensures
            final(self)@ == without_key(old(self)@, name@),
            r == (exists|i: int| 0 <= i < old(self)@.len() && #[trigger] old(self)@[i].key() == name@),
            index_of_key(final(self)@, name@) is None,
    {
        let before = self.specs.len();
        remove_key(&mut self.specs, name);
        proof {
            crate::registry::law_remove_key(old(self)@, name@);
        }
        self.specs.len() < before
    }

    /// Sets the enabled flag of the first extension named `name`; false when there is none.
    pub fn set_enabled(&mut self, name: &str, enabled: bool) -> (r: bool)
        ensures
            r == index_of_key(old(self)@, name@).is_some(),
            match index_of_key(old(self)@, name@) {
                Some(i) => final(self)@ == old(self)@.update(i, ExtensionSpec { enabled, ..old(self)@[i] }),
                None => final(self)@ == old(self)@,
            },
    {
        match find_key(&self.specs, name) {
            Some(i) => {
                proof {
                    crate::registry::lemma_first_where_spec(self.specs@, crate::registry::key_equals::<ExtensionSpec>(name@));
                }
                let mut s = self.specs.remove(i);
                s.enabled = enabled;
                self.specs.insert(i, s);
                true
            },
            None => false,
        }
    }

    /// Number of installed extensions.
    pub fn len(&self) -> (r: usize)
        ensures
            r == self@.len(),
    {
        self.specs.len()
    }

    /// No extension is installed.
    pub fn is_empty(&self) -> (r: bool)
        ensures
            r == (self@.len() == 0),
    {
        self.specs.len() == 0
    }

    /// The installed extensions in order.
    pub fn specs(&self) -> (r: &[ExtensionSpec])
        ensures
            r@ == self@,
    {
        self.specs.as_slice()
    }

    /// The first extension named `name`.
    pub fn get(&self, name: &str) -> (r: Option<&ExtensionSpec>)
        ensures
            match index_of_key(self@, name@) {
                Some(i) => r == Some(&self@[i]),
                None => r.is_none(),
            },
    {
        match find_key(&self.specs, name) {
            Some(i) => {
                proof {
                    crate::registry::lemma_first_where_spec(self.specs@, crate::registry::key_equals::<ExtensionSpec>(name@));
                }
                Some(&self.specs[i])
            },
            None => None,
        }
    }

    /// Whether the rule `rule_name` may run on `host`.
    pub fn rule_allowed(&self, rule_name: &str, host: &str) -> (r: bool)
        ensures
            r == rule_allowed_spec(self@, rule_name@, host@),
    {
        let ghost pred = |s: ExtensionSpec| s.owns(rule_name@);
        let mut i: usize = 0;
        while i < self.specs.len()
            invariant
                i <= self.specs@.len(),
                forall|j: int| 0 <= j < i ==> !pred(self.specs@[j]),
                pred == (|s: ExtensionSpec| s.owns(rule_name@)),
            decreases self.specs@.len() - i,
        {
            if self.specs[i].owns_rule(rule_name) {
                proof {
                    lemma_first_where_found(self.specs@, pred, i as int);
                }
                let ext = &self.specs[i];
                return ext.enabled && ext.matches_host(host);
            }
            i += 1;
        }
        proof {
            lemma_first_where_none(self.specs@, pred);
        }
        true
    }

    /// Every rule owned by some extension, each once, in first-seen order.
    pub fn owned_rules(&self) -> (r: Vec<String>)
        ensures
            forall|s: Seq<char>| #[trigger] has_view(r@, s) <==> some_owns(self@, s),
            distinct_views(r@),
    {
        let mut out: Vec<String> = Vec::new();
        let mut i: usize = 0;
        while i < self.specs.len()
            invariant
                i <= self.specs@.len(),
                forall|s: Seq<char>| #[trigger] has_view(out@, s) <==> some_owns(self.specs@.take(i as int), s),
                distinct_views(out@),
            decreases self.specs@.len() - i,
        {
            let ghost before = out@;
            push_all_new(&mut out, &self.specs[i].rules);
            proof {
                let sp = self.specs@;
                assert(sp.take(i + 1) =~= sp.take(i as int).push(sp[i as int]));
                assert forall|s: Seq<char>| some_owns(sp.take(i + 1), s) <==> (some_owns(sp.take(i as int), s) || sp[i as int].owns(s)) by {
                    if some_owns(sp.take(i + 1), s) {
                        let w = choose|w: int| 0 <= w < sp.take(i + 1).len() && (#[trigger] sp.take(i + 1)[w]).owns(s);
                        if w < i {
                            assert(sp.take(i as int)[w].owns(s));
                        }
                    }
                    if some_owns(sp.take(i as int), s) {
                        let w = choose|w: int| 0 <= w < sp.take(i as int).len() && (#[trigger] sp.take(i as int)[w]).owns(s);
                        assert(sp.take(i + 1)[w].owns(s));
                    }
                    if sp[i as int].owns(s) {
                        assert(sp.take(i + 1)[i as int].owns(s));
                    }
                }
                assert forall|s: Seq<char>| #[trigger] has_view(out@, s) <==> some_owns(sp.take(i + 1), s) by {
                    assert(has_view(before, s) <==> some_owns(sp.take(i as int), s));
                    assert(some_owns(sp.take(i + 1), s) <==> (some_owns(sp.take(i as int), s) || sp[i as int].owns(s)));
                }
            }
            i += 1;
        }
        proof {
            assert(self.specs@.take(self.specs@.len() as int) =~= self.specs@);
        }
        out
    }
}

/// No two entries of `v` read the same.
pub open spec fn distinct_views(v: Seq<String>) -> bool {
    forall|a: int, b: int| 0 <= a < b < v.len() ==> v[a]@ != v[b]@
}

/// Appends each entry of `items` that `out` does not read yet.
fn push_all_new(out: &mut Vec<String>, items: &Vec<String>)
    requires
        distinct_views(old(out)@),
    ensures
        distinct_views(final(out)@),
        forall|s: Seq<char>| #[trigger] has_view(final(out)@, s) <==> (has_view(old(out)@, s) || has_view(items@, s)),
{
    let ghost before = out@;
    let mut k: usize = 0;
    while k < items.len()
        invariant
            k <= items@.len(),
            distinct_views(out@),
            forall|s: Seq<char>| #[trigger] has_view(out@, s) <==> (has_view(before, s) || has_view(items@.take(k as int), s)),
        decreases items@.len() - k,
    {
        let ghost prev = out@;
        push_new(out, &items[k]);
        proof {
            let rs = items@;
            assert(rs.take(k + 1) =~= rs.take(k as int).push(rs[k as int]));
            assert forall|s: Seq<char>| #[trigger] has_view(out@, s) <==> (has_view(before, s) || has_view(rs.take(k + 1), s)) by {
                if has_view(rs.take(k + 1), s) {
                    let w = choose|w: int| 0 <= w < rs.take(k + 1).len() && #[trigger] rs.take(k + 1)[w]@ == s;
                    if w < k {
                        assert(rs.take(k as int)[w]@ == s);
                    }
                }
                if has_view(rs.take(k as int), s) {
                    let w = choose|w: int| 0 <= w < rs.take(k as int).len() && #[trigger] rs.take(k as int)[w]@ == s;
                    assert(rs.take(k + 1)[w]@ == s);
                }
                if s == rs[k as int]@ {
                    assert(rs.take(k + 1)[k as int]@ == s);
                }
                assert(has_view(prev, s) <==> (has_view(before, s) || has_view(rs.take(k as int), s)));
            }
        }
        k += 1;
    }
    proof {
        assert(items@.take(items@.len() as int) =~= items@);
    }
}

/// Appends `item` unless `out` already reads it.
fn push_new(out: &mut Vec<String>, item: &String)
    requires
        distinct_views(old(out)@),
    ensures
        distinct_views(final(out)@),
        forall|s: Seq<char>| #[trigger] has_view(final(out)@, s) <==> (has_view(old(out)@, s) || s == item@),
{
    let ghost prev = out@;
    if !contains_string(out, item.as_str()) {
        out.push(item.clone());
        proof {
            assert forall|s: Seq<char>| #[trigger] has_view(out@, s) <==> (has_view(prev, s) || s == item@) by {
                if has_view(prev, s) {
                    let w = choose|w: int| 0 <= w < prev.len() && #[trigger] prev[w]@ == s;
                    assert(out@[w]@ == s);
                }
                if s == item@ {
                    assert(out@[prev.len() as int]@ == s);
                }
                if has_view(out@, s) {
                    let w = choose|w: int| 0 <= w < out@.len() && #[trigger] out@[w]@ == s;
                    if w < prev.len() {
                        assert(prev[w]@ == s);
                    }
                }
            }
        }
    }
}

} // verus!
