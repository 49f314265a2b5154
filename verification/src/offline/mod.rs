//! `(defoffline)` — save-for-offline profiles: which assets are kept, for how
//! long, and which tags trigger an automatic save.
use vstd::prelude::*;

use crate::extension::{contains_string, has_view};
use crate::registry::{
    find_key, index_of_key, lemma_first_where_spec, upsert, upsert_all, upserted, upserted_all, Named,
};
use crate::text::owned;

verus! {

/// Asset class kept with an offline page.
#[derive(Debug, Clone, Copy, PartialEq, Eq, Hash, Structural)]
pub enum AssetKind {
    Html,
    Css,
    Images,
    Fonts,
    Scripts,
    Media,
}

/// An offline-storage profile.
#[derive(Debug, Clone, PartialEq)]
pub struct OfflineSpec {
    pub name: String,
    pub storage: String,
    pub ttl_seconds: u64,
    pub include_assets: Vec<AssetKind>,
    pub max_size_bytes: u64,
    pub auto_save_tags: Vec<String>,
    pub description: Option<String>,
}

impl Named for OfflineSpec {
    open spec fn key(&self) -> Seq<char> {
        self.name@
    }

    fn name_ref(&self) -> (r: &str) {
        self.name.as_str()
    }
}

/// The asset kinds a default profile keeps.
pub open spec fn default_assets_spec() -> Seq<AssetKind> {
    seq![AssetKind::Html, AssetKind::Css, AssetKind::Images]
}

/// Some tag of `tags` is one of `auto`.
pub open spec fn shares_tag(auto: Seq<String>, tags: Seq<String>) -> bool {
    exists|i: int| 0 <= i < tags.len() && has_view(auto, #[trigger] tags[i]@)
}

impl OfflineSpec {
    /// The built-in profile: HTML, CSS and images for a week, at most 10 MiB.
    pub fn default_profile() -> (r: Self)
        ensures
            r.name@ == "default"@,
            r.storage@ == "offline-pages"@,
            r.ttl_seconds == 604_800,
            r.include_assets@ == default_assets_spec(),
            r.max_size_bytes == 10 * 1024 * 1024,
            r.auto_save_tags@.len() == 0,
            r.description.is_some(),
    {
        let assets = vec![AssetKind::Html, AssetKind::Css, AssetKind::Images];
        assert(assets@ =~= default_assets_spec());
        OfflineSpec {
            name: owned("default"),
            storage: owned("offline-pages"),
            ttl_seconds: 604_800,
            include_assets: assets,
            max_size_bytes: 10 * 1024 * 1024,
            auto_save_tags: Vec::new(),
            description: Some(owned("Default offline — HTML+CSS+images, 7-day TTL, 10MiB cap.")),
        }
    }

    /// Whether assets of `kind` are kept.
    pub fn includes(&self, kind: AssetKind) -> (r: bool)
        ensures
            r == self.include_assets@.contains(kind),
    {
        let mut i: usize = 0;
        while i < self.include_assets.len()
            invariant
                i <= self.include_assets@.len(),
                forall|j: int| 0 <= j < i ==> self.include_assets@[j] != kind,
            decreases self.include_assets@.len() - i,
        {
            if self.include_assets[i] == kind {
                return true;
            }
            i += 1;
        }
        false
    }

    /// Whether a page tagged with `tags` is saved automatically; never when the profile lists no tags.
    pub fn auto_saves(&self, tags: &[String]) -> (r: bool)
        ensures
            r == (self.auto_save_tags@.len() > 0 && shares_tag(self.auto_save_tags@, tags@)),
    {
        if self.auto_save_tags.len() == 0 {
            return false;
        }
        let mut i: usize = 0;
        while i < tags.len()
            invariant
                i <= tags@.len(),
                forall|j: int| 0 <= j < i ==> !has_view(self.auto_save_tags@, #[trigger] tags@[j]@),
            decreases tags@.len() - i,
        {
            if contains_string(&self.auto_save_tags, tags[i].as_str()) {
                return true;
            }
            i += 1;
        }
        false
    }
}

/// One saved page.
#[derive(Debug, Clone, PartialEq, Eq)]
pub struct OfflineEntry {
    pub url: String,
    pub title: String,
    pub saved_at: i64,
    pub size_bytes: u64,
    pub content_hash: Option<String>,
    pub tags: Vec<String>,
}

/// Offline profiles, one per name.
#[derive(Debug, Clone)]
pub struct OfflineRegistry {
    specs: Vec<OfflineSpec>,
}

impl View for OfflineRegistry {
    type V = Seq<OfflineSpec>;

    closed spec fn view(&self) -> Seq<OfflineSpec> {
        self.specs@
    }
}

impl OfflineRegistry {
    /// An empty registry.
    pub fn new() -> (r: Self)
        ensures
            r@ == Seq::<OfflineSpec>::empty(),
    {
        OfflineRegistry { specs: Vec::new() }
    }

    /// Adds `spec`, replacing any entry of the same name.
    pub fn insert(&mut self, spec: OfflineSpec)
        ensures
            final(self)@ == upserted(old(self)@, spec),
    {
        upsert(&mut self.specs, spec);
    }

    /// Adds each spec in order.
    pub fn extend(&mut self, specs: Vec<OfflineSpec>)
        ensures
            final(self)@ == upserted_all(old(self)@, specs@),
    {
        upsert_all(&mut self.specs, specs);
    }

    /// Number of entries.
    pub fn len(&self) -> (r: usize)
        ensures
            r == self@.len(),
    {
        self.specs.len()
    }

    /// No entry is registered.
    pub fn is_empty(&self) -> (r: bool)
        ensures
            r == (self@.len() == 0),
    {
        self.specs.len() == 0
    }

    /// The entries in order.
    pub fn specs(&self) -> (r: &[OfflineSpec])
        ensures
            r@ == self@,
    {
        self.specs.as_slice()
    }

    /// The first entry named `name`.
    pub fn get(&self, name: &str) -> (r: Option<&OfflineSpec>)
        ensures
            match index_of_key(self@, name@) {
                Some(i) => r == Some(&self@[i]),
                None => r.is_none(),
            },
    {
        match find_key(&self.specs, name) {
            Some(i) => {
                proof {
                    lemma_first_where_spec(self.specs@, crate::registry::key_equals::<OfflineSpec>(name@));
                }
                Some(&self.specs[i])
            },
            None => None,
        }
    }
}

} // verus!
