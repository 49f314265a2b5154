//! `(deffind)` — find-in-page profiles: case sensitivity, whole-word matching, regular
//! expressions and a cap on the number of hits. The search over a document, giving typed
//! [`FindMatch`] hits, is in [`search`].
use vstd::prelude::*;

pub mod search;

pub use search::find_in_document;

use crate::registry::{
    find_key, index_of_key, lemma_first_where_spec, upsert, upsert_all, upserted, upserted_all, Named,
};
use crate::text::owned;

verus! {

/// A find-in-page profile.
#[derive(Debug, Clone, PartialEq)]
pub struct FindSpec {
    pub name: String,
    /// Compare case-sensitively.
    pub case_sensitive: bool,
    /// Require a word boundary on both sides of a hit.
    pub whole_word: bool,
    /// Read the query as a regular expression.
    pub regex: bool,
    /// Most hits reported; `0` is unlimited.
    pub max_matches: usize,
    pub description: Option<String>,
}

impl Named for FindSpec {
    open spec fn key(&self) -> Seq<char> {
        self.name@
    }

    fn name_ref(&self) -> (r: &str) {
        self.name.as_str()
    }
}

/// The hit cap used when none is given.
pub fn default_max_matches() -> (r: usize)
    ensures
        r == 500,
{
    500
}

impl FindSpec {
    /// The built-in profile: case-insensitive substring search, at most 500 hits.
    pub fn default_profile() -> (r: Self)
        ensures
            r.name@ == "default"@,
            !r.case_sensitive,
            !r.whole_word,
            !r.regex,
            r.max_matches == 500,
            r.description.is_some(),
    {
        FindSpec {
            name: owned("default"),
            case_sensitive: false,
            whole_word: false,
            regex: false,
            max_matches: 500,
            description: Some(owned("Case-insensitive substring find.")),
        }
    }
}

/// Find-in-page profiles, one per name.
#[derive(Debug, Clone)]
pub struct FindRegistry {
    specs: Vec<FindSpec>,
}

impl View for FindRegistry {
    type V = Seq<FindSpec>;

    closed spec fn view(&self) -> Seq<FindSpec> {
        self.specs@
    }
}

impl FindRegistry {
    /// An empty registry.
    pub fn new() -> (r: Self)
        ensures
            r@ == Seq::<FindSpec>::empty(),
    {
        FindRegistry { specs: Vec::new() }
    }

    /// Adds `spec`, replacing any entry of the same name.
    pub fn insert(&mut self, spec: FindSpec)
        ensures
            final(self)@ == upserted(old(self)@, spec),
    {
        upsert(&mut self.specs, spec);
    }

    /// Adds each spec in order.
    pub fn extend(&mut self, specs: Vec<FindSpec>)
        ensures
            final(self)@ == upserted_all(old(self)@, specs@),
    {
        upsert_all(&mut self.specs, specs);
    }

    /// Number of entries.
    pub fn len(&self) -> (r: usize)
        ensures
            r == self@.len(),
    {
        self.specs.len()
    }

    /// No entry is registered.
    pub fn is_empty(&self) -> (r: bool)
        ensures
            r == (self@.len() == 0),
    {
        self.specs.len() == 0
    }

    /// The entries in order.
    pub fn specs(&self) -> (r: &[FindSpec])
        ensures
            r@ == self@,
    {
        self.specs.as_slice()
    }

    /// The first entry named `name`.
    pub fn get(&self, name: &str) -> (r: Option<&FindSpec>)
        ensures
            match index_of_key(self@, name@) {
                Some(i) => r == Some(&self@[i]),
                None => r.is_none(),
            },
    {
        match find_key(&self.specs, name) {
            Some(i) => {
                proof {
                    lemma_first_where_spec(self.specs@, crate::registry::key_equals::<FindSpec>(name@));
                }
                Some(&self.specs[i])
            },
            None => None,
        }
    }
}

/// One hit in a document.
#[derive(Debug, Clone, PartialEq, Eq)]
pub struct FindMatch {
    /// Tag of the enclosing element.
    pub enclosing_tag: Option<String>,
    /// Depth-first index of the text node holding the hit.
    pub text_node_index: usize,
    /// Character offset of the hit inside that text node.
    pub offset: usize,
    /// The hit as it appears in the document.
    pub matched: String,
}

} // verus!
