//! `(deffeed)` — RSS/Atom subscriptions: a named URL polled at a clamped cadence, grouped by
//! category, paused without being removed.
use vstd::prelude::*;

use crate::registry::{
    find_key, index_of_key, lemma_first_where_spec, remove_key, upsert, upserted, without_key, Named,
};
use crate::sorted::{insert_sorted, strictly_sorted};
use crate::text::{chars_of, owned, push_str, trim, trim_chars, views};

verus! {

/// A feed subscription.
#[derive(Debug, Clone, PartialEq)]
pub struct FeedSpec {
    pub name: String,
    pub url: String,
    /// Poll cadence in seconds; `0` means the default.
    pub cadence_seconds: u64,
    /// Free-form grouping such as "news" or "research".
    pub category: Option<String>,
    /// Items kept per feed; `0` is unlimited.
    pub max_items: usize,
    /// Storage used for the cache.
    pub storage: String,
    /// Paused feeds are not fetched but stay registered.
    pub enabled: bool,
    pub description: Option<String>,
}

impl Named for FeedSpec {
    open spec fn key(&self) -> Seq<char> {
        self.name@
    }

    fn name_ref(&self) -> (r: &str) {
        self.name.as_str()
    }
}

/// The cadence used when none is given: fifteen minutes.
pub fn default_cadence() -> (r: u64)
    ensures
        r == 900,
{
    900
}

/// The item cap used when none is given.
pub fn default_max_items() -> (r: usize)
    ensures
        r == 100,
{
    100
}

/// The storage used when none is given.
pub fn default_storage() -> (r: String)
    ensures
        r@ == "feeds"@,
{
    owned("feeds")
}

/// Feeds are enabled unless said otherwise.
pub fn default_enabled() -> (r: bool)
    ensures
        r,
{
    true
}

/// Shortest cadence: one minute.
pub const MIN_CADENCE: u64 = 60;

/// Longest cadence: one day.
pub const MAX_CADENCE: u64 = 86_400;

impl FeedSpec {
    /// The cadence in force: `0` stands for the default; then clamped to one minute .. one day.
    pub open spec fn cadence(&self) -> u64 {
        let c = if self.cadence_seconds == 0 {
            900
        } else {
            self.cadence_seconds
        };
        if c < MIN_CADENCE {
            MIN_CADENCE
        } else if c > MAX_CADENCE {
            MAX_CADENCE
        } else {
            c
        }
    }

    /// Why the feed is rejected, if it is.
    pub open spec fn rejection(&self) -> Option<Seq<char>> {
        if trim(self.name@).len() == 0 {
            Some("feed name is empty"@)
        } else if trim(self.url@).len() == 0 {
            Some("feed '"@ + self.name@ + "' has empty url"@)
        } else {
            None
        }
    }

    /// The poll cadence in force.
    pub fn clamped_cadence(&self) -> (r: u64)
        ensures
            r == self.cadence(),
            MIN_CADENCE <= r <= MAX_CADENCE,
    {
        let c = if self.cadence_seconds == 0 {
            default_cadence()
        } else {
            self.cadence_seconds
        };
        if c < MIN_CADENCE {
            MIN_CADENCE
        } else if c > MAX_CADENCE {
            MAX_CADENCE
        } else {
            c
        }
    }

    /// Checks that the name and the URL are not blank.
    pub fn validate(&self) -> (r: Result<(), String>)
        ensures
            match self.rejection() {
                Some(m) => r matches Err(e) && e@ == m,
                None => r is Ok,
            },
    {
        let n = chars_of(self.name.as_str());
        if trim_chars(n.as_slice()).len() == 0 {
            return Err(owned("feed name is empty"));
        }
        let u = chars_of(self.url.as_str());
        if trim_chars(u.as_slice()).len() == 0 {
            let mut m = owned("feed '");
            push_str(&mut m, self.name.as_str());
            push_str(&mut m, "' has empty url");
            return Err(m);
        }
        Ok(())
    }
}

/// One item read from a feed.
#[derive(Debug, Clone, PartialEq, Eq)]
pub struct FeedItem {
    pub url: String,
    pub title: String,
    /// Stable id; the URL when the feed gives none.
    pub guid: String,
    /// Unix seconds; `0` when unknown.
    pub published_at: i64,
    pub author: Option<String>,
    pub summary: Option<String>,
    pub tags: Vec<String>,
}

/// `s` after inserting each valid feed of `items` in order; invalid ones are skipped.
pub open spec fn inserted_valid(s: Seq<FeedSpec>, items: Seq<FeedSpec>) -> Seq<FeedSpec>
    decreases items.len(),
{
    if items.len() == 0 {
        s
    } else {
        let prev = inserted_valid(s, items.drop_last());
        if items.last().rejection().is_none() {
            upserted(prev, items.last())
        } else {
            prev
        }
    }
}

/// A feed is enabled.
pub open spec fn feed_enabled() -> spec_fn(FeedSpec) -> bool {
    |s: FeedSpec| s.enabled
}

/// `c` is the feed's category, and not empty.
pub open spec fn category_is(f: FeedSpec, c: Seq<char>) -> bool {
    match f.category {
        Some(x) => x@ == c && c.len() > 0,
        None => false,
    }
}

/// `c` is the non-empty category of some feed of `s`.
pub open spec fn has_category(s: Seq<FeedSpec>, c: Seq<char>) -> bool {
    exists|i: int| 0 <= i < s.len() && category_is(#[trigger] s[i], c)
}

/// Feed subscriptions, one per name; every entry passed validation.
#[derive(Debug, Clone)]
pub struct FeedRegistry {
    specs: Vec<FeedSpec>,
}

impl View for FeedRegistry {
    type V = Seq<FeedSpec>;

    closed spec fn view(&self) -> Seq<FeedSpec> {
        self.specs@
    }
}

impl FeedRegistry {
    /// An empty registry.
    pub fn new() -> (r: Self)
        ensures
            r@ == Seq::<FeedSpec>::empty(),
    {
        FeedRegistry { specs: Vec::new() }
    }

    /// Adds `spec` when it validates, replacing any feed of the same name.
    pub fn insert(&mut self, spec: FeedSpec) -> (r: Result<(), String>)
        ensures
            match spec.rejection() {
                Some(m) => r matches Err(e) && e@ == m && final(self)@ == old(self)@,
                None => r is Ok && final(self)@ == upserted(old(self)@, spec),
            },
    {
        match spec.validate() {
            Err(e) => Err(e),
            Ok(()) => {
                upsert(&mut self.specs, spec);
                Ok(())
            },
        }
    }

    /// Adds each valid spec in order; invalid ones are dropped.
    pub fn extend(&mut self, specs: Vec<FeedSpec>)
        ensures
            final(self)@ == inserted_valid(old(self)@, specs@),
    {
        let ghost start = self@;
        let ghost all = specs@;
        for s in it: specs
            invariant
                it.seq() == all,
                self@ == inserted_valid(start, all.take(it.index() as int)),
        {
            proof {
                let k = it.index() as int;
                assert(all.take(k + 1).drop_last() =~= all.take(k));
                assert(all.take(k + 1).last() == all[k]);
            }
            let _ = self.insert(s);
        }
        proof {
            assert(all.take(all.len() as int) =~= all);
        }
    }

    /// Pauses or resumes the first feed named `name`; false when there is none.
    pub fn set_enabled(&mut self, name: &str, enabled: bool) -> (r: bool)
        ensures
            r == index_of_key(old(self)@, name@).is_some(),
            match index_of_key(old(self)@, name@) {
                Some(i) => final(self)@ == old(self)@.update(i, FeedSpec { enabled, ..old(self)@[i] }),
                None => final(self)@ == old(self)@,
            },
    {
        match find_key(&self.specs, name) {
            Some(i) => {
                proof {
                    lemma_first_where_spec(self.specs@, crate::registry::key_equals::<FeedSpec>(name@));
                }
                let mut s = self.specs.remove(i);
                s.enabled = enabled;
                self.specs.insert(i, s);
                true
            },
            None => false,
        }
    }

    /// Removes every feed named `name`; true when one was removed.
    pub fn remove(&mut self, name: &str) -> (r: bool)
        ensures
            final(self)@ == without_key(old(self)@, name@),
            r == (final(self)@.len() < old(self)@.len()),
    {
        let before = self.specs.len();
        remove_key(&mut self.specs, name);
        self.specs.len() < before
    }

    /// Number of feeds.
    pub fn len(&self) -> (r: usize)
        ensures
            r == self@.len(),
    {
        self.specs.len()
    }

    /// No feed is registered.
    pub fn is_empty(&self) -> (r: bool)
        ensures
            r == (self@.len() == 0),
    {
        self.specs.len() == 0
    }

    /// The feeds in order.
    pub fn specs(&self) -> (r: &[FeedSpec])
        ensures
            r@ == self@,
    {
        self.specs.as_slice()
    }

    /// The first feed named `name`.
    pub fn get(&self, name: &str) -> (r: Option<&FeedSpec>)
        ensures
            match index_of_key(self@, name@) {
                Some(i) => r == Some(&self@[i]),
                None => r.is_none(),
            },
    {
        match find_key(&self.specs, name) {
            Some(i) => {
                proof {
                    lemma_first_where_spec(self.specs@, crate::registry::key_equals::<FeedSpec>(name@));
                }
                Some(&self.specs[i])
            },
            None => None,
        }
    }

    /// The enabled feeds, in order.
    pub fn enabled_specs(&self) -> (r: Vec<&FeedSpec>)
        ensures
            r@.map_values(|x: &FeedSpec| *x) == self@.filter(feed_enabled()),
    {
        let ghost pred = feed_enabled();
        let mut out: Vec<&FeedSpec> = Vec::new();
        let mut i: usize = 0;
        while i < self.specs.len()
            invariant
                i <= self.specs@.len(),
                pred == feed_enabled(),
                out@.map_values(|x: &FeedSpec| *x) == self.specs@.take(i as int).filter(pred),
            decreases self.specs@.len() - i,
        {
            let s = &self.specs[i];
            let ghost before = out@;
            proof {
                let t = self.specs@.take(i + 1);
                assert(t.drop_last() =~= self.specs@.take(i as int));
                reveal_with_fuel(Seq::<_>::filter, 1);
            }
            if s.enabled {
                out.push(s);
                assert(out@.map_values(|x: &FeedSpec| *x) =~= before.map_values(|x: &FeedSpec| *x).push(*s));
            }
            i += 1;
        }
        proof {
            assert(self.specs@.take(self.specs@.len() as int) =~= self.specs@);
        }
        out
    }

    /// The distinct non-empty categories, sorted.
    pub fn categories(&self) -> (r: Vec<String>)
        ensures
            strictly_sorted(views(r@)),
            forall|c: Seq<char>| views(r@).contains(c) <==> has_category(self@, c),
    {
        let mut out: Vec<String> = Vec::new();
        assert(views(out@) =~= seq![]);
        let mut i: usize = 0;
        while i < self.specs.len()
            invariant
                i <= self.specs@.len(),
                strictly_sorted(views(out@)),
                forall|c: Seq<char>| views(out@).contains(c) <==> has_category(self.specs@.take(i as int), c),
            decreases self.specs@.len() - i,
        {
            let ghost before = views(out@);
            let ghost t = self.specs@.take(i + 1);
            match &self.specs[i].category {
                Some(cat) => {
                    if chars_of(cat.as_str()).len() > 0 {
                        insert_sorted(&mut out, cat.clone());
                    }
                },
                None => {},
            }
            assert forall|c: Seq<char>| views(out@).contains(c) <==> has_category(t, c) by {
                if has_category(t, c) {
                    let k = choose|k: int| 0 <= k < t.len() && category_is(#[trigger] t[k], c);
                    if k < i {
                        assert(self.specs@.take(i as int)[k] == t[k]);
                        assert(has_category(self.specs@.take(i as int), c));
                    }
                }
                if before.contains(c) {
                    let k = choose|k: int| 0 <= k < i && category_is(#[trigger] self.specs@.take(i as int)[k], c);
                    assert(t[k] == self.specs@.take(i as int)[k]);
                }
                if views(out@).contains(c) && !before.contains(c) {
                    assert(t[i as int] == self.specs@[i as int]);
                }
            }
            i += 1;
        }
        assert(self.specs@.take(self.specs@.len() as int) =~= self.specs@);
        out
    }
}

} // verus!
