//! `(defmedia-session)` — lock-screen and OS media controls: which transport
//! actions a host exposes and where its metadata comes from.
use vstd::prelude::*;

use crate::extension::glob::{host_field_matches, host_pattern_matches};
use crate::registry::{resolve_index, resolve_scoped, upsert, upsert_all, upserted, upserted_all, HostScoped, Named};
use crate::text::owned;

verus! {

/// Transport action exposed to the OS (the W3C `MediaSessionAction` set).
#[derive(Debug, Clone, Copy, PartialEq, Eq, Hash, Structural)]
pub enum MediaAction {
    Play,
    Pause,
    Stop,
    SeekForward,
    SeekBackward,
    SeekTo,
    PreviousTrack,
    NextTrack,
    SkipAd,
    EnterPictureInPicture,
    ToggleMicrophone,
    ToggleCamera,
    HangUp,
}

/// CSS selectors for the metadata the OS widget shows.
#[derive(Debug, Clone, PartialEq, Eq)]
pub struct MetadataSelectors {
    pub title: Option<String>,
    pub artist: Option<String>,
    pub album: Option<String>,
    pub artwork: Option<String>,
}

impl Default for MetadataSelectors {
    fn default() -> (r: Self)
        ensures
            r.title.is_none(),
            r.artist.is_none(),
            r.album.is_none(),
            r.artwork.is_none(),
    {
        MetadataSelectors { title: None, artist: None, album: None, artwork: None }
    }
}

impl MetadataSelectors {
    /// Selectors for standard HTML5 metadata.
    pub fn html5_defaults() -> (r: Self)
        ensures
            r.title matches Some(t) && t@ == "title"@,
            r.artist matches Some(a) && a@ == "meta[name=author]"@,
            r.album.is_none(),
            r.artwork matches Some(w) && w@ == "meta[property='og:image']"@,
    {
        MetadataSelectors {
            title: Some(owned("title")),
            artist: Some(owned("meta[name=author]")),
            album: None,
            artwork: Some(owned("meta[property='og:image']")),
        }
    }
}

/// A media-session profile.
#[derive(Debug, Clone, PartialEq)]
pub struct MediaSessionSpec {
    pub name: String,
    pub host: String,
    pub actions: Vec<MediaAction>,
    pub metadata: MetadataSelectors,
    pub seek_seconds: u32,
    pub auto_activate: bool,
    pub description: Option<String>,
}

impl Named for MediaSessionSpec {
    open spec fn key(&self) -> Seq<char> {
        self.name@
    }

    fn name_ref(&self) -> (r: &str) {
        self.name.as_str()
    }
}

impl HostScoped for MediaSessionSpec {
    open spec fn scope(&self) -> Seq<char> {
        self.host@
    }

    open spec fn active(&self) -> bool {
        true
    }

    fn scope_ref(&self) -> (r: &str) {
        self.host.as_str()
    }

    fn is_active(&self) -> (r: bool) {
        true
    }
}

/// The actions a default profile exposes.
pub open spec fn default_actions_spec() -> Seq<MediaAction> {
    seq![
        MediaAction::Play,
        MediaAction::Pause,
        MediaAction::Stop,
        MediaAction::SeekForward,
        MediaAction::SeekBackward,
        MediaAction::PreviousTrack,
        MediaAction::NextTrack,
    ]
}

fn default_actions() -> (r: Vec<MediaAction>)
    ensures
        r@ == default_actions_spec(),
{
    let r = vec![
        MediaAction::Play,
        MediaAction::Pause,
        MediaAction::Stop,
        MediaAction::SeekForward,
        MediaAction::SeekBackward,
        MediaAction::PreviousTrack,
        MediaAction::NextTrack,
    ];
    assert(r@ =~= default_actions_spec());
    r
}

impl MediaSessionSpec {
    /// The built-in profile: play/pause/stop/seek/prev/next with HTML5 metadata.
    pub fn default_profile() -> (r: Self)
        ensures
            r.name@ == "default"@,
            r.host@ == "*"@,
            r.actions@ == default_actions_spec(),
            r.metadata.title matches Some(t) && t@ == "title"@,
            r.metadata.artist matches Some(a) && a@ == "meta[name=author]"@,
            r.metadata.album.is_none(),
            r.metadata.artwork matches Some(w) && w@ == "meta[property='og:image']"@,
            r.seek_seconds == 10,
            r.auto_activate,
            r.description.is_some(),
    {
        MediaSessionSpec {
            name: owned("default"),
            host: owned("*"),
            actions: default_actions(),
            metadata: MetadataSelectors::html5_defaults(),
            seek_seconds: 10,
            auto_activate: true,
            description: Some(owned("Default media session — play/pause/seek/prev/next, HTML5 metadata.")),
        }
    }

    /// Whether the profile's host pattern admits `host`.
    pub fn matches_host(&self, host: &str) -> (r: bool)
        ensures
            r == host_field_matches(self.host@, host@),
    {
        host_pattern_matches(self.host.as_str(), host)
    }

    /// Whether `action` is exposed; an empty list exposes every action.
    pub fn exposes(&self, action: MediaAction) -> (r: bool)
        ensures
            r == (self.actions@.len() == 0 || self.actions@.contains(action)),
    {
        if self.actions.len() == 0 {
            return true;
        }
        let mut i: usize = 0;
        while i < self.actions.len()
            invariant
                i <= self.actions@.len(),
                forall|j: int| 0 <= j < i ==> self.actions@[j] != action,
            decreases self.actions@.len() - i,
        {
            if self.actions[i] == action {
                return true;
            }
            i += 1;
        }
        false
    }
}

/// Live metadata extracted at playback time.
#[derive(Debug, Clone, PartialEq, Eq)]
pub struct MediaMetadata {
    pub title: String,
    pub artist: Option<String>,
    pub album: Option<String>,
    pub artwork_urls: Vec<String>,
}

/// Media-session profiles, one per name.
#[derive(Debug, Clone)]
pub struct MediaSessionRegistry {
    specs: Vec<MediaSessionSpec>,
}

impl View for MediaSessionRegistry {
    type V = Seq<MediaSessionSpec>;

    closed spec fn view(&self) -> Seq<MediaSessionSpec> {
        self.specs@
    }
}

impl MediaSessionRegistry {
    /// An empty registry.
    pub fn new() -> (r: Self)
        ensures
            r@ == Seq::<MediaSessionSpec>::empty(),
    {
        MediaSessionRegistry { specs: Vec::new() }
    }

    /// Adds `spec`, replacing any profile of the same name.
    pub fn insert(&mut self, spec: MediaSessionSpec)
        ensures
            final(self)@ == upserted(old(self)@, spec),
    {
        upsert(&mut self.specs, spec);
    }

    /// Adds each spec in order.
    pub fn extend(&mut self, specs: Vec<MediaSessionSpec>)
        ensures
            final(self)@ == upserted_all(old(self)@, specs@),
    {
        upsert_all(&mut self.specs, specs);
    }

    /// Number of profiles.
    pub fn len(&self) -> (r: usize)
        ensures
            r == self@.len(),
    {
        self.specs.len()
    }

    /// No profile is registered.
    pub fn is_empty(&self) -> (r: bool)
        ensures
            r == (self@.len() == 0),
    {
        self.specs.len() == 0
    }

    /// The profiles in order.
    pub fn specs(&self) -> (r: &[MediaSessionSpec])
        ensures
            r@ == self@,
    {
        self.specs.as_slice()
    }

    /// The profile for `host`: host-specific first, then any match.
    pub fn resolve(&self, host: &str) -> (r: Option<&MediaSessionSpec>)
        ensures
            match resolve_scoped(self@, host@) {
                Some(i) => r == Some(&self@[i]),
                None => r.is_none(),
            },
    {
        match resolve_index(&self.specs, host) {
            Some(i) => Some(&self.specs[i]),
            None => None,
        }
    }
}

} // verus!
