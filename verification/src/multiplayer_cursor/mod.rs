//! `(defmultiplayer-cursor)` — how remote cursors are drawn: shape, colour palette, name tags,
//! fading, click ripples, when a crowd is hidden, scoped to a host pattern. The smoothing
//! coefficient is held in thousandths (`350` for 0.35).
use vstd::prelude::*;

use crate::extension::glob::{host_field_matches, host_pattern_matches};
use crate::registry::{resolve_index, resolve_scoped, upsert, upsert_all, upserted, upserted_all, HostScoped, Named};
use crate::text::owned;

verus! {

/// The shape remote cursors are drawn with.
#[derive(Debug, Clone, Copy, PartialEq, Eq, Structural)]
pub enum CursorStyle {
    /// The pointer arrow.
    Pointer,
    /// An I-beam, for text.
    Caret,
    /// A crosshair, for whiteboards.
    Crosshair,
    /// A small dot.
    Dot,
    /// A hand.
    Hand,
    /// An SVG given at run time.
    CustomSvg,
}

impl Default for CursorStyle {
    fn default() -> (r: Self)
        ensures
            r == CursorStyle::Pointer,
    {
        CursorStyle::Pointer
    }
}

/// How far cursors are shared: one tab, every tab of a profile, or every tab.
#[derive(Debug, Clone, Copy, PartialEq, Eq, Structural)]
pub enum CursorScope {
    PerTab,
    PerProfile,
    Global,
}

impl Default for CursorScope {
    fn default() -> (r: Self)
        ensures
            r == CursorScope::PerTab,
    {
        CursorScope::PerTab
    }
}

/// A cursor profile.
#[derive(Debug, Clone, PartialEq)]
pub struct MultiplayerCursorSpec {
    pub name: String,
    /// Host pattern; `*` is every host.
    pub host: String,
    pub style: CursorStyle,
    /// Colours handed out round-robin when a session brings none.
    pub palette: Vec<String>,
    /// Draw a name tag beside each cursor.
    pub name_tag: bool,
    /// Seconds of stillness before a cursor fades.
    pub fade_after_seconds: u32,
    /// Draw a ripple where a remote user clicks.
    pub click_echo: bool,
    /// The camera follows a followed member.
    pub follow_mode: bool,
    pub scope: CursorScope,
    /// Cursors are hidden above this many members; `0` never hides.
    pub crowd_threshold: u32,
    /// Interpolation smoothing in thousandths (0 snaps, 1000 is very smooth).
    pub smoothing_permille: i32,
    /// Honour the reduced-motion preference.
    pub respect_reduced_motion: bool,
    pub enabled: bool,
    pub description: Option<String>,
}

impl Named for MultiplayerCursorSpec {
    open spec fn key(&self) -> Seq<char> {
        self.name@
    }

    fn name_ref(&self) -> (r: &str) {
        self.name.as_str()
    }
}

impl HostScoped for MultiplayerCursorSpec {
    open spec fn scope(&self) -> Seq<char> {
        self.host@
    }

    open spec fn active(&self) -> bool {
        self.enabled
    }

    fn scope_ref(&self) -> (r: &str) {
        self.host.as_str()
    }

    fn is_active(&self) -> (r: bool) {
        self.enabled
    }
}

/// The six default colours.
pub open spec fn default_colours() -> Seq<Seq<char>> {
    seq!["#ff4d4f"@, "#1890ff"@, "#52c41a"@, "#faad14"@, "#722ed1"@, "#eb2f96"@]
}

/// The default palette.
pub fn default_palette() -> (r: Vec<String>)
    ensures
        r@.len() == 6,
        forall|i: int| 0 <= i < 6 ==> #[trigger] r@[i]@ == default_colours()[i],
{
    vec![owned("#ff4d4f"), owned("#1890ff"), owned("#52c41a"), owned("#faad14"), owned("#722ed1"), owned("#eb2f96")]
}

/// Name tags are drawn unless said otherwise.
pub fn default_name_tag() -> (r: bool)
    ensures
        r,
{
    true
}

/// Seconds before fading, when none is given.
pub fn default_fade_after_seconds() -> (r: u32)
    ensures
        r == 3,
{
    3
}

/// Click ripples are drawn unless said otherwise.
pub fn default_click_echo() -> (r: bool)
    ensures
        r,
{
    true
}

/// The crowd threshold when none is given.
pub fn default_crowd_threshold() -> (r: u32)
    ensures
        r == 16,
{
    16
}

/// The smoothing when none is given, in thousandths.
pub fn default_smoothing_permille() -> (r: i32)
    ensures
        r == 350,
{
    350
}

/// Reduced motion is honoured unless said otherwise.
pub fn default_respect_reduced_motion() -> (r: bool)
    ensures
        r,
{
    true
}

/// Profiles are enabled unless said otherwise.
pub fn default_enabled() -> (r: bool)
    ensures
        r,
{
    true
}

impl MultiplayerCursorSpec {
    /// The colour of session `index`: the palette entry at `index` modulo its length, grey when
    /// the palette is empty.
    pub open spec fn colour_of(&self, index: int) -> Seq<char> {
        if self.palette@.len() == 0 {
            "#808080"@
        } else {
            self.palette@[index % (self.palette@.len() as int)]@
        }
    }

    /// Pointer cursors, per tab, the six-colour palette, for every host.
    pub fn default_profile() -> (r: Self)
        ensures
            r.name@ == "default"@,
            r.host@ == "*"@,
            r.style == CursorStyle::Pointer,
            r.palette@.len() == 6,
            forall|i: int| 0 <= i < 6 ==> #[trigger] r.palette@[i]@ == default_colours()[i],
            r.name_tag,
            r.fade_after_seconds == 3,
            r.click_echo,
            !r.follow_mode,
            r.scope == CursorScope::PerTab,
            r.crowd_threshold == 16,
            r.smoothing_permille == 350,
            r.respect_reduced_motion,
            r.enabled,
            r.description matches Some(d) && d@
                == "Default multiplayer cursor — pointer style, per-tab scope, 6-color palette."@,
    {
        MultiplayerCursorSpec {
            name: owned("default"),
            host: owned("*"),
            style: CursorStyle::Pointer,
            palette: default_palette(),
            name_tag: true,
            fade_after_seconds: 3,
            click_echo: true,
            follow_mode: false,
            scope: CursorScope::PerTab,
            crowd_threshold: 16,
            smoothing_permille: 350,
            respect_reduced_motion: true,
            enabled: true,
            description: Some(owned("Default multiplayer cursor — pointer style, per-tab scope, 6-color palette.")),
        }
    }

    /// Whether the host pattern admits `host`.
    pub fn matches_host(&self, host: &str) -> (r: bool)
        ensures
            r == host_field_matches(self.host@, host@),
    {
        host_pattern_matches(self.host.as_str(), host)
    }

    /// The colour for session `index`.
    pub fn color_for_index(&self, index: usize) -> (r: String)
        ensures
            r@ == self.colour_of(index as int),
    {
        if self.palette.len() == 0 {
            owned("#808080")
        } else {
            owned(self.palette[index % self.palette.len()].as_str())
        }
    }

    /// Smoothing in force, in thousandths: clamped to `0 ..= 1000`.
    pub fn clamped_smoothing(&self) -> (r: i32)
        ensures
            r == (if self.smoothing_permille < 0 {
                0
            } else if self.smoothing_permille > 1000 {
                1000
            } else {
                self.smoothing_permille
            }),
    {
        if self.smoothing_permille < 0 {
            0
        } else if self.smoothing_permille > 1000 {
            1000
        } else {
            self.smoothing_permille
        }
    }

    /// Cursors are hidden with `member_count` members.
    pub fn should_hide_crowd(&self, member_count: u32) -> (r: bool)
        ensures
            r == (self.crowd_threshold > 0 && member_count > self.crowd_threshold),
    {
        self.crowd_threshold > 0 && member_count > self.crowd_threshold
    }
}

/// Cursor profiles, one per name.
#[derive(Debug, Clone)]
pub struct MultiplayerCursorRegistry {
    specs: Vec<MultiplayerCursorSpec>,
}

impl View for MultiplayerCursorRegistry {
    type V = Seq<MultiplayerCursorSpec>;

    closed spec fn view(&self) -> Seq<MultiplayerCursorSpec> {
        self.specs@
    }
}

impl MultiplayerCursorRegistry {
    /// An empty registry.
    pub fn new() -> (r: Self)
        ensures
            r@ == Seq::<MultiplayerCursorSpec>::empty(),
    {
        MultiplayerCursorRegistry { specs: Vec::new() }
    }

    /// Adds `spec`, replacing any profile of the same name.
    pub fn insert(&mut self, spec: MultiplayerCursorSpec)
        ensures
            final(self)@ == upserted(old(self)@, spec),
    {
        upsert(&mut self.specs, spec);
    }

    /// Adds each profile in order.
    pub fn extend(&mut self, specs: Vec<MultiplayerCursorSpec>)
        ensures
            final(self)@ == upserted_all(old(self)@, specs@),
    {
        upsert_all(&mut self.specs, specs);
    }

    /// Number of profiles.
    pub fn len(&self) -> (r: usize)
        ensures
            r == self@.len(),
    {
        self.specs.len()
    }

    /// No profile is registered.
    pub fn is_empty(&self) -> (r: bool)
        ensures
            r == (self@.len() == 0),
    {
        self.specs.len() == 0
    }

    /// The profiles in order.
    pub fn specs(&self) -> (r: &[MultiplayerCursorSpec])
        ensures
            r@ == self@,
    {
        self.specs.as_slice()
    }

    /// The profile for `host`: the first enabled one naming a specific pattern that admits it,
    /// else the first enabled one that admits it.
    pub fn resolve(&self, host: &str) -> (r: Option<&MultiplayerCursorSpec>)
        ensures
            match resolve_scoped(self@, host@) {
                Some(i) => r == Some(&self@[i]),
                None => r.is_none(),
            },
    {
        match resolve_index(&self.specs, host) {
            Some(i) => Some(&self.specs[i]),
            None => None,
        }
    }
}

} // verus!
