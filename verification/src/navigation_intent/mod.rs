//! `(defnavigation-intent)` — where a navigation opens, by click source,
//! origin relation and user gesture.
use vstd::prelude::*;

use crate::extension::glob::{any_glob_host, any_host_matches, host_field_matches, host_pattern_matches};
use crate::registry::{upsert, upsert_all, upserted, upserted_all, Named};
use crate::text::{chars_eq, chars_of, owned};

verus! {

/// Where a navigation opens.
#[derive(Debug, Clone, Copy, PartialEq, Eq, Structural)]
pub enum OpenDisposition {
    CurrentTab,
    NewTabForeground,
    NewTabBackground,
    NewWindow,
    IncognitoWindow,
    SameTabGroup,
    InlineReader,
    CopyLink,
    Block,
}

impl Default for OpenDisposition {
    fn default() -> (r: Self)
        ensures
            r == OpenDisposition::CurrentTab,
    {
        OpenDisposition::CurrentTab
    }
}

/// What started the navigation.
#[derive(Debug, Clone, Copy, PartialEq, Eq, Hash, Structural)]
pub enum ClickSource {
    LinkClick,
    MiddleClick,
    CmdClick,
    CmdShiftClick,
    ScriptOpen,
    FormTargetBlank,
    AnchorTargetBlank,
    DragDrop,
    Omnibox,
    BackForward,
    Reload,
    KeyboardShortcut,
}

/// A navigation-intent profile.
#[derive(Debug, Clone, PartialEq)]
pub struct NavigationIntentSpec {
    pub name: String,
    pub host: String,
    pub link_click: OpenDisposition,
    pub middle_click: OpenDisposition,
    pub cmd_click: OpenDisposition,
    pub cmd_shift_click: OpenDisposition,
    pub script_open: OpenDisposition,
    pub form_target_blank: OpenDisposition,
    pub anchor_target_blank: OpenDisposition,
    pub drag_drop: OpenDisposition,
    pub omnibox: OpenDisposition,
    pub same_site_override: Option<OpenDisposition>,
    pub cross_origin_override: Option<OpenDisposition>,
    pub popup: OpenDisposition,
    pub require_gesture_for_script_open: bool,
    pub popup_allow_hosts: Vec<String>,
    pub force_noopener: bool,
    pub strip_cross_origin_referrer: bool,
    pub priority: i32,
    pub enabled: bool,
    pub description: Option<String>,
}

impl Named for NavigationIntentSpec {
    open spec fn key(&self) -> Seq<char> {
        self.name@
    }

    fn name_ref(&self) -> (r: &str) {
        self.name.as_str()
    }
}

impl NavigationIntentSpec {
    /// The configured disposition for a click source; history moves reload in place and
    /// keyboard shortcuts open a foreground tab.
    pub open spec fn base(&self, source: ClickSource) -> OpenDisposition {
        match source {
            ClickSource::LinkClick => self.link_click,
            ClickSource::MiddleClick => self.middle_click,
            ClickSource::CmdClick => self.cmd_click,
            ClickSource::CmdShiftClick => self.cmd_shift_click,
            ClickSource::ScriptOpen => self.script_open,
            ClickSource::FormTargetBlank => self.form_target_blank,
            ClickSource::AnchorTargetBlank => self.anchor_target_blank,
            ClickSource::DragDrop => self.drag_drop,
            ClickSource::Omnibox => self.omnibox,
            ClickSource::BackForward | ClickSource::Reload => OpenDisposition::CurrentTab,
            ClickSource::KeyboardShortcut => OpenDisposition::NewTabForeground,
        }
    }

    /// The disposition of a navigation.
    pub open spec fn disposition(&self, source: ClickSource, same_origin: bool, had_user_gesture: bool) -> OpenDisposition {
        if !self.enabled {
            self.base(source)
        } else if source == ClickSource::ScriptOpen && self.require_gesture_for_script_open && !had_user_gesture {
            OpenDisposition::Block
        } else if same_origin {
            match self.same_site_override {
                Some(ov) => ov,
                None => self.base(source),
            }
        } else {
            match self.cross_origin_override {
                Some(ov) => ov,
                None => self.base(source),
            }
        }
    }

    /// The built-in profile.
    pub fn default_profile() -> (r: Self)
        ensures
            r.name@ == "default"@,
            r.host@ == "*"@,
            r.link_click == OpenDisposition::CurrentTab,
            r.middle_click == OpenDisposition::NewTabBackground,
            r.cmd_click == OpenDisposition::NewTabBackground,
            r.cmd_shift_click == OpenDisposition::NewTabForeground,
            r.script_open == OpenDisposition::NewTabBackground,
            r.form_target_blank == OpenDisposition::NewTabBackground,
            r.anchor_target_blank == OpenDisposition::NewTabBackground,
            r.drag_drop == OpenDisposition::NewTabBackground,
            r.omnibox == OpenDisposition::CurrentTab,
            r.same_site_override.is_none(),
            r.cross_origin_override.is_none(),
            r.popup == OpenDisposition::Block,
            r.require_gesture_for_script_open,
            r.popup_allow_hosts@.len() == 0,
            r.force_noopener,
            r.strip_cross_origin_referrer,
            r.priority == 0,
            r.enabled,
            r.description.is_some(),
    {
        NavigationIntentSpec {
            name: owned("default"),
            host: owned("*"),
            link_click: OpenDisposition::CurrentTab,
            middle_click: OpenDisposition::NewTabBackground,
            cmd_click: OpenDisposition::NewTabBackground,
            cmd_shift_click: OpenDisposition::NewTabForeground,
            script_open: OpenDisposition::NewTabBackground,
            form_target_blank: OpenDisposition::NewTabBackground,
            anchor_target_blank: OpenDisposition::NewTabBackground,
            drag_drop: OpenDisposition::NewTabBackground,
            omnibox: OpenDisposition::CurrentTab,
            same_site_override: None,
            cross_origin_override: None,
            popup: OpenDisposition::Block,
            require_gesture_for_script_open: true,
            popup_allow_hosts: Vec::new(),
            force_noopener: true,
            strip_cross_origin_referrer: true,
            priority: 0,
            enabled: true,
            description: Some(owned("Default navigation intent — CurrentTab on click, NewTabBackground on middle/cmd/target=_blank, block popups.")),
        }
    }

    /// Whether the profile's host pattern admits `host`.
    pub fn matches_host(&self, host: &str) -> (r: bool)
        ensures
            r == host_field_matches(self.host@, host@),
    {
        host_pattern_matches(self.host.as_str(), host)
    }

    fn base_for(&self, source: ClickSource) -> (r: OpenDisposition)
        ensures
            r == self.base(source),
    {
        match source {
            ClickSource::LinkClick => self.link_click,
            ClickSource::MiddleClick => self.middle_click,
            ClickSource::CmdClick => self.cmd_click,
            ClickSource::CmdShiftClick => self.cmd_shift_click,
            ClickSource::ScriptOpen => self.script_open,
            ClickSource::FormTargetBlank => self.form_target_blank,
            ClickSource::AnchorTargetBlank => self.anchor_target_blank,
            ClickSource::DragDrop => self.drag_drop,
            ClickSource::Omnibox => self.omnibox,
            ClickSource::BackForward | ClickSource::Reload => OpenDisposition::CurrentTab,
            ClickSource::KeyboardShortcut => OpenDisposition::NewTabForeground,
        }
    }

    /// Where a navigation from `source` opens.
    pub fn resolve(&self, source: ClickSource, same_origin: bool, had_user_gesture: bool) -> (r: OpenDisposition)
        ensures
            r == self.disposition(source, same_origin, had_user_gesture),
    {
        if !self.enabled {
            return self.base_for(source);
        }
        if source == ClickSource::ScriptOpen && self.require_gesture_for_script_open && !had_user_gesture {
            return OpenDisposition::Block;
        }
        let base = self.base_for(source);
        if same_origin {
            if let Some(ov) = self.same_site_override {
                return ov;
            }
        } else if let Some(ov) = self.cross_origin_override {
            return ov;
        }
        base
    }

    /// Whether `host` may open popups.
    pub fn popup_allowed(&self, host: &str) -> (r: bool)
        ensures
            r == any_glob_host(self.popup_allow_hosts@, host@),
    {
        any_host_matches(&self.popup_allow_hosts, host)
    }
}

/// A script-opened window without a gesture is blocked whenever the profile is enabled and demands one.
pub proof fn law_gestureless_script_open_blocked(spec: NavigationIntentSpec, same_origin: bool)
    requires
        spec.enabled,
        spec.require_gesture_for_script_open,
    ensures
        spec.disposition(ClickSource::ScriptOpen, same_origin, false) == OpenDisposition::Block,
{
}

/// The profile names a concrete host pattern (not empty, not `*`).
pub open spec fn host_specific(s: NavigationIntentSpec) -> bool {
    !(s.host@.len() == 0 || s.host@ == seq!['*'])
}

/// `a` ranks strictly above `b`: host-specific before wildcard, then higher priority.
pub open spec fn outranks(a: NavigationIntentSpec, b: NavigationIntentSpec) -> bool {
    (host_specific(a) && !host_specific(b)) || (host_specific(a) == host_specific(b) && a.priority > b.priority)
}

/// Enabled and admitting `host`.
pub open spec fn candidate(s: NavigationIntentSpec, host: Seq<char>) -> bool {
    s.enabled && host_field_matches(s.host@, host)
}

/// The best-ranked candidate for `host`; the earliest among equals.
pub open spec fn best_for(s: Seq<NavigationIntentSpec>, host: Seq<char>) -> Option<int>
    decreases s.len(),
{
    if s.len() == 0 {
        None
    } else {
        let prev = best_for(s.drop_last(), host);
        if candidate(s.last(), host) {
            match prev {
                Some(j) => if outranks(s.last(), s[j]) {
                    Some(s.len() - 1)
                } else {
                    Some(j)
                },
                None => Some(s.len() - 1),
            }
        } else {
            prev
        }
    }
}

proof fn lemma_best_for_range(s: Seq<NavigationIntentSpec>, host: Seq<char>)
    ensures
        best_for(s, host) matches Some(j) ==> 0 <= j < s.len() && candidate(s[j], host),
    decreases s.len(),
{
    if s.len() > 0 {
        lemma_best_for_range(s.drop_last(), host);
    }
}

/// Whether the profile names a concrete host pattern.
fn is_host_specific(s: &NavigationIntentSpec) -> (r: bool)
    ensures
        r == host_specific(*s),
{
    let h = chars_of(s.host.as_str());
    let star: Vec<char> = vec!['*'];
    assert(star@ =~= seq!['*']);
    !(h.len() == 0 || chars_eq(h.as_slice(), star.as_slice()))
}

/// Navigation-intent profiles, one per name.
#[derive(Debug, Clone)]
pub struct NavigationIntentRegistry {
    specs: Vec<NavigationIntentSpec>,
}

impl View for NavigationIntentRegistry {
    type V = Seq<NavigationIntentSpec>;

    closed spec fn view(&self) -> Seq<NavigationIntentSpec> {
        self.specs@
    }
}

impl NavigationIntentRegistry {
    /// An empty registry.
    pub fn new() -> (r: Self)
        ensures
            r@ == Seq::<NavigationIntentSpec>::empty(),
    {
        NavigationIntentRegistry { specs: Vec::new() }
    }

    /// Adds `spec`, replacing any profile of the same name.
    pub fn insert(&mut self, spec: NavigationIntentSpec)
        ensures
            final(self)@ == upserted(old(self)@, spec),
    {
        upsert(&mut self.specs, spec);
    }

    /// Adds each spec in order.
    pub fn extend(&mut self, specs: Vec<NavigationIntentSpec>)
        ensures
            final(self)@ == upserted_all(old(self)@, specs@),
    {
        upsert_all(&mut self.specs, specs);
    }

    /// Number of profiles.
    pub fn len(&self) -> (r: usize)
        ensures
            r == self@.len(),
    {
        self.specs.len()
    }

    /// No profile is registered.
    pub fn is_empty(&self) -> (r: bool)
        ensures
            r == (self@.len() == 0),
    {
        self.specs.len() == 0
    }

    /// The profiles in order.
    pub fn specs(&self) -> (r: &[NavigationIntentSpec])
        ensures
            r@ == self@,
    {
        self.specs.as_slice()
    }

    /// The enabled profile for `host`: host-specific patterns before wildcards, then the
    /// highest priority, then registration order.
    pub fn resolve(&self, host: &str) -> (r: Option<&NavigationIntentSpec>)
        ensures
            match best_for(self@, host@) {
                Some(i) => r == Some(&self@[i]),
                None => r.is_none(),
            },
    {
        let mut best: Option<usize> = None;
        let mut i: usize = 0;
        while i < self.specs.len()
            invariant
                i <= self.specs@.len(),
                match best {
                    Some(k) => best_for(self.specs@.take(i as int), host@) == Some(k as int),
                    None => best_for(self.specs@.take(i as int), host@).is_none(),
                },
            decreases self.specs@.len() - i,
        {
            let s = &self.specs[i];
            proof {
                let t = self.specs@.take(i + 1);
                assert(t.drop_last() =~= self.specs@.take(i as int));
                assert(t.last() == self.specs@[i as int]);
                lemma_best_for_range(self.specs@.take(i as int), host@);
            }
            if s.enabled && s.matches_host(host) {
                match best {
                    Some(k) => {
                        let b = &self.specs[k];
                        assert(self.specs@.take(i as int)[k as int] == self.specs@[k as int]);
                        let sa = is_host_specific(s);
                        let sb = is_host_specific(b);
                        if (sa && !sb) || (sa == sb && s.priority > b.priority) {
                            best = Some(i);
                        }
                    },
                    None => {
                        best = Some(i);
                    },
                }
            }
            i += 1;
        }
        proof {
            assert(self.specs@.take(self.specs@.len() as int) =~= self.specs@);
            lemma_best_for_range(self.specs@, host@);
        }
        match best {
            Some(k) => Some(&self.specs[k]),
            None => None,
        }
    }
}


/// Without overrides, each click source opens as the profile's field named after it says,
/// whatever the other fields say: history moves and reloads stay in the tab, keyboard shortcuts
/// open a foreground tab, and a script-opened window without a required gesture is blocked
/// while the profile is enabled.
pub proof fn law_sources_open_as_their_own_field(s: NavigationIntentSpec, same_origin: bool, gesture: bool)
    requires
        s.same_site_override is None,
        s.cross_origin_override is None,
    ensures
        s.disposition(ClickSource::LinkClick, same_origin, gesture) == s.link_click,
        s.disposition(ClickSource::MiddleClick, same_origin, gesture) == s.middle_click,
        s.disposition(ClickSource::CmdClick, same_origin, gesture) == s.cmd_click,
        s.disposition(ClickSource::CmdShiftClick, same_origin, gesture) == s.cmd_shift_click,
        s.disposition(ClickSource::FormTargetBlank, same_origin, gesture) == s.form_target_blank,
        s.disposition(ClickSource::AnchorTargetBlank, same_origin, gesture) == s.anchor_target_blank,
        s.disposition(ClickSource::DragDrop, same_origin, gesture) == s.drag_drop,
        s.disposition(ClickSource::Omnibox, same_origin, gesture) == s.omnibox,
        s.disposition(ClickSource::BackForward, same_origin, gesture) == OpenDisposition::CurrentTab,
        s.disposition(ClickSource::Reload, same_origin, gesture) == OpenDisposition::CurrentTab,
        s.disposition(ClickSource::KeyboardShortcut, same_origin, gesture) == OpenDisposition::NewTabForeground,
        s.disposition(ClickSource::ScriptOpen, same_origin, gesture) == if s.enabled
            && s.require_gesture_for_script_open && !gesture {
            OpenDisposition::Block
        } else {
            s.script_open
        },
{
}

/// Changing where plain link clicks open changes nothing for `target=_blank` links.
pub proof fn law_target_blank_ignores_link_click(s: NavigationIntentSpec, d: OpenDisposition, same_origin: bool, gesture: bool)
    ensures
        (NavigationIntentSpec { link_click: d, ..s }).disposition(ClickSource::AnchorTargetBlank, same_origin, gesture)
            == s.disposition(ClickSource::AnchorTargetBlank, same_origin, gesture),
{
}

} // verus!
