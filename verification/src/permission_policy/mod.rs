//! `(defpermission-policy)` — per-host decisions for web-platform permissions.
use vstd::prelude::*;

use crate::extension::glob::{any_glob_host, any_host_matches, host_field_matches, host_pattern_matches};
use crate::registry::{resolve_index, resolve_scoped, upsert, upsert_all, upserted, upserted_all, HostScoped, Named};
use crate::text::owned;

verus! {

/// A gated web-platform capability.
#[derive(Debug, Clone, Copy, PartialEq, Eq, Hash, Structural)]
pub enum Permission {
    Camera,
    Microphone,
    Geolocation,
    Notifications,
    PersistentStorage,
    ClipboardRead,
    ClipboardWrite,
    Midi,
    BackgroundSync,
    IdleDetection,
    ScreenWake,
    Usb,
    Serial,
    Hid,
    Bluetooth,
    NfcRead,
    AmbientLightSensor,
    Popups,
    Push,
    AutoplayWithSound,
    DisplayCapture,
    ProtectedMedia,
    PaymentHandler,
    Custom,
}

/// What happens when a page asks for a permission.
#[derive(Debug, Clone, Copy, PartialEq, Eq, Structural)]
pub enum Decision {
    Allow,
    Block,
    Prompt,
    PromptEphemeral,
    RequireUserGesture,
    BlockWithBadge,
}

impl Default for Decision {
    fn default() -> (r: Self)
        ensures
            r == Decision::Prompt,
    {
        Decision::Prompt
    }
}

/// A permission-policy profile.
#[derive(Debug, Clone, PartialEq)]
pub struct PermissionPolicySpec {
    pub name: String,
    pub host: String,
    pub camera: Decision,
    pub microphone: Decision,
    pub geolocation: Decision,
    pub notifications: Decision,
    pub persistent_storage: Decision,
    pub clipboard_read: Decision,
    pub clipboard_write: Decision,
    pub midi: Decision,
    pub background_sync: Decision,
    pub idle_detection: Decision,
    pub screen_wake: Decision,
    pub usb: Decision,
    pub serial: Decision,
    pub hid: Decision,
    pub bluetooth: Decision,
    pub nfc_read: Decision,
    pub ambient_light_sensor: Decision,
    pub popups: Decision,
    pub push: Decision,
    pub autoplay_with_sound: Decision,
    pub display_capture: Decision,
    pub protected_media: Decision,
    pub payment_handler: Decision,
    pub require_user_gesture: Vec<Permission>,
    pub allow_hosts: Vec<String>,
    pub block_hosts: Vec<String>,
    pub enabled: bool,
    pub description: Option<String>,
}

impl Named for PermissionPolicySpec {
    open spec fn key(&self) -> Seq<char> {
        self.name@
    }

    fn name_ref(&self) -> (r: &str) {
        self.name.as_str()
    }
}

impl HostScoped for PermissionPolicySpec {
    open spec fn scope(&self) -> Seq<char> {
        self.host@
    }

    open spec fn active(&self) -> bool {
        self.enabled
    }

    fn scope_ref(&self) -> (r: &str) {
        self.host.as_str()
    }

    fn is_active(&self) -> (r: bool) {
        self.enabled
    }
}

impl PermissionPolicySpec {
    /// The decision configured for `permission`; `Custom` always prompts.
    pub open spec fn configured(&self, permission: Permission) -> Decision {
        match permission {
            Permission::Camera => self.camera,
            Permission::Microphone => self.microphone,
            Permission::Geolocation => self.geolocation,
            Permission::Notifications => self.notifications,
            Permission::PersistentStorage => self.persistent_storage,
            Permission::ClipboardRead => self.clipboard_read,
            Permission::ClipboardWrite => self.clipboard_write,
            Permission::Midi => self.midi,
            Permission::BackgroundSync => self.background_sync,
            Permission::IdleDetection => self.idle_detection,
            Permission::ScreenWake => self.screen_wake,
            Permission::Usb => self.usb,
            Permission::Serial => self.serial,
            Permission::Hid => self.hid,
            Permission::Bluetooth => self.bluetooth,
            Permission::NfcRead => self.nfc_read,
            Permission::AmbientLightSensor => self.ambient_light_sensor,
            Permission::Popups => self.popups,
            Permission::Push => self.push,
            Permission::AutoplayWithSound => self.autoplay_with_sound,
            Permission::DisplayCapture => self.display_capture,
            Permission::ProtectedMedia => self.protected_media,
            Permission::PaymentHandler => self.payment_handler,
            Permission::Custom => Decision::Prompt,
        }
    }

    /// Block-listed hosts are blocked; allow-listed hosts upgrade `Block` to `Allow`;
    /// otherwise the configured decision stands.
    pub open spec fn decision(&self, permission: Permission, host: Seq<char>) -> Decision {
        if any_glob_host(self.block_hosts@, host) {
            Decision::Block
        } else if any_glob_host(self.allow_hosts@, host) && self.configured(permission) == Decision::Block {
            Decision::Allow
        } else {
            self.configured(permission)
        }
    }

    /// The built-in profile.
    pub fn default_profile() -> (r: Self)
        ensures
            r.name@ == "default"@,
            r.host@ == "*"@,
            r.camera == Decision::Prompt,
            r.microphone == Decision::Prompt,
            r.geolocation == Decision::Block,
            r.notifications == Decision::Prompt,
            r.persistent_storage == Decision::Prompt,
            r.clipboard_read == Decision::Prompt,
            r.clipboard_write == Decision::Allow,
            r.midi == Decision::Block,
            r.background_sync == Decision::Prompt,
            r.idle_detection == Decision::Block,
            r.screen_wake == Decision::Prompt,
            r.usb == Decision::Block,
            r.serial == Decision::Block,
            r.hid == Decision::Block,
            r.bluetooth == Decision::Block,
            r.nfc_read == Decision::Block,
            r.ambient_light_sensor == Decision::Block,
            r.popups == Decision::Block,
            r.push == Decision::Prompt,
            r.autoplay_with_sound == Decision::Allow,
            r.display_capture == Decision::Prompt,
            r.protected_media == Decision::Allow,
            r.payment_handler == Decision::Prompt,
            r.require_user_gesture@ == seq![Permission::Camera, Permission::Microphone, Permission::DisplayCapture],
            r.allow_hosts@.len() == 0,
            r.block_hosts@.len() == 0,
            r.enabled,
            r.description.is_some(),
    {
        let gestures = vec![Permission::Camera, Permission::Microphone, Permission::DisplayCapture];
        assert(gestures@ =~= seq![Permission::Camera, Permission::Microphone, Permission::DisplayCapture]);
        PermissionPolicySpec {
            name: owned("default"),
            host: owned("*"),
            camera: Decision::Prompt,
            microphone: Decision::Prompt,
            geolocation: Decision::Block,
            notifications: Decision::Prompt,
            persistent_storage: Decision::Prompt,
            clipboard_read: Decision::Prompt,
            clipboard_write: Decision::Allow,
            midi: Decision::Block,
            background_sync: Decision::Prompt,
            idle_detection: Decision::Block,
            screen_wake: Decision::Prompt,
            usb: Decision::Block,
            serial: Decision::Block,
            hid: Decision::Block,
            bluetooth: Decision::Block,
            nfc_read: Decision::Block,
            ambient_light_sensor: Decision::Block,
            popups: Decision::Block,
            push: Decision::Prompt,
            autoplay_with_sound: Decision::Allow,
            display_capture: Decision::Prompt,
            protected_media: Decision::Allow,
            payment_handler: Decision::Prompt,
            require_user_gesture: gestures,
            allow_hosts: Vec::new(),
            block_hosts: Vec::new(),
            enabled: true,
            description: Some(owned("Default permission policy — Prompt on camera/mic/notifications, Block on USB/Serial/MIDI, Allow on clipboard-write.")),
        }
    }

    /// Whether the profile's host pattern admits `host`.
    pub fn matches_host(&self, host: &str) -> (r: bool)
        ensures
            r == host_field_matches(self.host@, host@),
    {
        host_pattern_matches(self.host.as_str(), host)
    }

    /// Whether `host` is allow-listed.
    pub fn is_allowed(&self, host: &str) -> (r: bool)
        ensures
            r == any_glob_host(self.allow_hosts@, host@),
    {
        any_host_matches(&self.allow_hosts, host)
    }

    /// Whether `host` is block-listed.
    pub fn is_blocked(&self, host: &str) -> (r: bool)
        ensures
            r == any_glob_host(self.block_hosts@, host@),
    {
        any_host_matches(&self.block_hosts, host)
    }

    /// The decision for `permission` requested by `host`.
    pub fn decide(&self, permission: Permission, host: &str) -> (r: Decision)
        ensures
            r == self.decision(permission, host@),
    {
        if self.is_blocked(host) {
            return Decision::Block;
        }
        let base = self.lookup(permission);
        if self.is_allowed(host) && base == Decision::Block {
            return Decision::Allow;
        }
        base
    }

    /// Whether `permission` needs a user gesture.
    pub fn requires_user_gesture(&self, permission: Permission) -> (r: bool)
        ensures
            r == self.require_user_gesture@.contains(permission),
    {
        let mut i: usize = 0;
        while i < self.require_user_gesture.len()
            invariant
                i <= self.require_user_gesture@.len(),
                forall|j: int| 0 <= j < i ==> self.require_user_gesture@[j] != permission,
            decreases self.require_user_gesture@.len() - i,
        {
            if self.require_user_gesture[i] == permission {
                return true;
            }
            i += 1;
        }
        false
    }

    fn lookup(&self, permission: Permission) -> (r: Decision)
        ensures
            r == self.configured(permission),
    {
        match permission {
            Permission::Camera => self.camera,
            Permission::Microphone => self.microphone,
            Permission::Geolocation => self.geolocation,
            Permission::Notifications => self.notifications,
            Permission::PersistentStorage => self.persistent_storage,
            Permission::ClipboardRead => self.clipboard_read,
            Permission::ClipboardWrite => self.clipboard_write,
            Permission::Midi => self.midi,
            Permission::BackgroundSync => self.background_sync,
            Permission::IdleDetection => self.idle_detection,
            Permission::ScreenWake => self.screen_wake,
            Permission::Usb => self.usb,
            Permission::Serial => self.serial,
            Permission::Hid => self.hid,
            Permission::Bluetooth => self.bluetooth,
            Permission::NfcRead => self.nfc_read,
            Permission::AmbientLightSensor => self.ambient_light_sensor,
            Permission::Popups => self.popups,
            Permission::Push => self.push,
            Permission::AutoplayWithSound => self.autoplay_with_sound,
            Permission::DisplayCapture => self.display_capture,
            Permission::ProtectedMedia => self.protected_media,
            Permission::PaymentHandler => self.payment_handler,
            Permission::Custom => Decision::Prompt,
        }
    }
}

/// Block-listing a host overrides everything else.
pub proof fn law_block_list_wins(spec: PermissionPolicySpec, permission: Permission, host: Seq<char>)
    requires
        any_glob_host(spec.block_hosts@, host),
    ensures
        spec.decision(permission, host) == Decision::Block,
{
}

/// Allow-listing only ever turns `Block` into `Allow`; every other decision passes through.
pub proof fn law_allow_list_only_upgrades_block(spec: PermissionPolicySpec, permission: Permission, host: Seq<char>)
    requires
        !any_glob_host(spec.block_hosts@, host),
        spec.configured(permission) != Decision::Block,
    ensures
        spec.decision(permission, host) == spec.configured(permission),
{
}

/// Permission-policy profiles, one per name.
#[derive(Debug, Clone)]
pub struct PermissionPolicyRegistry {
    specs: Vec<PermissionPolicySpec>,
}

impl View for PermissionPolicyRegistry {
    type V = Seq<PermissionPolicySpec>;

    closed spec fn view(&self) -> Seq<PermissionPolicySpec> {
        self.specs@
    }
}

impl PermissionPolicyRegistry {
    /// An empty registry.
    pub fn new() -> (r: Self)
        ensures
            r@ == Seq::<PermissionPolicySpec>::empty(),
    {
        PermissionPolicyRegistry { specs: Vec::new() }
    }

    /// Adds `spec`, replacing any profile of the same name.
    pub fn insert(&mut self, spec: PermissionPolicySpec)
        ensures
            final(self)@ == upserted(old(self)@, spec),
    {
        upsert(&mut self.specs, spec);
    }

    /// Adds each spec in order.
    pub fn extend(&mut self, specs: Vec<PermissionPolicySpec>)
        ensures
            final(self)@ == upserted_all(old(self)@, specs@),
    {
        upsert_all(&mut self.specs, specs);
    }

    /// Number of profiles.
    pub fn len(&self) -> (r: usize)
        ensures
            r == self@.len(),
    {
        self.specs.len()
    }

    /// No profile is registered.
    pub fn is_empty(&self) -> (r: bool)
        ensures
            r == (self@.len() == 0),
    {
        self.specs.len() == 0
    }

    /// The profiles in order.
    pub fn specs(&self) -> (r: &[PermissionPolicySpec])
        ensures
            r@ == self@,
    {
        self.specs.as_slice()
    }

    /// The enabled profile for `host`: host-specific first, then any match.
    pub fn resolve(&self, host: &str) -> (r: Option<&PermissionPolicySpec>)
        ensures
            match resolve_scoped(self@, host@) {
                Some(i) => r == Some(&self@[i]),
                None => r.is_none(),
            },
    {
        match resolve_index(&self.specs, host) {
            Some(i) => Some(&self.specs[i]),
            None => None,
        }
    }
}


/// A host on neither list gets, for each permission, the decision of the profile's field named
/// after that permission, whatever the other fields say; a custom permission always prompts.
pub proof fn law_unlisted_host_gets_the_permissions_own_field(s: PermissionPolicySpec, host: Seq<char>)
    requires
        !any_glob_host(s.block_hosts@, host),
        !any_glob_host(s.allow_hosts@, host),
    ensures
        s.decision(Permission::Camera, host) == s.camera,
        s.decision(Permission::Microphone, host) == s.microphone,
        s.decision(Permission::Geolocation, host) == s.geolocation,
        s.decision(Permission::Notifications, host) == s.notifications,
        s.decision(Permission::PersistentStorage, host) == s.persistent_storage,
        s.decision(Permission::ClipboardRead, host) == s.clipboard_read,
        s.decision(Permission::ClipboardWrite, host) == s.clipboard_write,
        s.decision(Permission::Midi, host) == s.midi,
        s.decision(Permission::BackgroundSync, host) == s.background_sync,
        s.decision(Permission::IdleDetection, host) == s.idle_detection,
        s.decision(Permission::ScreenWake, host) == s.screen_wake,
        s.decision(Permission::Usb, host) == s.usb,
        s.decision(Permission::Serial, host) == s.serial,
        s.decision(Permission::Hid, host) == s.hid,
        s.decision(Permission::Bluetooth, host) == s.bluetooth,
        s.decision(Permission::NfcRead, host) == s.nfc_read,
        s.decision(Permission::AmbientLightSensor, host) == s.ambient_light_sensor,
        s.decision(Permission::Popups, host) == s.popups,
        s.decision(Permission::Push, host) == s.push,
        s.decision(Permission::AutoplayWithSound, host) == s.autoplay_with_sound,
        s.decision(Permission::DisplayCapture, host) == s.display_capture,
        s.decision(Permission::ProtectedMedia, host) == s.protected_media,
        s.decision(Permission::PaymentHandler, host) == s.payment_handler,
        s.decision(Permission::Custom, host) == Decision::Prompt,
{
}

/// Changing the decision configured for one permission changes the decision for no other.
pub proof fn law_clipboard_fields_are_independent(s: PermissionPolicySpec, d: Decision, host: Seq<char>)
    ensures
        (PermissionPolicySpec { clipboard_write: d, ..s }).decision(Permission::ClipboardRead, host) == s.decision(
            Permission::ClipboardRead,
            host,
        ),
        (PermissionPolicySpec { clipboard_read: d, ..s }).decision(Permission::ClipboardWrite, host) == s.decision(
            Permission::ClipboardWrite,
            host,
        ),
{
}

} // verus!
