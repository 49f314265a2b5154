use nami_core::permission_policy::{Decision, Permission, PermissionPolicyRegistry, PermissionPolicySpec};


#[test]
fn default_profile_blocks_sensitive_devices() {
    let s = PermissionPolicySpec::default_profile();
    assert_eq!(s.decide(Permission::Usb, "example.com"), Decision::Block);
    assert_eq!(s.decide(Permission::Serial, "example.com"), Decision::Block);
    assert_eq!(s.decide(Permission::Midi, "example.com"), Decision::Block);
    assert_eq!(s.decide(Permission::Geolocation, "example.com"), Decision::Block);
}

#[test]
fn default_profile_prompts_common_media_permissions() {
    let s = PermissionPolicySpec::default_profile();
    assert_eq!(s.decide(Permission::Camera, "example.com"), Decision::Prompt);
    assert_eq!(s.decide(Permission::Microphone, "example.com"), Decision::Prompt);
    assert_eq!(s.decide(Permission::Notifications, "example.com"), Decision::Prompt);
}

#[test]
fn default_profile_allows_clipboard_write() {
    let s = PermissionPolicySpec::default_profile();
    assert_eq!(s.decide(Permission::ClipboardWrite, "example.com"), Decision::Allow);
}

#[test]
fn decide_block_hosts_force_block_even_on_allow_permission() {
    let s = PermissionPolicySpec {
        autoplay_with_sound: Decision::Allow,
        block_hosts: vec!["*://*.ads.com/*".into()],
        ..PermissionPolicySpec::default_profile()
    };
    assert_eq!(s.decide(Permission::AutoplayWithSound, "x.ads.com"), Decision::Block);
}

#[test]
fn decide_allow_hosts_upgrade_block_to_allow() {
    let s = PermissionPolicySpec {
        usb: Decision::Block,
        allow_hosts: vec!["*://*.flashing-tool.io/*".into()],
        ..PermissionPolicySpec::default_profile()
    };
    assert_eq!(s.decide(Permission::Usb, "www.flashing-tool.io"), Decision::Allow);
    assert_eq!(s.decide(Permission::Usb, "other.com"), Decision::Block);
}

#[test]
fn decide_allow_hosts_leaves_non_block_decisions_alone() {
    // allow_hosts upgrades Block→Allow, but doesn't touch Prompt
    // or PromptEphemeral — those still deserve a user decision.
    let s = PermissionPolicySpec {
        camera: Decision::Prompt,
        allow_hosts: vec!["*://*.trusted.com/*".into()],
        ..PermissionPolicySpec::default_profile()
    };
    assert_eq!(s.decide(Permission::Camera, "www.trusted.com"), Decision::Prompt);
}

#[test]
fn decide_block_hosts_precede_allow_hosts() {
    let s = PermissionPolicySpec {
        camera: Decision::Allow,
        allow_hosts: vec!["*://*.ex.com/*".into()],
        block_hosts: vec!["*://ads.ex.com/*".into()],
        ..PermissionPolicySpec::default_profile()
    };
    assert_eq!(s.decide(Permission::Camera, "ads.ex.com"), Decision::Block);
    assert_eq!(s.decide(Permission::Camera, "www.ex.com"), Decision::Allow);
}

#[test]
fn requires_user_gesture_covers_default_media_set() {
    let s = PermissionPolicySpec::default_profile();
    assert!(s.requires_user_gesture(Permission::Camera));
    assert!(s.requires_user_gesture(Permission::Microphone));
    assert!(s.requires_user_gesture(Permission::DisplayCapture));
    assert!(!s.requires_user_gesture(Permission::Notifications));
}

#[test]
fn permission_policy_registry_prefers_specific_host() {
    let mut reg = PermissionPolicyRegistry::new();
    reg.insert(PermissionPolicySpec::default_profile());
    reg.insert(PermissionPolicySpec {
        name: "meet".into(),
        host: "*://meet.google.com/*".into(),
        camera: Decision::Allow,
        microphone: Decision::Allow,
        ..PermissionPolicySpec::default_profile()
    });
    let meet = reg.resolve("meet.google.com").unwrap();
    assert_eq!(meet.camera, Decision::Allow);
    let other = reg.resolve("example.org").unwrap();
    assert_eq!(other.name, "default");
}

#[test]
fn permission_policy_disabled_profile_never_resolves() {
    let mut reg = PermissionPolicyRegistry::new();
    reg.insert(PermissionPolicySpec {
        enabled: false,
        ..PermissionPolicySpec::default_profile()
    });
    assert!(reg.resolve("example.com").is_none());
}

