use nami_core::navigation_intent::{ClickSource, NavigationIntentRegistry, NavigationIntentSpec, OpenDisposition};


#[test]
fn default_profile_is_current_tab_on_click_bg_on_middle() {
    let s = NavigationIntentSpec::default_profile();
    assert_eq!(s.link_click, OpenDisposition::CurrentTab);
    assert_eq!(s.middle_click, OpenDisposition::NewTabBackground);
    assert_eq!(s.cmd_shift_click, OpenDisposition::NewTabForeground);
    assert_eq!(s.popup, OpenDisposition::Block);
}

#[test]
fn resolve_maps_click_source_to_base_disposition() {
    let s = NavigationIntentSpec::default_profile();
    assert_eq!(
        s.resolve(ClickSource::LinkClick, true, true),
        OpenDisposition::CurrentTab
    );
    assert_eq!(
        s.resolve(ClickSource::MiddleClick, true, true),
        OpenDisposition::NewTabBackground
    );
    assert_eq!(
        s.resolve(ClickSource::CmdShiftClick, true, true),
        OpenDisposition::NewTabForeground
    );
    assert_eq!(
        s.resolve(ClickSource::Reload, true, true),
        OpenDisposition::CurrentTab
    );
}

#[test]
fn resolve_blocks_script_open_without_user_gesture() {
    let s = NavigationIntentSpec::default_profile();
    assert_eq!(
        s.resolve(ClickSource::ScriptOpen, false, false),
        OpenDisposition::Block
    );
    assert_eq!(
        s.resolve(ClickSource::ScriptOpen, false, true),
        OpenDisposition::NewTabBackground
    );
}

#[test]
fn resolve_respects_same_site_override() {
    let s = NavigationIntentSpec {
        link_click: OpenDisposition::NewTabBackground,
        same_site_override: Some(OpenDisposition::CurrentTab),
        ..NavigationIntentSpec::default_profile()
    };
    // Same origin → override fires.
    assert_eq!(
        s.resolve(ClickSource::LinkClick, true, true),
        OpenDisposition::CurrentTab
    );
    // Cross origin → override does NOT fire.
    assert_eq!(
        s.resolve(ClickSource::LinkClick, false, true),
        OpenDisposition::NewTabBackground
    );
}

#[test]
fn resolve_respects_cross_origin_override() {
    let s = NavigationIntentSpec {
        link_click: OpenDisposition::CurrentTab,
        cross_origin_override: Some(OpenDisposition::NewTabBackground),
        ..NavigationIntentSpec::default_profile()
    };
    assert_eq!(
        s.resolve(ClickSource::LinkClick, false, true),
        OpenDisposition::NewTabBackground
    );
    assert_eq!(
        s.resolve(ClickSource::LinkClick, true, true),
        OpenDisposition::CurrentTab
    );
}

#[test]
fn resolve_disabled_still_returns_base() {
    let s = NavigationIntentSpec {
        enabled: false,
        ..NavigationIntentSpec::default_profile()
    };
    // Disabled = no overrides, no gesture enforcement. The caller
    // is expected to not consult this profile at all; but the
    // decision function stays total.
    assert_eq!(
        s.resolve(ClickSource::ScriptOpen, false, false),
        OpenDisposition::NewTabBackground
    );
}

#[test]
fn popup_allowed_respects_allow_list() {
    let s = NavigationIntentSpec {
        popup_allow_hosts: vec!["*://*.auth.example.com/*".into()],
        ..NavigationIntentSpec::default_profile()
    };
    assert!(s.popup_allowed("sso.auth.example.com"));
    assert!(!s.popup_allowed("ads.com"));
}

#[test]
fn registry_resolve_prefers_host_specific_and_priority() {
    let mut reg = NavigationIntentRegistry::new();
    reg.insert(NavigationIntentSpec::default_profile());
    reg.insert(NavigationIntentSpec {
        name: "github".into(),
        host: "*://*.github.com/*".into(),
        priority: 5,
        link_click: OpenDisposition::NewTabBackground,
        ..NavigationIntentSpec::default_profile()
    });
    reg.insert(NavigationIntentSpec {
        name: "github-louder".into(),
        host: "*://*.github.com/*".into(),
        priority: 100,
        link_click: OpenDisposition::NewTabForeground,
        ..NavigationIntentSpec::default_profile()
    });
    let r = reg.resolve("www.github.com").unwrap();
    // Within host-specific tier, priority=100 wins.
    assert_eq!(r.name, "github-louder");
    assert_eq!(r.link_click, OpenDisposition::NewTabForeground);
}

#[test]
fn registry_resolve_falls_back_to_wildcard() {
    let mut reg = NavigationIntentRegistry::new();
    reg.insert(NavigationIntentSpec::default_profile());
    assert_eq!(
        reg.resolve("example.org").unwrap().name,
        "default"
    );
}

