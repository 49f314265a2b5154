use nami_core::multiplayer_cursor::{CursorScope, CursorStyle, MultiplayerCursorRegistry, MultiplayerCursorSpec};

#[test]
fn default_profile_has_sensible_palette_size() {
    let s = MultiplayerCursorSpec::default_profile();
    assert!(s.palette.len() >= 4);
    assert_eq!(s.scope, CursorScope::PerTab);
    assert!(s.click_echo);
    assert_eq!(s.palette[0], "#ff4d4f");
    assert_eq!(CursorStyle::default(), CursorStyle::Pointer);
}

#[test]
fn color_for_index_wraps_modulo_palette() {
    let s = MultiplayerCursorSpec::default_profile();
    let n = s.palette.len();
    assert_eq!(s.color_for_index(0), s.palette[0]);
    assert_eq!(s.color_for_index(n), s.palette[0]);
    assert_eq!(s.color_for_index(n + 1), s.palette[1]);
}

#[test]
fn color_for_index_falls_back_when_empty_palette() {
    let s = MultiplayerCursorSpec {
        palette: vec![],
        ..MultiplayerCursorSpec::default_profile()
    };
    assert_eq!(s.color_for_index(42), "#808080");
}

#[test]
fn clamped_smoothing_bounds() {
    let s = MultiplayerCursorSpec {
        smoothing_permille: 2_500,
        ..MultiplayerCursorSpec::default_profile()
    };
    assert_eq!(s.clamped_smoothing(), 1_000);
    let s2 = MultiplayerCursorSpec {
        smoothing_permille: -1_000,
        ..MultiplayerCursorSpec::default_profile()
    };
    assert_eq!(s2.clamped_smoothing(), 0);
}

#[test]
fn should_hide_crowd_respects_threshold() {
    let s = MultiplayerCursorSpec {
        crowd_threshold: 4,
        ..MultiplayerCursorSpec::default_profile()
    };
    assert!(!s.should_hide_crowd(4));
    assert!(s.should_hide_crowd(5));
    let unlimited = MultiplayerCursorSpec {
        crowd_threshold: 0,
        ..MultiplayerCursorSpec::default_profile()
    };
    assert!(!unlimited.should_hide_crowd(9_999));
}

#[test]
fn matches_host_glob() {
    let s = MultiplayerCursorSpec {
        host: "*://*.figma.com/*".into(),
        ..MultiplayerCursorSpec::default_profile()
    };
    assert!(s.matches_host("www.figma.com"));
    assert!(!s.matches_host("evil.com"));
}

#[test]
fn multiplayer_cursor_registry_prefers_specific_host() {
    let mut reg = MultiplayerCursorRegistry::new();
    reg.insert(MultiplayerCursorSpec::default_profile());
    reg.insert(MultiplayerCursorSpec {
        name: "figma".into(),
        host: "*://*.figma.com/*".into(),
        style: CursorStyle::Crosshair,
        ..MultiplayerCursorSpec::default_profile()
    });
    let figma = reg.resolve("www.figma.com").unwrap();
    assert_eq!(figma.style, CursorStyle::Crosshair);
    let other = reg.resolve("example.org").unwrap();
    assert_eq!(other.name, "default");
}

#[test]
fn multiplayer_cursor_disabled_profile_never_resolves() {
    let mut reg = MultiplayerCursorRegistry::new();
    reg.insert(MultiplayerCursorSpec {
        enabled: false,
        ..MultiplayerCursorSpec::default_profile()
    });
    assert!(reg.resolve("example.com").is_none());
}
