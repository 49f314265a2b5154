use nami_core::high_contrast::{
    parse_hex, HighContrastRegistry, HighContrastSpec, SchemeOverride, WcagLevel, MAX_CONTRAST, MAX_FOCUS_RING,
    MIN_CONTRAST,
};

#[test]
fn parse_hex_six_char() {
    assert_eq!(parse_hex("#ffff00"), Some([255, 255, 0]));
    assert_eq!(parse_hex("ff00ff"), Some([255, 0, 255]));
}

#[test]
fn parse_hex_three_char_expands() {
    assert_eq!(parse_hex("#f0a"), Some([0xff, 0x00, 0xaa]));
}

#[test]
fn parse_hex_eight_char_strips_alpha() {
    assert_eq!(parse_hex("#ff0000ff"), Some([255, 0, 0]));
}

#[test]
fn parse_hex_rejects_garbage() {
    assert!(parse_hex("not-hex").is_none());
    assert!(parse_hex("#xyz").is_none());
    assert!(parse_hex("").is_none());
}

#[test]
fn parse_hex_edge_forms() {
    assert_eq!(parse_hex("  ##AbC\n"), Some([0xaa, 0xbb, 0xcc]));
    assert_eq!(parse_hex("#1234"), Some([0x11, 0x22, 0x33]));
    assert_eq!(parse_hex("#+f+f+f"), Some([15, 15, 15]));
    assert!(parse_hex("#12345").is_none());
    assert!(parse_hex("#éé12").is_none());
    assert!(parse_hex("#ab").is_none());
    assert_eq!(SchemeOverride::default(), SchemeOverride::Auto);
}

#[test]
fn wcag_level_maps_from_ratio() {
    assert_eq!(HighContrastSpec::default_aa().wcag_level(), WcagLevel::Aa);
    assert_eq!(HighContrastSpec::default_aaa_night().wcag_level(), WcagLevel::Aaa);
}

#[test]
fn clamped_ratio_respects_bounds() {
    let lo = HighContrastSpec {
        min_ratio_hundredths: 10,
        ..HighContrastSpec::default_aa()
    };
    assert_eq!(lo.clamped_ratio(), MIN_CONTRAST);
    let hi = HighContrastSpec {
        min_ratio_hundredths: 99_900,
        ..HighContrastSpec::default_aa()
    };
    assert_eq!(hi.clamped_ratio(), MAX_CONTRAST);
    assert_eq!(HighContrastSpec::default_aa().clamped_ratio(), 450);
}

#[test]
fn focus_ring_clamps() {
    let hi = HighContrastSpec {
        focus_ring_px: 9999,
        ..HighContrastSpec::default_aa()
    };
    assert_eq!(hi.clamped_focus_ring(), MAX_FOCUS_RING);
    assert_eq!(HighContrastSpec::default_aaa_night().clamped_focus_ring(), 4);
}

#[test]
fn registry_dedupes_and_resolves_specific() {
    let mut reg = HighContrastRegistry::new();
    reg.insert(HighContrastSpec::default_aa());
    reg.insert(HighContrastSpec {
        name: "gov".into(),
        host: "*://*.gov/*".into(),
        ..HighContrastSpec::default_aaa_night()
    });
    let gov = reg.resolve("www.whitehouse.gov").unwrap();
    assert_eq!(gov.name, "gov");
    let other = reg.resolve("example.com").unwrap();
    assert_eq!(other.name, "aa");
    reg.insert(HighContrastSpec::default_aa());
    assert_eq!(reg.len(), 2);
}

#[test]
fn high_contrast_disabled_profile_never_resolves() {
    let mut reg = HighContrastRegistry::new();
    reg.insert(HighContrastSpec {
        enabled: false,
        ..HighContrastSpec::default_aa()
    });
    assert!(reg.resolve("example.com").is_none());
}

#[test]
fn parse_hex_non_ascii_bodies_are_rejected() {
    assert!(parse_hex("é1").is_none());
    assert!(parse_hex("#aé").is_none());
    assert!(parse_hex("#ééé").is_none());
    assert!(parse_hex("aébécd").is_none());
}
