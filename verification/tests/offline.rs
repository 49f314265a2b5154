use nami_core::offline::{AssetKind, OfflineRegistry, OfflineSpec};


#[test]
fn default_profile_includes_html_css_images() {
    let s = OfflineSpec::default_profile();
    assert!(s.includes(AssetKind::Html));
    assert!(s.includes(AssetKind::Css));
    assert!(s.includes(AssetKind::Images));
    assert!(!s.includes(AssetKind::Scripts));
}

#[test]
fn auto_saves_checks_tag_overlap() {
    let s = OfflineSpec {
        auto_save_tags: vec!["longform".into(), "research".into()],
        ..OfflineSpec::default_profile()
    };
    assert!(s.auto_saves(&["longform".into()]));
    assert!(s.auto_saves(&["research".into(), "misc".into()]));
    assert!(!s.auto_saves(&["misc".into()]));
}

#[test]
fn auto_saves_empty_tags_never_triggers() {
    let s = OfflineSpec::default_profile();
    assert!(!s.auto_saves(&["anything".into()]));
}

#[test]
fn default_ttl_is_one_week() {
    assert_eq!(OfflineSpec::default_profile().ttl_seconds, 604_800);
}

#[test]
fn mod_registry_dedupes_by_name() {
    let mut reg = OfflineRegistry::new();
    reg.insert(OfflineSpec::default_profile());
    reg.insert(OfflineSpec {
        max_size_bytes: 100,
        ..OfflineSpec::default_profile()
    });
    assert_eq!(reg.len(), 1);
    assert_eq!(reg.specs()[0].max_size_bytes, 100);
}

