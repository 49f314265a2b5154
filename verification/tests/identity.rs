use nami_core::identity::{IdentityIsolation, IdentityRegistry, IdentitySpec};


#[test]
fn default_profile_is_personal_with_vault() {
    let s = IdentitySpec::default_profile();
    assert_eq!(s.name, "personal");
    assert_eq!(s.vault.as_deref(), Some("primary"));
    assert!(s.default);
    assert_eq!(s.isolation, IdentityIsolation::PerProfile);
}

#[test]
fn label_falls_back_to_name_when_display_empty() {
    let mut s = IdentitySpec::default_profile();
    s.display_name = String::new();
    assert_eq!(s.label(), s.name);
}

#[test]
fn label_uses_display_name_when_set() {
    let s = IdentitySpec {
        display_name: "Jane Work".into(),
        ..IdentitySpec::default_profile()
    };
    assert_eq!(s.label(), "Jane Work");
}

#[test]
fn applies_to_host_glob() {
    let s = IdentitySpec {
        auto_apply_hosts: vec!["*://*.github.com/*".into()],
        ..IdentitySpec::default_profile()
    };
    assert!(s.applies_to("www.github.com"));
    assert!(!s.applies_to("evil.com"));
}

#[test]
fn resolve_prefers_auto_apply_match_by_priority() {
    let mut reg = IdentityRegistry::new();
    reg.insert(IdentitySpec {
        name: "personal".into(),
        default: true,
        ..IdentitySpec::default_profile()
    });
    reg.insert(IdentitySpec {
        name: "work".into(),
        default: false,
        auto_apply_hosts: vec!["*://*.github.com/*".into()],
        priority: 10,
        ..IdentitySpec::default_profile()
    });
    assert_eq!(reg.resolve("www.github.com").unwrap().name, "work");
}

#[test]
fn resolve_falls_back_to_default_when_no_match() {
    let mut reg = IdentityRegistry::new();
    reg.insert(IdentitySpec {
        name: "personal".into(),
        default: true,
        ..IdentitySpec::default_profile()
    });
    reg.insert(IdentitySpec {
        name: "work".into(),
        default: false,
        auto_apply_hosts: vec!["*://*.github.com/*".into()],
        ..IdentitySpec::default_profile()
    });
    assert_eq!(reg.resolve("example.org").unwrap().name, "personal");
}

#[test]
fn resolve_picks_default_by_priority_tiebreak() {
    let mut reg = IdentityRegistry::new();
    reg.insert(IdentitySpec {
        name: "a".into(),
        default: true,
        priority: 0,
        ..IdentitySpec::default_profile()
    });
    reg.insert(IdentitySpec {
        name: "b".into(),
        default: true,
        priority: 20,
        ..IdentitySpec::default_profile()
    });
    assert_eq!(reg.resolve("example.org").unwrap().name, "b");
}

#[test]
fn resolve_falls_back_to_first_enabled_when_no_default() {
    let mut reg = IdentityRegistry::new();
    reg.insert(IdentitySpec {
        name: "a".into(),
        default: false,
        ..IdentitySpec::default_profile()
    });
    assert_eq!(reg.resolve("example.org").unwrap().name, "a");
}

#[test]
fn for_vault_filters_by_vault_binding() {
    let mut reg = IdentityRegistry::new();
    reg.insert(IdentitySpec {
        name: "personal".into(),
        vault: Some("v1".into()),
        ..IdentitySpec::default_profile()
    });
    reg.insert(IdentitySpec {
        name: "work".into(),
        vault: Some("v2".into()),
        ..IdentitySpec::default_profile()
    });
    assert_eq!(reg.for_vault("v1").len(), 1);
    assert_eq!(reg.for_vault("v1")[0].name, "personal");
}

#[test]
fn disabled_identity_never_resolves() {
    let mut reg = IdentityRegistry::new();
    reg.insert(IdentitySpec {
        enabled: false,
        default: true,
        ..IdentitySpec::default_profile()
    });
    assert!(reg.resolve("example.com").is_none());
}

