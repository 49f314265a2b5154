use nami_core::extension::{glob_match_host, ExtensionRegistry, ExtensionSpec, Permission};

fn sample(name: &str, rules: &[&str], hosts: &[&str]) -> ExtensionSpec {
    ExtensionSpec {
        name: name.into(),
        version: "1.0.0".into(),
        description: None,
        author: None,
        homepage_url: None,
        icon: None,
        permissions: vec![Permission::Storage],
        host_permissions: hosts.iter().map(|s| (*s).into()).collect(),
        rules: rules.iter().map(|s| (*s).into()).collect(),
        enabled: true,
    }
}

#[test]
fn glob_matches_wildcard_segment() {
    assert!(glob_match_host("*://*.example.com/*", "blog.example.com"));
    assert!(glob_match_host("*://*.example.com/*", "a.b.example.com"));
    assert!(!glob_match_host("*://*.example.com/*", "evil.com"));
}

#[test]
fn glob_matches_specific_host() {
    assert!(glob_match_host("https://example.com/*", "example.com"));
    assert!(!glob_match_host("https://example.com/*", "blog.example.com"));
}

#[test]
fn glob_is_case_insensitive() {
    assert!(glob_match_host("*://EXAMPLE.COM/*", "example.com"));
    assert!(glob_match_host("*://example.com/*", "EXAMPLE.COM"));
}

#[test]
fn empty_host_permissions_matches_all() {
    let s = sample("x", &[], &[]);
    assert!(s.matches_host("anything.com"));
    assert!(s.matches_host(""));
}

#[test]
fn permission_grant_lookup() {
    let s = ExtensionSpec {
        permissions: vec![Permission::Storage, Permission::Cookies],
        ..sample("x", &[], &[])
    };
    assert!(s.has_permission(Permission::Storage));
    assert!(s.has_permission(Permission::Cookies));
    assert!(!s.has_permission(Permission::Tabs));
}

#[test]
fn registry_roundtrips_install_disable_remove() {
    let mut reg = ExtensionRegistry::new();
    reg.insert(sample("a", &["a/rule"], &[]));
    reg.insert(sample("b", &["b/rule"], &[]));
    assert_eq!(reg.len(), 2);
    assert!(reg.set_enabled("a", false));
    assert!(!reg.get("a").unwrap().enabled);
    assert!(reg.remove("b"));
    assert_eq!(reg.len(), 1);
    assert!(!reg.remove("nonexistent"));
}

#[test]
fn insert_with_same_name_replaces() {
    let mut reg = ExtensionRegistry::new();
    reg.insert(sample("x", &["old"], &[]));
    reg.insert(sample("x", &["new"], &[]));
    assert_eq!(reg.len(), 1);
    assert_eq!(reg.get("x").unwrap().rules, vec!["new"]);
}

#[test]
fn rule_allowed_when_unowned() {
    let reg = ExtensionRegistry::new();
    assert!(reg.rule_allowed("some/rule", "example.com"));
}

#[test]
fn rule_allowed_respects_enabled_state() {
    let mut reg = ExtensionRegistry::new();
    reg.insert(sample("dark", &["dark/css"], &[]));
    assert!(reg.rule_allowed("dark/css", "example.com"));
    reg.set_enabled("dark", false);
    assert!(!reg.rule_allowed("dark/css", "example.com"));
}

#[test]
fn rule_allowed_respects_host_permissions() {
    let mut reg = ExtensionRegistry::new();
    reg.insert(sample("x", &["x/rule"], &["*://*.example.com/*"]));
    assert!(reg.rule_allowed("x/rule", "blog.example.com"));
    assert!(!reg.rule_allowed("x/rule", "evil.com"));
}

#[test]
fn owned_rules_unions_across_extensions() {
    let mut reg = ExtensionRegistry::new();
    reg.insert(sample("a", &["a/1", "a/2"], &[]));
    reg.insert(sample("b", &["b/1"], &[]));
    let owned = reg.owned_rules();
    assert_eq!(owned.len(), 3);
    assert!(owned.contains(&"a/1".to_owned()));
    assert!(owned.contains(&"a/2".to_owned()));
    assert!(owned.contains(&"b/1".to_owned()));
}

#[test]
fn permission_manifest_string_maps_chrome_style() {
    assert_eq!(Permission::Storage.as_manifest_str(), "storage");
    assert_eq!(Permission::ActiveTab.as_manifest_str(), "activeTab");
    assert_eq!(
        Permission::DeclarativeNetRequest.as_manifest_str(),
        "declarativeNetRequest"
    );
}

#[test]
fn glob_question_mark_matches_one_char() {
    assert!(glob_match_host("ex?mple.com", "example.com"));
    assert!(!glob_match_host("ex?mple.com", "exmple.com"));
    assert!(glob_match_host("*", ""));
    assert!(!glob_match_host("", "a"));
}

#[test]
fn extend_keeps_last_of_duplicate_names() {
    let mut reg = ExtensionRegistry::new();
    reg.extend(vec![sample("a", &["1"], &[]), sample("b", &[], &[]), sample("a", &["2"], &[])]);
    assert_eq!(reg.len(), 2);
    assert_eq!(reg.specs()[0].name, "b");
    assert_eq!(reg.get("a").unwrap().rules, vec!["2"]);
}
