use nami_core::locale::{LocaleRegistry, LocaleSpec};


#[test]
fn default_profile_is_passthrough() {
    let s = LocaleSpec::default_profile();
    assert!(s.primary.is_empty());
    assert!(s.accept_languages.is_empty());
    assert!(s.expose_to_js);
}

#[test]
fn render_accept_language_auto_scales_q_values() {
    let s = LocaleSpec {
        accept_languages: vec!["ja-JP".into(), "ja".into(), "en".into()],
        ..LocaleSpec::default_profile()
    };
    let h = s.render_accept_language();
    assert_eq!(h, "ja-JP, ja;q=0.9, en;q=0.8");
}

#[test]
fn render_accept_language_passes_through_explicit_q() {
    let s = LocaleSpec {
        accept_languages: vec!["ja-JP".into(), "en;q=0.5".into(), "de;q=0.3".into()],
        ..LocaleSpec::default_profile()
    };
    let h = s.render_accept_language();
    assert_eq!(h, "ja-JP, en;q=0.5, de;q=0.3");
}

#[test]
fn render_accept_language_empty_falls_back_to_primary() {
    let s = LocaleSpec {
        primary: "fr-FR".into(),
        ..LocaleSpec::default_profile()
    };
    assert_eq!(s.render_accept_language(), "fr-FR");
}

#[test]
fn render_accept_language_q_floor_is_point_one() {
    let langs: Vec<String> = (0..15).map(|i| format!("l{i}")).collect();
    let s = LocaleSpec {
        accept_languages: langs,
        ..LocaleSpec::default_profile()
    };
    let h = s.render_accept_language();
    // The last few entries should clamp to q=0.1 (auto-scale
    // never bottoms out below it).
    assert!(h.ends_with("q=0.1"));
}

#[test]
fn primary_tag_prefers_primary_field() {
    let s = LocaleSpec {
        primary: "fr-FR".into(),
        accept_languages: vec!["en".into()],
        ..LocaleSpec::default_profile()
    };
    assert_eq!(s.primary_tag(), "fr-FR");
}

#[test]
fn primary_tag_falls_back_to_first_accept() {
    let s = LocaleSpec {
        primary: String::new(),
        accept_languages: vec!["ja".into(), "en".into()],
        ..LocaleSpec::default_profile()
    };
    assert_eq!(s.primary_tag(), "ja");
}

#[test]
fn primary_tag_empty_when_no_fields() {
    let s = LocaleSpec::default_profile();
    assert_eq!(s.primary_tag(), "");
}

#[test]
fn js_languages_strips_q_values_and_dedupes() {
    let s = LocaleSpec {
        primary: "ja-JP".into(),
        accept_languages: vec![
            "ja-JP".into(),
            "ja;q=0.9".into(),
            "en;q=0.5".into(),
            "en;q=0.3".into(),
        ],
        ..LocaleSpec::default_profile()
    };
    let js = s.js_languages();
    assert_eq!(js, vec!["ja-JP", "ja", "en"]);
}

#[test]
fn js_languages_empty_when_exposed_off() {
    let s = LocaleSpec {
        primary: "ja-JP".into(),
        expose_to_js: false,
        ..LocaleSpec::default_profile()
    };
    assert!(s.js_languages().is_empty());
}

#[test]
fn mod_is_exempt_matches_glob() {
    let s = LocaleSpec {
        exempt_hosts: vec!["*://*.bank.com/*".into()],
        ..LocaleSpec::default_profile()
    };
    assert!(s.is_exempt("my.bank.com"));
    assert!(!s.is_exempt("example.com"));
}

#[test]
fn registry_prefers_specific_host() {
    let mut reg = LocaleRegistry::new();
    reg.insert(LocaleSpec::default_profile());
    reg.insert(LocaleSpec {
        name: "jp".into(),
        host: "*://*.example.jp/*".into(),
        primary: "ja-JP".into(),
        ..LocaleSpec::default_profile()
    });
    let jp = reg.resolve("www.example.jp").unwrap();
    assert_eq!(jp.primary, "ja-JP");
    let other = reg.resolve("example.com").unwrap();
    assert_eq!(other.name, "default");
}

#[test]
fn mod_disabled_profile_never_resolves() {
    let mut reg = LocaleRegistry::new();
    reg.insert(LocaleSpec {
        enabled: false,
        ..LocaleSpec::default_profile()
    });
    assert!(reg.resolve("example.com").is_none());
}

