use nami_core::history_policy::{
    CaptureField, HistoryPolicyRegistry, HistoryPolicySpec, Retention, Visibility,
};

#[test]
fn default_profile_captures_standard_fields() {
    let s = HistoryPolicySpec::default_profile();
    assert!(s.captures(CaptureField::Title));
    assert!(s.captures(CaptureField::Url));
    assert!(s.captures(CaptureField::VisitCount));
    assert!(!s.captures(CaptureField::Screenshot));
}

#[test]
fn should_record_happy_path() {
    let s = HistoryPolicySpec::default_profile();
    assert!(s.should_record("example.com", "https://example.com/page", 10));
}

#[test]
fn should_not_record_private_hosts() {
    let s = HistoryPolicySpec {
        private_hosts: vec!["*://*.bank.com/*".into()],
        ..HistoryPolicySpec::default_profile()
    };
    assert!(!s.should_record("my.bank.com", "https://my.bank.com/a", 30));
}

#[test]
fn should_not_record_excluded_schemes() {
    let s = HistoryPolicySpec::default_profile();
    assert!(!s.should_record("", "about:blank", 30));
    assert!(!s.should_record("ex.com", "data:text/html,<p>", 30));
    assert!(!s.should_record("ex.com", "chrome://settings", 30));
}

#[test]
fn should_not_record_when_retention_off() {
    let s = HistoryPolicySpec {
        retention: Retention::Off,
        ..HistoryPolicySpec::default_profile()
    };
    assert!(!s.should_record("example.com", "https://example.com", 30));
}

#[test]
fn should_not_record_when_visibility_none() {
    let s = HistoryPolicySpec {
        visibility: Visibility::Hidden,
        ..HistoryPolicySpec::default_profile()
    };
    assert!(!s.should_record("example.com", "https://example.com", 30));
}

#[test]
fn should_record_respects_min_dwell() {
    let s = HistoryPolicySpec {
        min_dwell_seconds: 5,
        ..HistoryPolicySpec::default_profile()
    };
    assert!(!s.should_record("example.com", "https://example.com", 2));
    assert!(s.should_record("example.com", "https://example.com", 5));
}

#[test]
fn should_not_record_when_disabled() {
    let s = HistoryPolicySpec {
        enabled: false,
        ..HistoryPolicySpec::default_profile()
    };
    assert!(!s.should_record("example.com", "https://example.com", 30));
}

#[test]
fn retention_seconds_days_math() {
    let s = HistoryPolicySpec {
        retention: Retention::Days,
        retention_days: 30,
        ..HistoryPolicySpec::default_profile()
    };
    assert_eq!(s.retention_seconds(), 30 * 86_400);
}

#[test]
fn retention_seconds_off_is_zero() {
    let s = HistoryPolicySpec {
        retention: Retention::Off,
        ..HistoryPolicySpec::default_profile()
    };
    assert_eq!(s.retention_seconds(), 0);
}

#[test]
fn retention_seconds_forever_is_max() {
    let s = HistoryPolicySpec {
        retention: Retention::Forever,
        ..HistoryPolicySpec::default_profile()
    };
    assert_eq!(s.retention_seconds(), u64::MAX);
}

#[test]
fn retention_seconds_only_if_bookmarked_is_max() {
    let s = HistoryPolicySpec {
        retention: Retention::OnlyIfBookmarked,
        ..HistoryPolicySpec::default_profile()
    };
    assert_eq!(s.retention_seconds(), u64::MAX);
}

#[test]
fn mod_registry_prefers_specific_host() {
    let mut reg = HistoryPolicyRegistry::new();
    reg.insert(HistoryPolicySpec::default_profile());
    reg.insert(HistoryPolicySpec {
        name: "news-suppress".into(),
        host: "*://*.nytimes.com/*".into(),
        visibility: Visibility::SuppressSuggestions,
        ..HistoryPolicySpec::default_profile()
    });
    let ny = reg.resolve("www.nytimes.com").unwrap();
    assert_eq!(ny.visibility, Visibility::SuppressSuggestions);
}

#[test]
fn registry_falls_back_to_wildcard_and_skips_disabled() {
    let mut reg = HistoryPolicyRegistry::new();
    reg.insert(HistoryPolicySpec::default_profile());
    reg.insert(HistoryPolicySpec {
        name: "off".into(),
        host: "*://*.nytimes.com/*".into(),
        enabled: false,
        ..HistoryPolicySpec::default_profile()
    });
    assert_eq!(reg.resolve("www.nytimes.com").unwrap().name, "default");
    assert_eq!(reg.len(), 2);
}
