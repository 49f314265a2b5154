use nami_core::passkey::{Authenticator, PasskeyRecord, PasskeyRegistry, PasskeySpec, UserVerification};


fn sample() -> PasskeySpec {
    PasskeySpec {
        name: "primary".into(),
        vault: "primary".into(),
        authenticator: Authenticator::Any,
        user_verification: UserVerification::Required,
        sync_passkeys: true,
        allowed_rp_ids: vec!["example.com".into(), "github.com".into()],
        blocked_rp_ids: vec![],
        resident_key: true,
        description: None,
    }
}

#[test]
fn allows_rp_exact_match() {
    let s = sample();
    assert!(s.allows_rp("example.com"));
    assert!(s.allows_rp("github.com"));
}

#[test]
fn allows_rp_subdomain_match() {
    let s = sample();
    assert!(s.allows_rp("login.github.com"));
}

#[test]
fn allows_rp_rejects_non_listed() {
    let s = sample();
    assert!(!s.allows_rp("evil.com"));
}

#[test]
fn empty_allow_list_permits_any_unblocked() {
    let s = PasskeySpec {
        allowed_rp_ids: vec![],
        ..sample()
    };
    assert!(s.allows_rp("anything.com"));
}

#[test]
fn wildcard_permits_any_unblocked() {
    let s = PasskeySpec {
        allowed_rp_ids: vec!["*".into()],
        ..sample()
    };
    assert!(s.allows_rp("anything.com"));
}

#[test]
fn block_list_takes_precedence() {
    let s = PasskeySpec {
        allowed_rp_ids: vec!["example.com".into()],
        blocked_rp_ids: vec!["example.com".into()],
        ..sample()
    };
    assert!(!s.allows_rp("example.com"));
}

#[test]
fn registry_dedupes_by_name_and_filters_by_rp() {
    let mut reg = PasskeyRegistry::new();
    reg.insert(sample());
    reg.insert(PasskeySpec {
        name: "hardware".into(),
        authenticator: Authenticator::CrossPlatform,
        allowed_rp_ids: vec!["bank.com".into()],
        ..sample()
    });
    assert_eq!(reg.len(), 2);
    let on_github = reg.applicable("github.com");
    assert_eq!(on_github.len(), 1);
    assert_eq!(on_github[0].name, "primary");
    let on_bank = reg.applicable("bank.com");
    assert_eq!(on_bank.len(), 1);
    assert_eq!(on_bank[0].name, "hardware");
}

#[test]
fn record_redacted_strips_key_material() {
    let r = PasskeyRecord {
        credential_id: "cred".into(),
        rp_id: "example.com".into(),
        rp_name: "Example".into(),
        user_handle: "handle".into(),
        user_name: "jane".into(),
        algorithm: -7,
        authenticator: Authenticator::Platform,
        user_verification: UserVerification::Required,
        public_key: "long-b64".into(),
        created_at: 1,
        last_used_at: 2,
        sign_count: 5,
    };
    let r2 = r.redacted();
    assert!(r2.public_key.is_empty());
    assert!(r2.user_handle.is_empty());
    assert_eq!(r2.user_name, "jane");
}

