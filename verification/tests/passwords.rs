use nami_core::passwords::{CredentialRecord, PasswordsRegistry, PasswordsSpec, VaultSource};


fn sample_kagibako() -> PasswordsSpec {
    PasswordsSpec {
        name: "primary".into(),
        source: VaultSource::Kagibako,
        vault_path: Some("~/.config/kagibako/vault.json".into()),
        endpoint: None,
        command: None,
        unlock_timeout_seconds: 900,
        require_biometrics: true,
        sync_interval_seconds: 3600,
        auto_fill_hosts: vec![],
        blocked_hosts: vec![],
        description: None,
    }
}

#[test]
fn validate_local_requires_vault_path() {
    let s = PasswordsSpec {
        source: VaultSource::Local,
        vault_path: None,
        ..sample_kagibako()
    };
    assert!(s.validate().is_err());
}

#[test]
fn validate_bitwarden_requires_endpoint() {
    let s = PasswordsSpec {
        source: VaultSource::Bitwarden,
        endpoint: None,
        ..sample_kagibako()
    };
    assert!(s.validate().is_err());
}

#[test]
fn validate_process_requires_non_empty_command() {
    let s = PasswordsSpec {
        source: VaultSource::Process,
        command: Some(vec![]),
        ..sample_kagibako()
    };
    assert!(s.validate().is_err());
}

#[test]
fn validate_kagibako_accepts_minimal_form() {
    assert!(sample_kagibako().validate().is_ok());
}

#[test]
fn auto_fills_host_empty_list_is_all() {
    let s = sample_kagibako();
    assert!(s.auto_fills_host("anywhere.com"));
}

#[test]
fn auto_fills_host_respects_allow_list() {
    let s = PasswordsSpec {
        auto_fill_hosts: vec!["*://*.example.com/*".into()],
        ..sample_kagibako()
    };
    assert!(s.auto_fills_host("shop.example.com"));
    assert!(!s.auto_fills_host("evil.com"));
}

#[test]
fn blocked_hosts_take_precedence() {
    let s = PasswordsSpec {
        auto_fill_hosts: vec![],
        blocked_hosts: vec!["*://*.bank.com/*".into()],
        ..sample_kagibako()
    };
    assert!(!s.auto_fills_host("online.bank.com"));
    assert!(s.auto_fills_host("other.com"));
}

#[test]
fn credential_matches_host_exact_and_subdomain() {
    let c = CredentialRecord {
        title: "Example".into(),
        username: "jane".into(),
        password: "secret".into(),
        url: "https://example.com".into(),
        totp_secret: None,
        fields: vec![],
        created_at: 0,
        updated_at: 0,
    };
    assert!(c.matches_host("example.com"));
    assert!(c.matches_host("login.example.com"));
    assert!(!c.matches_host("example.org"));
    assert!(!c.matches_host("notexample.com"));
}

#[test]
fn redacted_strips_secrets() {
    let c = CredentialRecord {
        title: "t".into(),
        username: "u".into(),
        password: "p".into(),
        url: "https://example.com".into(),
        totp_secret: Some("TOTP".into()),
        fields: vec![],
        created_at: 0,
        updated_at: 0,
    };
    let r = c.redacted();
    assert!(r.password.is_empty());
    assert!(r.totp_secret.is_none());
    assert_eq!(r.username, "u");
}

#[test]
fn registry_dedupes_by_name_and_applicable() {
    let mut reg = PasswordsRegistry::new();
    reg.insert(sample_kagibako()).unwrap();
    let banking = PasswordsSpec {
        name: "bank".into(),
        auto_fill_hosts: vec!["*://*.bank.com/*".into()],
        ..sample_kagibako()
    };
    reg.insert(banking).unwrap();
    assert_eq!(reg.len(), 2);
    let on_bank = reg.applicable("online.bank.com");
    assert_eq!(on_bank.len(), 2);
}

#[test]
fn validate_hashicorp_vault_requires_endpoint() {
    let s = PasswordsSpec {
        source: VaultSource::HashiCorpVault,
        endpoint: None,
        ..sample_kagibako()
    };
    assert!(s.validate().is_err());
}

#[test]
fn validate_akeyless_requires_endpoint() {
    let s = PasswordsSpec {
        source: VaultSource::Akeyless,
        endpoint: None,
        ..sample_kagibako()
    };
    assert!(s.validate().is_err());
}

#[test]
fn validate_cli_bridge_sources_need_no_config() {
    // Every CLI-only source accepts a minimal form — lookup
    // auth lives in the backend's own SDK / keychain.
    for source in [
        VaultSource::OnePassword,
        VaultSource::LastPass,
        VaultSource::Dashlane,
        VaultSource::NordPass,
        VaultSource::ProtonPass,
        VaultSource::Enpass,
        VaultSource::RoboForm,
        VaultSource::Pass,
        VaultSource::Gopass,
        VaultSource::MacOsKeychain,
        VaultSource::WindowsCredentialManager,
        VaultSource::LibSecret,
        VaultSource::AwsSecretsManager,
        VaultSource::GcpSecretManager,
        VaultSource::AzureKeyVault,
    ] {
        let s = PasswordsSpec {
            source,
            vault_path: None,
            endpoint: None,
            ..sample_kagibako()
        };
        assert!(
            s.validate().is_ok(),
            "{source:?} should validate with minimal form"
        );
    }
}

#[test]
fn registry_extend_drops_invalid() {
    let mut reg = PasswordsRegistry::new();
    reg.extend(vec![
        sample_kagibako(),
        PasswordsSpec {
            name: "bad".into(),
            source: VaultSource::Bitwarden,
            endpoint: None,
            ..sample_kagibako()
        },
    ]);
    assert_eq!(reg.len(), 1);
    assert_eq!(reg.specs()[0].name, "primary");
}

