use base64::Engine as _;
use ed25519_dalek::Signer as _;
use nami_core::extension::base32::base32_16;
use nami_core::extension::signature::{
    canonical_bytes, canonical_hash, sign_digest, verify, verify_digest, SignatureBundle, SignedExtension, Trustdb,
    VerificationError, VerificationStatus,
};
use nami_core::extension::{ExtensionSpec, Permission};

fn sample_spec() -> ExtensionSpec {
    ExtensionSpec {
        name: "dark-reader".into(),
        version: "1.0.0".into(),
        description: Some("Per-site dark-mode CSS".into()),
        author: Some("Jane".into()),
        homepage_url: None,
        icon: None,
        permissions: vec![Permission::Storage, Permission::ActiveTab],
        host_permissions: vec!["*://*.example.com/*".into()],
        rules: vec!["dark-reader/css".into()],
        enabled: true,
    }
}

fn strings(v: &[String]) -> serde_json::Value {
    serde_json::Value::Array(v.iter().map(|s| serde_json::Value::String(s.clone())).collect())
}

fn opt(v: &Option<String>) -> serde_json::Value {
    match v {
        Some(s) => serde_json::Value::String(s.clone()),
        None => serde_json::Value::Null,
    }
}

fn perm_name(p: Permission) -> &'static str {
    match p {
        Permission::Storage => "storage",
        Permission::ActiveTab => "active-tab",
        _ => "other",
    }
}

/// The sorted-key JSON of a spec, built value by value.
fn canonical_json(s: &ExtensionSpec) -> Vec<u8> {
    let mut m = serde_json::Map::new();
    m.insert("author".into(), opt(&s.author));
    m.insert("description".into(), opt(&s.description));
    m.insert("enabled".into(), serde_json::Value::Bool(s.enabled));
    m.insert("homepageUrl".into(), opt(&s.homepage_url));
    m.insert("hostPermissions".into(), strings(&s.host_permissions));
    m.insert("icon".into(), opt(&s.icon));
    m.insert("name".into(), serde_json::Value::String(s.name.clone()));
    m.insert(
        "permissions".into(),
        serde_json::Value::Array(s.permissions.iter().map(|p| serde_json::Value::String(perm_name(*p).into())).collect()),
    );
    m.insert("rules".into(), strings(&s.rules));
    m.insert("version".into(), serde_json::Value::String(s.version.clone()));
    serde_json::to_vec(&serde_json::Value::Object(m)).unwrap()
}

#[test]
fn canonical_hash_matches_pleme_io_attestation_shape() {
    let h = canonical_hash(&canonical_json(&sample_spec()));
    assert_eq!(h.len(), 26);
    for ch in h.chars() {
        assert!(ch.is_ascii_lowercase() || ch.is_ascii_digit());
    }
}

#[test]
fn trustdb_roundtrip() {
    let mut db = Trustdb::new();
    db.trust("abc".to_owned());
    db.trust("def".to_owned());
    assert_eq!(db.len(), 2);
    assert!(db.is_trusted("abc"));
    assert!(!db.is_trusted("ghi"));
    assert!(db.revoke("abc"));
    assert!(!db.is_trusted("abc"));
    assert!(!db.revoke("never"));
}

#[test]
fn trustdb_keys_are_sorted() {
    let mut db = Trustdb::new();
    db.trust("c".to_owned());
    db.trust("a".to_owned());
    db.trust("b".to_owned());
    assert_eq!(db.keys(), vec!["a", "b", "c"]);
}

#[test]
fn verify_without_feature_returns_feature_disabled() {
    let signed = SignedExtension {
        spec: sample_spec(),
        signature: SignatureBundle {
            algorithm: "ed25519".into(),
            public_key: "AA".into(),
            signature: "AA".into(),
            signed_by: None,
            signed_at: None,
        },
    };
    let err = verify(&signed, &Trustdb::new()).unwrap_err();
    assert!(matches!(err, VerificationError::FeatureDisabled));
}

#[test]
fn trustdb_dedupes_and_clones() {
    let mut db = Trustdb::new();
    assert!(db.is_empty());
    db.trust("k".to_owned());
    db.trust("k".to_owned());
    assert_eq!(db.len(), 1);
    let copy = db.clone();
    assert_eq!(copy.keys(), vec!["k"]);
    assert!(Trustdb::default().is_empty());
}

#[test]
fn base32_known_values() {
    assert_eq!(base32_16(b""), "");
    assert_eq!(base32_16(b"f"), "my");
    assert_eq!(base32_16(b"fo"), "mzxq");
    assert_eq!(base32_16(b"foo"), "mzxw6");
    assert_eq!(base32_16(b"foob"), "mzxw6yq");
    assert_eq!(base32_16(b"fooba"), "mzxw6ytb");
    assert_eq!(base32_16(b"foobar"), "mzxw6ytboi");
    assert_eq!(base32_16(&[0xffu8; 16]).len(), 26);
}

fn signed_with(seed: u8, spec: ExtensionSpec, digest_of: &ExtensionSpec) -> SignedExtension {
    let digest = canonical_bytes(&canonical_json(digest_of));
    let mut signature = sign_digest(&[seed; 32], &digest);
    signature.signed_by = Some("Jane".into());
    SignedExtension { spec, signature }
}

#[test]
fn sign_digest_matches_ed25519_and_base64() {
    let digest = [3u8; 32];
    let b = sign_digest(&[7u8; 32], &digest);
    let key = ed25519_dalek::SigningKey::from_bytes(&[7u8; 32]);
    let b64 = base64::engine::general_purpose::STANDARD;
    assert_eq!(b.algorithm, "ed25519");
    assert_eq!(b.public_key, b64.encode(key.verifying_key().to_bytes()));
    assert_eq!(b.signature, b64.encode(key.sign(&digest).to_bytes()));
    assert!(b.signed_by.is_none() && b.signed_at.is_none());
    let other = sign_digest(&[8u8; 32], &digest);
    assert_ne!(other.public_key, b.public_key);
}

#[test]
fn digest_verification_outcomes() {
    let spec = sample_spec();
    let signed = signed_with(7, spec.clone(), &spec);
    let digest = canonical_bytes(&canonical_json(&signed.spec));
    let mut trust = Trustdb::new();
    assert!(matches!(verify_digest(&signed, &digest, &trust), Ok(VerificationStatus::ValidButUntrusted { .. })));
    trust.trust(signed.signature.public_key.clone());
    match verify_digest(&signed, &digest, &trust) {
        Ok(VerificationStatus::Trusted { public_key_b64, signed_by }) => {
            assert_eq!(public_key_b64, signed.signature.public_key);
            assert_eq!(signed_by.as_deref(), Some("Jane"));
        }
        other => panic!("expected Trusted, got {other:?}"),
    }
    let mut tampered = spec.clone();
    tampered.rules.push("evil/rule".into());
    let bad_digest = canonical_bytes(&canonical_json(&tampered));
    assert_eq!(verify_digest(&signed, &bad_digest, &trust), Err(VerificationError::SignatureMismatch));
    let mut wrong_alg = signed.clone();
    wrong_alg.signature.algorithm = "rsa".into();
    assert!(matches!(verify_digest(&wrong_alg, &digest, &trust), Err(VerificationError::UnknownAlgorithm(_))));
    let mut bad_b64 = signed.clone();
    bad_b64.signature.signature = "not-valid-base64!!!".into();
    assert!(matches!(
        verify_digest(&bad_b64, &digest, &trust),
        Err(VerificationError::Base64Decode { field: "signature", .. })
    ));
    let mut short_key = signed.clone();
    short_key.signature.public_key = "AAAA".into();
    assert_eq!(verify_digest(&short_key, &digest, &trust), Err(VerificationError::BadPublicKeyLength(3)));
}

#[test]
fn canonical_bytes_is_stable() {
    let s = sample_spec();
    let a = canonical_bytes(&canonical_json(&s));
    let b = canonical_bytes(&canonical_json(&s));
    assert_eq!(a, b);
}

#[test]
fn canonical_bytes_changes_on_mutation() {
    let s = sample_spec();
    let a = canonical_bytes(&canonical_json(&s));
    let mut s2 = s.clone();
    s2.rules.push("dark-reader/injected".into());
    let b = canonical_bytes(&canonical_json(&s2));
    assert_ne!(a, b);
}

/// Verification of a signed spec against the digest of its own canonical JSON.
fn verify_signed(signed: &SignedExtension, trust: &Trustdb) -> Result<VerificationStatus, VerificationError> {
    let digest = canonical_bytes(&canonical_json(&signed.spec));
    verify_digest(signed, &digest, trust)
}

#[test]
fn sign_verify_roundtrips() {
    let spec = sample_spec();
    let signed = signed_with(7, spec.clone(), &spec);
    let mut trust = Trustdb::new();
    trust.trust(signed.signature.public_key.clone());
    match verify_signed(&signed, &trust).unwrap() {
        VerificationStatus::Trusted { public_key_b64, .. } => {
            assert_eq!(public_key_b64, signed.signature.public_key);
        }
        other => panic!("expected Trusted, got {other:?}"),
    }
}

#[test]
fn verify_with_untrusted_key_reports_valid_but_untrusted() {
    let spec = sample_spec();
    let signed = signed_with(7, spec.clone(), &spec);
    let trust = Trustdb::new();
    match verify_signed(&signed, &trust).unwrap() {
        VerificationStatus::ValidButUntrusted { .. } => (),
        other => panic!("expected ValidButUntrusted, got {other:?}"),
    }
}

#[test]
fn verify_rejects_tampered_spec() {
    let spec = sample_spec();
    let mut tampered = spec.clone();
    tampered.rules.push("evil/rule".into());
    let signed = signed_with(7, tampered, &spec);
    let err = verify_signed(&signed, &Trustdb::new()).unwrap_err();
    assert!(matches!(err, VerificationError::SignatureMismatch));
}

#[test]
fn verify_rejects_wrong_key() {
    let spec = sample_spec();
    let mut signed = signed_with(99, spec.clone(), &spec);
    let bystander = ed25519_dalek::SigningKey::from_bytes(&[42u8; 32]);
    signed.signature.public_key = base64::engine::general_purpose::STANDARD.encode(bystander.verifying_key().to_bytes());
    let err = verify_signed(&signed, &Trustdb::new()).unwrap_err();
    assert!(matches!(err, VerificationError::SignatureMismatch));
}

#[test]
fn verify_rejects_bad_algorithm() {
    let spec = sample_spec();
    let mut signed = signed_with(7, spec.clone(), &spec);
    signed.signature.algorithm = "rsa".into();
    let err = verify_signed(&signed, &Trustdb::new()).unwrap_err();
    assert!(matches!(err, VerificationError::UnknownAlgorithm(_)));
}

#[test]
fn verify_rejects_malformed_base64() {
    let spec = sample_spec();
    let mut signed = signed_with(7, spec.clone(), &spec);
    signed.signature.signature = "not-valid-base64!!!".into();
    let err = verify_signed(&signed, &Trustdb::new()).unwrap_err();
    assert!(matches!(err, VerificationError::Base64Decode { .. }));
}

#[test]
fn sign_embeds_public_key_matching_signing_key() {
    let key = ed25519_dalek::SigningKey::from_bytes(&[7u8; 32]);
    let digest = canonical_bytes(&canonical_json(&sample_spec()));
    let bundle = sign_digest(&key.to_bytes(), &digest);
    let pub_bytes = base64::engine::general_purpose::STANDARD.decode(&bundle.public_key).unwrap();
    assert_eq!(pub_bytes.len(), 32);
    assert_eq!(&pub_bytes[..], &key.verifying_key().to_bytes()[..]);
}
