//! Signatures over `(defextension)` bundles: the signature envelope, the keyring of trusted
//! public keys, the content-hash label of a canonical serialization, signing and verification.
//!
//! A spec is signed over the BLAKE3 hash of its sorted-key JSON serialization. Serializing is
//! done by the caller; this module hashes the bytes it is given.
use vstd::prelude::*;

use base64::Engine as _;
use ed25519_dalek::Signer as _;
use ed25519_dalek::Verifier as _;

pub mod base64_error;

use super::base32::{base32, base32_16};
use super::ExtensionSpec;
use crate::sorted::{insert_sorted, lex_lt, strictly_sorted};
use crate::text::{str_eq, views};

verus! {

/// The signature envelope shipped with an extension.
#[derive(Debug, Clone, PartialEq, Eq)]
pub struct SignatureBundle {
    /// Algorithm tag; only `"ed25519"` is known.
    pub algorithm: String,
    /// The 32-byte public key, base64.
    pub public_key: String,
    /// The 64-byte signature, base64.
    pub signature: String,
    /// Advisory author string.
    pub signed_by: Option<String>,
    /// Advisory timestamp.
    pub signed_at: Option<String>,
}

/// A spec with its signature envelope.
#[derive(Debug, Clone, PartialEq)]
pub struct SignedExtension {
    pub spec: ExtensionSpec,
    pub signature: SignatureBundle,
}

/// Why signing or verification failed.
#[derive(Debug, Clone, PartialEq, Eq)]
pub enum VerificationError {
    /// Built without signature support.
    FeatureDisabled,
    /// An algorithm other than ed25519.
    UnknownAlgorithm(String),
    /// A base64 field that does not decode.
    Base64Decode { field: &'static str, source: base64_error::Base64DecodeError },
    /// A public key of the wrong length.
    BadPublicKeyLength(usize),
    /// A signature of the wrong length.
    BadSignatureLength(usize),
    /// The signature does not match the spec and key.
    SignatureMismatch,
    /// The key is not in the keyring.
    UntrustedKey,
    /// The spec could not be serialized.
    Canonicalize(String),
}

/// The outcome of a verification.
#[derive(Debug, Clone, PartialEq, Eq)]
pub enum VerificationStatus {
    /// Valid, by a trusted key.
    Trusted { public_key_b64: String, signed_by: Option<String> },
    /// Valid, by a key not in the keyring.
    ValidButUntrusted { public_key_b64: String },
    /// Not valid.
    Invalid(String),
}

// ─── hashing ─────────────────────────────────────────────────────

/// The BLAKE3 digest of `data`.
pub uninterp spec fn blake3_digest(data: Seq<u8>) -> Seq<u8>;

/// `blake3::hash`: the 32-byte BLAKE3 digest of `data`. Claimed: the bytes are the digest named
/// `blake3_digest` of the input, a function of the input alone.
#[verifier::external_body]
fn blake3_hash(data: &[u8]) -> (r: [u8; 32])
    ensures
        r@ == blake3_digest(data@),
{
    *blake3::hash(data).as_bytes()
}

/// The 32-byte signing preimage of a canonical serialization: its BLAKE3 hash.
pub fn canonical_bytes(canonical_json: &[u8]) -> (r: [u8; 32])
    ensures
        r@ == blake3_digest(canonical_json@),
{
    blake3_hash(canonical_json)
}

/// The 128-bit content label of a serialization: the first 16 bytes of its BLAKE3 hash in
/// lower-case base32, 26 characters.
pub fn canonical_hash(canonical_json: &[u8]) -> (r: String)
    ensures
        r@ == base32(blake3_digest(canonical_json@).take(16)),
{
    let h = blake3_hash(canonical_json);
    let mut first: Vec<u8> = Vec::new();
    let mut i: usize = 0;
    while i < 16
        invariant
            i <= 16,
            h@.len() == 32,
            first@ == h@.take(i as int),
        decreases 16 - i,
    {
        first.push(h[i]);
        assert(h@.take(i + 1) =~= h@.take(i as int).push(h@[i as int]));
        i += 1;
    }
    base32_16(first.as_slice())
}

// ─── keyring ─────────────────────────────────────────────────────

/// Trusted public keys (base64), kept sorted and without repeats.
#[derive(Debug)]
pub struct Trustdb {
    keys: Vec<String>,
}

impl View for Trustdb {
    type V = Seq<Seq<char>>;

    closed spec fn view(&self) -> Seq<Seq<char>> {
        views(self.keys@)
    }
}

impl Trustdb {
    #[verifier::type_invariant]
    spec fn sorted(&self) -> bool {
        strictly_sorted(views(self.keys@))
    }

    /// An empty keyring.
    pub fn new() -> (r: Self)
        ensures
            r@ == Seq::<Seq<char>>::empty(),
    {
        let keys: Vec<String> = Vec::new();
        assert(views(keys@) =~= Seq::<Seq<char>>::empty());
        let r = Trustdb { keys };
        r
    }

    /// Trusts `public_key_b64`.
    pub fn trust(&mut self, public_key_b64: String)
        ensures
            strictly_sorted(final(self)@),
            forall|k: Seq<char>| final(self)@.contains(k) <==> (old(self)@.contains(k) || k == public_key_b64@),
    {
        proof {
            use_type_invariant(&*self);
        }
        let mut keys: Vec<String> = Vec::new();
        std::mem::swap(&mut keys, &mut self.keys);
        insert_sorted(&mut keys, public_key_b64);
        self.keys = keys;
    }

    /// Stops trusting `public_key_b64`; true when it was trusted.
    pub fn revoke(&mut self, public_key_b64: &str) -> (r: bool)
        ensures
            r == old(self)@.contains(public_key_b64@),
            strictly_sorted(final(self)@),
            forall|k: Seq<char>| final(self)@.contains(k) <==> (old(self)@.contains(k) && k != public_key_b64@),
    {
        proof {
            use_type_invariant(&*self);
        }
        let ghost before = self@;
        let mut i: usize = 0;
        while i < self.keys.len()
            invariant
                i <= self.keys@.len(),
                before == views(self.keys@),
                forall|j: int| 0 <= j < i ==> #[trigger] before[j] != public_key_b64@,
            ensures
                i <= self.keys@.len(),
                before == views(self.keys@),
                forall|j: int| 0 <= j < i ==> #[trigger] before[j] != public_key_b64@,
                i < self.keys@.len() ==> before[i as int] == public_key_b64@,
            decreases self.keys@.len() - i,
        {
            if str_eq(self.keys[i].as_str(), public_key_b64) {
                break;
            }
            i += 1;
        }
        if i == self.keys.len() {
            proof {
                if before.contains(public_key_b64@) {
                    let m = choose|m: int| 0 <= m < before.len() && before[m] == public_key_b64@;
                    assert(before[m] != public_key_b64@);
                }
            }
            return false;
        }
        let mut keys: Vec<String> = Vec::new();
        std::mem::swap(&mut keys, &mut self.keys);
        let _gone = keys.remove(i);
        proof {
            let nv = views(keys@);
            assert(nv =~= before.remove(i as int));
            assert forall|k: Seq<char>| nv.contains(k) <==> (before.contains(k) && k != public_key_b64@) by {
                if nv.contains(k) {
                    let m = choose|m: int| 0 <= m < nv.len() && nv[m] == k;
                    if m < i {
                        assert(before[m] == k);
                    } else {
                        assert(before[m + 1] == k);
                        assert(lex_lt(before[i as int], before[m + 1]));
                        crate::sorted::lemma_lex_trichotomy(before[i as int], before[m + 1]);
                    }
                }
                if before.contains(k) && k != public_key_b64@ {
                    let m = choose|m: int| 0 <= m < before.len() && before[m] == k;
                    if m < i {
                        assert(nv[m] == k);
                    } else {
                        assert(m != i);
                        assert(nv[m - 1] == k);
                    }
                }
            }
            assert forall|a: int, c: int| 0 <= a < c < nv.len() implies lex_lt(nv[a], nv[c]) by {
                if a < i && c >= i {
                    assert(nv[c] == before[c + 1]);
                } else if a >= i {
                    assert(nv[a] == before[a + 1] && nv[c] == before[c + 1]);
                }
            }
        }
        self.keys = keys;
        true
    }

    /// Whether `public_key_b64` is trusted.
    pub fn is_trusted(&self, public_key_b64: &str) -> (r: bool)
        ensures
            r == self@.contains(public_key_b64@),
    {
        let mut i: usize = 0;
        while i < self.keys.len()
            invariant
                i <= self.keys@.len(),
                forall|j: int| 0 <= j < i ==> #[trigger] self.keys@[j]@ != public_key_b64@,
            decreases self.keys@.len() - i,
        {
            if str_eq(self.keys[i].as_str(), public_key_b64) {
                assert(self@[i as int] == public_key_b64@);
                return true;
            }
            i += 1;
        }
        proof {
            if self@.contains(public_key_b64@) {
                let m = choose|m: int| 0 <= m < self@.len() && self@[m] == public_key_b64@;
                assert(self.keys@[m]@ == public_key_b64@);
            }
        }
        false
    }

    /// Number of trusted keys.
    pub fn len(&self) -> (r: usize)
        ensures
            r == self@.len(),
    {
        self.keys.len()
    }

    /// No key is trusted.
    pub fn is_empty(&self) -> (r: bool)
        ensures
            r == (self@.len() == 0),
    {
        self.keys.len() == 0
    }

    /// The trusted keys, sorted.
    pub fn keys(&self) -> (r: Vec<String>)
        ensures
            views(r@) == self@,
            strictly_sorted(views(r@)),
    {
        proof {
            use_type_invariant(self);
        }
        let mut out: Vec<String> = Vec::new();
        let mut i: usize = 0;
        while i < self.keys.len()
            invariant
                i <= self.keys@.len(),
                out@.len() == i,
                forall|j: int| 0 <= j < i ==> #[trigger] out@[j]@ == self.keys@[j]@,
            decreases self.keys@.len() - i,
        {
            let c = self.keys[i].clone();
            out.push(c);
            i += 1;
        }
        assert(views(out@) =~= views(self.keys@));
        out
    }
}

impl Clone for Trustdb {
    fn clone(&self) -> (r: Self)
        ensures
            r@ == self@,
    {
        Trustdb { keys: self.keys() }
    }
}

impl Default for Trustdb {
    fn default() -> (r: Self)
        ensures
            r@ == Seq::<Seq<char>>::empty(),
    {
        Trustdb::new()
    }
}

/// Verification in a build without signature support: always `FeatureDisabled`.
pub fn verify(_signed: &SignedExtension, _trustdb: &Trustdb) -> (r: Result<VerificationStatus, VerificationError>)
    ensures
        r == Err::<VerificationStatus, VerificationError>(VerificationError::FeatureDisabled),
{
    Err(VerificationError::FeatureDisabled)
}

// ─── verification with signatures ────────────────────────────────

/// What standard base64 (with padding) decodes `text` to, if it decodes.
pub uninterp spec fn base64_decoded(text: Seq<char>) -> Option<Seq<u8>>;

/// `base64::engine::general_purpose::STANDARD.decode`. Claimed: the bytes, or the failure, are
/// those the standard base64 alphabet with padding gives for `text`, a function of `text` alone.
/// The error's message is not described.
#[verifier::external_body]
fn base64_decode(text: &str) -> (r: Result<Vec<u8>, String>)
    ensures
        match r {
            Ok(v) => base64_decoded(text@) == Some(v@),
            Err(_) => base64_decoded(text@).is_none(),
        },
{
    base64::engine::general_purpose::STANDARD.decode(text).map_err(|e| e.to_string())
}

/// Whether 32 bytes are the compressed form of a point usable as an Ed25519 public key.
pub uninterp spec fn ed25519_key_decodes(public_key: Seq<u8>) -> bool;

/// Whether `signature` is a valid Ed25519 signature of `message` under `public_key`.
pub uninterp spec fn ed25519_accepts(public_key: Seq<u8>, message: Seq<u8>, signature: Seq<u8>) -> bool;

/// `ed25519_dalek::VerifyingKey::from_bytes`, asked only whether it succeeds. Claimed: success
/// is `ed25519_key_decodes` of the bytes.
#[verifier::external_body]
fn key_decodes(public_key: &[u8; 32]) -> (r: bool)
    ensures
        r == ed25519_key_decodes(public_key@),
{
    ed25519_dalek::VerifyingKey::from_bytes(public_key).is_ok()
}

/// `ed25519_dalek::VerifyingKey::verify` on a key given by its bytes, with the signature built by
/// `Signature::from_bytes`. Claimed: the answer is `ed25519_accepts` of the three byte strings;
/// a key that does not decode accepts nothing.
#[verifier::external_body]
fn ed25519_verify(public_key: &[u8; 32], message: &[u8], signature: &[u8; 64]) -> (r: bool)
    ensures
        r == ed25519_accepts(public_key@, message@, signature@),
{
    match ed25519_dalek::VerifyingKey::from_bytes(public_key) {
        Ok(k) => k.verify(message, &ed25519_dalek::Signature::from_bytes(signature)).is_ok(),
        Err(_) => false,
    }
}

/// The first 32 bytes of `v` as an array.
fn array32(v: &Vec<u8>) -> (r: [u8; 32])
    requires
        v@.len() == 32,
    ensures
        r@ == v@,
{
    let mut a: [u8; 32] = [0u8; 32];
    let mut i: usize = 0;
    while i < 32
        invariant
            i <= 32,
            v@.len() == 32,
            forall|j: int| 0 <= j < i ==> a@[j] == v@[j],
        decreases 32 - i,
    {
        a[i] = v[i];
        i += 1;
    }
    assert(a@ =~= v@);
    a
}

/// The first 64 bytes of `v` as an array.
fn array64(v: &Vec<u8>) -> (r: [u8; 64])
    requires
        v@.len() == 64,
    ensures
        r@ == v@,
{
    let mut a: [u8; 64] = [0u8; 64];
    let mut i: usize = 0;
    while i < 64
        invariant
            i <= 64,
            v@.len() == 64,
            forall|j: int| 0 <= j < i ==> a@[j] == v@[j],
        decreases 64 - i,
    {
        a[i] = v[i];
        i += 1;
    }
    assert(a@ =~= v@);
    a
}

/// What verifying `signed` against the canonical digest gives, step by step: the algorithm must
/// be ed25519; the public key must decode from base64 to 32 bytes and to a curve point; the
/// signature must decode to 64 bytes; the signature must verify; then the key's presence in the
/// keyring decides between trusted and untrusted.
pub open spec fn verification_outcome(signed: SignedExtension, digest: Seq<u8>, trusted: Seq<Seq<char>>) -> Result<
    VerificationStatus,
    VerificationError,
> {
    let sig = signed.signature;
    if sig.algorithm@ != "ed25519"@ {
        Err(VerificationError::UnknownAlgorithm(sig.algorithm))
    } else {
        match base64_decoded(sig.public_key@) {
            None => Err(VerificationError::Base64Decode { field: "public_key", source: arbitrary() }),
            Some(pk) => if pk.len() != 32 {
                Err(VerificationError::BadPublicKeyLength(pk.len() as usize))
            } else if !ed25519_key_decodes(pk) {
                Err(VerificationError::SignatureMismatch)
            } else {
                match base64_decoded(sig.signature@) {
                    None => Err(VerificationError::Base64Decode { field: "signature", source: arbitrary() }),
                    Some(sb) => if sb.len() != 64 {
                        Err(VerificationError::BadSignatureLength(sb.len() as usize))
                    } else if !ed25519_accepts(pk, digest, sb) {
                        Err(VerificationError::SignatureMismatch)
                    } else if trusted.contains(sig.public_key@) {
                        Ok(VerificationStatus::Trusted { public_key_b64: sig.public_key, signed_by: sig.signed_by })
                    } else {
                        Ok(VerificationStatus::ValidButUntrusted { public_key_b64: sig.public_key })
                    },
                }
            },
        }
    }
}

/// The two outcomes agree, except for the text of a base64 decoder's message.
pub open spec fn same_outcome(a: Result<VerificationStatus, VerificationError>, b: Result<VerificationStatus, VerificationError>) -> bool {
    match (a, b) {
        (
            Err(VerificationError::Base64Decode { field: f1, .. }),
            Err(VerificationError::Base64Decode { field: f2, .. }),
        ) => f1 == f2,
        _ => a == b,
    }
}

/// Verifies a signed extension whose canonical serialization hashes to `digest`, against the
/// keyring.
pub fn verify_digest(signed: &SignedExtension, digest: &[u8; 32], trustdb: &Trustdb) -> (r: Result<
    VerificationStatus,
    VerificationError,
>)
    ensures
        same_outcome(r, verification_outcome(*signed, digest@, trustdb@)),
{
    let sig = &signed.signature;
    let alg = "ed25519";
    proof {
        reveal_strlit("ed25519");
    }
    if !str_eq(sig.algorithm.as_str(), alg) {
        return Err(VerificationError::UnknownAlgorithm(sig.algorithm.clone()));
    }
    let pk = match base64_decode(sig.public_key.as_str()) {
        Ok(v) => v,
        Err(m) => {
            return Err(
                VerificationError::Base64Decode {
                    field: "public_key",
                    source: base64_error::Base64DecodeError(m),
                },
            );
        },
    };
    if pk.len() != 32 {
        return Err(VerificationError::BadPublicKeyLength(pk.len()));
    }
    let pk_arr = array32(&pk);
    if !key_decodes(&pk_arr) {
        return Err(VerificationError::SignatureMismatch);
    }
    let sb = match base64_decode(sig.signature.as_str()) {
        Ok(v) => v,
        Err(m) => {
            return Err(
                VerificationError::Base64Decode {
                    field: "signature",
                    source: base64_error::Base64DecodeError(m),
                },
            );
        },
    };
    if sb.len() != 64 {
        return Err(VerificationError::BadSignatureLength(sb.len()));
    }
    let sig_arr = array64(&sb);
    if !ed25519_verify(&pk_arr, digest, &sig_arr) {
        return Err(VerificationError::SignatureMismatch);
    }
    let pk_b64 = sig.public_key.clone();
    if trustdb.is_trusted(pk_b64.as_str()) {
        Ok(VerificationStatus::Trusted { public_key_b64: pk_b64, signed_by: sig.signed_by.clone() })
    } else {
        Ok(VerificationStatus::ValidButUntrusted { public_key_b64: pk_b64 })
    }
}

// ─── signing ─────────────────────────────────────────────────────

/// The Ed25519 public key, compressed to 32 bytes, of the signing key a 32-byte seed gives.
pub uninterp spec fn ed25519_public(seed: Seq<u8>) -> Seq<u8>;

/// The 64-byte Ed25519 signature the key of a 32-byte seed makes of a message.
pub uninterp spec fn ed25519_signature(seed: Seq<u8>, message: Seq<u8>) -> Seq<u8>;

/// The standard base64 text, with padding, of some bytes.
pub uninterp spec fn base64_encoded(bytes: Seq<u8>) -> Seq<char>;

/// `ed25519_dalek::SigningKey::from_bytes(seed).verifying_key().to_bytes()`. Claimed: the bytes
/// are `ed25519_public` of the seed, and, being a key's own compressed point, they decode back
/// to a key.
#[verifier::external_body]
fn ed25519_public_key(seed: &[u8; 32]) -> (r: [u8; 32])
    ensures
        r@ == ed25519_public(seed@),
        ed25519_key_decodes(r@),
{
    ed25519_dalek::SigningKey::from_bytes(seed).verifying_key().to_bytes()
}

/// `ed25519_dalek::SigningKey::from_bytes(seed).sign(message).to_bytes()`. Claimed: the bytes
/// are `ed25519_signature` of the seed and the message, and the signature verifies for that
/// message under the seed's public key.
#[verifier::external_body]
fn ed25519_sign(seed: &[u8; 32], message: &[u8]) -> (r: [u8; 64])
    ensures
        r@ == ed25519_signature(seed@, message@),
        ed25519_accepts(ed25519_public(seed@), message@, r@),
{
    ed25519_dalek::SigningKey::from_bytes(seed).sign(message).to_bytes()
}

/// `base64::engine::general_purpose::STANDARD.encode`. Claimed: the text is `base64_encoded` of
/// the bytes, and the same engine decodes it back to those bytes.
#[verifier::external_body]
fn base64_encode(bytes: &[u8]) -> (r: String)
    ensures
        r@ == base64_encoded(bytes@),
        base64_decoded(r@) == Some(bytes@),
{
    base64::engine::general_purpose::STANDARD.encode(bytes)
}

/// Signs a canonical digest with the key of a 32-byte seed: algorithm `ed25519`, the public key
/// and the signature in standard base64, no author or time. Whatever spec it is attached to, the
/// bundle verifies against that digest: trusted when the keyring holds its public key, valid
/// but untrusted otherwise.
pub fn sign_digest(seed: &[u8; 32], digest: &[u8; 32]) -> (r: SignatureBundle)
    ensures
        r.algorithm@ == "ed25519"@,
        r.public_key@ == base64_encoded(ed25519_public(seed@)),
        r.signature@ == base64_encoded(ed25519_signature(seed@, digest@)),
        r.signed_by is None,
        r.signed_at is None,
        forall|spec: ExtensionSpec, trusted: Seq<Seq<char>>|
            #![trigger verification_outcome((SignedExtension { spec: spec, signature: r }), digest@, trusted)]
            verification_outcome((SignedExtension { spec: spec, signature: r }), digest@, trusted) == if trusted.contains(
                r.public_key@,
            ) {
                Ok::<VerificationStatus, VerificationError>(
                    (VerificationStatus::Trusted { public_key_b64: r.public_key, signed_by: None }),
                )
            } else {
                Ok::<VerificationStatus, VerificationError>(
                    (VerificationStatus::ValidButUntrusted { public_key_b64: r.public_key }),
                )
            },
{
    let pk = ed25519_public_key(seed);
    let sg = ed25519_sign(seed, digest);
    let public_key = base64_encode(&pk);
    let signature = base64_encode(&sg);
    let alg = "ed25519";
    proof {
        reveal_strlit("ed25519");
    }
    SignatureBundle {
        algorithm: alg.to_string(),
        public_key,
        signature,
        signed_by: None,
        signed_at: None,
    }
}

} // verus!
