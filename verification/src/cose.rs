//! Bounded COSE_Sign1 Ed25519 envelopes for protocol objects.
//!
//! A small profile, not a general COSE parser: the envelope is CBOR tag 18
//! around a four-element array, the protected header is exactly algorithm
//! EdDSA, a content type and an 8- to 32-byte key ID, the unprotected header
//! is empty, and payloads are never detached. The CBOR profile itself carries
//! no tags, so the one admitted tag head, the byte `0xd2`, is written and
//! checked here around the profile's encoding of the array.

use vstd::prelude::*;
use vstd::string::*;
use ed25519_dalek::Signer as DalekSigner;
use ed25519_dalek::Verifier as DalekVerifier;
use crate::cbor::{
    decode, encode, lemma_pair_models, pair_models, spec_decode, spec_encode, Cbor, CborValue,
    DecodeError, EncodeError,
};
use crate::digest::{domain_label, Domain};
use crate::cbor_laws::{canonical_form, canonical_items, canonical_pairs, lemma_decode_then_encode, lemma_encode_then_decode};
use crate::field_laws::{lemma_same_fields_encode, same_encoding};
use crate::fields::{lookup, spec_fields, FieldSeq};
use crate::map_laws::{
    canonical_option, distinct_keys, lemma_canonical_fields, lemma_fields_of_distinct, lemma_fields_of_shape,
    lemma_lookup_present,
};

verus! {

/// The tag head byte of a COSE_Sign1 envelope (tag 18).
pub const SIGN1_TAG_BYTE: u8 = 0xd2;

/// Why an envelope or key is refused.
#[derive(Debug, Clone, Copy, PartialEq, Eq)]
pub enum CoseError {
    Cbor(DecodeError),
    Encode(EncodeError),
    NotSign1,
    InvalidStructure,
    InvalidProtectedHeader,
    UnprotectedHeaderPresent,
    UnsupportedAlgorithm,
    InvalidKid,
    ContentTypeMismatch,
    InvalidSignatureLength,
    InvalidSignature,
    KeyRoleMismatch,
    KeyOutsideValidity,
}

/// A root-controlled key purpose.
#[derive(Debug, Clone, Copy, PartialEq, Eq, Structural)]
pub enum KeyRole {
    Broker,
    ServiceRoot,
    DecisionProof,
    Revocation,
    Enrollment,
}

/// The public key of an Ed25519 secret key.
pub uninterp spec fn ed25519_public(secret: Seq<u8>) -> Seq<u8>;

/// The Ed25519 signature of a message under a secret key.
pub uninterp spec fn ed25519_signature(secret: Seq<u8>, message: Seq<u8>) -> Seq<u8>;

/// Whether Ed25519 verification accepts a signature on a message.
pub uninterp spec fn ed25519_accepts(public_key: Seq<u8>, message: Seq<u8>, signature: Seq<u8>) -> bool;

/// The public key of `ed25519_dalek::SigningKey::from_bytes(secret)`, as
/// `verifying_key().to_bytes()` gives it. Claimed: it is the Ed25519 public
/// key of the secret key.
#[verifier::external_body]
pub(crate) fn ed25519_public_key(secret: &[u8; 32]) -> (r: [u8; 32])
    ensures
        r@ == ed25519_public(secret@),
{
    ed25519_dalek::SigningKey::from_bytes(secret).verifying_key().to_bytes()
}

/// Signs with `ed25519_dalek::SigningKey::sign` on the key made by
/// `SigningKey::from_bytes`. Claimed: the signature is the deterministic
/// Ed25519 signature of the message, and verification under the key's own
/// public key accepts it.
#[verifier::external_body]
fn ed25519_sign(secret: &[u8; 32], message: &[u8]) -> (r: [u8; 64])
    ensures
        r@ == ed25519_signature(secret@, message@),
        ed25519_accepts(ed25519_public(secret@), message@, r@),
{
    ed25519_dalek::SigningKey::from_bytes(secret).sign(message).to_bytes()
}

/// Verifies with `ed25519_dalek::VerifyingKey::verify` after
/// `VerifyingKey::from_bytes`; bytes that are no public key are refused.
#[verifier::external_body]
fn ed25519_verify(public_key: &[u8; 32], message: &[u8], signature: &[u8; 64]) -> (r: bool)
    ensures
        r == ed25519_accepts(public_key@, message@, signature@),
{
    match ed25519_dalek::VerifyingKey::from_bytes(public_key) {
        Ok(key) => key.verify(message, &ed25519_dalek::Signature::from_bytes(signature)).is_ok(),
        Err(_) => false,
    }
}

/// Trusted key material; `not_after_utc` is exclusive.
#[derive(Debug, Clone)]
pub struct VerificationKey {
    pub kid: Vec<u8>,
    /// The Ed25519 public key's 32 bytes.
    pub public_key: [u8; 32],
    pub not_before_utc: i64,
    pub not_after_utc: i64,
    pub roles: Vec<KeyRole>,
}

impl VerificationKey {
    pub fn new(
        kid: Vec<u8>,
        public_key: [u8; 32],
        not_before_utc: i64,
        not_after_utc: i64,
        roles: Vec<KeyRole>,
    ) -> (r: Result<VerificationKey, CoseError>)
        ensures
            !(8 <= kid@.len() <= 32) ==> r == Err::<VerificationKey, CoseError>(CoseError::InvalidKid),
            8 <= kid@.len() <= 32 && (not_after_utc <= not_before_utc || roles@.len() == 0)
                ==> r == Err::<VerificationKey, CoseError>(CoseError::KeyOutsideValidity),
            8 <= kid@.len() <= 32 && not_after_utc > not_before_utc && roles@.len() > 0 ==> (r matches Ok(k)
                && k.kid@ == kid@ && k.public_key@ == public_key@ && k.not_before_utc == not_before_utc
                && k.not_after_utc == not_after_utc && k.roles@ == roles@),
    {
        validate_kid(kid.as_slice())?;
        if not_after_utc <= not_before_utc || roles.len() == 0 {
            return Err(CoseError::KeyOutsideValidity);
        }
        Ok(VerificationKey { kid, public_key, not_before_utc, not_after_utc, roles })
    }

    /// The verification key of an Ed25519 secret key: [`Self::new`] with the
    /// secret key's public key.
    pub fn for_signing_key(
        kid: Vec<u8>,
        signing_key: &[u8; 32],
        not_before_utc: i64,
        not_after_utc: i64,
        roles: Vec<KeyRole>,
    ) -> (r: Result<VerificationKey, CoseError>)
        ensures
            !(8 <= kid@.len() <= 32) ==> r == Err::<VerificationKey, CoseError>(CoseError::InvalidKid),
            8 <= kid@.len() <= 32 && (not_after_utc <= not_before_utc || roles@.len() == 0)
                ==> r == Err::<VerificationKey, CoseError>(CoseError::KeyOutsideValidity),
            8 <= kid@.len() <= 32 && not_after_utc > not_before_utc && roles@.len() > 0 ==> (r matches Ok(k)
                && k.kid@ == kid@ && k.public_key@ == ed25519_public(signing_key@) && k.not_before_utc == not_before_utc
                && k.not_after_utc == not_after_utc && k.roles@ == roles@),
    {
        let public_key = ed25519_public_key(signing_key);
        Self::new(kid, public_key, not_before_utc, not_after_utc, roles)
    }

    /// Whether the key may sign for `role` at `now_utc`.
    pub open spec fn spec_permits(&self, role: KeyRole, now_utc: i64) -> Result<(), CoseError> {
        if !self.roles@.contains(role) {
            Err(CoseError::KeyRoleMismatch)
        } else if now_utc < self.not_before_utc || now_utc >= self.not_after_utc {
            Err(CoseError::KeyOutsideValidity)
        } else {
            Ok(())
        }
    }

    fn permits(&self, role: KeyRole, now_utc: i64) -> (r: Result<(), CoseError>)
        ensures
            r == self.spec_permits(role, now_utc),
    {
        let mut i: usize = 0;
        let mut found = false;
        while i < self.roles.len()
            invariant
                i <= self.roles@.len(),
                found <==> exists|j: int| 0 <= j < i && self.roles@[j] == role,
            decreases self.roles@.len() - i,
        {
            if self.roles[i] == role {
                found = true;
            }
            i = i + 1;
        }
        if !found {
            return Err(CoseError::KeyRoleMismatch);
        }
        if now_utc < self.not_before_utc || now_utc >= self.not_after_utc {
            return Err(CoseError::KeyOutsideValidity);
        }
        Ok(())
    }
}

/// The caller's verification policy: exact content type, domain and role.
#[derive(Debug, Clone, Copy, PartialEq, Eq)]
pub struct VerificationPolicy {
    pub content_type: u64,
    pub domain: Domain,
    pub required_role: KeyRole,
    pub now_utc: i64,
}

/// A decoded or freshly signed envelope.
#[derive(Debug, Clone, PartialEq, Eq)]
pub struct CoseSign1 {
    pub kid: Vec<u8>,
    pub content_type: u64,
    pub payload: Vec<u8>,
    pub signature: [u8; 64],
    protected: Vec<u8>,
}

/// The model of an envelope: its key ID, content type, payload, signature
/// and protected header bytes.
pub struct Sign1Model {
    pub kid: Seq<u8>,
    pub content_type: u64,
    pub payload: Seq<u8>,
    pub signature: Seq<u8>,
    pub protected: Seq<u8>,
}

impl View for CoseSign1 {
    type V = Sign1Model;

    closed spec fn view(&self) -> Sign1Model {
        Sign1Model {
            kid: self.kid@,
            content_type: self.content_type,
            payload: self.payload@,
            signature: self.signature@,
            protected: self.protected@,
        }
    }
}

/// The protected header map.
pub open spec fn protected_map(kid: Seq<u8>, content_type: u64) -> Cbor {
    Cbor::Entries(Seq::empty()
        .push((Cbor::Unsigned(1), Cbor::Negative(-8i64)))
        .push((Cbor::Unsigned(3), Cbor::Unsigned(content_type)))
        .push((Cbor::Unsigned(4), Cbor::Bytes(kid))))
}

/// The protected header's bytes, or why they cannot be made.
pub open spec fn spec_protected_bytes(kid: Seq<u8>, content_type: u64) -> Result<Seq<u8>, CoseError> {
    if !(8 <= kid.len() <= 32) {
        Err(CoseError::InvalidKid)
    } else {
        match spec_encode(protected_map(kid, content_type)) {
            Ok(b) => Ok(b),
            Err(e) => Err(CoseError::Encode(e)),
        }
    }
}

/// The RFC 9052 `Signature1` structure with the domain label as external
/// authenticated data.
pub open spec fn signature_value(protected: Seq<u8>, domain: Domain, payload: Seq<u8>) -> Cbor {
    Cbor::Array(Seq::empty()
        .push(Cbor::Text("Signature1"@))
        .push(Cbor::Bytes(protected))
        .push(Cbor::Bytes(domain_label(domain)))
        .push(Cbor::Bytes(payload)))
}

/// The bytes that are signed, or why they cannot be made.
pub open spec fn spec_signature_structure(protected: Seq<u8>, domain: Domain, payload: Seq<u8>) -> Result<Seq<u8>, CoseError> {
    match spec_encode(signature_value(protected, domain, payload)) {
        Ok(b) => Ok(b),
        Err(e) => Err(CoseError::Encode(e)),
    }
}

/// The envelope's array.
pub open spec fn sign1_array(protected: Seq<u8>, payload: Seq<u8>, signature: Seq<u8>) -> Cbor {
    Cbor::Array(Seq::empty()
        .push(Cbor::Bytes(protected))
        .push(Cbor::Entries(Seq::empty()))
        .push(Cbor::Bytes(payload))
        .push(Cbor::Bytes(signature)))
}

/// Whether a protected-header entry has a known label and its value type.
pub open spec fn header_entry_ok(e: (Cbor, Cbor)) -> bool {
    match e.0 {
        Cbor::Unsigned(k) => (k == 1 && e.1 is Negative) || (k == 3 && e.1 is Unsigned) || (k == 4 && e.1 is Bytes),
        _ => false,
    }
}

/// The value of the last of the first `n` entries with label `k`.
pub open spec fn header_value(es: Seq<(Cbor, Cbor)>, k: u64, n: nat) -> Option<Cbor>
    decreases n,
{
    if n == 0 || n > es.len() {
        None
    } else if es[n - 1].0 == Cbor::Unsigned(k) {
        Some(es[n - 1].1)
    } else {
        header_value(es, k, (n - 1) as nat)
    }
}

/// The key ID and content type of a protected header, or its first error.
pub open spec fn spec_parse_protected(b: Seq<u8>) -> Result<(Seq<u8>, u64), CoseError> {
    match spec_decode(b) {
        Err(e) => Err(CoseError::Cbor(e)),
        Ok(Cbor::Entries(es)) => if es.len() != 3 || !(header_entry_ok(es[0]) && header_entry_ok(es[1]) && header_entry_ok(es[2])) {
            Err(CoseError::InvalidProtectedHeader)
        } else if header_value(es, 1, 3) != Some(Cbor::Negative(-8i64)) {
            Err(CoseError::UnsupportedAlgorithm)
        } else {
            match header_value(es, 4, 3) {
                Some(Cbor::Bytes(kid)) => if !(8 <= kid.len() <= 32) {
                    Err(CoseError::InvalidKid)
                } else {
                    match header_value(es, 3, 3) {
                        Some(Cbor::Unsigned(c)) => Ok((kid, c)),
                        _ => Err(CoseError::InvalidProtectedHeader),
                    }
                },
                _ => Err(CoseError::InvalidProtectedHeader),
            }
        },
        Ok(_) => Err(CoseError::InvalidProtectedHeader),
    }
}

/// The parts of an envelope: key ID, content type, payload, signature and
/// protected header bytes, or the first error in reading order.
pub open spec fn spec_decode_sign1(input: Seq<u8>) -> Result<(Seq<u8>, u64, Seq<u8>, Seq<u8>, Seq<u8>), CoseError> {
    if input.len() == 0 || input[0] != SIGN1_TAG_BYTE {
        match spec_decode(input) {
            Err(e) => Err(CoseError::Cbor(e)),
            Ok(_) => Err(CoseError::NotSign1),
        }
    } else {
        match spec_decode(input.subrange(1, input.len() as int)) {
            Err(e) => Err(CoseError::Cbor(e)),
            Ok(Cbor::Array(items)) => if items.len() != 4 {
                Err(CoseError::InvalidStructure)
            } else {
                match items[0] {
                    Cbor::Bytes(protected) => match items[1] {
                        Cbor::Entries(unprotected) => if unprotected.len() != 0 {
                            Err(CoseError::UnprotectedHeaderPresent)
                        } else {
                            match items[2] {
                                Cbor::Bytes(payload) => match items[3] {
                                    Cbor::Bytes(signature) => if signature.len() != 64 {
                                        Err(CoseError::InvalidSignatureLength)
                                    } else {
                                        match spec_parse_protected(protected) {
                                            Err(e) => Err(e),
                                            Ok((kid, ct)) => Ok((kid, ct, payload, signature, protected)),
                                        }
                                    },
                                    _ => Err(CoseError::InvalidStructure),
                                },
                                _ => Err(CoseError::InvalidStructure),
                            }
                        },
                        _ => Err(CoseError::InvalidStructure),
                    },
                    _ => Err(CoseError::InvalidStructure),
                }
            },
            Ok(_) => Err(CoseError::InvalidStructure),
        }
    }
}

fn validate_kid(kid: &[u8]) -> (r: Result<(), CoseError>)
    ensures
        r == (if 8 <= kid@.len() <= 32 { Ok::<(), CoseError>(()) } else { Err(CoseError::InvalidKid) }),
{
    if kid.len() < 8 || kid.len() > 32 {
        return Err(CoseError::InvalidKid);
    }
    Ok(())
}

fn protected_bytes(kid: &[u8], content_type: u64) -> (r: Result<Vec<u8>, CoseError>)
    ensures
        match spec_protected_bytes(kid@, content_type) {
            Ok(b) => r matches Ok(v) && v@ == b,
            Err(e) => r == Err::<Vec<u8>, CoseError>(e),
        },
{
    validate_kid(kid)?;
    let mut e: Vec<(CborValue, CborValue)> = Vec::new();
    crate::fields::push_field(&mut e, 1, CborValue::Negative(-8));
    crate::fields::push_field(&mut e, 3, CborValue::Unsigned(content_type));
    crate::fields::push_field(&mut e, 4, crate::fields::bytes(kid));
    proof {
        assert(pair_models(Seq::<(CborValue, CborValue)>::empty()) =~= Seq::<(Cbor, Cbor)>::empty());
    }
    match encode(&CborValue::Entries(e)) {
        Ok(b) => Ok(b),
        Err(err) => Err(CoseError::Encode(err)),
    }
}

/// Appends an item to an array under construction.
fn push_item(items: &mut Vec<CborValue>, value: CborValue)
    ensures
        crate::cbor::models(final(items)@) == crate::cbor::models(old(items)@).push(value@),
{
    let ghost before = items@;
    let ghost vm = value@;
    items.push(value);
    proof {
        assert(items@.drop_last() =~= before);
        assert(items@[items@.len() - 1]@ == vm);
    }
}

fn signature_structure(protected: &[u8], domain: Domain, payload: &[u8]) -> (r: Result<Vec<u8>, CoseError>)
    ensures
        match spec_signature_structure(protected@, domain, payload@) {
            Ok(b) => r matches Ok(v) && v@ == b,
            Err(e) => r == Err::<Vec<u8>, CoseError>(e),
        },
{
    let mut items: Vec<CborValue> = Vec::new();
    proof {
        assert(crate::cbor::models(items@) =~= Seq::<Cbor>::empty());
    }
    push_item(&mut items, CborValue::Text(String::from_str("Signature1")));
    push_item(&mut items, crate::fields::bytes(protected));
    let label = domain.label();
    push_item(&mut items, crate::fields::bytes(label.as_slice()));
    push_item(&mut items, crate::fields::bytes(payload));
    match encode(&CborValue::Array(items)) {
        Ok(b) => Ok(b),
        Err(e) => Err(CoseError::Encode(e)),
    }
}

fn parse_protected(bytes: &[u8]) -> (r: Result<(Vec<u8>, u64), CoseError>)
    ensures
        match spec_parse_protected(bytes@) {
            Ok((kid, ct)) => r matches Ok((k, c)) && k@ == kid && c == ct,
            Err(e) => r == Err::<(Vec<u8>, u64), CoseError>(e),
        },
{
    let value = match decode(bytes) {
        Ok(v) => v,
        Err(e) => {
            return Err(CoseError::Cbor(e));
        },
    };
    let entries = match value {
        CborValue::Entries(entries) => entries,
        _ => {
            return Err(CoseError::InvalidProtectedHeader);
        },
    };
    let ghost es = pair_models(entries@);
    proof {
        lemma_pair_models(entries@);
        assert(spec_decode(bytes@) == Ok::<Cbor, DecodeError>(Cbor::Entries(es)));
    }
    if entries.len() != 3 {
        return Err(CoseError::InvalidProtectedHeader);
    }
    let mut algorithm: Option<i64> = None;
    let mut content_type: Option<u64> = None;
    let mut kid: Option<Vec<u8>> = None;
    let mut i: usize = 0;
    while i < 3
        invariant
            spec_decode(bytes@) == Ok::<Cbor, DecodeError>(Cbor::Entries(es)),
            entries@.len() == 3,
            es == pair_models(entries@),
            es.len() == 3,
            forall|j: int| 0 <= j < 3 ==> #[trigger] es[j] == (entries@[j].0@, entries@[j].1@),
            i <= 3,
            forall|j: int| 0 <= j < i ==> header_entry_ok(#[trigger] es[j]),
            match algorithm { Some(a) => header_value(es, 1, i as nat) == Some(Cbor::Negative(a)), None => header_value(es, 1, i as nat) is None },
            match content_type { Some(c) => header_value(es, 3, i as nat) == Some(Cbor::Unsigned(c)), None => header_value(es, 3, i as nat) is None },
            match kid { Some(k) => header_value(es, 4, i as nat) == Some(Cbor::Bytes(k@)), None => header_value(es, 4, i as nat) is None },
        decreases 3 - i,
    {
        let key = match &entries[i].0 {
            CborValue::Unsigned(k) => *k,
            _ => {
                return Err(CoseError::InvalidProtectedHeader);
            },
        };
        match &entries[i].1 {
            CborValue::Negative(v) => {
                if key != 1 {
                    return Err(CoseError::InvalidProtectedHeader);
                }
                algorithm = Some(*v);
            },
            CborValue::Unsigned(v) => {
                if key != 3 {
                    return Err(CoseError::InvalidProtectedHeader);
                }
                content_type = Some(*v);
            },
            CborValue::Bytes(v) => {
                if key != 4 {
                    return Err(CoseError::InvalidProtectedHeader);
                }
                kid = Some(crate::cbor::copy_bytes(v.as_slice()));
            },
            _ => {
                return Err(CoseError::InvalidProtectedHeader);
            },
        }
        i = i + 1;
    }
    match algorithm {
        Some(a) => {
            if a != -8 {
                return Err(CoseError::UnsupportedAlgorithm);
            }
        },
        None => {
            return Err(CoseError::UnsupportedAlgorithm);
        },
    }
    let kid = match kid {
        Some(k) => k,
        None => {
            return Err(CoseError::InvalidProtectedHeader);
        },
    };
    validate_kid(kid.as_slice())?;
    match content_type {
        Some(c) => Ok((kid, c)),
        None => Err(CoseError::InvalidProtectedHeader),
    }
}

/// Whether a key and policy accept an envelope's parts, or the first reason
/// not: content type, key ID, role and validity, then the signature.
pub open spec fn spec_verify(
    kid: Seq<u8>,
    content_type: u64,
    payload: Seq<u8>,
    signature: Seq<u8>,
    protected: Seq<u8>,
    key: VerificationKey,
    policy: VerificationPolicy,
) -> Result<(), CoseError> {
    if content_type != policy.content_type {
        Err(CoseError::ContentTypeMismatch)
    } else if kid != key.kid@ {
        Err(CoseError::InvalidKid)
    } else {
        match key.spec_permits(policy.required_role, policy.now_utc) {
            Err(e) => Err(e),
            Ok(_) => match spec_signature_structure(protected, policy.domain, payload) {
                Err(e) => Err(e),
                Ok(m) => if ed25519_accepts(key.public_key@, m, signature) { Ok(()) } else { Err(CoseError::InvalidSignature) },
            },
        }
    }
}

impl CoseSign1 {
    /// Whether a key and policy accept this envelope.
    pub open spec fn spec_verifies(&self, key: VerificationKey, policy: VerificationPolicy) -> Result<(), CoseError> {
        spec_verify(self@.kid, self@.content_type, self@.payload, self@.signature, self@.protected, key, policy)
    }

    /// Signs a payload under the exact protected header and the domain label.
    /// A signed envelope verifies under every key holding the signer's public
    /// key and key ID, for the signing role within the key's validity, and
    /// the same content type and domain.
    pub fn sign(payload: Vec<u8>, kid: Vec<u8>, content_type: u64, domain: Domain, signing_key: &[u8; 32]) -> (r: Result<CoseSign1, CoseError>)
        ensures
            match spec_protected_bytes(kid@, content_type) {
                Err(e) => r == Err::<CoseSign1, CoseError>(e),
                Ok(p) => match spec_signature_structure(p, domain, payload@) {
                    Err(e) => r == Err::<CoseSign1, CoseError>(e),
                    Ok(m) => r matches Ok(s) && s@.kid == kid@ && s@.content_type == content_type && s@.payload == payload@
                        && s@.protected == p && s@.signature == ed25519_signature(signing_key@, m),
                },
            },
            r matches Ok(s) ==> forall|key: VerificationKey, policy: VerificationPolicy|
                key.kid@ == kid@ && key.public_key@ == ed25519_public(signing_key@)
                && policy.content_type == content_type && policy.domain == domain
                && key.spec_permits(policy.required_role, policy.now_utc) is Ok
                ==> #[trigger] s.spec_verifies(key, policy) is Ok,
    {
        let protected = protected_bytes(kid.as_slice(), content_type)?;
        let message = signature_structure(protected.as_slice(), domain, payload.as_slice())?;
        let signature = ed25519_sign(signing_key, message.as_slice());
        Ok(CoseSign1 { kid, content_type, payload, signature, protected })
    }

    /// Reads an envelope: the tag, the four-element array, the empty
    /// unprotected header, a 64-byte signature and the exact protected header.
    pub fn decode(input: &[u8]) -> (r: Result<CoseSign1, CoseError>)
        ensures
            match spec_decode_sign1(input@) {
                Ok((kid, ct, payload, signature, protected)) => r matches Ok(s) && s@.kid == kid && s@.content_type == ct
                    && s@.payload == payload && s@.signature == signature && s@.protected == protected,
                Err(e) => r == Err::<CoseSign1, CoseError>(e),
            },
    {
        if input.len() == 0 || input[0] != SIGN1_TAG_BYTE {
            return match decode(input) {
                Err(e) => Err(CoseError::Cbor(e)),
                Ok(_) => Err(CoseError::NotSign1),
            };
        }
        let value = match decode(vstd::slice::slice_subrange(input, 1, input.len())) {
            Ok(v) => v,
            Err(e) => {
                return Err(CoseError::Cbor(e));
            },
        };
        let values = match value {
            CborValue::Array(values) => values,
            _ => {
                return Err(CoseError::InvalidStructure);
            },
        };
        proof {
            crate::cbor::lemma_models(values@);
        }
        if values.len() != 4 {
            return Err(CoseError::InvalidStructure);
        }
        let protected = match &values[0] {
            CborValue::Bytes(b) => crate::cbor::copy_bytes(b.as_slice()),
            _ => {
                return Err(CoseError::InvalidStructure);
            },
        };
        match &values[1] {
            CborValue::Entries(u) => {
                if u.len() != 0 {
                    return Err(CoseError::UnprotectedHeaderPresent);
                }
                proof {
                    assert(pair_models(u@) =~= Seq::<(Cbor, Cbor)>::empty());
                }
            },
            _ => {
                return Err(CoseError::InvalidStructure);
            },
        }
        let payload = match &values[2] {
            CborValue::Bytes(b) => crate::cbor::copy_bytes(b.as_slice()),
            _ => {
                return Err(CoseError::InvalidStructure);
            },
        };
        let signature: [u8; 64] = match &values[3] {
            CborValue::Bytes(b) => {
                if b.len() != 64 {
                    return Err(CoseError::InvalidSignatureLength);
                }
                crate::ids::copy_array(b.as_slice())
            },
            _ => {
                return Err(CoseError::InvalidStructure);
            },
        };
        let (kid, content_type) = parse_protected(protected.as_slice())?;
        Ok(CoseSign1 { kid, content_type, payload, signature, protected })
    }

    /// The envelope's bytes; a header that disagrees with the exposed key ID
    /// and content type is refused.
    pub fn encode(&self) -> (r: Result<Vec<u8>, CoseError>)
        ensures
            match spec_protected_bytes(self@.kid, self@.content_type) {
                Err(e) => r == Err::<Vec<u8>, CoseError>(e),
                Ok(p) => if self@.protected != p {
                    r == Err::<Vec<u8>, CoseError>(CoseError::InvalidProtectedHeader)
                } else {
                    match spec_encode(sign1_array(p, self@.payload, self@.signature)) {
                        Ok(b) => r matches Ok(v) && v@ == seq![SIGN1_TAG_BYTE] + b,
                        Err(e) => r == Err::<Vec<u8>, CoseError>(CoseError::Encode(e)),
                    }
                },
            },
    {
        let protected = protected_bytes(self.kid.as_slice(), self.content_type)?;
        if !crate::cbor::same_bytes(self.protected.as_slice(), protected.as_slice()) {
            return Err(CoseError::InvalidProtectedHeader);
        }
        let mut items: Vec<CborValue> = Vec::new();
        proof {
            assert(crate::cbor::models(items@) =~= Seq::<Cbor>::empty());
        }
        push_item(&mut items, crate::fields::bytes(protected.as_slice()));
        let mut empty: Vec<(CborValue, CborValue)> = Vec::new();
        proof {
            assert(pair_models(empty@) =~= Seq::<(Cbor, Cbor)>::empty());
        }
        push_item(&mut items, CborValue::Entries(empty));
        push_item(&mut items, crate::fields::bytes(self.payload.as_slice()));
        push_item(&mut items, crate::fields::bytes(self.signature.as_slice()));
        let body = match encode(&CborValue::Array(items)) {
            Ok(b) => b,
            Err(e) => {
                return Err(CoseError::Encode(e));
            },
        };
        let mut out: Vec<u8> = Vec::new();
        out.push(SIGN1_TAG_BYTE);
        crate::cbor::append_bytes(&mut out, body.as_slice());
        Ok(out)
    }

    /// Checks content type, key ID, role, validity and the Ed25519 signature
    /// before returning the payload bytes.
    pub fn verify(&self, key: &VerificationKey, policy: VerificationPolicy) -> (r: Result<Vec<u8>, CoseError>)
        ensures
            match self.spec_verifies(*key, policy) {
                Ok(_) => r matches Ok(p) && p@ == self@.payload,
                Err(e) => r == Err::<Vec<u8>, CoseError>(e),
            },
    {
        if self.content_type != policy.content_type {
            return Err(CoseError::ContentTypeMismatch);
        }
        if !crate::cbor::same_bytes(self.kid.as_slice(), key.kid.as_slice()) {
            return Err(CoseError::InvalidKid);
        }
        key.permits(policy.required_role, policy.now_utc)?;
        let message = signature_structure(self.protected.as_slice(), policy.domain, self.payload.as_slice())?;
        if ed25519_verify(&key.public_key, message.as_slice(), &self.signature) {
            Ok(crate::cbor::copy_bytes(self.payload.as_slice()))
        } else {
            Err(CoseError::InvalidSignature)
        }
    }
}

/// The fields of the protected header map.
pub open spec fn protected_fields(kid: Seq<u8>, content_type: u64) -> FieldSeq {
    Seq::empty()
        .push((1u64, Cbor::Negative(-8i64)))
        .push((3u64, Cbor::Unsigned(content_type)))
        .push((4u64, Cbor::Bytes(kid)))
}

proof fn lemma_header_value(es: Seq<(Cbor, Cbor)>, fs: FieldSeq, k: u64, n: nat)
    requires
        n <= es.len(),
        n <= fs.len(),
        forall|i: int| 0 <= i < n ==> #[trigger] es[i] == (Cbor::Unsigned(fs[i].0), fs[i].1),
    ensures
        header_value(es, k, n) == lookup(fs.subrange(0, n as int), k),
    decreases n,
{
    if n > 0 {
        lemma_header_value(es, fs, k, (n - 1) as nat);
        let t = fs.subrange(0, n as int);
        assert(t.drop_last() =~= fs.subrange(0, n - 1));
        assert(t.last() == fs[n - 1]);
    }
}

/// The exact protected header parses back to its key ID and content type.
#[verifier::rlimit(40)]
pub proof fn lemma_protected_round_trip(kid: Seq<u8>, content_type: u64)
    requires
        spec_protected_bytes(kid, content_type) is Ok,
    ensures
        spec_parse_protected(spec_protected_bytes(kid, content_type)->Ok_0) == Ok::<(Seq<u8>, u64), CoseError>((kid, content_type)),
{
    let pm = protected_map(kid, content_type);
    let fl = protected_fields(kid, content_type);
    lemma_encode_then_decode(pm);
    let es = pm->Entries_0;
    assert forall|i: int| 0 <= i < fl.len() implies #[trigger] es[i] == (Cbor::Unsigned(fl[i].0), fl[i].1) by {
    }
    assert(distinct_keys(fl));
    lemma_fields_of_distinct(es, fl, 3);
    assert(fl.subrange(0, 3) =~= fl);
    lemma_canonical_fields(pm);
    let ce = canonical_form(pm)->Entries_0;
    let cfs = spec_fields(canonical_form(pm))->Ok_0;
    lemma_fields_of_shape(ce, ce.len());
    lemma_lookup_present(fl, 0);
    lemma_lookup_present(fl, 1);
    lemma_lookup_present(fl, 2);
    assert(lookup(cfs, 1) == canonical_option(lookup(fl, 1)));
    assert(lookup(cfs, 3) == canonical_option(lookup(fl, 3)));
    assert(lookup(cfs, 4) == canonical_option(lookup(fl, 4)));
    assert(ce.len() == 3) by {
        crate::cbor::lemma_key_encodings_len(es, 3);
        crate::cbor_laws::lemma_key_order_range(crate::cbor::spec_key_encodings(es, 3)->Ok_0, 3);
        crate::map_laws::lemma_canonical_pairs_index(es, crate::cbor::key_order(crate::cbor::spec_key_encodings(es, 3)->Ok_0, 3), 3);
    }
    assert forall|i: int| 0 <= i < 3 implies header_entry_ok(#[trigger] ce[i]) by {
        let j = choose|j: int| 0 <= j < fl.len() && cfs[i].0 == fl[j].0;
        lemma_lookup_present(cfs, i);
        assert(lookup(cfs, cfs[i].0) == canonical_option(lookup(fl, cfs[i].0)));
    }
    lemma_header_value(ce, cfs, 1, 3);
    lemma_header_value(ce, cfs, 3, 3);
    lemma_header_value(ce, cfs, 4, 3);
    assert(cfs.subrange(0, 3) =~= cfs);
}

/// Decoding an envelope's encoding gives back its key ID, content type,
/// payload, signature and protected header.
pub proof fn lemma_sign1_round_trip(kid: Seq<u8>, content_type: u64, payload: Seq<u8>, signature: Seq<u8>)
    requires
        spec_protected_bytes(kid, content_type) is Ok,
        signature.len() == 64,
        spec_encode(sign1_array(spec_protected_bytes(kid, content_type)->Ok_0, payload, signature)) is Ok,
    ensures
        spec_decode_sign1(seq![SIGN1_TAG_BYTE]
            + spec_encode(sign1_array(spec_protected_bytes(kid, content_type)->Ok_0, payload, signature))->Ok_0)
            == Ok::<(Seq<u8>, u64, Seq<u8>, Seq<u8>, Seq<u8>), CoseError>(
                (kid, content_type, payload, signature, spec_protected_bytes(kid, content_type)->Ok_0)),
{
    let p = spec_protected_bytes(kid, content_type)->Ok_0;
    let arr = sign1_array(p, payload, signature);
    let b = spec_encode(arr)->Ok_0;
    let input = seq![SIGN1_TAG_BYTE] + b;
    assert(input.subrange(1, input.len() as int) =~= b);
    lemma_encode_then_decode(arr);
    let items = arr->Array_0;
    let empty = Seq::<(Cbor, Cbor)>::empty();
    assert(crate::cbor::spec_key_encodings(empty, 0) == Ok::<Seq<Seq<u8>>, EncodeError>(Seq::empty()));
    assert(canonical_form(Cbor::Entries(empty)) == Cbor::Entries(empty)) by {
        assert(canonical_pairs(empty, crate::cbor::key_order(Seq::empty(), 0), 0) =~= empty);
    }
    assert(canonical_form(arr) == arr) by {
        reveal_with_fuel(crate::cbor_laws::canonical_items, 5);
        assert(crate::cbor_laws::canonical_items(items, 4) =~= items);
    }
    lemma_protected_round_trip(kid, content_type);
}

/// The signed bytes bind the protected header, the domain and the payload:
/// two signature structures that differ in any of them are different bytes.
pub proof fn lemma_signature_structure_binds(p1: Seq<u8>, d1: Domain, m1: Seq<u8>, p2: Seq<u8>, d2: Domain, m2: Seq<u8>)
    requires
        spec_signature_structure(p1, d1, m1) is Ok,
        spec_signature_structure(p2, d2, m2) is Ok,
        p1 != p2 || d1 != d2 || m1 != m2,
    ensures
        spec_signature_structure(p1, d1, m1) != spec_signature_structure(p2, d2, m2),
{
    let v1 = signature_value(p1, d1, m1);
    let v2 = signature_value(p2, d2, m2);
    if spec_signature_structure(p1, d1, m1) == spec_signature_structure(p2, d2, m2) {
        lemma_encode_then_decode(v1);
        lemma_encode_then_decode(v2);
        let i1 = v1->Array_0;
        let i2 = v2->Array_0;
        reveal_with_fuel(canonical_items, 5);
        assert(canonical_items(i1, 4) =~= i1);
        assert(canonical_items(i2, 4) =~= i2);
        assert(i1 == i2);
        assert(i1[1] == i2[1] && i1[2] == i2[2] && i1[3] == i2[3]);
        if d1 != d2 {
            crate::digest::lemma_domain_labels_distinct(d1, d2);
        }
    }
}

/// A protected header the parser accepts is exactly the header made from
/// the key ID and content type read from it.
pub proof fn lemma_accepted_protected(b: Seq<u8>)
    requires
        spec_parse_protected(b) is Ok,
    ensures
        spec_protected_bytes(spec_parse_protected(b)->Ok_0.0, spec_parse_protected(b)->Ok_0.1) == Ok::<Seq<u8>, CoseError>(b),
{
    let kid = spec_parse_protected(b)->Ok_0.0;
    let ct = spec_parse_protected(b)->Ok_0.1;
    let c = spec_decode(b)->Ok_0;
    let es = c->Entries_0;
    lemma_decode_then_encode(b);
    let keys = crate::cbor::spec_key_encodings(es, 3)->Ok_0;
    crate::order_laws::lemma_key_encodings_index(es, 3);
    let fs = Seq::new(3, |i: int| (es[i].0->Unsigned_0, es[i].1));
    assert forall|i: int| 0 <= i < 3 implies #[trigger] es[i] == (Cbor::Unsigned(fs[i].0), fs[i].1) by {
        assert(header_entry_ok(es[i]));
    }
    assert(distinct_keys(fs)) by {
        assert forall|i: int, j: int| 0 <= i < j < fs.len() implies fs[i].0 != fs[j].0 by {
            if fs[i].0 == fs[j].0 {
                assert(es[i].0 == es[j].0);
                assert(keys[i] == keys[j]);
                assert(crate::cbor::has_duplicate(keys));
            }
        }
    }
    lemma_fields_of_distinct(es, fs, 3);
    assert(fs.subrange(0, 3) =~= fs);
    lemma_header_value(es, fs, 1, 3);
    lemma_header_value(es, fs, 3, 3);
    lemma_header_value(es, fs, 4, 3);
    let pm = protected_map(kid, ct);
    let fl = protected_fields(kid, ct);
    let pe = pm->Entries_0;
    assert forall|i: int| 0 <= i < fl.len() implies #[trigger] pe[i] == (Cbor::Unsigned(fl[i].0), fl[i].1) by {
    }
    assert(distinct_keys(fl));
    lemma_fields_of_distinct(pe, fl, 3);
    assert(fl.subrange(0, 3) =~= fl);
    lemma_lookup_present(fl, 0);
    lemma_lookup_present(fl, 1);
    lemma_lookup_present(fl, 2);
    assert forall|k: u64| #[trigger] same_encoding(lookup(fs, k), lookup(fl, k)) by {
        if k != 1 && k != 3 && k != 4 {
            assert forall|i: int| 0 <= i < fs.len() implies fs[i].0 != k by {
                assert(header_entry_ok(es[i]));
            }
            crate::map_laws::lemma_lookup_absent(fs, k);
            assert forall|i: int| 0 <= i < fl.len() implies fl[i].0 != k by {}
            crate::map_laws::lemma_lookup_absent(fl, k);
        }
    }
    lemma_same_fields_encode(c, pm);
}

/// An envelope the decoder accepts is exactly the tag followed by the
/// encoding of the envelope array made from what was read, and its protected
/// header is the one made from the key ID and content type read.
pub proof fn lemma_accepted_sign1(input: Seq<u8>)
    requires
        spec_decode_sign1(input) is Ok,
    ensures
        ({
            let (kid, ct, payload, signature, protected) = spec_decode_sign1(input)->Ok_0;
            &&& spec_protected_bytes(kid, ct) == Ok::<Seq<u8>, CoseError>(protected)
            &&& spec_encode(sign1_array(protected, payload, signature)) is Ok
            &&& input == seq![SIGN1_TAG_BYTE] + spec_encode(sign1_array(protected, payload, signature))->Ok_0
        }),
{
    let (kid, ct, payload, signature, protected) = spec_decode_sign1(input)->Ok_0;
    let rest = input.subrange(1, input.len() as int);
    let c = spec_decode(rest)->Ok_0;
    lemma_decode_then_encode(rest);
    lemma_accepted_protected(protected);
    let items = c->Array_0;
    let arr = sign1_array(protected, payload, signature);
    assert(items[1] == Cbor::Entries(Seq::<(Cbor, Cbor)>::empty())) by {
        assert(items[1]->Entries_0 =~= Seq::<(Cbor, Cbor)>::empty());
    }
    assert(items =~= arr->Array_0);
    assert(c == arr);
    assert(input =~= seq![SIGN1_TAG_BYTE] + rest);
}

} // verus!
