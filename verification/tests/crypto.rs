use rootpermit::cose::{CoseError, CoseSign1, KeyRole, VerificationKey, VerificationPolicy};
use rootpermit::digest::Domain;
use rootpermit::ids::{DeviceId, Nonce, RequestId};
use rootpermit::schema::{ApprovalContext, Decision, DecisionSubmission};
use rootpermit::webauthn::{
    verify_submission, LibraryVerifiedAssertion, PinnedCredential, ReviewedWebAuthnVerifier, WebAuthnError,
    ES256_ALGORITHM,
};
use sha2::Digest as _;

fn key() -> [u8; 32] {
    [7; 32]
}

fn verification_key() -> VerificationKey {
    VerificationKey::for_signing_key(vec![9; 8], &key(), 10, 20, vec![KeyRole::Broker]).unwrap()
}

fn policy() -> VerificationPolicy {
    VerificationPolicy { content_type: 1, domain: Domain::Request, required_role: KeyRole::Broker, now_utc: 15 }
}

#[test]
fn sign1_round_trip_binds_payload_and_domain() {
    let envelope = CoseSign1::sign(vec![1, 2, 3], vec![9; 8], 1, Domain::Request, &key()).unwrap();
    let decoded = CoseSign1::decode(&envelope.encode().unwrap()).unwrap();
    assert_eq!(decoded.verify(&verification_key(), policy()).unwrap(), vec![1, 2, 3]);
    assert_eq!(decoded.payload, vec![1, 2, 3]);
    assert_eq!(
        decoded.verify(&verification_key(), VerificationPolicy { domain: Domain::Receipt, ..policy() }),
        Err(CoseError::InvalidSignature)
    );
}

#[test]
fn signing_key_derives_the_dalek_public_key() {
    let public = ed25519_dalek::SigningKey::from_bytes(&key()).verifying_key().to_bytes();
    let derived = VerificationKey::for_signing_key(vec![9; 8], &key(), 10, 20, vec![KeyRole::Broker]).unwrap();
    assert_eq!(derived.public_key, public);
    assert_ne!(derived.public_key, key());
}

#[test]
fn accepted_envelopes_re_encode_exactly() {
    let bytes = CoseSign1::sign(vec![4, 5], vec![9; 8], 1, Domain::Receipt, &key()).unwrap().encode().unwrap();
    let decoded = CoseSign1::decode(&bytes).unwrap();
    assert_eq!(decoded.encode().unwrap(), bytes);
    assert_eq!(bytes[0], 0xd2);
}

#[test]
fn verification_rejects_wrong_role_and_expired_key() {
    let envelope = CoseSign1::sign(vec![], vec![9; 8], 1, Domain::Request, &key()).unwrap();
    assert_eq!(
        envelope.verify(&verification_key(), VerificationPolicy { required_role: KeyRole::Revocation, ..policy() }),
        Err(CoseError::KeyRoleMismatch)
    );
    assert_eq!(
        envelope.verify(&verification_key(), VerificationPolicy { now_utc: 20, ..policy() }),
        Err(CoseError::KeyOutsideValidity)
    );
}

#[test]
fn envelopes_and_keys_are_checked_before_the_signature() {
    let envelope = CoseSign1::sign(vec![5], vec![9; 8], 1, Domain::Request, &key()).unwrap();
    assert_eq!(
        envelope.verify(&verification_key(), VerificationPolicy { content_type: 2, ..policy() }),
        Err(CoseError::ContentTypeMismatch)
    );
    let other = CoseSign1::sign(vec![5], vec![8; 8], 1, Domain::Request, &key()).unwrap();
    assert_eq!(other.verify(&verification_key(), policy()), Err(CoseError::InvalidKid));
    assert_eq!(CoseSign1::sign(vec![], vec![1; 7], 1, Domain::Request, &key()), Err(CoseError::InvalidKid));
    let public = ed25519_dalek::SigningKey::from_bytes(&[8; 32]).verifying_key().to_bytes();
    let wrong_key = VerificationKey::new(vec![9; 8], public, 10, 20, vec![KeyRole::Broker]).unwrap();
    assert_eq!(envelope.verify(&wrong_key, policy()), Err(CoseError::InvalidSignature));
    assert!(matches!(
        VerificationKey::new(vec![9; 8], public, 20, 20, vec![KeyRole::Broker]),
        Err(CoseError::KeyOutsideValidity)
    ));
    assert!(matches!(VerificationKey::new(vec![9; 8], public, 10, 20, vec![]), Err(CoseError::KeyOutsideValidity)));
    assert!(matches!(VerificationKey::new(vec![9; 33], public, 10, 20, vec![KeyRole::Broker]), Err(CoseError::InvalidKid)));
    let bytes = envelope.encode().unwrap();
    assert_eq!(bytes[0], 0xd2);
    assert_eq!(CoseSign1::decode(&bytes[1..]), Err(CoseError::NotSign1));
    let mut tampered = bytes.clone();
    let last = tampered.len() - 1;
    tampered[last] ^= 1;
    let decoded = CoseSign1::decode(&tampered).unwrap();
    assert_eq!(decoded.verify(&verification_key(), policy()), Err(CoseError::InvalidSignature));
}

struct FakeVerifier {
    assertion: LibraryVerifiedAssertion,
}

impl ReviewedWebAuthnVerifier for FakeVerifier {
    fn verify_assertion(
        &self,
        _: &DecisionSubmission,
        _: &PinnedCredential,
    ) -> Result<LibraryVerifiedAssertion, ()> {
        Ok(self.assertion.clone())
    }
}

struct RejectingVerifier;

impl ReviewedWebAuthnVerifier for RejectingVerifier {
    fn verify_assertion(&self, _: &DecisionSubmission, _: &PinnedCredential) -> Result<LibraryVerifiedAssertion, ()> {
        Err(())
    }
}

fn context() -> ApprovalContext {
    ApprovalContext {
        request_id: RequestId::new([1; 16]),
        device_id: DeviceId::new([2; 16]),
        broker_epoch: 3,
        request_digest: [4; 32],
        generation: 5,
        nonce: Nonce::new([6; 32]),
        rp_id: "rootpermit.example".into(),
        origin: "https://rootpermit.example".into(),
        decision: Decision::Approve,
        expires_utc: 7,
    }
}

fn submission(context: ApprovalContext) -> DecisionSubmission {
    DecisionSubmission {
        approval_context: context,
        credential_id: vec![8],
        authenticator_data: vec![1],
        client_data_json: br"{}".to_vec(),
        signature: vec![2],
        user_handle: None,
    }
}

fn credential() -> PinnedCredential {
    PinnedCredential {
        credential_id: vec![8],
        generation: 5,
        quarantined: false,
        cose_algorithm: ES256_ALGORITHM,
        previous_sign_count: 4,
    }
}

fn assertion(context: &ApprovalContext) -> LibraryVerifiedAssertion {
    LibraryVerifiedAssertion {
        credential_id: vec![8],
        client_data_type: "webauthn.get".into(),
        challenge: context.webauthn_challenge().unwrap().to_vec(),
        origin: context.origin.clone(),
        rp_id_hash: sha2::Sha256::digest(context.rp_id.as_bytes()).into(),
        user_present: true,
        user_verified: true,
        cose_algorithm: ES256_ALGORITHM,
        sign_count: 5,
    }
}

#[test]
fn accepts_exact_context_and_reports_counter_anomaly_without_denying() {
    let context = context();
    let result = verify_submission(
        &FakeVerifier { assertion: assertion(&context) },
        &context,
        &[credential()],
        &submission(context.clone()),
    )
    .unwrap();
    assert_eq!(result.decision, Decision::Approve);
    assert!(!result.counter_anomaly);
    let mut anomalous = assertion(&context);
    anomalous.sign_count = 4;
    assert!(
        verify_submission(&FakeVerifier { assertion: anomalous }, &context, &[credential()], &submission(context.clone()))
            .unwrap()
            .counter_anomaly
    );
}

#[test]
fn rejects_wrong_origin_rp_uv_and_unpinned_credential() {
    let context = context();
    let mut bad_origin = assertion(&context);
    bad_origin.origin = "https://attacker.example".into();
    assert_eq!(
        verify_submission(&FakeVerifier { assertion: bad_origin }, &context, &[credential()], &submission(context.clone())),
        Err(WebAuthnError::OriginMismatch)
    );
    let mut no_uv = assertion(&context);
    no_uv.user_verified = false;
    assert_eq!(
        verify_submission(&FakeVerifier { assertion: no_uv }, &context, &[credential()], &submission(context.clone())),
        Err(WebAuthnError::UserVerificationMissing)
    );
    assert_eq!(
        verify_submission(&FakeVerifier { assertion: assertion(&context) }, &context, &[], &submission(context.clone())),
        Err(WebAuthnError::CredentialNotPinned)
    );
}

#[test]
fn context_credential_and_library_outcome_are_each_checked() {
    let context = context();
    let mut other = context.clone();
    other.generation = 6;
    assert_eq!(
        verify_submission(&FakeVerifier { assertion: assertion(&context) }, &context, &[credential()], &submission(other)),
        Err(WebAuthnError::ContextMismatch)
    );
    let mut quarantined = credential();
    quarantined.quarantined = true;
    assert_eq!(
        verify_submission(&FakeVerifier { assertion: assertion(&context) }, &context, &[quarantined], &submission(context.clone())),
        Err(WebAuthnError::CredentialQuarantined)
    );
    assert_eq!(
        verify_submission(&RejectingVerifier, &context, &[credential()], &submission(context.clone())),
        Err(WebAuthnError::AssertionRejected)
    );
    let mut wrong_rp = assertion(&context);
    wrong_rp.rp_id_hash = [0; 32];
    assert_eq!(
        verify_submission(&FakeVerifier { assertion: wrong_rp }, &context, &[credential()], &submission(context.clone())),
        Err(WebAuthnError::RpIdMismatch)
    );
    let mut wrong_challenge = assertion(&context);
    wrong_challenge.challenge = vec![0; 32];
    assert_eq!(
        verify_submission(&FakeVerifier { assertion: wrong_challenge }, &context, &[credential()], &submission(context.clone())),
        Err(WebAuthnError::ChallengeMismatch)
    );
    assert!(credential().active_for(5));
    assert!(!credential().active_for(6));
}
