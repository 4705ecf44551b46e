//! The WebAuthn assertion boundary. Parsing authenticator data, client data
//! and signatures is left to a reviewed WebAuthn library behind
//! [`ReviewedWebAuthnVerifier`]; this module makes the protocol-specific
//! checks: the assertion must bind the pending context, the exact origin and
//! RP ID, an ES256 credential pinned to the live generation, and user
//! verification.

use vstd::prelude::*;
use vstd::string::*;
use vstd::utf8::*;
use crate::digest::{sha256, sha256_digest, spec_digest_cbor, Domain};
use crate::fields::SchemaError;
use crate::schema::{ApprovalContext, Decision, DecisionSubmission};

verus! {

/// The sole credential algorithm accepted in v1 (COSE ES256).
pub const ES256_ALGORITHM: i64 = -7;

/// Why an assertion is refused.
#[derive(Debug, Clone, Copy, PartialEq, Eq)]
pub enum WebAuthnError {
    Submission(SchemaError),
    ContextMismatch,
    CredentialNotPinned,
    CredentialQuarantined,
    UnsupportedAlgorithm,
    AssertionRejected,
    CredentialMismatch,
    ClientDataTypeMismatch,
    ChallengeMismatch,
    OriginMismatch,
    RpIdMismatch,
    UserPresenceMissing,
    UserVerificationMissing,
}

/// A root-pinned approval credential.
#[derive(Debug, Clone, PartialEq, Eq)]
pub struct PinnedCredential {
    pub credential_id: Vec<u8>,
    pub generation: u64,
    pub quarantined: bool,
    pub cose_algorithm: i64,
    pub previous_sign_count: u32,
}

impl PinnedCredential {
    /// Whether the credential may approve at a broker generation.
    pub fn active_for(&self, generation: u64) -> (r: bool)
        ensures
            r == (self.generation == generation && !self.quarantined && self.cose_algorithm == ES256_ALGORITHM),
    {
        self.generation == generation && !self.quarantined && self.cose_algorithm == ES256_ALGORITHM
    }
}

/// Facts a reviewed WebAuthn library returns after verifying an assertion.
#[derive(Debug, Clone, PartialEq, Eq)]
pub struct LibraryVerifiedAssertion {
    pub credential_id: Vec<u8>,
    pub client_data_type: String,
    pub challenge: Vec<u8>,
    pub origin: String,
    pub rp_id_hash: [u8; 32],
    pub user_present: bool,
    pub user_verified: bool,
    pub cose_algorithm: i64,
    pub sign_count: u32,
}

/// The boundary a maintained WebAuthn library implements: it verifies the
/// assertion signature with the pinned public key and reports what it saw.
pub trait ReviewedWebAuthnVerifier {
    fn verify_assertion(
        &self,
        submission: &DecisionSubmission,
        credential: &PinnedCredential,
    ) -> Result<LibraryVerifiedAssertion, ()>;
}

/// An assertion accepted for one lifecycle decision.
#[derive(Debug, Clone, PartialEq, Eq)]
pub struct VerifiedAssertion {
    pub credential_id: Vec<u8>,
    pub decision: Decision,
    pub generation: u64,
    pub sign_count: u32,
    /// An audit-only anomaly: a non-zero counter that did not increase.
    pub counter_anomaly: bool,
}

/// Whether two approval contexts hold the same values.
pub open spec fn same_context(a: ApprovalContext, b: ApprovalContext) -> bool {
    &&& a.request_id@ == b.request_id@
    &&& a.device_id@ == b.device_id@
    &&& a.broker_epoch == b.broker_epoch
    &&& a.request_digest@ == b.request_digest@
    &&& a.generation == b.generation
    &&& a.nonce@ == b.nonce@
    &&& a.rp_id@ == b.rp_id@
    &&& a.origin@ == b.origin@
    &&& a.decision == b.decision
    &&& a.expires_utc == b.expires_utc
}

fn context_equals(a: &ApprovalContext, b: &ApprovalContext) -> (r: bool)
    ensures
        r == same_context(*a, *b),
{
    let same_decision = match (a.decision, b.decision) {
        (Decision::Approve, Decision::Approve) | (Decision::Deny, Decision::Deny) => true,
        _ => false,
    };
    crate::cbor::same_bytes(a.request_id.as_bytes(), b.request_id.as_bytes())
        && crate::cbor::same_bytes(a.device_id.as_bytes(), b.device_id.as_bytes())
        && a.broker_epoch == b.broker_epoch
        && crate::cbor::same_bytes(&a.request_digest, &b.request_digest)
        && a.generation == b.generation
        && crate::cbor::same_bytes(a.nonce.as_bytes(), b.nonce.as_bytes())
        && a.rp_id == b.rp_id
        && a.origin == b.origin
        && same_decision
        && a.expires_utc == b.expires_utc
}

/// The first pinned credential with an ID, if any.
pub open spec fn first_pinned(pinned: Seq<PinnedCredential>, id: Seq<u8>, n: nat) -> Option<int>
    decreases n,
{
    if n == 0 || n > pinned.len() {
        None
    } else {
        match first_pinned(pinned, id, (n - 1) as nat) {
            Some(i) => Some(i),
            None => if pinned[n - 1].credential_id@ == id { Some(n - 1) } else { None },
        }
    }
}

/// The pinned credential a submission may use, or the first reason not:
/// the submission's own schema, the context, then pinning, quarantine,
/// generation and algorithm.
pub open spec fn spec_prepare(pending: ApprovalContext, pinned: Seq<PinnedCredential>, submission: DecisionSubmission) -> Result<int, WebAuthnError> {
    match submission.spec_validate() {
        Err(e) => Err(WebAuthnError::Submission(e)),
        Ok(_) => if !same_context(submission.approval_context, pending) {
            Err(WebAuthnError::ContextMismatch)
        } else {
            match first_pinned(pinned, submission.credential_id@, pinned.len()) {
                None => Err(WebAuthnError::CredentialNotPinned),
                Some(i) => if pinned[i].quarantined {
                    Err(WebAuthnError::CredentialQuarantined)
                } else if pinned[i].generation != pending.generation {
                    Err(WebAuthnError::CredentialNotPinned)
                } else if pinned[i].cose_algorithm != ES256_ALGORITHM {
                    Err(WebAuthnError::UnsupportedAlgorithm)
                } else {
                    Ok(i)
                },
            }
        },
    }
}

/// Checks a submission before the reviewed library sees it and gives the
/// position of the pinned credential it uses.
pub fn prepare_submission(pending: &ApprovalContext, pinned: &[PinnedCredential], submission: &DecisionSubmission) -> (r: Result<usize, WebAuthnError>)
    ensures
        match spec_prepare(*pending, pinned@, *submission) {
            Ok(i) => r == Ok::<usize, WebAuthnError>(i as usize) && 0 <= i < pinned@.len(),
            Err(e) => r == Err::<usize, WebAuthnError>(e),
        },
        r matches Ok(x) ==> x < pinned@.len() && spec_prepare(*pending, pinned@, *submission) == Ok::<int, WebAuthnError>(x as int),
{
    match submission.validate() {
        Ok(_) => {},
        Err(e) => {
            return Err(WebAuthnError::Submission(e));
        },
    }
    if !context_equals(&submission.approval_context, pending) {
        return Err(WebAuthnError::ContextMismatch);
    }
    let mut i: usize = 0;
    while i < pinned.len()
        invariant
            i <= pinned@.len(),
            submission.spec_validate() is Ok,
            same_context(submission.approval_context, *pending),
            first_pinned(pinned@, submission.credential_id@, i as nat) is None,
        decreases pinned@.len() - i,
    {
        if crate::cbor::same_bytes(pinned[i].credential_id.as_slice(), submission.credential_id.as_slice()) {
            proof {
                assert(first_pinned(pinned@, submission.credential_id@, (i + 1) as nat) == Some(i as int));
                lemma_first_pinned_stays(pinned@, submission.credential_id@, (i + 1) as nat, pinned@.len());
            }
            let p = &pinned[i];
            proof {
                assert(first_pinned(pinned@, submission.credential_id@, pinned@.len()) == Some(i as int));
            }
            if p.quarantined {
                return Err(WebAuthnError::CredentialQuarantined);
            }
            if p.generation != pending.generation {
                return Err(WebAuthnError::CredentialNotPinned);
            }
            if p.cose_algorithm != ES256_ALGORITHM {
                return Err(WebAuthnError::UnsupportedAlgorithm);
            }
            return Ok(i);
        }
        i = i + 1;
    }
    Err(WebAuthnError::CredentialNotPinned)
}

proof fn lemma_first_pinned_stays(pinned: Seq<PinnedCredential>, id: Seq<u8>, k: nat, n: nat)
    requires
        k <= n <= pinned.len(),
        first_pinned(pinned, id, k) is Some,
    ensures
        first_pinned(pinned, id, n) == first_pinned(pinned, id, k),
    decreases n - k,
{
    if k < n {
        lemma_first_pinned_stays(pinned, id, k, (n - 1) as nat);
    }
}

/// Whether a counter reading is anomalous: both counters non-zero and the
/// new one not above the old.
pub open spec fn counter_anomaly(previous: u32, current: u32) -> bool {
    previous != 0 && current != 0 && current <= previous
}

/// The checks on what the reviewed library reported, in order, or `Ok`.
pub open spec fn spec_assertion_error(
    pending: ApprovalContext,
    submission_credential: Seq<u8>,
    a: LibraryVerifiedAssertion,
) -> Option<WebAuthnError> {
    if a.credential_id@ != submission_credential {
        Some(WebAuthnError::CredentialMismatch)
    } else if a.cose_algorithm != ES256_ALGORITHM {
        Some(WebAuthnError::UnsupportedAlgorithm)
    } else if a.client_data_type@ != "webauthn.get"@ {
        Some(WebAuthnError::ClientDataTypeMismatch)
    } else {
        match pending.spec_validate() {
            Err(e) => Some(WebAuthnError::Submission(e)),
            Ok(_) => match spec_digest_cbor(Domain::WebAuthnChallenge, pending.spec_cbor()) {
                Err(e) => Some(WebAuthnError::Submission(SchemaError::Encode(e))),
                Ok(challenge) => if a.challenge@ != challenge {
                    Some(WebAuthnError::ChallengeMismatch)
                } else if a.origin@ != pending.origin@ {
                    Some(WebAuthnError::OriginMismatch)
                } else if a.rp_id_hash@ != sha256(encode_utf8(pending.rp_id@)) {
                    Some(WebAuthnError::RpIdMismatch)
                } else if !a.user_present {
                    Some(WebAuthnError::UserPresenceMissing)
                } else if !a.user_verified {
                    Some(WebAuthnError::UserVerificationMissing)
                } else {
                    None
                },
            },
        }
    }
}

/// What a verification answers for one outcome of the reviewed library.
pub open spec fn accepts_outcome(
    pending: ApprovalContext,
    pinned: PinnedCredential,
    submission_credential: Seq<u8>,
    outcome: Result<LibraryVerifiedAssertion, ()>,
    r: Result<VerifiedAssertion, WebAuthnError>,
) -> bool {
    match outcome {
        Err(_) => r == Err::<VerifiedAssertion, WebAuthnError>(WebAuthnError::AssertionRejected),
        Ok(a) => match spec_assertion_error(pending, submission_credential, a) {
            Some(e) => r == Err::<VerifiedAssertion, WebAuthnError>(e),
            None => r matches Ok(v) && v.credential_id@ == a.credential_id@ && v.decision == pending.decision
                && v.generation == pending.generation && v.sign_count == a.sign_count
                && v.counter_anomaly == counter_anomaly(pinned.previous_sign_count, a.sign_count),
        },
    }
}

/// Checks what the reviewed library reported against the pending context.
pub fn accept_assertion(
    pending: &ApprovalContext,
    pinned: &PinnedCredential,
    submission: &DecisionSubmission,
    outcome: Result<LibraryVerifiedAssertion, ()>,
) -> (r: Result<VerifiedAssertion, WebAuthnError>)
    ensures
        accepts_outcome(*pending, *pinned, submission.credential_id@, outcome, r),
{
    let assertion = match outcome {
        Ok(a) => a,
        Err(_) => {
            return Err(WebAuthnError::AssertionRejected);
        },
    };
    if !crate::cbor::same_bytes(assertion.credential_id.as_slice(), submission.credential_id.as_slice()) {
        return Err(WebAuthnError::CredentialMismatch);
    }
    if assertion.cose_algorithm != ES256_ALGORITHM {
        return Err(WebAuthnError::UnsupportedAlgorithm);
    }
    let expected_type = String::from_str("webauthn.get");
    if assertion.client_data_type != expected_type {
        return Err(WebAuthnError::ClientDataTypeMismatch);
    }
    let challenge = match pending.webauthn_challenge() {
        Ok(c) => c,
        Err(e) => {
            return Err(WebAuthnError::Submission(e));
        },
    };
    if !crate::cbor::same_bytes(assertion.challenge.as_slice(), &challenge) {
        return Err(WebAuthnError::ChallengeMismatch);
    }
    if assertion.origin != pending.origin {
        return Err(WebAuthnError::OriginMismatch);
    }
    let expected_rp_id_hash = sha256_digest(pending.rp_id.as_str().as_bytes());
    if !crate::cbor::same_bytes(&assertion.rp_id_hash, &expected_rp_id_hash) {
        return Err(WebAuthnError::RpIdMismatch);
    }
    if !assertion.user_present {
        return Err(WebAuthnError::UserPresenceMissing);
    }
    if !assertion.user_verified {
        return Err(WebAuthnError::UserVerificationMissing);
    }
    let counter_anomaly = pinned.previous_sign_count != 0
        && assertion.sign_count != 0
        && assertion.sign_count <= pinned.previous_sign_count;
    Ok(VerifiedAssertion {
        credential_id: assertion.credential_id,
        decision: pending.decision,
        generation: pending.generation,
        sign_count: assertion.sign_count,
        counter_anomaly,
    })
}

/// Verifies one submitted assertion against a pending broker context. The
/// reviewed library is consulted only after the submission, context and
/// pinned credential pass, with the submission and exactly that matched
/// credential; whatever it reports is then checked in full.
pub fn verify_submission<V: ReviewedWebAuthnVerifier>(
    verifier: &V,
    pending_context: &ApprovalContext,
    pinned_credentials: &[PinnedCredential],
    submission: &DecisionSubmission,
) -> (r: Result<VerifiedAssertion, WebAuthnError>)
    ensures
        r is Ok ==> exists|i: int| {
            &&& 0 <= i < pinned_credentials@.len()
            &&& pinned_credentials@[i].credential_id@ == submission.credential_id@
            &&& (forall|j: int| 0 <= j < i ==> pinned_credentials@[j].credential_id@ != submission.credential_id@)
            &&& pinned_credentials@[i].generation == pending_context.generation
            &&& !pinned_credentials@[i].quarantined
            &&& pinned_credentials@[i].cose_algorithm == -7
        },
        match spec_prepare(*pending_context, pinned_credentials@, *submission) {
            Err(e) => r == Err::<VerifiedAssertion, WebAuthnError>(e),
            Ok(i) => exists|outcome: Result<LibraryVerifiedAssertion, ()>|
                call_ensures(V::verify_assertion, (verifier, submission, &pinned_credentials@[i]), outcome)
                && accepts_outcome(*pending_context, pinned_credentials@[i], submission.credential_id@, outcome, r),
        },
{
    proof {
        lemma_prepare_selects_live_pinned_credential(*pending_context, pinned_credentials@, *submission);
    }
    let i = prepare_submission(pending_context, pinned_credentials, submission)?;
    let pinned = &pinned_credentials[i];
    let outcome = verifier.verify_assertion(submission, pinned);
    let r = accept_assertion(pending_context, pinned, submission, outcome);
    proof {
        assert(call_ensures(V::verify_assertion, (verifier, submission, &pinned_credentials@[i as int]), outcome));
        assert(accepts_outcome(*pending_context, pinned_credentials@[i as int], submission.credential_id@, outcome, r));
    }
    r
}

proof fn lemma_first_pinned_is_first(pinned: Seq<PinnedCredential>, id: Seq<u8>, n: nat)
    requires
        n <= pinned.len(),
    ensures
        first_pinned(pinned, id, n) matches Some(i) ==> {
            &&& 0 <= i < n
            &&& pinned[i].credential_id@ == id
            &&& forall|j: int| 0 <= j < i ==> pinned[j].credential_id@ != id
        },
        first_pinned(pinned, id, n) is None ==> forall|j: int| 0 <= j < n ==> pinned[j].credential_id@ != id,
    decreases n,
{
    if n > 0 {
        lemma_first_pinned_is_first(pinned, id, (n - 1) as nat);
    }
}

/// The reviewed library is consulted only for the first pinned credential
/// whose ID is the submission's, and only when that credential is pinned to
/// the pending context's generation, is not quarantined and uses ES256; a
/// submission whose first matching credential belongs to another
/// generation, or that matches none, is refused as not pinned.
pub proof fn lemma_prepare_selects_live_pinned_credential(pending: ApprovalContext, pinned: Seq<PinnedCredential>, submission: DecisionSubmission)
    ensures
        spec_prepare(pending, pinned, submission) matches Ok(i) ==> {
            &&& 0 <= i < pinned.len()
            &&& pinned[i].credential_id@ == submission.credential_id@
            &&& forall|j: int| 0 <= j < i ==> pinned[j].credential_id@ != submission.credential_id@
            &&& pinned[i].generation == pending.generation
            &&& !pinned[i].quarantined
            &&& pinned[i].cose_algorithm == -7
        },
        forall|i: int| {
            &&& 0 <= i < pinned.len()
            &&& pinned[i].credential_id@ == submission.credential_id@
            &&& (forall|j: int| 0 <= j < i ==> pinned[j].credential_id@ != submission.credential_id@)
            &&& !pinned[i].quarantined
            &&& pinned[i].generation != pending.generation
        } ==> spec_prepare(pending, pinned, submission) is Err,
        (forall|j: int| 0 <= j < pinned.len() ==> pinned[j].credential_id@ != submission.credential_id@)
            ==> spec_prepare(pending, pinned, submission) is Err,
{
    lemma_first_pinned_is_first(pinned, submission.credential_id@, pinned.len());
    let id = submission.credential_id@;
    assert forall|i: int| {
        &&& 0 <= i < pinned.len()
        &&& pinned[i].credential_id@ == id
        &&& (forall|j: int| 0 <= j < i ==> pinned[j].credential_id@ != id)
        &&& !pinned[i].quarantined
        &&& pinned[i].generation != pending.generation
    } implies spec_prepare(pending, pinned, submission) is Err by {
        match first_pinned(pinned, id, pinned.len()) {
            Some(k) => {
                if k < i {
                    assert(pinned[k].credential_id@ != id);
                } else if k > i {
                    assert(pinned[i].credential_id@ != id);
                }
            },
            None => {
                assert(pinned[i].credential_id@ != id);
            },
        }
    }
}

} // verus!
