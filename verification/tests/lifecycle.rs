use rootpermit::cose::{CoseSign1, KeyRole, VerificationKey, VerificationPolicy};
use rootpermit::digest::Domain;
use rootpermit::lifecycle::{
    check_nonterminal_transition, decide_submit, PolicyDecision, SubmitDecision, BrokerSigningKey, FrozenPlan, IntakeError, LifecycleError, LifecycleRecord, OperationKey, PackageName,
    PlanOutcome, PublicId, RequestState, VerifiedDecision,
};
use rootpermit::schema::Decision;
use sha2::Digest as _;

const REQUEST_A: &str = "AbCdEfGhIjKlMnOpQrStUw";
const REQUEST_B: &str = "ZyXwVuTsRqPoNmLkJiHgFe";

fn lifecycle() -> LifecycleRecord {
    LifecycleRecord::new(
        PublicId::parse(REQUEST_A).unwrap(),
        PublicId::parse(REQUEST_B).unwrap(),
        PackageName::parse("ffmpeg").unwrap(),
        [9; 32],
        3,
        100,
    )
}

fn pending_plan() -> FrozenPlan {
    FrozenPlan { package_name: PackageName::parse("ffmpeg").unwrap(), plan_digest: [7; 32] }
}

fn approve() -> VerifiedDecision {
    VerifiedDecision { request_digest: [9; 32], generation: 3, decision: Decision::Approve, assertion_digest: [4; 32] }
}

#[test]
fn all_documented_lifecycle_edges_are_accepted_and_undocumented_edges_rejected() {
    let accepted = [
        (RequestState::Planning, RequestState::Pending),
        (RequestState::Planning, RequestState::NoChange),
        (RequestState::Planning, RequestState::Invalid),
        (RequestState::Pending, RequestState::Approved),
        (RequestState::Pending, RequestState::Denied),
        (RequestState::Pending, RequestState::Expired),
        (RequestState::Pending, RequestState::Cancelled),
        (RequestState::Pending, RequestState::Stale),
        (RequestState::Approved, RequestState::Executing),
        (RequestState::Approved, RequestState::Cancelled),
        (RequestState::Approved, RequestState::Stale),
        (RequestState::Approved, RequestState::Expired),
        (RequestState::Executing, RequestState::Succeeded),
        (RequestState::Executing, RequestState::Failed),
        (RequestState::Executing, RequestState::RecoveryRequired),
        (RequestState::RecoveryRequired, RequestState::Succeeded),
        (RequestState::RecoveryRequired, RequestState::Failed),
    ];
    assert!(accepted.into_iter().all(|(from, to)| from.permits(to)));
    assert!(!RequestState::Planning.permits(RequestState::Succeeded));
    assert!(!RequestState::Approved.permits(RequestState::Denied));
    assert!(!RequestState::Succeeded.permits(RequestState::Failed));
}

#[test]
fn planner_result_cannot_change_the_requested_package() {
    let mut record = lifecycle();
    let changed = FrozenPlan { package_name: PackageName::parse("curl").unwrap(), plan_digest: [7; 32] };
    assert_eq!(record.apply_plan(PlanOutcome::Pending(changed)), Err(LifecycleError::PlannerPackageMismatch));
    assert_eq!(record.state, RequestState::Planning);
    assert_eq!(record.apply_plan(PlanOutcome::Invalid { reason_code: 1 }), Ok(RequestState::Invalid));
    assert!(record.receipt.is_some());
}

#[test]
fn decision_expiry_cancel_and_generation_have_one_durable_winner() {
    let mut approved = lifecycle();
    approved.apply_plan(PlanOutcome::Pending(pending_plan())).unwrap();
    assert_eq!(approved.apply_verified_decision(99, 3, &approve()).unwrap(), RequestState::Approved);
    assert_eq!(approved.begin_execution(99, 4), Err(LifecycleError::AlreadyTerminal));
    assert_eq!(approved.state, RequestState::Stale);
    assert_eq!(approved.cancel(99, 3), Err(LifecycleError::AlreadyTerminal));

    let mut expired = lifecycle();
    expired.apply_plan(PlanOutcome::Pending(pending_plan())).unwrap();
    assert_eq!(expired.cancel(100, 3), Err(LifecycleError::AlreadyTerminal));
    assert_eq!(expired.state, RequestState::Expired);

    let mut denied = lifecycle();
    denied.apply_plan(PlanOutcome::Pending(pending_plan())).unwrap();
    let deny = VerifiedDecision { request_digest: [9; 32], generation: 3, decision: Decision::Deny, assertion_digest: [5; 32] };
    assert_eq!(denied.apply_verified_decision(99, 3, &deny).unwrap(), RequestState::Denied);
    assert_eq!(denied.apply_verified_decision(99, 3, &approve()), Err(LifecycleError::AlreadyTerminal));
}

#[test]
fn terminal_receipt_draft_commits_to_the_event_chain_without_claiming_a_signature() {
    let mut record = lifecycle();
    record.apply_plan(PlanOutcome::Pending(pending_plan())).unwrap();
    record.apply_verified_decision(99, 3, &approve()).unwrap();
    record.begin_execution(99, 3).unwrap();
    record.finish_execution(false, true).unwrap();
    assert_eq!(record.receipt, None);
    record.reconcile(false).unwrap();
    let receipt = record.receipt.clone().unwrap();
    assert_eq!(receipt.terminal_state, RequestState::Failed);
    assert_eq!(receipt.plan_digest, Some(pending_plan().plan_digest));
    assert_eq!(receipt.final_event_digest, record.events.last().unwrap().event_digest);
    assert!(record.events.windows(2).all(|events| events[1].previous_event_digest == Some(events[0].event_digest)));
    assert_ne!(receipt.receipt_digest, [0; 32]);
    assert_eq!(record.events.iter().map(|e| e.sequence).collect::<Vec<_>>(), vec![1, 2, 3, 4, 5, 6]);
}

#[test]
fn the_first_event_digest_covers_its_fields() {
    let record = lifecycle();
    let mut hasher = sha2::Sha256::new();
    hasher.update(b"rootpermit/v1/local-lifecycle-event\0");
    hasher.update(REQUEST_A.as_bytes());
    hasher.update(1u64.to_be_bytes());
    hasher.update([0u8; 32]);
    hasher.update(b"planning");
    hasher.update(1u64.to_be_bytes());
    let expected: [u8; 32] = hasher.finalize().into();
    assert_eq!(record.events.len(), 1);
    assert_eq!(record.events[0].event_digest, expected);
    assert_eq!(record.events[0].previous_event_digest, None);
}

#[test]
fn mismatched_or_stale_decisions_are_refused_without_a_transition() {
    let mut record = lifecycle();
    record.apply_plan(PlanOutcome::Pending(pending_plan())).unwrap();
    let wrong = VerifiedDecision { request_digest: [8; 32], ..approve() };
    assert_eq!(record.apply_verified_decision(99, 3, &wrong), Err(LifecycleError::DecisionContextMismatch));
    let old = VerifiedDecision { generation: 2, ..approve() };
    assert_eq!(record.apply_verified_decision(99, 3, &old), Err(LifecycleError::DecisionGenerationStale));
    assert_eq!(record.state, RequestState::Pending);
    assert_eq!(record.finish_execution(true, false), Err(LifecycleError::InvalidState { state: RequestState::Pending }));
}

#[test]
fn intake_rejects_paths_keys_and_package_shapes() {
    assert_eq!(PublicId::parse("../../etc/passwd"), Err(IntakeError::InvalidPublicId));
    assert_eq!(OperationKey::parse("short"), Err(IntakeError::InvalidOperationKey));
    assert!(OperationKey::parse("aBcDeFgHiJkLmNoPqRsTuVwX").is_ok());
    assert_eq!(PackageName::parse("ffmpeg=1.0"), Err(IntakeError::InvalidPackageName));
    assert_eq!(PackageName::parse("ffmpeg").unwrap().as_str(), "ffmpeg");
}

#[test]
fn broker_key_signs_envelopes_that_its_public_key_verifies() {
    let signer = BrokerSigningKey::from_seed([7; 32]);
    let public = ed25519_dalek::SigningKey::from_bytes(&[7; 32]).verifying_key().to_bytes();
    assert_eq!(signer.public_key(), public);
    let digest: [u8; 32] = sha2::Sha256::digest(public).into();
    assert_eq!(signer.kid(), &digest[..16]);
    let envelope = CoseSign1::sign(vec![], signer.kid().to_vec(), 1, Domain::Request, signer.seed()).unwrap();
    let key = VerificationKey::new(signer.kid().to_vec(), signer.public_key(), 10, 20, vec![KeyRole::Broker]).unwrap();
    let policy = VerificationPolicy { content_type: 1, domain: Domain::Request, required_role: KeyRole::Broker, now_utc: 15 };
    assert_eq!(envelope.verify(&key, policy), Ok(vec![]));
}

#[test]
fn exact_retries_recover_and_changed_input_conflicts() {
    let d = [1u8; 32];
    let e = [2u8; 32];
    assert_eq!(decide_submit(PolicyDecision::Deny, None, &d, false), SubmitDecision::PolicyDenied);
    assert_eq!(decide_submit(PolicyDecision::Allow, Some(&d), &d, true), SubmitDecision::RecoverExisting);
    assert_eq!(decide_submit(PolicyDecision::Allow, Some(&e), &d, false), SubmitDecision::IdempotencyConflict);
    assert_eq!(decide_submit(PolicyDecision::Allow, None, &d, true), SubmitDecision::Busy);
    assert_eq!(decide_submit(PolicyDecision::Allow, None, &d, false), SubmitDecision::Create);
}

#[test]
fn store_transitions_without_receipt_follow_nonterminal_edges() {
    assert_eq!(check_nonterminal_transition(RequestState::Planning, RequestState::Pending), Ok(()));
    assert_eq!(
        check_nonterminal_transition(RequestState::Pending, RequestState::Denied),
        Err((RequestState::Pending, RequestState::Denied))
    );
    assert_eq!(
        check_nonterminal_transition(RequestState::Planning, RequestState::Executing),
        Err((RequestState::Planning, RequestState::Executing))
    );
}
