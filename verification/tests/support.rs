use rootpermit::journal::{
    classify_contents, magic, next_sequence, opened_sequence, parse_records, record_bytes, records, JournalError,
    JournalMarker, RecoveryClassification,
};
use rootpermit::peercred::credentials_from_ucred;
use rootpermit::sealed_plan::{
    directory_is_safe, hex_digest, immutable_file_is_safe, is_digest_name, is_safe_component, manifest_name,
    bytes_match_digest_name, object_size_allowed, PlanHandle, SealedPlanError, MAX_OBJECT_BYTES,
};
use rootpermit::testkit::{mutate_delivery, DeliveryMutation, FakeMonotonicClock, FixtureBytes};
use JournalMarker::{
    ExecutionStarted, FinalStateCommitted, HelperHandoff, ReceiptCreated, ResultFailed, ResultSucceeded,
    SimulationProved,
};

#[test]
fn clock_and_fixture_bytes_are_reproducible() {
    let mut clock = FakeMonotonicClock::at(4);
    clock.advance(6);
    assert_eq!(clock.now_ns(), 10);
    let mut first = FixtureBytes::seeded(42);
    let mut second = FixtureBytes::seeded(42);
    assert_eq!(first.next_array::<32>(), second.next_array::<32>());
}

#[test]
fn hostile_delivery_can_duplicate_drop_and_reorder_without_mutation() {
    let values = ["first", "second", "third"];
    let output = mutate_delivery(
        &values,
        &[
            DeliveryMutation::Deliver(1),
            DeliveryMutation::Duplicate(0),
            DeliveryMutation::Drop(2),
            DeliveryMutation::Deliver(2),
        ],
    );
    assert_eq!(output, ["second", "first", "first", "third"]);
}

#[test]
fn clock_saturates_and_fixture_bytes_follow_xorshift() {
    let mut clock = FakeMonotonicClock::at(u64::MAX - 1);
    clock.advance(5);
    assert_eq!(clock.now_ns(), u64::MAX);
    clock.set(3);
    assert_eq!(clock.now_ns(), 3);
    let mut bytes = FixtureBytes::seeded(1);
    let mut s: u64 = 1;
    s ^= s >> 12;
    s ^= s << 25;
    s ^= s >> 27;
    s = s.wrapping_mul(0x2545_F491_4F6C_DD1D);
    assert_eq!(bytes.next_array::<1>(), [s as u8]);
    let empty: Vec<u8> = mutate_delivery(&[1u8, 2], &[DeliveryMutation::Deliver(5), DeliveryMutation::Duplicate(9)]);
    assert!(empty.is_empty());
}

fn journal(markers: &[JournalMarker]) -> Vec<u8> {
    let mut bytes = magic();
    let mut sequence = 1;
    for marker in markers {
        bytes.extend_from_slice(&record_bytes(sequence, *marker));
        sequence = next_sequence(sequence);
    }
    bytes
}

#[test]
fn only_a_single_proven_result_with_receipt_and_final_commit_is_terminal() {
    assert_eq!(
        classify_contents(&journal(&[HelperHandoff, SimulationProved, ExecutionStarted])),
        Ok(RecoveryClassification::RecoveryRequired)
    );
    assert_eq!(
        classify_contents(&journal(&[
            HelperHandoff,
            SimulationProved,
            ExecutionStarted,
            ResultSucceeded,
            ReceiptCreated,
            FinalStateCommitted
        ])),
        Ok(RecoveryClassification::Succeeded)
    );
    assert_eq!(
        classify_contents(&journal(&[
            HelperHandoff,
            SimulationProved,
            ExecutionStarted,
            ResultFailed,
            ReceiptCreated,
            FinalStateCommitted
        ])),
        Ok(RecoveryClassification::Failed)
    );
}

#[test]
fn a_torn_or_conflicting_journal_never_claims_success() {
    let mut bytes = journal(&[JournalMarker::ExecutionStarted]);
    bytes.push(1);
    assert_eq!(classify_contents(&bytes), Err(JournalError::Corrupt));
    assert_eq!(
        classify_contents(&journal(&[
            HelperHandoff,
            SimulationProved,
            ExecutionStarted,
            ResultSucceeded,
            ResultFailed,
            ReceiptCreated,
            FinalStateCommitted
        ])),
        Ok(RecoveryClassification::RecoveryRequired)
    );
}

#[test]
fn terminal_markers_without_a_proven_execution_are_not_success() {
    assert_eq!(
        classify_contents(&journal(&[ResultSucceeded, ReceiptCreated, FinalStateCommitted])),
        Ok(RecoveryClassification::RecoveryRequired)
    );
}

#[test]
fn journal_records_have_sequence_marker_and_checksum() {
    assert_eq!(magic(), b"RPJNLv1\0".to_vec());
    let record = record_bytes(0x0102_0304_0506_0708, JournalMarker::ReceiptCreated);
    assert_eq!(record, vec![1, 2, 3, 4, 5, 6, 7, 8, 10, 0x01 ^ 0x03 ^ 0x05 ^ 0x07 ^ 10 ^ 0xa7]);
    let contents = journal(&[JournalMarker::HelperHandoff, JournalMarker::SimulationProved]);
    assert_eq!(parse_records(&contents), Ok(3));
    assert_eq!(records(&contents), Ok(vec![JournalMarker::HelperHandoff, JournalMarker::SimulationProved]));
    let mut tampered = contents.clone();
    let last = tampered.len() - 1;
    tampered[last] ^= 1;
    assert_eq!(parse_records(&tampered), Err(JournalError::Corrupt));
    let mut wrong_sequence = magic();
    wrong_sequence.extend_from_slice(&record_bytes(2, JournalMarker::HelperHandoff));
    assert_eq!(parse_records(&wrong_sequence), Err(JournalError::Corrupt));
    assert_eq!(opened_sequence(&[]), Ok(1));
    assert_eq!(opened_sequence(b"RPJNLv2\0"), Err(JournalError::Corrupt));
    assert_eq!(next_sequence(u64::MAX), u64::MAX);
    assert_eq!(JournalMarker::from_byte(12), None);
}

#[test]
fn plan_handles_are_opaque_base64url_identifiers() {
    let handle = PlanHandle::parse("AQEBAQEBAQEBAQEBAQEBAQ").unwrap();
    assert_eq!(handle.as_str(), "AQEBAQEBAQEBAQEBAQEBAQ");
    assert_eq!(PlanHandle::parse("../../not-a-plan"), Err(SealedPlanError::InvalidPlanHandle));
    assert_eq!(PlanHandle::parse("AQEBAQEBAQEBAQEBAQEBAR"), Err(SealedPlanError::InvalidPlanHandle));
    assert_eq!(PlanHandle::parse("AQEBAQEBAQEBAQEBAQEB.Q"), Err(SealedPlanError::InvalidPlanHandle));
}

#[test]
fn store_names_are_a_closed_vocabulary() {
    assert!(is_safe_component(b"manifest.cbor"));
    assert!(!is_safe_component(b".."));
    assert!(!is_safe_component(b"."));
    assert!(!is_safe_component(b"a/b"));
    assert!(!is_safe_component(b""));
    let digest = hex_digest(b"abc");
    assert_eq!(digest, "ba7816bf8f01cfea414140de5dae2223b00361a396177a9cb410ff61f20015ad");
    assert!(is_digest_name(digest.as_bytes()));
    assert!(!is_digest_name(b"BA7816BF"));
    assert_eq!(manifest_name(), "manifest.cbor");
}

#[test]
fn store_metadata_checks_fail_closed() {
    assert!(object_size_allowed(MAX_OBJECT_BYTES));
    assert!(!object_size_allowed(MAX_OBJECT_BYTES + 1));
    assert!(directory_is_safe(true, 0, 0o700, 0, 0o077));
    assert!(!directory_is_safe(true, 0, 0o750, 0, 0o077));
    assert!(immutable_file_is_safe(true, 0, 0o400, 1, 10, 0));
    assert!(!immutable_file_is_safe(true, 0, 0o600, 1, 10, 0));
    assert!(!immutable_file_is_safe(true, 0, 0o400, 2, 10, 0));
}

#[test]
fn peer_credentials_require_a_whole_answer() {
    assert_eq!(credentials_from_ucred(true, -1, 0, 0), None);
    assert_eq!(credentials_from_ucred(false, 5, 0, 0), None);
    let c = credentials_from_ucred(true, 5, 1000, 100).unwrap();
    assert_eq!((c.pid, c.uid, c.gid), (5, 1000, 100));
}

#[test]
fn plan_handles_need_a_sixteen_byte_decoding() {
    let handle = PlanHandle::from_decoding("AQEBAQEBAQEBAQEBAQEBAQ", Some(vec![1; 16])).unwrap();
    assert_eq!(handle.as_str(), "AQEBAQEBAQEBAQEBAQEBAQ");
    assert_eq!(
        PlanHandle::from_decoding("AQEBAQEBAQEBAQEBAQEBAQ", Some(vec![1; 15])),
        Err(SealedPlanError::InvalidPlanHandle)
    );
    assert_eq!(PlanHandle::from_decoding("AQEBAQEBAQEBAQEBAQEBAQ", None), Err(SealedPlanError::InvalidPlanHandle));
    assert_eq!(PlanHandle::from_decoding("../../etc", Some(vec![0; 16])), Err(SealedPlanError::InvalidPlanHandle));
}

#[test]
fn stored_bytes_must_match_their_digest_name() {
    let name = "ba7816bf8f01cfea414140de5dae2223b00361a396177a9cb410ff61f20015ad";
    assert_eq!(bytes_match_digest_name(b"abc", name), Ok(()));
    assert_eq!(bytes_match_digest_name(b"abd", name), Err(SealedPlanError::DigestMismatch));
    assert_eq!(bytes_match_digest_name(b"abc", &name.to_uppercase()), Err(SealedPlanError::DigestMismatch));
}
