use rootpermit::cbor::{decode, encode, CborValue, DecodeError, EncodeError};
use rootpermit::digest::{digest_cbor, Domain};
use rootpermit::fields::{field, SchemaError};
use rootpermit::ids::{BootId, DeviceId, IdKind, IdentifierError, Nonce, PolicyId, RequestId};
use rootpermit::schema::{
    ApprovalContext, Decision, DecisionSubmission, LifecycleEvent, Operation, OperationInput, Receipt, Request,
    ServiceKeyset,
};
use sha2::Digest as _;

fn request() -> Request {
    Request {
        request_id: RequestId::new([1; 16]),
        device_id: DeviceId::new([2; 16]),
        broker_epoch: 4,
        generation: 5,
        created_utc: 1_725_000_000_000,
        expires_utc: 1_725_000_600_000,
        boot_id: BootId::new([3; 16]),
        deadline_mono_ns: 99,
        nonce: Nonce::new([4; 32]),
        requester_uid: 1_000,
        operation: Operation::PackageInstall,
        operation_input: OperationInput::package_install("ffmpeg").unwrap(),
        policy_id: PolicyId::new([5; 16]),
        policy_digest: [6; 32],
        plan_digest: [7; 32],
        frozen_plan: CborValue::Entries(vec![(CborValue::Unsigned(1), CborValue::Text("frozen".into()))]),
        agent_note: Some("install media tools".into()),
    }
}

fn context(decision: Decision) -> ApprovalContext {
    ApprovalContext {
        request_id: RequestId::new([1; 16]),
        device_id: DeviceId::new([2; 16]),
        broker_epoch: 1,
        request_digest: [3; 32],
        generation: 2,
        nonce: Nonce::new([4; 32]),
        rp_id: "rootpermit.example".into(),
        origin: "https://rootpermit.example".into(),
        decision,
        expires_utc: 100,
    }
}

#[test]
fn sorts_map_keys_by_encoded_length_then_bytes() {
    let map = CborValue::Entries(vec![
        (CborValue::Text("z".into()), CborValue::Null),
        (CborValue::Unsigned(24), CborValue::Null),
        (CborValue::Unsigned(1), CborValue::Null),
    ]);
    assert_eq!(encode(&map).unwrap(), vec![0xa3, 0x01, 0xf6, 0x18, 0x18, 0xf6, 0x61, b'z', 0xf6]);
}

#[test]
fn rejects_noncanonical_and_unsafe_forms() {
    assert_eq!(decode(&[0x18, 0x01]), Err(DecodeError::NonCanonicalInteger));
    assert_eq!(decode(&[0x5f, 0xff]), Err(DecodeError::IndefiniteLength));
    assert_eq!(decode(&[0xa2, 0x01, 0xf6, 0x01, 0xf6]), Err(DecodeError::NonCanonicalMapOrder));
    assert_eq!(decode(&[0xf6, 0xf6]), Err(DecodeError::TrailingBytes));
}

#[test]
fn request_round_trips_and_is_canonical() {
    let request = request();
    let bytes = request.canonical_bytes().unwrap();
    assert_eq!(Request::decode(&bytes).unwrap(), request);
    assert_eq!(encode(&Request::decode(&bytes).unwrap().to_cbor()).unwrap(), bytes);
}

#[test]
fn request_rejects_unknown_field() {
    let mut map = request().to_cbor();
    let CborValue::Entries(entries) = &mut map else {
        unreachable!()
    };
    entries.push(field(19, CborValue::Null));
    assert_eq!(Request::from_cbor(map), Err(SchemaError::UnknownField { field: 19 }));
}

#[test]
fn approval_decisions_have_distinct_challenges() {
    let common = context(Decision::Approve);
    let mut deny = common.clone();
    deny.decision = Decision::Deny;
    assert_ne!(common.webauthn_challenge().unwrap(), deny.webauthn_challenge().unwrap());
}

#[test]
fn decision_submission_is_bounded_and_commits_to_its_context() {
    let submission = DecisionSubmission {
        approval_context: context(Decision::Deny),
        credential_id: vec![9],
        authenticator_data: vec![1],
        client_data_json: br"{}".to_vec(),
        signature: vec![2],
        user_handle: None,
    };
    let bytes = submission.canonical_bytes().unwrap();
    assert_eq!(DecisionSubmission::decode(&bytes).unwrap(), submission);
}

#[test]
fn domain_labels_are_not_interchangeable() {
    assert_ne!(Domain::Request.label(), Domain::Decision.label());
    assert_ne!(Domain::Decision.label(), Domain::WebAuthnChallenge.label());
}

#[test]
fn no_domain_label_is_a_prefix_of_another() {
    let domains = [
        Domain::Request,
        Domain::AptPlan,
        Domain::Decision,
        Domain::WebAuthnChallenge,
        Domain::Enrollment,
        Domain::ServiceKeyset,
        Domain::DecisionAccepted,
        Domain::Revocation,
        Domain::Receipt,
    ];
    for (i, a) in domains.iter().enumerate() {
        for (j, b) in domains.iter().enumerate() {
            if i != j {
                assert!(!b.label().starts_with(&a.label()));
            }
        }
    }
    assert_eq!(Domain::Decision.label(), b"rootpermit/v1/decision\0".to_vec());
}

#[test]
fn domain_label_text_is_exact() {
    assert_eq!(Domain::Request.label(), b"rootpermit/v1/request\0".to_vec());
    assert_eq!(Domain::WebAuthnChallenge.label(), b"rootpermit/v1/webauthn.challenge\0".to_vec());
}

#[test]
fn digest_is_sha256_of_label_and_encoding() {
    let value = CborValue::Entries(vec![(CborValue::Unsigned(1), CborValue::Bool(true))]);
    let encoded = encode(&value).unwrap();
    assert_eq!(encoded, vec![0xa1, 0x01, 0xf5]);
    let mut message = Domain::Receipt.label();
    message.extend_from_slice(&encoded);
    let expected: [u8; 32] = sha2::Sha256::digest(&message).into();
    assert_eq!(digest_cbor(Domain::Receipt, &value).unwrap(), expected);
    assert_ne!(digest_cbor(Domain::Request, &value).unwrap(), expected);
}

#[test]
fn encoding_rejects_duplicate_keys_and_nonnegative_negatives() {
    let duplicate = CborValue::Entries(vec![
        (CborValue::Unsigned(1), CborValue::Null),
        (CborValue::Unsigned(1), CborValue::Null),
    ]);
    assert_eq!(encode(&duplicate), Err(EncodeError::DuplicateMapKey));
    assert_eq!(encode(&CborValue::Negative(0)), Err(EncodeError::IntegerOutOfRange));
    assert_eq!(encode(&CborValue::Negative(-1)).unwrap(), vec![0x20]);
    assert_eq!(encode(&CborValue::Negative(-25)).unwrap(), vec![0x38, 0x18]);
}

#[test]
fn text_must_be_valid_utf8() {
    assert_eq!(decode(&[0x62, 0xff, 0xfe]), Err(DecodeError::InvalidUtf8));
    assert_eq!(decode(&[0x62, b'h', b'i']).unwrap(), CborValue::Text("hi".into()));
}

#[test]
fn decoded_values_re_encode_to_the_same_bytes() {
    let bytes = vec![0xa2, 0x01, 0x82, 0x01, 0x21, 0x61, b'a', 0x43, 1, 2, 3];
    let value = decode(&bytes).unwrap();
    assert_eq!(encode(&value).unwrap(), bytes);
}

#[test]
fn map_encoding_ignores_entry_order() {
    let entries = vec![
        (CborValue::Text("z".into()), CborValue::Unsigned(3)),
        (CborValue::Unsigned(24), CborValue::Bool(true)),
        (CborValue::Unsigned(1), CborValue::Bytes(vec![9])),
    ];
    let reversed = vec![
        (CborValue::Unsigned(1), CborValue::Bytes(vec![9])),
        (CborValue::Unsigned(24), CborValue::Bool(true)),
        (CborValue::Text("z".into()), CborValue::Unsigned(3)),
    ];
    let first = encode(&CborValue::Entries(entries)).unwrap();
    assert_eq!(encode(&CborValue::Entries(reversed)).unwrap(), first);
    assert_eq!(first, vec![0xa3, 0x01, 0x41, 9, 0x18, 0x18, 0xf5, 0x61, b'z', 0x03]);
}

#[test]
fn request_with_unordered_frozen_plan_re_encodes_to_the_same_bytes() {
    let mut request = request();
    request.frozen_plan = CborValue::Entries(vec![
        (CborValue::Unsigned(2), CborValue::Text("b".into())),
        (CborValue::Unsigned(1), CborValue::Text("a".into())),
    ]);
    let bytes = request.canonical_bytes().unwrap();
    let decoded = Request::decode(&bytes).unwrap();
    assert_eq!(
        decoded.frozen_plan,
        CborValue::Entries(vec![
            (CborValue::Unsigned(1), CborValue::Text("a".into())),
            (CborValue::Unsigned(2), CborValue::Text("b".into())),
        ])
    );
    assert_eq!(decoded.canonical_bytes().unwrap(), bytes);
}

#[test]
fn identifiers_check_their_length_and_render_base64url() {
    assert_eq!(
        RequestId::try_from_slice(&[0; 15]),
        Err(IdentifierError::WrongLength { name: IdKind::RequestId, expected: 16, actual: 15 })
    );
    let id = RequestId::try_from_slice(&[1; 16]).unwrap();
    assert_eq!(id.as_bytes(), &[1; 16]);
    assert_eq!(id.to_text(), "AQEBAQEBAQEBAQEBAQEBAQ");
    assert_eq!(
        Nonce::try_from_slice(&[0; 16]),
        Err(IdentifierError::WrongLength { name: IdKind::Nonce, expected: 32, actual: 16 })
    );
}

#[test]
fn package_names_follow_the_debian_shape() {
    assert!(OperationInput::package_install("libc6-dev").is_ok());
    assert!(OperationInput::package_install("g++").is_ok());
    assert_eq!(OperationInput::package_install("Ffmpeg"), Err(SchemaError::InvalidField { field: 13 }));
    assert_eq!(OperationInput::package_install(""), Err(SchemaError::InvalidField { field: 13 }));
}

#[test]
fn request_rejects_expiry_before_creation() {
    let mut request = request();
    request.expires_utc = request.created_utc - 1;
    assert_eq!(request.validate(), Err(SchemaError::InvalidField { field: 7 }));
    assert_eq!(request.canonical_bytes(), Err(SchemaError::InvalidField { field: 7 }));
}

#[test]
fn request_requires_a_map_frozen_plan() {
    let mut request = request();
    request.frozen_plan = CborValue::Null;
    assert_eq!(request.validate(), Err(SchemaError::WrongType { field: 17 }));
}

#[test]
fn request_reports_the_first_field_error_in_order() {
    let mut map = request().to_cbor();
    let CborValue::Entries(entries) = &mut map else {
        unreachable!()
    };
    entries[0] = field(1, CborValue::Unsigned(2));
    entries[1] = field(2, CborValue::Bytes(vec![0; 3]));
    assert_eq!(Request::from_cbor(map.clone()), Err(SchemaError::ProtocolMismatch { actual: 2 }));
    let CborValue::Entries(entries) = &mut map else {
        unreachable!()
    };
    entries[0] = field(1, CborValue::Unsigned(1));
    assert_eq!(Request::from_cbor(map.clone()), Err(SchemaError::InvalidField { field: 2 }));
    assert_eq!(Request::from_cbor(CborValue::Null), Err(SchemaError::RootNotMap));
    let duplicate = CborValue::Entries(vec![field(1, CborValue::Unsigned(1)), field(1, CborValue::Unsigned(1))]);
    assert_eq!(Request::from_cbor(duplicate), Err(SchemaError::InvalidField { field: 1 }));
}

#[test]
fn lifecycle_event_links_to_its_predecessor_after_sequence_zero() {
    let mut event = LifecycleEvent {
        request_id: RequestId::new([1; 16]),
        sequence: 0,
        previous_event_digest: None,
        request_digest: [2; 32],
        broker_epoch: 1,
        transition: 3,
        occurred_utc: -5,
        detail_code: 0,
        detail_digest: Some([4; 32]),
    };
    let bytes = event.canonical_bytes().unwrap();
    assert_eq!(LifecycleEvent::decode(&bytes).unwrap(), event);
    event.previous_event_digest = Some([5; 32]);
    assert_eq!(event.validate(), Err(SchemaError::InvalidField { field: 4 }));
    event.sequence = 1;
    let bytes = event.canonical_bytes().unwrap();
    assert_eq!(LifecycleEvent::decode(&bytes).unwrap(), event);
    event.previous_event_digest = None;
    assert_eq!(event.validate(), Err(SchemaError::MissingField { field: 4 }));
}

#[test]
fn receipt_and_keyset_check_their_time_order() {
    let mut receipt = Receipt {
        receipt_id: rootpermit::ids::ReceiptId::new([1; 16]),
        request_id: RequestId::new([2; 16]),
        request_digest: [3; 32],
        plan_digest: [4; 32],
        terminal_state: 1,
        authorization_evidence: vec![CborValue::Unsigned(7)],
        prestate_evidence: CborValue::Entries(vec![]),
        execution_evidence: CborValue::Entries(vec![]),
        created_utc: 10,
        completed_utc: 10,
        broker_epoch: 1,
    };
    let bytes = receipt.canonical_bytes().unwrap();
    assert_eq!(Receipt::decode(&bytes).unwrap(), receipt);
    receipt.completed_utc = 9;
    assert_eq!(receipt.validate(), Err(SchemaError::InvalidField { field: 11 }));

    let keyset = ServiceKeyset { keyset_version: 1, issued_utc: 5, keys: vec![], root_kid: vec![1; 8], expires_utc: 5 };
    assert_eq!(keyset.validate(), Err(SchemaError::InvalidField { field: 6 }));
    let short = ServiceKeyset { root_kid: vec![1; 7], expires_utc: 6, ..keyset };
    assert_eq!(short.validate(), Err(SchemaError::InvalidField { field: 5 }));
}
