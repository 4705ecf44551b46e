use rootpermit::broker_api::{
    can_access_owned_request, concealed_visibility_error, read_packet, socket_mode_is_safe,
    socket_parent_is_private, AdminMethod, CorrelationId, ErrorCode, FrameError, Method, PacketError,
    PeerCredentials, RpcError, RpcFailure, RpcMessage, RpcRequest, RpcResponse, MAX_FRAME_PAYLOAD_BYTES,
};
use rootpermit::cbor::CborValue;
use rootpermit::fields::field;

fn request() -> RpcRequest {
    RpcRequest::new(
        CorrelationId::new([7; 16]),
        Method::SubmitPackageInstall,
        CborValue::Entries(vec![(CborValue::Unsigned(1), CborValue::Text("ffmpeg".into()))]),
    )
    .unwrap()
}

#[test]
fn request_frame_round_trips_exactly() {
    let message = RpcMessage::Request(request());
    let frame = message.encode_frame().unwrap();
    assert_eq!(RpcMessage::decode_frame(&frame).unwrap(), message);
}

#[test]
fn requester_method_space_cannot_name_administration_methods() {
    assert!(Method::from_code(100).is_err());
    assert_eq!(AdminMethod::Reconcile.code(), 3);
}

#[test]
fn peer_credentials_are_not_wire_claims_and_enforce_root_and_owner_boundaries() {
    let owner = PeerCredentials::from_so_peer_cred(11, 1000, 1000);
    let foreign = PeerCredentials::from_so_peer_cred(12, 1001, 1001);
    let root = PeerCredentials::from_so_peer_cred(1, 0, 0);

    assert!(can_access_owned_request(owner, 1000));
    assert!(!can_access_owned_request(foreign, 1000));
    assert!(can_access_owned_request(root, 1000));
    assert_eq!(concealed_visibility_error(), ErrorCode::NotFoundOrNotAuthorized);
}

#[test]
fn hostile_packet_lengths_are_rejected_before_decode() {
    assert_eq!(RpcMessage::decode_frame(&[]), Err(FrameError::TooShort));
    assert_eq!(RpcMessage::decode_frame(&[0, 0, 0]), Err(FrameError::TooShort));
    assert_eq!(
        RpcMessage::decode_frame(&[0, 0, 0, 2, 0xf6]),
        Err(FrameError::LengthMismatch { declared: 2, actual: 1 })
    );
    let oversized = 65_537_u32.to_be_bytes();
    assert_eq!(
        RpcMessage::decode_frame(&oversized),
        Err(FrameError::PayloadTooLarge { limit: MAX_FRAME_PAYLOAD_BYTES })
    );
}

#[test]
fn unknown_method_and_unknown_fields_fail_closed() {
    let unknown_method = CborValue::Entries(vec![
        field(1, CborValue::Unsigned(1)),
        field(2, CborValue::Unsigned(1)),
        field(3, CborValue::Bytes(vec![0; 16])),
        field(4, CborValue::Unsigned(99)),
        field(5, CborValue::Entries(vec![])),
    ]);
    assert_eq!(RpcMessage::from_cbor(unknown_method), Err(RpcError::UnknownMethod { value: 99 }));

    let unknown_field = CborValue::Entries(vec![
        field(1, CborValue::Unsigned(1)),
        field(2, CborValue::Unsigned(1)),
        field(3, CborValue::Bytes(vec![0; 16])),
        field(4, CborValue::Unsigned(1)),
        field(5, CborValue::Entries(vec![])),
        field(6, CborValue::Null),
    ]);
    assert_eq!(RpcMessage::from_cbor(unknown_field), Err(RpcError::UnknownField { field: 6 }));
}

#[test]
fn response_and_failure_frames_round_trip() {
    let response = RpcMessage::Response(
        RpcResponse::new(CorrelationId::new([1; 16]), Method::GetReceipt, CborValue::Entries(vec![])).unwrap(),
    );
    assert_eq!(RpcMessage::decode_frame(&response.encode_frame().unwrap()).unwrap(), response);
    let failure = RpcMessage::Failure(
        RpcFailure::new(
            CorrelationId::new([2; 16]),
            Method::CancelRequest,
            ErrorCode::CancellationTooLate,
            false,
            Some(CborValue::Entries(vec![(CborValue::Unsigned(1), CborValue::Unsigned(9))])),
        )
        .unwrap(),
    );
    let frame = failure.encode_frame().unwrap();
    assert_eq!(&frame[..4], &((frame.len() - 4) as u32).to_be_bytes());
    assert_eq!(RpcMessage::decode_frame(&frame).unwrap(), failure);
}

#[test]
fn bodies_and_details_must_be_maps() {
    assert_eq!(
        RpcRequest::new(CorrelationId::new([0; 16]), Method::GetRequest, CborValue::Null),
        Err(RpcError::WrongType { field: 5 })
    );
    assert_eq!(
        RpcFailure::new(CorrelationId::new([0; 16]), Method::GetRequest, ErrorCode::Busy, true, Some(CborValue::Null)),
        Err(RpcError::WrongType { field: 7 })
    );
}

#[test]
fn error_codes_round_trip_through_their_text() {
    for code in [ErrorCode::InvalidInput, ErrorCode::NotFoundOrNotAuthorized, ErrorCode::Internal] {
        assert_eq!(ErrorCode::parse(&code.text().to_string()), Ok(code));
    }
    assert_eq!(ErrorCode::parse(&"nope".to_string()), Err(RpcError::UnknownErrorCode));
    assert_eq!(ErrorCode::RetentionProtected.text(), "retention_protected");
}

#[test]
fn message_kind_and_version_are_checked() {
    let wrong_kind = CborValue::Entries(vec![field(1, CborValue::Unsigned(1)), field(2, CborValue::Unsigned(9))]);
    assert_eq!(RpcMessage::from_cbor(wrong_kind), Err(RpcError::InvalidMessageKind { value: 9 }));
    let wrong_version = CborValue::Entries(vec![
        field(1, CborValue::Unsigned(2)),
        field(2, CborValue::Unsigned(1)),
        field(3, CborValue::Bytes(vec![0; 16])),
        field(4, CborValue::Unsigned(1)),
        field(5, CborValue::Entries(vec![])),
    ]);
    assert_eq!(RpcMessage::from_cbor(wrong_version), Err(RpcError::ProtocolMismatch { actual: 2 }));
    assert_eq!(RpcMessage::from_cbor(CborValue::Null), Err(RpcError::RootNotMap));
}

#[test]
fn packets_are_read_as_one_frame() {
    assert_eq!(read_packet(&[0, 0]), Err(PacketError::Frame(FrameError::TooShort)));
    assert_eq!(read_packet(&[0, 1, 0, 1]), Err(PacketError::OversizePayload));
    let message = RpcMessage::Request(request());
    assert_eq!(read_packet(&message.encode_frame().unwrap()).unwrap(), message);
}

#[test]
fn socket_modes_and_parents_are_private() {
    assert!(socket_mode_is_safe(0o660));
    assert!(!socket_mode_is_safe(0o666));
    assert!(!socket_mode_is_safe(0o4660));
    assert!(socket_parent_is_private(true, 0, 0o755));
    assert!(!socket_parent_is_private(true, 0, 0o775));
    assert!(!socket_parent_is_private(true, 1000, 0o700));
    assert!(!socket_parent_is_private(false, 0, 0o700));
}

#[test]
fn decoded_frame_with_unordered_body_re_encodes_to_the_same_frame() {
    let body = CborValue::Entries(vec![
        (CborValue::Unsigned(2), CborValue::Null),
        (CborValue::Unsigned(1), CborValue::Text("ffmpeg".into())),
    ]);
    let message = RpcMessage::Request(
        RpcRequest::new(CorrelationId::new([9; 16]), Method::SubmitPackageInstall, body).unwrap(),
    );
    let frame = message.encode_frame().unwrap();
    let decoded = RpcMessage::decode_frame(&frame).unwrap();
    let expected = RpcMessage::Request(
        RpcRequest::new(
            CorrelationId::new([9; 16]),
            Method::SubmitPackageInstall,
            CborValue::Entries(vec![
                (CborValue::Unsigned(1), CborValue::Text("ffmpeg".into())),
                (CborValue::Unsigned(2), CborValue::Null),
            ]),
        )
        .unwrap(),
    );
    assert_eq!(decoded, expected);
    assert_eq!(decoded.encode_frame().unwrap(), frame);
}

#[test]
fn request_and_response_bodies_must_be_integer_keyed() {
    let text_keyed = || CborValue::Entries(vec![(CborValue::Text("k".into()), CborValue::Null)]);
    assert_eq!(
        RpcRequest::new(CorrelationId::new([0; 16]), Method::GetRequest, text_keyed()),
        Err(RpcError::WrongType { field: 5 })
    );
    assert_eq!(
        RpcResponse::new(CorrelationId::new([0; 16]), Method::GetRequest, text_keyed()),
        Err(RpcError::WrongType { field: 5 })
    );
    let frame = vec![
        0, 0, 0, 30, 0xa5, 0x01, 0x01, 0x02, 0x01, 0x03, 0x50, 7, 7, 7, 7, 7, 7, 7, 7, 7, 7, 7, 7, 7, 7, 7, 7, 0x04,
        0x01, 0x05, 0xa1, 0x61, b'k', 0xf6,
    ];
    assert_eq!(RpcMessage::decode_frame(&frame), Err(FrameError::Rpc(RpcError::WrongType { field: 5 })));
}
