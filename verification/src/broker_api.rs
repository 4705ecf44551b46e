//! Local broker RPC: one four-byte big-endian length prefix and one
//! deterministic-CBOR message per packet, the closed method namespaces, and
//! the peer-credential boundary. No message field carries a caller identity.

use vstd::prelude::*;
use vstd::utf8::*;
use crate::cbor::{
    append_bytes, be_bytes, be_value, decode, encode, push_be, read_be, spec_decode, spec_encode, spec_encode_raw,
    Cbor, CborValue, DecodeError, EncodeError,
};
use crate::fields::{
    collect_fields, field_models, find_field, first_unknown, first_unknown_exec, lookup, push_field,
    rule_keys, spec_fields, FieldKind, FieldRule, FieldSeq, SchemaError,
};
use crate::cbor_laws::{
    canonical_form, lemma_be_bytes_value, lemma_be_roundtrip, lemma_byte_powers, lemma_decode_then_encode,
    lemma_encode_then_decode,
};
use crate::field_laws::{lemma_same_fields_encode, lemma_unknown_absent, same_encoding};
use crate::order_laws::{lemma_raw_canonical, lemma_same_values_encode};
use crate::map_laws::{
    canonical_option, distinct_keys, lemma_canonical_fields, lemma_entry_values_encode, lemma_fields_of_distinct,
    lemma_lookup_absent, lemma_lookup_present,
};

verus! {

/// Maximum CBOR payload in a local broker packet.
pub const MAX_FRAME_PAYLOAD_BYTES: usize = 65536;

/// Length of the big-endian length prefix.
pub const FRAME_LENGTH_BYTES: usize = 4;

/// Kernel-provided Unix peer identity, taken only from `SO_PEERCRED`.
#[derive(Debug, Clone, Copy, PartialEq, Eq)]
pub struct PeerCredentials {
    pub pid: u32,
    pub uid: u32,
    pub gid: u32,
}

impl PeerCredentials {
    pub fn from_so_peer_cred(pid: u32, uid: u32, gid: u32) -> (r: PeerCredentials)
        ensures
            r.pid == pid && r.uid == uid && r.gid == gid,
    {
        PeerCredentials { pid, uid, gid }
    }

    pub fn is_root(self) -> (r: bool)
        ensures
            r == (self.uid == 0),
    {
        self.uid == 0
    }
}

/// Whether a peer can access an object owned by `owner_uid`: root, or the
/// owner itself.
pub fn can_access_owned_request(peer: PeerCredentials, owner_uid: u32) -> (r: bool)
    ensures
        r == (peer.uid == 0 || peer.uid == owner_uid),
{
    peer.is_root() || peer.uid == owner_uid
}

/// The sole visible answer for absent and foreign requester objects.
pub fn concealed_visibility_error() -> (r: ErrorCode)
    ensures
        r == ErrorCode::NotFoundOrNotAuthorized,
{
    ErrorCode::NotFoundOrNotAuthorized
}

/// Whether a requester socket mode grants nothing beyond owner and group
/// read/write/execute, and nothing to others.
pub fn socket_mode_is_safe(mode: u32) -> (r: bool)
    ensures
        r == (mode & !0o770u32 == 0 && mode & 0o007u32 == 0),
{
    mode & !0o770u32 == 0 && mode & 0o007u32 == 0
}

/// Whether a socket's parent directory is a root-owned directory that group
/// and others cannot write.
pub fn socket_parent_is_private(is_dir: bool, uid: u32, mode: u32) -> (r: bool)
    ensures
        r == (is_dir && uid == 0 && mode & 0o022u32 == 0),
{
    is_dir && uid == 0 && mode & 0o022u32 == 0
}

/// The closed v1 requester method namespace.
#[derive(Debug, Clone, Copy, PartialEq, Eq)]
pub enum Method {
    SubmitPackageInstall,
    GetRequest,
    ListRequests,
    CancelRequest,
    GetReceipt,
}

/// The root-only administration namespace, carried only on the admin socket.
#[derive(Debug, Clone, Copy, PartialEq, Eq)]
pub enum AdminMethod {
    StartPairing,
    ChangeCredentials,
    Reconcile,
    Export,
    Purge,
    Unenroll,
}

impl AdminMethod {
    /// The administrative method's number in its own namespace.
    pub open spec fn spec_code(self) -> u16 {
        match self {
            AdminMethod::StartPairing => 1,
            AdminMethod::ChangeCredentials => 2,
            AdminMethod::Reconcile => 3,
            AdminMethod::Export => 4,
            AdminMethod::Purge => 5,
            AdminMethod::Unenroll => 6,
        }
    }

    pub fn code(self) -> (r: u16)
        ensures
            r == self.spec_code(),
    {
        match self {
            AdminMethod::StartPairing => 1,
            AdminMethod::ChangeCredentials => 2,
            AdminMethod::Reconcile => 3,
            AdminMethod::Export => 4,
            AdminMethod::Purge => 5,
            AdminMethod::Unenroll => 6,
        }
    }
}

impl Method {
    /// The method's wire code.
    pub open spec fn spec_code(self) -> u64 {
        match self {
            Method::SubmitPackageInstall => 1,
            Method::GetRequest => 2,
            Method::ListRequests => 3,
            Method::CancelRequest => 4,
            Method::GetReceipt => 5,
        }
    }

    /// The method with a wire code, if any.
    pub open spec fn spec_from_code(value: u64) -> Option<Method> {
        if value == 1 {
            Some(Method::SubmitPackageInstall)
        } else if value == 2 {
            Some(Method::GetRequest)
        } else if value == 3 {
            Some(Method::ListRequests)
        } else if value == 4 {
            Some(Method::CancelRequest)
        } else if value == 5 {
            Some(Method::GetReceipt)
        } else {
            None
        }
    }

    pub fn code(self) -> (r: u64)
        ensures
            r == self.spec_code(),
    {
        match self {
            Method::SubmitPackageInstall => 1,
            Method::GetRequest => 2,
            Method::ListRequests => 3,
            Method::CancelRequest => 4,
            Method::GetReceipt => 5,
        }
    }

    /// The requester method with a wire code; others are unknown.
    pub fn from_code(value: u64) -> (r: Result<Method, RpcError>)
        ensures
            match Method::spec_from_code(value) {
                Some(m) => r == Ok::<Method, RpcError>(m),
                None => r == Err::<Method, RpcError>(RpcError::UnknownMethod { value }),
            },
    {
        match value {
            1 => Ok(Method::SubmitPackageInstall),
            2 => Ok(Method::GetRequest),
            3 => Ok(Method::ListRequests),
            4 => Ok(Method::CancelRequest),
            5 => Ok(Method::GetReceipt),
            _ => Err(RpcError::UnknownMethod { value }),
        }
    }
}

/// A transport-only 128-bit correlation identifier.
#[derive(Debug, Clone, Copy, PartialEq, Eq, PartialOrd, Ord, Hash)]
pub struct CorrelationId([u8; 16]);

impl View for CorrelationId {
    type V = Seq<u8>;

    closed spec fn view(&self) -> Seq<u8> {
        self.0@
    }
}

impl CorrelationId {
    pub fn new(value: [u8; 16]) -> (r: CorrelationId)
        ensures
            r@ == value@,
    {
        CorrelationId(value)
    }

    pub fn as_bytes(&self) -> (r: &[u8; 16])
        ensures
            r@ == self@,
    {
        &self.0
    }

    /// The identifier's length.
    pub proof fn lemma_len(&self)
        ensures
            self@.len() == 16,
    {
    }
}

/// The kind of an RPC message.
#[derive(Debug, Clone, Copy, PartialEq, Eq)]
pub enum MessageKind {
    Request,
    Response,
    Error,
}

impl MessageKind {
    pub open spec fn spec_code(self) -> u64 {
        match self {
            MessageKind::Request => 1,
            MessageKind::Response => 2,
            MessageKind::Error => 3,
        }
    }

    pub fn code(self) -> (r: u64)
        ensures
            r == self.spec_code(),
    {
        match self {
            MessageKind::Request => 1,
            MessageKind::Response => 2,
            MessageKind::Error => 3,
        }
    }
}

/// Protocol error codes of the broker.
#[derive(Debug, Clone, Copy, PartialEq, Eq)]
pub enum ErrorCode {
    InvalidInput,
    NotAllowed,
    Busy,
    IdempotencyConflict,
    ApprovalLocked,
    NotFoundOrNotAuthorized,
    InvalidCursor,
    CancellationTooLate,
    DeviceNotUnpaired,
    TemporarilyUnavailable,
    CredentialLimitReached,
    UnsafeLifecycleState,
    NotRecoveryRequired,
    ReconciliationNotProved,
    RetentionProtected,
    ProtocolViolation,
    Internal,
}

/// The wire text of an error code.
pub open spec fn error_code_text(c: ErrorCode) -> Seq<char> {
    match c {
        ErrorCode::InvalidInput => "invalid_input"@,
        ErrorCode::NotAllowed => "not_allowed"@,
        ErrorCode::Busy => "busy"@,
        ErrorCode::IdempotencyConflict => "idempotency_conflict"@,
        ErrorCode::ApprovalLocked => "approval_locked"@,
        ErrorCode::NotFoundOrNotAuthorized => "not_found_or_not_authorized"@,
        ErrorCode::InvalidCursor => "invalid_cursor"@,
        ErrorCode::CancellationTooLate => "cancellation_too_late"@,
        ErrorCode::DeviceNotUnpaired => "device_not_unpaired"@,
        ErrorCode::TemporarilyUnavailable => "temporarily_unavailable"@,
        ErrorCode::CredentialLimitReached => "credential_limit_reached"@,
        ErrorCode::UnsafeLifecycleState => "unsafe_lifecycle_state"@,
        ErrorCode::NotRecoveryRequired => "not_recovery_required"@,
        ErrorCode::ReconciliationNotProved => "reconciliation_not_proved"@,
        ErrorCode::RetentionProtected => "retention_protected"@,
        ErrorCode::ProtocolViolation => "protocol_violation"@,
        ErrorCode::Internal => "internal"@,
    }
}

/// The error code with a wire text: the first in declaration order whose
/// text it is.
pub open spec fn parse_error_code(t: Seq<char>) -> Option<ErrorCode> {
    if t == error_code_text(ErrorCode::InvalidInput) {
        Some(ErrorCode::InvalidInput)
    } else if t == error_code_text(ErrorCode::NotAllowed) {
        Some(ErrorCode::NotAllowed)
    } else if t == error_code_text(ErrorCode::Busy) {
        Some(ErrorCode::Busy)
    } else if t == error_code_text(ErrorCode::IdempotencyConflict) {
        Some(ErrorCode::IdempotencyConflict)
    } else if t == error_code_text(ErrorCode::ApprovalLocked) {
        Some(ErrorCode::ApprovalLocked)
    } else if t == error_code_text(ErrorCode::NotFoundOrNotAuthorized) {
        Some(ErrorCode::NotFoundOrNotAuthorized)
    } else if t == error_code_text(ErrorCode::InvalidCursor) {
        Some(ErrorCode::InvalidCursor)
    } else if t == error_code_text(ErrorCode::CancellationTooLate) {
        Some(ErrorCode::CancellationTooLate)
    } else if t == error_code_text(ErrorCode::DeviceNotUnpaired) {
        Some(ErrorCode::DeviceNotUnpaired)
    } else if t == error_code_text(ErrorCode::TemporarilyUnavailable) {
        Some(ErrorCode::TemporarilyUnavailable)
    } else if t == error_code_text(ErrorCode::CredentialLimitReached) {
        Some(ErrorCode::CredentialLimitReached)
    } else if t == error_code_text(ErrorCode::UnsafeLifecycleState) {
        Some(ErrorCode::UnsafeLifecycleState)
    } else if t == error_code_text(ErrorCode::NotRecoveryRequired) {
        Some(ErrorCode::NotRecoveryRequired)
    } else if t == error_code_text(ErrorCode::ReconciliationNotProved) {
        Some(ErrorCode::ReconciliationNotProved)
    } else if t == error_code_text(ErrorCode::RetentionProtected) {
        Some(ErrorCode::RetentionProtected)
    } else if t == error_code_text(ErrorCode::ProtocolViolation) {
        Some(ErrorCode::ProtocolViolation)
    } else if t == error_code_text(ErrorCode::Internal) {
        Some(ErrorCode::Internal)
    } else {
        None
    }
}

/// Whether a string holds exactly the text of a literal.
fn text_is(value: &String, literal: &str) -> (r: bool)
    ensures
        r == (value@ == literal@),
{
    let l = literal.to_owned();
    *value == l
}

impl ErrorCode {
    pub fn text(self) -> (r: &'static str)
        ensures
            r@ == error_code_text(self),
    {
        match self {
            ErrorCode::InvalidInput => "invalid_input",
            ErrorCode::NotAllowed => "not_allowed",
            ErrorCode::Busy => "busy",
            ErrorCode::IdempotencyConflict => "idempotency_conflict",
            ErrorCode::ApprovalLocked => "approval_locked",
            ErrorCode::NotFoundOrNotAuthorized => "not_found_or_not_authorized",
            ErrorCode::InvalidCursor => "invalid_cursor",
            ErrorCode::CancellationTooLate => "cancellation_too_late",
            ErrorCode::DeviceNotUnpaired => "device_not_unpaired",
            ErrorCode::TemporarilyUnavailable => "temporarily_unavailable",
            ErrorCode::CredentialLimitReached => "credential_limit_reached",
            ErrorCode::UnsafeLifecycleState => "unsafe_lifecycle_state",
            ErrorCode::NotRecoveryRequired => "not_recovery_required",
            ErrorCode::ReconciliationNotProved => "reconciliation_not_proved",
            ErrorCode::RetentionProtected => "retention_protected",
            ErrorCode::ProtocolViolation => "protocol_violation",
            ErrorCode::Internal => "internal",
        }
    }

    /// The error code with a wire text; any other text is unknown.
    pub fn parse(value: &String) -> (r: Result<ErrorCode, RpcError>)
        ensures
            match parse_error_code(value@) {
                Some(c) => r == Ok::<ErrorCode, RpcError>(c),
                None => r == Err::<ErrorCode, RpcError>(RpcError::UnknownErrorCode),
            },
    {
        if text_is(value, "invalid_input") {
            Ok(ErrorCode::InvalidInput)
        } else if text_is(value, "not_allowed") {
            Ok(ErrorCode::NotAllowed)
        } else if text_is(value, "busy") {
            Ok(ErrorCode::Busy)
        } else if text_is(value, "idempotency_conflict") {
            Ok(ErrorCode::IdempotencyConflict)
        } else if text_is(value, "approval_locked") {
            Ok(ErrorCode::ApprovalLocked)
        } else if text_is(value, "not_found_or_not_authorized") {
            Ok(ErrorCode::NotFoundOrNotAuthorized)
        } else if text_is(value, "invalid_cursor") {
            Ok(ErrorCode::InvalidCursor)
        } else if text_is(value, "cancellation_too_late") {
            Ok(ErrorCode::CancellationTooLate)
        } else if text_is(value, "device_not_unpaired") {
            Ok(ErrorCode::DeviceNotUnpaired)
        } else if text_is(value, "temporarily_unavailable") {
            Ok(ErrorCode::TemporarilyUnavailable)
        } else if text_is(value, "credential_limit_reached") {
            Ok(ErrorCode::CredentialLimitReached)
        } else if text_is(value, "unsafe_lifecycle_state") {
            Ok(ErrorCode::UnsafeLifecycleState)
        } else if text_is(value, "not_recovery_required") {
            Ok(ErrorCode::NotRecoveryRequired)
        } else if text_is(value, "reconciliation_not_proved") {
            Ok(ErrorCode::ReconciliationNotProved)
        } else if text_is(value, "retention_protected") {
            Ok(ErrorCode::RetentionProtected)
        } else if text_is(value, "protocol_violation") {
            Ok(ErrorCode::ProtocolViolation)
        } else if text_is(value, "internal") {
            Ok(ErrorCode::Internal)
        } else {
            Err(RpcError::UnknownErrorCode)
        }
    }
}

/// Why a frame is refused.
#[derive(Debug, Clone, Copy, PartialEq, Eq)]
pub enum FrameError {
    TooShort,
    LengthMismatch { declared: usize, actual: usize },
    PayloadTooLarge { limit: usize },
    Rpc(RpcError),
}

/// Why an RPC message is refused.
#[derive(Debug, Clone, Copy, PartialEq, Eq)]
pub enum RpcError {
    Cbor(DecodeError),
    Encode(EncodeError),
    ProtocolMismatch { actual: u64 },
    RootNotMap,
    MissingField { field: u64 },
    UnknownField { field: u64 },
    WrongType { field: u64 },
    InvalidField { field: u64 },
    UnknownMethod { value: u64 },
    InvalidMessageKind { value: u64 },
    UnknownErrorCode,
}

/// A request sent by a requester or administration client.
#[derive(Debug, Clone, PartialEq, Eq)]
pub struct RpcRequest {
    pub correlation_id: CorrelationId,
    pub method: Method,
    /// Method-specific body: always an integer-keyed map.
    pub body: CborValue,
}

/// A normal method result, with a map body.
#[derive(Debug, Clone, PartialEq, Eq)]
pub struct RpcResponse {
    pub correlation_id: CorrelationId,
    pub method: Method,
    pub body: CborValue,
}

/// A protocol error answer.
#[derive(Debug, Clone, PartialEq, Eq)]
pub struct RpcFailure {
    pub correlation_id: CorrelationId,
    pub method: Method,
    pub code: ErrorCode,
    pub retryable: bool,
    /// Optional bounded safe metadata, a map.
    pub details: Option<CborValue>,
}

/// One RPC message.
#[derive(Debug, Clone, PartialEq, Eq)]
pub enum RpcMessage {
    Request(RpcRequest),
    Response(RpcResponse),
    Failure(RpcFailure),
}

/// The mathematical model of an RPC message.
pub enum RpcModel {
    Request { correlation: Seq<u8>, method: Method, body: Cbor },
    Response { correlation: Seq<u8>, method: Method, body: Cbor },
    Failure { correlation: Seq<u8>, method: Method, code: ErrorCode, retryable: bool, details: Option<Cbor> },
}

impl View for RpcMessage {
    type V = RpcModel;

    open spec fn view(&self) -> RpcModel {
        match self {
            RpcMessage::Request(m) => RpcModel::Request { correlation: m.correlation_id@, method: m.method, body: m.body@ },
            RpcMessage::Response(m) => RpcModel::Response { correlation: m.correlation_id@, method: m.method, body: m.body@ },
            RpcMessage::Failure(m) => RpcModel::Failure {
                correlation: m.correlation_id@,
                method: m.method,
                code: m.code,
                retryable: m.retryable,
                details: match m.details {
                    Some(d) => Some(d@),
                    None => None,
                },
            },
        }
    }
}

/// The first four envelope fields: version, kind, correlation, method.
pub open spec fn envelope(kind: u64, correlation: Seq<u8>, method: Method) -> Seq<(Cbor, Cbor)> {
    Seq::empty()
        .push((Cbor::Unsigned(1), Cbor::Unsigned(1)))
        .push((Cbor::Unsigned(2), Cbor::Unsigned(kind)))
        .push((Cbor::Unsigned(3), Cbor::Bytes(correlation)))
        .push((Cbor::Unsigned(4), Cbor::Unsigned(method.spec_code())))
}

/// The map of a message, or why the message cannot be written.
pub open spec fn spec_rpc_cbor(x: RpcModel) -> Result<Cbor, RpcError> {
    match x {
        RpcModel::Request { correlation, method, body } => if integer_keyed(body) {
            Ok(Cbor::Entries(envelope(1, correlation, method).push((Cbor::Unsigned(5), body))))
        } else {
            Err(RpcError::WrongType { field: 5 })
        },
        RpcModel::Response { correlation, method, body } => if integer_keyed(body) {
            Ok(Cbor::Entries(envelope(2, correlation, method).push((Cbor::Unsigned(5), body))))
        } else {
            Err(RpcError::WrongType { field: 5 })
        },
        RpcModel::Failure { correlation, method, code, retryable, details } => {
            let base = envelope(3, correlation, method)
                .push((Cbor::Unsigned(5), Cbor::Text(error_code_text(code))))
                .push((Cbor::Unsigned(6), Cbor::Bool(retryable)));
            match details {
                Some(d) => if d is Entries {
                    Ok(Cbor::Entries(base.push((Cbor::Unsigned(7), d))))
                } else {
                    Err(RpcError::WrongType { field: 7 })
                },
                None => Ok(Cbor::Entries(base)),
            }
        },
    }
}

/// The fields of an RPC message root.
pub open spec fn rpc_fields(m: Cbor) -> Result<FieldSeq, RpcError> {
    match spec_fields(m) {
        Ok(fs) => Ok(fs),
        Err(SchemaError::InvalidField { field }) => Err(RpcError::InvalidField { field }),
        Err(_) => Err(RpcError::RootNotMap),
    }
}

/// The field numbers a message kind permits.
pub open spec fn rpc_known(failure: bool) -> Seq<u64> {
    Seq::new(if failure { 7 } else { 5 }, |i: int| (i + 1) as u64)
}

/// The envelope's correlation and method, or the first envelope error.
pub open spec fn spec_envelope(fs: FieldSeq, failure: bool) -> Result<(Seq<u8>, Method), RpcError> {
    match first_unknown(fs, rpc_known(failure)) {
        Some(k) => Err(RpcError::UnknownField { field: k }),
        None => match lookup(fs, 1) {
            None => Err(RpcError::MissingField { field: 1 }),
            Some(Cbor::Unsigned(v)) => if v != 1 {
                Err(RpcError::ProtocolMismatch { actual: v })
            } else {
                match lookup(fs, 3) {
                    None => Err(RpcError::MissingField { field: 3 }),
                    Some(Cbor::Bytes(b)) => if b.len() != 16 {
                        Err(RpcError::InvalidField { field: 3 })
                    } else {
                        match lookup(fs, 4) {
                            None => Err(RpcError::MissingField { field: 4 }),
                            Some(Cbor::Unsigned(c)) => match Method::spec_from_code(c) {
                                Some(m) => Ok((b, m)),
                                None => Err(RpcError::UnknownMethod { value: c }),
                            },
                            Some(_) => Err(RpcError::WrongType { field: 4 }),
                        }
                    },
                    Some(_) => Err(RpcError::WrongType { field: 3 }),
                }
            },
            Some(_) => Err(RpcError::WrongType { field: 1 }),
        },
    }
}

/// A request or response with the given envelope, or the body error.
pub open spec fn spec_body_message(fs: FieldSeq, response: bool) -> Result<RpcModel, RpcError> {
    match spec_envelope(fs, false) {
        Err(e) => Err(e),
        Ok((c, m)) => match lookup(fs, 5) {
            None => Err(RpcError::MissingField { field: 5 }),
            Some(b) => if !integer_keyed(b) {
                Err(RpcError::WrongType { field: 5 })
            } else if response {
                Ok(RpcModel::Response { correlation: c, method: m, body: b })
            } else {
                Ok(RpcModel::Request { correlation: c, method: m, body: b })
            },
        },
    }
}

/// A failure message, or its first error.
pub open spec fn spec_failure(fs: FieldSeq) -> Result<RpcModel, RpcError> {
    match spec_envelope(fs, true) {
        Err(e) => Err(e),
        Ok((c, m)) => match lookup(fs, 5) {
            None => Err(RpcError::MissingField { field: 5 }),
            Some(Cbor::Text(t)) => if encode_utf8(t).len() > 64 {
                Err(RpcError::InvalidField { field: 5 })
            } else {
                match parse_error_code(t) {
                    None => Err(RpcError::UnknownErrorCode),
                    Some(code) => match lookup(fs, 6) {
                        None => Err(RpcError::MissingField { field: 6 }),
                        Some(Cbor::Bool(r)) => match lookup(fs, 7) {
                            None => Ok(RpcModel::Failure { correlation: c, method: m, code, retryable: r, details: None }),
                            Some(d) => if d is Entries {
                                Ok(RpcModel::Failure { correlation: c, method: m, code, retryable: r, details: Some(d) })
                            } else {
                                Err(RpcError::WrongType { field: 7 })
                            },
                        },
                        Some(_) => Err(RpcError::WrongType { field: 6 }),
                    },
                }
            },
            Some(_) => Err(RpcError::WrongType { field: 5 }),
        },
    }
}

/// The message a map holds, or its first error: root shape, then the kind,
/// then the kind's fields.
pub open spec fn spec_rpc_from(m: Cbor) -> Result<RpcModel, RpcError> {
    match rpc_fields(m) {
        Err(e) => Err(e),
        Ok(fs) => match lookup(fs, 2) {
            None => Err(RpcError::MissingField { field: 2 }),
            Some(Cbor::Unsigned(v)) => if v == 1 {
                spec_body_message(fs, false)
            } else if v == 2 {
                spec_body_message(fs, true)
            } else if v == 3 {
                spec_failure(fs)
            } else {
                Err(RpcError::InvalidMessageKind { value: v })
            },
            Some(_) => Err(RpcError::WrongType { field: 2 }),
        },
    }
}

/// The frame of a message, or why it cannot be written.
pub open spec fn spec_encode_frame(x: RpcModel) -> Result<Seq<u8>, FrameError> {
    match spec_rpc_cbor(x) {
        Err(e) => Err(FrameError::Rpc(e)),
        Ok(c) => match spec_encode(c) {
            Err(e) => Err(FrameError::Rpc(RpcError::Encode(e))),
            Ok(p) => if p.len() > MAX_FRAME_PAYLOAD_BYTES {
                Err(FrameError::PayloadTooLarge { limit: MAX_FRAME_PAYLOAD_BYTES })
            } else {
                Ok(be_bytes(p.len(), 4) + p)
            },
        },
    }
}

/// The message in a packet, or why the packet is refused: length prefix
/// first, then the payload.
pub open spec fn spec_decode_frame(p: Seq<u8>) -> Result<RpcModel, FrameError> {
    if p.len() < FRAME_LENGTH_BYTES {
        Err(FrameError::TooShort)
    } else {
        let declared = be_value(p.subrange(0, 4));
        if declared > MAX_FRAME_PAYLOAD_BYTES {
            Err(FrameError::PayloadTooLarge { limit: MAX_FRAME_PAYLOAD_BYTES })
        } else if declared != p.len() - 4 {
            Err(FrameError::LengthMismatch { declared: declared as usize, actual: (p.len() - 4) as usize })
        } else {
            match spec_decode(p.subrange(4, p.len() as int)) {
                Err(e) => Err(FrameError::Rpc(RpcError::Cbor(e))),
                Ok(c) => match spec_rpc_from(c) {
                    Err(e) => Err(FrameError::Rpc(e)),
                    Ok(x) => Ok(x),
                },
            }
        }
    }
}

/// Whether a value is a map whose keys are all unsigned integers.
pub open spec fn integer_keyed(b: Cbor) -> bool {
    &&& b is Entries
    &&& forall|i: int| 0 <= i < b->Entries_0.len() ==> (#[trigger] b->Entries_0[i]).0 is Unsigned
}

/// Checks that a request or response body is an integer-keyed map.
fn validate_integer_keyed(value: &CborValue, field_number: u64) -> (r: Result<(), RpcError>)
    ensures
        r == (if integer_keyed(value@) { Ok::<(), RpcError>(()) } else { Err(RpcError::WrongType { field: field_number }) }),
{
    match value {
        CborValue::Entries(es) => {
            proof {
                crate::cbor::lemma_pair_models(es@);
            }
            let mut i: usize = 0;
            while i < es.len()
                invariant
                    i <= es@.len(),
                    value@ == Cbor::Entries(crate::cbor::pair_models(es@)),
                    crate::cbor::pair_models(es@).len() == es@.len(),
                    forall|j: int| 0 <= j < es@.len() ==> #[trigger] crate::cbor::pair_models(es@)[j] == (es@[j].0@, es@[j].1@),
                    forall|j: int| 0 <= j < i ==> (#[trigger] crate::cbor::pair_models(es@)[j]).0 is Unsigned,
                decreases es@.len() - i,
            {
                match &es[i].0 {
                    CborValue::Unsigned(_) => {},
                    _ => {
                        proof {
                            assert(!(es@[i as int].0@ is Unsigned));
                            assert(!(crate::cbor::pair_models(es@)[i as int].0 is Unsigned));
                        }
                        return Err(RpcError::WrongType { field: field_number });
                    },
                }
                i = i + 1;
            }
            Ok(())
        },
        _ => Err(RpcError::WrongType { field: field_number }),
    }
}

/// Checks that a body is a map.
fn validate_body(value: &CborValue, field_number: u64) -> (r: Result<(), RpcError>)
    ensures
        r == (if value@ is Entries { Ok::<(), RpcError>(()) } else { Err(RpcError::WrongType { field: field_number }) }),
{
    match value {
        CborValue::Entries(_) => Ok(()),
        _ => Err(RpcError::WrongType { field: field_number }),
    }
}

/// The first four envelope entries.
fn envelope_entries(kind: MessageKind, correlation_id: CorrelationId, method: Method) -> (r: Vec<(CborValue, CborValue)>)
    ensures
        crate::cbor::pair_models(r@) == envelope(kind.spec_code(), correlation_id@, method),
{
    let mut e: Vec<(CborValue, CborValue)> = Vec::new();
    proof {
        assert(crate::cbor::pair_models(e@) =~= Seq::<(Cbor, Cbor)>::empty());
    }
    push_field(&mut e, 1, CborValue::Unsigned(1));
    push_field(&mut e, 2, CborValue::Unsigned(kind.code()));
    push_field(&mut e, 3, crate::fields::bytes(correlation_id.as_bytes()));
    push_field(&mut e, 4, CborValue::Unsigned(method.code()));
    e
}

impl RpcRequest {
    pub fn new(correlation_id: CorrelationId, method: Method, body: CborValue) -> (r: Result<RpcRequest, RpcError>)
        ensures
            integer_keyed(body@) <==> r is Ok,
            r matches Ok(x) ==> x.correlation_id == correlation_id && x.method == method && x.body@ == body@,
            r matches Err(e) ==> e == (RpcError::WrongType { field: 5 }),
    {
        validate_integer_keyed(&body, 5)?;
        Ok(RpcRequest { correlation_id, method, body })
    }
}

impl RpcResponse {
    pub fn new(correlation_id: CorrelationId, method: Method, body: CborValue) -> (r: Result<RpcResponse, RpcError>)
        ensures
            integer_keyed(body@) <==> r is Ok,
            r matches Ok(x) ==> x.correlation_id == correlation_id && x.method == method && x.body@ == body@,
            r matches Err(e) ==> e == (RpcError::WrongType { field: 5 }),
    {
        validate_integer_keyed(&body, 5)?;
        Ok(RpcResponse { correlation_id, method, body })
    }
}

impl RpcFailure {
    pub fn new(
        correlation_id: CorrelationId,
        method: Method,
        code: ErrorCode,
        retryable: bool,
        details: Option<CborValue>,
    ) -> (r: Result<RpcFailure, RpcError>)
        ensures
            (details matches Some(d) ==> d@ is Entries) <==> r is Ok,
            r matches Ok(x) ==> x.correlation_id == correlation_id && x.method == method && x.code == code
                && x.retryable == retryable && x.details == details,
            r matches Err(e) ==> e == (RpcError::WrongType { field: 7 }),
    {
        if let Some(d) = &details {
            validate_body(d, 7)?;
        }
        Ok(RpcFailure { correlation_id, method, code, retryable, details })
    }
}

impl RpcMessage {
    /// The message's map, after checking that its bodies are maps.
    pub fn to_cbor(&self) -> (r: Result<CborValue, RpcError>)
        ensures
            match spec_rpc_cbor(self@) {
                Ok(c) => r matches Ok(v) && v@ == c,
                Err(e) => r == Err::<CborValue, RpcError>(e),
            },
    {
        match self {
            RpcMessage::Request(m) => {
                validate_integer_keyed(&m.body, 5)?;
                let mut e = envelope_entries(MessageKind::Request, m.correlation_id, m.method);
                push_field(&mut e, 5, m.body.deep_clone());
                Ok(CborValue::Entries(e))
            },
            RpcMessage::Response(m) => {
                validate_integer_keyed(&m.body, 5)?;
                let mut e = envelope_entries(MessageKind::Response, m.correlation_id, m.method);
                push_field(&mut e, 5, m.body.deep_clone());
                Ok(CborValue::Entries(e))
            },
            RpcMessage::Failure(m) => {
                if let Some(d) = &m.details {
                    validate_body(d, 7)?;
                }
                let mut e = envelope_entries(MessageKind::Error, m.correlation_id, m.method);
                push_field(&mut e, 5, CborValue::Text(m.code.text().to_owned()));
                push_field(&mut e, 6, CborValue::Bool(m.retryable));
                if let Some(d) = &m.details {
                    push_field(&mut e, 7, d.deep_clone());
                }
                Ok(CborValue::Entries(e))
            },
        }
    }

    /// One length-prefixed frame holding the message's deterministic encoding.
    pub fn encode_frame(&self) -> (r: Result<Vec<u8>, FrameError>)
        ensures
            match spec_encode_frame(self@) {
                Ok(f) => r matches Ok(v) && v@ == f,
                Err(e) => r == Err::<Vec<u8>, FrameError>(e),
            },
    {
        let message = match self.to_cbor() {
            Ok(m) => m,
            Err(e) => {
                return Err(FrameError::Rpc(e));
            },
        };
        let payload = match encode(&message) {
            Ok(p) => p,
            Err(e) => {
                return Err(FrameError::Rpc(RpcError::Encode(e)));
            },
        };
        if payload.len() > MAX_FRAME_PAYLOAD_BYTES {
            return Err(FrameError::PayloadTooLarge { limit: MAX_FRAME_PAYLOAD_BYTES });
        }
        let mut frame: Vec<u8> = Vec::new();
        push_be(payload.len() as u64, 4, &mut frame);
        append_bytes(&mut frame, payload.as_slice());
        Ok(frame)
    }

    /// Reads one frame: the prefix must declare exactly the payload's length.
    pub fn decode_frame(packet: &[u8]) -> (r: Result<RpcMessage, FrameError>)
        ensures
            match spec_decode_frame(packet@) {
                Ok(x) => r matches Ok(v) && v@ == x,
                Err(e) => r == Err::<RpcMessage, FrameError>(e),
            },
    {
        if packet.len() < FRAME_LENGTH_BYTES {
            return Err(FrameError::TooShort);
        }
        let declared = read_be(packet, 0, 4);
        proof {
            crate::cbor::lemma_be_value_bound(packet@.subrange(0, 4));
            assert(crate::cbor::byte_power(4) == 0x1_0000_0000) by {
                reveal_with_fuel(crate::cbor::byte_power, 5);
            }
        }
        let actual = packet.len() - FRAME_LENGTH_BYTES;
        if declared > MAX_FRAME_PAYLOAD_BYTES as u64 {
            return Err(FrameError::PayloadTooLarge { limit: MAX_FRAME_PAYLOAD_BYTES });
        }
        if declared as usize != actual {
            return Err(FrameError::LengthMismatch { declared: declared as usize, actual });
        }
        let value = match decode(vstd::slice::slice_subrange(packet, FRAME_LENGTH_BYTES, packet.len())) {
            Ok(v) => v,
            Err(e) => {
                return Err(FrameError::Rpc(RpcError::Cbor(e)));
            },
        };
        match Self::from_cbor(value) {
            Ok(m) => Ok(m),
            Err(e) => Err(FrameError::Rpc(e)),
        }
    }

    /// Reads a message from a map.
    pub fn from_cbor(value: CborValue) -> (r: Result<RpcMessage, RpcError>)
        ensures
            match spec_rpc_from(value@) {
                Ok(x) => r matches Ok(v) && v@ == x,
                Err(e) => r == Err::<RpcMessage, RpcError>(e),
            },
    {
        let fs = match collect_fields(&value) {
            Ok(fs) => fs,
            Err(SchemaError::InvalidField { field }) => {
                return Err(RpcError::InvalidField { field });
            },
            Err(_) => {
                return Err(RpcError::RootNotMap);
            },
        };
        let kind = match find_field(&fs, 2) {
            None => {
                return Err(RpcError::MissingField { field: 2 });
            },
            Some(i) => match &fs[i].1 {
                CborValue::Unsigned(v) => *v,
                _ => {
                    return Err(RpcError::WrongType { field: 2 });
                },
            },
        };
        if kind == 1 || kind == 2 {
            let (correlation_id, method) = envelope_fields(&fs, false)?;
            let body = match find_field(&fs, 5) {
                None => {
                    return Err(RpcError::MissingField { field: 5 });
                },
                Some(i) => fs[i].1.deep_clone(),
            };
            validate_integer_keyed(&body, 5)?;
            if kind == 1 {
                Ok(RpcMessage::Request(RpcRequest { correlation_id, method, body }))
            } else {
                Ok(RpcMessage::Response(RpcResponse { correlation_id, method, body }))
            }
        } else if kind == 3 {
            let (correlation_id, method) = envelope_fields(&fs, true)?;
            let text = match find_field(&fs, 5) {
                None => {
                    return Err(RpcError::MissingField { field: 5 });
                },
                Some(i) => match &fs[i].1 {
                    CborValue::Text(t) => t.clone(),
                    _ => {
                        return Err(RpcError::WrongType { field: 5 });
                    },
                },
            };
            if text.as_str().as_bytes().len() > 64 {
                return Err(RpcError::InvalidField { field: 5 });
            }
            let code = ErrorCode::parse(&text)?;
            let retryable = match find_field(&fs, 6) {
                None => {
                    return Err(RpcError::MissingField { field: 6 });
                },
                Some(i) => match &fs[i].1 {
                    CborValue::Bool(b) => *b,
                    _ => {
                        return Err(RpcError::WrongType { field: 6 });
                    },
                },
            };
            let details = match find_field(&fs, 7) {
                None => None,
                Some(i) => {
                    let d = fs[i].1.deep_clone();
                    validate_body(&d, 7)?;
                    Some(d)
                },
            };
            Ok(RpcMessage::Failure(RpcFailure { correlation_id, method, code, retryable, details }))
        } else {
            Err(RpcError::InvalidMessageKind { value: kind })
        }
    }
}

/// The rule table naming the fields a message kind permits.
fn rpc_key_table(failure: bool) -> (r: Vec<FieldRule>)
    ensures
        rule_keys(r@) == rpc_known(failure),
{
    let mut r: Vec<FieldRule> = Vec::new();
    let n: u64 = if failure { 7 } else { 5 };
    let mut k: u64 = 1;
    while k <= n
        invariant
            1 <= k <= n + 1,
            n == (if failure { 7u64 } else { 5u64 }),
            r@.len() == k - 1,
            forall|j: int| 0 <= j < r@.len() ==> (#[trigger] r@[j]).key == j + 1,
        decreases n + 1 - k,
    {
        r.push(FieldRule { key: k, kind: FieldKind::Any });
        k = k + 1;
    }
    proof {
        assert(rule_keys(r@) =~= rpc_known(failure));
    }
    r
}

/// The envelope's correlation identifier and method.
fn envelope_fields(fs: &Vec<(u64, CborValue)>, failure: bool) -> (r: Result<(CorrelationId, Method), RpcError>)
    ensures
        match spec_envelope(field_models(fs@), failure) {
            Ok((c, m)) => r matches Ok((id, mm)) && id@ == c && mm == m,
            Err(e) => r == Err::<(CorrelationId, Method), RpcError>(e),
        },
{
    let table = rpc_key_table(failure);
    if let Some(k) = first_unknown_exec(fs, &table) {
        return Err(RpcError::UnknownField { field: k });
    }
    match find_field(fs, 1) {
        None => {
            return Err(RpcError::MissingField { field: 1 });
        },
        Some(i) => match &fs[i].1 {
            CborValue::Unsigned(v) => {
                if *v != 1 {
                    return Err(RpcError::ProtocolMismatch { actual: *v });
                }
            },
            _ => {
                return Err(RpcError::WrongType { field: 1 });
            },
        },
    }
    let correlation_id = match find_field(fs, 3) {
        None => {
            return Err(RpcError::MissingField { field: 3 });
        },
        Some(i) => match &fs[i].1 {
            CborValue::Bytes(b) => {
                if b.len() != 16 {
                    return Err(RpcError::InvalidField { field: 3 });
                }
                CorrelationId(crate::ids::copy_array(b.as_slice()))
            },
            _ => {
                return Err(RpcError::WrongType { field: 3 });
            },
        },
    };
    let method = match find_field(fs, 4) {
        None => {
            return Err(RpcError::MissingField { field: 4 });
        },
        Some(i) => match &fs[i].1 {
            CborValue::Unsigned(c) => Method::from_code(*c)?,
            _ => {
                return Err(RpcError::WrongType { field: 4 });
            },
        },
    };
    Ok((correlation_id, method))
}

/// Why a received packet is refused.
#[derive(Debug, Clone, Copy, PartialEq, Eq)]
pub enum PacketError {
    Frame(FrameError),
    OversizePayload,
}

/// Reads the one message of a received packet: a packet shorter than the
/// prefix is too short, an oversize declaration is refused before anything
/// else, and otherwise the packet is decoded as a frame.
pub fn read_packet(packet: &[u8]) -> (r: Result<RpcMessage, PacketError>)
    ensures
        packet@.len() < FRAME_LENGTH_BYTES ==> r == Err::<RpcMessage, PacketError>(PacketError::Frame(FrameError::TooShort)),
        packet@.len() >= FRAME_LENGTH_BYTES && be_value(packet@.subrange(0, 4)) > MAX_FRAME_PAYLOAD_BYTES
            ==> r == Err::<RpcMessage, PacketError>(PacketError::OversizePayload),
        packet@.len() >= FRAME_LENGTH_BYTES && be_value(packet@.subrange(0, 4)) <= MAX_FRAME_PAYLOAD_BYTES ==> match spec_decode_frame(packet@) {
            Ok(x) => r matches Ok(v) && v@ == x,
            Err(e) => r == Err::<RpcMessage, PacketError>(PacketError::Frame(e)),
        },
{
    if packet.len() < FRAME_LENGTH_BYTES {
        return Err(PacketError::Frame(FrameError::TooShort));
    }
    let declared = read_be(packet, 0, 4);
    if declared > MAX_FRAME_PAYLOAD_BYTES as u64 {
        return Err(PacketError::OversizePayload);
    }
    match RpcMessage::decode_frame(packet) {
        Ok(m) => Ok(m),
        Err(e) => Err(PacketError::Frame(e)),
    }
}

/// Every error code's text is ASCII of at most 64 bytes and parses back to
/// the code itself.
pub proof fn lemma_error_code_text(c: ErrorCode)
    ensures
        parse_error_code(error_code_text(c)) == Some(c),
        encode_utf8(error_code_text(c)).len() <= 64,
{
    reveal_strlit("invalid_input");
    reveal_strlit("not_allowed");
    reveal_strlit("busy");
    reveal_strlit("idempotency_conflict");
    reveal_strlit("approval_locked");
    reveal_strlit("not_found_or_not_authorized");
    reveal_strlit("invalid_cursor");
    reveal_strlit("cancellation_too_late");
    reveal_strlit("device_not_unpaired");
    reveal_strlit("temporarily_unavailable");
    reveal_strlit("credential_limit_reached");
    reveal_strlit("unsafe_lifecycle_state");
    reveal_strlit("not_recovery_required");
    reveal_strlit("reconciliation_not_proved");
    reveal_strlit("retention_protected");
    reveal_strlit("protocol_violation");
    reveal_strlit("internal");
    assert(vstd::utf8::is_ascii_chars(error_code_text(c)));
    vstd::utf8::is_ascii_chars_encode_utf8(error_code_text(c));
}

/// A message with its body or details in canonical form.
pub open spec fn canonical_message(x: RpcModel) -> RpcModel {
    match x {
        RpcModel::Request { correlation, method, body } => RpcModel::Request { correlation, method, body: canonical_form(body) },
        RpcModel::Response { correlation, method, body } => RpcModel::Response { correlation, method, body: canonical_form(body) },
        RpcModel::Failure { correlation, method, code, retryable, details } => RpcModel::Failure {
            correlation,
            method,
            code,
            retryable,
            details: canonical_option(details),
        },
    }
}

/// The correlation identifier of a message.
pub open spec fn correlation_of(x: RpcModel) -> Seq<u8> {
    match x {
        RpcModel::Request { correlation, .. } => correlation,
        RpcModel::Response { correlation, .. } => correlation,
        RpcModel::Failure { correlation, .. } => correlation,
    }
}

/// The fields of a message's map, in the order they are written.
pub open spec fn message_fields(x: RpcModel) -> FieldSeq {
    match x {
        RpcModel::Request { correlation, method, body } => envelope_fields_of(1, correlation, method).push((5, body)),
        RpcModel::Response { correlation, method, body } => envelope_fields_of(2, correlation, method).push((5, body)),
        RpcModel::Failure { correlation, method, code, retryable, details } => {
            let base = envelope_fields_of(3, correlation, method)
                .push((5, Cbor::Text(error_code_text(code))))
                .push((6, Cbor::Bool(retryable)));
            match details {
                Some(d) => base.push((7, d)),
                None => base,
            }
        },
    }
}

/// The envelope's fields.
pub open spec fn envelope_fields_of(kind: u64, correlation: Seq<u8>, method: Method) -> FieldSeq {
    Seq::empty()
        .push((1u64, Cbor::Unsigned(1)))
        .push((2u64, Cbor::Unsigned(kind)))
        .push((3u64, Cbor::Bytes(correlation)))
        .push((4u64, Cbor::Unsigned(method.spec_code())))
}

proof fn lemma_message_fields(x: RpcModel)
    requires
        spec_rpc_cbor(x) is Ok,
    ensures
        spec_rpc_cbor(x)->Ok_0 is Entries,
        spec_fields(spec_rpc_cbor(x)->Ok_0) == Ok::<FieldSeq, SchemaError>(message_fields(x)),
        distinct_keys(message_fields(x)),
        forall|i: int| 0 <= i < message_fields(x).len() ==> 1 <= #[trigger] message_fields(x)[i].0 <= (if x is Failure { 7u64 } else { 5u64 }),
{
    let c = spec_rpc_cbor(x)->Ok_0;
    let es = c->Entries_0;
    let fl = message_fields(x);
    assert(es.len() == fl.len());
    assert forall|i: int| 0 <= i < fl.len() implies #[trigger] es[i] == (Cbor::Unsigned(fl[i].0), fl[i].1) by {
    }
    assert(distinct_keys(fl));
    lemma_fields_of_distinct(es, fl, fl.len());
    assert(fl.subrange(0, fl.len() as int) =~= fl);
}

/// Decoding the frame of a message gives the message back, with its body or
/// details in canonical form, and the message read back encodes to the same
/// frame.
pub proof fn lemma_frame_round_trip(x: RpcModel)
    requires
        correlation_of(x).len() == 16,
        spec_encode_frame(x) is Ok,
    ensures
        spec_decode_frame(spec_encode_frame(x)->Ok_0) == Ok::<RpcModel, FrameError>(canonical_message(x)),
        spec_encode_frame(canonical_message(x)) == spec_encode_frame(x),
{
    lemma_frame_decodes(x);
    lemma_frame_re_encodes(x);
}

proof fn lemma_frame_decodes(x: RpcModel)
    requires
        correlation_of(x).len() == 16,
        spec_encode_frame(x) is Ok,
    ensures
        spec_decode_frame(spec_encode_frame(x)->Ok_0) == Ok::<RpcModel, FrameError>(canonical_message(x)),
{
    let c = spec_rpc_cbor(x)->Ok_0;
    let p = spec_encode(c)->Ok_0;
    let f = spec_encode_frame(x)->Ok_0;
    lemma_byte_powers();
    lemma_be_bytes_value(p.len(), 4);
    assert(f.subrange(0, 4) =~= be_bytes(p.len(), 4));
    assert(f.subrange(4, f.len() as int) =~= p);
    lemma_encode_then_decode(c);
    lemma_message_fields(x);
    lemma_canonical_fields(c);
    let fl = message_fields(x);
    let cfs = spec_fields(canonical_form(c))->Ok_0;
    let failure = x is Failure;
    assert(rpc_fields(canonical_form(c)) == Ok::<FieldSeq, RpcError>(cfs));
    assert forall|i: int| 0 <= i < cfs.len() implies rpc_known(failure).contains(#[trigger] cfs[i].0) by {
        let j = choose|j: int| 0 <= j < fl.len() && cfs[i].0 == fl[j].0;
        let k = cfs[i].0;
        assert(rpc_known(failure)[k - 1] == k);
    }
    assert(first_unknown(cfs, rpc_known(failure)) is None);
    lemma_lookup_present(fl, 0);
    lemma_lookup_present(fl, 1);
    lemma_lookup_present(fl, 2);
    lemma_lookup_present(fl, 3);
    lemma_lookup_present(fl, 4);
    assert(lookup(cfs, 1) == canonical_option(lookup(fl, 1)));
    assert(lookup(cfs, 2) == canonical_option(lookup(fl, 2)));
    assert(lookup(cfs, 3) == canonical_option(lookup(fl, 3)));
    assert(lookup(cfs, 4) == canonical_option(lookup(fl, 4)));
    assert(lookup(cfs, 5) == canonical_option(lookup(fl, 5)));
    match x {
        RpcModel::Failure { correlation, method, code, retryable, details } => {
            lemma_error_code_text(code);
            lemma_lookup_present(fl, 5);
            assert(lookup(cfs, 6) == canonical_option(lookup(fl, 6)));
            assert(lookup(cfs, 7) == canonical_option(lookup(fl, 7)));
            match details {
                Some(d) => {
                    lemma_lookup_present(fl, 6);
                },
                None => {
                    lemma_lookup_absent(fl, 7);
                },
            }
        },
        RpcModel::Request { body, .. } => {
            lemma_entry_values_encode(c);
            assert(c->Entries_0[4].1 == body);
            lemma_canonical_integer_keyed(body);
        },
        RpcModel::Response { body, .. } => {
            lemma_entry_values_encode(c);
            assert(c->Entries_0[4].1 == body);
            lemma_canonical_integer_keyed(body);
        },
    }
}

proof fn lemma_frame_re_encodes(x: RpcModel)
    requires
        spec_encode_frame(x) is Ok,
    ensures
        spec_encode_frame(canonical_message(x)) == spec_encode_frame(x),
{
    let c = spec_rpc_cbor(x)->Ok_0;
    let y = canonical_message(x);
    lemma_entry_values_encode(c);
    let xe = c->Entries_0;
    let last = (xe.len() - 1) as int;
    match x {
        RpcModel::Request { body, .. } => {
            assert(xe[last].1 == body);
            lemma_raw_canonical(body);
            lemma_canonical_integer_keyed(body);
        },
        RpcModel::Response { body, .. } => {
            assert(xe[last].1 == body);
            lemma_raw_canonical(body);
            lemma_canonical_integer_keyed(body);
        },
        RpcModel::Failure { details, .. } => {
            if let Some(d) = details {
                lemma_raw_canonical(d);
                assert(xe[last].1 == d);
            }
        },
    }
    assert(spec_rpc_cbor(y) is Ok);
    let ye = spec_rpc_cbor(y)->Ok_0->Entries_0;
    assert forall|i: int| 0 <= i < xe.len() implies spec_encode_raw(#[trigger] ye[i].1) == spec_encode_raw(xe[i].1) by {
        if i < last {
            assert(ye[i].1 == xe[i].1);
        }
    }
    lemma_same_values_encode(xe, ye);
}

/// A frame the decoder accepts is exactly the frame of the message read from
/// it: no other bytes are ever accepted for a message.
pub proof fn lemma_accepted_frame_re_encodes(p: Seq<u8>)
    requires
        spec_decode_frame(p) is Ok,
    ensures
        spec_encode_frame(spec_decode_frame(p)->Ok_0) == Ok::<Seq<u8>, FrameError>(p),
{
    let q = p.subrange(4, p.len() as int);
    let c = spec_decode(q)->Ok_0;
    let x = spec_decode_frame(p)->Ok_0;
    lemma_decode_then_encode(q);
    let fs = spec_fields(c)->Ok_0;
    let failure = x is Failure;
    assert(spec_rpc_cbor(x) is Ok);
    lemma_message_fields(x);
    let m = spec_rpc_cbor(x)->Ok_0;
    let fl = message_fields(x);
    let known = rpc_known(failure);
    assert(first_unknown(fs, known) is None);
    assert forall|i: int| 0 <= i < fs.len() implies known.contains(#[trigger] fs[i].0) by {
        if !known.contains(fs[i].0) {
            assert(exists|i: int| 0 <= i < fs.len() && !known.contains(#[trigger] fs[i].0));
        }
    }
    lemma_lookup_present(fl, 0);
    lemma_lookup_present(fl, 1);
    lemma_lookup_present(fl, 2);
    lemma_lookup_present(fl, 3);
    lemma_lookup_present(fl, 4);
    if failure {
        lemma_lookup_present(fl, 5);
        if fl.len() == 7 {
            lemma_lookup_present(fl, 6);
        } else {
            lemma_lookup_absent(fl, 7);
        }
    }
    assert forall|k: u64| #[trigger] same_encoding(lookup(fs, k), lookup(fl, k)) by {
        if k < 1 || k > (if failure { 7u64 } else { 5u64 }) {
            if known.contains(k) {
                let j = choose|j: int| 0 <= j < known.len() && known[j] == k;
                assert(known[j] == j + 1);
            }
            lemma_unknown_absent(fs, known, k);
            assert forall|i: int| 0 <= i < fl.len() implies fl[i].0 != k by {
                assert(1 <= fl[i].0 <= (if failure { 7u64 } else { 5u64 }));
            }
            lemma_lookup_absent(fl, k);
        }
    }
    lemma_same_fields_encode(c, m);
    lemma_be_roundtrip(p.subrange(0, 4));
    assert(p =~= p.subrange(0, 4) + q);
}

/// Bringing an encodable integer-keyed map into canonical form keeps its
/// keys unsigned.
proof fn lemma_canonical_integer_keyed(b: Cbor)
    requires
        integer_keyed(b),
        spec_encode_raw(b) is Ok,
    ensures
        integer_keyed(canonical_form(b)),
{
    let es = b->Entries_0;
    let n = es.len();
    let keys = crate::cbor::spec_key_encodings(es, n)->Ok_0;
    let order = crate::cbor::key_order(keys, n);
    crate::cbor_laws::lemma_key_order_range(keys, n);
    crate::map_laws::lemma_canonical_pairs_index(es, order, n);
    let cp = crate::cbor_laws::canonical_pairs(es, order, n);
    assert forall|i: int| 0 <= i < cp.len() implies (#[trigger] cp[i]).0 is Unsigned by {
        assert(es[order[i]].0 is Unsigned);
    }
}

} // verus!
