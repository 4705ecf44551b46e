//! The broker's per-request lifecycle authority: the state graph, the race
//! winners between decisions, expiry, cancellation and generation changes,
//! the hash-chained event log and the terminal receipt draft.
//!
//! A terminal state is never left, expiry and a stale credential generation
//! win before any decision, every event links the digest of the one before,
//! and a receipt exists exactly when the state is terminal.

use vstd::prelude::*;
use vstd::string::*;
use vstd::utf8::*;
use crate::cbor::{append_bytes, be_bytes, push_be, same_bytes};
use crate::cli::{binary_package_name, is_binary_package_name, is_operation_key, operation_key};
use crate::cose::{ed25519_public, ed25519_public_key};
use crate::digest::{sha256, sha256_digest, Digest};
use crate::schema::Decision;
use crate::sealed_plan::{handle_shape, is_handle_shape};

verus! {

/// Why typed intake refused a value.
#[derive(Debug, Clone, Copy, PartialEq, Eq, Structural)]
pub enum IntakeError {
    InvalidPublicId,
    InvalidOperationKey,
    InvalidPackageName,
}

/// A public RootPermit identifier: 22 base64url characters.
#[derive(Debug, Clone, PartialEq, Eq)]
pub struct PublicId(String);

impl View for PublicId {
    type V = Seq<char>;

    closed spec fn view(&self) -> Seq<char> {
        self.0@
    }
}

impl PublicId {
    /// Parses an identifier, refusing paths and control characters.
    pub fn parse(value: &str) -> (r: Result<PublicId, IntakeError>)
        ensures
            handle_shape(encode_utf8(value@)) <==> r is Ok,
            r matches Ok(id) ==> id@ == value@,
            r matches Err(e) ==> e == IntakeError::InvalidPublicId,
    {
        if !is_handle_shape(value.as_bytes()) {
            return Err(IntakeError::InvalidPublicId);
        }
        Ok(PublicId(value.to_owned()))
    }

    pub fn as_str(&self) -> (r: &str)
        ensures
            r@ == self@,
    {
        self.0.as_str()
    }

    /// A copy of the identifier.
    pub fn duplicate(&self) -> (r: PublicId)
        ensures
            r@ == self@,
    {
        PublicId(self.0.clone())
    }
}

/// A caller-selected idempotency key.
#[derive(Debug, Clone, PartialEq, Eq)]
pub struct OperationKey(String);

impl View for OperationKey {
    type V = Seq<char>;

    closed spec fn view(&self) -> Seq<char> {
        self.0@
    }
}

impl OperationKey {
    /// Parses a bounded opaque key.
    pub fn parse(value: &str) -> (r: Result<OperationKey, IntakeError>)
        ensures
            operation_key(encode_utf8(value@)) <==> r is Ok,
            r matches Ok(k) ==> k@ == value@,
            r matches Err(e) ==> e == IntakeError::InvalidOperationKey,
    {
        if !is_operation_key(value.as_bytes()) {
            return Err(IntakeError::InvalidOperationKey);
        }
        Ok(OperationKey(value.to_owned()))
    }

    pub fn as_str(&self) -> (r: &str)
        ensures
            r@ == self@,
    {
        self.0.as_str()
    }
}

/// The only agent-controlled operation value: a base Debian binary package
/// name.
#[derive(Debug, Clone, PartialEq, Eq)]
pub struct PackageName(String);

impl View for PackageName {
    type V = Seq<char>;

    closed spec fn view(&self) -> Seq<char> {
        self.0@
    }
}

impl PackageName {
    /// Parses a package name without architecture, version or flags.
    pub fn parse(value: &str) -> (r: Result<PackageName, IntakeError>)
        ensures
            binary_package_name(encode_utf8(value@)) <==> r is Ok,
            r matches Ok(p) ==> p@ == value@,
            r matches Err(e) ==> e == IntakeError::InvalidPackageName,
    {
        if !is_binary_package_name(value.as_bytes()) {
            return Err(IntakeError::InvalidPackageName);
        }
        Ok(PackageName(value.to_owned()))
    }

    pub fn as_str(&self) -> (r: &str)
        ensures
            r@ == self@,
    {
        self.0.as_str()
    }

    /// Whether two names are the same text.
    pub fn same(&self, other: &PackageName) -> (r: bool)
        ensures
            r == (self@ == other@),
    {
        self.0 == other.0
    }
}

/// Authoritative lifecycle state of a request.
#[derive(Debug, Clone, Copy, PartialEq, Eq, Structural)]
pub enum RequestState {
    Planning,
    Pending,
    Approved,
    Executing,
    NoChange,
    Invalid,
    Denied,
    Expired,
    Cancelled,
    Stale,
    Succeeded,
    Failed,
    RecoveryRequired,
}

/// Whether a state closes the request.
pub open spec fn terminal(s: RequestState) -> bool {
    match s {
        RequestState::NoChange | RequestState::Invalid | RequestState::Denied | RequestState::Expired
        | RequestState::Cancelled | RequestState::Stale | RequestState::Succeeded | RequestState::Failed => true,
        _ => false,
    }
}

/// The documented lifecycle edges.
pub open spec fn edge(from: RequestState, to: RequestState) -> bool {
    match (from, to) {
        (RequestState::Planning, RequestState::Pending) | (RequestState::Planning, RequestState::NoChange)
        | (RequestState::Planning, RequestState::Invalid) => true,
        (RequestState::Pending, RequestState::Approved) | (RequestState::Pending, RequestState::Denied)
        | (RequestState::Pending, RequestState::Expired) | (RequestState::Pending, RequestState::Cancelled)
        | (RequestState::Pending, RequestState::Stale) => true,
        (RequestState::Approved, RequestState::Executing) | (RequestState::Approved, RequestState::Cancelled)
        | (RequestState::Approved, RequestState::Stale) | (RequestState::Approved, RequestState::Expired) => true,
        (RequestState::Executing, RequestState::Succeeded) | (RequestState::Executing, RequestState::Failed)
        | (RequestState::Executing, RequestState::RecoveryRequired) => true,
        (RequestState::RecoveryRequired, RequestState::Succeeded)
        | (RequestState::RecoveryRequired, RequestState::Failed) => true,
        _ => false,
    }
}

/// The stored text of a state.
pub open spec fn state_text(s: RequestState) -> Seq<char> {
    match s {
        RequestState::Planning => "planning"@,
        RequestState::Pending => "pending"@,
        RequestState::Approved => "approved"@,
        RequestState::Executing => "executing"@,
        RequestState::NoChange => "no_change"@,
        RequestState::Invalid => "invalid"@,
        RequestState::Denied => "denied"@,
        RequestState::Expired => "expired"@,
        RequestState::Cancelled => "cancelled"@,
        RequestState::Stale => "stale"@,
        RequestState::Succeeded => "succeeded"@,
        RequestState::Failed => "failed"@,
        RequestState::RecoveryRequired => "recovery_required"@,
    }
}

impl RequestState {
    /// Whether this state closes the request and releases the active slot.
    pub fn is_terminal(self) -> (r: bool)
        ensures
            r == terminal(self),
    {
        match self {
            RequestState::NoChange | RequestState::Invalid | RequestState::Denied | RequestState::Expired
            | RequestState::Cancelled | RequestState::Stale | RequestState::Succeeded | RequestState::Failed => true,
            _ => false,
        }
    }

    /// Whether a lifecycle edge is one of the documented edges.
    pub fn permits(self, next: RequestState) -> (r: bool)
        ensures
            r == edge(self, next),
    {
        match (self, next) {
            (RequestState::Planning, RequestState::Pending) | (RequestState::Planning, RequestState::NoChange)
            | (RequestState::Planning, RequestState::Invalid) => true,
            (RequestState::Pending, RequestState::Approved) | (RequestState::Pending, RequestState::Denied)
            | (RequestState::Pending, RequestState::Expired) | (RequestState::Pending, RequestState::Cancelled)
            | (RequestState::Pending, RequestState::Stale) => true,
            (RequestState::Approved, RequestState::Executing) | (RequestState::Approved, RequestState::Cancelled)
            | (RequestState::Approved, RequestState::Stale) | (RequestState::Approved, RequestState::Expired) => true,
            (RequestState::Executing, RequestState::Succeeded) | (RequestState::Executing, RequestState::Failed)
            | (RequestState::Executing, RequestState::RecoveryRequired) => true,
            (RequestState::RecoveryRequired, RequestState::Succeeded)
            | (RequestState::RecoveryRequired, RequestState::Failed) => true,
            _ => false,
        }
    }

    /// The stored text of the state.
    pub fn as_db(self) -> (r: &'static str)
        ensures
            r@ == state_text(self),
    {
        match self {
            RequestState::Planning => "planning",
            RequestState::Pending => "pending",
            RequestState::Approved => "approved",
            RequestState::Executing => "executing",
            RequestState::NoChange => "no_change",
            RequestState::Invalid => "invalid",
            RequestState::Denied => "denied",
            RequestState::Expired => "expired",
            RequestState::Cancelled => "cancelled",
            RequestState::Stale => "stale",
            RequestState::Succeeded => "succeeded",
            RequestState::Failed => "failed",
            RequestState::RecoveryRequired => "recovery_required",
        }
    }
}

/// Why a state was entered; stable local audit codes.
#[derive(Debug, Clone, Copy, PartialEq, Eq, Structural)]
pub enum TransitionReason {
    Created,
    PlannerPending,
    PlannerNoChange,
    PlannerInvalid,
    Approved,
    Denied,
    Expired,
    Cancelled,
    GenerationStale,
    ExecutionStarted,
    ExecutionSucceeded,
    ExecutionFailed,
    RecoveryRequired,
    ReconciledSucceeded,
    ReconciledFailed,
}

/// The audit code of a reason.
pub open spec fn reason_code(r: TransitionReason) -> u64 {
    match r {
        TransitionReason::Created => 1,
        TransitionReason::PlannerPending => 2,
        TransitionReason::PlannerNoChange => 3,
        TransitionReason::PlannerInvalid => 4,
        TransitionReason::Approved => 5,
        TransitionReason::Denied => 6,
        TransitionReason::Expired => 7,
        TransitionReason::Cancelled => 8,
        TransitionReason::GenerationStale => 9,
        TransitionReason::ExecutionStarted => 10,
        TransitionReason::ExecutionSucceeded => 11,
        TransitionReason::ExecutionFailed => 12,
        TransitionReason::RecoveryRequired => 13,
        TransitionReason::ReconciledSucceeded => 14,
        TransitionReason::ReconciledFailed => 15,
    }
}

impl TransitionReason {
    pub fn code(self) -> (r: u64)
        ensures
            r == reason_code(self),
    {
        match self {
            TransitionReason::Created => 1,
            TransitionReason::PlannerPending => 2,
            TransitionReason::PlannerNoChange => 3,
            TransitionReason::PlannerInvalid => 4,
            TransitionReason::Approved => 5,
            TransitionReason::Denied => 6,
            TransitionReason::Expired => 7,
            TransitionReason::Cancelled => 8,
            TransitionReason::GenerationStale => 9,
            TransitionReason::ExecutionStarted => 10,
            TransitionReason::ExecutionSucceeded => 11,
            TransitionReason::ExecutionFailed => 12,
            TransitionReason::RecoveryRequired => 13,
            TransitionReason::ReconciledSucceeded => 14,
            TransitionReason::ReconciledFailed => 15,
        }
    }
}

/// A frozen plan handed to the lifecycle by the trusted planner.
#[derive(Debug, Clone, PartialEq, Eq)]
pub struct FrozenPlan {
    pub package_name: PackageName,
    pub plan_digest: Digest,
}

/// The model of a frozen plan.
pub struct PlanModel {
    pub package_name: Seq<char>,
    pub plan_digest: Seq<u8>,
}

impl View for FrozenPlan {
    type V = PlanModel;

    open spec fn view(&self) -> PlanModel {
        PlanModel { package_name: self.package_name@, plan_digest: self.plan_digest@ }
    }
}

/// A trusted planner's result.
#[derive(Debug, Clone, PartialEq, Eq)]
pub enum PlanOutcome {
    Pending(FrozenPlan),
    NoChange { reason_code: u64 },
    Invalid { reason_code: u64 },
}

/// A decision whose WebAuthn assertion was already verified.
#[derive(Debug, Clone, PartialEq, Eq)]
pub struct VerifiedDecision {
    pub request_digest: Digest,
    pub generation: u64,
    pub decision: Decision,
    pub assertion_digest: Digest,
}

/// One append-only lifecycle event with its hash-chain link.
#[derive(Debug, Clone, PartialEq, Eq)]
pub struct LifecycleEvent {
    pub sequence: u64,
    pub previous_event_digest: Option<Digest>,
    pub state: RequestState,
    pub reason: TransitionReason,
    pub event_digest: Digest,
}

/// The model of an event.
pub struct EventModel {
    pub sequence: u64,
    pub previous: Option<Seq<u8>>,
    pub state: RequestState,
    pub reason: TransitionReason,
    pub digest: Seq<u8>,
}

/// The model of an optional digest.
pub open spec fn digest_option(d: Option<Digest>) -> Option<Seq<u8>> {
    match d {
        Some(x) => Some(x@),
        None => None,
    }
}

impl View for LifecycleEvent {
    type V = EventModel;

    open spec fn view(&self) -> EventModel {
        EventModel {
            sequence: self.sequence,
            previous: digest_option(self.previous_event_digest),
            state: self.state,
            reason: self.reason,
            digest: self.event_digest@,
        }
    }
}

/// Unsigned receipt content for a terminal request.
#[derive(Debug, Clone, PartialEq, Eq)]
pub struct ReceiptDraft {
    pub receipt_id: PublicId,
    pub request_id: PublicId,
    pub request_digest: Digest,
    pub plan_digest: Option<Digest>,
    pub terminal_state: RequestState,
    pub final_event_digest: Digest,
    pub receipt_digest: Digest,
}

/// The model of a receipt draft.
pub struct ReceiptModel {
    pub receipt_id: Seq<char>,
    pub request_id: Seq<char>,
    pub request_digest: Seq<u8>,
    pub plan_digest: Option<Seq<u8>>,
    pub terminal_state: RequestState,
    pub final_event_digest: Seq<u8>,
    pub receipt_digest: Seq<u8>,
}

impl View for ReceiptDraft {
    type V = ReceiptModel;

    open spec fn view(&self) -> ReceiptModel {
        ReceiptModel {
            receipt_id: self.receipt_id@,
            request_id: self.request_id@,
            request_digest: self.request_digest@,
            plan_digest: digest_option(self.plan_digest),
            terminal_state: self.terminal_state,
            final_event_digest: self.final_event_digest@,
            receipt_digest: self.receipt_digest@,
        }
    }
}

/// Why a lifecycle action was refused.
#[derive(Debug, Clone, Copy, PartialEq, Eq, Structural)]
pub enum LifecycleError {
    InvalidState { state: RequestState },
    DecisionContextMismatch,
    DecisionGenerationStale,
    AlreadyTerminal,
    ReceiptNotReady,
    PlannerPackageMismatch,
}

/// The lifecycle of one request: every race winner and the event chain.
#[derive(Debug, Clone, PartialEq, Eq)]
pub struct LifecycleRecord {
    pub request_id: PublicId,
    pub receipt_id: PublicId,
    pub requested_package: PackageName,
    pub request_digest: Digest,
    pub generation: u64,
    pub deadline_mono_ns: u64,
    pub state: RequestState,
    pub plan: Option<FrozenPlan>,
    pub events: Vec<LifecycleEvent>,
    pub receipt: Option<ReceiptDraft>,
}

/// The model of a lifecycle record.
pub struct LifecycleModel {
    pub request_id: Seq<char>,
    pub receipt_id: Seq<char>,
    pub requested_package: Seq<char>,
    pub request_digest: Seq<u8>,
    pub generation: u64,
    pub deadline_mono_ns: u64,
    pub state: RequestState,
    pub plan: Option<PlanModel>,
    pub events: Seq<EventModel>,
    pub receipt: Option<ReceiptModel>,
}

impl View for LifecycleRecord {
    type V = LifecycleModel;

    open spec fn view(&self) -> LifecycleModel {
        LifecycleModel {
            request_id: self.request_id@,
            receipt_id: self.receipt_id@,
            requested_package: self.requested_package@,
            request_digest: self.request_digest@,
            generation: self.generation,
            deadline_mono_ns: self.deadline_mono_ns,
            state: self.state,
            plan: match self.plan {
                Some(p) => Some(p@),
                None => None,
            },
            events: self.events@.map_values(|e: LifecycleEvent| e@),
            receipt: match self.receipt {
                Some(r) => Some(r@),
                None => None,
            },
        }
    }
}

/// The label of lifecycle event digests.
pub open spec fn event_label() -> Seq<u8> {
    encode_utf8("rootpermit/v1/local-lifecycle-event\0"@)
}

/// The label of receipt draft digests.
pub open spec fn receipt_label() -> Seq<u8> {
    encode_utf8("rootpermit/v1/local-receipt-draft\0"@)
}

/// Thirty-two zero bytes, standing for an absent digest.
pub open spec fn zero_digest() -> Seq<u8> {
    Seq::new(32, |i: int| 0u8)
}

/// A present digest, or zeros.
pub open spec fn digest_or_zero(d: Option<Seq<u8>>) -> Seq<u8> {
    match d {
        Some(x) => x,
        None => zero_digest(),
    }
}

/// The bytes hashed for an event.
#[verifier::opaque]
pub open spec fn event_input(request_id: Seq<char>, sequence: u64, previous: Option<Seq<u8>>, state: RequestState, reason: TransitionReason) -> Seq<u8> {
    event_label() + encode_utf8(request_id) + be_bytes(sequence as nat, 8) + digest_or_zero(previous)
        + encode_utf8(state_text(state)) + be_bytes(reason_code(reason) as nat, 8)
}

/// The bytes hashed for a receipt draft.
#[verifier::opaque]
pub open spec fn receipt_input(receipt_id: Seq<char>, request_id: Seq<char>, request_digest: Seq<u8>, plan_digest: Option<Seq<u8>>, state: RequestState, final_event_digest: Seq<u8>) -> Seq<u8> {
    receipt_label() + encode_utf8(receipt_id) + encode_utf8(request_id) + request_digest + digest_or_zero(plan_digest)
        + encode_utf8(state_text(state)) + final_event_digest
}

/// The sequence number of the event after `n` events, saturating.
pub open spec fn next_event_sequence(n: nat) -> u64 {
    if n + 1 > u64::MAX { u64::MAX } else { (n + 1) as u64 }
}

/// The model after appending an event for `state` and `reason`.
pub open spec fn spec_append(m: LifecycleModel, state: RequestState, reason: TransitionReason) -> LifecycleModel {
    let n = m.events.len();
    let sequence = next_event_sequence(n);
    let previous = if n == 0 { None } else { Some(m.events.last().digest) };
    let digest = sha256(event_input(m.request_id, sequence, previous, state, reason));
    LifecycleModel {
        events: m.events.push(EventModel { sequence, previous, state, reason, digest }),
        ..m
    }
}

/// The plan digest a receipt commits to: absent for no plan or an all-zero
/// digest.
pub open spec fn receipt_plan_digest(m: LifecycleModel) -> Option<Seq<u8>> {
    match m.plan {
        Some(p) => if p.plan_digest == zero_digest() { None } else { Some(p.plan_digest) },
        None => None,
    }
}

/// The receipt draft of a record in its current state.
pub open spec fn spec_receipt(m: LifecycleModel) -> ReceiptModel {
    let final_event_digest = if m.events.len() == 0 { zero_digest() } else { m.events.last().digest };
    let plan_digest = receipt_plan_digest(m);
    ReceiptModel {
        receipt_id: m.receipt_id,
        request_id: m.request_id,
        request_digest: m.request_digest,
        plan_digest,
        terminal_state: m.state,
        final_event_digest,
        receipt_digest: sha256(receipt_input(m.receipt_id, m.request_id, m.request_digest, plan_digest, m.state, final_event_digest)),
    }
}

/// The model after `next` wins: the state, its event, and a receipt when
/// the state is terminal.
pub open spec fn spec_winner(m: LifecycleModel, next: RequestState, reason: TransitionReason) -> LifecycleModel {
    let m1 = spec_append(LifecycleModel { state: next, ..m }, next, reason);
    if terminal(next) {
        LifecycleModel { receipt: Some(spec_receipt(m1)), ..m1 }
    } else {
        m1
    }
}

/// The error for an action that the current state does not allow.
pub open spec fn spec_state_error(s: RequestState) -> LifecycleError {
    if terminal(s) { LifecycleError::AlreadyTerminal } else { LifecycleError::InvalidState { state: s } }
}

/// Whether a state still awaits execution.
pub open spec fn awaiting(s: RequestState) -> bool {
    s == RequestState::Pending || s == RequestState::Approved
}

/// The pre-execution guard: a terminal state refuses; otherwise an expired
/// deadline, then a changed generation, wins as a terminal state.
pub open spec fn spec_guard(m: LifecycleModel, now_mono_ns: u64, active_generation: u64) -> (Result<(), LifecycleError>, LifecycleModel) {
    if terminal(m.state) {
        (Err(LifecycleError::AlreadyTerminal), m)
    } else if awaiting(m.state) && now_mono_ns >= m.deadline_mono_ns {
        (Err(LifecycleError::AlreadyTerminal), spec_winner(m, RequestState::Expired, TransitionReason::Expired))
    } else if awaiting(m.state) && active_generation != m.generation {
        (Err(LifecycleError::AlreadyTerminal), spec_winner(m, RequestState::Stale, TransitionReason::GenerationStale))
    } else {
        (Ok(()), m)
    }
}

/// The new record's model: planning, with its creation event.
pub open spec fn spec_new(request_id: Seq<char>, receipt_id: Seq<char>, requested_package: Seq<char>, request_digest: Seq<u8>, generation: u64, deadline_mono_ns: u64) -> LifecycleModel {
    spec_append(
        LifecycleModel {
            request_id,
            receipt_id,
            requested_package,
            request_digest,
            generation,
            deadline_mono_ns,
            state: RequestState::Planning,
            plan: None,
            events: Seq::empty(),
            receipt: None,
        },
        RequestState::Planning,
        TransitionReason::Created,
    )
}

/// The outcome of applying a planner result.
pub open spec fn spec_apply_plan(m: LifecycleModel, outcome: PlanOutcome) -> (Result<RequestState, LifecycleError>, LifecycleModel) {
    if m.state != RequestState::Planning {
        (Err(spec_state_error(m.state)), m)
    } else {
        match outcome {
            PlanOutcome::Pending(plan) => if plan.package_name@ != m.requested_package {
                (Err(LifecycleError::PlannerPackageMismatch), m)
            } else {
                let m2 = spec_winner(LifecycleModel { plan: Some(plan@), ..m }, RequestState::Pending, TransitionReason::PlannerPending);
                (Ok(m2.state), m2)
            },
            PlanOutcome::NoChange { .. } => {
                let m2 = spec_winner(m, RequestState::NoChange, TransitionReason::PlannerNoChange);
                (Ok(m2.state), m2)
            },
            PlanOutcome::Invalid { .. } => {
                let m2 = spec_winner(m, RequestState::Invalid, TransitionReason::PlannerInvalid);
                (Ok(m2.state), m2)
            },
        }
    }
}

/// The outcome of a verified decision: the guard first, then the decision
/// must be pending and bind this request and generation.
pub open spec fn spec_apply_verified_decision(m: LifecycleModel, now_mono_ns: u64, active_generation: u64, decision: VerifiedDecision) -> (Result<RequestState, LifecycleError>, LifecycleModel) {
    let (g, m1) = spec_guard(m, now_mono_ns, active_generation);
    match g {
        Err(e) => (Err(e), m1),
        Ok(_) => if m1.state != RequestState::Pending {
            (Err(spec_state_error(m1.state)), m1)
        } else if decision.request_digest@ != m1.request_digest {
            (Err(LifecycleError::DecisionContextMismatch), m1)
        } else if decision.generation != m1.generation {
            (Err(LifecycleError::DecisionGenerationStale), m1)
        } else {
            let m2 = match decision.decision {
                Decision::Approve => spec_winner(m1, RequestState::Approved, TransitionReason::Approved),
                Decision::Deny => spec_winner(m1, RequestState::Denied, TransitionReason::Denied),
            };
            (Ok(m2.state), m2)
        },
    }
}

/// The outcome of a cancellation: only before execution.
pub open spec fn spec_cancel(m: LifecycleModel, now_mono_ns: u64, active_generation: u64) -> (Result<RequestState, LifecycleError>, LifecycleModel) {
    let (g, m1) = spec_guard(m, now_mono_ns, active_generation);
    match g {
        Err(e) => (Err(e), m1),
        Ok(_) => if !awaiting(m1.state) {
            (Err(spec_state_error(m1.state)), m1)
        } else {
            let m2 = spec_winner(m1, RequestState::Cancelled, TransitionReason::Cancelled);
            (Ok(m2.state), m2)
        },
    }
}

/// The outcome of starting execution: only from an approval.
pub open spec fn spec_begin_execution(m: LifecycleModel, now_mono_ns: u64, active_generation: u64) -> (Result<RequestState, LifecycleError>, LifecycleModel) {
    let (g, m1) = spec_guard(m, now_mono_ns, active_generation);
    match g {
        Err(e) => (Err(e), m1),
        Ok(_) => if m1.state != RequestState::Approved {
            (Err(spec_state_error(m1.state)), m1)
        } else {
            let m2 = spec_winner(m1, RequestState::Executing, TransitionReason::ExecutionStarted);
            (Ok(m2.state), m2)
        },
    }
}

/// The outcome of a helper-proved result; there is no retry path.
pub open spec fn spec_finish_execution(m: LifecycleModel, succeeded: bool, recovery_required: bool) -> (Result<RequestState, LifecycleError>, LifecycleModel) {
    if m.state != RequestState::Executing {
        (Err(spec_state_error(m.state)), m)
    } else if succeeded && recovery_required {
        (Err(LifecycleError::InvalidState { state: m.state }), m)
    } else {
        let m2 = if succeeded {
            spec_winner(m, RequestState::Succeeded, TransitionReason::ExecutionSucceeded)
        } else if recovery_required {
            spec_winner(m, RequestState::RecoveryRequired, TransitionReason::RecoveryRequired)
        } else {
            spec_winner(m, RequestState::Failed, TransitionReason::ExecutionFailed)
        };
        (Ok(m2.state), m2)
    }
}

/// The outcome of root reconciliation: it proves a result and cannot
/// restart execution.
pub open spec fn spec_reconcile(m: LifecycleModel, succeeded: bool) -> (Result<RequestState, LifecycleError>, LifecycleModel) {
    if m.state != RequestState::RecoveryRequired {
        (Err(spec_state_error(m.state)), m)
    } else {
        let m2 = if succeeded {
            spec_winner(m, RequestState::Succeeded, TransitionReason::ReconciledSucceeded)
        } else {
            spec_winner(m, RequestState::Failed, TransitionReason::ReconciledFailed)
        };
        (Ok(m2.state), m2)
    }
}

/// Thirty-two zero bytes.
fn zeros() -> (r: Digest)
    ensures
        r@ == zero_digest(),
{
    let r = [0u8; 32];
    proof {
        assert(r@ =~= zero_digest());
    }
    r
}

/// The digest of an event.
fn lifecycle_event_digest(request_id: &PublicId, sequence: u64, previous: Option<Digest>, state: RequestState, reason: TransitionReason) -> (r: Digest)
    ensures
        r@ == sha256(event_input(request_id@, sequence, digest_option(previous), state, reason)),
{
    let mut input = "rootpermit/v1/local-lifecycle-event\0".as_bytes_vec();
    append_bytes(&mut input, request_id.as_str().as_bytes());
    push_be(sequence, 8, &mut input);
    match previous {
        Some(d) => append_bytes(&mut input, &d),
        None => {
            let z = zeros();
            append_bytes(&mut input, &z);
        },
    }
    append_bytes(&mut input, state.as_db().as_bytes());
    push_be(reason.code(), 8, &mut input);
    proof {
        reveal(event_input);
        assert(input@ =~= event_input(request_id@, sequence, digest_option(previous), state, reason));
    }
    sha256_digest(input.as_slice())
}

/// The digest of a receipt draft.
fn receipt_digest(receipt_id: &PublicId, request_id: &PublicId, request_digest: &Digest, plan_digest: Option<Digest>, state: RequestState, final_event_digest: &Digest) -> (r: Digest)
    ensures
        r@ == sha256(receipt_input(receipt_id@, request_id@, request_digest@, digest_option(plan_digest), state, final_event_digest@)),
{
    let mut input = "rootpermit/v1/local-receipt-draft\0".as_bytes_vec();
    append_bytes(&mut input, receipt_id.as_str().as_bytes());
    append_bytes(&mut input, request_id.as_str().as_bytes());
    append_bytes(&mut input, request_digest);
    match plan_digest {
        Some(d) => append_bytes(&mut input, &d),
        None => {
            let z = zeros();
            append_bytes(&mut input, &z);
        },
    }
    append_bytes(&mut input, state.as_db().as_bytes());
    append_bytes(&mut input, final_event_digest);
    proof {
        reveal(receipt_input);
        assert(input@ =~= receipt_input(receipt_id@, request_id@, request_digest@, digest_option(plan_digest), state, final_event_digest@));
    }
    sha256_digest(input.as_slice())
}

impl LifecycleRecord {
    /// A record in `planning` with its creation event.
    pub fn new(
        request_id: PublicId,
        receipt_id: PublicId,
        requested_package: PackageName,
        request_digest: Digest,
        generation: u64,
        deadline_mono_ns: u64,
    ) -> (r: LifecycleRecord)
        ensures
            r@ == spec_new(request_id@, receipt_id@, requested_package@, request_digest@, generation, deadline_mono_ns),
    {
        let mut record = LifecycleRecord {
            request_id,
            receipt_id,
            requested_package,
            request_digest,
            generation,
            deadline_mono_ns,
            state: RequestState::Planning,
            plan: None,
            events: Vec::new(),
            receipt: None,
        };
        proof {
            assert(record@.events =~= Seq::<EventModel>::empty());
        }
        record.append(RequestState::Planning, TransitionReason::Created);
        record
    }

    /// Applies a trusted planner output.
    pub fn apply_plan(&mut self, outcome: PlanOutcome) -> (r: Result<RequestState, LifecycleError>)
        ensures
            (r, final(self)@) == spec_apply_plan(old(self)@, outcome),
    {
        if self.state != RequestState::Planning {
            return Err(self.state_error());
        }
        match outcome {
            PlanOutcome::Pending(plan) => {
                if !plan.package_name.same(&self.requested_package) {
                    return Err(LifecycleError::PlannerPackageMismatch);
                }
                self.plan = Some(plan);
                self.winner(RequestState::Pending, TransitionReason::PlannerPending);
            },
            PlanOutcome::NoChange { .. } => {
                self.winner(RequestState::NoChange, TransitionReason::PlannerNoChange);
            },
            PlanOutcome::Invalid { .. } => {
                self.winner(RequestState::Invalid, TransitionReason::PlannerInvalid);
            },
        }
        Ok(self.state)
    }

    /// Accepts exactly one verified, context-bound decision; expiry and a
    /// generation change are checked first, so their transitions win.
    pub fn apply_verified_decision(&mut self, now_mono_ns: u64, active_generation: u64, decision: &VerifiedDecision) -> (r: Result<RequestState, LifecycleError>)
        ensures
            (r, final(self)@) == spec_apply_verified_decision(old(self)@, now_mono_ns, active_generation, *decision),
    {
        self.pre_execution_guard(now_mono_ns, active_generation)?;
        if self.state != RequestState::Pending {
            return Err(self.state_error());
        }
        if !same_bytes(&decision.request_digest, &self.request_digest) {
            return Err(LifecycleError::DecisionContextMismatch);
        }
        if decision.generation != self.generation {
            return Err(LifecycleError::DecisionGenerationStale);
        }
        match decision.decision {
            Decision::Approve => self.winner(RequestState::Approved, TransitionReason::Approved),
            Decision::Deny => self.winner(RequestState::Denied, TransitionReason::Denied),
        }
        Ok(self.state)
    }

    /// Cancels only before execution.
    pub fn cancel(&mut self, now_mono_ns: u64, active_generation: u64) -> (r: Result<RequestState, LifecycleError>)
        ensures
            (r, final(self)@) == spec_cancel(old(self)@, now_mono_ns, active_generation),
    {
        self.pre_execution_guard(now_mono_ns, active_generation)?;
        if !(self.state == RequestState::Pending || self.state == RequestState::Approved) {
            return Err(self.state_error());
        }
        self.winner(RequestState::Cancelled, TransitionReason::Cancelled);
        Ok(self.state)
    }

    /// The sole authorization-to-execution transition.
    pub fn begin_execution(&mut self, now_mono_ns: u64, active_generation: u64) -> (r: Result<RequestState, LifecycleError>)
        ensures
            (r, final(self)@) == spec_begin_execution(old(self)@, now_mono_ns, active_generation),
    {
        self.pre_execution_guard(now_mono_ns, active_generation)?;
        if self.state != RequestState::Approved {
            return Err(self.state_error());
        }
        self.winner(RequestState::Executing, TransitionReason::ExecutionStarted);
        Ok(self.state)
    }

    /// Records a helper-proved outcome.
    pub fn finish_execution(&mut self, succeeded: bool, recovery_required: bool) -> (r: Result<RequestState, LifecycleError>)
        ensures
            (r, final(self)@) == spec_finish_execution(old(self)@, succeeded, recovery_required),
    {
        if self.state != RequestState::Executing {
            return Err(self.state_error());
        }
        if succeeded && recovery_required {
            return Err(LifecycleError::InvalidState { state: self.state });
        }
        if succeeded {
            self.winner(RequestState::Succeeded, TransitionReason::ExecutionSucceeded);
        } else if recovery_required {
            self.winner(RequestState::RecoveryRequired, TransitionReason::RecoveryRequired);
        } else {
            self.winner(RequestState::Failed, TransitionReason::ExecutionFailed);
        }
        Ok(self.state)
    }

    /// Root reconciliation of a recovery-required request.
    pub fn reconcile(&mut self, succeeded: bool) -> (r: Result<RequestState, LifecycleError>)
        ensures
            (r, final(self)@) == spec_reconcile(old(self)@, succeeded),
    {
        if self.state != RequestState::RecoveryRequired {
            return Err(self.state_error());
        }
        if succeeded {
            self.winner(RequestState::Succeeded, TransitionReason::ReconciledSucceeded);
        } else {
            self.winner(RequestState::Failed, TransitionReason::ReconciledFailed);
        }
        Ok(self.state)
    }

    fn pre_execution_guard(&mut self, now_mono_ns: u64, active_generation: u64) -> (r: Result<(), LifecycleError>)
        ensures
            (r, final(self)@) == spec_guard(old(self)@, now_mono_ns, active_generation),
    {
        if self.state.is_terminal() {
            return Err(LifecycleError::AlreadyTerminal);
        }
        let awaiting = self.state == RequestState::Pending || self.state == RequestState::Approved;
        if awaiting && now_mono_ns >= self.deadline_mono_ns {
            self.winner(RequestState::Expired, TransitionReason::Expired);
            return Err(LifecycleError::AlreadyTerminal);
        }
        if awaiting && active_generation != self.generation {
            self.winner(RequestState::Stale, TransitionReason::GenerationStale);
            return Err(LifecycleError::AlreadyTerminal);
        }
        Ok(())
    }

    fn state_error(&self) -> (r: LifecycleError)
        ensures
            r == spec_state_error(self.state),
    {
        if self.state.is_terminal() {
            LifecycleError::AlreadyTerminal
        } else {
            LifecycleError::InvalidState { state: self.state }
        }
    }

    fn winner(&mut self, next: RequestState, reason: TransitionReason)
        ensures
            final(self)@ == spec_winner(old(self)@, next, reason),
    {
        self.state = next;
        self.append(next, reason);
        if next.is_terminal() {
            let receipt = self.make_receipt();
            self.receipt = Some(receipt);
        }
    }

    fn append(&mut self, state: RequestState, reason: TransitionReason)
        ensures
            final(self)@ == spec_append(old(self)@, state, reason),
    {
        let n = self.events.len();
        let count: u64 = n as u64;
        let sequence: u64 = if count == u64::MAX { u64::MAX } else { count + 1 };
        let previous: Option<Digest> = if n == 0 { None } else { Some(self.events[n - 1].event_digest) };
        let event_digest = lifecycle_event_digest(&self.request_id, sequence, previous, state, reason);
        let ghost old_events = self.events@;
        self.events.push(LifecycleEvent { sequence, previous_event_digest: previous, state, reason, event_digest });
        proof {
            assert(self@.events =~= old(self)@.events.push(EventModel {
                sequence,
                previous: digest_option(previous),
                state,
                reason,
                digest: event_digest@,
            }));
        }
    }

    fn make_receipt(&self) -> (r: ReceiptDraft)
        ensures
            r@ == spec_receipt(self@),
    {
        let n = self.events.len();
        let final_event_digest: Digest = if n == 0 { zeros() } else { self.events[n - 1].event_digest };
        let zero = zeros();
        let plan_digest: Option<Digest> = match &self.plan {
            Some(p) => if same_bytes(&p.plan_digest, &zero) { None } else { Some(p.plan_digest) },
            None => None,
        };
        let receipt_digest = receipt_digest(&self.receipt_id, &self.request_id, &self.request_digest, plan_digest, self.state, &final_event_digest);
        ReceiptDraft {
            receipt_id: self.receipt_id.duplicate(),
            request_id: self.request_id.duplicate(),
            request_digest: self.request_digest,
            plan_digest,
            terminal_state: self.state,
            final_event_digest,
            receipt_digest,
        }
    }
}

/// The broker's own Ed25519 identity: its secret seed, the seed's public
/// key, and a key ID made of the first 16 bytes of the SHA-256 of that
/// public key.
#[derive(Debug, Clone)]
pub struct BrokerSigningKey {
    seed: [u8; 32],
    public_key: [u8; 32],
    kid: Vec<u8>,
}

impl BrokerSigningKey {
    /// The secret seed.
    pub closed spec fn spec_seed(&self) -> Seq<u8> {
        self.seed@
    }

    /// Whether the key's parts belong to its seed.
    pub closed spec fn wf(&self) -> bool {
        &&& self.public_key@ == ed25519_public(self.seed@)
        &&& self.kid@ == sha256(self.public_key@).subrange(0, 16)
    }

    /// The identity of a seed.
    pub fn from_seed(seed: [u8; 32]) -> (r: BrokerSigningKey)
        ensures
            r.spec_seed() == seed@,
            r.wf(),
    {
        let public_key = ed25519_public_key(&seed);
        let digest = sha256_digest(&public_key);
        let mut kid: Vec<u8> = Vec::new();
        let mut i: usize = 0;
        while i < 16
            invariant
                i <= 16,
                digest@.len() == 32,
                kid@ == digest@.subrange(0, i as int),
            decreases 16 - i,
        {
            kid.push(digest[i]);
            proof {
                assert(kid@ =~= digest@.subrange(0, i + 1));
            }
            i = i + 1;
        }
        BrokerSigningKey { seed, public_key, kid }
    }

    /// The key ID.
    pub fn kid(&self) -> (r: &[u8])
        requires
            self.wf(),
        ensures
            r@ == sha256(ed25519_public(self.spec_seed())).subrange(0, 16),
    {
        self.kid.as_slice()
    }

    /// The public key.
    pub fn public_key(&self) -> (r: [u8; 32])
        requires
            self.wf(),
        ensures
            r@ == ed25519_public(self.spec_seed()),
    {
        self.public_key
    }

    /// The secret seed, for signing broker-originated envelopes.
    pub fn seed(&self) -> (r: &[u8; 32])
        ensures
            r@ == self.spec_seed(),
    {
        &self.seed
    }
}

/// Whether events form the hash chain of a request: numbered from 1, each
/// linking the digest of the one before, and each digest taken over its own
/// fields.
pub open spec fn chained(request_id: Seq<char>, events: Seq<EventModel>) -> bool {
    forall|i: int| 0 <= i < events.len() ==> {
        let e = #[trigger] events[i];
        &&& e.sequence == next_event_sequence(i as nat)
        &&& e.previous == (if i == 0 { None::<Seq<u8>> } else { Some(events[i - 1].digest) })
        &&& e.digest == sha256(event_input(request_id, e.sequence, e.previous, e.state, e.reason))
    }
}

/// The invariant of a lifecycle record: its events form a chain ending with
/// the current state, and a receipt exists exactly when the state is
/// terminal.
pub open spec fn lifecycle_wf(m: LifecycleModel) -> bool {
    &&& chained(m.request_id, m.events)
    &&& m.events.len() > 0
    &&& m.events.last().state == m.state
    &&& (m.receipt is Some <==> terminal(m.state))
    &&& (terminal(m.state) ==> m.receipt == Some(spec_receipt(m)))
}

#[verifier::rlimit(100)]
#[verifier::spinoff_prover]
proof fn lemma_append_chained(m: LifecycleModel, state: RequestState, reason: TransitionReason)
    requires
        chained(m.request_id, m.events),
    ensures
        chained(m.request_id, spec_append(m, state, reason).events),
        spec_append(m, state, reason).events.len() == m.events.len() + 1,
        spec_append(m, state, reason).events.last().state == state,
        spec_append(m, state, reason).events.subrange(0, m.events.len() as int) == m.events,
{
    let m2 = spec_append(m, state, reason);
    let n = m.events.len();
    assert(m2.events.subrange(0, n as int) =~= m.events);
    assert forall|i: int| 0 <= i < m2.events.len() implies {
        let e = #[trigger] m2.events[i];
        &&& e.sequence == next_event_sequence(i as nat)
        &&& e.previous == (if i == 0 { None::<Seq<u8>> } else { Some(m2.events[i - 1].digest) })
        &&& e.digest == sha256(event_input(m.request_id, e.sequence, e.previous, e.state, e.reason))
    } by {
        if i < n {
            assert(m2.events[i] == m.events[i]);
            if i > 0 {
                assert(m2.events[i - 1] == m.events[i - 1]);
            }
        } else {
            if i > 0 {
                assert(m2.events[i - 1] == m.events[i - 1]);
            }
        }
    }
}

#[verifier::rlimit(100)]
#[verifier::spinoff_prover]
proof fn lemma_winner_wf(m: LifecycleModel, next: RequestState, reason: TransitionReason)
    requires
        lifecycle_wf(m),
        !terminal(m.state),
    ensures
        lifecycle_wf(spec_winner(m, next, reason)),
        spec_winner(m, next, reason).state == next,
        spec_winner(m, next, reason).events.subrange(0, m.events.len() as int) == m.events,
{
    let m0 = LifecycleModel { state: next, ..m };
    lemma_append_chained(m0, next, reason);
    let m1 = spec_append(m0, next, reason);
    assert(m1.request_id == m.request_id);
    assert(m1.state == next);
    assert(m1.receipt == m.receipt);
    if terminal(next) {
        let m2 = LifecycleModel { receipt: Some(spec_receipt(m1)), ..m1 };
        assert(spec_receipt(m2) == spec_receipt(m1));
        assert(spec_winner(m, next, reason) == m2);
    } else {
        assert(spec_winner(m, next, reason) == m1);
    }
}

#[verifier::rlimit(100)]
#[verifier::spinoff_prover]
proof fn lemma_guard(m: LifecycleModel, now_mono_ns: u64, active_generation: u64)
    requires
        lifecycle_wf(m),
    ensures
        lifecycle_wf(spec_guard(m, now_mono_ns, active_generation).1),
        spec_guard(m, now_mono_ns, active_generation).0 is Ok ==> spec_guard(m, now_mono_ns, active_generation).1 == m,
        spec_guard(m, now_mono_ns, active_generation).1.state != m.state
            ==> edge(m.state, spec_guard(m, now_mono_ns, active_generation).1.state),
        spec_guard(m, now_mono_ns, active_generation).1.events.subrange(0, m.events.len() as int) == m.events,
{
    assert(m.events.subrange(0, m.events.len() as int) =~= m.events);
    if !terminal(m.state) && awaiting(m.state) && now_mono_ns >= m.deadline_mono_ns {
        lemma_winner_wf(m, RequestState::Expired, TransitionReason::Expired);
    } else if !terminal(m.state) && awaiting(m.state) && active_generation != m.generation {
        lemma_winner_wf(m, RequestState::Stale, TransitionReason::GenerationStale);
    }
}

/// A new record satisfies the lifecycle invariant.
pub proof fn lemma_new_wf(request_id: Seq<char>, receipt_id: Seq<char>, requested_package: Seq<char>, request_digest: Seq<u8>, generation: u64, deadline_mono_ns: u64)
    ensures
        lifecycle_wf(spec_new(request_id, receipt_id, requested_package, request_digest, generation, deadline_mono_ns)),
        spec_new(request_id, receipt_id, requested_package, request_digest, generation, deadline_mono_ns).state == RequestState::Planning,
{
    let m0 = LifecycleModel {
        request_id,
        receipt_id,
        requested_package,
        request_digest,
        generation,
        deadline_mono_ns,
        state: RequestState::Planning,
        plan: None,
        events: Seq::empty(),
        receipt: None,
    };
    assert(chained(request_id, m0.events));
    lemma_append_chained(m0, RequestState::Planning, TransitionReason::Created);
    let m1 = spec_append(m0, RequestState::Planning, TransitionReason::Created);
    assert(m1.request_id == request_id && m1.state == RequestState::Planning && m1.receipt is None);
}

/// Whether an action's effect keeps the invariant, changes the state only
/// along a documented edge, and only extends the event chain.
pub open spec fn keeps(m: LifecycleModel, m2: LifecycleModel) -> bool {
    &&& lifecycle_wf(m2)
    &&& (m2.state != m.state ==> edge(m.state, m2.state))
    &&& m2.events.subrange(0, m.events.len() as int) == m.events
}

#[verifier::rlimit(100)]
#[verifier::spinoff_prover]
proof fn lemma_plan_keeps(m: LifecycleModel, outcome: PlanOutcome)
    requires
        lifecycle_wf(m),
    ensures
        keeps(m, spec_apply_plan(m, outcome).1),
{
    assert(m.events.subrange(0, m.events.len() as int) =~= m.events);
    if m.state == RequestState::Planning {
        match outcome {
            PlanOutcome::Pending(plan) => {
                let mp = LifecycleModel { plan: Some(plan@), ..m };
                lemma_winner_wf(mp, RequestState::Pending, TransitionReason::PlannerPending);
            },
            PlanOutcome::NoChange { .. } => {
                lemma_winner_wf(m, RequestState::NoChange, TransitionReason::PlannerNoChange);
            },
            PlanOutcome::Invalid { .. } => {
                lemma_winner_wf(m, RequestState::Invalid, TransitionReason::PlannerInvalid);
            },
        }
    }
}

#[verifier::rlimit(100)]
#[verifier::spinoff_prover]
proof fn lemma_decision_keeps(m: LifecycleModel, now_mono_ns: u64, active_generation: u64, decision: VerifiedDecision)
    requires
        lifecycle_wf(m),
    ensures
        keeps(m, spec_apply_verified_decision(m, now_mono_ns, active_generation, decision).1),
{
    lemma_guard(m, now_mono_ns, active_generation);
    assert(m.events.subrange(0, m.events.len() as int) =~= m.events);
    let r = spec_apply_verified_decision(m, now_mono_ns, active_generation, decision);
    if spec_guard(m, now_mono_ns, active_generation).0 is Ok {
        assert(spec_guard(m, now_mono_ns, active_generation).1 == m);
        if m.state == RequestState::Pending && decision.request_digest@ == m.request_digest && decision.generation == m.generation {
            match decision.decision {
                Decision::Approve => {
                    lemma_winner_wf(m, RequestState::Approved, TransitionReason::Approved);
                    assert(r.1 == spec_winner(m, RequestState::Approved, TransitionReason::Approved));
                },
                Decision::Deny => {
                    lemma_winner_wf(m, RequestState::Denied, TransitionReason::Denied);
                    assert(r.1 == spec_winner(m, RequestState::Denied, TransitionReason::Denied));
                },
            }
        } else {
            assert(r.1 == m);
        }
    } else {
        assert(r.1 == spec_guard(m, now_mono_ns, active_generation).1);
    }
}

#[verifier::rlimit(100)]
#[verifier::spinoff_prover]
proof fn lemma_cancel_keeps(m: LifecycleModel, now_mono_ns: u64, active_generation: u64)
    requires
        lifecycle_wf(m),
    ensures
        keeps(m, spec_cancel(m, now_mono_ns, active_generation).1),
{
    lemma_guard(m, now_mono_ns, active_generation);
    if spec_guard(m, now_mono_ns, active_generation).0 is Ok && awaiting(m.state) {
        lemma_winner_wf(m, RequestState::Cancelled, TransitionReason::Cancelled);
    }
}

#[verifier::rlimit(100)]
#[verifier::spinoff_prover]
proof fn lemma_begin_keeps(m: LifecycleModel, now_mono_ns: u64, active_generation: u64)
    requires
        lifecycle_wf(m),
    ensures
        keeps(m, spec_begin_execution(m, now_mono_ns, active_generation).1),
{
    lemma_guard(m, now_mono_ns, active_generation);
    assert(m.events.subrange(0, m.events.len() as int) =~= m.events);
    let r = spec_begin_execution(m, now_mono_ns, active_generation);
    if spec_guard(m, now_mono_ns, active_generation).0 is Ok {
        assert(spec_guard(m, now_mono_ns, active_generation).1 == m);
        if m.state == RequestState::Approved {
            lemma_winner_wf(m, RequestState::Executing, TransitionReason::ExecutionStarted);
            assert(r.1 == spec_winner(m, RequestState::Executing, TransitionReason::ExecutionStarted));
        } else {
            assert(r.1 == m);
        }
    } else {
        assert(r.1 == spec_guard(m, now_mono_ns, active_generation).1);
    }
}

#[verifier::rlimit(100)]
#[verifier::spinoff_prover]
proof fn lemma_finish_keeps(m: LifecycleModel, succeeded: bool, recovery_required: bool)
    requires
        lifecycle_wf(m),
    ensures
        keeps(m, spec_finish_execution(m, succeeded, recovery_required).1),
        keeps(m, spec_reconcile(m, succeeded).1),
{
    assert(m.events.subrange(0, m.events.len() as int) =~= m.events);
    if m.state == RequestState::Executing {
        lemma_winner_wf(m, RequestState::Succeeded, TransitionReason::ExecutionSucceeded);
        lemma_winner_wf(m, RequestState::RecoveryRequired, TransitionReason::RecoveryRequired);
        lemma_winner_wf(m, RequestState::Failed, TransitionReason::ExecutionFailed);
    }
    if m.state == RequestState::RecoveryRequired {
        lemma_winner_wf(m, RequestState::Succeeded, TransitionReason::ReconciledSucceeded);
        lemma_winner_wf(m, RequestState::Failed, TransitionReason::ReconciledFailed);
    }
}

/// Every lifecycle action keeps the invariant: the event chain is only ever
/// extended, each new event linking the one before, and a receipt exists
/// exactly when the state is terminal. Every change of state follows a
/// documented edge.
pub proof fn lemma_actions_keep_invariant(
    m: LifecycleModel,
    outcome: PlanOutcome,
    now_mono_ns: u64,
    active_generation: u64,
    decision: VerifiedDecision,
    succeeded: bool,
    recovery_required: bool,
)
    requires
        lifecycle_wf(m),
    ensures
        keeps(m, spec_apply_plan(m, outcome).1),
        keeps(m, spec_apply_verified_decision(m, now_mono_ns, active_generation, decision).1),
        keeps(m, spec_cancel(m, now_mono_ns, active_generation).1),
        keeps(m, spec_begin_execution(m, now_mono_ns, active_generation).1),
        keeps(m, spec_finish_execution(m, succeeded, recovery_required).1),
        keeps(m, spec_reconcile(m, succeeded).1),
{
    lemma_plan_keeps(m, outcome);
    lemma_decision_keeps(m, now_mono_ns, active_generation, decision);
    lemma_cancel_keeps(m, now_mono_ns, active_generation);
    lemma_begin_keeps(m, now_mono_ns, active_generation);
    lemma_finish_keeps(m, succeeded, recovery_required);
}

/// A terminal state is never left: every action on a terminal record is
/// refused as already terminal and changes nothing.
pub proof fn lemma_terminal_is_never_left(
    m: LifecycleModel,
    outcome: PlanOutcome,
    now_mono_ns: u64,
    active_generation: u64,
    decision: VerifiedDecision,
    succeeded: bool,
    recovery_required: bool,
)
    requires
        terminal(m.state),
    ensures
        spec_apply_plan(m, outcome) == (Err::<RequestState, LifecycleError>(LifecycleError::AlreadyTerminal), m),
        spec_apply_verified_decision(m, now_mono_ns, active_generation, decision)
            == (Err::<RequestState, LifecycleError>(LifecycleError::AlreadyTerminal), m),
        spec_cancel(m, now_mono_ns, active_generation) == (Err::<RequestState, LifecycleError>(LifecycleError::AlreadyTerminal), m),
        spec_begin_execution(m, now_mono_ns, active_generation)
            == (Err::<RequestState, LifecycleError>(LifecycleError::AlreadyTerminal), m),
        spec_finish_execution(m, succeeded, recovery_required)
            == (Err::<RequestState, LifecycleError>(LifecycleError::AlreadyTerminal), m),
        spec_reconcile(m, succeeded) == (Err::<RequestState, LifecycleError>(LifecycleError::AlreadyTerminal), m),
{
}

/// Expiry, then a stale credential generation, wins before any decision,
/// cancellation or execution of a pending or approved request.
pub proof fn lemma_expiry_and_staleness_win(m: LifecycleModel, now_mono_ns: u64, active_generation: u64, decision: VerifiedDecision)
    requires
        awaiting(m.state),
        now_mono_ns >= m.deadline_mono_ns || active_generation != m.generation,
    ensures
        ({
            let winner = if now_mono_ns >= m.deadline_mono_ns { RequestState::Expired } else { RequestState::Stale };
            &&& spec_apply_verified_decision(m, now_mono_ns, active_generation, decision).0
                == Err::<RequestState, LifecycleError>(LifecycleError::AlreadyTerminal)
            &&& spec_apply_verified_decision(m, now_mono_ns, active_generation, decision).1.state == winner
            &&& spec_cancel(m, now_mono_ns, active_generation).0 == Err::<RequestState, LifecycleError>(LifecycleError::AlreadyTerminal)
            &&& spec_cancel(m, now_mono_ns, active_generation).1.state == winner
            &&& spec_begin_execution(m, now_mono_ns, active_generation).0
                == Err::<RequestState, LifecycleError>(LifecycleError::AlreadyTerminal)
            &&& spec_begin_execution(m, now_mono_ns, active_generation).1.state == winner
        }),
{
}

/// The receipt of a terminal record commits to the last event of its chain
/// and to the terminal state.
pub proof fn lemma_receipt_commits_to_chain(m: LifecycleModel)
    requires
        lifecycle_wf(m),
        terminal(m.state),
    ensures
        m.receipt->Some_0.final_event_digest == m.events.last().digest,
        m.receipt->Some_0.terminal_state == m.state,
{
}

/// What root-controlled policy decides for a package.
#[derive(Debug, Clone, Copy, PartialEq, Eq, Structural)]
pub enum PolicyDecision {
    Allow,
    Deny,
}

/// What the durable store does with a typed submission, given what it
/// found: a new `planning` request, the original request of an exact retry,
/// or a refusal.
#[derive(Debug, Clone, Copy, PartialEq, Eq, Structural)]
pub enum SubmitDecision {
    Create,
    RecoverExisting,
    PolicyDenied,
    IdempotencyConflict,
    Busy,
}

/// The submission decision: policy first; then an earlier request under the
/// same requester and operation key is recovered when its input digest is
/// the same and is a conflict otherwise; then one active request on the
/// device makes the broker busy.
pub open spec fn spec_decide_submit(policy: PolicyDecision, existing_input_digest: Option<Seq<u8>>, input_digest: Seq<u8>, active_request_exists: bool) -> SubmitDecision {
    if policy == PolicyDecision::Deny {
        SubmitDecision::PolicyDenied
    } else {
        match existing_input_digest {
            Some(d) => if d == input_digest { SubmitDecision::RecoverExisting } else { SubmitDecision::IdempotencyConflict },
            None => if active_request_exists { SubmitDecision::Busy } else { SubmitDecision::Create },
        }
    }
}

/// Decides a typed submission from the store's lookups.
pub fn decide_submit(policy: PolicyDecision, existing_input_digest: Option<&[u8]>, input_digest: &[u8], active_request_exists: bool) -> (r: SubmitDecision)
    ensures
        r == spec_decide_submit(
            policy,
            match existing_input_digest {
                Some(d) => Some(d@),
                None => None,
            },
            input_digest@,
            active_request_exists,
        ),
{
    if policy == PolicyDecision::Deny {
        return SubmitDecision::PolicyDenied;
    }
    match existing_input_digest {
        Some(d) => if same_bytes(d, input_digest) { SubmitDecision::RecoverExisting } else { SubmitDecision::IdempotencyConflict },
        None => if active_request_exists { SubmitDecision::Busy } else { SubmitDecision::Create },
    }
}

/// A compare-and-set transition that the store may apply without a receipt:
/// refused for a terminal destination or an undocumented edge.
pub fn check_nonterminal_transition(expected: RequestState, next: RequestState) -> (r: Result<(), (RequestState, RequestState)>)
    ensures
        r is Ok <==> (!terminal(next) && edge(expected, next)),
        r matches Err(p) ==> p == (expected, next),
{
    if next.is_terminal() || !expected.permits(next) {
        return Err((expected, next));
    }
    Ok(())
}

/// The lifecycle graph: nothing leaves a terminal state or re-enters
/// planning; execution starts only from an approval; an approval or denial
/// comes only from a pending request; planning outcomes come only from
/// planning; recovery comes only from execution; a proven result comes only
/// from execution or recovery; expiry, cancellation and a stale generation
/// end only a pending or approved request. Each documented edge is present.
pub proof fn lemma_lifecycle_graph(from: RequestState, to: RequestState)
    ensures
        edge(from, to) ==> !terminal(from),
        edge(from, to) ==> to != RequestState::Planning && to != from,
        edge(from, to) && to == RequestState::Executing ==> from == RequestState::Approved,
        edge(from, to) && (to == RequestState::Approved || to == RequestState::Denied) ==> from == RequestState::Pending,
        edge(from, to) && (to == RequestState::Pending || to == RequestState::NoChange || to == RequestState::Invalid)
            ==> from == RequestState::Planning,
        edge(from, to) && to == RequestState::RecoveryRequired ==> from == RequestState::Executing,
        edge(from, to) && (to == RequestState::Succeeded || to == RequestState::Failed)
            ==> (from == RequestState::Executing || from == RequestState::RecoveryRequired),
        edge(from, to) && (to == RequestState::Expired || to == RequestState::Cancelled || to == RequestState::Stale)
            ==> (from == RequestState::Pending || from == RequestState::Approved),
        edge(from, to) && from == RequestState::Planning
            ==> (to == RequestState::Pending || to == RequestState::NoChange || to == RequestState::Invalid),
        edge(from, to) && from == RequestState::RecoveryRequired
            ==> (to == RequestState::Succeeded || to == RequestState::Failed),
        edge(from, to) && from == RequestState::Pending ==> to != RequestState::Executing,
        (from == RequestState::Planning && (to == RequestState::Pending || to == RequestState::NoChange || to == RequestState::Invalid))
            ==> edge(from, to),
        (from == RequestState::Pending && (to == RequestState::Approved || to == RequestState::Denied || to == RequestState::Expired
            || to == RequestState::Cancelled || to == RequestState::Stale)) ==> edge(from, to),
        (from == RequestState::Approved && (to == RequestState::Executing || to == RequestState::Cancelled
            || to == RequestState::Stale || to == RequestState::Expired)) ==> edge(from, to),
        (from == RequestState::Executing && (to == RequestState::Succeeded || to == RequestState::Failed
            || to == RequestState::RecoveryRequired)) ==> edge(from, to),
        (from == RequestState::RecoveryRequired && (to == RequestState::Succeeded || to == RequestState::Failed))
            ==> edge(from, to),
{
}

/// The store's receipt-free transitions: only planning to pending, pending
/// to approved, approved to executing and executing to recovery pass; a
/// pending request can never be moved straight to execution.
pub proof fn lemma_nonterminal_transitions(expected: RequestState, next: RequestState)
    ensures
        (!terminal(next) && edge(expected, next)) <==> (
            (expected == RequestState::Planning && next == RequestState::Pending)
            || (expected == RequestState::Pending && next == RequestState::Approved)
            || (expected == RequestState::Approved && next == RequestState::Executing)
            || (expected == RequestState::Executing && next == RequestState::RecoveryRequired)
        ),
{
}

} // verus!
