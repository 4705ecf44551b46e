//! The exact v1 message schemas: integer-keyed maps with closed field sets,
//! checked field by field in a fixed order.

use vstd::prelude::*;
use vstd::utf8::*;
use crate::cbor::{decode, encode, models, spec_decode, spec_encode, Cbor, CborValue};
use crate::digest::{digest_cbor, spec_digest_cbor, Digest, Domain};
use crate::fields::{
    clone_values,
    approval_context_rules, bytes, check_message, check_message_exec, collect_fields, field_models,
    flat_rule_error, get_field, is_package_name, lemma_flat_rules_hold, lemma_rules_hold, lookup,
    nested_error, operation_input_rules, push_field, rule_error, signed, signed_cbor, signed_value,
    spec_fields, take_array, take_bytes, take_digest, take_optional_bytes, take_optional_digest,
    take_optional_text, take_signed, take_text, take_unsigned, take_value, valid_package_name,
    FieldKind, FieldRule, FieldSeq, SchemaError,
};
use crate::ids::{BootId, DeviceId, Nonce, PolicyId, ReceiptId, RequestId, ServiceEventId};

verus! {

/// The only v1 operation.
#[derive(Debug, Clone, Copy, PartialEq, Eq)]
pub enum Operation {
    PackageInstall,
}

impl Operation {
    /// The operation's wire code.
    pub open spec fn spec_code(self) -> u64 {
        match self {
            Operation::PackageInstall => 1,
        }
    }

    pub fn code(self) -> (r: u64)
        ensures
            r == self.spec_code(),
    {
        match self {
            Operation::PackageInstall => 1,
        }
    }
}

/// The operator's answer to a request.
#[derive(Debug, Clone, Copy, PartialEq, Eq)]
pub enum Decision {
    Approve,
    Deny,
}

impl Decision {
    /// The decision's wire code.
    pub open spec fn spec_code(self) -> u64 {
        match self {
            Decision::Approve => 1,
            Decision::Deny => 2,
        }
    }

    pub fn code(self) -> (r: u64)
        ensures
            r == self.spec_code(),
    {
        match self {
            Decision::Approve => 1,
            Decision::Deny => 2,
        }
    }

    /// The decision with a wire code, which must be 1 or 2.
    fn from_code(code: u64) -> (r: Decision)
        requires
            code == 1 || code == 2,
        ensures
            r.spec_code() == code,
    {
        if code == 1 { Decision::Approve } else { Decision::Deny }
    }
}

/// The model of an optional text field.
pub open spec fn optional_text(t: Option<String>) -> Option<Cbor> {
    match t {
        Some(s) => Some(Cbor::Text(s@)),
        None => None,
    }
}

/// The model of an optional byte-string field.
pub open spec fn optional_bytes(b: Option<Vec<u8>>) -> Option<Cbor> {
    match b {
        Some(v) => Some(Cbor::Bytes(v@)),
        None => None,
    }
}

/// The model of an optional digest field.
pub open spec fn optional_digest(d: Option<Digest>) -> Option<Cbor> {
    match d {
        Some(v) => Some(Cbor::Bytes(v@)),
        None => None,
    }
}

/// The single v1 operation input: a native Debian package name.
#[derive(Debug, Clone, PartialEq, Eq)]
pub struct OperationInput {
    pub package_name: String,
}

impl OperationInput {
    /// The input's map.
    pub open spec fn spec_cbor(self) -> Cbor {
        Cbor::Entries(Seq::empty().push((Cbor::Unsigned(1), Cbor::Text(self.package_name@))))
    }

    /// Whether the input holds exactly the given nested fields.
    pub open spec fn agrees_with(self, fs: FieldSeq) -> bool {
        lookup(fs, 1) == Some(Cbor::Text(self.package_name@))
    }

    /// Validates a package name and makes the input of it.
    pub fn package_install(package_name: &str) -> (r: Result<OperationInput, SchemaError>)
        ensures
            valid_package_name(encode_utf8(package_name@)) <==> r is Ok,
            r matches Ok(x) ==> x.package_name@ == package_name@,
            r matches Err(e) ==> e == (SchemaError::InvalidField { field: 13 }),
    {
        if !is_package_name(package_name.as_bytes()) {
            return Err(SchemaError::InvalidField { field: 13 });
        }
        Ok(OperationInput { package_name: package_name.to_owned() })
    }

    fn to_cbor(&self) -> (r: CborValue)
        ensures
            r@ == self.spec_cbor(),
    {
        let mut e: Vec<(CborValue, CborValue)> = Vec::new();
        push_field(&mut e, 1, CborValue::Text(self.package_name.clone()));
        CborValue::Entries(e)
    }

    /// The input held by a nested map that passed its checks.
    fn from_nested(value: &CborValue) -> (r: OperationInput)
        requires
            nested_error(value@, operation_input_rules()) is None,
        ensures
            spec_fields(value@) matches Ok(nf) && r.agrees_with(nf),
    {
        let nf = match collect_fields(value) {
            Ok(nf) => nf,
            Err(_) => {
                proof {
                    assert(false);
                }
                Vec::new()
            },
        };
        proof {
            lemma_flat_rules_hold(field_models(nf@), operation_input_rules(), 1);
            assert(flat_rule_error(field_models(nf@), operation_input_rules()[0]) is None);
        }
        OperationInput { package_name: take_text(&nf, 1) }
    }
}

/// The model of a nested message field: present, a map, and agreeing.
pub open spec fn nested_input_agrees(v: Option<Cbor>, x: OperationInput) -> bool {
    v matches Some(c) && spec_fields(c) matches Ok(nf) && x.agrees_with(nf)
}

/// The exact v1 Request map.
#[derive(Debug, Clone, PartialEq, Eq)]
pub struct Request {
    pub request_id: RequestId,
    pub device_id: DeviceId,
    pub broker_epoch: u64,
    pub generation: u64,
    pub created_utc: i64,
    pub expires_utc: i64,
    pub boot_id: BootId,
    pub deadline_mono_ns: u64,
    pub nonce: Nonce,
    pub requester_uid: u64,
    pub operation: Operation,
    pub operation_input: OperationInput,
    pub policy_id: PolicyId,
    pub policy_digest: Digest,
    pub plan_digest: Digest,
    /// The frozen plan's normalized projection, a map.
    pub frozen_plan: CborValue,
    pub agent_note: Option<String>,
}

impl Request {
    /// The field rules, in checking order.
    pub open spec fn rules() -> Seq<FieldRule> {
        seq![
            FieldRule { key: 1, kind: FieldKind::Version },
            FieldRule { key: 2, kind: FieldKind::Bytes(16) },
            FieldRule { key: 3, kind: FieldKind::Bytes(16) },
            FieldRule { key: 4, kind: FieldKind::Unsigned },
            FieldRule { key: 5, kind: FieldKind::Unsigned },
            FieldRule { key: 6, kind: FieldKind::Signed },
            FieldRule { key: 7, kind: FieldKind::Signed },
            FieldRule { key: 8, kind: FieldKind::Bytes(16) },
            FieldRule { key: 9, kind: FieldKind::Unsigned },
            FieldRule { key: 10, kind: FieldKind::Bytes(32) },
            FieldRule { key: 11, kind: FieldKind::Unsigned },
            FieldRule { key: 12, kind: FieldKind::OperationCode },
            FieldRule { key: 13, kind: FieldKind::OperationInput },
            FieldRule { key: 14, kind: FieldKind::Bytes(16) },
            FieldRule { key: 15, kind: FieldKind::Bytes(32) },
            FieldRule { key: 16, kind: FieldKind::Bytes(32) },
            FieldRule { key: 17, kind: FieldKind::Any },
            FieldRule { key: 18, kind: FieldKind::OptionalText(512) },
        ]
    }

    fn rule_table() -> (r: Vec<FieldRule>)
        ensures
            r@ == Self::rules(),
    {
        let mut r: Vec<FieldRule> = Vec::new();
        r.push(FieldRule { key: 1, kind: FieldKind::Version });
        r.push(FieldRule { key: 2, kind: FieldKind::Bytes(16) });
        r.push(FieldRule { key: 3, kind: FieldKind::Bytes(16) });
        r.push(FieldRule { key: 4, kind: FieldKind::Unsigned });
        r.push(FieldRule { key: 5, kind: FieldKind::Unsigned });
        r.push(FieldRule { key: 6, kind: FieldKind::Signed });
        r.push(FieldRule { key: 7, kind: FieldKind::Signed });
        r.push(FieldRule { key: 8, kind: FieldKind::Bytes(16) });
        r.push(FieldRule { key: 9, kind: FieldKind::Unsigned });
        r.push(FieldRule { key: 10, kind: FieldKind::Bytes(32) });
        r.push(FieldRule { key: 11, kind: FieldKind::Unsigned });
        r.push(FieldRule { key: 12, kind: FieldKind::OperationCode });
        r.push(FieldRule { key: 13, kind: FieldKind::OperationInput });
        r.push(FieldRule { key: 14, kind: FieldKind::Bytes(16) });
        r.push(FieldRule { key: 15, kind: FieldKind::Bytes(32) });
        r.push(FieldRule { key: 16, kind: FieldKind::Bytes(32) });
        r.push(FieldRule { key: 17, kind: FieldKind::Any });
        r.push(FieldRule { key: 18, kind: FieldKind::OptionalText(512) });
        proof {
            assert(r@ =~= Self::rules());
        }
        r
    }

    /// The outcome of checking a map as a Request: the rules, then expiry
    /// not before creation, then a map-shaped frozen plan.
    pub open spec fn check(m: Cbor) -> Result<FieldSeq, SchemaError> {
        match check_message(m, Self::rules()) {
            Err(e) => Err(e),
            Ok(fs) => if signed_value(lookup(fs, 7)->Some_0) < signed_value(lookup(fs, 6)->Some_0) {
                Err(SchemaError::InvalidField { field: 7 })
            } else if !(lookup(fs, 17) matches Some(Cbor::Entries(_))) {
                Err(SchemaError::WrongType { field: 17 })
            } else {
                Ok(fs)
            },
        }
    }

    /// Whether the request holds exactly the values of the given fields.
    pub open spec fn agrees_with(self, fs: FieldSeq) -> bool {
        &&& lookup(fs, 2) == Some(Cbor::Bytes(self.request_id@))
        &&& lookup(fs, 3) == Some(Cbor::Bytes(self.device_id@))
        &&& lookup(fs, 4) == Some(Cbor::Unsigned(self.broker_epoch))
        &&& lookup(fs, 5) == Some(Cbor::Unsigned(self.generation))
        &&& lookup(fs, 6) is Some && signed_value(lookup(fs, 6)->Some_0) == self.created_utc
        &&& lookup(fs, 7) is Some && signed_value(lookup(fs, 7)->Some_0) == self.expires_utc
        &&& lookup(fs, 8) == Some(Cbor::Bytes(self.boot_id@))
        &&& lookup(fs, 9) == Some(Cbor::Unsigned(self.deadline_mono_ns))
        &&& lookup(fs, 10) == Some(Cbor::Bytes(self.nonce@))
        &&& lookup(fs, 11) == Some(Cbor::Unsigned(self.requester_uid))
        &&& lookup(fs, 12) == Some(Cbor::Unsigned(self.operation.spec_code()))
        &&& nested_input_agrees(lookup(fs, 13), self.operation_input)
        &&& lookup(fs, 14) == Some(Cbor::Bytes(self.policy_id@))
        &&& lookup(fs, 15) == Some(Cbor::Bytes(self.policy_digest@))
        &&& lookup(fs, 16) == Some(Cbor::Bytes(self.plan_digest@))
        &&& lookup(fs, 17) == Some(self.frozen_plan@)
        &&& lookup(fs, 18) == optional_text(self.agent_note)
    }

    /// The request's map, in field order.
    pub open spec fn spec_cbor(self) -> Cbor {
        let base = Seq::empty()
            .push((Cbor::Unsigned(1), Cbor::Unsigned(1)))
            .push((Cbor::Unsigned(2), Cbor::Bytes(self.request_id@)))
            .push((Cbor::Unsigned(3), Cbor::Bytes(self.device_id@)))
            .push((Cbor::Unsigned(4), Cbor::Unsigned(self.broker_epoch)))
            .push((Cbor::Unsigned(5), Cbor::Unsigned(self.generation)))
            .push((Cbor::Unsigned(6), signed_cbor(self.created_utc)))
            .push((Cbor::Unsigned(7), signed_cbor(self.expires_utc)))
            .push((Cbor::Unsigned(8), Cbor::Bytes(self.boot_id@)))
            .push((Cbor::Unsigned(9), Cbor::Unsigned(self.deadline_mono_ns)))
            .push((Cbor::Unsigned(10), Cbor::Bytes(self.nonce@)))
            .push((Cbor::Unsigned(11), Cbor::Unsigned(self.requester_uid)))
            .push((Cbor::Unsigned(12), Cbor::Unsigned(self.operation.spec_code())))
            .push((Cbor::Unsigned(13), self.operation_input.spec_cbor()))
            .push((Cbor::Unsigned(14), Cbor::Bytes(self.policy_id@)))
            .push((Cbor::Unsigned(15), Cbor::Bytes(self.policy_digest@)))
            .push((Cbor::Unsigned(16), Cbor::Bytes(self.plan_digest@)))
            .push((Cbor::Unsigned(17), self.frozen_plan@));
        match self.agent_note {
            Some(t) => Cbor::Entries(base.push((Cbor::Unsigned(18), Cbor::Text(t@)))),
            None => Cbor::Entries(base),
        }
    }

    /// What `validate` answers: the request checked through its own map.
    pub open spec fn spec_validate(self) -> Result<(), SchemaError> {
        match Self::check(self.spec_cbor()) {
            Err(e) => Err(e),
            Ok(_) => Ok(()),
        }
    }

    pub fn to_cbor(&self) -> (r: CborValue)
        ensures
            r@ == self.spec_cbor(),
    {
        let mut e: Vec<(CborValue, CborValue)> = Vec::new();
        push_field(&mut e, 1, CborValue::Unsigned(1));
        push_field(&mut e, 2, bytes(self.request_id.as_bytes()));
        push_field(&mut e, 3, bytes(self.device_id.as_bytes()));
        push_field(&mut e, 4, CborValue::Unsigned(self.broker_epoch));
        push_field(&mut e, 5, CborValue::Unsigned(self.generation));
        push_field(&mut e, 6, signed(self.created_utc));
        push_field(&mut e, 7, signed(self.expires_utc));
        push_field(&mut e, 8, bytes(self.boot_id.as_bytes()));
        push_field(&mut e, 9, CborValue::Unsigned(self.deadline_mono_ns));
        push_field(&mut e, 10, bytes(self.nonce.as_bytes()));
        push_field(&mut e, 11, CborValue::Unsigned(self.requester_uid));
        push_field(&mut e, 12, CborValue::Unsigned(self.operation.code()));
        push_field(&mut e, 13, self.operation_input.to_cbor());
        push_field(&mut e, 14, bytes(self.policy_id.as_bytes()));
        push_field(&mut e, 15, bytes(&self.policy_digest));
        push_field(&mut e, 16, bytes(&self.plan_digest));
        push_field(&mut e, 17, self.frozen_plan.deep_clone());
        if let Some(note) = &self.agent_note {
            push_field(&mut e, 18, CborValue::Text(note.clone()));
        }
        CborValue::Entries(e)
    }

    /// Checks a request with the same schema path used for inbound bytes.
    pub fn validate(&self) -> (r: Result<(), SchemaError>)
        ensures
            r == self.spec_validate(),
    {
        match Self::from_cbor(self.to_cbor()) {
            Ok(_) => Ok(()),
            Err(e) => Err(e),
        }
    }

    /// The request's deterministic encoding, for a valid request.
    pub fn canonical_bytes(&self) -> (r: Result<Vec<u8>, SchemaError>)
        ensures
            match self.spec_validate() {
                Err(e) => r == Err::<Vec<u8>, SchemaError>(e),
                Ok(_) => match spec_encode(self.spec_cbor()) {
                    Ok(b) => r matches Ok(v) && v@ == b,
                    Err(e) => r == Err::<Vec<u8>, SchemaError>(SchemaError::Encode(e)),
                },
            },
    {
        self.validate()?;
        match encode(&self.to_cbor()) {
            Ok(b) => Ok(b),
            Err(e) => Err(SchemaError::Encode(e)),
        }
    }

    /// The request's domain-separated digest, for a valid request.
    pub fn digest(&self) -> (r: Result<Digest, SchemaError>)
        ensures
            match self.spec_validate() {
                Err(e) => r == Err::<Digest, SchemaError>(e),
                Ok(_) => match spec_digest_cbor(Domain::Request, self.spec_cbor()) {
                    Ok(d) => r matches Ok(v) && v@ == d,
                    Err(e) => r == Err::<Digest, SchemaError>(SchemaError::Encode(e)),
                },
            },
    {
        self.validate()?;
        match digest_cbor(Domain::Request, &self.to_cbor()) {
            Ok(d) => Ok(d),
            Err(e) => Err(SchemaError::Encode(e)),
        }
    }

    /// Decodes and checks a request.
    pub fn decode(input: &[u8]) -> (r: Result<Request, SchemaError>)
        ensures
            match spec_decode(input@) {
                Err(e) => r == Err::<Request, SchemaError>(SchemaError::Cbor(e)),
                Ok(c) => match Self::check(c) {
                    Err(e) => r == Err::<Request, SchemaError>(e),
                    Ok(fs) => r matches Ok(x) && x.agrees_with(fs),
                },
            },
    {
        match decode(input) {
            Ok(v) => Self::from_cbor(v),
            Err(e) => Err(SchemaError::Cbor(e)),
        }
    }

    /// Reads a request from a map value.
    pub fn from_cbor(value: CborValue) -> (r: Result<Request, SchemaError>)
        ensures
            match Self::check(value@) {
                Err(e) => r == Err::<Request, SchemaError>(e),
                Ok(fs) => r matches Ok(x) && x.agrees_with(fs),
            },
    {
        let rules = Self::rule_table();
        let fs = check_message_exec(&value, &rules)?;
        let ghost fm = field_models(fs@);
        proof {
            lemma_rules_hold(fm, Self::rules(), 18);
            assert(rule_error(fm, Self::rules()[1]) is None);
            assert(rule_error(fm, Self::rules()[2]) is None);
            assert(rule_error(fm, Self::rules()[3]) is None);
            assert(rule_error(fm, Self::rules()[4]) is None);
            assert(rule_error(fm, Self::rules()[5]) is None);
            assert(rule_error(fm, Self::rules()[6]) is None);
            assert(rule_error(fm, Self::rules()[7]) is None);
            assert(rule_error(fm, Self::rules()[8]) is None);
            assert(rule_error(fm, Self::rules()[9]) is None);
            assert(rule_error(fm, Self::rules()[10]) is None);
            assert(rule_error(fm, Self::rules()[11]) is None);
            assert(rule_error(fm, Self::rules()[12]) is None);
            assert(rule_error(fm, Self::rules()[13]) is None);
            assert(rule_error(fm, Self::rules()[14]) is None);
            assert(rule_error(fm, Self::rules()[15]) is None);
            assert(rule_error(fm, Self::rules()[16]) is None);
            assert(rule_error(fm, Self::rules()[17]) is None);
        }
        let request_id = match RequestId::try_from_slice(take_bytes(&fs, 2).as_slice()) {
            Ok(id) => id,
            Err(e) => {
                return Err(SchemaError::Identifier(e));
            },
        };
        let device_id = match DeviceId::try_from_slice(take_bytes(&fs, 3).as_slice()) {
            Ok(id) => id,
            Err(e) => {
                return Err(SchemaError::Identifier(e));
            },
        };
        let boot_id = match BootId::try_from_slice(take_bytes(&fs, 8).as_slice()) {
            Ok(id) => id,
            Err(e) => {
                return Err(SchemaError::Identifier(e));
            },
        };
        let nonce = match Nonce::try_from_slice(take_bytes(&fs, 10).as_slice()) {
            Ok(id) => id,
            Err(e) => {
                return Err(SchemaError::Identifier(e));
            },
        };
        let policy_id = match PolicyId::try_from_slice(take_bytes(&fs, 14).as_slice()) {
            Ok(id) => id,
            Err(e) => {
                return Err(SchemaError::Identifier(e));
            },
        };
        let request = Request {
            request_id,
            device_id,
            broker_epoch: take_unsigned(&fs, 4),
            generation: take_unsigned(&fs, 5),
            created_utc: take_signed(&fs, 6),
            expires_utc: take_signed(&fs, 7),
            boot_id,
            deadline_mono_ns: take_unsigned(&fs, 9),
            nonce,
            requester_uid: take_unsigned(&fs, 11),
            operation: Operation::PackageInstall,
            operation_input: OperationInput::from_nested(get_field(&fs, 13)),
            policy_id,
            policy_digest: take_digest(&fs, 15),
            plan_digest: take_digest(&fs, 16),
            frozen_plan: take_value(&fs, 17),
            agent_note: take_optional_text(&fs, 18),
        };
        if request.expires_utc < request.created_utc {
            return Err(SchemaError::InvalidField { field: 7 });
        }
        if !matches!(request.frozen_plan, CborValue::Entries(_)) {
            return Err(SchemaError::WrongType { field: 17 });
        }
        Ok(request)
    }
}

/// The model of a nested approval-context field: present, a map, and agreeing.
pub open spec fn nested_context_agrees(v: Option<Cbor>, x: ApprovalContext) -> bool {
    v matches Some(c) && spec_fields(c) matches Ok(nf) && x.agrees_with(nf)
}

/// The exact v1 ApprovalContext map; approve and deny share it, so their challenges differ.
#[derive(Debug, Clone, PartialEq, Eq)]
pub struct ApprovalContext {
    pub request_id: RequestId,
    pub device_id: DeviceId,
    pub broker_epoch: u64,
    pub request_digest: Digest,
    pub generation: u64,
    pub nonce: Nonce,
    pub rp_id: String,
    pub origin: String,
    pub decision: Decision,
    pub expires_utc: i64,
}

impl ApprovalContext {
    /// The field rules, in checking order.
    pub open spec fn rules() -> Seq<FieldRule> {
        seq![
            FieldRule { key: 1, kind: FieldKind::Version },
            FieldRule { key: 2, kind: FieldKind::Bytes(16) },
            FieldRule { key: 3, kind: FieldKind::Bytes(16) },
            FieldRule { key: 4, kind: FieldKind::Unsigned },
            FieldRule { key: 5, kind: FieldKind::Bytes(32) },
            FieldRule { key: 6, kind: FieldKind::Unsigned },
            FieldRule { key: 7, kind: FieldKind::Bytes(32) },
            FieldRule { key: 8, kind: FieldKind::NonEmptyText(253) },
            FieldRule { key: 9, kind: FieldKind::NonEmptyText(255) },
            FieldRule { key: 10, kind: FieldKind::DecisionCode },
            FieldRule { key: 11, kind: FieldKind::Signed },
        ]
    }

    fn rule_table() -> (r: Vec<FieldRule>)
        ensures
            r@ == Self::rules(),
    {
        let mut r: Vec<FieldRule> = Vec::new();
        r.push(FieldRule { key: 1, kind: FieldKind::Version });
        r.push(FieldRule { key: 2, kind: FieldKind::Bytes(16) });
        r.push(FieldRule { key: 3, kind: FieldKind::Bytes(16) });
        r.push(FieldRule { key: 4, kind: FieldKind::Unsigned });
        r.push(FieldRule { key: 5, kind: FieldKind::Bytes(32) });
        r.push(FieldRule { key: 6, kind: FieldKind::Unsigned });
        r.push(FieldRule { key: 7, kind: FieldKind::Bytes(32) });
        r.push(FieldRule { key: 8, kind: FieldKind::NonEmptyText(253) });
        r.push(FieldRule { key: 9, kind: FieldKind::NonEmptyText(255) });
        r.push(FieldRule { key: 10, kind: FieldKind::DecisionCode });
        r.push(FieldRule { key: 11, kind: FieldKind::Signed });
        proof {
            assert(r@ =~= Self::rules());
        }
        r
    }

    /// The outcome of checking a map as a ApprovalContext.
    pub open spec fn check(m: Cbor) -> Result<FieldSeq, SchemaError> {
        check_message(m, Self::rules())
    }

    /// The per-field rules hold of the given fields.
    pub open spec fn fields_hold(fs: FieldSeq) -> bool {
        &&& flat_rule_error(fs, Self::rules()[1]) is None
        &&& flat_rule_error(fs, Self::rules()[2]) is None
        &&& flat_rule_error(fs, Self::rules()[3]) is None
        &&& flat_rule_error(fs, Self::rules()[4]) is None
        &&& flat_rule_error(fs, Self::rules()[5]) is None
        &&& flat_rule_error(fs, Self::rules()[6]) is None
        &&& flat_rule_error(fs, Self::rules()[7]) is None
        &&& flat_rule_error(fs, Self::rules()[8]) is None
        &&& flat_rule_error(fs, Self::rules()[9]) is None
        &&& flat_rule_error(fs, Self::rules()[10]) is None
    }

    /// Whether the value holds exactly the values of the given fields.
    pub open spec fn agrees_with(self, fs: FieldSeq) -> bool {
        &&& lookup(fs, 2) == Some(Cbor::Bytes(self.request_id@))
        &&& lookup(fs, 3) == Some(Cbor::Bytes(self.device_id@))
        &&& lookup(fs, 4) == Some(Cbor::Unsigned(self.broker_epoch))
        &&& lookup(fs, 5) == Some(Cbor::Bytes(self.request_digest@))
        &&& lookup(fs, 6) == Some(Cbor::Unsigned(self.generation))
        &&& lookup(fs, 7) == Some(Cbor::Bytes(self.nonce@))
        &&& lookup(fs, 8) == Some(Cbor::Text(self.rp_id@))
        &&& lookup(fs, 9) == Some(Cbor::Text(self.origin@))
        &&& lookup(fs, 10) == Some(Cbor::Unsigned(self.decision.spec_code()))
        &&& lookup(fs, 11) is Some && signed_value(lookup(fs, 11)->Some_0) == self.expires_utc
    }

    /// The value's map, in the order `to_cbor` writes it.
    pub open spec fn spec_cbor(self) -> Cbor {
        let base = Seq::empty()
            .push((Cbor::Unsigned(1), Cbor::Unsigned(1)))
            .push((Cbor::Unsigned(2), Cbor::Bytes(self.request_id@)))
            .push((Cbor::Unsigned(3), Cbor::Bytes(self.device_id@)))
            .push((Cbor::Unsigned(4), Cbor::Unsigned(self.broker_epoch)))
            .push((Cbor::Unsigned(5), Cbor::Bytes(self.request_digest@)))
            .push((Cbor::Unsigned(6), Cbor::Unsigned(self.generation)))
            .push((Cbor::Unsigned(7), Cbor::Bytes(self.nonce@)))
            .push((Cbor::Unsigned(8), Cbor::Text(self.rp_id@)))
            .push((Cbor::Unsigned(9), Cbor::Text(self.origin@)))
            .push((Cbor::Unsigned(10), Cbor::Unsigned(self.decision.spec_code())))
            .push((Cbor::Unsigned(11), signed_cbor(self.expires_utc)));
        Cbor::Entries(base)
    }

    /// What `validate` answers: the value checked through its own map.
    pub open spec fn spec_validate(self) -> Result<(), SchemaError> {
        match Self::check(self.spec_cbor()) {
            Err(e) => Err(e),
            Ok(_) => Ok(()),
        }
    }

    pub fn to_cbor(&self) -> (r: CborValue)
        ensures
            r@ == self.spec_cbor(),
    {
        let mut e: Vec<(CborValue, CborValue)> = Vec::new();
        push_field(&mut e, 1, CborValue::Unsigned(1));
        push_field(&mut e, 2, bytes(self.request_id.as_bytes()));
        push_field(&mut e, 3, bytes(self.device_id.as_bytes()));
        push_field(&mut e, 4, CborValue::Unsigned(self.broker_epoch));
        push_field(&mut e, 5, bytes(&self.request_digest));
        push_field(&mut e, 6, CborValue::Unsigned(self.generation));
        push_field(&mut e, 7, bytes(self.nonce.as_bytes()));
        push_field(&mut e, 8, CborValue::Text(self.rp_id.clone()));
        push_field(&mut e, 9, CborValue::Text(self.origin.clone()));
        push_field(&mut e, 10, CborValue::Unsigned(self.decision.code()));
        push_field(&mut e, 11, signed(self.expires_utc));
        CborValue::Entries(e)
    }

    /// Checks a value with the same schema path used for inbound bytes.
    pub fn validate(&self) -> (r: Result<(), SchemaError>)
        ensures
            r == self.spec_validate(),
    {
        match Self::from_cbor(self.to_cbor()) {
            Ok(_) => Ok(()),
            Err(e) => Err(e),
        }
    }

    /// The value's deterministic encoding, for a valid value.
    pub fn canonical_bytes(&self) -> (r: Result<Vec<u8>, SchemaError>)
        ensures
            match self.spec_validate() {
                Err(e) => r == Err::<Vec<u8>, SchemaError>(e),
                Ok(_) => match spec_encode(self.spec_cbor()) {
                    Ok(b) => r matches Ok(v) && v@ == b,
                    Err(e) => r == Err::<Vec<u8>, SchemaError>(SchemaError::Encode(e)),
                },
            },
    {
        self.validate()?;
        match encode(&self.to_cbor()) {
            Ok(b) => Ok(b),
            Err(e) => Err(SchemaError::Encode(e)),
        }
    }

    /// The digest a protocol role commits to for the decision context.
    pub fn digest(&self) -> (r: Result<Digest, SchemaError>)
        ensures
            match self.spec_validate() {
                Err(e) => r == Err::<Digest, SchemaError>(e),
                Ok(_) => match spec_digest_cbor(Domain::Decision, self.spec_cbor()) {
                    Ok(d) => r matches Ok(v) && v@ == d,
                    Err(e) => r == Err::<Digest, SchemaError>(SchemaError::Encode(e)),
                },
            },
    {
        self.validate()?;
        match digest_cbor(Domain::Decision, &self.to_cbor()) {
            Ok(d) => Ok(d),
            Err(e) => Err(SchemaError::Encode(e)),
        }
    }

    /// The exact WebAuthn challenge for this context.
    pub fn webauthn_challenge(&self) -> (r: Result<Digest, SchemaError>)
        ensures
            match self.spec_validate() {
                Err(e) => r == Err::<Digest, SchemaError>(e),
                Ok(_) => match spec_digest_cbor(Domain::WebAuthnChallenge, self.spec_cbor()) {
                    Ok(d) => r matches Ok(v) && v@ == d,
                    Err(e) => r == Err::<Digest, SchemaError>(SchemaError::Encode(e)),
                },
            },
    {
        self.validate()?;
        match digest_cbor(Domain::WebAuthnChallenge, &self.to_cbor()) {
            Ok(d) => Ok(d),
            Err(e) => Err(SchemaError::Encode(e)),
        }
    }

    /// Decodes and checks a value.
    pub fn decode(input: &[u8]) -> (r: Result<ApprovalContext, SchemaError>)
        ensures
            match spec_decode(input@) {
                Err(e) => r == Err::<ApprovalContext, SchemaError>(SchemaError::Cbor(e)),
                Ok(c) => match Self::check(c) {
                    Err(e) => r == Err::<ApprovalContext, SchemaError>(e),
                    Ok(fs) => r matches Ok(x) && x.agrees_with(fs),
                },
            },
    {
        match decode(input) {
            Ok(v) => Self::from_cbor(v),
            Err(e) => Err(SchemaError::Cbor(e)),
        }
    }

    /// Reads a value from a map.
    pub fn from_cbor(value: CborValue) -> (r: Result<ApprovalContext, SchemaError>)
        ensures
            match Self::check(value@) {
                Err(e) => r == Err::<ApprovalContext, SchemaError>(e),
                Ok(fs) => r matches Ok(x) && x.agrees_with(fs),
            },
    {
        let rules = Self::rule_table();
        let fs = check_message_exec(&value, &rules)?;
        proof {
            lemma_rules_hold(field_models(fs@), Self::rules(), 11);
            assert(rule_error(field_models(fs@), Self::rules()[1]) is None);
            assert(rule_error(field_models(fs@), Self::rules()[2]) is None);
            assert(rule_error(field_models(fs@), Self::rules()[3]) is None);
            assert(rule_error(field_models(fs@), Self::rules()[4]) is None);
            assert(rule_error(field_models(fs@), Self::rules()[5]) is None);
            assert(rule_error(field_models(fs@), Self::rules()[6]) is None);
            assert(rule_error(field_models(fs@), Self::rules()[7]) is None);
            assert(rule_error(field_models(fs@), Self::rules()[8]) is None);
            assert(rule_error(field_models(fs@), Self::rules()[9]) is None);
            assert(rule_error(field_models(fs@), Self::rules()[10]) is None);
        }
        Self::from_fields(&fs)
    }

    /// The value held by fields that passed the rules.
    fn from_fields(fs: &Vec<(u64, CborValue)>) -> (r: Result<ApprovalContext, SchemaError>)
        requires
            Self::fields_hold(field_models(fs@)),
        ensures
            r matches Ok(x) && x.agrees_with(field_models(fs@)),
    {
        let request_id = match RequestId::try_from_slice(take_bytes(fs, 2).as_slice()) {
            Ok(id) => id,
            Err(e) => {
                return Err(SchemaError::Identifier(e));
            },
        };
        let device_id = match DeviceId::try_from_slice(take_bytes(fs, 3).as_slice()) {
            Ok(id) => id,
            Err(e) => {
                return Err(SchemaError::Identifier(e));
            },
        };
        let nonce = match Nonce::try_from_slice(take_bytes(fs, 7).as_slice()) {
            Ok(id) => id,
            Err(e) => {
                return Err(SchemaError::Identifier(e));
            },
        };
        Ok(ApprovalContext {
            request_id,
            device_id,
            broker_epoch: take_unsigned(fs, 4),
            request_digest: take_digest(fs, 5),
            generation: take_unsigned(fs, 6),
            nonce,
            rp_id: take_text(fs, 8),
            origin: take_text(fs, 9),
            decision: Decision::from_code(take_unsigned(fs, 10)),
            expires_utc: take_signed(fs, 11),
        })
    }

    /// The value held by a nested map that passed its checks.
    fn from_nested(value: &CborValue) -> (r: Result<ApprovalContext, SchemaError>)
        requires
            nested_error(value@, Self::rules()) is None,
        ensures
            spec_fields(value@) matches Ok(nf) && r matches Ok(x) && x.agrees_with(nf),
    {
        let nf = match collect_fields(value) {
            Ok(nf) => nf,
            Err(_) => {
                proof {
                    assert(false);
                }
                Vec::new()
            },
        };
        proof {
            lemma_flat_rules_hold(field_models(nf@), Self::rules(), 11);
            assert(flat_rule_error(field_models(nf@), Self::rules()[1]) is None);
            assert(flat_rule_error(field_models(nf@), Self::rules()[2]) is None);
            assert(flat_rule_error(field_models(nf@), Self::rules()[3]) is None);
            assert(flat_rule_error(field_models(nf@), Self::rules()[4]) is None);
            assert(flat_rule_error(field_models(nf@), Self::rules()[5]) is None);
            assert(flat_rule_error(field_models(nf@), Self::rules()[6]) is None);
            assert(flat_rule_error(field_models(nf@), Self::rules()[7]) is None);
            assert(flat_rule_error(field_models(nf@), Self::rules()[8]) is None);
            assert(flat_rule_error(field_models(nf@), Self::rules()[9]) is None);
            assert(flat_rule_error(field_models(nf@), Self::rules()[10]) is None);
        }
        Self::from_fields(&nf)
    }
}

/// The exact v1 DecisionSubmission map: the complete context and the WebAuthn assertion.
#[derive(Debug, Clone, PartialEq, Eq)]
pub struct DecisionSubmission {
    pub approval_context: ApprovalContext,
    pub credential_id: Vec<u8>,
    pub authenticator_data: Vec<u8>,
    pub client_data_json: Vec<u8>,
    pub signature: Vec<u8>,
    pub user_handle: Option<Vec<u8>>,
}

impl DecisionSubmission {
    /// The field rules, in checking order.
    pub open spec fn rules() -> Seq<FieldRule> {
        seq![
            FieldRule { key: 1, kind: FieldKind::Version },
            FieldRule { key: 2, kind: FieldKind::ApprovalContext },
            FieldRule { key: 3, kind: FieldKind::BoundedBytes(1, 1024) },
            FieldRule { key: 4, kind: FieldKind::BoundedBytes(1, 512) },
            FieldRule { key: 5, kind: FieldKind::BoundedBytes(1, 4096) },
            FieldRule { key: 6, kind: FieldKind::BoundedBytes(1, 512) },
            FieldRule { key: 7, kind: FieldKind::OptionalBoundedBytes(0, 256) },
        ]
    }

    fn rule_table() -> (r: Vec<FieldRule>)
        ensures
            r@ == Self::rules(),
    {
        let mut r: Vec<FieldRule> = Vec::new();
        r.push(FieldRule { key: 1, kind: FieldKind::Version });
        r.push(FieldRule { key: 2, kind: FieldKind::ApprovalContext });
        r.push(FieldRule { key: 3, kind: FieldKind::BoundedBytes(1, 1024) });
        r.push(FieldRule { key: 4, kind: FieldKind::BoundedBytes(1, 512) });
        r.push(FieldRule { key: 5, kind: FieldKind::BoundedBytes(1, 4096) });
        r.push(FieldRule { key: 6, kind: FieldKind::BoundedBytes(1, 512) });
        r.push(FieldRule { key: 7, kind: FieldKind::OptionalBoundedBytes(0, 256) });
        proof {
            assert(r@ =~= Self::rules());
        }
        r
    }

    /// The outcome of checking a map as a DecisionSubmission.
    pub open spec fn check(m: Cbor) -> Result<FieldSeq, SchemaError> {
        check_message(m, Self::rules())
    }

    /// The per-field rules hold of the given fields.
    pub open spec fn fields_hold(fs: FieldSeq) -> bool {
        &&& rule_error(fs, Self::rules()[1]) is None
        &&& flat_rule_error(fs, Self::rules()[2]) is None
        &&& flat_rule_error(fs, Self::rules()[3]) is None
        &&& flat_rule_error(fs, Self::rules()[4]) is None
        &&& flat_rule_error(fs, Self::rules()[5]) is None
        &&& flat_rule_error(fs, Self::rules()[6]) is None
    }

    /// Whether the value holds exactly the values of the given fields.
    pub open spec fn agrees_with(self, fs: FieldSeq) -> bool {
        &&& nested_context_agrees(lookup(fs, 2), self.approval_context)
        &&& lookup(fs, 3) == Some(Cbor::Bytes(self.credential_id@))
        &&& lookup(fs, 4) == Some(Cbor::Bytes(self.authenticator_data@))
        &&& lookup(fs, 5) == Some(Cbor::Bytes(self.client_data_json@))
        &&& lookup(fs, 6) == Some(Cbor::Bytes(self.signature@))
        &&& lookup(fs, 7) == optional_bytes(self.user_handle)
    }

    /// The value's map, in the order `to_cbor` writes it.
    pub open spec fn spec_cbor(self) -> Cbor {
        let base = Seq::empty()
            .push((Cbor::Unsigned(1), Cbor::Unsigned(1)))
            .push((Cbor::Unsigned(2), self.approval_context.spec_cbor()))
            .push((Cbor::Unsigned(3), Cbor::Bytes(self.credential_id@)))
            .push((Cbor::Unsigned(4), Cbor::Bytes(self.authenticator_data@)))
            .push((Cbor::Unsigned(5), Cbor::Bytes(self.client_data_json@)))
            .push((Cbor::Unsigned(6), Cbor::Bytes(self.signature@)));
        let with_7 = match self.user_handle {
            Some(x) => base.push((Cbor::Unsigned(7), Cbor::Bytes(x@))),
            None => base,
        };
        Cbor::Entries(with_7)
    }

    /// What `validate` answers: the value checked through its own map.
    pub open spec fn spec_validate(self) -> Result<(), SchemaError> {
        match Self::check(self.spec_cbor()) {
            Err(e) => Err(e),
            Ok(_) => Ok(()),
        }
    }

    pub fn to_cbor(&self) -> (r: CborValue)
        ensures
            r@ == self.spec_cbor(),
    {
        let mut e: Vec<(CborValue, CborValue)> = Vec::new();
        push_field(&mut e, 1, CborValue::Unsigned(1));
        push_field(&mut e, 2, self.approval_context.to_cbor());
        push_field(&mut e, 3, bytes(self.credential_id.as_slice()));
        push_field(&mut e, 4, bytes(self.authenticator_data.as_slice()));
        push_field(&mut e, 5, bytes(self.client_data_json.as_slice()));
        push_field(&mut e, 6, bytes(self.signature.as_slice()));
        if let Some(x) = &self.user_handle {
            push_field(&mut e, 7, bytes(x.as_slice()));
        }
        CborValue::Entries(e)
    }

    /// Checks a value with the same schema path used for inbound bytes.
    pub fn validate(&self) -> (r: Result<(), SchemaError>)
        ensures
            r == self.spec_validate(),
    {
        match Self::from_cbor(self.to_cbor()) {
            Ok(_) => Ok(()),
            Err(e) => Err(e),
        }
    }

    /// The value's deterministic encoding, for a valid value.
    pub fn canonical_bytes(&self) -> (r: Result<Vec<u8>, SchemaError>)
        ensures
            match self.spec_validate() {
                Err(e) => r == Err::<Vec<u8>, SchemaError>(e),
                Ok(_) => match spec_encode(self.spec_cbor()) {
                    Ok(b) => r matches Ok(v) && v@ == b,
                    Err(e) => r == Err::<Vec<u8>, SchemaError>(SchemaError::Encode(e)),
                },
            },
    {
        self.validate()?;
        match encode(&self.to_cbor()) {
            Ok(b) => Ok(b),
            Err(e) => Err(SchemaError::Encode(e)),
        }
    }

    /// Decodes and checks a value.
    pub fn decode(input: &[u8]) -> (r: Result<DecisionSubmission, SchemaError>)
        ensures
            match spec_decode(input@) {
                Err(e) => r == Err::<DecisionSubmission, SchemaError>(SchemaError::Cbor(e)),
                Ok(c) => match Self::check(c) {
                    Err(e) => r == Err::<DecisionSubmission, SchemaError>(e),
                    Ok(fs) => r matches Ok(x) && x.agrees_with(fs),
                },
            },
    {
        match decode(input) {
            Ok(v) => Self::from_cbor(v),
            Err(e) => Err(SchemaError::Cbor(e)),
        }
    }

    /// Reads a value from a map.
    pub fn from_cbor(value: CborValue) -> (r: Result<DecisionSubmission, SchemaError>)
        ensures
            match Self::check(value@) {
                Err(e) => r == Err::<DecisionSubmission, SchemaError>(e),
                Ok(fs) => r matches Ok(x) && x.agrees_with(fs),
            },
    {
        let rules = Self::rule_table();
        let fs = check_message_exec(&value, &rules)?;
        proof {
            lemma_rules_hold(field_models(fs@), Self::rules(), 7);
            assert(rule_error(field_models(fs@), Self::rules()[1]) is None);
            assert(rule_error(field_models(fs@), Self::rules()[2]) is None);
            assert(rule_error(field_models(fs@), Self::rules()[3]) is None);
            assert(rule_error(field_models(fs@), Self::rules()[4]) is None);
            assert(rule_error(field_models(fs@), Self::rules()[5]) is None);
            assert(rule_error(field_models(fs@), Self::rules()[6]) is None);
        }
        Self::from_fields(&fs)
    }

    /// The value held by fields that passed the rules.
    fn from_fields(fs: &Vec<(u64, CborValue)>) -> (r: Result<DecisionSubmission, SchemaError>)
        requires
            Self::fields_hold(field_models(fs@)),
        ensures
            r matches Ok(x) && x.agrees_with(field_models(fs@)),
    {
        Ok(DecisionSubmission {
            approval_context: ApprovalContext::from_nested(get_field(fs, 2))?,
            credential_id: take_bytes(fs, 3),
            authenticator_data: take_bytes(fs, 4),
            client_data_json: take_bytes(fs, 5),
            signature: take_bytes(fs, 6),
            user_handle: take_optional_bytes(fs, 7),
        })
    }
}

/// The exact top-level v1 sealed-plan manifest map.
#[derive(Debug, Clone, PartialEq, Eq)]
pub struct PlanManifest {
    pub plan_digest: Digest,
    pub inputs: Vec<CborValue>,
    pub action_graph: CborValue,
    pub policy_digest: Digest,
    pub created_utc: i64,
    pub toolchain: CborValue,
    pub prestate_observation: CborValue,
}

impl PlanManifest {
    /// The field rules, in checking order.
    pub open spec fn rules() -> Seq<FieldRule> {
        seq![
            FieldRule { key: 1, kind: FieldKind::Version },
            FieldRule { key: 2, kind: FieldKind::Bytes(32) },
            FieldRule { key: 3, kind: FieldKind::Array },
            FieldRule { key: 4, kind: FieldKind::MapValue },
            FieldRule { key: 5, kind: FieldKind::Bytes(32) },
            FieldRule { key: 6, kind: FieldKind::Signed },
            FieldRule { key: 7, kind: FieldKind::MapValue },
            FieldRule { key: 8, kind: FieldKind::MapValue },
        ]
    }

    fn rule_table() -> (r: Vec<FieldRule>)
        ensures
            r@ == Self::rules(),
    {
        let mut r: Vec<FieldRule> = Vec::new();
        r.push(FieldRule { key: 1, kind: FieldKind::Version });
        r.push(FieldRule { key: 2, kind: FieldKind::Bytes(32) });
        r.push(FieldRule { key: 3, kind: FieldKind::Array });
        r.push(FieldRule { key: 4, kind: FieldKind::MapValue });
        r.push(FieldRule { key: 5, kind: FieldKind::Bytes(32) });
        r.push(FieldRule { key: 6, kind: FieldKind::Signed });
        r.push(FieldRule { key: 7, kind: FieldKind::MapValue });
        r.push(FieldRule { key: 8, kind: FieldKind::MapValue });
        proof {
            assert(r@ =~= Self::rules());
        }
        r
    }

    /// The outcome of checking a map as a PlanManifest.
    pub open spec fn check(m: Cbor) -> Result<FieldSeq, SchemaError> {
        check_message(m, Self::rules())
    }

    /// The per-field rules hold of the given fields.
    pub open spec fn fields_hold(fs: FieldSeq) -> bool {
        &&& flat_rule_error(fs, Self::rules()[1]) is None
        &&& flat_rule_error(fs, Self::rules()[2]) is None
        &&& flat_rule_error(fs, Self::rules()[3]) is None
        &&& flat_rule_error(fs, Self::rules()[4]) is None
        &&& flat_rule_error(fs, Self::rules()[5]) is None
        &&& flat_rule_error(fs, Self::rules()[6]) is None
        &&& flat_rule_error(fs, Self::rules()[7]) is None
    }

    /// Whether the value holds exactly the values of the given fields.
    pub open spec fn agrees_with(self, fs: FieldSeq) -> bool {
        &&& lookup(fs, 2) == Some(Cbor::Bytes(self.plan_digest@))
        &&& lookup(fs, 3) == Some(Cbor::Array(models(self.inputs@)))
        &&& lookup(fs, 4) == Some(self.action_graph@)
        &&& lookup(fs, 5) == Some(Cbor::Bytes(self.policy_digest@))
        &&& lookup(fs, 6) is Some && signed_value(lookup(fs, 6)->Some_0) == self.created_utc
        &&& lookup(fs, 7) == Some(self.toolchain@)
        &&& lookup(fs, 8) == Some(self.prestate_observation@)
    }

    /// The value's map, in the order `to_cbor` writes it.
    pub open spec fn spec_cbor(self) -> Cbor {
        let base = Seq::empty()
            .push((Cbor::Unsigned(1), Cbor::Unsigned(1)))
            .push((Cbor::Unsigned(2), Cbor::Bytes(self.plan_digest@)))
            .push((Cbor::Unsigned(3), Cbor::Array(models(self.inputs@))))
            .push((Cbor::Unsigned(4), self.action_graph@))
            .push((Cbor::Unsigned(5), Cbor::Bytes(self.policy_digest@)))
            .push((Cbor::Unsigned(6), signed_cbor(self.created_utc)))
            .push((Cbor::Unsigned(7), self.toolchain@))
            .push((Cbor::Unsigned(8), self.prestate_observation@));
        Cbor::Entries(base)
    }

    /// What `validate` answers: the value checked through its own map.
    pub open spec fn spec_validate(self) -> Result<(), SchemaError> {
        match Self::check(self.spec_cbor()) {
            Err(e) => Err(e),
            Ok(_) => Ok(()),
        }
    }

    pub fn to_cbor(&self) -> (r: CborValue)
        ensures
            r@ == self.spec_cbor(),
    {
        let mut e: Vec<(CborValue, CborValue)> = Vec::new();
        push_field(&mut e, 1, CborValue::Unsigned(1));
        push_field(&mut e, 2, bytes(&self.plan_digest));
        push_field(&mut e, 3, CborValue::Array(clone_values(&self.inputs)));
        push_field(&mut e, 4, self.action_graph.deep_clone());
        push_field(&mut e, 5, bytes(&self.policy_digest));
        push_field(&mut e, 6, signed(self.created_utc));
        push_field(&mut e, 7, self.toolchain.deep_clone());
        push_field(&mut e, 8, self.prestate_observation.deep_clone());
        CborValue::Entries(e)
    }

    /// Checks a value with the same schema path used for inbound bytes.
    pub fn validate(&self) -> (r: Result<(), SchemaError>)
        ensures
            r == self.spec_validate(),
    {
        match Self::from_cbor(self.to_cbor()) {
            Ok(_) => Ok(()),
            Err(e) => Err(e),
        }
    }

    /// The value's deterministic encoding, for a valid value.
    pub fn canonical_bytes(&self) -> (r: Result<Vec<u8>, SchemaError>)
        ensures
            match self.spec_validate() {
                Err(e) => r == Err::<Vec<u8>, SchemaError>(e),
                Ok(_) => match spec_encode(self.spec_cbor()) {
                    Ok(b) => r matches Ok(v) && v@ == b,
                    Err(e) => r == Err::<Vec<u8>, SchemaError>(SchemaError::Encode(e)),
                },
            },
    {
        self.validate()?;
        match encode(&self.to_cbor()) {
            Ok(b) => Ok(b),
            Err(e) => Err(SchemaError::Encode(e)),
        }
    }

    /// The manifest's domain-separated digest, for a valid manifest.
    pub fn digest(&self) -> (r: Result<Digest, SchemaError>)
        ensures
            match self.spec_validate() {
                Err(e) => r == Err::<Digest, SchemaError>(e),
                Ok(_) => match spec_digest_cbor(Domain::AptPlan, self.spec_cbor()) {
                    Ok(d) => r matches Ok(v) && v@ == d,
                    Err(e) => r == Err::<Digest, SchemaError>(SchemaError::Encode(e)),
                },
            },
    {
        self.validate()?;
        match digest_cbor(Domain::AptPlan, &self.to_cbor()) {
            Ok(d) => Ok(d),
            Err(e) => Err(SchemaError::Encode(e)),
        }
    }

    /// Decodes a value, checks it, then validates it.
    pub fn decode(input: &[u8]) -> (r: Result<PlanManifest, SchemaError>)
        ensures
            match spec_decode(input@) {
                Err(e) => r == Err::<PlanManifest, SchemaError>(SchemaError::Cbor(e)),
                Ok(c) => match Self::check(c) {
                    Err(e) => r == Err::<PlanManifest, SchemaError>(e),
                    Ok(fs) => match r {
                        Ok(x) => x.agrees_with(fs) && x.spec_validate() is Ok,
                        Err(e) => forall|x: PlanManifest| #[trigger] x.agrees_with(fs) ==> x.spec_validate() == Err::<(), SchemaError>(e),
                    },
                },
            },
    {
        let value = match decode(input) {
            Ok(v) => Self::from_cbor(v)?,
            Err(e) => {
                return Err(SchemaError::Cbor(e));
            },
        };
        value.validate()?;
        Ok(value)
    }

    /// Reads a value from a map.
    pub fn from_cbor(value: CborValue) -> (r: Result<PlanManifest, SchemaError>)
        ensures
            match Self::check(value@) {
                Err(e) => r == Err::<PlanManifest, SchemaError>(e),
                Ok(fs) => r matches Ok(x) && x.agrees_with(fs),
            },
    {
        let rules = Self::rule_table();
        let fs = check_message_exec(&value, &rules)?;
        proof {
            lemma_rules_hold(field_models(fs@), Self::rules(), 8);
            assert(rule_error(field_models(fs@), Self::rules()[1]) is None);
            assert(rule_error(field_models(fs@), Self::rules()[2]) is None);
            assert(rule_error(field_models(fs@), Self::rules()[3]) is None);
            assert(rule_error(field_models(fs@), Self::rules()[4]) is None);
            assert(rule_error(field_models(fs@), Self::rules()[5]) is None);
            assert(rule_error(field_models(fs@), Self::rules()[6]) is None);
            assert(rule_error(field_models(fs@), Self::rules()[7]) is None);
        }
        Self::from_fields(&fs)
    }

    /// The value held by fields that passed the rules.
    fn from_fields(fs: &Vec<(u64, CborValue)>) -> (r: Result<PlanManifest, SchemaError>)
        requires
            Self::fields_hold(field_models(fs@)),
        ensures
            r matches Ok(x) && x.agrees_with(field_models(fs@)),
    {
        Ok(PlanManifest {
            plan_digest: take_digest(fs, 2),
            inputs: take_array(fs, 3),
            action_graph: take_value(fs, 4),
            policy_digest: take_digest(fs, 5),
            created_utc: take_signed(fs, 6),
            toolchain: take_value(fs, 7),
            prestate_observation: take_value(fs, 8),
        })
    }
}

/// The exact v1 append-only lifecycle-event map; the previous digest is absent only at sequence zero.
#[derive(Debug, Clone, PartialEq, Eq)]
pub struct LifecycleEvent {
    pub request_id: RequestId,
    pub sequence: u64,
    pub previous_event_digest: Option<Digest>,
    pub request_digest: Digest,
    pub broker_epoch: u64,
    pub transition: u64,
    pub occurred_utc: i64,
    pub detail_code: u64,
    pub detail_digest: Option<Digest>,
}

impl LifecycleEvent {
    /// The field rules, in checking order.
    pub open spec fn rules() -> Seq<FieldRule> {
        seq![
            FieldRule { key: 1, kind: FieldKind::Version },
            FieldRule { key: 2, kind: FieldKind::Bytes(16) },
            FieldRule { key: 3, kind: FieldKind::Unsigned },
            FieldRule { key: 4, kind: FieldKind::OptionalBoundedBytes(32, 32) },
            FieldRule { key: 5, kind: FieldKind::Bytes(32) },
            FieldRule { key: 6, kind: FieldKind::Unsigned },
            FieldRule { key: 7, kind: FieldKind::Unsigned },
            FieldRule { key: 8, kind: FieldKind::Signed },
            FieldRule { key: 9, kind: FieldKind::Unsigned },
            FieldRule { key: 10, kind: FieldKind::OptionalBoundedBytes(32, 32) },
        ]
    }

    fn rule_table() -> (r: Vec<FieldRule>)
        ensures
            r@ == Self::rules(),
    {
        let mut r: Vec<FieldRule> = Vec::new();
        r.push(FieldRule { key: 1, kind: FieldKind::Version });
        r.push(FieldRule { key: 2, kind: FieldKind::Bytes(16) });
        r.push(FieldRule { key: 3, kind: FieldKind::Unsigned });
        r.push(FieldRule { key: 4, kind: FieldKind::OptionalBoundedBytes(32, 32) });
        r.push(FieldRule { key: 5, kind: FieldKind::Bytes(32) });
        r.push(FieldRule { key: 6, kind: FieldKind::Unsigned });
        r.push(FieldRule { key: 7, kind: FieldKind::Unsigned });
        r.push(FieldRule { key: 8, kind: FieldKind::Signed });
        r.push(FieldRule { key: 9, kind: FieldKind::Unsigned });
        r.push(FieldRule { key: 10, kind: FieldKind::OptionalBoundedBytes(32, 32) });
        proof {
            assert(r@ =~= Self::rules());
        }
        r
    }

    /// The outcome of checking a map as a LifecycleEvent.
    pub open spec fn check(m: Cbor) -> Result<FieldSeq, SchemaError> {
        check_message(m, Self::rules())
    }

    /// The per-field rules hold of the given fields.
    pub open spec fn fields_hold(fs: FieldSeq) -> bool {
        &&& flat_rule_error(fs, Self::rules()[1]) is None
        &&& flat_rule_error(fs, Self::rules()[2]) is None
        &&& flat_rule_error(fs, Self::rules()[3]) is None
        &&& flat_rule_error(fs, Self::rules()[4]) is None
        &&& flat_rule_error(fs, Self::rules()[5]) is None
        &&& flat_rule_error(fs, Self::rules()[6]) is None
        &&& flat_rule_error(fs, Self::rules()[7]) is None
        &&& flat_rule_error(fs, Self::rules()[8]) is None
        &&& flat_rule_error(fs, Self::rules()[9]) is None
    }

    /// Whether the value holds exactly the values of the given fields.
    pub open spec fn agrees_with(self, fs: FieldSeq) -> bool {
        &&& lookup(fs, 2) == Some(Cbor::Bytes(self.request_id@))
        &&& lookup(fs, 3) == Some(Cbor::Unsigned(self.sequence))
        &&& lookup(fs, 4) == optional_digest(self.previous_event_digest)
        &&& lookup(fs, 5) == Some(Cbor::Bytes(self.request_digest@))
        &&& lookup(fs, 6) == Some(Cbor::Unsigned(self.broker_epoch))
        &&& lookup(fs, 7) == Some(Cbor::Unsigned(self.transition))
        &&& lookup(fs, 8) is Some && signed_value(lookup(fs, 8)->Some_0) == self.occurred_utc
        &&& lookup(fs, 9) == Some(Cbor::Unsigned(self.detail_code))
        &&& lookup(fs, 10) == optional_digest(self.detail_digest)
    }

    /// The value's map, in the order `to_cbor` writes it.
    pub open spec fn spec_cbor(self) -> Cbor {
        let base = Seq::empty()
            .push((Cbor::Unsigned(1), Cbor::Unsigned(1)))
            .push((Cbor::Unsigned(2), Cbor::Bytes(self.request_id@)))
            .push((Cbor::Unsigned(3), Cbor::Unsigned(self.sequence)))
            .push((Cbor::Unsigned(5), Cbor::Bytes(self.request_digest@)))
            .push((Cbor::Unsigned(6), Cbor::Unsigned(self.broker_epoch)))
            .push((Cbor::Unsigned(7), Cbor::Unsigned(self.transition)))
            .push((Cbor::Unsigned(8), signed_cbor(self.occurred_utc)))
            .push((Cbor::Unsigned(9), Cbor::Unsigned(self.detail_code)));
        let with_4 = match self.previous_event_digest {
            Some(x) => base.push((Cbor::Unsigned(4), Cbor::Bytes(x@))),
            None => base,
        };
        let with_10 = match self.detail_digest {
            Some(x) => with_4.push((Cbor::Unsigned(10), Cbor::Bytes(x@))),
            None => with_4,
        };
        Cbor::Entries(with_10)
    }

    /// What `validate` answers: the value checked through its own map.
    pub open spec fn spec_validate(self) -> Result<(), SchemaError> {
        match Self::check(self.spec_cbor()) {
            Err(e) => Err(e),
            Ok(fs) => if lookup(fs, 3) == Some(Cbor::Unsigned(0)) && lookup(fs, 4) is Some {
                Err(SchemaError::InvalidField { field: 4 })
            } else if lookup(fs, 3) != Some(Cbor::Unsigned(0)) && lookup(fs, 4) is None {
                Err(SchemaError::MissingField { field: 4 })
            } else {
                Ok(())
            },
        }
    }

    pub fn to_cbor(&self) -> (r: CborValue)
        ensures
            r@ == self.spec_cbor(),
    {
        let mut e: Vec<(CborValue, CborValue)> = Vec::new();
        push_field(&mut e, 1, CborValue::Unsigned(1));
        push_field(&mut e, 2, bytes(self.request_id.as_bytes()));
        push_field(&mut e, 3, CborValue::Unsigned(self.sequence));
        push_field(&mut e, 5, bytes(&self.request_digest));
        push_field(&mut e, 6, CborValue::Unsigned(self.broker_epoch));
        push_field(&mut e, 7, CborValue::Unsigned(self.transition));
        push_field(&mut e, 8, signed(self.occurred_utc));
        push_field(&mut e, 9, CborValue::Unsigned(self.detail_code));
        if let Some(x) = &self.previous_event_digest {
            push_field(&mut e, 4, bytes(x));
        }
        if let Some(x) = &self.detail_digest {
            push_field(&mut e, 10, bytes(x));
        }
        CborValue::Entries(e)
    }

    /// Checks a value with the same schema path used for inbound bytes.
    pub fn validate(&self) -> (r: Result<(), SchemaError>)
        ensures
            r == self.spec_validate(),
    {
        let decoded = Self::from_cbor(self.to_cbor())?;
        if decoded.sequence == 0 && decoded.previous_event_digest.is_some() {
            return Err(SchemaError::InvalidField { field: 4 });
        }
        if decoded.sequence != 0 && decoded.previous_event_digest.is_none() {
            return Err(SchemaError::MissingField { field: 4 });
        }
        Ok(())
    }

    /// The value's deterministic encoding, for a valid value.
    pub fn canonical_bytes(&self) -> (r: Result<Vec<u8>, SchemaError>)
        ensures
            match self.spec_validate() {
                Err(e) => r == Err::<Vec<u8>, SchemaError>(e),
                Ok(_) => match spec_encode(self.spec_cbor()) {
                    Ok(b) => r matches Ok(v) && v@ == b,
                    Err(e) => r == Err::<Vec<u8>, SchemaError>(SchemaError::Encode(e)),
                },
            },
    {
        self.validate()?;
        match encode(&self.to_cbor()) {
            Ok(b) => Ok(b),
            Err(e) => Err(SchemaError::Encode(e)),
        }
    }

    /// Decodes a value, checks it, then validates it.
    pub fn decode(input: &[u8]) -> (r: Result<LifecycleEvent, SchemaError>)
        ensures
            match spec_decode(input@) {
                Err(e) => r == Err::<LifecycleEvent, SchemaError>(SchemaError::Cbor(e)),
                Ok(c) => match Self::check(c) {
                    Err(e) => r == Err::<LifecycleEvent, SchemaError>(e),
                    Ok(fs) => match r {
                        Ok(x) => x.agrees_with(fs) && x.spec_validate() is Ok,
                        Err(e) => forall|x: LifecycleEvent| #[trigger] x.agrees_with(fs) ==> x.spec_validate() == Err::<(), SchemaError>(e),
                    },
                },
            },
    {
        let value = match decode(input) {
            Ok(v) => Self::from_cbor(v)?,
            Err(e) => {
                return Err(SchemaError::Cbor(e));
            },
        };
        value.validate()?;
        Ok(value)
    }

    /// Reads a value from a map.
    pub fn from_cbor(value: CborValue) -> (r: Result<LifecycleEvent, SchemaError>)
        ensures
            match Self::check(value@) {
                Err(e) => r == Err::<LifecycleEvent, SchemaError>(e),
                Ok(fs) => r matches Ok(x) && x.agrees_with(fs),
            },
    {
        let rules = Self::rule_table();
        let fs = check_message_exec(&value, &rules)?;
        proof {
            lemma_rules_hold(field_models(fs@), Self::rules(), 10);
            assert(rule_error(field_models(fs@), Self::rules()[1]) is None);
            assert(rule_error(field_models(fs@), Self::rules()[2]) is None);
            assert(rule_error(field_models(fs@), Self::rules()[3]) is None);
            assert(rule_error(field_models(fs@), Self::rules()[4]) is None);
            assert(rule_error(field_models(fs@), Self::rules()[5]) is None);
            assert(rule_error(field_models(fs@), Self::rules()[6]) is None);
            assert(rule_error(field_models(fs@), Self::rules()[7]) is None);
            assert(rule_error(field_models(fs@), Self::rules()[8]) is None);
            assert(rule_error(field_models(fs@), Self::rules()[9]) is None);
        }
        Self::from_fields(&fs)
    }

    /// The value held by fields that passed the rules.
    fn from_fields(fs: &Vec<(u64, CborValue)>) -> (r: Result<LifecycleEvent, SchemaError>)
        requires
            Self::fields_hold(field_models(fs@)),
        ensures
            r matches Ok(x) && x.agrees_with(field_models(fs@)),
    {
        let request_id = match RequestId::try_from_slice(take_bytes(fs, 2).as_slice()) {
            Ok(id) => id,
            Err(e) => {
                return Err(SchemaError::Identifier(e));
            },
        };
        Ok(LifecycleEvent {
            request_id,
            sequence: take_unsigned(fs, 3),
            previous_event_digest: take_optional_digest(fs, 4),
            request_digest: take_digest(fs, 5),
            broker_epoch: take_unsigned(fs, 6),
            transition: take_unsigned(fs, 7),
            occurred_utc: take_signed(fs, 8),
            detail_code: take_unsigned(fs, 9),
            detail_digest: take_optional_digest(fs, 10),
        })
    }
}

/// The exact v1 terminal receipt map.
#[derive(Debug, Clone, PartialEq, Eq)]
pub struct Receipt {
    pub receipt_id: ReceiptId,
    pub request_id: RequestId,
    pub request_digest: Digest,
    pub plan_digest: Digest,
    pub terminal_state: u64,
    pub authorization_evidence: Vec<CborValue>,
    pub prestate_evidence: CborValue,
    pub execution_evidence: CborValue,
    pub created_utc: i64,
    pub completed_utc: i64,
    pub broker_epoch: u64,
}

impl Receipt {
    /// The field rules, in checking order.
    pub open spec fn rules() -> Seq<FieldRule> {
        seq![
            FieldRule { key: 1, kind: FieldKind::Version },
            FieldRule { key: 2, kind: FieldKind::Bytes(16) },
            FieldRule { key: 3, kind: FieldKind::Bytes(16) },
            FieldRule { key: 4, kind: FieldKind::Bytes(32) },
            FieldRule { key: 5, kind: FieldKind::Bytes(32) },
            FieldRule { key: 6, kind: FieldKind::Unsigned },
            FieldRule { key: 7, kind: FieldKind::Array },
            FieldRule { key: 8, kind: FieldKind::MapValue },
            FieldRule { key: 9, kind: FieldKind::MapValue },
            FieldRule { key: 10, kind: FieldKind::Signed },
            FieldRule { key: 11, kind: FieldKind::Signed },
            FieldRule { key: 12, kind: FieldKind::Unsigned },
        ]
    }

    fn rule_table() -> (r: Vec<FieldRule>)
        ensures
            r@ == Self::rules(),
    {
        let mut r: Vec<FieldRule> = Vec::new();
        r.push(FieldRule { key: 1, kind: FieldKind::Version });
        r.push(FieldRule { key: 2, kind: FieldKind::Bytes(16) });
        r.push(FieldRule { key: 3, kind: FieldKind::Bytes(16) });
        r.push(FieldRule { key: 4, kind: FieldKind::Bytes(32) });
        r.push(FieldRule { key: 5, kind: FieldKind::Bytes(32) });
        r.push(FieldRule { key: 6, kind: FieldKind::Unsigned });
        r.push(FieldRule { key: 7, kind: FieldKind::Array });
        r.push(FieldRule { key: 8, kind: FieldKind::MapValue });
        r.push(FieldRule { key: 9, kind: FieldKind::MapValue });
        r.push(FieldRule { key: 10, kind: FieldKind::Signed });
        r.push(FieldRule { key: 11, kind: FieldKind::Signed });
        r.push(FieldRule { key: 12, kind: FieldKind::Unsigned });
        proof {
            assert(r@ =~= Self::rules());
        }
        r
    }

    /// The outcome of checking a map as a Receipt.
    pub open spec fn check(m: Cbor) -> Result<FieldSeq, SchemaError> {
        check_message(m, Self::rules())
    }

    /// The per-field rules hold of the given fields.
    pub open spec fn fields_hold(fs: FieldSeq) -> bool {
        &&& flat_rule_error(fs, Self::rules()[1]) is None
        &&& flat_rule_error(fs, Self::rules()[2]) is None
        &&& flat_rule_error(fs, Self::rules()[3]) is None
        &&& flat_rule_error(fs, Self::rules()[4]) is None
        &&& flat_rule_error(fs, Self::rules()[5]) is None
        &&& flat_rule_error(fs, Self::rules()[6]) is None
        &&& flat_rule_error(fs, Self::rules()[7]) is None
        &&& flat_rule_error(fs, Self::rules()[8]) is None
        &&& flat_rule_error(fs, Self::rules()[9]) is None
        &&& flat_rule_error(fs, Self::rules()[10]) is None
        &&& flat_rule_error(fs, Self::rules()[11]) is None
    }

    /// Whether the value holds exactly the values of the given fields.
    pub open spec fn agrees_with(self, fs: FieldSeq) -> bool {
        &&& lookup(fs, 2) == Some(Cbor::Bytes(self.receipt_id@))
        &&& lookup(fs, 3) == Some(Cbor::Bytes(self.request_id@))
        &&& lookup(fs, 4) == Some(Cbor::Bytes(self.request_digest@))
        &&& lookup(fs, 5) == Some(Cbor::Bytes(self.plan_digest@))
        &&& lookup(fs, 6) == Some(Cbor::Unsigned(self.terminal_state))
        &&& lookup(fs, 7) == Some(Cbor::Array(models(self.authorization_evidence@)))
        &&& lookup(fs, 8) == Some(self.prestate_evidence@)
        &&& lookup(fs, 9) == Some(self.execution_evidence@)
        &&& lookup(fs, 10) is Some && signed_value(lookup(fs, 10)->Some_0) == self.created_utc
        &&& lookup(fs, 11) is Some && signed_value(lookup(fs, 11)->Some_0) == self.completed_utc
        &&& lookup(fs, 12) == Some(Cbor::Unsigned(self.broker_epoch))
    }

    /// The value's map, in the order `to_cbor` writes it.
    pub open spec fn spec_cbor(self) -> Cbor {
        let base = Seq::empty()
            .push((Cbor::Unsigned(1), Cbor::Unsigned(1)))
            .push((Cbor::Unsigned(2), Cbor::Bytes(self.receipt_id@)))
            .push((Cbor::Unsigned(3), Cbor::Bytes(self.request_id@)))
            .push((Cbor::Unsigned(4), Cbor::Bytes(self.request_digest@)))
            .push((Cbor::Unsigned(5), Cbor::Bytes(self.plan_digest@)))
            .push((Cbor::Unsigned(6), Cbor::Unsigned(self.terminal_state)))
            .push((Cbor::Unsigned(7), Cbor::Array(models(self.authorization_evidence@))))
            .push((Cbor::Unsigned(8), self.prestate_evidence@))
            .push((Cbor::Unsigned(9), self.execution_evidence@))
            .push((Cbor::Unsigned(10), signed_cbor(self.created_utc)))
            .push((Cbor::Unsigned(11), signed_cbor(self.completed_utc)))
            .push((Cbor::Unsigned(12), Cbor::Unsigned(self.broker_epoch)));
        Cbor::Entries(base)
    }

    /// What `validate` answers: the value checked through its own map.
    pub open spec fn spec_validate(self) -> Result<(), SchemaError> {
        match Self::check(self.spec_cbor()) {
            Err(e) => Err(e),
            Ok(fs) => if signed_value(lookup(fs, 11)->Some_0) < signed_value(lookup(fs, 10)->Some_0) {
                Err(SchemaError::InvalidField { field: 11 })
            } else {
                Ok(())
            },
        }
    }

    pub fn to_cbor(&self) -> (r: CborValue)
        ensures
            r@ == self.spec_cbor(),
    {
        let mut e: Vec<(CborValue, CborValue)> = Vec::new();
        push_field(&mut e, 1, CborValue::Unsigned(1));
        push_field(&mut e, 2, bytes(self.receipt_id.as_bytes()));
        push_field(&mut e, 3, bytes(self.request_id.as_bytes()));
        push_field(&mut e, 4, bytes(&self.request_digest));
        push_field(&mut e, 5, bytes(&self.plan_digest));
        push_field(&mut e, 6, CborValue::Unsigned(self.terminal_state));
        push_field(&mut e, 7, CborValue::Array(clone_values(&self.authorization_evidence)));
        push_field(&mut e, 8, self.prestate_evidence.deep_clone());
        push_field(&mut e, 9, self.execution_evidence.deep_clone());
        push_field(&mut e, 10, signed(self.created_utc));
        push_field(&mut e, 11, signed(self.completed_utc));
        push_field(&mut e, 12, CborValue::Unsigned(self.broker_epoch));
        CborValue::Entries(e)
    }

    /// Checks a value with the same schema path used for inbound bytes.
    pub fn validate(&self) -> (r: Result<(), SchemaError>)
        ensures
            r == self.spec_validate(),
    {
        let decoded = Self::from_cbor(self.to_cbor())?;
        if decoded.completed_utc < decoded.created_utc {
            return Err(SchemaError::InvalidField { field: 11 });
        }
        Ok(())
    }

    /// The value's deterministic encoding, for a valid value.
    pub fn canonical_bytes(&self) -> (r: Result<Vec<u8>, SchemaError>)
        ensures
            match self.spec_validate() {
                Err(e) => r == Err::<Vec<u8>, SchemaError>(e),
                Ok(_) => match spec_encode(self.spec_cbor()) {
                    Ok(b) => r matches Ok(v) && v@ == b,
                    Err(e) => r == Err::<Vec<u8>, SchemaError>(SchemaError::Encode(e)),
                },
            },
    {
        self.validate()?;
        match encode(&self.to_cbor()) {
            Ok(b) => Ok(b),
            Err(e) => Err(SchemaError::Encode(e)),
        }
    }

    /// The receipt's domain-separated digest, for a valid receipt.
    pub fn digest(&self) -> (r: Result<Digest, SchemaError>)
        ensures
            match self.spec_validate() {
                Err(e) => r == Err::<Digest, SchemaError>(e),
                Ok(_) => match spec_digest_cbor(Domain::Receipt, self.spec_cbor()) {
                    Ok(d) => r matches Ok(v) && v@ == d,
                    Err(e) => r == Err::<Digest, SchemaError>(SchemaError::Encode(e)),
                },
            },
    {
        self.validate()?;
        match digest_cbor(Domain::Receipt, &self.to_cbor()) {
            Ok(d) => Ok(d),
            Err(e) => Err(SchemaError::Encode(e)),
        }
    }

    /// Decodes a value, checks it, then validates it.
    pub fn decode(input: &[u8]) -> (r: Result<Receipt, SchemaError>)
        ensures
            match spec_decode(input@) {
                Err(e) => r == Err::<Receipt, SchemaError>(SchemaError::Cbor(e)),
                Ok(c) => match Self::check(c) {
                    Err(e) => r == Err::<Receipt, SchemaError>(e),
                    Ok(fs) => match r {
                        Ok(x) => x.agrees_with(fs) && x.spec_validate() is Ok,
                        Err(e) => forall|x: Receipt| #[trigger] x.agrees_with(fs) ==> x.spec_validate() == Err::<(), SchemaError>(e),
                    },
                },
            },
    {
        let value = match decode(input) {
            Ok(v) => Self::from_cbor(v)?,
            Err(e) => {
                return Err(SchemaError::Cbor(e));
            },
        };
        value.validate()?;
        Ok(value)
    }

    /// Reads a value from a map.
    pub fn from_cbor(value: CborValue) -> (r: Result<Receipt, SchemaError>)
        ensures
            match Self::check(value@) {
                Err(e) => r == Err::<Receipt, SchemaError>(e),
                Ok(fs) => r matches Ok(x) && x.agrees_with(fs),
            },
    {
        let rules = Self::rule_table();
        let fs = check_message_exec(&value, &rules)?;
        proof {
            lemma_rules_hold(field_models(fs@), Self::rules(), 12);
            assert(rule_error(field_models(fs@), Self::rules()[1]) is None);
            assert(rule_error(field_models(fs@), Self::rules()[2]) is None);
            assert(rule_error(field_models(fs@), Self::rules()[3]) is None);
            assert(rule_error(field_models(fs@), Self::rules()[4]) is None);
            assert(rule_error(field_models(fs@), Self::rules()[5]) is None);
            assert(rule_error(field_models(fs@), Self::rules()[6]) is None);
            assert(rule_error(field_models(fs@), Self::rules()[7]) is None);
            assert(rule_error(field_models(fs@), Self::rules()[8]) is None);
            assert(rule_error(field_models(fs@), Self::rules()[9]) is None);
            assert(rule_error(field_models(fs@), Self::rules()[10]) is None);
            assert(rule_error(field_models(fs@), Self::rules()[11]) is None);
        }
        Self::from_fields(&fs)
    }

    /// The value held by fields that passed the rules.
    fn from_fields(fs: &Vec<(u64, CborValue)>) -> (r: Result<Receipt, SchemaError>)
        requires
            Self::fields_hold(field_models(fs@)),
        ensures
            r matches Ok(x) && x.agrees_with(field_models(fs@)),
    {
        let receipt_id = match ReceiptId::try_from_slice(take_bytes(fs, 2).as_slice()) {
            Ok(id) => id,
            Err(e) => {
                return Err(SchemaError::Identifier(e));
            },
        };
        let request_id = match RequestId::try_from_slice(take_bytes(fs, 3).as_slice()) {
            Ok(id) => id,
            Err(e) => {
                return Err(SchemaError::Identifier(e));
            },
        };
        Ok(Receipt {
            receipt_id,
            request_id,
            request_digest: take_digest(fs, 4),
            plan_digest: take_digest(fs, 5),
            terminal_state: take_unsigned(fs, 6),
            authorization_evidence: take_array(fs, 7),
            prestate_evidence: take_value(fs, 8),
            execution_evidence: take_value(fs, 9),
            created_utc: take_signed(fs, 10),
            completed_utc: take_signed(fs, 11),
            broker_epoch: take_unsigned(fs, 12),
        })
    }
}

/// The exact v1 root-signed pairing statement map.
#[derive(Debug, Clone, PartialEq, Eq)]
pub struct EnrollmentStatement {
    pub tenant_subject_digest: Digest,
    pub device_id: DeviceId,
    pub broker_pubkey: Digest,
    pub credential_set: Vec<CborValue>,
    pub pairing_nonce: Digest,
    pub comparison_digest: Digest,
    pub rp_id: String,
    pub origin: String,
    pub next_generation: u64,
    pub expires_utc: i64,
}

impl EnrollmentStatement {
    /// The field rules, in checking order.
    pub open spec fn rules() -> Seq<FieldRule> {
        seq![
            FieldRule { key: 1, kind: FieldKind::Version },
            FieldRule { key: 2, kind: FieldKind::Bytes(32) },
            FieldRule { key: 3, kind: FieldKind::Bytes(16) },
            FieldRule { key: 4, kind: FieldKind::Bytes(32) },
            FieldRule { key: 5, kind: FieldKind::Array },
            FieldRule { key: 6, kind: FieldKind::Bytes(32) },
            FieldRule { key: 7, kind: FieldKind::Bytes(32) },
            FieldRule { key: 8, kind: FieldKind::NonEmptyText(253) },
            FieldRule { key: 9, kind: FieldKind::NonEmptyText(255) },
            FieldRule { key: 10, kind: FieldKind::Unsigned },
            FieldRule { key: 11, kind: FieldKind::Signed },
        ]
    }

    fn rule_table() -> (r: Vec<FieldRule>)
        ensures
            r@ == Self::rules(),
    {
        let mut r: Vec<FieldRule> = Vec::new();
        r.push(FieldRule { key: 1, kind: FieldKind::Version });
        r.push(FieldRule { key: 2, kind: FieldKind::Bytes(32) });
        r.push(FieldRule { key: 3, kind: FieldKind::Bytes(16) });
        r.push(FieldRule { key: 4, kind: FieldKind::Bytes(32) });
        r.push(FieldRule { key: 5, kind: FieldKind::Array });
        r.push(FieldRule { key: 6, kind: FieldKind::Bytes(32) });
        r.push(FieldRule { key: 7, kind: FieldKind::Bytes(32) });
        r.push(FieldRule { key: 8, kind: FieldKind::NonEmptyText(253) });
        r.push(FieldRule { key: 9, kind: FieldKind::NonEmptyText(255) });
        r.push(FieldRule { key: 10, kind: FieldKind::Unsigned });
        r.push(FieldRule { key: 11, kind: FieldKind::Signed });
        proof {
            assert(r@ =~= Self::rules());
        }
        r
    }

    /// The outcome of checking a map as a EnrollmentStatement.
    pub open spec fn check(m: Cbor) -> Result<FieldSeq, SchemaError> {
        check_message(m, Self::rules())
    }

    /// The per-field rules hold of the given fields.
    pub open spec fn fields_hold(fs: FieldSeq) -> bool {
        &&& flat_rule_error(fs, Self::rules()[1]) is None
        &&& flat_rule_error(fs, Self::rules()[2]) is None
        &&& flat_rule_error(fs, Self::rules()[3]) is None
        &&& flat_rule_error(fs, Self::rules()[4]) is None
        &&& flat_rule_error(fs, Self::rules()[5]) is None
        &&& flat_rule_error(fs, Self::rules()[6]) is None
        &&& flat_rule_error(fs, Self::rules()[7]) is None
        &&& flat_rule_error(fs, Self::rules()[8]) is None
        &&& flat_rule_error(fs, Self::rules()[9]) is None
        &&& flat_rule_error(fs, Self::rules()[10]) is None
    }

    /// Whether the value holds exactly the values of the given fields.
    pub open spec fn agrees_with(self, fs: FieldSeq) -> bool {
        &&& lookup(fs, 2) == Some(Cbor::Bytes(self.tenant_subject_digest@))
        &&& lookup(fs, 3) == Some(Cbor::Bytes(self.device_id@))
        &&& lookup(fs, 4) == Some(Cbor::Bytes(self.broker_pubkey@))
        &&& lookup(fs, 5) == Some(Cbor::Array(models(self.credential_set@)))
        &&& lookup(fs, 6) == Some(Cbor::Bytes(self.pairing_nonce@))
        &&& lookup(fs, 7) == Some(Cbor::Bytes(self.comparison_digest@))
        &&& lookup(fs, 8) == Some(Cbor::Text(self.rp_id@))
        &&& lookup(fs, 9) == Some(Cbor::Text(self.origin@))
        &&& lookup(fs, 10) == Some(Cbor::Unsigned(self.next_generation))
        &&& lookup(fs, 11) is Some && signed_value(lookup(fs, 11)->Some_0) == self.expires_utc
    }

    /// The value's map, in the order `to_cbor` writes it.
    pub open spec fn spec_cbor(self) -> Cbor {
        let base = Seq::empty()
            .push((Cbor::Unsigned(1), Cbor::Unsigned(1)))
            .push((Cbor::Unsigned(2), Cbor::Bytes(self.tenant_subject_digest@)))
            .push((Cbor::Unsigned(3), Cbor::Bytes(self.device_id@)))
            .push((Cbor::Unsigned(4), Cbor::Bytes(self.broker_pubkey@)))
            .push((Cbor::Unsigned(5), Cbor::Array(models(self.credential_set@))))
            .push((Cbor::Unsigned(6), Cbor::Bytes(self.pairing_nonce@)))
            .push((Cbor::Unsigned(7), Cbor::Bytes(self.comparison_digest@)))
            .push((Cbor::Unsigned(8), Cbor::Text(self.rp_id@)))
            .push((Cbor::Unsigned(9), Cbor::Text(self.origin@)))
            .push((Cbor::Unsigned(10), Cbor::Unsigned(self.next_generation)))
            .push((Cbor::Unsigned(11), signed_cbor(self.expires_utc)));
        Cbor::Entries(base)
    }

    /// What `validate` answers: the value checked through its own map.
    pub open spec fn spec_validate(self) -> Result<(), SchemaError> {
        match Self::check(self.spec_cbor()) {
            Err(e) => Err(e),
            Ok(_) => Ok(()),
        }
    }

    pub fn to_cbor(&self) -> (r: CborValue)
        ensures
            r@ == self.spec_cbor(),
    {
        let mut e: Vec<(CborValue, CborValue)> = Vec::new();
        push_field(&mut e, 1, CborValue::Unsigned(1));
        push_field(&mut e, 2, bytes(&self.tenant_subject_digest));
        push_field(&mut e, 3, bytes(self.device_id.as_bytes()));
        push_field(&mut e, 4, bytes(&self.broker_pubkey));
        push_field(&mut e, 5, CborValue::Array(clone_values(&self.credential_set)));
        push_field(&mut e, 6, bytes(&self.pairing_nonce));
        push_field(&mut e, 7, bytes(&self.comparison_digest));
        push_field(&mut e, 8, CborValue::Text(self.rp_id.clone()));
        push_field(&mut e, 9, CborValue::Text(self.origin.clone()));
        push_field(&mut e, 10, CborValue::Unsigned(self.next_generation));
        push_field(&mut e, 11, signed(self.expires_utc));
        CborValue::Entries(e)
    }

    /// Checks a value with the same schema path used for inbound bytes.
    pub fn validate(&self) -> (r: Result<(), SchemaError>)
        ensures
            r == self.spec_validate(),
    {
        match Self::from_cbor(self.to_cbor()) {
            Ok(_) => Ok(()),
            Err(e) => Err(e),
        }
    }

    /// The value's deterministic encoding, for a valid value.
    pub fn canonical_bytes(&self) -> (r: Result<Vec<u8>, SchemaError>)
        ensures
            match self.spec_validate() {
                Err(e) => r == Err::<Vec<u8>, SchemaError>(e),
                Ok(_) => match spec_encode(self.spec_cbor()) {
                    Ok(b) => r matches Ok(v) && v@ == b,
                    Err(e) => r == Err::<Vec<u8>, SchemaError>(SchemaError::Encode(e)),
                },
            },
    {
        self.validate()?;
        match encode(&self.to_cbor()) {
            Ok(b) => Ok(b),
            Err(e) => Err(SchemaError::Encode(e)),
        }
    }

    /// The statement's domain-separated digest, for a valid statement.
    pub fn digest(&self) -> (r: Result<Digest, SchemaError>)
        ensures
            match self.spec_validate() {
                Err(e) => r == Err::<Digest, SchemaError>(e),
                Ok(_) => match spec_digest_cbor(Domain::Enrollment, self.spec_cbor()) {
                    Ok(d) => r matches Ok(v) && v@ == d,
                    Err(e) => r == Err::<Digest, SchemaError>(SchemaError::Encode(e)),
                },
            },
    {
        self.validate()?;
        match digest_cbor(Domain::Enrollment, &self.to_cbor()) {
            Ok(d) => Ok(d),
            Err(e) => Err(SchemaError::Encode(e)),
        }
    }

    /// Decodes a value, checks it, then validates it.
    pub fn decode(input: &[u8]) -> (r: Result<EnrollmentStatement, SchemaError>)
        ensures
            match spec_decode(input@) {
                Err(e) => r == Err::<EnrollmentStatement, SchemaError>(SchemaError::Cbor(e)),
                Ok(c) => match Self::check(c) {
                    Err(e) => r == Err::<EnrollmentStatement, SchemaError>(e),
                    Ok(fs) => match r {
                        Ok(x) => x.agrees_with(fs) && x.spec_validate() is Ok,
                        Err(e) => forall|x: EnrollmentStatement| #[trigger] x.agrees_with(fs) ==> x.spec_validate() == Err::<(), SchemaError>(e),
                    },
                },
            },
    {
        let value = match decode(input) {
            Ok(v) => Self::from_cbor(v)?,
            Err(e) => {
                return Err(SchemaError::Cbor(e));
            },
        };
        value.validate()?;
        Ok(value)
    }

    /// Reads a value from a map.
    pub fn from_cbor(value: CborValue) -> (r: Result<EnrollmentStatement, SchemaError>)
        ensures
            match Self::check(value@) {
                Err(e) => r == Err::<EnrollmentStatement, SchemaError>(e),
                Ok(fs) => r matches Ok(x) && x.agrees_with(fs),
            },
    {
        let rules = Self::rule_table();
        let fs = check_message_exec(&value, &rules)?;
        proof {
            lemma_rules_hold(field_models(fs@), Self::rules(), 11);
            assert(rule_error(field_models(fs@), Self::rules()[1]) is None);
            assert(rule_error(field_models(fs@), Self::rules()[2]) is None);
            assert(rule_error(field_models(fs@), Self::rules()[3]) is None);
            assert(rule_error(field_models(fs@), Self::rules()[4]) is None);
            assert(rule_error(field_models(fs@), Self::rules()[5]) is None);
            assert(rule_error(field_models(fs@), Self::rules()[6]) is None);
            assert(rule_error(field_models(fs@), Self::rules()[7]) is None);
            assert(rule_error(field_models(fs@), Self::rules()[8]) is None);
            assert(rule_error(field_models(fs@), Self::rules()[9]) is None);
            assert(rule_error(field_models(fs@), Self::rules()[10]) is None);
        }
        Self::from_fields(&fs)
    }

    /// The value held by fields that passed the rules.
    fn from_fields(fs: &Vec<(u64, CborValue)>) -> (r: Result<EnrollmentStatement, SchemaError>)
        requires
            Self::fields_hold(field_models(fs@)),
        ensures
            r matches Ok(x) && x.agrees_with(field_models(fs@)),
    {
        let device_id = match DeviceId::try_from_slice(take_bytes(fs, 3).as_slice()) {
            Ok(id) => id,
            Err(e) => {
                return Err(SchemaError::Identifier(e));
            },
        };
        Ok(EnrollmentStatement {
            tenant_subject_digest: take_digest(fs, 2),
            device_id,
            broker_pubkey: take_digest(fs, 4),
            credential_set: take_array(fs, 5),
            pairing_nonce: take_digest(fs, 6),
            comparison_digest: take_digest(fs, 7),
            rp_id: take_text(fs, 8),
            origin: take_text(fs, 9),
            next_generation: take_unsigned(fs, 10),
            expires_utc: take_signed(fs, 11),
        })
    }
}

/// The exact v1 root-signed online service-keyset map.
#[derive(Debug, Clone, PartialEq, Eq)]
pub struct ServiceKeyset {
    pub keyset_version: u64,
    pub issued_utc: i64,
    pub keys: Vec<CborValue>,
    pub root_kid: Vec<u8>,
    pub expires_utc: i64,
}

impl ServiceKeyset {
    /// The field rules, in checking order.
    pub open spec fn rules() -> Seq<FieldRule> {
        seq![
            FieldRule { key: 1, kind: FieldKind::Version },
            FieldRule { key: 2, kind: FieldKind::Unsigned },
            FieldRule { key: 3, kind: FieldKind::Signed },
            FieldRule { key: 4, kind: FieldKind::Array },
            FieldRule { key: 5, kind: FieldKind::BoundedBytes(8, 32) },
            FieldRule { key: 6, kind: FieldKind::Signed },
        ]
    }

    fn rule_table() -> (r: Vec<FieldRule>)
        ensures
            r@ == Self::rules(),
    {
        let mut r: Vec<FieldRule> = Vec::new();
        r.push(FieldRule { key: 1, kind: FieldKind::Version });
        r.push(FieldRule { key: 2, kind: FieldKind::Unsigned });
        r.push(FieldRule { key: 3, kind: FieldKind::Signed });
        r.push(FieldRule { key: 4, kind: FieldKind::Array });
        r.push(FieldRule { key: 5, kind: FieldKind::BoundedBytes(8, 32) });
        r.push(FieldRule { key: 6, kind: FieldKind::Signed });
        proof {
            assert(r@ =~= Self::rules());
        }
        r
    }

    /// The outcome of checking a map as a ServiceKeyset.
    pub open spec fn check(m: Cbor) -> Result<FieldSeq, SchemaError> {
        check_message(m, Self::rules())
    }

    /// The per-field rules hold of the given fields.
    pub open spec fn fields_hold(fs: FieldSeq) -> bool {
        &&& flat_rule_error(fs, Self::rules()[1]) is None
        &&& flat_rule_error(fs, Self::rules()[2]) is None
        &&& flat_rule_error(fs, Self::rules()[3]) is None
        &&& flat_rule_error(fs, Self::rules()[4]) is None
        &&& flat_rule_error(fs, Self::rules()[5]) is None
    }

    /// Whether the value holds exactly the values of the given fields.
    pub open spec fn agrees_with(self, fs: FieldSeq) -> bool {
        &&& lookup(fs, 2) == Some(Cbor::Unsigned(self.keyset_version))
        &&& lookup(fs, 3) is Some && signed_value(lookup(fs, 3)->Some_0) == self.issued_utc
        &&& lookup(fs, 4) == Some(Cbor::Array(models(self.keys@)))
        &&& lookup(fs, 5) == Some(Cbor::Bytes(self.root_kid@))
        &&& lookup(fs, 6) is Some && signed_value(lookup(fs, 6)->Some_0) == self.expires_utc
    }

    /// The value's map, in the order `to_cbor` writes it.
    pub open spec fn spec_cbor(self) -> Cbor {
        let base = Seq::empty()
            .push((Cbor::Unsigned(1), Cbor::Unsigned(1)))
            .push((Cbor::Unsigned(2), Cbor::Unsigned(self.keyset_version)))
            .push((Cbor::Unsigned(3), signed_cbor(self.issued_utc)))
            .push((Cbor::Unsigned(4), Cbor::Array(models(self.keys@))))
            .push((Cbor::Unsigned(5), Cbor::Bytes(self.root_kid@)))
            .push((Cbor::Unsigned(6), signed_cbor(self.expires_utc)));
        Cbor::Entries(base)
    }

    /// What `validate` answers: the value checked through its own map.
    pub open spec fn spec_validate(self) -> Result<(), SchemaError> {
        match Self::check(self.spec_cbor()) {
            Err(e) => Err(e),
            Ok(fs) => if signed_value(lookup(fs, 6)->Some_0) <= signed_value(lookup(fs, 3)->Some_0) {
                Err(SchemaError::InvalidField { field: 6 })
            } else {
                Ok(())
            },
        }
    }

    pub fn to_cbor(&self) -> (r: CborValue)
        ensures
            r@ == self.spec_cbor(),
    {
        let mut e: Vec<(CborValue, CborValue)> = Vec::new();
        push_field(&mut e, 1, CborValue::Unsigned(1));
        push_field(&mut e, 2, CborValue::Unsigned(self.keyset_version));
        push_field(&mut e, 3, signed(self.issued_utc));
        push_field(&mut e, 4, CborValue::Array(clone_values(&self.keys)));
        push_field(&mut e, 5, bytes(self.root_kid.as_slice()));
        push_field(&mut e, 6, signed(self.expires_utc));
        CborValue::Entries(e)
    }

    /// Checks a value with the same schema path used for inbound bytes.
    pub fn validate(&self) -> (r: Result<(), SchemaError>)
        ensures
            r == self.spec_validate(),
    {
        let decoded = Self::from_cbor(self.to_cbor())?;
        if decoded.expires_utc <= decoded.issued_utc {
            return Err(SchemaError::InvalidField { field: 6 });
        }
        Ok(())
    }

    /// The value's deterministic encoding, for a valid value.
    pub fn canonical_bytes(&self) -> (r: Result<Vec<u8>, SchemaError>)
        ensures
            match self.spec_validate() {
                Err(e) => r == Err::<Vec<u8>, SchemaError>(e),
                Ok(_) => match spec_encode(self.spec_cbor()) {
                    Ok(b) => r matches Ok(v) && v@ == b,
                    Err(e) => r == Err::<Vec<u8>, SchemaError>(SchemaError::Encode(e)),
                },
            },
    {
        self.validate()?;
        match encode(&self.to_cbor()) {
            Ok(b) => Ok(b),
            Err(e) => Err(SchemaError::Encode(e)),
        }
    }

    /// The keyset's domain-separated digest, for a valid keyset.
    pub fn digest(&self) -> (r: Result<Digest, SchemaError>)
        ensures
            match self.spec_validate() {
                Err(e) => r == Err::<Digest, SchemaError>(e),
                Ok(_) => match spec_digest_cbor(Domain::ServiceKeyset, self.spec_cbor()) {
                    Ok(d) => r matches Ok(v) && v@ == d,
                    Err(e) => r == Err::<Digest, SchemaError>(SchemaError::Encode(e)),
                },
            },
    {
        self.validate()?;
        match digest_cbor(Domain::ServiceKeyset, &self.to_cbor()) {
            Ok(d) => Ok(d),
            Err(e) => Err(SchemaError::Encode(e)),
        }
    }

    /// Decodes a value, checks it, then validates it.
    pub fn decode(input: &[u8]) -> (r: Result<ServiceKeyset, SchemaError>)
        ensures
            match spec_decode(input@) {
                Err(e) => r == Err::<ServiceKeyset, SchemaError>(SchemaError::Cbor(e)),
                Ok(c) => match Self::check(c) {
                    Err(e) => r == Err::<ServiceKeyset, SchemaError>(e),
                    Ok(fs) => match r {
                        Ok(x) => x.agrees_with(fs) && x.spec_validate() is Ok,
                        Err(e) => forall|x: ServiceKeyset| #[trigger] x.agrees_with(fs) ==> x.spec_validate() == Err::<(), SchemaError>(e),
                    },
                },
            },
    {
        let value = match decode(input) {
            Ok(v) => Self::from_cbor(v)?,
            Err(e) => {
                return Err(SchemaError::Cbor(e));
            },
        };
        value.validate()?;
        Ok(value)
    }

    /// Reads a value from a map.
    pub fn from_cbor(value: CborValue) -> (r: Result<ServiceKeyset, SchemaError>)
        ensures
            match Self::check(value@) {
                Err(e) => r == Err::<ServiceKeyset, SchemaError>(e),
                Ok(fs) => r matches Ok(x) && x.agrees_with(fs),
            },
    {
        let rules = Self::rule_table();
        let fs = check_message_exec(&value, &rules)?;
        proof {
            lemma_rules_hold(field_models(fs@), Self::rules(), 6);
            assert(rule_error(field_models(fs@), Self::rules()[1]) is None);
            assert(rule_error(field_models(fs@), Self::rules()[2]) is None);
            assert(rule_error(field_models(fs@), Self::rules()[3]) is None);
            assert(rule_error(field_models(fs@), Self::rules()[4]) is None);
            assert(rule_error(field_models(fs@), Self::rules()[5]) is None);
        }
        Self::from_fields(&fs)
    }

    /// The value held by fields that passed the rules.
    fn from_fields(fs: &Vec<(u64, CborValue)>) -> (r: Result<ServiceKeyset, SchemaError>)
        requires
            Self::fields_hold(field_models(fs@)),
        ensures
            r matches Ok(x) && x.agrees_with(field_models(fs@)),
    {
        Ok(ServiceKeyset {
            keyset_version: take_unsigned(fs, 2),
            issued_utc: take_signed(fs, 3),
            keys: take_array(fs, 4),
            root_kid: take_bytes(fs, 5),
            expires_utc: take_signed(fs, 6),
        })
    }
}

/// The exact v1 service-signed prospective credential-revocation map.
#[derive(Debug, Clone, PartialEq, Eq)]
pub struct RevocationEvent {
    pub device_id: DeviceId,
    pub credential_id: Vec<u8>,
    pub cutoff_utc: i64,
    pub service_event_id: ServiceEventId,
    pub generation_at_issue: u64,
    pub reason_code: u64,
}

impl RevocationEvent {
    /// The field rules, in checking order.
    pub open spec fn rules() -> Seq<FieldRule> {
        seq![
            FieldRule { key: 1, kind: FieldKind::Version },
            FieldRule { key: 2, kind: FieldKind::Bytes(16) },
            FieldRule { key: 3, kind: FieldKind::BoundedBytes(1, 1024) },
            FieldRule { key: 4, kind: FieldKind::Signed },
            FieldRule { key: 5, kind: FieldKind::Bytes(16) },
            FieldRule { key: 6, kind: FieldKind::Unsigned },
            FieldRule { key: 7, kind: FieldKind::Unsigned },
        ]
    }

    fn rule_table() -> (r: Vec<FieldRule>)
        ensures
            r@ == Self::rules(),
    {
        let mut r: Vec<FieldRule> = Vec::new();
        r.push(FieldRule { key: 1, kind: FieldKind::Version });
        r.push(FieldRule { key: 2, kind: FieldKind::Bytes(16) });
        r.push(FieldRule { key: 3, kind: FieldKind::BoundedBytes(1, 1024) });
        r.push(FieldRule { key: 4, kind: FieldKind::Signed });
        r.push(FieldRule { key: 5, kind: FieldKind::Bytes(16) });
        r.push(FieldRule { key: 6, kind: FieldKind::Unsigned });
        r.push(FieldRule { key: 7, kind: FieldKind::Unsigned });
        proof {
            assert(r@ =~= Self::rules());
        }
        r
    }

    /// The outcome of checking a map as a RevocationEvent.
    pub open spec fn check(m: Cbor) -> Result<FieldSeq, SchemaError> {
        check_message(m, Self::rules())
    }

    /// The per-field rules hold of the given fields.
    pub open spec fn fields_hold(fs: FieldSeq) -> bool {
        &&& flat_rule_error(fs, Self::rules()[1]) is None
        &&& flat_rule_error(fs, Self::rules()[2]) is None
        &&& flat_rule_error(fs, Self::rules()[3]) is None
        &&& flat_rule_error(fs, Self::rules()[4]) is None
        &&& flat_rule_error(fs, Self::rules()[5]) is None
        &&& flat_rule_error(fs, Self::rules()[6]) is None
    }

    /// Whether the value holds exactly the values of the given fields.
    pub open spec fn agrees_with(self, fs: FieldSeq) -> bool {
        &&& lookup(fs, 2) == Some(Cbor::Bytes(self.device_id@))
        &&& lookup(fs, 3) == Some(Cbor::Bytes(self.credential_id@))
        &&& lookup(fs, 4) is Some && signed_value(lookup(fs, 4)->Some_0) == self.cutoff_utc
        &&& lookup(fs, 5) == Some(Cbor::Bytes(self.service_event_id@))
        &&& lookup(fs, 6) == Some(Cbor::Unsigned(self.generation_at_issue))
        &&& lookup(fs, 7) == Some(Cbor::Unsigned(self.reason_code))
    }

    /// The value's map, in the order `to_cbor` writes it.
    pub open spec fn spec_cbor(self) -> Cbor {
        let base = Seq::empty()
            .push((Cbor::Unsigned(1), Cbor::Unsigned(1)))
            .push((Cbor::Unsigned(2), Cbor::Bytes(self.device_id@)))
            .push((Cbor::Unsigned(3), Cbor::Bytes(self.credential_id@)))
            .push((Cbor::Unsigned(4), signed_cbor(self.cutoff_utc)))
            .push((Cbor::Unsigned(5), Cbor::Bytes(self.service_event_id@)))
            .push((Cbor::Unsigned(6), Cbor::Unsigned(self.generation_at_issue)))
            .push((Cbor::Unsigned(7), Cbor::Unsigned(self.reason_code)));
        Cbor::Entries(base)
    }

    /// What `validate` answers: the value checked through its own map.
    pub open spec fn spec_validate(self) -> Result<(), SchemaError> {
        match Self::check(self.spec_cbor()) {
            Err(e) => Err(e),
            Ok(_) => Ok(()),
        }
    }

    pub fn to_cbor(&self) -> (r: CborValue)
        ensures
            r@ == self.spec_cbor(),
    {
        let mut e: Vec<(CborValue, CborValue)> = Vec::new();
        push_field(&mut e, 1, CborValue::Unsigned(1));
        push_field(&mut e, 2, bytes(self.device_id.as_bytes()));
        push_field(&mut e, 3, bytes(self.credential_id.as_slice()));
        push_field(&mut e, 4, signed(self.cutoff_utc));
        push_field(&mut e, 5, bytes(self.service_event_id.as_bytes()));
        push_field(&mut e, 6, CborValue::Unsigned(self.generation_at_issue));
        push_field(&mut e, 7, CborValue::Unsigned(self.reason_code));
        CborValue::Entries(e)
    }

    /// Checks a value with the same schema path used for inbound bytes.
    pub fn validate(&self) -> (r: Result<(), SchemaError>)
        ensures
            r == self.spec_validate(),
    {
        match Self::from_cbor(self.to_cbor()) {
            Ok(_) => Ok(()),
            Err(e) => Err(e),
        }
    }

    /// The value's deterministic encoding, for a valid value.
    pub fn canonical_bytes(&self) -> (r: Result<Vec<u8>, SchemaError>)
        ensures
            match self.spec_validate() {
                Err(e) => r == Err::<Vec<u8>, SchemaError>(e),
                Ok(_) => match spec_encode(self.spec_cbor()) {
                    Ok(b) => r matches Ok(v) && v@ == b,
                    Err(e) => r == Err::<Vec<u8>, SchemaError>(SchemaError::Encode(e)),
                },
            },
    {
        self.validate()?;
        match encode(&self.to_cbor()) {
            Ok(b) => Ok(b),
            Err(e) => Err(SchemaError::Encode(e)),
        }
    }

    /// The event's domain-separated digest, for a valid event.
    pub fn digest(&self) -> (r: Result<Digest, SchemaError>)
        ensures
            match self.spec_validate() {
                Err(e) => r == Err::<Digest, SchemaError>(e),
                Ok(_) => match spec_digest_cbor(Domain::Revocation, self.spec_cbor()) {
                    Ok(d) => r matches Ok(v) && v@ == d,
                    Err(e) => r == Err::<Digest, SchemaError>(SchemaError::Encode(e)),
                },
            },
    {
        self.validate()?;
        match digest_cbor(Domain::Revocation, &self.to_cbor()) {
            Ok(d) => Ok(d),
            Err(e) => Err(SchemaError::Encode(e)),
        }
    }

    /// Decodes and checks a value.
    pub fn decode(input: &[u8]) -> (r: Result<RevocationEvent, SchemaError>)
        ensures
            match spec_decode(input@) {
                Err(e) => r == Err::<RevocationEvent, SchemaError>(SchemaError::Cbor(e)),
                Ok(c) => match Self::check(c) {
                    Err(e) => r == Err::<RevocationEvent, SchemaError>(e),
                    Ok(fs) => r matches Ok(x) && x.agrees_with(fs),
                },
            },
    {
        match decode(input) {
            Ok(v) => Self::from_cbor(v),
            Err(e) => Err(SchemaError::Cbor(e)),
        }
    }

    /// Reads a value from a map.
    pub fn from_cbor(value: CborValue) -> (r: Result<RevocationEvent, SchemaError>)
        ensures
            match Self::check(value@) {
                Err(e) => r == Err::<RevocationEvent, SchemaError>(e),
                Ok(fs) => r matches Ok(x) && x.agrees_with(fs),
            },
    {
        let rules = Self::rule_table();
        let fs = check_message_exec(&value, &rules)?;
        proof {
            lemma_rules_hold(field_models(fs@), Self::rules(), 7);
            assert(rule_error(field_models(fs@), Self::rules()[1]) is None);
            assert(rule_error(field_models(fs@), Self::rules()[2]) is None);
            assert(rule_error(field_models(fs@), Self::rules()[3]) is None);
            assert(rule_error(field_models(fs@), Self::rules()[4]) is None);
            assert(rule_error(field_models(fs@), Self::rules()[5]) is None);
            assert(rule_error(field_models(fs@), Self::rules()[6]) is None);
        }
        Self::from_fields(&fs)
    }

    /// The value held by fields that passed the rules.
    fn from_fields(fs: &Vec<(u64, CborValue)>) -> (r: Result<RevocationEvent, SchemaError>)
        requires
            Self::fields_hold(field_models(fs@)),
        ensures
            r matches Ok(x) && x.agrees_with(field_models(fs@)),
    {
        let device_id = match DeviceId::try_from_slice(take_bytes(fs, 2).as_slice()) {
            Ok(id) => id,
            Err(e) => {
                return Err(SchemaError::Identifier(e));
            },
        };
        let service_event_id = match ServiceEventId::try_from_slice(take_bytes(fs, 5).as_slice()) {
            Ok(id) => id,
            Err(e) => {
                return Err(SchemaError::Identifier(e));
            },
        };
        Ok(RevocationEvent {
            device_id,
            credential_id: take_bytes(fs, 3),
            cutoff_utc: take_signed(fs, 4),
            service_event_id,
            generation_at_issue: take_unsigned(fs, 6),
            reason_code: take_unsigned(fs, 7),
        })
    }
}

} // verus!
