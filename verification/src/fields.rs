//! Integer-keyed CBOR maps as used by every RootPermit message: field lookup,
//! closed field sets, and the typed field rules that schemas are made of.

use vstd::prelude::*;
use vstd::utf8::*;
use crate::cbor::{Cbor, CborValue, DecodeError, EncodeError, lemma_pair_models, pair_models, models};
use crate::ids::IdentifierError;

verus! {

/// Why a CBOR value is not a valid message of a schema.
#[derive(Debug, Clone, Copy, PartialEq, Eq)]
pub enum SchemaError {
    Cbor(DecodeError),
    Identifier(IdentifierError),
    Encode(EncodeError),
    ProtocolMismatch { actual: u64 },
    MissingField { field: u64 },
    UnknownField { field: u64 },
    WrongType { field: u64 },
    InvalidField { field: u64 },
    RootNotMap,
}

/// The fields of a message, in wire order.
pub type FieldSeq = Seq<(u64, Cbor)>;

/// Collects the first `n` entries of a map as integer-keyed fields; a
/// non-integer key or a repeated key fails at the first such entry.
pub open spec fn spec_fields_of(entries: Seq<(Cbor, Cbor)>, n: nat) -> Result<FieldSeq, SchemaError>
    decreases n,
{
    if n == 0 || n > entries.len() {
        Ok(Seq::empty())
    } else {
        match spec_fields_of(entries, (n - 1) as nat) {
            Ok(fs) => match entries[n - 1].0 {
                Cbor::Unsigned(k) => if lookup(fs, k) is Some {
                    Err(SchemaError::InvalidField { field: k })
                } else {
                    Ok(fs.push((k, entries[n - 1].1)))
                },
                _ => Err(SchemaError::RootNotMap),
            },
            Err(e) => Err(e),
        }
    }
}

/// The fields of a message root, which must be a map.
pub open spec fn spec_fields(m: Cbor) -> Result<FieldSeq, SchemaError> {
    match m {
        Cbor::Entries(entries) => spec_fields_of(entries, entries.len()),
        _ => Err(SchemaError::RootNotMap),
    }
}

/// The value of field `k`, if present.
pub open spec fn lookup(fs: FieldSeq, k: u64) -> Option<Cbor>
    decreases fs.len(),
{
    if fs.len() == 0 {
        None
    } else if fs.last().0 == k {
        Some(fs.last().1)
    } else {
        lookup(fs.drop_last(), k)
    }
}

/// The smallest field number present but not permitted, if any.
pub open spec fn first_unknown(fs: FieldSeq, known: Seq<u64>) -> Option<u64> {
    if exists|i: int| 0 <= i < fs.len() && !known.contains(#[trigger] fs[i].0) {
        Some(choose|k: u64| {
            &&& (exists|i: int| 0 <= i < fs.len() && #[trigger] fs[i].0 == k)
            &&& !known.contains(k)
            &&& forall|i: int| 0 <= i < fs.len() && !known.contains(#[trigger] fs[i].0) ==> k <= fs[i].0
        })
    } else {
        None
    }
}

/// What a schema requires of one field.
#[derive(Debug, Clone, Copy, PartialEq, Eq)]
pub enum FieldKind {
    /// The protocol version, which must be `1`.
    Version,
    Unsigned,
    Signed,
    /// A byte string of exactly this length.
    Bytes(usize),
    /// A byte string whose length lies in the range.
    BoundedBytes(usize, usize),
    OptionalBoundedBytes(usize, usize),
    /// Text of at most this many UTF-8 bytes.
    Text(usize),
    NonEmptyText(usize),
    OptionalText(usize),
    Array,
    MapValue,
    Any,
    /// The operation code; only package installation exists.
    OperationCode,
    /// The decision code: approve or deny.
    DecisionCode,
    /// A Debian binary package name of at most this many bytes.
    PackageName(usize),
    /// A nested operation-input map.
    OperationInput,
    /// A nested approval-context map.
    ApprovalContext,
}

/// One field rule: a field number and what it must hold.
#[derive(Debug, Clone, Copy, PartialEq, Eq)]
pub struct FieldRule {
    pub key: u64,
    pub kind: FieldKind,
}

/// Whether bytes form a Debian binary package name: a lowercase letter,
/// then lowercase letters, digits, `+`, `.` or `-`, 1 to 255 bytes in all.
pub open spec fn valid_package_name(b: Seq<u8>) -> bool {
    &&& 1 <= b.len() <= 255
    &&& 0x61 <= b[0] <= 0x7a
    &&& forall|i: int| 1 <= i < b.len() ==> {
        let c = #[trigger] b[i];
        (0x61 <= c <= 0x7a) || (0x30 <= c <= 0x39) || c == 0x2b || c == 0x2e || c == 0x2d
    }
}

/// The operation-input rules.
pub open spec fn operation_input_rules() -> Seq<FieldRule> {
    seq![FieldRule { key: 1, kind: FieldKind::PackageName(255) }]
}

/// The approval-context rules.
pub open spec fn approval_context_rules() -> Seq<FieldRule> {
    seq![
        FieldRule { key: 1, kind: FieldKind::Version },
        FieldRule { key: 2, kind: FieldKind::Bytes(16) },
        FieldRule { key: 3, kind: FieldKind::Bytes(16) },
        FieldRule { key: 4, kind: FieldKind::Unsigned },
        FieldRule { key: 5, kind: FieldKind::Bytes(32) },
        FieldRule { key: 6, kind: FieldKind::Unsigned },
        FieldRule { key: 7, kind: FieldKind::Bytes(32) },
        FieldRule { key: 8, kind: FieldKind::NonEmptyText(253) },
        FieldRule { key: 9, kind: FieldKind::NonEmptyText(255) },
        FieldRule { key: 10, kind: FieldKind::DecisionCode },
        FieldRule { key: 11, kind: FieldKind::Signed },
    ]
}

/// The field numbers a rule table permits.
pub open spec fn rule_keys(rules: Seq<FieldRule>) -> Seq<u64> {
    rules.map_values(|r: FieldRule| r.key)
}

/// The first violated rule of the nested message `m`, checked with the
/// flat rules of its schema.
pub open spec fn nested_error(m: Cbor, rules: Seq<FieldRule>) -> Option<SchemaError> {
    match spec_fields(m) {
        Err(e) => Some(e),
        Ok(fs) => match first_unknown(fs, rule_keys(rules)) {
            Some(k) => Some(SchemaError::UnknownField { field: k }),
            None => flat_rules_error(fs, rules, rules.len()),
        },
    }
}

/// The error of a present field value under a rule, nested rules included.
pub open spec fn value_error(k: u64, kind: FieldKind, v: Cbor) -> Option<SchemaError> {
    match kind {
        FieldKind::OperationInput => nested_error(v, operation_input_rules()),
        FieldKind::ApprovalContext => nested_error(v, approval_context_rules()),
        _ => flat_value_error(k, kind, v),
    }
}

/// The error of a present field value under a non-nested rule.
pub open spec fn flat_value_error(k: u64, kind: FieldKind, v: Cbor) -> Option<SchemaError> {
    match kind {
        FieldKind::Version => match v {
            Cbor::Unsigned(n) => if n == 1 { None } else { Some(SchemaError::ProtocolMismatch { actual: n }) },
            _ => Some(SchemaError::WrongType { field: k }),
        },
        FieldKind::Unsigned => match v {
            Cbor::Unsigned(_) => None,
            _ => Some(SchemaError::WrongType { field: k }),
        },
        FieldKind::Signed => match v {
            Cbor::Unsigned(n) => if n <= 0x7fff_ffff_ffff_ffff { None } else { Some(SchemaError::InvalidField { field: k }) },
            Cbor::Negative(_) => None,
            _ => Some(SchemaError::WrongType { field: k }),
        },
        FieldKind::Bytes(len) => match v {
            Cbor::Bytes(b) => if b.len() == len { None } else { Some(SchemaError::InvalidField { field: k }) },
            _ => Some(SchemaError::WrongType { field: k }),
        },
        FieldKind::BoundedBytes(min, max) | FieldKind::OptionalBoundedBytes(min, max) => match v {
            Cbor::Bytes(b) => if min <= b.len() <= max { None } else { Some(SchemaError::InvalidField { field: k }) },
            _ => Some(SchemaError::WrongType { field: k }),
        },
        FieldKind::Text(max) | FieldKind::OptionalText(max) => match v {
            Cbor::Text(t) => if encode_utf8(t).len() <= max { None } else { Some(SchemaError::InvalidField { field: k }) },
            _ => Some(SchemaError::WrongType { field: k }),
        },
        FieldKind::NonEmptyText(max) => match v {
            Cbor::Text(t) => if encode_utf8(t).len() <= max && t.len() > 0 { None } else { Some(SchemaError::InvalidField { field: k }) },
            _ => Some(SchemaError::WrongType { field: k }),
        },
        FieldKind::Array => match v {
            Cbor::Array(_) => None,
            _ => Some(SchemaError::WrongType { field: k }),
        },
        FieldKind::MapValue => match v {
            Cbor::Entries(_) => None,
            _ => Some(SchemaError::WrongType { field: k }),
        },
        FieldKind::Any => None,
        FieldKind::OperationCode => match v {
            Cbor::Unsigned(n) => if n == 1 { None } else { Some(SchemaError::InvalidField { field: 12 }) },
            _ => Some(SchemaError::WrongType { field: k }),
        },
        FieldKind::DecisionCode => match v {
            Cbor::Unsigned(n) => if n == 1 || n == 2 { None } else { Some(SchemaError::InvalidField { field: 10 }) },
            _ => Some(SchemaError::WrongType { field: k }),
        },
        FieldKind::PackageName(max) => match v {
            Cbor::Text(t) => if encode_utf8(t).len() > max {
                Some(SchemaError::InvalidField { field: k })
            } else if valid_package_name(encode_utf8(t)) {
                None
            } else {
                Some(SchemaError::InvalidField { field: 13 })
            },
            _ => Some(SchemaError::WrongType { field: k }),
        },
        FieldKind::OperationInput | FieldKind::ApprovalContext => None,
    }
}

/// Whether a rule allows its field to be absent.
pub open spec fn optional_kind(kind: FieldKind) -> bool {
    match kind {
        FieldKind::OptionalBoundedBytes(_, _) | FieldKind::OptionalText(_) => true,
        _ => false,
    }
}

/// Whether a rule is one of the nested-message rules.
pub open spec fn nested_kind(kind: FieldKind) -> bool {
    match kind {
        FieldKind::OperationInput | FieldKind::ApprovalContext => true,
        _ => false,
    }
}

/// The error of one rule on a field set.
pub open spec fn rule_error(fs: FieldSeq, rule: FieldRule) -> Option<SchemaError> {
    match lookup(fs, rule.key) {
        None => if optional_kind(rule.kind) { None } else { Some(SchemaError::MissingField { field: rule.key }) },
        Some(v) => value_error(rule.key, rule.kind, v),
    }
}

/// The error of one non-nested rule on a field set.
pub open spec fn flat_rule_error(fs: FieldSeq, rule: FieldRule) -> Option<SchemaError> {
    match lookup(fs, rule.key) {
        None => if optional_kind(rule.kind) { None } else { Some(SchemaError::MissingField { field: rule.key }) },
        Some(v) => flat_value_error(rule.key, rule.kind, v),
    }
}

/// The first error among the first `n` flat (non-nested) rules.
pub open spec fn flat_rules_error(fs: FieldSeq, rules: Seq<FieldRule>, n: nat) -> Option<SchemaError>
    decreases n,
{
    if n == 0 || n > rules.len() {
        None
    } else {
        match flat_rules_error(fs, rules, (n - 1) as nat) {
            Some(e) => Some(e),
            None => if nested_kind(rules[n - 1].kind) { None } else { flat_rule_error(fs, rules[n - 1]) },
        }
    }
}

/// The first error among the first `n` rules, nested rules included.
pub open spec fn rules_error(fs: FieldSeq, rules: Seq<FieldRule>, n: nat) -> Option<SchemaError>
    decreases n,
{
    if n == 0 || n > rules.len() {
        None
    } else {
        match rules_error(fs, rules, (n - 1) as nat) {
            Some(e) => Some(e),
            None => rule_error(fs, rules[n - 1]),
        }
    }
}

/// The first error of a message against a rule table: root shape, unknown
/// fields, then each rule in table order. `Ok` carries the fields.
pub open spec fn check_message(m: Cbor, rules: Seq<FieldRule>) -> Result<FieldSeq, SchemaError> {
    match spec_fields(m) {
        Err(e) => Err(e),
        Ok(fs) => match first_unknown(fs, rule_keys(rules)) {
            Some(k) => Err(SchemaError::UnknownField { field: k }),
            None => match rules_error(fs, rules, rules.len()) {
                Some(e) => Err(e),
                None => Ok(fs),
            },
        },
    }
}

/// The models of exec fields.
pub open spec fn field_models(fs: Seq<(u64, CborValue)>) -> FieldSeq {
    fs.map_values(|p: (u64, CborValue)| (p.0, p.1@))
}

/// Finds field `k`, searching from the last field as [`lookup`] does.
pub fn find_field(fs: &Vec<(u64, CborValue)>, k: u64) -> (r: Option<usize>)
    ensures
        r is None <==> lookup(field_models(fs@), k) is None,
        r matches Some(i) ==> i < fs@.len() && fs@[i as int].0 == k && lookup(field_models(fs@), k) == Some(fs@[i as int].1@),
{
    let ghost fm = field_models(fs@);
    let mut i: usize = fs.len();
    proof {
        assert(fm.subrange(0, fm.len() as int) =~= fm);
    }
    while i > 0
        invariant
            i <= fs@.len(),
            fm == field_models(fs@),
            lookup(fm, k) == lookup(fm.subrange(0, i as int), k),
        decreases i,
    {
        let ghost sub = fm.subrange(0, i as int);
        proof {
            assert(sub.drop_last() =~= fm.subrange(0, i - 1));
            assert(sub.last() == fm[i - 1]);
        }
        if fs[i - 1].0 == k {
            return Some(i - 1);
        }
        i = i - 1;
    }
    None
}

/// Collects the integer-keyed fields of a message root.
pub fn collect_fields(value: &CborValue) -> (r: Result<Vec<(u64, CborValue)>, SchemaError>)
    ensures
        match spec_fields(value@) {
            Ok(fs) => r matches Ok(v) && field_models(v@) == fs,
            Err(e) => r == Err::<Vec<(u64, CborValue)>, SchemaError>(e),
        },
{
    let entries = match value {
        CborValue::Entries(entries) => entries,
        _ => {
            return Err(SchemaError::RootNotMap);
        },
    };
    let ghost pm = pair_models(entries@);
    proof {
        lemma_pair_models(entries@);
        assert(value@ == Cbor::Entries(pm));
    }
    let mut fs: Vec<(u64, CborValue)> = Vec::new();
    let mut i: usize = 0;
    proof {
        assert(field_models(fs@) =~= Seq::<(u64, Cbor)>::empty());
    }
    while i < entries.len()
        invariant
            i <= entries@.len(),
            pm == pair_models(entries@),
            value@ == Cbor::Entries(pm),
            pm.len() == entries@.len(),
            forall|j: int| 0 <= j < entries@.len() ==> #[trigger] pm[j] == (entries@[j].0@, entries@[j].1@),
            spec_fields_of(pm, i as nat) == Ok::<FieldSeq, SchemaError>(field_models(fs@)),
        decreases entries@.len() - i,
    {
        let key: u64 = match &entries[i].0 {
            CborValue::Unsigned(k) => *k,
            _ => {
                proof {
                    assert(pm[i as int].0 == entries@[i as int].0@);
                    assert(!(pm[i as int].0 is Unsigned));
                    assert(spec_fields_of(pm, (i + 1) as nat) == Err::<FieldSeq, SchemaError>(SchemaError::RootNotMap));
                    lemma_fields_error_persists(pm, (i + 1) as nat, entries@.len());
                }
                return Err(SchemaError::RootNotMap);
            },
        };
        proof {
            assert(pm[i as int].0 == entries@[i as int].0@);
            assert(pm[i as int].0 == Cbor::Unsigned(key));
        }
        if find_field(&fs, key).is_some() {
            proof {
                assert(spec_fields_of(pm, (i + 1) as nat) == Err::<FieldSeq, SchemaError>(SchemaError::InvalidField { field: key }));
                lemma_fields_error_persists(pm, (i + 1) as nat, entries@.len());
            }
            return Err(SchemaError::InvalidField { field: key });
        }
        let v = entries[i].1.deep_clone();
        let ghost before = fs@;
        fs.push((key, v));
        proof {
            assert(field_models(fs@) =~= field_models(before).push((key, pm[i as int].1)));
        }
        i = i + 1;
    }
    Ok(fs)
}

proof fn lemma_fields_error_persists(entries: Seq<(Cbor, Cbor)>, k: nat, n: nat)
    requires
        k <= n <= entries.len(),
        spec_fields_of(entries, k) is Err,
    ensures
        spec_fields_of(entries, n) == spec_fields_of(entries, k),
    decreases n - k,
{
    if k < n {
        lemma_fields_error_persists(entries, k, (n - 1) as nat);
    }
}

/// Whether a rule table names field `k`.
fn rules_name(rules: &Vec<FieldRule>, k: u64) -> (r: bool)
    ensures
        r == rule_keys(rules@).contains(k),
{
    let mut i: usize = 0;
    while i < rules.len()
        invariant
            i <= rules@.len(),
            forall|j: int| 0 <= j < i ==> rules@[j].key != k,
        decreases rules@.len() - i,
    {
        if rules[i].key == k {
            proof {
                assert(rule_keys(rules@)[i as int] == k);
            }
            return true;
        }
        i = i + 1;
    }
    proof {
        if rule_keys(rules@).contains(k) {
            let j = choose|j: int| 0 <= j < rule_keys(rules@).len() && rule_keys(rules@)[j] == k;
            assert(rules@[j].key == k);
        }
    }
    false
}

/// The smallest field number present but not named by the rules.
pub fn first_unknown_exec(fs: &Vec<(u64, CborValue)>, rules: &Vec<FieldRule>) -> (r: Option<u64>)
    ensures
        r == first_unknown(field_models(fs@), rule_keys(rules@)),
{
    let ghost fm = field_models(fs@);
    let ghost known = rule_keys(rules@);
    let mut best: Option<u64> = None;
    let mut i: usize = 0;
    while i < fs.len()
        invariant
            i <= fs@.len(),
            fm == field_models(fs@),
            known == rule_keys(rules@),
            fm.len() == fs@.len(),
            best is None <==> forall|j: int| 0 <= j < i ==> known.contains(#[trigger] fm[j].0),
            best matches Some(m) ==> (exists|j: int| 0 <= j < i && #[trigger] fm[j].0 == m) && !known.contains(m)
                && forall|j: int| 0 <= j < i && !known.contains(#[trigger] fm[j].0) ==> m <= fm[j].0,
        decreases fs@.len() - i,
    {
        let k: u64 = fs[i].0;
        proof {
            assert(fm[i as int].0 == k);
        }
        if !rules_name(rules, k) {
            match best {
                None => {
                    best = Some(k);
                },
                Some(m) => {
                    if k < m {
                        best = Some(k);
                    }
                },
            }
        }
        i = i + 1;
    }
    proof {
        match best {
            None => {},
            Some(m) => {
                let c = choose|c: u64| {
                    &&& (exists|i: int| 0 <= i < fm.len() && #[trigger] fm[i].0 == c)
                    &&& !known.contains(c)
                    &&& forall|i: int| 0 <= i < fm.len() && !known.contains(#[trigger] fm[i].0) ==> c <= fm[i].0
                };
                let jm = choose|j: int| 0 <= j < fm.len() && #[trigger] fm[j].0 == m;
                assert(c <= m);
                let jc = choose|j: int| 0 <= j < fm.len() && #[trigger] fm[j].0 == c;
                assert(m <= c);
            },
        }
    }
    best
}


/// The integer a CBOR value stands for, for signed fields.
pub open spec fn signed_value(c: Cbor) -> int {
    match c {
        Cbor::Unsigned(n) => n as int,
        Cbor::Negative(v) => v as int,
        _ => 0,
    }
}

/// The CBOR model of a signed integer: non-negative values are unsigned.
pub open spec fn signed_cbor(v: i64) -> Cbor {
    if v >= 0 { Cbor::Unsigned(v as u64) } else { Cbor::Negative(v) }
}

/// A signed integer as a CBOR value.
pub fn signed(v: i64) -> (r: CborValue)
    ensures
        r@ == signed_cbor(v),
{
    if v >= 0 { CborValue::Unsigned(v as u64) } else { CborValue::Negative(v) }
}

/// A map entry with an unsigned key.
pub fn field(key: u64, value: CborValue) -> (r: (CborValue, CborValue))
    ensures
        r.0@ == Cbor::Unsigned(key),
        r.1@ == value@,
{
    (CborValue::Unsigned(key), value)
}

/// A byte string holding a copy of `b`.
pub fn bytes(b: &[u8]) -> (r: CborValue)
    ensures
        r@ == Cbor::Bytes(b@),
{
    CborValue::Bytes(crate::cbor::copy_bytes(b))
}

/// Whether bytes form a Debian binary package name.
pub fn is_package_name(b: &[u8]) -> (r: bool)
    ensures
        r == valid_package_name(b@),
{
    if b.len() < 1 || b.len() > 255 {
        return false;
    }
    if !(0x61 <= b[0] && b[0] <= 0x7a) {
        return false;
    }
    let mut i: usize = 1;
    while i < b.len()
        invariant
            1 <= i <= b@.len() <= 255,
            0x61 <= b@[0] <= 0x7a,
            forall|j: int| 1 <= j < i ==> {
                let c = #[trigger] b@[j];
                (0x61 <= c <= 0x7a) || (0x30 <= c <= 0x39) || c == 0x2b || c == 0x2e || c == 0x2d
            },
        decreases b@.len() - i,
    {
        let c = b[i];
        if !((0x61 <= c && c <= 0x7a) || (0x30 <= c && c <= 0x39) || c == 0x2b || c == 0x2e || c == 0x2d) {
            return false;
        }
        i = i + 1;
    }
    true
}

/// The error of a present value under a non-nested rule.
pub fn flat_value_error_exec(k: u64, kind: FieldKind, v: &CborValue) -> (r: Option<SchemaError>)
    ensures
        r == flat_value_error(k, kind, v@),
{
    match kind {
        FieldKind::Version => match v {
            CborValue::Unsigned(n) => if *n == 1 { None } else { Some(SchemaError::ProtocolMismatch { actual: *n }) },
            _ => Some(SchemaError::WrongType { field: k }),
        },
        FieldKind::Unsigned => match v {
            CborValue::Unsigned(_) => None,
            _ => Some(SchemaError::WrongType { field: k }),
        },
        FieldKind::Signed => match v {
            CborValue::Unsigned(n) => if *n <= 0x7fff_ffff_ffff_ffff { None } else { Some(SchemaError::InvalidField { field: k }) },
            CborValue::Negative(_) => None,
            _ => Some(SchemaError::WrongType { field: k }),
        },
        FieldKind::Bytes(len) => match v {
            CborValue::Bytes(b) => if b.len() == len { None } else { Some(SchemaError::InvalidField { field: k }) },
            _ => Some(SchemaError::WrongType { field: k }),
        },
        FieldKind::BoundedBytes(min, max) | FieldKind::OptionalBoundedBytes(min, max) => match v {
            CborValue::Bytes(b) => if min <= b.len() && b.len() <= max { None } else { Some(SchemaError::InvalidField { field: k }) },
            _ => Some(SchemaError::WrongType { field: k }),
        },
        FieldKind::Text(max) | FieldKind::OptionalText(max) => match v {
            CborValue::Text(t) => if t.as_str().as_bytes().len() <= max { None } else { Some(SchemaError::InvalidField { field: k }) },
            _ => Some(SchemaError::WrongType { field: k }),
        },
        FieldKind::NonEmptyText(max) => match v {
            CborValue::Text(t) => if t.as_str().as_bytes().len() <= max && !t.as_str().is_empty() { None } else { Some(SchemaError::InvalidField { field: k }) },
            _ => Some(SchemaError::WrongType { field: k }),
        },
        FieldKind::Array => match v {
            CborValue::Array(_) => None,
            _ => Some(SchemaError::WrongType { field: k }),
        },
        FieldKind::MapValue => match v {
            CborValue::Entries(_) => None,
            _ => Some(SchemaError::WrongType { field: k }),
        },
        FieldKind::Any => None,
        FieldKind::OperationCode => match v {
            CborValue::Unsigned(n) => if *n == 1 { None } else { Some(SchemaError::InvalidField { field: 12 }) },
            _ => Some(SchemaError::WrongType { field: k }),
        },
        FieldKind::DecisionCode => match v {
            CborValue::Unsigned(n) => if *n == 1 || *n == 2 { None } else { Some(SchemaError::InvalidField { field: 10 }) },
            _ => Some(SchemaError::WrongType { field: k }),
        },
        FieldKind::PackageName(max) => match v {
            CborValue::Text(t) => if t.as_str().as_bytes().len() > max {
                Some(SchemaError::InvalidField { field: k })
            } else if is_package_name(t.as_str().as_bytes()) {
                None
            } else {
                Some(SchemaError::InvalidField { field: 13 })
            },
            _ => Some(SchemaError::WrongType { field: k }),
        },
        FieldKind::OperationInput | FieldKind::ApprovalContext => None,
    }
}

/// The rule table of the operation-input map.
pub fn operation_input_rule_table() -> (r: Vec<FieldRule>)
    ensures
        r@ == operation_input_rules(),
{
    let mut r: Vec<FieldRule> = Vec::new();
    r.push(FieldRule { key: 1, kind: FieldKind::PackageName(255) });
    proof {
        assert(r@ =~= operation_input_rules());
    }
    r
}

/// The rule table of the approval-context map.
pub fn approval_context_rule_table() -> (r: Vec<FieldRule>)
    ensures
        r@ == approval_context_rules(),
{
    let mut r: Vec<FieldRule> = Vec::new();
    r.push(FieldRule { key: 1, kind: FieldKind::Version });
    r.push(FieldRule { key: 2, kind: FieldKind::Bytes(16) });
    r.push(FieldRule { key: 3, kind: FieldKind::Bytes(16) });
    r.push(FieldRule { key: 4, kind: FieldKind::Unsigned });
    r.push(FieldRule { key: 5, kind: FieldKind::Bytes(32) });
    r.push(FieldRule { key: 6, kind: FieldKind::Unsigned });
    r.push(FieldRule { key: 7, kind: FieldKind::Bytes(32) });
    r.push(FieldRule { key: 8, kind: FieldKind::NonEmptyText(253) });
    r.push(FieldRule { key: 9, kind: FieldKind::NonEmptyText(255) });
    r.push(FieldRule { key: 10, kind: FieldKind::DecisionCode });
    r.push(FieldRule { key: 11, kind: FieldKind::Signed });
    proof {
        assert(r@ =~= approval_context_rules());
    }
    r
}

/// The first error among the flat rules of a table.
fn flat_rules_error_exec(fs: &Vec<(u64, CborValue)>, rules: &Vec<FieldRule>) -> (r: Option<SchemaError>)
    ensures
        r == flat_rules_error(field_models(fs@), rules@, rules@.len()),
{
    let ghost fm = field_models(fs@);
    let mut i: usize = 0;
    while i < rules.len()
        invariant
            i <= rules@.len(),
            fm == field_models(fs@),
            flat_rules_error(fm, rules@, i as nat) is None,
        decreases rules@.len() - i,
    {
        let rule = rules[i];
        let found = find_field(fs, rule.key);
        let e: Option<SchemaError> = match rule.kind {
            FieldKind::OperationInput | FieldKind::ApprovalContext => None,
            _ => match found {
                None => match rule.kind {
                    FieldKind::OptionalBoundedBytes(_, _) | FieldKind::OptionalText(_) => None,
                    _ => Some(SchemaError::MissingField { field: rule.key }),
                },
                Some(j) => flat_value_error_exec(rule.key, rule.kind, &fs[j].1),
            },
        };
        if e.is_some() {
            proof {
                lemma_rules_error_persists(fm, rules@, (i + 1) as nat, rules@.len(), false);
            }
            return e;
        }
        i = i + 1;
    }
    None
}

/// The first error of a nested message against its flat rule table.
pub fn nested_error_exec(v: &CborValue, rules: &Vec<FieldRule>) -> (r: Option<SchemaError>)
    ensures
        r == nested_error(v@, rules@),
{
    let fs = match collect_fields(v) {
        Ok(fs) => fs,
        Err(e) => {
            return Some(e);
        },
    };
    match first_unknown_exec(&fs, rules) {
        Some(k) => Some(SchemaError::UnknownField { field: k }),
        None => flat_rules_error_exec(&fs, rules),
    }
}

/// The error of a present value under a rule, nested rules included.
pub fn value_error_exec(k: u64, kind: FieldKind, v: &CborValue) -> (r: Option<SchemaError>)
    ensures
        r == value_error(k, kind, v@),
{
    match kind {
        FieldKind::OperationInput => nested_error_exec(v, &operation_input_rule_table()),
        FieldKind::ApprovalContext => nested_error_exec(v, &approval_context_rule_table()),
        _ => flat_value_error_exec(k, kind, v),
    }
}

/// The first error among all rules of a table.
fn rules_error_exec(fs: &Vec<(u64, CborValue)>, rules: &Vec<FieldRule>) -> (r: Option<SchemaError>)
    ensures
        r == rules_error(field_models(fs@), rules@, rules@.len()),
{
    let ghost fm = field_models(fs@);
    let mut i: usize = 0;
    while i < rules.len()
        invariant
            i <= rules@.len(),
            fm == field_models(fs@),
            rules_error(fm, rules@, i as nat) is None,
        decreases rules@.len() - i,
    {
        let rule = rules[i];
        let e: Option<SchemaError> = match find_field(fs, rule.key) {
            None => match rule.kind {
                FieldKind::OptionalBoundedBytes(_, _) | FieldKind::OptionalText(_) => None,
                _ => Some(SchemaError::MissingField { field: rule.key }),
            },
            Some(j) => value_error_exec(rule.key, rule.kind, &fs[j].1),
        };
        if e.is_some() {
            proof {
                lemma_rules_error_persists(fm, rules@, (i + 1) as nat, rules@.len(), true);
            }
            return e;
        }
        i = i + 1;
    }
    None
}

proof fn lemma_rules_error_persists(fs: FieldSeq, rules: Seq<FieldRule>, k: nat, n: nat, all: bool)
    requires
        k <= n <= rules.len(),
        all ==> rules_error(fs, rules, k) is Some,
        !all ==> flat_rules_error(fs, rules, k) is Some,
    ensures
        all ==> rules_error(fs, rules, n) == rules_error(fs, rules, k),
        !all ==> flat_rules_error(fs, rules, n) == flat_rules_error(fs, rules, k),
    decreases n - k,
{
    if k < n {
        lemma_rules_error_persists(fs, rules, k, (n - 1) as nat, all);
    }
}

/// Checks a message root against a rule table: root shape, unknown fields,
/// then every rule in table order. `Ok` carries the fields.
pub fn check_message_exec(value: &CborValue, rules: &Vec<FieldRule>) -> (r: Result<Vec<(u64, CborValue)>, SchemaError>)
    ensures
        match check_message(value@, rules@) {
            Ok(fs) => r matches Ok(v) && field_models(v@) == fs,
            Err(e) => r == Err::<Vec<(u64, CborValue)>, SchemaError>(e),
        },
{
    let fs = collect_fields(value)?;
    if let Some(k) = first_unknown_exec(&fs, rules) {
        return Err(SchemaError::UnknownField { field: k });
    }
    if let Some(e) = rules_error_exec(&fs, rules) {
        return Err(e);
    }
    Ok(fs)
}


/// Field `k`'s value, which must be present.
pub fn get_field(fs: &Vec<(u64, CborValue)>, k: u64) -> (r: &CborValue)
    requires
        lookup(field_models(fs@), k) is Some,
    ensures
        lookup(field_models(fs@), k) == Some(r@),
{
    match find_field(fs, k) {
        Some(i) => &fs[i].1,
        None => {
            proof {
                assert(false);
            }
            &fs[0].1
        },
    }
}

/// A copy of field `k`'s value, which must be present.
pub fn take_value(fs: &Vec<(u64, CborValue)>, k: u64) -> (r: CborValue)
    requires
        lookup(field_models(fs@), k) is Some,
    ensures
        lookup(field_models(fs@), k) == Some(r@),
{
    get_field(fs, k).deep_clone()
}

/// Field `k`, which must hold an unsigned integer.
pub fn take_unsigned(fs: &Vec<(u64, CborValue)>, k: u64) -> (r: u64)
    requires
        lookup(field_models(fs@), k) matches Some(Cbor::Unsigned(_)),
    ensures
        lookup(field_models(fs@), k) == Some(Cbor::Unsigned(r)),
{
    match get_field(fs, k) {
        CborValue::Unsigned(n) => *n,
        _ => {
            proof {
                assert(false);
            }
            0
        },
    }
}

/// Field `k`, which must hold an integer within `i64`.
pub fn take_signed(fs: &Vec<(u64, CborValue)>, k: u64) -> (r: i64)
    requires
        lookup(field_models(fs@), k) matches Some(c) && ((c matches Cbor::Unsigned(n) && n <= i64::MAX) || c is Negative),
    ensures
        signed_value(lookup(field_models(fs@), k)->Some_0) == r as int,
{
    match get_field(fs, k) {
        CborValue::Unsigned(n) => *n as i64,
        CborValue::Negative(v) => *v,
        _ => {
            proof {
                assert(false);
            }
            0
        },
    }
}

/// Field `k`, which must hold a byte string.
pub fn take_bytes(fs: &Vec<(u64, CborValue)>, k: u64) -> (r: Vec<u8>)
    requires
        lookup(field_models(fs@), k) matches Some(Cbor::Bytes(_)),
    ensures
        lookup(field_models(fs@), k) == Some(Cbor::Bytes(r@)),
{
    match get_field(fs, k) {
        CborValue::Bytes(b) => crate::cbor::copy_bytes(b.as_slice()),
        _ => {
            proof {
                assert(false);
            }
            Vec::new()
        },
    }
}

/// Field `k`, which must hold a byte string of 32 bytes.
pub fn take_digest(fs: &Vec<(u64, CborValue)>, k: u64) -> (r: [u8; 32])
    requires
        lookup(field_models(fs@), k) matches Some(Cbor::Bytes(b)) && b.len() == 32,
    ensures
        lookup(field_models(fs@), k) == Some(Cbor::Bytes(r@)),
{
    let b = take_bytes(fs, k);
    crate::ids::copy_array(b.as_slice())
}

/// Field `k`, which must hold text.
pub fn take_text(fs: &Vec<(u64, CborValue)>, k: u64) -> (r: String)
    requires
        lookup(field_models(fs@), k) matches Some(Cbor::Text(_)),
    ensures
        lookup(field_models(fs@), k) == Some(Cbor::Text(r@)),
{
    match get_field(fs, k) {
        CborValue::Text(t) => t.clone(),
        _ => {
            proof {
                assert(false);
            }
            String::new()
        },
    }
}

/// Field `k`, which must hold an array.
pub fn take_array(fs: &Vec<(u64, CborValue)>, k: u64) -> (r: Vec<CborValue>)
    requires
        lookup(field_models(fs@), k) matches Some(Cbor::Array(_)),
    ensures
        lookup(field_models(fs@), k) == Some(Cbor::Array(models(r@))),
{
    match take_value(fs, k) {
        CborValue::Array(items) => items,
        _ => {
            proof {
                assert(false);
            }
            Vec::new()
        },
    }
}

/// Optional field `k`, which holds a byte string when present.
pub fn take_optional_bytes(fs: &Vec<(u64, CborValue)>, k: u64) -> (r: Option<Vec<u8>>)
    requires
        lookup(field_models(fs@), k) matches Some(c) ==> c is Bytes,
    ensures
        lookup(field_models(fs@), k) == match r { Some(b) => Some(Cbor::Bytes(b@)), None => None::<Cbor> },
{
    match find_field(fs, k) {
        Some(_) => Some(take_bytes(fs, k)),
        None => None,
    }
}

/// Optional field `k`, which holds a 32-byte string when present.
pub fn take_optional_digest(fs: &Vec<(u64, CborValue)>, k: u64) -> (r: Option<[u8; 32]>)
    requires
        lookup(field_models(fs@), k) matches Some(c) ==> c matches Cbor::Bytes(b) && b.len() == 32,
    ensures
        lookup(field_models(fs@), k) == match r { Some(b) => Some(Cbor::Bytes(b@)), None => None::<Cbor> },
{
    match find_field(fs, k) {
        Some(_) => Some(take_digest(fs, k)),
        None => None,
    }
}

/// Optional field `k`, which holds text when present.
pub fn take_optional_text(fs: &Vec<(u64, CborValue)>, k: u64) -> (r: Option<String>)
    requires
        lookup(field_models(fs@), k) matches Some(c) ==> c is Text,
    ensures
        lookup(field_models(fs@), k) == match r { Some(t) => Some(Cbor::Text(t@)), None => None::<Cbor> },
{
    match find_field(fs, k) {
        Some(_) => Some(take_text(fs, k)),
        None => None,
    }
}


/// Appends an unsigned-keyed entry to a map under construction.
pub fn push_field(entries: &mut Vec<(CborValue, CborValue)>, key: u64, value: CborValue)
    ensures
        pair_models(final(entries)@) == pair_models(old(entries)@).push((Cbor::Unsigned(key), value@)),
{
    let ghost before = entries@;
    let ghost vm = value@;
    let k = CborValue::Unsigned(key);
    assert(k@ == Cbor::Unsigned(key));
    entries.push((k, value));
    proof {
        assert(entries@.drop_last() =~= before);
        assert(entries@[entries@.len() - 1].0@ == Cbor::Unsigned(key));
        assert(entries@[entries@.len() - 1].1@ == vm);
    }
}

/// Every rule among the first `n` of a table whose check passed holds.
pub proof fn lemma_rules_hold(fs: FieldSeq, rules: Seq<FieldRule>, n: nat)
    requires
        n <= rules.len(),
        rules_error(fs, rules, n) is None,
    ensures
        forall|i: int| 0 <= i < n ==> rule_error(fs, #[trigger] rules[i]) is None,
    decreases n,
{
    if n > 0 {
        lemma_rules_hold(fs, rules, (n - 1) as nat);
    }
}

/// The rules of a nested message whose check passed hold.
pub proof fn lemma_flat_rules_hold(fs: FieldSeq, rules: Seq<FieldRule>, n: nat)
    requires
        n <= rules.len(),
        flat_rules_error(fs, rules, n) is None,
    ensures
        forall|i: int| 0 <= i < n && !nested_kind(rules[i].kind) ==> flat_rule_error(fs, #[trigger] rules[i]) is None,
    decreases n,
{
    if n > 0 {
        lemma_flat_rules_hold(fs, rules, (n - 1) as nat);
    }
}


/// A copy of a sequence of values with the same models.
pub fn clone_values(v: &Vec<CborValue>) -> (r: Vec<CborValue>)
    ensures
        models(r@) == models(v@),
{
    let mut out: Vec<CborValue> = Vec::new();
    let mut i: usize = 0;
    while i < v.len()
        invariant
            i <= v@.len(),
            models(out@) == models(v@.subrange(0, i as int)),
        decreases v@.len() - i,
    {
        let c = v[i].deep_clone();
        let ghost before = out@;
        out.push(c);
        proof {
            assert(out@.drop_last() =~= before);
            assert(v@.subrange(0, i + 1).drop_last() =~= v@.subrange(0, i as int));
        }
        i = i + 1;
    }
    proof {
        assert(v@.subrange(0, v@.len() as int) =~= v@);
    }
    out
}

} // verus!
