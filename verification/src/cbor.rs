//! A deliberately small RFC 8949 deterministic-CBOR profile.

use vstd::prelude::*;
use vstd::utf8::*;
use vstd::string::*;

verus! {

/// A value of the supported CBOR data model.
#[derive(Debug, PartialEq, Eq)]
pub enum CborValue {
    Unsigned(u64),
    Negative(i64),
    Bytes(Vec<u8>),
    Text(String),
    Array(Vec<CborValue>),
    Entries(Vec<(CborValue, CborValue)>),
    Bool(bool),
    Null,
}

/// The mathematical model of a [`CborValue`]; text is modelled by its
/// characters and collections by sequences.
pub enum Cbor {
    Unsigned(u64),
    Negative(i64),
    Bytes(Seq<u8>),
    Text(Seq<char>),
    Array(Seq<Cbor>),
    Entries(Seq<(Cbor, Cbor)>),
    Bool(bool),
    Null,
}

/// The model of a value.
pub open spec fn model(v: CborValue) -> Cbor
    decreases v,
{
    match v {
        CborValue::Unsigned(n) => Cbor::Unsigned(n),
        CborValue::Negative(n) => Cbor::Negative(n),
        CborValue::Bytes(b) => Cbor::Bytes(b@),
        CborValue::Text(t) => Cbor::Text(t@),
        CborValue::Array(items) => Cbor::Array(models(items@)),
        CborValue::Entries(entries) => Cbor::Entries(pair_models(entries@)),
        CborValue::Bool(b) => Cbor::Bool(b),
        CborValue::Null => Cbor::Null,
    }
}

/// The models of a sequence of values.
pub open spec fn models(s: Seq<CborValue>) -> Seq<Cbor>
    decreases s,
{
    if s.len() == 0 {
        Seq::empty()
    } else {
        models(s.drop_last()).push(model(s[s.len() - 1]))
    }
}

/// The models of a sequence of map entries.
pub open spec fn pair_models(s: Seq<(CborValue, CborValue)>) -> Seq<(Cbor, Cbor)>
    decreases s,
{
    if s.len() == 0 {
        Seq::empty()
    } else {
        pair_models(s.drop_last()).push((model(s[s.len() - 1].0), model(s[s.len() - 1].1)))
    }
}

impl CborValue {
    /// A copy of the value with the same model.
    #[verifier::loop_isolation(false)]
    pub fn deep_clone(&self) -> (r: CborValue)
        ensures
            r@ == self@,
        decreases self,
    {
        match self {
            CborValue::Unsigned(n) => CborValue::Unsigned(*n),
            CborValue::Negative(n) => CborValue::Negative(*n),
            CborValue::Bytes(b) => CborValue::Bytes(copy_bytes(b.as_slice())),
            CborValue::Text(t) => CborValue::Text(t.clone()),
            CborValue::Array(items) => {
                let mut out: Vec<CborValue> = Vec::new();
                let mut i: usize = 0;
                while i < items.len()
                    invariant
                        i <= items@.len(),
                        models(out@) == models(items@.subrange(0, i as int)),
                    decreases items@.len() - i,
                {
                    proof {
                        assert(decreases_to!(items@ => items@[i as int]));
                        assert(decreases_to!(self => items@[i as int]));
                    }
                    let c = items[i].deep_clone();
                    let ghost before = out@;
                    out.push(c);
                    proof {
                        assert(out@.drop_last() =~= before);
                        assert(items@.subrange(0, i + 1).drop_last() =~= items@.subrange(0, i as int));
                    }
                    i = i + 1;
                }
                proof {
                    assert(items@.subrange(0, items@.len() as int) =~= items@);
                }
                CborValue::Array(out)
            },
            CborValue::Entries(entries) => {
                let mut out: Vec<(CborValue, CborValue)> = Vec::new();
                let mut i: usize = 0;
                while i < entries.len()
                    invariant
                        i <= entries@.len(),
                        pair_models(out@) == pair_models(entries@.subrange(0, i as int)),
                    decreases entries@.len() - i,
                {
                    proof {
                        assert(decreases_to!(entries@ => entries@[i as int]));
                        assert(decreases_to!(self => entries@[i as int].0));
                        assert(decreases_to!(self => entries@[i as int].1));
                    }
                    let k = entries[i].0.deep_clone();
                    let v = entries[i].1.deep_clone();
                    let ghost before = out@;
                    out.push((k, v));
                    proof {
                        assert(out@.drop_last() =~= before);
                        assert(entries@.subrange(0, i + 1).drop_last() =~= entries@.subrange(0, i as int));
                    }
                    i = i + 1;
                }
                proof {
                    assert(entries@.subrange(0, entries@.len() as int) =~= entries@);
                }
                CborValue::Entries(out)
            },
            CborValue::Bool(b) => CborValue::Bool(*b),
            CborValue::Null => CborValue::Null,
        }
    }
}

impl Clone for CborValue {
    fn clone(&self) -> (r: Self)
        ensures
            r@ == self@,
    {
        self.deep_clone()
    }
}

/// A copy of a byte slice.
pub fn copy_bytes(b: &[u8]) -> (r: Vec<u8>)
    ensures
        r@ == b@,
{
    let mut out: Vec<u8> = Vec::new();
    let mut i: usize = 0;
    while i < b.len()
        invariant
            i <= b@.len(),
            out@ == b@.subrange(0, i as int),
        decreases b@.len() - i,
    {
        out.push(b[i]);
        proof {
            assert(out@ =~= b@.subrange(0, i + 1));
        }
        i = i + 1;
    }
    proof {
        assert(b@.subrange(0, b@.len() as int) =~= b@);
    }
    out
}

/// Resource bounds applied while decoding.
#[derive(Debug, Clone, Copy, PartialEq, Eq)]
pub struct CborLimits {
    pub max_message_bytes: usize,
    pub max_nesting: usize,
    pub max_map_entries: usize,
    pub max_array_entries: usize,
    pub max_byte_string_bytes: usize,
    pub max_text_string_bytes: usize,
}

/// The profile's default bounds.
pub open spec fn default_limits() -> CborLimits {
    CborLimits {
        max_message_bytes: 1_048_576,
        max_nesting: 16,
        max_map_entries: 128,
        max_array_entries: 16_384,
        max_byte_string_bytes: 65_536,
        max_text_string_bytes: 16_384,
    }
}

impl Default for CborLimits {
    fn default() -> (r: Self)
        ensures
            r == default_limits(),
    {
        CborLimits {
            // A frozen plan can contain a substantial dependency graph, but no
            // individual protocol object should grow without an explicit limit.
            max_message_bytes: 1_048_576,
            max_nesting: 16,
            max_map_entries: 128,
            max_array_entries: 16_384,
            max_byte_string_bytes: 65_536,
            max_text_string_bytes: 16_384,
        }
    }
}

/// The collection whose declared size exceeded its bound.
#[derive(Debug, Clone, Copy, PartialEq, Eq)]
pub enum CollectionKind {
    ByteString,
    TextString,
    Array,
    Entries,
}

/// Why a byte string is not an accepted deterministic-CBOR value.
#[derive(Debug, Clone, Copy, PartialEq, Eq)]
pub enum DecodeError {
    MessageTooLarge,
    UnexpectedEof,
    UnsupportedType,
    IndefiniteLength,
    NonCanonicalInteger,
    NonCanonicalMapOrder,
    InvalidUtf8,
    NestingTooDeep,
    CollectionTooLarge { kind: CollectionKind },
    TrailingBytes,
    IntegerOutOfRange,
}

/// Why a value cannot be encoded under the profile.
#[derive(Debug, Clone, Copy, PartialEq, Eq)]
pub enum EncodeError {
    DuplicateMapKey,
    Profile(DecodeError),
    LengthOutOfRange,
    IntegerOutOfRange,
}

// ---------------------------------------------------------------------------
// Decoding, as a function on byte sequences.
// ---------------------------------------------------------------------------

/// Reads the argument of a head whose initial byte ended just before `off`.
/// Returns the argument and the offset after it.
pub open spec fn spec_argument(input: Seq<u8>, off: int, additional: u8) -> Result<(u64, int), DecodeError> {
    if additional <= 23 {
        Ok((additional as u64, off))
    } else if additional == 24 {
        if off + 1 > input.len() {
            Err(DecodeError::UnexpectedEof)
        } else if input[off] >= 24 {
            Ok((input[off] as u64, off + 1))
        } else {
            Err(DecodeError::NonCanonicalInteger)
        }
    } else if additional == 25 || additional == 26 || additional == 27 {
        let width: int = if additional == 25 { 2 } else if additional == 26 { 4 } else { 8 };
        let floor: nat = if additional == 25 { 0x100 } else if additional == 26 { 0x1_0000 } else { 0x1_0000_0000 };
        if off + width > input.len() {
            Err(DecodeError::UnexpectedEof)
        } else if be_value(input.subrange(off, off + width)) >= floor {
            Ok((be_value(input.subrange(off, off + width)) as u64, off + width))
        } else {
            Err(DecodeError::NonCanonicalInteger)
        }
    } else {
        Err(DecodeError::IndefiniteLength)
    }
}

/// Reads a length argument bounded by `max`.
pub open spec fn spec_length(input: Seq<u8>, off: int, additional: u8, max: usize, kind: CollectionKind) -> Result<(nat, int), DecodeError> {
    match spec_argument(input, off, additional) {
        Ok((n, next)) => if n > max {
            Err(DecodeError::CollectionTooLarge { kind })
        } else {
            Ok((n as nat, next))
        },
        Err(e) => Err(e),
    }
}

/// Deterministic map-key order: shorter encodings first, then bytewise.
pub open spec fn key_precedes(a: Seq<u8>, b: Seq<u8>) -> bool {
    a.len() < b.len() || (a.len() == b.len() && bytes_before(a, b))
}

/// Strict lexicographic order on byte sequences.
pub open spec fn bytes_before(a: Seq<u8>, b: Seq<u8>) -> bool
    decreases a.len(),
{
    if a.len() == 0 {
        b.len() > 0
    } else if b.len() == 0 {
        false
    } else if a[0] != b[0] {
        a[0] < b[0]
    } else {
        bytes_before(a.drop_first(), b.drop_first())
    }
}

/// Parses one value starting at `off` at nesting `depth`; returns the value's
/// model and the offset after it.
pub open spec fn spec_value(input: Seq<u8>, off: int, depth: int, lim: CborLimits) -> Result<(Cbor, int), DecodeError>
    decreases lim.max_nesting + 1 - depth, 1int, 0int,
{
    if depth > lim.max_nesting {
        Err(DecodeError::NestingTooDeep)
    } else if off < 0 || off >= input.len() {
        Err(DecodeError::UnexpectedEof)
    } else {
        let initial = input[off];
        let major = initial / 32;
        let additional = (initial % 32) as u8;
        if additional == 31 {
            Err(DecodeError::IndefiniteLength)
        } else if major == 0 {
            match spec_argument(input, off + 1, additional) {
                Ok((n, next)) => Ok((Cbor::Unsigned(n), next)),
                Err(e) => Err(e),
            }
        } else if major == 1 {
            match spec_argument(input, off + 1, additional) {
                Ok((n, next)) => if n <= 0x7fff_ffff_ffff_ffff {
                    Ok((Cbor::Negative((-1 - n) as i64), next))
                } else {
                    Err(DecodeError::IntegerOutOfRange)
                },
                Err(e) => Err(e),
            }
        } else if major == 2 {
            match spec_length(input, off + 1, additional, lim.max_byte_string_bytes, CollectionKind::ByteString) {
                Ok((n, next)) => if next + n > input.len() {
                    Err(DecodeError::UnexpectedEof)
                } else {
                    Ok((Cbor::Bytes(input.subrange(next, next + n)), next + n))
                },
                Err(e) => Err(e),
            }
        } else if major == 3 {
            match spec_length(input, off + 1, additional, lim.max_text_string_bytes, CollectionKind::TextString) {
                Ok((n, next)) => if next + n > input.len() {
                    Err(DecodeError::UnexpectedEof)
                } else if !valid_utf8(input.subrange(next, next + n)) {
                    Err(DecodeError::InvalidUtf8)
                } else {
                    Ok((Cbor::Text(decode_utf8(input.subrange(next, next + n))), next + n))
                },
                Err(e) => Err(e),
            }
        } else if major == 4 {
            match spec_length(input, off + 1, additional, lim.max_array_entries, CollectionKind::Array) {
                Ok((n, next)) => match spec_items(input, next, depth, lim, n) {
                    Ok((items, end)) => Ok((Cbor::Array(items), end)),
                    Err(e) => Err(e),
                },
                Err(e) => Err(e),
            }
        } else if major == 5 {
            match spec_length(input, off + 1, additional, lim.max_map_entries, CollectionKind::Entries) {
                Ok((n, next)) => match spec_entries(input, next, depth, lim, n) {
                    Ok((entries, end, _)) => Ok((Cbor::Entries(entries), end)),
                    Err(e) => Err(e),
                },
                Err(e) => Err(e),
            }
        } else if major == 7 {
            if additional == 20 {
                Ok((Cbor::Bool(false), off + 1))
            } else if additional == 21 {
                Ok((Cbor::Bool(true), off + 1))
            } else if additional == 22 {
                Ok((Cbor::Null, off + 1))
            } else {
                Err(DecodeError::UnsupportedType)
            }
        } else {
            Err(DecodeError::UnsupportedType)
        }
    }
}

/// Parses `n` consecutive child values of a container at nesting `depth`.
pub open spec fn spec_items(input: Seq<u8>, off: int, depth: int, lim: CborLimits, n: nat) -> Result<(Seq<Cbor>, int), DecodeError>
    decreases lim.max_nesting + 1 - depth, 0int, n,
{
    if n == 0 {
        Ok((Seq::empty(), off))
    } else {
        match spec_items(input, off, depth, lim, (n - 1) as nat) {
            Ok((items, next)) => if depth + 1 > lim.max_nesting {
                Err(DecodeError::NestingTooDeep)
            } else {
                match spec_value(input, next, depth + 1, lim) {
                    Ok((item, end)) => Ok((items.push(item), end)),
                    Err(e) => Err(e),
                }
            },
            Err(e) => Err(e),
        }
    }
}

/// Parses `n` consecutive key/value pairs of a map at nesting `depth`,
/// requiring strictly increasing key encodings. Also returns the encoded
/// bytes of the last key.
pub open spec fn spec_entries(input: Seq<u8>, off: int, depth: int, lim: CborLimits, n: nat) -> Result<(Seq<(Cbor, Cbor)>, int, Seq<u8>), DecodeError>
    decreases lim.max_nesting + 1 - depth, 0int, n,
{
    if n == 0 {
        Ok((Seq::empty(), off, Seq::empty()))
    } else {
        match spec_entries(input, off, depth, lim, (n - 1) as nat) {
            Ok((entries, next, previous)) => if depth + 1 > lim.max_nesting {
                Err(DecodeError::NestingTooDeep)
            } else {
                match spec_value(input, next, depth + 1, lim) {
                    Ok((key, key_end)) => {
                        let key_bytes = input.subrange(next, key_end);
                        if n > 1 && !key_precedes(previous, key_bytes) {
                            Err(DecodeError::NonCanonicalMapOrder)
                        } else {
                            match spec_value(input, key_end, depth + 1, lim) {
                                Ok((value, end)) => Ok((entries.push((key, value)), end, key_bytes)),
                                Err(e) => Err(e),
                            }
                        }
                    },
                    Err(e) => Err(e),
                }
            },
            Err(e) => Err(e),
        }
    }
}

/// The result of decoding a whole message under `lim`.
pub open spec fn spec_decode_with(input: Seq<u8>, lim: CborLimits) -> Result<Cbor, DecodeError> {
    if input.len() > lim.max_message_bytes {
        Err(DecodeError::MessageTooLarge)
    } else {
        match spec_value(input, 0, 0, lim) {
            Ok((v, end)) => if end != input.len() {
                Err(DecodeError::TrailingBytes)
            } else {
                Ok(v)
            },
            Err(e) => Err(e),
        }
    }
}

/// The result of decoding a whole message under the default bounds.
pub open spec fn spec_decode(input: Seq<u8>) -> Result<Cbor, DecodeError> {
    spec_decode_with(input, default_limits())
}

/// Whether an exec parse result agrees with a parse specification.
pub open spec fn arg_agrees(r: Result<(u64, usize), DecodeError>, s: Result<(u64, int), DecodeError>) -> bool {
    match (r, s) {
        (Ok((a, o)), Ok((b, p))) => a == b && o == p,
        (Err(e), Err(f)) => e == f,
        _ => false,
    }
}

/// Whether an exec parse result agrees with a parse specification.
pub open spec fn value_agrees(r: Result<(CborValue, usize), DecodeError>, s: Result<(Cbor, int), DecodeError>) -> bool {
    match (r, s) {
        (Ok((a, o)), Ok((b, p))) => a@ == b && o == p,
        (Err(e), Err(f)) => e == f,
        _ => false,
    }
}

proof fn lemma_bytes_before_skip(a: Seq<u8>, b: Seq<u8>, i: int)
    requires
        0 <= i <= a.len(),
        i <= b.len(),
        a.subrange(0, i) == b.subrange(0, i),
    ensures
        bytes_before(a, b) == bytes_before(a.subrange(i, a.len() as int), b.subrange(i, b.len() as int)),
    decreases i,
{
    if i == 0 {
        assert(a.subrange(0, a.len() as int) =~= a);
        assert(b.subrange(0, b.len() as int) =~= b);
    } else {
        assert(a[0] == a.subrange(0, i)[0]);
        assert(b[0] == b.subrange(0, i)[0]);
        assert(a.drop_first().subrange(0, i - 1) =~= a.subrange(0, i).drop_first());
        assert(b.drop_first().subrange(0, i - 1) =~= b.subrange(0, i).drop_first());
        lemma_bytes_before_skip(a.drop_first(), b.drop_first(), i - 1);
        assert(a.drop_first().subrange(i - 1, a.len() - 1) =~= a.subrange(i, a.len() as int));
        assert(b.drop_first().subrange(i - 1, b.len() - 1) =~= b.subrange(i, b.len() as int));
    }
}

/// Executable deterministic map-key order.
fn key_precedes_exec(a: &[u8], b: &[u8]) -> (r: bool)
    ensures
        r == key_precedes(a@, b@),
{
    if a.len() != b.len() {
        return a.len() < b.len();
    }
    let mut i: usize = 0;
    while i < a.len()
        invariant
            a@.len() == b@.len(),
            i <= a@.len(),
            a@.subrange(0, i as int) == b@.subrange(0, i as int),
        decreases a@.len() - i,
    {
        if a[i] != b[i] {
            proof {
                lemma_bytes_before_skip(a@, b@, i as int);
                let sa = a@.subrange(i as int, a@.len() as int);
                let sb = b@.subrange(i as int, b@.len() as int);
                assert(sa[0] == a@[i as int]);
                assert(sb[0] == b@[i as int]);
            }
            return a[i] < b[i];
        }
        proof {
            assert(a@.subrange(0, i + 1) =~= a@.subrange(0, i as int).push(a@[i as int]));
            assert(b@.subrange(0, i + 1) =~= b@.subrange(0, i as int).push(b@[i as int]));
        }
        i = i + 1;
    }
    proof {
        lemma_bytes_before_skip(a@, b@, i as int);
        assert(a@.subrange(i as int, a@.len() as int).len() == 0);
        assert(b@.subrange(i as int, b@.len() as int).len() == 0);
    }
    false
}

/// Reads the argument of a head; `off` is just after the initial byte.
fn argument(input: &[u8], off: usize, additional: u8) -> (r: Result<(u64, usize), DecodeError>)
    requires
        off <= input@.len(),
    ensures
        arg_agrees(r, spec_argument(input@, off as int, additional)),
{
    let len: usize = input.len();
    if additional <= 23 {
        Ok((additional as u64, off))
    } else if additional == 24 {
        if off >= len {
            return Err(DecodeError::UnexpectedEof);
        }
        let v: u8 = input[off];
        if v >= 24 {
            Ok((v as u64, off + 1))
        } else {
            Err(DecodeError::NonCanonicalInteger)
        }
    } else if additional == 25 || additional == 26 || additional == 27 {
        let width: usize = if additional == 25 { 2 } else if additional == 26 { 4 } else { 8 };
        let floor: u64 = if additional == 25 { 0x100 } else if additional == 26 { 0x1_0000 } else { 0x1_0000_0000 };
        if len - off < width {
            return Err(DecodeError::UnexpectedEof);
        }
        let v: u64 = read_be(input, off, width);
        if v >= floor {
            Ok((v, off + width))
        } else {
            Err(DecodeError::NonCanonicalInteger)
        }
    } else {
        Err(DecodeError::IndefiniteLength)
    }
}

/// Reads a length argument bounded by `max`.
fn length(input: &[u8], off: usize, additional: u8, max: usize, kind: CollectionKind) -> (r: Result<(usize, usize), DecodeError>)
    requires
        off <= input@.len(),
    ensures
        match (r, spec_length(input@, off as int, additional, max, kind)) {
            (Ok((a, o)), Ok((b, p))) => a == b && o == p,
            (Err(e), Err(f)) => e == f,
            _ => false,
        },
{
    match argument(input, off, additional) {
        Ok((n, next)) => {
            if n > max as u64 {
                Err(DecodeError::CollectionTooLarge { kind })
            } else {
                Ok((n as usize, next))
            }
        },
        Err(e) => Err(e),
    }
}

/// The UTF-8 text that `bytes` encodes, if they are valid UTF-8.
#[verifier::external_body]
fn utf8_text(bytes: &[u8]) -> (r: Option<String>)
    ensures
        r is Some <==> valid_utf8(bytes@),
        r matches Some(t) ==> t@ == decode_utf8(bytes@),
{
    String::from_utf8(bytes.to_vec()).ok()
}

/// Parses one value at `off` and nesting `depth`.
fn parse_value(input: &[u8], off: usize, depth: usize, lim: &CborLimits) -> (r: Result<(CborValue, usize), DecodeError>)
    requires
        off <= input@.len(),
        depth <= off,
    ensures
        value_agrees(r, spec_value(input@, off as int, depth as int, *lim)),
        r matches Ok((_, end)) ==> off < end <= input@.len(),
    decreases lim.max_nesting + 1 - depth, 1int, 0int,
{
    let len: usize = input.len();
    if depth > lim.max_nesting {
        return Err(DecodeError::NestingTooDeep);
    }
    if off >= len {
        return Err(DecodeError::UnexpectedEof);
    }
    let initial: u8 = input[off];
    let major: u8 = initial / 32;
    let additional: u8 = initial % 32;
    if additional == 31 {
        return Err(DecodeError::IndefiniteLength);
    }
    if major == 0 {
        match argument(input, off + 1, additional) {
            Ok((n, next)) => Ok((CborValue::Unsigned(n), next)),
            Err(e) => Err(e),
        }
    } else if major == 1 {
        match argument(input, off + 1, additional) {
            Ok((n, next)) => {
                if n <= 0x7fff_ffff_ffff_ffff {
                    let m: i64 = n as i64;
                    Ok((CborValue::Negative(-1 - m), next))
                } else {
                    Err(DecodeError::IntegerOutOfRange)
                }
            },
            Err(e) => Err(e),
        }
    } else if major == 2 {
        match length(input, off + 1, additional, lim.max_byte_string_bytes, CollectionKind::ByteString) {
            Ok((n, next)) => {
                if len - next < n {
                    Err(DecodeError::UnexpectedEof)
                } else {
                    let bytes = copy_bytes(&input[next..next + n]);
                    Ok((CborValue::Bytes(bytes), next + n))
                }
            },
            Err(e) => Err(e),
        }
    } else if major == 3 {
        match length(input, off + 1, additional, lim.max_text_string_bytes, CollectionKind::TextString) {
            Ok((n, next)) => {
                if len - next < n {
                    Err(DecodeError::UnexpectedEof)
                } else {
                    match utf8_text(&input[next..next + n]) {
                        Some(t) => Ok((CborValue::Text(t), next + n)),
                        None => Err(DecodeError::InvalidUtf8),
                    }
                }
            },
            Err(e) => Err(e),
        }
    } else if major == 4 {
        match length(input, off + 1, additional, lim.max_array_entries, CollectionKind::Array) {
            Ok((n, next)) => match parse_items(input, next, depth, lim, n) {
                Ok((items, end)) => Ok((CborValue::Array(items), end)),
                Err(e) => Err(e),
            },
            Err(e) => Err(e),
        }
    } else if major == 5 {
        match length(input, off + 1, additional, lim.max_map_entries, CollectionKind::Entries) {
            Ok((n, next)) => match parse_entries(input, next, depth, lim, n) {
                Ok((entries, end)) => Ok((CborValue::Entries(entries), end)),
                Err(e) => Err(e),
            },
            Err(e) => Err(e),
        }
    } else if major == 7 {
        if additional == 20 {
            Ok((CborValue::Bool(false), off + 1))
        } else if additional == 21 {
            Ok((CborValue::Bool(true), off + 1))
        } else if additional == 22 {
            Ok((CborValue::Null, off + 1))
        } else {
            Err(DecodeError::UnsupportedType)
        }
    } else {
        Err(DecodeError::UnsupportedType)
    }
}

proof fn lemma_items_error_persists(input: Seq<u8>, off: int, depth: int, lim: CborLimits, k: nat, n: nat)
    requires
        k <= n,
        spec_items(input, off, depth, lim, k) is Err,
    ensures
        spec_items(input, off, depth, lim, n) == spec_items(input, off, depth, lim, k),
    decreases n - k,
{
    if k < n {
        lemma_items_error_persists(input, off, depth, lim, k, (n - 1) as nat);
    }
}

proof fn lemma_entries_error_persists(input: Seq<u8>, off: int, depth: int, lim: CborLimits, k: nat, n: nat)
    requires
        k <= n,
        spec_entries(input, off, depth, lim, k) is Err,
    ensures
        spec_entries(input, off, depth, lim, n) == spec_entries(input, off, depth, lim, k),
    decreases n - k,
{
    if k < n {
        lemma_entries_error_persists(input, off, depth, lim, k, (n - 1) as nat);
    }
}

/// Parses the `n` children of an array at nesting `depth`.
fn parse_items(input: &[u8], start: usize, depth: usize, lim: &CborLimits, n: usize) -> (r: Result<(Vec<CborValue>, usize), DecodeError>)
    requires
        start <= input@.len(),
        depth < start,
        depth <= lim.max_nesting,
    ensures
        match (r, spec_items(input@, start as int, depth as int, *lim, n as nat)) {
            (Ok((a, o)), Ok((b, p))) => models(a@) == b && o == p && start <= o <= input@.len(),
            (Err(e), Err(f)) => e == f,
            _ => false,
        },
    decreases lim.max_nesting + 1 - depth, 0int, n,
{
    let len: usize = input.len();
    let mut items: Vec<CborValue> = Vec::new();
    let mut cur: usize = start;
    let mut i: usize = 0;
    while i < n
        invariant
            i <= n,
            len == input@.len(),
            start <= cur <= len,
            depth < start,
            depth <= lim.max_nesting,
            spec_items(input@, start as int, depth as int, *lim, i as nat) == Ok::<(Seq<Cbor>, int), DecodeError>((models(items@), cur as int)),
        decreases n - i,
    {
        let ghost before = items@;
        match parse_value(input, cur, depth + 1, lim) {
            Ok((item, end)) => {
                items.push(item);
                proof {
                    assert(items@.drop_last() =~= before);
                }
                cur = end;
            },
            Err(e) => {
                proof {
                    lemma_items_error_persists(input@, start as int, depth as int, *lim, (i + 1) as nat, n as nat);
                }
                return Err(e);
            },
        }
        i = i + 1;
    }
    Ok((items, cur))
}

/// Parses the `n` entries of a map at nesting `depth`, rejecting keys that
/// are not in strictly increasing deterministic order.
fn parse_entries(input: &[u8], start: usize, depth: usize, lim: &CborLimits, n: usize) -> (r: Result<(Vec<(CborValue, CborValue)>, usize), DecodeError>)
    requires
        start <= input@.len(),
        depth < start,
        depth <= lim.max_nesting,
    ensures
        match (r, spec_entries(input@, start as int, depth as int, *lim, n as nat)) {
            (Ok((a, o)), Ok((b, p, _))) => pair_models(a@) == b && o == p && start <= o <= input@.len(),
            (Err(e), Err(f)) => e == f,
            _ => false,
        },
    decreases lim.max_nesting + 1 - depth, 0int, n,
{
    let len: usize = input.len();
    let mut entries: Vec<(CborValue, CborValue)> = Vec::new();
    let mut cur: usize = start;
    let mut prev_start: usize = start;
    let mut prev_end: usize = start;
    let mut i: usize = 0;
    proof {
        assert(input@.subrange(start as int, start as int) =~= Seq::<u8>::empty());
    }
    while i < n
        invariant
            i <= n,
            len == input@.len(),
            start <= cur <= len,
            prev_start <= prev_end <= len,
            depth < start,
            depth <= lim.max_nesting,
            spec_entries(input@, start as int, depth as int, *lim, i as nat) == Ok::<(Seq<(Cbor, Cbor)>, int, Seq<u8>), DecodeError>(
                (pair_models(entries@), cur as int, input@.subrange(prev_start as int, prev_end as int))),
        decreases n - i,
    {
        let ghost before = entries@;
        let key_start: usize = cur;
        match parse_value(input, cur, depth + 1, lim) {
            Ok((key, key_end)) => {
                if i > 0 && !key_precedes_exec(&input[prev_start..prev_end], &input[key_start..key_end]) {
                    proof {
                        lemma_entries_error_persists(input@, start as int, depth as int, *lim, (i + 1) as nat, n as nat);
                    }
                    return Err(DecodeError::NonCanonicalMapOrder);
                }
                match parse_value(input, key_end, depth + 1, lim) {
                    Ok((value, end)) => {
                        entries.push((key, value));
                        proof {
                            assert(entries@.drop_last() =~= before);
                        }
                        prev_start = key_start;
                        prev_end = key_end;
                        cur = end;
                    },
                    Err(e) => {
                        proof {
                            lemma_entries_error_persists(input@, start as int, depth as int, *lim, (i + 1) as nat, n as nat);
                        }
                        return Err(e);
                    },
                }
            },
            Err(e) => {
                proof {
                    lemma_entries_error_persists(input@, start as int, depth as int, *lim, (i + 1) as nat, n as nat);
                }
                return Err(e);
            },
        }
        i = i + 1;
    }
    Ok((entries, cur))
}

/// Decodes one fully-consumed deterministic-CBOR value under the default
/// bounds.
pub fn decode(input: &[u8]) -> (r: Result<CborValue, DecodeError>)
    ensures
        decode_agrees(r, spec_decode(input@)),
{
    let lim = CborLimits::default();
    decode_with_limits(input, lim)
}

/// Whether an exec decoding result agrees with its specification.
pub open spec fn decode_agrees(r: Result<CborValue, DecodeError>, s: Result<Cbor, DecodeError>) -> bool {
    match (r, s) {
        (Ok(a), Ok(b)) => a@ == b,
        (Err(e), Err(f)) => e == f,
        _ => false,
    }
}

/// Decodes one fully-consumed deterministic-CBOR value under `limits`.
pub fn decode_with_limits(input: &[u8], limits: CborLimits) -> (r: Result<CborValue, DecodeError>)
    ensures
        decode_agrees(r, spec_decode_with(input@, limits)),
{
    if input.len() > limits.max_message_bytes {
        return Err(DecodeError::MessageTooLarge);
    }
    match parse_value(input, 0, 0, &limits) {
        Ok((v, end)) => {
            if end != input.len() {
                Err(DecodeError::TrailingBytes)
            } else {
                Ok(v)
            }
        },
        Err(e) => Err(e),
    }
}

// ---------------------------------------------------------------------------
// Encoding, as a function on models.
// ---------------------------------------------------------------------------

/// The `n` low-order bytes of `v`, most significant first.
pub open spec fn be_bytes(v: nat, n: nat) -> Seq<u8>
    decreases n,
{
    if n == 0 {
        Seq::empty()
    } else {
        be_bytes(v / 256, (n - 1) as nat).push((v % 256) as u8)
    }
}

/// The shortest head for major type `major` and argument `v`.
pub open spec fn spec_head(major: u8, v: u64) -> Seq<u8> {
    let m: int = major as int * 32;
    if v <= 23 {
        seq![(m + v) as u8]
    } else if v <= 0xff {
        seq![(m + 24) as u8, v as u8]
    } else if v <= 0xffff {
        seq![(m + 25) as u8] + be_bytes(v as nat, 2)
    } else if v <= 0xffff_ffff {
        seq![(m + 26) as u8] + be_bytes(v as nat, 4)
    } else {
        seq![(m + 27) as u8] + be_bytes(v as nat, 8)
    }
}

/// Whether two of the given key encodings are equal.
pub open spec fn has_duplicate(keys: Seq<Seq<u8>>) -> bool {
    exists|i: int, j: int| 0 <= i < j < keys.len() && keys[i] == keys[j]
}

/// Inserts index `x` into `sorted` before the first index whose key `x`'s key
/// precedes.
pub open spec fn insert_by_key(sorted: Seq<int>, keys: Seq<Seq<u8>>, x: int) -> Seq<int>
    decreases sorted.len(),
{
    if sorted.len() == 0 {
        seq![x]
    } else if key_precedes(keys[x], keys[sorted[0]]) {
        seq![x] + sorted
    } else {
        seq![sorted[0]] + insert_by_key(sorted.drop_first(), keys, x)
    }
}

/// The indices `0..n` ordered by their key encodings (stable).
pub open spec fn key_order(keys: Seq<Seq<u8>>, n: nat) -> Seq<int>
    decreases n,
{
    if n == 0 {
        Seq::empty()
    } else {
        insert_by_key(key_order(keys, (n - 1) as nat), keys, n - 1)
    }
}

/// Encoding without the final profile check.
pub open spec fn spec_encode_raw(v: Cbor) -> Result<Seq<u8>, EncodeError>
    decreases v, 0int,
{
    match v {
        Cbor::Unsigned(n) => Ok(spec_head(0, n)),
        Cbor::Negative(n) => if n >= 0 {
            Err(EncodeError::IntegerOutOfRange)
        } else {
            Ok(spec_head(1, (-1 - n) as u64))
        },
        Cbor::Bytes(b) => if b.len() > u64::MAX {
            Err(EncodeError::LengthOutOfRange)
        } else {
            Ok(spec_head(2, b.len() as u64) + b)
        },
        Cbor::Text(t) => if encode_utf8(t).len() > u64::MAX {
            Err(EncodeError::LengthOutOfRange)
        } else {
            Ok(spec_head(3, encode_utf8(t).len() as u64) + encode_utf8(t))
        },
        Cbor::Array(items) => if items.len() > u64::MAX {
            Err(EncodeError::LengthOutOfRange)
        } else {
            match spec_encode_items(items, items.len()) {
                Ok(b) => Ok(spec_head(4, items.len() as u64) + b),
                Err(e) => Err(e),
            }
        },
        Cbor::Entries(entries) => match spec_key_encodings(entries, entries.len()) {
            Err(e) => Err(e),
            Ok(keys) => if has_duplicate(keys) {
                Err(EncodeError::DuplicateMapKey)
            } else if entries.len() > u64::MAX {
                Err(EncodeError::LengthOutOfRange)
            } else {
                match spec_encode_pairs(entries, key_order(keys, entries.len()), entries.len()) {
                    Ok(b) => Ok(spec_head(5, entries.len() as u64) + b),
                    Err(e) => Err(e),
                }
            },
        },
        Cbor::Bool(false) => Ok(seq![0xf4u8]),
        Cbor::Bool(true) => Ok(seq![0xf5u8]),
        Cbor::Null => Ok(seq![0xf6u8]),
    }
}

/// The encoding of a value, accepted only when the profile decoder accepts
/// it under the default bounds.
pub open spec fn spec_encode(v: Cbor) -> Result<Seq<u8>, EncodeError>
    decreases v, 1int,
{
    match spec_encode_raw(v) {
        Ok(b) => match spec_decode(b) {
            Ok(_) => Ok(b),
            Err(e) => Err(EncodeError::Profile(e)),
        },
        Err(e) => Err(e),
    }
}

/// The concatenated encodings of the first `n` items.
pub open spec fn spec_encode_items(items: Seq<Cbor>, n: nat) -> Result<Seq<u8>, EncodeError>
    decreases items, n,
{
    if n == 0 || n > items.len() {
        Ok(Seq::empty())
    } else {
        match spec_encode_items(items, (n - 1) as nat) {
            Ok(b) => match spec_encode_raw(items[n - 1]) {
                Ok(c) => Ok(b + c),
                Err(e) => Err(e),
            },
            Err(e) => Err(e),
        }
    }
}

/// The profile-checked encodings of the first `n` keys, in entry order.
pub open spec fn spec_key_encodings(entries: Seq<(Cbor, Cbor)>, n: nat) -> Result<Seq<Seq<u8>>, EncodeError>
    decreases entries, n,
{
    if n == 0 || n > entries.len() {
        Ok(Seq::empty())
    } else {
        match spec_key_encodings(entries, (n - 1) as nat) {
            Ok(keys) => match spec_encode(entries[n - 1].0) {
                Ok(k) => Ok(keys.push(k)),
                Err(e) => Err(e),
            },
            Err(e) => Err(e),
        }
    }
}

/// The concatenated key/value encodings of the entries at positions
/// `order[0..n]`.
pub open spec fn spec_encode_pairs(entries: Seq<(Cbor, Cbor)>, order: Seq<int>, n: nat) -> Result<Seq<u8>, EncodeError>
    decreases entries, n,
{
    if n == 0 || n > order.len() {
        Ok(Seq::empty())
    } else if order[n - 1] < 0 || order[n - 1] >= entries.len() {
        Ok(Seq::empty())
    } else {
        match spec_encode_pairs(entries, order, (n - 1) as nat) {
            Ok(b) => match spec_encode_raw(entries[order[n - 1]].0) {
                Ok(k) => match spec_encode_raw(entries[order[n - 1]].1) {
                    Ok(v) => Ok(b + k + v),
                    Err(e) => Err(e),
                },
                Err(e) => Err(e),
            },
            Err(e) => Err(e),
        }
    }
}

// ---------------------------------------------------------------------------
// Executable encoding.
// ---------------------------------------------------------------------------

pub proof fn lemma_models(s: Seq<CborValue>)
    ensures
        models(s).len() == s.len(),
        forall|i: int| 0 <= i < s.len() ==> #[trigger] models(s)[i] == s[i]@,
    decreases s.len(),
{
    if s.len() > 0 {
        lemma_models(s.drop_last());
        assert forall|i: int| 0 <= i < s.len() implies #[trigger] models(s)[i] == s[i]@ by {
            if i < s.len() - 1 {
                assert(s.drop_last()[i] == s[i]);
            }
        }
    }
}

pub proof fn lemma_pair_models(s: Seq<(CborValue, CborValue)>)
    ensures
        pair_models(s).len() == s.len(),
        forall|i: int| 0 <= i < s.len() ==> #[trigger] pair_models(s)[i] == (s[i].0@, s[i].1@),
    decreases s.len(),
{
    if s.len() > 0 {
        lemma_pair_models(s.drop_last());
        assert forall|i: int| 0 <= i < s.len() implies #[trigger] pair_models(s)[i] == (s[i].0@, s[i].1@) by {
            if i < s.len() - 1 {
                assert(s.drop_last()[i] == s[i]);
            }
        }
    }
}

/// Whether an exec encoding step agrees with its specification: on success
/// the output grew by exactly the specified bytes.
pub open spec fn appended(r: Result<(), EncodeError>, s: Result<Seq<u8>, EncodeError>, before: Seq<u8>, after: Seq<u8>) -> bool {
    match s {
        Ok(b) => r is Ok && after == before + b,
        Err(e) => r == Err::<(), EncodeError>(e),
    }
}

/// The views of a sequence of byte vectors.
pub open spec fn byte_views(s: Seq<Vec<u8>>) -> Seq<Seq<u8>> {
    s.map_values(|v: Vec<u8>| v@)
}

pub(crate) fn append_bytes(out: &mut Vec<u8>, b: &[u8])
    ensures
        final(out)@ == old(out)@ + b@,
{
    let mut i: usize = 0;
    let ghost start = out@;
    while i < b.len()
        invariant
            i <= b@.len(),
            out@ == start + b@.subrange(0, i as int),
        decreases b@.len() - i,
    {
        out.push(b[i]);
        proof {
            assert(out@ =~= start + b@.subrange(0, i + 1));
        }
        i = i + 1;
    }
    proof {
        assert(b@.subrange(0, b@.len() as int) =~= b@);
    }
}

pub(crate) fn push_be(v: u64, n: usize, out: &mut Vec<u8>)
    requires
        n <= 8,
    ensures
        final(out)@ == old(out)@ + be_bytes(v as nat, n as nat),
    decreases n,
{
    if n > 0 {
        let ghost start = out@;
        push_be(v / 256, n - 1, out);
        out.push((v % 256) as u8);
        proof {
            assert(out@ =~= start + be_bytes(v as nat, n as nat));
        }
    } else {
        proof {
            assert(out@ =~= out@ + be_bytes(v as nat, n as nat));
        }
    }
}

/// Appends the shortest head for `major` and `value`.
fn write_head(major: u8, value: u64, out: &mut Vec<u8>)
    requires
        major <= 7,
    ensures
        final(out)@ == old(out)@ + spec_head(major, value),
{
    let ghost start = out@;
    let m: u8 = major * 32;
    if value <= 23 {
        out.push(m + value as u8);
        proof {
            assert(out@ =~= start + spec_head(major, value));
        }
    } else if value <= 0xff {
        out.push(m + 24);
        out.push(value as u8);
        proof {
            assert(out@ =~= start + spec_head(major, value));
        }
    } else if value <= 0xffff {
        out.push(m + 25);
        let ghost mid = out@;
        push_be(value, 2, out);
        proof {
            assert(out@ =~= start + spec_head(major, value));
        }
    } else if value <= 0xffff_ffff {
        out.push(m + 26);
        push_be(value, 4, out);
        proof {
            assert(out@ =~= start + spec_head(major, value));
        }
    } else {
        out.push(m + 27);
        push_be(value, 8, out);
        proof {
            assert(out@ =~= start + spec_head(major, value));
        }
    }
}

proof fn lemma_items_encoding_error_persists(items: Seq<Cbor>, k: nat, n: nat)
    requires
        k <= n <= items.len(),
        spec_encode_items(items, k) is Err,
    ensures
        spec_encode_items(items, n) == spec_encode_items(items, k),
    decreases n - k,
{
    if k < n {
        lemma_items_encoding_error_persists(items, k, (n - 1) as nat);
    }
}

proof fn lemma_key_encodings_error_persists(entries: Seq<(Cbor, Cbor)>, k: nat, n: nat)
    requires
        k <= n <= entries.len(),
        spec_key_encodings(entries, k) is Err,
    ensures
        spec_key_encodings(entries, n) == spec_key_encodings(entries, k),
    decreases n - k,
{
    if k < n {
        lemma_key_encodings_error_persists(entries, k, (n - 1) as nat);
    }
}

proof fn lemma_pairs_encoding_error_persists(entries: Seq<(Cbor, Cbor)>, order: Seq<int>, k: nat, n: nat)
    requires
        k <= n <= order.len(),
        forall|q: int| 0 <= q < order.len() ==> 0 <= #[trigger] order[q] < entries.len(),
        spec_encode_pairs(entries, order, k) is Err,
    ensures
        spec_encode_pairs(entries, order, n) == spec_encode_pairs(entries, order, k),
    decreases n - k,
{
    if k < n {
        lemma_pairs_encoding_error_persists(entries, order, k, (n - 1) as nat);
    }
}

/// Appends the encodings of all items of an array.
fn encode_array_items(items: &Vec<CborValue>, output: &mut Vec<u8>) -> (r: Result<(), EncodeError>)
    ensures
        appended(r, spec_encode_items(models(items@), items@.len()), old(output)@, final(output)@),
    decreases items, 0int,
{
    let ghost ms = models(items@);
    proof {
        lemma_models(items@);
    }
    let ghost start = output@;
    let mut i: usize = 0;
    while i < items.len()
        invariant
            i <= items@.len(),
            ms == models(items@),
            ms.len() == items@.len(),
            forall|j: int| 0 <= j < items@.len() ==> #[trigger] ms[j] == items@[j]@,
            spec_encode_items(ms, i as nat) matches Ok(b) && output@ == start + b,
        decreases items@.len() - i,
    {
        let ghost before = output@;
        proof {
            assert(decreases_to!(items@ => items@[i as int]));
        }
        match encode_into(&items[i], output) {
            Ok(()) => {
                proof {
                    let b = spec_encode_items(ms, i as nat)->Ok_0;
                    let c = spec_encode_raw(ms[i as int]);
                    assert(output@ =~= start + (b + c->Ok_0));
                }
            },
            Err(e) => {
                proof {
                    lemma_items_encoding_error_persists(ms, (i + 1) as nat, items@.len());
                }
                return Err(e);
            },
        }
        i = i + 1;
    }
    Ok(())
}

/// The profile-checked encodings of every key, in entry order.
fn key_encodings(entries: &Vec<(CborValue, CborValue)>) -> (r: Result<Vec<Vec<u8>>, EncodeError>)
    ensures
        match spec_key_encodings(pair_models(entries@), entries@.len()) {
            Ok(keys) => r matches Ok(v) && byte_views(v@) == keys,
            Err(e) => r == Err::<Vec<Vec<u8>>, EncodeError>(e),
        },
    decreases entries, 0int,
{
    let ghost pm = pair_models(entries@);
    proof {
        lemma_pair_models(entries@);
    }
    let mut keys: Vec<Vec<u8>> = Vec::new();
    let mut i: usize = 0;
    proof {
        assert(byte_views(keys@) =~= Seq::<Seq<u8>>::empty());
    }
    while i < entries.len()
        invariant
            i <= entries@.len(),
            pm == pair_models(entries@),
            pm.len() == entries@.len(),
            forall|j: int| 0 <= j < entries@.len() ==> #[trigger] pm[j] == (entries@[j].0@, entries@[j].1@),
            spec_key_encodings(pm, i as nat) == Ok::<Seq<Seq<u8>>, EncodeError>(byte_views(keys@)),
        decreases entries@.len() - i,
    {
        proof {
            assert(decreases_to!(entries@ => entries@[i as int]));
        }
        match encode(&entries[i].0) {
            Ok(k) => {
                let ghost before = keys@;
                keys.push(k);
                proof {
                    assert(byte_views(keys@) =~= byte_views(before).push(k@));
                }
            },
            Err(e) => {
                proof {
                    lemma_key_encodings_error_persists(pm, (i + 1) as nat, entries@.len());
                }
                return Err(e);
            },
        }
        i = i + 1;
    }
    Ok(keys)
}

/// The key encodings of the first `n` entries number `n`.
pub proof fn lemma_key_encodings_len(entries: Seq<(Cbor, Cbor)>, n: nat)
    requires
        n <= entries.len(),
        spec_key_encodings(entries, n) is Ok,
    ensures
        spec_key_encodings(entries, n)->Ok_0.len() == n,
    decreases n,
{
    if n > 0 {
        lemma_key_encodings_len(entries, (n - 1) as nat);
    }
}

/// Whether two byte slices are equal.
pub(crate) fn same_bytes(a: &[u8], b: &[u8]) -> (r: bool)
    ensures
        r == (a@ == b@),
{
    if a.len() != b.len() {
        return false;
    }
    let mut i: usize = 0;
    while i < a.len()
        invariant
            a@.len() == b@.len(),
            i <= a@.len(),
            forall|j: int| 0 <= j < i ==> a@[j] == b@[j],
        decreases a@.len() - i,
    {
        if a[i] != b[i] {
            return false;
        }
        i = i + 1;
    }
    proof {
        assert(a@ =~= b@);
    }
    true
}

/// Whether two of the key encodings are equal.
fn has_duplicate_exec(keys: &Vec<Vec<u8>>) -> (r: bool)
    ensures
        r == has_duplicate(byte_views(keys@)),
{
    let ghost ks = byte_views(keys@);
    let n: usize = keys.len();
    let mut i: usize = 0;
    while i < n
        invariant
            n == keys@.len(),
            ks == byte_views(keys@),
            i <= n,
            forall|a: int, b: int| 0 <= a < i && a < b < n ==> ks[a] != ks[b],
        decreases n - i,
    {
        let mut j: usize = i + 1;
        while j < n
            invariant
                n == keys@.len(),
                ks == byte_views(keys@),
                i < n,
                i + 1 <= j <= n,
                forall|a: int, b: int| 0 <= a < i && a < b < n ==> ks[a] != ks[b],
                forall|b: int| i < b < j ==> ks[i as int] != ks[b],
            decreases n - j,
        {
            if same_bytes(keys[i].as_slice(), keys[j].as_slice()) {
                proof {
                    assert(ks[i as int] == keys@[i as int]@);
                    assert(ks[j as int] == keys@[j as int]@);
                    assert(ks[i as int] == ks[j as int]);
                }
                return true;
            }
            j = j + 1;
        }
        i = i + 1;
    }
    false
}

pub proof fn lemma_insert_by_key_at(s: Seq<int>, keys: Seq<Seq<u8>>, x: int, p: int)
    requires
        0 <= p <= s.len(),
        forall|q: int| 0 <= q < p ==> !key_precedes(keys[x], keys[#[trigger] s[q]]),
        p < s.len() ==> key_precedes(keys[x], keys[s[p]]),
    ensures
        insert_by_key(s, keys, x) == s.subrange(0, p) + seq![x] + s.subrange(p, s.len() as int),
    decreases p,
{
    if p == 0 {
        if s.len() == 0 {
            assert(insert_by_key(s, keys, x) =~= s.subrange(0, p) + seq![x] + s.subrange(p, s.len() as int));
        } else {
            assert(insert_by_key(s, keys, x) =~= s.subrange(0, p) + seq![x] + s.subrange(p, s.len() as int));
        }
    } else {
        let t = s.drop_first();
        assert forall|q: int| 0 <= q < p - 1 implies !key_precedes(keys[x], keys[#[trigger] t[q]]) by {
            assert(t[q] == s[q + 1]);
        }
        lemma_insert_by_key_at(t, keys, x, p - 1);
        assert(!key_precedes(keys[x], keys[s[0]]));
        assert(insert_by_key(s, keys, x) =~= s.subrange(0, p) + seq![x] + s.subrange(p, s.len() as int));
    }
}

/// The entry positions ordered by key encoding.
fn key_order_exec(keys: &Vec<Vec<u8>>) -> (order: Vec<usize>)
    ensures
        order@.len() == keys@.len(),
        forall|q: int| 0 <= q < order@.len() ==> #[trigger] order@[q] < keys@.len(),
        order@.map_values(|u: usize| u as int) == key_order(byte_views(keys@), keys@.len()),
{
    let ghost ks = byte_views(keys@);
    let n: usize = keys.len();
    let mut order: Vec<usize> = Vec::new();
    let mut i: usize = 0;
    proof {
        assert(order@.map_values(|u: usize| u as int) =~= key_order(ks, 0));
    }
    while i < n
        invariant
            n == keys@.len(),
            ks == byte_views(keys@),
            i <= n,
            order@.len() == i,
            forall|q: int| 0 <= q < order@.len() ==> #[trigger] order@[q] < i,
            order@.map_values(|u: usize| u as int) == key_order(ks, i as nat),
        decreases n - i,
    {
        let mut p: usize = 0;
        while p < order.len() && !key_precedes_exec(keys[i].as_slice(), keys[order[p]].as_slice())
            invariant
                n == keys@.len(),
                ks == byte_views(keys@),
                i < n,
                order@.len() == i,
                forall|q: int| 0 <= q < order@.len() ==> #[trigger] order@[q] < i,
                p <= order@.len(),
                forall|q: int| 0 <= q < p ==> !key_precedes(ks[i as int], ks[#[trigger] order@[q] as int]),
            decreases order@.len() - p,
        {
            p = p + 1;
        }
        let ghost s = order@.map_values(|u: usize| u as int);
        proof {
            assert forall|q: int| 0 <= q < p implies !key_precedes(ks[i as int], ks[#[trigger] s[q]]) by {
                assert(s[q] == order@[q] as int);
            }
            if p < s.len() {
                assert(s[p as int] == order@[p as int] as int);
            }
            lemma_insert_by_key_at(s, ks, i as int, p as int);
        }
        let ghost old_order = order@;
        order.insert(p, i);
        proof {
            assert(order@.map_values(|u: usize| u as int) =~= s.subrange(0, p as int) + seq![i as int] + s.subrange(p as int, s.len() as int));
            assert forall|q: int| 0 <= q < order@.len() implies #[trigger] order@[q] < i + 1 by {
                if q < p {
                    assert(order@[q] == old_order[q]);
                } else if q > p {
                    assert(order@[q] == old_order[q - 1]);
                }
            }
        }
        i = i + 1;
    }
    order
}

/// Appends the key/value encodings in the given entry order.
fn encode_pairs(entries: &Vec<(CborValue, CborValue)>, order: &Vec<usize>, output: &mut Vec<u8>) -> (r: Result<(), EncodeError>)
    requires
        forall|q: int| 0 <= q < order@.len() ==> #[trigger] order@[q] < entries@.len(),
    ensures
        appended(r, spec_encode_pairs(pair_models(entries@), order@.map_values(|u: usize| u as int), order@.len()), old(output)@, final(output)@),
    decreases entries, 0int,
{
    let ghost pm = pair_models(entries@);
    let ghost ord = order@.map_values(|u: usize| u as int);
    proof {
        lemma_pair_models(entries@);
    }
    let ghost start = output@;
    let mut p: usize = 0;
    while p < order.len()
        invariant
            p <= order@.len(),
            pm == pair_models(entries@),
            pm.len() == entries@.len(),
            ord == order@.map_values(|u: usize| u as int),
            forall|q: int| 0 <= q < order@.len() ==> #[trigger] order@[q] < entries@.len(),
            forall|j: int| 0 <= j < entries@.len() ==> #[trigger] pm[j] == (entries@[j].0@, entries@[j].1@),
            spec_encode_pairs(pm, ord, p as nat) matches Ok(b) && output@ == start + b,
        decreases order@.len() - p,
    {
        let idx: usize = order[p];
        proof {
            assert(ord[p as int] == idx as int);
            assert forall|q: int| 0 <= q < ord.len() implies 0 <= #[trigger] ord[q] < pm.len() by {
                assert(ord[q] == order@[q] as int);
            }
            assert(decreases_to!(entries@ => entries@[idx as int]));
        }
        let ghost b = spec_encode_pairs(pm, ord, p as nat)->Ok_0;
        match encode_into(&entries[idx].0, output) {
            Ok(()) => {},
            Err(e) => {
                proof {
                    lemma_pairs_encoding_error_persists(pm, ord, (p + 1) as nat, order@.len());
                }
                return Err(e);
            },
        }
        let ghost mid = output@;
        match encode_into(&entries[idx].1, output) {
            Ok(()) => {
                proof {
                    let k = spec_encode_raw(pm[idx as int].0)->Ok_0;
                    let v = spec_encode_raw(pm[idx as int].1)->Ok_0;
                    assert(output@ =~= start + (b + k + v));
                }
            },
            Err(e) => {
                proof {
                    lemma_pairs_encoding_error_persists(pm, ord, (p + 1) as nat, order@.len());
                }
                return Err(e);
            },
        }
        p = p + 1;
    }
    Ok(())
}

/// Appends the encoding of a map: keys are encoded and checked against the
/// profile, duplicates are rejected, and entries are written in key order.
fn encode_entries(entries: &Vec<(CborValue, CborValue)>, output: &mut Vec<u8>) -> (r: Result<(), EncodeError>)
    ensures
        appended(r, spec_encode_raw(Cbor::Entries(pair_models(entries@))), old(output)@, final(output)@),
    decreases entries, 1int,
{
    proof {
        lemma_pair_models(entries@);
    }
    let keys = match key_encodings(entries) {
        Ok(keys) => keys,
        Err(e) => {
            return Err(e);
        },
    };
    proof {
        lemma_key_encodings_len(pair_models(entries@), entries@.len());
        assert(keys@.len() == byte_views(keys@).len());
    }
    if has_duplicate_exec(&keys) {
        return Err(EncodeError::DuplicateMapKey);
    }
    let order = key_order_exec(&keys);
    let ghost start = output@;
    write_head(5, entries.len() as u64, output);
    let ghost mid = output@;
    match encode_pairs(entries, &order, output) {
        Ok(()) => {
            proof {
                let b = spec_encode_pairs(pair_models(entries@), order@.map_values(|u: usize| u as int), order@.len())->Ok_0;
                assert(output@ =~= start + (spec_head(5, entries@.len() as u64) + b));
            }
            Ok(())
        },
        Err(e) => Err(e),
    }
}

/// Appends the encoding of `value` without the final profile check.
fn encode_into(value: &CborValue, output: &mut Vec<u8>) -> (r: Result<(), EncodeError>)
    ensures
        appended(r, spec_encode_raw(value@), old(output)@, final(output)@),
    decreases value, 2int,
{
    let ghost start = output@;
    match value {
        CborValue::Unsigned(n) => {
            write_head(0, *n, output);
            Ok(())
        },
        CborValue::Negative(n) => {
            if *n >= 0 {
                return Err(EncodeError::IntegerOutOfRange);
            }
            let a: i64 = -1 - *n;
            write_head(1, a as u64, output);
            Ok(())
        },
        CborValue::Bytes(b) => {
            write_head(2, b.len() as u64, output);
            append_bytes(output, b.as_slice());
            proof {
                assert(output@ =~= start + (spec_head(2, b@.len() as u64) + b@));
            }
            Ok(())
        },
        CborValue::Text(t) => {
            let bytes: Vec<u8> = t.as_str().as_bytes_vec();
            write_head(3, bytes.len() as u64, output);
            append_bytes(output, bytes.as_slice());
            proof {
                assert(output@ =~= start + (spec_head(3, bytes@.len() as u64) + bytes@));
            }
            Ok(())
        },
        CborValue::Array(items) => {
            write_head(4, items.len() as u64, output);
            proof {
                lemma_models(items@);
            }
            let ghost mid = output@;
            match encode_array_items(items, output) {
                Ok(()) => {
                    proof {
                        let b = spec_encode_items(models(items@), items@.len())->Ok_0;
                        assert(output@ =~= start + (spec_head(4, items@.len() as u64) + b));
                    }
                    Ok(())
                },
                Err(e) => Err(e),
            }
        },
        CborValue::Entries(entries) => encode_entries(entries, output),
        CborValue::Bool(false) => {
            output.push(0xf4);
            proof {
                assert(output@ =~= start + seq![0xf4u8]);
            }
            Ok(())
        },
        CborValue::Bool(true) => {
            output.push(0xf5);
            proof {
                assert(output@ =~= start + seq![0xf5u8]);
            }
            Ok(())
        },
        CborValue::Null => {
            output.push(0xf6);
            proof {
                assert(output@ =~= start + seq![0xf6u8]);
            }
            Ok(())
        },
    }
}

/// Encodes a value according to the RFC 8949 core deterministic profile.
/// Encoding is constrained by the same bounds as decoding, so an in-memory
/// value cannot produce a valid-but-unbounded wire object.
pub fn encode(value: &CborValue) -> (r: Result<Vec<u8>, EncodeError>)
    ensures
        match spec_encode(value@) {
            Ok(b) => r matches Ok(o) && o@ == b,
            Err(e) => r == Err::<Vec<u8>, EncodeError>(e),
        },
    decreases value, 3int,
{
    let mut output: Vec<u8> = Vec::new();
    match encode_into(value, &mut output) {
        Ok(()) => {},
        Err(e) => {
            return Err(e);
        },
    }
    proof {
        assert(output@ =~= Seq::<u8>::empty() + output@);
    }
    match decode(output.as_slice()) {
        Ok(_) => Ok(output),
        Err(e) => Err(EncodeError::Profile(e)),
    }
}

impl View for CborValue {
    type V = Cbor;

    open spec fn view(&self) -> Cbor {
        model(*self)
    }
}

/// Value of a big-endian byte sequence.
pub open spec fn be_value(s: Seq<u8>) -> nat
    decreases s.len(),
{
    if s.len() == 0 {
        0
    } else {
        be_value(s.drop_last()) * 256 + s.last() as nat
    }
}

/// `256` raised to `n`.
pub open spec fn byte_power(n: nat) -> nat
    decreases n,
{
    if n == 0 {
        1
    } else {
        256 * byte_power((n - 1) as nat)
    }
}

pub proof fn lemma_be_value_bound(s: Seq<u8>)
    ensures
        be_value(s) < byte_power(s.len()),
    decreases s.len(),
{
    if s.len() > 0 {
        lemma_be_value_bound(s.drop_last());
    }
}

proof fn lemma_byte_power_monotone(a: nat, b: nat)
    requires
        a <= b,
    ensures
        byte_power(a) <= byte_power(b),
    decreases b - a,
{
    if a < b {
        lemma_byte_power_monotone(a, (b - 1) as nat);
    }
}

proof fn lemma_byte_power_8()
    ensures
        byte_power(8) == 0x1_0000_0000_0000_0000,
{
    reveal_with_fuel(byte_power, 9);
}

pub(crate) fn read_be(input: &[u8], off: usize, n: usize) -> (v: u64)
    requires
        n <= 8,
        off + n <= input@.len(),
    ensures
        v == be_value(input@.subrange(off as int, off + n)),
{
    proof {
        lemma_byte_power_8();
    }
    let len = input.len();
    let mut v: u64 = 0;
    let mut i: usize = 0;
    while i < n
        invariant
            len == input@.len(),
            i <= n <= 8,
            off + n <= input@.len(),
            v == be_value(input@.subrange(off as int, off + i)),
            byte_power(8) == 0x1_0000_0000_0000_0000,
        decreases n - i,
    {
        let ghost prefix = input@.subrange(off as int, off + i + 1);
        assert(prefix.drop_last() =~= input@.subrange(off as int, off + i));
        proof {
            lemma_be_value_bound(prefix);
            lemma_byte_power_monotone((i + 1) as nat, 8);
        }
        v = v * 256 + input[off + i] as u64;
        i = i + 1;
    }
    v
}

} // verus!
