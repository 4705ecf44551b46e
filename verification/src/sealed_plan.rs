//! The decisions of the sealed-plan store: opaque plan handles, the closed
//! vocabulary of child names, content addresses, and the metadata an object,
//! manifest or directory must show before it is trusted. The store that opens
//! descriptors and moves bytes applies these decisions.

use vstd::prelude::*;
use vstd::string::*;
use vstd::utf8::*;
use base64::Engine as Base64Engine;
use crate::digest::{sha256, sha256_digest};

verus! {

/// Largest object or manifest the store accepts, in bytes.
pub const MAX_OBJECT_BYTES: u64 = 134217728;

/// The manifest's file name inside a plan directory.
pub fn manifest_name() -> (r: &'static str)
    ensures
        r@ == "manifest.cbor"@,
{
    "manifest.cbor"
}

/// Fail-closed refusals at the sealed-plan boundary.
#[derive(Debug, Clone, Copy, PartialEq, Eq)]
pub enum SealedPlanError {
    UnsafeRoot,
    InvalidPlanHandle,
    ObjectTooLarge,
    DigestMismatch,
    ObjectCollision,
    PlanAlreadyExists,
    PlanMissing,
}

/// Bytes captured by a trusted planner; the store sees only immutable bytes.
#[derive(Debug, Clone, PartialEq, Eq)]
pub struct SealedObject {
    pub bytes: Vec<u8>,
}

/// What unpadded base64url text decodes to, if it is valid.
pub uninterp spec fn base64url_decoded(text: Seq<u8>) -> Option<Seq<u8>>;

/// Decodes unpadded base64url with the `base64` crate's `URL_SAFE_NO_PAD`
/// engine; the contract names the outcome and claims nothing more of it.
#[verifier::external_body]
fn base64url_decode(text: &[u8]) -> (r: Option<Vec<u8>>)
    ensures
        match r {
            Some(v) => base64url_decoded(text@) == Some(v@),
            None => base64url_decoded(text@) is None,
        },
{
    base64::engine::general_purpose::URL_SAFE_NO_PAD.decode(text).ok()
}

/// Whether a byte is an ASCII letter or digit.
pub open spec fn ascii_alphanumeric(c: u8) -> bool {
    (0x61 <= c <= 0x7a) || (0x41 <= c <= 0x5a) || (0x30 <= c <= 0x39)
}

/// Whether bytes have the shape of a handle: 22 base64url characters.
pub open spec fn handle_shape(b: Seq<u8>) -> bool {
    &&& b.len() == 22
    &&& forall|i: int| 0 <= i < b.len() ==> {
        let c = #[trigger] b[i];
        ascii_alphanumeric(c) || c == 0x5f || c == 0x2d
    }
}

/// Whether text is a plan handle: the unpadded base64url form of 16 bytes.
pub open spec fn valid_plan_handle(t: Seq<char>) -> bool {
    &&& handle_shape(encode_utf8(t))
    &&& base64url_decoded(encode_utf8(t)) matches Some(d) && d.len() == 16
}

/// Whether bytes have the shape of a handle.
pub fn is_handle_shape(b: &[u8]) -> (r: bool)
    ensures
        r == handle_shape(b@),
{
    if b.len() != 22 {
        return false;
    }
    let mut i: usize = 0;
    while i < b.len()
        invariant
            i <= b@.len(),
            forall|j: int| 0 <= j < i ==> {
                let c = #[trigger] b@[j];
                ascii_alphanumeric(c) || c == 0x5f || c == 0x2d
            },
        decreases b@.len() - i,
    {
        let c = b[i];
        if !((0x61 <= c && c <= 0x7a) || (0x41 <= c && c <= 0x5a) || (0x30 <= c && c <= 0x39) || c == 0x5f || c == 0x2d) {
            return false;
        }
        i = i + 1;
    }
    true
}

/// An opaque broker-generated plan reference, never a caller path.
#[derive(Debug, Clone, PartialEq, Eq, PartialOrd, Ord)]
pub struct PlanHandle(String);

impl View for PlanHandle {
    type V = Seq<char>;

    closed spec fn view(&self) -> Seq<char> {
        self.0@
    }
}

impl PlanHandle {
    /// Parses exactly the 22-character unpadded base64url form of 16 bytes.
    pub fn parse(value: &str) -> (r: Result<PlanHandle, SealedPlanError>)
        ensures
            valid_plan_handle(value@) <==> r is Ok,
            r matches Ok(h) ==> h@ == value@,
            r matches Err(e) ==> e == SealedPlanError::InvalidPlanHandle,
    {
        let b = value.as_bytes();
        if !is_handle_shape(b) {
            return Err(SealedPlanError::InvalidPlanHandle);
        }
        let decoded = base64url_decode(b);
        Self::from_decoding(value, decoded)
    }

    /// The handle of text given the text's base64url decoding: accepted
    /// exactly when the text has the handle shape and the decoding is 16
    /// bytes.
    pub fn from_decoding(value: &str, decoded: Option<Vec<u8>>) -> (r: Result<PlanHandle, SealedPlanError>)
        ensures
            (handle_shape(encode_utf8(value@)) && (decoded matches Some(d) && d@.len() == 16)) <==> r is Ok,
            r matches Ok(h) ==> h@ == value@ && handle_shape(encode_utf8(h@)),
            r matches Err(e) ==> e == SealedPlanError::InvalidPlanHandle,
    {
        if !is_handle_shape(value.as_bytes()) {
            return Err(SealedPlanError::InvalidPlanHandle);
        }
        match decoded {
            Some(d) => {
                if d.len() != 16 {
                    return Err(SealedPlanError::InvalidPlanHandle);
                }
            },
            None => {
                return Err(SealedPlanError::InvalidPlanHandle);
            },
        }
        Ok(PlanHandle(value.to_owned()))
    }

    /// The opaque identifier, for broker-owned audit records only.
    pub fn as_str(&self) -> (r: &str)
        ensures
            r@ == self@,
    {
        self.0.as_str()
    }
}

/// Whether bytes are a safe single path component: 1 to 64 ASCII letters,
/// digits, `_`, `-` and `.`, and neither `.` nor `..`.
pub open spec fn safe_component(b: Seq<u8>) -> bool {
    &&& 1 <= b.len() <= 64
    &&& forall|i: int| 0 <= i < b.len() ==> {
        let c = #[trigger] b[i];
        ascii_alphanumeric(c) || c == 0x5f || c == 0x2d || c == 0x2e
    }
    &&& b != seq![0x2eu8]
    &&& b != seq![0x2eu8, 0x2e]
}

pub fn is_safe_component(b: &[u8]) -> (r: bool)
    ensures
        r == safe_component(b@),
{
    if b.len() < 1 || b.len() > 64 {
        return false;
    }
    let mut i: usize = 0;
    while i < b.len()
        invariant
            i <= b@.len(),
            forall|j: int| 0 <= j < i ==> {
                let c = #[trigger] b@[j];
                ascii_alphanumeric(c) || c == 0x5f || c == 0x2d || c == 0x2e
            },
        decreases b@.len() - i,
    {
        let c = b[i];
        if !((0x61 <= c && c <= 0x7a) || (0x41 <= c && c <= 0x5a) || (0x30 <= c && c <= 0x39) || c == 0x5f || c == 0x2d || c == 0x2e) {
            return false;
        }
        i = i + 1;
    }
    if b.len() == 1 && b[0] == 0x2e {
        proof {
            assert(b@ =~= seq![0x2eu8]);
        }
        return false;
    }
    if b.len() == 2 && b[0] == 0x2e && b[1] == 0x2e {
        proof {
            assert(b@ =~= seq![0x2eu8, 0x2e]);
        }
        return false;
    }
    proof {
        if b@ == seq![0x2eu8] {
            assert(b@[0] == 0x2e);
        }
        if b@ == seq![0x2eu8, 0x2e] {
            assert(b@[0] == 0x2e && b@[1] == 0x2e);
        }
    }
    true
}

/// Whether bytes are a content address: 64 lowercase hexadecimal digits.
pub open spec fn digest_name(b: Seq<u8>) -> bool {
    &&& b.len() == 64
    &&& forall|i: int| 0 <= i < b.len() ==> {
        let c = #[trigger] b[i];
        (0x30 <= c <= 0x39) || (0x61 <= c <= 0x66)
    }
}

pub fn is_digest_name(b: &[u8]) -> (r: bool)
    ensures
        r == digest_name(b@),
{
    if b.len() != 64 {
        return false;
    }
    let mut i: usize = 0;
    while i < b.len()
        invariant
            i <= b@.len(),
            forall|j: int| 0 <= j < i ==> {
                let c = #[trigger] b@[j];
                (0x30 <= c <= 0x39) || (0x61 <= c <= 0x66)
            },
        decreases b@.len() - i,
    {
        let c = b[i];
        if !((0x30 <= c && c <= 0x39) || (0x61 <= c && c <= 0x66)) {
            return false;
        }
        i = i + 1;
    }
    true
}

/// The lowercase hexadecimal digit of a nibble.
pub open spec fn hex_char(n: u8) -> char {
    if n < 10 { (0x30 + n) as char } else { (0x61 + n - 10) as char }
}

/// Two lowercase hexadecimal digits per byte, most significant first.
pub open spec fn hex_text(d: Seq<u8>) -> Seq<char>
    decreases d.len(),
{
    if d.len() == 0 {
        Seq::empty()
    } else {
        hex_text(d.drop_last()) + seq![hex_char(d.last() / 16), hex_char(d.last() % 16)]
    }
}

fn hex_digit(n: u8) -> (r: &'static str)
    requires
        n < 16,
    ensures
        r@ == seq![hex_char(n)],
{
    match n {
        0 => { proof { reveal_strlit("0"); } "0" },
        1 => { proof { reveal_strlit("1"); } "1" },
        2 => { proof { reveal_strlit("2"); } "2" },
        3 => { proof { reveal_strlit("3"); } "3" },
        4 => { proof { reveal_strlit("4"); } "4" },
        5 => { proof { reveal_strlit("5"); } "5" },
        6 => { proof { reveal_strlit("6"); } "6" },
        7 => { proof { reveal_strlit("7"); } "7" },
        8 => { proof { reveal_strlit("8"); } "8" },
        9 => { proof { reveal_strlit("9"); } "9" },
        10 => { proof { reveal_strlit("a"); } "a" },
        11 => { proof { reveal_strlit("b"); } "b" },
        12 => { proof { reveal_strlit("c"); } "c" },
        13 => { proof { reveal_strlit("d"); } "d" },
        14 => { proof { reveal_strlit("e"); } "e" },
        _ => { proof { reveal_strlit("f"); } "f" },
    }
}

/// The lowercase hexadecimal SHA-256 of bytes: an object's content address.
pub fn hex_digest(bytes: &[u8]) -> (r: String)
    ensures
        r@ == hex_text(sha256(bytes@)),
{
    let d = sha256_digest(bytes);
    let mut text = String::new();
    let mut i: usize = 0;
    while i < 32
        invariant
            i <= 32,
            d@.len() == 32,
            text@ == hex_text(d@.subrange(0, i as int)),
        decreases 32 - i,
    {
        let b = d[i];
        text.append(hex_digit(b / 16));
        text.append(hex_digit(b % 16));
        proof {
            let p = d@.subrange(0, i + 1);
            assert(p.drop_last() =~= d@.subrange(0, i as int));
            assert(p.last() == b);
            assert(text@ =~= hex_text(p));
        }
        i = i + 1;
    }
    proof {
        assert(d@.subrange(0, 32) =~= d@);
    }
    text
}

/// Whether an object or manifest size is within the store's bound.
pub fn object_size_allowed(len: u64) -> (r: bool)
    ensures
        r == (len <= MAX_OBJECT_BYTES),
{
    len <= MAX_OBJECT_BYTES
}

/// Whether a held directory is owned by the expected user and grants none of
/// the forbidden mode bits.
pub fn directory_is_safe(is_dir: bool, uid: u32, mode: u32, expected_uid: u32, forbidden_mode: u32) -> (r: bool)
    ensures
        r == (is_dir && uid == expected_uid && mode & forbidden_mode == 0),
{
    is_dir && uid == expected_uid && mode & forbidden_mode == 0
}

/// Whether a stored object or manifest is an immutable regular file: owned
/// by the expected user, writable by nobody, with one link, within the bound.
pub fn immutable_file_is_safe(is_file: bool, uid: u32, mode: u32, nlink: u64, len: u64, expected_uid: u32) -> (r: bool)
    ensures
        r == (is_file && uid == expected_uid && mode & 0o222u32 == 0 && nlink == 1 && len <= MAX_OBJECT_BYTES),
{
    is_file && uid == expected_uid && mode & 0o222u32 == 0 && nlink == 1 && len <= MAX_OBJECT_BYTES
}

/// Whether an object already stored under a digest holds the bytes being
/// stored: anything else is a collision.
pub fn existing_object_matches(existing: &[u8], object: &[u8]) -> (r: Result<(), SealedPlanError>)
    ensures
        r is Ok <==> existing@ == object@,
        r matches Err(e) ==> e == SealedPlanError::ObjectCollision,
{
    if crate::cbor::same_bytes(existing, object) {
        Ok(())
    } else {
        Err(SealedPlanError::ObjectCollision)
    }
}

/// Whether stored bytes are the content named by a digest name: the
/// lowercase hex SHA-256 of the bytes is exactly the name; otherwise the
/// object does not match its name.
pub fn bytes_match_digest_name(bytes: &[u8], expected_digest: &str) -> (r: Result<(), SealedPlanError>)
    ensures
        r is Ok <==> hex_text(sha256(bytes@)) == expected_digest@,
        r matches Err(e) ==> e == SealedPlanError::DigestMismatch,
{
    let actual = hex_digest(bytes);
    let same = crate::cbor::same_bytes(actual.as_str().as_bytes(), expected_digest.as_bytes());
    proof {
        encode_utf8_decode_utf8(actual@);
        encode_utf8_decode_utf8(expected_digest@);
    }
    if same {
        Ok(())
    } else {
        Err(SealedPlanError::DigestMismatch)
    }
}

} // verus!
