//! Fixed-length opaque protocol identifiers.

use vstd::prelude::*;
use base64::Engine as Base64Engine;

verus! {

/// Which identifier a length error is about.
#[derive(Debug, Clone, Copy, PartialEq, Eq)]
pub enum IdKind {
    RequestId,
    ReceiptId,
    ServiceEventId,
    DeviceId,
    BootId,
    PolicyId,
    Nonce,
}

#[derive(Debug, Clone, Copy, PartialEq, Eq)]
pub enum IdentifierError {
    WrongLength { name: IdKind, expected: usize, actual: usize },
}

/// The unpadded base64url text of a byte sequence.
pub uninterp spec fn base64url(data: Seq<u8>) -> Seq<char>;

/// Encodes bytes as unpadded base64url with the `base64` crate's
/// `URL_SAFE_NO_PAD` engine; the contract names the result and claims nothing
/// more of it.
#[verifier::external_body]
fn base64url_encode(data: &[u8]) -> (r: String)
    ensures
        r@ == base64url(data@),
{
    base64::engine::general_purpose::URL_SAFE_NO_PAD.encode(data)
}

/// Copies exactly `N` bytes from a slice of that length.
pub(crate) fn copy_array<const N: usize>(value: &[u8]) -> (r: [u8; N])
    requires
        value@.len() == N,
    ensures
        r@ == value@,
{
    let mut out: [u8; N] = [0u8; N];
    let mut i: usize = 0;
    while i < N
        invariant
            value@.len() == N,
            i <= N,
            out@.len() == N,
            forall|j: int| 0 <= j < i ==> out@[j] == value@[j],
        decreases N - i,
    {
        out[i] = value[i];
        i = i + 1;
    }
    proof {
        assert(out@ =~= value@);
    }
    out
}

/// A request ID: exactly 16 opaque bytes.
#[derive(Debug, Clone, Copy, PartialEq, Eq, PartialOrd, Ord, Hash)]
pub struct RequestId([u8; 16]);

impl View for RequestId {
    type V = Seq<u8>;

    closed spec fn view(&self) -> Seq<u8> {
        self.0@
    }
}

impl RequestId {
    pub fn new(bytes: [u8; 16]) -> (r: Self)
        ensures
            r@ == bytes@,
    {
        RequestId(bytes)
    }

    pub fn as_bytes(&self) -> (r: &[u8; 16])
        ensures
            r@ == self@,
    {
        &self.0
    }

    /// Takes the identifier from a slice, which must hold exactly 16 bytes.
    pub fn try_from_slice(value: &[u8]) -> (r: Result<Self, IdentifierError>)
        ensures
            value@.len() == 16 <==> r is Ok,
            r matches Ok(id) ==> id@ == value@,
            r matches Err(e) ==> e == (IdentifierError::WrongLength {
                name: IdKind::RequestId,
                expected: 16,
                actual: value@.len() as usize,
            }),
    {
        if value.len() != 16 {
            return Err(IdentifierError::WrongLength { name: IdKind::RequestId, expected: 16, actual: value.len() });
        }
        Ok(RequestId(copy_array(value)))
    }

    /// The identifier as unpadded base64url text.
    pub fn to_text(&self) -> (r: String)
        ensures
            r@ == base64url(self@),
    {
        base64url_encode(self.0.as_slice())
    }
}

/// A receipt ID: exactly 16 opaque bytes.
#[derive(Debug, Clone, Copy, PartialEq, Eq, PartialOrd, Ord, Hash)]
pub struct ReceiptId([u8; 16]);

impl View for ReceiptId {
    type V = Seq<u8>;

    closed spec fn view(&self) -> Seq<u8> {
        self.0@
    }
}

impl ReceiptId {
    pub fn new(bytes: [u8; 16]) -> (r: Self)
        ensures
            r@ == bytes@,
    {
        ReceiptId(bytes)
    }

    pub fn as_bytes(&self) -> (r: &[u8; 16])
        ensures
            r@ == self@,
    {
        &self.0
    }

    /// Takes the identifier from a slice, which must hold exactly 16 bytes.
    pub fn try_from_slice(value: &[u8]) -> (r: Result<Self, IdentifierError>)
        ensures
            value@.len() == 16 <==> r is Ok,
            r matches Ok(id) ==> id@ == value@,
            r matches Err(e) ==> e == (IdentifierError::WrongLength {
                name: IdKind::ReceiptId,
                expected: 16,
                actual: value@.len() as usize,
            }),
    {
        if value.len() != 16 {
            return Err(IdentifierError::WrongLength { name: IdKind::ReceiptId, expected: 16, actual: value.len() });
        }
        Ok(ReceiptId(copy_array(value)))
    }

    /// The identifier as unpadded base64url text.
    pub fn to_text(&self) -> (r: String)
        ensures
            r@ == base64url(self@),
    {
        base64url_encode(self.0.as_slice())
    }
}

/// A service event ID: exactly 16 opaque bytes.
#[derive(Debug, Clone, Copy, PartialEq, Eq, PartialOrd, Ord, Hash)]
pub struct ServiceEventId([u8; 16]);

impl View for ServiceEventId {
    type V = Seq<u8>;

    closed spec fn view(&self) -> Seq<u8> {
        self.0@
    }
}

impl ServiceEventId {
    pub fn new(bytes: [u8; 16]) -> (r: Self)
        ensures
            r@ == bytes@,
    {
        ServiceEventId(bytes)
    }

    pub fn as_bytes(&self) -> (r: &[u8; 16])
        ensures
            r@ == self@,
    {
        &self.0
    }

    /// Takes the identifier from a slice, which must hold exactly 16 bytes.
    pub fn try_from_slice(value: &[u8]) -> (r: Result<Self, IdentifierError>)
        ensures
            value@.len() == 16 <==> r is Ok,
            r matches Ok(id) ==> id@ == value@,
            r matches Err(e) ==> e == (IdentifierError::WrongLength {
                name: IdKind::ServiceEventId,
                expected: 16,
                actual: value@.len() as usize,
            }),
    {
        if value.len() != 16 {
            return Err(IdentifierError::WrongLength { name: IdKind::ServiceEventId, expected: 16, actual: value.len() });
        }
        Ok(ServiceEventId(copy_array(value)))
    }

    /// The identifier as unpadded base64url text.
    pub fn to_text(&self) -> (r: String)
        ensures
            r@ == base64url(self@),
    {
        base64url_encode(self.0.as_slice())
    }
}

/// A device ID: exactly 16 opaque bytes.
#[derive(Debug, Clone, Copy, PartialEq, Eq, PartialOrd, Ord, Hash)]
pub struct DeviceId([u8; 16]);

impl View for DeviceId {
    type V = Seq<u8>;

    closed spec fn view(&self) -> Seq<u8> {
        self.0@
    }
}

impl DeviceId {
    pub fn new(bytes: [u8; 16]) -> (r: Self)
        ensures
            r@ == bytes@,
    {
        DeviceId(bytes)
    }

    pub fn as_bytes(&self) -> (r: &[u8; 16])
        ensures
            r@ == self@,
    {
        &self.0
    }

    /// Takes the identifier from a slice, which must hold exactly 16 bytes.
    pub fn try_from_slice(value: &[u8]) -> (r: Result<Self, IdentifierError>)
        ensures
            value@.len() == 16 <==> r is Ok,
            r matches Ok(id) ==> id@ == value@,
            r matches Err(e) ==> e == (IdentifierError::WrongLength {
                name: IdKind::DeviceId,
                expected: 16,
                actual: value@.len() as usize,
            }),
    {
        if value.len() != 16 {
            return Err(IdentifierError::WrongLength { name: IdKind::DeviceId, expected: 16, actual: value.len() });
        }
        Ok(DeviceId(copy_array(value)))
    }

    /// The identifier as unpadded base64url text.
    pub fn to_text(&self) -> (r: String)
        ensures
            r@ == base64url(self@),
    {
        base64url_encode(self.0.as_slice())
    }
}

/// A boot ID: exactly 16 opaque bytes.
#[derive(Debug, Clone, Copy, PartialEq, Eq, PartialOrd, Ord, Hash)]
pub struct BootId([u8; 16]);

impl View for BootId {
    type V = Seq<u8>;

    closed spec fn view(&self) -> Seq<u8> {
        self.0@
    }
}

impl BootId {
    pub fn new(bytes: [u8; 16]) -> (r: Self)
        ensures
            r@ == bytes@,
    {
        BootId(bytes)
    }

    pub fn as_bytes(&self) -> (r: &[u8; 16])
        ensures
            r@ == self@,
    {
        &self.0
    }

    /// Takes the identifier from a slice, which must hold exactly 16 bytes.
    pub fn try_from_slice(value: &[u8]) -> (r: Result<Self, IdentifierError>)
        ensures
            value@.len() == 16 <==> r is Ok,
            r matches Ok(id) ==> id@ == value@,
            r matches Err(e) ==> e == (IdentifierError::WrongLength {
                name: IdKind::BootId,
                expected: 16,
                actual: value@.len() as usize,
            }),
    {
        if value.len() != 16 {
            return Err(IdentifierError::WrongLength { name: IdKind::BootId, expected: 16, actual: value.len() });
        }
        Ok(BootId(copy_array(value)))
    }

    /// The identifier as unpadded base64url text.
    pub fn to_text(&self) -> (r: String)
        ensures
            r@ == base64url(self@),
    {
        base64url_encode(self.0.as_slice())
    }
}

/// A policy ID: exactly 16 opaque bytes.
#[derive(Debug, Clone, Copy, PartialEq, Eq, PartialOrd, Ord, Hash)]
pub struct PolicyId([u8; 16]);

impl View for PolicyId {
    type V = Seq<u8>;

    closed spec fn view(&self) -> Seq<u8> {
        self.0@
    }
}

impl PolicyId {
    pub fn new(bytes: [u8; 16]) -> (r: Self)
        ensures
            r@ == bytes@,
    {
        PolicyId(bytes)
    }

    pub fn as_bytes(&self) -> (r: &[u8; 16])
        ensures
            r@ == self@,
    {
        &self.0
    }

    /// Takes the identifier from a slice, which must hold exactly 16 bytes.
    pub fn try_from_slice(value: &[u8]) -> (r: Result<Self, IdentifierError>)
        ensures
            value@.len() == 16 <==> r is Ok,
            r matches Ok(id) ==> id@ == value@,
            r matches Err(e) ==> e == (IdentifierError::WrongLength {
                name: IdKind::PolicyId,
                expected: 16,
                actual: value@.len() as usize,
            }),
    {
        if value.len() != 16 {
            return Err(IdentifierError::WrongLength { name: IdKind::PolicyId, expected: 16, actual: value.len() });
        }
        Ok(PolicyId(copy_array(value)))
    }

    /// The identifier as unpadded base64url text.
    pub fn to_text(&self) -> (r: String)
        ensures
            r@ == base64url(self@),
    {
        base64url_encode(self.0.as_slice())
    }
}

/// A approval nonce: exactly 32 opaque bytes.
#[derive(Debug, Clone, Copy, PartialEq, Eq, PartialOrd, Ord, Hash)]
pub struct Nonce([u8; 32]);

impl View for Nonce {
    type V = Seq<u8>;

    closed spec fn view(&self) -> Seq<u8> {
        self.0@
    }
}

impl Nonce {
    pub fn new(bytes: [u8; 32]) -> (r: Self)
        ensures
            r@ == bytes@,
    {
        Nonce(bytes)
    }

    pub fn as_bytes(&self) -> (r: &[u8; 32])
        ensures
            r@ == self@,
    {
        &self.0
    }

    /// Takes the identifier from a slice, which must hold exactly 32 bytes.
    pub fn try_from_slice(value: &[u8]) -> (r: Result<Self, IdentifierError>)
        ensures
            value@.len() == 32 <==> r is Ok,
            r matches Ok(id) ==> id@ == value@,
            r matches Err(e) ==> e == (IdentifierError::WrongLength {
                name: IdKind::Nonce,
                expected: 32,
                actual: value@.len() as usize,
            }),
    {
        if value.len() != 32 {
            return Err(IdentifierError::WrongLength { name: IdKind::Nonce, expected: 32, actual: value.len() });
        }
        Ok(Nonce(copy_array(value)))
    }

    /// The identifier as unpadded base64url text.
    pub fn to_text(&self) -> (r: String)
        ensures
            r@ == base64url(self@),
    {
        base64url_encode(self.0.as_slice())
    }
}

} // verus!
