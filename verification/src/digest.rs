//! Domain-separated SHA-256 digests of deterministic CBOR.

use vstd::prelude::*;
use vstd::string::*;
use vstd::utf8::*;
use sha2::Digest as Sha2Digest;
use crate::cbor::{encode, spec_encode, Cbor, CborValue, EncodeError};

verus! {

/// A SHA-256 value used by the RootPermit protocol.
pub type Digest = [u8; 32];

/// Normative domain labels for digests and signatures.
#[derive(Debug, Clone, Copy, PartialEq, Eq)]
pub enum Domain {
    Request,
    AptPlan,
    Decision,
    WebAuthnChallenge,
    Enrollment,
    ServiceKeyset,
    DecisionAccepted,
    Revocation,
    Receipt,
}

/// The text of a domain label, NUL-terminated.
pub open spec fn domain_text(d: Domain) -> Seq<char> {
    match d {
        Domain::Request => "rootpermit/v1/request\0"@,
        Domain::AptPlan => "rootpermit/v1/apt-plan\0"@,
        Domain::Decision => "rootpermit/v1/decision\0"@,
        Domain::WebAuthnChallenge => "rootpermit/v1/webauthn.challenge\0"@,
        Domain::Enrollment => "rootpermit/v1/enrollment\0"@,
        Domain::ServiceKeyset => "rootpermit/v1/service-keyset\0"@,
        Domain::DecisionAccepted => "rootpermit/v1/decision-accepted\0"@,
        Domain::Revocation => "rootpermit/v1/revocation\0"@,
        Domain::Receipt => "rootpermit/v1/receipt\0"@,
    }
}

/// The bytes of a domain label.
pub open spec fn domain_label(d: Domain) -> Seq<u8> {
    encode_utf8(domain_text(d))
}

impl Domain {
    /// The label's bytes.
    pub fn label(self) -> (r: Vec<u8>)
        ensures
            r@ == domain_label(self),
    {
        match self {
            Domain::Request => "rootpermit/v1/request\0".as_bytes_vec(),
            Domain::AptPlan => "rootpermit/v1/apt-plan\0".as_bytes_vec(),
            Domain::Decision => "rootpermit/v1/decision\0".as_bytes_vec(),
            Domain::WebAuthnChallenge => "rootpermit/v1/webauthn.challenge\0".as_bytes_vec(),
            Domain::Enrollment => "rootpermit/v1/enrollment\0".as_bytes_vec(),
            Domain::ServiceKeyset => "rootpermit/v1/service-keyset\0".as_bytes_vec(),
            Domain::DecisionAccepted => "rootpermit/v1/decision-accepted\0".as_bytes_vec(),
            Domain::Revocation => "rootpermit/v1/revocation\0".as_bytes_vec(),
            Domain::Receipt => "rootpermit/v1/receipt\0".as_bytes_vec(),
        }
    }
}

/// The SHA-256 digest of a byte sequence.
pub uninterp spec fn sha256(data: Seq<u8>) -> Seq<u8>;

/// SHA-256 of `data`, computed by the `sha2` crate's `Sha256::digest`; the
/// contract names the result and claims nothing more of it.
#[verifier::external_body]
pub(crate) fn sha256_digest(data: &[u8]) -> (r: Digest)
    ensures
        r@ == sha256(data@),
{
    sha2::Sha256::digest(data).into()
}

/// The domain-separated digest of a value: SHA-256 of the label followed by
/// the value's deterministic encoding.
pub open spec fn spec_digest_cbor(domain: Domain, value: Cbor) -> Result<Seq<u8>, EncodeError> {
    match spec_encode(value) {
        Ok(b) => Ok(sha256(domain_label(domain) + b)),
        Err(e) => Err(e),
    }
}

/// Hashes `domain-label || deterministic-CBOR(value)`.
pub fn digest_cbor(domain: Domain, value: &CborValue) -> (r: Result<Digest, EncodeError>)
    ensures
        match spec_digest_cbor(domain, value@) {
            Ok(d) => r matches Ok(x) && x@ == d,
            Err(e) => r == Err::<Digest, EncodeError>(e),
        },
{
    let encoded = match encode(value) {
        Ok(b) => b,
        Err(e) => {
            return Err(e);
        },
    };
    let mut message = domain.label();
    let ghost label = message@;
    let mut i: usize = 0;
    while i < encoded.len()
        invariant
            i <= encoded@.len(),
            message@ == label + encoded@.subrange(0, i as int),
        decreases encoded@.len() - i,
    {
        message.push(encoded[i]);
        proof {
            assert(message@ =~= label + encoded@.subrange(0, i + 1));
        }
        i = i + 1;
    }
    proof {
        assert(encoded@.subrange(0, encoded@.len() as int) =~= encoded@);
    }
    Ok(sha256_digest(message.as_slice()))
}

/// A label ends with its only NUL byte.
proof fn lemma_label_shape(d: Domain)
    ensures
        domain_label(d).len() >= 1,
        domain_label(d).last() == 0,
        forall|i: int| 0 <= i < domain_label(d).len() - 1 ==> #[trigger] domain_label(d)[i] != 0,
{
    reveal_strlit("rootpermit/v1/request\0");
    reveal_strlit("rootpermit/v1/apt-plan\0");
    reveal_strlit("rootpermit/v1/decision\0");
    reveal_strlit("rootpermit/v1/webauthn.challenge\0");
    reveal_strlit("rootpermit/v1/enrollment\0");
    reveal_strlit("rootpermit/v1/service-keyset\0");
    reveal_strlit("rootpermit/v1/decision-accepted\0");
    reveal_strlit("rootpermit/v1/revocation\0");
    reveal_strlit("rootpermit/v1/receipt\0");
    let t = domain_text(d);
    assert(is_ascii_chars(t));
    is_ascii_chars_encode_utf8(t);
    assert forall|i: int| 0 <= i < t.len() - 1 implies #[trigger] domain_label(d)[i] != 0 by {
        assert(t[i] != '\0');
        assert(t[i] as u8 == domain_label(d)[i]);
    }
    assert(t[t.len() - 1] as u8 == domain_label(d)[t.len() - 1]);
}

/// Distinct domains have distinct labels, and neither label followed by any
/// bytes equals the other followed by any bytes: a digest or signature made
/// for one domain is never computed over the same bytes as for another.
pub proof fn lemma_domain_labels_distinct(a: Domain, b: Domain)
    requires
        a != b,
    ensures
        domain_label(a) != domain_label(b),
        forall|x: Seq<u8>, y: Seq<u8>| #[trigger] (domain_label(a) + x) != #[trigger] (domain_label(b) + y),
{
    lemma_labels_differ(a, b);
    lemma_label_shape(a);
    lemma_label_shape(b);
    let la = domain_label(a);
    let lb = domain_label(b);
    assert forall|x: Seq<u8>, y: Seq<u8>| #[trigger] (la + x) != #[trigger] (lb + y) by {
        if la + x == lb + y {
            if la.len() < lb.len() {
                assert((la + x)[la.len() - 1] == la[la.len() - 1]);
                assert((lb + y)[la.len() - 1] == lb[la.len() - 1]);
            } else if lb.len() < la.len() {
                assert((la + x)[lb.len() - 1] == la[lb.len() - 1]);
                assert((lb + y)[lb.len() - 1] == lb[lb.len() - 1]);
            } else {
                assert forall|i: int| 0 <= i < la.len() implies la[i] == lb[i] by {
                    assert((la + x)[i] == la[i]);
                    assert((lb + y)[i] == lb[i]);
                }
                assert(la =~= lb);
            }
        }
    }
}

proof fn lemma_labels_differ(a: Domain, b: Domain)
    requires
        a != b,
    ensures
        domain_label(a) != domain_label(b),
{
    reveal_strlit("rootpermit/v1/request\0");
    reveal_strlit("rootpermit/v1/apt-plan\0");
    reveal_strlit("rootpermit/v1/decision\0");
    reveal_strlit("rootpermit/v1/webauthn.challenge\0");
    reveal_strlit("rootpermit/v1/enrollment\0");
    reveal_strlit("rootpermit/v1/service-keyset\0");
    reveal_strlit("rootpermit/v1/decision-accepted\0");
    reveal_strlit("rootpermit/v1/revocation\0");
    reveal_strlit("rootpermit/v1/receipt\0");
    let ta = domain_text(a);
    let tb = domain_text(b);
    assert(is_ascii_chars(ta));
    assert(is_ascii_chars(tb));
    is_ascii_chars_encode_utf8(ta);
    is_ascii_chars_encode_utf8(tb);
    if domain_label(a) == domain_label(b) {
        assert forall|i: int| 0 <= i < ta.len() implies ta[i] == tb[i] by {
            assert(encode_utf8(ta)[i] == encode_utf8(tb)[i]);
        }
        assert(ta =~= tb);
        assert(ta.len() == tb.len() && ta[14] == tb[14] && ta[16] == tb[16]);
        match a {
            Domain::Request => {},
            Domain::AptPlan => {},
            Domain::Decision => {},
            Domain::WebAuthnChallenge => {},
            Domain::Enrollment => {},
            Domain::ServiceKeyset => {},
            Domain::DecisionAccepted => {},
            Domain::Revocation => {},
            Domain::Receipt => {},
        }
    }
}

} // verus!
