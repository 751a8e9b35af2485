//! The one identity rule: a certificate counts for the node ID that its public key
//! is, and for nothing else it says.
use crate::crypto::{issue_ed25519_leaf, rcgen_ed25519_leaf, x509_spki};
use crate::id::{
    base32_text, cert_identity, law_spki_round_trip, node_id_from_cert_der, opt_id, NodeId,
    TransportKey, PKCS8_ED25519_PREFIX,
};
use crate::bytes::to_vec;
use vstd::prelude::*;
use vstd::string::*;

verus! {

/// A self-signed leaf whose public key is exactly the node's.
pub struct NodeCertificate {
    pub cert_der: Vec<u8>,
    pub key_der: Vec<u8>,
}

/// The placeholder name of a leaf; no verifier on either side reads it.
pub open spec fn leaf_name(id: NodeId) -> Seq<char> {
    base32_text(id.0@) + ".node.invalid"@
}

/// The PKCS#8 form of a seed.
pub open spec fn leaf_key(seed: Seq<u8>) -> Seq<u8> {
    PKCS8_ED25519_PREFIX@ + seed
}

/// Build the leaf for a transport key; `None` when the certificate library refuses
/// the key or the name.  The leaf carries the node's own identity.
pub fn node_certificate(key: &TransportKey) -> (r: Option<NodeCertificate>)
    ensures
        r is Some <==> rcgen_ed25519_leaf(leaf_key(key.spec_seed()), leaf_name(key.id())) is Some,
        r matches Some(leaf) ==> Some(leaf.cert_der@) == rcgen_ed25519_leaf(
            leaf_key(key.spec_seed()),
            leaf_name(key.id()),
        ) && leaf.key_der@ == leaf_key(key.spec_seed()) && cert_identity(x509_spki(leaf.cert_der@))
            == Some(key.id().0@),
{
    let pkcs8 = key.pkcs8_der();
    let id = key.node_id();
    let name = id.to_base32().concat(".node.invalid");
    match issue_ed25519_leaf(&pkcs8, name.as_str()) {
        Some(cert_der) => {
            proof {
                assert(pkcs8@.subrange(0, 16) =~= PKCS8_ED25519_PREFIX@);
                assert(pkcs8@.subrange(16, 48) =~= key.spec_seed());
                law_spki_round_trip(id);
            }
            Some(NodeCertificate { cert_der, key_der: to_vec(&pkcs8) })
        },
        None => None,
    }
}

/// Why a certificate is refused.
#[derive(Clone, Copy, Debug, PartialEq, Eq, Structural)]
pub enum PinFault {
    /// It carries no Ed25519 node ID.
    BadEncoding,
    /// It carries another node ID.
    OtherNode,
}

/// What a pin says of the identity that a certificate carries.
pub open spec fn pin_verdict(presented: Option<Seq<u8>>, expected: NodeId) -> Option<PinFault> {
    match presented {
        None => Some(PinFault::BadEncoding),
        Some(id) => if id == expected.0@ {
            None
        } else {
            Some(PinFault::OtherNode)
        },
    }
}

/// Hold the identity that was found in a certificate to the expected one.
pub fn judge_pinned(expected: NodeId, presented: Option<NodeId>) -> (r: Result<NodeId, PinFault>)
    ensures
        match r {
            Ok(id) => pin_verdict(opt_id(presented), expected) is None && id == expected,
            Err(fault) => pin_verdict(opt_id(presented), expected) == Some(fault),
        },
{
    match presented {
        None => Err(PinFault::BadEncoding),
        Some(id) => {
            if id.same(&expected) {
                Ok(id)
            } else {
                proof {
                    if id.0@ == expected.0@ {
                        assert(id.0 =~= expected.0);
                    }
                }
                Err(PinFault::OtherNode)
            }
        },
    }
}

/// Hold a presented certificate to the expected node ID.  Chain, names, dates and
/// extensions are ignored.
pub fn check_pinned(expected: NodeId, cert: &[u8]) -> (r: Result<NodeId, PinFault>)
    ensures
        match r {
            Ok(id) => pin_verdict(cert_identity(x509_spki(cert@)), expected) is None && id
                == expected,
            Err(fault) => pin_verdict(cert_identity(x509_spki(cert@)), expected) == Some(fault),
        },
{
    judge_pinned(expected, node_id_from_cert_der(cert))
}

/// A certificate passes the pin of one node at most.
pub proof fn law_a_certificate_has_one_identity(cert: Seq<u8>, a: NodeId, b: NodeId)
    requires
        pin_verdict(cert_identity(x509_spki(cert)), a) is None,
        pin_verdict(cert_identity(x509_spki(cert)), b) is None,
    ensures
        a == b,
{
    assert(a.0 =~= b.0);
}

} // verus!
