//! Which relay certificates are accepted.
use crate::crypto::{hex_text, sha256, sha256_digest};
use crate::path::opt_text;
use crate::relay::hex_lower;
use crate::relay_client::RelaySpec;
use crate::text::{ascii_lowered, lowercase, same_text, unicode_lowercase};
use vstd::prelude::*;
use vstd::string::*;
use vstd::utf8::is_ascii_chars;

verus! {

/// How the certificate of a relay is verified.
#[derive(Debug)]
pub enum RelayTrust {
    /// Against the bundled roots, by name and date: the default.
    WebPki,
    /// By the fingerprint of the leaf, for a relay without a public name.
    Pinned(String),
    /// Not at all.  Development only.
    Anything,
}

/// How the certificate of a relay is verified: a pin decides before the flag.
pub fn relay_trust(spec: &RelaySpec) -> (r: RelayTrust)
    ensures
        match r {
            RelayTrust::WebPki => spec.cert_sha256 is None && !spec.insecure_tls,
            RelayTrust::Pinned(fingerprint) => opt_text(spec.cert_sha256) is Some && fingerprint@
                == unicode_lowercase(opt_text(spec.cert_sha256)->0) && (is_ascii_chars(
                opt_text(spec.cert_sha256)->0,
            ) ==> fingerprint@ == ascii_lowered(opt_text(spec.cert_sha256)->0)),
            RelayTrust::Anything => spec.cert_sha256 is None && spec.insecure_tls,
        },
{
    match &spec.cert_sha256 {
        Some(fingerprint) => RelayTrust::Pinned(lowercase(fingerprint.as_str())),
        None => if spec.insecure_tls {
            RelayTrust::Anything
        } else {
            RelayTrust::WebPki
        },
    }
}

/// Whether a leaf has the fingerprint that is expected; any leaf has, when none is.
pub fn leaf_accepted(expected: &Option<String>, leaf: &[u8]) -> (r: bool)
    ensures
        r == match opt_text(*expected) {
            Some(fingerprint) => hex_text(sha256_digest(leaf@)) == fingerprint,
            None => true,
        },
{
    match expected {
        Some(fingerprint) => {
            let seen = hex_lower(&sha256(leaf));
            same_text(seen.as_str(), fingerprint.as_str())
        },
        None => true,
    }
}

} // verus!
