//! Rendezvous-tag derivation.  A tag is a pair-scoped, per-epoch routing
//! capability: the relay matches two endpoints presenting the same tag and
//! learns neither node identity nor any stable pseudonym.
//!
//! Everything here is pure derivation over opaque key bytes.
use crate::bytes::{
    append, be_bytes, lemma_be_bytes_len, lemma_be_round_trip, same_array, to_be64, write_at,
};
use crate::crypto::{
    hkdf_sha256, hkdf_sha256_16, secp256k1_decodes, secp256k1_ecdh, secp256k1_generate,
    secp256k1_point_decodes, secp256k1_public, secp256k1_shared_x, wipe,
};
use crate::text::write_text;
use vstd::prelude::*;
use vstd::string::*;
use vstd::utf8::*;

verus! {

/// HKDF salt: `forgesworn-link/rendezvous/v1`.
pub const RENDEZVOUS_SALT: [u8; 29] = [
    0x66, 0x6f, 0x72, 0x67, 0x65, 0x73, 0x77, 0x6f, 0x72, 0x6e, 0x2d, 0x6c, 0x69, 0x6e, 0x6b, 0x2f,
    0x72, 0x65, 0x6e, 0x64, 0x65, 0x7a, 0x76, 0x6f, 0x75, 0x73, 0x2f, 0x76, 0x31,
];

/// Tags rotate hourly.
pub const EPOCH_SECONDS: u64 = 3600;

/// A tag is 16 bytes.
pub const TAG_BYTES: usize = 16;

/// Pairing secrets are 16 raw bytes, encoded as 32 lowercase hex characters at
/// the product boundary.  The ASCII spelling is never HKDF input.
pub const PAIRING_SECRET_BYTES: usize = 16;

/// Domain separator for a pairing-secret rendezvous tag.
pub const PAIRING_CASE: u8 = 0x03;

/// Which ephemeral mix the pair used.  Leads the input keying material as a
/// domain separator so the modes can never be cross-interpreted.
#[derive(Clone, Copy, Debug, PartialEq, Eq, Structural)]
pub enum TagCase {
    /// Neither card carries an ephemeral hint; `eph_x` is 32 zero bytes.  No
    /// forward secrecy.
    Neither,
    /// Exactly one card carries one; `eph_x = x(ECDH(eph, peer's static key))`.
    /// Forward-secret only against compromise of the carrying side.
    One,
    /// Both cards carry one; `eph_x = x(ECDH(eph_a, eph_b))`.  Full forward
    /// secrecy.
    Both,
}

/// The byte of a case.
pub open spec fn case_byte(case: TagCase) -> u8 {
    match case {
        TagCase::Neither => 0x00,
        TagCase::One => 0x01,
        TagCase::Both => 0x02,
    }
}

impl TagCase {
    /// The leading byte of the input keying material.
    pub fn byte(self) -> (r: u8)
        ensures
            r == case_byte(self),
    {
        match self {
            TagCase::Neither => 0x00,
            TagCase::One => 0x01,
            TagCase::Both => 0x02,
        }
    }

    /// The case with this byte, if there is one.
    pub fn from_byte(byte: u8) -> (r: Option<TagCase>)
        ensures
            r matches Some(case) ==> case_byte(case) == byte,
            r is None ==> forall|case: TagCase| #[trigger] case_byte(case) != byte,
    {
        match byte {
            0x00 => Some(TagCase::Neither),
            0x01 => Some(TagCase::One),
            0x02 => Some(TagCase::Both),
            _ => None,
        }
    }
}

/// A rendezvous tag.  `Debug` is deliberately redacted: a relay must never log a
/// tag, and nothing else should either.
#[derive(Clone, Copy, PartialEq, Eq, Hash)]
pub struct Tag(pub [u8; 16]);

impl Tag {
    /// Whether two tags are the same.
    pub fn same(&self, other: &Self) -> (r: bool)
        ensures
            r == (*self == *other),
    {
        same_array(&self.0, &other.0)
    }
}

impl core::fmt::Debug for Tag {
    fn fmt(&self, f: &mut core::fmt::Formatter<'_>) -> core::fmt::Result {
        write_text(f, "Tag(redacted)")
    }
}

/// `floor(unix_seconds / 3600)`.
pub fn epoch_index(unix_seconds: u64) -> (r: u64)
    ensures
        r == unix_seconds / EPOCH_SECONDS,
{
    unix_seconds / EPOCH_SECONDS
}

/// `case || static_x || eph_x`, 65 bytes.
pub open spec fn pair_ikm(case: TagCase, static_x: Seq<u8>, eph_x: Seq<u8>) -> Seq<u8> {
    seq![case_byte(case)] + static_x + eph_x
}

/// `0x03 || pairing_secret`, 17 bytes.
pub open spec fn pairing_ikm(secret: Seq<u8>) -> Seq<u8> {
    seq![PAIRING_CASE] + secret
}

/// `relay_host || 0x00 || u64be(epoch)`.
pub open spec fn tag_info(relay_host: Seq<u8>, epoch: u64) -> Seq<u8> {
    relay_host + seq![0u8] + be_bytes(epoch as nat, 8)
}

/// Sixteen bytes of HKDF-SHA256 under the rendezvous salt.
pub open spec fn tag_bytes(ikm: Seq<u8>, relay_host: Seq<u8>, epoch: u64) -> Seq<u8> {
    hkdf_sha256(RENDEZVOUS_SALT@, ikm, tag_info(relay_host, epoch), 16)
}

/// The tag of a pair:
///
/// ```text
/// tag = HKDF-SHA256(
///   ikm  = case_byte || static_x || eph_x,          // 65 bytes
///   salt = "forgesworn-link/rendezvous/v1",
///   info = relay_host || 0x00 || u64be(epoch_index),
///   L    = 16,
/// )
/// ```
///
/// `relay_host` is the lowercase hostname without port, exactly as in relay
/// authentication.  Every input is symmetric, so both ends derive the same tag
/// with no ordering rule.
pub fn derive_tag(
    case: TagCase,
    static_x: &[u8; 32],
    eph_x: &[u8; 32],
    relay_host: &str,
    epoch: u64,
) -> (r: Tag)
    ensures
        r.0@ == tag_bytes(pair_ikm(case, static_x@, eph_x@), relay_host.spec_bytes(), epoch),
{
    let mut ikm = [0u8; 65];
    ikm[0] = case.byte();
    write_at(&mut ikm, 1, static_x);
    write_at(&mut ikm, 33, eph_x);
    assert(ikm@ =~= pair_ikm(case, static_x@, eph_x@));
    let tag = derive_from_ikm(&ikm, relay_host, epoch);
    wipe(&mut ikm);
    tag
}

/// The first-contact pairing tag, from `0x03 || pairing_secret`.  It is
/// reachability only: end-to-end authority still requires the raw secret to be
/// proved inside the pinned session.
pub fn derive_pairing_tag(pairing_secret: &[u8; 16], relay_host: &str, epoch: u64) -> (r: Tag)
    ensures
        r.0@ == tag_bytes(pairing_ikm(pairing_secret@), relay_host.spec_bytes(), epoch),
{
    let mut ikm = [0u8; 17];
    ikm[0] = PAIRING_CASE;
    write_at(&mut ikm, 1, pairing_secret);
    assert(ikm@ =~= pairing_ikm(pairing_secret@));
    let tag = derive_from_ikm(&ikm, relay_host, epoch);
    wipe(&mut ikm);
    tag
}

fn derive_from_ikm(ikm: &[u8], relay_host: &str, epoch: u64) -> (r: Tag)
    ensures
        r.0@ == tag_bytes(ikm@, relay_host.spec_bytes(), epoch),
{
    let mut info: Vec<u8> = Vec::new();
    append(&mut info, relay_host.as_bytes());
    info.push(0);
    append(&mut info, &to_be64(epoch));
    assert(info@ =~= tag_info(relay_host.spec_bytes(), epoch));
    Tag(hkdf_sha256_16(&RENDEZVOUS_SALT, ikm, info.as_slice()))
}

/// A compressed SEC1 encoding starts with `0x02` or `0x03`.
pub open spec fn compressed_form(point: Seq<u8>) -> bool {
    point.len() == 33 && (point[0] == 0x02 || point[0] == 0x03)
}

/// The x-coordinate both owners of a pair of secp256k1 keys reach, over the
/// canonical spelling of the public key only.
pub open spec fn ecdh_value(scalar: Seq<u8>, point: Seq<u8>) -> Option<Seq<u8>> {
    if compressed_form(point) {
        secp256k1_ecdh(scalar, point)
    } else {
        None
    }
}

/// The raw x-coordinate of the secp256k1 shared point, not a hash of it.  `None`
/// for an invalid scalar or a point not on the curve.
///
/// Whoever holds the other scalar reaches the same value: that is the last
/// clause.
pub fn ecdh_x(private_scalar: &[u8; 32], compressed_public: &[u8; 33]) -> (r: Option<[u8; 32]>)
    ensures
        match r {
            Some(x) => ecdh_value(private_scalar@, compressed_public@) == Some(x@),
            None => ecdh_value(private_scalar@, compressed_public@) is None,
        },
        r is Some ==> secp256k1_point_decodes(compressed_public@),
        forall|other: Seq<u8>|
            #![trigger secp256k1_public(other)]
            compressed_form(compressed_public@) && secp256k1_public(other) == Some(
                compressed_public@,
            ) && secp256k1_public(private_scalar@) is Some && compressed_form(
                secp256k1_public(private_scalar@)->0,
            ) ==> r is Some && ecdh_value(other, secp256k1_public(private_scalar@)->0) == Some(
                r->0@,
            ),
{
    // One point has one spelling: the compact form is refused.
    if compressed_public[0] != 0x02 && compressed_public[0] != 0x03 {
        return None;
    }
    secp256k1_shared_x(private_scalar, compressed_public)
}

/// True when `bytes` is a valid 33-byte compressed secp256k1 point.  The card
/// verifier uses this for the ephemeral hint: a value that does not decompress is
/// a malformed hint and fails the whole card.
///
/// Only the leading bytes `0x02` and `0x03` pass.  The SEC1 compact form would
/// give one point two spellings inside signed card bytes, and card bytes are a
/// dedup key.
pub fn valid_compressed_point(bytes: &[u8]) -> (r: bool)
    ensures
        r == (compressed_form(bytes@) && secp256k1_point_decodes(bytes@)),
{
    bytes.len() == 33 && (bytes[0] == 0x02 || bytes[0] == 0x03) && secp256k1_decodes(bytes)
}

/// A fresh ephemeral for one card: `(private scalar, compressed public key)`.
/// The caller owns the erasure: the private scalar, and every tag and `eph_x`
/// derived from it, must be erased when the card expires or rotates.  That
/// erasure is the forward secrecy.
pub fn generate_ephemeral() -> (r: ([u8; 32], [u8; 33]))
    ensures
        secp256k1_public(r.0@) == Some(r.1@),
        compressed_form(r.1@) && secp256k1_point_decodes(r.1@),
{
    secp256k1_generate()
}

/// The keying material of a pair determines the case and both secrets, so no
/// two cases share one.
pub proof fn law_pair_keying_is_injective(
    case_a: TagCase,
    static_a: Seq<u8>,
    eph_a: Seq<u8>,
    case_b: TagCase,
    static_b: Seq<u8>,
    eph_b: Seq<u8>,
)
    requires
        static_a.len() == 32,
        eph_a.len() == 32,
        static_b.len() == 32,
        eph_b.len() == 32,
        pair_ikm(case_a, static_a, eph_a) == pair_ikm(case_b, static_b, eph_b),
    ensures
        case_a == case_b,
        static_a == static_b,
        eph_a == eph_b,
{
    let a = pair_ikm(case_a, static_a, eph_a);
    let b = pair_ikm(case_b, static_b, eph_b);
    assert(a[0] == case_byte(case_a) && b[0] == case_byte(case_b));
    assert(a.subrange(1, 33) =~= static_a && b.subrange(1, 33) =~= static_b);
    assert(a.subrange(33, 65) =~= eph_a && b.subrange(33, 65) =~= eph_b);
}

/// A pairing secret and a pair's keys never yield the same keying material, and
/// two pairing secrets never share theirs.
pub proof fn law_pairing_keying_is_separate(
    secret: Seq<u8>,
    other: Seq<u8>,
    case: TagCase,
    static_x: Seq<u8>,
    eph_x: Seq<u8>,
)
    ensures
        pairing_ikm(secret) != pair_ikm(case, static_x, eph_x),
        pairing_ikm(secret) == pairing_ikm(other) ==> secret == other,
{
    assert(pairing_ikm(secret)[0] == PAIRING_CASE);
    assert(pair_ikm(case, static_x, eph_x)[0] == case_byte(case));
    let a = pairing_ikm(secret);
    let b = pairing_ikm(other);
    assert(a.subrange(1, a.len() as int) =~= secret);
    assert(b.subrange(1, b.len() as int) =~= other);
}

/// The info string determines the relay host and the epoch.
pub proof fn law_tag_info_is_injective(host_a: Seq<u8>, epoch_a: u64, host_b: Seq<u8>, epoch_b: u64)
    requires
        tag_info(host_a, epoch_a) == tag_info(host_b, epoch_b),
    ensures
        host_a == host_b,
        epoch_a == epoch_b,
{
    let a = tag_info(host_a, epoch_a);
    let b = tag_info(host_b, epoch_b);
    lemma_be_bytes_len(epoch_a as nat, 8);
    lemma_be_bytes_len(epoch_b as nat, 8);
    let n = a.len() as int;
    assert(a.subrange(0, n - 9) =~= host_a && b.subrange(0, n - 9) =~= host_b);
    assert(a.subrange(n - 8, n) =~= be_bytes(epoch_a as nat, 8));
    assert(b.subrange(n - 8, n) =~= be_bytes(epoch_b as nat, 8));
    crate::bytes::lemma_pow256_values();
    lemma_be_round_trip(epoch_a as nat, 8);
    lemma_be_round_trip(epoch_b as nat, 8);
}

} // verus!
