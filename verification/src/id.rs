//! Node identity: Ed25519 transport keys, node IDs, SPKI and the synthetic address.
use crate::bytes::{append, array_at, bytes_eq, fixed, same_array, write_at};
use crate::crypto::{
    ed25519_decode, ed25519_public, ed25519_sign, ed25519_verify, fill_random, hex_decode,
    hex_encode, sha256, x509_subject_pki,
};
use crate::net::{IpAddr, SocketAddr};
use crate::text::write_text;
use vstd::prelude::*;
use vstd::slice::slice_subrange;
use vstd::string::*;
use vstd::utf8::*;

verus! {

/// Domain separator for the synthetic address derivation:
/// `forgesworn-link/addr/v1` and a zero byte.
pub const ADDR_DOMAIN: [u8; 24] = [
    0x66, 0x6f, 0x72, 0x67, 0x65, 0x73, 0x77, 0x6f, 0x72, 0x6e, 0x2d, 0x6c, 0x69, 0x6e, 0x6b, 0x2f,
    0x61, 0x64, 0x64, 0x72, 0x2f, 0x76, 0x31, 0x00,
];

/// DER prefix of a SubjectPublicKeyInfo carrying an id-Ed25519 key, RFC 8410.
pub const SPKI_ED25519_PREFIX: [u8; 12] = [
    0x30, 0x2a, 0x30, 0x05, 0x06, 0x03, 0x2b, 0x65, 0x70, 0x03, 0x21, 0x00,
];

/// PKCS#8 v1 prefix for an id-Ed25519 private key, RFC 8410 section 7.
pub const PKCS8_ED25519_PREFIX: [u8; 16] = [
    0x30, 0x2e, 0x02, 0x01, 0x00, 0x30, 0x05, 0x06, 0x03, 0x2b, 0x65, 0x70, 0x04, 0x22, 0x04, 0x20,
];

/// The port every synthetic address uses.
pub const SYNTHETIC_PORT: u16 = 7;

// ---------------------------------------------------------------------------
// Base32
// ---------------------------------------------------------------------------

/// The lower-case base32 symbol of a number below 32: `a` to `z`, then `2` to `7`.
pub open spec fn base32_symbol(value: u32) -> char {
    if value < 26 {
        (0x61 + value) as char
    } else {
        (0x18 + value) as char
    }
}

/// The five bits of `bytes` that start at bit `5 * k`, the highest bit of the
/// first byte being bit zero.  Bits past the end are zero.
pub open spec fn base32_digit(bytes: Seq<u8>, k: int) -> u32 {
    let at = 5 * k / 8;
    let first = bytes[at] as u32;
    let second = if at + 1 < bytes.len() {
        bytes[at + 1] as u32
    } else {
        0u32
    };
    window5(first, second, (5 * k % 8) as u32)
}

/// Five bits out of two bytes, `offset` bits in.
pub open spec fn window5(first: u32, second: u32, offset: u32) -> u32 {
    ((first << 8 | second) >> ((11 - offset) as u32)) & 31
}

/// The 52 symbols of a 32 byte identity.
pub open spec fn base32_text(bytes: Seq<u8>) -> Seq<char> {
    Seq::new(52, |k: int| base32_symbol(base32_digit(bytes, k)))
}

/// Byte `j` out of the five-bit digits that cover it.
pub open spec fn base32_byte(digits: Seq<u32>, j: int) -> u32 {
    let at = 8 * j / 5;
    window8(digits[at], digits[at + 1], digits[at + 2], (8 * j % 5) as u32)
}

/// Eight bits out of three five-bit digits, `offset` bits in.
pub open spec fn window8(first: u32, second: u32, third: u32, offset: u32) -> u32 {
    ((first << 10 | second << 5 | third) >> ((7 - offset) as u32)) & 255
}

/// A symbol is an ASCII character that belongs to one number only.
proof fn lemma_symbol(a: u32, b: u32)
    requires
        a < 32,
        b < 32,
    ensures
        base32_symbol(a) as int == if a < 26 {
            0x61 + a
        } else {
            0x18 + a
        },
        base32_symbol(a) == base32_symbol(b) ==> a == b,
{
}

proof fn lemma_window5_bound(first: u32, second: u32, offset: u32)
    ensures
        window5(first, second, offset) < 32,
{
    let shift = (11 - offset) as u32;
    assert(((first << 8 | second) >> shift) & 31 < 32) by (bit_vector);
}

/// The byte read back from the digits around it is the byte that was spelled.
proof fn lemma_byte_of_digits(bytes: Seq<u8>, digits: Seq<u32>, j: int)
    requires
        bytes.len() == 32,
        digits.len() == 52,
        forall|k: int| 0 <= k < 52 ==> #[trigger] digits[k] == base32_digit(bytes, k),
        0 <= j < 32,
    ensures
        base32_byte(digits, j) == bytes[j] as u32,
{
    let c = 8 * j / 5;
    let p = if j > 0 { bytes[j - 1] as u32 } else { 0u32 };
    let q = bytes[j] as u32;
    let s = if j + 1 < 32 { bytes[j + 1] as u32 } else { 0u32 };
    let t = if j + 2 < 32 { bytes[j + 2] as u32 } else { 0u32 };
    let d0 = digits[c];
    let d1 = digits[c + 1];
    let d2 = digits[c + 2];
    assert(d0 == base32_digit(bytes, c));
    assert(d1 == base32_digit(bytes, c + 1));
    assert(d2 == base32_digit(bytes, c + 2));
    if 8 * j % 5 == 0 {
        assert(5 * c == 8 * j);
        assert(d0 == window5(q, s, 0) && d1 == window5(q, s, 5) && d2 == window5(s, t, 2));
        assert(((((q << 8 | s) >> 11u32) & 31) << 10 | (((q << 8 | s) >> 6u32) & 31) << 5 | ((
        s << 8 | t) >> 9u32) & 31) >> 7u32 & 255 == q) by (bit_vector)
            requires
                q < 256,
                s < 256,
                t < 256,
        ;
    } else if 8 * j % 5 == 1 {
        assert(5 * c == 8 * j - 1);
        assert(d0 == window5(p, q, 7) && d1 == window5(q, s, 4) && d2 == window5(s, t, 1));
        assert(((((p << 8 | q) >> 4u32) & 31) << 10 | (((q << 8 | s) >> 7u32) & 31) << 5 | ((
        s << 8 | t) >> 10u32) & 31) >> 6u32 & 255 == q) by (bit_vector)
            requires
                p < 256,
                q < 256,
                s < 256,
                t < 256,
        ;
    } else if 8 * j % 5 == 2 {
        assert(5 * c == 8 * j - 2);
        assert(d0 == window5(p, q, 6) && d1 == window5(q, s, 3) && d2 == window5(s, t, 0));
        assert(((((p << 8 | q) >> 5u32) & 31) << 10 | (((q << 8 | s) >> 8u32) & 31) << 5 | ((
        s << 8 | t) >> 11u32) & 31) >> 5u32 & 255 == q) by (bit_vector)
            requires
                p < 256,
                q < 256,
                s < 256,
                t < 256,
        ;
    } else if 8 * j % 5 == 3 {
        assert(5 * c == 8 * j - 3);
        assert(d0 == window5(p, q, 5) && d1 == window5(q, s, 2) && d2 == window5(q, s, 7));
        assert(((((p << 8 | q) >> 6u32) & 31) << 10 | (((q << 8 | s) >> 9u32) & 31) << 5 | ((
        q << 8 | s) >> 4u32) & 31) >> 4u32 & 255 == q) by (bit_vector)
            requires
                p < 256,
                q < 256,
                s < 256,
        ;
    } else {
        assert(5 * c == 8 * j - 4);
        assert(d0 == window5(p, q, 4) && d1 == window5(q, s, 1) && d2 == window5(q, s, 6));
        assert(((((p << 8 | q) >> 7u32) & 31) << 10 | (((q << 8 | s) >> 10u32) & 31) << 5 | ((
        q << 8 | s) >> 5u32) & 31) >> 3u32 & 255 == q) by (bit_vector)
            requires
                p < 256,
                q < 256,
                s < 256,
        ;
    }
}

proof fn lemma_text_at(bytes: Seq<u8>, k: int)
    requires
        0 <= k < 52,
    ensures
        base32_text(bytes).len() == 52,
        base32_text(bytes)[k] == base32_symbol(base32_digit(bytes, k)),
{
}

/// Distinct identities have distinct base32 texts.
pub proof fn law_base32_is_injective(a: NodeId, b: NodeId)
    requires
        base32_text(a.0@) == base32_text(b.0@),
    ensures
        a == b,
{
    let digits = Seq::new(52, |k: int| base32_digit(a.0@, k));
    assert forall|k: int| 0 <= k < 52 implies #[trigger] digits[k] == base32_digit(b.0@, k) by {
        assert(base32_text(a.0@)[k] == base32_text(b.0@)[k]);
        lemma_digit_bound(a.0@, k);
        lemma_digit_bound(b.0@, k);
        lemma_text_at(a.0@, k);
        lemma_text_at(b.0@, k);
        lemma_symbol(base32_digit(a.0@, k), base32_digit(b.0@, k));
    }
    assert forall|j: int| 0 <= j < 32 implies #[trigger] a.0@[j] == b.0@[j] by {
        lemma_byte_of_digits(a.0@, digits, j);
        lemma_byte_of_digits(b.0@, digits, j);
    }
    assert(a.0 =~= b.0);
}

proof fn lemma_digit_bound(bytes: Seq<u8>, k: int)
    ensures
        base32_digit(bytes, k) < 32,
{
    let at = 5 * k / 8;
    let second = if at + 1 < bytes.len() {
        bytes[at + 1] as u32
    } else {
        0u32
    };
    lemma_window5_bound(bytes[at] as u32, second, (5 * k % 8) as u32);
}

proof fn lemma_base32_text_ascii(bytes: Seq<u8>)
    ensures
        is_ascii_chars(base32_text(bytes)),
{
    assert forall|k: int| 0 <= k < 52 implies #[trigger] base32_text(bytes)[k] as nat <= 127 by {
        lemma_digit_bound(bytes, k);
    }
}

/// Fifty-two bytes that are, one for one, the characters of `text`.
spec fn spells(bytes: Seq<u8>, text: Seq<char>) -> bool {
    bytes.len() == 52 && text.len() == 52 && forall|k: int|
        0 <= k < 52 ==> #[trigger] bytes[k] as char == text[k]
}

/// The number of a base32 symbol, or `None` for any other byte.
fn base32_value(symbol: u8) -> (r: Option<u32>)
    ensures
        r matches Some(value) ==> value < 32 && base32_symbol(value) == symbol as char,
        r is None ==> forall|value: u32| value < 32 ==> base32_symbol(value) != symbol as char,
{
    if 0x61 <= symbol && symbol <= 0x7a {
        Some((symbol - 0x61) as u32)
    } else if 0x32 <= symbol && symbol <= 0x37 {
        Some((symbol - 0x18) as u32)
    } else {
        None
    }
}

/// A node ID is the 32 byte Ed25519 public key of the transport key.
#[derive(Clone, Copy, PartialEq, Eq, PartialOrd, Ord, Hash)]
pub struct NodeId(pub [u8; 32]);

impl NodeId {
    /// Whether two identities are the same.
    pub fn same(&self, other: &Self) -> (r: bool)
        ensures
            r == (*self == *other),
    {
        same_array(&self.0, &other.0)
    }
}

/// `label(base32)`.
fn labelled(label: &str, id: &NodeId) -> (r: String)
    ensures
        r@ == label@ + seq!['('] + base32_text(id.0@) + seq![')'],
{
    let mut out = label.to_owned();
    out.push('(');
    let mut out = out.concat(id.to_base32().as_str());
    out.push(')');
    assert(out@ =~= label@ + seq!['('] + base32_text(id.0@) + seq![')']);
    out
}

impl core::fmt::Debug for NodeId {
    fn fmt(&self, f: &mut core::fmt::Formatter<'_>) -> core::fmt::Result {
        write_text(f, labelled("NodeId", self).as_str())
    }
}

impl core::fmt::Display for NodeId {
    fn fmt(&self, f: &mut core::fmt::Formatter<'_>) -> core::fmt::Result {
        write_text(f, self.to_base32().as_str())
    }
}

/// The octets of an identity's synthetic address: the prefix `fd00::/16` and 112
/// bits of the domain-separated digest.
pub open spec fn synthetic_octets(id: Seq<u8>) -> Seq<u8> {
    seq![0xfdu8, 0x00u8] + crate::crypto::sha256_digest(ADDR_DOMAIN@ + id).subrange(0, 14)
}

impl NodeId {
    /// The 32 bytes.
    pub fn as_bytes(&self) -> (r: &[u8; 32])
        ensures
            *r == self.0,
    {
        &self.0
    }

    /// The identity with these bytes, when there are exactly 32.
    pub fn from_slice(bytes: &[u8]) -> (r: Option<Self>)
        ensures
            r is Some <==> bytes@.len() == 32,
            r matches Some(id) ==> id.0@ == bytes@,
    {
        match fixed::<32>(bytes) {
            Some(array) => Some(NodeId(array)),
            None => None,
        }
    }

    /// The identity that 64 hexadecimal digits of either case spell.
    pub fn from_hex(text: &str) -> (r: Option<Self>)
        ensures
            r is Some <==> crate::crypto::is_hex(text.spec_bytes()) && text.spec_bytes().len()
                == 64,
            r matches Some(id) ==> id.0@ == crate::crypto::unhex(text.spec_bytes()),
    {
        match hex_decode(text) {
            Some(raw) => Self::from_slice(raw.as_slice()),
            None => None,
        }
    }

    /// The identity as 64 lower-case hexadecimal digits.
    pub fn to_hex(&self) -> (r: String)
        ensures
            r@ == crate::crypto::hex_text(self.0@),
    {
        hex_encode(&self.0)
    }

    /// Lowercase RFC 4648 base32 with no padding, 52 characters.
    pub fn to_base32(&self) -> (r: String)
        ensures
            r@ == base32_text(self.0@),
            r@.len() == 52,
    {
        let mut out = String::new();
        let mut k: usize = 0;
        while k < 52
            invariant
                k <= 52,
                out@.len() == k,
                forall|i: int|
                    0 <= i < k ==> #[trigger] out@[i] == base32_symbol(base32_digit(self.0@, i)),
            decreases 52 - k,
        {
            let at: usize = 5 * k / 8;
            let offset: u32 = (5 * k % 8) as u32;
            let first: u32 = self.0[at] as u32;
            let second: u32 = if at + 1 < 32 {
                self.0[at + 1] as u32
            } else {
                0
            };
            let value: u32 = ((first << 8 | second) >> (11 - offset)) & 31;
            proof {
                assert(value == base32_digit(self.0@, k as int));
                lemma_digit_bound(self.0@, k as int);
            }
            let code: u8 = if value < 26 {
                (0x61 + value) as u8
            } else {
                (0x18 + value) as u8
            };
            out.push(code as char);
            k += 1;
        }
        assert(out@ =~= base32_text(self.0@));
        out
    }

    /// The identity whose base32 text this is.  Exactly one spelling names a node:
    /// the low four bits of the last symbol are padding and have to be zero, and
    /// upper case is refused.
    pub fn from_base32(text: &str) -> (r: Option<Self>)
        ensures
            r matches Some(id) ==> text@ == base32_text(id.0@),
            r is None ==> forall|id: NodeId| text@ != #[trigger] base32_text(id.0@),
    {
        broadcast use is_ascii_spec_bytes;

        let bytes = text.as_bytes();
        proof {
            assert forall|id: NodeId| text@ == #[trigger] base32_text(id.0@) implies spells(
                bytes@,
                text@,
            ) by {
                lemma_base32_text_ascii(id.0@);
                assert(text.is_ascii());
                assert forall|k: int| 0 <= k < 52 implies #[trigger] bytes@[k] as char
                    == text@[k] by {}
            }
        }
        if bytes.len() != 52 {
            return None;
        }
        let mut digits: Vec<u32> = Vec::new();
        let mut k: usize = 0;
        while k < 52
            invariant
                k <= 52,
                bytes@.len() == 52,
                digits@.len() == k,
                forall|i: int|
                    0 <= i < k ==> #[trigger] digits@[i] < 32 && base32_symbol(digits@[i])
                        == bytes@[i] as char,
                forall|id: NodeId| text@ == #[trigger] base32_text(id.0@) ==> spells(bytes@, text@),
            decreases 52 - k,
        {
            match base32_value(bytes[k]) {
                Some(value) => {
                    digits.push(value);
                },
                None => {
                    proof {
                        assert forall|id: NodeId| text@ != #[trigger] base32_text(id.0@) by {
                            if text@ == base32_text(id.0@) {
                                lemma_digit_bound(id.0@, k as int);
                                lemma_text_at(id.0@, k as int);
                                assert(bytes@[k as int] as char == text@[k as int]);
                            }
                        }
                    }
                    return None;
                },
            }
            k += 1;
        }
        let mut out = [0u8; 32];
        let mut j: usize = 0;
        while j < 32
            invariant
                j <= 32,
                digits@.len() == 52,
                forall|i: int| 0 <= i < j ==> #[trigger] out@[i] as u32 == base32_byte(digits@, i),
            decreases 32 - j,
        {
            let at: usize = 8 * j / 5;
            let offset: u32 = (8 * j % 5) as u32;
            let value: u32 = ((digits[at] << 10 | digits[at + 1] << 5 | digits[at + 2]) >> (7
                - offset)) & 255;
            proof {
                let d0 = digits@[at as int];
                let d1 = digits@[at + 1];
                let d2 = digits@[at + 2];
                let shift = (7 - offset) as u32;
                assert(((d0 << 10 | d1 << 5 | d2) >> shift) & 255 < 256) by (bit_vector);
            }
            out[j] = value as u8;
            j += 1;
        }
        let id = NodeId(out);
        proof {
            assert forall|other: NodeId| text@ == #[trigger] base32_text(other.0@) implies other
                == id by {
                assert forall|i: int| 0 <= i < 52 implies #[trigger] digits@[i] == base32_digit(
                    other.0@,
                    i,
                ) by {
                    lemma_digit_bound(other.0@, i);
                    lemma_text_at(other.0@, i);
                    lemma_symbol(digits@[i], base32_digit(other.0@, i));
                    assert(bytes@[i] as char == text@[i]);
                }
                assert forall|i: int| 0 <= i < 32 implies #[trigger] other.0@[i] == id.0@[i] by {
                    lemma_byte_of_digits(other.0@, digits@, i);
                    assert(out@[i] as u32 == base32_byte(digits@, i));
                }
                assert(other.0 =~= id.0);
            }
        }
        let canonical = id.to_base32();
        let same = bytes_eq(canonical.as_str().as_bytes(), bytes);
        proof {
            encode_utf8_decode_utf8(text@);
            encode_utf8_decode_utf8(canonical@);
        }
        if same {
            Some(id)
        } else {
            None
        }
    }

    /// The decoded public key, when the bytes are a point of the curve.
    pub fn verifying_key(&self) -> (r: Option<ed25519_dalek::VerifyingKey>)
        ensures
            r is Some == crate::crypto::ed25519_key_decodes(self.0@),
    {
        ed25519_decode(&self.0)
    }

    /// The DER SubjectPublicKeyInfo for this node ID.
    pub fn spki_der(&self) -> (r: [u8; 44])
        ensures
            r@ == SPKI_ED25519_PREFIX@ + self.0@,
    {
        let mut out = [0u8; 44];
        write_at(&mut out, 0, &SPKI_ED25519_PREFIX);
        write_at(&mut out, 12, &self.0);
        assert(out@ =~= SPKI_ED25519_PREFIX@ + self.0@);
        out
    }

    /// The stable synthetic address QUIC uses for this peer.
    pub fn synthetic_addr(&self) -> (r: SocketAddr)
        ensures
            r.port == SYNTHETIC_PORT,
            r.flowinfo == 0,
            r.scope_id == 0,
            r.ip matches IpAddr::V6(octets) && octets@ == synthetic_octets(self.0@),
    {
        let mut input: Vec<u8> = Vec::new();
        append(&mut input, &ADDR_DOMAIN);
        append(&mut input, &self.0);
        proof {
            assert(input@ =~= ADDR_DOMAIN@ + self.0@);
        }
        let digest = sha256(input.as_slice());
        let mut octets = [0u8; 16];
        octets[0] = 0xfd;
        octets[1] = 0x00;
        write_at(&mut octets, 2, slice_subrange(&digest, 0, 14));
        assert(octets@ =~= synthetic_octets(self.0@));
        SocketAddr::new(IpAddr::V6(octets), SYNTHETIC_PORT)
    }

    /// Strict verification, so a signed byte string has exactly one valid
    /// signature encoding and card bytes can serve as a dedup key.
    pub fn verify(&self, message: &[u8], signature: &[u8; 64]) -> (r: bool)
        ensures
            r == crate::crypto::ed25519_accepts(self.0@, message@, signature@),
    {
        ed25519_verify(&self.0, message, signature)
    }
}

/// The node ID that a DER SubjectPublicKeyInfo carries, if it is an Ed25519 key.
pub open spec fn spki_identity(der: Seq<u8>) -> Option<Seq<u8>> {
    if der.len() == 44 && der.subrange(0, 12) == SPKI_ED25519_PREFIX@ {
        Some(der.subrange(12, 44))
    } else {
        None
    }
}

/// The view of an optional identity.
pub open spec fn opt_id(id: Option<NodeId>) -> Option<Seq<u8>> {
    match id {
        Some(id) => Some(id.0@),
        None => None,
    }
}

/// Recover a node ID from a DER SubjectPublicKeyInfo, rejecting any other key type.
pub fn node_id_from_spki(der: &[u8]) -> (r: Option<NodeId>)
    ensures
        opt_id(r) == spki_identity(der@),
{
    if der.len() != 44 || !bytes_eq(slice_subrange(der, 0, 12), &SPKI_ED25519_PREFIX) {
        return None;
    }
    Some(NodeId(array_at::<32>(der, 12)))
}

/// The node ID inside a certificate, given what the certificate parser found.
pub open spec fn cert_identity(spki: Option<Seq<u8>>) -> Option<Seq<u8>> {
    match spki {
        Some(der) => spki_identity(der),
        None => None,
    }
}

/// The node ID behind the SubjectPublicKeyInfo that a certificate parser found.
pub fn node_id_from_parsed_spki(spki: &Option<Vec<u8>>) -> (r: Option<NodeId>)
    ensures
        opt_id(r) == cert_identity(crate::crypto::opt_bytes(*spki)),
{
    match spki {
        Some(der) => node_id_from_spki(der.as_slice()),
        None => None,
    }
}

/// Recover a node ID from a DER X.509 certificate by reading its SPKI.
pub fn node_id_from_cert_der(cert: &[u8]) -> (r: Option<NodeId>)
    ensures
        opt_id(r) == cert_identity(crate::crypto::x509_spki(cert@)),
{
    node_id_from_parsed_spki(&x509_subject_pki(cert))
}

/// The SubjectPublicKeyInfo of an identity names that identity and no other.
pub proof fn law_spki_round_trip(id: NodeId)
    ensures
        spki_identity(SPKI_ED25519_PREFIX@ + id.0@) == Some(id.0@),
{
    let der = SPKI_ED25519_PREFIX@ + id.0@;
    assert(der.subrange(0, 12) =~= SPKI_ED25519_PREFIX@);
    assert(der.subrange(12, 44) =~= id.0@);
}

/// The long-lived transport key of one node.
pub struct TransportKey {
    seed: [u8; 32],
    node_id: NodeId,
}

impl core::fmt::Debug for TransportKey {
    fn fmt(&self, f: &mut core::fmt::Formatter<'_>) -> core::fmt::Result {
        write_text(f, labelled("TransportKey", &self.node_id).as_str())
    }
}

impl Clone for TransportKey {
    fn clone(&self) -> (r: Self)
        ensures
            r == *self,
    {
        proof {
            use_type_invariant(self);
        }
        TransportKey { seed: self.seed, node_id: self.node_id }
    }
}

impl TransportKey {
    /// The secret seed.
    pub closed spec fn spec_seed(self) -> Seq<u8> {
        self.seed@
    }

    /// The identity, which is the public key of the seed.
    pub closed spec fn id(self) -> NodeId {
        self.node_id
    }

    /// The stored identity belongs to the stored seed.
    #[verifier::type_invariant]
    spec fn well_formed(self) -> bool {
        self.node_id.0@ == crate::crypto::ed25519_public_key(self.seed@)
    }

    /// The key with this seed.
    pub fn from_seed(seed: [u8; 32]) -> (r: Self)
        ensures
            r.spec_seed() == seed@,
            r.id().0@ == crate::crypto::ed25519_public_key(seed@),
    {
        let node_id = NodeId(ed25519_public(&seed));
        TransportKey { seed, node_id }
    }

    /// A fresh key from the operating system's randomness.
    pub fn generate() -> (r: Self)
        ensures
            r.id().0@ == crate::crypto::ed25519_public_key(r.spec_seed()),
    {
        let mut seed = [0u8; 32];
        fill_random(&mut seed);
        Self::from_seed(seed)
    }

    /// The seed this key was made from.
    pub fn seed(&self) -> (r: [u8; 32])
        ensures
            r@ == self.spec_seed(),
    {
        self.seed
    }

    /// The identity of this key.
    pub fn node_id(&self) -> (r: NodeId)
        ensures
            r == self.id(),
            r.0@ == crate::crypto::ed25519_public_key(self.spec_seed()),
    {
        proof {
            use_type_invariant(self);
        }
        self.node_id
    }

    /// Sign a message.
    pub fn sign(&self, message: &[u8]) -> (r: [u8; 64])
        ensures
            r@ == crate::crypto::ed25519_signature(self.spec_seed(), message@),
            !crate::crypto::neutral_nonce(r@) ==> crate::crypto::ed25519_accepts(
                self.id().0@,
                message@,
                r@,
            ),
    {
        proof {
            use_type_invariant(self);
        }
        ed25519_sign(&self.seed, message)
    }

    /// PKCS#8 v1 DER, which is what certificate libraries want.
    pub fn pkcs8_der(&self) -> (r: [u8; 48])
        ensures
            r@ == PKCS8_ED25519_PREFIX@ + self.spec_seed(),
    {
        let mut out = [0u8; 48];
        write_at(&mut out, 0, &PKCS8_ED25519_PREFIX);
        write_at(&mut out, 16, &self.seed);
        assert(out@ =~= PKCS8_ED25519_PREFIX@ + self.seed@);
        out
    }
}

} // verus!
