//! The primitives this library takes from outside crates: digests, signatures,
//! key agreement, key derivation, certificates, hexadecimal text and randomness.
//!
//! Every function here is a thin call into one of those crates.  What each of
//! them promises is stated in its contract; a result that is a fixed function of
//! the arguments but too long to write out carries a name instead.
use sha2::Digest;
use crate::id::{PKCS8_ED25519_PREFIX, SPKI_ED25519_PREFIX};
use vstd::prelude::*;
use vstd::string::*;

verus! {

/// The view of an optional byte string.
pub open spec fn opt_bytes(value: Option<Vec<u8>>) -> Option<Seq<u8>> {
    match value {
        Some(bytes) => Some(bytes@),
        None => None,
    }
}

// ---------------------------------------------------------------------------
// SHA-256
// ---------------------------------------------------------------------------

/// The SHA-256 digest of a byte string, as `sha2` computes it.
pub uninterp spec fn sha256_digest(data: Seq<u8>) -> Seq<u8>;

/// `sha2::Sha256::digest`: the digest is a function of the bytes alone.
#[verifier::external_body]
pub(crate) fn sha256(data: &[u8]) -> (digest: [u8; 32])
    ensures
        digest@ == sha256_digest(data@),
{
    sha2::Sha256::digest(data).into()
}

/// The incremental hasher of `sha2`, which holds what it has taken in.
#[verifier::external_body]
pub struct Sha256Hasher {
    inner: sha2::Sha256,
}

/// The bytes a hasher has taken in so far.
pub uninterp spec fn absorbed(hasher: Sha256Hasher) -> Seq<u8>;

/// `sha2::Sha256::new`: a fresh hasher has taken in nothing.
#[verifier::external_body]
pub(crate) fn sha256_start() -> (hasher: Sha256Hasher)
    ensures
        absorbed(hasher) == Seq::<u8>::empty(),
{
    Sha256Hasher { inner: sha2::Sha256::new() }
}

/// `sha2::Sha256::update`: the bytes are taken in after those already there.
#[verifier::external_body]
pub(crate) fn sha256_update(hasher: &mut Sha256Hasher, data: &[u8])
    ensures
        absorbed(*final(hasher)) == absorbed(*old(hasher)) + data@,
{
    hasher.inner.update(data);
}

/// `sha2::Sha256::finalize` on a copy: the digest of everything taken in.
#[verifier::external_body]
pub(crate) fn sha256_finish(hasher: &Sha256Hasher) -> (digest: [u8; 32])
    ensures
        digest@ == sha256_digest(absorbed(*hasher)),
{
    hasher.inner.clone().finalize().into()
}

// ---------------------------------------------------------------------------
// Ed25519
// ---------------------------------------------------------------------------

/// The Ed25519 public key of a 32 byte seed.
pub uninterp spec fn ed25519_public_key(seed: Seq<u8>) -> Seq<u8>;

/// The Ed25519 signature over a message under a 32 byte seed.
pub uninterp spec fn ed25519_signature(seed: Seq<u8>, message: Seq<u8>) -> Seq<u8>;

/// Whether 32 bytes decompress to an Ed25519 public key.
pub uninterp spec fn ed25519_key_decodes(public: Seq<u8>) -> bool;

/// Whether strict verification accepts a signature under a public key.
pub uninterp spec fn ed25519_accepts(
    public: Seq<u8>,
    message: Seq<u8>,
    signature: Seq<u8>,
) -> bool;

/// The public key type of `ed25519_dalek`.
#[verifier::external_type_specification]
#[verifier::external_body]
pub struct ExVerifyingKey(ed25519_dalek::VerifyingKey);

/// `ed25519_dalek::SigningKey::verifying_key`: the public key follows from the
/// seed alone.
#[verifier::external_body]
pub(crate) fn ed25519_public(seed: &[u8; 32]) -> (public: [u8; 32])
    ensures
        public@ == ed25519_public_key(seed@),
{
    ed25519_dalek::SigningKey::from_bytes(seed).verifying_key().to_bytes()
}

/// The encoding of the curve's neutral point.
pub const NEUTRAL_POINT: [u8; 32] = [
    1, 0, 0, 0, 0, 0, 0, 0, 0, 0, 0, 0, 0, 0, 0, 0, 0, 0, 0, 0, 0, 0, 0, 0, 0, 0, 0, 0, 0, 0, 0, 0,
];

/// Whether the nonce point of a signature, which is its first half, is the neutral
/// point.  Strict verification refuses such a signature whoever made it.
pub open spec fn neutral_nonce(signature: Seq<u8>) -> bool {
    signature.subrange(0, 32) == NEUTRAL_POINT@
}

/// `ed25519_dalek::SigningKey::sign`: signatures are deterministic in the seed
/// and the message, and `VerifyingKey::verify_strict` accepts them under the key of the
/// seed, unless the nonce point is the neutral one.
///
/// Both points that strict verification tests for small order are multiples of the base
/// point, whose order is prime, so the neutral point is the only one it could refuse.
/// The key is never that one: its scalar is a multiple of eight below eight times the
/// order.  That the nonce point is not neutral is left unsaid: it depends on a hash of
/// the seed and the message.
#[verifier::external_body]
pub(crate) fn ed25519_sign(seed: &[u8; 32], message: &[u8]) -> (signature: [u8; 64])
    ensures
        signature@ == ed25519_signature(seed@, message@),
        !neutral_nonce(signature@) ==> ed25519_accepts(
            ed25519_public_key(seed@),
            message@,
            signature@,
        ),
{
    ed25519_dalek::Signer::sign(&ed25519_dalek::SigningKey::from_bytes(seed), message).to_bytes()
}

/// `ed25519_dalek::VerifyingKey::from_bytes`: it succeeds exactly on the byte
/// strings that decompress to a curve point.
#[verifier::external_body]
pub(crate) fn ed25519_decode(public: &[u8; 32]) -> (key: Option<ed25519_dalek::VerifyingKey>)
    ensures
        key is Some == ed25519_key_decodes(public@),
{
    ed25519_dalek::VerifyingKey::from_bytes(public).ok()
}

/// `ed25519_dalek::VerifyingKey::verify_strict`: the verdict is a function of the
/// public key, the message and the signature, and a key that does not decode
/// accepts nothing.
#[verifier::external_body]
pub(crate) fn ed25519_verify(public: &[u8; 32], message: &[u8], signature: &[u8; 64]) -> (ok: bool)
    ensures
        ok == ed25519_accepts(public@, message@, signature@),
        ok ==> ed25519_key_decodes(public@),
{
    match ed25519_dalek::VerifyingKey::from_bytes(public) {
        Ok(key) => key
            .verify_strict(message, &ed25519_dalek::Signature::from_bytes(signature))
            .is_ok(),
        Err(_) => false,
    }
}

// ---------------------------------------------------------------------------
// HKDF-SHA256
// ---------------------------------------------------------------------------

/// `len` bytes of HKDF-SHA256 output keying material.
pub uninterp spec fn hkdf_sha256(salt: Seq<u8>, ikm: Seq<u8>, info: Seq<u8>, len: nat) -> Seq<u8>;

/// `hkdf::Hkdf::<Sha256>::new` and `expand`, for sixteen bytes: extract-and-expand
/// is a function of the salt, the input keying material and the info string.
#[verifier::external_body]
pub(crate) fn hkdf_sha256_16(salt: &[u8], ikm: &[u8], info: &[u8]) -> (okm: [u8; 16])
    ensures
        okm@ == hkdf_sha256(salt@, ikm@, info@, 16),
{
    let mut okm = [0u8; 16];
    hkdf::Hkdf::<sha2::Sha256>::new(Some(salt), ikm)
        .expand(info, &mut okm)
        .expect("sixteen bytes are within the HKDF-SHA256 bound");
    okm
}

// ---------------------------------------------------------------------------
// secp256k1
// ---------------------------------------------------------------------------

/// Whether a byte string is a SEC1 encoding of a secp256k1 public key.
pub uninterp spec fn secp256k1_point_decodes(point: Seq<u8>) -> bool;

/// The compressed public key of a 32 byte scalar; `None` for a scalar that is
/// zero or not below the group order.
pub uninterp spec fn secp256k1_public(scalar: Seq<u8>) -> Option<Seq<u8>>;

/// The x-coordinate of the shared point; `None` for an invalid scalar or point.
pub uninterp spec fn secp256k1_ecdh(scalar: Seq<u8>, point: Seq<u8>) -> Option<Seq<u8>>;

/// `k256::PublicKey::from_sec1_bytes`: whether the bytes decode.
#[verifier::external_body]
pub(crate) fn secp256k1_decodes(point: &[u8]) -> (ok: bool)
    ensures
        ok == secp256k1_point_decodes(point@),
{
    k256::PublicKey::from_sec1_bytes(point).is_ok()
}

/// `k256::ecdh::diffie_hellman` over a decoded scalar and point.
///
/// The raw x-coordinate is a function of the two encodings.  Multiplication by
/// scalars commutes, so both owners of a pair of keys reach the same value.
#[verifier::external_body]
pub(crate) fn secp256k1_shared_x(scalar: &[u8; 32], point: &[u8; 33]) -> (x: Option<[u8; 32]>)
    ensures
        match x {
            Some(bytes) => secp256k1_ecdh(scalar@, point@) == Some(bytes@),
            None => secp256k1_ecdh(scalar@, point@) is None,
        },
        x is Some ==> secp256k1_point_decodes(point@) && secp256k1_public(scalar@) is Some,
        forall|other: Seq<u8>|
            #![trigger secp256k1_public(other)]
            secp256k1_public(other) == Some(point@) && secp256k1_public(scalar@) is Some
                ==> x is Some && secp256k1_ecdh(other, secp256k1_public(scalar@)->0) == Some(x->0@),
{
    let secret = k256::SecretKey::from_slice(scalar).ok()?;
    let public = k256::PublicKey::from_sec1_bytes(point).ok()?;
    let shared = k256::ecdh::diffie_hellman(secret.to_nonzero_scalar(), public.as_affine());
    Some((*shared.raw_secret_bytes()).into())
}

/// `k256::SecretKey::random`: which key comes out is chance; the public half is
/// always the one that belongs to the scalar.
#[verifier::external_body]
pub(crate) fn secp256k1_generate() -> (pair: ([u8; 32], [u8; 33]))
    ensures
        secp256k1_public(pair.0@) == Some(pair.1@),
        secp256k1_point_decodes(pair.1@),
        pair.1@[0] == 0x02 || pair.1@[0] == 0x03,
{
    let secret = k256::SecretKey::random(&mut rand::rngs::OsRng);
    let mut compressed = [0u8; 33];
    compressed.copy_from_slice(&secret.public_key().to_sec1_bytes());
    (secret.to_bytes().into(), compressed)
}

// ---------------------------------------------------------------------------
// Certificates
// ---------------------------------------------------------------------------

/// The DER SubjectPublicKeyInfo inside a DER X.509 certificate; `None` when the
/// bytes do not start with one.
pub uninterp spec fn x509_spki(cert: Seq<u8>) -> Option<Seq<u8>>;

/// `x509_parser::parse_x509_certificate`: the raw SubjectPublicKeyInfo of the
/// certificate at the front of the bytes.
#[verifier::external_body]
pub(crate) fn x509_subject_pki(cert: &[u8]) -> (spki: Option<Vec<u8>>)
    ensures
        opt_bytes(spki) == x509_spki(cert@),
{
    let (_, parsed) = x509_parser::parse_x509_certificate(cert).ok()?;
    Some(parsed.tbs_certificate.subject_pki.raw.to_vec())
}

/// The self-signed Ed25519 leaf for a PKCS#8 key and one subject alternative
/// name; `None` when the key or the name is refused.
pub uninterp spec fn rcgen_ed25519_leaf(pkcs8: Seq<u8>, name: Seq<char>) -> Option<Seq<u8>>;

/// `rcgen::CertificateParams::self_signed` with an empty subject: dates are fixed,
/// the serial comes from the key and Ed25519 is deterministic, so the leaf
/// follows from the key and the name.  For a PKCS#8 key in the form that RFC 8410
/// gives an Ed25519 seed, the leaf's SubjectPublicKeyInfo is the Ed25519 form of
/// the seed's public key.
#[verifier::external_body]
pub(crate) fn issue_ed25519_leaf(pkcs8: &[u8], name: &str) -> (cert: Option<Vec<u8>>)
    ensures
        opt_bytes(cert) == rcgen_ed25519_leaf(pkcs8@, name@),
        cert matches Some(der) ==> pkcs8@.len() == 48 && pkcs8@.subrange(0, 16)
            == PKCS8_ED25519_PREFIX@ ==> x509_spki(der@) == Some(
            SPKI_ED25519_PREFIX@ + ed25519_public_key(pkcs8@.subrange(16, 48)),
        ),
{
    let key = rcgen::KeyPair::from_pkcs8_der_and_sign_algo(
        &rustls::pki_types::PrivatePkcs8KeyDer::from(pkcs8),
        &rcgen::PKCS_ED25519,
    ).ok()?;
    let mut params = rcgen::CertificateParams::new(vec![name.to_string()]).ok()?;
    params.distinguished_name = rcgen::DistinguishedName::new();
    Some(params.self_signed(&key).ok()?.der().to_vec())
}

/// `rcgen::CertificateParams::self_signed` under a key from
/// `rcgen::KeyPair::generate`: the certificate and the key are chance, so nothing
/// is promised of their bytes.  The first of the pair is the certificate.  A name
/// that is not ASCII is refused.
#[verifier::external_body]
pub(crate) fn issue_random_leaf(names: Vec<String>) -> (pair: Option<(Vec<u8>, Vec<u8>)>)
    ensures
        pair is Some ==> forall|i: int|
            0 <= i < names@.len() ==> vstd::utf8::is_ascii_chars((#[trigger] names@[i])@),
{
    let key = rcgen::KeyPair::generate().ok()?;
    let cert = rcgen::CertificateParams::new(names).ok()?.self_signed(&key).ok()?;
    Some((cert.der().to_vec(), key.serialize_der()))
}

// ---------------------------------------------------------------------------
// Hexadecimal and base64 text
// ---------------------------------------------------------------------------

/// The lower-case digit of a number below sixteen.
pub open spec fn hex_digit(value: int) -> char {
    if value < 10 {
        (0x30 + value) as char
    } else {
        (0x57 + value) as char
    }
}

/// Two lower-case digits for each byte, the high half first.
pub open spec fn hex_text(bytes: Seq<u8>) -> Seq<char> {
    Seq::new(
        2 * bytes.len(),
        |i: int|
            hex_digit(
                if i % 2 == 0 {
                    bytes[i / 2] as int / 16
                } else {
                    bytes[i / 2] as int % 16
                },
            ),
    )
}

/// Whether a byte is an ASCII hexadecimal digit of either case.
pub open spec fn is_hex_digit(c: u8) -> bool {
    (0x30 <= c <= 0x39) || (0x41 <= c <= 0x46) || (0x61 <= c <= 0x66)
}

/// The value of a hexadecimal digit.
pub open spec fn hex_digit_value(c: u8) -> int {
    if c <= 0x39 {
        c - 0x30
    } else if c <= 0x46 {
        c - 0x41 + 10
    } else {
        c - 0x61 + 10
    }
}

/// An even number of hexadecimal digits.
pub open spec fn is_hex(text: Seq<u8>) -> bool {
    text.len() % 2 == 0 && forall|i: int| 0 <= i < text.len() ==> is_hex_digit(#[trigger] text[i])
}

/// The bytes that an even number of hexadecimal digits spells.
pub open spec fn unhex(text: Seq<u8>) -> Seq<u8> {
    Seq::new(
        text.len() / 2,
        |i: int| (16 * hex_digit_value(text[2 * i]) + hex_digit_value(text[2 * i + 1])) as u8,
    )
}

/// `hex::encode`: two lower-case digits for each byte.
#[verifier::external_body]
pub(crate) fn hex_encode(bytes: &[u8]) -> (text: String)
    requires
        2 * bytes@.len() <= isize::MAX,
    ensures
        text@ == hex_text(bytes@),
{
    hex::encode(bytes)
}

/// `hex::decode`: digits of either case, in pairs; anything else is refused.
#[verifier::external_body]
pub(crate) fn hex_decode(text: &str) -> (bytes: Option<Vec<u8>>)
    ensures
        bytes is Some <==> is_hex(text.spec_bytes()),
        bytes matches Some(b) ==> b@ == unhex(text.spec_bytes()),
{
    hex::decode(text).ok()
}

/// The bytes that padded standard base64 text spells; `None` when it is not that.
pub uninterp spec fn base64_standard(text: Seq<char>) -> Option<Seq<u8>>;

/// `base64`'s standard engine: decoding is a function of the text.
#[verifier::external_body]
pub(crate) fn base64_decode(text: &str) -> (bytes: Option<Vec<u8>>)
    ensures
        opt_bytes(bytes) == base64_standard(text@),
{
    base64::Engine::decode(&base64::engine::general_purpose::STANDARD, text).ok()
}

// ---------------------------------------------------------------------------
// Randomness and erasure
// ---------------------------------------------------------------------------

/// `rand::rngs::OsRng::fill_bytes`: the bytes are chance; only their number is
/// fixed.
#[verifier::external_body]
pub(crate) fn fill_random(bytes: &mut [u8])
    ensures
        final(bytes)@.len() == old(bytes)@.len(),
{
    rand::RngCore::fill_bytes(&mut rand::rngs::OsRng, bytes);
}

/// `zeroize::Zeroize::zeroize`: every byte becomes zero.
#[verifier::external_body]
pub(crate) fn wipe(bytes: &mut [u8])
    ensures
        final(bytes)@ == Seq::new(old(bytes)@.len(), |i: int| 0u8),
{
    zeroize::Zeroize::zeroize(bytes);
}

} // verus!
