//! Everything on the wire that is not the card: relay frames, relay auth, the
//! reflector and the probes, signed or sealed.
use crate::bytes::{
    append, array_at, be16, be_bytes, be_value, bytes_eq, fixed, lemma_be_bytes_len,
    lemma_be_round_trip, lemma_be_value, lemma_pow256_values, to_be16, to_vec, write_at,
};
use crate::card::{mapped_octets, to_ipv6};
use crate::crypto::{
    ed25519_accepts, ed25519_signature, hkdf_sha256, hkdf_sha256_16, neutral_nonce,
};
use crate::id::{NodeId, TransportKey};
use crate::net::{IpAddr, SocketAddr};
use crate::rendezvous::{Tag, TAG_BYTES};
use vstd::prelude::*;
use vstd::slice::slice_subrange;
use vstd::string::*;

verus! {

/// `forgesworn-link/relay-auth/v1` and a zero byte.
pub const RELAY_AUTH_DOMAIN: [u8; 30] = [
    0x66, 0x6f, 0x72, 0x67, 0x65, 0x73, 0x77, 0x6f, 0x72, 0x6e, 0x2d, 0x6c, 0x69, 0x6e, 0x6b, 0x2f,
    0x72, 0x65, 0x6c, 0x61, 0x79, 0x2d, 0x61, 0x75, 0x74, 0x68, 0x2f, 0x76, 0x31, 0x00,
];

/// `forgesworn-link/probe/v1` and a zero byte.
pub const PROBE_DOMAIN: [u8; 25] = [
    0x66, 0x6f, 0x72, 0x67, 0x65, 0x73, 0x77, 0x6f, 0x72, 0x6e, 0x2d, 0x6c, 0x69, 0x6e, 0x6b, 0x2f,
    0x70, 0x72, 0x6f, 0x62, 0x65, 0x2f, 0x76, 0x31, 0x00,
];

/// Largest QUIC datagram a relay frame may carry.
pub const MAX_DATAGRAM: usize = 1350;

/// At most this many frames may be queued outbound per relay session.
pub const MAX_QUEUED_FRAMES: usize = 64;

/// A relay session with no ping for this long is closed.
pub const IDLE_CLOSE_SECONDS: u64 = 90;

/// Close reason for an oversize or malformed frame.
pub const CLOSE_REASON_MALFORMED: u16 = 1;

/// Close reason for a session whose place a newer one took.
pub const CLOSE_REASON_SUPERSEDED: u16 = 2;

// ---------------------------------------------------------------------------
// Relay auth
// ---------------------------------------------------------------------------

/// `domain || u16 len || relay_host || challenge`.
pub open spec fn relay_auth_input(host: Seq<u8>, challenge: Seq<u8>) -> Seq<u8> {
    RELAY_AUTH_DOMAIN@ + be_bytes(host.len() % 0x1_0000, 2) + host + challenge
}

/// What a node signs to prove itself to a relay.  The host is length-prefixed so
/// the input cannot be re-split against another relay.
pub fn relay_auth_signing_input(relay_host: &str, challenge: &[u8; 32]) -> (r: Vec<u8>)
    ensures
        r@ == relay_auth_input(relay_host.spec_bytes(), challenge@),
{
    let host = relay_host.as_bytes();
    let length: u16 = (host.len() % 0x1_0000) as u16;
    let mut out: Vec<u8> = Vec::new();
    append(&mut out, &RELAY_AUTH_DOMAIN);
    append(&mut out, &to_be16(length));
    append(&mut out, host);
    append(&mut out, challenge);
    assert(out@ =~= relay_auth_input(relay_host.spec_bytes(), challenge@));
    out
}

/// The signature of a seed over a relay's challenge.
pub open spec fn relay_auth_signature(
    seed: Seq<u8>,
    host: Seq<u8>,
    challenge: Seq<u8>,
) -> Seq<u8> {
    ed25519_signature(seed, relay_auth_input(host, challenge))
}

/// Whether a signature answers a relay's challenge for a node.
pub open spec fn relay_auth_accepted(
    node_id: NodeId,
    host: Seq<u8>,
    challenge: Seq<u8>,
    signature: Seq<u8>,
) -> bool {
    ed25519_accepts(node_id.0@, relay_auth_input(host, challenge), signature)
}

/// Sign a relay's challenge.
pub fn sign_relay_auth(key: &TransportKey, relay_host: &str, challenge: &[u8; 32]) -> (r: [u8; 64])
    ensures
        r@ == relay_auth_signature(key.spec_seed(), relay_host.spec_bytes(), challenge@),
        !neutral_nonce(r@) ==> relay_auth_accepted(
            key.id(),
            relay_host.spec_bytes(),
            challenge@,
            r@,
        ),
{
    key.sign(relay_auth_signing_input(relay_host, challenge).as_slice())
}

/// Whether a signature answers this relay's challenge.
pub fn verify_relay_auth(
    node_id: &NodeId,
    relay_host: &str,
    challenge: &[u8; 32],
    signature: &[u8; 64],
) -> (r: bool)
    ensures
        r == relay_auth_accepted(*node_id, relay_host.spec_bytes(), challenge@, signature@),
{
    node_id.verify(relay_auth_signing_input(relay_host, challenge).as_slice(), signature)
}

/// What is signed for one relay and challenge is signed for no other.
pub proof fn law_relay_auth_input_is_injective(
    host_a: Seq<u8>,
    challenge_a: Seq<u8>,
    host_b: Seq<u8>,
    challenge_b: Seq<u8>,
)
    requires
        challenge_a.len() == 32,
        challenge_b.len() == 32,
        relay_auth_input(host_a, challenge_a) == relay_auth_input(host_b, challenge_b),
    ensures
        host_a == host_b,
        challenge_a == challenge_b,
{
    let a = relay_auth_input(host_a, challenge_a);
    let b = relay_auth_input(host_b, challenge_b);
    lemma_be_bytes_len(host_a.len() % 0x1_0000, 2);
    lemma_be_bytes_len(host_b.len() % 0x1_0000, 2);
    let n = a.len() as int;
    assert(a.subrange(32, n - 32) =~= host_a);
    assert(b.subrange(32, n - 32) =~= host_b);
    assert(a.subrange(n - 32, n) =~= challenge_a);
    assert(b.subrange(n - 32, n) =~= challenge_b);
}

/// The answer to a challenge is accepted by the relay it was made for, as long as strict
/// verification accepts the signature; and for another relay or another challenge it is
/// a signature over something else.
pub proof fn law_signed_relay_auth_is_accepted(
    seed: Seq<u8>,
    node_id: NodeId,
    host: Seq<u8>,
    challenge: Seq<u8>,
    other_host: Seq<u8>,
    other_challenge: Seq<u8>,
)
    requires
        challenge.len() == 32,
        other_challenge.len() == 32,
        ({
            let input = relay_auth_input(host, challenge);
            ed25519_accepts(node_id.0@, input, ed25519_signature(seed, input))
        }),
    ensures
        relay_auth_accepted(node_id, host, challenge, relay_auth_signature(seed, host, challenge)),
        host != other_host || challenge != other_challenge ==> relay_auth_input(
            other_host,
            other_challenge,
        ) != relay_auth_input(host, challenge),
{
    if relay_auth_input(other_host, other_challenge) == relay_auth_input(host, challenge) {
        law_relay_auth_input_is_injective(host, challenge, other_host, other_challenge);
    }
}

// ---------------------------------------------------------------------------
// Relay frames
// ---------------------------------------------------------------------------

pub const FRAME_CHALLENGE: u8 = 0x01;

pub const FRAME_AUTH: u8 = 0x02;

pub const FRAME_WELCOME: u8 = 0x03;

pub const FRAME_REGISTER: u8 = 0x04;

pub const FRAME_SEND: u8 = 0x10;

pub const FRAME_RECV: u8 = 0x11;

pub const FRAME_SEND_TAG: u8 = 0x12;

pub const FRAME_RECV_TAG: u8 = 0x13;

pub const FRAME_PING: u8 = 0x20;

pub const FRAME_PONG: u8 = 0x21;

pub const FRAME_CLOSE: u8 = 0x7f;

/// A `Register` carries at most this many tags (a pair needs at most twelve
/// during a card transition; this bounds a whole roster).
pub const MAX_TAGS_PER_REGISTER: usize = 256;

/// One message between a node and a relay.
#[derive(Debug, PartialEq, Eq)]
pub enum Frame {
    Challenge([u8; 32]),
    Auth { node_id: NodeId, signature: [u8; 64] },
    Welcome([u8; 16]),
    Send { destination: NodeId, datagram: Vec<u8> },
    Recv { source: NodeId, datagram: Vec<u8> },
    /// Register the session under pair-scoped rendezvous tags.  No identity and no
    /// signature: a tag is an unguessable capability.
    Register { tags: Vec<Tag> },
    /// Route a datagram to whoever else registered this tag.
    SendTag { tag: Tag, datagram: Vec<u8> },
    /// A datagram delivered by tag.  The source is the tag; the relay knows
    /// nothing else.
    RecvTag { tag: Tag, datagram: Vec<u8> },
    Ping([u8; 8]),
    Pong([u8; 8]),
    Close(u16),
}

/// A copy of a list of tags.
pub fn copy_tags(tags: &Vec<Tag>) -> (r: Vec<Tag>)
    ensures
        r@ == tags@,
{
    let mut out: Vec<Tag> = Vec::new();
    let mut i: usize = 0;
    while i < tags.len()
        invariant
            i <= tags.len(),
            out@ == tags@.subrange(0, i as int),
        decreases tags.len() - i,
    {
        out.push(tags[i]);
        i += 1;
        assert(out@ =~= tags@.subrange(0, i as int));
    }
    assert(out@ =~= tags@);
    out
}

impl Clone for Frame {
    fn clone(&self) -> (r: Self)
        ensures
            frame_bytes(r) == frame_bytes(*self),
            frame_valid(r) == frame_valid(*self),
    {
        match self {
            Frame::Challenge(bytes) => Frame::Challenge(*bytes),
            Frame::Auth { node_id, signature } => Frame::Auth {
                node_id: *node_id,
                signature: *signature,
            },
            Frame::Welcome(token) => Frame::Welcome(*token),
            Frame::Send { destination, datagram } => Frame::Send {
                destination: *destination,
                datagram: to_vec(datagram.as_slice()),
            },
            Frame::Recv { source, datagram } => Frame::Recv {
                source: *source,
                datagram: to_vec(datagram.as_slice()),
            },
            Frame::Register { tags } => Frame::Register { tags: copy_tags(tags) },
            Frame::SendTag { tag, datagram } => Frame::SendTag {
                tag: *tag,
                datagram: to_vec(datagram.as_slice()),
            },
            Frame::RecvTag { tag, datagram } => Frame::RecvTag {
                tag: *tag,
                datagram: to_vec(datagram.as_slice()),
            },
            Frame::Ping(opaque) => Frame::Ping(*opaque),
            Frame::Pong(opaque) => Frame::Pong(*opaque),
            Frame::Close(reason) => Frame::Close(*reason),
        }
    }
}

/// Tags one after the other.
pub open spec fn tags_bytes(tags: Seq<Tag>) -> Seq<u8> {
    Seq::new(16 * tags.len(), |i: int| tags[i / 16].0@[i % 16])
}

/// A frame on the wire.
pub open spec fn frame_bytes(frame: Frame) -> Seq<u8> {
    match frame {
        Frame::Challenge(bytes) => seq![FRAME_CHALLENGE] + bytes@,
        Frame::Auth { node_id, signature } => seq![FRAME_AUTH] + node_id.0@ + signature@,
        Frame::Welcome(token) => seq![FRAME_WELCOME] + token@,
        Frame::Send { destination, datagram } => seq![FRAME_SEND] + destination.0@ + datagram@,
        Frame::Recv { source, datagram } => seq![FRAME_RECV] + source.0@ + datagram@,
        Frame::Register { tags } => seq![FRAME_REGISTER] + be_bytes(tags@.len() % 0x1_0000, 2)
            + tags_bytes(tags@),
        Frame::SendTag { tag, datagram } => seq![FRAME_SEND_TAG] + tag.0@ + datagram@,
        Frame::RecvTag { tag, datagram } => seq![FRAME_RECV_TAG] + tag.0@ + datagram@,
        Frame::Ping(opaque) => seq![FRAME_PING] + opaque@,
        Frame::Pong(opaque) => seq![FRAME_PONG] + opaque@,
        Frame::Close(reason) => seq![FRAME_CLOSE] + be_bytes(reason as nat, 2),
    }
}

/// A datagram of 1 to 1350 bytes.
pub open spec fn datagram_fits(datagram: Seq<u8>) -> bool {
    1 <= datagram.len() <= MAX_DATAGRAM
}

/// The frames that may travel: datagrams of 1 to 1350 bytes, at most 256 tags.
pub open spec fn frame_valid(frame: Frame) -> bool {
    match frame {
        Frame::Send { datagram, .. } => datagram_fits(datagram@),
        Frame::Recv { datagram, .. } => datagram_fits(datagram@),
        Frame::SendTag { datagram, .. } => datagram_fits(datagram@),
        Frame::RecvTag { datagram, .. } => datagram_fits(datagram@),
        Frame::Register { tags } => tags@.len() <= MAX_TAGS_PER_REGISTER,
        _ => true,
    }
}

/// What is known of an encoding from its first byte and its length.
proof fn lemma_frame_shape(frame: Frame)
    ensures
        ({
            let bytes = frame_bytes(frame);
            match frame {
                Frame::Challenge(b) => bytes.len() == 33 && bytes[0] == FRAME_CHALLENGE
                    && bytes.subrange(1, 33) == b@,
                Frame::Auth { node_id, signature } => bytes.len() == 97 && bytes[0] == FRAME_AUTH
                    && bytes.subrange(1, 33) == node_id.0@ && bytes.subrange(33, 97)
                    == signature@,
                Frame::Welcome(b) => bytes.len() == 17 && bytes[0] == FRAME_WELCOME
                    && bytes.subrange(1, 17) == b@,
                Frame::Send { destination, datagram } => routed_shape(
                    bytes,
                    FRAME_SEND,
                    destination.0@,
                    datagram@,
                ),
                Frame::Recv { source, datagram } => routed_shape(
                    bytes,
                    FRAME_RECV,
                    source.0@,
                    datagram@,
                ),
                Frame::Register { tags } => bytes.len() == 3 + 16 * tags@.len() && bytes[0]
                    == FRAME_REGISTER && be_value(bytes.subrange(1, 3)) == tags@.len() % 0x1_0000
                    && bytes.subrange(3, bytes.len() as int) == tags_bytes(tags@),
                Frame::SendTag { tag, datagram } => routed_shape(
                    bytes,
                    FRAME_SEND_TAG,
                    tag.0@,
                    datagram@,
                ),
                Frame::RecvTag { tag, datagram } => routed_shape(
                    bytes,
                    FRAME_RECV_TAG,
                    tag.0@,
                    datagram@,
                ),
                Frame::Ping(b) => bytes.len() == 9 && bytes[0] == FRAME_PING && bytes.subrange(1, 9)
                    == b@,
                Frame::Pong(b) => bytes.len() == 9 && bytes[0] == FRAME_PONG && bytes.subrange(1, 9)
                    == b@,
                Frame::Close(reason) => bytes.len() == 3 && bytes[0] == FRAME_CLOSE && be_value(
                    bytes.subrange(1, 3),
                ) == reason,
            }
        }),
{
    let bytes = frame_bytes(frame);
    lemma_pow256_values();
    match frame {
        Frame::Challenge(b) => {
            assert(bytes.subrange(1, 33) =~= b@);
        },
        Frame::Auth { node_id, signature } => {
            assert(bytes.subrange(1, 33) =~= node_id.0@);
            assert(bytes.subrange(33, 97) =~= signature@);
        },
        Frame::Welcome(b) => {
            assert(bytes.subrange(1, 17) =~= b@);
        },
        Frame::Send { destination, datagram } => {
            lemma_routed_shape(FRAME_SEND, destination.0@, datagram@);
        },
        Frame::Recv { source, datagram } => {
            lemma_routed_shape(FRAME_RECV, source.0@, datagram@);
        },
        Frame::Register { tags } => {
            lemma_be_round_trip(tags@.len() % 0x1_0000, 2);
            assert(bytes.subrange(1, 3) =~= be_bytes(tags@.len() % 0x1_0000, 2));
            assert(bytes.subrange(3, bytes.len() as int) =~= tags_bytes(tags@));
        },
        Frame::SendTag { tag, datagram } => {
            lemma_routed_shape(FRAME_SEND_TAG, tag.0@, datagram@);
        },
        Frame::RecvTag { tag, datagram } => {
            lemma_routed_shape(FRAME_RECV_TAG, tag.0@, datagram@);
        },
        Frame::Ping(b) => {
            assert(bytes.subrange(1, 9) =~= b@);
        },
        Frame::Pong(b) => {
            assert(bytes.subrange(1, 9) =~= b@);
        },
        Frame::Close(reason) => {
            lemma_be_round_trip(reason as nat, 2);
            assert(bytes.subrange(1, 3) =~= be_bytes(reason as nat, 2));
        },
    }
}

/// A kind, an address of fixed length and a datagram.
spec fn routed_shape(bytes: Seq<u8>, kind: u8, address: Seq<u8>, datagram: Seq<u8>) -> bool {
    let n = address.len() as int;
    &&& bytes.len() == 1 + n + datagram.len()
    &&& bytes[0] == kind
    &&& bytes.subrange(1, 1 + n) == address
    &&& bytes.subrange(1 + n, bytes.len() as int) == datagram
}

proof fn lemma_routed_shape(kind: u8, address: Seq<u8>, datagram: Seq<u8>)
    ensures
        routed_shape(seq![kind] + address + datagram, kind, address, datagram),
{
    let bytes = seq![kind] + address + datagram;
    let n = address.len() as int;
    assert(bytes.subrange(1, 1 + n) =~= address);
    assert(bytes.subrange(1 + n, bytes.len() as int) =~= datagram);
}

proof fn lemma_tag_at(tags: Seq<Tag>, k: int)
    requires
        0 <= k < tags.len(),
    ensures
        tags_bytes(tags).subrange(16 * k, 16 * k + 16) == tags[k].0@,
{
    let piece = tags_bytes(tags).subrange(16 * k, 16 * k + 16);
    assert forall|i: int| 0 <= i < 16 implies piece[i] == tags[k].0@[i] by {
        assert((16 * k + i) / 16 == k);
        assert((16 * k + i) % 16 == i);
    }
    assert(piece =~= tags[k].0@);
}

/// Two lists of tags with the same bytes are the same list.
proof fn lemma_tags_injective(a: Seq<Tag>, b: Seq<Tag>)
    requires
        tags_bytes(a) == tags_bytes(b),
    ensures
        a == b,
{
    assert(tags_bytes(a).len() == 16 * a.len());
    assert(tags_bytes(b).len() == 16 * b.len());
    assert forall|k: int| 0 <= k < a.len() implies a[k] == b[k] by {
        lemma_tag_at(a, k);
        lemma_tag_at(b, k);
        assert(a[k].0 =~= b[k].0);
    }
    assert(a =~= b);
}

fn one(tag: u8, body: &[u8]) -> (r: Vec<u8>)
    ensures
        r@ == seq![tag] + body@,
{
    let mut out: Vec<u8> = Vec::new();
    out.push(tag);
    append(&mut out, body);
    assert(out@ =~= seq![tag] + body@);
    out
}

fn routed(tag: u8, node_id: &NodeId, datagram: &[u8]) -> (r: Vec<u8>)
    ensures
        r@ == seq![tag] + node_id.0@ + datagram@,
{
    let mut out: Vec<u8> = Vec::new();
    out.push(tag);
    append(&mut out, node_id.as_bytes());
    append(&mut out, datagram);
    assert(out@ =~= seq![tag] + node_id.0@ + datagram@);
    out
}

fn routed_tag(frame: u8, tag: &Tag, datagram: &[u8]) -> (r: Vec<u8>)
    ensures
        r@ == seq![frame] + tag.0@ + datagram@,
{
    let mut out: Vec<u8> = Vec::new();
    out.push(frame);
    append(&mut out, &tag.0);
    append(&mut out, datagram);
    assert(out@ =~= seq![frame] + tag.0@ + datagram@);
    out
}

fn split_routed(body: &[u8]) -> (r: Option<(NodeId, Vec<u8>)>)
    ensures
        r is Some <==> 33 <= body@.len() <= 32 + MAX_DATAGRAM,
        r matches Some((node_id, datagram)) ==> body@ == node_id.0@ + datagram@ && datagram_fits(
            datagram@,
        ),
{
    if body.len() < 33 {
        return None;
    }
    let datagram = slice_subrange(body, 32, body.len());
    if datagram.len() > MAX_DATAGRAM {
        return None;
    }
    let node_id = NodeId(array_at::<32>(body, 0));
    assert(body@ =~= node_id.0@ + datagram@);
    Some((node_id, to_vec(datagram)))
}

fn split_routed_tag(body: &[u8]) -> (r: Option<(Tag, Vec<u8>)>)
    ensures
        r is Some <==> 17 <= body@.len() <= 16 + MAX_DATAGRAM,
        r matches Some((tag, datagram)) ==> body@ == tag.0@ + datagram@ && datagram_fits(datagram@),
{
    if body.len() <= TAG_BYTES {
        return None;
    }
    let datagram = slice_subrange(body, TAG_BYTES, body.len());
    if datagram.len() > MAX_DATAGRAM {
        return None;
    }
    let tag = Tag(array_at::<16>(body, 0));
    assert(body@ =~= tag.0@ + datagram@);
    Some((tag, to_vec(datagram)))
}

/// The tags that `count * 16` bytes hold.
fn split_tags(rest: &[u8], count: usize) -> (r: Vec<Tag>)
    requires
        rest@.len() == 16 * count,
        count <= MAX_TAGS_PER_REGISTER,
    ensures
        r@.len() == count,
        tags_bytes(r@) == rest@,
{
    let mut tags: Vec<Tag> = Vec::new();
    let mut i: usize = 0;
    while i < count
        invariant
            i <= count <= MAX_TAGS_PER_REGISTER,
            rest@.len() == 16 * count,
            tags@.len() == i,
            forall|k: int|
                0 <= k < i ==> #[trigger] tags@[k].0@ == rest@.subrange(16 * k, 16 * k + 16),
        decreases count - i,
    {
        tags.push(Tag(array_at::<16>(rest, i * 16)));
        i += 1;
    }
    proof {
        assert forall|j: int| 0 <= j < rest@.len() implies tags_bytes(tags@)[j] == rest@[j] by {
            let k = j / 16;
            assert(tags@[k].0@ == rest@.subrange(16 * k, 16 * k + 16));
            assert(16 * k + j % 16 == j);
        }
        assert(tags_bytes(tags@) =~= rest@);
    }
    tags
}

impl Frame {
    /// The frame on the wire.
    pub fn encode(&self) -> (r: Vec<u8>)
        ensures
            r@ == frame_bytes(*self),
    {
        match self {
            Frame::Challenge(bytes) => one(FRAME_CHALLENGE, bytes),
            Frame::Auth { node_id, signature } => routed(FRAME_AUTH, node_id, signature),
            Frame::Welcome(token) => one(FRAME_WELCOME, token),
            Frame::Send { destination, datagram } => routed(
                FRAME_SEND,
                destination,
                datagram.as_slice(),
            ),
            Frame::Recv { source, datagram } => routed(FRAME_RECV, source, datagram.as_slice()),
            Frame::Register { tags } => {
                let length: u16 = (tags.len() % 0x1_0000) as u16;
                let mut out: Vec<u8> = Vec::new();
                out.push(FRAME_REGISTER);
                append(&mut out, &to_be16(length));
                let ghost header = out@;
                let mut i: usize = 0;
                assert(out@ =~= header + tags_bytes(tags@.subrange(0, 0)));
                while i < tags.len()
                    invariant
                        i <= tags.len(),
                        out@ == header + tags_bytes(tags@.subrange(0, i as int)),
                    decreases tags.len() - i,
                {
                    append(&mut out, &tags[i].0);
                    proof {
                        let before = tags@.subrange(0, i as int);
                        let after = tags@.subrange(0, i + 1);
                        assert forall|j: int| 0 <= j < 16 * (i + 1) implies #[trigger] tags_bytes(
                            after,
                        )[j] == (tags_bytes(before) + tags@[i as int].0@)[j] by {
                            if j < 16 * i {
                                assert(tags_bytes(before)[j] == before[j / 16].0@[j % 16]);
                                assert(after[j / 16] == before[j / 16]);
                            } else {
                                assert(j / 16 == i);
                                assert(j % 16 == j - 16 * i);
                            }
                        }
                        assert(tags_bytes(after) =~= tags_bytes(before) + tags@[i as int].0@);
                        assert(out@ =~= header + tags_bytes(after));
                    }
                    i += 1;
                }
                assert(tags@.subrange(0, tags@.len() as int) =~= tags@);
                assert(out@ =~= frame_bytes(*self));
                out
            },
            Frame::SendTag { tag, datagram } => routed_tag(
                FRAME_SEND_TAG,
                tag,
                datagram.as_slice(),
            ),
            Frame::RecvTag { tag, datagram } => routed_tag(
                FRAME_RECV_TAG,
                tag,
                datagram.as_slice(),
            ),
            Frame::Ping(opaque) => one(FRAME_PING, opaque),
            Frame::Pong(opaque) => one(FRAME_PONG, opaque),
            Frame::Close(reason) => one(FRAME_CLOSE, &to_be16(*reason)),
        }
    }

    /// Decode a frame.  `None` means malformed, which closes the session.  The
    /// result is the one valid frame with this encoding, if there is one.
    pub fn decode(bytes: &[u8]) -> (r: Option<Frame>)
        ensures
            r matches Some(frame) ==> frame_valid(frame) && frame_bytes(frame) == bytes@,
            r is None ==> forall|frame: Frame|
                frame_valid(frame) ==> #[trigger] frame_bytes(frame) != bytes@,
    {
        proof {
            assert forall|frame: Frame| frame_valid(frame) && #[trigger] frame_bytes(frame)
                == bytes@ implies recognisable(bytes@) by {
                lemma_frame_shape(frame);
            }
        }
        if bytes.len() == 0 {
            return None;
        }
        let tag: u8 = bytes[0];
        let body = slice_subrange(bytes, 1, bytes.len());
        assert(bytes@ =~= seq![tag] + body@);
        if tag == FRAME_CHALLENGE {
            match fixed::<32>(body) {
                Some(challenge) => Some(Frame::Challenge(challenge)),
                None => None,
            }
        } else if tag == FRAME_AUTH {
            if body.len() != 96 {
                return None;
            }
            let node_id = NodeId(array_at::<32>(body, 0));
            let signature = array_at::<64>(body, 32);
            assert(bytes@ =~= seq![tag] + node_id.0@ + signature@);
            Some(Frame::Auth { node_id, signature })
        } else if tag == FRAME_WELCOME {
            match fixed::<16>(body) {
                Some(token) => Some(Frame::Welcome(token)),
                None => None,
            }
        } else if tag == FRAME_SEND {
            match split_routed(body) {
                Some((destination, datagram)) => {
                    assert(bytes@ =~= seq![tag] + destination.0@ + datagram@);
                    Some(Frame::Send { destination, datagram })
                },
                None => None,
            }
        } else if tag == FRAME_RECV {
            match split_routed(body) {
                Some((source, datagram)) => {
                    assert(bytes@ =~= seq![tag] + source.0@ + datagram@);
                    Some(Frame::Recv { source, datagram })
                },
                None => None,
            }
        } else if tag == FRAME_REGISTER {
            if body.len() < 2 {
                return None;
            }
            let count: usize = be16(body[0], body[1]) as usize;
            let rest = slice_subrange(body, 2, body.len());
            proof {
                assert(bytes@.subrange(1, 3) =~= seq![body@[0], body@[1]]);
            }
            if count > MAX_TAGS_PER_REGISTER || rest.len() != count * TAG_BYTES {
                return None;
            }
            let tags = split_tags(rest, count);
            proof {
                lemma_be_value(bytes@.subrange(1, 3));
                assert(bytes@ =~= seq![tag] + bytes@.subrange(1, 3) + rest@);
            }
            Some(Frame::Register { tags })
        } else if tag == FRAME_SEND_TAG {
            match split_routed_tag(body) {
                Some((tag_value, datagram)) => {
                    assert(bytes@ =~= seq![tag] + tag_value.0@ + datagram@);
                    Some(Frame::SendTag { tag: tag_value, datagram })
                },
                None => None,
            }
        } else if tag == FRAME_RECV_TAG {
            match split_routed_tag(body) {
                Some((tag_value, datagram)) => {
                    assert(bytes@ =~= seq![tag] + tag_value.0@ + datagram@);
                    Some(Frame::RecvTag { tag: tag_value, datagram })
                },
                None => None,
            }
        } else if tag == FRAME_PING {
            match fixed::<8>(body) {
                Some(opaque) => Some(Frame::Ping(opaque)),
                None => None,
            }
        } else if tag == FRAME_PONG {
            match fixed::<8>(body) {
                Some(opaque) => Some(Frame::Pong(opaque)),
                None => None,
            }
        } else if tag == FRAME_CLOSE {
            if body.len() != 2 {
                return None;
            }
            let reason: u16 = be16(body[0], body[1]);
            proof {
                assert(body@ =~= seq![body@[0], body@[1]]);
                lemma_be_value(body@);
            }
            Some(Frame::Close(reason))
        } else {
            None
        }
    }
}

/// Bytes whose first byte and length some valid frame has.
spec fn recognisable(bytes: Seq<u8>) -> bool {
    let n = bytes.len();
    n > 0 && {
        let kind = bytes[0];
        ||| kind == FRAME_CHALLENGE && n == 33
        ||| kind == FRAME_AUTH && n == 97
        ||| kind == FRAME_WELCOME && n == 17
        ||| (kind == FRAME_SEND || kind == FRAME_RECV) && 34 <= n <= 33 + MAX_DATAGRAM
        ||| kind == FRAME_REGISTER && n >= 3 && n == 3 + 16 * be_value(bytes.subrange(1, 3))
            && be_value(bytes.subrange(1, 3)) <= MAX_TAGS_PER_REGISTER
        ||| (kind == FRAME_SEND_TAG || kind == FRAME_RECV_TAG) && 18 <= n <= 17 + MAX_DATAGRAM
        ||| (kind == FRAME_PING || kind == FRAME_PONG) && n == 9
        ||| kind == FRAME_CLOSE && n == 3
    }
}

/// The same frame, field by field; lists and datagrams by their contents.
pub open spec fn same_frame(a: Frame, b: Frame) -> bool {
    match (a, b) {
        (Frame::Challenge(x), Frame::Challenge(y)) => x@ == y@,
        (
            Frame::Auth { node_id: m, signature: x },
            Frame::Auth { node_id: n, signature: y },
        ) => m == n && x@ == y@,
        (Frame::Welcome(x), Frame::Welcome(y)) => x@ == y@,
        (
            Frame::Send { destination: m, datagram: x },
            Frame::Send { destination: n, datagram: y },
        ) => m == n && x@ == y@,
        (Frame::Recv { source: m, datagram: x }, Frame::Recv { source: n, datagram: y }) => m == n
            && x@ == y@,
        (Frame::Register { tags: x }, Frame::Register { tags: y }) => x@ == y@,
        (Frame::SendTag { tag: m, datagram: x }, Frame::SendTag { tag: n, datagram: y }) => m == n
            && x@ == y@,
        (Frame::RecvTag { tag: m, datagram: x }, Frame::RecvTag { tag: n, datagram: y }) => m == n
            && x@ == y@,
        (Frame::Ping(x), Frame::Ping(y)) => x@ == y@,
        (Frame::Pong(x), Frame::Pong(y)) => x@ == y@,
        (Frame::Close(x), Frame::Close(y)) => x == y,
        _ => false,
    }
}

/// No two frames share an encoding, so what was encoded is what is decoded.
pub proof fn law_frame_encoding_is_injective(a: Frame, b: Frame)
    requires
        frame_bytes(a) == frame_bytes(b),
    ensures
        same_frame(a, b),
{
    lemma_frame_shape(a);
    lemma_frame_shape(b);
    match (a, b) {
        (Frame::Auth { node_id: m, .. }, Frame::Auth { node_id: n, .. }) => {
            assert(m.0 =~= n.0);
        },
        (Frame::Send { destination: m, .. }, Frame::Send { destination: n, .. }) => {
            assert(m.0 =~= n.0);
        },
        (Frame::Recv { source: m, .. }, Frame::Recv { source: n, .. }) => {
            assert(m.0 =~= n.0);
        },
        (Frame::Register { tags: x }, Frame::Register { tags: y }) => {
            lemma_tags_injective(x@, y@);
        },
        (Frame::SendTag { tag: m, .. }, Frame::SendTag { tag: n, .. }) => {
            assert(m.0 =~= n.0);
        },
        (Frame::RecvTag { tag: m, .. }, Frame::RecvTag { tag: n, .. }) => {
            assert(m.0 =~= n.0);
        },
        _ => {},
    }
}

// ---------------------------------------------------------------------------
// UDP reflector
// ---------------------------------------------------------------------------

/// ASCII `FSLR`.
pub const REFLECT_MAGIC: [u8; 4] = [0x46, 0x53, 0x4c, 0x52];

pub const REFLECT_REQUEST: u8 = 0x01;

pub const REFLECT_REPLY: u8 = 0x02;

pub const REFLECT_REQUEST_BYTES: usize = 21;

pub const REFLECT_REPLY_BYTES: usize = 39;

/// A reflector request.
pub open spec fn reflect_request_bytes(nonce: Seq<u8>) -> Seq<u8> {
    REFLECT_MAGIC@ + seq![REFLECT_REQUEST] + nonce
}

/// A reflector reply.
pub open spec fn reflect_reply_bytes(nonce: Seq<u8>, octets: Seq<u8>, port: u16) -> Seq<u8> {
    REFLECT_MAGIC@ + seq![REFLECT_REPLY] + nonce + octets + be_bytes(port as nat, 2)
}

/// Ask a reflector how it sees this socket.
pub fn reflect_request(nonce: &[u8; 16]) -> (r: [u8; 21])
    ensures
        r@ == reflect_request_bytes(nonce@),
{
    let mut out = [0u8; 21];
    write_at(&mut out, 0, &REFLECT_MAGIC);
    out[4] = REFLECT_REQUEST;
    write_at(&mut out, 5, nonce);
    assert(out@ =~= reflect_request_bytes(nonce@));
    out
}

/// The nonce of a reflector request; `None` for anything else.
pub fn parse_reflect_request(bytes: &[u8]) -> (r: Option<[u8; 16]>)
    ensures
        r matches Some(nonce) ==> bytes@ == reflect_request_bytes(nonce@),
        r is None ==> forall|nonce: [u8; 16]| bytes@ != #[trigger] reflect_request_bytes(nonce@),
{
    proof {
        assert forall|nonce: [u8; 16]| bytes@ == #[trigger] reflect_request_bytes(
            nonce@,
        ) implies bytes@.len() == 21 && bytes@.subrange(0, 4) == REFLECT_MAGIC@ && bytes@[4]
            == REFLECT_REQUEST by {
            assert(reflect_request_bytes(nonce@).subrange(0, 4) =~= REFLECT_MAGIC@);
        }
    }
    if bytes.len() != REFLECT_REQUEST_BYTES || !bytes_eq(
        slice_subrange(bytes, 0, 4),
        &REFLECT_MAGIC,
    ) || bytes[4] != REFLECT_REQUEST {
        return None;
    }
    let nonce = array_at::<16>(bytes, 5);
    assert(bytes@ =~= reflect_request_bytes(nonce@));
    Some(nonce)
}

/// Tell a socket how it was seen.
pub fn reflect_reply(nonce: &[u8; 16], observed: SocketAddr) -> (r: [u8; 39])
    ensures
        r@ == reflect_reply_bytes(nonce@, mapped_octets(observed.ip), observed.port),
{
    let mut out = [0u8; 39];
    write_at(&mut out, 0, &REFLECT_MAGIC);
    out[4] = REFLECT_REPLY;
    write_at(&mut out, 5, nonce);
    let octets = to_ipv6(observed.ip);
    write_at(&mut out, 21, &octets);
    let port = to_be16(observed.port);
    write_at(&mut out, 37, &port);
    assert(out@ =~= reflect_reply_bytes(nonce@, mapped_octets(observed.ip), observed.port));
    out
}

/// The nonce and the observed address of a reflector reply, IPv4 in its mapped
/// form; `None` for anything else.
pub fn parse_reflect_reply(bytes: &[u8]) -> (r: Option<([u8; 16], SocketAddr)>)
    ensures
        r matches Some((nonce, observed)) ==> bytes@ == reflect_reply_bytes(
            nonce@,
            mapped_octets(observed.ip),
            observed.port,
        ) && observed.ip is V6 && observed.flowinfo == 0 && observed.scope_id == 0,
        r is None ==> forall|nonce: [u8; 16], ip: IpAddr, port: u16|
            bytes@ != #[trigger] reflect_reply_bytes(nonce@, mapped_octets(ip), port),
{
    proof {
        assert forall|nonce: [u8; 16], ip: IpAddr, port: u16| bytes@
            == #[trigger] reflect_reply_bytes(
            nonce@,
            mapped_octets(ip),
            port,
        ) implies bytes@.len() == 39 && bytes@.subrange(0, 4) == REFLECT_MAGIC@ && bytes@[4]
            == REFLECT_REPLY by {
            lemma_be_bytes_len(port as nat, 2);
            assert(reflect_reply_bytes(nonce@, mapped_octets(ip), port).subrange(0, 4)
                =~= REFLECT_MAGIC@);
        }
    }
    if bytes.len() != REFLECT_REPLY_BYTES || !bytes_eq(
        slice_subrange(bytes, 0, 4),
        &REFLECT_MAGIC,
    ) || bytes[4] != REFLECT_REPLY {
        return None;
    }
    let nonce = array_at::<16>(bytes, 5);
    let octets = array_at::<16>(bytes, 21);
    let port: u16 = be16(bytes[37], bytes[38]);
    proof {
        assert(bytes@.subrange(37, 39) =~= seq![bytes@[37], bytes@[38]]);
        lemma_be_value(bytes@.subrange(37, 39));
        assert(bytes@ =~= reflect_reply_bytes(nonce@, octets@, port));
    }
    Some((nonce, SocketAddr::new(IpAddr::V6(octets), port)))
}

// ---------------------------------------------------------------------------
// Signed probes
// ---------------------------------------------------------------------------

/// ASCII `FSLP`.
pub const PROBE_MAGIC: [u8; 4] = [0x46, 0x53, 0x4c, 0x50];

pub const PROBE_PING: u8 = 0x01;

pub const PROBE_PONG: u8 = 0x02;

/// Magic, kind, sender, receiver, nonce.
pub const PROBE_BODY_BYTES: usize = 85;

/// A body and its signature.
pub const PROBE_WIRE_BYTES: usize = 149;

/// A probe of a direct path.
#[derive(Clone, Copy, Debug, PartialEq, Eq)]
pub struct Probe {
    pub kind: u8,
    pub sender: NodeId,
    pub receiver: NodeId,
    pub nonce: [u8; 16],
}

/// `magic || kind || sender || receiver || nonce`.
pub open spec fn probe_body(probe: Probe) -> Seq<u8> {
    PROBE_MAGIC@ + seq![probe.kind] + probe.sender.0@ + probe.receiver.0@ + probe.nonce@
}

/// What a probe's signature covers.
pub open spec fn probe_input(probe: Probe) -> Seq<u8> {
    PROBE_DOMAIN@ + probe_body(probe)
}

/// A ping or a pong.
pub open spec fn probe_kind_known(kind: u8) -> bool {
    kind == PROBE_PING || kind == PROBE_PONG
}

/// Whether `bytes` carry `probe` under a signature that its sender made.
pub open spec fn carries_probe(bytes: Seq<u8>, probe: Probe) -> bool {
    &&& bytes.len() == PROBE_WIRE_BYTES
    &&& bytes.subrange(0, 85) == probe_body(probe)
    &&& probe_kind_known(probe.kind)
    &&& ed25519_accepts(probe.sender.0@, probe_input(probe), bytes.subrange(85, 149))
}

impl Probe {
    /// The unsigned body.
    pub fn body(&self) -> (r: [u8; 85])
        ensures
            r@ == probe_body(*self),
    {
        let mut out = [0u8; 85];
        write_at(&mut out, 0, &PROBE_MAGIC);
        out[4] = self.kind;
        write_at(&mut out, 5, self.sender.as_bytes());
        write_at(&mut out, 37, self.receiver.as_bytes());
        write_at(&mut out, 69, &self.nonce);
        assert(out@ =~= probe_body(*self));
        out
    }

    /// The domain-prefixed body.
    pub fn signing_input(&self) -> (r: Vec<u8>)
        ensures
            r@ == probe_input(*self),
    {
        let mut out: Vec<u8> = Vec::new();
        append(&mut out, &PROBE_DOMAIN);
        append(&mut out, &self.body());
        assert(out@ =~= probe_input(*self));
        out
    }

    /// The probe on the wire, signed with `key`.
    pub fn sign(&self, key: &TransportKey) -> (r: [u8; 149])
        ensures
            r@ == probe_body(*self) + ed25519_signature(key.spec_seed(), probe_input(*self)),
            probe_kind_known(self.kind) && self.sender == key.id() && !neutral_nonce(
                r@.subrange(85, 149),
            ) ==> carries_probe(r@, *self),
    {
        let signature = key.sign(self.signing_input().as_slice());
        let mut out = [0u8; 149];
        let body = self.body();
        write_at(&mut out, 0, &body);
        write_at(&mut out, PROBE_BODY_BYTES, &signature);
        proof {
            assert(out@ =~= probe_body(*self) + signature@);
            assert(out@.subrange(0, 85) =~= probe_body(*self));
            assert(out@.subrange(85, 149) =~= signature@);
        }
        out
    }

    /// What the bytes claim, before the signature is looked at.
    pub fn parse_claim(bytes: &[u8]) -> (r: Option<Probe>)
        ensures
            r matches Some(probe) ==> bytes@.len() == PROBE_WIRE_BYTES && bytes@.subrange(0, 85)
                == probe_body(probe) && probe_kind_known(probe.kind),
            r is None ==> forall|probe: Probe|
                bytes@.len() == PROBE_WIRE_BYTES && probe_kind_known(probe.kind)
                    ==> bytes@.subrange(0, 85) != #[trigger] probe_body(probe),
    {
        proof {
            assert forall|probe: Probe|
                bytes@.len() == PROBE_WIRE_BYTES && bytes@.subrange(0, 85) == #[trigger] probe_body(
                    probe,
                ) implies bytes@.subrange(0, 4) == PROBE_MAGIC@ && bytes@[4] == probe.kind by {
                assert(bytes@.subrange(0, 85).subrange(0, 4) =~= PROBE_MAGIC@);
                assert(bytes@.subrange(0, 85).subrange(0, 4) =~= bytes@.subrange(0, 4));
                assert(bytes@.subrange(0, 85)[4] == probe.kind);
            }
        }
        if bytes.len() != PROBE_WIRE_BYTES || !bytes_eq(slice_subrange(bytes, 0, 4), &PROBE_MAGIC) {
            return None;
        }
        let kind: u8 = bytes[4];
        if kind != PROBE_PING && kind != PROBE_PONG {
            return None;
        }
        let probe = Probe {
            kind,
            sender: NodeId(array_at::<32>(bytes, 5)),
            receiver: NodeId(array_at::<32>(bytes, 37)),
            nonce: array_at::<16>(bytes, 69),
        };
        assert(bytes@.subrange(0, 85) =~= probe_body(probe));
        Some(probe)
    }

    /// Parse and verify in one step.  An unsigned or badly signed probe is not a
    /// probe.
    pub fn parse_verified(bytes: &[u8]) -> (r: Option<Probe>)
        ensures
            r matches Some(probe) ==> carries_probe(bytes@, probe),
            r is None ==> forall|probe: Probe| !#[trigger] carries_probe(bytes@, probe),
    {
        let probe = match Probe::parse_claim(bytes) {
            Some(probe) => probe,
            None => {
                return None;
            },
        };
        let signature = array_at::<64>(bytes, PROBE_BODY_BYTES);
        let accepted = probe.sender.verify(probe.signing_input().as_slice(), &signature);
        proof {
            assert forall|other: Probe| #[trigger] carries_probe(bytes@, other) implies other
                == probe by {
                law_probe_body_is_injective(other, probe);
            }
        }
        if accepted {
            Some(probe)
        } else {
            None
        }
    }
}

/// A body determines its probe.
pub proof fn law_probe_body_is_injective(a: Probe, b: Probe)
    requires
        probe_body(a) == probe_body(b),
    ensures
        a == b,
{
    let x = probe_body(a);
    let y = probe_body(b);
    assert(x[4] == a.kind && y[4] == b.kind);
    assert(x.subrange(5, 37) =~= a.sender.0@ && y.subrange(5, 37) =~= b.sender.0@);
    assert(x.subrange(37, 69) =~= a.receiver.0@ && y.subrange(37, 69) =~= b.receiver.0@);
    assert(x.subrange(69, 85) =~= a.nonce@ && y.subrange(69, 85) =~= b.nonce@);
    assert(a.sender.0 =~= b.sender.0);
    assert(a.receiver.0 =~= b.receiver.0);
    assert(a.nonce =~= b.nonce);
}

/// A signed probe carries itself, as long as strict verification accepts the
/// signature.
pub proof fn law_signed_probe_is_carried(probe: Probe, seed: Seq<u8>)
    requires
        probe_kind_known(probe.kind),
        ed25519_signature(seed, probe_input(probe)).len() == 64,
        ed25519_accepts(
            probe.sender.0@,
            probe_input(probe),
            ed25519_signature(seed, probe_input(probe)),
        ),
    ensures
        carries_probe(
            probe_body(probe) + ed25519_signature(seed, probe_input(probe)),
            probe,
        ),
{
    let bytes = probe_body(probe) + ed25519_signature(seed, probe_input(probe));
    assert(bytes.subrange(0, 85) =~= probe_body(probe));
    assert(bytes.subrange(85, 149) =~= ed25519_signature(seed, probe_input(probe)));
}

// ---------------------------------------------------------------------------
// Sealed probes
// ---------------------------------------------------------------------------

/// Magic, kind, key id, nonce.
pub const SEALED_BODY_BYTES: usize = 29;

/// A body and its tag.
pub const SEALED_WIRE_BYTES: usize = 45;

/// A probe of a live session: it names the session's key and nobody.
#[derive(Clone, Copy, Debug, PartialEq, Eq)]
pub struct SealedProbe {
    pub kind: u8,
    pub key_id: [u8; 8],
    pub nonce: [u8; 16],
}

/// `magic || kind || key id || nonce`.
pub open spec fn sealed_body(probe: SealedProbe) -> Seq<u8> {
    PROBE_MAGIC@ + seq![probe.kind] + probe.key_id@ + probe.nonce@
}

/// The tag that seals a body under a session's key.
pub open spec fn seal_tag(body: Seq<u8>, key: Seq<u8>) -> Seq<u8> {
    hkdf_sha256(PROBE_DOMAIN@, key, body, 16)
}

/// Whether a datagram has the shape of a sealed probe.
pub open spec fn sealed_shaped(bytes: Seq<u8>) -> bool {
    bytes.len() == SEALED_WIRE_BYTES && bytes.subrange(0, 4) == PROBE_MAGIC@
}

/// Whether `bytes` are `probe` sealed under `key`.
pub open spec fn seals(bytes: Seq<u8>, key: Seq<u8>, probe: SealedProbe) -> bool {
    &&& bytes.len() == SEALED_WIRE_BYTES
    &&& bytes.subrange(0, 29) == sealed_body(probe)
    &&& bytes.subrange(29, 45) == seal_tag(sealed_body(probe), key)
}

/// Whether two tags are the same.  Every byte is looked at, so the time taken does
/// not tell where they differ.
fn same_tag(a: &[u8; 16], b: &[u8; 16]) -> (r: bool)
    ensures
        r == (a@ == b@),
{
    let mut same = true;
    let mut i: usize = 0;
    assert(a@.subrange(0, 0) =~= b@.subrange(0, 0));
    while i < 16
        invariant
            i <= 16,
            same == (a@.subrange(0, i as int) == b@.subrange(0, i as int)),
        decreases 16 - i,
    {
        proof {
            let x = a@.subrange(0, i + 1);
            let y = b@.subrange(0, i + 1);
            assert(x.drop_last() =~= a@.subrange(0, i as int));
            assert(y.drop_last() =~= b@.subrange(0, i as int));
            assert(x =~= x.drop_last().push(a@[i as int]));
            assert(y =~= y.drop_last().push(b@[i as int]));
            assert(x.last() == a@[i as int] && y.last() == b@[i as int]);
        }
        if a[i] != b[i] {
            same = false;
        }
        i += 1;
    }
    assert(a@.subrange(0, 16) =~= a@);
    assert(b@.subrange(0, 16) =~= b@);
    same
}

impl SealedProbe {
    fn body(&self) -> (r: [u8; 29])
        ensures
            r@ == sealed_body(*self),
    {
        let mut out = [0u8; 29];
        write_at(&mut out, 0, &PROBE_MAGIC);
        out[4] = self.kind;
        write_at(&mut out, 5, &self.key_id);
        write_at(&mut out, 13, &self.nonce);
        assert(out@ =~= sealed_body(*self));
        out
    }

    /// The probe on the wire, sealed under a session's key.
    pub fn seal(&self, key: &[u8; 32]) -> (r: [u8; 45])
        ensures
            r@ == sealed_body(*self) + seal_tag(sealed_body(*self), key@),
            seals(r@, key@, *self),
            sealed_shaped(r@),
    {
        let body = self.body();
        let tag = hkdf_sha256_16(&PROBE_DOMAIN, key, &body);
        let mut out = [0u8; 45];
        write_at(&mut out, 0, &body);
        write_at(&mut out, SEALED_BODY_BYTES, &tag);
        proof {
            assert(out@ =~= body@ + tag@);
            assert(out@.subrange(0, 29) =~= body@);
            assert(out@.subrange(29, 45) =~= tag@);
            assert(out@.subrange(0, 4) =~= PROBE_MAGIC@);
        }
        out
    }

    /// The key id that a datagram with a probe's shape names, before the seal is looked
    /// at.
    pub fn peek_key_id(bytes: &[u8]) -> (r: Option<[u8; 8]>)
        ensures
            r is Some <==> sealed_shaped(bytes@),
            r matches Some(id) ==> id@ == bytes@.subrange(5, 13),
    {
        if bytes.len() != SEALED_WIRE_BYTES || !bytes_eq(
            slice_subrange(bytes, 0, 4),
            &PROBE_MAGIC,
        ) {
            return None;
        }
        Some(array_at::<8>(bytes, 5))
    }

    /// What a probe says, if it was sealed under `key`.
    pub fn open(bytes: &[u8], key: &[u8; 32]) -> (r: Option<SealedProbe>)
        ensures
            r matches Some(probe) ==> seals(bytes@, key@, probe),
            r is None ==> forall|probe: SealedProbe| !#[trigger] seals(bytes@, key@, probe),
    {
        proof {
            assert forall|probe: SealedProbe| #[trigger] seals(bytes@, key@, probe) implies
                sealed_shaped(bytes@) by {
                assert(bytes@.subrange(0, 29).subrange(0, 4) =~= PROBE_MAGIC@);
                assert(bytes@.subrange(0, 29).subrange(0, 4) =~= bytes@.subrange(0, 4));
            }
        }
        let key_id = match SealedProbe::peek_key_id(bytes) {
            Some(key_id) => key_id,
            None => {
                return None;
            },
        };
        let probe = SealedProbe { kind: bytes[4], key_id, nonce: array_at::<16>(bytes, 13) };
        let body = probe.body();
        let expected = hkdf_sha256_16(&PROBE_DOMAIN, key, &body);
        let tag = array_at::<16>(bytes, SEALED_BODY_BYTES);
        proof {
            assert(bytes@.subrange(0, 29) =~= sealed_body(probe));
            assert forall|other: SealedProbe| #[trigger] seals(bytes@, key@, other) implies other
                == probe by {
                law_sealed_body_is_injective(other, probe);
            }
        }
        if same_tag(&expected, &tag) {
            Some(probe)
        } else {
            None
        }
    }
}

/// A sealed body determines its probe.
pub proof fn law_sealed_body_is_injective(a: SealedProbe, b: SealedProbe)
    requires
        sealed_body(a) == sealed_body(b),
    ensures
        a == b,
{
    let x = sealed_body(a);
    let y = sealed_body(b);
    assert(x[4] == a.kind && y[4] == b.kind);
    assert(x.subrange(5, 13) =~= a.key_id@ && y.subrange(5, 13) =~= b.key_id@);
    assert(x.subrange(13, 29) =~= a.nonce@ && y.subrange(13, 29) =~= b.nonce@);
    assert(a.key_id =~= b.key_id);
    assert(a.nonce =~= b.nonce);
}

} // verus!
