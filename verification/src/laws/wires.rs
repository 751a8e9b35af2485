//! What stands on the wire.
use crate::bytes::{be_bytes, be_value, lemma_be_round_trip, lemma_pow256_values};
use crate::crypto::{ed25519_accepts, ed25519_signature};
use crate::endpoint::{accepted, handshake_reason, AcceptPlan, AcceptVerdict, HandshakeFault};
use crate::id::{cert_identity, spki_identity, synthetic_octets, NodeId, SPKI_ED25519_PREFIX};
use crate::path::FailReason;
use crate::tls::{leaf_key, pin_verdict, PinFault};
use crate::wire::{
    carries_probe, frame_bytes, frame_valid, probe_body, probe_input, probe_kind_known,
    reflect_reply_bytes, reflect_request_bytes, relay_auth_input, relay_auth_signature, seal_tag,
    sealed_body, sealed_shaped, seals, tags_bytes, Frame, Probe, SealedProbe,
};
use vstd::prelude::*;

verus! {

/// A frame is its kind and then its parts as they are: identities, tags, signatures and
/// datagrams byte for byte, numbers in two bytes.
pub proof fn law_the_layout_of_frames(frame: Frame)
    requires
        frame_valid(frame),
    ensures
        ({
            let bytes = frame_bytes(frame);
            match frame {
                Frame::Challenge(challenge) => bytes == seq![0x01u8] + challenge@,
                Frame::Auth { node_id, signature } => bytes == seq![0x02u8] + node_id.0@
                    + signature@,
                Frame::Welcome(token) => bytes == seq![0x03u8] + token@,
                Frame::Send { destination, datagram } => bytes == seq![0x10u8] + destination.0@
                    + datagram@,
                Frame::Recv { source, datagram } => bytes == seq![0x11u8] + source.0@ + datagram@,
                Frame::Register { tags } => {
                    &&& bytes.len() == 3 + 16 * tags@.len()
                    &&& bytes[0] == 0x04
                    &&& be_value(bytes.subrange(1, 3)) == tags@.len()
                    &&& forall|i: int|
                        0 <= i < tags@.len() ==> bytes.subrange(3 + 16 * i, 19 + 16 * i)
                            == #[trigger] tags@[i].0@
                },
                Frame::SendTag { tag, datagram } => bytes == seq![0x12u8] + tag.0@ + datagram@,
                Frame::RecvTag { tag, datagram } => bytes == seq![0x13u8] + tag.0@ + datagram@,
                Frame::Ping(opaque) => bytes == seq![0x20u8] + opaque@,
                Frame::Pong(opaque) => bytes == seq![0x21u8] + opaque@,
                Frame::Close(reason) => bytes.len() == 3 && bytes[0] == 0x7f && be_value(
                    bytes.skip(1),
                ) == reason,
            }
        }),
{
    lemma_pow256_values();
    let bytes = frame_bytes(frame);
    match frame {
        Frame::Register { tags } => {
            lemma_be_round_trip(tags@.len(), 2);
            assert(bytes.subrange(1, 3) =~= be_bytes(tags@.len(), 2));
            assert forall|i: int| 0 <= i < tags@.len() implies bytes.subrange(
                3 + 16 * i,
                19 + 16 * i,
            ) == #[trigger] tags@[i].0@ by {
                let part = bytes.subrange(3 + 16 * i, 19 + 16 * i);
                assert forall|k: int| 0 <= k < 16 implies part[k] == tags@[i].0@[k] by {
                    assert(part[k] == tags_bytes(tags@)[16 * i + k]);
                    assert((16 * i + k) / 16 == i);
                    assert((16 * i + k) % 16 == k);
                }
                assert(part =~= tags@[i].0@);
            }
        },
        Frame::Close(reason) => {
            lemma_be_round_trip(reason as nat, 2);
            assert(bytes.skip(1) =~= be_bytes(reason as nat, 2));
        },
        _ => {},
    }
}

/// A frame may travel if its datagram has from 1 to 1350 bytes and it names at most 256
/// tags; a frame without either may always.
pub proof fn law_which_frames_may_travel(frame: Frame)
    ensures
        match frame {
            Frame::Send { datagram, .. } => frame_valid(frame) <==> 1 <= datagram@.len() <= 1350,
            Frame::Recv { datagram, .. } => frame_valid(frame) <==> 1 <= datagram@.len() <= 1350,
            Frame::SendTag { datagram, .. } => frame_valid(frame) <==> 1 <= datagram@.len()
                <= 1350,
            Frame::RecvTag { datagram, .. } => frame_valid(frame) <==> 1 <= datagram@.len()
                <= 1350,
            Frame::Register { tags } => frame_valid(frame) <==> tags@.len() <= 256,
            _ => frame_valid(frame),
        },
{
}

/// What a node signs for a relay: its domain, the length of the host in two bytes, the
/// host, and the challenge.
pub proof fn law_what_a_node_signs_for_a_relay(host: Seq<u8>, challenge: Seq<u8>)
    requires
        host.len() < 0x1_0000,
    ensures
        ({
            let input = relay_auth_input(host, challenge);
            let n = host.len() as int;
            &&& input.len() == 32 + n + challenge.len()
            &&& input[29] == 0
            &&& be_value(input.subrange(30, 32)) == n
            &&& input.subrange(32, 32 + n) == host
            &&& input.skip(32 + n) == challenge
        }),
{
    lemma_pow256_values();
    lemma_be_round_trip(host.len(), 2);
    let input = relay_auth_input(host, challenge);
    let n = host.len() as int;
    assert(input.subrange(30, 32) =~= be_bytes(host.len(), 2));
    assert(input.subrange(32, 32 + n) =~= host);
    assert(input.skip(32 + n) =~= challenge);
}

/// A reflector request is its magic, a one and the nonce; a reply its magic, a two, the
/// nonce, the octets and the port.
pub proof fn law_the_layout_of_reflections(nonce: Seq<u8>, octets: Seq<u8>, port: u16)
    requires
        nonce.len() == 16,
        octets.len() == 16,
    ensures
        ({
            let request = reflect_request_bytes(nonce);
            let reply = reflect_reply_bytes(nonce, octets, port);
            &&& request.len() == 21
            &&& request[4] == 1
            &&& request.skip(5) == nonce
            &&& reply.len() == 39
            &&& reply[4] == 2
            &&& reply.take(4) == request.take(4)
            &&& reply.subrange(5, 21) == nonce
            &&& reply.subrange(21, 37) == octets
            &&& be_value(reply.skip(37)) == port
        }),
{
    lemma_pow256_values();
    lemma_be_round_trip(port as nat, 2);
    let request = reflect_request_bytes(nonce);
    let reply = reflect_reply_bytes(nonce, octets, port);
    assert(request.skip(5) =~= nonce);
    assert(reply.take(4) =~= request.take(4));
    assert(reply.subrange(5, 21) =~= nonce);
    assert(reply.subrange(21, 37) =~= octets);
    assert(reply.skip(37) =~= be_bytes(port as nat, 2));
}

/// A signed probe names its kind, both nodes and a nonce; a sealed one its kind, its
/// session's key and a nonce, and nobody.
pub proof fn law_the_layout_of_probes(probe: Probe, sealed: SealedProbe)
    ensures
        probe_body(probe).len() == 85,
        probe_body(probe)[4] == probe.kind,
        probe_body(probe).subrange(5, 37) == probe.sender.0@,
        probe_body(probe).subrange(37, 69) == probe.receiver.0@,
        probe_body(probe).skip(69) == probe.nonce@,
        probe_input(probe).skip(25) == probe_body(probe),
        probe_kind_known(probe.kind) <==> probe.kind == 1 || probe.kind == 2,
        sealed_body(sealed).len() == 29,
        sealed_body(sealed)[4] == sealed.kind,
        sealed_body(sealed).subrange(5, 13) == sealed.key_id@,
        sealed_body(sealed).skip(13) == sealed.nonce@,
{
    let body = probe_body(probe);
    assert(body.subrange(5, 37) =~= probe.sender.0@);
    assert(body.subrange(37, 69) =~= probe.receiver.0@);
    assert(body.skip(69) =~= probe.nonce@);
    assert(probe_input(probe).skip(25) =~= body);
    assert(sealed_body(sealed).subrange(5, 13) =~= sealed.key_id@);
    assert(sealed_body(sealed).skip(13) =~= sealed.nonce@);
}

/// A sealed probe is its body and the tag of that body under the key, and nothing else
/// opens under the key.
pub proof fn law_what_opens_a_probe(bytes: Seq<u8>, key: Seq<u8>, probe: SealedProbe)
    ensures
        seals(bytes, key, probe) <==> bytes.len() == 45 && bytes.take(29) == sealed_body(probe)
            && bytes.skip(29) == seal_tag(sealed_body(probe), key),
        seals(bytes, key, probe) ==> sealed_shaped(bytes) && bytes.subrange(5, 13)
            == probe.key_id@,
{
    if bytes.len() == 45 {
        assert(bytes.take(29) =~= bytes.subrange(0, 29));
        assert(bytes.skip(29) =~= bytes.subrange(29, 45));
    }
    if seals(bytes, key, probe) {
        let body = sealed_body(probe);
        assert(body.subrange(0, 4) =~= crate::wire::PROBE_MAGIC@);
        assert(bytes.subrange(0, 4) =~= body.subrange(0, 4));
        assert(body.subrange(5, 13) =~= probe.key_id@);
        assert(bytes.subrange(5, 13) =~= body.subrange(5, 13));
    }
}

/// A certificate passes the pin of a node exactly if it holds that node's key: the last
/// 32 of 44 bytes behind the prefix of an Ed25519 key.
pub proof fn law_a_pin_is_exact(expected: NodeId, presented: Option<Seq<u8>>, der: Seq<u8>)
    ensures
        pin_verdict(presented, expected) is None <==> presented == Some(expected.0@),
        presented is None ==> pin_verdict(presented, expected) == Some(PinFault::BadEncoding),
        presented matches Some(id) ==> (id != expected.0@ ==> pin_verdict(presented, expected)
            == Some(PinFault::OtherNode)),
        spki_identity(der) is Some <==> der.len() == 44 && der.take(12) == SPKI_ED25519_PREFIX@,
        spki_identity(der) matches Some(id) ==> id == der.skip(12),
        cert_identity(Some(der)) == spki_identity(der),
        cert_identity(None) is None,
        leaf_key(der).skip(16) == der,
{
    if der.len() == 44 {
        assert(der.take(12) =~= der.subrange(0, 12));
        assert(der.skip(12) =~= der.subrange(12, 44));
    }
    assert(leaf_key(der).skip(16) =~= der);
}

/// The synthetic address of a node lies in `fd00::/16`, and what follows comes of the
/// digest of its identity.
pub proof fn law_a_synthetic_address_is_unique_local(id: Seq<u8>)
    requires
        crate::crypto::sha256_digest(crate::id::ADDR_DOMAIN@ + id).len() == 32,
    ensures
        synthetic_octets(id).len() == 16,
        synthetic_octets(id)[0] == 0xfd,
        synthetic_octets(id)[1] == 0,
        synthetic_octets(id).skip(2) == crate::crypto::sha256_digest(
            crate::id::ADDR_DOMAIN@ + id,
        ).take(14),
{
    assert(synthetic_octets(id).skip(2) =~= crate::crypto::sha256_digest(
        crate::id::ADDR_DOMAIN@ + id,
    ).take(14));
}

/// Who is let in: on a route that is pinned, the node of the route and nobody else; on a
/// first-contact route, any key but this node's own; without a route or an identity,
/// nobody.
pub proof fn law_who_is_let_in(own: NodeId, plan: AcceptPlan, presented: Option<NodeId>)
    ensures
        match (plan, presented) {
            (AcceptPlan::Pinned(route), Some(node)) => {
                &&& node == route ==> accepted(own, plan, presented) == AcceptVerdict::Pinned(node)
                &&& node != route ==> accepted(own, plan, presented) is Mismatch
            },
            (AcceptPlan::Pairing(_), Some(node)) => {
                &&& node == own ==> accepted(own, plan, presented) is Close
                &&& node != own ==> accepted(own, plan, presented) == AcceptVerdict::Provisional(
                    node,
                )
            },
            _ => accepted(own, plan, presented) is Close,
        },
{
}

/// A handshake fails for the reason that it shows: a TLS alert is an identity that did
/// not hold, silence is a timeout, anything else is the relay.
pub proof fn law_why_a_handshake_failed(code: u64)
    ensures
        handshake_reason(HandshakeFault::TimedOut) == FailReason::Timeout,
        handshake_reason(HandshakeFault::Other) == FailReason::Relay,
        256 <= code < 512 ==> handshake_reason(HandshakeFault::Transport(code))
            == FailReason::Identity,
        code < 256 || code >= 512 ==> handshake_reason(HandshakeFault::Transport(code))
            == FailReason::Relay,
{
}

/// A probe is carried by its eighty-five bytes and the signature of its sender, as a ping
/// or a pong.
pub proof fn law_what_carries_a_probe(bytes: Seq<u8>, probe: Probe)
    ensures
        carries_probe(bytes, probe) <==> {
            &&& bytes.len() == 149
            &&& bytes.take(85) == probe_body(probe)
            &&& probe.kind == 1 || probe.kind == 2
            &&& ed25519_accepts(probe.sender.0@, probe_input(probe), bytes.skip(85))
        },
{
    if bytes.len() == 149 {
        assert(bytes.subrange(0, 85) =~= bytes.take(85));
        assert(bytes.subrange(85, 149) =~= bytes.skip(85));
    }
}

/// The signature for a relay is that of the seed over the host and the challenge.
pub proof fn law_whose_signature_a_relay_gets(seed: Seq<u8>, host: Seq<u8>, challenge: Seq<u8>)
    ensures
        relay_auth_signature(seed, host, challenge) == ed25519_signature(
            seed,
            relay_auth_input(host, challenge),
        ),
{
}

} // verus!
