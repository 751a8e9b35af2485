use forgesworn_link::card::unmap_ipv6;
use forgesworn_link::id::{NodeId, TransportKey};
use forgesworn_link::net::{IpAddr, SocketAddr};
use forgesworn_link::rendezvous::Tag;
use forgesworn_link::wire::{
    parse_reflect_reply, parse_reflect_request, reflect_reply, reflect_request,
    relay_auth_signing_input, sign_relay_auth, verify_relay_auth, Frame, Probe, MAX_DATAGRAM,
    MAX_TAGS_PER_REGISTER, PROBE_PING, PROBE_PONG, REFLECT_REPLY_BYTES, REFLECT_REQUEST_BYTES,
};

fn tag(byte: u8) -> Tag {
    Tag([byte; 16])
}

fn node_a() -> TransportKey {
    TransportKey::from_seed([0x11; 32])
}

fn node_b() -> TransportKey {
    TransportKey::from_seed([0x22; 32])
}

#[test]
fn register_round_trips_and_bounds_hold() {
    let frame = Frame::Register {
        tags: vec![tag(1), tag(2), tag(3)],
    };
    assert_eq!(Frame::decode(&frame.encode()), Some(frame));

    let max = Frame::Register {
        tags: (0..MAX_TAGS_PER_REGISTER).map(|i| tag(i as u8)).collect(),
    };
    assert_eq!(Frame::decode(&max.encode()), Some(max));

    // An empty replacement explicitly unregisters every tag after a session
    // is established.  The relay rejects it only as the first frame.
    let empty = Frame::Register { tags: Vec::new() };
    assert_eq!(Frame::decode(&empty.encode()), Some(empty));
    // Over-max tags and a count that disagrees with the body are malformed.
    let over = Frame::Register {
        tags: (0..=MAX_TAGS_PER_REGISTER).map(|i| tag(i as u8)).collect(),
    };
    assert_eq!(Frame::decode(&over.encode()), None);
    let mut lying = Frame::Register { tags: vec![tag(9)] }.encode();
    lying[2] = 2; // claims two tags, carries one
    assert_eq!(Frame::decode(&lying), None);
}

#[test]
fn tag_routed_datagrams_round_trip_and_bound() {
    let frame = Frame::SendTag {
        tag: tag(7),
        datagram: vec![0xAB; MAX_DATAGRAM],
    };
    assert_eq!(Frame::decode(&frame.encode()), Some(frame));

    let recv = Frame::RecvTag {
        tag: tag(8),
        datagram: vec![1],
    };
    assert_eq!(Frame::decode(&recv.encode()), Some(recv));

    // An empty datagram and an oversize one are both malformed.
    let empty = Frame::SendTag {
        tag: tag(7),
        datagram: Vec::new(),
    };
    assert_eq!(Frame::decode(&empty.encode()), None);
    let oversize = Frame::SendTag {
        tag: tag(7),
        datagram: vec![0; MAX_DATAGRAM + 1],
    };
    assert_eq!(Frame::decode(&oversize.encode()), None);
}

#[test]
fn debug_never_prints_tag_bytes() {
    let rendered = format!("{:?}", tag(0x5A));
    assert!(!rendered.contains("5a") && !rendered.contains("90"));
    assert_eq!(rendered, "Tag(redacted)");
}

#[test]
fn relay_frames_round_trip_and_bound_datagrams() {
    let a = node_a().node_id();
    let frames = vec![
        Frame::Challenge([7u8; 32]),
        Frame::Auth {
            node_id: a,
            signature: [9u8; 64],
        },
        Frame::Welcome([3u8; 16]),
        Frame::Send {
            destination: a,
            datagram: vec![1, 2, 3],
        },
        Frame::Recv {
            source: a,
            datagram: vec![4; MAX_DATAGRAM],
        },
        Frame::Ping([1u8; 8]),
        Frame::Pong([2u8; 8]),
        Frame::Close(1),
    ];
    for frame in frames {
        let bytes = frame.encode();
        assert_eq!(
            Frame::decode(&bytes),
            Some(frame.clone()),
            "round trip {frame:?}"
        );
    }

    let oversize = Frame::Send {
        destination: a,
        datagram: vec![0; MAX_DATAGRAM + 1],
    }
    .encode();
    assert_eq!(
        Frame::decode(&oversize),
        None,
        "oversize datagram is malformed"
    );
    let empty = Frame::Send {
        destination: a,
        datagram: Vec::new(),
    }
    .encode();
    assert_eq!(Frame::decode(&empty), None, "empty datagram is malformed");
    assert_eq!(
        Frame::decode(&[0xee, 0x00]),
        None,
        "unknown tag is malformed"
    );
    assert_eq!(Frame::decode(&[]), None, "empty frame is malformed");
}

#[test]
fn frames_have_their_exact_bytes() {
    assert_eq!(Frame::Close(2).encode(), vec![0x7f, 0x00, 0x02]);
    assert_eq!(
        Frame::Ping([1; 8]).encode(),
        vec![0x20, 1, 1, 1, 1, 1, 1, 1, 1]
    );
    assert_eq!(
        Frame::Register { tags: vec![tag(5)] }.encode(),
        [vec![0x04, 0x00, 0x01], vec![5; 16]].concat()
    );
    assert_eq!(Frame::decode(&[0x7f, 0x00]), None);
    assert_eq!(Frame::decode(&[0x20, 1, 2]), None);
}

#[test]
fn reflector_messages_round_trip() {
    let nonce = [0x5au8; 16];
    let request = reflect_request(&nonce);
    assert_eq!(request.len(), REFLECT_REQUEST_BYTES, "21 bytes in");
    assert_eq!(parse_reflect_request(&request), Some(nonce));

    let observed = SocketAddr::new(IpAddr::V4([198, 51, 100, 7]), 4433);
    let reply = reflect_reply(&nonce, observed);
    assert_eq!(reply.len(), REFLECT_REPLY_BYTES, "39 bytes out");
    let (got_nonce, got_addr) = parse_reflect_reply(&reply).unwrap();
    assert_eq!(got_nonce, nonce);
    assert_eq!(unmap_ipv6(got_addr), observed, "v4-mapped round trip");
    assert_eq!(&reply[..5], b"FSLR\x02");
    assert_eq!(&reply[37..], &4433u16.to_be_bytes());
}

#[test]
fn malformed_reflector_messages_are_dropped() {
    let nonce = [1u8; 16];
    let request = reflect_request(&nonce);
    assert_eq!(parse_reflect_request(&request[..20]), None);
    let mut wrong = request;
    wrong[4] = 2;
    assert_eq!(parse_reflect_request(&wrong), None);
    assert_eq!(parse_reflect_reply(&request), None);
}

#[test]
fn a_relay_handshake_is_bound_to_its_host_and_challenge() {
    let key = node_a();
    let challenge = [0x33u8; 32];
    let input = relay_auth_signing_input("relay.example", &challenge);
    assert!(input.starts_with(b"forgesworn-link/relay-auth/v1"));
    assert!(input.ends_with(&challenge));
    let signature = sign_relay_auth(&key, "relay.example", &challenge);
    let id = key.node_id();
    assert!(verify_relay_auth(&id, "relay.example", &challenge, &signature));
    assert!(
        !verify_relay_auth(&id, "other.example", &challenge, &signature),
        "a captured handshake must not replay to another relay"
    );
    assert!(!verify_relay_auth(&id, "relay.example", &[0x34; 32], &signature));
    assert!(!verify_relay_auth(
        &node_b().node_id(),
        "relay.example",
        &challenge,
        &signature
    ));
}

#[test]
fn probes_verify_and_tampering_shows() {
    let a = node_a();
    let b = node_b();
    for (kind, signer, sender, receiver) in [
        (PROBE_PING, &a, a.node_id(), b.node_id()),
        (PROBE_PONG, &b, b.node_id(), a.node_id()),
    ] {
        let probe = Probe {
            kind,
            sender,
            receiver,
            nonce: [6; 16],
        };
        let body = probe.body();
        assert_eq!(&body[..4], b"FSLP");
        assert_eq!(body[4], kind);
        assert_eq!(&body[5..37], &sender.0);
        assert_eq!(&body[37..69], &receiver.0);
        assert_eq!(&body[69..], &[6; 16]);
        assert!(probe.signing_input().ends_with(&body));
        let wire = probe.sign(signer);
        assert_eq!(&wire[..85], &body);
        assert_eq!(Probe::parse_claim(&wire), Some(probe.clone()));
        assert_eq!(Probe::parse_verified(&wire), Some(probe));
        let mut tampered = wire;
        tampered[70] ^= 0x01;
        assert_eq!(Probe::parse_verified(&tampered), None);
        assert_eq!(Probe::parse_verified(&wire[..148]), None);
    }
    let forged = Probe {
        kind: PROBE_PING,
        sender: NodeId([1; 32]),
        receiver: b.node_id(),
        nonce: [0; 16],
    }
    .sign(&a);
    assert_eq!(Probe::parse_verified(&forged), None);
}
