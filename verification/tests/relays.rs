use forgesworn_link::id::{NodeId, TransportKey};
use forgesworn_link::net::{IpAddr, SocketAddr};
use forgesworn_link::relay::{
    authenticated, certificate_names, fresh_challenge, fresh_token, hex_lower, malformed_close,
    read_binary, reflector_answer, superseded_close, Action, Incoming, Opening, Registry,
    RelayHandle, RelaySession, TlsMaterial,
};
use forgesworn_link::rendezvous::Tag;
use forgesworn_link::wire::{
    parse_reflect_reply, reflect_request, sign_relay_auth, Frame, CLOSE_REASON_SUPERSEDED,
};

fn tag(byte: u8) -> Tag {
    Tag([byte; 16])
}

fn ip(last: u8) -> IpAddr {
    IpAddr::V4([192, 0, 2, last])
}

fn open_tags(registry: &mut Registry, id: u64, tags: Vec<Tag>) -> (RelaySession, Vec<u64>) {
    match registry.open(id, Some(Frame::Register { tags }), false, 0) {
        Opening::Up { session, superseded } => (session, superseded),
        Opening::Refused(words) => panic!("refused: {words}"),
    }
}

fn open_identity(registry: &mut Registry, id: u64, node_id: NodeId) -> (RelaySession, Vec<u64>) {
    let auth = Frame::Auth {
        node_id,
        signature: [0; 64],
    };
    match registry.open(id, Some(auth), true, 0) {
        Opening::Up { session, superseded } => (session, superseded),
        Opening::Refused(words) => panic!("refused: {words}"),
    }
}

#[test]
fn tags_route_between_registered_sessions_and_exclude_the_sender() {
    let mut registry = Registry::new();
    let shared = tag(7);
    let (mut a, _) = open_tags(&mut registry, 1, vec![shared, tag(1)]);
    open_tags(&mut registry, 2, vec![shared]);
    let message = Incoming::Frame(Frame::SendTag {
        tag: shared,
        datagram: vec![1, 2, 3],
    });
    match registry.receive(&mut a, message, 5) {
        Action::ToTag { tag, frame } => {
            assert_eq!(tag, shared);
            assert_eq!(
                frame,
                Frame::RecvTag {
                    tag: shared,
                    datagram: vec![1, 2, 3]
                }
            );
        }
        _ => panic!("expected a tag delivery"),
    }
    assert_eq!(registry.targets_of_tag(&shared, 1), vec![2], "never the sender");
    assert!(registry.targets_of_tag(&tag(99), 1).is_empty());
}

#[test]
fn a_later_register_replaces_the_tag_set() {
    let mut registry = Registry::new();
    let (first, second) = (tag(10), tag(20));
    open_tags(&mut registry, 1, vec![first]);
    let (mut b, _) = open_tags(&mut registry, 2, vec![first]);
    let rotated = registry.receive(
        &mut b,
        Incoming::Frame(Frame::Register { tags: vec![second] }),
        1,
    );
    assert!(matches!(rotated, Action::Replaced { superseded } if superseded.is_empty()));
    assert!(registry.targets_of_tag(&first, 1).is_empty());
    // The sender need not be registered with a tag to send on it.
    assert_eq!(registry.targets_of_tag(&second, 1), vec![2]);
}

#[test]
fn identity_sessions_still_work_beside_tag_sessions() {
    let mut registry = Registry::new();
    let (key_a, key_b) = (TransportKey::generate(), TransportKey::generate());
    let (mut a, _) = open_identity(&mut registry, 1, key_a.node_id());
    open_identity(&mut registry, 2, key_b.node_id());
    open_tags(&mut registry, 3, vec![tag(5)]);
    let send = Frame::Send {
        destination: key_b.node_id(),
        datagram: vec![4, 5, 6],
    };
    match registry.receive(&mut a, Incoming::Frame(send), 1) {
        Action::ToNode { destination, frame } => {
            assert_eq!(registry.targets_of_node(&destination), vec![2]);
            assert_eq!(
                frame,
                Frame::Recv {
                    source: key_a.node_id(),
                    datagram: vec![4, 5, 6]
                }
            );
        }
        _ => panic!("expected an identity delivery"),
    }
}

#[test]
fn mode_mixing_is_malformed() {
    let mut registry = Registry::new();
    let (mut tags, _) = open_tags(&mut registry, 1, vec![tag(3)]);
    let send = Frame::Send {
        destination: NodeId([1; 32]),
        datagram: vec![1],
    };
    assert!(matches!(
        registry.receive(&mut tags, Incoming::Frame(send), 1),
        Action::Refuse(_)
    ));
    let (mut ident, _) = open_identity(&mut registry, 2, NodeId([2; 32]));
    let send = Frame::SendTag {
        tag: tag(3),
        datagram: vec![1],
    };
    assert!(matches!(
        registry.receive(&mut ident, Incoming::Frame(send), 1),
        Action::Refuse(_)
    ));
    assert!(matches!(
        registry.receive(&mut ident, Incoming::Malformed, 1),
        Action::Refuse(_)
    ));
    assert_eq!(malformed_close(), Frame::Close(1));
}

#[test]
fn a_second_identity_session_supersedes_the_first_with_a_close() {
    let mut registry = Registry::new();
    let node = NodeId([7; 32]);
    let (first, superseded) = open_identity(&mut registry, 1, node);
    assert!(superseded.is_empty());
    let (_, superseded) = open_identity(&mut registry, 2, node);
    assert_eq!(superseded, vec![1]);
    assert_eq!(superseded_close(), Frame::Close(CLOSE_REASON_SUPERSEDED));
    registry.close(&first);
    assert_eq!(registry.targets_of_node(&node), vec![2], "the newer one stays");
}

#[test]
fn a_third_tag_registrant_evicts_the_oldest() {
    let mut registry = Registry::new();
    let t = tag(0x42);
    open_tags(&mut registry, 1, vec![t]);
    open_tags(&mut registry, 2, vec![t]);
    let (c, superseded) = open_tags(&mut registry, 3, vec![t]);
    assert_eq!(superseded, vec![1]);
    assert_eq!(registry.targets_of_tag(&t, 3), vec![2]);
    registry.close(&c);
    assert!(registry.targets_of_tag(&t, 2).is_empty());
}

#[test]
fn a_source_above_its_cap_is_refused_before_the_handshake() {
    let mut registry = Registry::new();
    assert!(registry.take_in(ip(1), 10, 2));
    assert!(registry.take_in(ip(1), 10, 2));
    assert!(!registry.take_in(ip(1), 10, 2));
    assert!(registry.take_in(ip(2), 10, 2));
    registry.release(ip(1));
    assert!(registry.take_in(ip(1), 10, 2));
}

#[test]
fn zero_means_no_per_source_cap() {
    let mut registry = Registry::new();
    for n in 0..8 {
        assert!(registry.take_in(ip(1), 64, 0), "session {n} refused with no cap");
    }
    for _ in 8..64 {
        assert!(registry.take_in(ip(1), 64, 0));
    }
    assert!(!registry.take_in(ip(1), 64, 0), "the total still holds");
}

#[test]
fn a_first_frame_opens_or_is_refused() {
    let mut registry = Registry::new();
    let auth = Frame::Auth {
        node_id: NodeId([1; 32]),
        signature: [0; 64],
    };
    assert!(matches!(
        registry.open(1, Some(auth), false, 0),
        Opening::Refused("auth signature refused")
    ));
    assert!(matches!(
        registry.open(1, Some(Frame::Register { tags: vec![] }), false, 0),
        Opening::Refused("first frame was not an auth or a register")
    ));
    assert!(matches!(
        registry.open(1, None, true, 0),
        Opening::Refused("first frame was not an auth or a register")
    ));
}

#[test]
fn an_auth_answers_the_challenge_of_any_of_the_hosts() {
    let key = TransportKey::from_seed([5; 32]);
    let challenge = [8u8; 32];
    let first = Some(Frame::Auth {
        node_id: key.node_id(),
        signature: sign_relay_auth(&key, "b.example", &challenge),
    });
    let hosts = vec!["a.example".to_owned(), "b.example".to_owned()];
    assert!(authenticated(&hosts, &challenge, &first));
    assert!(!authenticated(&hosts, &[9; 32], &first));
    assert!(!authenticated(&vec!["a.example".to_owned()], &challenge, &first));
    assert!(!authenticated(&hosts, &challenge, &None));
}

#[test]
fn a_session_answers_pings_and_counts() {
    let mut registry = Registry::new();
    let (mut session, _) = open_tags(&mut registry, 1, vec![tag(1)]);
    assert!(matches!(
        registry.receive(&mut session, Incoming::Frame(Frame::Ping([3; 8])), 40),
        Action::Reply(Frame::Pong(body)) if body == [3; 8]
    ));
    assert_eq!(session.last_ping, 40);
    assert!(!session.idle(90_040));
    assert!(session.idle(90_041));
    session.note_sent();
    session.note_delivery(false, 1, 0);
    session.note_delivery(true, 2, 1);
    session.note_delivery(true, 1, 0);
    assert_eq!((session.frames_out, session.dropped), (1, 2));
    assert!(matches!(
        registry.receive(&mut session, Incoming::WebSocketPing, 41),
        Action::ReplyPong
    ));
    assert!(matches!(
        registry.receive(&mut session, Incoming::WebSocketClose, 41),
        Action::End
    ));
}

#[test]
fn binary_messages_are_frames_or_malformed() {
    assert!(matches!(
        read_binary(&Frame::Close(1).encode()),
        Incoming::Frame(Frame::Close(1))
    ));
    assert!(matches!(read_binary(&[0xee]), Incoming::Malformed));
}

#[test]
fn a_reflector_tells_where_a_request_came_from() {
    let from = SocketAddr::new(ip(9), 4_433);
    let answer = reflector_answer(&reflect_request(&[7; 16]), from).expect("a request");
    let (nonce, _) = parse_reflect_reply(&answer).expect("a reply");
    assert_eq!(nonce, [7; 16]);
    assert!(reflector_answer(b"noise", from).is_none());
}

#[test]
fn challenges_and_tokens_are_fresh() {
    assert_ne!(fresh_challenge(), fresh_challenge());
    assert_ne!(fresh_token(), fresh_token());
}

#[test]
fn a_relay_names_itself() {
    assert!(TlsMaterial::self_signed(&vec!["rel\u{e9}.example".to_owned()]).is_none());
    let material = TlsMaterial::self_signed(&vec!["relay.example".to_owned()]).expect("leaf");
    assert_eq!(material.fingerprint().len(), 64);
    assert!(material.cert_der.windows(13).any(|part| part == b"relay.example"));
    assert!(TlsMaterial::of_leaf(None).is_none());
    let given = TlsMaterial::of_leaf(Some((vec![1, 2], vec![3]))).expect("a leaf");
    assert_eq!((given.cert_der, given.key_der), (vec![1, 2], vec![3]));
    let handle = RelayHandle {
        ws_addr: SocketAddr::new(ip(1), 7_000),
        udp_addr: SocketAddr::new(ip(1), 7_001),
        tls_fingerprint: None,
    };
    assert_eq!(handle.url("relay.example"), "ws://relay.example:7000/link");
    let secure = RelayHandle {
        tls_fingerprint: Some(material.fingerprint()),
        ..handle
    };
    assert_eq!(secure.url("h"), "wss://h:7000/link");
    assert_eq!(certificate_names(&vec![]), vec!["localhost".to_owned()]);
    assert_eq!(hex_lower(&[0x0a, 0xff]), "0aff");
}
