use forgesworn_link::id::NodeId;
use forgesworn_link::net::{IpAddr, SocketAddr};
use forgesworn_link::path::{FailReason, PathStatus};
use forgesworn_link::path_socket::{
    is_fresh, local_addresses, since, Heard, KeyId, Nonce, Paths, ProbeKey, Proven, Route,
    DIRECT_FRESH, LEARNED_TTL, MAX_LOCAL_CANDIDATES, PROBE_ID_BYTES, PROBE_KEY_BYTES,
};
use forgesworn_link::relay_client::RelayStatus;
use forgesworn_link::session::{
    candidates_message, control_length, parse_control, punch_now_message, Control, Ending, Seen,
    SessionEvent, SessionPath,
};
use forgesworn_link::wire::{reflect_reply, SealedProbe, PROBE_PING, PROBE_PONG};

fn v4(last: u8) -> IpAddr {
    IpAddr::V4([192, 168, 7, last])
}

fn at(last: u8) -> SocketAddr {
    SocketAddr::new(v4(last), 4_000 + last as u16)
}

fn paths() -> Paths {
    Paths::new(NodeId([1; 32]), SocketAddr::new(IpAddr::V4([0; 4]), 5_000))
}

fn key() -> ProbeKey {
    ProbeKey {
        id: KeyId([0x24; PROBE_ID_BYTES]),
        key: [0x42; PROBE_KEY_BYTES],
    }
}

#[test]
fn every_routable_interface_address_is_offered() {
    let interfaces = vec![
        v4(1),
        IpAddr::V4([127, 0, 0, 1]),
        IpAddr::V4([169, 254, 1, 1]),
        v4(2),
    ];
    let offered = local_addresses(true, Some(v4(2)), &interfaces);
    for ip in [v4(1), v4(2)] {
        assert!(offered.contains(&ip), "{ip:?} is missing from {offered:?}");
    }
    assert_eq!(
        offered.last().copied(),
        Some(IpAddr::V4([127, 0, 0, 1])),
        "loopback is offered last so a same-host peer still works"
    );
    assert!(offered.len() <= MAX_LOCAL_CANDIDATES);
    assert!(
        offered.iter().all(|ip| ip.is_ipv4()),
        "one family per socket"
    );
}

#[test]
fn link_local_and_the_wrong_family_are_never_offered() {
    let mut link_local = [0u8; 16];
    link_local[0] = 0xfe;
    link_local[1] = 0x80;
    link_local[15] = 1;
    let mut unique_local = [0u8; 16];
    unique_local[0] = 0xfd;
    unique_local[15] = 1;
    let interfaces = vec![v4(1), IpAddr::V6(link_local), IpAddr::V6(unique_local)];
    for ip in local_addresses(false, None, &interfaces) {
        assert!(!ip.is_ipv4(), "{ip:?} is not IPv6");
        assert!(!ip.is_link_local(), "{ip:?} is link-local");
    }
    assert!(IpAddr::V4([169, 254, 1, 1]).is_link_local());
    assert!(IpAddr::V6(link_local).is_link_local());
    assert!(!IpAddr::V6(unique_local).is_link_local());
}

fn sealed(kind: u8, id: u8, nonce: u8, key: u8) -> [u8; 45] {
    SealedProbe {
        kind,
        key_id: [id; PROBE_ID_BYTES],
        nonce: [nonce; 16],
    }
    .seal(&[key; PROBE_KEY_BYTES])
}

#[test]
fn a_replayed_ping_earns_one_pong_a_second_and_a_candidate_that_expires() {
    let mut paths = paths();
    let peer = NodeId([9u8; 32]);
    paths.register_peer(peer);
    paths.register_probe_key(peer, key());
    let from = at(9);
    let ping = sealed(PROBE_PING, 0x24, 7, 0x42);
    let mut replies: Vec<[u8; 45]> = Vec::new();
    for turn in 0..5u64 {
        match paths.hear_datagram(&ping, from, 1_000 + turn) {
            Heard::Probe { peer: found, key_id, nonce, order } => {
                assert_eq!(found, peer);
                if order.answer {
                    replies.push(paths.pong(key_id, nonce).expect("a live session"));
                }
                if order.probe_back {
                    let back = paths.send_ping(peer, from, 1_000 + turn).expect("a key");
                    replies.push(back.wire());
                }
            }
            other => panic!("expected a probe, got {other:?}"),
        }
    }
    let count = |kind: u8| {
        replies
            .iter()
            .filter(|bytes| {
                SealedProbe::open(&bytes[..], &[0x42; PROBE_KEY_BYTES])
                    .is_some_and(|probe| probe.kind == kind)
            })
            .count()
    };
    assert_eq!(count(PROBE_PONG), 1, "one pong per source address per second");
    assert_eq!(count(PROBE_PING), 1, "one counter-probe per source address per second");
    assert!(
        paths.probe_targets(peer, 1_000).contains(&from),
        "an address that sent a valid ping is probed back"
    );
    paths.prune_learned(peer, 1_000 + LEARNED_TTL + 1_000);
    assert!(
        !paths
            .probe_targets(peer, 1_000 + LEARNED_TTL + 1_000)
            .contains(&from),
        "a learnt address that never proved is forgotten"
    );
}

#[test]
fn a_probe_under_an_unknown_or_wrong_key_is_ignored() {
    let mut paths = paths();
    let peer = NodeId([9u8; 32]);
    paths.register_peer(peer);
    let key = ProbeKey {
        id: KeyId([1u8; PROBE_ID_BYTES]),
        key: [2u8; PROBE_KEY_BYTES],
    };
    paths.register_probe_key(peer, key);
    let from = at(9);
    let wrong_key = sealed(PROBE_PING, 1, 7, 3);
    assert!(matches!(paths.hear_datagram(&wrong_key, from, 10), Heard::Silence));
    let unknown_id = sealed(PROBE_PING, 8, 7, 2);
    assert!(matches!(paths.hear_datagram(&unknown_id, from, 10), Heard::Silence));
    assert!(
        !paths.probe_targets(peer, 10).contains(&from),
        "a forger's address is never a candidate"
    );
    let (found, known) = paths.probe_session(key.id).expect("a live session");
    assert_eq!((found, known.key), (peer, key.key));
    let right = sealed(PROBE_PING, 1, 7, 2);
    assert!(matches!(paths.hear_datagram(&right, from, 10), Heard::Probe { .. }));
}

#[test]
fn a_ping_of_an_ended_session_is_not_answered() {
    let mut paths = paths();
    let peer = NodeId([9u8; 32]);
    paths.register_peer(peer);
    let (_, _) = paths.begin_session(peer);
    paths.register_probe_key(peer, key());
    let old = sealed(PROBE_PING, 0x24, 7, 0x42);
    assert!(matches!(paths.hear_datagram(&old, at(9), 10), Heard::Probe { .. }));
    let (second, _) = paths.begin_session(peer);
    let next = ProbeKey {
        id: KeyId([0x25; PROBE_ID_BYTES]),
        key: [0x43; PROBE_KEY_BYTES],
    };
    paths.register_probe_key(peer, next);
    assert!(matches!(paths.hear_datagram(&old, at(9), 5_000), Heard::Silence));
    assert!(paths.pong(key().id, Nonce([7; 16])).is_none());
    let fresh = sealed(PROBE_PING, 0x25, 7, 0x43);
    assert!(matches!(paths.hear_datagram(&fresh, at(9), 5_000), Heard::Probe { .. }));
    assert!(matches!(
        paths.hear_probe(next.id, Some((PROBE_PING, Nonce([8; 16]))), at(9), 6_000),
        Heard::Probe { peer: found, order, .. } if found == peer && order.answer
    ));
    assert!(matches!(paths.hear_probe(next.id, None, at(9), 7_000), Heard::Silence));
    paths.unregister_probe_key(next.id);
    paths.end_session(peer, second);
    assert!(matches!(paths.hear_datagram(&fresh, at(9), 8_000), Heard::Silence));
    assert!(paths.probe_session(next.id).is_none());
}

#[test]
fn unproven_addresses_and_forged_probes_are_dropped() {
    let peer = NodeId([9u8; 32]);
    let mut paths = paths();
    paths.register_peer(peer);
    paths.register_probe_key(peer, key());
    assert!(matches!(paths.hear_datagram(&[0xa5; 1200], at(5), 10), Heard::Silence));
    let forged = sealed(PROBE_PING, 7, 7, 7);
    assert_eq!(
        SealedProbe::peek_key_id(&forged),
        Some([7u8; 8]),
        "the forged probe has a probe's shape"
    );
    assert!(matches!(paths.hear_datagram(&forged, at(5), 10), Heard::Silence));
    assert!(paths.probe_targets(peer, 10).is_empty(), "a forger is never a candidate");
    assert!(paths.proven_direct(peer).is_none());

    let ping = sealed(PROBE_PING, 0x24, 7, 0x42);
    match paths.hear_datagram(&ping, at(5), 10) {
        Heard::Probe { peer: found, key_id, nonce, order } => {
            assert_eq!((found, key_id, nonce), (peer, key().id, Nonce([7; 16])));
            assert!(order.answer && order.probe_back);
        }
        other => panic!("expected a probe, got {other:?}"),
    }
    let issued = paths.send_ping(peer, at(5), 11).expect("a key is known");
    let pong = paths.pong(key().id, issued.nonce).expect("a live session");
    assert!(matches!(
        paths.hear_datagram(&pong, at(5), 12),
        Heard::Probe { order, .. } if !order.answer && !order.probe_back
    ));
    assert!(matches!(
        paths.hear_datagram(&[0x5a; 1200], at(5), 13),
        Heard::From(found) if found == peer
    ));
    paths.unregister_probe_key(key().id);
    assert!(matches!(paths.hear_datagram(&ping, at(5), 2_000), Heard::Silence));

    let observed = SocketAddr::new(IpAddr::V4([198, 51, 100, 7]), 4_433);
    paths.await_reflection(Nonce([5; 16]));
    let reply = reflect_reply(&[5; 16], observed);
    assert!(matches!(paths.hear_datagram(&reply, at(6), 14), Heard::Silence));
    assert_eq!(paths.reflexive(), Some(observed));
}

#[test]
fn a_sealed_probe_opens_under_its_own_key_only() {
    let probe = SealedProbe {
        kind: PROBE_PING,
        key_id: [1; 8],
        nonce: [2; 16],
    };
    let wire = probe.seal(&[3; 32]);
    assert_eq!(&wire[..4], b"FSLP");
    assert_eq!(SealedProbe::peek_key_id(&wire), Some([1; 8]));
    assert_eq!(SealedProbe::open(&wire, &[3; 32]), Some(probe));
    assert_eq!(SealedProbe::open(&wire, &[4; 32]), None);
    for place in 0..wire.len() {
        let mut tampered = wire;
        tampered[place] ^= 1;
        assert_eq!(SealedProbe::open(&tampered, &[3; 32]), None);
    }
    assert_eq!(SealedProbe::open(&wire[..44], &[3; 32]), None);
    assert_eq!(SealedProbe::peek_key_id(&[0; 45]), None);
}

#[test]
fn a_pong_proves_its_address_once_and_a_proof_goes_stale() {
    let mut paths = paths();
    let peer = NodeId([9u8; 32]);
    paths.register_peer(peer);
    paths.register_probe_key(peer, key());
    paths.hear_pong(peer, Nonce([1; 16]), at(4), 110);
    assert!(paths.proven_direct(peer).is_none(), "a nonce nobody issued");
    let ping = paths.send_ping(peer, at(3), 120).expect("a key is known");
    paths.handle_probe(peer, PROBE_PONG, ping.nonce, at(3), 130);
    let proven = paths.proven_direct(peer).expect("proved");
    assert_eq!((proven.addr, proven.proved_at), (at(3), 130));
    paths.hear_pong(peer, ping.nonce, at(4), 135);
    assert_eq!(paths.proven_direct(peer).expect("still").addr, at(3), "a pong proves once");
    assert!(is_fresh(&Some(proven), 130 + DIRECT_FRESH - 1));
    assert!(!is_fresh(&Some(proven), 130 + DIRECT_FRESH + 1));
    assert!(!is_fresh(&None::<Proven>, 0));
    assert_eq!(paths.direct_inbound(at(3)), Some(peer));
    let synthetic = peer.synthetic_addr();
    assert!(matches!(paths.route(synthetic, 100, 140), Route::Direct(addr) if addr == at(3)));
    paths.drop_direct(peer);
    assert!(matches!(paths.route(synthetic, 100, 140), Route::Relay(to) if to == peer));
    assert!(matches!(paths.route(synthetic, 5_000, 140), Route::TooLarge));
    assert!(matches!(paths.route(at(8), 100, 140), Route::Nobody));
    assert_eq!(since(100, 130), 30);
}

#[test]
fn a_new_session_starts_clean_and_an_old_one_ends_quietly() {
    let mut paths = paths();
    let peer = NodeId([9u8; 32]);
    paths.register_peer(peer);
    let (first, before) = paths.begin_session(peer);
    assert_eq!(before, None);
    paths.set_peer_candidates(peer, vec![at(1)]);
    let (second, before) = paths.begin_session(peer);
    assert_eq!(before, Some(first));
    assert!(paths.peer_candidates(peer).is_empty());
    paths.set_peer_candidates(peer, vec![at(2)]);
    paths.end_session(peer, first);
    assert_eq!(paths.peer_candidates(peer), vec![at(2)]);
    paths.end_session(peer, second);
    assert_eq!(paths.node_id(), NodeId([1; 32]));
}

#[test]
fn relay_arrivals_set_the_way_back() {
    let mut paths = paths();
    let peer = NodeId([9u8; 32]);
    let synthetic = paths.relay_inbound(peer, 6);
    assert_eq!(synthetic, peer.synthetic_addr());
    assert_eq!(paths.peer_for_synthetic(synthetic), Some(peer));
    assert_eq!(paths.driver_of(peer), 6);
    assert!(!paths.can_reach(synthetic), "an IPv4 socket");
    assert!(paths.can_reach(at(1)));
    paths.set_driver(peer, 2);
    paths.copy_relay_route(peer, NodeId([8; 32]));
    assert_eq!(paths.driver_of(NodeId([8; 32])), 2);
}

#[test]
fn a_reflection_counts_only_for_its_own_nonce() {
    let mut paths = paths();
    let observed = SocketAddr::new(IpAddr::V4([198, 51, 100, 7]), 4_433);
    paths.await_reflection(Nonce([5; 16]));
    paths.hear_reflection(&reflect_reply(&[6; 16], observed));
    assert_eq!(paths.reflexive(), None);
    paths.hear_reflection(&reflect_reply(&[5; 16], observed));
    assert_eq!(paths.reflexive(), Some(observed));
    let offered = paths.local_candidates(&vec![v4(1)]);
    assert!(offered.contains(&observed));
    assert!(offered.contains(&SocketAddr::new(v4(1), 5_000)));
    assert_eq!(paths.query_reflector().len(), 21);
}

#[test]
fn candidates_survive_the_wire() {
    assert_eq!(punch_now_message(), vec![0, 0, 0, 1, 2]);
    let message = candidates_message(&[at(1), at(2)]);
    let header = [message[0], message[1], message[2], message[3]];
    assert_eq!(control_length(&header), Some(38));
    match parse_control(&message[4..]) {
        Some(Control::Candidates(list)) => {
            let plain: Vec<_> = list
                .into_iter()
                .map(forgesworn_link::card::unmap_ipv6)
                .collect();
            assert_eq!(plain, vec![at(1), at(2)]);
        }
        _ => panic!("expected candidates"),
    }
    assert!(matches!(parse_control(&[2]), Some(Control::PunchNow)));
    assert!(matches!(parse_control(&[9]), Some(Control::Unknown)));
    assert!(parse_control(&message[4..40]).is_none());
    assert!(parse_control(&[]).is_none());
    assert_eq!(control_length(&[0, 0, 0, 0]), None);
    assert_eq!(control_length(&[0, 0, 0x10, 1]), None);
}

fn seen(now: u64, proven: Option<Proven>) -> Seen {
    Seen {
        now,
        relay: Some("wss://relay.example".into()),
        candidates: 1,
        proven,
        proven_text: "192.168.7.3:4003".into(),
    }
}

fn started(allow_direct: bool) -> SessionPath {
    SessionPath::start(
        allow_direct,
        0,
        0,
        RelayStatus::Up("wss://relay.example".into()),
        Some("wss://relay.example".into()),
    )
}

#[test]
fn a_session_goes_direct_on_a_fresh_proof_and_back_when_it_is_lost() {
    let mut session = started(true);
    assert_eq!(session.status(), PathStatus::Relayed);
    let order = session.step(SessionEvent::Tick, &seen(100, None));
    assert!(order.probe);
    assert_eq!(session.status(), PathStatus::Probing);
    let proven = Proven {
        addr: at(3),
        proved_at: 200,
    };
    session.step(SessionEvent::Tick, &seen(200, Some(proven)));
    assert_eq!(session.status(), PathStatus::Direct);
    assert_eq!(session.path().direct, Some(at(3)));
    let order = session.step(SessionEvent::Tick, &seen(200 + DIRECT_FRESH + 1, Some(proven)));
    assert!(order.drop_direct);
    assert_ne!(session.status(), PathStatus::Direct);
    let history: Vec<_> = session.history().into_iter().map(|r| r.status).collect();
    assert!(history.contains(&PathStatus::Probing) && history.contains(&PathStatus::Direct));
}

#[test]
fn a_session_without_consent_stays_relayed() {
    let mut session = started(false);
    for turn in 1..50u64 {
        let order = session.step(SessionEvent::Tick, &seen(turn * 1_000, None));
        assert!(!order.probe);
    }
    assert_eq!(session.status(), PathStatus::Relayed);
    assert_eq!(session.history().last().map(|r| r.status), Some(PathStatus::Relayed));
}

#[test]
fn an_outage_shows_and_a_failure_is_final() {
    let mut session = started(true);
    session.step(SessionEvent::Relay(RelayStatus::Reconnecting), &seen(1_000, None));
    session.step(SessionEvent::Tick, &seen(1_100, None));
    assert_eq!(session.status(), PathStatus::Reconnecting);
    session.step(
        SessionEvent::Relay(RelayStatus::Up("wss://other.example".into())),
        &seen(5_000, None),
    );
    session.step(SessionEvent::Tick, &seen(5_100, None));
    assert_ne!(session.status(), PathStatus::Reconnecting);
    let order = session.step(SessionEvent::Relay(RelayStatus::Failed), &seen(9_000, None));
    let order = if order.done {
        order
    } else {
        session.step(SessionEvent::Tick, &seen(9_100, None))
    };
    assert!(order.done);
    assert_eq!(session.status(), PathStatus::Failed(FailReason::Relay));
    session.step(SessionEvent::Tick, &seen(9_200, None));
    assert_eq!(session.status(), PathStatus::Failed(FailReason::Relay));
}

#[test]
fn endings_have_their_causes() {
    let mut idle = started(true);
    assert!(idle.step(SessionEvent::Ended(Ending::TimedOut), &seen(10, None)).done);
    assert_eq!(idle.status(), PathStatus::Failed(FailReason::Timeout));
    assert_eq!(idle.path().cause, "QUIC idle timeout");
    let mut other = started(true);
    other.step(SessionEvent::Ended(Ending::Other("reset".into())), &seen(10, None));
    assert_eq!(other.path().cause, "connection ended: reset");
    let mut closed = started(true);
    closed.step(SessionEvent::Ended(Ending::Closed), &seen(10, None));
    assert_eq!(closed.status(), PathStatus::Relayed);
    let mut replaced = started(true);
    replaced.step(SessionEvent::Superseded, &seen(10, None));
    assert_eq!(replaced.status(), PathStatus::Failed(FailReason::Superseded));
    assert!(replaced.path().cause.contains("supersed"));
}

#[test]
fn a_peer_that_punches_starts_a_round() {
    let mut session = started(true);
    session.step(SessionEvent::Tick, &seen(100, None));
    session.peer_punches();
    assert_eq!(session.punch_requests(), 1);
    let order = session.step(SessionEvent::Tick, &seen(20_000, None));
    assert!(order.probe);
    session.request_direct();
    let order = session.step(SessionEvent::Interfaces, &seen(21_000, None));
    assert!(order.requery);
}
