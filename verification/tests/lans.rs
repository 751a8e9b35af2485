use forgesworn_link::card::{Card, Hint};
use forgesworn_link::endpoint::HandshakeFault;
use forgesworn_link::id::{NodeId, TransportKey};
use forgesworn_link::lan::address::{local_unicast, AddressPolicy, Interface, LanBinding};
use forgesworn_link::lan::admission::{
    verify_card, verify_peer_card, Attached, Book, CardCheckpoint, Clock,
};
use forgesworn_link::lan::session::{
    accept_check, accept_gate, classify, dial_check, endpoint_check, io_check, is_ready,
    local_card_expiry, session_check, session_deadline, take_stream, target_check, window_check,
    Gate, LanTraffic, StreamBudget, MAX_PAIRING_SESSION, MAX_PAIRING_STREAM_BYTES,
};
use forgesworn_link::lan::{LanError, READY};
use forgesworn_link::net::{IpAddr, SocketAddr};

fn v4(a: u8, b: u8, c: u8, d: u8, port: u16) -> SocketAddr {
    SocketAddr::new(IpAddr::V4([a, b, c, d]), port)
}

fn link_local(last: u8, port: u16, scope_id: u32) -> SocketAddr {
    let mut octets = [0u8; 16];
    octets[0] = 0xfe;
    octets[1] = 0x80;
    octets[15] = last;
    SocketAddr {
        ip: IpAddr::V6(octets),
        port,
        flowinfo: 0,
        scope_id,
    }
}

fn clock(unix: u64) -> Clock {
    Clock {
        unix,
        now: unix * 1_000,
    }
}

#[test]
fn local_subnet_policy_rejects_broadcast_network_other_subnet_and_bad_ipv6_scope() {
    let policy = AddressPolicy {
        bind: v4(192, 168, 7, 10, 4_000),
        interface: Some((
            "synthetic".into(),
            IpAddr::V4([255, 255, 255, 0]),
            Some(1),
        )),
    };
    assert!(policy.permits(v4(192, 168, 7, 20, 5_000)));
    let mut mapped = [0u8; 16];
    mapped[10] = 0xff;
    mapped[11] = 0xff;
    mapped[12..].copy_from_slice(&[192, 168, 7, 20]);
    for address in [
        v4(192, 168, 7, 255, 5_000),
        v4(192, 168, 7, 0, 5_000),
        v4(192, 168, 8, 20, 5_000),
        v4(192, 168, 7, 20, 0),
        SocketAddr::new(IpAddr::V6(mapped), 5_000),
    ] {
        assert!(!policy.permits(address));
    }
    let mut mask = [0u8; 16];
    mask[..8].fill(0xff);
    let policy = AddressPolicy {
        bind: link_local(0x10, 4_000, 3),
        interface: Some(("synthetic".into(), IpAddr::V6(mask), Some(3))),
    };
    assert!(policy.permits(link_local(0x20, 5_000, 3)));
    assert!(!policy.permits(link_local(0x20, 5_000, 4)));
    assert!(!policy.permits(link_local(0x20, 5_000, 0)));
}

fn interface() -> Interface {
    Interface {
        name: "lan0".into(),
        ip: IpAddr::V4([192, 168, 7, 10]),
        mask: IpAddr::V4([255, 255, 255, 0]),
        index: Some(2),
        is_p2p: false,
    }
}

#[test]
fn a_binding_needs_an_interface_that_carries_it() {
    let bind = v4(192, 168, 7, 10, 4_000);
    let policy = AddressPolicy::new(LanBinding::Interface(bind), &vec![interface()]).expect("lan");
    assert!(policy.permits(v4(192, 168, 7, 11, 1)));
    assert!(policy.still_present(&vec![interface()]));
    assert!(!policy.still_present(&vec![]));
    assert!(AddressPolicy::new(LanBinding::Interface(bind), &vec![]).is_err());
    let mut tunnel = interface();
    tunnel.is_p2p = true;
    assert!(AddressPolicy::new(LanBinding::Interface(bind), &vec![tunnel]).is_err());
    let public = v4(8, 8, 8, 8, 4_000);
    assert!(matches!(
        AddressPolicy::new(LanBinding::Interface(public), &vec![interface()]),
        Err(LanError::Address)
    ));
    let loopback = AddressPolicy::new(LanBinding::default(), &vec![]).expect("development");
    assert!(loopback.permits(v4(127, 0, 0, 1, 9)));
    assert!(!loopback.permits(v4(192, 168, 7, 11, 9)));
    assert!(local_unicast(&IpAddr::V4([10, 1, 2, 3])));
    assert!(!local_unicast(&IpAddr::V4([8, 8, 8, 8])));
}

#[test]
fn checkpoints_restore_only_exact_current_cards_and_refuse_conflicts_and_rollback() {
    let key = TransportKey::from_seed([1; 32]);
    let id = key.node_id();
    let now = 1_000;
    let first = Card::sign(&key, now, now + 600, 5, vec![]);
    let (_, kept) = verify_card(id, first.as_bytes(), None, now).expect("first");
    assert_eq!(kept.serial, 5);
    assert_eq!(
        verify_peer_card(id, first.as_bytes(), Some(kept), now),
        Ok(kept),
        "the exact card again"
    );
    let conflict = Card::sign(&key, now, now + 700, 5, vec![]);
    assert_eq!(
        verify_peer_card(id, conflict.as_bytes(), Some(kept), now),
        Err(LanError::Card)
    );
    let older = Card::sign(&key, now, now + 600, 4, vec![]);
    assert_eq!(
        verify_peer_card(id, older.as_bytes(), Some(kept), now),
        Err(LanError::Card)
    );
    let newer = Card::sign(&key, now, now + 600, 6, vec![]);
    assert_eq!(
        verify_peer_card(id, newer.as_bytes(), Some(kept), now).map(|kept| kept.serial),
        Ok(6)
    );
    assert_eq!(
        verify_peer_card(NodeId([9; 32]), newer.as_bytes(), None, now),
        Err(LanError::Card)
    );
}

#[test]
fn an_admission_is_held_replaced_and_revoked() {
    let key = TransportKey::from_seed([1; 32]);
    let id = key.node_id();
    let mut book = Book::new();
    let card = Card::sign(&key, 1_000, 1_600, 1, vec![]);
    let (first, closed) = book
        .let_in(id, card.as_bytes(), None, clock(1_000))
        .expect("admitted");
    assert!(closed.is_empty());
    assert_eq!(first.peer(), id);
    assert_eq!(first.checkpoint().serial, 1);
    assert!(book.holds(id, first.lease, clock(1_001)));
    assert!(matches!(
        book.attach(id, first.lease, 70, &vec![], clock(1_001)),
        Attached::Joined(closed) if closed.is_empty()
    ));
    let card = Card::sign(&key, 1_000, 1_600, 2, vec![]);
    let (second, closed) = book
        .let_in(id, card.as_bytes(), None, clock(1_002))
        .expect("replaced");
    assert_eq!(closed, vec![70], "the replaced admission loses its connections");
    assert!(!book.holds(id, first.lease, clock(1_002)));
    assert!(book.release(id, first.lease).is_empty(), "a stale handle revokes nothing");
    assert!(book.holds(id, second.lease, clock(1_002)));
    let generation = book.generation();
    book.revoke_all(clock(1_003));
    assert_ne!(book.generation(), generation);
    assert!(book.get(id, clock(1_003)).is_none());
    let rollback = Card::sign(&key, 1_000, 1_600, 1, vec![]);
    assert!(
        book.let_in(id, rollback.as_bytes(), None, clock(1_003)).is_err(),
        "a revocation keeps the checkpoint"
    );
}

#[test]
fn an_admission_ends_with_its_card() {
    let key = TransportKey::from_seed([1; 32]);
    let id = key.node_id();
    let mut book = Book::new();
    let card = Card::sign(&key, 1_000, 1_060, 1, vec![]);
    let (admission, _) = book
        .let_in(id, card.as_bytes(), None, clock(1_000))
        .expect("admitted");
    assert!(book.holds(id, admission.lease, clock(1_059)));
    assert!(!book.holds(id, admission.lease, clock(1_060)));
    assert!(matches!(
        book.attach(id, admission.lease, 1, &vec![], clock(1_060)),
        Attached::Refused(LanError::Admission)
    ));
    book.expire(clock(1_060));
    assert!(book.get(id, clock(1_060)).is_none());
}

#[test]
fn pairing_streams_refuse_bytes_beyond_the_cap() {
    let mut budget = StreamBudget::new(true);
    assert_eq!(budget.read_limit(10), Some(10));
    budget.note_read(MAX_PAIRING_STREAM_BYTES as usize);
    assert_eq!(budget.read_limit(10), None);
    assert_eq!(budget.write_limit(10), Some(10));
    budget.note_written(MAX_PAIRING_STREAM_BYTES as usize - 4);
    assert_eq!(budget.write_limit(10), Some(4));
    let open = StreamBudget::new(false);
    assert_eq!(open.read_limit(usize::MAX), Some(usize::MAX));
}

#[test]
fn consent_is_checked_before_any_byte() {
    assert_eq!(io_check(true, true, None, 5), Ok(()));
    assert_eq!(io_check(false, true, None, 5), Err(LanError::Admission));
    assert_eq!(io_check(true, false, None, 5), Err(LanError::Admission));
    assert_eq!(io_check(true, true, Some(5), 5), Err(LanError::Admission));
    assert_eq!(session_check(true, true, None, 5, true), Err(LanError::Closed));
    assert_eq!(endpoint_check(true, true, Some(false)), Err(LanError::Admission));
    assert_eq!(endpoint_check(true, true, None), Ok(()));
    assert_eq!(session_deadline(false, 900, 5), (None, 900));
    assert_eq!(
        session_deadline(true, u64::MAX, 5),
        (Some(5 + MAX_PAIRING_SESSION), 5 + MAX_PAIRING_SESSION)
    );
    assert_eq!(window_check(999), Err(LanError::Lifetime));
    assert_eq!(window_check(1_000), Ok(()));
}

#[test]
fn a_local_card_lives_within_its_window() {
    assert_eq!(local_card_expiry(30_000, 1, 100, None), Ok(130));
    assert_eq!(local_card_expiry(30_000, 1, 100, Some(110)), Ok(110));
    assert_eq!(local_card_expiry(30_000, 1, 100, Some(100)), Err(LanError::Admission));
    assert_eq!(local_card_expiry(30_000, 0, 100, None), Err(LanError::Lifetime));
    assert_eq!(local_card_expiry(999, 1, 100, None), Err(LanError::Lifetime));
}

#[test]
fn only_a_named_target_is_dialled() {
    let key = TransportKey::from_seed([1; 32]);
    let target = v4(127, 0, 0, 1, 4_000);
    let policy = AddressPolicy::new(LanBinding::default(), &vec![]).expect("development");
    let card = Card::sign(&key, 1, 100, 1, vec![Hint::udp(target)]);
    let own = NodeId([7; 32]);
    assert_eq!(target_check(own, &card, &policy, target), Ok(()));
    assert_eq!(
        target_check(own, &card, &policy, v4(127, 0, 0, 1, 4_001)),
        Err(LanError::Address)
    );
    assert_eq!(
        target_check(key.node_id(), &card, &policy, target),
        Err(LanError::Address)
    );
    assert_eq!(dial_check(true, Some(own), own), Ok(()));
    assert_eq!(dial_check(true, None, own), Err(LanError::Identity));
    assert_eq!(dial_check(false, Some(own), own), Err(LanError::Admission));
}

#[test]
fn an_arrival_is_gated_and_checked() {
    assert_eq!(accept_gate(true, true, None, true, true), Gate::Serve);
    assert_eq!(accept_gate(true, true, None, false, true), Gate::Retry);
    assert_eq!(accept_gate(true, true, None, true, false), Gate::Refuse);
    assert_eq!(accept_gate(true, false, None, true, true), Gate::Ignore);
    let (own, peer) = (NodeId([1; 32]), NodeId([2; 32]));
    assert_eq!(accept_check(own, Some(peer), Some(true), true, 3, 3), Ok(peer));
    assert_eq!(
        accept_check(own, Some(peer), Some(true), true, 3, 4),
        Err(LanError::Admission),
        "revoked meanwhile"
    );
    assert_eq!(accept_check(own, Some(own), Some(true), true, 3, 3), Err(LanError::Identity));
    assert!(is_ready(&READY));
    assert!(!is_ready(b""));
    let mut used = false;
    assert_eq!(take_stream(&mut used), Ok(()));
    assert_eq!(take_stream(&mut used), Err(LanError::StreamLimit));
    assert_eq!(classify(HandshakeFault::TimedOut, false), LanError::Timeout);
}

#[test]
fn socket_filter_refuses_an_unselected_destination_even_below_the_endpoint_api() {
    let policy = AddressPolicy::new(LanBinding::default(), &vec![]).expect("development");
    let mut traffic = LanTraffic::new();
    assert!(!traffic.may_send(true, &policy, v4(192, 0, 2, 1, 443)));
    assert_eq!((traffic.sent_datagrams, traffic.refused_datagrams), (0, 1));
    assert!(!traffic.may_send(false, &policy, v4(127, 0, 0, 1, 443)));
    assert!(traffic.may_send(true, &policy, v4(127, 0, 0, 1, 443)));
    traffic.note_sent();
    assert_eq!((traffic.sent_datagrams, traffic.refused_datagrams), (1, 2));
}

#[test]
fn checkpoints_compare_by_value() {
    let a = CardCheckpoint {
        serial: 1,
        sha256: [0; 32],
    };
    assert_eq!(a, a);
    assert_eq!(format!("{}", LanError::Closed), "LAN endpoint or connection closed");
}

#[test]
fn a_node_does_not_admit_itself_nor_on_an_ended_endpoint() {
    let key = TransportKey::from_seed([1; 32]);
    let id = key.node_id();
    let card = Card::sign(&key, 1_000, 1_600, 1, vec![]);
    let mut book = Book::new();
    let own = TransportKey::from_seed([2; 32]).node_id();
    let ended = book.admit_peer(own, Err(LanError::Closed), id, card.as_bytes(), None, clock(1_000));
    assert_eq!(ended.err(), Some(LanError::Closed));
    let itself = book.admit_peer(id, Ok(()), id, card.as_bytes(), None, clock(1_000));
    assert_eq!(itself.err(), Some(LanError::Identity));
    let (admission, _) = book
        .admit_peer(own, Ok(()), id, card.as_bytes(), None, clock(1_000))
        .expect("admitted");
    assert!(book.holds(id, admission.lease, clock(1_001)));
}
