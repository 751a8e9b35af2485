use forgesworn_link::id::{NodeId, TransportKey};
use forgesworn_link::net::IpAddr;
use forgesworn_link::netmon::NetMonitor;
use forgesworn_link::relay_client::{
    auth_frame, challenge_of, identity_frame, identity_pump, is_welcome, opening_registration,
    queue_outcome, register_frame, request_url, same_texts, tag_frame, tag_pump, wakes_senders,
    Driver, DriverChoice, DriverEvent, DriverPool, HostMemo, PumpEnd, PumpStep, Pushed,
    QueueOutcome, Registered, RelaySpec, RelayStatus, RelayUrlError, WaitUp, WriteReadiness,
};
use forgesworn_link::relay_tls::{leaf_accepted, relay_trust, RelayTrust};
use forgesworn_link::rendezvous::TagCase;
use forgesworn_link::rendezvous_book::{RendezvousPeer, TagBook};
use forgesworn_link::wire::{verify_relay_auth, Frame, CLOSE_REASON_SUPERSEDED};

fn material(byte: u8) -> RendezvousPeer {
    RendezvousPeer {
        case: TagCase::One,
        static_x: [byte; 32],
        eph_x: [byte; 32],
    }
}

fn parts(url: &str) -> Result<(bool, String, u16, String), RelayUrlError> {
    RelaySpec::plain(url.to_owned()).parts()
}

#[test]
fn relay_addresses_have_parts() {
    assert_eq!(
        parts("wss://Relay.Example/link").ok(),
        Some((true, "relay.example".into(), 443, "/link".into()))
    );
    assert_eq!(
        parts("ws://h:8080").ok(),
        Some((false, "h".into(), 8_080, "/".into()))
    );
    assert!(matches!(parts("https://h"), Err(RelayUrlError::Scheme)));
    assert!(matches!(parts("ws://h:70000"), Err(RelayUrlError::Port)));
    let spec = RelaySpec::pinned("wss://H:1/x".into(), "ab".into());
    assert_eq!(spec.host().ok(), Some("h".into()));
    assert_eq!(
        spec.written_parts().ok(),
        Some((true, "H".into(), 1, "/x".into()))
    );
    assert_eq!(request_url(true, "h", 443, "/link"), "wss://h:443/link");
}

#[test]
fn a_leaf_is_trusted_as_the_relay_asks() {
    let plain = RelaySpec::plain("wss://h".into());
    assert!(matches!(relay_trust(&plain), RelayTrust::WebPki));
    // SHA-256 of "abc".
    let digest = "BA7816BF8F01CFEA414140DE5DAE2223B00361A396177A9CB410FF61F20015AD";
    let pinned = RelaySpec::pinned("wss://h".into(), digest.into());
    assert!(matches!(
        relay_trust(&pinned),
        RelayTrust::Pinned(found) if found == digest.to_ascii_lowercase()
    ));
    assert!(leaf_accepted(&Some(digest.to_lowercase()), b"abc"));
    assert!(!leaf_accepted(&Some(digest.to_lowercase()), b"abd"));
    let mut anything = RelaySpec::plain("wss://h".into());
    anything.insecure_tls = true;
    assert!(matches!(relay_trust(&anything), RelayTrust::Anything));
    assert!(leaf_accepted(&None, b"abd"));
}

#[test]
fn a_status_says_whether_to_wait() {
    assert!(matches!(RelayStatus::Connecting.wait_up(), WaitUp::Wait));
    assert!(matches!(RelayStatus::Failed.wait_up(), WaitUp::GiveUp));
    assert!(matches!(RelayStatus::Up("u".into()).wait_up(), WaitUp::Ready(url) if url == "u"));
    let mut status = RelayStatus::Connecting;
    assert!(status.set_status(RelayStatus::Up("u".into())));
    assert!(!status.set_status(RelayStatus::Up("u".into())));
    assert_eq!(status.url(), Some("u".into()));
    assert!(status.same(&RelayStatus::Up("u".into())));
    assert!(!status.same(&RelayStatus::Reconnecting));
}

#[test]
fn senders_are_woken_once() {
    let mut ready: WriteReadiness<u8> = WriteReadiness::new();
    let (a, b) = (ready.new_id(), ready.new_id());
    ready.register(a, 1);
    ready.register(b, 2);
    ready.register(a, 3);
    ready.unregister(b);
    assert_eq!(ready.wake_all(), vec![3]);
    assert!(ready.wake_all().is_empty());
    assert!(wakes_senders(32));
    assert!(!wakes_senders(31));
}

#[test]
fn a_full_queue_blocks_only_while_the_relay_is_up() {
    let up = RelayStatus::Up("u".into());
    assert!(matches!(queue_outcome(Pushed::Accepted, &up), QueueOutcome::Queued));
    assert!(matches!(queue_outcome(Pushed::Full, &up), QueueOutcome::WouldBlock));
    assert!(matches!(
        queue_outcome(Pushed::Full, &RelayStatus::Reconnecting),
        QueueOutcome::Dropped
    ));
    assert!(matches!(queue_outcome(Pushed::Closed, &up), QueueOutcome::Dropped));
}

#[test]
fn a_datagram_goes_out_by_identity_or_by_tag() {
    let peer = NodeId([3; 32]);
    assert_eq!(
        identity_frame(peer, &[1, 2]),
        Frame::Send {
            destination: peer,
            datagram: vec![1, 2]
        }
    );
    let now = 1_793_588_888;
    let mut book = TagBook::new(vec![(peer, material(4))]);
    let mut memo = HostMemo::new();
    let up = RelayStatus::Up("wss://Relay.Example".into());
    let frame = tag_frame(&mut book, &mut memo, &up, peer, &[9], now).expect("up");
    let expected = book.tag_for_send(peer, "relay.example", now).unwrap();
    assert_eq!(
        frame,
        Frame::SendTag {
            tag: expected,
            datagram: vec![9]
        }
    );
    assert!(tag_frame(&mut book, &mut memo, &RelayStatus::Connecting, peer, &[9], now).is_none());
    assert!(tag_frame(&mut book, &mut memo, &up, NodeId([8; 32]), &[9], now).is_none());
    assert_eq!(memo.current(&up), Some("relay.example".into()));
}

#[test]
fn a_pool_runs_one_driver_per_list() {
    let mut pool = DriverPool::new(vec!["a".into()]);
    assert!(matches!(pool.driver_for(vec![]), DriverChoice::Home));
    assert!(matches!(pool.driver_for(vec!["a".into()]), DriverChoice::Home));
    assert!(matches!(pool.driver_for(vec!["b".into()]), DriverChoice::Start(1)));
    assert!(matches!(pool.driver_for(vec!["b".into()]), DriverChoice::Running(1)));
    for i in 2..=16u64 {
        assert!(matches!(pool.driver_for(vec![format!("x{i}")]), DriverChoice::Start(id) if id == i));
    }
    assert!(matches!(pool.driver_for(vec!["z".into()]), DriverChoice::Home), "the pool is full");
    pool.close();
    assert!(matches!(pool.driver_for(vec!["b".into()]), DriverChoice::Home));
    assert!(same_texts(&vec!["a".into()], &vec!["a".into()]));
    assert!(!same_texts(&vec!["a".into()], &vec![]));
}

#[test]
fn a_driver_fails_over_and_backs_off() {
    let mut driver = Driver::new(2, false);
    assert_eq!(driver.next_relay(), 0);
    let order = driver.step(DriverEvent::Refused, 0);
    assert_eq!(driver.next_relay(), 1);
    assert!(order.sleep >= 1_000);
    let order = driver.step(DriverEvent::Welcomed("wss://b".into()), 1_000);
    assert!(order.publish && order.drain && order.wake && !order.stop);
    assert!(driver.status().same(&RelayStatus::Up("wss://b".into())));
    let order = driver.step(DriverEvent::Ended(PumpEnd::Lost), 2_000);
    assert!(order.publish);
    assert!(driver.status().same(&RelayStatus::Reconnecting));
    let mut last = order;
    for turn in 0..8u64 {
        last = driver.step(DriverEvent::Refused, 2_000 + turn * 10_000);
        assert!(last.sleep <= 30_000);
    }
    assert!(driver.status().same(&RelayStatus::Failed), "a long outage fails");
    assert!(last.publish || !last.stop);
    let mut identity = Driver::new(1, false);
    identity.step(DriverEvent::Welcomed("wss://a".into()), 0);
    let order = identity.step(DriverEvent::Ended(PumpEnd::Superseded), 1);
    assert!(order.stop);
    assert!(identity.status().same(&RelayStatus::Superseded));
}

#[test]
fn a_handshake_is_read_and_answered() {
    let challenge = [6u8; 32];
    assert_eq!(challenge_of(&Frame::Challenge(challenge).encode()), Some(challenge));
    assert_eq!(challenge_of(&Frame::Close(1).encode()), None);
    assert!(is_welcome(&Frame::Welcome([1; 16]).encode()));
    assert!(!is_welcome(&Frame::Close(1).encode()));
    let key = TransportKey::from_seed([2; 32]);
    match auth_frame(&key, "h", &challenge) {
        Frame::Auth { node_id, signature } => {
            assert_eq!(node_id, key.node_id());
            assert!(verify_relay_auth(&node_id, "h", &challenge, &signature));
        }
        other => panic!("expected an auth, got {other:?}"),
    }
}

#[test]
fn an_empty_book_has_nothing_to_register() {
    let now = 1_793_588_888;
    let mut book = TagBook::empty();
    assert!(opening_registration(&mut book, "h", now).is_none());
    book.upsert(NodeId([1; 32]), material(1));
    match opening_registration(&mut book, "h", now) {
        Some(Frame::Register { tags }) => assert_eq!(tags.len(), 3),
        other => panic!("expected a register, got {other:?}"),
    }
    assert_eq!(
        Some(register_frame(&mut book, "h", now)),
        opening_registration(&mut book, "h", now)
    );
    let mut registered = Registered::at(book.version(), now);
    assert!(!registered.refresh(book.version(), now));
    assert!(registered.refresh(book.version(), now + 3_600), "a new epoch");
    assert!(registered.refresh(book.version() + 1, now + 3_600), "a new version");
    assert!(!registered.due(false, book.version() + 1, now + 3_600), "a tick, nothing new");
    assert!(registered.due(true, book.version() + 1, now + 3_600), "a change of the book");
    assert!(registered.due(false, book.version() + 2, now + 3_600), "a tick, out of date");
}

#[test]
fn the_pump_delivers_what_belongs_here() {
    let source = NodeId([5; 32]);
    let recv = Frame::Recv {
        source,
        datagram: vec![7],
    };
    assert!(matches!(
        identity_pump(&recv.encode(), 2),
        PumpStep::Deliver(inbound) if inbound.source == source && inbound.datagram == vec![7] && inbound.driver == 2
    ));
    assert!(matches!(identity_pump(&Frame::Pong([0; 8]).encode(), 2), PumpStep::Ignore));
    assert!(matches!(
        identity_pump(&Frame::Close(CLOSE_REASON_SUPERSEDED).encode(), 2),
        PumpStep::End(PumpEnd::Superseded)
    ));
    assert!(matches!(identity_pump(&[0xee], 2), PumpStep::End(PumpEnd::Lost)));
    let now = 1_793_588_888;
    let mut book = TagBook::new(vec![(source, material(3))]);
    let tag = book.tag_for_send(source, "h", now).unwrap();
    let recv = Frame::RecvTag {
        tag,
        datagram: vec![8],
    };
    assert!(matches!(
        tag_pump(&recv.encode(), &mut book, "h", now, 4),
        PumpStep::Deliver(inbound) if inbound.source == source && inbound.driver == 4
    ));
    assert!(matches!(
        tag_pump(&recv.encode(), &mut book, "elsewhere", now, 4),
        PumpStep::Ignore
    ));
}

#[test]
fn generation_advances_only_when_the_address_set_changes() {
    let one = IpAddr::V4([10, 0, 0, 1]);
    let two = IpAddr::V4([192, 168, 1, 5]);
    let mut monitor = NetMonitor::new(vec![one]);
    assert_eq!(monitor.generation(), 0, "nothing has changed yet");
    assert!(!monitor.look(vec![one]));
    assert!(monitor.look(vec![one, two]));
    assert_eq!(monitor.generation(), 1);
    assert!(!monitor.look(vec![one, two]));
    assert_eq!(monitor.generation(), 1);
}

#[test]
fn address_order_is_not_a_change() {
    let a = IpAddr::V4([10, 0, 0, 1]);
    let b = IpAddr::V4([10, 0, 0, 2]);
    let mut monitor = NetMonitor::new(vec![a, b]);
    assert!(!monitor.look(vec![b, a]));
    assert!(!monitor.look(vec![a, b, a]));
    assert_eq!(monitor.generation(), 0);
}
