use forgesworn_link::id::NodeId;
use forgesworn_link::link_url::UrlParts;
use forgesworn_link::relay_client::Pushed;
use forgesworn_link::websocket::{
    send_verdict, socket_step, text_fits, validate_virtual_url, SocketError, SocketEvent,
    SocketStep, MAX_TEXT_BYTES,
};

fn node() -> NodeId {
    NodeId([7; 32])
}

fn url(suffix: &str) -> UrlParts {
    UrlParts::parse(&format!("ws://{}{}", node().to_base32(), suffix)).unwrap()
}

#[test]
fn accepts_only_the_peer_events_url() {
    assert_eq!(validate_virtual_url(&url("/events"), node()), Ok(()));
}

#[test]
fn rejects_noncanonical_or_unrelated_url_parts() {
    assert_eq!(
        validate_virtual_url(&url("/other"), node()),
        Err(SocketError::Path)
    );
    assert_eq!(
        validate_virtual_url(&url("/events?q=1"), node()),
        Err(SocketError::Authority)
    );
    assert_eq!(
        validate_virtual_url(&UrlParts::parse("wss://example.com/events").unwrap(), node()),
        Err(SocketError::Scheme)
    );
    assert_eq!(
        validate_virtual_url(&UrlParts::parse("ws://example.com/events").unwrap(), node()),
        Err(SocketError::Host)
    );
}

#[test]
fn rejects_a_different_peer() {
    let other = NodeId([8; 32]);
    assert_eq!(
        validate_virtual_url(&url("/events"), other),
        Err(SocketError::PeerMismatch)
    );
}

#[test]
fn a_url_has_its_parts() {
    let parts = UrlParts::parse("WS://User:pw@Example.com:81/a/../b?q#f").expect("url");
    assert_eq!(parts.scheme, "ws");
    assert_eq!(parts.username, "User");
    assert_eq!(parts.password.as_deref(), Some("pw"));
    assert_eq!(parts.host.as_deref(), Some("example.com"));
    assert_eq!(parts.port, Some(81));
    assert_eq!(parts.path, "/b");
    assert_eq!(parts.query.as_deref(), Some("q"));
    assert_eq!(parts.fragment.as_deref(), Some("f"));
    assert!(UrlParts::parse("no scheme").is_none());
}

#[test]
fn a_text_is_queued_or_ends_the_socket() {
    assert_eq!(send_verdict(5, Pushed::Accepted), Ok(()));
    assert_eq!(
        send_verdict(MAX_TEXT_BYTES + 1, Pushed::Accepted),
        Err(SocketError::TextTooLarge)
    );
    assert_eq!(send_verdict(5, Pushed::Full), Err(SocketError::QueueFull));
    assert_eq!(send_verdict(5, Pushed::Closed), Err(SocketError::Closed));
    assert!(text_fits("x"));
    assert!(!text_fits(&"x".repeat(MAX_TEXT_BYTES + 1)));
}

#[test]
fn events_have_their_steps() {
    assert!(matches!(
        socket_step(SocketEvent::Queued("a".into())),
        SocketStep::Write(text) if text == "a"
    ));
    assert!(matches!(
        socket_step(SocketEvent::Text("b".into())),
        SocketStep::Deliver(text) if text == "b"
    ));
    assert!(matches!(
        socket_step(SocketEvent::Text("x".repeat(MAX_TEXT_BYTES + 1))),
        SocketStep::End { close: true, .. }
    ));
    assert!(matches!(socket_step(SocketEvent::Ping), SocketStep::AnswerPing));
    assert!(matches!(socket_step(SocketEvent::Pong), SocketStep::Nothing));
    assert!(matches!(
        socket_step(SocketEvent::Binary),
        SocketStep::End { close: true, .. }
    ));
    assert!(matches!(
        socket_step(SocketEvent::WriteFailed),
        SocketStep::End { close: false, reason: "write failed" }
    ));
    assert_eq!(
        format!("{}", SocketError::Stream("gone".into())),
        SocketError::Stream("gone".into()).words()
    );
}
