use forgesworn_link::card::{Card, Hint};
use forgesworn_link::endpoint::MAX_PAIRING_LIFETIME;
use forgesworn_link::ffi::{
    check_enrolment, check_removal, check_response, enrolled_card, link_path, live_session,
    node_from_card_bytes, pairing_header, pairing_lifetime, pairing_secret, route_card, route_frame, secret,
    time_left, validate_http_request, verify_route, BoundedBody, HttpMethod, LinkConfig, LinkError,
    LinkHttpRequest, LinkHttpResponse, LinkPairingBundle, LinkPath, LinkRoute, Routes,
    MAX_HTTP_AUTHORIZATION_BYTES, MAX_HTTP_BODY_BYTES, MAX_HTTP_PATH_BYTES, MAX_ROUTE_FRAME_BYTES,
};
use forgesworn_link::id::TransportKey;
use forgesworn_link::path::{FailReason, PathReport, PathStatus};

#[test]
fn route_secret_is_exactly_32_bytes() {
    assert!(secret(&[0; 31]).is_err());
    assert!(secret(&[0; 32]).is_ok());
}

#[test]
fn pairing_lifetime_tolerates_bounded_clock_skew_without_extending_admission() {
    assert_eq!(
        pairing_lifetime(1_601, 1_000).expect("one second of skew is accepted"),
        MAX_PAIRING_LIFETIME,
    );
    assert!(pairing_lifetime(1_000, 1_000).is_err());
    assert!(pairing_lifetime(1_661, 1_000).is_err());
}

#[test]
fn persisted_route_reverifies_at_its_acceptance_time() {
    let key = TransportKey::generate();
    let card = Card::sign(&key, 100, 200, 7, Vec::new());
    let route = LinkRoute {
        route_id: "durable".into(),
        card: card.as_bytes().to_vec(),
        paired_route_secret: vec![0x25; 32],
        card_serial: 7,
        card_verified_at: 150,
    };
    let (node, verified) = verify_route(&route).expect("persisted identity pin");
    assert_eq!(node, key.node_id());
    assert_eq!(verified, card);
}

#[test]
fn route_and_pairing_debug_never_print_secrets() {
    let route = LinkRoute {
        route_id: "room".into(),
        card: vec![1, 2],
        paired_route_secret: vec![0x7b; 32],
        card_serial: 1,
        card_verified_at: 2,
    };
    let bundle = LinkPairingBundle {
        route_id: "room".into(),
        server_card: vec![3, 4],
        pairing_secret: vec![0x6a; 16],
        expires_at: 3,
    };
    assert!(!format!("{route:?}").contains(&"7b".repeat(32)));
    assert!(!format!("{bundle:?}").contains(&"6a".repeat(16)));
}

#[test]
fn records_show_what_is_no_secret() {
    let route = LinkRoute {
        route_id: "a\"b\\c\nd".into(),
        card: vec![1, 2],
        paired_route_secret: vec![0x7b; 32],
        card_serial: 1,
        card_verified_at: 2,
    };
    assert_eq!(
        format!("{route:?}"),
        r#"LinkRoute { route_id: "a\"b\\c\nd", card: 2 bytes, paired_route_secret: "[redacted]", card_serial: 1, card_verified_at: 2 }"#
    );
    let bundle = LinkPairingBundle {
        route_id: "r\tm".into(),
        server_card: vec![3],
        pairing_secret: vec![0x6a; 16],
        expires_at: 3,
    };
    assert_eq!(
        format!("{:?}", bundle.clone()),
        r#"LinkPairingBundle { route_id: "r\tm", server_card: 1 bytes, pairing_secret: "[redacted]", expires_at: 3 }"#
    );
    let mut request = valid_http_request();
    request.method = "P\"T".into();
    assert_eq!(
        request.redacted(),
        r#"LinkHttpRequest { route_id: "[redacted]", method: "P\"T", path: "[redacted]", authorization: "[redacted]", body: 7 bytes }"#
    );
    let path = LinkPath {
        status: "relayed".into(),
        relay: Some("wss://\"r\"".into()),
        direct: None,
        cause: "connect".into(),
    };
    assert_eq!(path.described(), format!("{path:?}"));
    assert_eq!(path.clone().described(), path.described());
    let response = LinkHttpResponse {
        status: 200,
        body: vec![0; 4],
        path,
    };
    assert_eq!(
        format!("{:?}", response.clone()),
        r#"LinkHttpResponse { status: 200, body: 4 bytes, path: LinkPath { status: "relayed", relay: Some("wss://\"r\""), direct: None, cause: "connect" } }"#
    );
    let config = LinkConfig {
        transport_seed: vec![1; 32],
        relay_urls: vec!["wss://relay.example".into()],
        allow_direct: true,
        routes: vec![route],
    };
    let copy = config.clone();
    assert_eq!(copy.relay_urls, config.relay_urls);
    assert_eq!(copy.routes[0].card, config.routes[0].card);
}

fn valid_http_request() -> LinkHttpRequest {
    LinkHttpRequest {
        route_id: "circle-main".into(),
        method: "POST".into(),
        path: "/cadence/v1/status".into(),
        authorization: "Nostr YQ==".into(),
        body: br#"{"v":1}"#.to_vec(),
    }
}

#[test]
fn cadence_request_boundary_is_narrow_and_redacted() {
    let request = valid_http_request();
    assert_eq!(validate_http_request(&request).unwrap(), HttpMethod::Post);
    let rendered = format!("{request:?}");
    assert!(!rendered.contains("YQ=="));
    assert!(!rendered.contains(r#"{"v":1}"#));
    assert!(!rendered.contains("circle-main"));
    assert!(!rendered.contains("/cadence/v1/status"));

    let mut put = request.clone();
    put.method = "PUT".into();
    assert_eq!(validate_http_request(&put).unwrap(), HttpMethod::Put);

    for method in ["GET", "post", "DELETE"] {
        let mut changed = request.clone();
        changed.method = method.into();
        assert!(validate_http_request(&changed).is_err(), "method {method}");
    }
    for path in [
        "cadence/v1/status",
        "/events",
        "/cadence/v1/status?room=secret",
        "/cadence/v1/status#fragment",
        "/cadence/v1/status\nX-Injected: yes",
        "/cadence/v1/é",
    ] {
        let mut changed = request.clone();
        changed.path = path.into();
        assert!(validate_http_request(&changed).is_err(), "path {path:?}");
    }
    let mut long_path = request.clone();
    long_path.path = format!("/cadence/v1/{}", "a".repeat(MAX_HTTP_PATH_BYTES));
    assert!(validate_http_request(&long_path).is_err());

    for authorization in [
        "",
        "Bearer YQ==",
        "Nostr ",
        "Nostr YQ==\r\nX-Injected: yes",
        "Nostr YQ==,Nostr Yg==",
    ] {
        let mut changed = request.clone();
        changed.authorization = authorization.into();
        assert!(
            validate_http_request(&changed).is_err(),
            "authorization {authorization:?}"
        );
    }
    let mut long_authorization = request.clone();
    long_authorization.authorization =
        format!("Nostr {}", "A".repeat(MAX_HTTP_AUTHORIZATION_BYTES));
    assert!(validate_http_request(&long_authorization).is_err());

    let mut largest_body = request.clone();
    largest_body.body = vec![0; MAX_HTTP_BODY_BYTES];
    assert!(validate_http_request(&largest_body).is_ok());
    largest_body.body.push(0);
    assert!(validate_http_request(&largest_body).is_err());
}

#[test]
fn cadence_response_requires_bounded_json_and_never_redirects() {
    assert!(check_response(403, Some("application/json; charset=utf-8")).is_ok());
    assert!(check_response(200, Some(" Application/JSON\t;x")).is_ok());
    assert!(check_response(307, Some("application/json")).is_err());
    assert!(check_response(200, Some("text/plain")).is_err());
    assert!(check_response(200, None).is_err());
    let mut body = BoundedBody::new(MAX_HTTP_BODY_BYTES);
    assert!(body.take_in(br#"{"v":1,"code":"scope"}"#, "cadence").is_ok());
    assert_eq!(body.into_bytes(), br#"{"v":1,"code":"scope"}"#);
    let mut oversized = BoundedBody::new(MAX_HTTP_BODY_BYTES);
    let error = oversized
        .take_in(&vec![0; MAX_HTTP_BODY_BYTES + 1], "cadence")
        .expect_err("too large");
    assert_eq!(error.words(), "route: server cadence response is too large");

    let response = LinkHttpResponse {
        status: 200,
        body: b"response-secret".to_vec(),
        path: LinkPath {
            status: "relayed".into(),
            relay: None,
            direct: None,
            cause: "fixture".into(),
        },
    };
    assert!(!format!("{response:?}").contains("response-secret"));
}

fn config(routes: Vec<LinkRoute>) -> LinkConfig {
    LinkConfig {
        transport_seed: vec![0x19; 32],
        relay_urls: Vec::new(),
        allow_direct: false,
        routes,
    }
}

fn route(id: &str, key: &TransportKey, serial: u64, now: u64) -> LinkRoute {
    LinkRoute {
        route_id: id.into(),
        card: Card::sign(key, now, now + 600, serial, Vec::new())
            .as_bytes()
            .to_vec(),
        paired_route_secret: vec![0x28; 32],
        card_serial: serial,
        card_verified_at: now,
    }
}

fn bundle(id: &str, key: &TransportKey, serial: u64, now: u64) -> LinkPairingBundle {
    LinkPairingBundle {
        route_id: id.into(),
        server_card: Card::sign(key, now, now + 600, serial, Vec::new())
            .as_bytes()
            .to_vec(),
        pairing_secret: vec![0x39; 16],
        expires_at: now + 600,
    }
}

#[test]
fn starts_in_tag_mode_with_no_routes() {
    let (mut routes, pairs) = Routes::start(&LinkConfig {
        transport_seed: vec![9; 32],
        relay_urls: Vec::new(),
        allow_direct: false,
        routes: Vec::new(),
    })
    .expect("empty paired route map is a valid tag-mode start");
    assert!(pairs.is_empty());
    assert!(routes.stop().is_empty());
}

#[test]
fn a_set_up_is_refused_for_its_first_fault() {
    let key = TransportKey::from_seed([1; 32]);
    let mut short = config(vec![]);
    short.transport_seed.pop();
    assert_eq!(
        Routes::start(&short).err().expect("short seed").words(),
        "configuration: transport seed must be 32 bytes"
    );
    let twice = config(vec![route("a", &key, 1, 1_000), route("a", &key, 2, 1_000)]);
    assert_eq!(
        Routes::start(&twice).err().expect("twice").words(),
        "configuration: duplicate route id"
    );
    let mut bad = route("a", &key, 1, 1_000);
    bad.paired_route_secret.pop();
    assert_eq!(
        Routes::start(&config(vec![bad])).err().expect("secret").words(),
        "route: paired route secret must be 32 bytes"
    );
    let mut empty = route("", &key, 1, 1_000);
    assert_eq!(verify_route(&empty).err().expect("id").words(), "route: route id must not be empty");
    empty.route_id = "a".into();
    empty.card_serial = 0;
    assert_eq!(verify_route(&empty).err().expect("serial").words(), "route: card serial must be positive");
    empty.card.truncate(36);
    assert_eq!(verify_route(&empty).err().expect("node").words(), "route: card has no node id");
    let mut moved = route("a", &key, 5, 1_000);
    moved.card_serial = 4;
    assert_eq!(
        verify_route(&moved).err().expect("moved").words(),
        "route: card serial does not match retained serial"
    );
    let mut late = route("a", &key, 5, 1_000);
    late.card_verified_at = 2_000;
    assert_eq!(
        verify_route(&late).err().expect("late").words(),
        "route: card rule 6 failed: card has expired"
    );
}

#[test]
fn pair_route_refuses_a_conflicting_node_before_dialling() {
    let now = 5_000;
    let existing = TransportKey::generate();
    let (routes, pairs) =
        Routes::start(&config(vec![route("circle-main", &existing, 1, now)])).expect("engine");
    assert_eq!(pairs.len(), 1);
    assert_eq!(pairs[0].node, existing.node_id());
    assert_eq!(pairs[0].secret, [0x28; 32]);
    let other = TransportKey::generate();
    let error = routes
        .begin_pairing(&bundle("circle-main", &other, 1, now), now)
        .err()
        .expect("a route id cannot move to another node");
    assert_eq!(
        error.to_string(),
        "route: route id is already bound to another node"
    );
}

#[test]
fn failed_retirement_keeps_the_local_route_for_retry() {
    let now = 5_000;
    let server = TransportKey::generate();
    let (mut routes, _) =
        Routes::start(&config(vec![route("route-to-retire", &server, 1, now)])).expect("engine");
    let reached = routes.reach("route-to-retire").expect("installed");
    assert_eq!(reached.session, None, "the route has to be dialled");
    assert!(check_removal(503, "503 Service Unavailable", "route retirement").is_err());
    assert_eq!(
        check_removal(503, "503 Service Unavailable", "route finalisation").err().expect("refused").words(),
        "route: server refused route finalisation with 503 Service Unavailable"
    );
    assert!(check_removal(204, "204 No Content", "route retirement").is_ok());
    assert!(routes.reach("route-to-retire").is_ok());
    routes.stop();
}

#[test]
fn a_first_contact_is_enrolled_and_kept() {
    let now = 5_000;
    let server = TransportKey::generate();
    let (mut routes, _) = Routes::start(&config(vec![])).expect("engine");
    let mut offered = bundle("room", &server, 3, now);
    let hints = vec![Hint::relay("wss://relay.example/link")];
    let card = Card::sign(&server, now, now + 600, 3, hints.clone());
    offered.server_card = card.as_bytes().to_vec();
    let start = routes.begin_pairing(&offered, now).expect("starts");
    assert_eq!(start.server, server.node_id());
    assert_eq!(start.lifetime, 600_000);
    assert_eq!(start.secret, [0x39; 16]);
    assert_eq!(pairing_header(&start.secret), "39".repeat(16));
    assert_eq!((start.card.serial, &start.card.hints), (3, &hints));
    assert_eq!((start.card.issued_at, start.card.expires_at), (now, now + 600));
    assert_eq!(start.card, card);
    assert!(check_enrolment(200, "200 OK").is_ok());
    assert_eq!(
        check_enrolment(409, "409 Conflict").err().expect("refused").words(),
        "route: server refused route enrolment with 409 Conflict"
    );
    let answer = Card::sign(&server, now, now + 600, 4, Vec::new());
    let frame = route_frame(answer.as_bytes());
    assert!(frame.len() <= MAX_ROUTE_FRAME_BYTES);
    let card = enrolled_card(&frame, server.node_id(), start.card.serial, now).expect("card");
    assert_eq!(card, answer);
    let older = Card::sign(&server, now, now + 600, 2, Vec::new());
    assert_eq!(
        enrolled_card(&route_frame(older.as_bytes()), server.node_id(), 3, now)
            .err()
            .expect("older")
            .words(),
        "route: server returned an older card than the pairing bundle"
    );
    let (kept, installed) = routes
        .finish_pairing("room", card, [0x51; 32], now)
        .expect("installed");
    assert_eq!(installed.closes, None);
    assert_eq!(installed.paired.secret, [0x51; 32]);
    assert_eq!((kept.card_serial, kept.card_verified_at), (4, now));
    assert_eq!(kept.card, answer.as_bytes());
    let (node, again) = verify_route(&kept).expect("verifies later");
    assert_eq!((node, again.serial), (server.node_id(), 4));
    let backwards = Card::sign(&server, now, now + 600, 3, Vec::new());
    assert_eq!(
        routes
            .finish_pairing("room", backwards, [0; 32], now)
            .err()
            .expect("backwards")
            .words(),
        "route: server card serial moved backwards"
    );
}

#[test]
fn a_live_update_must_increase_and_closes_the_old_session() {
    let now = 5_000;
    let server = TransportKey::generate();
    let (mut routes, _) = Routes::start(&config(vec![route("a", &server, 2, now)])).expect("engine");
    routes.dialled("a", 77).expect("dialled");
    assert_eq!(routes.reach("a").expect("there").session, Some(77));
    assert_eq!(routes.reannounce().expect("running"), vec![77]);
    assert_eq!(
        routes.upsert_route(route("a", &server, 2, now)).err().expect("same").words(),
        "route: live card serial must increase"
    );
    let installed = routes.upsert_route(route("a", &server, 3, now)).expect("newer");
    assert_eq!(installed.closes, Some(77));
    assert_eq!(installed.unpaired, Some(server.node_id()));
    assert_eq!(routes.reach("a").expect("there").session, None);
    assert_eq!(
        routes.remove_route("b").err().expect("absent").words(),
        "route: route is not installed"
    );
    assert_eq!(routes.remove_route("a").expect("removed"), (server.node_id(), None));
    assert!(routes.reach("a").is_err());
}

#[test]
fn a_stopped_engine_refuses() {
    let server = TransportKey::generate();
    let (mut routes, _) = Routes::start(&config(vec![route("a", &server, 2, 10)])).expect("engine");
    routes.dialled("a", 5).expect("dialled");
    assert_eq!(routes.stop(), vec![5]);
    assert!(routes.stop().is_empty());
    assert_eq!(routes.reach("a").err(), Some(LinkError::Stopped));
    assert_eq!(routes.dialled("a", 6), Err(LinkError::Stopped));
    assert_eq!(routes.reannounce(), Err(LinkError::Stopped));
    assert_eq!(routes.remove_route("a").err(), Some(LinkError::Stopped));
    assert_eq!(
        routes.upsert_route(route("a", &server, 9, 10)).err(),
        Some(LinkError::Stopped)
    );
    assert_eq!(LinkError::Stopped.words(), "the engine is stopped");
}

#[test]
fn a_route_frame_holds_exactly_one_card() {
    let frame = route_frame(&[1, 2, 3]);
    assert_eq!(frame, vec![b'E', b'V', b'R', b'1', 0, 3, 1, 2, 3]);
    assert_eq!(route_card(&frame).expect("card"), &[1, 2, 3]);
    assert!(route_card(&frame[..8]).is_err());
    assert!(route_card(b"EVR2\0\0").is_err());
    assert!(route_card(&route_frame(&[0; 4_097])).is_err());
    assert!(route_card(&route_frame(&[0; 4_096])).is_ok());
    assert!(node_from_card_bytes(&[0; 36]).is_err());
    assert_eq!(pairing_secret(&[4; 16]).ok(), Some([4; 16]));
    assert!(pairing_secret(&[4; 15]).is_err());
}

#[test]
fn a_path_is_told_in_words() {
    let report = PathReport {
        status: PathStatus::Failed(FailReason::Timeout),
        relay: Some("wss://relay.example".into()),
        direct: None,
        since: 1,
        cause: "gone".into(),
    };
    let path = link_path(&report, Some("192.0.2.1:5".into()));
    assert_eq!(path.status, report.status.outcome());
    assert_eq!(path.relay.as_deref(), Some("wss://relay.example"));
    assert_eq!(path.direct.as_deref(), Some("192.0.2.1:5"));
    assert_eq!(path.cause, "gone");
}

#[test]
fn a_request_keeps_to_its_time_and_session() {
    assert_eq!(time_left(30_000, 29_999), Ok(1));
    assert_eq!(
        time_left(30_000, 30_000).err().expect("late").words(),
        "transport: cadence request timed out"
    );
    assert_eq!(live_session(Some(4), false), Some(4));
    assert_eq!(live_session(Some(4), true), None);
}
