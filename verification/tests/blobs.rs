use forgesworn_link::blossom::fetch::{
    check_peers, check_size, content_rest, fetch_path, finish_header, fixed_rest, lan_response,
    link_response, parse_fsl_source, parse_fsl_text, selected_source, BodyFault, BodyStep,
    FetchError, FetchPath, LanBlobLimits, LanBody, LinkBody, MapCardResolver,
};
use forgesworn_link::blossom::serve::{
    file_step, lookup_answer, next_chunk, request_rest, request_stands_alone, serve_request,
    serving_goes_on,
    stored_file_is_whole, BodyGauge, FileStep, MapBlobSource, ServeStep, SourceFault,
};
use forgesworn_link::blossom::wire::{
    Request, ResponseHeader, WireError, CHUNK, MAX_CONTENT_TYPE, PROTOCOL_VERSION, REQUEST_LEN,
};
use forgesworn_link::card::Card;
use forgesworn_link::id::{NodeId, TransportKey};
use forgesworn_link::link_url::UrlParts;
use forgesworn_link::path::{FailReason, PathStatus};

#[test]
fn request_encodes_and_decodes_to_the_same_value() {
    let request = Request::new([7u8; 32]);
    let bytes = request.encode();
    assert_eq!(bytes.len(), REQUEST_LEN);
    assert_eq!(&bytes[..4], b"FSLB");
    assert_eq!(bytes[4], PROTOCOL_VERSION);
    assert_eq!(Request::decode(&bytes).expect("decodes"), request);
}

#[test]
fn a_truncated_request_is_rejected() {
    let bytes = Request::new([9u8; 32]).encode();
    let error = Request::decode(&bytes[..REQUEST_LEN - 1]).expect_err("short");
    assert_eq!(
        error,
        WireError::Short {
            needed: REQUEST_LEN,
            had: REQUEST_LEN - 1
        }
    );
}

#[test]
fn a_request_with_bad_magic_or_version_is_rejected() {
    let mut bytes = Request::new([1u8; 32]).encode();
    bytes[0] = b'X';
    assert_eq!(Request::decode(&bytes), Err(WireError::BadMagic));

    let mut bytes = Request::new([1u8; 32]).encode();
    bytes[4] = 0x02;
    assert_eq!(Request::decode(&bytes), Err(WireError::BadVersion(0x02)));
}

#[test]
fn an_ok_response_header_round_trips_with_and_without_a_content_type() {
    for content_type in [None, Some("application/octet-stream".to_owned())] {
        let header = ResponseHeader::Found {
            size: 5 * 1024 * 1024,
            content_type: content_type.clone(),
        };
        let bytes = header.encode();
        let (decoded, consumed) = ResponseHeader::decode(&bytes).expect("decodes");
        assert_eq!(
            consumed,
            bytes.len(),
            "the header consumed its whole buffer"
        );
        assert_eq!(decoded, header);
    }
}

#[test]
fn not_found_and_error_headers_round_trip() {
    for header in [ResponseHeader::NotFound, ResponseHeader::Error] {
        let bytes = header.encode();
        assert_eq!(bytes.len(), 1);
        let (decoded, consumed) = ResponseHeader::decode(&bytes).expect("decodes");
        assert_eq!((decoded, consumed), (header, 1));
    }
}

#[test]
fn a_truncated_ok_header_is_rejected() {
    let bytes = ResponseHeader::Found {
        size: 42,
        content_type: Some("text/plain".to_owned()),
    }
    .encode();
    // Cut the buffer inside the declared content type.
    let error = ResponseHeader::decode(&bytes[..bytes.len() - 1]).expect_err("short");
    assert!(matches!(error, WireError::Short { .. }), "got {error:?}");
}

#[test]
fn an_unknown_status_byte_is_rejected() {
    assert_eq!(
        ResponseHeader::decode(&[0x09]),
        Err(WireError::BadStatus(0x09))
    );
    assert_eq!(
        ResponseHeader::decode(&[]),
        Err(WireError::Short { needed: 1, had: 0 })
    );
}

#[test]
fn an_over_long_content_type_is_omitted_not_truncated() {
    let header = ResponseHeader::Found {
        size: 1,
        content_type: Some("x".repeat(MAX_CONTENT_TYPE + 45)),
    };
    let (decoded, _) = ResponseHeader::decode(&header.encode()).expect("decodes");
    assert_eq!(
        decoded,
        ResponseHeader::Found {
            size: 1,
            content_type: None
        }
    );
}

#[test]
fn headers_have_their_exact_bytes() {
    let header = ResponseHeader::Found {
        size: 258,
        content_type: Some("a/b".to_owned()),
    };
    assert_eq!(
        header.encode(),
        vec![0, 0, 0, 0, 0, 0, 0, 1, 2, 0, 3, b'a', b'/', b'b']
    );
    assert_eq!(ResponseHeader::UnsupportedVersion.encode(), vec![0x03]);
    let mut long = vec![0u8; 11];
    long[9] = 1;
    assert_eq!(
        ResponseHeader::decode(&long),
        Err(WireError::ContentTypeTooLong(256))
    );
    let bad = [&[0, 0, 0, 0, 0, 0, 0, 0, 1, 0, 1][..], &[0xff]].concat();
    assert_eq!(ResponseHeader::decode(&bad), Err(WireError::BadContentType));
}

fn fsl_url(digest: &str) -> UrlParts {
    let node = NodeId([0u8; 32]).to_base32();
    UrlParts::parse(&format!("fsl://{node}/{digest}")).expect("url")
}

#[test]
fn the_digest_must_be_lowercase_hex() {
    let lower = "a".repeat(64);
    assert!(parse_fsl_source(&fsl_url(&lower)).is_ok());
    let upper = "A".repeat(64);
    assert!(matches!(
        parse_fsl_source(&fsl_url(&upper)),
        Err(FetchError::Unreachable(_))
    ));
}

#[test]
fn a_foreign_scheme_is_unsupported_not_broken() {
    let url = UrlParts::parse("https://example.org/x").expect("url");
    assert!(matches!(
        parse_fsl_source(&url),
        Err(FetchError::UnsupportedSource)
    ));
}

#[test]
fn a_source_names_its_node_and_digest() {
    let node = NodeId([0u8; 32]);
    assert_eq!(
        parse_fsl_source(&fsl_url(&"0f".repeat(32))).ok(),
        Some((node, [0x0f; 32]))
    );
    assert!(matches!(
        parse_fsl_text(&format!("fsl://{}/{}", node.to_base32(), "0f".repeat(32))),
        Some(Ok((found, digest))) if found == node && digest == [0x0f; 32]
    ));
    assert!(parse_fsl_text("not a url").is_none());
    let path = "0f".repeat(32);
    assert_eq!(
        selected_source(&fsl_url(&path), &path).ok(),
        Some((node, [0x0f; 32]))
    );
    assert!(selected_source(&fsl_url(&path), &"00".repeat(32)).is_err());
}

#[test]
fn a_request_is_looked_up_answered_or_reset() {
    let good = Request::new([0xab; 32]).encode();
    assert!(matches!(serve_request(&good), ServeStep::Lookup(name) if name == "ab".repeat(32)));
    let mut newer = good;
    newer[4] = 9;
    assert!(matches!(serve_request(&newer), ServeStep::Answer(bytes) if bytes == vec![0x03]));
    let mut wrong = good;
    wrong[0] = 0;
    assert!(matches!(serve_request(&wrong), ServeStep::Reset(WireError::BadMagic)));
    assert_eq!(request_rest(0), Some(37));
    assert_eq!(request_rest(37), Some(0));
    assert_eq!(request_rest(38), None);
    assert!(request_stands_alone(false, 1));
    assert!(request_stands_alone(true, 0));
    assert!(!request_stands_alone(true, 1));
}

#[test]
fn a_lookup_gives_the_header_and_whether_a_body_follows() {
    assert_eq!(lookup_answer(None, None), (vec![0x01], false));
    let (header, body) = lookup_answer(Some((4, None)), None);
    assert_eq!(header, vec![0, 0, 0, 0, 0, 0, 0, 0, 4, 0, 0]);
    assert!(body);
    let (header, body) = lookup_answer(Some((4, None)), Some(3));
    assert_eq!(header, vec![0x02]);
    assert!(!body);
}

#[test]
fn a_served_body_is_exactly_its_size() {
    let mut gauge = BodyGauge::new(5);
    assert_eq!(gauge.part(3), Ok(()));
    assert_eq!(gauge.finish(), Err(SourceFault::TooShort));
    assert_eq!(gauge.part(3), Err(SourceFault::TooLong));
    let mut gauge = BodyGauge::new(3);
    assert_eq!(gauge.part(3), Ok(()));
    assert_eq!(gauge.finish(), Ok(()));
    assert!(serving_goes_on(FailReason::Identity));
    assert!(!serving_goes_on(FailReason::Relay));
}

#[test]
fn a_map_source_hands_out_what_it_holds() {
    let source = MapBlobSource::new().with_blob(
        "ab".repeat(32),
        Some("text/plain".to_owned()),
        vec![1, 2, 3],
    );
    let (kind, data) = source.get(&"ab".repeat(32)).expect("held");
    assert_eq!((kind.as_deref(), data), (Some("text/plain"), &[1u8, 2, 3][..]));
    assert!(source.get("missing").is_none());
    let bytes = vec![7u8; CHUNK + 1];
    let (first, rest) = next_chunk(&bytes).expect("first");
    assert_eq!((first.len(), rest.len()), (CHUNK, 1));
    let (second, rest) = next_chunk(rest).expect("second");
    assert_eq!((second.len(), rest.len()), (1, 0));
    assert!(next_chunk(rest).is_none());
}

#[test]
fn limits_and_sizes_are_checked_before_anything_is_sent() {
    let limits = LanBlobLimits::new(10, 1_000_000_000).expect("limits");
    assert!(check_size(Some(10), limits).is_ok());
    assert!(check_size(Some(11), limits).is_err());
    assert!(check_size(None, limits).is_ok());
    assert!(LanBlobLimits::new(0, 1).is_err());
    assert!(LanBlobLimits::new(1, 0).is_err());
    assert_eq!(
        LanBlobLimits::new(1, u64::MAX).expect_err("too long").words(),
        LanBlobLimits::new(0, 1).expect_err("empty").words()
    );
    assert!(check_peers(&vec![NodeId([1; 32]), NodeId([2; 32])]).is_ok());
    assert!(check_peers(&vec![NodeId([1; 32]), NodeId([1; 32])]).is_err());
}

#[test]
fn a_response_is_read_in_parts() {
    assert_eq!(fixed_rest(0x00), 10);
    assert_eq!(fixed_rest(0x01), 0);
    let fixed = [0, 0, 0, 0, 0, 0, 0, 9, 0, 3];
    assert_eq!(content_rest(&fixed), Some(3));
    assert_eq!(content_rest(&[0, 0, 0, 0, 0, 0, 0, 9, 1, 0]), None);
    let header = finish_header(&fixed, b"a/b").expect("header");
    assert_eq!(
        header,
        ResponseHeader::Found {
            size: 9,
            content_type: Some("a/b".to_owned())
        }
    );
    assert_eq!(
        link_response(header).ok(),
        Some((9, Some("a/b".to_owned())))
    );
    assert!(matches!(
        link_response(ResponseHeader::NotFound),
        Err(FetchError::UnusableStatus(404))
    ));
    assert!(matches!(
        link_response(ResponseHeader::UnsupportedVersion),
        Err(FetchError::UnusableStatus(505))
    ));
}

#[test]
fn a_lan_response_keeps_to_the_expected_size() {
    let limits = LanBlobLimits::new(10, 1_000_000_000).expect("limits");
    let found = |size: u64| ResponseHeader::Found {
        size,
        content_type: None,
    };
    assert_eq!(lan_response(found(5), Some(5), limits, None).ok(), Some((5, None)));
    assert!(lan_response(found(6), Some(5), limits, None).is_err());
    assert!(lan_response(found(11), None, limits, None).is_err());
}

#[test]
fn a_lan_body_completes_only_with_its_digest() {
    // SHA-256 of "abc".
    let mut digest = [0u8; 32];
    let text = "ba7816bf8f01cfea414140de5dae2223b00361a396177a9cb410ff61f20015ad";
    for (index, byte) in digest.iter_mut().enumerate() {
        *byte = u8::from_str_radix(&text[2 * index..2 * index + 2], 16).unwrap();
    }
    let mut body = LanBody::new(3, digest);
    assert!(matches!(body.step(), BodyStep::Read(3)));
    body.take(b"ab");
    body.take(b"c");
    assert_eq!(body.finish(Some(0)), Ok(()));
    assert_eq!(body.finish(Some(1)), Err(BodyFault::TooLong));
    assert_eq!(body.finish(None), Err(BodyFault::NoFin));
    let mut other = LanBody::new(3, digest);
    other.take(b"abd");
    assert_eq!(other.finish(Some(0)), Err(BodyFault::Digest));
    let mut failed = LanBody::new(3, digest);
    failed.fail();
    assert!(matches!(failed.step(), BodyStep::Over));
    let mut link = LinkBody::new(2);
    assert!(matches!(link.step(), BodyStep::Read(2)));
    link.note(true);
    assert!(matches!(link.step(), BodyStep::Complete));
    let mut broken = LinkBody::new(2);
    broken.note(false);
    assert!(matches!(broken.step(), BodyStep::Over));
}

#[test]
fn a_fetch_says_which_path_carried_it() {
    assert_eq!(fetch_path(PathStatus::Direct), FetchPath::Direct);
    assert_eq!(fetch_path(PathStatus::Relayed), FetchPath::Relayed);
}

#[test]
fn a_resolver_keeps_the_last_card_of_a_node() {
    let key = TransportKey::from_seed([1; 32]);
    let first = Card::sign(&key, 1, 2, 1, vec![]);
    let second = Card::sign(&key, 1, 2, 2, vec![]);
    let mut resolver = MapCardResolver::new().with_card(first);
    assert_eq!(resolver.resolve(&key.node_id()).expect("held").serial, 1);
    resolver.insert(second);
    assert_eq!(resolver.resolve(&key.node_id()).expect("held").serial, 2);
    assert!(resolver.resolve(&NodeId([9; 32])).is_none());
}

#[test]
fn wire_errors_say_what_is_wrong() {
    let short = WireError::Short { needed: 37, had: 5 };
    assert_eq!(short.words(), "buffer too short: needed 37 bytes, had 5");
    assert_eq!(WireError::BadMagic.words(), "request magic is not FSLB");
    assert_eq!(WireError::BadVersion(2).words(), "unsupported protocol version 0x02");
    assert_eq!(WireError::BadStatus(0xab).words(), "unknown response status byte 0xab");
    let long = WireError::ContentTypeTooLong(256);
    assert_eq!(format!("{long}"), "content-type length 256 exceeds 255 bytes");
    assert_eq!(WireError::BadContentType.words(), "content-type is not valid utf-8");
}

#[test]
fn source_policy_and_size_mismatches_fail_before_any_lan_send() {
    let node = TransportKey::generate().node_id();
    // SHA-256 of "test".
    let hash = "9f86d081884c7d659a2feaa0c55ad015a3bf4f1b2b0b822cd15d6c15b0f00a08";
    let selected = |url: &str| selected_source(&UrlParts::parse(url).expect("a URL"), hash);
    assert!(selected(&format!("fsl://{node}/{hash}")).is_ok());
    for url in [
        format!("fsl://user@{node}/{hash}"),
        format!("fsl://{node}:42/{hash}"),
        format!("fsl://{node}/{hash}?next=elsewhere"),
        format!("fsl://{node}/{hash}#fragment"),
        format!("fsl://{node}/{hash}/extra"),
        format!("fsl://{node}/{hash}.bin.extra"),
        format!("fsl://{node}/{}", "a".repeat(64)),
    ] {
        assert!(selected(&url).is_err(), "{url}");
    }
    let other = TransportKey::generate().node_id();
    let (named, _) = selected(&format!("fsl://{other}/{hash}")).expect("names another node");
    assert_ne!(named, node);
    assert!(check_size(Some(2 * 1024 * 1024 * 1024), LanBlobLimits::default()).is_err());
    assert_eq!(
        selected("https://example.test/blob"),
        Err(FetchError::UnsupportedSource)
    );
}

#[test]
fn a_pinned_peer_cannot_complete_a_corrupt_short_extra_or_unterminated_body() {
    // SHA-256 of "right".
    let digest = forgesworn_link::relay::TlsMaterial {
        cert_der: b"right".to_vec(),
        key_der: Vec::new(),
    }
    .fingerprint();
    let mut hash = [0u8; 32];
    for (index, byte) in hash.iter_mut().enumerate() {
        *byte = u8::from_str_radix(&digest[2 * index..2 * index + 2], 16).unwrap();
    }
    let body = |payload: &[u8]| {
        let mut body = LanBody::new(5, hash);
        body.take(payload);
        body
    };
    assert_eq!(body(b"right").finish(Some(0)), Ok(()));
    let corrupt = body(b"wrong").finish(Some(0)).expect_err("corrupt");
    assert!(corrupt.words().contains("digest"));
    let extra = body(b"right").finish(Some(1)).expect_err("extra");
    assert!(extra.words().contains("exceeded"));
    assert!(matches!(body(b"sh").step(), BodyStep::Read(3)));
    assert!(BodyFault::Truncated.words().contains("truncated"));
    assert!(BodyFault::Deadline.words().contains("deadline"));
    assert!(matches!(
        BodyFault::Deadline.error(),
        FetchError::Stream(words) if words == "LAN body operation deadline"
    ));
}

#[test]
fn the_client_bounds_headers_and_refuses_an_unexpected_declared_size() {
    let limits = LanBlobLimits::new(1024, 1_000_000_000).expect("limits");
    let declared = |size: u64| {
        let header = ResponseHeader::Found {
            size,
            content_type: None,
        };
        let bytes = header.encode();
        let (header, length) = ResponseHeader::decode(&bytes).expect("header");
        assert_eq!(length, bytes.len());
        lan_response(header, Some(1), limits, None)
    };
    assert!(declared(4096).is_err());
    assert!(declared(2).is_err());
    assert_eq!(declared(1), Ok((1, None)));
    // A type of 256 bytes is refused before its bytes exist.
    assert_eq!(content_rest(&[0, 0, 0, 0, 0, 0, 0, 1, 1, 0]), None);
    assert_eq!(ResponseHeader::decode(&[99]), Err(WireError::BadStatus(99)));
}

#[test]
fn request_framing_and_server_limits_precede_source_bytes() {
    let found = Some((10, None));
    let (header, follows) = lookup_answer(found, Some(1));
    assert!(!follows);
    assert_eq!(header, ResponseHeader::Error.encode());
    let (header, _) = ResponseHeader::decode(&header).expect("header");
    assert_eq!(
        lan_response(header, None, LanBlobLimits::default(), Some(0)),
        Err(FetchError::UnusableStatus(500))
    );
    let mut request = Request::new([7; 32]).encode();
    request[4] = 2;
    match serve_request(&request) {
        ServeStep::Answer(bytes) => {
            assert_eq!(bytes, ResponseHeader::UnsupportedVersion.encode())
        }
        other => panic!("expected an answer, got {other:?}"),
    }
    assert_eq!(request_rest(4), Some(33));
    assert_eq!(request_rest(REQUEST_LEN + 1), None);
}

#[test]
fn a_stored_file_is_served_only_as_it_was_recorded() {
    assert!(stored_file_is_whole(true, 9, 9));
    assert!(!stored_file_is_whole(true, 8, 9));
    assert!(!stored_file_is_whole(false, 9, 9));
    assert_eq!(file_step(Some(3)), FileStep::Piece(3));
    assert_eq!(file_step(Some(0)), FileStep::End);
    assert_eq!(file_step(None), FileStep::Broken);
}
