use impulse_ring::avro;
use impulse_ring::control::{MIN_ARENA_CAP, REPLY_CAP};
use impulse_ring::http::{
    http_fn_name, opcode, stream_channel_name, RingHeader, RingHttpRequest, RingHttpResponse,
    RingStreamFrame, RingUpgradeKind, MAX_INLINE_REQUEST_BODY, MAX_INLINE_RESPONSE_BODY,
    REQUEST_SCHEMA, RESPONSE_SCHEMA, STREAM_CHAN_PREFIX, STREAM_SCHEMA,
};
use impulse_ring::proto::messages::Message;

#[test]
fn fn_name_is_prefixed() {
    assert_eq!(http_fn_name("my-svc"), "impulse-ring-http/v1/my-svc");
}

#[test]
fn header_ctor() {
    let h = RingHeader::new("Content-Type", "application/json");
    assert_eq!(h.name, "Content-Type");
    assert_eq!(h.value, "application/json");
}

#[test]
fn upgrade_kind_round_trips() {
    for k in [
        RingUpgradeKind::Sse,
        RingUpgradeKind::WebSocket,
        RingUpgradeKind::WebTransport,
    ] {
        assert_eq!(RingUpgradeKind::parse(k.as_str()), Some(k));
    }
    assert_eq!(RingUpgradeKind::parse("WebSocket"), Some(RingUpgradeKind::WebSocket));
    assert_eq!(RingUpgradeKind::parse("ws"), Some(RingUpgradeKind::WebSocket));
    assert_eq!(RingUpgradeKind::parse("nope"), None);
}

#[test]
fn stream_channel_names_are_unique_per_session_and_role() {
    let a = stream_channel_name("svc", 1, "down");
    let b = stream_channel_name("svc", 1, "up");
    let c = stream_channel_name("svc", 2, "down");
    assert_ne!(a, b);
    assert_ne!(a, c);
    assert!(a.starts_with(STREAM_CHAN_PREFIX));
}

#[test]
fn stream_frame_ctors() {
    assert_eq!(RingStreamFrame::data(vec![1, 2, 3]).opcode, opcode::DATA);
    assert_eq!(RingStreamFrame::close().opcode, opcode::CLOSE);
    assert!(RingStreamFrame::close().payload.is_empty());
    assert_eq!(RingStreamFrame::datagram(vec![9]).opcode, opcode::DATAGRAM);
}

#[test]
fn requests_and_responses_travel_as_records() {
    let (schema, _) = avro::parse(REQUEST_SCHEMA).unwrap();
    let req = RingHttpRequest {
        method: "POST".into(),
        uri: "/a?b=c".into(),
        headers: vec![RingHeader::new("Host", "x"), RingHeader::new("Host", "y")],
        body: vec![1, 2, 3],
    };
    let bytes = avro::encode(&schema, req.to_record()).unwrap();
    let back = RingHttpRequest::from_record(&avro::decode(&schema, &bytes).unwrap()).unwrap();
    assert_eq!(format!("{:?}", back), format!("{:?}", req));

    let (schema, _) = avro::parse(RESPONSE_SCHEMA).unwrap();
    let resp = RingHttpResponse { status: 404, headers: vec![], body: b"gone".to_vec() };
    let bytes = avro::encode(&schema, resp.to_record()).unwrap();
    let back = RingHttpResponse::from_record(&avro::decode(&schema, &bytes).unwrap()).unwrap();
    assert_eq!((back.status, back.body), (404, b"gone".to_vec()));

    let (schema, _) = avro::parse(STREAM_SCHEMA).unwrap();
    let frame = RingStreamFrame::data(vec![7; 300]);
    let bytes = avro::encode(&schema, frame.to_record()).unwrap();
    let back = RingStreamFrame::from_record(&avro::decode(&schema, &bytes).unwrap()).unwrap();
    assert_eq!((back.opcode, back.payload), (opcode::DATA, vec![7; 300]));
    assert!(RingStreamFrame::from_record(&req.to_record()).is_none());
}

#[test]
fn upgrade_tokens_ignore_case() {
    assert_eq!(RingUpgradeKind::parse("SSE"), Some(RingUpgradeKind::Sse));
    assert_eq!(RingUpgradeKind::parse("WebTransport"), Some(RingUpgradeKind::WebTransport));
    assert_eq!(RingUpgradeKind::parse("  wt\t\u{2003}"), Some(RingUpgradeKind::WebTransport));
    assert_eq!(RingUpgradeKind::parse(""), None);
    assert_eq!(RingUpgradeKind::WebSocket.as_str(), "websocket");
}

#[test]
fn functions_of_different_apps_differ() {
    assert_ne!(http_fn_name("a"), http_fn_name("b"));
    assert_ne!(http_fn_name(""), http_fn_name("/"));
}

#[test]
fn names_of_streams() {
    assert_eq!(
        stream_channel_name("svc", 0xAB, "up"),
        format!("{STREAM_CHAN_PREFIX}svc/00000000000000ab/up")
    );
    assert_eq!(MAX_INLINE_REQUEST_BODY, 196_608);
    assert!(MAX_INLINE_REQUEST_BODY < MIN_ARENA_CAP && MAX_INLINE_RESPONSE_BODY < REPLY_CAP);
    assert_eq!(MAX_INLINE_RESPONSE_BODY, 458_752);
}
