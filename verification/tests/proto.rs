use impulse_ring::frame::Frame;
use impulse_ring::proto::{
    all_kinds, correlation_id, expose_from_frame, fp_to_i64, from_frame, i64_to_fp, kind_name,
    register_from_frame, schema_json, status, to_frame, Catalog, ChannelInfo, ChannelList,
    Heartbeat, Kind, LegacyExposeFunction, LegacyRegister, ListChannels, LookupReply, ProtoError,
    PublishReply, Register, RegisterReply, RpcResponse,
};
use impulse_ring::proto::messages::Message;
use impulse_ring::proto::schemas::{LEGACY_EXPOSE_FUNCTION_SCHEMA, LEGACY_REGISTER_SCHEMA};
use impulse_ring::avro;

fn catalog() -> Catalog {
    Catalog::build().unwrap()
}

#[test]
fn all_schemas_parse_and_have_unique_fps() {
    let c = catalog();
    let mut seen = std::collections::HashSet::new();
    for k in all_kinds() {
        let fp = c.fp(k);
        assert!(seen.insert(fp), "duplicate fingerprint for {k:?}");
        assert_eq!(c.kind_of(fp), Some(k));
    }
}

#[test]
fn register_frame_roundtrip() {
    let c = catalog();
    let msg = Register {
        correlation_id: 42,
        app_name: "svc-a".into(),
        nonce: 999,
        reply_segment: "/impulse-ring.cli.999.v1".into(),
        heartbeat_ms: 1000,
        pid: 0,
    };
    let frame = to_frame(&c, Kind::Register, &msg).unwrap();
    assert_eq!(c.kind_of(frame.schema_fp), Some(Kind::Register));
    let back: Register = from_frame(&c, Kind::Register, &frame).unwrap();
    assert_eq!(back.app_name, "svc-a");
    assert_eq!(back.nonce, 999);
}

#[test]
fn rpc_bytes_roundtrip() {
    let c = catalog();
    let msg = RpcResponse {
        correlation_id: 1,
        status: status::OK,
        message: String::new(),
        result_fp: -5,
        result: vec![9, 8, 7, 6],
    };
    let frame = to_frame(&c, Kind::RpcResponse, &msg).unwrap();
    let back: RpcResponse = from_frame(&c, Kind::RpcResponse, &frame).unwrap();
    assert_eq!(back.result, vec![9, 8, 7, 6]);
    assert_eq!(back.result_fp, -5);
}

#[test]
fn channel_list_array_roundtrip() {
    let c = catalog();
    let msg = ChannelList {
        correlation_id: 7,
        channels: vec![
            ChannelInfo {
                channel_id: 1,
                name: "metrics".into(),
                owner_app: "a".into(),
                schema_fp: 123,
                requires_key: true,
            },
            ChannelInfo {
                channel_id: 2,
                name: "logs".into(),
                owner_app: "b".into(),
                schema_fp: 456,
                requires_key: false,
            },
        ],
    };
    let frame = to_frame(&c, Kind::ChannelList, &msg).unwrap();
    let back: ChannelList = from_frame(&c, Kind::ChannelList, &frame).unwrap();
    assert_eq!(back.channels.len(), 2);
    assert_eq!(back.channels[0].name, "metrics");
    assert!(back.channels[0].requires_key);
    assert!(!back.channels[1].requires_key);
}

#[test]
fn published_fingerprints() {
    let c = catalog();
    let table = [
        (Kind::Register, 0x879b416683ef2068u64),
        (Kind::RegisterReply, 0x3af224883f4dec77),
        (Kind::Unregister, 0x82cdc2b7ebd36a6a),
        (Kind::PublishChannel, 0xf271a4c7a09fcdd7),
        (Kind::PublishReply, 0x055439d7c0240142),
        (Kind::ListChannels, 0xa5035910e842f4e6),
        (Kind::ChannelList, 0xa1048915e5931da2),
        (Kind::Subscribe, 0x8ebc74e247531cff),
        (Kind::SubscribeReply, 0x83b6f56ef3d10c31),
        (Kind::ExposeFunction, 0x642a6c8e5b677e6a),
        (Kind::ExposeReply, 0x94bb3fe569f8abf8),
        (Kind::LookupFunction, 0xe732b44c32d796fc),
        (Kind::LookupReply, 0x5c9c6cbc1f3d26b2),
        (Kind::Heartbeat, 0xa5073570fc81a3ea),
        (Kind::RpcRequest, 0xe88f548e4f540ca4),
        (Kind::RpcResponse, 0x5c4e149239ad5d24),
    ];
    for (kind, fp) in table {
        assert_eq!(c.fp(kind), fp, "{kind:?}");
        assert_eq!(kind_name(kind), format!("{kind:?}"));
        assert_eq!(avro::parse(schema_json(kind)).unwrap().1, fp);
    }
    assert_eq!(c.kind_of(0xfc723bd7afcffc02), Some(Kind::Register));
    assert_eq!(c.kind_of(0xa1acec8abc87f374), Some(Kind::ExposeFunction));
    assert_eq!(c.kind_of(1), None);
}

#[test]
fn frames_of_older_connectors_are_read() {
    let c = catalog();
    let (schema, fp) = avro::parse(LEGACY_REGISTER_SCHEMA).unwrap();
    let old = LegacyRegister {
        correlation_id: 5,
        app_name: "old".into(),
        nonce: 6,
        reply_segment: "/r".into(),
        heartbeat_ms: 7,
    };
    let frame = Frame::new(fp, avro::encode(&schema, old.to_record()).unwrap());
    let m = register_from_frame(&c, &frame).unwrap();
    assert_eq!((m.correlation_id, m.nonce, m.heartbeat_ms, m.pid), (5, 6, 7, 0));
    assert_eq!(m.app_name, "old");
    assert_eq!(m.reply_segment, "/r");

    let (schema, fp) = avro::parse(LEGACY_EXPOSE_FUNCTION_SCHEMA).unwrap();
    let old = LegacyExposeFunction {
        correlation_id: 5,
        client_id: 2,
        fn_name: "f".into(),
        req_schema_json: "q".into(),
        resp_schema_json: "s".into(),
        access_key: "k".into(),
    };
    let frame = Frame::new(fp, avro::encode(&schema, old.to_record()).unwrap());
    let m = expose_from_frame(&c, &frame).unwrap();
    assert_eq!((m.correlation_id, m.client_id, m.req_arena_cap), (5, 2, 0));
    assert_eq!((m.fn_name.as_str(), m.access_key.as_str()), ("f", "k"));

    let now = Register {
        correlation_id: 1,
        app_name: "new".into(),
        nonce: 2,
        reply_segment: "/s".into(),
        heartbeat_ms: 3,
        pid: 4,
    };
    let frame = to_frame(&c, Kind::Register, &now).unwrap();
    assert_eq!(register_from_frame(&c, &frame).unwrap().pid, 4);
}

#[test]
fn replies_are_routed_by_their_correlation_id() {
    let c = catalog();
    let frame = to_frame(
        &c,
        Kind::RegisterReply,
        &RegisterReply { correlation_id: -9, client_id: 1, status: 0, message: String::new() },
    )
    .unwrap();
    assert_eq!(correlation_id(&c, &frame).unwrap(), -9);
    let frame = to_frame(
        &c,
        Kind::PublishReply,
        &PublishReply {
            correlation_id: 11,
            channel_id: 1,
            schema_fp: 0,
            arena: String::new(),
            status: 0,
            message: String::new(),
        },
    )
    .unwrap();
    assert_eq!(correlation_id(&c, &frame).unwrap(), 11);
    let beat = to_frame(&c, Kind::Heartbeat, &Heartbeat { correlation_id: 1, client_id: 2, seq: 3 })
        .unwrap();
    match correlation_id(&c, &beat) {
        Err(e) => assert_eq!(e.message(), "frame kind Heartbeat is not a routable reply"),
        Ok(_) => panic!("routed"),
    }
    match correlation_id(&c, &Frame::new(3, vec![])) {
        Err(ProtoError::UnknownFingerprint) => {}
        _ => panic!("routed"),
    }
    match correlation_id(&c, &Frame::new(c.fp(Kind::LookupReply), vec![])) {
        Err(ProtoError::Avro(_)) => {}
        _ => panic!("routed"),
    }
    assert_eq!(ProtoError::UnknownFingerprint.message(), "unknown frame fingerprint");
}

#[test]
fn records_of_another_kind_do_not_fit() {
    let c = catalog();
    let reply = RegisterReply { correlation_id: 1, client_id: 2, status: 0, message: "m".into() };
    let frame = to_frame(&c, Kind::RegisterReply, &reply).unwrap();
    match from_frame::<LookupReply>(&c, Kind::RegisterReply, &frame) {
        Err(ProtoError::Fields) => {}
        _ => panic!("read"),
    }
    assert!(to_frame(&c, Kind::Heartbeat, &reply).is_err());
}

#[test]
fn fields_that_a_record_does_not_have_are_passed_over() {
    let c = catalog();
    let beat = Heartbeat { correlation_id: 4, client_id: 5, seq: 6 };
    let frame = to_frame(&c, Kind::Heartbeat, &beat).unwrap();
    let list = from_frame::<ListChannels>(&c, Kind::Heartbeat, &frame).unwrap();
    assert_eq!((list.correlation_id, list.client_id), (4, 5));
}

#[test]
fn fingerprints_travel_as_longs() {
    assert_eq!(fp_to_i64(0x879b416683ef2068), 0x879b416683ef2068u64 as i64);
    assert_eq!(i64_to_fp(-1), u64::MAX);
    assert_eq!(i64_to_fp(fp_to_i64(u64::MAX - 3)), u64::MAX - 3);
}
