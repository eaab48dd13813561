use std::cell::RefCell;

use impulse_ring::channel::{accept, message_bytes, published};
use impulse_ring::client::{
    bring_back, broker_unreachable, no_broker, rebinds, restarted, CallEnd, Came, ClientError,
    Dispatch, ErrorKind, Inner, Rebind, Reg, Request, Retry, Slot, Then, Transport, Wait, Watched,
};
use impulse_ring::frame::Frame;
use impulse_ring::proto::{status, to_frame, Catalog, Kind, LookupReply, RpcRequest, RpcResponse};
use impulse_ring::rpc::{
    block_on, check_args, check_call, check_response, respond, responded, BlockStep, Served,
};

fn inner() -> Inner<u8> {
    Inner::start("app", Transport::new(9, 100))
}

fn error(name: &str) -> ClientError {
    match name {
        "NoReply" => ClientError::NoReply,
        "ChannelFull" => ClientError::ChannelFull,
        _ => ClientError::SubmissionFull,
    }
}

/// What an operation does, by what came of what it did.
fn steps(
    conn: &Inner<u8>,
    first: Result<i32, &str>,
    live: Option<u64>,
    back: Result<(), &str>,
    second: Result<i32, &str>,
) -> String {
    let mut at = Retry::Run;
    let mut out = String::new();
    loop {
        let came = match &at {
            Retry::Run => Came::Ran(first.map_err(error)),
            Retry::Look { observed, .. } => {
                out += &format!("look {observed}, ");
                Came::Looked(live)
            }
            Retry::ComeBack { observed } => {
                out += &format!("back from {observed}, ");
                Came::CameBack(back.map_err(error))
            }
            Retry::RunAgain => {
                out += "again, ";
                Came::Ran(second.map_err(error))
            }
        };
        match conn.with_reconnect(at, came) {
            Then::Do(next) => at = next,
            Then::Return(Ok(n)) => return out + &format!("return {n}"),
            Then::Return(Err(e)) => return out + &format!("return {e:?}"),
        }
    }
}

#[test]
fn a_slot_gives_its_reply_once() {
    let mut slot: Slot<u32> = Slot::new();
    assert!(slot.poll(7).is_none());
    assert_eq!(slot.complete(Frame::new(1, vec![2])), Some(7));
    match slot.wait(true) {
        Wait::Ready(f) => assert_eq!(f, Frame::new(1, vec![2])),
        _ => panic!("no reply"),
    }
    match slot.wait(false) {
        Wait::Sleep => {}
        _ => panic!("a reply"),
    }
    match slot.wait(true) {
        Wait::TimedOut => {}
        _ => panic!("a reply"),
    }
    assert_eq!(slot.complete(Frame::new(3, vec![])), None);
    assert_eq!(slot.poll(8).unwrap().schema_fp, 3);
    assert!(slot.waker.is_none());
}

#[test]
fn replies_go_to_who_waits() {
    let c = Catalog::build().unwrap();
    let mut conn = inner();
    conn.register(5, 50);
    conn.register(6, 60);
    let reply = RpcResponse {
        correlation_id: 6,
        status: 0,
        message: String::new(),
        result_fp: 0,
        result: vec![],
    };
    let frame = to_frame(&c, Kind::RpcResponse, &reply).unwrap();
    match conn.dispatch(&c, &frame.encode()) {
        Dispatch::Deliver(to, f) => {
            assert_eq!(to, 60);
            assert_eq!(f, frame);
        }
        _ => panic!("not delivered"),
    }
    match conn.dispatch(&c, &frame.encode()) {
        Dispatch::NoWaiter(corr) => assert_eq!(corr, 6),
        _ => panic!("delivered twice"),
    }
    match conn.dispatch(&c, &[1, 2, 3]) {
        Dispatch::BadFrame(_) => {}
        _ => panic!("understood"),
    }
    match conn.dispatch(&c, &Frame::new(1, vec![]).encode()) {
        Dispatch::Unroutable(_) => {}
        _ => panic!("routed"),
    }
    assert!(conn.pending.contains_key(&5));
    conn.drop_pending(5);
    assert!(conn.pending.is_empty());
}

#[test]
fn ends_of_a_control_call() {
    let mut conn = inner();
    conn.register(1, 1);
    assert_eq!(conn.call_control(1, CallEnd::Answered(Frame::new(4, vec![]))).unwrap().schema_fp, 4);
    assert!(conn.pending.contains_key(&1));
    let e = conn.call_control(1, CallEnd::NotSent).unwrap_err();
    assert_eq!(e.message(), "submission ring full (broker stuck?)");
    assert!(conn.pending.is_empty());
    conn.register(2, 1);
    let e = conn.call_control(2, CallEnd::NoAnswer).unwrap_err();
    assert_eq!(e.message(), "timed out waiting for broker reply");
    assert_eq!(e.kind(), ErrorKind::TimedOut);
    assert!(conn.pending.is_empty());
}

#[test]
fn errors_that_mean_a_dead_broker() {
    assert!(broker_unreachable(&ClientError::NoReply));
    assert!(broker_unreachable(&ClientError::CallTimedOut));
    assert!(broker_unreachable(&ClientError::SubmissionFull));
    assert!(broker_unreachable(&no_broker(ErrorKind::NotFound, "No such file")));
    assert!(!broker_unreachable(&no_broker(ErrorKind::Other, "denied")));
    assert!(!broker_unreachable(&ClientError::Refused {
        request: Request::Publish,
        words: "channel already exists".to_string(),
    }));
    assert_eq!(
        no_broker(ErrorKind::Other, "denied").message(),
        "cannot open control segment (is impulsed running?): denied"
    );
}

#[test]
fn errors_in_words() {
    let refused = |request: Request| {
        ClientError::Refused { request, words: "why".to_string() }.message()
    };
    assert_eq!(refused(Request::Register), "register rejected: why");
    assert_eq!(refused(Request::Publish), "publish failed: why");
    assert_eq!(refused(Request::Subscribe), "subscribe failed: why");
    assert_eq!(refused(Request::Expose), "expose failed: why");
    assert_eq!(refused(Request::Lookup), "lookup failed: why");
    assert_eq!(
        ClientError::MessageSchema { expected: 0xA, got: 0 }.message(),
        "message schema mismatch: expected 0xa, got 0x0"
    );
    assert_eq!(
        ClientError::ResponseSchema { expected: 1, got: 255 }.message(),
        "response schema mismatch: expected 0x1, got 0xff"
    );
    assert_eq!(
        ClientError::Remote { status: -3, words: "boom".to_string() }.message(),
        "remote function error (-3): boom"
    );
    assert_eq!(ClientError::ChannelFull.message(), "channel full (slow subscriber)");
    assert_eq!(ClientError::RequestRingFull.message(), "function request ring full");
    assert_eq!(ClientError::ReplyRingFull.message(), "caller reply ring full");
    assert_eq!(ClientError::CallTimedOut.message(), "rpc call timed out");
    assert_eq!(
        ClientError::CallRequestSchema.message(),
        "call rejected: request schema mismatch"
    );
    assert_eq!(
        ClientError::CallResponseSchema.message(),
        "call rejected: response schema mismatch"
    );
}

#[test]
fn coming_back_keeps_what_is_owned() {
    let mut conn = inner();
    assert_eq!(conn.reply_segment(), "/impulse-ring.cli.9.v1");
    assert_eq!((conn.client_id(), conn.epoch(), conn.running()), (0, 100, true));
    let f = conn.register_entry(Reg::Function {
        name: "add".to_string(),
        req_schema_json: "q".to_string(),
        resp_schema_json: "s".to_string(),
        key: Some("k".to_string()),
        arena_cap: 4,
    });
    let c = conn.register_entry(Reg::Channel {
        name: "one".to_string(),
        schema_json: "j".to_string(),
        key: None,
    });
    let gone = conn.register_entry(Reg::Channel {
        name: "two".to_string(),
        schema_json: "j".to_string(),
        key: None,
    });
    assert_eq!((f, c, gone), (1, 2, 3));
    conn.deregister(gone);
    conn.register(77, 1);
    assert_eq!(steps(&conn, Err("NoReply"), None, Ok(()), Ok(9)), "look 100, return NoReply");
    assert_eq!(steps(&conn, Err("NoReply"), Some(100), Ok(()), Ok(9)), "look 100, return NoReply");
    assert_eq!(
        steps(&conn, Err("NoReply"), Some(101), Ok(()), Ok(9)),
        "look 100, back from 100, again, return 9"
    );
    assert_eq!(
        steps(&conn, Err("NoReply"), Some(101), Ok(()), Err("NoReply")),
        "look 100, back from 100, again, return NoReply"
    );
    assert_eq!(
        steps(&conn, Err("NoReply"), Some(101), Err("SubmissionFull"), Ok(9)),
        "look 100, back from 100, return SubmissionFull"
    );
    assert_eq!(steps(&conn, Err("ChannelFull"), Some(101), Ok(()), Ok(9)), "return ChannelFull");
    assert_eq!(steps(&conn, Ok(4), Some(101), Ok(()), Ok(9)), "return 4");
    assert_eq!(conn.watch(), Some(100));
    assert!(restarted(100, Some(101)));
    assert!(!restarted(100, Some(100)));
    assert!(!restarted(100, None));
    assert!(conn.stranded(100));
    conn.reconnect(Transport::new(10, 101));
    assert!(!conn.stranded(100));
    assert!(conn.pending.is_empty());
    let list = conn.replay();
    assert_eq!(list.len(), 2);
    match &list[0] {
        (2, Reg::Channel { name, schema_json, key }) => {
            assert_eq!((name.as_str(), schema_json.as_str(), key), ("one", "j", &None));
        }
        other => panic!("{other:?}"),
    }
    match &list[1] {
        (1, Reg::Function { name, arena_cap, .. }) => assert_eq!((name.as_str(), *arena_cap), ("add", 4)),
        other => panic!("{other:?}"),
    }
    conn.set_auto_reconnect(false);
    assert_eq!(steps(&conn, Err("NoReply"), Some(102), Ok(()), Ok(9)), "return NoReply");
    assert_eq!(conn.watch(), None);
    conn.set_auto_reconnect(true);
    assert!(conn.auto_reconnect());
    conn.stop();
    assert_eq!(conn.watch(), None);
}

#[test]
fn messages_of_a_channel() {
    let bytes = message_bytes(7, vec![1, 2]);
    assert_eq!(accept(7, &bytes).unwrap(), vec![1, 2]);
    assert_eq!(
        accept(8, &bytes).unwrap_err().message(),
        "message schema mismatch: expected 0x8, got 0x7"
    );
    assert_eq!(accept(8, &[0]).unwrap_err().message(), "frame shorter than header");
    assert!(published(true).is_ok());
    assert_eq!(published(false).unwrap_err().message(), "channel full (slow subscriber)");
}

fn request() -> RpcRequest {
    RpcRequest {
        correlation_id: 3,
        caller_id: 1,
        reply_segment: "/r".to_string(),
        arg_fp: 20,
        args: vec![],
    }
}

#[test]
fn answers_of_a_service() {
    assert!(check_args(&request(), 20).is_none());
    let m = check_args(&request(), 21).unwrap();
    assert_eq!((m.correlation_id, m.status), (3, status::ERR_SCHEMA_MISMATCH));
    assert_eq!(m.message, "request schema mismatch");
    let m = respond(3, u64::MAX, Served::Result(vec![5]));
    assert_eq!((m.status, m.result_fp), (status::OK, -1));
    assert_eq!(check_response(m, u64::MAX).unwrap(), vec![5]);
    let m = respond(3, 9, Served::BadArgs("x".to_string()));
    assert_eq!((m.status, m.message.as_str()), (status::ERR_INTERNAL, "bad args: x"));
    let m = respond(3, 9, Served::EncodeFailed("y".to_string()));
    assert_eq!(m.message, "encode failed: y");
    assert_eq!(
        check_response(m, 9).unwrap_err().message(),
        format!("remote function error ({}): encode failed: y", status::ERR_INTERNAL)
    );
    let m = respond(3, 9, Served::Result(vec![5]));
    assert_eq!(
        check_response(m, 10).unwrap_err().message(),
        "response schema mismatch: expected 0xa, got 0x9"
    );
    assert!(responded(true).is_ok());
    assert_eq!(responded(false).unwrap_err().message(), "caller reply ring full");
}

#[test]
fn calls_are_checked_before_they_are_sent() {
    let lr = LookupReply {
        correlation_id: 1,
        fn_id: 1,
        req_fp: 20,
        resp_fp: 30,
        req_arena: "/a".to_string(),
        status: 0,
        message: String::new(),
    };
    assert!(check_call(&lr, 20, 30).is_ok());
    assert_eq!(
        check_call(&lr, 21, 31).unwrap_err().message(),
        "call rejected: request schema mismatch"
    );
    assert_eq!(
        check_call(&lr, 20, 31).unwrap_err().message(),
        "call rejected: response schema mismatch"
    );
    let mut conn = inner();
    conn.register(4, 1);
    assert!(conn.call_placed(4, true).is_ok());
    assert!(conn.pending.contains_key(&4));
    assert_eq!(conn.call_placed(4, false).unwrap_err().message(), "function request ring full");
    assert!(conn.pending.is_empty());
}

#[test]
fn rounds_of_blocking() {
    assert_eq!(block_on(Some(7), 0, 0, false), BlockStep::Return(Some(7)));
    assert_eq!(block_on(Some(7), 9, 5, false), BlockStep::Return(Some(7)));
    assert_eq!(block_on(None::<i32>, 0, 0, false), BlockStep::Return(None));
    assert_eq!(block_on(None::<i32>, 5, 5, true), BlockStep::Return(None));
    assert_eq!(block_on(None::<i32>, 4, 5, true), BlockStep::PollAgain);
    assert_eq!(block_on(None::<i32>, 1, 5, false), BlockStep::Park { nanos: 4 });
}

#[test]
fn one_failure_does_not_stop_the_rest() {
    let channel = |name: &str| Reg::Channel {
        name: name.to_string(),
        schema_json: "j".to_string(),
        key: None,
    };
    let list = vec![(4, channel("one")), (7, channel("two")), (9, channel("three"))];
    let asked = RefCell::new(Vec::new());
    let ask = |reg: &Reg| match reg {
        Reg::Channel { name, .. } => {
            asked.borrow_mut().push(name.clone());
            if name == "two" { Err(ClientError::NoReply) } else { Ok("new") }
        }
        other => panic!("{other:?}"),
    };
    let done = bring_back(&list, ask).unwrap();
    assert_eq!(*asked.borrow(), vec!["one", "two", "three"]);
    let mut rings = vec![(4, "old"), (7, "old"), (9, "old")];
    for rebind in done {
        match rebind {
            Rebind::Bind { id, ring } => rings.iter_mut().find(|r| r.0 == id).unwrap().1 = ring,
            Rebind::Keep { id, failed } => {
                assert_eq!((id, failed.message().as_str()), (7, "timed out waiting for broker reply"));
            }
        }
    }
    assert_eq!(rings, vec![(4, "new"), (7, "old"), (9, "new")]);
}

#[test]
fn answers_bind_rings_one_by_one() {
    let channel = |name: &str| Reg::Channel {
        name: name.to_string(),
        schema_json: "j".to_string(),
        key: None,
    };
    let list = vec![(3, channel("one")), (5, channel("two"))];
    let done = rebinds(&list, vec![Err(ClientError::SubmissionFull), Ok(8)]);
    assert_eq!(done.len(), 2);
    assert!(matches!(&done[0], Rebind::Keep { id: 3, failed: ClientError::SubmissionFull }));
    assert!(matches!(&done[1], Rebind::Bind { id: 5, ring: 8 }));
    assert!(rebinds::<u8>(&vec![], vec![]).is_empty());
}

#[test]
fn failed_registrations_are_tried_again() {
    let mut conn: Inner<u32> = Inner::start("app", Transport::new(9, 100));
    let function = conn.register_entry(Reg::Function {
        name: "add".to_string(),
        req_schema_json: "i".to_string(),
        resp_schema_json: "o".to_string(),
        key: None,
        arena_cap: 4,
    });
    let mut ids = vec![function];
    for name in ["one", "two"] {
        ids.push(conn.register_entry(Reg::Channel {
            name: name.to_string(),
            schema_json: "j".to_string(),
            key: None,
        }));
    }
    let owed = |conn: &Inner<u32>, live: Option<u64>| match conn.watched(101, live) {
        Watched::BringBack(list) => list.iter().map(|r| r.0).collect::<Vec<u64>>(),
        Watched::Rest => vec![],
        Watched::ComeBack => vec![0],
    };
    assert!(matches!(conn.watched(100, Some(101)), Watched::ComeBack));
    conn.reconnect(Transport::new(10, 101));
    assert_eq!(owed(&conn, Some(101)), Vec::<u64>::new());

    // Only the second channel is brought back.
    let ask = |reg: &Reg| match reg {
        Reg::Channel { name, .. } if name == "two" => Ok(7),
        _ => Err(ClientError::NoReply),
    };
    for rebind in bring_back(&conn.replay(), ask).unwrap() {
        conn.note_replayed(&rebind);
    }
    assert_eq!(owed(&conn, Some(101)), vec![ids[1], ids[0]]);
    assert_eq!(owed(&conn, None), Vec::<u64>::new());
    assert_eq!(owed(&conn, Some(102)), vec![0]);
    assert!(matches!(conn.watched(100, Some(100)), Watched::Rest));

    // The next round asks for the two others, and the function is still refused.
    let ask = |reg: &Reg| match reg {
        Reg::Channel { .. } => Ok(8),
        _ => Err(ClientError::NoReply),
    };
    for rebind in bring_back(&conn.replay_owed(), ask).unwrap() {
        conn.note_replayed(&rebind);
    }
    assert_eq!(owed(&conn, Some(101)), vec![ids[0]]);

    // What is forgotten is no longer owed, and an answer that comes late does not change that.
    conn.deregister(ids[0]);
    assert_eq!(owed(&conn, Some(101)), Vec::<u64>::new());
    conn.note_replayed(&Rebind::<u8>::Keep { id: ids[0], failed: ClientError::NoReply });
    assert_eq!(owed(&conn, Some(101)), Vec::<u64>::new());
    assert_eq!(conn.replay().len(), 2);
}
