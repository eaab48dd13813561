use std::collections::{HashMap, HashSet};

use apache_avro::types::Value;
use impulse_ring::avro::{self, Record, Scalar, Schema};
use impulse_ring::broker::{
    found_of, guard_singleton, sent, Action, Broker, BrokerError, Found, Guard, Round, StartError,
    Step,
};
use impulse_ring::channel::{accept, message_bytes, Publisher, RecvStep, Subscriber};
use impulse_ring::client::{
    exposed, listed, looked_up, replay_answer, replayed, restarted, subscribed, CallEnd, Came,
    ClientError, Dispatch, Inner, Rebind, Reg, Retry, Then, Transport,
};
use impulse_ring::client;
use impulse_ring::control::{self, ARENA_CAP, REPLY_CAP};
use impulse_ring::frame::Frame;
use impulse_ring::proto::{to_frame, Catalog, ChannelInfo, Heartbeat, Kind, RegisterReply};
use impulse_ring::ring::{ring_bytes, PushStep, Ring};
use impulse_ring::rpc::{decode_record, handle_one, response_frame, service_request};
use impulse_ring::shm::{Failure, Segment, ShmError};

const METRIC_SCHEMA: &str = r#"{
  "type":"record","name":"Metric","namespace":"ring.test",
  "fields":[{"name":"name","type":"string"},{"name":"value","type":"double"}]
}"#;

const ADD_REQ_SCHEMA: &str = r#"{
  "type":"record","name":"AddReq","namespace":"ring.test",
  "fields":[{"name":"a","type":"long"},{"name":"b","type":"long"}]
}"#;

const ADD_RESP_SCHEMA: &str = r#"{
  "type":"record","name":"AddResp","namespace":"ring.test",
  "fields":[{"name":"sum","type":"long"}]
}"#;

fn segment(name: &str, cap: usize) -> Ring {
    let seg = Segment::from_image(name.to_string(), vec![0; ring_bytes(cap)]);
    match Ring::format(seg, 0, cap) {
        Ok(ring) => ring,
        Err(_) => panic!("segment too small"),
    }
}

/// Shared memory by name, with a broker that works on it.
struct Bus {
    catalog: Catalog,
    broker: Broker,
    control: Ring,
    epoch: u64,
    segments: HashMap<String, Ring>,
    alive: HashSet<i32>,
    failures: Vec<BrokerError>,
    next: u64,
}

impl Bus {
    fn start(epoch: u64) -> Bus {
        let image = Segment::from_image(
            "/impulse-ring.ctl.v1".to_string(),
            vec![0; control::control_segment_bytes()],
        );
        let control = match control::format_control(image, 1, epoch) {
            Ok(ring) => ring,
            Err(_) => panic!("control segment too small"),
        };
        Bus {
            catalog: Catalog::build().unwrap(),
            broker: Broker::new(),
            control,
            epoch,
            segments: HashMap::new(),
            alive: HashSet::new(),
            failures: Vec::new(),
            next: 1,
        }
    }

    /// A fresh broker on fresh memory.
    fn restart(&mut self, epoch: u64) {
        let fresh = Bus::start(epoch);
        self.broker = fresh.broker;
        self.control = fresh.control;
        self.epoch = epoch;
        self.segments.clear();
    }

    fn number(&mut self) -> i64 {
        self.next += 1;
        self.next as i64
    }

    fn run(&mut self) {
        loop {
            match self.broker.run(&self.catalog, &mut self.control, 0) {
                Round::Handled(step) => self.perform(step),
                Round::TimedOut => break,
                Round::Park { .. } => panic!("nothing to wait for"),
            }
        }
    }

    fn perform(&mut self, step: Step) {
        if let Some(released) = step.released {
            for arena in released.arenas {
                assert!(self.segments.remove(&arena).is_some(), "{arena} was there");
            }
        }
        let next = match step.action {
            Action::Done => return,
            Action::OpenReply(m) => {
                assert!(self.segments.contains_key(&m.reply_segment));
                let (_id, action) = self.broker.opened(&self.catalog, m);
                Step { released: None, action }
            }
            Action::Probe { pid, question } => {
                let alive = self.alive.contains(&pid);
                self.broker.probed(&self.catalog, question, alive)
            }
            Action::Create { arena, cap, pending } => {
                self.segments.insert(arena.clone(), segment(&arena, cap));
                let action = self.broker.created(&self.catalog, pending);
                Step { released: None, action }
            }
            Action::Send { client_id, frame } => {
                let name = self.broker.rings.get(&client_id).unwrap().clone();
                let pushed = self.segments.get_mut(&name).unwrap().try_push(&frame.encode());
                assert!(sent(pushed).is_ok());
                return;
            }
            Action::Fail(e) => {
                self.failures.push(e);
                return;
            }
        };
        self.perform(next);
    }
}

struct Service {
    arena: String,
    req_schema: Schema,
    resp_schema: Schema,
    req_fp: u64,
    resp_fp: u64,
}

/// A connection; `arenas` are the arenas of its registrations by their ids.
struct Conn {
    inner: Inner<i64>,
    pid: i32,
    arenas: HashMap<u64, String>,
    services: HashMap<u64, Service>,
}

fn add(req: Record) -> Record {
    let mut sum = 0;
    for (_name, x) in &req.fields {
        if let Scalar::Long(n) = x {
            sum += n;
        }
    }
    Record { fields: vec![("sum".to_string(), Scalar::Long(sum))], rows: vec![] }
}

impl Conn {
    fn connect(bus: &mut Bus, app_name: &str, pid: i32) -> Conn {
        let nonce = bus.number() as u64;
        let transport = Transport::new(nonce, bus.epoch);
        let name = transport.reply_segment.clone();
        bus.segments.insert(name.clone(), segment(&name, REPLY_CAP));
        bus.alive.insert(pid);
        let mut conn = Conn {
            inner: Inner::start(app_name, transport),
            pid,
            arenas: HashMap::new(),
            services: HashMap::new(),
        };
        conn.join(bus).expect("register");
        conn
    }

    fn join(&mut self, bus: &mut Bus) -> Result<i64, ClientError> {
        let corr = bus.number();
        let frame = self.inner.do_register(&bus.catalog, corr, self.pid as i64)?;
        let reply = self.ask(bus, corr, frame)?;
        self.inner.registered(&bus.catalog, &reply)
    }

    /// Takes what came in on the reply ring, and gives the reply to the call `corr`.
    fn reply(&mut self, bus: &mut Bus, corr: i64) -> Option<Frame> {
        let name = self.inner.reply_segment();
        let mut got = None;
        if let Some(ring) = bus.segments.get_mut(&name) {
            while let Some(bytes) = ring.try_pop() {
                match self.inner.dispatch(&bus.catalog, &bytes) {
                    Dispatch::Deliver(to, frame) => {
                        assert_eq!(to, corr);
                        got = Some(frame);
                    }
                    other => panic!("{other:?}"),
                }
            }
        }
        got
    }

    fn ask(&mut self, bus: &mut Bus, corr: i64, frame: Frame) -> Result<Frame, ClientError> {
        self.inner.register(corr, corr);
        if self.inner.epoch() == bus.epoch {
            assert_eq!(self.inner.submit(&mut bus.control, &frame, 0), PushStep::Pushed);
            bus.run();
        }
        let end = match self.reply(bus, corr) {
            Some(frame) => CallEnd::Answered(frame),
            None => CallEnd::NoAnswer,
        };
        self.inner.call_control(corr, end)
    }

    /// Runs an operation, and once more where the broker was restarted under it.
    fn with_reconnect<T>(
        &mut self,
        bus: &mut Bus,
        mut op: impl FnMut(&mut Conn, &mut Bus) -> Result<T, ClientError>,
    ) -> Result<T, ClientError> {
        let mut at = Retry::Run;
        loop {
            let came = match &at {
                Retry::Run | Retry::RunAgain => Came::Ran(op(self, bus)),
                Retry::Look { .. } => Came::Looked(Some(bus.epoch)),
                Retry::ComeBack { observed } => {
                    let observed = *observed;
                    self.come_back(bus, observed);
                    Came::CameBack(Ok(()))
                }
            };
            match self.inner.with_reconnect(at, came) {
                Then::Do(next) => at = next,
                Then::Return(r) => return r,
            }
        }
    }

    fn come_back(&mut self, bus: &mut Bus, failed_epoch: u64) {
        if !self.inner.stranded(failed_epoch) {
            return;
        }
        let nonce = bus.number() as u64;
        let transport = Transport::new(nonce, bus.epoch);
        let name = transport.reply_segment.clone();
        bus.segments.insert(name.clone(), segment(&name, REPLY_CAP));
        self.inner.reconnect(transport);
        self.join(bus).expect("register again");
        for (id, reg) in self.inner.replay() {
            let granted = self.ask_again(bus, &reg);
            match (replayed(id, granted), reg) {
                (Rebind::Bind { id, ring }, Reg::Channel { .. }) => {
                    self.arenas.insert(id, ring);
                }
                (Rebind::Bind { id, ring }, Reg::Function { .. }) => {
                    self.services.get_mut(&id).unwrap().arena = ring;
                }
                (Rebind::Keep { failed, .. }, _) => panic!("{failed:?}"),
            }
        }
    }

    fn ask_again(&mut self, bus: &mut Bus, reg: &Reg) -> Result<String, ClientError> {
        let corr = bus.number();
        let frame = self.inner.replay_request(&bus.catalog, corr, reg)?;
        let reply = self.ask(bus, corr, frame)?;
        replay_answer(&bus.catalog, reg, &reply)
    }

    fn publish_once(
        &mut self,
        bus: &mut Bus,
        name: &str,
        schema_json: &str,
        key: Option<&str>,
    ) -> Result<(String, u64), ClientError> {
        let corr = bus.number();
        let frame = self.inner.do_publish(&bus.catalog, corr, name, schema_json, key)?;
        let reply = self.ask(bus, corr, frame)?;
        client::published(&bus.catalog, &reply)
    }

    fn publish_channel(
        &mut self,
        bus: &mut Bus,
        name: &str,
        schema_json: &str,
        key: Option<&str>,
    ) -> Result<(u64, u64), ClientError> {
        let (arena, fp) = self.publish_once(bus, name, schema_json, key)?;
        let id = self.inner.register_entry(Reg::Channel {
            name: name.to_string(),
            schema_json: schema_json.to_string(),
            key: key.map(str::to_string),
        });
        self.arenas.insert(id, arena);
        Ok((id, fp))
    }

    fn expose_once(
        &mut self,
        bus: &mut Bus,
        name: &str,
        req: &str,
        resp: &str,
        key: Option<&str>,
        cap: i64,
    ) -> Result<(String, u64, u64), ClientError> {
        let corr = bus.number();
        let frame = self.inner.do_expose(&bus.catalog, corr, name, req, resp, key, cap)?;
        let reply = self.ask(bus, corr, frame)?;
        exposed(&bus.catalog, &reply)
    }

    fn expose_function(
        &mut self,
        bus: &mut Bus,
        name: &str,
        key: Option<&str>,
    ) -> Result<u64, ClientError> {
        let (arena, req_fp, resp_fp) =
            self.expose_once(bus, name, ADD_REQ_SCHEMA, ADD_RESP_SCHEMA, key, 0)?;
        let id = self.inner.register_entry(Reg::Function {
            name: name.to_string(),
            req_schema_json: ADD_REQ_SCHEMA.to_string(),
            resp_schema_json: ADD_RESP_SCHEMA.to_string(),
            key: key.map(str::to_string),
            arena_cap: 0,
        });
        self.services.insert(
            id,
            Service {
                arena,
                req_schema: avro::parse(ADD_REQ_SCHEMA).unwrap().0,
                resp_schema: avro::parse(ADD_RESP_SCHEMA).unwrap().0,
                req_fp,
                resp_fp,
            },
        );
        Ok(id)
    }

    fn list_channels(&mut self, bus: &mut Bus) -> Result<Vec<ChannelInfo>, ClientError> {
        let corr = bus.number();
        let frame = self.inner.list_channels(&bus.catalog, corr)?;
        let reply = self.ask(bus, corr, frame)?;
        listed(&bus.catalog, &reply)
    }

    fn subscribe(
        &mut self,
        bus: &mut Bus,
        channel_id: i64,
        key: Option<&str>,
        schema_json: &str,
    ) -> Result<(String, u64), ClientError> {
        let (_schema, expected) = avro::parse(schema_json).unwrap();
        let corr = bus.number();
        let frame = self.inner.do_subscribe(&bus.catalog, corr, channel_id, key, expected)?;
        let reply = self.ask(bus, corr, frame)?;
        subscribed(&bus.catalog, &reply)
    }

    /// Serves the requests on all arenas of this connection.
    fn serve(&self, bus: &mut Bus) {
        for s in self.services.values() {
            let mut requests = Vec::new();
            if let Some(ring) = bus.segments.get_mut(&s.arena) {
                while let Some(bytes) = ring.try_pop() {
                    requests.push(bytes);
                }
            }
            for bytes in requests {
                let req = service_request(&bus.catalog, &bytes).unwrap();
                let response =
                    handle_one(&req, &s.req_schema, &s.resp_schema, s.req_fp, s.resp_fp, &add);
                let frame = response_frame(&bus.catalog, &response).unwrap();
                let ring = bus.segments.get_mut(&req.reply_segment).unwrap();
                assert!(ring.try_push(&frame.encode()));
            }
        }
    }

    fn call_once(
        &mut self,
        bus: &mut Bus,
        service: &Conn,
        key: Option<&str>,
        a: i64,
        b: i64,
    ) -> Result<i64, ClientError> {
        let (req_schema, arg_fp) = avro::parse(ADD_REQ_SCHEMA).unwrap();
        let (resp_schema, expected) = avro::parse(ADD_RESP_SCHEMA).unwrap();
        let corr = bus.number();
        let frame = self.inner.do_lookup(&bus.catalog, corr, "add", key)?;
        let reply = self.ask(bus, corr, frame)?;
        let lr = looked_up(&bus.catalog, &reply)?;
        let req = Record {
            fields: vec![("a".to_string(), Scalar::Long(a)), ("b".to_string(), Scalar::Long(b))],
            rows: vec![],
        };
        let corr = bus.number();
        let frame = self.inner.call(&bus.catalog, corr, &lr, req, &req_schema, arg_fp, expected)?;
        self.inner.register(corr, corr);
        let pushed = bus.segments.get_mut(&lr.req_arena).unwrap().try_push(&frame.encode());
        self.inner.call_placed(corr, pushed)?;
        service.serve(bus);
        let frame = match self.reply(bus, corr) {
            Some(frame) => frame,
            None => return Err(ClientError::CallTimedOut),
        };
        let record = decode_record(&bus.catalog, &frame, &resp_schema, expected)?;
        match &record.fields[0] {
            (_, Scalar::Long(sum)) => Ok(*sum),
            _ => panic!("not a sum"),
        }
    }

    fn call_add(
        &mut self,
        bus: &mut Bus,
        service: &Conn,
        key: Option<&str>,
        a: i64,
        b: i64,
    ) -> Result<i64, ClientError> {
        self.with_reconnect(bus, |conn, bus| conn.call_once(bus, service, key, a, b))
    }

    fn leave(self, bus: &mut Bus) {
        let corr = bus.number();
        let frame = self.inner.send_unregister(&bus.catalog, corr).unwrap();
        assert_eq!(self.inner.submit(&mut bus.control, &frame, 0), PushStep::Pushed);
        bus.run();
        bus.segments.remove(&self.inner.reply_segment());
    }
}

#[allow(deprecated)]
fn metric_bytes(name: &str, value: f64) -> Vec<u8> {
    let schema = apache_avro::Schema::parse_str(METRIC_SCHEMA).unwrap();
    let record = Value::Record(vec![
        ("name".to_string(), Value::String(name.to_string())),
        ("value".to_string(), Value::Double(value)),
    ]);
    apache_avro::to_avro_datum(&schema, record).unwrap()
}

#[allow(deprecated)]
fn read_metric(mut body: &[u8]) -> (String, f64) {
    let schema = apache_avro::Schema::parse_str(METRIC_SCHEMA).unwrap();
    match apache_avro::from_avro_datum(&schema, &mut body, None).unwrap() {
        Value::Record(fields) => match (&fields[0].1, &fields[1].1) {
            (Value::String(s), Value::Double(x)) => (s.clone(), *x),
            _ => panic!("not a metric"),
        },
        _ => panic!("not a record"),
    }
}

fn publish_metric(bus: &mut Bus, conn: &Conn, channel: (u64, u64), name: &str, value: f64) -> bool {
    let arena = conn.arenas.get(&channel.0).unwrap();
    let bytes = message_bytes(channel.1, metric_bytes(name, value));
    bus.segments.get_mut(arena).unwrap().try_push(&bytes)
}

fn recv_metric(bus: &mut Bus, sub: &(String, u64)) -> Option<(String, f64)> {
    let bytes = bus.segments.get_mut(&sub.0).unwrap().try_pop()?;
    Some(read_metric(&accept(sub.1, &bytes).expect("recv ok")))
}

#[test]
fn full_flow_pubsub_and_rpc() {
    let mut bus = Bus::start(1);
    {
        let mut svc = Conn::connect(&mut bus, "svc-a", 10);
        let publisher = svc
            .publish_channel(&mut bus, "metrics", METRIC_SCHEMA, Some("chan-key"))
            .expect("publish channel");
        assert!(publish_metric(&mut bus, &svc, publisher, "cpu", 0.75), "publish message");
        svc.expose_function(&mut bus, "add", Some("fn-key")).expect("expose add");

        let mut client = Conn::connect(&mut bus, "client-b", 11);
        let channels = client.list_channels(&mut bus).expect("list channels");
        let metrics = channels.iter().find(|c| c.name == "metrics").expect("metrics channel listed");
        assert!(metrics.requires_key, "metrics must require a key");
        assert_eq!(metrics.owner_app, "svc-a");
        let channel_id = metrics.channel_id;

        let denied = client.subscribe(&mut bus, channel_id, Some("wrong"), METRIC_SCHEMA);
        assert!(denied.is_err(), "subscribe with wrong key must fail");
        assert_eq!(denied.unwrap_err().message(), "subscribe failed: invalid access key");

        let mismatch = client.subscribe(
            &mut bus,
            channel_id,
            Some("chan-key"),
            r#"{"type":"record","name":"Other","fields":[{"name":"x","type":"int"}]}"#,
        );
        assert!(mismatch.is_err(), "subscribe with wrong schema must fail");

        let sub = client
            .subscribe(&mut bus, channel_id, Some("chan-key"), METRIC_SCHEMA)
            .expect("subscribe ok");
        let got = recv_metric(&mut bus, &sub).expect("a message");
        assert_eq!(got, ("cpu".to_string(), 0.75));

        let sum = client.call_add(&mut bus, &svc, Some("fn-key"), 7, 35).expect("rpc ok");
        assert_eq!(sum, 42);

        let denied_call = client.call_add(&mut bus, &svc, Some("nope"), 1, 1);
        assert!(denied_call.is_err(), "call with wrong key must fail");
        assert_eq!(denied_call.unwrap_err().message(), "lookup failed: invalid access key");
        client.leave(&mut bus);
        svc.leave(&mut bus);
    }

    {
        let mut reborn = Conn::connect(&mut bus, "svc-a-restarted", 12);
        reborn
            .publish_channel(&mut bus, "metrics", METRIC_SCHEMA, Some("chan-key"))
            .expect("re-publish after the previous owner left");
        reborn
            .expose_function(&mut bus, "add", None)
            .expect("re-expose after the previous owner left");
        reborn.leave(&mut bus);
    }

    // An owner that died without leaving: its name is not taken from it while it lives, and
    // passes on once it is gone.
    let mut victim = Conn::connect(&mut bus, "crash-victim", 20);
    victim.expose_function(&mut bus, "crash.add", None).expect("victim expose");
    {
        let mut contender = Conn::connect(&mut bus, "crash-contender", 21);
        let refused = contender.expose_function(&mut bus, "crash.add", None);
        assert!(refused.is_err(), "must not steal a name from a live owner");
        assert_eq!(refused.unwrap_err().message(), "expose failed: function exists");
        contender.leave(&mut bus);
    }
    bus.alive.remove(&20);
    let mut reborn = Conn::connect(&mut bus, "crash-reborn", 22);
    reborn
        .expose_function(&mut bus, "crash.add", None)
        .expect("re-expose after the previous owner crashed (pid reclaim)");
    reborn.leave(&mut bus);

    // What is left is the victim's reply segment, which the broker removes as it goes down.
    for name in &bus.broker.reply_names {
        bus.segments.remove(name);
    }
    assert!(bus.segments.is_empty(), "shared memory leaked after shutdown");
    assert!(bus.failures.is_empty());
}

#[test]
fn connections_recover_after_broker_restart() {
    let mut bus = Bus::start(1);
    let mut svc = Conn::connect(&mut bus, "svc-restart", 30);
    svc.expose_function(&mut bus, "add", Some("fn-key")).expect("expose add");
    let publisher = svc
        .publish_channel(&mut bus, "metrics", METRIC_SCHEMA, Some("chan-key"))
        .expect("publish channel");
    let mut client = Conn::connect(&mut bus, "client-restart", 31);
    let epoch_before = client.inner.epoch();
    assert_eq!(
        client.call_add(&mut bus, &svc, Some("fn-key"), 7, 35).expect("rpc before restart"),
        42
    );

    bus.restart(2);

    // The service is idle: its watcher finds out.
    let observed = svc.inner.watch().unwrap();
    assert!(restarted(observed, Some(bus.epoch)));
    svc.come_back(&mut bus, observed);
    let sum = client.call_add(&mut bus, &svc, Some("fn-key"), 20, 22).unwrap();
    assert_eq!(sum, 42, "RPC must work again after the broker restart");
    assert_ne!(client.inner.epoch(), epoch_before, "epoch must advance after restart");

    assert!(publish_metric(&mut bus, &svc, publisher, "cpu", 0.5), "publish after restart");
    let chans = client.list_channels(&mut bus).expect("list channels");
    let c = chans.iter().find(|c| c.name == "metrics").expect("metrics channel was replayed");
    let id = c.channel_id;
    let sub = client
        .subscribe(&mut bus, id, Some("chan-key"), METRIC_SCHEMA)
        .expect("subscribe after restart");
    assert!(publish_metric(&mut bus, &svc, publisher, "cpu", 0.9), "publish for subscriber");
    let got = recv_metric(&mut bus, &sub).expect("a message");
    assert_eq!(got.0, "cpu");
    assert_eq!(recv_metric(&mut bus, &sub), Some(("cpu".to_string(), 0.9)));
    assert_eq!(recv_metric(&mut bus, &sub), None);
}

#[test]
fn auto_reconnect_can_be_disabled() {
    let mut bus = Bus::start(1);
    let mut client = Conn::connect(&mut bus, "client-noreconnect", 40);
    client.inner.set_auto_reconnect(false);
    assert!(!client.inner.auto_reconnect());
    let mut svc = Conn::connect(&mut bus, "svc-noreconnect", 41);
    svc.expose_function(&mut bus, "add", Some("fn-key")).expect("expose");
    assert_eq!(client.call_add(&mut bus, &svc, Some("fn-key"), 1, 2).expect("before"), 3);

    bus.restart(2);

    assert!(client.inner.watch().is_none());
    assert!(
        client.call_add(&mut bus, &svc, Some("fn-key"), 1, 2).is_err(),
        "a non-reconnecting connection must stay broken after a restart"
    );
}

#[test]
fn names_are_taken_and_schemas_checked() {
    let mut bus = Bus::start(1);
    let mut a = Conn::connect(&mut bus, "a", 50);
    let mut b = Conn::connect(&mut bus, "b", 51);
    a.publish_channel(&mut bus, "one", METRIC_SCHEMA, None).unwrap();
    assert_eq!(
        b.publish_channel(&mut bus, "one", METRIC_SCHEMA, None).unwrap_err().message(),
        "publish failed: channel already exists"
    );
    let e = b.publish_channel(&mut bus, "two", "nonsense", None).unwrap_err().message();
    assert!(e.starts_with("publish failed: bad schema: "), "{e}");
    let corr = bus.number();
    let frame = b.inner.do_expose(&bus.catalog, corr, "f", "x", ADD_RESP_SCHEMA, None, 0).unwrap();
    let reply = b.ask(&mut bus, corr, frame).unwrap();
    assert_eq!(exposed(&bus.catalog, &reply).unwrap_err().message(), "expose failed: bad schema");
    // A channel without a key is open to everyone, and an owner that died loses it.
    let id = a.list_channels(&mut bus).unwrap()[0].channel_id;
    assert!(b.subscribe(&mut bus, id, Some("any"), METRIC_SCHEMA).is_ok());
    assert_eq!(
        b.subscribe(&mut bus, id + 1, None, METRIC_SCHEMA).unwrap_err().message(),
        "subscribe failed: no such channel"
    );
    bus.alive.remove(&50);
    assert!(b.publish_channel(&mut bus, "one", METRIC_SCHEMA, None).is_ok());
    assert_eq!(b.list_channels(&mut bus).unwrap()[0].channel_id, id + 1);
}

#[test]
fn owners_without_a_process_keep_their_names() {
    let mut bus = Bus::start(1);
    let mut old = Conn::connect(&mut bus, "old", 0);
    old.publish_channel(&mut bus, "one", METRIC_SCHEMA, None).unwrap();
    bus.alive.clear();
    let mut b = Conn::connect(&mut bus, "b", 61);
    assert!(b.publish_channel(&mut bus, "one", METRIC_SCHEMA, None).is_err());
}

#[test]
fn request_arenas_have_the_size_that_was_asked_for() {
    let mut bus = Bus::start(1);
    let mut a = Conn::connect(&mut bus, "a", 70);
    for (name, cap, size) in [
        ("default", 0, ARENA_CAP),
        ("negative", -5, ARENA_CAP),
        ("odd", 300 * 1024, 512 * 1024),
        ("huge", i64::MAX, control::MAX_ARENA_CAP),
    ] {
        let (arena, _, _) =
            a.expose_once(&mut bus, name, ADD_REQ_SCHEMA, ADD_RESP_SCHEMA, None, cap).unwrap();
        assert_eq!(bus.segments.get(&arena).unwrap().capacity, size, "{name}");
    }
}

#[test]
fn messages_that_the_broker_does_not_take() {
    let mut bus = Bus::start(1);
    let mut fail = |bytes: Vec<u8>| {
        assert!(bus.control.try_push(&bytes));
        bus.run();
        bus.failures.pop().map(|e| e.message())
    };
    assert_eq!(fail(vec![1, 2]), Some("frame shorter than header".to_string()));
    assert_eq!(
        fail(Frame::new(5, vec![]).encode()),
        Some("unknown control schema fingerprint".to_string())
    );
    let c = Catalog::build().unwrap();
    let reply = RegisterReply { correlation_id: 1, client_id: 1, status: 0, message: String::new() };
    assert_eq!(
        fail(to_frame(&c, Kind::RegisterReply, &reply).unwrap().encode()),
        Some("unexpected control kind RegisterReply".to_string())
    );
    assert!(fail(Frame::new(c.fp(Kind::Subscribe), vec![]).encode()).is_some());
    let beat = Heartbeat { correlation_id: 1, client_id: 1, seq: 1 };
    assert_eq!(fail(to_frame(&c, Kind::Heartbeat, &beat).unwrap().encode()), None);
    let stranger: Inner<i64> = Inner::start("nobody", Transport::new(1, 1));
    assert_eq!(
        fail(stranger.list_channels(&c, 9).unwrap().encode()),
        Some("reply ring for client not found".to_string())
    );
    assert_eq!(sent(false).unwrap_err().message(), "reply ring full (client stuck?)");
}

#[test]
fn one_broker_at_a_time() {
    assert_eq!(guard_singleton(Found::Missing), Guard::Start);
    assert_eq!(guard_singleton(Found::Denied), Guard::AlreadyRunning);
    assert_eq!(
        guard_singleton(Found::Segment { valid: true, alive: true }),
        Guard::AlreadyRunning
    );
    assert_eq!(guard_singleton(Found::Segment { valid: true, alive: false }), Guard::Reclaim);
    assert_eq!(guard_singleton(Found::Segment { valid: false, alive: true }), Guard::Reclaim);
    assert_eq!(guard_singleton(Found::Failed), Guard::Fail);
    assert_eq!(found_of(Ok((true, false))), Found::Segment { valid: true, alive: false });
    assert_eq!(found_of(Err(Failure::Os { errno: 2 })), Found::Missing);
    assert_eq!(found_of(Err(Failure::Os { errno: 13 })), Found::Denied);
    assert_eq!(found_of(Err(Failure::Os { errno: 12 })), Found::Failed);
    assert_eq!(
        guard_singleton(found_of(Err(Failure::Shm(ShmError::ZeroSize)))),
        Guard::Reclaim
    );
    assert_eq!(found_of(Err(Failure::Shm(ShmError::NulInName))), Found::Failed);
    assert_eq!(
        StartError::AlreadyRunning.message(),
        "another impulsed broker is already running"
    );
    assert_eq!(StartError::Io("boom".to_string()).message(), "boom");
}

fn sample(n: i64) -> Record {
    Record {
        fields: vec![("a".to_string(), Scalar::Long(n)), ("b".to_string(), Scalar::Long(-n))],
        rows: vec![],
    }
}

#[test]
fn records_through_a_channel() {
    let (schema, fp) = avro::parse(ADD_REQ_SCHEMA).unwrap();
    let publisher = Publisher { schema, schema_fp: fp };
    let (schema, fp) = avro::parse(ADD_REQ_SCHEMA).unwrap();
    let subscriber = Subscriber { schema, schema_fp: fp };
    assert_eq!(publisher.schema_fp(), subscriber.schema_fp());
    let mut ring = segment("/x", 64);
    assert!(publisher.try_publish(&mut ring, sample(1)).unwrap());
    assert_eq!(publisher.publish(&mut ring, sample(2), 0).unwrap(), PushStep::Pushed);
    assert!(!publisher.try_publish(&mut ring, sample(3)).unwrap());
    assert_eq!(
        publisher.publish(&mut ring, sample(3), 8).unwrap(),
        PushStep::Park { seen: 0, nanos: 8 }
    );
    assert_eq!(
        publisher.publish(&mut ring, sample(3), 0).unwrap_err().message(),
        "channel full (slow subscriber)"
    );
    for n in [1, 2] {
        match subscriber.recv(&mut ring, 0).unwrap() {
            RecvStep::Received(r) => assert_eq!(format!("{r:?}"), format!("{:?}", sample(n))),
            other => panic!("{other:?}"),
        }
    }
    match subscriber.recv(&mut ring, 0).unwrap() {
        RecvStep::TimedOut => {}
        other => panic!("{other:?}"),
    }
    assert!(ring.try_push(&message_bytes(1, vec![])));
    assert!(subscriber.recv(&mut ring, 0).is_err());
    match subscriber.recv(&mut ring, 3).unwrap() {
        RecvStep::Park { seen: 3, nanos: 3 } => {}
        other => panic!("{other:?}"),
    }
    let bad = Record { fields: vec![], rows: vec![] };
    assert!(publisher.try_publish(&mut ring, bad).is_err());
}
