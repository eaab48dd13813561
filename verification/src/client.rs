//! A connector's decisions: what it asks the broker, what the broker's answers mean, who gets a
//! reply, and when to come back after the broker was restarted.
//!
//! The state is plain. Who performs the sending and the waiting hands in what came of it.
use std::collections::{HashMap, HashSet};

use vstd::prelude::*;

use crate::avro;
use crate::avro::{AvroError, Fingerprint, RecordView};
use crate::control;
use crate::control::ControlError;
use crate::frame;
use crate::frame::{Frame, FrameError, FrameView};
use crate::proto;
use crate::proto::messages::Message;
use crate::proto::status;
use crate::proto::{
    Catalog, ChannelInfo, ChannelList, ExposeFunction, ExposeReply, Kind, ListChannels,
    LookupFunction, LookupReply, ProtoError, PublishChannel, PublishReply, Register, RegisterReply,
    Subscribe, SubscribeReply, Unregister,
};
use crate::ring;
use crate::ring::{PushStep, Ring, RingError};
use crate::shm;
use crate::shm::Segment;
use crate::text;
use crate::util;

verus! {

broadcast use vstd::std_specs::hash::group_hash_axioms;

/// How long a connector waits for an answer of the broker, in nanoseconds.
pub const CONTROL_NANOS: u64 = 5_000_000_000;

/// How long a connector waits for room in the submission ring, in nanoseconds.
pub const SUBMIT_NANOS: u64 = 2_000_000_000;

/// How long a connector waits for room in the submission ring as it leaves, in nanoseconds.
pub const LEAVE_NANOS: u64 = 200_000_000;

/// How often a connector looks whether the broker was restarted, in nanoseconds.
pub const WATCH_NANOS: u64 = 250_000_000;

/// How long the dispatcher waits for a reply before it looks whether to go on, in nanoseconds.
pub const DISPATCH_NANOS: u64 = 100_000_000;

/// The heartbeat that a connector announces, in milliseconds.
pub const HEARTBEAT_MS: i64 = 1000;

// ---- errors --------------------------------------------------------------------------------

/// What sort of failure an error is, as far as it matters.
#[derive(Clone, Copy, Debug, PartialEq, Eq, Structural)]
pub enum ErrorKind {
    TimedOut,
    NotFound,
    Other,
}

/// What the broker refused.
#[derive(Clone, Copy, Debug, PartialEq, Eq, Structural)]
pub enum Request {
    Register,
    Publish,
    Subscribe,
    Expose,
    Lookup,
}

/// Why an operation of a connector failed.
#[derive(Debug)]
pub enum ClientError {
    /// The system refused something, in its words.
    System { kind: ErrorKind, words: String },
    Control(ControlError),
    Ring(RingError),
    Frame(FrameError),
    Proto(ProtoError),
    Avro(AvroError),
    SubmissionFull,
    NoReply,
    Refused { request: Request, words: String },
    ChannelFull,
    MessageSchema { expected: Fingerprint, got: Fingerprint },
    CallRequestSchema,
    CallResponseSchema,
    RequestRingFull,
    CallTimedOut,
    Remote { status: i32, words: String },
    ResponseSchema { expected: Fingerprint, got: Fingerprint },
    ReplyRingFull,
}

/// The words before the broker's own.
pub open spec fn refusal_text(request: Request) -> Seq<char> {
    match request {
        Request::Register => "register rejected: "@,
        Request::Publish => "publish failed: "@,
        Request::Subscribe => "subscribe failed: "@,
        Request::Expose => "expose failed: "@,
        Request::Lookup => "lookup failed: "@,
    }
}

fn refusal(request: Request) -> (r: &'static str)
    ensures
        r@ == refusal_text(request),
{
    match request {
        Request::Register => "register rejected: ",
        Request::Publish => "publish failed: ",
        Request::Subscribe => "subscribe failed: ",
        Request::Expose => "expose failed: ",
        Request::Lookup => "lookup failed: ",
    }
}

/// Two fingerprints in words.
pub open spec fn mismatch(front: Seq<char>, expected: Fingerprint, got: Fingerprint) -> Seq<char> {
    front + "0x"@ + text::hex(expected as nat) + ", got 0x"@ + text::hex(got as nat)
}

fn mismatch_string(front: &str, expected: Fingerprint, got: Fingerprint) -> (r: String)
    ensures
        r@ == mismatch(front@, expected, got),
{
    let mut s: String = front.to_owned();
    s.append("0x");
    s.append(text::hex_string(expected).as_str());
    s.append(", got 0x");
    s.append(text::hex_string(got).as_str());
    s
}

impl ClientError {
    /// What sort of failure the error is.
    pub open spec fn sort(self) -> ErrorKind {
        match self {
            ClientError::System { kind, words } => kind,
            ClientError::NoReply => ErrorKind::TimedOut,
            ClientError::CallTimedOut => ErrorKind::TimedOut,
            _ => ErrorKind::Other,
        }
    }

    /// What sort of failure the error is.
    pub fn kind(&self) -> (r: ErrorKind)
        ensures
            r == self.sort(),
    {
        match self {
            ClientError::System { kind, words: _ } => *kind,
            ClientError::NoReply => ErrorKind::TimedOut,
            ClientError::CallTimedOut => ErrorKind::TimedOut,
            _ => ErrorKind::Other,
        }
    }

    /// The error in words.
    pub open spec fn text(self) -> Seq<char> {
        match self {
            ClientError::System { kind, words } => words@,
            ClientError::Control(e) => e.text(),
            ClientError::Ring(e) => e.text(),
            ClientError::Frame(e) => e.text(),
            ClientError::Proto(e) => e.text(),
            ClientError::Avro(e) => e.text(),
            ClientError::SubmissionFull => "submission ring full (broker stuck?)"@,
            ClientError::NoReply => "timed out waiting for broker reply"@,
            ClientError::Refused { request, words } => refusal_text(request) + words@,
            ClientError::ChannelFull => "channel full (slow subscriber)"@,
            ClientError::MessageSchema { expected, got } => mismatch(
                "message schema mismatch: expected "@,
                expected,
                got,
            ),
            ClientError::CallRequestSchema => "call rejected: request schema mismatch"@,
            ClientError::CallResponseSchema => "call rejected: response schema mismatch"@,
            ClientError::RequestRingFull => "function request ring full"@,
            ClientError::CallTimedOut => "rpc call timed out"@,
            ClientError::Remote { status, words } => "remote function error ("@ + text::signed(
                status as int,
            ) + "): "@ + words@,
            ClientError::ResponseSchema { expected, got } => mismatch(
                "response schema mismatch: expected "@,
                expected,
                got,
            ),
            ClientError::ReplyRingFull => "caller reply ring full"@,
        }
    }

    /// The error in words.
    pub fn message(&self) -> (r: String)
        ensures
            r@ == self.text(),
    {
        match self {
            ClientError::System { kind: _, words } => words.clone(),
            ClientError::Control(e) => e.message(),
            ClientError::Ring(e) => e.message(),
            ClientError::Frame(e) => e.message(),
            ClientError::Proto(e) => e.message(),
            ClientError::Avro(e) => e.message(),
            ClientError::SubmissionFull => "submission ring full (broker stuck?)".to_owned(),
            ClientError::NoReply => "timed out waiting for broker reply".to_owned(),
            ClientError::Refused { request, words } => {
                let mut s: String = refusal(*request).to_owned();
                s.append(words.as_str());
                s
            },
            ClientError::ChannelFull => "channel full (slow subscriber)".to_owned(),
            ClientError::MessageSchema { expected, got } => mismatch_string(
                "message schema mismatch: expected ",
                *expected,
                *got,
            ),
            ClientError::CallRequestSchema => "call rejected: request schema mismatch".to_owned(),
            ClientError::CallResponseSchema => "call rejected: response schema mismatch".to_owned(),
            ClientError::RequestRingFull => "function request ring full".to_owned(),
            ClientError::CallTimedOut => "rpc call timed out".to_owned(),
            ClientError::Remote { status, words } => {
                let mut s: String = "remote function error (".to_owned();
                s.append(text::signed_string(*status).as_str());
                s.append("): ");
                s.append(words.as_str());
                s
            },
            ClientError::ResponseSchema { expected, got } => mismatch_string(
                "response schema mismatch: expected ",
                *expected,
                *got,
            ),
            ClientError::ReplyRingFull => "caller reply ring full".to_owned(),
        }
    }
}

/// The control segment cannot be opened.
pub fn no_broker(kind: ErrorKind, words: &str) -> (r: ClientError)
    ensures
        r matches ClientError::System { kind: k, words: w } && k == kind && w@
            == "cannot open control segment (is impulsed running?): "@ + words@,
{
    let mut s: String = "cannot open control segment (is impulsed running?): ".to_owned();
    s.append(words);
    ClientError::System { kind, words: s }
}

/// The error means that the broker stopped answering: nobody answered in time, something was
/// not there, or it says that the submission ring is full.
pub open spec fn means_unreachable(e: ClientError) -> bool {
    ||| e.sort() == ErrorKind::TimedOut
    ||| e.sort() == ErrorKind::NotFound
    ||| exists|at: int| text::occurs_at(e.text(), "submission ring full"@, at)
}

/// Whether an error means that the broker stopped answering.
pub fn broker_unreachable(e: &ClientError) -> (r: bool)
    ensures
        r == means_unreachable(*e),
{
    match e.kind() {
        ErrorKind::TimedOut => true,
        ErrorKind::NotFound => true,
        ErrorKind::Other => {
            let words: String = e.message();
            text::contains(words.as_str(), "submission ring full")
        },
    }
}

// ---- one reply -----------------------------------------------------------------------------

/// The place of one reply, with the waker of who polls for it.
#[derive(Debug)]
pub struct Slot<W> {
    pub frame: Option<Frame>,
    pub waker: Option<W>,
}

/// What a round of waiting came to.
#[derive(Debug)]
pub enum Wait {
    Ready(Frame),
    TimedOut,
    /// Wait for a notification, and look again.
    Sleep,
}

/// A reply is put into its place, and who polled for it comes back to be woken.
pub open spec fn completed<W>(a: Slot<W>, b: Slot<W>, frame: Frame, woken: Option<W>) -> bool {
    b == (Slot { frame: Some(frame), waker: None::<W> }) && woken == a.waker
}

/// A round of waiting takes the reply if it is there.
pub open spec fn waited<W>(a: Slot<W>, b: Slot<W>, timed_out: bool, r: Wait) -> bool {
    &&& b == (Slot { frame: None, ..a })
    &&& r == match a.frame {
        Some(frame) => Wait::Ready(frame),
        None => if timed_out {
            Wait::TimedOut
        } else {
            Wait::Sleep
        },
    }
}

/// A poll takes the reply if it is there, and leaves a waker otherwise.
pub open spec fn polled<W>(a: Slot<W>, b: Slot<W>, waker: W, r: Option<Frame>) -> bool {
    &&& r == a.frame
    &&& b == if a.frame is Some {
        Slot { frame: None, ..a }
    } else {
        Slot { frame: None, waker: Some(waker) }
    }
}

impl<W> Slot<W> {
    /// A place without a reply.
    pub fn new() -> (r: Slot<W>)
        ensures
            r.frame is None,
            r.waker is None,
    {
        Slot { frame: None, waker: None }
    }

    /// Puts the reply into its place. Who polled for it is to be woken, and who waits notified.
    pub fn complete(&mut self, frame: Frame) -> (r: Option<W>)
        ensures
            completed(*old(self), *final(self), frame, r),
    {
        self.frame = Some(frame);
        self.waker.take()
    }

    /// One round of waiting; `timed_out` says whether the last wait ran out.
    pub fn wait(&mut self, timed_out: bool) -> (r: Wait)
        ensures
            waited(*old(self), *final(self), timed_out, r),
    {
        match self.frame.take() {
            Some(frame) => Wait::Ready(frame),
            None => if timed_out {
                Wait::TimedOut
            } else {
                Wait::Sleep
            },
        }
    }

    /// Takes the reply, or leaves the waker to be woken once it is there.
    pub fn poll(&mut self, waker: W) -> (r: Option<Frame>)
        ensures
            polled(*old(self), *final(self), waker, r),
    {
        match self.frame.take() {
            Some(frame) => Some(frame),
            None => {
                self.waker = Some(waker);
                None
            },
        }
    }
}

/// Who polls before the reply is there is woken by it, and takes it, once.
pub proof fn law_reply_taken_once<W>(
    a: Slot<W>,
    b: Slot<W>,
    c: Slot<W>,
    d: Slot<W>,
    e: Slot<W>,
    waker: W,
    frame: Frame,
    woken: Option<W>,
    first: Option<Frame>,
    second: Option<Frame>,
    third: Option<Frame>,
)
    requires
        a.frame is None,
        polled(a, b, waker, first),
        completed(b, c, frame, woken),
        polled(c, d, waker, second),
        polled(d, e, waker, third),
    ensures
        first is None,
        woken == Some(waker),
        second == Some(frame),
        third is None,
{
}

/// A reply is taken by who waits even where the wait ran out as it came.
pub proof fn law_late_reply_taken<W>(
    a: Slot<W>,
    b: Slot<W>,
    c: Slot<W>,
    frame: Frame,
    woken: Option<W>,
    timed_out: bool,
    r: Wait,
)
    requires
        completed(a, b, frame, woken),
        waited(b, c, timed_out, r),
    ensures
        r == Wait::Ready(frame),
        c.frame is None,
{
}

// ---- the connection ------------------------------------------------------------------------

/// What a restart of the broker ends: the reply segment, the id that the broker gave, and the
/// epoch under which it was given.
#[derive(Debug)]
pub struct Transport {
    pub reply_segment: String,
    pub nonce: u64,
    pub client_id: i64,
    pub epoch: u64,
}

impl Transport {
    /// A transport that is not registered yet.
    pub fn new(nonce: u64, epoch: u64) -> (r: Transport)
        ensures
            r.reply_segment@ == util::numbered("/impulse-ring.cli."@, nonce as nat),
            r.nonce == nonce,
            r.client_id == 0,
            r.epoch == epoch,
    {
        Transport { reply_segment: util::client_segment(nonce), nonce, client_id: 0, epoch }
    }
}

/// What a connection owns on the bus and brings back after a restart of the broker.
#[derive(Debug)]
pub enum Reg {
    Channel { name: String, schema_json: String, key: Option<String> },
    Function {
        name: String,
        req_schema_json: String,
        resp_schema_json: String,
        key: Option<String>,
        arena_cap: i64,
    },
}

fn copy_key(key: &Option<String>) -> (r: Option<String>)
    ensures
        r == *key,
{
    match key {
        Some(s) => Some(s.clone()),
        None => None,
    }
}

impl Reg {
    fn copy(&self) -> (r: Reg)
        ensures
            r == *self,
    {
        match self {
            Reg::Channel { name, schema_json, key } => Reg::Channel {
                name: name.clone(),
                schema_json: schema_json.clone(),
                key: copy_key(key),
            },
            Reg::Function { name, req_schema_json, resp_schema_json, key, arena_cap } =>
                Reg::Function {
                name: name.clone(),
                req_schema_json: req_schema_json.clone(),
                resp_schema_json: resp_schema_json.clone(),
                key: copy_key(key),
                arena_cap: *arena_cap,
            },
        }
    }
}

/// The state of a connection. `P` is the handle by which a waiting call is reached.
pub struct Inner<P> {
    pub transport: Transport,
    pub pending: HashMap<i64, P>,
    pub app_name: String,
    pub running: bool,
    pub auto_reconnect: bool,
    pub registry: HashMap<u64, Reg>,
    pub reg_seq: u64,
    /// The registrations that were not brought back when they were last asked for.
    pub owed: HashSet<u64>,
}

#[verifier::ext_equal]
pub ghost struct InnerView<P> {
    pub transport: Transport,
    pub pending: Map<i64, P>,
    pub app_name: Seq<char>,
    pub running: bool,
    pub auto_reconnect: bool,
    pub registry: Map<u64, Reg>,
    pub reg_seq: u64,
    pub owed: Set<u64>,
}

impl<P> View for Inner<P> {
    type V = InnerView<P>;

    open spec fn view(&self) -> InnerView<P> {
        InnerView {
            transport: self.transport,
            pending: self.pending@,
            app_name: self.app_name@,
            running: self.running,
            auto_reconnect: self.auto_reconnect,
            registry: self.registry@,
            reg_seq: self.reg_seq,
            owed: self.owed@,
        }
    }
}

impl<P> InnerView<P> {
    /// Every registration was given an id that is not given again, and only registrations are
    /// still to be brought back.
    pub open spec fn wf(self) -> bool {
        &&& 1 <= self.reg_seq
        &&& forall|id: u64| #[trigger] self.registry.dom().contains(id) ==> 1 <= id < self.reg_seq
        &&& forall|id: u64| #[trigger] self.owed.contains(id) ==> self.registry.dom().contains(id)
    }
}

/// How a control call ended.
#[derive(Debug)]
pub enum CallEnd {
    /// The submission ring had no room in time.
    NotSent,
    Answered(Frame),
    /// Nobody answered in time.
    NoAnswer,
}

/// What is to be done with bytes that came in on the reply ring.
#[derive(Debug)]
pub enum Dispatch<P> {
    /// The reply belongs to a call that waits.
    Deliver(P, Frame),
    BadFrame(FrameError),
    Unroutable(ProtoError),
    NoWaiter(i64),
}

impl<P> Inner<P> {
    /// A connection on a transport, that owns nothing and waits for nothing.
    pub fn start(app_name: &str, transport: Transport) -> (r: Inner<P>)
        ensures
            r@ == (InnerView {
                transport,
                pending: Map::<i64, P>::empty(),
                app_name: app_name@,
                running: true,
                auto_reconnect: true,
                registry: Map::<u64, Reg>::empty(),
                reg_seq: 1,
                owed: Set::<u64>::empty(),
            }),
            r@.wf(),
    {
        Inner {
            transport,
            pending: HashMap::new(),
            app_name: app_name.to_owned(),
            running: true,
            auto_reconnect: true,
            registry: HashMap::new(),
            reg_seq: 1,
            owed: HashSet::new(),
        }
    }

    pub fn client_id(&self) -> (r: i64)
        ensures
            r == self@.transport.client_id,
    {
        self.transport.client_id
    }

    pub fn reply_segment(&self) -> (r: String)
        ensures
            r == self@.transport.reply_segment,
    {
        self.transport.reply_segment.clone()
    }

    pub fn epoch(&self) -> (r: u64)
        ensures
            r == self@.transport.epoch,
    {
        self.transport.epoch
    }

    pub fn running(&self) -> (r: bool)
        ensures
            r == self@.running,
    {
        self.running
    }

    /// The connection is going away.
    pub fn stop(&mut self)
        ensures
            final(self)@ == (InnerView { running: false, ..old(self)@ }),
    {
        self.running = false;
    }

    pub fn set_auto_reconnect(&mut self, on: bool)
        ensures
            final(self)@ == (InnerView { auto_reconnect: on, ..old(self)@ }),
    {
        self.auto_reconnect = on;
    }

    pub fn auto_reconnect(&self) -> (r: bool)
        ensures
            r == self@.auto_reconnect,
    {
        self.auto_reconnect
    }

    /// A call waits for the reply with this correlation id.
    pub fn register(&mut self, corr: i64, slot: P)
        ensures
            final(self)@ == (InnerView {
                pending: old(self)@.pending.insert(corr, slot),
                ..old(self)@
            }),
    {
        self.pending.insert(corr, slot);
    }

    /// Nobody waits for the reply any more.
    pub fn drop_pending(&mut self, corr: i64)
        ensures
            final(self)@ == (InnerView { pending: old(self)@.pending.remove(corr), ..old(self)@ }),
    {
        self.pending.remove(&corr);
    }

    /// One round of putting a frame on the submission ring, with `remaining` nanoseconds to wait
    /// for room.
    pub fn submit(&self, submission: &mut Ring, frame: &Frame, remaining: u64) -> (r: PushStep)
        requires
            old(submission)@.wf(),
            old(submission)@.tail() + old(submission)@.capacity <= u64::MAX,
        ensures
            ring::pushed(old(submission)@, final(submission)@, frame@.wire(), r is Pushed),
            r is TimedOut ==> remaining == 0,
            r matches PushStep::Park { seen, nanos } ==> {
                &&& seen as nat == final(submission)@.space_seq()
                &&& 0 < nanos == remaining
            },
            final(submission).seg.name == old(submission).seg.name,
    {
        let bytes: Vec<u8> = frame.encode();
        submission.push_blocking(bytes.as_slice(), Some(remaining))
    }

    /// What a control call comes to. A call that was not sent, or not answered in time, waits
    /// no longer.
    pub fn call_control(&mut self, corr: i64, end: CallEnd) -> (r: Result<Frame, ClientError>)
        ensures
            r == (match end {
                CallEnd::NotSent => Err::<Frame, ClientError>(ClientError::SubmissionFull),
                CallEnd::Answered(frame) => Ok(frame),
                CallEnd::NoAnswer => Err(ClientError::NoReply),
            }),
            final(self)@ == if end is Answered {
                old(self)@
            } else {
                InnerView { pending: old(self)@.pending.remove(corr), ..old(self)@ }
            },
    {
        match end {
            CallEnd::NotSent => {
                self.drop_pending(corr);
                Err(ClientError::SubmissionFull)
            },
            CallEnd::Answered(frame) => Ok(frame),
            CallEnd::NoAnswer => {
                self.drop_pending(corr);
                Err(ClientError::NoReply)
            },
        }
    }

    /// Bytes came in on the reply ring.
    pub fn dispatch(&mut self, catalog: &Catalog, bytes: &[u8]) -> (r: Dispatch<P>)
        ensures
            dispatches(old(self)@, final(self)@, bytes@, r),
    {
        let ghost v = self@;
        let frame: Frame = match Frame::decode(bytes) {
            Ok(frame) => frame,
            Err(e) => {
                return Dispatch::BadFrame(e);
            },
        };
        match proto::correlation_id(catalog, &frame) {
            Ok(corr) => {
                assert(proto::routes(frame@, corr));
                match self.pending.remove(&corr) {
                    Some(slot) => {
                        assert(answered(v, self@, corr, slot));
                        Dispatch::Deliver(slot, frame)
                    },
                    None => {
                        assert(self@ =~= v);
                        Dispatch::NoWaiter(corr)
                    },
                }
            },
            Err(e) => Dispatch::Unroutable(e),
        }
    }

    /// Keeps a registration, under the id that is returned.
    pub fn register_entry(&mut self, reg: Reg) -> (r: u64)
        requires
            old(self)@.wf(),
            old(self)@.reg_seq < u64::MAX,
        ensures
            r == old(self)@.reg_seq,
            final(self)@ == (InnerView {
                registry: old(self)@.registry.insert(r, reg),
                reg_seq: (r + 1) as u64,
                ..old(self)@
            }),
            !old(self)@.registry.dom().contains(r),
            final(self)@.wf(),
    {
        let id: u64 = self.reg_seq;
        self.reg_seq = id + 1;
        self.registry.insert(id, reg);
        id
    }

    /// Forgets a registration.
    pub fn deregister(&mut self, id: u64)
        requires
            old(self)@.wf(),
        ensures
            final(self)@ == (InnerView {
                registry: old(self)@.registry.remove(id),
                owed: old(self)@.owed.remove(id),
                ..old(self)@
            }),
            final(self)@.wf(),
    {
        self.registry.remove(&id);
        self.owed.remove(&id);
    }
}

/// The call with a correlation id waits no longer.
pub open spec fn answered<P>(v: InnerView<P>, w: InnerView<P>, corr: i64, slot: P) -> bool {
    &&& v.pending.dom().contains(corr)
    &&& slot == v.pending[corr]
    &&& w == (InnerView { pending: v.pending.remove(corr), ..v })
}

/// What bytes on the reply ring do: a reply goes to the call that waits for its correlation id,
/// which then waits no longer, and anything else changes nothing.
pub open spec fn dispatches<P>(
    v: InnerView<P>,
    w: InnerView<P>,
    bytes: Seq<u8>,
    r: Dispatch<P>,
) -> bool {
    match frame::parse_frame(bytes) {
        Err(e) => r == Dispatch::<P>::BadFrame(e) && w == v,
        Ok(f) => match r {
            Dispatch::Deliver(slot, frame) => {
                &&& frame@ == f
                &&& exists|corr: i64| #[trigger] proto::routes(f, corr) && answered(v, w, corr, slot)
            },
            Dispatch::NoWaiter(corr) => w == v && proto::routes(f, corr)
                && !v.pending.dom().contains(corr),
            Dispatch::Unroutable(_) => w == v && forall|corr: i64| !#[trigger] proto::routes(f, corr),
            Dispatch::BadFrame(_) => false,
        },
    }
}

// ---- requests ------------------------------------------------------------------------------

/// A record is put into a frame, unless the Avro library does not write it.
pub open spec fn requests(kind: Kind, fields: RecordView, r: Result<Frame, ClientError>) -> bool {
    &&& match r {
        Ok(f) => proto::frame_holds(f@, kind, fields),
        Err(ClientError::Avro(_)) => avro::avro_written(proto::schema_text(kind), fields) is None,
        Err(_) => false,
    }
    &&& avro::typed(fields, proto::kind_shape(kind)) ==> r is Ok
    &&& avro::conforms(fields, proto::kind_shape(kind)) ==> r is Ok && avro::avro_read(
        proto::schema_text(kind),
        r->Ok_0.body@,
    ) == Some(fields)
}

fn request<T: Message>(catalog: &Catalog, kind: Kind, msg: &T) -> (r: Result<Frame, ClientError>)
    ensures
        requests(kind, msg.fields(), r),
{
    match proto::to_frame(catalog, kind, msg) {
        Ok(frame) => Ok(frame),
        Err(e) => Err(ClientError::Avro(e)),
    }
}

/// The key that is presented: the empty one where there is none.
pub open spec fn presented(key: Option<&str>) -> Seq<char> {
    match key {
        Some(k) => k@,
        None => ""@,
    }
}

fn present(key: Option<&str>) -> (r: String)
    ensures
        r@ == presented(key),
{
    match key {
        Some(k) => k.to_owned(),
        None => "".to_owned(),
    }
}

impl<P> Inner<P> {
    /// The request to join the bus, from a process.
    pub fn do_register(&self, catalog: &Catalog, corr: i64, pid: i64) -> (r: Result<Frame, ClientError>)
        ensures
            requests(
                Kind::Register,
                Register::record(
                    corr,
                    self@.app_name,
                    self@.transport.nonce as i64,
                    self@.transport.reply_segment@,
                    HEARTBEAT_MS,
                    pid,
                ),
                r,
            ),
    {
        let msg = Register {
            correlation_id: corr,
            app_name: self.app_name.clone(),
            nonce: proto::fp_to_i64(self.transport.nonce),
            reply_segment: self.transport.reply_segment.clone(),
            heartbeat_ms: HEARTBEAT_MS,
            pid,
        };
        request(catalog, Kind::Register, &msg)
    }

    /// The request for a channel.
    pub fn do_publish(
        &self,
        catalog: &Catalog,
        corr: i64,
        name: &str,
        schema_json: &str,
        key: Option<&str>,
    ) -> (r: Result<Frame, ClientError>)
        ensures
            requests(
                Kind::PublishChannel,
                PublishChannel::record(
                    corr,
                    self@.transport.client_id,
                    name@,
                    schema_json@,
                    presented(key),
                ),
                r,
            ),
    {
        let msg = PublishChannel {
            correlation_id: corr,
            client_id: self.client_id(),
            channel: name.to_owned(),
            schema_json: schema_json.to_owned(),
            access_key: present(key),
        };
        request(catalog, Kind::PublishChannel, &msg)
    }

    /// The request for the channels on the bus.
    pub fn list_channels(&self, catalog: &Catalog, corr: i64) -> (r: Result<Frame, ClientError>)
        ensures
            requests(
                Kind::ListChannels,
                ListChannels::record(corr, self@.transport.client_id),
                r,
            ),
    {
        let msg = ListChannels { correlation_id: corr, client_id: self.client_id() };
        request(catalog, Kind::ListChannels, &msg)
    }

    /// The request to read a channel.
    pub fn do_subscribe(
        &self,
        catalog: &Catalog,
        corr: i64,
        channel_id: i64,
        key: Option<&str>,
        expected_fp: Fingerprint,
    ) -> (r: Result<Frame, ClientError>)
        ensures
            requests(
                Kind::Subscribe,
                Subscribe::record(
                    corr,
                    self@.transport.client_id,
                    channel_id,
                    presented(key),
                    expected_fp as i64,
                ),
                r,
            ),
    {
        let msg = Subscribe {
            correlation_id: corr,
            client_id: self.client_id(),
            channel_id,
            access_key: present(key),
            expected_fp: proto::fp_to_i64(expected_fp),
        };
        request(catalog, Kind::Subscribe, &msg)
    }

    /// The request to offer a function.
    pub fn do_expose(
        &self,
        catalog: &Catalog,
        corr: i64,
        name: &str,
        req_schema_json: &str,
        resp_schema_json: &str,
        key: Option<&str>,
        arena_cap: i64,
    ) -> (r: Result<Frame, ClientError>)
        ensures
            requests(
                Kind::ExposeFunction,
                ExposeFunction::record(
                    corr,
                    self@.transport.client_id,
                    name@,
                    req_schema_json@,
                    resp_schema_json@,
                    presented(key),
                    arena_cap,
                ),
                r,
            ),
    {
        let msg = ExposeFunction {
            correlation_id: corr,
            client_id: self.client_id(),
            fn_name: name.to_owned(),
            req_schema_json: req_schema_json.to_owned(),
            resp_schema_json: resp_schema_json.to_owned(),
            access_key: present(key),
            req_arena_cap: arena_cap,
        };
        request(catalog, Kind::ExposeFunction, &msg)
    }

    /// The request for a function.
    pub fn do_lookup(
        &self,
        catalog: &Catalog,
        corr: i64,
        fn_name: &str,
        key: Option<&str>,
    ) -> (r: Result<Frame, ClientError>)
        ensures
            requests(
                Kind::LookupFunction,
                LookupFunction::record(
                    corr,
                    self@.transport.client_id,
                    fn_name@,
                    presented(key),
                ),
                r,
            ),
    {
        let msg = LookupFunction {
            correlation_id: corr,
            client_id: self.client_id(),
            fn_name: fn_name.to_owned(),
            access_key: present(key),
        };
        request(catalog, Kind::LookupFunction, &msg)
    }

    /// What says goodbye to the broker.
    pub fn send_unregister(&self, catalog: &Catalog, corr: i64) -> (r: Result<Frame, ClientError>)
        ensures
            requests(Kind::Unregister, Unregister::record(corr, self@.transport.client_id), r),
    {
        let msg = Unregister { correlation_id: corr, client_id: self.client_id() };
        request(catalog, Kind::Unregister, &msg)
    }
}

// ---- answers -------------------------------------------------------------------------------

/// The broker refused a request, in the words of its answer.
pub open spec fn refused(e: ClientError, asked: Request, words: Seq<char>) -> bool {
    e matches ClientError::Refused { request, words: w } && request == asked && w@ == words
}

fn refuse<A>(request: Request, words: String) -> (r: Result<A, ClientError>)
    ensures
        r matches Err(e) && refused(e, request, words@),
{
    Err(ClientError::Refused { request, words })
}

impl<P> Inner<P> {
    /// The broker answered the request to join: its id for the connection is adopted.
    pub fn registered(&mut self, catalog: &Catalog, reply: &Frame) -> (r: Result<i64, ClientError>)
        ensures
            joins(old(self)@, final(self)@, reply.body@, r),
    {
        let ghost json = proto::schema_text(Kind::RegisterReply);
        let m: RegisterReply = match proto::from_frame::<RegisterReply>(
            catalog,
            Kind::RegisterReply,
            reply,
        ) {
            Ok(m) => m,
            Err(e) => {
                return Err(ClientError::Proto(e));
            },
        };
        assert(proto::read_as(json, reply.body@, Some(m)));
        if m.status != status::OK {
            return refuse(Request::Register, m.message);
        }
        self.transport.client_id = m.client_id;
        Ok(m.client_id)
    }
}

/// What the answer to the request to join does.
pub open spec fn joins<P>(
    v: InnerView<P>,
    w: InnerView<P>,
    body: Seq<u8>,
    r: Result<i64, ClientError>,
) -> bool {
    let json = proto::schema_text(Kind::RegisterReply);
    match r {
        Err(ClientError::Proto(_)) => w == v && proto::read_as::<RegisterReply>(json, body, None),
        _ => exists|m: RegisterReply| #[trigger]
            proto::read_as(json, body, Some(m)) && if m.status == status::OK {
                r == Ok::<i64, ClientError>(m.client_id) && w == (InnerView {
                    transport: Transport { client_id: m.client_id, ..v.transport },
                    ..v
                })
            } else {
                w == v && (r matches Err(e) && refused(e, Request::Register, m.message@))
            },
    }
}

/// What the answer to a request for a channel means: the channel's arena and schema.
pub open spec fn publish_answer(body: Seq<u8>, r: Result<(String, Fingerprint), ClientError>) -> bool {
    let json = proto::schema_text(Kind::PublishReply);
    match r {
        Err(ClientError::Proto(_)) => proto::read_as::<PublishReply>(json, body, None),
        _ => exists|m: PublishReply| #[trigger]
            proto::read_as(json, body, Some(m)) && if m.status == status::OK {
                r matches Ok((arena, fp)) && arena@ == m.arena@ && fp == m.schema_fp as u64
            } else {
                r matches Err(e) && refused(e, Request::Publish, m.message@)
            },
    }
}

/// The arena and the schema of a channel that was granted.
pub fn published(catalog: &Catalog, reply: &Frame) -> (r: Result<(String, Fingerprint), ClientError>)
    ensures
        publish_answer(reply.body@, r),
{
    let ghost json = proto::schema_text(Kind::PublishReply);
    let m: PublishReply = match proto::from_frame::<PublishReply>(catalog, Kind::PublishReply, reply) {
        Ok(m) => m,
        Err(e) => {
            return Err(ClientError::Proto(e));
        },
    };
    assert(proto::read_as(json, reply.body@, Some(m)));
    if m.status != status::OK {
        return refuse(Request::Publish, m.message);
    }
    Ok((m.arena, proto::i64_to_fp(m.schema_fp)))
}

/// What the answer to a request to read a channel means: the channel's arena and schema.
pub open spec fn subscribe_answer(body: Seq<u8>, r: Result<(String, Fingerprint), ClientError>) -> bool {
    let json = proto::schema_text(Kind::SubscribeReply);
    match r {
        Err(ClientError::Proto(_)) => proto::read_as::<SubscribeReply>(json, body, None),
        _ => exists|m: SubscribeReply| #[trigger]
            proto::read_as(json, body, Some(m)) && if m.status == status::OK {
                r matches Ok((arena, fp)) && arena@ == m.arena@ && fp == m.schema_fp as u64
            } else {
                r matches Err(e) && refused(e, Request::Subscribe, m.message@)
            },
    }
}

/// The arena and the schema of a channel that may be read.
pub fn subscribed(catalog: &Catalog, reply: &Frame) -> (r: Result<(String, Fingerprint), ClientError>)
    ensures
        subscribe_answer(reply.body@, r),
{
    let ghost json = proto::schema_text(Kind::SubscribeReply);
    let m: SubscribeReply = match proto::from_frame::<SubscribeReply>(catalog, Kind::SubscribeReply, reply) {
        Ok(m) => m,
        Err(e) => {
            return Err(ClientError::Proto(e));
        },
    };
    assert(proto::read_as(json, reply.body@, Some(m)));
    if m.status != status::OK {
        return refuse(Request::Subscribe, m.message);
    }
    Ok((m.arena, proto::i64_to_fp(m.schema_fp)))
}

/// What the answer to an offer of a function means: the function's request arena and schemas.
pub open spec fn expose_answer(body: Seq<u8>, r: Result<(String, Fingerprint, Fingerprint), ClientError>) -> bool {
    let json = proto::schema_text(Kind::ExposeReply);
    match r {
        Err(ClientError::Proto(_)) => proto::read_as::<ExposeReply>(json, body, None),
        _ => exists|m: ExposeReply| #[trigger]
            proto::read_as(json, body, Some(m)) && if m.status == status::OK {
                r matches Ok((arena, req_fp, resp_fp)) && arena@ == m.req_arena@ && req_fp
                    == m.req_fp as u64 && resp_fp == m.resp_fp as u64
            } else {
                r matches Err(e) && refused(e, Request::Expose, m.message@)
            },
    }
}

/// The request arena and the schemas of a function that was granted.
pub fn exposed(catalog: &Catalog, reply: &Frame) -> (r: Result<(String, Fingerprint, Fingerprint), ClientError>)
    ensures
        expose_answer(reply.body@, r),
{
    let ghost json = proto::schema_text(Kind::ExposeReply);
    let m: ExposeReply = match proto::from_frame::<ExposeReply>(catalog, Kind::ExposeReply, reply) {
        Ok(m) => m,
        Err(e) => {
            return Err(ClientError::Proto(e));
        },
    };
    assert(proto::read_as(json, reply.body@, Some(m)));
    if m.status != status::OK {
        return refuse(Request::Expose, m.message);
    }
    Ok((m.req_arena, proto::i64_to_fp(m.req_fp), proto::i64_to_fp(m.resp_fp)))
}

/// What the answer to a request for a function means: all that the broker says of it.
pub open spec fn lookup_answer(body: Seq<u8>, r: Result<LookupReply, ClientError>) -> bool {
    let json = proto::schema_text(Kind::LookupReply);
    match r {
        Err(ClientError::Proto(_)) => proto::read_as::<LookupReply>(json, body, None),
        _ => exists|m: LookupReply| #[trigger]
            proto::read_as(json, body, Some(m)) && if m.status == status::OK {
                r == Ok::<LookupReply, ClientError>(m)
            } else {
                r matches Err(e) && refused(e, Request::Lookup, m.message@)
            },
    }
}

/// What the broker knows of a function that may be called.
pub fn looked_up(catalog: &Catalog, reply: &Frame) -> (r: Result<LookupReply, ClientError>)
    ensures
        lookup_answer(reply.body@, r),
{
    let ghost json = proto::schema_text(Kind::LookupReply);
    let m: LookupReply = match proto::from_frame::<LookupReply>(catalog, Kind::LookupReply, reply) {
        Ok(m) => m,
        Err(e) => {
            return Err(ClientError::Proto(e));
        },
    };
    assert(proto::read_as(json, reply.body@, Some(m)));
    if m.status != status::OK {
        return refuse(Request::Lookup, m.message);
    }
    Ok(m)
}

/// The channels that the broker listed.
pub fn listed(catalog: &Catalog, reply: &Frame) -> (r: Result<Vec<ChannelInfo>, ClientError>)
    ensures
        match r {
            Ok(channels) => exists|m: ChannelList| #[trigger]
                proto::read_as(
                    proto::schema_text(Kind::ChannelList),
                    reply.body@,
                    Some(m),
                ) && m.channels == channels,
            Err(ClientError::Proto(_)) => proto::read_as::<ChannelList>(
                proto::schema_text(Kind::ChannelList),
                reply.body@,
                None,
            ),
            Err(_) => false,
        },
{
    match proto::from_frame::<ChannelList>(catalog, Kind::ChannelList, reply) {
        Ok(m) => {
            assert(proto::read_as(
                proto::schema_text(Kind::ChannelList),
                reply.body@,
                Some(m),
            ));
            Ok(m.channels)
        },
        Err(e) => Err(ClientError::Proto(e)),
    }
}

// ---- after a restart of the broker ---------------------------------------------------------

/// The epoch of the broker that formatted a control segment, if the segment can be used.
pub fn live_broker_epoch(seg: Segment) -> (r: Result<u64, ControlError>)
    requires
        control::SUBMISSION_BASE + ring::RING_HEADER <= seg@.len(),
    ensures
        ({
            let magic = shm::field(seg@, control::OFF_MAGIC as int, 8) as u64;
            let version = shm::field(seg@, control::OFF_VERSION as int, 4) as u32;
            match control::superblock(magic, version) {
                Err(e) => r == Err::<u64, ControlError>(e),
                Ok(_) => match ring::attached_capacity(seg@, control::SUBMISSION_BASE as int) {
                    Err(e) => r == Err::<u64, ControlError>(ControlError::Ring(e)),
                    Ok(_) => r matches Ok(epoch) && epoch as nat == shm::field(
                        seg@,
                        control::OFF_EPOCH as int,
                        8,
                    ),
                },
            }
        }),
{
    match control::attach_control(seg) {
        Ok(ring) => Ok(control::broker_epoch(&ring.seg)),
        Err(e) => Err(e),
    }
}

/// Whether another broker lives than the one of an epoch; `live` is the epoch that a look at the
/// control segment found, if it found one.
pub fn restarted(observed: u64, live: Option<u64>) -> (r: bool)
    ensures
        r == (live matches Some(epoch) && epoch != observed),
{
    match live {
        Some(epoch) => epoch != observed,
        None => false,
    }
}

/// Where an operation stands that is tried again if the broker was restarted under it.
#[derive(Debug)]
pub enum Retry {
    /// Run the operation.
    Run,
    /// Look for the epoch of the broker that lives.
    Look { failed: ClientError, observed: u64 },
    /// Come back from the broker of this epoch.
    ComeBack { observed: u64 },
    /// Run the operation once more.
    RunAgain,
}

/// What came of it: of the operation, of the look, of coming back.
#[derive(Debug)]
pub enum Came<T> {
    Ran(Result<T, ClientError>),
    Looked(Option<u64>),
    CameBack(Result<(), ClientError>),
}

/// What comes next: another thing to do, or the end with a result.
#[derive(Debug)]
pub enum Then<T> {
    Do(Retry),
    Return(Result<T, ClientError>),
}

/// What an operation does next: an error that means that the broker stopped answering leads to
/// a look, another epoch to coming back, and that to one more run, whose result is the end. What
/// cannot have come of the last thing is passed over.
pub open spec fn retries<P, T>(v: InnerView<P>, at: Retry, came: Came<T>) -> Then<T> {
    match (at, came) {
        (Retry::Run, Came::Ran(ran)) => match ran {
            Ok(value) => Then::Return(Ok(value)),
            Err(e) => if v.auto_reconnect && means_unreachable(e) {
                Then::Do(Retry::Look { failed: e, observed: v.transport.epoch })
            } else {
                Then::Return(Err(e))
            },
        },
        (Retry::Look { failed, observed }, Came::Looked(live)) => if live matches Some(epoch)
            && epoch != observed {
            Then::Do(Retry::ComeBack { observed })
        } else {
            Then::Return(Err(failed))
        },
        (Retry::ComeBack { observed }, Came::CameBack(back)) => match back {
            Ok(_) => Then::Do(Retry::RunAgain),
            Err(e) => Then::Return(Err(e)),
        },
        (Retry::RunAgain, Came::Ran(ran)) => Then::Return(ran),
        (at, _) => Then::Do(at),
    }
}

/// What an operation comes to by what the first run, the look, coming back and a second run
/// would give, and how often it is run.
pub open spec fn retried<P, T>(
    v: InnerView<P>,
    first: Result<T, ClientError>,
    live: Option<u64>,
    back: Result<(), ClientError>,
    second: Result<T, ClientError>,
) -> (Result<T, ClientError>, nat) {
    if first matches Err(e) && v.auto_reconnect && means_unreachable(e) && live is Some
        && live != Some(v.transport.epoch) {
        match back {
            Err(e) => (Err(e), 1),
            Ok(_) => (second, 2),
        }
    } else {
        (first, 1)
    }
}

/// The end of an operation that stands somewhere, and how often it is still run, if the look,
/// coming back and the runs give this.
pub open spec fn ends<P, T>(
    v: InnerView<P>,
    at: Retry,
    first: Result<T, ClientError>,
    live: Option<u64>,
    back: Result<(), ClientError>,
    second: Result<T, ClientError>,
) -> (Result<T, ClientError>, nat)
    decreases
            match at {
                Retry::Run => 3nat,
                Retry::Look { failed, observed } => 2nat,
                Retry::ComeBack { observed } => 1nat,
                Retry::RunAgain => 0nat,
            },
{
    let came = match at {
        Retry::Run => Came::Ran(first),
        Retry::Look { failed, observed } => Came::Looked(live),
        Retry::ComeBack { observed } => Came::CameBack(back),
        Retry::RunAgain => Came::Ran(second),
    };
    let runs: nat = if at is Run || at is RunAgain {
        1
    } else {
        0
    };
    match retries(v, at, came) {
        Then::Return(r) => (r, runs),
        Then::Do(next) => {
            let rest = ends(v, next, first, live, back, second);
            (rest.0, runs + rest.1)
        },
    }
}

/// An operation is run once and its result returned, unless it failed because the broker stopped
/// answering, the connection comes back by itself, and a broker of another epoch lives. It is
/// then run once more and that result returned, or the error of coming back.
pub proof fn law_retried_once<P, T>(
    v: InnerView<P>,
    first: Result<T, ClientError>,
    live: Option<u64>,
    back: Result<(), ClientError>,
    second: Result<T, ClientError>,
)
    ensures
        ends(v, Retry::Run, first, live, back, second) == retried(v, first, live, back, second),
{
    reveal_with_fuel(ends, 4);
}

impl<P> Inner<P> {
    /// What an operation does next, after what came of the last thing that it did: nothing more,
    /// or a look at the live broker, coming back where the broker was restarted, and one more run.
    pub fn with_reconnect<T>(&self, at: Retry, came: Came<T>) -> (r: Then<T>)
        ensures
            r == retries(self@, at, came),
    {
        match (at, came) {
            (Retry::Run, Came::Ran(ran)) => match ran {
                Ok(value) => Then::Return(Ok(value)),
                Err(e) => if self.auto_reconnect && broker_unreachable(&e) {
                    Then::Do(Retry::Look { failed: e, observed: self.transport.epoch })
                } else {
                    Then::Return(Err(e))
                },
            },
            (Retry::Look { failed, observed }, Came::Looked(live)) => if restarted(observed, live) {
                Then::Do(Retry::ComeBack { observed })
            } else {
                Then::Return(Err(failed))
            },
            (Retry::ComeBack { observed: _ }, Came::CameBack(back)) => match back {
                Ok(_) => Then::Do(Retry::RunAgain),
                Err(e) => Then::Return(Err(e)),
            },
            (Retry::RunAgain, Came::Ran(ran)) => Then::Return(ran),
            (at, _) => Then::Do(at),
        }
    }

    /// Whether the watcher looks at the live broker in a round, and the epoch of the broker that
    /// the connection is with. `watched` says what follows from the look.
    pub fn watch(&self) -> (r: Option<u64>)
        ensures
            r == if self@.running && self@.auto_reconnect {
                Some(self@.transport.epoch)
            } else {
                None
            },
    {
        if self.running && self.auto_reconnect {
            Some(self.transport.epoch)
        } else {
            None
        }
    }

    /// Whether the connection still has to come back from the broker of an epoch, that is, no
    /// other thread brought it back already.
    pub fn stranded(&self, failed_epoch: u64) -> (r: bool)
        ensures
            r == (self@.transport.epoch == failed_epoch),
    {
        self.transport.epoch == failed_epoch
    }

    /// Comes back on a fresh transport. Calls that wait for the broker that is gone are given
    /// up.
    pub fn reconnect(&mut self, fresh: Transport)
        ensures
            final(self)@ == reconnected(old(self)@, fresh),
    {
        self.pending = HashMap::new();
        self.owed = HashSet::new();
        self.transport = fresh;
    }

    /// What has to be brought back on a fresh transport: all that the connection owns, the
    /// channels first.
    pub fn replay(&self) -> (r: Vec<(u64, Reg)>)
        ensures
            replays(self@.registry, r@),
    {
        let mut ids: Vec<u64> = Vec::new();
        let ghost all = vstd::std_specs::iter::IteratorSpec::remaining(
            &self.registry.keys(),
        ).unref();
        for k in it: self.registry.keys()
            invariant
                it.seq().unref() == all,
                ids@ =~= all.take(it.index() as int),
        {
            ids.push(*k);
        }
        proof {
            assert(all.take(all.len() as int) =~= all);
            assert(all.no_duplicates());
        }
        let mut r: Vec<(u64, Reg)> = Vec::new();
        self.pick(&ids, true, &mut r);
        let ghost first = r@;
        self.pick(&ids, false, &mut r);
        proof {
            assert forall|id: u64| self@.registry.dom().contains(id) implies #[trigger] lists(
                r@,
                id,
            ) by {
                assert(ids@.to_set().contains(id));
                let k = choose|k: int| 0 <= k < ids@.len() && ids@[k] == id;
                if self@.registry[id] is Channel {
                    assert(lists(first, id));
                    let j = choose|j: int| 0 <= j < first.len() && (#[trigger] first[j]).0 == id;
                    assert(r@[j].0 == id);
                } else {
                    assert(lists(r@, ids@[k]));
                }
            }
            assert forall|i: int, j: int|
                0 <= i < j < r@.len() && (#[trigger] r@[j]).1 is Channel implies (#[trigger] r@[i]).1
                is Channel by {
                assert(j < first.len());
                assert(r@[i] == first[i]);
            }
        }
        r
    }

    /// The request that brings a registration back: the one that made it, on this transport.
    pub fn replay_request(&self, catalog: &Catalog, corr: i64, reg: &Reg) -> (r: Result<
        Frame,
        ClientError,
    >)
        ensures
            match *reg {
                Reg::Channel { name, schema_json, key } => requests(
                    Kind::PublishChannel,
                    PublishChannel::record(
                        corr,
                        self@.transport.client_id,
                        name@,
                        schema_json@,
                        kept_key(key),
                    ),
                    r,
                ),
                Reg::Function {
                    name,
                    req_schema_json,
                    resp_schema_json,
                    key,
                    arena_cap,
                } => requests(
                    Kind::ExposeFunction,
                    ExposeFunction::record(
                        corr,
                        self@.transport.client_id,
                        name@,
                        req_schema_json@,
                        resp_schema_json@,
                        kept_key(key),
                        arena_cap,
                    ),
                    r,
                ),
            },
    {
        match reg {
            Reg::Channel { name, schema_json, key } => self.do_publish(
                catalog,
                corr,
                name.as_str(),
                schema_json.as_str(),
                lend_key(key),
            ),
            Reg::Function { name, req_schema_json, resp_schema_json, key, arena_cap } => {
                self.do_expose(
                    catalog,
                    corr,
                    name.as_str(),
                    req_schema_json.as_str(),
                    resp_schema_json.as_str(),
                    lend_key(key),
                    *arena_cap,
                )
            },
        }
    }

    /// Appends the channels, or the functions, among some registrations.
    fn pick(&self, ids: &Vec<u64>, channels: bool, out: &mut Vec<(u64, Reg)>)
        requires
            ids@.no_duplicates(),
            forall|k: int| 0 <= k < ids@.len() ==> self@.registry.dom().contains(#[trigger] ids@[k]),
            forall|j: int|
                0 <= j < old(out)@.len() ==> {
                    &&& self@.registry.dom().contains((#[trigger] old(out)@[j]).0)
                    &&& self@.registry[old(out)@[j].0] == old(out)@[j].1
                    &&& (old(out)@[j].1 is Channel) != channels
                },
            forall|i: int, j: int|
                0 <= i < j < old(out)@.len() ==> old(out)@[i].0 != old(out)@[j].0,
        ensures
            old(out)@.is_prefix_of(final(out)@),
            forall|j: int|
                0 <= j < final(out)@.len() ==> {
                    &&& self@.registry.dom().contains((#[trigger] final(out)@[j]).0)
                    &&& self@.registry[final(out)@[j].0] == final(out)@[j].1
                    &&& j >= old(out)@.len() ==> (final(out)@[j].1 is Channel) == channels
                },
            forall|i: int, j: int|
                0 <= i < j < final(out)@.len() ==> final(out)@[i].0 != final(out)@[j].0,
            forall|k: int|
                0 <= k < ids@.len() && (self@.registry[#[trigger] ids@[k]] is Channel) == channels
                    ==> lists(final(out)@, ids@[k]),
    {
        let mut k: usize = 0;
        while k < ids.len()
            invariant
                k <= ids@.len(),
                ids@.no_duplicates(),
                forall|k: int|
                    0 <= k < ids@.len() ==> self@.registry.dom().contains(#[trigger] ids@[k]),
                old(out)@.is_prefix_of(out@),
                forall|j: int|
                    0 <= j < old(out)@.len() ==> (old(out)@[j].1 is Channel) != channels,
                forall|j: int|
                    0 <= j < out@.len() ==> {
                        &&& self@.registry.dom().contains((#[trigger] out@[j]).0)
                        &&& self@.registry[out@[j].0] == out@[j].1
                        &&& j >= old(out)@.len() ==> (out@[j].1 is Channel) == channels
                            && exists|m: int| 0 <= m < k && #[trigger] ids@[m] == out@[j].0
                    },
                forall|i: int, j: int| 0 <= i < j < out@.len() ==> out@[i].0 != out@[j].0,
                forall|m: int|
                    0 <= m < k && (self@.registry[#[trigger] ids@[m]] is Channel) == channels
                        ==> lists(out@, ids@[m]),
            decreases ids@.len() - k,
        {
            let id: u64 = ids[k];
            let ghost before = out@;
            match self.registry.get(&id) {
                Some(reg) => {
                    let is_channel: bool = match reg {
                        Reg::Channel { name: _, schema_json: _, key: _ } => true,
                        Reg::Function {
                            name: _,
                            req_schema_json: _,
                            resp_schema_json: _,
                            key: _,
                            arena_cap: _,
                        } => false,
                    };
                    if is_channel == channels {
                        proof {
                            assert forall|j: int| 0 <= j < out@.len() implies (#[trigger] out@[j]).0
                                != id by {
                                if j >= old(out)@.len() {
                                    let m = choose|m: int|
                                        0 <= m < k && #[trigger] ids@[m] == out@[j].0;
                                    assert(ids@[m] != ids@[k as int]);
                                } else {
                                    assert(out@[j] == old(out)@[j]);
                                }
                            }
                        }
                        out.push((id, reg.copy()));
                        proof {
                            assert(ids@[k as int] == out@[before.len() as int].0);
                            assert(lists(out@, id));
                        }
                    }
                },
                None => {},
            }
            proof {
                assert forall|m: int|
                    0 <= m < k + 1 && (self@.registry[#[trigger] ids@[m]] is Channel)
                        == channels implies lists(out@, ids@[m]) by {
                    if m < k {
                        assert(lists(before, ids@[m]));
                        let j = choose|j: int|
                            0 <= j < before.len() && (#[trigger] before[j]).0 == ids@[m];
                        assert(out@[j].0 == ids@[m]);
                    }
                }
            }
            k = k + 1;
        }
    }
}

/// The key of a registration, the empty one where there is none.
pub open spec fn kept_key(key: Option<String>) -> Seq<char> {
    match key {
        Some(k) => k@,
        None => ""@,
    }
}

fn lend_key(key: &Option<String>) -> (r: Option<&str>)
    ensures
        presented(r) == kept_key(*key),
{
    match key {
        Some(k) => Some(k.as_str()),
        None => None,
    }
}

/// What the answer to a registration that is brought back means: its arena, or why there is none.
pub open spec fn replay_grants(reg: Reg, body: Seq<u8>, r: Result<String, ClientError>) -> bool {
    if reg is Channel {
        exists|full: Result<(String, Fingerprint), ClientError>| #[trigger]
            publish_answer(body, full) && match full {
                Ok((arena, _)) => r == Ok::<String, ClientError>(arena),
                Err(e) => r == Err::<String, ClientError>(e),
            }
    } else {
        exists|full: Result<(String, Fingerprint, Fingerprint), ClientError>| #[trigger]
            expose_answer(body, full) && match full {
                Ok((arena, _, _)) => r == Ok::<String, ClientError>(arena),
                Err(e) => r == Err::<String, ClientError>(e),
            }
    }
}

/// The arena that the answer to a registration that is brought back grants.
pub fn replay_answer(catalog: &Catalog, reg: &Reg, reply: &Frame) -> (r: Result<String, ClientError>)
    ensures
        replay_grants(*reg, reply.body@, r),
{
    match reg {
        Reg::Channel { name: _, schema_json: _, key: _ } => {
            let full: Result<(String, Fingerprint), ClientError> = published(catalog, reply);
            assert(publish_answer(reply.body@, full));
            match full {
                Ok((arena, _)) => Ok(arena),
                Err(e) => Err(e),
            }
        },
        Reg::Function {
            name: _,
            req_schema_json: _,
            resp_schema_json: _,
            key: _,
            arena_cap: _,
        } => {
            let full: Result<(String, Fingerprint, Fingerprint), ClientError> = exposed(
                catalog,
                reply,
            );
            assert(expose_answer(reply.body@, full));
            match full {
                Ok((arena, _, _)) => Ok(arena),
                Err(e) => Err(e),
            }
        },
    }
}

/// The connection on a fresh transport, with no calls waiting and nothing asked for yet.
pub open spec fn reconnected<P>(v: InnerView<P>, fresh: Transport) -> InnerView<P> {
    InnerView { transport: fresh, pending: Map::empty(), owed: Set::empty(), ..v }
}

/// A list of registrations has one with this id.
pub open spec fn lists(list: Seq<(u64, Reg)>, id: u64) -> bool {
    exists|j: int| 0 <= j < list.len() && (#[trigger] list[j]).0 == id
}

/// A list holds every registration once, as it was kept, the channels before the functions.
pub open spec fn replays(registry: Map<u64, Reg>, list: Seq<(u64, Reg)>) -> bool {
    &&& forall|j: int|
        0 <= j < list.len() ==> registry.dom().contains((#[trigger] list[j]).0)
            && registry[list[j].0] == list[j].1
    &&& forall|i: int, j: int| 0 <= i < j < list.len() ==> list[i].0 != list[j].0
    &&& forall|id: u64| registry.dom().contains(id) ==> #[trigger] lists(list, id)
    &&& forall|i: int, j: int|
        0 <= i < j < list.len() && (#[trigger] list[j]).1 is Channel ==> (#[trigger] list[i]).1
            is Channel
}

/// What the answer to a registration that is brought back does to the registration's ring.
#[derive(Debug)]
pub enum Rebind<R> {
    /// The registration goes on with the new ring.
    Bind { id: u64, ring: R },
    /// The registration keeps its old ring.
    Keep { id: u64, failed: ClientError },
}

/// What the answer to a registration does: the ring that was granted, or why there is none.
pub open spec fn rebind_of<R>(id: u64, granted: Result<R, ClientError>) -> Rebind<R> {
    match granted {
        Ok(ring) => Rebind::Bind { id, ring },
        Err(failed) => Rebind::Keep { id, failed },
    }
}

/// What the answer to a registration that is brought back does.
pub fn replayed<R>(id: u64, granted: Result<R, ClientError>) -> (r: Rebind<R>)
    ensures
        r == rebind_of(id, granted),
{
    match granted {
        Ok(ring) => Rebind::Bind { id, ring },
        Err(failed) => Rebind::Keep { id, failed },
    }
}

/// What the answers to some registrations do, one by one.
pub open spec fn rebinds_of<R>(
    list: Seq<(u64, Reg)>,
    answers: Seq<Result<R, ClientError>>,
) -> Seq<Rebind<R>> {
    Seq::new(list.len(), |j: int| rebind_of(list[j].0, answers[j]))
}

/// What the answers to some registrations do, one by one.
pub fn rebinds<R>(list: &Vec<(u64, Reg)>, answers: Vec<Result<R, ClientError>>) -> (r: Vec<Rebind<R>>)
    requires
        list@.len() == answers@.len(),
    ensures
        r@.len() == list@.len(),
        forall|j: int|
            0 <= j < list@.len() ==> #[trigger] r@[j] == rebind_of(list@[j].0, answers@[j]),
{
    let mut left: Vec<Result<R, ClientError>> = answers;
    let mut r: Vec<Rebind<R>> = Vec::new();
    let mut k: usize = 0;
    while k < list.len()
        invariant
            k <= list@.len(),
            list@.len() == answers@.len(),
            left@ == answers@.skip(k as int),
            r@.len() == k,
            forall|j: int| 0 <= j < k ==> #[trigger] r@[j] == rebind_of(list@[j].0, answers@[j]),
        decreases list@.len() - k,
    {
        assert(left@[0] == answers@[k as int]);
        let granted: Result<R, ClientError> = left.remove(0);
        r.push(replayed(list[k].0, granted));
        k = k + 1;
        assert(left@ =~= answers@.skip(k as int));
    }
    r
}

/// These are the answers to some registrations that were asked for.
pub open spec fn asked<R, A: Fn(&Reg) -> Result<R, ClientError>>(
    list: Seq<(u64, Reg)>,
    ask: A,
    answers: Seq<Result<R, ClientError>>,
) -> bool {
    &&& answers.len() == list.len()
    &&& forall|j: int|
        0 <= j < list.len() ==> call_ensures(ask, (&list[j].1,), #[trigger] answers[j])
}

/// Asks for registrations, one after the other, and says what the answers do. One that fails
/// does not stop the rest, nor does it make the whole fail.
pub fn bring_back<R, A: Fn(&Reg) -> Result<R, ClientError>>(list: &Vec<(u64, Reg)>, ask: A) -> (r:
    Result<Vec<Rebind<R>>, ClientError>)
    requires
        forall|reg: Reg| #[trigger] call_requires(ask, (&reg,)),
    ensures
        r matches Ok(done) && exists|answers: Seq<Result<R, ClientError>>| #[trigger]
            asked(list@, ask, answers) && done@ == rebinds_of(list@, answers),
{
    let mut answers: Vec<Result<R, ClientError>> = Vec::new();
    let mut k: usize = 0;
    while k < list.len()
        invariant
            k <= list@.len(),
            answers@.len() == k,
            forall|reg: Reg| #[trigger] call_requires(ask, (&reg,)),
            forall|j: int|
                0 <= j < k ==> call_ensures(ask, (&list@[j].1,), #[trigger] answers@[j]),
        decreases list@.len() - k,
    {
        let granted: Result<R, ClientError> = ask(&list[k].1);
        answers.push(granted);
        k = k + 1;
    }
    let ghost all = answers@;
    assert(asked(list@, ask, all));
    let done: Vec<Rebind<R>> = rebinds(list, answers);
    assert(done@ =~= rebinds_of(list@, all));
    Ok(done)
}

/// A connection after what was done about one registration is noted.
pub open spec fn noted<P, R>(v: InnerView<P>, rebind: Rebind<R>) -> InnerView<P> {
    InnerView {
        owed: match rebind {
            Rebind::Bind { id, ring } => v.owed.remove(id),
            Rebind::Keep { id, failed } => if v.registry.dom().contains(id) {
                v.owed.insert(id)
            } else {
                v.owed
            },
        },
        ..v
    }
}

/// A connection after what was done about some registrations is noted.
pub open spec fn noted_all<P, R>(v: InnerView<P>, done: Seq<Rebind<R>>) -> InnerView<P>
    decreases done.len(),
{
    if done.len() == 0 {
        v
    } else {
        noted(noted_all(v, done.drop_last()), done.last())
    }
}

/// What the watcher does after a look at the live broker.
#[derive(Debug)]
pub enum Watched {
    Rest,
    /// Come back: the broker was restarted.
    ComeBack,
    /// Ask once more for the registrations that were not brought back.
    BringBack(Vec<(u64, Reg)>),
}

/// A registration is kept, and is still to be brought back.
pub open spec fn owes<P>(v: InnerView<P>, id: u64) -> bool {
    v.registry.dom().contains(id) && v.owed.contains(id)
}

/// What the watcher of a connection does after a look at the live broker, where the connection
/// was with the broker of the epoch `observed` before.
pub open spec fn watches<P>(v: InnerView<P>, observed: u64, live: Option<u64>, r: Watched) -> bool {
    if live is Some && live != Some(observed) {
        r is ComeBack
    } else if live == Some(v.transport.epoch) && exists|id: u64| #[trigger] owes(v, id) {
        r matches Watched::BringBack(list) && replays(v.registry.restrict(v.owed), list@)
    } else {
        r is Rest
    }
}

impl<P> Inner<P> {
    /// Notes what was done about a registration: one that was not brought back is still owed.
    pub fn note_replayed<R>(&mut self, rebind: &Rebind<R>)
        requires
            old(self)@.wf(),
        ensures
            final(self)@ == noted(old(self)@, *rebind),
            final(self)@.wf(),
    {
        match rebind {
            Rebind::Bind { id, ring: _ } => {
                self.owed.remove(id);
            },
            Rebind::Keep { id, failed: _ } => {
                if self.registry.contains_key(id) {
                    self.owed.insert(*id);
                }
            },
        }
        assert(self@ =~= noted(old(self)@, *rebind));
    }

    /// The registrations that are still owed, the channels first.
    pub fn replay_owed(&self) -> (r: Vec<(u64, Reg)>)
        ensures
            replays(self@.registry.restrict(self@.owed), r@),
    {
        let all: Vec<(u64, Reg)> = self.replay();
        let ghost some = self@.registry.restrict(self@.owed);
        let mut r: Vec<(u64, Reg)> = Vec::new();
        let mut k: usize = 0;
        while k < all.len()
            invariant
                k <= all@.len(),
                replays(self@.registry, all@),
                some == self@.registry.restrict(self@.owed),
                forall|j: int|
                    0 <= j < r@.len() ==> {
                        &&& some.dom().contains((#[trigger] r@[j]).0)
                        &&& some[r@[j].0] == r@[j].1
                        &&& exists|i: int| 0 <= i < k && #[trigger] all@[i] == r@[j]
                    },
                forall|i: int, j: int| 0 <= i < j < r@.len() ==> r@[i].0 != r@[j].0,
                forall|i: int|
                    0 <= i < k && self@.owed.contains((#[trigger] all@[i]).0) ==> lists(
                        r@,
                        all@[i].0,
                    ),
                forall|i: int, j: int|
                    0 <= i < j < r@.len() && (#[trigger] r@[j]).1 is Channel ==> (#[trigger] r@[i]).1
                        is Channel,
            decreases all@.len() - k,
        {
            let ghost before = r@;
            if self.owed.contains(&all[k].0) {
                proof {
                    assert forall|j: int| 0 <= j < r@.len() implies (#[trigger] r@[j]).0
                        != all@[k as int].0 && (all@[k as int].1 is Channel ==> r@[j].1 is Channel) by {
                        let i = choose|i: int| 0 <= i < k && #[trigger] all@[i] == r@[j];
                        assert(all@[i].0 != all@[k as int].0);
                        assert(all@[k as int].1 is Channel ==> all@[i].1 is Channel);
                    }
                }
                r.push((all[k].0, all[k].1.copy()));
                assert(r@[before.len() as int] == all@[k as int]);
            }
            proof {
                assert forall|i: int|
                    0 <= i < k + 1 && self@.owed.contains((#[trigger] all@[i]).0) implies lists(
                    r@,
                    all@[i].0,
                ) by {
                    if i < k {
                        assert(lists(before, all@[i].0));
                        let j = choose|j: int|
                            0 <= j < before.len() && (#[trigger] before[j]).0 == all@[i].0;
                        assert(r@[j].0 == all@[i].0);
                    } else {
                        assert(r@[before.len() as int].0 == all@[i].0);
                    }
                }
                assert forall|j: int| 0 <= j < r@.len() implies {
                    &&& some.dom().contains((#[trigger] r@[j]).0)
                    &&& some[r@[j].0] == r@[j].1
                    &&& exists|i: int| 0 <= i < k + 1 && #[trigger] all@[i] == r@[j]
                } by {
                    if j < before.len() {
                        assert(r@[j] == before[j]);
                        let i = choose|i: int| 0 <= i < k && #[trigger] all@[i] == before[j];
                        assert(all@[i] == r@[j]);
                    } else {
                        assert(all@[k as int] == r@[j]);
                    }
                }
            }
            k = k + 1;
        }
        proof {
            assert forall|id: u64| some.dom().contains(id) implies #[trigger] lists(r@, id) by {
                assert(lists(all@, id));
                let i = choose|i: int| 0 <= i < all@.len() && (#[trigger] all@[i]).0 == id;
                assert(self@.owed.contains(all@[i].0));
            }
        }
        r
    }

    /// What the watcher does after a look at the live broker, where `observed` is the epoch that
    /// `watch` gave: come back where the broker was restarted, and where it lives on, ask once
    /// more for what is still owed.
    pub fn watched(&self, observed: u64, live: Option<u64>) -> (r: Watched)
        ensures
            watches(self@, observed, live, r),
    {
        if restarted(observed, live) {
            return Watched::ComeBack;
        }
        if live.is_none() || self.transport.epoch != observed {
            return Watched::Rest;
        }
        let list: Vec<(u64, Reg)> = self.replay_owed();
        if list.len() > 0 {
            proof {
                let id = list@[0].0;
                assert(self@.registry.restrict(self@.owed).dom().contains(id));
                assert(owes(self@, id));
            }
            Watched::BringBack(list)
        } else {
            assert forall|id: u64| !#[trigger] owes(self@, id) by {
                if owes(self@, id) {
                    assert(self@.registry.restrict(self@.owed).dom().contains(id));
                    assert(lists(list@, id));
                }
            }
            Watched::Rest
        }
    }
}

/// The rings of the registrations after the answers to some of them.
pub open spec fn rebound<R>(
    rings: Map<u64, R>,
    list: Seq<(u64, Reg)>,
    answers: Seq<Result<R, ClientError>>,
) -> Map<u64, R>
    decreases list.len(),
{
    if list.len() == 0 || answers.len() == 0 {
        rings
    } else {
        let before = rebound(rings, list.drop_last(), answers.drop_last());
        match rebind_of(list.last().0, answers.last()) {
            Rebind::Bind { id, ring } => before.insert(id, ring),
            Rebind::Keep { id, failed } => before,
        }
    }
}

// ---- what a connection can rely on ---------------------------------------------------------

/// A reply goes to the call that waits for it, and to no other; a second reply with the same
/// correlation id goes to nobody.
pub proof fn law_reply_reaches_its_call<P>(
    v: InnerView<P>,
    w: InnerView<P>,
    x: InnerView<P>,
    f: FrameView,
    corr: i64,
    slot: P,
    first: Dispatch<P>,
    second: Dispatch<P>,
)
    requires
        proto::catalog_good(),
        f.body.len() <= u32::MAX,
        proto::routes(f, corr),
        dispatches(
            (InnerView { pending: v.pending.insert(corr, slot), ..v }),
            w,
            f.wire(),
            first,
        ),
        dispatches(w, x, f.wire(), second),
    ensures
        first matches Dispatch::Deliver(to, frame) && to == slot && frame@ == f,
        w == (InnerView { pending: v.pending.remove(corr), ..v }),
        second == Dispatch::<P>::NoWaiter(corr),
{
    frame::law_decode_of_encode(f, Seq::empty());
    let v1 = InnerView { pending: v.pending.insert(corr, slot), ..v };
    assert forall|c: i64| #[trigger] proto::routes(f, c) implies c == corr by {
        proto::law_one_correlation(f, c, corr);
    }
    assert(v1.pending.remove(corr) =~= v.pending.remove(corr));
}

/// Coming back keeps all that the connection owns, and brings back exactly that; the broker that
/// is gone is not left a second time.
pub proof fn law_comes_back_with_everything<P>(
    v: InnerView<P>,
    fresh: Transport,
    list: Seq<(u64, Reg)>,
)
    requires
        v.wf(),
        fresh.epoch != v.transport.epoch,
    ensures
        reconnected(v, fresh).wf(),
        reconnected(v, fresh).registry == v.registry,
        reconnected(v, fresh).app_name == v.app_name,
        replays(reconnected(v, fresh).registry, list) <==> replays(v.registry, list),
        reconnected(v, fresh).transport.epoch != v.transport.epoch,
        forall|corr: i64| !#[trigger] reconnected(v, fresh).pending.dom().contains(corr),
{
}

/// Every registration is asked for once, as it was kept, and nothing else is. Whatever the
/// answers are, a registration whose answer grants a ring has that ring after them, and every
/// other ring stays as it was.
pub proof fn law_replay_rebinds<P, R>(
    v: InnerView<P>,
    rings: Map<u64, R>,
    list: Seq<(u64, Reg)>,
    answers: Seq<Result<R, ClientError>>,
)
    requires
        replays(v.registry, list),
        answers.len() == list.len(),
    ensures
        forall|id: u64| v.registry.dom().contains(id) ==> #[trigger] lists(list, id),
        forall|j: int|
            0 <= j < list.len() ==> {
                &&& v.registry.dom().contains((#[trigger] list[j]).0)
                &&& v.registry[list[j].0] == list[j].1
                &&& forall|i: int| 0 <= i < list.len() && (#[trigger] list[i]).0 == list[j].0 ==> i == j
                &&& match answers[j] {
                    Ok(ring) => rebound(rings, list, answers).dom().contains(list[j].0) && rebound(
                        rings,
                        list,
                        answers,
                    )[list[j].0] == ring,
                    Err(_) => rebound(rings, list, answers).dom().contains(list[j].0)
                        == rings.dom().contains(list[j].0) && rebound(rings, list, answers)[list[j].0]
                        == rings[list[j].0],
                }
            },
        forall|id: u64| #![trigger rebound(rings, list, answers).dom().contains(id)]
            !v.registry.dom().contains(id) ==> rebound(rings, list, answers).dom().contains(id)
                == rings.dom().contains(id) && rebound(rings, list, answers)[id] == rings[id],
{
    lemma_rebound(rings, list, answers);
    assert forall|id: u64| #![trigger rebound(rings, list, answers).dom().contains(id)]
        !v.registry.dom().contains(id) implies rebound(rings, list, answers).dom().contains(id)
            == rings.dom().contains(id) && rebound(rings, list, answers)[id] == rings[id] by {
        assert(!lists(list, id));
    }
}

proof fn lemma_rebound<R>(
    rings: Map<u64, R>,
    list: Seq<(u64, Reg)>,
    answers: Seq<Result<R, ClientError>>,
)
    requires
        answers.len() == list.len(),
        forall|i: int, j: int| 0 <= i < j < list.len() ==> list[i].0 != list[j].0,
    ensures
        forall|j: int|
            0 <= j < list.len() ==> match answers[j] {
                Ok(ring) => rebound(rings, list, answers).dom().contains((#[trigger] list[j]).0)
                    && rebound(rings, list, answers)[list[j].0] == ring,
                Err(_) => rebound(rings, list, answers).dom().contains(list[j].0)
                    == rings.dom().contains(list[j].0) && rebound(rings, list, answers)[list[j].0]
                    == rings[list[j].0],
            },
        forall|id: u64| #![trigger rebound(rings, list, answers).dom().contains(id)]
            !lists(list, id) ==> rebound(rings, list, answers).dom().contains(id)
                == rings.dom().contains(id) && rebound(rings, list, answers)[id] == rings[id],
    decreases list.len(),
{
    if list.len() > 0 {
        let l = list.drop_last();
        let a = answers.drop_last();
        lemma_rebound(rings, l, a);
        let n = list.len() - 1;
        let before = rebound(rings, l, a);
        let after = rebound(rings, list, answers);
        assert(!lists(l, list[n].0)) by {
            assert forall|j: int| 0 <= j < l.len() implies (#[trigger] l[j]).0 != list[n].0 by {
                assert(list[j].0 != list[n].0);
            }
        }
        assert(before.dom().contains(list[n].0) == rings.dom().contains(list[n].0));
        assert forall|j: int| 0 <= j < list.len() implies match answers[j] {
            Ok(ring) => after.dom().contains((#[trigger] list[j]).0) && after[list[j].0] == ring,
            Err(_) => after.dom().contains(list[j].0) == rings.dom().contains(list[j].0)
                && after[list[j].0] == rings[list[j].0],
        } by {
            if j < n {
                assert(l[j] == list[j] && a[j] == answers[j]);
                assert(list[j].0 != list[n].0);
            }
        }
        assert forall|id: u64| #![trigger after.dom().contains(id)] !lists(list, id) implies
            after.dom().contains(id) == rings.dom().contains(id) && after[id] == rings[id] by {
            assert(list[n].0 != id);
            assert(!lists(l, id)) by {
                assert forall|j: int| 0 <= j < l.len() implies (#[trigger] l[j]).0 != id by {
                    assert(list[j].0 != id);
                }
            }
            assert(before.dom().contains(id) == rings.dom().contains(id));
        }
    }
}

/// After the answers to all registrations, or to all that are owed, what the connection owns is
/// as it was, and exactly those are still owed whose answers grant nothing. While the broker
/// lives on, the watcher asks once more for these, each as it was kept, and for nothing where
/// there are none.
pub proof fn law_failed_is_asked_for_again<P, R>(
    v: InnerView<P>,
    list: Seq<(u64, Reg)>,
    answers: Seq<Result<R, ClientError>>,
    then: Watched,
)
    requires
        v.wf(),
        replays(v.registry, list) || replays(v.registry.restrict(v.owed), list),
        answers.len() == list.len(),
        watches(
            noted_all(v, rebinds_of(list, answers)),
            v.transport.epoch,
            Some(v.transport.epoch),
            then,
        ),
    ensures
        noted_all(v, rebinds_of(list, answers)) == (InnerView {
            owed: noted_all(v, rebinds_of(list, answers)).owed,
            ..v
        }),
        forall|j: int|
            0 <= j < list.len() ==> noted_all(v, rebinds_of(list, answers)).owed.contains(
                (#[trigger] list[j]).0,
            ) == answers[j] is Err,
        match then {
            Watched::ComeBack => false,
            Watched::BringBack(again) => {
                &&& exists|j: int| 0 <= j < list.len() && (#[trigger] answers[j]) is Err
                &&& forall|j: int|
                    0 <= j < list.len() ==> lists(again@, (#[trigger] list[j]).0) == answers[j] is Err
                &&& forall|k: int|
                    0 <= k < again@.len() ==> v.registry.dom().contains((#[trigger] again@[k]).0)
                        && v.registry[again@[k].0] == again@[k].1
            },
            Watched::Rest => forall|j: int| 0 <= j < list.len() ==> (#[trigger] answers[j]) is Ok,
        },
{
    assert forall|j: int| 0 <= j < list.len() implies v.registry.dom().contains(
        (#[trigger] list[j]).0,
    ) && v.registry[list[j].0] == list[j].1 by {
        if !replays(v.registry, list) {
            assert(v.registry.restrict(v.owed).dom().contains(list[j].0));
        }
    }
    lemma_noted(v, list, answers);
    let w = noted_all(v, rebinds_of(list, answers));
    let some = w.registry.restrict(w.owed);
    assert forall|j: int| 0 <= j < list.len() implies owes(w, (#[trigger] list[j]).0)
        == answers[j] is Err by {}
    match then {
        Watched::BringBack(again) => {
            let id = choose|id: u64| #[trigger] owes(w, id);
            if !lists(list, id) {
                assert(w.owed.contains(id));
                assert(v.owed.contains(id));
                assert(v.registry.restrict(v.owed).dom().contains(id));
            }
            let j = choose|j: int| 0 <= j < list.len() && (#[trigger] list[j]).0 == id;
            assert(answers[j] is Err);
            assert forall|j: int| 0 <= j < list.len() implies lists(again@, (#[trigger] list[j]).0)
                == answers[j] is Err by {
                let x = list[j].0;
                if answers[j] is Err {
                    assert(some.dom().contains(x));
                } else if lists(again@, x) {
                    let k = choose|k: int| 0 <= k < again@.len() && (#[trigger] again@[k]).0 == x;
                    assert(some.dom().contains(again@[k].0));
                }
            }
            assert forall|k: int| 0 <= k < again@.len() implies v.registry.dom().contains(
                (#[trigger] again@[k]).0,
            ) && v.registry[again@[k].0] == again@[k].1 by {
                assert(some.dom().contains(again@[k].0));
            }
        },
        _ => {
            assert forall|j: int| 0 <= j < list.len() implies (#[trigger] answers[j]) is Ok by {
                assert(!owes(w, list[j].0));
            }
        },
    }
}

proof fn lemma_noted<P, R>(
    v: InnerView<P>,
    list: Seq<(u64, Reg)>,
    answers: Seq<Result<R, ClientError>>,
)
    requires
        answers.len() == list.len(),
        forall|j: int| 0 <= j < list.len() ==> v.registry.dom().contains((#[trigger] list[j]).0),
        forall|i: int, j: int| 0 <= i < j < list.len() ==> list[i].0 != list[j].0,
    ensures
        noted_all(v, rebinds_of(list, answers)) == (InnerView {
            owed: noted_all(v, rebinds_of(list, answers)).owed,
            ..v
        }),
        forall|j: int|
            0 <= j < list.len() ==> noted_all(v, rebinds_of(list, answers)).owed.contains(
                (#[trigger] list[j]).0,
            ) == answers[j] is Err,
        forall|id: u64| #[trigger]
            noted_all(v, rebinds_of(list, answers)).owed.contains(id) && !lists(list, id)
                ==> v.owed.contains(id),
    decreases list.len(),
{
    if list.len() > 0 {
        let n = list.len() - 1;
        let l = list.drop_last();
        let a = answers.drop_last();
        lemma_noted(v, l, a);
        assert(rebinds_of(list, answers).drop_last() =~= rebinds_of(l, a));
        let w = noted_all(v, rebinds_of(l, a));
        let x = noted_all(v, rebinds_of(list, answers));
        assert(x == noted(w, rebind_of(list[n].0, answers[n])));
        assert(v.registry.dom().contains(list[n].0));
        assert forall|j: int| 0 <= j < list.len() implies x.owed.contains((#[trigger] list[j]).0)
            == answers[j] is Err by {
            if j < n {
                assert(l[j] == list[j] && a[j] == answers[j]);
                assert(list[j].0 != list[n].0);
            }
        }
        assert forall|id: u64| #[trigger] x.owed.contains(id) && !lists(list, id) implies v.owed.contains(
            id,
        ) by {
            assert(list[n].0 != id);
            assert(w.owed.contains(id));
            if lists(l, id) {
                let j = choose|j: int| 0 <= j < l.len() && (#[trigger] l[j]).0 == id;
                assert(list[j].0 == id);
            }
        }
    }
}

/// Every registration is brought back as long as it is kept, and not once it was forgotten.
pub proof fn law_forgotten_is_not_brought_back<P>(
    v: InnerView<P>,
    id: u64,
    list: Seq<(u64, Reg)>,
)
    requires
        replays(v.registry.remove(id), list),
    ensures
        !lists(list, id),
        forall|other: u64|
            other != id && v.registry.dom().contains(other) ==> #[trigger] lists(list, other),
{
    assert forall|other: u64| other != id && v.registry.dom().contains(other) implies #[trigger] lists(
        list,
        other,
    ) by {
        assert(v.registry.remove(id).dom().contains(other));
    }
}

// ---- what the broker reads in a request -----------------------------------------------------

proof fn lemma_asked<T: Message>(kind: Kind, m: T, r: Result<Frame, ClientError>, back: Option<T>)
    requires
        requests(kind, m.fields(), r),
        T::shape() == proto::kind_shape(kind),
        avro::sized(m.fields()),
        r matches Ok(f) ==> proto::read_as::<T>(proto::schema_text(kind), f.body@, back),
    ensures
        r is Ok,
        back matches Some(n) && n.fields() == m.fields(),
{
    m.lemma_typed();
}

/// The request to join, as the broker reads it: the name of the application, the nonce and the
/// reply segment of the transport, and the process.
pub proof fn law_join_is_asked<P>(
    inner: Inner<P>,
    catalog: Catalog,
    corr: i64,
    pid: i64,
    meant: Register,
    r: Result<Frame, ClientError>,
    read: Result<Register, ProtoError>,
)
    requires
        call_ensures(Inner::<P>::do_register, (&inner, &catalog, corr, pid), r),
        r matches Ok(f) ==> call_ensures(
            proto::from_frame::<Register>,
            (&catalog, Kind::Register, &f),
            read,
        ),
        meant.correlation_id == corr,
        meant.app_name@ == inner.app_name@,
        meant.nonce as u64 == inner.transport.nonce,
        meant.reply_segment@ == inner.transport.reply_segment@,
        meant.heartbeat_ms == HEARTBEAT_MS,
        meant.pid == pid,
        avro::sized(meant.fields()),
    ensures
        r matches Ok(f) && f.flags == 0 && f.schema_fp as nat == proto::kind_fp(Kind::Register),
        read is Ok,
        read->Ok_0.correlation_id == corr,
        read->Ok_0.app_name@ == inner.app_name@,
        read->Ok_0.nonce as u64 == inner.transport.nonce,
        read->Ok_0.reply_segment@ == inner.transport.reply_segment@,
        read->Ok_0.heartbeat_ms == HEARTBEAT_MS,
        read->Ok_0.pid == pid,
{
    proto::law_fingerprint_as_long(0, meant.nonce);
    proto::law_fingerprint_as_long(inner.transport.nonce, 0);
    lemma_asked(Kind::Register, meant, r, read.ok());
    let n = read->Ok_0;
    assert(n.fields().fields[0] == meant.fields().fields[0]);
    assert(n.fields().fields[1] == meant.fields().fields[1]);
    assert(n.fields().fields[2] == meant.fields().fields[2]);
    assert(n.fields().fields[3] == meant.fields().fields[3]);
    assert(n.fields().fields[4] == meant.fields().fields[4]);
    assert(n.fields().fields[5] == meant.fields().fields[5]);
}

/// The request for a channel, as the broker reads it: its name, its schema, and the key that it
/// is to ask for, none where none is given.
pub proof fn law_publish_is_asked<P>(
    inner: Inner<P>,
    catalog: Catalog,
    corr: i64,
    name: &str,
    schema_json: &str,
    key: Option<&str>,
    meant: PublishChannel,
    r: Result<Frame, ClientError>,
    read: Result<PublishChannel, ProtoError>,
)
    requires
        call_ensures(Inner::<P>::do_publish, (&inner, &catalog, corr, name, schema_json, key), r),
        r matches Ok(f) ==> call_ensures(
            proto::from_frame::<PublishChannel>,
            (&catalog, Kind::PublishChannel, &f),
            read,
        ),
        meant.correlation_id == corr,
        meant.client_id == inner.transport.client_id,
        meant.channel@ == name@,
        meant.schema_json@ == schema_json@,
        meant.access_key@ == match key {
            Some(k) => k@,
            None => Seq::<char>::empty(),
        },
        avro::sized(meant.fields()),
    ensures
        r matches Ok(f) && f.flags == 0
            && f.schema_fp as nat == proto::kind_fp(Kind::PublishChannel),
        read is Ok,
        read->Ok_0.correlation_id == corr,
        read->Ok_0.client_id == inner.transport.client_id,
        read->Ok_0.channel@ == name@,
        read->Ok_0.schema_json@ == schema_json@,
        read->Ok_0.access_key@ == match key {
            Some(k) => k@,
            None => Seq::<char>::empty(),
        },
{
    reveal_strlit("");
    assert(""@ =~= Seq::<char>::empty());
    lemma_asked(Kind::PublishChannel, meant, r, read.ok());
    let n = read->Ok_0;
    assert(n.fields().fields[0] == meant.fields().fields[0]);
    assert(n.fields().fields[1] == meant.fields().fields[1]);
    assert(n.fields().fields[2] == meant.fields().fields[2]);
    assert(n.fields().fields[3] == meant.fields().fields[3]);
    assert(n.fields().fields[4] == meant.fields().fields[4]);
}

/// The request for the channels on the bus, as the broker reads it.
pub proof fn law_list_is_asked<P>(
    inner: Inner<P>,
    catalog: Catalog,
    corr: i64,
    meant: ListChannels,
    r: Result<Frame, ClientError>,
    read: Result<ListChannels, ProtoError>,
)
    requires
        call_ensures(Inner::<P>::list_channels, (&inner, &catalog, corr), r),
        r matches Ok(f) ==> call_ensures(
            proto::from_frame::<ListChannels>,
            (&catalog, Kind::ListChannels, &f),
            read,
        ),
        meant.correlation_id == corr,
        meant.client_id == inner.transport.client_id,
        avro::sized(meant.fields()),
    ensures
        r matches Ok(f) && f.flags == 0 && f.schema_fp as nat == proto::kind_fp(Kind::ListChannels),
        read is Ok,
        read->Ok_0.correlation_id == corr,
        read->Ok_0.client_id == inner.transport.client_id,
{
    lemma_asked(Kind::ListChannels, meant, r, read.ok());
    let n = read->Ok_0;
    assert(n.fields().fields[0] == meant.fields().fields[0]);
    assert(n.fields().fields[1] == meant.fields().fields[1]);
}

/// The request to read a channel, as the broker reads it: the channel, the key that is presented,
/// none where none is given, and the fingerprint that is expected.
pub proof fn law_subscribe_is_asked<P>(
    inner: Inner<P>,
    catalog: Catalog,
    corr: i64,
    channel_id: i64,
    key: Option<&str>,
    expected_fp: Fingerprint,
    meant: Subscribe,
    r: Result<Frame, ClientError>,
    read: Result<Subscribe, ProtoError>,
)
    requires
        call_ensures(
            Inner::<P>::do_subscribe,
            (&inner, &catalog, corr, channel_id, key, expected_fp),
            r,
        ),
        r matches Ok(f) ==> call_ensures(
            proto::from_frame::<Subscribe>,
            (&catalog, Kind::Subscribe, &f),
            read,
        ),
        meant.correlation_id == corr,
        meant.client_id == inner.transport.client_id,
        meant.channel_id == channel_id,
        meant.access_key@ == match key {
            Some(k) => k@,
            None => Seq::<char>::empty(),
        },
        meant.expected_fp as u64 == expected_fp,
        avro::sized(meant.fields()),
    ensures
        r matches Ok(f) && f.flags == 0 && f.schema_fp as nat == proto::kind_fp(Kind::Subscribe),
        read is Ok,
        read->Ok_0.correlation_id == corr,
        read->Ok_0.client_id == inner.transport.client_id,
        read->Ok_0.channel_id == channel_id,
        read->Ok_0.access_key@ == match key {
            Some(k) => k@,
            None => Seq::<char>::empty(),
        },
        read->Ok_0.expected_fp as u64 == expected_fp,
{
    proto::law_fingerprint_as_long(0, meant.expected_fp);
    proto::law_fingerprint_as_long(expected_fp, 0);
    reveal_strlit("");
    assert(""@ =~= Seq::<char>::empty());
    lemma_asked(Kind::Subscribe, meant, r, read.ok());
    let n = read->Ok_0;
    assert(n.fields().fields[0] == meant.fields().fields[0]);
    assert(n.fields().fields[1] == meant.fields().fields[1]);
    assert(n.fields().fields[2] == meant.fields().fields[2]);
    assert(n.fields().fields[3] == meant.fields().fields[3]);
    assert(n.fields().fields[4] == meant.fields().fields[4]);
}

/// The offer of a function, as the broker reads it: its name, the schemas of its arguments and of
/// its results, the key that it is to ask for, none where none is given, and the size of its arena.
pub proof fn law_expose_is_asked<P>(
    inner: Inner<P>,
    catalog: Catalog,
    corr: i64,
    name: &str,
    req_schema_json: &str,
    resp_schema_json: &str,
    key: Option<&str>,
    arena_cap: i64,
    meant: ExposeFunction,
    r: Result<Frame, ClientError>,
    read: Result<ExposeFunction, ProtoError>,
)
    requires
        call_ensures(
            Inner::<P>::do_expose,
            (&inner, &catalog, corr, name, req_schema_json, resp_schema_json, key, arena_cap),
            r,
        ),
        r matches Ok(f) ==> call_ensures(
            proto::from_frame::<ExposeFunction>,
            (&catalog, Kind::ExposeFunction, &f),
            read,
        ),
        meant.correlation_id == corr,
        meant.client_id == inner.transport.client_id,
        meant.fn_name@ == name@,
        meant.req_schema_json@ == req_schema_json@,
        meant.resp_schema_json@ == resp_schema_json@,
        meant.access_key@ == match key {
            Some(k) => k@,
            None => Seq::<char>::empty(),
        },
        meant.req_arena_cap == arena_cap,
        avro::sized(meant.fields()),
    ensures
        r matches Ok(f) && f.flags == 0
            && f.schema_fp as nat == proto::kind_fp(Kind::ExposeFunction),
        read is Ok,
        read->Ok_0.correlation_id == corr,
        read->Ok_0.client_id == inner.transport.client_id,
        read->Ok_0.fn_name@ == name@,
        read->Ok_0.req_schema_json@ == req_schema_json@,
        read->Ok_0.resp_schema_json@ == resp_schema_json@,
        read->Ok_0.access_key@ == match key {
            Some(k) => k@,
            None => Seq::<char>::empty(),
        },
        read->Ok_0.req_arena_cap == arena_cap,
{
    reveal_strlit("");
    assert(""@ =~= Seq::<char>::empty());
    lemma_asked(Kind::ExposeFunction, meant, r, read.ok());
    let n = read->Ok_0;
    assert(n.fields().fields[0] == meant.fields().fields[0]);
    assert(n.fields().fields[1] == meant.fields().fields[1]);
    assert(n.fields().fields[2] == meant.fields().fields[2]);
    assert(n.fields().fields[3] == meant.fields().fields[3]);
    assert(n.fields().fields[4] == meant.fields().fields[4]);
    assert(n.fields().fields[5] == meant.fields().fields[5]);
    assert(n.fields().fields[6] == meant.fields().fields[6]);
}

/// The request for a function, as the broker reads it: its name, and the key that is presented,
/// none where none is given.
pub proof fn law_lookup_is_asked<P>(
    inner: Inner<P>,
    catalog: Catalog,
    corr: i64,
    fn_name: &str,
    key: Option<&str>,
    meant: LookupFunction,
    r: Result<Frame, ClientError>,
    read: Result<LookupFunction, ProtoError>,
)
    requires
        call_ensures(Inner::<P>::do_lookup, (&inner, &catalog, corr, fn_name, key), r),
        r matches Ok(f) ==> call_ensures(
            proto::from_frame::<LookupFunction>,
            (&catalog, Kind::LookupFunction, &f),
            read,
        ),
        meant.correlation_id == corr,
        meant.client_id == inner.transport.client_id,
        meant.fn_name@ == fn_name@,
        meant.access_key@ == match key {
            Some(k) => k@,
            None => Seq::<char>::empty(),
        },
        avro::sized(meant.fields()),
    ensures
        r matches Ok(f) && f.flags == 0
            && f.schema_fp as nat == proto::kind_fp(Kind::LookupFunction),
        read is Ok,
        read->Ok_0.correlation_id == corr,
        read->Ok_0.client_id == inner.transport.client_id,
        read->Ok_0.fn_name@ == fn_name@,
        read->Ok_0.access_key@ == match key {
            Some(k) => k@,
            None => Seq::<char>::empty(),
        },
{
    reveal_strlit("");
    assert(""@ =~= Seq::<char>::empty());
    lemma_asked(Kind::LookupFunction, meant, r, read.ok());
    let n = read->Ok_0;
    assert(n.fields().fields[0] == meant.fields().fields[0]);
    assert(n.fields().fields[1] == meant.fields().fields[1]);
    assert(n.fields().fields[2] == meant.fields().fields[2]);
    assert(n.fields().fields[3] == meant.fields().fields[3]);
}

/// The goodbye, as the broker reads it.
pub proof fn law_leave_is_asked<P>(
    inner: Inner<P>,
    catalog: Catalog,
    corr: i64,
    meant: Unregister,
    r: Result<Frame, ClientError>,
    read: Result<Unregister, ProtoError>,
)
    requires
        call_ensures(Inner::<P>::send_unregister, (&inner, &catalog, corr), r),
        r matches Ok(f) ==> call_ensures(
            proto::from_frame::<Unregister>,
            (&catalog, Kind::Unregister, &f),
            read,
        ),
        meant.correlation_id == corr,
        meant.client_id == inner.transport.client_id,
        avro::sized(meant.fields()),
    ensures
        r matches Ok(f) && f.flags == 0 && f.schema_fp as nat == proto::kind_fp(Kind::Unregister),
        read is Ok,
        read->Ok_0.correlation_id == corr,
        read->Ok_0.client_id == inner.transport.client_id,
{
    lemma_asked(Kind::Unregister, meant, r, read.ok());
    let n = read->Ok_0;
    assert(n.fields().fields[0] == meant.fields().fields[0]);
    assert(n.fields().fields[1] == meant.fields().fields[1]);
}

/// The request that brings a registration back is the one that made it: for a channel the request
/// for the channel with its name, schema and key, for a function the offer with its name, schemas,
/// key and size, frame for frame.
pub proof fn law_replay_asks_the_same<P>(
    inner: Inner<P>,
    catalog: Catalog,
    corr: i64,
    reg: Reg,
    name: &str,
    schema_json: &str,
    resp_schema_json: &str,
    key: Option<&str>,
    arena_cap: i64,
    first: Frame,
    again: Result<Frame, ClientError>,
)
    requires
        match reg {
            Reg::Channel { name: n, schema_json: s, key: k } => {
                &&& n@ == name@ && s@ == schema_json@
                &&& k is Some <==> key is Some
                &&& k is Some ==> k->Some_0@ == key->Some_0@
                &&& call_ensures(
                    Inner::<P>::do_publish,
                    (&inner, &catalog, corr, name, schema_json, key),
                    Ok::<Frame, ClientError>(first),
                )
            },
            Reg::Function {
                name: n,
                req_schema_json: s,
                resp_schema_json: t,
                key: k,
                arena_cap: c,
            } => {
                &&& n@ == name@ && s@ == schema_json@ && t@ == resp_schema_json@ && c == arena_cap
                &&& k is Some <==> key is Some
                &&& k is Some ==> k->Some_0@ == key->Some_0@
                &&& call_ensures(
                    Inner::<P>::do_expose,
                    (
                        &inner,
                        &catalog,
                        corr,
                        name,
                        schema_json,
                        resp_schema_json,
                        key,
                        arena_cap,
                    ),
                    Ok::<Frame, ClientError>(first),
                )
            },
        },
        call_ensures(Inner::<P>::replay_request, (&inner, &catalog, corr, &reg), again),
    ensures
        again matches Ok(f) && f@ == first@,
{
}

/// The request that brings a channel back, as the broker reads it: the channel that was made, with
/// the key that it was made with, none where it was made without.
pub proof fn law_channel_is_brought_back<P>(
    inner: Inner<P>,
    catalog: Catalog,
    corr: i64,
    name: String,
    schema_json: String,
    key: Option<String>,
    meant: PublishChannel,
    r: Result<Frame, ClientError>,
    read: Result<PublishChannel, ProtoError>,
)
    requires
        call_ensures(
            Inner::<P>::replay_request,
            (&inner, &catalog, corr, &Reg::Channel { name, schema_json, key }),
            r,
        ),
        r matches Ok(f) ==> call_ensures(
            proto::from_frame::<PublishChannel>,
            (&catalog, Kind::PublishChannel, &f),
            read,
        ),
        meant.correlation_id == corr,
        meant.client_id == inner.transport.client_id,
        meant.channel@ == name@,
        meant.schema_json@ == schema_json@,
        meant.access_key@ == match key {
            Some(k) => k@,
            None => Seq::<char>::empty(),
        },
        avro::sized(meant.fields()),
    ensures
        r is Ok,
        read matches Ok(n) && n.correlation_id == corr && n.client_id == inner.transport.client_id
            && n.channel@ == name@ && n.schema_json@ == schema_json@,
        key matches Some(k) ==> read->Ok_0.access_key@ == k@,
        key is None ==> read->Ok_0.access_key@.len() == 0,
{
    reveal_strlit("");
    assert(""@ =~= Seq::<char>::empty());
    lemma_asked(Kind::PublishChannel, meant, r, read.ok());
    let n = read->Ok_0;
    assert(n.fields().fields[0] == meant.fields().fields[0]);
    assert(n.fields().fields[1] == meant.fields().fields[1]);
    assert(n.fields().fields[2] == meant.fields().fields[2]);
    assert(n.fields().fields[3] == meant.fields().fields[3]);
    assert(n.fields().fields[4] == meant.fields().fields[4]);
}

/// The request that brings a function back, as the broker reads it: the function that was offered,
/// with the key and the size that it was offered with, no key where it was offered without.
pub proof fn law_function_is_brought_back<P>(
    inner: Inner<P>,
    catalog: Catalog,
    corr: i64,
    name: String,
    req_schema_json: String,
    resp_schema_json: String,
    key: Option<String>,
    arena_cap: i64,
    meant: ExposeFunction,
    r: Result<Frame, ClientError>,
    read: Result<ExposeFunction, ProtoError>,
)
    requires
        call_ensures(
            Inner::<P>::replay_request,
            (
                &inner,
                &catalog,
                corr,
                &Reg::Function { name, req_schema_json, resp_schema_json, key, arena_cap },
            ),
            r,
        ),
        r matches Ok(f) ==> call_ensures(
            proto::from_frame::<ExposeFunction>,
            (&catalog, Kind::ExposeFunction, &f),
            read,
        ),
        meant.correlation_id == corr,
        meant.client_id == inner.transport.client_id,
        meant.fn_name@ == name@,
        meant.req_schema_json@ == req_schema_json@,
        meant.resp_schema_json@ == resp_schema_json@,
        meant.access_key@ == match key {
            Some(k) => k@,
            None => Seq::<char>::empty(),
        },
        meant.req_arena_cap == arena_cap,
        avro::sized(meant.fields()),
    ensures
        r is Ok,
        read matches Ok(n) && n.correlation_id == corr && n.client_id == inner.transport.client_id
            && n.fn_name@ == name@ && n.req_schema_json@ == req_schema_json@ && n.resp_schema_json@
            == resp_schema_json@ && n.req_arena_cap == arena_cap,
        key matches Some(k) ==> read->Ok_0.access_key@ == k@,
        key is None ==> read->Ok_0.access_key@.len() == 0,
{
    reveal_strlit("");
    assert(""@ =~= Seq::<char>::empty());
    lemma_asked(Kind::ExposeFunction, meant, r, read.ok());
    let n = read->Ok_0;
    assert(n.fields().fields[0] == meant.fields().fields[0]);
    assert(n.fields().fields[1] == meant.fields().fields[1]);
    assert(n.fields().fields[2] == meant.fields().fields[2]);
    assert(n.fields().fields[3] == meant.fields().fields[3]);
    assert(n.fields().fields[4] == meant.fields().fields[4]);
    assert(n.fields().fields[5] == meant.fields().fields[5]);
    assert(n.fields().fields[6] == meant.fields().fields[6]);
}

// ---- what a connector reads in an answer ----------------------------------------------------

proof fn lemma_answered<T: Message>(kind: Kind, m: T, f: Frame, back: Option<T>)
    requires
        avro::conforms(m.fields(), proto::kind_shape(kind)) ==> avro::avro_read(
            proto::schema_text(kind),
            f.body@,
        ) == Some(m.fields()),
        T::shape() == proto::kind_shape(kind),
        avro::sized(m.fields()),
        proto::read_as::<T>(proto::schema_text(kind), f.body@, back),
    ensures
        back matches Some(n) && n.fields() == m.fields(),
{
    m.lemma_typed();
}

/// What a connector makes of the answer to its request for a channel: the arena and the
/// fingerprint that the broker names where the channel is granted, the broker's words otherwise.
pub proof fn law_published_says(
    catalog: Catalog,
    m: PublishReply,
    f: Frame,
    r: Result<(String, Fingerprint), ClientError>,
)
    requires
        call_ensures(
            proto::to_frame::<PublishReply>,
            (&catalog, Kind::PublishReply, &m),
            Ok::<Frame, avro::AvroError>(f),
        ),
        call_ensures(published, (&catalog, &f), r),
        avro::sized(m.fields()),
    ensures
        m.status == status::OK ==> (r matches Ok((arena, fp)) && arena@ == m.arena@
            && fp == m.schema_fp as u64),
        m.status != status::OK ==> (r matches Err(ClientError::Refused { request, words })
            && request == Request::Publish && words@ == m.message@),
{
    m.lemma_typed();
    let json = proto::schema_text(Kind::PublishReply);
    assert(!proto::read_as::<PublishReply>(json, f.body@, None));
    assert forall|n: PublishReply| #[trigger] proto::read_as(json, f.body@, Some(n))
        implies n.fields()
        == m.fields() by {
        lemma_answered(Kind::PublishReply, m, f, Some(n));
    }
    let n = choose|n: PublishReply| #[trigger]
        proto::read_as(json, f.body@, Some(n)) && if n.status == status::OK {
            r matches Ok((arena, fp)) && arena@ == n.arena@ && fp == n.schema_fp as u64
        } else {
            r matches Err(e) && refused(e, Request::Publish, n.message@)
        };
    assert(n.fields().fields[0] == m.fields().fields[0]);
    assert(n.fields().fields[1] == m.fields().fields[1]);
    assert(n.fields().fields[2] == m.fields().fields[2]);
    assert(n.fields().fields[3] == m.fields().fields[3]);
    assert(n.fields().fields[4] == m.fields().fields[4]);
    assert(n.fields().fields[5] == m.fields().fields[5]);
}

/// What a connector makes of the answer to its request to read a channel: the arena and the
/// fingerprint that the broker names where it may, the broker's words otherwise.
pub proof fn law_subscribed_says(
    catalog: Catalog,
    m: SubscribeReply,
    f: Frame,
    r: Result<(String, Fingerprint), ClientError>,
)
    requires
        call_ensures(
            proto::to_frame::<SubscribeReply>,
            (&catalog, Kind::SubscribeReply, &m),
            Ok::<Frame, avro::AvroError>(f),
        ),
        call_ensures(subscribed, (&catalog, &f), r),
        avro::sized(m.fields()),
    ensures
        m.status == status::OK ==> (r matches Ok((arena, fp)) && arena@ == m.arena@
            && fp == m.schema_fp as u64),
        m.status != status::OK ==> (r matches Err(ClientError::Refused { request, words })
            && request == Request::Subscribe && words@ == m.message@),
{
    m.lemma_typed();
    let json = proto::schema_text(Kind::SubscribeReply);
    assert(!proto::read_as::<SubscribeReply>(json, f.body@, None));
    assert forall|n: SubscribeReply| #[trigger] proto::read_as(json, f.body@, Some(n))
        implies n.fields()
        == m.fields() by {
        lemma_answered(Kind::SubscribeReply, m, f, Some(n));
    }
    let n = choose|n: SubscribeReply| #[trigger]
        proto::read_as(json, f.body@, Some(n)) && if n.status == status::OK {
            r matches Ok((arena, fp)) && arena@ == n.arena@ && fp == n.schema_fp as u64
        } else {
            r matches Err(e) && refused(e, Request::Subscribe, n.message@)
        };
    assert(n.fields().fields[0] == m.fields().fields[0]);
    assert(n.fields().fields[1] == m.fields().fields[1]);
    assert(n.fields().fields[2] == m.fields().fields[2]);
    assert(n.fields().fields[3] == m.fields().fields[3]);
    assert(n.fields().fields[4] == m.fields().fields[4]);
}

/// What a connector makes of the answer to its offer of a function: the arena and the
/// fingerprints that the broker names where the function is granted, the broker's words otherwise.
pub proof fn law_exposed_says(
    catalog: Catalog,
    m: ExposeReply,
    f: Frame,
    r: Result<(String, Fingerprint, Fingerprint), ClientError>,
)
    requires
        call_ensures(
            proto::to_frame::<ExposeReply>,
            (&catalog, Kind::ExposeReply, &m),
            Ok::<Frame, avro::AvroError>(f),
        ),
        call_ensures(exposed, (&catalog, &f), r),
        avro::sized(m.fields()),
    ensures
        m.status == status::OK ==> (r matches Ok((arena, req_fp, resp_fp))
            && arena@ == m.req_arena@ && req_fp == m.req_fp as u64 && resp_fp == m.resp_fp as u64),
        m.status != status::OK ==> (r matches Err(ClientError::Refused { request, words })
            && request == Request::Expose && words@ == m.message@),
{
    m.lemma_typed();
    let json = proto::schema_text(Kind::ExposeReply);
    assert(!proto::read_as::<ExposeReply>(json, f.body@, None));
    assert forall|n: ExposeReply| #[trigger] proto::read_as(json, f.body@, Some(n))
        implies n.fields()
        == m.fields() by {
        lemma_answered(Kind::ExposeReply, m, f, Some(n));
    }
    let n = choose|n: ExposeReply| #[trigger]
        proto::read_as(json, f.body@, Some(n)) && if n.status == status::OK {
            r matches Ok((arena, req_fp, resp_fp)) && arena@ == n.req_arena@ && req_fp
                == n.req_fp as u64 && resp_fp == n.resp_fp as u64
        } else {
            r matches Err(e) && refused(e, Request::Expose, n.message@)
        };
    assert(n.fields().fields[0] == m.fields().fields[0]);
    assert(n.fields().fields[1] == m.fields().fields[1]);
    assert(n.fields().fields[2] == m.fields().fields[2]);
    assert(n.fields().fields[3] == m.fields().fields[3]);
    assert(n.fields().fields[4] == m.fields().fields[4]);
    assert(n.fields().fields[5] == m.fields().fields[5]);
    assert(n.fields().fields[6] == m.fields().fields[6]);
}

/// What a connector makes of the answer to its request for a function: the function's id, arena
/// and fingerprints where it may call it, the broker's words otherwise.
pub proof fn law_looked_up_says(
    catalog: Catalog,
    m: LookupReply,
    f: Frame,
    r: Result<LookupReply, ClientError>,
)
    requires
        call_ensures(
            proto::to_frame::<LookupReply>,
            (&catalog, Kind::LookupReply, &m),
            Ok::<Frame, avro::AvroError>(f),
        ),
        call_ensures(looked_up, (&catalog, &f), r),
        avro::sized(m.fields()),
    ensures
        m.status == status::OK ==> (r matches Ok(n) && n.fn_id == m.fn_id
            && n.req_fp == m.req_fp && n.resp_fp == m.resp_fp && n.req_arena@ == m.req_arena@),
        m.status != status::OK ==> (r matches Err(ClientError::Refused { request, words })
            && request == Request::Lookup && words@ == m.message@),
{
    m.lemma_typed();
    let json = proto::schema_text(Kind::LookupReply);
    assert(!proto::read_as::<LookupReply>(json, f.body@, None));
    assert forall|n: LookupReply| #[trigger] proto::read_as(json, f.body@, Some(n))
        implies n.fields()
        == m.fields() by {
        lemma_answered(Kind::LookupReply, m, f, Some(n));
    }
    let n = choose|n: LookupReply| #[trigger]
        proto::read_as(json, f.body@, Some(n)) && if n.status == status::OK {
            r == Ok::<LookupReply, ClientError>(n)
        } else {
            r matches Err(e) && refused(e, Request::Lookup, n.message@)
        };
    assert(n.fields().fields[0] == m.fields().fields[0]);
    assert(n.fields().fields[1] == m.fields().fields[1]);
    assert(n.fields().fields[2] == m.fields().fields[2]);
    assert(n.fields().fields[3] == m.fields().fields[3]);
    assert(n.fields().fields[4] == m.fields().fields[4]);
    assert(n.fields().fields[5] == m.fields().fields[5]);
    assert(n.fields().fields[6] == m.fields().fields[6]);
}

/// What a connector makes of the list of channels: every channel as the broker listed it, in the
/// broker's order.
pub proof fn law_listed_says(
    catalog: Catalog,
    m: ChannelList,
    f: Frame,
    r: Result<Vec<ChannelInfo>, ClientError>,
)
    requires
        call_ensures(
            proto::to_frame::<ChannelList>,
            (&catalog, Kind::ChannelList, &m),
            Ok::<Frame, avro::AvroError>(f),
        ),
        call_ensures(listed, (&catalog, &f), r),
        avro::sized(m.fields()),
    ensures
        r matches Ok(channels) && channels@.len() == m.channels@.len() && forall|i: int|
            0 <= i < m.channels@.len() ==> {
                &&& (#[trigger] channels@[i]).channel_id == m.channels@[i].channel_id
                &&& channels@[i].name@ == m.channels@[i].name@
                &&& channels@[i].owner_app@ == m.channels@[i].owner_app@
                &&& channels@[i].schema_fp == m.channels@[i].schema_fp
                &&& channels@[i].requires_key == m.channels@[i].requires_key
            },
{
    m.lemma_typed();
    let json = proto::schema_text(Kind::ChannelList);
    assert(!proto::read_as::<ChannelList>(json, f.body@, None));
    let channels = r->Ok_0;
    let n = choose|n: ChannelList| #[trigger]
        proto::read_as(json, f.body@, Some(n)) && n.channels == channels;
    lemma_answered(Kind::ChannelList, m, f, Some(n));
    assert(n.fields().rows.len() == channels@.len() && m.fields().rows.len() == m.channels@.len());
    assert forall|i: int| 0 <= i < m.channels@.len() implies {
        &&& (#[trigger] channels@[i]).channel_id == m.channels@[i].channel_id
        &&& channels@[i].name@ == m.channels@[i].name@
        &&& channels@[i].owner_app@ == m.channels@[i].owner_app@
        &&& channels@[i].schema_fp == m.channels@[i].schema_fp
        &&& channels@[i].requires_key == m.channels@[i].requires_key
    } by {
        let x = channels@[i].row();
        let y = m.channels@[i].row();
        assert(n.fields().rows[i] == x && m.fields().rows[i] == y);
        assert(x[0] == y[0] && x[1] == y[1] && x[2] == y[2] && x[3] == y[3] && x[4] == y[4]);
    }
}

/// What the answer to the request to join does: the connection goes by the id that the broker
/// gave it, and is otherwise as it was; a refusal changes nothing.
pub proof fn law_registered_says<P>(
    catalog: Catalog,
    m: RegisterReply,
    f: Frame,
    inner: &mut Inner<P>,
    r: Result<i64, ClientError>,
)
    requires
        call_ensures(
            proto::to_frame::<RegisterReply>,
            (&catalog, Kind::RegisterReply, &m),
            Ok::<Frame, avro::AvroError>(f),
        ),
        call_ensures(Inner::<P>::registered, (inner, &catalog, &f), r),
        avro::sized(m.fields()),
    ensures
        m.status == status::OK ==> r == Ok::<i64, ClientError>(m.client_id)
            && final(inner)@.transport.client_id == m.client_id,
        m.status != status::OK ==> (r matches Err(ClientError::Refused { request, words })
            && request == Request::Register && words@ == m.message@)
                && final(inner)@ == old(inner)@,
        final(inner)@.app_name == old(inner)@.app_name,
        final(inner)@.transport.nonce == old(inner)@.transport.nonce,
        final(inner)@.transport.epoch == old(inner)@.transport.epoch,
        final(inner)@.transport.reply_segment == old(inner)@.transport.reply_segment,
        final(inner)@.registry == old(inner)@.registry,
        final(inner)@.reg_seq == old(inner)@.reg_seq,
        final(inner)@.owed == old(inner)@.owed,
        final(inner)@.running == old(inner)@.running,
        final(inner)@.auto_reconnect == old(inner)@.auto_reconnect,
        final(inner)@.pending == old(inner)@.pending,
{
    m.lemma_typed();
    let json = proto::schema_text(Kind::RegisterReply);
    assert(!proto::read_as::<RegisterReply>(json, f.body@, None));
    let v = old(inner)@;
    let w = final(inner)@;
    let n = choose|n: RegisterReply| #[trigger]
        proto::read_as(json, f.body@, Some(n)) && if n.status == status::OK {
            r == Ok::<i64, ClientError>(n.client_id) && w == (InnerView {
                transport: Transport { client_id: n.client_id, ..v.transport },
                ..v
            })
        } else {
            w == v && (r matches Err(e) && refused(e, Request::Register, n.message@))
        };
    lemma_answered(Kind::RegisterReply, m, f, Some(n));
    assert(n.fields().fields[1] == m.fields().fields[1]);
    assert(n.fields().fields[2] == m.fields().fields[2]);
    assert(n.fields().fields[3] == m.fields().fields[3]);
}

// ---- errors, waiting and coming back, call by call ------------------------------------------

/// An error means that the broker stopped answering exactly where nobody answered in time, where
/// something was not there, and where its words say that the submission ring is full. A refusal
/// is told in the broker's words, a failure of a function in the service's, and one of the system
/// in the system's.
pub proof fn law_errors_say_what_failed(e: ClientError, kind: ErrorKind, words: String, gone: bool)
    requires
        call_ensures(ClientError::kind, (&e,), kind),
        call_ensures(ClientError::message, (&e,), words),
        call_ensures(broker_unreachable, (&e,), gone),
    ensures
        gone <==> kind == ErrorKind::TimedOut || kind == ErrorKind::NotFound || exists|at: int|
            0 <= at <= words@.len() - 20 && #[trigger] words@.subrange(at, at + 20)
                == "submission ring full"@,
        kind == (match e {
            ClientError::System { kind: k, words: _ } => k,
            ClientError::NoReply | ClientError::CallTimedOut => ErrorKind::TimedOut,
            _ => ErrorKind::Other,
        }),
        e is NoReply || e is SubmissionFull || e is CallTimedOut ==> gone,
        e matches ClientError::System { kind: _, words: w } ==> words@ == w@,
        e matches ClientError::Refused { request, words: w } ==> words@ == (match request {
            Request::Register => "register rejected: "@,
            Request::Publish => "publish failed: "@,
            Request::Subscribe => "subscribe failed: "@,
            Request::Expose => "expose failed: "@,
            Request::Lookup => "lookup failed: "@,
        }) + w@,
        e matches ClientError::Remote { status: s, words: w } ==> words@
            == "remote function error ("@ + text::signed(s as int) + "): "@ + w@,
        e matches ClientError::MessageSchema { expected, got } ==> words@
            == "message schema mismatch: expected "@ + "0x"@ + text::hex(expected as nat)
            + ", got 0x"@ + text::hex(got as nat),
        e matches ClientError::ResponseSchema { expected, got } ==> words@
            == "response schema mismatch: expected "@ + "0x"@ + text::hex(expected as nat)
            + ", got 0x"@ + text::hex(got as nat),
        e is SubmissionFull ==> words@ == "submission ring full (broker stuck?)"@,
        e is NoReply ==> words@ == "timed out waiting for broker reply"@,
        e is ChannelFull ==> words@ == "channel full (slow subscriber)"@,
        e is CallRequestSchema ==> words@ == "call rejected: request schema mismatch"@,
        e is CallResponseSchema ==> words@ == "call rejected: response schema mismatch"@,
        e is RequestRingFull ==> words@ == "function request ring full"@,
        e is CallTimedOut ==> words@ == "rpc call timed out"@,
        e is ReplyRingFull ==> words@ == "caller reply ring full"@,
{
    reveal_strlit("submission ring full");
    let p = "submission ring full"@;
    if exists|at: int| text::occurs_at(words@, p, at) {
        let at = choose|at: int| text::occurs_at(words@, p, at);
        assert(words@.subrange(at, at + 20) == p);
    }
    if exists|at: int|
        0 <= at <= words@.len() - 20 && #[trigger] words@.subrange(at, at + 20) == p {
        let at = choose|at: int|
            0 <= at <= words@.len() - 20 && #[trigger] words@.subrange(at, at + 20) == p;
        assert(text::occurs_at(words@, p, at));
    }
    if e is SubmissionFull {
        reveal_strlit("submission ring full (broker stuck?)");
        assert(words@.subrange(0, 20) =~= p);
        assert(text::occurs_at(words@, p, 0));
    }
}

/// A control segment that cannot be opened is told with what the system said of it.
pub proof fn law_no_broker_is_told(
    kind: ErrorKind,
    words: &str,
    e: ClientError,
    k: ErrorKind,
    said: String,
)
    requires
        call_ensures(no_broker, (kind, words), e),
        call_ensures(ClientError::kind, (&e,), k),
        call_ensures(ClientError::message, (&e,), said),
    ensures
        k == kind,
        said@ == "cannot open control segment (is impulsed running?): "@ + words@,
{
}

/// A reply is taken once, by who polls for it or waits for it, even where the wait ran out as it
/// came; who polled in vain is woken by it, and who waits in vain sleeps or is told that the time
/// is up.
pub proof fn law_reply_is_handed_over<W>(
    empty: Slot<W>,
    first: &mut Slot<W>,
    put: &mut Slot<W>,
    taken: &mut Slot<W>,
    again: &mut Slot<W>,
    waited: &mut Slot<W>,
    waker: W,
    other: W,
    frame: Frame,
    timed_out: bool,
    none: Option<Frame>,
    woken: Option<W>,
    some: Option<Frame>,
    more: Option<Frame>,
    wait: Wait,
)
    requires
        call_ensures(Slot::<W>::new, (), empty),
        *old(first) == empty,
        call_ensures(Slot::<W>::poll, (first, waker), none),
        *old(put) == *final(first),
        call_ensures(Slot::<W>::complete, (put, frame), woken),
        *old(taken) == *final(put),
        call_ensures(Slot::<W>::poll, (taken, other), some),
        *old(again) == *final(taken),
        call_ensures(Slot::<W>::poll, (again, other), more),
        *old(waited) == *final(put) || *old(waited) == *final(taken),
        call_ensures(Slot::<W>::wait, (waited, timed_out), wait),
    ensures
        none is None,
        woken == Some(waker),
        some == Some(frame),
        more is None,
        *old(waited) == *final(put) ==> wait == Wait::Ready(frame) && final(waited).frame is None,
        *old(waited) == *final(taken) ==> if timed_out {
            wait is TimedOut
        } else {
            wait is Sleep
        },
{
}

/// A new transport has the reply segment of its nonce and no id yet; a connection on it goes by
/// its own name, runs, comes back by itself, owns nothing and waits for nothing.
pub proof fn law_connection_starts<P>(
    nonce: u64,
    epoch: u64,
    t: Transport,
    segment: String,
    app_name: &str,
    c: Inner<P>,
    id: i64,
    seen: u64,
    reply: String,
    running: bool,
    auto: bool,
    list: Vec<(u64, Reg)>,
)
    requires
        call_ensures(Transport::new, (nonce, epoch), t),
        call_ensures(util::client_segment, (nonce,), segment),
        call_ensures(Inner::<P>::start, (app_name, t), c),
        call_ensures(Inner::<P>::client_id, (&c,), id),
        call_ensures(Inner::<P>::epoch, (&c,), seen),
        call_ensures(Inner::<P>::reply_segment, (&c,), reply),
        call_ensures(Inner::<P>::running, (&c,), running),
        call_ensures(Inner::<P>::auto_reconnect, (&c,), auto),
        call_ensures(Inner::<P>::replay, (&c,), list),
    ensures
        id == 0,
        seen == epoch,
        reply@ == segment@,
        c.transport.nonce == nonce,
        c.app_name@ == app_name@,
        running && auto,
        list@.len() == 0,
        forall|corr: i64| !#[trigger] c.pending@.dom().contains(corr),
{
    if list@.len() > 0 {
        assert(c@.registry.dom().contains(list@[0].0));
    }
}

/// A connection that was stopped does not run, and one whose coming back was switched is switched;
/// each leaves everything else as it was. The watcher looks exactly where both are on, at the
/// broker that the connection is with.
pub proof fn law_switches<P>(
    stopped: &mut Inner<P>,
    switched: &mut Inner<P>,
    on: bool,
    c: Inner<P>,
    running: bool,
    auto: bool,
    looks: Option<u64>,
    epoch: u64,
)
    requires
        call_ensures(Inner::<P>::stop, (stopped,), ()),
        call_ensures(Inner::<P>::set_auto_reconnect, (switched, on), ()),
        call_ensures(Inner::<P>::running, (&c,), running),
        call_ensures(Inner::<P>::auto_reconnect, (&c,), auto),
        call_ensures(Inner::<P>::watch, (&c,), looks),
        call_ensures(Inner::<P>::epoch, (&c,), epoch),
    ensures
        c@ == final(stopped)@ ==> !running && auto == old(stopped)@.auto_reconnect && looks is None,
        c@ == final(switched)@ ==> auto == on && running == old(switched)@.running,
        looks == if running && auto {
            Some(epoch)
        } else {
            None
        },
        final(stopped)@.registry == old(stopped)@.registry,
        final(stopped)@.reg_seq == old(stopped)@.reg_seq,
        final(stopped)@.owed == old(stopped)@.owed,
        final(stopped)@.auto_reconnect == old(stopped)@.auto_reconnect,
        final(stopped)@.app_name == old(stopped)@.app_name,
        final(stopped)@.transport == old(stopped)@.transport,
        final(stopped)@.pending == old(stopped)@.pending,
        final(switched)@.registry == old(switched)@.registry,
        final(switched)@.reg_seq == old(switched)@.reg_seq,
        final(switched)@.owed == old(switched)@.owed,
        final(switched)@.running == old(switched)@.running,
        final(switched)@.app_name == old(switched)@.app_name,
        final(switched)@.transport == old(switched)@.transport,
        final(switched)@.pending == old(switched)@.pending,
{
}

/// A reply that comes in is handed, as it is, to the call that waits for its correlation id, and
/// to no other, and the call then waits no longer; every other call waits on. A reply for which
/// nobody waits changes nothing.
pub proof fn law_reply_is_dispatched<P>(
    before: &mut Inner<P>,
    at: &mut Inner<P>,
    catalog: Catalog,
    corr: i64,
    slot: P,
    f: Frame,
    bytes: Vec<u8>,
    came: &[u8],
    found: Result<i64, ProtoError>,
    r: Dispatch<P>,
)
    requires
        call_ensures(Inner::<P>::register, (before, corr, slot), ()),
        old(at)@ == final(before)@,
        call_ensures(Frame::encode, (&f,), bytes),
        came@ == bytes@,
        f.body@.len() <= u32::MAX,
        call_ensures(proto::correlation_id, (&catalog, &f), found),
        call_ensures(Inner::<P>::dispatch, (at, &catalog, came), r),
        found is Ok,
    ensures
        found->Ok_0 == corr ==> (r matches Dispatch::Deliver(to, frame) && to == slot && frame@
            == f@) && !final(at)@.pending.dom().contains(corr),
        !old(at)@.pending.dom().contains(found->Ok_0) ==> r == Dispatch::<P>::NoWaiter(
            found->Ok_0,
        ) && final(at)@ == old(at)@,
        forall|c: i64|
            c != found->Ok_0 ==> (#[trigger] final(at)@.pending.dom().contains(c)
                <==> old(at)@.pending.dom().contains(c))
                && final(at)@.pending[c] == old(at)@.pending[c],
        final(at)@.registry == old(at)@.registry,
        final(at)@.reg_seq == old(at)@.reg_seq,
        final(at)@.owed == old(at)@.owed,
        final(at)@.running == old(at)@.running,
        final(at)@.auto_reconnect == old(at)@.auto_reconnect,
        final(at)@.app_name == old(at)@.app_name,
        final(at)@.transport == old(at)@.transport,
{
    frame::law_decode_of_encode(f@, Seq::empty());
    let c = found->Ok_0;
    assert(proto::routes(f@, c));
    match r {
        Dispatch::Deliver(to, frame) => {
            let x = choose|x: i64| #[trigger]
                proto::routes(f@, x) && answered(old(at)@, final(at)@, x, to);
            assert(x == c);
        },
        _ => {},
    }
}

/// A control call comes to its answer, as it came in, or to an error that says whether it was not
/// sent or not answered; in either case of an error it waits no longer.
pub proof fn law_control_call_ends<P>(
    inner: &mut Inner<P>,
    corr: i64,
    end: CallEnd,
    r: Result<Frame, ClientError>,
)
    requires
        call_ensures(Inner::<P>::call_control, (inner, corr, end), r),
    ensures
        end matches CallEnd::Answered(f) ==> r == Ok::<Frame, ClientError>(f) && final(inner)@
            == old(inner)@,
        end is NotSent ==> r == Err::<Frame, ClientError>(ClientError::SubmissionFull),
        end is NoAnswer ==> r == Err::<Frame, ClientError>(ClientError::NoReply),
        !(end is Answered) ==> !final(inner)@.pending.dom().contains(corr),
        forall|c: i64|
            c != corr && #[trigger] old(inner)@.pending.dom().contains(c)
                ==> final(inner)@.pending.dom().contains(c) && final(inner)@.pending[c]
                == old(inner)@.pending[c],
        final(inner)@.registry == old(inner)@.registry,
        final(inner)@.reg_seq == old(inner)@.reg_seq,
        final(inner)@.owed == old(inner)@.owed,
        final(inner)@.running == old(inner)@.running,
        final(inner)@.auto_reconnect == old(inner)@.auto_reconnect,
        final(inner)@.app_name == old(inner)@.app_name,
        final(inner)@.transport == old(inner)@.transport,
{
}

/// Nobody waits under a correlation id that was dropped, and everybody else does as before.
pub proof fn law_dropped_call_waits_no_longer<P>(inner: &mut Inner<P>, corr: i64)
    requires
        call_ensures(Inner::<P>::drop_pending, (inner, corr), ()),
    ensures
        !final(inner)@.pending.dom().contains(corr),
        forall|c: i64|
            c != corr && #[trigger] old(inner)@.pending.dom().contains(c)
                ==> final(inner)@.pending.dom().contains(c) && final(inner)@.pending[c]
                == old(inner)@.pending[c],
        final(inner)@.registry == old(inner)@.registry,
        final(inner)@.reg_seq == old(inner)@.reg_seq,
        final(inner)@.owed == old(inner)@.owed,
        final(inner)@.running == old(inner)@.running,
        final(inner)@.auto_reconnect == old(inner)@.auto_reconnect,
        final(inner)@.app_name == old(inner)@.app_name,
        final(inner)@.transport == old(inner)@.transport,
{
}

/// A frame that is submitted is the last on the submission ring, where there is room for it, as
/// the bytes that a receiver reads as the same frame. Where there is none, the ring stays as it
/// is, and the connector sleeps for what is left of its time, or gives up if nothing is.
pub proof fn law_submitted_frame_is_read<P>(
    inner: Inner<P>,
    submission: &mut Ring,
    f: Frame,
    remaining: u64,
    r: PushStep,
    came: &[u8],
    read: Result<Frame, FrameError>,
)
    requires
        old(submission)@.wf(),
        call_ensures(Inner::<P>::submit, (&inner, submission, &f, remaining), r),
        came@ == final(submission)@.queue().last(),
        call_ensures(Frame::decode, (came,), read),
        f.body@.len() <= u32::MAX,
    ensures
        ({
            let room = old(submission)@.capacity - (old(submission)@.head() - old(submission)@.tail());
            if 4 + 16 + f.body@.len() <= room {
                &&& r is Pushed
                &&& final(submission)@.queue().drop_last() == old(submission)@.queue()
                &&& read matches Ok(g) && g@ == f@
            } else {
                &&& final(submission)@ == old(submission)@
                &&& remaining == 0 ==> r is TimedOut
                &&& remaining > 0 ==> (r matches PushStep::Park { seen, nanos } && nanos
                    == remaining)
            }
        }),
{
    crate::bytes::lemma_le_bytes_len(frame::FRAME_MAGIC as nat, 2);
    crate::bytes::lemma_le_bytes_len(f.schema_fp as nat, 8);
    crate::bytes::lemma_le_bytes_len(f.body@.len(), 4);
    frame::law_decode_of_encode(f@, Seq::empty());
    let q = old(submission)@.queue();
    assert(q.push(f@.wire()).drop_last() =~= q);
}

/// What a connection keeps, it brings back: a registration that was made is in the list of what
/// is brought back, as it was made, under an id of its own, and is not once it was forgotten. The
/// others stay.
pub proof fn law_kept_is_brought_back<P>(
    made: &mut Inner<P>,
    forgot: &mut Inner<P>,
    reg: Reg,
    id: u64,
    with: Inner<P>,
    without: Inner<P>,
    list: Vec<(u64, Reg)>,
    shorter: Vec<(u64, Reg)>,
)
    requires
        old(made)@.wf(),
        call_ensures(Inner::<P>::register_entry, (made, reg), id),
        old(forgot)@ == final(made)@,
        call_ensures(Inner::<P>::deregister, (forgot, id), ()),
        with@ == final(made)@,
        without@ == final(forgot)@,
        call_ensures(Inner::<P>::replay, (&with,), list),
        call_ensures(Inner::<P>::replay, (&without,), shorter),
    ensures
        !old(made)@.registry.dom().contains(id),
        exists|j: int| 0 <= j < list@.len() && #[trigger] list@[j] == (id, reg),
        forall|j: int| 0 <= j < shorter@.len() ==> (#[trigger] shorter@[j]).0 != id,
        forall|other: u64|
            #![trigger old(made)@.registry.dom().contains(other)]
            old(made)@.registry.dom().contains(other) ==> lists_as(
                list@,
                other,
                old(made)@.registry[other],
            ) && lists_as(shorter@, other, old(made)@.registry[other]),
        final(made)@.transport == old(made)@.transport,
        final(forgot)@.transport == old(made)@.transport,
        final(made)@.pending == old(made)@.pending && final(forgot)@.pending == old(made)@.pending,
        final(made)@.running == old(made)@.running && final(forgot)@.running == old(made)@.running,
        final(made)@.owed == old(made)@.owed && !final(forgot)@.owed.contains(id),
        forall|other: u64| #[trigger]
            final(forgot)@.owed.contains(other) <==> other != id && old(made)@.owed.contains(other),
{
    assert(lists(list@, id));
    let j = choose|j: int| 0 <= j < list@.len() && (#[trigger] list@[j]).0 == id;
    assert(list@[j] == (id, reg));
    assert forall|other: u64|
        #![trigger old(made)@.registry.dom().contains(other)]
        old(made)@.registry.dom().contains(other) implies lists_as(
        list@,
        other,
        old(made)@.registry[other],
    ) && lists_as(shorter@, other, old(made)@.registry[other]) by {
        assert(with@.registry.dom().contains(other) && without@.registry.dom().contains(other));
        assert(lists(list@, other) && lists(shorter@, other));
        let j = choose|j: int| 0 <= j < list@.len() && (#[trigger] list@[j]).0 == other;
        let k = choose|k: int| 0 <= k < shorter@.len() && (#[trigger] shorter@[k]).0 == other;
        assert(list@[j] == (other, old(made)@.registry[other]));
        assert(shorter@[k] == (other, old(made)@.registry[other]));
    }
}

/// A list has a registration under an id, as it was made.
pub open spec fn lists_as(list: Seq<(u64, Reg)>, id: u64, reg: Reg) -> bool {
    exists|j: int| 0 <= j < list.len() && #[trigger] list[j] == (id, reg)
}

/// Coming back on a fresh transport gives up the calls that wait, and nothing else: the connection
/// keeps its name and all that it owns, and is with the broker of the new epoch.
pub proof fn law_reconnect_keeps_what_is_owned<P>(
    inner: &mut Inner<P>,
    fresh: Transport,
    before: Inner<P>,
    after: Inner<P>,
    stranded_before: bool,
    stranded_after: bool,
    failed_epoch: u64,
)
    requires
        call_ensures(Inner::<P>::reconnect, (inner, fresh), ()),
        before@ == old(inner)@,
        after@ == final(inner)@,
        call_ensures(Inner::<P>::stranded, (&before, failed_epoch), stranded_before),
        call_ensures(Inner::<P>::stranded, (&after, failed_epoch), stranded_after),
    ensures
        final(inner)@.registry == old(inner)@.registry,
        forall|id: u64| !#[trigger] final(inner)@.owed.contains(id),
        final(inner)@.reg_seq == old(inner)@.reg_seq,
        final(inner)@.app_name == old(inner)@.app_name,
        final(inner)@.running == old(inner)@.running,
        final(inner)@.auto_reconnect == old(inner)@.auto_reconnect,
        final(inner)@.transport == fresh,
        forall|corr: i64| !#[trigger] final(inner)@.pending.dom().contains(corr),
        stranded_before <==> failed_epoch == old(inner)@.transport.epoch,
        stranded_after <==> failed_epoch == fresh.epoch,
{
}

/// What an operation does next: it ends with its value, or with its error unless the connection
/// comes back by itself and the error means that the broker stopped answering. It then looks for
/// the live broker, comes back where that is another one than the one that the connection was
/// with, and is run once more, whose outcome is the end; the error stands where no other broker
/// lives, and that of coming back where coming back fails.
pub proof fn law_operation_goes_on<P, T>(
    inner: Inner<P>,
    e: ClientError,
    gone: bool,
    ok: T,
    ran: Result<T, ClientError>,
    live: Option<u64>,
    observed: u64,
    back: Result<(), ClientError>,
    succeeded: Then<T>,
    failed: Then<T>,
    looked: Then<T>,
    returned: Then<T>,
    ended: Then<T>,
)
    requires
        call_ensures(broker_unreachable, (&e,), gone),
        call_ensures(
            Inner::<P>::with_reconnect::<T>,
            (&inner, Retry::Run, Came::Ran(Ok::<T, ClientError>(ok))),
            succeeded,
        ),
        call_ensures(
            Inner::<P>::with_reconnect::<T>,
            (&inner, Retry::Run, Came::Ran(Err::<T, ClientError>(e))),
            failed,
        ),
        call_ensures(
            Inner::<P>::with_reconnect::<T>,
            (&inner, Retry::Look { failed: e, observed }, Came::<T>::Looked(live)),
            looked,
        ),
        call_ensures(
            Inner::<P>::with_reconnect::<T>,
            (&inner, Retry::ComeBack { observed }, Came::<T>::CameBack(back)),
            returned,
        ),
        call_ensures(
            Inner::<P>::with_reconnect::<T>,
            (&inner, Retry::RunAgain, Came::Ran(ran)),
            ended,
        ),
    ensures
        succeeded == Then::Return(Ok::<T, ClientError>(ok)),
        inner.auto_reconnect && gone ==> (failed matches Then::Do(Retry::Look {
            failed: f,
            observed: o,
        }) && f == e && o == inner.transport.epoch),
        !(inner.auto_reconnect && gone) ==> failed == Then::Return(Err::<T, ClientError>(e)),
        live is Some && live->Some_0 != observed ==> (looked matches Then::Do(Retry::ComeBack {
            observed: o,
        }) && o == observed),
        live is None || live->Some_0 == observed ==> looked == Then::Return(
            Err::<T, ClientError>(e),
        ),
        back is Ok ==> (returned matches Then::Do(Retry::RunAgain)),
        back matches Err(b) ==> returned == Then::Return(Err::<T, ClientError>(b)),
        ended == Then::Return(ran),
{
}

/// The broker was restarted exactly where another epoch is found than the one before; where none
/// is found, it was not.
pub proof fn law_restart_is_another_epoch(observed: u64, live: Option<u64>, r: bool)
    requires
        call_ensures(restarted, (observed, live), r),
    ensures
        r <==> live is Some && live->Some_0 != observed,
{
}

/// The answer to a registration that is brought back grants the arena that the broker names, for
/// a channel as for a function, and is the broker's refusal otherwise.
pub proof fn law_replay_answer_says(
    catalog: Catalog,
    reg: Reg,
    channel: PublishReply,
    function: ExposeReply,
    f: Frame,
    r: Result<String, ClientError>,
)
    requires
        reg is Channel ==> avro::sized(channel.fields()) && call_ensures(
            proto::to_frame::<PublishReply>,
            (&catalog, Kind::PublishReply, &channel),
            Ok::<Frame, avro::AvroError>(f),
        ),
        reg is Function ==> avro::sized(function.fields()) && call_ensures(
            proto::to_frame::<ExposeReply>,
            (&catalog, Kind::ExposeReply, &function),
            Ok::<Frame, avro::AvroError>(f),
        ),
        call_ensures(replay_answer, (&catalog, &reg, &f), r),
    ensures
        reg is Channel ==> if channel.status == status::OK {
            r matches Ok(arena) && arena@ == channel.arena@
        } else {
            r matches Err(ClientError::Refused { request, words }) && request == Request::Publish
                && words@ == channel.message@
        },
        reg is Function ==> if function.status == status::OK {
            r matches Ok(arena) && arena@ == function.req_arena@
        } else {
            r matches Err(ClientError::Refused { request, words }) && request == Request::Expose
                && words@ == function.message@
        },
{
    if reg is Channel {
        let full = choose|full: Result<(String, Fingerprint), ClientError>| #[trigger]
            publish_answer(f.body@, full) && match full {
                Ok((arena, _)) => r == Ok::<String, ClientError>(arena),
                Err(e) => r == Err::<String, ClientError>(e),
            };
        channel.lemma_typed();
        let json = proto::schema_text(Kind::PublishReply);
        assert(!proto::read_as::<PublishReply>(json, f.body@, None));
        let n = choose|n: PublishReply| #[trigger]
            proto::read_as(json, f.body@, Some(n)) && if n.status == status::OK {
                full matches Ok((arena, fp)) && arena@ == n.arena@ && fp == n.schema_fp as u64
            } else {
                full matches Err(e) && refused(e, Request::Publish, n.message@)
            };
        lemma_answered(Kind::PublishReply, channel, f, Some(n));
        assert(n.fields().fields[3] == channel.fields().fields[3]);
        assert(n.fields().fields[4] == channel.fields().fields[4]);
        assert(n.fields().fields[5] == channel.fields().fields[5]);
    } else {
        let full = choose|full: Result<(String, Fingerprint, Fingerprint), ClientError>| #[trigger]
            expose_answer(f.body@, full) && match full {
                Ok((arena, _, _)) => r == Ok::<String, ClientError>(arena),
                Err(e) => r == Err::<String, ClientError>(e),
            };
        function.lemma_typed();
        let json = proto::schema_text(Kind::ExposeReply);
        assert(!proto::read_as::<ExposeReply>(json, f.body@, None));
        let n = choose|n: ExposeReply| #[trigger]
            proto::read_as(json, f.body@, Some(n)) && if n.status == status::OK {
                full matches Ok((arena, req_fp, resp_fp)) && arena@ == n.req_arena@ && req_fp
                    == n.req_fp as u64 && resp_fp == n.resp_fp as u64
            } else {
                full matches Err(e) && refused(e, Request::Expose, n.message@)
            };
        lemma_answered(Kind::ExposeReply, function, f, Some(n));
        assert(n.fields().fields[4] == function.fields().fields[4]);
        assert(n.fields().fields[5] == function.fields().fields[5]);
        assert(n.fields().fields[6] == function.fields().fields[6]);
    }
}

/// An answer that grants a ring binds the registration to it, and one that fails keeps it as it
/// is, with the error; what was granted is no longer owed, and what failed is, as long as it is
/// kept.
pub proof fn law_answers_bind_rings<P, R>(
    list: Vec<(u64, Reg)>,
    answers: Vec<Result<R, ClientError>>,
    done: Vec<Rebind<R>>,
    inner: &mut Inner<P>,
    j: int,
)
    requires
        list@.len() == answers@.len(),
        call_ensures(rebinds::<R>, (&list, answers), done),
        0 <= j < list@.len(),
        call_ensures(Inner::<P>::note_replayed::<R>, (inner, &done@[j]), ()),
    ensures
        done@.len() == list@.len(),
        match answers@[j] {
            Ok(ring) => done@[j] == (Rebind::Bind { id: list@[j].0, ring })
                && !final(inner)@.owed.contains(list@[j].0),
            Err(failed) => done@[j] == (Rebind::<R>::Keep { id: list@[j].0, failed }) && (
            old(inner)@.registry.dom().contains(list@[j].0) ==> final(inner)@.owed.contains(
                list@[j].0,
            )),
        },
        forall|id: u64|
            id != list@[j].0 ==> (#[trigger] final(inner)@.owed.contains(id)
                <==> old(inner)@.owed.contains(id)),
        final(inner)@.registry == old(inner)@.registry,
        final(inner)@.reg_seq == old(inner)@.reg_seq,
        final(inner)@.running == old(inner)@.running,
        final(inner)@.auto_reconnect == old(inner)@.auto_reconnect,
        final(inner)@.app_name == old(inner)@.app_name,
{
}

/// What the watcher does: it comes back where another broker lives; where the one that it is with
/// lives on, it asks again for what was not brought back, and for nothing else; and it rests
/// otherwise.
pub proof fn law_watcher_acts<P>(
    c: Inner<P>,
    observed: u64,
    live: Option<u64>,
    r: Watched,
    owed: Vec<(u64, Reg)>,
    id: u64,
    i: int,
)
    requires
        call_ensures(Inner::<P>::watched, (&c, observed, live), r),
        call_ensures(Inner::<P>::replay_owed, (&c,), owed),
    ensures
        r is ComeBack <==> (live matches Some(epoch) && epoch != observed),
        live is None ==> r is Rest,
        live == Some(observed) && c@.transport.epoch != observed ==> r is Rest,
        live == Some(observed) && c@.transport.epoch == observed && c@.owed.contains(id)
            && c@.registry.dom().contains(id) ==> (r matches Watched::BringBack(list) && lists(
            list@,
            id,
        )),
        r matches Watched::BringBack(list) ==> (0 <= i < list@.len() ==> c@.owed.contains(
            list@[i].0,
        ) && c@.registry.dom().contains(list@[i].0) && c@.registry[list@[i].0] == list@[i].1),
        c@.owed.contains(id) && c@.registry.dom().contains(id) ==> lists(owed@, id),
        0 <= i < owed@.len() ==> c@.owed.contains(owed@[i].0) && c@.registry.dom().contains(
            owed@[i].0,
        ) && c@.registry[owed@[i].0] == owed@[i].1,
{
    let some = c@.registry.restrict(c@.owed);
    if c@.owed.contains(id) && c@.registry.dom().contains(id) {
        assert(owes(c@, id));
        assert(some.dom().contains(id));
    }
    if 0 <= i < owed@.len() {
        assert(some.dom().contains(owed@[i].0));
    }
    if let Watched::BringBack(list) = r {
        if 0 <= i < list@.len() {
            assert(some.dom().contains(list@[i].0));
        }
    }
}

/// Every registration that is brought back is asked for once, in order, and its answer decides
/// alone what becomes of it: a ring that was granted is bound, and otherwise the old one is kept.
pub proof fn law_each_is_asked_for<R, A: Fn(&Reg) -> Result<R, ClientError>>(
    list: Vec<(u64, Reg)>,
    ask: A,
    r: Result<Vec<Rebind<R>>, ClientError>,
    i: int,
    id: u64,
    granted: Result<R, ClientError>,
    one: Rebind<R>,
)
    requires
        call_ensures(bring_back::<R, A>, (&list, ask), r),
        call_ensures(replayed::<R>, (id, granted), one),
        0 <= i < list@.len(),
    ensures
        r matches Ok(done) && done@.len() == list@.len(),
        exists|answer: Result<R, ClientError>| #[trigger]
            call_ensures(ask, (&list@[i].1,), answer) && match answer {
                Ok(ring) => r->Ok_0@[i] == (Rebind::Bind { id: list@[i].0, ring }),
                Err(failed) => r->Ok_0@[i] == (Rebind::<R>::Keep { id: list@[i].0, failed }),
            },
        one == (match granted {
            Ok(ring) => Rebind::Bind { id, ring },
            Err(failed) => Rebind::Keep { id, failed },
        }),
{
    let done = r->Ok_0@;
    let answers = choose|answers: Seq<Result<R, ClientError>>| #[trigger]
        asked(list@, ask, answers) && done == rebinds_of(list@, answers);
    assert(call_ensures(ask, (&list@[i].1,), answers[i]));
}

/// A live broker's epoch is the one that it formatted its control segment with; a segment that is
/// none, or of another version, has none.
pub proof fn law_live_epoch_is_read(
    seg: Segment,
    pid: i32,
    epoch: u64,
    made: Result<Ring, ring::RingError>,
    image: Segment,
    r: Result<u64, ControlError>,
    other: Segment,
    s: Result<u64, ControlError>,
)
    requires
        64 + 192 + 0x1_0000 <= seg@.len(),
        call_ensures(control::format_control, (seg, pid, epoch), made),
        made matches Ok(ring) ==> image@ == ring.seg@,
        call_ensures(live_broker_epoch, (image,), r),
        call_ensures(live_broker_epoch, (other,), s),
        64 + 192 <= other@.len(),
    ensures
        r == Ok::<u64, ControlError>(epoch),
        shm::field(other@, 0, 8) != 0x0047_4e49_5250_4d49 ==> s == Err::<u64, ControlError>(
            ControlError::BadMagic,
        ),
        shm::field(other@, 0, 8) == 0x0047_4e49_5250_4d49 && shm::field(other@, 8, 4) != 1 ==> s
            is Err,
        s matches Ok(e) ==> e == shm::field(other@, 16, 8),
{
    crate::bytes::lemma_pow256_values();
    crate::bytes::lemma_le_value_bound(other@.subrange(0, 8));
    crate::bytes::lemma_le_value_bound(other@.subrange(8, 12));
    if let Ok(ring) = made {
        control::law_attach_formatted_control(ring@, pid, pid);
    }
}

/// Who polled last before the reply is there is the one that is woken.
pub proof fn law_last_poll_is_woken<W>(
    slot: &mut Slot<W>,
    then: &mut Slot<W>,
    put: &mut Slot<W>,
    first: W,
    second: W,
    frame: Frame,
    none: Option<Frame>,
    still: Option<Frame>,
    woken: Option<W>,
)
    requires
        old(slot).frame is None,
        call_ensures(Slot::<W>::poll, (slot, first), none),
        *old(then) == *final(slot),
        call_ensures(Slot::<W>::poll, (then, second), still),
        *old(put) == *final(then),
        call_ensures(Slot::<W>::complete, (put, frame), woken),
    ensures
        none is None && still is None,
        woken == Some(second),
        final(put).frame == Some(frame),
{
}

/// An error that came from below is told in its own words.
pub proof fn law_errors_from_below(
    e: ClientError,
    words: String,
    control: ControlError,
    of_control: String,
    ring: RingError,
    of_ring: String,
    frame: FrameError,
    of_frame: String,
    proto: ProtoError,
    of_proto: String,
    avro: AvroError,
    of_avro: String,
)
    requires
        call_ensures(ClientError::message, (&e,), words),
        call_ensures(ControlError::message, (&control,), of_control),
        call_ensures(RingError::message, (&ring,), of_ring),
        call_ensures(FrameError::message, (&frame,), of_frame),
        call_ensures(ProtoError::message, (&proto,), of_proto),
        call_ensures(AvroError::message, (&avro,), of_avro),
    ensures
        e == ClientError::Control(control) ==> words@ == of_control@,
        e == ClientError::Ring(ring) ==> words@ == of_ring@,
        e == ClientError::Frame(frame) ==> words@ == of_frame@,
        e == ClientError::Proto(proto) ==> words@ == of_proto@,
        e == ClientError::Avro(avro) ==> words@ == of_avro@,
{
}

/// How long a connector waits: five seconds for an answer, two for room and a fifth of one as it
/// leaves; it looks after the broker four times a second and announces a heartbeat of one second.
pub proof fn law_waiting_times()
    ensures
        CONTROL_NANOS == 5_000_000_000,
        SUBMIT_NANOS == 2_000_000_000,
        LEAVE_NANOS == 200_000_000,
        WATCH_NANOS == 250_000_000,
        DISPATCH_NANOS == 100_000_000,
        HEARTBEAT_MS == 1000,
{
}

} // verus!
