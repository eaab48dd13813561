//! What the operations of the bus can be called on: none of them asks more of its arguments than
//! that they are what they say, and that its counters have not run out.
use vstd::arithmetic::power2;
use vstd::prelude::*;

use crate::avro;
use crate::avro::{Fingerprint, Record, Schema, SchemaRegistry};
use crate::broker;
use crate::broker::{Broker, Pending, Question};
use crate::channel;
use crate::channel::{Publisher, Subscriber};
use crate::client;
use crate::client::{CallEnd, ClientError, Inner, Reg, Slot, Transport};
use crate::control;
use crate::frame::Frame;
use crate::http;
use crate::http::RingUpgradeKind;
use crate::json;
use crate::outline;
use crate::proto;
use crate::proto::messages::Message;
use crate::proto::{
    Catalog, ExposeFunction, Kind, ListChannels, LookupFunction, LookupReply, PublishChannel,
    Register, RpcRequest, RpcResponse, Subscribe, Unregister,
};
use crate::registry::{ChannelMeta, FunctionMeta, Registry};
use crate::ring::Ring;
use crate::rpc;
use crate::shm;
use crate::shm::{Mode, Reply, Segment, Stage};
use crate::util;

verus! {

/// Any text can be parsed, any record written, and any bytes read.
pub proof fn law_anything_is_coded(
    text: &str,
    schema: Schema,
    record: Record,
    bytes: &[u8],
    f: Frame,
    fp: Fingerprint,
    body: Vec<u8>,
    known: &mut SchemaRegistry,
    chars: &Vec<char>,
)
    ensures
        call_requires(avro::parse, (text,)),
        call_requires(avro::fingerprint, (&schema,)),
        call_requires(avro::encode, (&schema, record)),
        call_requires(avro::decode, (&schema, bytes)),
        call_requires(SchemaRegistry::register, (known, schema)),
        call_requires(SchemaRegistry::register_json, (known, text)),
        call_requires(outline::check_canonical_form, (text,)),
        call_requires(outline::check_plainly_named, (text,)),
        call_requires(json::tokenize, (chars,)),
        call_requires(Frame::new, (fp, body)),
        call_requires(Frame::encode, (&f,)),
        call_requires(Frame::decode, (bytes,)),
        call_requires(channel::message_bytes, (fp, body)),
        call_requires(channel::accept, (fp, bytes)),
        call_requires(http::http_fn_name, (text,)),
        call_requires(RingUpgradeKind::parse, (text,)),
        call_requires(util::key_hash, (text,)),
        call_requires(shm::check_name, (text,)),
{
}

/// Any message can be put into a frame, and looked for in any frame.
pub proof fn law_any_message_travels<T: Message>(catalog: Catalog, kind: Kind, m: T, f: Frame)
    ensures
        call_requires(proto::to_frame::<T>, (&catalog, kind, &m)),
        call_requires(proto::from_frame::<T>, (&catalog, kind, &f)),
        call_requires(proto::correlation_id, (&catalog, &f)),
        call_requires(proto::register_from_frame, (&catalog, &f)),
        call_requires(proto::expose_from_frame, (&catalog, &f)),
        call_requires(Catalog::kind_of, (&catalog, f.schema_fp)),
{
}

/// Any ring that fits its segment can be made, and any record pushed onto a ring.
pub proof fn law_any_ring_is_used(
    seg: Segment,
    base: usize,
    capacity: usize,
    pid: i32,
    epoch: u64,
    ring: &mut Ring,
    data: &[u8],
    remaining: Option<u64>,
)
    requires
        power2::is_pow2(capacity as int),
        base % 64 == 0,
        old(ring)@.wf(),
        old(ring)@.tail() + old(ring)@.capacity <= u64::MAX,
    ensures
        call_requires(Ring::format, (seg, base, capacity)),
        base + 192 <= seg@.len() ==> call_requires(Ring::attach, (seg, base)),
        call_requires(control::format_control, (seg, pid, epoch)),
        256 <= seg@.len() ==> call_requires(control::attach_control, (seg,)),
        256 <= seg@.len() ==> call_requires(client::live_broker_epoch, (seg,)),
        call_requires(control::clamp_arena_cap, (capacity,)),
        call_requires(Ring::try_push, (ring, data)),
        call_requires(Ring::push_locked, (ring, data)),
        call_requires(Ring::try_pop, (ring,)),
        call_requires(Ring::push_blocking, (ring, data, remaining)),
        call_requires(Ring::pop_blocking, (ring, remaining)),
{
}

/// Any record can be published on a channel's ring, and any message received from it.
pub proof fn law_any_record_is_published(
    p: Publisher,
    s: Subscriber,
    ring: &mut Ring,
    record: Record,
    bytes: &[u8],
    remaining: u64,
)
    requires
        old(ring)@.wf(),
        old(ring)@.tail() + old(ring)@.capacity <= u64::MAX,
    ensures
        call_requires(Publisher::try_publish, (&p, ring, record)),
        call_requires(Publisher::publish, (&p, ring, record, remaining)),
        call_requires(Subscriber::recv, (&s, ring, remaining)),
        call_requires(Subscriber::record, (&s, bytes)),
{
}

/// Any function can be called with any arguments, and any request served.
pub proof fn law_any_call_is_made<P, F: Fn(Record) -> Record>(
    inner: Inner<P>,
    catalog: Catalog,
    corr: i64,
    lr: LookupReply,
    record: Record,
    schema: Schema,
    other: Schema,
    fp: Fingerprint,
    expected: Fingerprint,
    args: Vec<u8>,
    bytes: &[u8],
    req: RpcRequest,
    m: RpcResponse,
    f: Frame,
    handler: F,
)
    requires
        forall|arg: Record| #[trigger] call_requires(handler, (arg,)),
    ensures
        call_requires(
            Inner::<P>::call,
            (&inner, &catalog, corr, &lr, record, &schema, fp, expected),
        ),
        call_requires(Inner::<P>::call_request, (&inner, &catalog, corr, fp, args)),
        call_requires(rpc::check_call, (&lr, fp, expected)),
        call_requires(rpc::check_response, (m, expected)),
        call_requires(rpc::decode_response, (&catalog, &f, expected)),
        call_requires(rpc::decode_record, (&catalog, &f, &schema, expected)),
        call_requires(rpc::service_request, (&catalog, bytes)),
        call_requires(rpc::check_args, (&req, fp)),
        call_requires(rpc::handle_one::<F>, (&req, &schema, &other, fp, expected, &handler)),
        call_requires(rpc::response_frame, (&catalog, &m)),
{
}

/// A connector can ask for anything, and take any answer.
pub proof fn law_any_request_is_asked<P>(
    inner: Inner<P>,
    catalog: Catalog,
    corr: i64,
    pid: i64,
    name: &str,
    json: &str,
    other: &str,
    key: Option<&str>,
    id: i64,
    fp: Fingerprint,
    cap: i64,
    f: Frame,
    reg: Reg,
    observed: u64,
    live: Option<u64>,
)
    ensures
        call_requires(Inner::<P>::do_register, (&inner, &catalog, corr, pid)),
        call_requires(Inner::<P>::do_publish, (&inner, &catalog, corr, name, json, key)),
        call_requires(Inner::<P>::list_channels, (&inner, &catalog, corr)),
        call_requires(Inner::<P>::do_subscribe, (&inner, &catalog, corr, id, key, fp)),
        call_requires(Inner::<P>::do_expose, (&inner, &catalog, corr, name, json, other, key, cap)),
        call_requires(Inner::<P>::do_lookup, (&inner, &catalog, corr, name, key)),
        call_requires(Inner::<P>::send_unregister, (&inner, &catalog, corr)),
        call_requires(client::published, (&catalog, &f)),
        call_requires(client::subscribed, (&catalog, &f)),
        call_requires(client::exposed, (&catalog, &f)),
        call_requires(client::looked_up, (&catalog, &f)),
        call_requires(client::listed, (&catalog, &f)),
        call_requires(client::replay_answer, (&catalog, &reg, &f)),
        call_requires(Inner::<P>::replay, (&inner,)),
        call_requires(Inner::<P>::replay_owed, (&inner,)),
        call_requires(Inner::<P>::watched, (&inner, observed, live)),
{
}

/// A connection can be changed at any time.
pub proof fn law_connection_is_changed<P>(
    inner: &mut Inner<P>,
    catalog: Catalog,
    corr: i64,
    slot: P,
    end: CallEnd,
    bytes: &[u8],
    f: Frame,
    reg: Reg,
    id: u64,
    fresh: Transport,
    pushed: bool,
    submission: &mut Ring,
    remaining: u64,
    other: Inner<P>,
    place: &mut Slot<P>,
    timed_out: bool,
)
    requires
        old(inner)@.wf(),
        old(inner)@.reg_seq < u64::MAX,
        old(submission)@.wf(),
        old(submission)@.tail() + old(submission)@.capacity <= u64::MAX,
    ensures
        call_requires(Inner::<P>::register, (inner, corr, slot)),
        call_requires(Inner::<P>::drop_pending, (inner, corr)),
        call_requires(Inner::<P>::call_control, (inner, corr, end)),
        call_requires(Inner::<P>::call_placed, (inner, corr, pushed)),
        call_requires(Inner::<P>::dispatch, (inner, &catalog, bytes)),
        call_requires(Inner::<P>::registered, (inner, &catalog, &f)),
        call_requires(Inner::<P>::register_entry, (inner, reg)),
        call_requires(Inner::<P>::deregister, (inner, id)),
        call_requires(Inner::<P>::reconnect, (inner, fresh)),
        call_requires(Inner::<P>::submit, (&other, submission, &f, remaining)),
        call_requires(Slot::<P>::complete, (place, f)),
        call_requires(Slot::<P>::wait, (place, timed_out)),
        call_requires(Slot::<P>::poll, (place, slot)),
{
}

/// A broker takes any submission and any request, until its counters run out.
pub proof fn law_any_submission_is_taken(
    b: &mut Broker,
    c: Broker,
    catalog: Catalog,
    bytes: &[u8],
    register: Register,
    unregister: Unregister,
    publish: PublishChannel,
    expose: ExposeFunction,
    list: ListChannels,
    subscribe: Subscribe,
    lookup: LookupFunction,
    probed: Option<bool>,
    question: Question,
    alive: bool,
    pending: Pending,
    submission: &mut Ring,
    remaining: u64,
)
    requires
        old(b)@.wf(),
        old(b)@.reg.next_client < i64::MAX,
        old(b)@.reg.next_channel < i64::MAX,
        old(b)@.reg.next_fn < i64::MAX,
        old(submission)@.wf(),
    ensures
        call_requires(Broker::handle, (b, &catalog, bytes)),
        call_requires(Broker::run, (b, &catalog, submission, remaining)),
        call_requires(Broker::opened, (b, &catalog, register)),
        call_requires(Broker::on_unregister, (b, &unregister)),
        call_requires(Broker::on_publish, (b, &catalog, publish, probed)),
        call_requires(Broker::on_expose, (b, &catalog, expose, probed)),
        call_requires(Broker::probed, (b, &catalog, question, alive)),
        broker::addable(old(b)@, pending) ==> call_requires(
            Broker::created,
            (b, &catalog, pending),
        ),
        call_requires(Broker::on_list, (&c, &catalog, &list)),
        call_requires(Broker::on_subscribe, (&c, &catalog, &subscribe)),
        call_requires(Broker::on_lookup, (&c, &catalog, &lookup)),
{
}

/// The registry can be asked anything, and changed until its counters run out.
pub proof fn law_registry_is_asked(
    reg: Registry,
    changed: &mut Registry,
    app_name: String,
    pid: i32,
    id: i64,
    key: &str,
    name: &str,
    fp: Fingerprint,
    channel: ChannelMeta,
    function: FunctionMeta,
)
    requires
        old(changed)@.next_client < i64::MAX,
        old(changed)@.next_channel < i64::MAX,
        old(changed)@.next_fn < i64::MAX,
    ensures
        call_requires(Registry::list_channels, (&reg,)),
        call_requires(Registry::resolve_subscribe, (&reg, id, key, fp)),
        call_requires(Registry::resolve_lookup, (&reg, name, key)),
        call_requires(Registry::add_client, (changed, app_name, pid)),
        call_requires(Registry::alloc_channel_id, (changed,)),
        call_requires(Registry::alloc_fn_id, (changed,)),
        call_requires(Registry::insert_channel, (changed, channel)),
        call_requires(Registry::insert_function, (changed, function)),
{
}

/// Mapping a segment goes on from any stage with any answer.
pub proof fn law_any_answer_is_taken(
    mode: Mode,
    stage: Stage,
    reply: Reply,
    result: i32,
    errno: i32,
    pid: i32,
    files: &Vec<String>,
)
    ensures
        call_requires(shm::next_call, (mode, stage)),
        call_requires(shm::answered, (mode, stage, reply)),
        call_requires(shm::unlink, (result, errno)),
        call_requires(shm::pid_alive, (pid, result, errno)),
        call_requires(shm::list_segments, (files,)),
{
}

} // verus!
