//! What the broker and its connectors promise together: a request that a connector wrote is
//! understood by the broker as it was meant, and its answer comes back to the call that made it.
use vstd::prelude::*;

use crate::avro;
use crate::avro::Fingerprint;
use crate::broker;
use crate::broker::{Action, Broker, BrokerError, BrokerView, Pending, Question, Round, Step};
use crate::client;
use crate::client::{ClientError, InnerView, Request, Transport};
use crate::frame;
use crate::frame::{Frame, FrameError, FrameView};
use crate::proto;
use crate::proto::messages::Message;
use crate::proto::status;
use crate::proto::{
    Catalog, ChannelInfo, ChannelList, ExposeFunction, ExposeReply, Heartbeat, Kind, ListChannels,
    LookupFunction, LookupReply, ProtoError, PublishChannel, PublishReply, Register, RegisterReply,
    Subscribe, SubscribeReply, Unregister,
};
use crate::registry;
use crate::registry::{ChannelMeta, FunctionMeta};
use crate::ring::Ring;
use crate::util;

verus! {

/// A request that was written, small enough to be read back.
pub open spec fn sent_as<T: Message>(kind: Kind, msg: T, f: Frame) -> bool {
    &&& client::requests(kind, msg.fields(), Ok::<Frame, ClientError>(f))
    &&& T::shape() == proto::kind_shape(kind)
    &&& avro::sized(msg.fields())
    &&& f.body@.len() <= u32::MAX
}

proof fn lemma_understood<T: Message>(kind: Kind, msg: T, f: Frame)
    requires
        proto::catalog_good(),
        sent_as(kind, msg, f),
    ensures
        frame::parse_frame(f@.wire()) == Ok::<FrameView, FrameError>(f@),
        forall|k: Kind| #[trigger] proto::announces(f@.schema_fp as nat, k) <==> k == kind,
        forall|back: Option<T>| #[trigger]
            proto::read_as(proto::schema_text(kind), f@.body, back) ==> back is Some
                && back->Some_0.fields() == msg.fields(),
{
    msg.lemma_typed();
    proto::law_frame_on_wire(kind, msg, f@);
}

proof fn lemma_served(v: BrokerView, w: BrokerView, kind: Kind, f: FrameView, step: Step)
    requires
        frame::parse_frame(f.wire()) == Ok::<FrameView, FrameError>(f),
        forall|k: Kind| #[trigger] proto::announces(f.schema_fp as nat, k) <==> k == kind,
        broker::handles(v, w, f.wire(), step),
    ensures
        broker::serves(v, w, kind, f, step),
{
    assert(proto::announces(f.schema_fp as nat, kind));
    match frame::parse_frame(f.wire()) {
        Err(_) => {},
        Ok(g) => {
            assert(exists|k: Kind| #[trigger]
                proto::announces(g.schema_fp as nat, k) && broker::serves(v, w, k, g, step));
        },
    }
}

/// The broker understands the request to join as it was sent.
pub proof fn law_join_is_understood(
    v: BrokerView,
    w: BrokerView,
    m: Register,
    f: Frame,
    step: Step,
)
    requires
        proto::catalog_good(),
        sent_as(Kind::Register, m, f),
        broker::handles(v, w, f@.wire(), step),
    ensures
        w == v,
        step.action matches Action::OpenReply(n) && n.fields() == m.fields(),
{
    lemma_understood(Kind::Register, m, f);
    assert(proto::legacy_fp(Kind::Register) != Some(proto::kind_fp(Kind::Register)));
    assert(proto::legacy_fp(Kind::Register) != Some(f@.schema_fp as nat));
    lemma_served(v, w, Kind::Register, f@, step);
    assert(!proto::read_as::<Register>(proto::schema_text(Kind::Register), f@.body, None));
    match step.action {
        Action::OpenReply(n) => {
            assert(proto::read_as(proto::schema_text(Kind::Register), f@.body, Some(n)));
        },
        _ => {},
    }
}

/// A connection that joined is known to the broker by the id that it was told.
pub proof fn law_joined_under_told_id<P>(
    b: BrokerView,
    corr: i64,
    id: i64,
    action: Action,
    v: InnerView<P>,
    w: InnerView<P>,
    r: Result<i64, ClientError>,
)
    requires
        proto::catalog_good(),
        broker::replies(
            b,
            id,
            Kind::RegisterReply,
            RegisterReply::record(corr, id, status::OK, ""@),
            action,
        ),
        b.rings.dom().contains(id),
        action is Send ==> client::joins(v, w, action->frame.body@, r),
    ensures
        action matches Action::Send { client_id, frame } && client_id == id && proto::routes(
            frame@,
            corr,
        ),
        r == Ok::<i64, ClientError>(id),
        w.transport.client_id == id,
{
    let fields = RegisterReply::record(corr, id, status::OK, ""@);
    reveal_strlit("");
    assert(avro::conforms(fields, proto::kind_shape(Kind::RegisterReply)));
    proto::law_reply_routes(action->frame@, Kind::RegisterReply, fields, corr);
    assert(proto::routes(action->frame@, corr));
    let json = proto::schema_text(Kind::RegisterReply);
    if r matches Err(ClientError::Proto(_)) {
    } else {
        let m = choose|m: RegisterReply| #[trigger]
            proto::read_as(json, action->frame.body@, Some(m)) && if m.status == status::OK {
                r == Ok::<i64, ClientError>(m.client_id) && w == (InnerView {
                    transport: Transport { client_id: m.client_id, ..v.transport },
                    ..v
                })
            } else {
                w == v && (r matches Err(e) && client::refused(e, Request::Register, m.message@))
            };
        assert(m.fields().fields[1] == fields.fields[1]);
        assert(m.fields().fields[2] == fields.fields[2]);
    }
}

/// A request to read a channel changes nothing, and is answered to who sent it, under its
/// correlation id. What the connector makes of the answer is what the registry says: the arena
/// and the schema of the channel, or why it may not be read.
#[verifier::rlimit(40)]
pub proof fn law_subscribe_is_answered(
    v: BrokerView,
    w: BrokerView,
    m: Subscribe,
    f: Frame,
    step: Step,
    r: Result<(String, Fingerprint), ClientError>,
)
    requires
        proto::catalog_good(),
        sent_as(Kind::Subscribe, m, f),
        broker::handles(v, w, f@.wire(), step),
        v.rings.dom().contains(m.client_id),
        avro::conforms(
            broker::subscribe_reply(v, m),
            proto::kind_shape(Kind::SubscribeReply),
        ),
        step.action is Send ==> client::subscribe_answer(step.action->frame.body@, r),
    ensures
        w == v,
        step.action matches Action::Send { client_id, frame } && client_id == m.client_id
            && proto::routes(frame@, m.correlation_id),
        match v.reg.subscribe_refusal(m.channel_id, m.access_key@, m.expected_fp as u64) {
            None => r matches Ok((arena, fp)) && arena@ == v.reg.channels[m.channel_id].arena@ && fp
                == v.reg.channels[m.channel_id].schema_fp,
            Some((code, words)) => r matches Err(e) && client::refused(
                e,
                Request::Subscribe,
                words,
            ),
        },
{
    lemma_understood(Kind::Subscribe, m, f);
    let json = proto::schema_text(Kind::Subscribe);
    lemma_served(v, w, Kind::Subscribe, f@, step);
    let n = choose|n: Subscribe| #[trigger]
        proto::read_as(json, f@.body, Some(n)) && broker::replies(
            v,
            n.client_id,
            Kind::SubscribeReply,
            broker::subscribe_reply(v, n),
            step.action,
        );
    assert(n.fields().fields[0] == m.fields().fields[0]);
    assert(n.fields().fields[1] == m.fields().fields[1]);
    assert(n.fields().fields[2] == m.fields().fields[2]);
    assert(n.fields().fields[3] == m.fields().fields[3]);
    assert(n.fields().fields[4] == m.fields().fields[4]);
    let fields = broker::subscribe_reply(v, m);
    proto::law_reply_routes(
        step.action->frame@,
        Kind::SubscribeReply,
        fields,
        m.correlation_id,
    );
    assert(proto::routes(step.action->frame@, m.correlation_id));
    let back_json = proto::schema_text(Kind::SubscribeReply);
    let body = step.action->frame.body@;
    assert(!proto::read_as::<SubscribeReply>(back_json, body, None));
    let back = choose|back: SubscribeReply| #[trigger]
        proto::read_as(back_json, body, Some(back)) && if back.status == status::OK {
            r matches Ok((arena, fp)) && arena@ == back.arena@ && fp == back.schema_fp as u64
        } else {
            r matches Err(e) && client::refused(e, Request::Subscribe, back.message@)
        };
    assert(back.fields().fields[1] == fields.fields[1]);
    assert(back.fields().fields[2] == fields.fields[2]);
    assert(back.fields().fields[3] == fields.fields[3]);
    assert(back.fields().fields[4] == fields.fields[4]);
    proto::law_fingerprint_as_long(v.reg.channels[m.channel_id].schema_fp, 0);
}

/// A request for a function changes nothing, and is answered to who sent it, under its
/// correlation id. What the connector makes of the answer is what the registry says: the arena
/// and the schemas of the function, or why it may not be called.
#[verifier::rlimit(40)]
pub proof fn law_lookup_is_answered(
    v: BrokerView,
    w: BrokerView,
    m: LookupFunction,
    f: Frame,
    step: Step,
    r: Result<LookupReply, ClientError>,
)
    requires
        proto::catalog_good(),
        sent_as(Kind::LookupFunction, m, f),
        broker::handles(v, w, f@.wire(), step),
        v.rings.dom().contains(m.client_id),
        avro::conforms(broker::lookup_reply(v, m), proto::kind_shape(Kind::LookupReply)),
        step.action is Send ==> client::lookup_answer(step.action->frame.body@, r),
    ensures
        w == v,
        step.action matches Action::Send { client_id, frame } && client_id == m.client_id
            && proto::routes(frame@, m.correlation_id),
        match v.reg.lookup_refusal(m.fn_name@, m.access_key@) {
            None => {
                let known = v.reg.function_named(m.fn_name@)->Some_0;
                r matches Ok(lr) && lr.fn_id == known.id && lr.req_fp as u64 == known.req_fp
                    && lr.resp_fp as u64 == known.resp_fp && lr.req_arena@ == known.req_arena@
            },
            Some((code, words)) => r matches Err(e) && client::refused(e, Request::Lookup, words),
        },
{
    lemma_understood(Kind::LookupFunction, m, f);
    let json = proto::schema_text(Kind::LookupFunction);
    lemma_served(v, w, Kind::LookupFunction, f@, step);
    let n = choose|n: LookupFunction| #[trigger]
        proto::read_as(json, f@.body, Some(n)) && broker::replies(
            v,
            n.client_id,
            Kind::LookupReply,
            broker::lookup_reply(v, n),
            step.action,
        );
    assert(n.fields().fields[0] == m.fields().fields[0]);
    assert(n.fields().fields[1] == m.fields().fields[1]);
    assert(n.fields().fields[2] == m.fields().fields[2]);
    assert(n.fields().fields[3] == m.fields().fields[3]);
    let fields = broker::lookup_reply(v, m);
    proto::law_reply_routes(step.action->frame@, Kind::LookupReply, fields, m.correlation_id);
    assert(proto::routes(step.action->frame@, m.correlation_id));
    let back_json = proto::schema_text(Kind::LookupReply);
    let body = step.action->frame.body@;
    assert(!proto::read_as::<LookupReply>(back_json, body, None));
    let back = choose|back: LookupReply| #[trigger]
        proto::read_as(back_json, body, Some(back)) && if back.status == status::OK {
            r == Ok::<LookupReply, ClientError>(back)
        } else {
            r matches Err(e) && client::refused(e, Request::Lookup, back.message@)
        };
    assert(back.fields().fields[1] == fields.fields[1]);
    assert(back.fields().fields[2] == fields.fields[2]);
    assert(back.fields().fields[3] == fields.fields[3]);
    assert(back.fields().fields[4] == fields.fields[4]);
    assert(back.fields().fields[5] == fields.fields[5]);
    assert(back.fields().fields[6] == fields.fields[6]);
    match v.reg.function_named(m.fn_name@) {
        Some(known) => {
            proto::law_fingerprint_as_long(known.req_fp, 0);
            proto::law_fingerprint_as_long(known.resp_fp, 0);
        },
        None => {},
    }
}

/// A request for the channels on the bus changes nothing, and is answered to who sent it, under
/// its correlation id, with every channel once.
#[verifier::rlimit(40)]
pub proof fn law_list_is_answered(
    v: BrokerView,
    w: BrokerView,
    m: ListChannels,
    f: Frame,
    step: Step,
    channels: Seq<ChannelInfo>,
)
    requires
        proto::catalog_good(),
        sent_as(Kind::ListChannels, m, f),
        broker::handles(v, w, f@.wire(), step),
        v.rings.dom().contains(m.client_id),
        forall|list: ChannelList|
            registry::lists_channels(v.reg, list.channels@) ==> avro::sized(
                #[trigger] list.fields(),
            ),
        step.action is Send ==> exists|back: ChannelList| #[trigger]
            proto::read_as(
                proto::schema_text(Kind::ChannelList),
                step.action->frame.body@,
                Some(back),
            ) && back.channels@ == channels,
    ensures
        w == v,
        step.action matches Action::Send { client_id, frame } && client_id == m.client_id
            && proto::routes(frame@, m.correlation_id),
        registry::lists_channels(v.reg, channels),
{
    lemma_understood(Kind::ListChannels, m, f);
    let json = proto::schema_text(Kind::ListChannels);
    lemma_served(v, w, Kind::ListChannels, f@, step);
    let (n, list) = choose|n: ListChannels, list: ChannelList|
        #![trigger proto::read_as(json, f@.body, Some(n)), list.fields()]
        proto::read_as(json, f@.body, Some(n)) && broker::replies(
            v,
            n.client_id,
            Kind::ChannelList,
            list.fields(),
            step.action,
        ) && list.correlation_id == n.correlation_id && registry::lists_channels(
            v.reg,
            list.channels@,
        );
    assert(n.fields().fields[0] == m.fields().fields[0]);
    assert(n.fields().fields[1] == m.fields().fields[1]);
    list.lemma_typed();
    proto::law_reply_routes(
        step.action->frame@,
        Kind::ChannelList,
        list.fields(),
        m.correlation_id,
    );
    assert(proto::routes(step.action->frame@, m.correlation_id));
    let back = choose|back: ChannelList| #[trigger]
        proto::read_as(
            proto::schema_text(Kind::ChannelList),
            step.action->frame.body@,
            Some(back),
        ) && back.channels@ == channels;
    lemma_same_channels(list, back);
    let order = choose|order: Seq<i64>| #[trigger]
        order.no_duplicates() && order.to_set() == v.reg.channels.dom() && order.len()
            == list.channels@.len() && forall|i: int|
            0 <= i < order.len() ==> v.reg.describes(order[i], #[trigger] list.channels@[i]);
    assert forall|i: int| 0 <= i < order.len() implies v.reg.describes(
        order[i],
        #[trigger] channels[i],
    ) by {
        assert(v.reg.describes(order[i], list.channels@[i]));
    }
    assert(order.no_duplicates());
}

proof fn lemma_same_channels(a: ChannelList, b: ChannelList)
    requires
        a.fields() == b.fields(),
    ensures
        a.channels@.len() == b.channels@.len(),
        forall|i: int|
            0 <= i < a.channels@.len() ==> {
                &&& (#[trigger] a.channels@[i]).channel_id == b.channels@[i].channel_id
                &&& a.channels@[i].name@ == b.channels@[i].name@
                &&& a.channels@[i].owner_app@ == b.channels@[i].owner_app@
                &&& a.channels@[i].schema_fp == b.channels@[i].schema_fp
                &&& a.channels@[i].requires_key == b.channels@[i].requires_key
            },
{
    assert(a.fields().rows.len() == a.channels@.len());
    assert(b.fields().rows.len() == b.channels@.len());
    assert forall|i: int| 0 <= i < a.channels@.len() implies {
        &&& (#[trigger] a.channels@[i]).channel_id == b.channels@[i].channel_id
        &&& a.channels@[i].name@ == b.channels@[i].name@
        &&& a.channels@[i].owner_app@ == b.channels@[i].owner_app@
        &&& a.channels@[i].schema_fp == b.channels@[i].schema_fp
        &&& a.channels@[i].requires_key == b.channels@[i].requires_key
    } by {
        let x = a.channels@[i].row();
        let y = b.channels@[i].row();
        assert(a.fields().rows[i] == x);
        assert(b.fields().rows[i] == y);
        assert(x[0] == y[0] && x[1] == y[1] && x[2] == y[2] && x[3] == y[3] && x[4] == y[4]);
    }
}

/// A request for a channel whose name is free and whose text is a schema is granted: the channel
/// that waits for its arena is the one that was asked for.
#[verifier::rlimit(40)]
pub proof fn law_publish_is_granted(
    v: BrokerView,
    w: BrokerView,
    m: PublishChannel,
    f: Frame,
    step: Step,
)
    requires
        proto::catalog_good(),
        sent_as(Kind::PublishChannel, m, f),
        broker::handles(v, w, f@.wire(), step),
        !v.reg.chan_by_name.dom().contains(m.channel@),
        avro::is_schema(m.schema_json@),
    ensures
        step.released is None,
        step.action matches Action::Create { arena, cap, pending: Pending::Channel {
            correlation_id,
            meta,
        } } && correlation_id == m.correlation_id && arena@ == meta.arena@ && broker::new_channel(
            meta,
            v.reg.next_channel,
            m,
        ),
{
    lemma_understood(Kind::PublishChannel, m, f);
    let json = proto::schema_text(Kind::PublishChannel);
    lemma_served(v, w, Kind::PublishChannel, f@, step);
    let n = choose|n: PublishChannel| #[trigger]
        proto::read_as(json, f@.body, Some(n)) && broker::publishes(v, w, n, None, step);
    assert(n.fields().fields[0] == m.fields().fields[0]);
    assert(n.fields().fields[1] == m.fields().fields[1]);
    assert(n.fields().fields[2] == m.fields().fields[2]);
    assert(n.fields().fields[3] == m.fields().fields[3]);
    assert(n.fields().fields[4] == m.fields().fields[4]);
}

/// An offer of a function whose name is free and whose texts are schemas is granted: the
/// function that waits for its arena is the one that was offered.
#[verifier::rlimit(40)]
pub proof fn law_expose_is_granted(
    v: BrokerView,
    w: BrokerView,
    m: ExposeFunction,
    f: Frame,
    step: Step,
)
    requires
        proto::catalog_good(),
        sent_as(Kind::ExposeFunction, m, f),
        broker::handles(v, w, f@.wire(), step),
        !v.reg.fn_by_name.dom().contains(m.fn_name@),
        avro::is_schema(m.req_schema_json@),
        avro::is_schema(m.resp_schema_json@),
    ensures
        step.released is None,
        step.action matches Action::Create { arena, cap, pending: Pending::Function {
            correlation_id,
            meta,
        } } && correlation_id == m.correlation_id && arena@ == meta.req_arena@
            && broker::is_arena_cap(m.req_arena_cap, cap) && broker::new_function(
            meta,
            v.reg.next_fn,
            m,
        ),
{
    lemma_understood(Kind::ExposeFunction, m, f);
    let json = proto::schema_text(Kind::ExposeFunction);
    lemma_served(v, w, Kind::ExposeFunction, f@, step);
    assert(proto::legacy_fp(Kind::ExposeFunction) != Some(proto::kind_fp(Kind::ExposeFunction)));
    assert(proto::legacy_fp(Kind::ExposeFunction) != Some(f@.schema_fp as nat));
    assert(!proto::read_as::<ExposeFunction>(json, f@.body, None));
    let n = choose|n: ExposeFunction| #[trigger]
        proto::expose_in(f@, Some(n)) && broker::exposes(v, w, n, None, step);
    assert(proto::read_as(json, f@.body, Some(n)));
    assert(n.fields().fields[0] == m.fields().fields[0]);
    assert(n.fields().fields[1] == m.fields().fields[1]);
    assert(n.fields().fields[2] == m.fields().fields[2]);
    assert(n.fields().fields[3] == m.fields().fields[3]);
    assert(n.fields().fields[4] == m.fields().fields[4]);
    assert(n.fields().fields[5] == m.fields().fields[5]);
    assert(n.fields().fields[6] == m.fields().fields[6]);
}

/// Who asked for a channel is told, under the correlation id of the request, the channel's arena
/// and the fingerprint of its schema.
pub proof fn law_publisher_is_told(
    v: BrokerView,
    w: BrokerView,
    correlation_id: i64,
    meta: ChannelMeta,
    action: Action,
    r: Result<(String, Fingerprint), ClientError>,
)
    requires
        proto::catalog_good(),
        broker::completes(v, w, (Pending::Channel { correlation_id, meta }), action),
        v.rings.dom().contains(meta.owner),
        vstd::utf8::encode_utf8(meta.arena@).len() <= avro::MAX_BYTES,
        action is Send ==> client::publish_answer(action->frame.body@, r),
    ensures
        action matches Action::Send { client_id, frame } && client_id == meta.owner
            && proto::routes(frame@, correlation_id),
        r matches Ok((arena, fp)) && arena@ == meta.arena@ && fp == meta.schema_fp,
{
    let fields = PublishReply::record(
        correlation_id,
        meta.id,
        meta.schema_fp as i64,
        meta.arena@,
        status::OK,
        ""@,
    );
    reveal_strlit("");
    assert(avro::conforms(fields, proto::kind_shape(Kind::PublishReply)));
    proto::law_reply_routes(action->frame@, Kind::PublishReply, fields, correlation_id);
    assert(proto::routes(action->frame@, correlation_id));
    let json = proto::schema_text(Kind::PublishReply);
    let body = action->frame.body@;
    assert(!proto::read_as::<PublishReply>(json, body, None));
    let back = choose|back: PublishReply| #[trigger]
        proto::read_as(json, body, Some(back)) && if back.status == status::OK {
            r matches Ok((arena, fp)) && arena@ == back.arena@ && fp == back.schema_fp as u64
        } else {
            r matches Err(e) && client::refused(e, Request::Publish, back.message@)
        };
    assert(back.fields().fields[2] == fields.fields[2]);
    assert(back.fields().fields[3] == fields.fields[3]);
    assert(back.fields().fields[4] == fields.fields[4]);
    proto::law_fingerprint_as_long(meta.schema_fp, 0);
}

/// Who offered a function is told, under the correlation id of the offer, the function's request
/// arena and the fingerprints of its schemas.
pub proof fn law_exposer_is_told(
    v: BrokerView,
    w: BrokerView,
    correlation_id: i64,
    meta: FunctionMeta,
    action: Action,
    r: Result<(String, Fingerprint, Fingerprint), ClientError>,
)
    requires
        proto::catalog_good(),
        broker::completes(v, w, (Pending::Function { correlation_id, meta }), action),
        v.rings.dom().contains(meta.owner),
        vstd::utf8::encode_utf8(meta.req_arena@).len() <= avro::MAX_BYTES,
        action is Send ==> client::expose_answer(action->frame.body@, r),
    ensures
        action matches Action::Send { client_id, frame } && client_id == meta.owner
            && proto::routes(frame@, correlation_id),
        r matches Ok((arena, req_fp, resp_fp)) && arena@ == meta.req_arena@ && req_fp == meta.req_fp
            && resp_fp == meta.resp_fp,
{
    let fields = ExposeReply::record(
        correlation_id,
        meta.id,
        meta.req_fp as i64,
        meta.resp_fp as i64,
        meta.req_arena@,
        status::OK,
        ""@,
    );
    reveal_strlit("");
    assert(avro::conforms(fields, proto::kind_shape(Kind::ExposeReply)));
    proto::law_reply_routes(action->frame@, Kind::ExposeReply, fields, correlation_id);
    assert(proto::routes(action->frame@, correlation_id));
    let json = proto::schema_text(Kind::ExposeReply);
    let body = action->frame.body@;
    assert(!proto::read_as::<ExposeReply>(json, body, None));
    let back = choose|back: ExposeReply| #[trigger]
        proto::read_as(json, body, Some(back)) && if back.status == status::OK {
            r matches Ok((arena, req_fp, resp_fp)) && arena@ == back.req_arena@ && req_fp
                == back.req_fp as u64 && resp_fp == back.resp_fp as u64
        } else {
            r matches Err(e) && client::refused(e, Request::Expose, back.message@)
        };
    assert(back.fields().fields[2] == fields.fields[2]);
    assert(back.fields().fields[3] == fields.fields[3]);
    assert(back.fields().fields[4] == fields.fields[4]);
    assert(back.fields().fields[5] == fields.fields[5]);
    proto::law_fingerprint_as_long(meta.req_fp, 0);
    proto::law_fingerprint_as_long(meta.resp_fp, 0);
}

/// Who says goodbye is let go, with all that it owned.
pub proof fn law_goodbye_is_understood(
    v: BrokerView,
    w: BrokerView,
    m: Unregister,
    f: Frame,
    step: Step,
)
    requires
        proto::catalog_good(),
        sent_as(Kind::Unregister, m, f),
        broker::handles(v, w, f@.wire(), step),
    ensures
        w == v.released(m.client_id),
        step.released matches Some(r) && broker::releases(v, m.client_id, r),
        step.action is Done,
{
    lemma_understood(Kind::Unregister, m, f);
    let json = proto::schema_text(Kind::Unregister);
    lemma_served(v, w, Kind::Unregister, f@, step);
    let n = choose|n: Unregister| #[trigger]
        proto::read_as(json, f@.body, Some(n)) && w == v.released(n.client_id) && step.released
            is Some && broker::releases(v, n.client_id, step.released->Some_0) && step.action
            is Done;
    assert(n.fields().fields[1] == m.fields().fields[1]);
}

/// A channel that was asked for and made is on the list that the broker answers with afterwards:
/// once, under the name that was asked for, with the fingerprint of the schema that came with the
/// request, and marked as locked exactly where the request had a key.
pub proof fn law_published_channel_is_listed(
    catalog: Catalog,
    b: &mut Broker,
    m: PublishChannel,
    probed: Option<bool>,
    step: Step,
    c: &mut Broker,
    made: Action,
    told: Result<PublishReply, ProtoError>,
    d: Broker,
    asked: ListChannels,
    answer: Action,
    read: Result<ChannelList, ProtoError>,
)
    requires
        old(b)@.wf(),
        old(b)@.reg.next_channel < i64::MAX,
        old(b)@.reg.next_fn < i64::MAX,
        !old(b)@.reg.chan_by_name.dom().contains(m.channel@),
        avro::is_schema(m.schema_json@),
        old(b)@.rings.dom().contains(m.client_id),
        call_ensures(Broker::on_publish, (b, &catalog, m, probed), step),
        old(c)@ == final(b)@,
        step.action matches Action::Create { arena, cap, pending } ==> call_ensures(
            Broker::created,
            (c, &catalog, pending),
            made,
        ),
        made matches Action::Send { client_id, frame } ==> call_ensures(
            proto::from_frame::<PublishReply>,
            (&catalog, Kind::PublishReply, &frame),
            told,
        ),
        d@ == final(c)@,
        call_ensures(Broker::on_list, (&d, &catalog, &asked), answer),
        d@.rings.dom().contains(asked.client_id),
        forall|list: ChannelList|
            registry::lists_channels(d@.reg, list.channels@) ==> avro::sized(
                #[trigger] list.fields(),
            ),
        answer matches Action::Send { client_id, frame } ==> call_ensures(
            proto::from_frame::<ChannelList>,
            (&catalog, Kind::ChannelList, &frame),
            read,
        ),
    ensures
        told matches Ok(n) && n.correlation_id == m.correlation_id && n.status == 0
            && n.schema_fp as u64 as nat == avro::schema_fp(m.schema_json@),
        read matches Ok(list) && list.correlation_id == asked.correlation_id,
        exists|i: int|
            0 <= i < read->Ok_0.channels@.len() && (#[trigger] read->Ok_0.channels@[i]).channel_id
                == told->Ok_0.channel_id,
        forall|i: int|
            0 <= i < read->Ok_0.channels@.len() && (#[trigger] read->Ok_0.channels@[i]).channel_id
                == told->Ok_0.channel_id ==> {
                let row = read->Ok_0.channels@[i];
                &&& row.name@ == m.channel@
                &&& row.schema_fp as u64 as nat == avro::schema_fp(m.schema_json@)
                &&& row.requires_key <==> m.access_key@.len() > 0
                &&& old(b)@.reg.clients.dom().contains(m.client_id) ==> row.owner_app@
                    == old(b)@.reg.clients[m.client_id].app_name@
            },
{
    lemma_channel_is_made(catalog, b, m, probed, step, c, made, told);
    broker::law_lister_is_answered(catalog, d, asked, answer, read, told->Ok_0.channel_id);
}

/// What becomes of a request for a channel with a free name and a schema once its arena is there.
#[verifier::rlimit(40)]
proof fn lemma_channel_is_made(
    catalog: Catalog,
    b: &mut Broker,
    m: PublishChannel,
    probed: Option<bool>,
    step: Step,
    c: &mut Broker,
    made: Action,
    told: Result<PublishReply, ProtoError>,
)
    requires
        old(b)@.wf(),
        old(b)@.reg.next_channel < i64::MAX,
        old(b)@.reg.next_fn < i64::MAX,
        !old(b)@.reg.chan_by_name.dom().contains(m.channel@),
        avro::is_schema(m.schema_json@),
        old(b)@.rings.dom().contains(m.client_id),
        call_ensures(Broker::on_publish, (b, &catalog, m, probed), step),
        old(c)@ == final(b)@,
        step.action matches Action::Create { arena, cap, pending } ==> call_ensures(
            Broker::created,
            (c, &catalog, pending),
            made,
        ),
        made matches Action::Send { client_id, frame } ==> call_ensures(
            proto::from_frame::<PublishReply>,
            (&catalog, Kind::PublishReply, &frame),
            told,
        ),
    ensures
        final(c)@.wf(),
        final(c)@.rings == old(b)@.rings,
        final(c)@.reg.clients == old(b)@.reg.clients,
        told matches Ok(n) && n.correlation_id == m.correlation_id && n.status == 0
            && n.schema_fp as u64 as nat == avro::schema_fp(m.schema_json@)
            && final(c)@.reg.channels.dom().contains(n.channel_id) && {
            let meta = final(c)@.reg.channels[n.channel_id];
            &&& meta.name@ == m.channel@
            &&& meta.owner == m.client_id
            &&& meta.arena@ == n.arena@
            &&& meta.schema_fp as nat == avro::schema_fp(m.schema_json@)
            &&& meta.key is None <==> m.access_key@.len() == 0
            &&& meta.key matches Some(hash) ==> hash@ == util::hashed_key(m.access_key@)
            &&& vstd::utf8::encode_utf8(meta.arena@).len() <= avro::MAX_BYTES
        },
{
    assert(broker::publishes(old(b)@, final(b)@, m, probed, step));
    assert(step.action is Create);
    let any: ExposeFunction = arbitrary();
    broker::law_granted_is_addable(old(b)@, final(b)@, m, any, probed, step);
    match step.action {
        Action::Create { arena, cap, pending: Pending::Channel { correlation_id, meta } } => {
            broker::lemma_arena_name_is_short(meta.arena@, meta.id as u64);
            broker::law_created_channel_is_there(catalog, c, correlation_id, meta, made, told);
        },
        _ => {},
    }
}

/// A channel that was asked for and made is read by who has its key: it is told the arena and the
/// fingerprint of the schema that came with the request, unless it expects another. Another key is
/// refused, and any key opens a channel that was asked for without one.
pub proof fn law_published_channel_is_read(
    catalog: Catalog,
    b: &mut Broker,
    m: PublishChannel,
    probed: Option<bool>,
    step: Step,
    c: &mut Broker,
    made: Action,
    told: Result<PublishReply, ProtoError>,
    d: Broker,
    asked: Subscribe,
    answer: Action,
    read: Result<SubscribeReply, ProtoError>,
)
    requires
        old(b)@.wf(),
        old(b)@.reg.next_channel < i64::MAX,
        old(b)@.reg.next_fn < i64::MAX,
        !old(b)@.reg.chan_by_name.dom().contains(m.channel@),
        avro::is_schema(m.schema_json@),
        old(b)@.rings.dom().contains(m.client_id),
        call_ensures(Broker::on_publish, (b, &catalog, m, probed), step),
        old(c)@ == final(b)@,
        step.action matches Action::Create { arena, cap, pending } ==> call_ensures(
            Broker::created,
            (c, &catalog, pending),
            made,
        ),
        made matches Action::Send { client_id, frame } ==> call_ensures(
            proto::from_frame::<PublishReply>,
            (&catalog, Kind::PublishReply, &frame),
            told,
        ),
        d@ == final(c)@,
        told matches Ok(n) ==> asked.channel_id == n.channel_id,
        call_ensures(Broker::on_subscribe, (&d, &catalog, &asked), answer),
        d@.rings.dom().contains(asked.client_id),
        answer matches Action::Send { client_id, frame } ==> call_ensures(
            proto::from_frame::<SubscribeReply>,
            (&catalog, Kind::SubscribeReply, &frame),
            read,
        ),
    ensures
        answer matches Action::Send { client_id, frame } && client_id == asked.client_id,
        read matches Ok(n) && n.correlation_id == asked.correlation_id && {
            let opens = m.access_key@.len() == 0 || util::hashed_key(asked.access_key@)
                == util::hashed_key(m.access_key@);
            let fp = avro::schema_fp(m.schema_json@);
            if !opens {
                n.status == 2 && n.arena@.len() == 0
            } else if asked.expected_fp as u64 != 0 && asked.expected_fp as u64 as nat != fp {
                n.status == 3 && n.arena@.len() == 0
            } else {
                n.status == 0 && n.arena@ == told->Ok_0.arena@ && n.schema_fp as u64 as nat == fp
            }
        },
{
    lemma_channel_is_made(catalog, b, m, probed, step, c, made, told);
    broker::law_reader_is_answered(catalog, d, asked, answer, read);
}

/// A function that was offered and made is found by its name by who has its key: it is told the
/// request arena and the fingerprints of both schemas that came with the offer. Another key is
/// refused, and any key opens a function that was offered without one.
#[verifier::rlimit(40)]
pub proof fn law_exposed_function_is_found(
    catalog: Catalog,
    b: &mut Broker,
    m: ExposeFunction,
    probed: Option<bool>,
    step: Step,
    c: &mut Broker,
    made: Action,
    told: Result<ExposeReply, ProtoError>,
    d: Broker,
    asked: LookupFunction,
    answer: Action,
    read: Result<LookupReply, ProtoError>,
)
    requires
        old(b)@.wf(),
        old(b)@.reg.next_channel < i64::MAX,
        old(b)@.reg.next_fn < i64::MAX,
        !old(b)@.reg.fn_by_name.dom().contains(m.fn_name@),
        avro::is_schema(m.req_schema_json@),
        avro::is_schema(m.resp_schema_json@),
        old(b)@.rings.dom().contains(m.client_id),
        call_ensures(Broker::on_expose, (b, &catalog, m, probed), step),
        old(c)@ == final(b)@,
        step.action matches Action::Create { arena, cap, pending } ==> call_ensures(
            Broker::created,
            (c, &catalog, pending),
            made,
        ),
        made matches Action::Send { client_id, frame } ==> call_ensures(
            proto::from_frame::<ExposeReply>,
            (&catalog, Kind::ExposeReply, &frame),
            told,
        ),
        d@ == final(c)@,
        asked.fn_name@ == m.fn_name@,
        call_ensures(Broker::on_lookup, (&d, &catalog, &asked), answer),
        d@.rings.dom().contains(asked.client_id),
        answer matches Action::Send { client_id, frame } ==> call_ensures(
            proto::from_frame::<LookupReply>,
            (&catalog, Kind::LookupReply, &frame),
            read,
        ),
    ensures
        told matches Ok(n) && n.correlation_id == m.correlation_id && n.status == 0
            && n.req_fp as u64 as nat == avro::schema_fp(m.req_schema_json@)
            && n.resp_fp as u64 as nat == avro::schema_fp(m.resp_schema_json@),
        answer matches Action::Send { client_id, frame } && client_id == asked.client_id,
        read matches Ok(n) && n.correlation_id == asked.correlation_id && {
            let opens = m.access_key@.len() == 0 || util::hashed_key(asked.access_key@)
                == util::hashed_key(m.access_key@);
            if !opens {
                n.status == 2 && n.req_arena@.len() == 0
            } else {
                &&& n.status == 0
                &&& n.fn_id == told->Ok_0.fn_id
                &&& n.req_arena@ == told->Ok_0.req_arena@
                &&& n.req_fp as u64 as nat == avro::schema_fp(m.req_schema_json@)
                &&& n.resp_fp as u64 as nat == avro::schema_fp(m.resp_schema_json@)
            }
        },
{
    assert(broker::exposes(old(b)@, final(b)@, m, probed, step));
    assert(step.action is Create);
    let any: PublishChannel = arbitrary();
    broker::law_granted_is_addable(old(b)@, final(b)@, any, m, probed, step);
    match step.action {
        Action::Create { arena, cap, pending: Pending::Function { correlation_id, meta } } => {
            broker::lemma_arena_name_is_short(meta.req_arena@, meta.id as u64);
            broker::law_created_function_is_there(catalog, c, correlation_id, meta, made, told);
        },
        _ => {},
    }
    broker::law_caller_is_answered(catalog, d, asked, answer, read);
}

/// Bytes that are no frame change nothing, and the broker says why they are none.
pub proof fn law_no_frame_is_told(
    catalog: Catalog,
    b: &mut Broker,
    came: &[u8],
    step: Step,
    read: Result<Frame, FrameError>,
)
    requires
        old(b)@.wf(),
        call_ensures(Broker::handle, (b, &catalog, came), step),
        call_ensures(Frame::decode, (came,), read),
        read is Err,
    ensures
        final(b)@ == old(b)@,
        step.released is None,
        read matches Err(e) && step.action == Action::Fail(BrokerError::Frame(e)),
{
}

/// A sign of life changes nothing and is not answered.
pub proof fn law_heartbeat_is_heard(
    v: BrokerView,
    w: BrokerView,
    m: Heartbeat,
    f: Frame,
    step: Step,
)
    requires
        proto::catalog_good(),
        sent_as(Kind::Heartbeat, m, f),
        broker::handles(v, w, f@.wire(), step),
    ensures
        w == v,
        step.released is None,
        step.action is Done,
{
    lemma_understood(Kind::Heartbeat, m, f);
    lemma_served(v, w, Kind::Heartbeat, f@, step);
}

/// A message that is no request to the broker changes nothing, and neither does a frame under a
/// fingerprint that announces no message.
pub proof fn law_stray_frame_is_told<T: Message>(
    v: BrokerView,
    w: BrokerView,
    kind: Kind,
    m: T,
    f: Frame,
    g: FrameView,
    other: Step,
    step: Step,
)
    requires
        proto::catalog_good(),
        sent_as(kind, m, f),
        broker::handles(v, w, f@.wire(), step),
        kind is RegisterReply || kind is PublishReply || kind is ChannelList || kind
            is SubscribeReply || kind is ExposeReply || kind is LookupReply,
    ensures
        w == v,
        step.released is None,
        step.action == Action::Fail(BrokerError::Unexpected(kind)),
        broker::handles(v, v, g.wire(), other) && frame::parse_frame(g.wire()) == Ok::<
            FrameView,
            FrameError,
        >(g) && (forall|k: Kind| !#[trigger] proto::announces(g.schema_fp as nat, k)) ==> (
        other.released is None && other.action == Action::Fail(BrokerError::UnknownFingerprint)),
{
    lemma_understood(kind, m, f);
    lemma_served(v, w, kind, f@, step);
}

/// A round of the broker takes the oldest submission and does with it what its bytes say; where
/// there is none, it changes nothing, and ends or sleeps by the time that is left.
pub proof fn law_round_takes_the_oldest(
    catalog: Catalog,
    b: &mut Broker,
    submission: &mut Ring,
    remaining: u64,
    r: Round,
)
    requires
        old(b)@.wf(),
        old(submission)@.wf(),
        call_ensures(Broker::run, (b, &catalog, submission, remaining), r),
    ensures
        r is Handled <==> old(submission)@.queue().len() > 0,
        r matches Round::Handled(step) ==> final(submission)@.queue()
            == old(submission)@.queue().drop_first() && broker::handles(
            old(b)@,
            final(b)@,
            old(submission)@.queue()[0],
            step,
        ),
        !(r is Handled) ==> final(b)@ == old(b)@ && final(submission)@ == old(submission)@,
        r is TimedOut <==> old(submission)@.queue().len() == 0 && remaining == 0,
        r matches Round::Park { seen, nanos } ==> nanos == remaining && seen
            == old(submission)@.data_seq(),
{
}

/// Once it is known whether a name's owner lives, the request that waited for it goes on as it
/// would with that answer.
pub proof fn law_probe_goes_on(
    catalog: Catalog,
    b: &mut Broker,
    m: PublishChannel,
    alive: bool,
    step: Step,
    read: Result<PublishReply, ProtoError>,
)
    requires
        old(b)@.wf(),
        call_ensures(Broker::probed, (b, &catalog, Question::Publish(m), alive), step),
        step.action matches Action::Send { client_id, frame } ==> call_ensures(
            proto::from_frame::<PublishReply>,
            (&catalog, Kind::PublishReply, &frame),
            read,
        ),
        old(b)@.rings.dom().contains(m.client_id),
        old(b)@.reg.chan_by_name.dom().contains(m.channel@),
    ensures
        !(step.action is Probe),
        alive ==> final(b)@ == old(b)@ && step.released is None,
        alive ==> (step.action matches Action::Send { client_id, frame } && client_id
            == m.client_id),
        !alive && avro::is_schema(m.schema_json@) && old(b)@.reg.pid_of(
            old(b)@.reg.channels[old(b)@.reg.chan_by_name[m.channel@]].owner,
        ) != 0 ==> (step.action matches Action::Create {
            pending: Pending::Channel { meta, .. },
            ..
        } && meta.name@ == m.channel@ && meta.owner == m.client_id) && step.released is Some,
{
}

/// Once it is known whether a function's owner lives, the offer that waited for it goes on as it
/// would with that answer.
pub proof fn law_probe_for_function_goes_on(
    catalog: Catalog,
    b: &mut Broker,
    m: ExposeFunction,
    alive: bool,
    step: Step,
    read: Result<ExposeReply, ProtoError>,
)
    requires
        old(b)@.wf(),
        call_ensures(Broker::probed, (b, &catalog, Question::Expose(m), alive), step),
        step.action matches Action::Send { client_id, frame } ==> call_ensures(
            proto::from_frame::<ExposeReply>,
            (&catalog, Kind::ExposeReply, &frame),
            read,
        ),
        old(b)@.rings.dom().contains(m.client_id),
        old(b)@.reg.fn_by_name.dom().contains(m.fn_name@),
    ensures
        !(step.action is Probe),
        alive ==> final(b)@ == old(b)@ && step.released is None,
        alive ==> (step.action matches Action::Send { client_id, frame } && client_id
            == m.client_id),
        !alive && avro::is_schema(m.req_schema_json@) && avro::is_schema(m.resp_schema_json@)
            && old(b)@.reg.pid_of(
            old(b)@.reg.functions[old(b)@.reg.fn_by_name[m.fn_name@]].owner,
        ) != 0 ==> (step.action matches Action::Create {
            pending: Pending::Function { meta, .. },
            ..
        } && meta.name@ == m.fn_name@ && meta.owner == m.client_id) && step.released is Some,
{
}

/// The status codes of replies.
pub proof fn law_status_codes()
    ensures
        status::OK == 0,
        status::ERR_NOT_FOUND == 1,
        status::ERR_DENIED == 2,
        status::ERR_SCHEMA_MISMATCH == 3,
        status::ERR_INTERNAL == 4,
        status::ERR_EXISTS == 5,
{
}

/// What the broker does with a submission is what its bytes say, whatever they are: a request that
/// came off the wire is served as the laws about requests say, and the broker stays in order.
pub proof fn law_submission_is_handled<T: Message>(
    catalog: Catalog,
    b: &mut Broker,
    kind: Kind,
    m: T,
    f: Frame,
    bytes: Vec<u8>,
    came: &[u8],
    step: Step,
)
    requires
        old(b)@.wf(),
        call_ensures(Frame::encode, (&f,), bytes),
        came@ == bytes@,
        call_ensures(Broker::handle, (b, &catalog, came), step),
    ensures
        broker::handles(old(b)@, final(b)@, f@.wire(), step),
        final(b)@.wf(),
        proto::catalog_good() && sent_as(kind, m, f) ==> broker::serves(
            old(b)@,
            final(b)@,
            kind,
            f@,
            step,
        ),
{
    if proto::catalog_good() && sent_as(kind, m, f) {
        lemma_understood(kind, m, f);
        lemma_served(old(b)@, final(b)@, kind, f@, step);
    }
}

} // verus!
