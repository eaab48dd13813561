//! What the records of the control plane and of calls hold, field by field: every value stands
//! under its own name, in what is written and in what is read.
use vstd::prelude::*;

use crate::avro;
use crate::avro::{AvroError, Fingerprint, Record, ScalarView, Schema};
use crate::frame::Frame;
use crate::proto;
use crate::proto::messages::{
    ChannelList, ExposeFunction, ExposeReply, Heartbeat, LegacyExposeFunction, LegacyRegister,
    ListChannels, LookupFunction, LookupReply, Message, PublishChannel, PublishReply, Register,
    RegisterReply, RpcRequest, RpcResponse, Subscribe, SubscribeReply, Unregister,
};
use crate::proto::schemas;
use crate::proto::{Catalog, Kind, ProtoError};

verus! {

/// A record of some values is read as the record of the same values.
pub proof fn law_message_comes_back<T: Message>(m: T, r: Record, back: Option<T>)
    requires
        call_ensures(T::to_record, (&m,), r),
        call_ensures(T::from_record, (&r,), back),
    ensures
        back matches Some(n) && n.fields() == m.fields(),
{
    m.lemma_typed();
}

/// A `Register` as a record, written or read: its values by the names of the fields.
pub proof fn law_register_fields(m: Register, r: Record)
    requires
        call_ensures(<Register as Message>::to_record, (&m,), r) || call_ensures(
            <Register as Message>::from_record,
            (&r,),
            Some(m),
        ),
    ensures
        r@.fields.len() == 6,
        r@.fields.contains(("correlation_id"@, ScalarView::Long(m.correlation_id))),
        r@.fields.contains(("app_name"@, ScalarView::Text(m.app_name@))),
        r@.fields.contains(("nonce"@, ScalarView::Long(m.nonce))),
        r@.fields.contains(("reply_segment"@, ScalarView::Text(m.reply_segment@))),
        r@.fields.contains(("heartbeat_ms"@, ScalarView::Long(m.heartbeat_ms))),
        r@.fields.contains(("pid"@, ScalarView::Long(m.pid))),
        r@.rows.len() == 0,
{
    assert(m.fields().fields[0] == r@.fields[0]);
    assert(m.fields().fields[1] == r@.fields[1]);
    assert(m.fields().fields[2] == r@.fields[2]);
    assert(m.fields().fields[3] == r@.fields[3]);
    assert(m.fields().fields[4] == r@.fields[4]);
    assert(m.fields().fields[5] == r@.fields[5]);
}

/// A `RegisterReply` as a record, written or read: its values by the names of the fields.
pub proof fn law_register_reply_fields(m: RegisterReply, r: Record)
    requires
        call_ensures(<RegisterReply as Message>::to_record, (&m,), r) || call_ensures(
            <RegisterReply as Message>::from_record,
            (&r,),
            Some(m),
        ),
    ensures
        r@.fields.len() == 4,
        r@.fields.contains(("correlation_id"@, ScalarView::Long(m.correlation_id))),
        r@.fields.contains(("client_id"@, ScalarView::Long(m.client_id))),
        r@.fields.contains(("status"@, ScalarView::Int(m.status))),
        r@.fields.contains(("message"@, ScalarView::Text(m.message@))),
        r@.rows.len() == 0,
{
    assert(m.fields().fields[0] == r@.fields[0]);
    assert(m.fields().fields[1] == r@.fields[1]);
    assert(m.fields().fields[2] == r@.fields[2]);
    assert(m.fields().fields[3] == r@.fields[3]);
}

/// A `Unregister` as a record, written or read: its values by the names of the fields.
pub proof fn law_unregister_fields(m: Unregister, r: Record)
    requires
        call_ensures(<Unregister as Message>::to_record, (&m,), r) || call_ensures(
            <Unregister as Message>::from_record,
            (&r,),
            Some(m),
        ),
    ensures
        r@.fields.len() == 2,
        r@.fields.contains(("correlation_id"@, ScalarView::Long(m.correlation_id))),
        r@.fields.contains(("client_id"@, ScalarView::Long(m.client_id))),
        r@.rows.len() == 0,
{
    assert(m.fields().fields[0] == r@.fields[0]);
    assert(m.fields().fields[1] == r@.fields[1]);
}

/// A `PublishChannel` as a record, written or read: its values by the names of the fields.
pub proof fn law_publish_channel_fields(m: PublishChannel, r: Record)
    requires
        call_ensures(<PublishChannel as Message>::to_record, (&m,), r) || call_ensures(
            <PublishChannel as Message>::from_record,
            (&r,),
            Some(m),
        ),
    ensures
        r@.fields.len() == 5,
        r@.fields.contains(("correlation_id"@, ScalarView::Long(m.correlation_id))),
        r@.fields.contains(("client_id"@, ScalarView::Long(m.client_id))),
        r@.fields.contains(("channel"@, ScalarView::Text(m.channel@))),
        r@.fields.contains(("schema_json"@, ScalarView::Text(m.schema_json@))),
        r@.fields.contains(("access_key"@, ScalarView::Text(m.access_key@))),
        r@.rows.len() == 0,
{
    assert(m.fields().fields[0] == r@.fields[0]);
    assert(m.fields().fields[1] == r@.fields[1]);
    assert(m.fields().fields[2] == r@.fields[2]);
    assert(m.fields().fields[3] == r@.fields[3]);
    assert(m.fields().fields[4] == r@.fields[4]);
}

/// A `PublishReply` as a record, written or read: its values by the names of the fields.
pub proof fn law_publish_reply_fields(m: PublishReply, r: Record)
    requires
        call_ensures(<PublishReply as Message>::to_record, (&m,), r) || call_ensures(
            <PublishReply as Message>::from_record,
            (&r,),
            Some(m),
        ),
    ensures
        r@.fields.len() == 6,
        r@.fields.contains(("correlation_id"@, ScalarView::Long(m.correlation_id))),
        r@.fields.contains(("channel_id"@, ScalarView::Long(m.channel_id))),
        r@.fields.contains(("schema_fp"@, ScalarView::Long(m.schema_fp))),
        r@.fields.contains(("arena"@, ScalarView::Text(m.arena@))),
        r@.fields.contains(("status"@, ScalarView::Int(m.status))),
        r@.fields.contains(("message"@, ScalarView::Text(m.message@))),
        r@.rows.len() == 0,
{
    assert(m.fields().fields[0] == r@.fields[0]);
    assert(m.fields().fields[1] == r@.fields[1]);
    assert(m.fields().fields[2] == r@.fields[2]);
    assert(m.fields().fields[3] == r@.fields[3]);
    assert(m.fields().fields[4] == r@.fields[4]);
    assert(m.fields().fields[5] == r@.fields[5]);
}

/// A `ListChannels` as a record, written or read: its values by the names of the fields.
pub proof fn law_list_channels_fields(m: ListChannels, r: Record)
    requires
        call_ensures(<ListChannels as Message>::to_record, (&m,), r) || call_ensures(
            <ListChannels as Message>::from_record,
            (&r,),
            Some(m),
        ),
    ensures
        r@.fields.len() == 2,
        r@.fields.contains(("correlation_id"@, ScalarView::Long(m.correlation_id))),
        r@.fields.contains(("client_id"@, ScalarView::Long(m.client_id))),
        r@.rows.len() == 0,
{
    assert(m.fields().fields[0] == r@.fields[0]);
    assert(m.fields().fields[1] == r@.fields[1]);
}

/// A `Subscribe` as a record, written or read: its values by the names of the fields.
pub proof fn law_subscribe_fields(m: Subscribe, r: Record)
    requires
        call_ensures(<Subscribe as Message>::to_record, (&m,), r) || call_ensures(
            <Subscribe as Message>::from_record,
            (&r,),
            Some(m),
        ),
    ensures
        r@.fields.len() == 5,
        r@.fields.contains(("correlation_id"@, ScalarView::Long(m.correlation_id))),
        r@.fields.contains(("client_id"@, ScalarView::Long(m.client_id))),
        r@.fields.contains(("channel_id"@, ScalarView::Long(m.channel_id))),
        r@.fields.contains(("access_key"@, ScalarView::Text(m.access_key@))),
        r@.fields.contains(("expected_fp"@, ScalarView::Long(m.expected_fp))),
        r@.rows.len() == 0,
{
    assert(m.fields().fields[0] == r@.fields[0]);
    assert(m.fields().fields[1] == r@.fields[1]);
    assert(m.fields().fields[2] == r@.fields[2]);
    assert(m.fields().fields[3] == r@.fields[3]);
    assert(m.fields().fields[4] == r@.fields[4]);
}

/// A `SubscribeReply` as a record, written or read: its values by the names of the fields.
pub proof fn law_subscribe_reply_fields(m: SubscribeReply, r: Record)
    requires
        call_ensures(<SubscribeReply as Message>::to_record, (&m,), r) || call_ensures(
            <SubscribeReply as Message>::from_record,
            (&r,),
            Some(m),
        ),
    ensures
        r@.fields.len() == 5,
        r@.fields.contains(("correlation_id"@, ScalarView::Long(m.correlation_id))),
        r@.fields.contains(("arena"@, ScalarView::Text(m.arena@))),
        r@.fields.contains(("schema_fp"@, ScalarView::Long(m.schema_fp))),
        r@.fields.contains(("status"@, ScalarView::Int(m.status))),
        r@.fields.contains(("message"@, ScalarView::Text(m.message@))),
        r@.rows.len() == 0,
{
    assert(m.fields().fields[0] == r@.fields[0]);
    assert(m.fields().fields[1] == r@.fields[1]);
    assert(m.fields().fields[2] == r@.fields[2]);
    assert(m.fields().fields[3] == r@.fields[3]);
    assert(m.fields().fields[4] == r@.fields[4]);
}

/// A `ExposeFunction` as a record, written or read: its values by the names of the fields.
pub proof fn law_expose_function_fields(m: ExposeFunction, r: Record)
    requires
        call_ensures(<ExposeFunction as Message>::to_record, (&m,), r) || call_ensures(
            <ExposeFunction as Message>::from_record,
            (&r,),
            Some(m),
        ),
    ensures
        r@.fields.len() == 7,
        r@.fields.contains(("correlation_id"@, ScalarView::Long(m.correlation_id))),
        r@.fields.contains(("client_id"@, ScalarView::Long(m.client_id))),
        r@.fields.contains(("fn_name"@, ScalarView::Text(m.fn_name@))),
        r@.fields.contains(("req_schema_json"@, ScalarView::Text(m.req_schema_json@))),
        r@.fields.contains(("resp_schema_json"@, ScalarView::Text(m.resp_schema_json@))),
        r@.fields.contains(("access_key"@, ScalarView::Text(m.access_key@))),
        r@.fields.contains(("req_arena_cap"@, ScalarView::Long(m.req_arena_cap))),
        r@.rows.len() == 0,
{
    assert(m.fields().fields[0] == r@.fields[0]);
    assert(m.fields().fields[1] == r@.fields[1]);
    assert(m.fields().fields[2] == r@.fields[2]);
    assert(m.fields().fields[3] == r@.fields[3]);
    assert(m.fields().fields[4] == r@.fields[4]);
    assert(m.fields().fields[5] == r@.fields[5]);
    assert(m.fields().fields[6] == r@.fields[6]);
}

/// A `ExposeReply` as a record, written or read: its values by the names of the fields.
pub proof fn law_expose_reply_fields(m: ExposeReply, r: Record)
    requires
        call_ensures(<ExposeReply as Message>::to_record, (&m,), r) || call_ensures(
            <ExposeReply as Message>::from_record,
            (&r,),
            Some(m),
        ),
    ensures
        r@.fields.len() == 7,
        r@.fields.contains(("correlation_id"@, ScalarView::Long(m.correlation_id))),
        r@.fields.contains(("fn_id"@, ScalarView::Long(m.fn_id))),
        r@.fields.contains(("req_fp"@, ScalarView::Long(m.req_fp))),
        r@.fields.contains(("resp_fp"@, ScalarView::Long(m.resp_fp))),
        r@.fields.contains(("req_arena"@, ScalarView::Text(m.req_arena@))),
        r@.fields.contains(("status"@, ScalarView::Int(m.status))),
        r@.fields.contains(("message"@, ScalarView::Text(m.message@))),
        r@.rows.len() == 0,
{
    assert(m.fields().fields[0] == r@.fields[0]);
    assert(m.fields().fields[1] == r@.fields[1]);
    assert(m.fields().fields[2] == r@.fields[2]);
    assert(m.fields().fields[3] == r@.fields[3]);
    assert(m.fields().fields[4] == r@.fields[4]);
    assert(m.fields().fields[5] == r@.fields[5]);
    assert(m.fields().fields[6] == r@.fields[6]);
}

/// A `LookupFunction` as a record, written or read: its values by the names of the fields.
pub proof fn law_lookup_function_fields(m: LookupFunction, r: Record)
    requires
        call_ensures(<LookupFunction as Message>::to_record, (&m,), r) || call_ensures(
            <LookupFunction as Message>::from_record,
            (&r,),
            Some(m),
        ),
    ensures
        r@.fields.len() == 4,
        r@.fields.contains(("correlation_id"@, ScalarView::Long(m.correlation_id))),
        r@.fields.contains(("client_id"@, ScalarView::Long(m.client_id))),
        r@.fields.contains(("fn_name"@, ScalarView::Text(m.fn_name@))),
        r@.fields.contains(("access_key"@, ScalarView::Text(m.access_key@))),
        r@.rows.len() == 0,
{
    assert(m.fields().fields[0] == r@.fields[0]);
    assert(m.fields().fields[1] == r@.fields[1]);
    assert(m.fields().fields[2] == r@.fields[2]);
    assert(m.fields().fields[3] == r@.fields[3]);
}

/// A `LookupReply` as a record, written or read: its values by the names of the fields.
pub proof fn law_lookup_reply_fields(m: LookupReply, r: Record)
    requires
        call_ensures(<LookupReply as Message>::to_record, (&m,), r) || call_ensures(
            <LookupReply as Message>::from_record,
            (&r,),
            Some(m),
        ),
    ensures
        r@.fields.len() == 7,
        r@.fields.contains(("correlation_id"@, ScalarView::Long(m.correlation_id))),
        r@.fields.contains(("fn_id"@, ScalarView::Long(m.fn_id))),
        r@.fields.contains(("req_fp"@, ScalarView::Long(m.req_fp))),
        r@.fields.contains(("resp_fp"@, ScalarView::Long(m.resp_fp))),
        r@.fields.contains(("req_arena"@, ScalarView::Text(m.req_arena@))),
        r@.fields.contains(("status"@, ScalarView::Int(m.status))),
        r@.fields.contains(("message"@, ScalarView::Text(m.message@))),
        r@.rows.len() == 0,
{
    assert(m.fields().fields[0] == r@.fields[0]);
    assert(m.fields().fields[1] == r@.fields[1]);
    assert(m.fields().fields[2] == r@.fields[2]);
    assert(m.fields().fields[3] == r@.fields[3]);
    assert(m.fields().fields[4] == r@.fields[4]);
    assert(m.fields().fields[5] == r@.fields[5]);
    assert(m.fields().fields[6] == r@.fields[6]);
}

/// A `Heartbeat` as a record, written or read: its values by the names of the fields.
pub proof fn law_heartbeat_fields(m: Heartbeat, r: Record)
    requires
        call_ensures(<Heartbeat as Message>::to_record, (&m,), r) || call_ensures(
            <Heartbeat as Message>::from_record,
            (&r,),
            Some(m),
        ),
    ensures
        r@.fields.len() == 3,
        r@.fields.contains(("correlation_id"@, ScalarView::Long(m.correlation_id))),
        r@.fields.contains(("client_id"@, ScalarView::Long(m.client_id))),
        r@.fields.contains(("seq"@, ScalarView::Long(m.seq))),
        r@.rows.len() == 0,
{
    assert(m.fields().fields[0] == r@.fields[0]);
    assert(m.fields().fields[1] == r@.fields[1]);
    assert(m.fields().fields[2] == r@.fields[2]);
}

/// A `RpcRequest` as a record, written or read: its values by the names of the fields.
pub proof fn law_rpc_request_fields(m: RpcRequest, r: Record)
    requires
        call_ensures(<RpcRequest as Message>::to_record, (&m,), r) || call_ensures(
            <RpcRequest as Message>::from_record,
            (&r,),
            Some(m),
        ),
    ensures
        r@.fields.len() == 5,
        r@.fields.contains(("correlation_id"@, ScalarView::Long(m.correlation_id))),
        r@.fields.contains(("caller_id"@, ScalarView::Long(m.caller_id))),
        r@.fields.contains(("reply_segment"@, ScalarView::Text(m.reply_segment@))),
        r@.fields.contains(("arg_fp"@, ScalarView::Long(m.arg_fp))),
        r@.fields.contains(("args"@, ScalarView::Bytes(m.args@))),
        r@.rows.len() == 0,
{
    assert(m.fields().fields[0] == r@.fields[0]);
    assert(m.fields().fields[1] == r@.fields[1]);
    assert(m.fields().fields[2] == r@.fields[2]);
    assert(m.fields().fields[3] == r@.fields[3]);
    assert(m.fields().fields[4] == r@.fields[4]);
}

/// A `RpcResponse` as a record, written or read: its values by the names of the fields.
pub proof fn law_rpc_response_fields(m: RpcResponse, r: Record)
    requires
        call_ensures(<RpcResponse as Message>::to_record, (&m,), r) || call_ensures(
            <RpcResponse as Message>::from_record,
            (&r,),
            Some(m),
        ),
    ensures
        r@.fields.len() == 5,
        r@.fields.contains(("correlation_id"@, ScalarView::Long(m.correlation_id))),
        r@.fields.contains(("status"@, ScalarView::Int(m.status))),
        r@.fields.contains(("message"@, ScalarView::Text(m.message@))),
        r@.fields.contains(("result_fp"@, ScalarView::Long(m.result_fp))),
        r@.fields.contains(("result"@, ScalarView::Bytes(m.result@))),
        r@.rows.len() == 0,
{
    assert(m.fields().fields[0] == r@.fields[0]);
    assert(m.fields().fields[1] == r@.fields[1]);
    assert(m.fields().fields[2] == r@.fields[2]);
    assert(m.fields().fields[3] == r@.fields[3]);
    assert(m.fields().fields[4] == r@.fields[4]);
}

/// A `LegacyRegister` as a record, written or read: its values by the names of the fields.
pub proof fn law_legacy_register_fields(m: LegacyRegister, r: Record)
    requires
        call_ensures(<LegacyRegister as Message>::to_record, (&m,), r) || call_ensures(
            <LegacyRegister as Message>::from_record,
            (&r,),
            Some(m),
        ),
    ensures
        r@.fields.len() == 5,
        r@.fields.contains(("correlation_id"@, ScalarView::Long(m.correlation_id))),
        r@.fields.contains(("app_name"@, ScalarView::Text(m.app_name@))),
        r@.fields.contains(("nonce"@, ScalarView::Long(m.nonce))),
        r@.fields.contains(("reply_segment"@, ScalarView::Text(m.reply_segment@))),
        r@.fields.contains(("heartbeat_ms"@, ScalarView::Long(m.heartbeat_ms))),
        r@.rows.len() == 0,
{
    assert(m.fields().fields[0] == r@.fields[0]);
    assert(m.fields().fields[1] == r@.fields[1]);
    assert(m.fields().fields[2] == r@.fields[2]);
    assert(m.fields().fields[3] == r@.fields[3]);
    assert(m.fields().fields[4] == r@.fields[4]);
}

/// A `LegacyExposeFunction` as a record, written or read: its values by the names of the fields.
pub proof fn law_legacy_expose_function_fields(m: LegacyExposeFunction, r: Record)
    requires
        call_ensures(<LegacyExposeFunction as Message>::to_record, (&m,), r) || call_ensures(
            <LegacyExposeFunction as Message>::from_record,
            (&r,),
            Some(m),
        ),
    ensures
        r@.fields.len() == 6,
        r@.fields.contains(("correlation_id"@, ScalarView::Long(m.correlation_id))),
        r@.fields.contains(("client_id"@, ScalarView::Long(m.client_id))),
        r@.fields.contains(("fn_name"@, ScalarView::Text(m.fn_name@))),
        r@.fields.contains(("req_schema_json"@, ScalarView::Text(m.req_schema_json@))),
        r@.fields.contains(("resp_schema_json"@, ScalarView::Text(m.resp_schema_json@))),
        r@.fields.contains(("access_key"@, ScalarView::Text(m.access_key@))),
        r@.rows.len() == 0,
{
    assert(m.fields().fields[0] == r@.fields[0]);
    assert(m.fields().fields[1] == r@.fields[1]);
    assert(m.fields().fields[2] == r@.fields[2]);
    assert(m.fields().fields[3] == r@.fields[3]);
    assert(m.fields().fields[4] == r@.fields[4]);
    assert(m.fields().fields[5] == r@.fields[5]);
}

/// A `ChannelList` as a record, written or read: its values by the names of the fields.
pub proof fn law_channel_list_fields(m: ChannelList, r: Record)
    requires
        call_ensures(<ChannelList as Message>::to_record, (&m,), r) || call_ensures(
            <ChannelList as Message>::from_record,
            (&r,),
            Some(m),
        ),
    ensures
        r@.fields.len() == 2,
        r@.fields.contains(("correlation_id"@, ScalarView::Long(m.correlation_id))),
        r@.fields.contains(("channels"@, ScalarView::List)),
        r@.rows.len() == m.channels@.len(),
        forall|i: int|
            0 <= i < m.channels@.len() ==> {
                let row = #[trigger] r@.rows[i];
                let c = m.channels@[i];
                &&& row.len() == 5
                &&& row.contains(("channel_id"@, ScalarView::Long(c.channel_id)))
                &&& row.contains(("name"@, ScalarView::Text(c.name@)))
                &&& row.contains(("owner_app"@, ScalarView::Text(c.owner_app@)))
                &&& row.contains(("schema_fp"@, ScalarView::Long(c.schema_fp)))
                &&& row.contains(("requires_key"@, ScalarView::Boolean(c.requires_key)))
            },
{
    assert(m.fields().fields[0] == r@.fields[0]);
    assert(m.fields().fields[1] == r@.fields[1]);
    assert forall|i: int| 0 <= i < m.channels@.len() implies {
        let row = #[trigger] r@.rows[i];
        let c = m.channels@[i];
        &&& row.len() == 5
        &&& row.contains(("channel_id"@, ScalarView::Long(c.channel_id)))
        &&& row.contains(("name"@, ScalarView::Text(c.name@)))
        &&& row.contains(("owner_app"@, ScalarView::Text(c.owner_app@)))
        &&& row.contains(("schema_fp"@, ScalarView::Long(c.schema_fp)))
        &&& row.contains(("requires_key"@, ScalarView::Boolean(c.requires_key)))
    } by {
        let row = m.channels@[i].row();
        assert(r@.rows[i] == row);
        assert(row[0] == r@.rows[i][0] && row[1] == r@.rows[i][1]);
        assert(row[2] == r@.rows[i][2] && row[3] == r@.rows[i][3]);
        assert(row[4] == r@.rows[i][4]);
    }
}

// ---- frames --------------------------------------------------------------------------------

/// A record is put into a frame and taken out of it as it was, and the frame is not taken for one
/// of another kind.
pub proof fn law_record_travels<T: Message>(
    catalog: Catalog,
    kind: Kind,
    m: T,
    f: Result<Frame, AvroError>,
    found: Option<Kind>,
    fp: Fingerprint,
    back: Result<T, ProtoError>,
)
    requires
        proto::catalog_good(),
        T::shape() == proto::kind_shape(kind),
        avro::sized(m.fields()),
        call_ensures(proto::to_frame::<T>, (&catalog, kind, &m), f),
        call_ensures(Catalog::fp, (&catalog, kind), fp),
        f matches Ok(g) ==> call_ensures(Catalog::kind_of, (&catalog, g.schema_fp), found),
        f matches Ok(g) ==> call_ensures(proto::from_frame::<T>, (&catalog, kind, &g), back),
    ensures
        f matches Ok(g) && g.flags == 0 && g.schema_fp == fp,
        found matches Some(k) ==> k == kind,
        back matches Ok(n) && n.fields() == m.fields(),
{
    m.lemma_typed();
    let g = f->Ok_0;
    if let Some(k) = found {
        assert(proto::announces(g.schema_fp as nat, k));
        assert(proto::kind_fp(k) == proto::kind_fp(kind) || proto::legacy_fp(k) == Some(
            proto::kind_fp(kind),
        ));
    }
}

/// A fingerprint is carried as a `long` and back without loss.
pub proof fn law_fingerprint_travels(fp: Fingerprint, v: i64, back: Fingerprint)
    requires
        call_ensures(proto::fp_to_i64, (fp,), v),
        call_ensures(proto::i64_to_fp, (v,), back),
    ensures
        back == fp,
{
    proto::law_fingerprint_as_long(fp, v);
}

/// Kinds have different names, different schemas and different fingerprints.
pub proof fn law_kinds_differ(
    catalog: Catalog,
    a: Kind,
    b: Kind,
    schema_a: &'static str,
    schema_b: &'static str,
    fp_a: Fingerprint,
    fp_b: Fingerprint,
)
    requires
        call_ensures(proto::schema_json, (a,), schema_a),
        call_ensures(proto::schema_json, (b,), schema_b),
        call_ensures(Catalog::fp, (&catalog, a), fp_a),
        call_ensures(Catalog::fp, (&catalog, b), fp_b),
        a != b,
    ensures
        schema_a@ != schema_b@,
        fp_a != fp_b,
        fp_a as nat == avro::schema_fp(schema_a@),
{
    assert(proto::kind_fp(a) != proto::kind_fp(b));
}

/// A frame of an older connector that joins is read with the schema of its time: what it says is
/// what the broker reads, and the process is not known.
pub proof fn law_older_join_is_read(
    catalog: Catalog,
    old_form: LegacyRegister,
    f: Frame,
    r: Result<Register, ProtoError>,
    up: Register,
)
    requires
        proto::catalog_good(),
        f.schema_fp as nat == avro::schema_fp(schemas::LEGACY_REGISTER_SCHEMA@),
        avro::avro_read(schemas::LEGACY_REGISTER_SCHEMA@, f.body@) == Some(old_form.fields()),
        call_ensures(proto::register_from_frame, (&catalog, &f), r),
        call_ensures(LegacyRegister::upgrade, (old_form,), up),
    ensures
        r matches Ok(m) && m.correlation_id == old_form.correlation_id && m.app_name@
            == old_form.app_name@ && m.nonce == old_form.nonce && m.reply_segment@
            == old_form.reply_segment@ && m.heartbeat_ms == old_form.heartbeat_ms && m.pid == 0,
        up.correlation_id == old_form.correlation_id && up.app_name@ == old_form.app_name@
            && up.nonce == old_form.nonce && up.reply_segment@ == old_form.reply_segment@
            && up.heartbeat_ms == old_form.heartbeat_ms && up.pid == 0,
{
    old_form.lemma_typed();
    let m = r->Ok_0;
    assert(m.legacy().fields().fields[0] == old_form.fields().fields[0]);
    assert(m.legacy().fields().fields[1] == old_form.fields().fields[1]);
    assert(m.legacy().fields().fields[2] == old_form.fields().fields[2]);
    assert(m.legacy().fields().fields[3] == old_form.fields().fields[3]);
    assert(m.legacy().fields().fields[4] == old_form.fields().fields[4]);
}

/// A frame of an older connector that offers a function is read with the schema of its time: what
/// it says is what the broker reads, and the arena is the default one.
pub proof fn law_older_offer_is_read(
    catalog: Catalog,
    old_form: LegacyExposeFunction,
    f: Frame,
    r: Result<ExposeFunction, ProtoError>,
    up: ExposeFunction,
)
    requires
        proto::catalog_good(),
        f.schema_fp as nat == avro::schema_fp(schemas::LEGACY_EXPOSE_FUNCTION_SCHEMA@),
        avro::avro_read(schemas::LEGACY_EXPOSE_FUNCTION_SCHEMA@, f.body@) == Some(
            old_form.fields(),
        ),
        call_ensures(proto::expose_from_frame, (&catalog, &f), r),
        call_ensures(LegacyExposeFunction::upgrade, (old_form,), up),
    ensures
        r matches Ok(m) && m.correlation_id == old_form.correlation_id && m.client_id
            == old_form.client_id && m.fn_name@ == old_form.fn_name@ && m.req_schema_json@
            == old_form.req_schema_json@ && m.resp_schema_json@ == old_form.resp_schema_json@
            && m.access_key@ == old_form.access_key@ && m.req_arena_cap == 0,
        up.correlation_id == old_form.correlation_id && up.client_id == old_form.client_id
            && up.fn_name@ == old_form.fn_name@ && up.req_schema_json@ == old_form.req_schema_json@
            && up.resp_schema_json@ == old_form.resp_schema_json@ && up.access_key@
            == old_form.access_key@ && up.req_arena_cap == 0,
{
    old_form.lemma_typed();
    let m = r->Ok_0;
    assert(m.legacy().fields().fields[0] == old_form.fields().fields[0]);
    assert(m.legacy().fields().fields[1] == old_form.fields().fields[1]);
    assert(m.legacy().fields().fields[2] == old_form.fields().fields[2]);
    assert(m.legacy().fields().fields[3] == old_form.fields().fields[3]);
    assert(m.legacy().fields().fields[4] == old_form.fields().fields[4]);
    assert(m.legacy().fields().fields[5] == old_form.fields().fields[5]);
}

/// A frame of a present connector is read as it was written, process and arena size and all.
pub proof fn law_present_frames_are_read(
    catalog: Catalog,
    join: Register,
    offer: ExposeFunction,
    f: Frame,
    g: Frame,
    r: Result<Register, ProtoError>,
    s: Result<ExposeFunction, ProtoError>,
)
    requires
        proto::catalog_good(),
        avro::sized(join.fields()),
        avro::sized(offer.fields()),
        call_ensures(
            proto::to_frame::<Register>,
            (&catalog, Kind::Register, &join),
            Ok::<Frame, AvroError>(f),
        ),
        call_ensures(
            proto::to_frame::<ExposeFunction>,
            (&catalog, Kind::ExposeFunction, &offer),
            Ok::<Frame, AvroError>(g),
        ),
        call_ensures(proto::register_from_frame, (&catalog, &f), r),
        call_ensures(proto::expose_from_frame, (&catalog, &g), s),
    ensures
        r matches Ok(m) && m.app_name@ == join.app_name@ && m.pid == join.pid && m.reply_segment@
            == join.reply_segment@ && m.correlation_id == join.correlation_id && m.nonce
            == join.nonce,
        s matches Ok(m) && m.fn_name@ == offer.fn_name@ && m.req_arena_cap == offer.req_arena_cap
            && m.access_key@ == offer.access_key@ && m.req_schema_json@ == offer.req_schema_json@
            && m.resp_schema_json@ == offer.resp_schema_json@ && m.client_id == offer.client_id
            && m.correlation_id == offer.correlation_id,
{
    join.lemma_typed();
    offer.lemma_typed();
    assert(proto::legacy_fp(Kind::Register) != Some(proto::kind_fp(Kind::Register)));
    assert(proto::legacy_fp(Kind::ExposeFunction) != Some(proto::kind_fp(Kind::ExposeFunction)));
    let m = r->Ok_0;
    let n = s->Ok_0;
    assert(m.fields() == join.fields());
    assert(n.fields() == offer.fields());
    assert(m.fields().fields[0] == join.fields().fields[0]);
    assert(m.fields().fields[1] == join.fields().fields[1]);
    assert(m.fields().fields[2] == join.fields().fields[2]);
    assert(m.fields().fields[3] == join.fields().fields[3]);
    assert(m.fields().fields[5] == join.fields().fields[5]);
    assert(n.fields().fields[0] == offer.fields().fields[0]);
    assert(n.fields().fields[1] == offer.fields().fields[1]);
    assert(n.fields().fields[2] == offer.fields().fields[2]);
    assert(n.fields().fields[3] == offer.fields().fields[3]);
    assert(n.fields().fields[4] == offer.fields().fields[4]);
    assert(n.fields().fields[5] == offer.fields().fields[5]);
    assert(n.fields().fields[6] == offer.fields().fields[6]);
}

/// A `RegisterReply` is given to the call whose correlation id it carries.
pub proof fn law_register_reply_is_routed(
    catalog: Catalog,
    m: RegisterReply,
    f: Frame,
    r: Result<i64, ProtoError>,
)
    requires
        proto::catalog_good(),
        avro::sized(m.fields()),
        call_ensures(
            proto::to_frame::<RegisterReply>,
            (&catalog, Kind::RegisterReply, &m),
            Ok::<Frame, AvroError>(f),
        ),
        call_ensures(proto::correlation_id, (&catalog, &f), r),
    ensures
        r == Ok::<i64, ProtoError>(m.correlation_id),
{
    m.lemma_typed();
    proto::law_reply_routes(f@, Kind::RegisterReply, m.fields(), m.correlation_id);
    assert(proto::routes(f@, m.correlation_id));
}

/// A `PublishReply` is given to the call whose correlation id it carries.
pub proof fn law_publish_reply_is_routed(
    catalog: Catalog,
    m: PublishReply,
    f: Frame,
    r: Result<i64, ProtoError>,
)
    requires
        proto::catalog_good(),
        avro::sized(m.fields()),
        call_ensures(
            proto::to_frame::<PublishReply>,
            (&catalog, Kind::PublishReply, &m),
            Ok::<Frame, AvroError>(f),
        ),
        call_ensures(proto::correlation_id, (&catalog, &f), r),
    ensures
        r == Ok::<i64, ProtoError>(m.correlation_id),
{
    m.lemma_typed();
    proto::law_reply_routes(f@, Kind::PublishReply, m.fields(), m.correlation_id);
    assert(proto::routes(f@, m.correlation_id));
}

/// A `ChannelList` is given to the call whose correlation id it carries.
pub proof fn law_channel_list_is_routed(
    catalog: Catalog,
    m: ChannelList,
    f: Frame,
    r: Result<i64, ProtoError>,
)
    requires
        proto::catalog_good(),
        avro::sized(m.fields()),
        call_ensures(
            proto::to_frame::<ChannelList>,
            (&catalog, Kind::ChannelList, &m),
            Ok::<Frame, AvroError>(f),
        ),
        call_ensures(proto::correlation_id, (&catalog, &f), r),
    ensures
        r == Ok::<i64, ProtoError>(m.correlation_id),
{
    m.lemma_typed();
    proto::law_reply_routes(f@, Kind::ChannelList, m.fields(), m.correlation_id);
    assert(proto::routes(f@, m.correlation_id));
}

/// A `SubscribeReply` is given to the call whose correlation id it carries.
pub proof fn law_subscribe_reply_is_routed(
    catalog: Catalog,
    m: SubscribeReply,
    f: Frame,
    r: Result<i64, ProtoError>,
)
    requires
        proto::catalog_good(),
        avro::sized(m.fields()),
        call_ensures(
            proto::to_frame::<SubscribeReply>,
            (&catalog, Kind::SubscribeReply, &m),
            Ok::<Frame, AvroError>(f),
        ),
        call_ensures(proto::correlation_id, (&catalog, &f), r),
    ensures
        r == Ok::<i64, ProtoError>(m.correlation_id),
{
    m.lemma_typed();
    proto::law_reply_routes(f@, Kind::SubscribeReply, m.fields(), m.correlation_id);
    assert(proto::routes(f@, m.correlation_id));
}

/// A `ExposeReply` is given to the call whose correlation id it carries.
pub proof fn law_expose_reply_is_routed(
    catalog: Catalog,
    m: ExposeReply,
    f: Frame,
    r: Result<i64, ProtoError>,
)
    requires
        proto::catalog_good(),
        avro::sized(m.fields()),
        call_ensures(
            proto::to_frame::<ExposeReply>,
            (&catalog, Kind::ExposeReply, &m),
            Ok::<Frame, AvroError>(f),
        ),
        call_ensures(proto::correlation_id, (&catalog, &f), r),
    ensures
        r == Ok::<i64, ProtoError>(m.correlation_id),
{
    m.lemma_typed();
    proto::law_reply_routes(f@, Kind::ExposeReply, m.fields(), m.correlation_id);
    assert(proto::routes(f@, m.correlation_id));
}

/// A `LookupReply` is given to the call whose correlation id it carries.
pub proof fn law_lookup_reply_is_routed(
    catalog: Catalog,
    m: LookupReply,
    f: Frame,
    r: Result<i64, ProtoError>,
)
    requires
        proto::catalog_good(),
        avro::sized(m.fields()),
        call_ensures(
            proto::to_frame::<LookupReply>,
            (&catalog, Kind::LookupReply, &m),
            Ok::<Frame, AvroError>(f),
        ),
        call_ensures(proto::correlation_id, (&catalog, &f), r),
    ensures
        r == Ok::<i64, ProtoError>(m.correlation_id),
{
    m.lemma_typed();
    proto::law_reply_routes(f@, Kind::LookupReply, m.fields(), m.correlation_id);
    assert(proto::routes(f@, m.correlation_id));
}

/// A `RpcResponse` is given to the call whose correlation id it carries.
pub proof fn law_rpc_response_is_routed(
    catalog: Catalog,
    m: RpcResponse,
    f: Frame,
    r: Result<i64, ProtoError>,
)
    requires
        proto::catalog_good(),
        avro::sized(m.fields()),
        call_ensures(
            proto::to_frame::<RpcResponse>,
            (&catalog, Kind::RpcResponse, &m),
            Ok::<Frame, AvroError>(f),
        ),
        call_ensures(proto::correlation_id, (&catalog, &f), r),
    ensures
        r == Ok::<i64, ProtoError>(m.correlation_id),
{
    m.lemma_typed();
    proto::law_reply_routes(f@, Kind::RpcResponse, m.fields(), m.correlation_id);
    assert(proto::routes(f@, m.correlation_id));
}

/// A request is given to no call.
pub proof fn law_requests_are_not_routed(
    catalog: Catalog,
    kind: Kind,
    f: Frame,
    fp: Fingerprint,
    r: Result<i64, ProtoError>,
)
    requires
        proto::catalog_good(),
        call_ensures(Catalog::fp, (&catalog, kind), fp),
        f.schema_fp == fp,
        kind is Register || kind is Unregister || kind is PublishChannel || kind is ListChannels
            || kind is Subscribe || kind is ExposeFunction || kind is LookupFunction
            || kind is Heartbeat || kind is RpcRequest,
        call_ensures(proto::correlation_id, (&catalog, &f), r),
    ensures
        r == Err::<i64, ProtoError>(ProtoError::NotRoutable(kind)),
{
    assert(proto::announces(f.schema_fp as nat, kind));
    assert forall|k: Kind| #[trigger] proto::announces(f.schema_fp as nat, k) implies k == kind by {
        assert(proto::kind_fp(k) == proto::kind_fp(kind) || proto::legacy_fp(k) == Some(
            proto::kind_fp(kind),
        ));
    }
    match r {
        Ok(c) => {
            assert(proto::routes(f@, c));
            let k = choose|k: Kind| #[trigger]
                proto::announces(f@.schema_fp as nat, k) && proto::is_reply(k)
                    && proto::reply_correlation(k, f@.body) == Some(c);
            assert(k == kind);
        },
        _ => {},
    }
}

/// Every message has its name, which the errors speak of, and the catalog holds its schema.
pub proof fn law_kinds_have_names(
    kind: Kind,
    r: &'static str,
    all: Vec<Kind>,
    catalog: Catalog,
    schema: &Schema,
)
    requires
        call_ensures(proto::kind_name, (kind,), r),
        call_ensures(proto::all_kinds, (), all),
        call_ensures(Catalog::schema, (&catalog, kind), schema),
    ensures
        r@ == (match kind {
            Kind::Register => "Register"@,
            Kind::RegisterReply => "RegisterReply"@,
            Kind::Unregister => "Unregister"@,
            Kind::PublishChannel => "PublishChannel"@,
            Kind::PublishReply => "PublishReply"@,
            Kind::ListChannels => "ListChannels"@,
            Kind::ChannelList => "ChannelList"@,
            Kind::Subscribe => "Subscribe"@,
            Kind::SubscribeReply => "SubscribeReply"@,
            Kind::ExposeFunction => "ExposeFunction"@,
            Kind::ExposeReply => "ExposeReply"@,
            Kind::LookupFunction => "LookupFunction"@,
            Kind::LookupReply => "LookupReply"@,
            Kind::Heartbeat => "Heartbeat"@,
            Kind::RpcRequest => "RpcRequest"@,
            Kind::RpcResponse => "RpcResponse"@,
        }),
        all@.contains(kind),
        all@.no_duplicates(),
        avro::schema_fp(schema@) == proto::kind_fp(kind),
{
    let k = proto::kinds();
    assert(k.len() == 16);
    let i: int = match kind {
        Kind::Register => 0,
        Kind::RegisterReply => 1,
        Kind::Unregister => 2,
        Kind::PublishChannel => 3,
        Kind::PublishReply => 4,
        Kind::ListChannels => 5,
        Kind::ChannelList => 6,
        Kind::Subscribe => 7,
        Kind::SubscribeReply => 8,
        Kind::ExposeFunction => 9,
        Kind::ExposeReply => 10,
        Kind::LookupFunction => 11,
        Kind::LookupReply => 12,
        Kind::Heartbeat => 13,
        Kind::RpcRequest => 14,
        Kind::RpcResponse => 15,
    };
    assert(k[i] == kind);
}

/// The words of an error about a frame.
pub proof fn law_proto_error_words(
    e: ProtoError,
    words: String,
    kind: Kind,
    name: &'static str,
    avro: AvroError,
    of_avro: String,
)
    requires
        call_ensures(ProtoError::message, (&e,), words),
        call_ensures(proto::kind_name, (kind,), name),
        call_ensures(AvroError::message, (&avro,), of_avro),
    ensures
        e is Fields ==> words@ == "record fields do not match"@,
        e is UnknownFingerprint ==> words@ == "unknown frame fingerprint"@,
        e == ProtoError::NotRoutable(kind) ==> words@ == "frame kind "@ + name@
            + " is not a routable reply"@,
        e == ProtoError::Avro(avro) ==> words@ == of_avro@,
{
}

} // verus!
