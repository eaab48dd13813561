//! The records of the control plane and of calls, as plain values and as Avro records.
use vstd::prelude::*;

use crate::avro;
use crate::avro::{FieldType, Record, RecordView, Scalar, ScalarView, Shape, ShapeView};
use crate::text;

verus! {

/// A record with a fixed shape.
pub trait Message: Sized {
    /// The shape of the record's schema.
    spec fn shape() -> ShapeView;

    /// The record's fields.
    spec fn fields(&self) -> RecordView;

    /// The record's fields have the shape of its schema.
    proof fn lemma_typed(&self)
        ensures
            avro::typed(self.fields(), Self::shape()),
    ;

    /// The shape of the record's schema.
    fn expected_shape() -> (r: Shape)
        ensures
            r@ == Self::shape(),
    ;

    /// The fields of the record, in the order of its schema.
    fn to_record(&self) -> (r: Record)
        ensures
            r@ == self.fields(),
    ;

    /// The record with these fields, `None` where they do not have its shape.
    fn from_record(r: &Record) -> (m: Option<Self>)
        ensures
            match m {
                Some(m) => r@ == m.fields(),
                None => !avro::typed(r@, Self::shape()),
            },
    ;
}

pub(crate) fn copy_bytes(b: &Vec<u8>) -> (r: Vec<u8>)
    ensures
        r@ == b@,
{
    let mut r: Vec<u8> = Vec::new();
    r.extend_from_slice(b.as_slice());
    assert(r@ =~= b@);
    r
}

/// What stands at a place of a row stands there in the row's view.
pub(crate) proof fn lemma_row(row: Seq<(String, Scalar)>)
    ensures
        avro::row_view(row).len() == row.len(),
        forall|i: int|
            0 <= i < row.len() ==> avro::row_view(row)[i] == ((#[trigger] row[i]).0@, row[i].1@),
{
}

pub(crate) fn field_type(name: &str, t: FieldType) -> (r: (String, FieldType))
    ensures
        (r.0@, r.1) == (name@, t),
{
    (name.to_owned(), t)
}

pub(crate) fn field(name: &str, x: Scalar) -> (r: (String, Scalar))
    ensures
        (r.0@, r.1@) == (name@, x@),
{
    (name.to_owned(), x)
}

/// Whether a field is the list with this name.
pub(crate) fn is_list(f: &(String, Scalar), name: &str) -> (r: bool)
    ensures
        r == ((f.0@, f.1@) == (name@, ScalarView::List)),
{
    text::same_text(f.0.as_str(), name) && match &f.1 {
        Scalar::List => true,
        _ => false,
    }
}

pub(crate) fn take_long(f: &(String, Scalar), name: &str) -> (r: Option<i64>)
    ensures
        match r {
            Some(x) => (f.0@, f.1@) == (name@, ScalarView::Long(x)),
            None => f.0@ != name@ || !(f.1@ is Long),
        },
{
    if !text::same_text(f.0.as_str(), name) {
        return None;
    }
    match &f.1 {
        Scalar::Long(x) => Some(*x),
        _ => None,
    }
}

pub(crate) fn take_int(f: &(String, Scalar), name: &str) -> (r: Option<i32>)
    ensures
        match r {
            Some(x) => (f.0@, f.1@) == (name@, ScalarView::Int(x)),
            None => f.0@ != name@ || !(f.1@ is Int),
        },
{
    if !text::same_text(f.0.as_str(), name) {
        return None;
    }
    match &f.1 {
        Scalar::Int(x) => Some(*x),
        _ => None,
    }
}

pub(crate) fn take_text(f: &(String, Scalar), name: &str) -> (r: Option<String>)
    ensures
        match r {
            Some(x) => (f.0@, f.1@) == (name@, ScalarView::Text(x@)),
            None => f.0@ != name@ || !(f.1@ is Text),
        },
{
    if !text::same_text(f.0.as_str(), name) {
        return None;
    }
    match &f.1 {
        Scalar::Text(x) => Some(x.clone()),
        _ => None,
    }
}

pub(crate) fn take_bytes(f: &(String, Scalar), name: &str) -> (r: Option<Vec<u8>>)
    ensures
        match r {
            Some(x) => (f.0@, f.1@) == (name@, ScalarView::Bytes(x@)),
            None => f.0@ != name@ || !(f.1@ is Bytes),
        },
{
    if !text::same_text(f.0.as_str(), name) {
        return None;
    }
    match &f.1 {
        Scalar::Bytes(x) => Some(copy_bytes(x)),
        _ => None,
    }
}

pub(crate) fn take_boolean(f: &(String, Scalar), name: &str) -> (r: Option<bool>)
    ensures
        match r {
            Some(x) => (f.0@, f.1@) == (name@, ScalarView::Boolean(x)),
            None => f.0@ != name@ || !(f.1@ is Boolean),
        },
{
    if !text::same_text(f.0.as_str(), name) {
        return None;
    }
    match &f.1 {
        Scalar::Boolean(x) => Some(*x),
        _ => None,
    }
}

/// A connector joins the bus. `pid` is the process of the connector, 0 where it is not known.
#[derive(Clone, Debug)]
pub struct Register {
    pub correlation_id: i64,
    pub app_name: String,
    pub nonce: i64,
    pub reply_segment: String,
    pub heartbeat_ms: i64,
    pub pid: i64,
}

impl Register {
    /// The fields of a record with these values.
    pub open spec fn record(
        correlation_id: i64,
        app_name: Seq<char>,
        nonce: i64,
        reply_segment: Seq<char>,
        heartbeat_ms: i64,
        pid: i64,
    ) -> RecordView {
        RecordView {
            fields: seq![
                ("correlation_id"@, ScalarView::Long(correlation_id)),
                ("app_name"@, ScalarView::Text(app_name)),
                ("nonce"@, ScalarView::Long(nonce)),
                ("reply_segment"@, ScalarView::Text(reply_segment)),
                ("heartbeat_ms"@, ScalarView::Long(heartbeat_ms)),
                ("pid"@, ScalarView::Long(pid)),
            ],
            rows: Seq::empty(),
        }
    }
}

impl Message for Register {
    open spec fn shape() -> ShapeView {
        ShapeView {
            fields: seq![
                ("correlation_id"@, FieldType::Long),
                ("app_name"@, FieldType::Text),
                ("nonce"@, FieldType::Long),
                ("reply_segment"@, FieldType::Text),
                ("heartbeat_ms"@, FieldType::Long),
                ("pid"@, FieldType::Long),
            ],
            row: Seq::empty(),
        }
    }

    open spec fn fields(&self) -> RecordView {
        Self::record(
            self.correlation_id,
            self.app_name@,
            self.nonce,
            self.reply_segment@,
            self.heartbeat_ms,
            self.pid,
        )
    }

    proof fn lemma_typed(&self) {
    }

    fn expected_shape() -> (r: Shape) {
        let fields: Vec<(String, FieldType)> = vec![
            field_type("correlation_id", FieldType::Long),
            field_type("app_name", FieldType::Text),
            field_type("nonce", FieldType::Long),
            field_type("reply_segment", FieldType::Text),
            field_type("heartbeat_ms", FieldType::Long),
            field_type("pid", FieldType::Long),
        ];
        let r = Shape { fields, row: Vec::new() };
        assert(r@ =~= Self::shape());
        r
    }

    fn to_record(&self) -> (r: Record) {
        let fields: Vec<(String, Scalar)> = vec![
            field("correlation_id", Scalar::Long(self.correlation_id)),
            field("app_name", Scalar::Text(self.app_name.clone())),
            field("nonce", Scalar::Long(self.nonce)),
            field("reply_segment", Scalar::Text(self.reply_segment.clone())),
            field("heartbeat_ms", Scalar::Long(self.heartbeat_ms)),
            field("pid", Scalar::Long(self.pid)),
        ];
        let r = Record { fields, rows: Vec::new() };
        assert(r@ =~= self.fields());
        r
    }

    fn from_record(r: &Record) -> (m: Option<Self>) {
        proof {
            lemma_row(r.fields@);
            assert(forall|i: int| !#[trigger] Self::shape().list_at(i));
        }
        if r.fields.len() != 6 || r.rows.len() != 0 {
            assert(r@.rows.len() == r.rows@.len());
            return None;
        }
        let correlation_id: i64 = take_long(&r.fields[0], "correlation_id")?;
        let app_name: String = take_text(&r.fields[1], "app_name")?;
        let nonce: i64 = take_long(&r.fields[2], "nonce")?;
        let reply_segment: String = take_text(&r.fields[3], "reply_segment")?;
        let heartbeat_ms: i64 = take_long(&r.fields[4], "heartbeat_ms")?;
        let pid: i64 = take_long(&r.fields[5], "pid")?;
        let m = Register { correlation_id, app_name, nonce, reply_segment, heartbeat_ms, pid };
        assert(r@.fields =~= m.fields().fields);
        assert(r@.rows =~= m.fields().rows);
        Some(m)
    }
}

/// The id that a connector was given.
#[derive(Clone, Debug)]
pub struct RegisterReply {
    pub correlation_id: i64,
    pub client_id: i64,
    pub status: i32,
    pub message: String,
}

impl RegisterReply {
    /// The fields of a record with these values.
    pub open spec fn record(
        correlation_id: i64,
        client_id: i64,
        status: i32,
        message: Seq<char>,
    ) -> RecordView {
        RecordView {
            fields: seq![
                ("correlation_id"@, ScalarView::Long(correlation_id)),
                ("client_id"@, ScalarView::Long(client_id)),
                ("status"@, ScalarView::Int(status)),
                ("message"@, ScalarView::Text(message)),
            ],
            rows: Seq::empty(),
        }
    }
}

impl Message for RegisterReply {
    open spec fn shape() -> ShapeView {
        ShapeView {
            fields: seq![
                ("correlation_id"@, FieldType::Long),
                ("client_id"@, FieldType::Long),
                ("status"@, FieldType::Int),
                ("message"@, FieldType::Text),
            ],
            row: Seq::empty(),
        }
    }

    open spec fn fields(&self) -> RecordView {
        Self::record(self.correlation_id, self.client_id, self.status, self.message@)
    }

    proof fn lemma_typed(&self) {
    }

    fn expected_shape() -> (r: Shape) {
        let fields: Vec<(String, FieldType)> = vec![
            field_type("correlation_id", FieldType::Long),
            field_type("client_id", FieldType::Long),
            field_type("status", FieldType::Int),
            field_type("message", FieldType::Text),
        ];
        let r = Shape { fields, row: Vec::new() };
        assert(r@ =~= Self::shape());
        r
    }

    fn to_record(&self) -> (r: Record) {
        let fields: Vec<(String, Scalar)> = vec![
            field("correlation_id", Scalar::Long(self.correlation_id)),
            field("client_id", Scalar::Long(self.client_id)),
            field("status", Scalar::Int(self.status)),
            field("message", Scalar::Text(self.message.clone())),
        ];
        let r = Record { fields, rows: Vec::new() };
        assert(r@ =~= self.fields());
        r
    }

    fn from_record(r: &Record) -> (m: Option<Self>) {
        proof {
            lemma_row(r.fields@);
            assert(forall|i: int| !#[trigger] Self::shape().list_at(i));
        }
        if r.fields.len() != 4 || r.rows.len() != 0 {
            assert(r@.rows.len() == r.rows@.len());
            return None;
        }
        let correlation_id: i64 = take_long(&r.fields[0], "correlation_id")?;
        let client_id: i64 = take_long(&r.fields[1], "client_id")?;
        let status: i32 = take_int(&r.fields[2], "status")?;
        let message: String = take_text(&r.fields[3], "message")?;
        let m = RegisterReply { correlation_id, client_id, status, message };
        assert(r@.fields =~= m.fields().fields);
        assert(r@.rows =~= m.fields().rows);
        Some(m)
    }
}

/// A connector leaves the bus.
#[derive(Clone, Debug)]
pub struct Unregister {
    pub correlation_id: i64,
    pub client_id: i64,
}

impl Unregister {
    /// The fields of a record with these values.
    pub open spec fn record(
        correlation_id: i64,
        client_id: i64,
    ) -> RecordView {
        RecordView {
            fields: seq![
                ("correlation_id"@, ScalarView::Long(correlation_id)),
                ("client_id"@, ScalarView::Long(client_id)),
            ],
            rows: Seq::empty(),
        }
    }
}

impl Message for Unregister {
    open spec fn shape() -> ShapeView {
        ShapeView {
            fields: seq![
                ("correlation_id"@, FieldType::Long),
                ("client_id"@, FieldType::Long),
            ],
            row: Seq::empty(),
        }
    }

    open spec fn fields(&self) -> RecordView {
        Self::record(self.correlation_id, self.client_id)
    }

    proof fn lemma_typed(&self) {
    }

    fn expected_shape() -> (r: Shape) {
        let fields: Vec<(String, FieldType)> = vec![
            field_type("correlation_id", FieldType::Long),
            field_type("client_id", FieldType::Long),
        ];
        let r = Shape { fields, row: Vec::new() };
        assert(r@ =~= Self::shape());
        r
    }

    fn to_record(&self) -> (r: Record) {
        let fields: Vec<(String, Scalar)> = vec![
            field("correlation_id", Scalar::Long(self.correlation_id)),
            field("client_id", Scalar::Long(self.client_id)),
        ];
        let r = Record { fields, rows: Vec::new() };
        assert(r@ =~= self.fields());
        r
    }

    fn from_record(r: &Record) -> (m: Option<Self>) {
        proof {
            lemma_row(r.fields@);
            assert(forall|i: int| !#[trigger] Self::shape().list_at(i));
        }
        if r.fields.len() != 2 || r.rows.len() != 0 {
            assert(r@.rows.len() == r.rows@.len());
            return None;
        }
        let correlation_id: i64 = take_long(&r.fields[0], "correlation_id")?;
        let client_id: i64 = take_long(&r.fields[1], "client_id")?;
        let m = Unregister { correlation_id, client_id };
        assert(r@.fields =~= m.fields().fields);
        assert(r@.rows =~= m.fields().rows);
        Some(m)
    }
}

/// A connector asks for a channel.
#[derive(Clone, Debug)]
pub struct PublishChannel {
    pub correlation_id: i64,
    pub client_id: i64,
    pub channel: String,
    pub schema_json: String,
    pub access_key: String,
}

impl PublishChannel {
    /// The fields of a record with these values.
    pub open spec fn record(
        correlation_id: i64,
        client_id: i64,
        channel: Seq<char>,
        schema_json: Seq<char>,
        access_key: Seq<char>,
    ) -> RecordView {
        RecordView {
            fields: seq![
                ("correlation_id"@, ScalarView::Long(correlation_id)),
                ("client_id"@, ScalarView::Long(client_id)),
                ("channel"@, ScalarView::Text(channel)),
                ("schema_json"@, ScalarView::Text(schema_json)),
                ("access_key"@, ScalarView::Text(access_key)),
            ],
            rows: Seq::empty(),
        }
    }
}

impl Message for PublishChannel {
    open spec fn shape() -> ShapeView {
        ShapeView {
            fields: seq![
                ("correlation_id"@, FieldType::Long),
                ("client_id"@, FieldType::Long),
                ("channel"@, FieldType::Text),
                ("schema_json"@, FieldType::Text),
                ("access_key"@, FieldType::Text),
            ],
            row: Seq::empty(),
        }
    }

    open spec fn fields(&self) -> RecordView {
        Self::record(
            self.correlation_id,
            self.client_id,
            self.channel@,
            self.schema_json@,
            self.access_key@,
        )
    }

    proof fn lemma_typed(&self) {
    }

    fn expected_shape() -> (r: Shape) {
        let fields: Vec<(String, FieldType)> = vec![
            field_type("correlation_id", FieldType::Long),
            field_type("client_id", FieldType::Long),
            field_type("channel", FieldType::Text),
            field_type("schema_json", FieldType::Text),
            field_type("access_key", FieldType::Text),
        ];
        let r = Shape { fields, row: Vec::new() };
        assert(r@ =~= Self::shape());
        r
    }

    fn to_record(&self) -> (r: Record) {
        let fields: Vec<(String, Scalar)> = vec![
            field("correlation_id", Scalar::Long(self.correlation_id)),
            field("client_id", Scalar::Long(self.client_id)),
            field("channel", Scalar::Text(self.channel.clone())),
            field("schema_json", Scalar::Text(self.schema_json.clone())),
            field("access_key", Scalar::Text(self.access_key.clone())),
        ];
        let r = Record { fields, rows: Vec::new() };
        assert(r@ =~= self.fields());
        r
    }

    fn from_record(r: &Record) -> (m: Option<Self>) {
        proof {
            lemma_row(r.fields@);
            assert(forall|i: int| !#[trigger] Self::shape().list_at(i));
        }
        if r.fields.len() != 5 || r.rows.len() != 0 {
            assert(r@.rows.len() == r.rows@.len());
            return None;
        }
        let correlation_id: i64 = take_long(&r.fields[0], "correlation_id")?;
        let client_id: i64 = take_long(&r.fields[1], "client_id")?;
        let channel: String = take_text(&r.fields[2], "channel")?;
        let schema_json: String = take_text(&r.fields[3], "schema_json")?;
        let access_key: String = take_text(&r.fields[4], "access_key")?;
        let m = PublishChannel { correlation_id, client_id, channel, schema_json, access_key };
        assert(r@.fields =~= m.fields().fields);
        assert(r@.rows =~= m.fields().rows);
        Some(m)
    }
}

/// The arena of a new channel.
#[derive(Clone, Debug)]
pub struct PublishReply {
    pub correlation_id: i64,
    pub channel_id: i64,
    pub schema_fp: i64,
    pub arena: String,
    pub status: i32,
    pub message: String,
}

impl PublishReply {
    /// The fields of a record with these values.
    pub open spec fn record(
        correlation_id: i64,
        channel_id: i64,
        schema_fp: i64,
        arena: Seq<char>,
        status: i32,
        message: Seq<char>,
    ) -> RecordView {
        RecordView {
            fields: seq![
                ("correlation_id"@, ScalarView::Long(correlation_id)),
                ("channel_id"@, ScalarView::Long(channel_id)),
                ("schema_fp"@, ScalarView::Long(schema_fp)),
                ("arena"@, ScalarView::Text(arena)),
                ("status"@, ScalarView::Int(status)),
                ("message"@, ScalarView::Text(message)),
            ],
            rows: Seq::empty(),
        }
    }
}

impl Message for PublishReply {
    open spec fn shape() -> ShapeView {
        ShapeView {
            fields: seq![
                ("correlation_id"@, FieldType::Long),
                ("channel_id"@, FieldType::Long),
                ("schema_fp"@, FieldType::Long),
                ("arena"@, FieldType::Text),
                ("status"@, FieldType::Int),
                ("message"@, FieldType::Text),
            ],
            row: Seq::empty(),
        }
    }

    open spec fn fields(&self) -> RecordView {
        Self::record(
            self.correlation_id,
            self.channel_id,
            self.schema_fp,
            self.arena@,
            self.status,
            self.message@,
        )
    }

    proof fn lemma_typed(&self) {
    }

    fn expected_shape() -> (r: Shape) {
        let fields: Vec<(String, FieldType)> = vec![
            field_type("correlation_id", FieldType::Long),
            field_type("channel_id", FieldType::Long),
            field_type("schema_fp", FieldType::Long),
            field_type("arena", FieldType::Text),
            field_type("status", FieldType::Int),
            field_type("message", FieldType::Text),
        ];
        let r = Shape { fields, row: Vec::new() };
        assert(r@ =~= Self::shape());
        r
    }

    fn to_record(&self) -> (r: Record) {
        let fields: Vec<(String, Scalar)> = vec![
            field("correlation_id", Scalar::Long(self.correlation_id)),
            field("channel_id", Scalar::Long(self.channel_id)),
            field("schema_fp", Scalar::Long(self.schema_fp)),
            field("arena", Scalar::Text(self.arena.clone())),
            field("status", Scalar::Int(self.status)),
            field("message", Scalar::Text(self.message.clone())),
        ];
        let r = Record { fields, rows: Vec::new() };
        assert(r@ =~= self.fields());
        r
    }

    fn from_record(r: &Record) -> (m: Option<Self>) {
        proof {
            lemma_row(r.fields@);
            assert(forall|i: int| !#[trigger] Self::shape().list_at(i));
        }
        if r.fields.len() != 6 || r.rows.len() != 0 {
            assert(r@.rows.len() == r.rows@.len());
            return None;
        }
        let correlation_id: i64 = take_long(&r.fields[0], "correlation_id")?;
        let channel_id: i64 = take_long(&r.fields[1], "channel_id")?;
        let schema_fp: i64 = take_long(&r.fields[2], "schema_fp")?;
        let arena: String = take_text(&r.fields[3], "arena")?;
        let status: i32 = take_int(&r.fields[4], "status")?;
        let message: String = take_text(&r.fields[5], "message")?;
        let m = PublishReply { correlation_id, channel_id, schema_fp, arena, status, message };
        assert(r@.fields =~= m.fields().fields);
        assert(r@.rows =~= m.fields().rows);
        Some(m)
    }
}

/// A connector asks for the channels on the bus.
#[derive(Clone, Debug)]
pub struct ListChannels {
    pub correlation_id: i64,
    pub client_id: i64,
}

impl ListChannels {
    /// The fields of a record with these values.
    pub open spec fn record(
        correlation_id: i64,
        client_id: i64,
    ) -> RecordView {
        RecordView {
            fields: seq![
                ("correlation_id"@, ScalarView::Long(correlation_id)),
                ("client_id"@, ScalarView::Long(client_id)),
            ],
            rows: Seq::empty(),
        }
    }
}

impl Message for ListChannels {
    open spec fn shape() -> ShapeView {
        ShapeView {
            fields: seq![
                ("correlation_id"@, FieldType::Long),
                ("client_id"@, FieldType::Long),
            ],
            row: Seq::empty(),
        }
    }

    open spec fn fields(&self) -> RecordView {
        Self::record(self.correlation_id, self.client_id)
    }

    proof fn lemma_typed(&self) {
    }

    fn expected_shape() -> (r: Shape) {
        let fields: Vec<(String, FieldType)> = vec![
            field_type("correlation_id", FieldType::Long),
            field_type("client_id", FieldType::Long),
        ];
        let r = Shape { fields, row: Vec::new() };
        assert(r@ =~= Self::shape());
        r
    }

    fn to_record(&self) -> (r: Record) {
        let fields: Vec<(String, Scalar)> = vec![
            field("correlation_id", Scalar::Long(self.correlation_id)),
            field("client_id", Scalar::Long(self.client_id)),
        ];
        let r = Record { fields, rows: Vec::new() };
        assert(r@ =~= self.fields());
        r
    }

    fn from_record(r: &Record) -> (m: Option<Self>) {
        proof {
            lemma_row(r.fields@);
            assert(forall|i: int| !#[trigger] Self::shape().list_at(i));
        }
        if r.fields.len() != 2 || r.rows.len() != 0 {
            assert(r@.rows.len() == r.rows@.len());
            return None;
        }
        let correlation_id: i64 = take_long(&r.fields[0], "correlation_id")?;
        let client_id: i64 = take_long(&r.fields[1], "client_id")?;
        let m = ListChannels { correlation_id, client_id };
        assert(r@.fields =~= m.fields().fields);
        assert(r@.rows =~= m.fields().rows);
        Some(m)
    }
}

/// A connector asks to read a channel.
#[derive(Clone, Debug)]
pub struct Subscribe {
    pub correlation_id: i64,
    pub client_id: i64,
    pub channel_id: i64,
    pub access_key: String,
    pub expected_fp: i64,
}

impl Subscribe {
    /// The fields of a record with these values.
    pub open spec fn record(
        correlation_id: i64,
        client_id: i64,
        channel_id: i64,
        access_key: Seq<char>,
        expected_fp: i64,
    ) -> RecordView {
        RecordView {
            fields: seq![
                ("correlation_id"@, ScalarView::Long(correlation_id)),
                ("client_id"@, ScalarView::Long(client_id)),
                ("channel_id"@, ScalarView::Long(channel_id)),
                ("access_key"@, ScalarView::Text(access_key)),
                ("expected_fp"@, ScalarView::Long(expected_fp)),
            ],
            rows: Seq::empty(),
        }
    }
}

impl Message for Subscribe {
    open spec fn shape() -> ShapeView {
        ShapeView {
            fields: seq![
                ("correlation_id"@, FieldType::Long),
                ("client_id"@, FieldType::Long),
                ("channel_id"@, FieldType::Long),
                ("access_key"@, FieldType::Text),
                ("expected_fp"@, FieldType::Long),
            ],
            row: Seq::empty(),
        }
    }

    open spec fn fields(&self) -> RecordView {
        Self::record(
            self.correlation_id,
            self.client_id,
            self.channel_id,
            self.access_key@,
            self.expected_fp,
        )
    }

    proof fn lemma_typed(&self) {
    }

    fn expected_shape() -> (r: Shape) {
        let fields: Vec<(String, FieldType)> = vec![
            field_type("correlation_id", FieldType::Long),
            field_type("client_id", FieldType::Long),
            field_type("channel_id", FieldType::Long),
            field_type("access_key", FieldType::Text),
            field_type("expected_fp", FieldType::Long),
        ];
        let r = Shape { fields, row: Vec::new() };
        assert(r@ =~= Self::shape());
        r
    }

    fn to_record(&self) -> (r: Record) {
        let fields: Vec<(String, Scalar)> = vec![
            field("correlation_id", Scalar::Long(self.correlation_id)),
            field("client_id", Scalar::Long(self.client_id)),
            field("channel_id", Scalar::Long(self.channel_id)),
            field("access_key", Scalar::Text(self.access_key.clone())),
            field("expected_fp", Scalar::Long(self.expected_fp)),
        ];
        let r = Record { fields, rows: Vec::new() };
        assert(r@ =~= self.fields());
        r
    }

    fn from_record(r: &Record) -> (m: Option<Self>) {
        proof {
            lemma_row(r.fields@);
            assert(forall|i: int| !#[trigger] Self::shape().list_at(i));
        }
        if r.fields.len() != 5 || r.rows.len() != 0 {
            assert(r@.rows.len() == r.rows@.len());
            return None;
        }
        let correlation_id: i64 = take_long(&r.fields[0], "correlation_id")?;
        let client_id: i64 = take_long(&r.fields[1], "client_id")?;
        let channel_id: i64 = take_long(&r.fields[2], "channel_id")?;
        let access_key: String = take_text(&r.fields[3], "access_key")?;
        let expected_fp: i64 = take_long(&r.fields[4], "expected_fp")?;
        let m = Subscribe { correlation_id, client_id, channel_id, access_key, expected_fp };
        assert(r@.fields =~= m.fields().fields);
        assert(r@.rows =~= m.fields().rows);
        Some(m)
    }
}

/// The arena of a channel to read.
#[derive(Clone, Debug)]
pub struct SubscribeReply {
    pub correlation_id: i64,
    pub arena: String,
    pub schema_fp: i64,
    pub status: i32,
    pub message: String,
}

impl SubscribeReply {
    /// The fields of a record with these values.
    pub open spec fn record(
        correlation_id: i64,
        arena: Seq<char>,
        schema_fp: i64,
        status: i32,
        message: Seq<char>,
    ) -> RecordView {
        RecordView {
            fields: seq![
                ("correlation_id"@, ScalarView::Long(correlation_id)),
                ("arena"@, ScalarView::Text(arena)),
                ("schema_fp"@, ScalarView::Long(schema_fp)),
                ("status"@, ScalarView::Int(status)),
                ("message"@, ScalarView::Text(message)),
            ],
            rows: Seq::empty(),
        }
    }
}

impl Message for SubscribeReply {
    open spec fn shape() -> ShapeView {
        ShapeView {
            fields: seq![
                ("correlation_id"@, FieldType::Long),
                ("arena"@, FieldType::Text),
                ("schema_fp"@, FieldType::Long),
                ("status"@, FieldType::Int),
                ("message"@, FieldType::Text),
            ],
            row: Seq::empty(),
        }
    }

    open spec fn fields(&self) -> RecordView {
        Self::record(self.correlation_id, self.arena@, self.schema_fp, self.status, self.message@)
    }

    proof fn lemma_typed(&self) {
    }

    fn expected_shape() -> (r: Shape) {
        let fields: Vec<(String, FieldType)> = vec![
            field_type("correlation_id", FieldType::Long),
            field_type("arena", FieldType::Text),
            field_type("schema_fp", FieldType::Long),
            field_type("status", FieldType::Int),
            field_type("message", FieldType::Text),
        ];
        let r = Shape { fields, row: Vec::new() };
        assert(r@ =~= Self::shape());
        r
    }

    fn to_record(&self) -> (r: Record) {
        let fields: Vec<(String, Scalar)> = vec![
            field("correlation_id", Scalar::Long(self.correlation_id)),
            field("arena", Scalar::Text(self.arena.clone())),
            field("schema_fp", Scalar::Long(self.schema_fp)),
            field("status", Scalar::Int(self.status)),
            field("message", Scalar::Text(self.message.clone())),
        ];
        let r = Record { fields, rows: Vec::new() };
        assert(r@ =~= self.fields());
        r
    }

    fn from_record(r: &Record) -> (m: Option<Self>) {
        proof {
            lemma_row(r.fields@);
            assert(forall|i: int| !#[trigger] Self::shape().list_at(i));
        }
        if r.fields.len() != 5 || r.rows.len() != 0 {
            assert(r@.rows.len() == r.rows@.len());
            return None;
        }
        let correlation_id: i64 = take_long(&r.fields[0], "correlation_id")?;
        let arena: String = take_text(&r.fields[1], "arena")?;
        let schema_fp: i64 = take_long(&r.fields[2], "schema_fp")?;
        let status: i32 = take_int(&r.fields[3], "status")?;
        let message: String = take_text(&r.fields[4], "message")?;
        let m = SubscribeReply { correlation_id, arena, schema_fp, status, message };
        assert(r@.fields =~= m.fields().fields);
        assert(r@.rows =~= m.fields().rows);
        Some(m)
    }
}

/// A connector offers a function. `req_arena_cap` is the request arena's size that it asks for, 0
/// for the default.
#[derive(Clone, Debug)]
pub struct ExposeFunction {
    pub correlation_id: i64,
    pub client_id: i64,
    pub fn_name: String,
    pub req_schema_json: String,
    pub resp_schema_json: String,
    pub access_key: String,
    pub req_arena_cap: i64,
}

impl ExposeFunction {
    /// The fields of a record with these values.
    pub open spec fn record(
        correlation_id: i64,
        client_id: i64,
        fn_name: Seq<char>,
        req_schema_json: Seq<char>,
        resp_schema_json: Seq<char>,
        access_key: Seq<char>,
        req_arena_cap: i64,
    ) -> RecordView {
        RecordView {
            fields: seq![
                ("correlation_id"@, ScalarView::Long(correlation_id)),
                ("client_id"@, ScalarView::Long(client_id)),
                ("fn_name"@, ScalarView::Text(fn_name)),
                ("req_schema_json"@, ScalarView::Text(req_schema_json)),
                ("resp_schema_json"@, ScalarView::Text(resp_schema_json)),
                ("access_key"@, ScalarView::Text(access_key)),
                ("req_arena_cap"@, ScalarView::Long(req_arena_cap)),
            ],
            rows: Seq::empty(),
        }
    }
}

impl Message for ExposeFunction {
    open spec fn shape() -> ShapeView {
        ShapeView {
            fields: seq![
                ("correlation_id"@, FieldType::Long),
                ("client_id"@, FieldType::Long),
                ("fn_name"@, FieldType::Text),
                ("req_schema_json"@, FieldType::Text),
                ("resp_schema_json"@, FieldType::Text),
                ("access_key"@, FieldType::Text),
                ("req_arena_cap"@, FieldType::Long),
            ],
            row: Seq::empty(),
        }
    }

    open spec fn fields(&self) -> RecordView {
        Self::record(
            self.correlation_id,
            self.client_id,
            self.fn_name@,
            self.req_schema_json@,
            self.resp_schema_json@,
            self.access_key@,
            self.req_arena_cap,
        )
    }

    proof fn lemma_typed(&self) {
    }

    fn expected_shape() -> (r: Shape) {
        let fields: Vec<(String, FieldType)> = vec![
            field_type("correlation_id", FieldType::Long),
            field_type("client_id", FieldType::Long),
            field_type("fn_name", FieldType::Text),
            field_type("req_schema_json", FieldType::Text),
            field_type("resp_schema_json", FieldType::Text),
            field_type("access_key", FieldType::Text),
            field_type("req_arena_cap", FieldType::Long),
        ];
        let r = Shape { fields, row: Vec::new() };
        assert(r@ =~= Self::shape());
        r
    }

    fn to_record(&self) -> (r: Record) {
        let fields: Vec<(String, Scalar)> = vec![
            field("correlation_id", Scalar::Long(self.correlation_id)),
            field("client_id", Scalar::Long(self.client_id)),
            field("fn_name", Scalar::Text(self.fn_name.clone())),
            field("req_schema_json", Scalar::Text(self.req_schema_json.clone())),
            field("resp_schema_json", Scalar::Text(self.resp_schema_json.clone())),
            field("access_key", Scalar::Text(self.access_key.clone())),
            field("req_arena_cap", Scalar::Long(self.req_arena_cap)),
        ];
        let r = Record { fields, rows: Vec::new() };
        assert(r@ =~= self.fields());
        r
    }

    fn from_record(r: &Record) -> (m: Option<Self>) {
        proof {
            lemma_row(r.fields@);
            assert(forall|i: int| !#[trigger] Self::shape().list_at(i));
        }
        if r.fields.len() != 7 || r.rows.len() != 0 {
            assert(r@.rows.len() == r.rows@.len());
            return None;
        }
        let correlation_id: i64 = take_long(&r.fields[0], "correlation_id")?;
        let client_id: i64 = take_long(&r.fields[1], "client_id")?;
        let fn_name: String = take_text(&r.fields[2], "fn_name")?;
        let req_schema_json: String = take_text(&r.fields[3], "req_schema_json")?;
        let resp_schema_json: String = take_text(&r.fields[4], "resp_schema_json")?;
        let access_key: String = take_text(&r.fields[5], "access_key")?;
        let req_arena_cap: i64 = take_long(&r.fields[6], "req_arena_cap")?;
        let m = ExposeFunction {
            correlation_id,
            client_id,
            fn_name,
            req_schema_json,
            resp_schema_json,
            access_key,
            req_arena_cap,
        };
        assert(r@.fields =~= m.fields().fields);
        assert(r@.rows =~= m.fields().rows);
        Some(m)
    }
}

/// The request arena of a new function.
#[derive(Clone, Debug)]
pub struct ExposeReply {
    pub correlation_id: i64,
    pub fn_id: i64,
    pub req_fp: i64,
    pub resp_fp: i64,
    pub req_arena: String,
    pub status: i32,
    pub message: String,
}

impl ExposeReply {
    /// The fields of a record with these values.
    pub open spec fn record(
        correlation_id: i64,
        fn_id: i64,
        req_fp: i64,
        resp_fp: i64,
        req_arena: Seq<char>,
        status: i32,
        message: Seq<char>,
    ) -> RecordView {
        RecordView {
            fields: seq![
                ("correlation_id"@, ScalarView::Long(correlation_id)),
                ("fn_id"@, ScalarView::Long(fn_id)),
                ("req_fp"@, ScalarView::Long(req_fp)),
                ("resp_fp"@, ScalarView::Long(resp_fp)),
                ("req_arena"@, ScalarView::Text(req_arena)),
                ("status"@, ScalarView::Int(status)),
                ("message"@, ScalarView::Text(message)),
            ],
            rows: Seq::empty(),
        }
    }
}

impl Message for ExposeReply {
    open spec fn shape() -> ShapeView {
        ShapeView {
            fields: seq![
                ("correlation_id"@, FieldType::Long),
                ("fn_id"@, FieldType::Long),
                ("req_fp"@, FieldType::Long),
                ("resp_fp"@, FieldType::Long),
                ("req_arena"@, FieldType::Text),
                ("status"@, FieldType::Int),
                ("message"@, FieldType::Text),
            ],
            row: Seq::empty(),
        }
    }

    open spec fn fields(&self) -> RecordView {
        Self::record(
            self.correlation_id,
            self.fn_id,
            self.req_fp,
            self.resp_fp,
            self.req_arena@,
            self.status,
            self.message@,
        )
    }

    proof fn lemma_typed(&self) {
    }

    fn expected_shape() -> (r: Shape) {
        let fields: Vec<(String, FieldType)> = vec![
            field_type("correlation_id", FieldType::Long),
            field_type("fn_id", FieldType::Long),
            field_type("req_fp", FieldType::Long),
            field_type("resp_fp", FieldType::Long),
            field_type("req_arena", FieldType::Text),
            field_type("status", FieldType::Int),
            field_type("message", FieldType::Text),
        ];
        let r = Shape { fields, row: Vec::new() };
        assert(r@ =~= Self::shape());
        r
    }

    fn to_record(&self) -> (r: Record) {
        let fields: Vec<(String, Scalar)> = vec![
            field("correlation_id", Scalar::Long(self.correlation_id)),
            field("fn_id", Scalar::Long(self.fn_id)),
            field("req_fp", Scalar::Long(self.req_fp)),
            field("resp_fp", Scalar::Long(self.resp_fp)),
            field("req_arena", Scalar::Text(self.req_arena.clone())),
            field("status", Scalar::Int(self.status)),
            field("message", Scalar::Text(self.message.clone())),
        ];
        let r = Record { fields, rows: Vec::new() };
        assert(r@ =~= self.fields());
        r
    }

    fn from_record(r: &Record) -> (m: Option<Self>) {
        proof {
            lemma_row(r.fields@);
            assert(forall|i: int| !#[trigger] Self::shape().list_at(i));
        }
        if r.fields.len() != 7 || r.rows.len() != 0 {
            assert(r@.rows.len() == r.rows@.len());
            return None;
        }
        let correlation_id: i64 = take_long(&r.fields[0], "correlation_id")?;
        let fn_id: i64 = take_long(&r.fields[1], "fn_id")?;
        let req_fp: i64 = take_long(&r.fields[2], "req_fp")?;
        let resp_fp: i64 = take_long(&r.fields[3], "resp_fp")?;
        let req_arena: String = take_text(&r.fields[4], "req_arena")?;
        let status: i32 = take_int(&r.fields[5], "status")?;
        let message: String = take_text(&r.fields[6], "message")?;
        let m = ExposeReply { correlation_id, fn_id, req_fp, resp_fp, req_arena, status, message };
        assert(r@.fields =~= m.fields().fields);
        assert(r@.rows =~= m.fields().rows);
        Some(m)
    }
}

/// A connector asks for a function.
#[derive(Clone, Debug)]
pub struct LookupFunction {
    pub correlation_id: i64,
    pub client_id: i64,
    pub fn_name: String,
    pub access_key: String,
}

impl LookupFunction {
    /// The fields of a record with these values.
    pub open spec fn record(
        correlation_id: i64,
        client_id: i64,
        fn_name: Seq<char>,
        access_key: Seq<char>,
    ) -> RecordView {
        RecordView {
            fields: seq![
                ("correlation_id"@, ScalarView::Long(correlation_id)),
                ("client_id"@, ScalarView::Long(client_id)),
                ("fn_name"@, ScalarView::Text(fn_name)),
                ("access_key"@, ScalarView::Text(access_key)),
            ],
            rows: Seq::empty(),
        }
    }
}

impl Message for LookupFunction {
    open spec fn shape() -> ShapeView {
        ShapeView {
            fields: seq![
                ("correlation_id"@, FieldType::Long),
                ("client_id"@, FieldType::Long),
                ("fn_name"@, FieldType::Text),
                ("access_key"@, FieldType::Text),
            ],
            row: Seq::empty(),
        }
    }

    open spec fn fields(&self) -> RecordView {
        Self::record(self.correlation_id, self.client_id, self.fn_name@, self.access_key@)
    }

    proof fn lemma_typed(&self) {
    }

    fn expected_shape() -> (r: Shape) {
        let fields: Vec<(String, FieldType)> = vec![
            field_type("correlation_id", FieldType::Long),
            field_type("client_id", FieldType::Long),
            field_type("fn_name", FieldType::Text),
            field_type("access_key", FieldType::Text),
        ];
        let r = Shape { fields, row: Vec::new() };
        assert(r@ =~= Self::shape());
        r
    }

    fn to_record(&self) -> (r: Record) {
        let fields: Vec<(String, Scalar)> = vec![
            field("correlation_id", Scalar::Long(self.correlation_id)),
            field("client_id", Scalar::Long(self.client_id)),
            field("fn_name", Scalar::Text(self.fn_name.clone())),
            field("access_key", Scalar::Text(self.access_key.clone())),
        ];
        let r = Record { fields, rows: Vec::new() };
        assert(r@ =~= self.fields());
        r
    }

    fn from_record(r: &Record) -> (m: Option<Self>) {
        proof {
            lemma_row(r.fields@);
            assert(forall|i: int| !#[trigger] Self::shape().list_at(i));
        }
        if r.fields.len() != 4 || r.rows.len() != 0 {
            assert(r@.rows.len() == r.rows@.len());
            return None;
        }
        let correlation_id: i64 = take_long(&r.fields[0], "correlation_id")?;
        let client_id: i64 = take_long(&r.fields[1], "client_id")?;
        let fn_name: String = take_text(&r.fields[2], "fn_name")?;
        let access_key: String = take_text(&r.fields[3], "access_key")?;
        let m = LookupFunction { correlation_id, client_id, fn_name, access_key };
        assert(r@.fields =~= m.fields().fields);
        assert(r@.rows =~= m.fields().rows);
        Some(m)
    }
}

/// Where to send requests for a function.
#[derive(Clone, Debug)]
pub struct LookupReply {
    pub correlation_id: i64,
    pub fn_id: i64,
    pub req_fp: i64,
    pub resp_fp: i64,
    pub req_arena: String,
    pub status: i32,
    pub message: String,
}

impl LookupReply {
    /// The fields of a record with these values.
    pub open spec fn record(
        correlation_id: i64,
        fn_id: i64,
        req_fp: i64,
        resp_fp: i64,
        req_arena: Seq<char>,
        status: i32,
        message: Seq<char>,
    ) -> RecordView {
        RecordView {
            fields: seq![
                ("correlation_id"@, ScalarView::Long(correlation_id)),
                ("fn_id"@, ScalarView::Long(fn_id)),
                ("req_fp"@, ScalarView::Long(req_fp)),
                ("resp_fp"@, ScalarView::Long(resp_fp)),
                ("req_arena"@, ScalarView::Text(req_arena)),
                ("status"@, ScalarView::Int(status)),
                ("message"@, ScalarView::Text(message)),
            ],
            rows: Seq::empty(),
        }
    }
}

impl Message for LookupReply {
    open spec fn shape() -> ShapeView {
        ShapeView {
            fields: seq![
                ("correlation_id"@, FieldType::Long),
                ("fn_id"@, FieldType::Long),
                ("req_fp"@, FieldType::Long),
                ("resp_fp"@, FieldType::Long),
                ("req_arena"@, FieldType::Text),
                ("status"@, FieldType::Int),
                ("message"@, FieldType::Text),
            ],
            row: Seq::empty(),
        }
    }

    open spec fn fields(&self) -> RecordView {
        Self::record(
            self.correlation_id,
            self.fn_id,
            self.req_fp,
            self.resp_fp,
            self.req_arena@,
            self.status,
            self.message@,
        )
    }

    proof fn lemma_typed(&self) {
    }

    fn expected_shape() -> (r: Shape) {
        let fields: Vec<(String, FieldType)> = vec![
            field_type("correlation_id", FieldType::Long),
            field_type("fn_id", FieldType::Long),
            field_type("req_fp", FieldType::Long),
            field_type("resp_fp", FieldType::Long),
            field_type("req_arena", FieldType::Text),
            field_type("status", FieldType::Int),
            field_type("message", FieldType::Text),
        ];
        let r = Shape { fields, row: Vec::new() };
        assert(r@ =~= Self::shape());
        r
    }

    fn to_record(&self) -> (r: Record) {
        let fields: Vec<(String, Scalar)> = vec![
            field("correlation_id", Scalar::Long(self.correlation_id)),
            field("fn_id", Scalar::Long(self.fn_id)),
            field("req_fp", Scalar::Long(self.req_fp)),
            field("resp_fp", Scalar::Long(self.resp_fp)),
            field("req_arena", Scalar::Text(self.req_arena.clone())),
            field("status", Scalar::Int(self.status)),
            field("message", Scalar::Text(self.message.clone())),
        ];
        let r = Record { fields, rows: Vec::new() };
        assert(r@ =~= self.fields());
        r
    }

    fn from_record(r: &Record) -> (m: Option<Self>) {
        proof {
            lemma_row(r.fields@);
            assert(forall|i: int| !#[trigger] Self::shape().list_at(i));
        }
        if r.fields.len() != 7 || r.rows.len() != 0 {
            assert(r@.rows.len() == r.rows@.len());
            return None;
        }
        let correlation_id: i64 = take_long(&r.fields[0], "correlation_id")?;
        let fn_id: i64 = take_long(&r.fields[1], "fn_id")?;
        let req_fp: i64 = take_long(&r.fields[2], "req_fp")?;
        let resp_fp: i64 = take_long(&r.fields[3], "resp_fp")?;
        let req_arena: String = take_text(&r.fields[4], "req_arena")?;
        let status: i32 = take_int(&r.fields[5], "status")?;
        let message: String = take_text(&r.fields[6], "message")?;
        let m = LookupReply { correlation_id, fn_id, req_fp, resp_fp, req_arena, status, message };
        assert(r@.fields =~= m.fields().fields);
        assert(r@.rows =~= m.fields().rows);
        Some(m)
    }
}

/// A connector is alive.
#[derive(Clone, Debug)]
pub struct Heartbeat {
    pub correlation_id: i64,
    pub client_id: i64,
    pub seq: i64,
}

impl Heartbeat {
    /// The fields of a record with these values.
    pub open spec fn record(
        correlation_id: i64,
        client_id: i64,
        seq: i64,
    ) -> RecordView {
        RecordView {
            fields: seq![
                ("correlation_id"@, ScalarView::Long(correlation_id)),
                ("client_id"@, ScalarView::Long(client_id)),
                ("seq"@, ScalarView::Long(seq)),
            ],
            rows: Seq::empty(),
        }
    }
}

impl Message for Heartbeat {
    open spec fn shape() -> ShapeView {
        ShapeView {
            fields: seq![
                ("correlation_id"@, FieldType::Long),
                ("client_id"@, FieldType::Long),
                ("seq"@, FieldType::Long),
            ],
            row: Seq::empty(),
        }
    }

    open spec fn fields(&self) -> RecordView {
        Self::record(self.correlation_id, self.client_id, self.seq)
    }

    proof fn lemma_typed(&self) {
    }

    fn expected_shape() -> (r: Shape) {
        let fields: Vec<(String, FieldType)> = vec![
            field_type("correlation_id", FieldType::Long),
            field_type("client_id", FieldType::Long),
            field_type("seq", FieldType::Long),
        ];
        let r = Shape { fields, row: Vec::new() };
        assert(r@ =~= Self::shape());
        r
    }

    fn to_record(&self) -> (r: Record) {
        let fields: Vec<(String, Scalar)> = vec![
            field("correlation_id", Scalar::Long(self.correlation_id)),
            field("client_id", Scalar::Long(self.client_id)),
            field("seq", Scalar::Long(self.seq)),
        ];
        let r = Record { fields, rows: Vec::new() };
        assert(r@ =~= self.fields());
        r
    }

    fn from_record(r: &Record) -> (m: Option<Self>) {
        proof {
            lemma_row(r.fields@);
            assert(forall|i: int| !#[trigger] Self::shape().list_at(i));
        }
        if r.fields.len() != 3 || r.rows.len() != 0 {
            assert(r@.rows.len() == r.rows@.len());
            return None;
        }
        let correlation_id: i64 = take_long(&r.fields[0], "correlation_id")?;
        let client_id: i64 = take_long(&r.fields[1], "client_id")?;
        let seq: i64 = take_long(&r.fields[2], "seq")?;
        let m = Heartbeat { correlation_id, client_id, seq };
        assert(r@.fields =~= m.fields().fields);
        assert(r@.rows =~= m.fields().rows);
        Some(m)
    }
}

/// A call, placed on a function's request arena.
#[derive(Clone, Debug)]
pub struct RpcRequest {
    pub correlation_id: i64,
    pub caller_id: i64,
    pub reply_segment: String,
    pub arg_fp: i64,
    pub args: Vec<u8>,
}

impl RpcRequest {
    /// The fields of a record with these values.
    pub open spec fn record(
        correlation_id: i64,
        caller_id: i64,
        reply_segment: Seq<char>,
        arg_fp: i64,
        args: Seq<u8>,
    ) -> RecordView {
        RecordView {
            fields: seq![
                ("correlation_id"@, ScalarView::Long(correlation_id)),
                ("caller_id"@, ScalarView::Long(caller_id)),
                ("reply_segment"@, ScalarView::Text(reply_segment)),
                ("arg_fp"@, ScalarView::Long(arg_fp)),
                ("args"@, ScalarView::Bytes(args)),
            ],
            rows: Seq::empty(),
        }
    }
}

impl Message for RpcRequest {
    open spec fn shape() -> ShapeView {
        ShapeView {
            fields: seq![
                ("correlation_id"@, FieldType::Long),
                ("caller_id"@, FieldType::Long),
                ("reply_segment"@, FieldType::Text),
                ("arg_fp"@, FieldType::Long),
                ("args"@, FieldType::Bytes),
            ],
            row: Seq::empty(),
        }
    }

    open spec fn fields(&self) -> RecordView {
        Self::record(
            self.correlation_id,
            self.caller_id,
            self.reply_segment@,
            self.arg_fp,
            self.args@,
        )
    }

    proof fn lemma_typed(&self) {
    }

    fn expected_shape() -> (r: Shape) {
        let fields: Vec<(String, FieldType)> = vec![
            field_type("correlation_id", FieldType::Long),
            field_type("caller_id", FieldType::Long),
            field_type("reply_segment", FieldType::Text),
            field_type("arg_fp", FieldType::Long),
            field_type("args", FieldType::Bytes),
        ];
        let r = Shape { fields, row: Vec::new() };
        assert(r@ =~= Self::shape());
        r
    }

    fn to_record(&self) -> (r: Record) {
        let fields: Vec<(String, Scalar)> = vec![
            field("correlation_id", Scalar::Long(self.correlation_id)),
            field("caller_id", Scalar::Long(self.caller_id)),
            field("reply_segment", Scalar::Text(self.reply_segment.clone())),
            field("arg_fp", Scalar::Long(self.arg_fp)),
            field("args", Scalar::Bytes(copy_bytes(&self.args))),
        ];
        let r = Record { fields, rows: Vec::new() };
        assert(r@ =~= self.fields());
        r
    }

    fn from_record(r: &Record) -> (m: Option<Self>) {
        proof {
            lemma_row(r.fields@);
            assert(forall|i: int| !#[trigger] Self::shape().list_at(i));
        }
        if r.fields.len() != 5 || r.rows.len() != 0 {
            assert(r@.rows.len() == r.rows@.len());
            return None;
        }
        let correlation_id: i64 = take_long(&r.fields[0], "correlation_id")?;
        let caller_id: i64 = take_long(&r.fields[1], "caller_id")?;
        let reply_segment: String = take_text(&r.fields[2], "reply_segment")?;
        let arg_fp: i64 = take_long(&r.fields[3], "arg_fp")?;
        let args: Vec<u8> = take_bytes(&r.fields[4], "args")?;
        let m = RpcRequest { correlation_id, caller_id, reply_segment, arg_fp, args };
        assert(r@.fields =~= m.fields().fields);
        assert(r@.rows =~= m.fields().rows);
        Some(m)
    }
}

/// The answer to a call, placed on the caller's reply segment.
#[derive(Clone, Debug)]
pub struct RpcResponse {
    pub correlation_id: i64,
    pub status: i32,
    pub message: String,
    pub result_fp: i64,
    pub result: Vec<u8>,
}

impl RpcResponse {
    /// The fields of a record with these values.
    pub open spec fn record(
        correlation_id: i64,
        status: i32,
        message: Seq<char>,
        result_fp: i64,
        result: Seq<u8>,
    ) -> RecordView {
        RecordView {
            fields: seq![
                ("correlation_id"@, ScalarView::Long(correlation_id)),
                ("status"@, ScalarView::Int(status)),
                ("message"@, ScalarView::Text(message)),
                ("result_fp"@, ScalarView::Long(result_fp)),
                ("result"@, ScalarView::Bytes(result)),
            ],
            rows: Seq::empty(),
        }
    }
}

impl Message for RpcResponse {
    open spec fn shape() -> ShapeView {
        ShapeView {
            fields: seq![
                ("correlation_id"@, FieldType::Long),
                ("status"@, FieldType::Int),
                ("message"@, FieldType::Text),
                ("result_fp"@, FieldType::Long),
                ("result"@, FieldType::Bytes),
            ],
            row: Seq::empty(),
        }
    }

    open spec fn fields(&self) -> RecordView {
        Self::record(self.correlation_id, self.status, self.message@, self.result_fp, self.result@)
    }

    proof fn lemma_typed(&self) {
    }

    fn expected_shape() -> (r: Shape) {
        let fields: Vec<(String, FieldType)> = vec![
            field_type("correlation_id", FieldType::Long),
            field_type("status", FieldType::Int),
            field_type("message", FieldType::Text),
            field_type("result_fp", FieldType::Long),
            field_type("result", FieldType::Bytes),
        ];
        let r = Shape { fields, row: Vec::new() };
        assert(r@ =~= Self::shape());
        r
    }

    fn to_record(&self) -> (r: Record) {
        let fields: Vec<(String, Scalar)> = vec![
            field("correlation_id", Scalar::Long(self.correlation_id)),
            field("status", Scalar::Int(self.status)),
            field("message", Scalar::Text(self.message.clone())),
            field("result_fp", Scalar::Long(self.result_fp)),
            field("result", Scalar::Bytes(copy_bytes(&self.result))),
        ];
        let r = Record { fields, rows: Vec::new() };
        assert(r@ =~= self.fields());
        r
    }

    fn from_record(r: &Record) -> (m: Option<Self>) {
        proof {
            lemma_row(r.fields@);
            assert(forall|i: int| !#[trigger] Self::shape().list_at(i));
        }
        if r.fields.len() != 5 || r.rows.len() != 0 {
            assert(r@.rows.len() == r.rows@.len());
            return None;
        }
        let correlation_id: i64 = take_long(&r.fields[0], "correlation_id")?;
        let status: i32 = take_int(&r.fields[1], "status")?;
        let message: String = take_text(&r.fields[2], "message")?;
        let result_fp: i64 = take_long(&r.fields[3], "result_fp")?;
        let result: Vec<u8> = take_bytes(&r.fields[4], "result")?;
        let m = RpcResponse { correlation_id, status, message, result_fp, result };
        assert(r@.fields =~= m.fields().fields);
        assert(r@.rows =~= m.fields().rows);
        Some(m)
    }
}

/// A `Register` as connectors wrote it before it had `pid`.
#[derive(Clone, Debug)]
pub struct LegacyRegister {
    pub correlation_id: i64,
    pub app_name: String,
    pub nonce: i64,
    pub reply_segment: String,
    pub heartbeat_ms: i64,
}

impl LegacyRegister {
    /// The fields of a record with these values.
    pub open spec fn record(
        correlation_id: i64,
        app_name: Seq<char>,
        nonce: i64,
        reply_segment: Seq<char>,
        heartbeat_ms: i64,
    ) -> RecordView {
        RecordView {
            fields: seq![
                ("correlation_id"@, ScalarView::Long(correlation_id)),
                ("app_name"@, ScalarView::Text(app_name)),
                ("nonce"@, ScalarView::Long(nonce)),
                ("reply_segment"@, ScalarView::Text(reply_segment)),
                ("heartbeat_ms"@, ScalarView::Long(heartbeat_ms)),
            ],
            rows: Seq::empty(),
        }
    }
}

impl Message for LegacyRegister {
    open spec fn shape() -> ShapeView {
        ShapeView {
            fields: seq![
                ("correlation_id"@, FieldType::Long),
                ("app_name"@, FieldType::Text),
                ("nonce"@, FieldType::Long),
                ("reply_segment"@, FieldType::Text),
                ("heartbeat_ms"@, FieldType::Long),
            ],
            row: Seq::empty(),
        }
    }

    open spec fn fields(&self) -> RecordView {
        Self::record(
            self.correlation_id,
            self.app_name@,
            self.nonce,
            self.reply_segment@,
            self.heartbeat_ms,
        )
    }

    proof fn lemma_typed(&self) {
    }

    fn expected_shape() -> (r: Shape) {
        let fields: Vec<(String, FieldType)> = vec![
            field_type("correlation_id", FieldType::Long),
            field_type("app_name", FieldType::Text),
            field_type("nonce", FieldType::Long),
            field_type("reply_segment", FieldType::Text),
            field_type("heartbeat_ms", FieldType::Long),
        ];
        let r = Shape { fields, row: Vec::new() };
        assert(r@ =~= Self::shape());
        r
    }

    fn to_record(&self) -> (r: Record) {
        let fields: Vec<(String, Scalar)> = vec![
            field("correlation_id", Scalar::Long(self.correlation_id)),
            field("app_name", Scalar::Text(self.app_name.clone())),
            field("nonce", Scalar::Long(self.nonce)),
            field("reply_segment", Scalar::Text(self.reply_segment.clone())),
            field("heartbeat_ms", Scalar::Long(self.heartbeat_ms)),
        ];
        let r = Record { fields, rows: Vec::new() };
        assert(r@ =~= self.fields());
        r
    }

    fn from_record(r: &Record) -> (m: Option<Self>) {
        proof {
            lemma_row(r.fields@);
            assert(forall|i: int| !#[trigger] Self::shape().list_at(i));
        }
        if r.fields.len() != 5 || r.rows.len() != 0 {
            assert(r@.rows.len() == r.rows@.len());
            return None;
        }
        let correlation_id: i64 = take_long(&r.fields[0], "correlation_id")?;
        let app_name: String = take_text(&r.fields[1], "app_name")?;
        let nonce: i64 = take_long(&r.fields[2], "nonce")?;
        let reply_segment: String = take_text(&r.fields[3], "reply_segment")?;
        let heartbeat_ms: i64 = take_long(&r.fields[4], "heartbeat_ms")?;
        let m = LegacyRegister { correlation_id, app_name, nonce, reply_segment, heartbeat_ms };
        assert(r@.fields =~= m.fields().fields);
        assert(r@.rows =~= m.fields().rows);
        Some(m)
    }
}

/// An `ExposeFunction` as connectors wrote it before it had `req_arena_cap`.
#[derive(Clone, Debug)]
pub struct LegacyExposeFunction {
    pub correlation_id: i64,
    pub client_id: i64,
    pub fn_name: String,
    pub req_schema_json: String,
    pub resp_schema_json: String,
    pub access_key: String,
}

impl LegacyExposeFunction {
    /// The fields of a record with these values.
    pub open spec fn record(
        correlation_id: i64,
        client_id: i64,
        fn_name: Seq<char>,
        req_schema_json: Seq<char>,
        resp_schema_json: Seq<char>,
        access_key: Seq<char>,
    ) -> RecordView {
        RecordView {
            fields: seq![
                ("correlation_id"@, ScalarView::Long(correlation_id)),
                ("client_id"@, ScalarView::Long(client_id)),
                ("fn_name"@, ScalarView::Text(fn_name)),
                ("req_schema_json"@, ScalarView::Text(req_schema_json)),
                ("resp_schema_json"@, ScalarView::Text(resp_schema_json)),
                ("access_key"@, ScalarView::Text(access_key)),
            ],
            rows: Seq::empty(),
        }
    }
}

impl Message for LegacyExposeFunction {
    open spec fn shape() -> ShapeView {
        ShapeView {
            fields: seq![
                ("correlation_id"@, FieldType::Long),
                ("client_id"@, FieldType::Long),
                ("fn_name"@, FieldType::Text),
                ("req_schema_json"@, FieldType::Text),
                ("resp_schema_json"@, FieldType::Text),
                ("access_key"@, FieldType::Text),
            ],
            row: Seq::empty(),
        }
    }

    open spec fn fields(&self) -> RecordView {
        Self::record(
            self.correlation_id,
            self.client_id,
            self.fn_name@,
            self.req_schema_json@,
            self.resp_schema_json@,
            self.access_key@,
        )
    }

    proof fn lemma_typed(&self) {
    }

    fn expected_shape() -> (r: Shape) {
        let fields: Vec<(String, FieldType)> = vec![
            field_type("correlation_id", FieldType::Long),
            field_type("client_id", FieldType::Long),
            field_type("fn_name", FieldType::Text),
            field_type("req_schema_json", FieldType::Text),
            field_type("resp_schema_json", FieldType::Text),
            field_type("access_key", FieldType::Text),
        ];
        let r = Shape { fields, row: Vec::new() };
        assert(r@ =~= Self::shape());
        r
    }

    fn to_record(&self) -> (r: Record) {
        let fields: Vec<(String, Scalar)> = vec![
            field("correlation_id", Scalar::Long(self.correlation_id)),
            field("client_id", Scalar::Long(self.client_id)),
            field("fn_name", Scalar::Text(self.fn_name.clone())),
            field("req_schema_json", Scalar::Text(self.req_schema_json.clone())),
            field("resp_schema_json", Scalar::Text(self.resp_schema_json.clone())),
            field("access_key", Scalar::Text(self.access_key.clone())),
        ];
        let r = Record { fields, rows: Vec::new() };
        assert(r@ =~= self.fields());
        r
    }

    fn from_record(r: &Record) -> (m: Option<Self>) {
        proof {
            lemma_row(r.fields@);
            assert(forall|i: int| !#[trigger] Self::shape().list_at(i));
        }
        if r.fields.len() != 6 || r.rows.len() != 0 {
            assert(r@.rows.len() == r.rows@.len());
            return None;
        }
        let correlation_id: i64 = take_long(&r.fields[0], "correlation_id")?;
        let client_id: i64 = take_long(&r.fields[1], "client_id")?;
        let fn_name: String = take_text(&r.fields[2], "fn_name")?;
        let req_schema_json: String = take_text(&r.fields[3], "req_schema_json")?;
        let resp_schema_json: String = take_text(&r.fields[4], "resp_schema_json")?;
        let access_key: String = take_text(&r.fields[5], "access_key")?;
        let m = LegacyExposeFunction {
            correlation_id,
            client_id,
            fn_name,
            req_schema_json,
            resp_schema_json,
            access_key,
        };
        assert(r@.fields =~= m.fields().fields);
        assert(r@.rows =~= m.fields().rows);
        Some(m)
    }
}

/// A channel on the bus.
#[derive(Clone, Debug)]
pub struct ChannelInfo {
    pub channel_id: i64,
    pub name: String,
    pub owner_app: String,
    pub schema_fp: i64,
    pub requires_key: bool,
}

/// The fields of a channel in a list of channels.
pub open spec fn info_types() -> Seq<(Seq<char>, FieldType)> {
    seq![
        ("channel_id"@, FieldType::Long),
        ("name"@, FieldType::Text),
        ("owner_app"@, FieldType::Text),
        ("schema_fp"@, FieldType::Long),
        ("requires_key"@, FieldType::Boolean),
    ]
}

impl ChannelInfo {
    /// The channel as a row of a list.
    pub open spec fn row(&self) -> Seq<(Seq<char>, ScalarView)> {
        seq![
            ("channel_id"@, ScalarView::Long(self.channel_id)),
            ("name"@, ScalarView::Text(self.name@)),
            ("owner_app"@, ScalarView::Text(self.owner_app@)),
            ("schema_fp"@, ScalarView::Long(self.schema_fp)),
            ("requires_key"@, ScalarView::Boolean(self.requires_key)),
        ]
    }

    fn to_row(&self) -> (r: Vec<(String, Scalar)>)
        ensures
            avro::row_view(r@) == self.row(),
    {
        let r: Vec<(String, Scalar)> = vec![
            field("channel_id", Scalar::Long(self.channel_id)),
            field("name", Scalar::Text(self.name.clone())),
            field("owner_app", Scalar::Text(self.owner_app.clone())),
            field("schema_fp", Scalar::Long(self.schema_fp)),
            field("requires_key", Scalar::Boolean(self.requires_key)),
        ];
        assert(avro::row_view(r@) =~= self.row());
        r
    }

    fn from_row(r: &Vec<(String, Scalar)>) -> (m: Option<ChannelInfo>)
        ensures
            match m {
                Some(m) => avro::row_view(r@) == m.row(),
                None => !avro::row_typed(avro::row_view(r@), info_types()),
            },
    {
        let ghost v = avro::row_view(r@);
        proof {
            lemma_row(r@);
        }
        if r.len() != 5 {
            return None;
        }
        let channel_id: i64 = take_long(&r[0], "channel_id")?;
        let name: String = take_text(&r[1], "name")?;
        let owner_app: String = take_text(&r[2], "owner_app")?;
        let schema_fp: i64 = take_long(&r[3], "schema_fp")?;
        let requires_key: bool = take_boolean(&r[4], "requires_key")?;
        let m = ChannelInfo { channel_id, name, owner_app, schema_fp, requires_key };
        assert(v =~= m.row());
        Some(m)
    }
}

/// The channels on the bus.
#[derive(Clone, Debug)]
pub struct ChannelList {
    pub correlation_id: i64,
    pub channels: Vec<ChannelInfo>,
}

impl Message for ChannelList {
    open spec fn shape() -> ShapeView {
        ShapeView {
            fields: seq![
                ("correlation_id"@, FieldType::Long),
                ("channels"@, FieldType::List),
            ],
            row: info_types(),
        }
    }

    open spec fn fields(&self) -> RecordView {
        RecordView {
            fields: seq![
                ("correlation_id"@, ScalarView::Long(self.correlation_id)),
                ("channels"@, ScalarView::List),
            ],
            rows: self.channels@.map_values(|c: ChannelInfo| c.row()),
        }
    }

    proof fn lemma_typed(&self) {
        assert(Self::shape().list_at(1));
        assert forall|i: int| 0 <= i < self.fields().rows.len() implies avro::row_typed(
            #[trigger] self.fields().rows[i],
            info_types(),
        ) by {
            assert(self.fields().rows[i] == self.channels@[i].row());
        }
    }

    fn expected_shape() -> (r: Shape) {
        let fields: Vec<(String, FieldType)> = vec![
            field_type("correlation_id", FieldType::Long),
            field_type("channels", FieldType::List),
        ];
        let row: Vec<(String, FieldType)> = vec![
            field_type("channel_id", FieldType::Long),
            field_type("name", FieldType::Text),
            field_type("owner_app", FieldType::Text),
            field_type("schema_fp", FieldType::Long),
            field_type("requires_key", FieldType::Boolean),
        ];
        let r = Shape { fields, row };
        assert(r@ =~= Self::shape());
        r
    }

    fn to_record(&self) -> (r: Record) {
        let fields: Vec<(String, Scalar)> = vec![
            field("correlation_id", Scalar::Long(self.correlation_id)),
            field("channels", Scalar::List),
        ];
        let mut rows: Vec<Vec<(String, Scalar)>> = Vec::new();
        let mut i: usize = 0;
        while i < self.channels.len()
            invariant
                i <= self.channels@.len(),
                avro::rows_view(rows@) =~= self.fields().rows.take(i as int),
            decreases self.channels@.len() - i,
        {
            let ghost before = rows@;
            let row: Vec<(String, Scalar)> = self.channels[i].to_row();
            rows.push(row);
            i = i + 1;
            assert(avro::rows_view(rows@) =~= avro::rows_view(before).push(avro::row_view(row@)));
            assert(self.fields().rows.take(i as int) =~= self.fields().rows.take(i - 1).push(
                self.channels@[i - 1].row(),
            ));
        }
        assert(self.fields().rows.take(i as int) =~= self.fields().rows);
        let r = Record { fields, rows };
        assert(r@ =~= self.fields());
        r
    }

    fn from_record(r: &Record) -> (m: Option<Self>) {
        proof {
            lemma_row(r.fields@);
            assert(Self::shape().list_at(1));
        }
        if r.fields.len() != 2 {
            return None;
        }
        let correlation_id: i64 = take_long(&r.fields[0], "correlation_id")?;
        if !is_list(&r.fields[1], "channels") {
            return None;
        }
        let mut channels: Vec<ChannelInfo> = Vec::new();
        let mut i: usize = 0;
        while i < r.rows.len()
            invariant
                i <= r.rows@.len(),
                r@.rows.len() == r.rows@.len(),
                channels@.map_values(|c: ChannelInfo| c.row()) =~= r@.rows.take(i as int),
            decreases r.rows@.len() - i,
        {
            let ghost before = channels@;
            assert(r@.rows[i as int] == avro::row_view(r.rows@[i as int]@));
            match ChannelInfo::from_row(&r.rows[i]) {
                Some(c) => {
                    channels.push(c);
                    assert(channels@.map_values(|c: ChannelInfo| c.row()) =~= before.map_values(
                        |c: ChannelInfo| c.row(),
                    ).push(c.row()));
                },
                None => {
                    assert(!avro::row_typed(r@.rows[i as int], Self::shape().row));
                    return None;
                },
            }
            i = i + 1;
            assert(r@.rows.take(i as int) =~= r@.rows.take(i - 1).push(r@.rows[i - 1]));
        }
        assert(r@.rows.take(i as int) =~= r@.rows);
        let m = ChannelList { correlation_id, channels };
        assert(r@.fields =~= m.fields().fields);
        assert(r@.rows =~= m.fields().rows);
        Some(m)
    }
}

} // verus!
