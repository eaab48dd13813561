//! HTTP over the bus: how a request and a response travel as records, and how streams are
//! negotiated and named.
//!
//! A server exposes one function under a name made of its application's name. A call of it
//! carries a request and gives a response. Event streams, WebSocket and WebTransport begin as
//! such a call, whose response names channels; the bytes then travel over these as stream frames.
//! A body that is too large for a record travels over a channel in the same way.
pub mod opcode;

use vstd::prelude::*;

use crate::avro;
use crate::avro::{FieldType, Record, RecordView, Scalar, ScalarView, Shape, ShapeView};
use crate::control;
use crate::proto::messages;
use crate::proto::messages::Message;
use crate::text;

verus! {

/// Revision of the protocol.
pub const PROTOCOL_VERSION: u32 = 2;

/// What stands in front of an application's name in the name of its function.
pub const HTTP_FN_PREFIX: &'static str = "impulse-ring-http/v1/";

/// The name of the function that an application's server exposes.
pub fn http_fn_name(app_name: &str) -> (r: String)
    ensures
        r@ == HTTP_FN_PREFIX@ + app_name@,
{
    let mut s: String = HTTP_FN_PREFIX.to_owned();
    s.append(app_name);
    s
}

/// Different applications have different functions.
pub proof fn law_fn_names_differ(a: Seq<char>, b: Seq<char>)
    requires
        HTTP_FN_PREFIX@ + a == HTTP_FN_PREFIX@ + b,
    ensures
        a == b,
{
    let p = HTTP_FN_PREFIX@;
    assert((p + a).skip(p.len() as int) =~= a);
    assert((p + b).skip(p.len() as int) =~= b);
}

// ---- requests and responses ----------------------------------------------------------------

/// A header.
#[derive(Clone, Debug, PartialEq, Eq)]
pub struct RingHeader {
    pub name: String,
    pub value: String,
}

impl RingHeader {
    pub fn new(name: &str, value: &str) -> (r: RingHeader)
        ensures
            r.name@ == name@,
            r.value@ == value@,
    {
        RingHeader { name: name.to_owned(), value: value.to_owned() }
    }

    /// The header as a row of a list.
    pub open spec fn row(&self) -> Seq<(Seq<char>, ScalarView)> {
        seq![
            ("name"@, ScalarView::Text(self.name@)),
            ("value"@, ScalarView::Text(self.value@)),
        ]
    }
}

/// A request.
#[derive(Clone, Debug)]
pub struct RingHttpRequest {
    /// The method, in upper case.
    pub method: String,
    /// The path with the query.
    pub uri: String,
    pub headers: Vec<RingHeader>,
    pub body: Vec<u8>,
}

/// A response.
#[derive(Clone, Debug)]
pub struct RingHttpResponse {
    pub status: i32,
    pub headers: Vec<RingHeader>,
    pub body: Vec<u8>,
}

/// Schema of a request.
pub const REQUEST_SCHEMA: &'static str = r#"{
  "type": "record",
  "name": "RingHttpRequest",
  "fields": [
    {"name": "method", "type": "string"},
    {"name": "uri", "type": "string"},
    {"name": "headers", "type": {"type": "array", "items": {
      "type": "record",
      "name": "RingHeader",
      "fields": [
        {"name": "name", "type": "string"},
        {"name": "value", "type": "string"}
      ]
    }}},
    {"name": "body", "type": "bytes"}
  ]
}"#;

/// Schema of a response.
pub const RESPONSE_SCHEMA: &'static str = r#"{
  "type": "record",
  "name": "RingHttpResponse",
  "fields": [
    {"name": "status", "type": "int"},
    {"name": "headers", "type": {"type": "array", "items": {
      "type": "record",
      "name": "RingHeader",
      "fields": [
        {"name": "name", "type": "string"},
        {"name": "value", "type": "string"}
      ]
    }}},
    {"name": "body", "type": "bytes"}
  ]
}"#;

/// The fields of a header in a list of headers.
pub open spec fn header_types() -> Seq<(Seq<char>, FieldType)> {
    seq![("name"@, FieldType::Text), ("value"@, FieldType::Text)]
}

/// Headers as the rows of a list.
pub open spec fn header_rows(headers: Seq<RingHeader>) -> Seq<Seq<(Seq<char>, ScalarView)>> {
    headers.map_values(|h: RingHeader| h.row())
}

proof fn lemma_headers_typed(headers: Seq<RingHeader>)
    ensures
        forall|i: int|
            0 <= i < header_rows(headers).len() ==> avro::row_typed(
                #[trigger] header_rows(headers)[i],
                header_types(),
            ),
{
    assert forall|i: int| 0 <= i < header_rows(headers).len() implies avro::row_typed(
        #[trigger] header_rows(headers)[i],
        header_types(),
    ) by {
        assert(header_rows(headers)[i] == headers[i].row());
    }
}

fn header_shape() -> (r: Vec<(String, FieldType)>)
    ensures
        avro::types_view(r@) == header_types(),
{
    let r: Vec<(String, FieldType)> = vec![
        messages::field_type("name", FieldType::Text),
        messages::field_type("value", FieldType::Text),
    ];
    assert(avro::types_view(r@) =~= header_types());
    r
}

fn headers_to_rows(headers: &Vec<RingHeader>) -> (rows: Vec<Vec<(String, Scalar)>>)
    ensures
        avro::rows_view(rows@) == header_rows(headers@),
{
    let mut rows: Vec<Vec<(String, Scalar)>> = Vec::new();
    let mut i: usize = 0;
    while i < headers.len()
        invariant
            i <= headers@.len(),
            avro::rows_view(rows@) =~= header_rows(headers@).take(i as int),
        decreases headers@.len() - i,
    {
        let ghost before = rows@;
        let row: Vec<(String, Scalar)> = vec![
            messages::field("name", Scalar::Text(headers[i].name.clone())),
            messages::field("value", Scalar::Text(headers[i].value.clone())),
        ];
        assert(avro::row_view(row@) =~= headers@[i as int].row());
        rows.push(row);
        i = i + 1;
        assert(avro::rows_view(rows@) =~= avro::rows_view(before).push(avro::row_view(row@)));
        assert(header_rows(headers@).take(i as int) =~= header_rows(headers@).take(i - 1).push(
            headers@[i - 1].row(),
        ));
    }
    assert(header_rows(headers@).take(i as int) =~= header_rows(headers@));
    rows
}

fn header_from_row(r: &Vec<(String, Scalar)>) -> (m: Option<RingHeader>)
    ensures
        match m {
            Some(m) => avro::row_view(r@) == m.row(),
            None => !avro::row_typed(avro::row_view(r@), header_types()),
        },
{
    proof {
        messages::lemma_row(r@);
    }
    if r.len() != 2 {
        return None;
    }
    let name: String = messages::take_text(&r[0], "name")?;
    let value: String = messages::take_text(&r[1], "value")?;
    let m = RingHeader { name, value };
    assert(avro::row_view(r@) =~= m.row());
    Some(m)
}

fn headers_from_rows(rows: &Vec<Vec<(String, Scalar)>>) -> (m: Option<Vec<RingHeader>>)
    ensures
        match m {
            Some(headers) => avro::rows_view(rows@) == header_rows(headers@),
            None => exists|i: int|
                0 <= i < avro::rows_view(rows@).len() && !avro::row_typed(
                    #[trigger] avro::rows_view(rows@)[i],
                    header_types(),
                ),
        },
{
    let mut headers: Vec<RingHeader> = Vec::new();
    let mut i: usize = 0;
    while i < rows.len()
        invariant
            i <= rows@.len(),
            header_rows(headers@) =~= avro::rows_view(rows@).take(i as int),
        decreases rows@.len() - i,
    {
        let ghost before = headers@;
        assert(avro::rows_view(rows@)[i as int] == avro::row_view(rows@[i as int]@));
        let h: RingHeader = match header_from_row(&rows[i]) {
            Some(h) => h,
            None => {
                return None;
            },
        };
        headers.push(h);
        i = i + 1;
        assert(header_rows(headers@) =~= header_rows(before).push(h.row()));
        assert(avro::rows_view(rows@).take(i as int) =~= avro::rows_view(rows@).take(i - 1).push(
            avro::rows_view(rows@)[i - 1],
        ));
    }
    assert(avro::rows_view(rows@).take(i as int) =~= avro::rows_view(rows@));
    Some(headers)
}

impl Message for RingHttpRequest {
    open spec fn shape() -> ShapeView {
        ShapeView {
            fields: seq![
                ("method"@, FieldType::Text),
                ("uri"@, FieldType::Text),
                ("headers"@, FieldType::List),
                ("body"@, FieldType::Bytes),
            ],
            row: header_types(),
        }
    }

    open spec fn fields(&self) -> RecordView {
        RecordView {
            fields: seq![
                ("method"@, ScalarView::Text(self.method@)),
                ("uri"@, ScalarView::Text(self.uri@)),
                ("headers"@, ScalarView::List),
                ("body"@, ScalarView::Bytes(self.body@)),
            ],
            rows: header_rows(self.headers@),
        }
    }

    proof fn lemma_typed(&self) {
        assert(Self::shape().list_at(2));
        lemma_headers_typed(self.headers@);
    }

    fn expected_shape() -> (r: Shape) {
        let fields: Vec<(String, FieldType)> = vec![
            messages::field_type("method", FieldType::Text),
            messages::field_type("uri", FieldType::Text),
            messages::field_type("headers", FieldType::List),
            messages::field_type("body", FieldType::Bytes),
        ];
        let r = Shape { fields, row: header_shape() };
        assert(r@ =~= Self::shape());
        r
    }

    fn to_record(&self) -> (r: Record) {
        let fields: Vec<(String, Scalar)> = vec![
            messages::field("method", Scalar::Text(self.method.clone())),
            messages::field("uri", Scalar::Text(self.uri.clone())),
            messages::field("headers", Scalar::List),
            messages::field("body", Scalar::Bytes(messages::copy_bytes(&self.body))),
        ];
        let r = Record { fields, rows: headers_to_rows(&self.headers) };
        assert(r@ =~= self.fields());
        r
    }

    fn from_record(r: &Record) -> (m: Option<Self>) {
        proof {
            messages::lemma_row(r.fields@);
            assert(Self::shape().list_at(2));
        }
        if r.fields.len() != 4 {
            return None;
        }
        let method: String = messages::take_text(&r.fields[0], "method")?;
        let uri: String = messages::take_text(&r.fields[1], "uri")?;
        if !messages::is_list(&r.fields[2], "headers") {
            return None;
        }
        let body: Vec<u8> = messages::take_bytes(&r.fields[3], "body")?;
        assert(r@.rows == avro::rows_view(r.rows@));
        let headers: Vec<RingHeader> = headers_from_rows(&r.rows)?;
        let m = RingHttpRequest { method, uri, headers, body };
        assert(r@.fields =~= m.fields().fields);
        assert(r@.rows =~= m.fields().rows);
        Some(m)
    }
}

impl Message for RingHttpResponse {
    open spec fn shape() -> ShapeView {
        ShapeView {
            fields: seq![
                ("status"@, FieldType::Int),
                ("headers"@, FieldType::List),
                ("body"@, FieldType::Bytes),
            ],
            row: header_types(),
        }
    }

    open spec fn fields(&self) -> RecordView {
        RecordView {
            fields: seq![
                ("status"@, ScalarView::Int(self.status)),
                ("headers"@, ScalarView::List),
                ("body"@, ScalarView::Bytes(self.body@)),
            ],
            rows: header_rows(self.headers@),
        }
    }

    proof fn lemma_typed(&self) {
        assert(Self::shape().list_at(1));
        lemma_headers_typed(self.headers@);
    }

    fn expected_shape() -> (r: Shape) {
        let fields: Vec<(String, FieldType)> = vec![
            messages::field_type("status", FieldType::Int),
            messages::field_type("headers", FieldType::List),
            messages::field_type("body", FieldType::Bytes),
        ];
        let r = Shape { fields, row: header_shape() };
        assert(r@ =~= Self::shape());
        r
    }

    fn to_record(&self) -> (r: Record) {
        let fields: Vec<(String, Scalar)> = vec![
            messages::field("status", Scalar::Int(self.status)),
            messages::field("headers", Scalar::List),
            messages::field("body", Scalar::Bytes(messages::copy_bytes(&self.body))),
        ];
        let r = Record { fields, rows: headers_to_rows(&self.headers) };
        assert(r@ =~= self.fields());
        r
    }

    fn from_record(r: &Record) -> (m: Option<Self>) {
        proof {
            messages::lemma_row(r.fields@);
            assert(Self::shape().list_at(1));
        }
        if r.fields.len() != 3 {
            return None;
        }
        let status: i32 = messages::take_int(&r.fields[0], "status")?;
        if !messages::is_list(&r.fields[1], "headers") {
            return None;
        }
        let body: Vec<u8> = messages::take_bytes(&r.fields[2], "body")?;
        assert(r@.rows == avro::rows_view(r.rows@));
        let headers: Vec<RingHeader> = headers_from_rows(&r.rows)?;
        let m = RingHttpResponse { status, headers, body };
        assert(r@.fields =~= m.fields().fields);
        assert(r@.rows =~= m.fields().rows);
        Some(m)
    }
}

// ---- streams -------------------------------------------------------------------------------

/// The protocols that a call can turn into a stream of.
#[derive(Clone, Copy, Debug, PartialEq, Eq, Structural)]
pub enum RingUpgradeKind {
    /// Server-sent events.
    Sse,
    WebSocket,
    WebTransport,
}

/// White space as Unicode defines it.
pub open spec fn is_white(c: char) -> bool {
    ||| '\u{9}' <= c <= '\u{d}'
    ||| c == ' '
    ||| c == '\u{85}'
    ||| c == '\u{a0}'
    ||| c == '\u{1680}'
    ||| '\u{2000}' <= c <= '\u{200a}'
    ||| c == '\u{2028}'
    ||| c == '\u{2029}'
    ||| c == '\u{202f}'
    ||| c == '\u{205f}'
    ||| c == '\u{3000}'
}

fn white(c: char) -> (r: bool)
    ensures
        r == is_white(c),
{
    ('\u{9}' <= c && c <= '\u{d}') || c == ' ' || c == '\u{85}' || c == '\u{a0}' || c == '\u{1680}'
        || ('\u{2000}' <= c && c <= '\u{200a}') || c == '\u{2028}' || c == '\u{2029}' || c
        == '\u{202f}' || c == '\u{205f}' || c == '\u{3000}'
}

/// An upper-case ASCII letter in lower case, any other character as it is.
pub open spec fn lower(c: char) -> char {
    if 'A' <= c <= 'Z' {
        (c as u32 + 32) as char
    } else {
        c
    }
}

fn lower_char(c: char) -> (r: char)
    ensures
        r == lower(c),
{
    if 'A' <= c && c <= 'Z' {
        (c as u8 + 32) as char
    } else {
        c
    }
}

/// A text with its ASCII letters in lower case.
pub open spec fn lowered(s: Seq<char>) -> Seq<char> {
    s.map_values(|c: char| lower(c))
}

/// A text without the white space that it begins with.
pub open spec fn trim_front(s: Seq<char>) -> Seq<char>
    decreases s.len(),
{
    if s.len() > 0 && is_white(s[0]) {
        trim_front(s.drop_first())
    } else {
        s
    }
}

/// A text without the white space that it ends with.
pub open spec fn trim_back(s: Seq<char>) -> Seq<char>
    decreases s.len(),
{
    if s.len() > 0 && is_white(s.last()) {
        trim_back(s.drop_last())
    } else {
        s
    }
}

/// A text without white space around it.
pub open spec fn trimmed(s: Seq<char>) -> Seq<char> {
    trim_back(trim_front(s))
}

/// The protocol that a token names, whatever its case and the white space around it.
pub open spec fn upgrade_kind(s: Seq<char>) -> Option<RingUpgradeKind> {
    let t = lowered(trimmed(s));
    if t == "sse"@ {
        Some(RingUpgradeKind::Sse)
    } else if t == "websocket"@ || t == "ws"@ {
        Some(RingUpgradeKind::WebSocket)
    } else if t == "webtransport"@ || t == "wt"@ {
        Some(RingUpgradeKind::WebTransport)
    } else {
        None
    }
}

/// The token of a protocol.
pub open spec fn upgrade_token(kind: RingUpgradeKind) -> Seq<char> {
    match kind {
        RingUpgradeKind::Sse => "sse"@,
        RingUpgradeKind::WebSocket => "websocket"@,
        RingUpgradeKind::WebTransport => "webtransport"@,
    }
}

impl RingUpgradeKind {
    /// The protocol's token on the wire.
    pub fn as_str(&self) -> (r: &'static str)
        ensures
            r@ == upgrade_token(*self),
    {
        match self {
            RingUpgradeKind::Sse => "sse",
            RingUpgradeKind::WebSocket => "websocket",
            RingUpgradeKind::WebTransport => "webtransport",
        }
    }

    /// The protocol that a token names.
    pub fn parse(s: &str) -> (r: Option<RingUpgradeKind>)
        ensures
            r == upgrade_kind(s@),
    {
        let chars: Vec<char> = text::chars_of(s);
        let mut from: usize = 0;
        proof {
            assert(s@.skip(0) =~= s@);
        }
        while from < chars.len() && white(chars[from])
            invariant
                from <= chars@.len(),
                chars@ == s@,
                trim_front(s@) == trim_front(s@.skip(from as int)),
            decreases chars@.len() - from,
        {
            proof {
                assert(s@.skip(from as int).drop_first() =~= s@.skip(from + 1));
            }
            from = from + 1;
        }
        let mut to: usize = chars.len();
        let ghost t = s@.skip(from as int);
        proof {
            assert(trim_front(s@) == t);
            assert(t =~= s@.subrange(from as int, to as int));
        }
        while to > from && white(chars[to - 1])
            invariant
                from <= to <= chars@.len(),
                chars@ == s@,
                trim_back(t) == trim_back(s@.subrange(from as int, to as int)),
            decreases to,
        {
            proof {
                assert(s@.subrange(from as int, to as int).drop_last() =~= s@.subrange(
                    from as int,
                    to - 1,
                ));
            }
            to = to - 1;
        }
        let mut token: Vec<char> = Vec::new();
        let ghost u = s@.subrange(from as int, to as int);
        let mut i: usize = from;
        while i < to
            invariant
                from <= i <= to <= chars@.len(),
                chars@ == s@,
                u == s@.subrange(from as int, to as int),
                token@ =~= lowered(u).take(i - from),
            decreases to - i,
        {
            token.push(lower_char(chars[i]));
            i = i + 1;
            proof {
                assert(lowered(u).take(i - from) =~= lowered(u).take(i - from - 1).push(
                    lower(u[i - from - 1]),
                ));
            }
        }
        proof {
            assert(lowered(u).take(i - from) =~= lowered(u));
            assert(trimmed(s@) == u);
        }
        if text::is_text(&token, "sse") {
            Some(RingUpgradeKind::Sse)
        } else if text::is_text(&token, "websocket") || text::is_text(&token, "ws") {
            Some(RingUpgradeKind::WebSocket)
        } else if text::is_text(&token, "webtransport") || text::is_text(&token, "wt") {
            Some(RingUpgradeKind::WebTransport)
        } else {
            None
        }
    }
}

/// A protocol's token names the protocol.
pub proof fn law_upgrade_token(kind: RingUpgradeKind)
    ensures
        upgrade_kind(upgrade_token(kind)) == Some(kind),
{
    reveal_strlit("sse");
    reveal_strlit("websocket");
    reveal_strlit("ws");
    reveal_strlit("webtransport");
    reveal_strlit("wt");
    let s = upgrade_token(kind);
    assert(trimmed(s) == s);
    assert(lowered(s) =~= s);
    assert("websocket"@.len() == 9 && "webtransport"@.len() == 12 && "sse"@.len() == 3);
}

proof fn lemma_trim_lowered(s: Seq<char>)
    ensures
        trim_front(lowered(s)) == lowered(trim_front(s)),
        trim_back(lowered(s)) == lowered(trim_back(s)),
    decreases s.len(),
{
    if s.len() > 0 {
        assert(lowered(s).drop_first() =~= lowered(s.drop_first()));
        assert(lowered(s).drop_last() =~= lowered(s.drop_last()));
        lemma_trim_lowered(s.drop_first());
        lemma_trim_lowered(s.drop_last());
    }
}

/// The case of a token does not matter.
pub proof fn law_upgrade_ignores_case(s: Seq<char>, t: Seq<char>)
    requires
        lowered(s) == lowered(t),
    ensures
        upgrade_kind(s) == upgrade_kind(t),
{
    lemma_trim_lowered(s);
    lemma_trim_lowered(t);
    lemma_trim_lowered(trim_front(s));
    lemma_trim_lowered(trim_front(t));
}

/// Response header that names the protocol that a call turned into.
pub const HEADER_UPGRADE: &'static str = "x-impulse-ring-upgrade";

/// Header that names the channel from the server to the client.
pub const HEADER_CHAN_DOWN: &'static str = "x-impulse-ring-chan-down";

/// Header that names the channel from the client to the server.
pub const HEADER_CHAN_UP: &'static str = "x-impulse-ring-chan-up";

/// Header that names the channel of WebTransport datagrams.
pub const HEADER_CHAN_DATAGRAMS: &'static str = "x-impulse-ring-chan-datagrams";

/// Header that holds the session's id.
pub const HEADER_SESSION: &'static str = "x-impulse-ring-session";

/// Response header that names the channel over which the body comes.
pub const HEADER_BODY_CHANNEL: &'static str = "x-impulse-ring-body-chan";

/// Request header that names the channel over which the body comes.
pub const HEADER_REQUEST_BODY_CHANNEL: &'static str = "x-impulse-ring-req-body-chan";

/// The largest response body that travels in the response itself.
pub const MAX_INLINE_RESPONSE_BODY: usize = 448 * 1024;

/// The size of the parts in which a larger response body travels.
pub const RESPONSE_BODY_CHUNK: usize = 192 * 1024;

/// The largest request body that travels in the request itself.
pub const MAX_INLINE_REQUEST_BODY: usize = 192 * 1024;

/// The size of the parts in which a larger request body travels.
pub const REQUEST_BODY_CHUNK: usize = 192 * 1024;

/// What travels in one record leaves room for the framing: a response body in a reply ring, a
/// request body and every part of a body in the smallest arena there is.
pub proof fn law_bodies_fit_rings()
    ensures
        MAX_INLINE_RESPONSE_BODY < control::REPLY_CAP,
        MAX_INLINE_REQUEST_BODY < control::MIN_ARENA_CAP,
        REQUEST_BODY_CHUNK < control::MIN_ARENA_CAP,
        RESPONSE_BODY_CHUNK < control::MIN_ARENA_CAP,
        control::MIN_ARENA_CAP <= control::ARENA_CAP <= control::MAX_ARENA_CAP,
{
}

/// What stands in front of the names of stream channels.
pub const STREAM_CHAN_PREFIX: &'static str = "impulse-ring-http/v1/stream/";

/// The name of a session's channel for a role.
pub open spec fn stream_channel(app: Seq<char>, session_id: nat, role: Seq<char>) -> Seq<char> {
    STREAM_CHAN_PREFIX@ + app + "/"@ + text::hex_fixed(session_id, 16) + "/"@ + role
}

/// The name of a session's channel for a role.
pub fn stream_channel_name(app: &str, session_id: u64, role: &str) -> (r: String)
    ensures
        r@ == stream_channel(app@, session_id as nat, role@),
{
    let mut s: String = STREAM_CHAN_PREFIX.to_owned();
    s.append(app);
    s.append("/");
    s.append(text::hex_fixed_string(session_id, 16).as_str());
    s.append("/");
    s.append(role);
    s
}

/// An application's stream channels have different names for different sessions and for
/// different roles, and all begin with the prefix.
pub proof fn law_stream_channels_differ(
    app: Seq<char>,
    a: u64,
    role_a: Seq<char>,
    b: u64,
    role_b: Seq<char>,
)
    ensures
        stream_channel(app, a as nat, role_a) == stream_channel(app, b as nat, role_b) ==> a == b
            && role_a == role_b,
        text::occurs_at(stream_channel(app, a as nat, role_a), STREAM_CHAN_PREFIX@, 0),
{
    reveal_strlit("/");
    let x = stream_channel(app, a as nat, role_a);
    let y = stream_channel(app, b as nat, role_b);
    let n = (STREAM_CHAN_PREFIX@.len() + app.len() + 1) as int;
    assert(x.subrange(0, STREAM_CHAN_PREFIX@.len() as int) =~= STREAM_CHAN_PREFIX@);
    text::lemma_hex_fixed_len(a as nat, 16);
    text::lemma_hex_fixed_len(b as nat, 16);
    assert(x.subrange(n, n + 16) =~= text::hex_fixed(a as nat, 16));
    assert(y.subrange(n, n + 16) =~= text::hex_fixed(b as nat, 16));
    assert(x.skip(n + 17) =~= role_a);
    assert(y.skip(n + 17) =~= role_b);
    if x == y {
        assert(vstd::arithmetic::power::pow(16, 16) == 0x1_0000_0000_0000_0000) by {
            reveal_with_fuel(vstd::arithmetic::power::pow, 17);
        }
        text::lemma_hex_fixed_injective(a as nat, b as nat, 16);
    }
}

/// A message on a stream channel. `stream_id` tells WebTransport streams apart and is 0
/// otherwise.
#[derive(Clone, Debug)]
pub struct RingStreamFrame {
    /// One of the constants in `opcode`.
    pub opcode: i32,
    pub stream_id: i64,
    pub payload: Vec<u8>,
}

impl RingStreamFrame {
    /// A frame with bytes of the stream.
    pub fn data(payload: Vec<u8>) -> (r: RingStreamFrame)
        ensures
            r == (RingStreamFrame { opcode: opcode::DATA, stream_id: 0, payload }),
    {
        RingStreamFrame { opcode: opcode::DATA, stream_id: 0, payload }
    }

    /// The frame that ends the stream.
    pub fn close() -> (r: RingStreamFrame)
        ensures
            r.opcode == opcode::CLOSE,
            r.stream_id == 0,
            r.payload@ == Seq::<u8>::empty(),
    {
        RingStreamFrame { opcode: opcode::CLOSE, stream_id: 0, payload: Vec::new() }
    }

    /// A frame with a datagram.
    pub fn datagram(payload: Vec<u8>) -> (r: RingStreamFrame)
        ensures
            r == (RingStreamFrame { opcode: opcode::DATAGRAM, stream_id: 0, payload }),
    {
        RingStreamFrame { opcode: opcode::DATAGRAM, stream_id: 0, payload }
    }
}

/// Schema of a stream frame.
pub const STREAM_SCHEMA: &'static str = r#"{
  "type": "record",
  "name": "RingStreamFrame",
  "fields": [
    {"name": "opcode", "type": "int"},
    {"name": "stream_id", "type": "long"},
    {"name": "payload", "type": "bytes"}
  ]
}"#;

impl Message for RingStreamFrame {
    open spec fn shape() -> ShapeView {
        ShapeView {
            fields: seq![
                ("opcode"@, FieldType::Int),
                ("stream_id"@, FieldType::Long),
                ("payload"@, FieldType::Bytes),
            ],
            row: Seq::empty(),
        }
    }

    open spec fn fields(&self) -> RecordView {
        RecordView {
            fields: seq![
                ("opcode"@, ScalarView::Int(self.opcode)),
                ("stream_id"@, ScalarView::Long(self.stream_id)),
                ("payload"@, ScalarView::Bytes(self.payload@)),
            ],
            rows: Seq::empty(),
        }
    }

    proof fn lemma_typed(&self) {
    }

    fn expected_shape() -> (r: Shape) {
        let fields: Vec<(String, FieldType)> = vec![
            messages::field_type("opcode", FieldType::Int),
            messages::field_type("stream_id", FieldType::Long),
            messages::field_type("payload", FieldType::Bytes),
        ];
        let r = Shape { fields, row: Vec::new() };
        assert(r@ =~= Self::shape());
        r
    }

    fn to_record(&self) -> (r: Record) {
        let fields: Vec<(String, Scalar)> = vec![
            messages::field("opcode", Scalar::Int(self.opcode)),
            messages::field("stream_id", Scalar::Long(self.stream_id)),
            messages::field("payload", Scalar::Bytes(messages::copy_bytes(&self.payload))),
        ];
        let r = Record { fields, rows: Vec::new() };
        assert(r@ =~= self.fields());
        r
    }

    fn from_record(r: &Record) -> (m: Option<Self>) {
        proof {
            messages::lemma_row(r.fields@);
            assert(forall|i: int| !#[trigger] Self::shape().list_at(i));
        }
        if r.fields.len() != 3 || r.rows.len() != 0 {
            assert(r@.rows.len() == r.rows@.len());
            return None;
        }
        let opcode: i32 = messages::take_int(&r.fields[0], "opcode")?;
        let stream_id: i64 = messages::take_long(&r.fields[1], "stream_id")?;
        let payload: Vec<u8> = messages::take_bytes(&r.fields[2], "payload")?;
        let m = RingStreamFrame { opcode, stream_id, payload };
        assert(r@.fields =~= m.fields().fields);
        assert(r@.rows =~= m.fields().rows);
        Some(m)
    }
}

// ---- laws ----------------------------------------------------------------------------------

proof fn lemma_rows_hold(headers: Seq<RingHeader>)
    ensures
        header_rows(headers).len() == headers.len(),
        forall|i: int|
            0 <= i < headers.len() ==> {
                let row = #[trigger] header_rows(headers)[i];
                &&& row.len() == 2
                &&& row.contains(("name"@, ScalarView::Text(headers[i].name@)))
                &&& row.contains(("value"@, ScalarView::Text(headers[i].value@)))
            },
{
    assert forall|i: int| 0 <= i < headers.len() implies {
        let row = #[trigger] header_rows(headers)[i];
        &&& row.len() == 2
        &&& row.contains(("name"@, ScalarView::Text(headers[i].name@)))
        &&& row.contains(("value"@, ScalarView::Text(headers[i].value@)))
    } by {
        let row = header_rows(headers)[i];
        assert(row == headers[i].row());
        assert(row[0] == headers[i].row()[0] && row[1] == headers[i].row()[1]);
    }
}

/// A request as a record, written or read: the method under `method`, the path under `uri`, the
/// body under `body`, and one row for each header, in the order of the headers.
pub proof fn law_request_fields(m: RingHttpRequest, r: Record)
    requires
        call_ensures(<RingHttpRequest as Message>::to_record, (&m,), r) || call_ensures(
            <RingHttpRequest as Message>::from_record,
            (&r,),
            Some(m),
        ),
    ensures
        r@.fields.len() == 4,
        r@.fields.contains(("method"@, ScalarView::Text(m.method@))),
        r@.fields.contains(("uri"@, ScalarView::Text(m.uri@))),
        r@.fields.contains(("headers"@, ScalarView::List)),
        r@.fields.contains(("body"@, ScalarView::Bytes(m.body@))),
        r@.rows.len() == m.headers@.len(),
        forall|i: int|
            0 <= i < m.headers@.len() ==> {
                let row = #[trigger] r@.rows[i];
                &&& row.len() == 2
                &&& row.contains(("name"@, ScalarView::Text(m.headers@[i].name@)))
                &&& row.contains(("value"@, ScalarView::Text(m.headers@[i].value@)))
            },
{
    assert(m.fields().fields[0] == r@.fields[0] && m.fields().fields[1] == r@.fields[1]);
    assert(m.fields().fields[2] == r@.fields[2] && m.fields().fields[3] == r@.fields[3]);
    lemma_rows_hold(m.headers@);
}

/// A response as a record, written or read: the status under `status`, the body under `body`,
/// and one row for each header, in the order of the headers.
pub proof fn law_response_fields(m: RingHttpResponse, r: Record)
    requires
        call_ensures(<RingHttpResponse as Message>::to_record, (&m,), r) || call_ensures(
            <RingHttpResponse as Message>::from_record,
            (&r,),
            Some(m),
        ),
    ensures
        r@.fields.len() == 3,
        r@.fields.contains(("status"@, ScalarView::Int(m.status))),
        r@.fields.contains(("headers"@, ScalarView::List)),
        r@.fields.contains(("body"@, ScalarView::Bytes(m.body@))),
        r@.rows.len() == m.headers@.len(),
        forall|i: int|
            0 <= i < m.headers@.len() ==> {
                let row = #[trigger] r@.rows[i];
                &&& row.len() == 2
                &&& row.contains(("name"@, ScalarView::Text(m.headers@[i].name@)))
                &&& row.contains(("value"@, ScalarView::Text(m.headers@[i].value@)))
            },
{
    assert(m.fields().fields[0] == r@.fields[0] && m.fields().fields[1] == r@.fields[1]);
    assert(m.fields().fields[2] == r@.fields[2]);
    lemma_rows_hold(m.headers@);
}

/// A stream frame as a record, written or read: its values by the names of the fields.
pub proof fn law_stream_frame_fields(m: RingStreamFrame, r: Record)
    requires
        call_ensures(<RingStreamFrame as Message>::to_record, (&m,), r) || call_ensures(
            <RingStreamFrame as Message>::from_record,
            (&r,),
            Some(m),
        ),
    ensures
        r@.fields.len() == 3,
        r@.fields.contains(("opcode"@, ScalarView::Int(m.opcode))),
        r@.fields.contains(("stream_id"@, ScalarView::Long(m.stream_id))),
        r@.fields.contains(("payload"@, ScalarView::Bytes(m.payload@))),
        r@.rows.len() == 0,
{
    assert(m.fields().fields[0] == r@.fields[0] && m.fields().fields[1] == r@.fields[1]);
    assert(m.fields().fields[2] == r@.fields[2]);
}

/// A request that is written and read again is the same request: method, path, body, and the
/// headers in their order.
pub proof fn law_request_comes_back(m: RingHttpRequest, r: Record, back: Option<RingHttpRequest>)
    requires
        call_ensures(<RingHttpRequest as Message>::to_record, (&m,), r),
        call_ensures(<RingHttpRequest as Message>::from_record, (&r,), back),
    ensures
        back matches Some(n) && n.method@ == m.method@ && n.uri@ == m.uri@ && n.body@ == m.body@
            && n.headers@.len() == m.headers@.len() && forall|i: int|
            0 <= i < m.headers@.len() ==> (#[trigger] n.headers@[i]).name@ == m.headers@[i].name@
                && n.headers@[i].value@ == m.headers@[i].value@,
{
    m.lemma_typed();
    let n = back->Some_0;
    assert(n.fields().fields[0] == m.fields().fields[0]);
    assert(n.fields().fields[1] == m.fields().fields[1]);
    assert(n.fields().fields[3] == m.fields().fields[3]);
    lemma_same_headers(n.headers@, m.headers@);
}

/// A response that is written and read again is the same response: status, body, and the headers
/// in their order.
pub proof fn law_response_comes_back(m: RingHttpResponse, r: Record, back: Option<RingHttpResponse>)
    requires
        call_ensures(<RingHttpResponse as Message>::to_record, (&m,), r),
        call_ensures(<RingHttpResponse as Message>::from_record, (&r,), back),
    ensures
        back matches Some(n) && n.status == m.status && n.body@ == m.body@ && n.headers@.len()
            == m.headers@.len() && forall|i: int|
            0 <= i < m.headers@.len() ==> (#[trigger] n.headers@[i]).name@ == m.headers@[i].name@
                && n.headers@[i].value@ == m.headers@[i].value@,
{
    m.lemma_typed();
    let n = back->Some_0;
    assert(n.fields().fields[0] == m.fields().fields[0]);
    assert(n.fields().fields[2] == m.fields().fields[2]);
    lemma_same_headers(n.headers@, m.headers@);
}

proof fn lemma_same_headers(a: Seq<RingHeader>, b: Seq<RingHeader>)
    requires
        header_rows(a) == header_rows(b),
    ensures
        a.len() == b.len(),
        forall|i: int|
            0 <= i < b.len() ==> (#[trigger] a[i]).name@ == b[i].name@
                && a[i].value@ == b[i].value@,
{
    assert(a.len() == header_rows(a).len() && b.len() == header_rows(b).len());
    assert forall|i: int| 0 <= i < b.len() implies (#[trigger] a[i]).name@ == b[i].name@
        && a[i].value@ == b[i].value@ by {
        assert(header_rows(a)[i] == a[i].row() && header_rows(b)[i] == b[i].row());
        assert(a[i].row()[0] == b[i].row()[0] && a[i].row()[1] == b[i].row()[1]);
    }
}

/// What a frame of a stream carries is what it was made of, all of it, and frames of different
/// purposes are told apart.
pub proof fn law_stream_frames(
    payload: Vec<u8>,
    data: RingStreamFrame,
    datagram: RingStreamFrame,
    close: RingStreamFrame,
)
    requires
        call_ensures(RingStreamFrame::data, (payload,), data),
        call_ensures(RingStreamFrame::datagram, (payload,), datagram),
        call_ensures(RingStreamFrame::close, (), close),
    ensures
        data.payload@ == payload@ && datagram.payload@ == payload@ && close.payload@.len() == 0,
        data.stream_id == 0 && datagram.stream_id == 0 && close.stream_id == 0,
        data.opcode == 0 && datagram.opcode == 2 && close.opcode == 1,
        data.opcode != datagram.opcode && data.opcode != close.opcode,
        datagram.opcode != close.opcode,
{
}

/// The name of an application's function is the prefix and then the application's name, so that
/// the application can be told from it, and two applications have the same function only if
/// they have the same name.
pub proof fn law_fn_name_tells_app(a: &str, b: &str, x: String, y: String)
    requires
        call_ensures(http_fn_name, (a,), x),
        call_ensures(http_fn_name, (b,), y),
    ensures
        x@.skip(HTTP_FN_PREFIX@.len() as int) == a@,
        x@.take(HTTP_FN_PREFIX@.len() as int) == HTTP_FN_PREFIX@,
        x@ == y@ ==> a@ == b@,
        x@ == "impulse-ring-http/v1/"@ + a@,
{
    let n = HTTP_FN_PREFIX@.len() as int;
    assert(x@.skip(n) =~= a@);
    assert(y@.skip(n) =~= b@);
    assert(x@.take(n) =~= HTTP_FN_PREFIX@);
}

/// The name of a stream channel has the application, the session and the role in it: two names
/// are the same only for one session and one role of an application.
pub proof fn law_stream_channel_tells_session(
    app: &str,
    a: u64,
    role_a: &str,
    b: u64,
    role_b: &str,
    x: String,
    y: String,
)
    requires
        call_ensures(stream_channel_name, (app, a, role_a), x),
        call_ensures(stream_channel_name, (app, b, role_b), y),
    ensures
        x@ == y@ <==> a == b && role_a@ == role_b@,
        x@.take(STREAM_CHAN_PREFIX@.len() as int) == STREAM_CHAN_PREFIX@,
        x@.skip(STREAM_CHAN_PREFIX@.len() as int).take(app@.len() as int) == app@,
        x@.skip(x@.len() - role_a@.len()) == role_a@,
        x@ == "impulse-ring-http/v1/stream/"@ + app@ + "/"@ + text::hex_fixed(a as nat, 16) + "/"@
            + role_a@,
{
    law_stream_channels_differ(app@, a, role_a@, b, role_b@);
    let p = STREAM_CHAN_PREFIX@.len() as int;
    assert(x@.take(p) =~= STREAM_CHAN_PREFIX@);
    assert(x@.skip(p).take(app@.len() as int) =~= app@);
    assert(x@.skip(x@.len() - role_a@.len()) =~= role_a@);
}

proof fn lemma_trim_white(front: Seq<char>, s: Seq<char>, back: Seq<char>)
    requires
        forall|i: int| 0 <= i < front.len() ==> is_white(#[trigger] front[i]),
        forall|i: int| 0 <= i < back.len() ==> is_white(#[trigger] back[i]),
        s.len() > 0,
        !is_white(s[0]),
        !is_white(s.last()),
    ensures
        trimmed(front + s + back) == s,
    decreases front.len() + back.len(),
{
    let t = front + s + back;
    if front.len() > 0 {
        assert(t[0] == front[0]);
        assert(t.drop_first() =~= front.drop_first() + s + back);
        lemma_trim_white(front.drop_first(), s, back);
    } else if back.len() > 0 {
        assert(t[0] == s[0]);
        assert(t.last() == back.last());
        assert(t.drop_last() =~= front + s + back.drop_last());
        assert(t.drop_last()[0] == s[0]);
        lemma_trim_white(front, s, back.drop_last());
    } else {
        assert(t =~= s);
    }
}

/// A text is a token up to the case of its ASCII letters.
pub open spec fn spells(s: Seq<char>, token: Seq<char>) -> bool {
    &&& s.len() == token.len()
    &&& forall|i: int|
        0 <= i < s.len() ==> #[trigger] s[i] == token[i] || 'A' <= s[i] <= 'Z' && s[i] as int + 32
            == token[i] as int
}

proof fn lemma_spells(s: Seq<char>, token: Seq<char>)
    requires
        forall|i: int| 0 <= i < token.len() ==> !('A' <= #[trigger] token[i] <= 'Z'),
    ensures
        spells(s, token) <==> lowered(s) == token,
{
    if spells(s, token) {
        assert forall|i: int| 0 <= i < s.len() implies #[trigger] lowered(s)[i] == token[i] by {
            assert(s[i] == token[i] || 'A' <= s[i] <= 'Z' && s[i] as int + 32 == token[i] as int);
            assert(lowered(s)[i] == lower(s[i]));
        }
        assert(lowered(s) =~= token);
    }
    if lowered(s) == token {
        assert(s.len() == token.len());
        assert forall|i: int| 0 <= i < s.len() implies #[trigger] s[i] == token[i] || 'A' <= s[i]
            <= 'Z' && s[i] as int + 32 == token[i] as int by {
            assert(lowered(s)[i] == lower(s[i]));
        }
    }
}

/// The number of a character that is white space, as Unicode lists them.
pub open spec fn blank(c: int) -> bool {
    ||| c == 0x20 || c == 0x85 || c == 0xa0 || c == 0x1680 || c == 0x2028 || c == 0x2029
    ||| c == 0x202f || c == 0x205f || c == 0x3000
    ||| 9 <= c <= 13
    ||| 0x2000 <= c <= 0x200a
}

/// A protocol is read from the token that names it, in any case and with any white space around
/// it; the short tokens `ws` and `wt` name their protocols too.
pub proof fn law_upgrade_is_read(
    kind: RingUpgradeKind,
    token: &'static str,
    front: Seq<char>,
    middle: Seq<char>,
    back: Seq<char>,
    s: &str,
    r: Option<RingUpgradeKind>,
)
    requires
        call_ensures(RingUpgradeKind::as_str, (&kind,), token),
        call_ensures(RingUpgradeKind::parse, (s,), r),
        s@ == front + middle + back,
        forall|i: int| 0 <= i < front.len() ==> blank(#[trigger] front[i] as int),
        forall|i: int| 0 <= i < back.len() ==> blank(#[trigger] back[i] as int),
        spells(middle, token@) || spells(middle, "ws"@) && kind == RingUpgradeKind::WebSocket
            || spells(middle, "wt"@) && kind == RingUpgradeKind::WebTransport,
    ensures
        r == Some(kind),
        token@ == match kind {
            RingUpgradeKind::Sse => "sse"@,
            RingUpgradeKind::WebSocket => "websocket"@,
            RingUpgradeKind::WebTransport => "webtransport"@,
        },
{
    reveal_strlit("sse");
    reveal_strlit("websocket");
    reveal_strlit("ws");
    reveal_strlit("webtransport");
    reveal_strlit("wt");
    lemma_spells(middle, token@);
    lemma_spells(middle, "ws"@);
    lemma_spells(middle, "wt"@);
    assert(lowered(middle).len() == middle.len());
    assert(lowered(middle)[0] == lower(middle[0]));
    assert(lowered(middle).last() == lower(middle.last()));
    lemma_trim_white(front, middle, back);
    assert("websocket"@.len() == 9 && "webtransport"@.len() == 12 && "sse"@.len() == 3);
    assert("ws"@.len() == 2 && "wt"@.len() == 2 && "ws"@[1] == 's' && "wt"@[1] == 't');
}

proof fn lemma_trim_cuts(s: Seq<char>)
    ensures
        exists|i: int, j: int|
            0 <= i <= j <= s.len() && trimmed(s) == #[trigger] s.subrange(i, j) && blank_around(
                s,
                i,
                j,
            ),
{
    lemma_trim_front_cuts(s);
    let i = choose|i: int|
        0 <= i <= s.len() && trim_front(s) == #[trigger] s.skip(i) && blank_around(
            s,
            i,
            s.len() as int,
        );
    let t = s.skip(i);
    lemma_trim_back_cuts(t);
    let j = choose|j: int|
        0 <= j <= t.len() && trim_back(t) == #[trigger] t.take(j) && blank_around(t, 0, j);
    assert(t.take(j) =~= s.subrange(i, i + j));
    assert forall|k: int| 0 <= k < i || i + j <= k < s.len() implies blank(
        #[trigger] s[k] as int,
    ) by {
        if k >= i {
            assert(t[k - i] == s[k]);
        }
    }
    assert(blank_around(s, i, i + j));
}

/// All of a text outside of `i` to `j` is white space.
pub open spec fn blank_around(s: Seq<char>, i: int, j: int) -> bool {
    forall|k: int| 0 <= k < i || j <= k < s.len() ==> blank(#[trigger] s[k] as int)
}

proof fn lemma_trim_front_cuts(s: Seq<char>)
    ensures
        exists|i: int|
            0 <= i <= s.len() && trim_front(s) == #[trigger] s.skip(i) && blank_around(
                s,
                i,
                s.len() as int,
            ),
    decreases s.len(),
{
    if s.len() > 0 && is_white(s[0]) {
        let t = s.drop_first();
        lemma_trim_front_cuts(t);
        let i = choose|i: int|
            0 <= i <= t.len() && trim_front(t) == #[trigger] t.skip(i) && blank_around(
                t,
                i,
                t.len() as int,
            );
        assert(t.skip(i) =~= s.skip(i + 1));
        assert forall|k: int| 0 <= k < i + 1 implies blank(#[trigger] s[k] as int) by {
            if k > 0 {
                assert(t[k - 1] == s[k]);
            }
        }
        assert(blank_around(s, i + 1, s.len() as int));
    } else {
        assert(s.skip(0) =~= s);
        assert(blank_around(s, 0, s.len() as int));
    }
}

proof fn lemma_trim_back_cuts(s: Seq<char>)
    ensures
        exists|j: int|
            0 <= j <= s.len() && trim_back(s) == #[trigger] s.take(j) && blank_around(s, 0, j),
    decreases s.len(),
{
    if s.len() > 0 && is_white(s.last()) {
        let t = s.drop_last();
        lemma_trim_back_cuts(t);
        let j = choose|j: int|
            0 <= j <= t.len() && trim_back(t) == #[trigger] t.take(j) && blank_around(t, 0, j);
        assert(t.take(j) =~= s.take(j));
        assert forall|k: int| j <= k < s.len() implies blank(#[trigger] s[k] as int) by {
            if k < t.len() {
                assert(t[k] == s[k]);
            }
        }
        assert(blank_around(s, 0, j));
    } else {
        assert(s.take(s.len() as int) =~= s);
        assert(blank_around(s, 0, s.len() as int));
    }
}

/// A protocol is read only from a text that is a token that names it, with nothing but white space
/// around it.
pub proof fn law_upgrade_needs_token(s: &str, kind: RingUpgradeKind)
    requires
        call_ensures(RingUpgradeKind::parse, (s,), Some(kind)),
    ensures
        exists|i: int, j: int|
            0 <= i <= j <= s@.len() && blank_around(s@, i, j) && {
                let t = #[trigger] s@.subrange(i, j);
                match kind {
                    RingUpgradeKind::Sse => spells(t, "sse"@),
                    RingUpgradeKind::WebSocket => spells(t, "websocket"@) || spells(t, "ws"@),
                    RingUpgradeKind::WebTransport => spells(t, "webtransport"@) || spells(t, "wt"@),
                }
            },
{
    reveal_strlit("sse");
    reveal_strlit("websocket");
    reveal_strlit("ws");
    reveal_strlit("webtransport");
    reveal_strlit("wt");
    lemma_trim_cuts(s@);
    let (i, j) = choose|i: int, j: int|
        0 <= i <= j <= s@.len() && trimmed(s@) == #[trigger] s@.subrange(i, j) && blank_around(
            s@,
            i,
            j,
        );
    let t = s@.subrange(i, j);
    lemma_spells(t, "sse"@);
    lemma_spells(t, "websocket"@);
    lemma_spells(t, "ws"@);
    lemma_spells(t, "webtransport"@);
    lemma_spells(t, "wt"@);
}

/// A header has the name and the value that it was made of, and every purpose of a header its own
/// name; a larger body travels in parts, none of them larger than what travels in one record.
pub proof fn law_headers_are_told_apart(name: &str, value: &str, h: RingHeader)
    requires
        call_ensures(RingHeader::new, (name, value), h),
    ensures
        h.name@ == name@ && h.value@ == value@,
        HEADER_UPGRADE@ == "x-impulse-ring-upgrade"@,
        HEADER_CHAN_DOWN@ == "x-impulse-ring-chan-down"@,
        HEADER_CHAN_UP@ == "x-impulse-ring-chan-up"@,
        HEADER_CHAN_DATAGRAMS@ == "x-impulse-ring-chan-datagrams"@,
        HEADER_SESSION@ == "x-impulse-ring-session"@,
        HEADER_BODY_CHANNEL@ == "x-impulse-ring-body-chan"@,
        HEADER_REQUEST_BODY_CHANNEL@ == "x-impulse-ring-req-body-chan"@,
        RESPONSE_BODY_CHUNK <= MAX_INLINE_RESPONSE_BODY == 0x7_0000,
        REQUEST_BODY_CHUNK <= MAX_INLINE_REQUEST_BODY == 0x3_0000,
        RESPONSE_BODY_CHUNK == 0x3_0000 && REQUEST_BODY_CHUNK == 0x3_0000,
{
}

} // verus!
