//! The control plane: the records that connectors and the broker exchange, and the records of
//! calls.
//!
//! A record travels in a frame whose fingerprint is that of the record's schema, so a receiver
//! tells the kind of a record from the fingerprint alone. Fingerprints are unsigned and Avro's
//! `long` is signed: inside a record a fingerprint is the `long` with the same bits.
pub mod laws;
pub mod messages;
pub mod schemas;
pub mod status;

use vstd::prelude::*;

use crate::avro;
use crate::avro::{AvroError, Fingerprint, RecordView, ScalarView, Schema, Shape, ShapeView};
use crate::frame;
use crate::frame::{Frame, FrameError, FrameView};
use crate::outline;
pub use crate::proto::messages::{
    ChannelInfo, ChannelList, ExposeFunction, ExposeReply, Heartbeat, LegacyExposeFunction,
    LegacyRegister, ListChannels, LookupFunction, LookupReply, Message, PublishChannel,
    PublishReply, Register, RegisterReply, RpcRequest, RpcResponse, Subscribe, SubscribeReply,
    Unregister,
};

verus! {

/// A fingerprint as a `long`.
pub fn fp_to_i64(fp: Fingerprint) -> (r: i64)
    ensures
        r == fp as i64,
{
    #[verifier::truncate]
    (fp as i64)
}

/// The fingerprint that a `long` stands for.
pub fn i64_to_fp(v: i64) -> (r: Fingerprint)
    ensures
        r == v as u64,
{
    #[verifier::truncate]
    (v as u64)
}

/// Nothing of a fingerprint is lost in a `long`, nor of a `long` in a fingerprint.
pub proof fn law_fingerprint_as_long(fp: u64, v: i64)
    ensures
        (fp as i64) as u64 == fp,
        (v as u64) as i64 == v,
{
    assert((fp as i64) as u64 == fp) by (bit_vector);
    assert((v as u64) as i64 == v) by (bit_vector);
}

// ---- kinds ---------------------------------------------------------------------------------

/// The kinds of records.
#[derive(Clone, Copy, Debug, PartialEq, Eq, Hash, Structural)]
pub enum Kind {
    Register,
    RegisterReply,
    Unregister,
    PublishChannel,
    PublishReply,
    ListChannels,
    ChannelList,
    Subscribe,
    SubscribeReply,
    ExposeFunction,
    ExposeReply,
    LookupFunction,
    LookupReply,
    Heartbeat,
    RpcRequest,
    RpcResponse,
}

/// All kinds, in a fixed order.
pub open spec fn kinds() -> Seq<Kind> {
    seq![
        Kind::Register,
        Kind::RegisterReply,
        Kind::Unregister,
        Kind::PublishChannel,
        Kind::PublishReply,
        Kind::ListChannels,
        Kind::ChannelList,
        Kind::Subscribe,
        Kind::SubscribeReply,
        Kind::ExposeFunction,
        Kind::ExposeReply,
        Kind::LookupFunction,
        Kind::LookupReply,
        Kind::Heartbeat,
        Kind::RpcRequest,
        Kind::RpcResponse,
    ]
}

/// The position of a kind among all kinds.
pub open spec fn kind_index(kind: Kind) -> int {
    match kind {
        Kind::Register => 0,
        Kind::RegisterReply => 1,
        Kind::Unregister => 2,
        Kind::PublishChannel => 3,
        Kind::PublishReply => 4,
        Kind::ListChannels => 5,
        Kind::ChannelList => 6,
        Kind::Subscribe => 7,
        Kind::SubscribeReply => 8,
        Kind::ExposeFunction => 9,
        Kind::ExposeReply => 10,
        Kind::LookupFunction => 11,
        Kind::LookupReply => 12,
        Kind::Heartbeat => 13,
        Kind::RpcRequest => 14,
        Kind::RpcResponse => 15,
    }
}

/// All kinds, in a fixed order.
pub fn all_kinds() -> (r: Vec<Kind>)
    ensures
        r@ == kinds(),
{
    let r: Vec<Kind> = vec![
        Kind::Register,
        Kind::RegisterReply,
        Kind::Unregister,
        Kind::PublishChannel,
        Kind::PublishReply,
        Kind::ListChannels,
        Kind::ChannelList,
        Kind::Subscribe,
        Kind::SubscribeReply,
        Kind::ExposeFunction,
        Kind::ExposeReply,
        Kind::LookupFunction,
        Kind::LookupReply,
        Kind::Heartbeat,
        Kind::RpcRequest,
        Kind::RpcResponse,
    ];
    assert(r@ =~= kinds());
    r
}

fn index_of(kind: Kind) -> (r: usize)
    ensures
        r == kind_index(kind),
{
    match kind {
        Kind::Register => 0,
        Kind::RegisterReply => 1,
        Kind::Unregister => 2,
        Kind::PublishChannel => 3,
        Kind::PublishReply => 4,
        Kind::ListChannels => 5,
        Kind::ChannelList => 6,
        Kind::Subscribe => 7,
        Kind::SubscribeReply => 8,
        Kind::ExposeFunction => 9,
        Kind::ExposeReply => 10,
        Kind::LookupFunction => 11,
        Kind::LookupReply => 12,
        Kind::Heartbeat => 13,
        Kind::RpcRequest => 14,
        Kind::RpcResponse => 15,
    }
}

/// The name of a kind.
pub open spec fn kind_text(kind: Kind) -> Seq<char> {
    match kind {
        Kind::Register => "Register"@,
        Kind::RegisterReply => "RegisterReply"@,
        Kind::Unregister => "Unregister"@,
        Kind::PublishChannel => "PublishChannel"@,
        Kind::PublishReply => "PublishReply"@,
        Kind::ListChannels => "ListChannels"@,
        Kind::ChannelList => "ChannelList"@,
        Kind::Subscribe => "Subscribe"@,
        Kind::SubscribeReply => "SubscribeReply"@,
        Kind::ExposeFunction => "ExposeFunction"@,
        Kind::ExposeReply => "ExposeReply"@,
        Kind::LookupFunction => "LookupFunction"@,
        Kind::LookupReply => "LookupReply"@,
        Kind::Heartbeat => "Heartbeat"@,
        Kind::RpcRequest => "RpcRequest"@,
        Kind::RpcResponse => "RpcResponse"@,
    }
}

/// The name of a kind.
pub fn kind_name(kind: Kind) -> (r: &'static str)
    ensures
        r@ == kind_text(kind),
{
    match kind {
        Kind::Register => "Register",
        Kind::RegisterReply => "RegisterReply",
        Kind::Unregister => "Unregister",
        Kind::PublishChannel => "PublishChannel",
        Kind::PublishReply => "PublishReply",
        Kind::ListChannels => "ListChannels",
        Kind::ChannelList => "ChannelList",
        Kind::Subscribe => "Subscribe",
        Kind::SubscribeReply => "SubscribeReply",
        Kind::ExposeFunction => "ExposeFunction",
        Kind::ExposeReply => "ExposeReply",
        Kind::LookupFunction => "LookupFunction",
        Kind::LookupReply => "LookupReply",
        Kind::Heartbeat => "Heartbeat",
        Kind::RpcRequest => "RpcRequest",
        Kind::RpcResponse => "RpcResponse",
    }
}

/// The schema of a kind.
pub open spec fn schema_text(kind: Kind) -> Seq<char> {
    match kind {
        Kind::Register => schemas::REGISTER_SCHEMA@,
        Kind::RegisterReply => schemas::REGISTER_REPLY_SCHEMA@,
        Kind::Unregister => schemas::UNREGISTER_SCHEMA@,
        Kind::PublishChannel => schemas::PUBLISH_CHANNEL_SCHEMA@,
        Kind::PublishReply => schemas::PUBLISH_REPLY_SCHEMA@,
        Kind::ListChannels => schemas::LIST_CHANNELS_SCHEMA@,
        Kind::ChannelList => schemas::CHANNEL_LIST_SCHEMA@,
        Kind::Subscribe => schemas::SUBSCRIBE_SCHEMA@,
        Kind::SubscribeReply => schemas::SUBSCRIBE_REPLY_SCHEMA@,
        Kind::ExposeFunction => schemas::EXPOSE_FUNCTION_SCHEMA@,
        Kind::ExposeReply => schemas::EXPOSE_REPLY_SCHEMA@,
        Kind::LookupFunction => schemas::LOOKUP_FUNCTION_SCHEMA@,
        Kind::LookupReply => schemas::LOOKUP_REPLY_SCHEMA@,
        Kind::Heartbeat => schemas::HEARTBEAT_SCHEMA@,
        Kind::RpcRequest => schemas::RPC_REQUEST_SCHEMA@,
        Kind::RpcResponse => schemas::RPC_RESPONSE_SCHEMA@,
    }
}

/// The schema of a kind.
pub fn schema_json(kind: Kind) -> (r: &'static str)
    ensures
        r@ == schema_text(kind),
{
    match kind {
        Kind::Register => schemas::REGISTER_SCHEMA,
        Kind::RegisterReply => schemas::REGISTER_REPLY_SCHEMA,
        Kind::Unregister => schemas::UNREGISTER_SCHEMA,
        Kind::PublishChannel => schemas::PUBLISH_CHANNEL_SCHEMA,
        Kind::PublishReply => schemas::PUBLISH_REPLY_SCHEMA,
        Kind::ListChannels => schemas::LIST_CHANNELS_SCHEMA,
        Kind::ChannelList => schemas::CHANNEL_LIST_SCHEMA,
        Kind::Subscribe => schemas::SUBSCRIBE_SCHEMA,
        Kind::SubscribeReply => schemas::SUBSCRIBE_REPLY_SCHEMA,
        Kind::ExposeFunction => schemas::EXPOSE_FUNCTION_SCHEMA,
        Kind::ExposeReply => schemas::EXPOSE_REPLY_SCHEMA,
        Kind::LookupFunction => schemas::LOOKUP_FUNCTION_SCHEMA,
        Kind::LookupReply => schemas::LOOKUP_REPLY_SCHEMA,
        Kind::Heartbeat => schemas::HEARTBEAT_SCHEMA,
        Kind::RpcRequest => schemas::RPC_REQUEST_SCHEMA,
        Kind::RpcResponse => schemas::RPC_RESPONSE_SCHEMA,
    }
}

/// The shape of a kind's records.
pub open spec fn kind_shape(kind: Kind) -> ShapeView {
    match kind {
        Kind::Register => Register::shape(),
        Kind::RegisterReply => RegisterReply::shape(),
        Kind::Unregister => Unregister::shape(),
        Kind::PublishChannel => PublishChannel::shape(),
        Kind::PublishReply => PublishReply::shape(),
        Kind::ListChannels => ListChannels::shape(),
        Kind::ChannelList => ChannelList::shape(),
        Kind::Subscribe => Subscribe::shape(),
        Kind::SubscribeReply => SubscribeReply::shape(),
        Kind::ExposeFunction => ExposeFunction::shape(),
        Kind::ExposeReply => ExposeReply::shape(),
        Kind::LookupFunction => LookupFunction::shape(),
        Kind::LookupReply => LookupReply::shape(),
        Kind::Heartbeat => Heartbeat::shape(),
        Kind::RpcRequest => RpcRequest::shape(),
        Kind::RpcResponse => RpcResponse::shape(),
    }
}

fn expected_shape(kind: Kind) -> (r: Shape)
    ensures
        r@ == kind_shape(kind),
{
    match kind {
        Kind::Register => Register::expected_shape(),
        Kind::RegisterReply => RegisterReply::expected_shape(),
        Kind::Unregister => Unregister::expected_shape(),
        Kind::PublishChannel => PublishChannel::expected_shape(),
        Kind::PublishReply => PublishReply::expected_shape(),
        Kind::ListChannels => ListChannels::expected_shape(),
        Kind::ChannelList => ChannelList::expected_shape(),
        Kind::Subscribe => Subscribe::expected_shape(),
        Kind::SubscribeReply => SubscribeReply::expected_shape(),
        Kind::ExposeFunction => ExposeFunction::expected_shape(),
        Kind::ExposeReply => ExposeReply::expected_shape(),
        Kind::LookupFunction => LookupFunction::expected_shape(),
        Kind::LookupReply => LookupReply::expected_shape(),
        Kind::Heartbeat => Heartbeat::expected_shape(),
        Kind::RpcRequest => RpcRequest::expected_shape(),
        Kind::RpcResponse => RpcResponse::expected_shape(),
    }
}

proof fn lemma_kind_flat(kind: Kind)
    ensures
        kind_shape(kind).flat(),
        LegacyRegister::shape().flat(),
        LegacyExposeFunction::shape().flat(),
{
    if kind == Kind::ChannelList {
        assert(forall|i: int| #[trigger] ChannelList::shape().list_at(i) ==> i == 1);
    }
}

proof fn lemma_kind_index(kind: Kind)
    ensures
        0 <= kind_index(kind) < 16,
        kinds()[kind_index(kind)] == kind,
        kinds().len() == 16,
        forall|i: int| 0 <= i < 16 ==> kind_index(#[trigger] kinds()[i]) == i,
{
}

// ---- the catalog ---------------------------------------------------------------------------

/// The fingerprint of a kind.
pub open spec fn kind_fp(kind: Kind) -> nat {
    avro::schema_fp(schema_text(kind))
}

/// The fingerprint that a kind had before its record grew, and still has in frames of older
/// connectors.
pub open spec fn legacy_fp(kind: Kind) -> Option<nat> {
    match kind {
        Kind::Register => Some(avro::schema_fp(schemas::LEGACY_REGISTER_SCHEMA@)),
        Kind::ExposeFunction => Some(avro::schema_fp(schemas::LEGACY_EXPOSE_FUNCTION_SCHEMA@)),
        _ => None,
    }
}

/// A fingerprint announces a record of a kind.
pub open spec fn announces(fp: nat, kind: Kind) -> bool {
    fp == kind_fp(kind) || legacy_fp(kind) == Some(fp)
}

/// A schema of the control plane: it parses, has the shape of its records and gives no name
/// twice.
pub open spec fn good_schema(json: Seq<char>, shape: ShapeView) -> bool {
    avro::is_schema(json) && avro::avro_shape(json) == Some(shape) && outline::plainly_named(json)
}

/// The schemas of the control plane are good, and no fingerprint announces two kinds.
pub open spec fn catalog_good() -> bool {
    &&& forall|kind: Kind| good_schema(#[trigger] schema_text(kind), kind_shape(kind))
    &&& good_schema(schemas::LEGACY_REGISTER_SCHEMA@, LegacyRegister::shape())
    &&& good_schema(schemas::LEGACY_EXPOSE_FUNCTION_SCHEMA@, LegacyExposeFunction::shape())
    &&& forall|a: Kind, b: Kind| #[trigger] kind_fp(a) == #[trigger] kind_fp(b) ==> a == b
    &&& forall|a: Kind| legacy_fp(Kind::Register) != Some(#[trigger] kind_fp(a))
    &&& forall|a: Kind| legacy_fp(Kind::ExposeFunction) != Some(#[trigger] kind_fp(a))
    &&& legacy_fp(Kind::Register) != legacy_fp(Kind::ExposeFunction)
}

/// The schemas of the control plane, parsed.
pub struct Catalog {
    schemas: Vec<Schema>,
    legacy_register: Schema,
    legacy_expose: Schema,
}

fn load(json: &str, shape: &Shape) -> (r: Option<Schema>)
    ensures
        match r {
            Some(schema) => good_schema(json@, shape@) && schema@ == json@,
            None => !good_schema(json@, shape@),
        },
{
    match avro::parse(json) {
        Ok((schema, _fp)) => if schema.has_shape(shape) && outline::check_plainly_named(json) {
            Some(schema)
        } else {
            None
        },
        Err(_) => None,
    }
}

fn all_differ(fps: &Vec<u64>) -> (r: bool)
    ensures
        r == (forall|i: int, j: int| 0 <= i < j < fps@.len() ==> fps@[i] != fps@[j]),
{
    let mut i: usize = 0;
    while i < fps.len()
        invariant
            i <= fps@.len(),
            forall|a: int, b: int| 0 <= a < i && a < b < fps@.len() ==> fps@[a] != fps@[b],
        decreases fps@.len() - i,
    {
        let mut j: usize = i + 1;
        while j < fps.len()
            invariant
                i < j <= fps@.len(),
                forall|b: int| i < b < j ==> fps@[i as int] != fps@[b],
            decreases fps@.len() - j,
        {
            if fps[i] == fps[j] {
                return false;
            }
            j = j + 1;
        }
        i = i + 1;
    }
    true
}

impl Catalog {
    #[verifier::type_invariant]
    spec fn inv(self) -> bool {
        &&& catalog_good()
        &&& self.schemas@.len() == 16
        &&& forall|i: int| 0 <= i < 16 ==> (#[trigger] self.schemas@[i])@ == schema_text(kinds()[i])
        &&& self.legacy_register@ == schemas::LEGACY_REGISTER_SCHEMA@
        &&& self.legacy_expose@ == schemas::LEGACY_EXPOSE_FUNCTION_SCHEMA@
    }

    /// Parses the schemas of the control plane.
    pub fn build() -> (r: Option<Catalog>)
        ensures
            r is Some <==> catalog_good(),
    {
        let all: Vec<Kind> = all_kinds();
        let mut parsed: Vec<Schema> = Vec::new();
        let mut fps: Vec<u64> = Vec::new();
        let mut i: usize = 0;
        while i < all.len()
            invariant
                i <= 16,
                all@ == kinds(),
                kinds().len() == 16,
                parsed@.len() == i,
                fps@.len() == i,
                forall|j: int|
                    0 <= j < i ==> {
                        &&& (#[trigger] parsed@[j])@ == schema_text(kinds()[j])
                        &&& good_schema(schema_text(kinds()[j]), kind_shape(kinds()[j]))
                        &&& fps@[j] as nat == kind_fp(kinds()[j])
                    },
            decreases 16 - i,
        {
            let ghost before = parsed@;
            let ghost fps_before = fps@;
            match load(schema_json(all[i]), &expected_shape(all[i])) {
                Some(schema) => {
                    fps.push(avro::fingerprint(&schema));
                    parsed.push(schema);
                    assert(forall|j: int|
                        0 <= j < i ==> parsed@[j] == before[j] && fps@[j]
                            == #[trigger] fps_before[j]);
                },
                None => {
                    assert(!good_schema(
                        schema_text(kinds()[i as int]),
                        kind_shape(kinds()[i as int]),
                    ));
                    return None;
                },
            }
            i = i + 1;
        }
        let legacy_register: Schema = match load(
            schemas::LEGACY_REGISTER_SCHEMA,
            &LegacyRegister::expected_shape(),
        ) {
            Some(schema) => schema,
            None => {
                return None;
            },
        };
        let legacy_expose: Schema = match load(
            schemas::LEGACY_EXPOSE_FUNCTION_SCHEMA,
            &LegacyExposeFunction::expected_shape(),
        ) {
            Some(schema) => schema,
            None => {
                return None;
            },
        };
        fps.push(avro::fingerprint(&legacy_register));
        fps.push(avro::fingerprint(&legacy_expose));
        proof {
            assert forall|kind: Kind| good_schema(#[trigger] schema_text(kind), kind_shape(kind)) by {
                lemma_kind_index(kind);
                assert(parsed@[kind_index(kind)]@ == schema_text(kind));
            }
            assert forall|kind: Kind| #[trigger] kind_fp(kind) == fps@[kind_index(kind)] by {
                lemma_kind_index(kind);
                assert(parsed@[kind_index(kind)]@ == schema_text(kind));
            }
            lemma_kind_index(Kind::Register);
        }
        if !all_differ(&fps) {
            proof {
                let (a, b) = choose|a: int, b: int| 0 <= a < b < fps@.len() && fps@[a] == fps@[b];
                if b < 16 {
                    assert(kind_index(kinds()[a]) == a && kind_index(kinds()[b]) == b);
                    assert(kind_fp(kinds()[a]) == kind_fp(kinds()[b]));
                } else if a < 16 {
                    assert(kind_index(kinds()[a]) == a);
                    assert(kind_fp(kinds()[a]) == fps@[b]);
                }
            }
            return None;
        }
        proof {
            assert forall|a: Kind, b: Kind| #[trigger] kind_fp(a) == #[trigger] kind_fp(b) implies a
                == b by {
                lemma_kind_index(a);
                lemma_kind_index(b);
                let i = kind_index(a);
                let j = kind_index(b);
                assert(fps@[i] == fps@[j]);
            }
            assert forall|a: Kind| legacy_fp(Kind::Register) != Some(#[trigger] kind_fp(a)) by {
                lemma_kind_index(a);
                assert(fps@[kind_index(a)] != fps@[16]);
            }
            assert forall|a: Kind| legacy_fp(Kind::ExposeFunction) != Some(#[trigger] kind_fp(a)) by {
                lemma_kind_index(a);
                assert(fps@[kind_index(a)] != fps@[17]);
            }
            assert(fps@[16] != fps@[17]);
        }
        Some(Catalog { schemas: parsed, legacy_register, legacy_expose })
    }

    /// The schema of a kind.
    pub fn schema(&self, kind: Kind) -> (r: &Schema)
        ensures
            r@ == schema_text(kind),
            catalog_good(),
    {
        proof {
            use_type_invariant(self);
            lemma_kind_index(kind);
        }
        &self.schemas[index_of(kind)]
    }

    /// The fingerprint of a kind.
    pub fn fp(&self, kind: Kind) -> (r: Fingerprint)
        ensures
            r as nat == kind_fp(kind),
            catalog_good(),
    {
        avro::fingerprint(self.schema(kind))
    }

    /// The kind that a fingerprint announces.
    pub fn kind_of(&self, fp: Fingerprint) -> (r: Option<Kind>)
        ensures
            match r {
                Some(kind) => forall|k: Kind| #[trigger] announces(fp as nat, k) <==> k == kind,
                None => forall|k: Kind| !#[trigger] announces(fp as nat, k),
            },
            r matches Some(kind) ==> announces(fp as nat, kind),
    {
        proof {
            use_type_invariant(self);
        }
        let all: Vec<Kind> = all_kinds();
        if fp == avro::fingerprint(&self.legacy_register) {
            assert(announces(fp as nat, Kind::Register));
            assert forall|k: Kind| #[trigger] announces(fp as nat, k) implies k == Kind::Register by {
                assert(kind_fp(k) != fp);
            }
            return Some(Kind::Register);
        }
        if fp == avro::fingerprint(&self.legacy_expose) {
            assert(announces(fp as nat, Kind::ExposeFunction));
            assert forall|k: Kind| #[trigger] announces(fp as nat, k) implies k
                == Kind::ExposeFunction by {
                assert(kind_fp(k) != fp);
            }
            return Some(Kind::ExposeFunction);
        }
        let mut i: usize = 0;
        while i < all.len()
            invariant
                i <= 16,
                all@ == kinds(),
                kinds().len() == 16,
                catalog_good(),
                legacy_fp(Kind::Register) != Some(fp as nat),
                legacy_fp(Kind::ExposeFunction) != Some(fp as nat),
                forall|j: int| 0 <= j < i ==> kind_fp(#[trigger] kinds()[j]) != fp,
            decreases 16 - i,
        {
            if self.fp(all[i]) == fp {
                let kind: Kind = all[i];
                assert forall|k: Kind| #[trigger] announces(fp as nat, k) <==> k == kind by {
                    if announces(fp as nat, k) {
                        assert(kind_fp(k) == kind_fp(kind));
                    }
                }
                return Some(kind);
            }
            i = i + 1;
        }
        assert forall|k: Kind| !#[trigger] announces(fp as nat, k) by {
            lemma_kind_index(k);
            assert(kind_fp(kinds()[kind_index(k)]) != fp);
        }
        None
    }
}

/// The catalog tells every kind by its fingerprint, the one it has and the one it had.
pub proof fn law_kinds_told_apart(kind: Kind, found: Option<Kind>, fp: u64)
    requires
        announces(fp as nat, kind),
        match found {
            Some(f) => forall|k: Kind| #[trigger] announces(fp as nat, k) <==> k == f,
            None => forall|k: Kind| !#[trigger] announces(fp as nat, k),
        },
    ensures
        found == Some(kind),
{
}

// ---- frames --------------------------------------------------------------------------------

/// Why a frame does not hold the record that was looked for.
#[derive(Debug)]
pub enum ProtoError {
    /// The body is not Avro of the record's schema.
    Avro(AvroError),
    /// The record's fields are not among those of the body.
    Fields,
    /// The fingerprint announces no kind.
    UnknownFingerprint,
    /// The kind is not a reply.
    NotRoutable(Kind),
}

impl ProtoError {
    /// The error in words.
    pub open spec fn text(self) -> Seq<char> {
        match self {
            ProtoError::Avro(e) => e.text(),
            ProtoError::Fields => "record fields do not match"@,
            ProtoError::UnknownFingerprint => "unknown frame fingerprint"@,
            ProtoError::NotRoutable(kind) => "frame kind "@ + kind_text(kind)
                + " is not a routable reply"@,
        }
    }

    /// The error in words.
    pub fn message(&self) -> (r: String)
        ensures
            r@ == self.text(),
    {
        match self {
            ProtoError::Avro(e) => e.message(),
            ProtoError::Fields => "record fields do not match".to_owned(),
            ProtoError::UnknownFingerprint => "unknown frame fingerprint".to_owned(),
            ProtoError::NotRoutable(kind) => {
                let mut s: String = "frame kind ".to_owned();
                s.append(kind_name(*kind));
                s.append(" is not a routable reply");
                s
            },
        }
    }
}

/// The frame of a record: its kind's fingerprint, and the record as the Avro library writes it.
pub open spec fn frame_holds(f: FrameView, kind: Kind, fields: RecordView) -> bool {
    &&& f.flags == 0
    &&& f.schema_fp as nat == kind_fp(kind)
    &&& avro::avro_written(schema_text(kind), fields) == Some(f.body)
}

/// Puts a record into a frame.
pub fn to_frame<T: Message>(catalog: &Catalog, kind: Kind, msg: &T) -> (r: Result<Frame, AvroError>)
    ensures
        match r {
            Ok(f) => frame_holds(f@, kind, msg.fields()),
            Err(AvroError::Rejected(_)) => avro::avro_written(schema_text(kind), msg.fields())
                is None,
            Err(_) => false,
        },
        avro::typed(msg.fields(), kind_shape(kind)) ==> r is Ok,
        avro::conforms(msg.fields(), kind_shape(kind)) ==> r is Ok && avro::avro_read(
            schema_text(kind),
            r->Ok_0.body@,
        ) == Some(msg.fields()),
{
    proof {
        use_type_invariant(catalog);
        lemma_kind_flat(kind);
    }
    let schema: &Schema = catalog.schema(kind);
    assert(good_schema(schema_text(kind), kind_shape(kind)));
    let body: Vec<u8> = match avro::encode(schema, msg.to_record()) {
        Ok(body) => body,
        Err(e) => {
            return Err(e);
        },
    };
    Ok(Frame::new(catalog.fp(kind), body))
}

/// What reading a body as a record of some schema gives: the record's fields, by their names.
/// Fields that the record does not have are passed over.
pub open spec fn read_as<T: Message>(json: Seq<char>, body: Seq<u8>, r: Option<T>) -> bool {
    match avro::avro_read(json, body) {
        Some(record) => match r {
            Some(m) => avro::projected(record, T::shape()) == m.fields(),
            None => !avro::typed(avro::projected(record, T::shape()), T::shape()),
        },
        None => r is None,
    }
}

fn read<T: Message>(schema: &Schema, body: &Vec<u8>) -> (r: Result<T, ProtoError>)
    requires
        schema.flat(),
    ensures
        read_as::<T>(schema@, body@, r.ok()),
        r matches Err(e) ==> e is Avro || e is Fields,
{
    match avro::decode(schema, body.as_slice()) {
        Ok(record) => match T::from_record(&record) {
            Some(m) => {
                proof {
                    m.lemma_typed();
                }
                Ok(m)
            },
            None => match T::from_record(&avro::project(&record, &T::expected_shape())) {
                Some(m) => Ok(m),
                None => Err(ProtoError::Fields),
            },
        },
        Err(e) => Err(ProtoError::Avro(e)),
    }
}

/// Takes a record of a kind out of a frame, whatever the frame's fingerprint says.
pub fn from_frame<T: Message>(catalog: &Catalog, kind: Kind, frame: &Frame) -> (r: Result<T, ProtoError>)
    ensures
        read_as::<T>(schema_text(kind), frame.body@, r.ok()),
{
    proof {
        use_type_invariant(catalog);
        lemma_kind_flat(kind);
        assert(good_schema(schema_text(kind), kind_shape(kind)));
    }
    read::<T>(catalog.schema(kind), &frame.body)
}

/// A record that was put into a frame comes out of it as it was.
pub proof fn law_frame_roundtrip<T: Message>(kind: Kind, msg: T, body: Seq<u8>, back: Option<T>)
    requires
        T::shape() == kind_shape(kind),
        avro::sized(msg.fields()),
        avro::conforms(msg.fields(), kind_shape(kind)) ==> avro::avro_read(schema_text(kind), body)
            == Some(msg.fields()),
        read_as::<T>(schema_text(kind), body, back),
    ensures
        back is Some,
        back->Some_0.fields() == msg.fields(),
{
    msg.lemma_typed();
}

/// A frame that holds a record arrives as it was sent, is told by its fingerprint, and gives the
/// record back to who reads it. Its body's length must fit the four bytes of its field.
pub proof fn law_frame_on_wire<T: Message>(kind: Kind, msg: T, f: FrameView)
    requires
        catalog_good(),
        T::shape() == kind_shape(kind),
        frame_holds(f, kind, msg.fields()),
        avro::avro_read(schema_text(kind), f.body) == Some(msg.fields()),
        f.body.len() <= u32::MAX,
    ensures
        frame::parse_frame(f.wire()) == Ok::<FrameView, FrameError>(f),
        forall|k: Kind| #[trigger] announces(f.schema_fp as nat, k) <==> k == kind,
        forall|back: Option<T>| #[trigger]
            read_as(schema_text(kind), f.body, back) ==> back is Some && back->Some_0.fields()
                == msg.fields(),
{
    frame::law_decode_of_encode(f, Seq::empty());
    msg.lemma_typed();
    assert forall|k: Kind| #[trigger] announces(f.schema_fp as nat, k) <==> k == kind by {
        if announces(f.schema_fp as nat, k) {
            assert(kind_fp(k) == kind_fp(kind) || legacy_fp(k) == Some(kind_fp(kind)));
        }
    }
}

// ---- records of older connectors -----------------------------------------------------------

impl LegacyRegister {
    /// The record in its present form, from a connector that does not say its process.
    pub fn upgrade(self) -> (r: Register)
        ensures
            r.correlation_id == self.correlation_id,
            r.app_name == self.app_name,
            r.nonce == self.nonce,
            r.reply_segment == self.reply_segment,
            r.heartbeat_ms == self.heartbeat_ms,
            r.pid == 0,
    {
        Register {
            correlation_id: self.correlation_id,
            app_name: self.app_name,
            nonce: self.nonce,
            reply_segment: self.reply_segment,
            heartbeat_ms: self.heartbeat_ms,
            pid: 0,
        }
    }
}

impl Register {
    /// The record as older connectors wrote it.
    pub open spec fn legacy(self) -> LegacyRegister {
        LegacyRegister {
            correlation_id: self.correlation_id,
            app_name: self.app_name,
            nonce: self.nonce,
            reply_segment: self.reply_segment,
            heartbeat_ms: self.heartbeat_ms,
        }
    }
}

impl LegacyExposeFunction {
    /// The record in its present form, from a connector that asks for the default arena.
    pub fn upgrade(self) -> (r: ExposeFunction)
        ensures
            r.correlation_id == self.correlation_id,
            r.client_id == self.client_id,
            r.fn_name == self.fn_name,
            r.req_schema_json == self.req_schema_json,
            r.resp_schema_json == self.resp_schema_json,
            r.access_key == self.access_key,
            r.req_arena_cap == 0,
    {
        ExposeFunction {
            correlation_id: self.correlation_id,
            client_id: self.client_id,
            fn_name: self.fn_name,
            req_schema_json: self.req_schema_json,
            resp_schema_json: self.resp_schema_json,
            access_key: self.access_key,
            req_arena_cap: 0,
        }
    }
}

impl ExposeFunction {
    /// The record as older connectors wrote it.
    pub open spec fn legacy(self) -> LegacyExposeFunction {
        LegacyExposeFunction {
            correlation_id: self.correlation_id,
            client_id: self.client_id,
            fn_name: self.fn_name,
            req_schema_json: self.req_schema_json,
            resp_schema_json: self.resp_schema_json,
            access_key: self.access_key,
        }
    }
}

/// What a frame holds as a `Register`: a frame of an older connector is read with the schema of
/// its time, and the process is then not known.
pub open spec fn register_in(f: FrameView, r: Option<Register>) -> bool {
    if legacy_fp(Kind::Register) == Some(f.schema_fp as nat) {
        &&& read_as::<LegacyRegister>(
            schemas::LEGACY_REGISTER_SCHEMA@,
            f.body,
            match r {
                Some(m) => Some(m.legacy()),
                None => None,
            },
        )
        &&& r matches Some(m) ==> m.pid == 0
    } else {
        read_as::<Register>(schema_text(Kind::Register), f.body, r)
    }
}

/// What a frame holds as an `ExposeFunction`: a frame of an older connector is read with the
/// schema of its time, and asks for the default arena.
pub open spec fn expose_in(f: FrameView, r: Option<ExposeFunction>) -> bool {
    if legacy_fp(Kind::ExposeFunction) == Some(f.schema_fp as nat) {
        &&& read_as::<LegacyExposeFunction>(
            schemas::LEGACY_EXPOSE_FUNCTION_SCHEMA@,
            f.body,
            match r {
                Some(m) => Some(m.legacy()),
                None => None,
            },
        )
        &&& r matches Some(m) ==> m.req_arena_cap == 0
    } else {
        read_as::<ExposeFunction>(schema_text(Kind::ExposeFunction), f.body, r)
    }
}

/// Takes a `Register` out of a frame of a present or an older connector.
pub fn register_from_frame(catalog: &Catalog, frame: &Frame) -> (r: Result<Register, ProtoError>)
    ensures
        register_in(frame@, r.ok()),
{
    proof {
        use_type_invariant(catalog);
        lemma_kind_flat(Kind::Register);
    }
    if frame.schema_fp == avro::fingerprint(&catalog.legacy_register) {
        match read::<LegacyRegister>(&catalog.legacy_register, &frame.body) {
            Ok(m) => Ok(m.upgrade()),
            Err(e) => Err(e),
        }
    } else {
        from_frame::<Register>(catalog, Kind::Register, frame)
    }
}

/// Takes an `ExposeFunction` out of a frame of a present or an older connector.
pub fn expose_from_frame(catalog: &Catalog, frame: &Frame) -> (r: Result<ExposeFunction, ProtoError>)
    ensures
        expose_in(frame@, r.ok()),
{
    proof {
        use_type_invariant(catalog);
        lemma_kind_flat(Kind::ExposeFunction);
    }
    if frame.schema_fp == avro::fingerprint(&catalog.legacy_expose) {
        match read::<LegacyExposeFunction>(&catalog.legacy_expose, &frame.body) {
            Ok(m) => Ok(m.upgrade()),
            Err(e) => Err(e),
        }
    } else {
        from_frame::<ExposeFunction>(catalog, Kind::ExposeFunction, frame)
    }
}

// ---- replies -------------------------------------------------------------------------------

/// The kinds that answer a request.
pub open spec fn is_reply(kind: Kind) -> bool {
    match kind {
        Kind::RegisterReply
        | Kind::PublishReply
        | Kind::ChannelList
        | Kind::SubscribeReply
        | Kind::ExposeReply
        | Kind::LookupReply
        | Kind::RpcResponse => true,
        _ => false,
    }
}

fn answers(kind: Kind) -> (r: bool)
    ensures
        r == is_reply(kind),
{
    match kind {
        Kind::RegisterReply => true,
        Kind::PublishReply => true,
        Kind::ChannelList => true,
        Kind::SubscribeReply => true,
        Kind::ExposeReply => true,
        Kind::LookupReply => true,
        Kind::RpcResponse => true,
        _ => false,
    }
}

/// The correlation id of a reply that was read from a body, `None` where the body holds no such
/// reply.
pub open spec fn reply_correlation(kind: Kind, body: Seq<u8>) -> Option<i64> {
    match avro::avro_read(schema_text(kind), body) {
        Some(record) => {
            let reply = avro::projected(record, kind_shape(kind));
            if avro::typed(reply, kind_shape(kind)) {
                match reply.fields[0].1 {
                    ScalarView::Long(c) => Some(c),
                    _ => None,
                }
            } else {
                None
            }
        },
        None => None,
    }
}

/// A frame holds a reply with this correlation id.
pub open spec fn routes(f: FrameView, corr: i64) -> bool {
    exists|kind: Kind| #[trigger]
        announces(f.schema_fp as nat, kind) && is_reply(kind) && reply_correlation(kind, f.body)
            == Some(corr)
}

/// A frame is a reply to at most one call.
pub proof fn law_one_correlation(f: FrameView, a: i64, b: i64)
    requires
        catalog_good(),
        routes(f, a),
        routes(f, b),
    ensures
        a == b,
{
    let j = choose|kind: Kind| #[trigger]
        announces(f.schema_fp as nat, kind) && is_reply(kind) && reply_correlation(kind, f.body)
            == Some(a);
    let k = choose|kind: Kind| #[trigger]
        announces(f.schema_fp as nat, kind) && is_reply(kind) && reply_correlation(kind, f.body)
            == Some(b);
    assert(kind_fp(j) == kind_fp(k));
}

/// A frame that holds a reply is given to the call that the reply's first field names.
pub proof fn law_reply_routes(f: FrameView, kind: Kind, fields: RecordView, corr: i64)
    requires
        catalog_good(),
        is_reply(kind),
        frame_holds(f, kind, fields),
        avro::avro_read(schema_text(kind), f.body) == Some(fields),
        avro::typed(fields, kind_shape(kind)),
        fields.fields[0].1 == ScalarView::Long(corr),
    ensures
        forall|c: i64| #[trigger] routes(f, c) <==> c == corr,
{
    assert(announces(f.schema_fp as nat, kind));
    assert(routes(f, corr));
    assert forall|c: i64| #[trigger] routes(f, c) implies c == corr by {
        law_one_correlation(f, c, corr);
    }
}

fn read_correlation(catalog: &Catalog, kind: Kind, frame: &Frame) -> (r: Result<i64, ProtoError>)
    requires
        is_reply(kind),
    ensures
        r.ok() == reply_correlation(kind, frame.body@),
        r matches Err(e) ==> e is Avro || e is Fields,
{
    proof {
        use_type_invariant(catalog);
        lemma_kind_flat(kind);
        assert(good_schema(schema_text(kind), kind_shape(kind)));
    }
    let schema: &Schema = catalog.schema(kind);
    match kind {
        Kind::RegisterReply => match read::<RegisterReply>(schema, &frame.body) {
            Ok(m) => {
                proof {
                    m.lemma_typed();
                }
                Ok(m.correlation_id)
            },
            Err(e) => Err(e),
        },
        Kind::PublishReply => match read::<PublishReply>(schema, &frame.body) {
            Ok(m) => {
                proof {
                    m.lemma_typed();
                }
                Ok(m.correlation_id)
            },
            Err(e) => Err(e),
        },
        Kind::ChannelList => match read::<ChannelList>(schema, &frame.body) {
            Ok(m) => {
                proof {
                    m.lemma_typed();
                }
                Ok(m.correlation_id)
            },
            Err(e) => Err(e),
        },
        Kind::SubscribeReply => match read::<SubscribeReply>(schema, &frame.body) {
            Ok(m) => {
                proof {
                    m.lemma_typed();
                }
                Ok(m.correlation_id)
            },
            Err(e) => Err(e),
        },
        Kind::ExposeReply => match read::<ExposeReply>(schema, &frame.body) {
            Ok(m) => {
                proof {
                    m.lemma_typed();
                }
                Ok(m.correlation_id)
            },
            Err(e) => Err(e),
        },
        Kind::LookupReply => match read::<LookupReply>(schema, &frame.body) {
            Ok(m) => {
                proof {
                    m.lemma_typed();
                }
                Ok(m.correlation_id)
            },
            Err(e) => Err(e),
        },
        _ => match read::<RpcResponse>(schema, &frame.body) {
            Ok(m) => {
                proof {
                    m.lemma_typed();
                }
                Ok(m.correlation_id)
            },
            Err(e) => Err(e),
        },
    }
}

/// The correlation id by which the reply in a frame is given to who waits for it.
pub fn correlation_id(catalog: &Catalog, frame: &Frame) -> (r: Result<i64, ProtoError>)
    ensures
        match r {
            Ok(c) => forall|corr: i64| #[trigger] routes(frame@, corr) <==> corr == c,
            Err(_) => forall|corr: i64| !#[trigger] routes(frame@, corr),
        },
        match r {
            Ok(_) => true,
            Err(ProtoError::UnknownFingerprint) => forall|kind: Kind|
                #![trigger announces(frame.schema_fp as nat, kind)]
                !announces(frame.schema_fp as nat, kind),
            Err(ProtoError::NotRoutable(kind)) => announces(frame.schema_fp as nat, kind)
                && !is_reply(kind),
            Err(_) => exists|kind: Kind|
                #![trigger announces(frame.schema_fp as nat, kind)]
                announces(frame.schema_fp as nat, kind) && is_reply(kind) && reply_correlation(
                    kind,
                    frame.body@,
                ) is None,
        },
{
    let kind: Kind = match catalog.kind_of(frame.schema_fp) {
        Some(kind) => kind,
        None => {
            return Err(ProtoError::UnknownFingerprint);
        },
    };
    assert(announces(frame.schema_fp as nat, kind));
    if !answers(kind) {
        return Err(ProtoError::NotRoutable(kind));
    }
    let r: Result<i64, ProtoError> = read_correlation(catalog, kind, frame);
    proof {
        assert(announces(frame@.schema_fp as nat, kind));
        assert forall|corr: i64| #[trigger] routes(frame@, corr) implies r == Ok::<i64, ProtoError>(
            corr,
        ) by {
            let k = choose|k: Kind| #[trigger]
                announces(frame@.schema_fp as nat, k) && is_reply(k) && reply_correlation(
                    k,
                    frame@.body,
                ) == Some(corr);
            assert(k == kind);
        }
    }
    r
}

} // verus!
