//! Avro: schema texts, their fingerprints, and records as plain values.
//!
//! Everything on the bus is Avro binary. Two sides of an interface agree if and only if their
//! schemas have the same CRC-64-AVRO Rabin fingerprint. The Avro library parses schemas, hashes
//! their canonical form and codes data; here stand the values that it is given and that it gives
//! back, as far as records of plain fields and lists of such records go.
use std::collections::HashMap;

use apache_avro::rabin::Rabin;
use apache_avro::schema::RecordField;
use apache_avro::types::Value as Avro;
use apache_avro::Schema as AvroSchema;
use apache_avro::{from_avro_datum, to_avro_datum};
use vstd::prelude::*;

use crate::bytes;
use crate::json;
use crate::outline;
use crate::text;

verus! {

broadcast use vstd::std_specs::hash::group_hash_axioms;

/// A schema's CRC-64-AVRO Rabin fingerprint.
pub type Fingerprint = u64;

// ---- values --------------------------------------------------------------------------------

/// The value of a field. `List` stands for a list of rows, which the record holds; `Null` for a
/// value of any other type.
#[derive(Debug)]
pub enum Scalar {
    Null,
    Boolean(bool),
    Int(i32),
    Long(i64),
    Bytes(Vec<u8>),
    Text(String),
    List,
}

#[verifier::ext_equal]
pub ghost enum ScalarView {
    Null,
    Boolean(bool),
    Int(i32),
    Long(i64),
    Bytes(Seq<u8>),
    Text(Seq<char>),
    List,
}

impl View for Scalar {
    type V = ScalarView;

    open spec fn view(&self) -> ScalarView {
        match self {
            Scalar::Null => ScalarView::Null,
            Scalar::Boolean(b) => ScalarView::Boolean(*b),
            Scalar::Int(i) => ScalarView::Int(*i),
            Scalar::Long(l) => ScalarView::Long(*l),
            Scalar::Bytes(b) => ScalarView::Bytes(b@),
            Scalar::Text(t) => ScalarView::Text(t@),
            Scalar::List => ScalarView::List,
        }
    }
}

/// Named values, in the order of the schema.
pub open spec fn row_view(row: Seq<(String, Scalar)>) -> Seq<(Seq<char>, ScalarView)> {
    row.map_values(|p: (String, Scalar)| (p.0@, p.1@))
}

pub open spec fn rows_view(rows: Seq<Vec<(String, Scalar)>>) -> Seq<Seq<(Seq<char>, ScalarView)>> {
    rows.map_values(|r: Vec<(String, Scalar)>| row_view(r@))
}

/// A record: its fields in the order of the schema and, where one of them is a list of records,
/// the rows of that list.
#[derive(Debug)]
pub struct Record {
    pub fields: Vec<(String, Scalar)>,
    pub rows: Vec<Vec<(String, Scalar)>>,
}

#[verifier::ext_equal]
pub ghost struct RecordView {
    pub fields: Seq<(Seq<char>, ScalarView)>,
    pub rows: Seq<Seq<(Seq<char>, ScalarView)>>,
}

pub open spec fn record_of(
    fields: Seq<(String, Scalar)>,
    rows: Seq<Vec<(String, Scalar)>>,
) -> RecordView {
    RecordView { fields: row_view(fields), rows: rows_view(rows) }
}

impl View for Record {
    type V = RecordView;

    open spec fn view(&self) -> RecordView {
        record_of(self.fields@, self.rows@)
    }
}

// ---- shapes --------------------------------------------------------------------------------

/// The type of a field, as far as this crate reads it. `List` is an array.
#[derive(Clone, Copy, Debug, PartialEq, Eq, Structural)]
pub enum FieldType {
    Boolean,
    Int,
    Long,
    Bytes,
    Text,
    List,
    Other,
}

/// The fields of a record schema, and those of the records that its arrays hold.
#[derive(Debug)]
pub struct Shape {
    pub fields: Vec<(String, FieldType)>,
    pub row: Vec<(String, FieldType)>,
}

#[verifier::ext_equal]
pub ghost struct ShapeView {
    pub fields: Seq<(Seq<char>, FieldType)>,
    pub row: Seq<(Seq<char>, FieldType)>,
}

pub open spec fn types_view(s: Seq<(String, FieldType)>) -> Seq<(Seq<char>, FieldType)> {
    s.map_values(|p: (String, FieldType)| (p.0@, p.1))
}

pub open spec fn shape_view(
    fields: Seq<(String, FieldType)>,
    row: Seq<(String, FieldType)>,
) -> ShapeView {
    ShapeView { fields: types_view(fields), row: types_view(row) }
}

impl View for Shape {
    type V = ShapeView;

    open spec fn view(&self) -> ShapeView {
        shape_view(self.fields@, self.row@)
    }
}

impl ShapeView {
    /// The position of a field that is an array.
    pub open spec fn list_at(self, i: int) -> bool {
        0 <= i < self.fields.len() && self.fields[i].1 == FieldType::List
    }

    /// A record whose fields this crate can read and write: fields of plain types and at most
    /// one list of records of plain fields.
    pub open spec fn flat(self) -> bool {
        &&& self.fields.len() > 0
        &&& forall|i: int| 0 <= i < self.fields.len() ==> (#[trigger] self.fields[i]).1
            != FieldType::Other
        &&& forall|i: int, j: int| #[trigger]
            self.list_at(i) && #[trigger] self.list_at(j) ==> i == j
        &&& (exists|i: int| #[trigger] self.list_at(i)) ==> self.row.len() > 0
        &&& forall|i: int|
            0 <= i < self.row.len() ==> ((#[trigger] self.row[i]).1 == FieldType::Boolean
                || self.row[i].1 == FieldType::Long || self.row[i].1 == FieldType::Text)
    }
}

/// The longest run of bytes, and the longest text in UTF-8, that the Avro library reads.
pub const MAX_BYTES: usize = 0x2000_0000;

/// The longest list of rows that the Avro library is sure to read: it holds the memory of the
/// list to the same limit, and a row of it takes no more than 128 bytes.
pub const MAX_ROWS: usize = 0x40_0000;

/// A value of the given type.
pub open spec fn has_type(x: ScalarView, t: FieldType) -> bool {
    match t {
        FieldType::Boolean => x is Boolean,
        FieldType::Int => x is Int,
        FieldType::Long => x is Long,
        FieldType::Bytes => x is Bytes,
        FieldType::Text => x is Text,
        FieldType::List => x is List,
        FieldType::Other => false,
    }
}

/// Values of the given names and types.
pub open spec fn row_typed(
    row: Seq<(Seq<char>, ScalarView)>,
    types: Seq<(Seq<char>, FieldType)>,
) -> bool {
    &&& row.len() == types.len()
    &&& forall|i: int|
        0 <= i < row.len() ==> (#[trigger] row[i]).0 == types[i].0 && has_type(row[i].1, types[i].1)
}

/// A record of the given shape.
pub open spec fn typed(r: RecordView, shape: ShapeView) -> bool {
    &&& row_typed(r.fields, shape.fields)
    &&& forall|i: int| 0 <= i < r.rows.len() ==> row_typed(#[trigger] r.rows[i], shape.row)
    &&& (forall|i: int| !#[trigger] shape.list_at(i)) ==> r.rows.len() == 0
}

/// The field with a name.
pub open spec fn field_named(
    fields: Seq<(Seq<char>, ScalarView)>,
    name: Seq<char>,
) -> Seq<(Seq<char>, ScalarView)>
    decreases fields.len(),
{
    if fields.len() == 0 {
        Seq::empty()
    } else if fields[0].0 == name {
        seq![fields[0]]
    } else {
        field_named(fields.skip(1), name)
    }
}

/// The fields of the given names, in their order.
pub open spec fn fields_named(
    fields: Seq<(Seq<char>, ScalarView)>,
    types: Seq<(Seq<char>, FieldType)>,
) -> Seq<(Seq<char>, ScalarView)>
    decreases types.len(),
{
    if types.len() == 0 {
        Seq::empty()
    } else {
        fields_named(fields, types.drop_last()) + field_named(fields, types.last().0)
    }
}

/// What a record has of a shape: all of it where it is of the shape, and else its fields with
/// the names of the shape, with the rows where the shape has a list.
pub open spec fn projected(r: RecordView, shape: ShapeView) -> RecordView {
    if typed(r, shape) {
        r
    } else {
        RecordView {
            fields: fields_named(r.fields, shape.fields),
            rows: if exists|i: int| shape.list_at(i) {
                r.rows
            } else {
                Seq::empty()
            },
        }
    }
}

/// A value of a size that the Avro library reads.
pub open spec fn small(x: ScalarView) -> bool {
    match x {
        ScalarView::Bytes(b) => b.len() <= MAX_BYTES,
        ScalarView::Text(s) => vstd::utf8::encode_utf8(s).len() <= MAX_BYTES,
        _ => true,
    }
}

pub open spec fn row_sized(row: Seq<(Seq<char>, ScalarView)>) -> bool {
    forall|i: int| 0 <= i < row.len() ==> small((#[trigger] row[i]).1)
}

/// A record of a size that the Avro library reads.
pub open spec fn sized(r: RecordView) -> bool {
    &&& row_sized(r.fields)
    &&& r.rows.len() <= MAX_ROWS
    &&& forall|i: int| 0 <= i < r.rows.len() ==> row_sized(#[trigger] r.rows[i])
}

/// A record of the given shape, of a size that the Avro library reads.
pub open spec fn conforms(r: RecordView, shape: ShapeView) -> bool {
    typed(r, shape) && sized(r)
}

/// The name of the list among a record's fields, as the writer takes it.
pub open spec fn list_name(fields: Seq<(Seq<char>, ScalarView)>) -> Option<Seq<char>>
    decreases fields.len(),
{
    if fields.len() == 0 {
        None
    } else if fields[0].1 is List {
        Some(fields[0].0)
    } else {
        list_name(fields.drop_first())
    }
}

// ---- what the Avro library computes --------------------------------------------------------
//
// The names below stand for what the library computes with its settings as they are. It has a
// few that a process may set once, such as its limit on what it allocates; nothing here does.

/// The error of the Avro library.
#[verifier::external_type_specification]
#[verifier::external_body]
pub struct ExAvroError(apache_avro::Error);

/// What `apache_avro::Schema::parse_str` makes of a text: the fields of the record that it
/// describes with those of the records in its arrays, no fields where it describes something
/// else, and `None` where it is no schema.
pub uninterp spec fn avro_shape(json: Seq<char>) -> Option<ShapeView>;

/// The digest that `apache_avro::Schema::fingerprint` with `Rabin` gives of the schema in a
/// text, `None` where the text is no schema.
pub uninterp spec fn avro_rabin(json: Seq<char>) -> Option<Seq<u8>>;

/// What `apache_avro::to_avro_datum` writes for a record, resolved against the schema in a text,
/// `None` where the record does not fit the schema.
pub uninterp spec fn avro_written(json: Seq<char>, record: RecordView) -> Option<Seq<u8>>;

/// What `apache_avro::from_avro_datum` reads from some bytes with the schema in a text as the
/// writer's, `None` where the bytes do not begin with such a record.
pub uninterp spec fn avro_read(json: Seq<char>, body: Seq<u8>) -> Option<RecordView>;

/// The text of an error of the Avro library, by its `to_string`. Nothing is claimed of it.
#[verifier::external_body]
fn error_text(e: apache_avro::Error) -> (r: String) {
    e.to_string()
}

/// Parses a schema with `apache_avro::Schema::parse_str` and lists the names and types of its
/// fields. The result is named `avro_shape`; that the names in it differ is what the parser
/// checks. Texts on which the parser would stop with a panic, or would not come to an end, are
/// left out.
#[verifier::external_body]
fn shape_of(json: &str) -> (r: Result<
    (Vec<(String, FieldType)>, Vec<(String, FieldType)>),
    apache_avro::Error,
>)
    requires
        outline::has_canonical_form(json@),
    ensures
        match r {
            Ok(s) => avro_shape(json@) == Some(shape_view(s.0@, s.1@)),
            Err(_) => avro_shape(json@) is None,
        },
{
    let one = |f: RecordField| (f.name, match f.schema {
        AvroSchema::Boolean => FieldType::Boolean,
        AvroSchema::Int => FieldType::Int,
        AvroSchema::Long => FieldType::Long,
        AvroSchema::Bytes => FieldType::Bytes,
        AvroSchema::String => FieldType::Text,
        AvroSchema::Array(_) => FieldType::List,
        _ => FieldType::Other,
    });
    let open = |s| match s { AvroSchema::Record(r) => r.fields, _ => vec![] };
    let all = open(AvroSchema::parse_str(json)?);
    let rows = all.clone().into_iter()
        .flat_map(|f| match f.schema { AvroSchema::Array(a) => open(*a.items), _ => vec![] });
    Ok((all.into_iter().map(one).collect(), rows.map(one).collect()))
}

/// Parses a schema with `apache_avro::Schema::parse_str` and hashes its canonical form with
/// `apache_avro::Schema::fingerprint`. The result is named `avro_rabin`; a Rabin digest has
/// eight bytes, and there is one if and only if the text parses. The text is read as JSON, so
/// the space between its tokens does not matter: the same tokens with one space behind each
/// give the same. The canonical form has no documentation, so the tokens without that of fields
/// and named types give the same too, unless an object that is a default value may have a field
/// of that name.
#[verifier::external_body]
fn rabin_of(json: &str) -> (r: Result<Vec<u8>, apache_avro::Error>)
    requires
        outline::has_canonical_form(json@),
    ensures
        match r {
            Ok(b) => avro_rabin(json@) == Some(b@) && b@.len() == 8,
            Err(_) => avro_rabin(json@) is None,
        },
        r is Ok <==> avro_shape(json@) is Some,
        json::closed_text(json@) ==> match r {
            Ok(b) => avro_rabin(json::spaced(json::tokens(json@))) == Some(b@),
            Err(_) => avro_rabin(json::spaced(json::tokens(json@))) is None,
        },
        json::closed_text(json@) && !outline::has_object_default(json::plain_tokens(json@)) ==> (
        r matches Ok(b) ==> avro_rabin(bare(json@)) == Some(b@)),
{
    Ok(AvroSchema::parse_str(json)?.fingerprint::<Rabin>().bytes)
}

/// Resolves a record against a schema and writes it, with `apache_avro`'s `Value::resolve` and
/// `to_avro_datum`. The result is named `avro_written`. A record of the schema's shape can be
/// written where the schema gives nothing two names and no name twice: the library looks records
/// up by their names, and fields by their names and aliases. What is written of such a record,
/// within the library's limit on what it allocates, `from_avro_datum` reads back.
#[allow(deprecated)]
#[verifier::external_body]
fn write_record(
    json: &str,
    fields: Vec<(String, Scalar)>,
    list: Option<String>,
    rows: Vec<Vec<(String, Scalar)>>,
) -> (r: Result<Vec<u8>, apache_avro::Error>)
    requires
        outline::has_canonical_form(json@),
        avro_shape(json@) matches Some(shape) && shape.flat(),
        match list {
            Some(n) => list_name(row_view(fields@)) == Some(n@),
            None => list_name(row_view(fields@)) is None,
        },
    ensures
        match r {
            Ok(b) => avro_written(json@, record_of(fields@, rows@)) == Some(b@),
            Err(_) => avro_written(json@, record_of(fields@, rows@)) is None,
        },
        outline::plainly_named(json@) && typed(
            record_of(fields@, rows@),
            avro_shape(json@)->Some_0,
        ) ==> r is Ok,
        conforms(record_of(fields@, rows@), avro_shape(json@)->Some_0) ==> (r matches Ok(b)
            ==> avro_read(json@, b@) == Some(record_of(fields@, rows@))),
{
    let schema = AvroSchema::parse_str(json)?;
    let one = |(n, x)| (n, match x {
        Scalar::Boolean(b) => b.into(),
        Scalar::Int(i) => i.into(),
        Scalar::Long(l) => l.into(),
        Scalar::Bytes(b) => b.into(),
        Scalar::Text(t) => t.into(),
        _ => Avro::Null,
    });
    let rows = rows.into_iter().map(|r| Avro::Record(r.into_iter().map(one).collect()));
    let all = fields.into_iter().map(one)
        .chain(list.map(|n| (n, Avro::Array(rows.collect())))).collect();
    to_avro_datum(&schema, Avro::Record(all).resolve(&schema)?)
}

/// Reads the fields of a record with `apache_avro::from_avro_datum`. The result is the fields of
/// what is named `avro_read`.
#[allow(deprecated)]
#[verifier::external_body]
fn read_fields(json: &str, body: &[u8]) -> (r: Result<Vec<(String, Scalar)>, apache_avro::Error>)
    requires
        outline::has_canonical_form(json@),
        avro_shape(json@) matches Some(shape) && shape.flat(),
    ensures
        match r {
            Ok(fields) => avro_read(json@, body@) matches Some(record) && record.fields == row_view(
                fields@,
            ),
            Err(_) => avro_read(json@, body@) is None,
        },
{
    let one = |(n, v)| (n, match v {
        Avro::Boolean(b) => Scalar::Boolean(b),
        Avro::Int(i) => Scalar::Int(i),
        Avro::Long(l) => Scalar::Long(l),
        Avro::Bytes(b) => Scalar::Bytes(b),
        Avro::String(t) => Scalar::Text(t),
        Avro::Array(_) => Scalar::List,
        _ => Scalar::Null,
    });
    let value = from_avro_datum(&AvroSchema::parse_str(json)?, &mut &*body, None)?;
    Ok(match value { Avro::Record(r) => r.into_iter().map(one).collect(), _ => vec![] })
}

/// Reads the rows of a record's list with `apache_avro::from_avro_datum`. The result is the rows
/// of what is named `avro_read`.
#[allow(deprecated)]
#[verifier::external_body]
fn read_rows(json: &str, body: &[u8]) -> (r: Result<Vec<Vec<(String, Scalar)>>, apache_avro::Error>)
    requires
        outline::has_canonical_form(json@),
        avro_shape(json@) matches Some(shape) && shape.flat(),
    ensures
        match r {
            Ok(rows) => avro_read(json@, body@) matches Some(record) && record.rows == rows_view(
                rows@,
            ),
            Err(_) => avro_read(json@, body@) is None,
        },
{
    let one = |(n, v)| (n, match v {
        Avro::Boolean(b) => Scalar::Boolean(b),
        Avro::Long(l) => Scalar::Long(l),
        Avro::String(t) => Scalar::Text(t),
        _ => Scalar::Null,
    });
    let open = |v| match v { Avro::Record(r) => r, _ => vec![] };
    let items = |(_, v)| match v { Avro::Array(t) => t, _ => vec![] };
    let value = from_avro_datum(&AvroSchema::parse_str(json)?, &mut &*body, None)?;
    let rows = open(value).into_iter().flat_map(items);
    Ok(rows.map(|v| open(v).into_iter().map(one).collect()).collect())
}

// ---- schemas -------------------------------------------------------------------------------

/// Why a schema or a record was not accepted.
#[derive(Debug)]
pub enum AvroError {
    /// The schema has no canonical form.
    NoCanonicalForm,
    /// The schema is not a record of plain fields with at most one list of such records.
    NotFlat,
    /// What the Avro library found wrong, in its words.
    Rejected(String),
}

impl AvroError {
    /// The error in words.
    pub open spec fn text(self) -> Seq<char> {
        match self {
            AvroError::NoCanonicalForm => "schema has no canonical form"@,
            AvroError::NotFlat => "schema is not a record of plain fields"@,
            AvroError::Rejected(s) => s@,
        }
    }

    /// The error in words.
    pub fn message(&self) -> (r: String)
        ensures
            r@ == self.text(),
    {
        match self {
            AvroError::NoCanonicalForm => "schema has no canonical form".to_owned(),
            AvroError::NotFlat => "schema is not a record of plain fields".to_owned(),
            AvroError::Rejected(s) => s.clone(),
        }
    }
}

/// The fingerprint of the schema in a text.
pub open spec fn schema_fp(json: Seq<char>) -> nat {
    bytes::le_value(avro_rabin(json)->Some_0)
}

/// The tokens of a text without documentation, with one space behind each.
pub open spec fn bare(json: Seq<char>) -> Seq<char> {
    json::spaced(outline::undocumented(json::tokens(json), 0, Seq::empty()))
}

/// A text that is a schema.
pub open spec fn is_schema(json: Seq<char>) -> bool {
    outline::has_canonical_form(json) && avro_rabin(json) is Some
}

/// A schema that was parsed: its text, its fingerprint and its shape.
#[derive(Debug)]
pub struct Schema {
    json: String,
    fp: Fingerprint,
    shape: Shape,
}

impl View for Schema {
    type V = Seq<char>;

    closed spec fn view(&self) -> Seq<char> {
        self.json@
    }
}

impl Schema {
    #[verifier::type_invariant]
    spec fn inv(self) -> bool {
        &&& is_schema(self.json@)
        &&& self.fp as nat == schema_fp(self.json@)
        &&& avro_shape(self.json@) == Some(self.shape@)
    }

    /// The text of the schema.
    pub fn json(&self) -> (r: &str)
        ensures
            r@ == self@,
    {
        self.json.as_str()
    }
}

/// The fingerprint of a schema.
pub fn fingerprint(schema: &Schema) -> (r: Fingerprint)
    ensures
        is_schema(schema@),
        r as nat == schema_fp(schema@),
{
    proof {
        use_type_invariant(schema);
    }
    schema.fp
}

/// The fingerprint that a text comes to, `None` where it is no schema. It is that of the text's
/// tokens, whatever the space between them, and of those without documentation.
pub open spec fn fingerprinted(json: Seq<char>, fp: Option<Fingerprint>) -> bool {
    let tokens = json::spaced(json::tokens(json));
    &&& match fp {
        Some(fp) => is_schema(json) && fp as nat == schema_fp(json),
        None => !is_schema(json),
    }
    &&& outline::has_canonical_form(json) && json::closed_text(json) ==> match fp {
        Some(fp) => avro_rabin(tokens) is Some && fp as nat == schema_fp(tokens),
        None => avro_rabin(tokens) is None,
    }
    &&& json::closed_text(json) && !outline::has_object_default(json::plain_tokens(json)) ==> (
    fp matches Some(fp) ==> avro_rabin(bare(json)) is Some && fp as nat == schema_fp(bare(json)))
}

/// Space between the tokens of a text neither makes nor breaks a schema, and leaves its
/// fingerprint as it is.
pub proof fn law_space_keeps_fingerprint(
    a: Seq<char>,
    b: Seq<char>,
    fp_a: Option<Fingerprint>,
    fp_b: Option<Fingerprint>,
)
    requires
        json::tokens(a) == json::tokens(b),
        json::closed_text(a),
        json::closed_text(b),
        fingerprinted(a, fp_a),
        fingerprinted(b, fp_b),
    ensures
        fp_a == fp_b,
{
    assert(json::plain_tokens(a) == json::plain_tokens(b));
}

/// Documentation of fields and of types with names leaves the fingerprint of a schema as it is.
pub proof fn law_documentation_keeps_fingerprint(
    a: Seq<char>,
    b: Seq<char>,
    fp_a: Fingerprint,
    fp_b: Fingerprint,
)
    requires
        bare(a) == bare(b),
        json::closed_text(a),
        json::closed_text(b),
        !outline::has_object_default(json::plain_tokens(a)),
        !outline::has_object_default(json::plain_tokens(b)),
        fingerprinted(a, Some(fp_a)),
        fingerprinted(b, Some(fp_b)),
    ensures
        fp_a == fp_b,
{
}

/// Parses a schema and computes its fingerprint.
pub fn parse(json: &str) -> (r: Result<(Schema, Fingerprint), AvroError>)
    ensures
        fingerprinted(
            json@,
            match r {
                Ok((_, fp)) => Some(fp),
                Err(_) => None,
            },
        ),
        match r {
            Ok((schema, fp)) => is_schema(json@) && schema@ == json@ && fp as nat == schema_fp(json@),
            Err(AvroError::NoCanonicalForm) => !outline::has_canonical_form(json@),
            Err(AvroError::NotFlat) => false,
            Err(AvroError::Rejected(_)) => outline::has_canonical_form(json@) && avro_rabin(
                json@,
            ) is None,
        },
{
    if !outline::check_canonical_form(json) {
        return Err(AvroError::NoCanonicalForm);
    }
    let digest: Vec<u8> = match rabin_of(json) {
        Ok(b) => b,
        Err(e) => {
            return Err(AvroError::Rejected(error_text(e)));
        },
    };
    let fp: u64 = bytes::get_le(digest.as_slice(), 0, 8);
    proof {
        assert(digest@.subrange(0, 8) =~= digest@);
    }
    match shape_of(json) {
        Ok((fields, row)) => {
            let schema = Schema { json: json.to_owned(), fp, shape: Shape { fields, row } };
            Ok((schema, fp))
        },
        Err(e) => Err(AvroError::Rejected(error_text(e))),
    }
}

// ---- records -------------------------------------------------------------------------------

fn is_flat(shape: &Shape) -> (r: bool)
    ensures
        r == shape@.flat(),
{
    if shape.fields.len() == 0 {
        return false;
    }
    let mut list: Option<usize> = None;
    let mut i: usize = 0;
    while i < shape.fields.len()
        invariant
            i <= shape.fields@.len(),
            forall|j: int| 0 <= j < i ==> (#[trigger] shape@.fields[j]).1 != FieldType::Other,
            match list {
                Some(k) => k < i && shape@.list_at(k as int) && forall|j: int|
                    j < i && #[trigger] shape@.list_at(j) ==> j == k,
                None => forall|j: int| j < i ==> !#[trigger] shape@.list_at(j),
            },
        decreases shape.fields@.len() - i,
    {
        let t: FieldType = shape.fields[i].1;
        assert(shape@.fields[i as int].1 == t);
        if t == FieldType::Other {
            return false;
        }
        if t == FieldType::List {
            assert(shape@.list_at(i as int));
            if list.is_some() {
                return false;
            }
            list = Some(i);
        }
        i = i + 1;
    }
    if list.is_some() && shape.row.len() == 0 {
        return false;
    }
    let mut i: usize = 0;
    while i < shape.row.len()
        invariant
            i <= shape.row@.len(),
            forall|j: int|
                0 <= j < i ==> ((#[trigger] shape@.row[j]).1 == FieldType::Boolean
                    || shape@.row[j].1 == FieldType::Long || shape@.row[j].1 == FieldType::Text),
        decreases shape.row@.len() - i,
    {
        let t: FieldType = shape.row[i].1;
        assert(shape@.row[i as int].1 == t);
        if t != FieldType::Boolean && t != FieldType::Long && t != FieldType::Text {
            return false;
        }
        i = i + 1;
    }
    true
}

fn find_list(fields: &Vec<(String, Scalar)>) -> (r: Option<String>)
    ensures
        match r {
            Some(n) => list_name(row_view(fields@)) == Some(n@),
            None => list_name(row_view(fields@)) is None,
        },
{
    let ghost all = row_view(fields@);
    let mut i: usize = 0;
    proof {
        assert(all.skip(0) =~= all);
    }
    while i < fields.len()
        invariant
            i <= fields@.len(),
            all == row_view(fields@),
            list_name(all) == list_name(all.skip(i as int)),
        decreases fields@.len() - i,
    {
        assert(all.skip(i as int)[0] == all[i as int]);
        if let Scalar::List = &fields[i].1 {
            return Some(fields[i].0.clone());
        }
        assert(all.skip(i as int).drop_first() =~= all.skip(i + 1));
        i = i + 1;
    }
    None
}

impl Schema {
    /// Whether records of this schema can be coded here.
    pub open spec fn flat(&self) -> bool {
        avro_shape(self@) matches Some(shape) && shape.flat()
    }

    /// Whether a record has the shape of this schema.
    pub open spec fn typing(&self, record: RecordView) -> bool {
        avro_shape(self@) matches Some(shape) && typed(record, shape)
    }

    /// Whether a record has the shape of this schema and a size that the Avro library reads.
    pub open spec fn conforming(&self, record: RecordView) -> bool {
        avro_shape(self@) matches Some(shape) && conforms(record, shape)
    }
}

fn same_types(a: &Vec<(String, FieldType)>, b: &Vec<(String, FieldType)>) -> (r: bool)
    ensures
        r == (types_view(a@) == types_view(b@)),
{
    let ghost va = types_view(a@);
    let ghost vb = types_view(b@);
    if a.len() != b.len() {
        assert(va.len() != vb.len());
        return false;
    }
    let mut i: usize = 0;
    while i < a.len()
        invariant
            i <= a@.len(),
            a@.len() == b@.len(),
            va == types_view(a@),
            vb == types_view(b@),
            forall|j: int| 0 <= j < i ==> va[j] == vb[j],
        decreases a@.len() - i,
    {
        if !text::same_text(a[i].0.as_str(), b[i].0.as_str()) || a[i].1 != b[i].1 {
            assert(va[i as int] != vb[i as int]);
            return false;
        }
        assert(va[i as int] == vb[i as int]);
        i = i + 1;
    }
    assert(va =~= vb);
    true
}

impl Schema {
    /// Whether the schema has the given shape.
    pub fn has_shape(&self, expected: &Shape) -> (r: bool)
        ensures
            r == (avro_shape(self@) == Some(expected@)),
    {
        proof {
            use_type_invariant(self);
        }
        same_types(&self.shape.fields, &expected.fields) && same_types(
            &self.shape.row,
            &expected.row,
        )
    }
}

/// Writes a record as Avro binary.
pub fn encode(schema: &Schema, record: Record) -> (r: Result<Vec<u8>, AvroError>)
    ensures
        match r {
            Ok(b) => schema.flat() && avro_written(schema@, record@) == Some(b@),
            Err(AvroError::NotFlat) => !schema.flat(),
            Err(AvroError::NoCanonicalForm) => false,
            Err(AvroError::Rejected(_)) => schema.flat() && avro_written(schema@, record@) is None,
        },
        schema.flat() && schema.typing(record@) && outline::plainly_named(schema@) ==> r is Ok,
        schema.flat() && schema.conforming(record@) ==> (r matches Ok(b) ==> avro_read(
            schema@,
            b@,
        ) == Some(record@)),
{
    proof {
        use_type_invariant(schema);
    }
    if !is_flat(&schema.shape) {
        return Err(AvroError::NotFlat);
    }
    let list: Option<String> = find_list(&record.fields);
    match write_record(schema.json.as_str(), record.fields, list, record.rows) {
        Ok(b) => Ok(b),
        Err(e) => Err(AvroError::Rejected(error_text(e))),
    }
}

/// Reads a record from Avro binary that was written with `schema`.
pub fn decode(schema: &Schema, body: &[u8]) -> (r: Result<Record, AvroError>)
    ensures
        match r {
            Ok(record) => schema.flat() && avro_read(schema@, body@) == Some(record@),
            Err(AvroError::NotFlat) => !schema.flat(),
            Err(AvroError::NoCanonicalForm) => false,
            Err(AvroError::Rejected(_)) => schema.flat() && avro_read(schema@, body@) is None,
        },
{
    proof {
        use_type_invariant(schema);
    }
    if !is_flat(&schema.shape) {
        return Err(AvroError::NotFlat);
    }
    let fields: Vec<(String, Scalar)> = match read_fields(schema.json.as_str(), body) {
        Ok(fields) => fields,
        Err(e) => {
            return Err(AvroError::Rejected(error_text(e)));
        },
    };
    match read_rows(schema.json.as_str(), body) {
        Ok(rows) => Ok(Record { fields, rows }),
        Err(e) => Err(AvroError::Rejected(error_text(e))),
    }
}

fn copy_field(f: &(String, Scalar)) -> (r: (String, Scalar))
    ensures
        (r.0@, r.1@) == (f.0@, f.1@),
{
    let x: Scalar = match &f.1 {
        Scalar::Null => Scalar::Null,
        Scalar::Boolean(b) => Scalar::Boolean(*b),
        Scalar::Int(i) => Scalar::Int(*i),
        Scalar::Long(l) => Scalar::Long(*l),
        Scalar::Bytes(b) => {
            let mut copy: Vec<u8> = Vec::new();
            copy.extend_from_slice(b.as_slice());
            assert(copy@ =~= b@);
            Scalar::Bytes(copy)
        },
        Scalar::Text(t) => Scalar::Text(t.clone()),
        Scalar::List => Scalar::List,
    };
    (f.0.clone(), x)
}

fn add_named(fields: &Vec<(String, Scalar)>, name: &str, out: &mut Vec<(String, Scalar)>)
    ensures
        row_view(final(out)@) == row_view(old(out)@) + field_named(row_view(fields@), name@),
{
    let ghost all = row_view(fields@);
    let mut i: usize = 0;
    proof {
        assert(all.skip(0) =~= all);
    }
    while i < fields.len()
        invariant
            i <= fields@.len(),
            all == row_view(fields@),
            out@ == old(out)@,
            field_named(all, name@) == field_named(all.skip(i as int), name@),
        decreases fields@.len() - i,
    {
        assert(all.skip(i as int)[0] == all[i as int]);
        if text::same_text(fields[i].0.as_str(), name) {
            let f: (String, Scalar) = copy_field(&fields[i]);
            out.push(f);
            assert(row_view(out@) =~= row_view(old(out)@) + seq![all[i as int]]);
            return;
        }
        assert(all.skip(i as int).skip(1) =~= all.skip(i + 1));
        i = i + 1;
    }
    assert(field_named(all, name@) =~= Seq::<(Seq<char>, ScalarView)>::empty());
    assert(row_view(out@) =~= row_view(old(out)@) + field_named(all, name@));
}

fn copy_row(row: &Vec<(String, Scalar)>) -> (r: Vec<(String, Scalar)>)
    ensures
        row_view(r@) == row_view(row@),
{
    let mut r: Vec<(String, Scalar)> = Vec::new();
    let mut i: usize = 0;
    while i < row.len()
        invariant
            i <= row@.len(),
            r@.len() == i,
            forall|j: int| 0 <= j < i ==> row_view(r@)[j] == #[trigger] row_view(row@)[j],
        decreases row@.len() - i,
    {
        let ghost before = r@;
        r.push(copy_field(&row[i]));
        assert(row_view(r@) =~= row_view(before).push(row_view(row@)[i as int]));
        i = i + 1;
    }
    assert(row_view(r@) =~= row_view(row@));
    r
}

fn copy_rows(rows: &Vec<Vec<(String, Scalar)>>) -> (r: Vec<Vec<(String, Scalar)>>)
    ensures
        rows_view(r@) == rows_view(rows@),
{
    let mut r: Vec<Vec<(String, Scalar)>> = Vec::new();
    let mut i: usize = 0;
    while i < rows.len()
        invariant
            i <= rows@.len(),
            r@.len() == i,
            forall|j: int| 0 <= j < i ==> rows_view(r@)[j] == #[trigger] rows_view(rows@)[j],
        decreases rows@.len() - i,
    {
        let ghost before = r@;
        r.push(copy_row(&rows[i]));
        assert(rows_view(r@) =~= rows_view(before).push(rows_view(rows@)[i as int]));
        i = i + 1;
    }
    assert(rows_view(r@) =~= rows_view(rows@));
    r
}

fn has_list(shape: &Shape) -> (r: bool)
    ensures
        r == exists|i: int| shape@.list_at(i),
{
    let mut i: usize = 0;
    while i < shape.fields.len()
        invariant
            i <= shape.fields@.len(),
            forall|j: int| j < i ==> !shape@.list_at(j),
        decreases shape.fields@.len() - i,
    {
        assert(shape@.fields[i as int].1 == shape.fields@[i as int].1);
        if shape.fields[i].1 == FieldType::List {
            assert(shape@.list_at(i as int));
            return true;
        }
        i = i + 1;
    }
    false
}

/// What a record that is not of a shape has of it.
pub fn project(record: &Record, shape: &Shape) -> (r: Record)
    requires
        !typed(record@, shape@),
    ensures
        r@ == projected(record@, shape@),
{
    let ghost types = shape@.fields;
    let mut fields: Vec<(String, Scalar)> = Vec::new();
    let mut i: usize = 0;
    proof {
        assert(types.take(0) =~= Seq::<(Seq<char>, FieldType)>::empty());
        assert(row_view(fields@) =~= Seq::<(Seq<char>, ScalarView)>::empty());
    }
    while i < shape.fields.len()
        invariant
            i <= shape.fields@.len(),
            types == shape@.fields,
            row_view(fields@) == fields_named(record@.fields, types.take(i as int)),
        decreases shape.fields@.len() - i,
    {
        proof {
            assert(types.take(i + 1).drop_last() =~= types.take(i as int));
            assert(types.take(i + 1).last() == types[i as int]);
            assert(types[i as int].0 == shape.fields@[i as int].0@);
        }
        add_named(&record.fields, shape.fields[i].0.as_str(), &mut fields);
        i = i + 1;
    }
    proof {
        assert(types.take(i as int) =~= types);
    }
    let rows: Vec<Vec<(String, Scalar)>> = if has_list(shape) {
        copy_rows(&record.rows)
    } else {
        let none: Vec<Vec<(String, Scalar)>> = Vec::new();
        assert(rows_view(none@) =~= Seq::<Seq<(Seq<char>, ScalarView)>>::empty());
        none
    };
    Record { fields, rows }
}

// ---- known schemas -------------------------------------------------------------------------

/// Schemas by their fingerprints.
pub struct SchemaRegistry {
    by_fp: HashMap<Fingerprint, Schema>,
}

impl View for SchemaRegistry {
    type V = Map<Fingerprint, Seq<char>>;

    closed spec fn view(&self) -> Map<Fingerprint, Seq<char>> {
        self.by_fp@.map_values(|s: Schema| s@)
    }
}

/// A registry after a schema was added under its fingerprint.
pub open spec fn registered(
    m: Map<Fingerprint, Seq<char>>,
    fp: Fingerprint,
    json: Seq<char>,
) -> Map<Fingerprint, Seq<char>> {
    if m.dom().contains(fp) {
        m
    } else {
        m.insert(fp, json)
    }
}

/// Adding a schema again changes nothing, and an added schema is found.
pub proof fn law_register_idempotent(
    m: Map<Fingerprint, Seq<char>>,
    fp: Fingerprint,
    json: Seq<char>,
)
    ensures
        registered(registered(m, fp, json), fp, json) == registered(m, fp, json),
        registered(m, fp, json).dom().contains(fp),
{
}

impl SchemaRegistry {
    pub fn new() -> (r: SchemaRegistry)
        ensures
            r@ == Map::<Fingerprint, Seq<char>>::empty(),
    {
        let r = SchemaRegistry { by_fp: HashMap::new() };
        proof {
            assert(r@ =~= Map::<Fingerprint, Seq<char>>::empty());
        }
        r
    }

    /// Adds a schema under its fingerprint, unless one is there, and returns the fingerprint.
    pub fn register(&mut self, schema: Schema) -> (fp: Fingerprint)
        ensures
            fp as nat == schema_fp(schema@),
            final(self)@ == registered(old(self)@, fp, schema@),
    {
        let fp: Fingerprint = fingerprint(&schema);
        if !self.by_fp.contains_key(&fp) {
            self.by_fp.insert(fp, schema);
        }
        proof {
            assert(self@ =~= registered(old(self)@, fp, schema@));
        }
        fp
    }

    /// Parses a schema and adds it under its fingerprint, unless one is there.
    pub fn register_json(&mut self, json: &str) -> (r: Result<Fingerprint, AvroError>)
        ensures
            match r {
                Ok(fp) => is_schema(json@) && fp as nat == schema_fp(json@) && final(self)@
                    == registered(old(self)@, fp, json@),
                Err(AvroError::NoCanonicalForm) => !outline::has_canonical_form(json@) && final(self)@
                    == old(self)@,
                Err(AvroError::NotFlat) => false,
                Err(AvroError::Rejected(_)) => outline::has_canonical_form(json@) && avro_rabin(
                    json@,
                ) is None && final(self)@ == old(self)@,
            },
    {
        match parse(json) {
            Ok((schema, _fp)) => Ok(self.register(schema)),
            Err(e) => Err(e),
        }
    }

    /// The schema with a fingerprint.
    pub fn get(&self, fp: Fingerprint) -> (r: Option<&Schema>)
        ensures
            match r {
                Some(schema) => self@.dom().contains(fp) && self@[fp] == schema@,
                None => !self@.dom().contains(fp),
            },
    {
        self.by_fp.get(&fp)
    }

    /// Whether two interfaces agree.
    pub fn compatible(expected: Fingerprint, actual: Fingerprint) -> (r: bool)
        ensures
            r == (expected == actual),
    {
        expected == actual
    }
}

// ---- laws ----------------------------------------------------------------------------------

/// A text is taken for a schema exactly where its canonical form is defined and the Avro library
/// takes it; the schema has that text, and its fingerprint is the digest, the low byte first.
pub proof fn law_schema_is_parsed(
    json: &str,
    ok: bool,
    r: Result<(Schema, Fingerprint), AvroError>,
    fp: Fingerprint,
)
    requires
        call_ensures(outline::check_canonical_form, (json,), ok),
        call_ensures(parse, (json,), r),
        r matches Ok(p) ==> call_ensures(fingerprint, (&p.0,), fp),
    ensures
        r is Ok <==> ok && avro_rabin(json@) is Some,
        r matches Err(AvroError::NoCanonicalForm) <==> !ok,
        r matches Err(e) ==> !(e is NotFlat),
        r matches Ok(p) ==> p.0@ == json@ && p.1 == fp,
        r is Ok && avro_rabin(json@)->Some_0.len() == 8 ==> {
            let b = avro_rabin(json@)->Some_0;
            fp == b[0] + 0x100 * b[1] + 0x1_0000 * b[2] + 0x100_0000 * b[3] + 0x1_0000_0000 * b[4]
                + 0x100_0000_0000 * b[5] + 0x1_0000_0000_0000 * b[6] + 0x100_0000_0000_0000 * b[7]
        },
{
    if avro_rabin(json@) is Some {
        bytes::law_little_endian(avro_rabin(json@)->Some_0);
    }
}

/// The shapes whose records are coded here: at least one field, every field of a plain type, and
/// at most one list, whose rows have at least one field and only flags, longs and texts.
pub proof fn law_flat_shapes(shape: ShapeView)
    ensures
        shape.flat() <==> {
            &&& shape.fields.len() > 0
            &&& forall|i: int|
                0 <= i < shape.fields.len() ==> {
                    let t = (#[trigger] shape.fields[i]).1;
                    t == FieldType::Boolean || t == FieldType::Int || t == FieldType::Long || t
                        == FieldType::Bytes || t == FieldType::Text || t == FieldType::List
                }
            &&& forall|i: int, j: int|
                0 <= i < shape.fields.len() && 0 <= j < shape.fields.len() && (
                #[trigger] shape.fields[i]).1 == FieldType::List && (
                #[trigger] shape.fields[j]).1 == FieldType::List ==> i == j
            &&& (exists|i: int|
                0 <= i < shape.fields.len() && (#[trigger] shape.fields[i]).1 == FieldType::List)
                ==> shape.row.len() > 0
            &&& forall|i: int|
                0 <= i < shape.row.len() ==> {
                    let t = (#[trigger] shape.row[i]).1;
                    t == FieldType::Boolean || t == FieldType::Long || t == FieldType::Text
                }
        },
{
    if exists|i: int|
        0 <= i < shape.fields.len() && (#[trigger] shape.fields[i]).1 == FieldType::List {
        let i = choose|i: int|
            0 <= i < shape.fields.len() && (#[trigger] shape.fields[i]).1 == FieldType::List;
        assert(shape.list_at(i));
    }
    if exists|i: int| #[trigger] shape.list_at(i) {
        let i = choose|i: int| #[trigger] shape.list_at(i);
        assert(shape.fields[i].1 == FieldType::List);
    }
    if shape.flat() {
        assert forall|i: int, j: int|
            0 <= i < shape.fields.len() && 0 <= j < shape.fields.len() && (
            #[trigger] shape.fields[i]).1 == FieldType::List && (#[trigger] shape.fields[j]).1
                == FieldType::List implies i == j by {
            assert(shape.list_at(i) && shape.list_at(j));
        }
    }
}

/// A record of a schema's shape is written, where nothing in the schema has two names and no
/// record can be taken for another, and read back as it was, unless it is too long for the Avro
/// library: every field under its name with its value, and every row.
pub proof fn law_written_record_is_read(
    schema: Schema,
    record: Record,
    plain: bool,
    text: &str,
    shape: Shape,
    written: Result<Vec<u8>, AvroError>,
    body: &[u8],
    read: Result<Record, AvroError>,
)
    requires
        text@ == schema@,
        call_ensures(outline::check_plainly_named, (text,), plain),
        plain,
        call_ensures(Schema::has_shape, (&schema, &shape), true),
        shape@.flat(),
        typed(record@, shape@),
        call_ensures(encode, (&schema, record), written),
        written matches Ok(b) ==> body@ == b@,
        call_ensures(decode, (&schema, body), read),
        record@.rows.len() <= 0x40_0000,
        forall|i: int|
            0 <= i < record@.fields.len() ==> match (#[trigger] record@.fields[i]).1 {
                ScalarView::Bytes(b) => b.len() <= 0x2000_0000,
                ScalarView::Text(s) => vstd::utf8::encode_utf8(s).len() <= 0x2000_0000,
                _ => true,
            },
        forall|i: int, j: int|
            0 <= i < record@.rows.len() && 0 <= j < record@.rows[i].len() ==> match (
            #[trigger] record@.rows[i][j]).1 {
                ScalarView::Bytes(b) => b.len() <= 0x2000_0000,
                ScalarView::Text(s) => vstd::utf8::encode_utf8(s).len() <= 0x2000_0000,
                _ => true,
            },
    ensures
        written is Ok,
        read matches Ok(back) && back@ == record@,
{
    assert(sized(record@)) by {
        assert forall|i: int| 0 <= i < record@.rows.len() implies row_sized(
            #[trigger] record@.rows[i],
        ) by {
            assert forall|j: int| 0 <= j < record@.rows[i].len() implies small(
                (#[trigger] record@.rows[i][j]).1,
            ) by {}
        }
    }
}

/// A record has a shape exactly where it has as many fields, each under its name and of its type,
/// rows likewise, and rows only where the shape has a list.
pub proof fn law_record_has_shape(r: RecordView, shape: ShapeView, i: int, k: int)
    requires
        typed(r, shape),
    ensures
        r.fields.len() == shape.fields.len(),
        0 <= i < r.fields.len() ==> r.fields[i].0 == shape.fields[i].0,
        0 <= i < r.fields.len() ==> match shape.fields[i].1 {
            FieldType::Boolean => r.fields[i].1 is Boolean,
            FieldType::Int => r.fields[i].1 is Int,
            FieldType::Long => r.fields[i].1 is Long,
            FieldType::Bytes => r.fields[i].1 is Bytes,
            FieldType::Text => r.fields[i].1 is Text,
            FieldType::List => r.fields[i].1 is List,
            FieldType::Other => false,
        },
        0 <= k < r.rows.len() ==> r.rows[k].len() == shape.row.len(),
        0 <= k < r.rows.len() && 0 <= i < shape.row.len() ==> r.rows[k][i].0 == shape.row[i].0
            && has_type(r.rows[k][i].1, shape.row[i].1),
        (forall|j: int| 0 <= j < shape.fields.len() ==> (#[trigger] shape.fields[j]).1
            != FieldType::List) ==> r.rows.len() == 0,
{
    if 0 <= i < r.fields.len() {
        assert(r.fields[i].0 == shape.fields[i].0);
    }
    if 0 <= k < r.rows.len() {
        assert(row_typed(r.rows[k], shape.row));
        if 0 <= i < shape.row.len() {
            assert(r.rows[k][i].0 == shape.row[i].0);
        }
    }
}

/// A record that is not of a shape is cut to it: field by field of the shape, in its order, the
/// first field of that name, if there is one.
pub proof fn law_record_is_cut(
    record: Record,
    shape: Shape,
    r: Record,
    shorter: Shape,
    s: Record,
    at: int,
)
    requires
        shape.fields@.len() > 0,
        shorter@ == (ShapeView { fields: shape@.fields.drop_last(), row: shape@.row }),
        !typed(record@, shape@),
        !typed(record@, shorter@),
        call_ensures(project, (&record, &shape), r),
        call_ensures(project, (&record, &shorter), s),
    ensures
        (forall|i: int| 0 <= i < record@.fields.len() ==> (#[trigger] record@.fields[i]).0
            != shape@.fields.last().0) ==> r@.fields == s@.fields,
        0 <= at < record@.fields.len() && record@.fields[at].0 == shape@.fields.last().0 && (
        forall|i: int| 0 <= i < at ==> (#[trigger] record@.fields[i]).0 != shape@.fields.last().0)
            ==> r@.fields == s@.fields.push(record@.fields[at]),
        r@.rows.len() == 0 || r@.rows == record@.rows,
        (exists|i: int| 0 <= i < shape@.fields.len() && (#[trigger] shape@.fields[i]).1
            == FieldType::List) ==> r@.rows == record@.rows,
{
    let name = shape@.fields.last().0;
    lemma_first_named(record@.fields, name, at);
    if exists|i: int| 0 <= i < shape@.fields.len() && (#[trigger] shape@.fields[i]).1
        == FieldType::List {
        let i = choose|i: int| 0 <= i < shape@.fields.len() && (#[trigger] shape@.fields[i]).1
            == FieldType::List;
        assert(shape@.list_at(i));
    }
    assert(s@.fields + Seq::<(Seq<char>, ScalarView)>::empty() =~= s@.fields);
    if 0 <= at < record@.fields.len() {
        assert(s@.fields + seq![record@.fields[at]] =~= s@.fields.push(record@.fields[at]));
    }
}

proof fn lemma_first_named(fields: Seq<(Seq<char>, ScalarView)>, name: Seq<char>, at: int)
    ensures
        (forall|i: int| 0 <= i < fields.len() ==> (#[trigger] fields[i]).0 != name) ==> field_named(
            fields,
            name,
        ) == Seq::<(Seq<char>, ScalarView)>::empty(),
        0 <= at < fields.len() && fields[at].0 == name && (forall|i: int|
            0 <= i < at ==> (#[trigger] fields[i]).0 != name) ==> field_named(fields, name)
            == seq![fields[at]],
    decreases fields.len(),
{
    if fields.len() > 0 && fields[0].0 != name {
        let rest = fields.skip(1);
        lemma_first_named(rest, name, at - 1);
        assert forall|i: int| 0 <= i < rest.len() implies (#[trigger] rest[i])
            == fields[i + 1] by {}
    }
}

/// A schema that was registered is found under its fingerprint, and one that was registered before
/// under the same stays; whatever else was registered stays too.
pub proof fn law_registered_schema_is_found(
    known: &mut SchemaRegistry,
    schema: Schema,
    fp: Fingerprint,
    after: SchemaRegistry,
    found: Option<&Schema>,
    other: Fingerprint,
    own: Fingerprint,
)
    requires
        call_ensures(SchemaRegistry::register, (known, schema), fp),
        call_ensures(fingerprint, (&schema,), own),
        after@ == final(known)@,
        call_ensures(SchemaRegistry::get, (&after, fp), found),
    ensures
        fp == own,
        found matches Some(s) && s@ == (if old(known)@.dom().contains(fp) {
            old(known)@[fp]
        } else {
            schema@
        }),
        other != fp ==> (final(known)@.dom().contains(other)
            <==> old(known)@.dom().contains(other)),
        other != fp ==> final(known)@[other] == old(known)@[other],
{
}

/// A text is registered exactly where it is a schema, under the fingerprint that it is parsed
/// with; otherwise nothing changes. A new registry knows nothing.
pub proof fn law_text_is_registered(
    known: &mut SchemaRegistry,
    json: &str,
    r: Result<Fingerprint, AvroError>,
    parsed: Result<(Schema, Fingerprint), AvroError>,
    fresh: SchemaRegistry,
    fp: Fingerprint,
    none: Option<&Schema>,
)
    requires
        call_ensures(SchemaRegistry::register_json, (known, json), r),
        call_ensures(parse, (json,), parsed),
        call_ensures(SchemaRegistry::new, (), fresh),
        call_ensures(SchemaRegistry::get, (&fresh, fp), none),
    ensures
        r is Ok <==> parsed is Ok,
        r matches Ok(f) ==> parsed->Ok_0.1 == f && final(known)@.dom().contains(f),
        r matches Ok(f) ==> (!old(known)@.dom().contains(f) ==> final(known)@[f] == json@),
        r is Err ==> final(known)@ == old(known)@,
        none is None,
{
}

/// Two interfaces agree exactly where their fingerprints are the same.
pub proof fn law_agreement(
    expected: Fingerprint,
    actual: Fingerprint,
    r: bool,
    e: AvroError,
    words: String,
)
    requires
        call_ensures(SchemaRegistry::compatible, (expected, actual), r),
        call_ensures(AvroError::message, (&e,), words),
    ensures
        r <==> expected == actual,
        e is NoCanonicalForm ==> words@ == "schema has no canonical form"@,
        e is NotFlat ==> words@ == "schema is not a record of plain fields"@,
        e matches AvroError::Rejected(s) ==> words@ == s@,
{
}

/// Two texts with the same tokens, whatever the space between them, are both schemas or neither,
/// and have the same fingerprint; and two schemas that differ in documentation alone have the same
/// fingerprint too.
pub proof fn law_same_schema_same_fingerprint(
    a: &str,
    b: &str,
    of_a: Result<(Schema, Fingerprint), AvroError>,
    of_b: Result<(Schema, Fingerprint), AvroError>,
)
    requires
        call_ensures(parse, (a,), of_a),
        call_ensures(parse, (b,), of_b),
        json::closed_text(a@),
        json::closed_text(b@),
    ensures
        json::tokens(a@) == json::tokens(b@) ==> (of_a is Ok <==> of_b is Ok),
        json::tokens(a@) == json::tokens(b@) && of_a is Ok ==> of_a->Ok_0.1 == of_b->Ok_0.1,
        bare(a@) == bare(b@) && of_a is Ok && of_b is Ok && !outline::has_object_default(
            json::plain_tokens(a@),
        ) && !outline::has_object_default(json::plain_tokens(b@)) ==> of_a->Ok_0.1 == of_b->Ok_0.1,
{
    let fp_a = match of_a {
        Ok((_, fp)) => Some(fp),
        Err(_) => None,
    };
    let fp_b = match of_b {
        Ok((_, fp)) => Some(fp),
        Err(_) => None,
    };
    if json::tokens(a@) == json::tokens(b@) {
        law_space_keeps_fingerprint(a@, b@, fp_a, fp_b);
    }
}

} // verus!
