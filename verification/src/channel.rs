//! Both ends of a channel: a publisher puts records on the channel's ring, and a subscriber
//! takes them off again.
//!
//! A message is a frame that carries the fingerprint of the channel's schema. A subscriber
//! refuses a frame with another one.
use vstd::prelude::*;

use crate::avro;
use crate::avro::{AvroError, Fingerprint, Record, RecordView, Schema};
use crate::client::ClientError;
use crate::frame;
use crate::frame::{Frame, FrameView};
use crate::outline;
use crate::ring;
use crate::ring::{PopStep, PushStep, Ring, RingView};

verus! {

/// How long a publisher waits for room, in nanoseconds.
pub const PUBLISH_NANOS: u64 = 1_000_000_000;

/// The frame of a message.
pub open spec fn message(fp: Fingerprint, body: Seq<u8>) -> FrameView {
    FrameView { flags: 0, schema_fp: fp, body }
}

/// The bytes of a message on the ring.
pub fn message_bytes(fp: Fingerprint, body: Vec<u8>) -> (r: Vec<u8>)
    ensures
        r@ == message(fp, body@).wire(),
{
    Frame::new(fp, body).encode()
}

/// What became of a message by whether the ring took it.
pub fn published(pushed: bool) -> (r: Result<(), ClientError>)
    ensures
        r == if pushed {
            Ok::<(), ClientError>(())
        } else {
            Err(ClientError::ChannelFull)
        },
{
    if pushed {
        Ok(())
    } else {
        Err(ClientError::ChannelFull)
    }
}

/// The body of a message that came off a ring, or why it is none of the channel.
pub open spec fn accepted(fp: Fingerprint, bytes: Seq<u8>) -> Result<Seq<u8>, ClientError> {
    match frame::parse_frame(bytes) {
        Err(e) => Err(ClientError::Frame(e)),
        Ok(f) => if f.schema_fp != fp {
            Err(ClientError::MessageSchema { expected: fp, got: f.schema_fp })
        } else {
            Ok(f.body)
        },
    }
}

/// Takes the body out of a message that came off a ring.
pub fn accept(fp: Fingerprint, bytes: &[u8]) -> (r: Result<Vec<u8>, ClientError>)
    ensures
        match r {
            Ok(body) => accepted(fp, bytes@) == Ok::<Seq<u8>, ClientError>(body@),
            Err(e) => accepted(fp, bytes@) == Err::<Seq<u8>, ClientError>(e),
        },
{
    let frame: Frame = match Frame::decode(bytes) {
        Ok(frame) => frame,
        Err(e) => {
            return Err(ClientError::Frame(e));
        },
    };
    if frame.schema_fp != fp {
        return Err(ClientError::MessageSchema { expected: fp, got: frame.schema_fp });
    }
    Ok(frame.body)
}

// ---- records -------------------------------------------------------------------------------

/// The producing end of a channel.
#[derive(Debug)]
pub struct Publisher {
    pub schema: Schema,
    pub schema_fp: Fingerprint,
}

/// The consuming end of a channel.
#[derive(Debug)]
pub struct Subscriber {
    pub schema: Schema,
    pub schema_fp: Fingerprint,
}

/// Why a record cannot be published.
pub open spec fn unwritable(schema: Schema, record: RecordView, e: ClientError) -> bool {
    &&& match e {
        ClientError::Avro(AvroError::NotFlat) => !schema.flat(),
        ClientError::Avro(AvroError::Rejected(_)) => schema.flat() && avro::avro_written(
            schema@,
            record,
        ) is None,
        _ => false,
    }
    &&& !(schema.flat() && schema.typing(record) && outline::plainly_named(schema@))
}

/// A record that can be published and is read back as it was.
pub open spec fn writable(schema: Schema, record: RecordView) -> bool {
    &&& schema.flat()
    &&& avro::avro_written(schema@, record) is Some
    &&& schema.conforming(record) ==> avro::avro_read(schema@, written(schema, record)) == Some(
        record,
    )
}

/// The body of a published record.
pub open spec fn written(schema: Schema, record: RecordView) -> Seq<u8> {
    avro::avro_written(schema@, record)->Some_0
}

impl Publisher {
    pub fn schema_fp(&self) -> (r: Fingerprint)
        ensures
            r == self.schema_fp,
    {
        self.schema_fp
    }

    fn bytes(&self, record: Record) -> (r: Result<Vec<u8>, ClientError>)
        ensures
            match r {
                Ok(b) => writable(self.schema, record@) && b@ == message(
                    self.schema_fp,
                    written(self.schema, record@),
                ).wire(),
                Err(e) => unwritable(self.schema, record@, e),
            },
    {
        match avro::encode(&self.schema, record) {
            Ok(body) => Ok(message_bytes(self.schema_fp, body)),
            Err(e) => Err(ClientError::Avro(e)),
        }
    }

    /// Puts a record on the channel's ring at once; `false` where the ring lacks room.
    pub fn try_publish(&self, ring: &mut Ring, record: Record) -> (r: Result<bool, ClientError>)
        requires
            old(ring)@.wf(),
            old(ring)@.tail() + old(ring)@.capacity <= u64::MAX,
        ensures
            match r {
                Ok(ok) => writable(self.schema, record@) && ring::pushed(
                    old(ring)@,
                    final(ring)@,
                    message(self.schema_fp, written(self.schema, record@)).wire(),
                    ok,
                ),
                Err(e) => unwritable(self.schema, record@, e) && *final(ring) == *old(ring),
            },
            final(ring).seg.name == old(ring).seg.name,
    {
        match self.bytes(record) {
            Ok(b) => Ok(ring.try_push(b.as_slice())),
            Err(e) => Err(e),
        }
    }

    /// One round of putting a record on the channel's ring, with `remaining` nanoseconds to wait
    /// for room.
    pub fn publish(&self, ring: &mut Ring, record: Record, remaining: u64) -> (r: Result<
        PushStep,
        ClientError,
    >)
        requires
            old(ring)@.wf(),
            old(ring)@.tail() + old(ring)@.capacity <= u64::MAX,
        ensures
            ({
                let wire = message(self.schema_fp, written(self.schema, record@)).wire();
                let can = writable(self.schema, record@);
                match r {
                    Ok(PushStep::Pushed) => can && ring::pushed(
                        old(ring)@,
                        final(ring)@,
                        wire,
                        true,
                    ),
                    Ok(PushStep::Park { seen, nanos }) => can && ring::pushed(
                        old(ring)@,
                        final(ring)@,
                        wire,
                        false,
                    ) && seen as nat == final(ring)@.space_seq() && 0 < nanos == remaining,
                    Ok(PushStep::TimedOut) => false,
                    Err(ClientError::ChannelFull) => can && ring::pushed(
                        old(ring)@,
                        final(ring)@,
                        wire,
                        false,
                    ) && remaining == 0,
                    Err(e) => unwritable(self.schema, record@, e) && *final(ring) == *old(ring),
                }
            }),
            final(ring).seg.name == old(ring).seg.name,
    {
        let b: Vec<u8> = match self.bytes(record) {
            Ok(b) => b,
            Err(e) => {
                return Err(e);
            },
        };
        match ring.push_blocking(b.as_slice(), Some(remaining)) {
            PushStep::Pushed => Ok(PushStep::Pushed),
            PushStep::TimedOut => Err(ClientError::ChannelFull),
            PushStep::Park { seen, nanos } => Ok(PushStep::Park { seen, nanos }),
        }
    }
}

/// One round of waiting for a record.
#[derive(Debug)]
pub enum RecvStep {
    Received(Record),
    TimedOut,
    /// Sleep for at most `nanos` while the data word is `seen`, and look again.
    Park { seen: u32, nanos: u64 },
}

/// What a message on the ring comes to.
pub open spec fn received(
    schema: Schema,
    fp: Fingerprint,
    bytes: Seq<u8>,
    r: Result<Record, ClientError>,
) -> bool {
    match accepted(fp, bytes) {
        Err(e) => r == Err::<Record, ClientError>(e),
        Ok(body) => match r {
            Ok(record) => schema.flat() && avro::avro_read(schema@, body) == Some(record@),
            Err(ClientError::Avro(AvroError::NotFlat)) => !schema.flat(),
            Err(ClientError::Avro(AvroError::Rejected(_))) => schema.flat() && avro::avro_read(
                schema@,
                body,
            ) is None,
            Err(_) => false,
        },
    }
}

impl Subscriber {
    pub fn schema_fp(&self) -> (r: Fingerprint)
        ensures
            r == self.schema_fp,
    {
        self.schema_fp
    }

    /// The record in a message that came off the channel's ring.
    pub fn record(&self, bytes: &[u8]) -> (r: Result<Record, ClientError>)
        ensures
            received(self.schema, self.schema_fp, bytes@, r),
    {
        let body: Vec<u8> = match accept(self.schema_fp, bytes) {
            Ok(body) => body,
            Err(e) => {
                return Err(e);
            },
        };
        match avro::decode(&self.schema, body.as_slice()) {
            Ok(record) => Ok(record),
            Err(e) => Err(ClientError::Avro(e)),
        }
    }

    /// One round of taking the next record off the channel's ring, with `remaining` nanoseconds
    /// to wait for one. A message that is none of the channel is taken off too.
    pub fn recv(&self, ring: &mut Ring, remaining: u64) -> (r: Result<RecvStep, ClientError>)
        requires
            old(ring)@.wf(),
        ensures
            match r {
                Ok(RecvStep::TimedOut) => ring::popped(old(ring)@, final(ring)@, None) && remaining
                    == 0,
                Ok(RecvStep::Park { seen, nanos }) => ring::popped(old(ring)@, final(ring)@, None)
                    && seen as nat == old(ring)@.data_seq() && 0 < nanos == remaining,
                Ok(RecvStep::Received(record)) => ring::popped(
                    old(ring)@,
                    final(ring)@,
                    Some(old(ring)@.queue()[0]),
                ) && received(
                    self.schema,
                    self.schema_fp,
                    old(ring)@.queue()[0],
                    Ok::<Record, ClientError>(record),
                ),
                Err(e) => ring::popped(old(ring)@, final(ring)@, Some(old(ring)@.queue()[0]))
                    && received(
                    self.schema,
                    self.schema_fp,
                    old(ring)@.queue()[0],
                    Err::<Record, ClientError>(e),
                ),
            },
            final(ring).seg.name == old(ring).seg.name,
    {
        match ring.pop_blocking(Some(remaining)) {
            PopStep::Popped(bytes) => match self.record(bytes.as_slice()) {
                Ok(record) => Ok(RecvStep::Received(record)),
                Err(e) => Err(e),
            },
            PopStep::TimedOut => Ok(RecvStep::TimedOut),
            PopStep::Park { seen, nanos } => Ok(RecvStep::Park { seen, nanos }),
        }
    }
}

// ---- laws ----------------------------------------------------------------------------------

/// A message of a channel is accepted as it was sent, and a message of a channel with another
/// schema is refused. The body's length must fit the four bytes of its field.
pub proof fn law_message_is_accepted(fp: Fingerprint, other: Fingerprint, body: Seq<u8>)
    requires
        body.len() <= u32::MAX,
    ensures
        accepted(fp, message(fp, body).wire()) == Ok::<Seq<u8>, ClientError>(body),
        other != fp ==> accepted(other, message(fp, body).wire()) == Err::<Seq<u8>, ClientError>(
            ClientError::MessageSchema { expected: other, got: fp },
        ),
{
    frame::law_decode_of_encode(message(fp, body), Seq::empty());
}

/// A record that was published and fit is the last on the channel's ring, whatever was there
/// before it, and a subscriber of the same schema gets it as it was.
pub proof fn law_published_is_received(
    p: Publisher,
    s: Subscriber,
    a: RingView,
    b: RingView,
    record: Record,
    r: Result<Record, ClientError>,
)
    requires
        p.schema@ == s.schema@,
        p.schema_fp == s.schema_fp,
        writable(p.schema, record@),
        p.schema.conforming(record@),
        written(p.schema, record@).len() <= u32::MAX,
        a.wf(),
        ring::pushed(a, b, message(p.schema_fp, written(p.schema, record@)).wire(), true),
        received(s.schema, s.schema_fp, b.queue().last(), r),
    ensures
        r matches Ok(back) && back@ == record@,
{
    law_message_is_accepted(p.schema_fp, p.schema_fp, written(p.schema, record@));
}

/// A record of the channel's schema is put on the ring exactly where the ring has room for its
/// encoding with twenty bytes in front of it, and nothing else keeps it off: it is then the last
/// on the ring, a frame with the channel's fingerprint around the whole encoding. Where there is
/// no room, the ring stays as it is.
pub proof fn law_record_is_published_if_it_fits(
    p: Publisher,
    ring: &mut Ring,
    record: Record,
    r: Result<bool, ClientError>,
)
    requires
        call_ensures(Publisher::try_publish, (&p, ring, record), r),
        old(ring)@.wf(),
        p.schema.flat(),
        p.schema.typing(record@),
        outline::plainly_named(p.schema@),
    ensures
        avro::avro_written(p.schema@, record@) matches Some(body) && {
            let room = old(ring)@.capacity - (old(ring)@.head() - old(ring)@.tail());
            &&& r == Ok::<bool, ClientError>(4 + 16 + body.len() <= room)
            &&& 4 + 16 + body.len() > room ==> final(ring)@ == old(ring)@
            &&& 4 + 16 + body.len() <= room ==> {
                let q = final(ring)@.queue();
                &&& q.len() == old(ring)@.queue().len() + 1
                &&& q.drop_last() == old(ring)@.queue()
                &&& q.last().len() == 16 + body.len()
                &&& frame::parse_frame(q.last()) matches Ok(f) && f.schema_fp == p.schema_fp
                    && f.body == body
            }
        },
{
    lemma_message_len(p.schema_fp, written(p.schema, record@));
    let body = written(p.schema, record@);
    if r == Ok::<bool, ClientError>(true) {
        frame::law_decode_of_encode(message(p.schema_fp, body), Seq::empty());
        let q = old(ring)@.queue();
        assert(q.push(message(p.schema_fp, body).wire()).drop_last() =~= q);
    }
}

proof fn lemma_message_len(fp: Fingerprint, body: Seq<u8>)
    ensures
        message(fp, body).wire().len() == 16 + body.len(),
{
    crate::bytes::lemma_le_bytes_len(frame::FRAME_MAGIC as nat, 2);
    crate::bytes::lemma_le_bytes_len(fp as nat, 8);
    crate::bytes::lemma_le_bytes_len(body.len(), 4);
}

/// A round of publishing a record of the channel's schema never fails for the record: it is put
/// on the ring if there is room, as `try_publish` would put it, and otherwise the publisher
/// sleeps for what is left of its time, or is told that the channel is full if nothing is.
pub proof fn law_publishing_waits_for_room_only(
    p: Publisher,
    ring: &mut Ring,
    record: Record,
    remaining: u64,
    r: Result<PushStep, ClientError>,
)
    requires
        call_ensures(Publisher::publish, (&p, ring, record, remaining), r),
        old(ring)@.wf(),
        p.schema.flat(),
        p.schema.typing(record@),
        outline::plainly_named(p.schema@),
    ensures
        avro::avro_written(p.schema@, record@) matches Some(body) && {
            let room = old(ring)@.capacity - (old(ring)@.head() - old(ring)@.tail());
            if 4 + 16 + body.len() <= room {
                let q = final(ring)@.queue();
                &&& r == Ok::<PushStep, ClientError>(PushStep::Pushed)
                &&& q.len() == old(ring)@.queue().len() + 1
                &&& q.drop_last() == old(ring)@.queue()
                &&& frame::parse_frame(q.last()) matches Ok(f) && f.schema_fp == p.schema_fp
                    && f.body == body
            } else {
                &&& final(ring)@ == old(ring)@
                &&& remaining == 0 ==> r == Err::<PushStep, ClientError>(ClientError::ChannelFull)
                &&& remaining > 0 ==> (r matches Ok(PushStep::Park { seen, nanos }) && nanos
                    == remaining)
            }
        },
{
    lemma_message_len(p.schema_fp, written(p.schema, record@));
    let body = written(p.schema, record@);
    let room = old(ring)@.capacity - (old(ring)@.head() - old(ring)@.tail());
    if 4 + 16 + body.len() <= room {
        frame::law_decode_of_encode(message(p.schema_fp, body), Seq::empty());
        let q = old(ring)@.queue();
        assert(q.push(message(p.schema_fp, body).wire()).drop_last() =~= q);
    }
}

/// A round of receiving takes the oldest message off the ring, if there is one, and gives what it
/// holds: the record of a message of the channel, all of it, and an error for a message of
/// another schema, for one that is no record, and for bytes that are no frame. On an empty ring
/// the subscriber sleeps for what is left of its time, or its time is up.
pub proof fn law_oldest_message_is_received(
    s: Subscriber,
    ring: &mut Ring,
    remaining: u64,
    r: Result<RecvStep, ClientError>,
)
    requires
        call_ensures(Subscriber::recv, (&s, ring, remaining), r),
        old(ring)@.wf(),
    ensures
        if old(ring)@.queue().len() == 0 {
            &&& final(ring)@ == old(ring)@
            &&& remaining == 0 ==> r == Ok::<RecvStep, ClientError>(RecvStep::TimedOut)
            &&& remaining > 0 ==> (r matches Ok(RecvStep::Park { seen, nanos }) && nanos
                == remaining)
        } else {
            &&& final(ring)@.queue() == old(ring)@.queue().drop_first()
            &&& match frame::parse_frame(old(ring)@.queue()[0]) {
                Err(e) => r == Err::<RecvStep, ClientError>(ClientError::Frame(e)),
                Ok(f) => if f.schema_fp != s.schema_fp {
                    r matches Err(ClientError::MessageSchema { expected, got }) && expected
                        == s.schema_fp && got == f.schema_fp
                } else if !s.schema.flat() {
                    r matches Err(ClientError::Avro(AvroError::NotFlat))
                } else {
                    match avro::avro_read(s.schema@, f.body) {
                        Some(record) => r matches Ok(RecvStep::Received(back)) && back@ == record,
                        None => r matches Err(ClientError::Avro(AvroError::Rejected(_))),
                    }
                },
            }
        },
{
}

/// What a publisher of a channel puts on a ring, a subscriber of the same schema takes off it as
/// the same record, once it is the oldest there.
pub proof fn law_published_record_comes_out(
    p: Publisher,
    s: Subscriber,
    at: &mut Ring,
    from: &mut Ring,
    record: Record,
    remaining: u64,
    r: Result<RecvStep, ClientError>,
)
    requires
        call_ensures(Publisher::try_publish, (&p, at, record), Ok::<bool, ClientError>(true)),
        call_ensures(Subscriber::recv, (&s, from, remaining), r),
        old(at)@.wf(),
        old(from)@.wf(),
        old(from)@.queue().len() > 0,
        old(from)@.queue()[0] == final(at)@.queue().last(),
        p.schema@ == s.schema@,
        p.schema_fp == s.schema_fp,
        p.schema.conforming(record@),
    ensures
        r matches Ok(RecvStep::Received(back)) && back@ == record@,
{
    let body = written(p.schema, record@);
    lemma_message_len(p.schema_fp, body);
    frame::law_decode_of_encode(message(p.schema_fp, body), Seq::empty());
}

/// The bytes of a message are accepted by the channel whose fingerprint they carry, body and all,
/// and by no other; a message that the ring did not take is reported, one that it took is not.
pub proof fn law_message_bytes_are_accepted(
    fp: Fingerprint,
    other: Fingerprint,
    body: Vec<u8>,
    bytes: Vec<u8>,
    came: &[u8],
    r: Result<Vec<u8>, ClientError>,
    taken: bool,
    told: Result<(), ClientError>,
)
    requires
        call_ensures(message_bytes, (fp, body), bytes),
        came@ == bytes@,
        call_ensures(accept, (other, came), r),
        call_ensures(published, (taken,), told),
        body@.len() <= u32::MAX,
    ensures
        other == fp ==> (r matches Ok(b) && b@ == body@),
        other != fp ==> (r matches Err(ClientError::MessageSchema { expected, got }) && expected
            == other && got == fp),
        told == if taken {
            Ok::<(), ClientError>(())
        } else {
            Err(ClientError::ChannelFull)
        },
{
    frame::law_decode_of_encode(message(fp, body@), Seq::empty());
}

/// Whatever the Avro library writes for a record, and only that, is put on the ring: where it
/// writes nothing, the publisher is told so and the ring stays as it is, and so it is where the
/// schema is not one of plain records.
pub proof fn law_what_is_written_is_published(
    p: Publisher,
    ring: &mut Ring,
    record: Record,
    r: Result<bool, ClientError>,
)
    requires
        call_ensures(Publisher::try_publish, (&p, ring, record), r),
        old(ring)@.wf(),
    ensures
        !p.schema.flat() ==> (r matches Err(ClientError::Avro(AvroError::NotFlat))),
        p.schema.flat() && avro::avro_written(p.schema@, record@) is None ==> (r matches Err(
            ClientError::Avro(AvroError::Rejected(_)),
        )),
        r is Err ==> *final(ring) == *old(ring),
        p.schema.flat() ==> (avro::avro_written(p.schema@, record@) matches Some(body)
            ==> r == Ok::<
            bool,
            ClientError,
        >(4 + 16 + body.len() <= old(ring)@.capacity - (old(ring)@.head() - old(ring)@.tail()))),
        r == Ok::<bool, ClientError>(true) ==> final(ring)@.queue() == old(ring)@.queue().push(
            message(p.schema_fp, avro::avro_written(p.schema@, record@)->Some_0).wire(),
        ),
{
    lemma_message_len(p.schema_fp, written(p.schema, record@));
}

/// Both ends of a channel say its fingerprint, and a message comes to the record that the Avro
/// library reads in its body, if it carries that fingerprint.
pub proof fn law_message_comes_to_its_record(
    p: Publisher,
    s: Subscriber,
    of_p: Fingerprint,
    of_s: Fingerprint,
    body: Vec<u8>,
    bytes: Vec<u8>,
    came: &[u8],
    r: Result<Record, ClientError>,
)
    requires
        call_ensures(Publisher::schema_fp, (&p,), of_p),
        call_ensures(Subscriber::schema_fp, (&s,), of_s),
        call_ensures(message_bytes, (of_p, body), bytes),
        came@ == bytes@,
        call_ensures(Subscriber::record, (&s, came), r),
        body@.len() <= u32::MAX,
        s.schema.flat(),
    ensures
        of_p == p.schema_fp && of_s == s.schema_fp,
        of_p != of_s ==> (r matches Err(ClientError::MessageSchema { expected, got }) && expected
            == of_s && got == of_p),
        of_p == of_s ==> match avro::avro_read(s.schema@, body@) {
            Some(record) => r matches Ok(back) && back@ == record,
            None => r matches Err(ClientError::Avro(AvroError::Rejected(_))),
        },
{
    frame::law_decode_of_encode(message(of_p, body@), Seq::empty());
}

} // verus!
