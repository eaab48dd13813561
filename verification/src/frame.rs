//! Self-describing wire frames around an Avro body.
//!
//! ```text
//! offset  size  field
//! 0       2     magic       0x5249 ("IR")
//! 2       1     wire_ver    1
//! 3       1     flags
//! 4       8     schema_fp   fingerprint of the body's schema
//! 12      4     body_len
//! 16      N     body
//! ```
//!
//! All integers are little-endian.
use vstd::prelude::*;

use crate::bytes;
use crate::text;

verus! {

/// Magic marker `"IR"`.
pub const FRAME_MAGIC: u16 = 0x5249;

/// Current version of the wire format.
pub const WIRE_VERSION: u8 = 1;

/// Size of the fixed header that precedes the body.
pub const FRAME_HEADER: usize = 16;

/// A decoded frame: flags, schema fingerprint and body.
#[derive(Clone, Debug, PartialEq)]
pub struct Frame {
    pub flags: u8,
    pub schema_fp: u64,
    pub body: Vec<u8>,
}

/// What a frame holds, as mathematical values.
pub struct FrameView {
    pub flags: u8,
    pub schema_fp: u64,
    pub body: Seq<u8>,
}

impl View for Frame {
    type V = FrameView;

    open spec fn view(&self) -> FrameView {
        FrameView { flags: self.flags, schema_fp: self.schema_fp, body: self.body@ }
    }
}

/// Why a byte string is not a frame.
#[derive(Clone, Copy, Debug, PartialEq, Eq, Structural)]
pub enum FrameError {
    /// Fewer bytes than a header has.
    TooShort,
    /// The first two bytes are not the magic marker.
    BadMagic,
    /// A wire version other than the current one.
    Version(u8),
    /// The header announces more body bytes than follow it.
    Truncated,
}

impl FrameView {
    /// The header: magic, version, flags, fingerprint, body length.
    pub open spec fn header(self) -> Seq<u8> {
        bytes::le_bytes(FRAME_MAGIC as nat, 2) + seq![WIRE_VERSION, self.flags]
            + bytes::le_bytes(self.schema_fp as nat, 8) + bytes::le_bytes(
            self.body.len(),
            4,
        )
    }

    /// The frame on the wire: the header, then the body.
    pub open spec fn wire(self) -> Seq<u8> {
        self.header() + self.body
    }
}

/// The body length that a header announces.
pub open spec fn announced_len(buf: Seq<u8>) -> nat {
    bytes::le_value(buf.subrange(12, 16))
}

/// What a byte string means as a frame. Bytes behind the announced body are ignored.
pub open spec fn parse_frame(buf: Seq<u8>) -> Result<FrameView, FrameError> {
    if buf.len() < FRAME_HEADER {
        Err(FrameError::TooShort)
    } else if bytes::le_value(buf.subrange(0, 2)) != FRAME_MAGIC {
        Err(FrameError::BadMagic)
    } else if buf[2] != WIRE_VERSION {
        Err(FrameError::Version(buf[2]))
    } else if buf.len() < FRAME_HEADER + announced_len(buf) {
        Err(FrameError::Truncated)
    } else {
        Ok(
            FrameView {
                flags: buf[3],
                schema_fp: bytes::le_value(buf.subrange(4, 12)) as u64,
                body: buf.subrange(16, 16int + announced_len(buf)),
            },
        )
    }
}

impl Frame {
    /// A frame without flags.
    pub fn new(schema_fp: u64, body: Vec<u8>) -> (frame: Frame)
        ensures
            frame@ == (FrameView { flags: 0, schema_fp, body: body@ }),
    {
        Frame { flags: 0, schema_fp, body }
    }

    /// The frame's bytes on the wire. The length field holds the low 32 bits of the body's
    /// length.
    pub fn encode(&self) -> (out: Vec<u8>)
        ensures
            out@ == self@.wire(),
    {
        let mut out: Vec<u8> = Vec::new();
        bytes::push_le(&mut out, FRAME_MAGIC as u64, 2);
        out.push(WIRE_VERSION);
        out.push(self.flags);
        bytes::push_le(&mut out, self.schema_fp, 8);
        bytes::push_le(&mut out, self.body.len() as u64, 4);
        out.extend_from_slice(self.body.as_slice());
        proof {
            assert(out@ =~= self@.wire());
        }
        out
    }

    /// Parses a frame from its bytes on the wire.
    pub fn decode(buf: &[u8]) -> (r: Result<Frame, FrameError>)
        ensures
            match r {
                Ok(frame) => parse_frame(buf@) == Ok::<FrameView, FrameError>(frame@),
                Err(e) => parse_frame(buf@) == Err::<FrameView, FrameError>(e),
            },
    {
        if buf.len() < FRAME_HEADER {
            return Err(FrameError::TooShort);
        }
        if bytes::get_le(buf, 0, 2) != FRAME_MAGIC as u64 {
            return Err(FrameError::BadMagic);
        }
        let version: u8 = buf[2];
        if version != WIRE_VERSION {
            return Err(FrameError::Version(version));
        }
        let flags: u8 = buf[3];
        let schema_fp: u64 = bytes::get_le(buf, 4, 8);
        let body_len: u64 = bytes::get_le(buf, 12, 4);
        if ((buf.len() - FRAME_HEADER) as u64) < body_len {
            return Err(FrameError::Truncated);
        }
        let n: usize = body_len as usize;
        let mut body: Vec<u8> = Vec::new();
        body.extend_from_slice(vstd::slice::slice_subrange(buf, 16, 16 + n));
        proof {
            assert(body@ =~= buf@.subrange(16, 16int + announced_len(buf@)));
        }
        Ok(Frame { flags, schema_fp, body })
    }
}

impl FrameError {
    /// The error in words.
    pub open spec fn text(self) -> Seq<char> {
        match self {
            FrameError::TooShort => "frame shorter than header"@,
            FrameError::BadMagic => "bad frame magic"@,
            FrameError::Version(v) => "unsupported wire version "@ + text::decimal(v as nat),
            FrameError::Truncated => "frame body truncated"@,
        }
    }

    /// The error in words.
    pub fn message(&self) -> (r: String)
        ensures
            r@ == self.text(),
    {
        match self {
            FrameError::TooShort => "frame shorter than header".to_owned(),
            FrameError::BadMagic => "bad frame magic".to_owned(),
            FrameError::Version(v) => {
                let mut out: String = "unsupported wire version ".to_owned();
                out.append(text::decimal_string(*v as u64).as_str());
                out
            },
            FrameError::Truncated => "frame body truncated".to_owned(),
        }
    }
}

proof fn lemma_header_fields(f: FrameView, tail: Seq<u8>)
    ensures
        f.header().len() == FRAME_HEADER,
        ({
            let buf = f.wire() + tail;
            &&& buf.subrange(0, 2) == bytes::le_bytes(FRAME_MAGIC as nat, 2)
            &&& buf[2] == WIRE_VERSION
            &&& buf[3] == f.flags
            &&& buf.subrange(4, 12) == bytes::le_bytes(f.schema_fp as nat, 8)
            &&& buf.subrange(12, 16) == bytes::le_bytes(f.body.len(), 4)
        }),
{
    bytes::lemma_le_bytes_len(FRAME_MAGIC as nat, 2);
    bytes::lemma_le_bytes_len(f.schema_fp as nat, 8);
    bytes::lemma_le_bytes_len(f.body.len(), 4);
    let buf = f.wire() + tail;
    assert(buf.subrange(0, 2) =~= bytes::le_bytes(FRAME_MAGIC as nat, 2));
    assert(buf.subrange(4, 12) =~= bytes::le_bytes(f.schema_fp as nat, 8));
    assert(buf.subrange(12, 16) =~= bytes::le_bytes(f.body.len(), 4));
}

/// Decoding gives back what was encoded, whatever bytes follow the frame. The body's length
/// must fit the four bytes of its field.
pub proof fn law_decode_of_encode(f: FrameView, tail: Seq<u8>)
    requires
        f.body.len() <= u32::MAX,
    ensures
        parse_frame(f.wire() + tail) == Ok::<FrameView, FrameError>(f),
        parse_frame(f.wire()) == Ok::<FrameView, FrameError>(f),
{
    lemma_decode_of_encode(f, tail);
    lemma_decode_of_encode(f, Seq::empty());
    assert(f.wire() + Seq::<u8>::empty() =~= f.wire());
}

proof fn lemma_decode_of_encode(f: FrameView, tail: Seq<u8>)
    requires
        f.body.len() <= u32::MAX,
    ensures
        parse_frame(f.wire() + tail) == Ok::<FrameView, FrameError>(f),
{
    let buf = f.wire() + tail;
    lemma_header_fields(f, tail);
    bytes::lemma_pow256_values();
    bytes::lemma_le_value_of_bytes(FRAME_MAGIC as nat, 2);
    bytes::lemma_le_value_of_bytes(f.schema_fp as nat, 8);
    bytes::lemma_le_value_of_bytes(f.body.len(), 4);
    assert(buf.subrange(16, 16int + announced_len(buf)) =~= f.body);
}

/// Encoding what was decoded gives back the bytes that were read.
pub proof fn law_encode_of_decode(buf: Seq<u8>)
    requires
        parse_frame(buf) is Ok,
    ensures
        parse_frame(buf)->Ok_0.wire() == buf.take(FRAME_HEADER + announced_len(buf)),
{
    let f = parse_frame(buf)->Ok_0;
    bytes::lemma_pow256_values();
    bytes::lemma_le_bytes_of_value(buf.subrange(0, 2));
    bytes::lemma_le_bytes_of_value(buf.subrange(4, 12));
    bytes::lemma_le_bytes_of_value(buf.subrange(12, 16));
    bytes::lemma_le_value_bound(buf.subrange(4, 12));
    assert(f.wire() =~= buf.take(FRAME_HEADER + announced_len(buf)));
}

/// No proper prefix of a frame is a frame.
pub proof fn law_prefix_rejected(f: FrameView, n: int)
    requires
        f.body.len() <= u32::MAX,
        0 <= n < f.wire().len(),
    ensures
        parse_frame(f.wire().take(n)) is Err,
{
    lemma_header_fields(f, Seq::empty());
    assert(f.wire() + Seq::<u8>::empty() =~= f.wire());
    bytes::lemma_pow256_values();
    bytes::lemma_le_value_of_bytes(f.body.len(), 4);
    let cut = f.wire().take(n);
    if n >= FRAME_HEADER {
        assert(cut.subrange(12, 16) =~= f.wire().subrange(12, 16));
    }
}

/// The bytes of a frame, place by place: the marker, the version, the flags, the fingerprint and
/// the length of the body, the low byte first, and then the body, all of it.
pub proof fn law_frame_layout(f: Frame, out: Vec<u8>)
    requires
        call_ensures(Frame::encode, (&f,), out),
        f.body@.len() <= u32::MAX,
    ensures
        out@.len() == 16 + f.body@.len(),
        out@[0] == 0x49 && out@[1] == 0x52,
        out@[2] == 1,
        out@[3] == f.flags,
        f.schema_fp == out@[4] + 0x100 * out@[5] + 0x1_0000 * out@[6] + 0x100_0000 * out@[7]
            + 0x1_0000_0000 * out@[8] + 0x100_0000_0000 * out@[9] + 0x1_0000_0000_0000 * out@[10]
            + 0x100_0000_0000_0000 * out@[11],
        f.body@.len() == out@[12] + 0x100 * out@[13] + 0x1_0000 * out@[14] + 0x100_0000 * out@[15],
        out@.skip(16) == f.body@,
{
    lemma_header_fields(f@, Seq::empty());
    assert(f@.wire() + Seq::<u8>::empty() =~= f@.wire());
    bytes::lemma_pow256_values();
    bytes::lemma_le_value_of_bytes(FRAME_MAGIC as nat, 2);
    bytes::lemma_le_value_of_bytes(f.schema_fp as nat, 8);
    bytes::lemma_le_value_of_bytes(f.body@.len(), 4);
    bytes::law_little_endian(out@.subrange(0, 2));
    bytes::law_little_endian(out@.subrange(4, 12));
    bytes::law_little_endian(out@.subrange(12, 16));
    assert(out@.skip(16) =~= f.body@);
}

/// A frame is decoded as it was made, whatever follows it on the wire: the fingerprint and the
/// whole body that it was made of, without flags.
pub proof fn law_frame_comes_back(
    schema_fp: u64,
    body: Vec<u8>,
    f: Frame,
    out: Vec<u8>,
    came: &[u8],
    tail: Seq<u8>,
    r: Result<Frame, FrameError>,
)
    requires
        call_ensures(Frame::new, (schema_fp, body), f),
        call_ensures(Frame::encode, (&f,), out),
        came@ == out@ + tail,
        call_ensures(Frame::decode, (came,), r),
        body@.len() <= u32::MAX,
    ensures
        f.flags == 0 && f.schema_fp == schema_fp && f.body@ == body@,
        r matches Ok(g) && g.flags == 0 && g.schema_fp == schema_fp && g.body@ == body@,
{
    law_decode_of_encode(f@, tail);
}

/// Bytes are no frame exactly where they are shorter than a header, do not begin with the marker,
/// have another version or end before the body that they announce, and the first of these that
/// holds is the error.
pub proof fn law_what_is_no_frame(buf: &[u8], r: Result<Frame, FrameError>)
    requires
        call_ensures(Frame::decode, (buf,), r),
    ensures
        ({
            let b = buf@;
            let n = b[12] + 0x100 * b[13] + 0x1_0000 * b[14] + 0x100_0000 * b[15];
            if b.len() < 16 {
                r == Err::<Frame, FrameError>(FrameError::TooShort)
            } else if b[0] != 0x49 || b[1] != 0x52 {
                r == Err::<Frame, FrameError>(FrameError::BadMagic)
            } else if b[2] != 1 {
                r == Err::<Frame, FrameError>(FrameError::Version(b[2]))
            } else if b.len() < 16 + n {
                r == Err::<Frame, FrameError>(FrameError::Truncated)
            } else {
                r matches Ok(f) && f.flags == b[3] && f.body@ == b.subrange(16, 16 + n)
                    && f.schema_fp == b[4] + 0x100 * b[5] + 0x1_0000 * b[6] + 0x100_0000 * b[7]
                    + 0x1_0000_0000 * b[8] + 0x100_0000_0000 * b[9] + 0x1_0000_0000_0000 * b[10]
                    + 0x100_0000_0000_0000 * b[11]
            }
        }),
{
    let b = buf@;
    if b.len() >= 16 {
        bytes::law_little_endian(b.subrange(0, 2));
        bytes::law_little_endian(b.subrange(4, 12));
        bytes::law_little_endian(b.subrange(12, 16));
        bytes::lemma_pow256_values();
        bytes::lemma_le_value_bound(b.subrange(4, 12));
    }
}

/// The words of a frame's error.
pub proof fn law_frame_error_words(e: FrameError, words: String)
    requires
        call_ensures(FrameError::message, (&e,), words),
    ensures
        words@ == match e {
            FrameError::TooShort => "frame shorter than header"@,
            FrameError::BadMagic => "bad frame magic"@,
            FrameError::Version(v) => "unsupported wire version "@ + text::decimal(v as nat),
            FrameError::Truncated => "frame body truncated"@,
        },
{
}

} // verus!
