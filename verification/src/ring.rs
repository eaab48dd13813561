//! A ring buffer of length-prefixed records inside a segment.
//!
//! A ring lies at a 64-byte-aligned `base` of its segment: a header of three cache lines, then a
//! data region whose size is a power of two.
//!
//! ```text
//! offset  size  field
//! 0       4     magic       "RING"
//! 4       4     capacity    size of the data region
//! 64      8     head        producer cursor
//! 72      4     prod_lock   lock word of the producers
//! 76      4     space_seq   bumped after space was freed
//! 128     8     tail        consumer cursor
//! 136     4     data_seq    bumped after a record was published
//! 192     N     data region
//! ```
//!
//! Cursors only grow; the byte at a cursor lies at the cursor's remainder by the capacity. A
//! record is four bytes of length and then the payload, and may wrap.
use vstd::arithmetic::div_mod;
use vstd::arithmetic::power2;
use vstd::prelude::*;

use crate::bytes;
use crate::pow2;
use crate::shm;
use crate::shm::Segment;

verus! {

/// `"RING"`, little-endian.
pub const MAGIC: u32 = 0x474e_4952;

pub const OFF_MAGIC: usize = 0;

pub const OFF_CAP: usize = 4;

pub const OFF_HEAD: usize = 64;

pub const OFF_PRODLOCK: usize = 72;

pub const OFF_SPACE_SEQ: usize = 76;

pub const OFF_TAIL: usize = 128;

pub const OFF_DATA_SEQ: usize = 136;

/// Size of the header in front of the data region.
pub const RING_HEADER: usize = 192;

/// How often a consumer looks at an empty ring before it parks.
pub const SPIN_LIMIT: u32 = 256;

/// Bytes of a segment that a ring with `capacity` bytes of data region takes.
pub fn ring_bytes(capacity: usize) -> (r: usize)
    requires
        RING_HEADER + capacity <= usize::MAX,
    ensures
        r == RING_HEADER + capacity,
{
    RING_HEADER + capacity
}

// ---- records in a byte stream --------------------------------------------------------------

/// A record: the payload's length, then the payload.
pub open spec fn record(payload: Seq<u8>) -> Seq<u8> {
    bytes::le_bytes(payload.len(), 4) + payload
}

/// The payloads of the records that a byte stream consists of, `None` where it does not consist
/// of whole records.
pub open spec fn records(s: Seq<u8>) -> Option<Seq<Seq<u8>>>
    decreases s.len(),
{
    if s.len() == 0 {
        Some(Seq::empty())
    } else if s.len() < 4 {
        None
    } else {
        let n = bytes::le_value(s.subrange(0, 4));
        if s.len() < 4 + n {
            None
        } else {
            match records(s.skip(4int + n)) {
                Some(rest) => Some(seq![s.subrange(4, 4int + n)] + rest),
                None => None,
            }
        }
    }
}

/// The bytes that a queue of payloads takes as records.
pub open spec fn queue_bytes(q: Seq<Seq<u8>>) -> nat
    decreases q.len(),
{
    if q.len() == 0 {
        0
    } else {
        4 + q[0].len() + queue_bytes(q.drop_first())
    }
}

proof fn lemma_records_append(s: Seq<u8>, payload: Seq<u8>)
    requires
        records(s) is Some,
        payload.len() <= u32::MAX,
    ensures
        records(s + record(payload)) == Some(records(s)->Some_0.push(payload)),
    decreases s.len(),
{
    bytes::lemma_pow256_values();
    bytes::lemma_le_bytes_len(payload.len(), 4);
    bytes::lemma_le_value_of_bytes(payload.len(), 4);
    let t = s + record(payload);
    if s.len() == 0 {
        assert(t =~= record(payload));
        assert(t.subrange(0, 4) =~= bytes::le_bytes(payload.len(), 4));
        assert(t.subrange(4, 4int + payload.len()) =~= payload);
        assert(t.skip(4int + payload.len()) =~= Seq::<u8>::empty());
        assert(records(t.skip(4int + payload.len())) == Some(Seq::<Seq<u8>>::empty()));
        assert(seq![payload] + Seq::<Seq<u8>>::empty() =~= Seq::<Seq<u8>>::empty().push(payload));
    } else {
        let n = bytes::le_value(s.subrange(0, 4));
        let rest = s.skip(4int + n);
        lemma_records_append(rest, payload);
        assert(t.subrange(0, 4) =~= s.subrange(0, 4));
        assert(t.subrange(4, 4int + n) =~= s.subrange(4, 4int + n));
        assert(t.skip(4int + n) =~= rest + record(payload));
        assert(seq![s.subrange(4, 4int + n)] + records(rest)->Some_0.push(payload) =~= (seq![
            s.subrange(4, 4int + n),
        ] + records(rest)->Some_0).push(payload));
    }
}

proof fn lemma_records_bytes(s: Seq<u8>)
    requires
        records(s) is Some,
    ensures
        queue_bytes(records(s)->Some_0) == s.len(),
    decreases s.len(),
{
    if s.len() > 0 {
        let n = bytes::le_value(s.subrange(0, 4));
        let rest = s.skip(4int + n);
        lemma_records_bytes(rest);
        let q = records(s)->Some_0;
        assert(q.drop_first() =~= records(rest)->Some_0);
    }
}

// ---- positions in the data region ----------------------------------------------------------

/// Where a run of bytes lies in the data region: `first` bytes from `idx` on, the rest from the
/// start of the region on.
pub struct Span {
    pub idx: usize,
    pub first: usize,
}

/// Where the `len` bytes at the cursor `pos` lie.
pub fn span(pos: u64, len: usize, capacity: usize) -> (r: Span)
    requires
        0 < capacity,
        len <= capacity,
    ensures
        r.idx as int == pos as int % capacity as int,
        r.idx < capacity,
        r.first <= len,
        r.first <= capacity - r.idx,
        r.first == len || r.first == capacity - r.idx,
        len - r.first <= r.idx,
{
    let idx: usize = (pos % capacity as u64) as usize;
    let room: usize = capacity - idx;
    let first: usize = if len < room {
        len
    } else {
        room
    };
    Span { idx, first }
}

/// The producer cursor after a record of `len` payload bytes, `None` where the ring has no room
/// for it.
pub fn push_cursor(capacity: usize, head: u64, tail: u64, len: usize) -> (r: Option<u64>)
    requires
        tail <= head <= tail + capacity,
        tail + capacity <= u64::MAX,
    ensures
        r is Some <==> 4 + len <= capacity - (head - tail),
        r is Some ==> r->Some_0 == head + 4 + len,
{
    if capacity < 4 || len > capacity - 4 {
        return None;
    }
    let need: usize = 4 + len;
    let used: usize = (head - tail) as usize;
    if capacity - used < need {
        return None;
    }
    Some(head + need as u64)
}

/// The consumer cursor after the record of `len` payload bytes at it, `None` where the record
/// would not end at or before the producer cursor.
pub fn pop_cursor(capacity: usize, head: u64, tail: u64, len: usize) -> (r: Option<u64>)
    requires
        tail <= head <= tail + capacity,
    ensures
        r is Some <==> 4 + len <= head - tail,
        r is Some ==> r->Some_0 == tail + 4 + len,
{
    let used: usize = (head - tail) as usize;
    if used < 4 || len > used - 4 {
        return None;
    }
    Some(tail + 4 + len as u64)
}

/// `mem` after the bytes `src` were written at the cursor `pos` of a data region of `cap` bytes
/// that starts at `data`.
pub open spec fn wrapped(mem: Seq<u8>, data: int, cap: int, pos: int, src: Seq<u8>) -> Seq<u8> {
    Seq::new(
        mem.len(),
        |j: int|
            if data <= j < data + cap && (j - data - pos) % cap < src.len() {
                src[(j - data - pos) % cap]
            } else {
                mem[j]
            },
    )
}

proof fn lemma_mod_shift(x: int, pos: int, cap: int)
    requires
        cap > 0,
    ensures
        0 <= x % cap < cap,
        (x % cap - pos) % cap == (x - pos) % cap,
        0 <= x - pos < cap ==> (x - pos) % cap == x - pos,
        -cap <= x - pos < 0 ==> (x - pos) % cap == x - pos + cap,
{
    div_mod::lemma_mod_bound(x, cap);
    div_mod::lemma_sub_mod_noop(x % cap, pos, cap);
    div_mod::lemma_sub_mod_noop(x, pos, cap);
    div_mod::lemma_mod_twice(x, cap);
    if 0 <= x - pos < cap {
        div_mod::lemma_small_mod((x - pos) as nat, cap as nat);
    }
    if -cap <= x - pos < 0 {
        div_mod::lemma_mod_add_multiples_vanish(x - pos, cap);
        div_mod::lemma_small_mod((x - pos + cap) as nat, cap as nat);
    }
}

/// What lies at the cursor `x` after a write at the cursor `pos`.
proof fn lemma_wrapped_at(mem: Seq<u8>, data: int, cap: int, pos: int, src: Seq<u8>, x: int)
    requires
        0 < cap,
        0 <= data,
        data + cap <= mem.len(),
    ensures
        wrapped(mem, data, cap, pos, src)[data + x % cap] == (if (x - pos) % cap < src.len() {
            src[(x - pos) % cap]
        } else {
            mem[data + x % cap]
        }),
        0 <= x - pos < cap ==> (x - pos) % cap == x - pos,
        -cap <= x - pos < 0 ==> (x - pos) % cap == x - pos + cap,
{
    lemma_mod_shift(x, pos, cap);
}

// ---- rings ---------------------------------------------------------------------------------

/// A ring in the image of a segment. Exclusive access to the image stands for the producer lock
/// and for being the only consumer.
pub struct Ring {
    pub seg: Segment,
    pub base: usize,
    pub capacity: usize,
}

/// A ring as mathematical values: the bytes of its segment and where it lies in them.
#[verifier::ext_equal]
pub struct RingView {
    pub mem: Seq<u8>,
    pub base: int,
    pub capacity: int,
}

impl View for Ring {
    type V = RingView;

    open spec fn view(&self) -> RingView {
        RingView { mem: self.seg@, base: self.base as int, capacity: self.capacity as int }
    }
}

impl RingView {
    pub open spec fn magic(self) -> nat {
        shm::field(self.mem, self.base + OFF_MAGIC, 4)
    }

    pub open spec fn cap_word(self) -> nat {
        shm::field(self.mem, self.base + OFF_CAP, 4)
    }

    pub open spec fn head(self) -> nat {
        shm::field(self.mem, self.base + OFF_HEAD, 8)
    }

    pub open spec fn tail(self) -> nat {
        shm::field(self.mem, self.base + OFF_TAIL, 8)
    }

    pub open spec fn prod_lock(self) -> nat {
        shm::field(self.mem, self.base + OFF_PRODLOCK, 4)
    }

    pub open spec fn space_seq(self) -> nat {
        shm::field(self.mem, self.base + OFF_SPACE_SEQ, 4)
    }

    pub open spec fn data_seq(self) -> nat {
        shm::field(self.mem, self.base + OFF_DATA_SEQ, 4)
    }

    /// Start of the data region in the segment.
    pub open spec fn data(self) -> int {
        self.base + RING_HEADER
    }

    /// First byte of the segment behind the ring.
    pub open spec fn end(self) -> int {
        self.data() + self.capacity
    }

    /// The byte at a cursor.
    pub open spec fn at(self, cursor: int) -> u8 {
        self.mem[self.data() + cursor % self.capacity]
    }

    /// The bytes between the consumer cursor and the producer cursor.
    pub open spec fn stream(self) -> Seq<u8> {
        Seq::new((self.head() - self.tail()) as nat, |i: int| self.at(self.tail() + i))
    }

    /// The bytes that unread records take.
    pub open spec fn used(self) -> int {
        self.head() - self.tail()
    }

    /// The ring lies in its segment and its data region has a legal size.
    pub open spec fn placed(self) -> bool {
        &&& 0 <= self.base
        &&& 0 < self.capacity <= u32::MAX
        &&& power2::is_pow2(self.capacity)
        &&& self.end() <= self.mem.len()
    }

    /// The ring is formatted, and whole records lie between its cursors.
    pub open spec fn wf(self) -> bool {
        &&& self.placed()
        &&& self.magic() == MAGIC
        &&& self.cap_word() == self.capacity
        &&& self.tail() <= self.head() <= self.tail() + self.capacity
        &&& records(self.stream()) is Some
    }

    /// The payloads that were pushed and not yet popped, oldest first.
    pub open spec fn queue(self) -> Seq<Seq<u8>> {
        records(self.stream())->Some_0
    }

    /// `self` and `other` are the same ring in segments that agree outside of it.
    pub open spec fn same_place(self, other: RingView) -> bool {
        &&& self.base == other.base
        &&& self.capacity == other.capacity
        &&& self.mem.len() == other.mem.len()
        &&& forall|j: int|
            0 <= j < self.mem.len() && !(self.base <= j < self.end()) ==> #[trigger] self.mem[j]
                == other.mem[j]
    }
}

/// A record was appended to `a`, giving `b`, if and only if there was room (`ok`).
pub open spec fn appended(a: RingView, b: RingView, data: Seq<u8>, ok: bool) -> bool {
    &&& b.wf()
    &&& b.same_place(a)
    &&& ok <==> 4 + data.len() <= a.capacity - a.used()
    &&& !ok ==> b == a
    &&& ok ==> {
        &&& b.queue() == a.queue().push(data)
        &&& b.head() == a.head() + 4 + data.len()
        &&& b.tail() == a.tail()
        &&& b.prod_lock() == a.prod_lock()
        &&& b.space_seq() == a.space_seq()
    }
}

/// A record was appended to `a` and announced, giving `b`, if and only if there was room (`ok`).
pub open spec fn pushed(a: RingView, b: RingView, data: Seq<u8>, ok: bool) -> bool {
    &&& appended(a, b, data, ok)
    &&& ok ==> b.data_seq() == (a.data_seq() + 1) % 0x1_0000_0000
}

/// The oldest record, if there was one, was taken out of `a`, giving `b`.
pub open spec fn popped(a: RingView, b: RingView, r: Option<Seq<u8>>) -> bool {
    &&& b.wf()
    &&& b.same_place(a)
    &&& r is None <==> a.queue().len() == 0
    &&& r is None ==> b == a
    &&& r matches Some(payload) ==> {
        &&& payload == a.queue()[0]
        &&& b.queue() == a.queue().drop_first()
        &&& b.tail() == a.tail() + 4 + payload.len()
        &&& b.head() == a.head()
        &&& b.prod_lock() == a.prod_lock()
        &&& b.data_seq() == a.data_seq()
        &&& b.space_seq() == (a.space_seq() + 1) % 0x1_0000_0000
    }
}

/// Why there is no ring at some place of a segment.
#[derive(Clone, Copy, Debug, PartialEq, Eq, Structural)]
pub enum RingError {
    /// The segment ends before the ring would.
    TooSmall,
    /// There is no formatted ring.
    BadMagic,
    /// The header's capacity is not legal for the segment.
    BadCapacity,
}

impl RingError {
    /// The error in words.
    pub open spec fn text(self) -> Seq<char> {
        match self {
            RingError::TooSmall => "segment too small for ring"@,
            RingError::BadMagic => "ring magic mismatch / not formatted"@,
            RingError::BadCapacity => "ring capacity invalid"@,
        }
    }

    /// The error in words.
    pub fn message(&self) -> (r: String)
        ensures
            r@ == self.text(),
    {
        match self {
            RingError::TooSmall => "segment too small for ring".to_owned(),
            RingError::BadMagic => "ring magic mismatch / not formatted".to_owned(),
            RingError::BadCapacity => "ring capacity invalid".to_owned(),
        }
    }
}

/// The capacity of the ring whose header lies at `base`, or why there is no ring.
pub open spec fn attached_capacity(mem: Seq<u8>, base: int) -> Result<nat, RingError> {
    let cap = shm::field(mem, base + OFF_CAP, 4);
    if shm::field(mem, base + OFF_MAGIC, 4) != MAGIC {
        Err(RingError::BadMagic)
    } else if !power2::is_pow2(cap as int) || base + RING_HEADER + cap > mem.len() {
        Err(RingError::BadCapacity)
    } else {
        Ok(cap)
    }
}

/// Whether a ring of `capacity` bytes of data region fits a segment of `seg_len` bytes at `base`.
pub fn fits(seg_len: usize, base: usize, capacity: usize) -> (r: bool)
    ensures
        r == (base + RING_HEADER + capacity <= seg_len),
{
    base <= seg_len && RING_HEADER <= seg_len - base && capacity <= seg_len - base - RING_HEADER
}

/// The capacity of a ring with the header words `magic` and `cap_word` at `base` of a segment of
/// `seg_len` bytes, or why there is no ring.
pub fn check_header(magic: u32, cap_word: u32, base: usize, seg_len: usize) -> (r: Result<
    usize,
    RingError,
>)
    ensures
        match r {
            Ok(cap) => magic == MAGIC && cap == cap_word && power2::is_pow2(cap_word as int) && base
                + RING_HEADER + cap_word <= seg_len,
            Err(RingError::BadMagic) => magic != MAGIC,
            Err(RingError::BadCapacity) => magic == MAGIC && !(power2::is_pow2(cap_word as int)
                && base + RING_HEADER + cap_word <= seg_len),
            Err(RingError::TooSmall) => false,
        },
{
    if magic != MAGIC {
        return Err(RingError::BadMagic);
    }
    let capacity: usize = cap_word as usize;
    if !pow2::is_power_of_two(capacity) || !fits(seg_len, base, capacity) {
        return Err(RingError::BadCapacity);
    }
    Ok(capacity)
}

impl Ring {
    /// Writes a fresh header at `base`: an empty ring.
    pub fn format(seg: Segment, base: usize, capacity: usize) -> (r: Result<Ring, RingError>)
        requires
            power2::is_pow2(capacity as int),
            base % 64 == 0,
        ensures
            r is Ok <==> base + RING_HEADER + capacity <= seg@.len(),
            r matches Err(e) ==> e == RingError::TooSmall,
            r matches Ok(ring) ==> {
                &&& ring@.base == base
                &&& ring@.capacity == capacity
                &&& ring.seg.name == seg.name
                &&& ring@.same_place((RingView { mem: seg@, ..ring@ }))
                &&& ring@.magic() == MAGIC
                &&& ring@.cap_word() == capacity as nat % 0x1_0000_0000
                &&& ring@.head() == 0
                &&& ring@.tail() == 0
                &&& ring@.prod_lock() == 0
                &&& ring@.space_seq() == 0
                &&& ring@.data_seq() == 0
                &&& capacity <= u32::MAX ==> ring@.wf() && ring@.queue() == Seq::<Seq<u8>>::empty()
            },
    {
        if !fits(seg.len(), base, capacity) {
            return Err(RingError::TooSmall);
        }
        let ghost m0 = seg@;
        let mut seg = seg;
        seg.store_u64(base + OFF_HEAD, 0);
        let ghost m1 = seg@;
        seg.store_u64(base + OFF_TAIL, 0);
        let ghost m2 = seg@;
        seg.store_u32(base + OFF_PRODLOCK, 0);
        let ghost m3 = seg@;
        seg.store_u32(base + OFF_SPACE_SEQ, 0);
        let ghost m4 = seg@;
        seg.store_u32(base + OFF_DATA_SEQ, 0);
        let ghost m5 = seg@;
        let cap_word: u32 = (capacity as u64 % 0x1_0000_0000) as u32;
        seg.store_u32(base + OFF_CAP, cap_word);
        let ghost m6 = seg@;
        seg.store_u32(base + OFF_MAGIC, MAGIC);
        let ring = Ring { seg, base, capacity };
        proof {
            bytes::lemma_pow256_values();
            bytes::lemma_le_bytes_len(0, 8);
            bytes::lemma_le_bytes_len(0, 4);
            bytes::lemma_le_bytes_len(cap_word as nat, 4);
            bytes::lemma_le_bytes_len(MAGIC as nat, 4);
            let z8 = bytes::le_bytes(0, 8);
            let z4 = bytes::le_bytes(0, 4);
            let c4 = bytes::le_bytes(cap_word as nat, 4);
            let g4 = bytes::le_bytes(MAGIC as nat, 4);
            let b = base as int;
            // head
            shm::lemma_field_written(m0, b + 64, 0, 8);
            shm::lemma_field_kept(m1, b + 128, z8, b + 64, 8);
            shm::lemma_field_kept(m2, b + 72, z4, b + 64, 8);
            shm::lemma_field_kept(m3, b + 76, z4, b + 64, 8);
            shm::lemma_field_kept(m4, b + 136, z4, b + 64, 8);
            shm::lemma_field_kept(m5, b + 4, c4, b + 64, 8);
            shm::lemma_field_kept(m6, b + 0, g4, b + 64, 8);
            // tail
            shm::lemma_field_written(m1, b + 128, 0, 8);
            shm::lemma_field_kept(m2, b + 72, z4, b + 128, 8);
            shm::lemma_field_kept(m3, b + 76, z4, b + 128, 8);
            shm::lemma_field_kept(m4, b + 136, z4, b + 128, 8);
            shm::lemma_field_kept(m5, b + 4, c4, b + 128, 8);
            shm::lemma_field_kept(m6, b + 0, g4, b + 128, 8);
            // prod_lock
            shm::lemma_field_written(m2, b + 72, 0, 4);
            shm::lemma_field_kept(m3, b + 76, z4, b + 72, 4);
            shm::lemma_field_kept(m4, b + 136, z4, b + 72, 4);
            shm::lemma_field_kept(m5, b + 4, c4, b + 72, 4);
            shm::lemma_field_kept(m6, b + 0, g4, b + 72, 4);
            // space_seq
            shm::lemma_field_written(m3, b + 76, 0, 4);
            shm::lemma_field_kept(m4, b + 136, z4, b + 76, 4);
            shm::lemma_field_kept(m5, b + 4, c4, b + 76, 4);
            shm::lemma_field_kept(m6, b + 0, g4, b + 76, 4);
            // data_seq
            shm::lemma_field_written(m4, b + 136, 0, 4);
            shm::lemma_field_kept(m5, b + 4, c4, b + 136, 4);
            shm::lemma_field_kept(m6, b + 0, g4, b + 136, 4);
            // capacity and magic
            shm::lemma_field_written(m5, b + 4, cap_word as nat, 4);
            shm::lemma_field_kept(m6, b + 0, g4, b + 4, 4);
            shm::lemma_field_written(m6, b + 0, MAGIC as nat, 4);
            reveal(power2::is_pow2);
            assert(ring@.stream() =~= Seq::<u8>::empty());
            assert(ring@.queue() =~= Seq::<Seq<u8>>::empty());
        }
        Ok(ring)
    }

    /// The ring whose header lies at `base`.
    pub fn attach(seg: Segment, base: usize) -> (r: Result<Ring, RingError>)
        requires
            base + RING_HEADER <= seg@.len(),
        ensures
            match r {
                Ok(ring) => {
                    &&& attached_capacity(seg@, base as int) == Ok::<nat, RingError>(
                        ring.capacity as nat,
                    )
                    &&& ring.seg == seg
                    &&& ring.base == base
                    &&& ring@.placed()
                },
                Err(e) => attached_capacity(seg@, base as int) == Err::<nat, RingError>(e),
            },
    {
        assert(base + RING_HEADER <= seg.mem.len());
        let magic: u32 = seg.load_u32(base + OFF_MAGIC);
        let cap_word: u32 = seg.load_u32(base + OFF_CAP);
        proof {
            reveal(power2::is_pow2);
        }
        match check_header(magic, cap_word, base, seg.len()) {
            Ok(capacity) => Ok(Ring { seg, base, capacity }),
            Err(e) => Err(e),
        }
    }
}

impl Ring {
    fn write_wrapped(&mut self, pos: u64, src: &[u8])
        requires
            old(self)@.placed(),
            src@.len() <= old(self)@.capacity,
        ensures
            final(self).base == old(self).base,
            final(self).capacity == old(self).capacity,
            final(self).seg.name == old(self).seg.name,
            final(self)@.mem == wrapped(
                old(self)@.mem,
                old(self)@.data(),
                old(self)@.capacity,
                pos as int,
                src@,
            ),
    {
        let n: usize = src.len();
        let at: Span = span(pos, n, self.capacity);
        assert(self@.end() <= self.seg.mem.len());
        let data: usize = self.base + RING_HEADER;
        self.seg.copy_in(data + at.idx, src, 0, at.first);
        if at.first < n {
            self.seg.copy_in(data, src, at.first, n - at.first);
        }
        proof {
            let mem = old(self)@.mem;
            let cap = self.capacity as int;
            let d = data as int;
            let idx = at.idx as int;
            let first = at.first as int;
            let after = wrapped(mem, d, cap, pos as int, src@);
            assert forall|j: int| 0 <= j < mem.len() implies #[trigger] self@.mem[j] == after[j] by {
                if d <= j < d + cap {
                    let off = j - d;
                    let k = (off - pos) % cap;
                    div_mod::lemma_sub_mod_noop(off, pos as int, cap);
                    div_mod::lemma_sub_mod_noop(off, idx, cap);
                    div_mod::lemma_mod_twice(pos as int, cap);
                    assert(k == (off - idx) % cap);
                    lemma_mod_shift(off, idx, cap);
                    if off >= idx {
                        assert(k == off - idx);
                    } else {
                        assert(k == off - idx + cap);
                    }
                }
            }
            assert(self@.mem =~= after);
        }
    }

    fn read_wrapped(&self, pos: u64, len: usize) -> (out: Vec<u8>)
        requires
            self@.placed(),
            len <= self@.capacity,
        ensures
            out@ == Seq::new(len as nat, |i: int| self@.at(pos + i)),
    {
        let at: Span = span(pos, len, self.capacity);
        assert(self@.end() <= self.seg.mem.len());
        let data: usize = self.base + RING_HEADER;
        let mut out: Vec<u8> = Vec::new();
        self.seg.copy_out(data + at.idx, at.first, &mut out);
        if at.first < len {
            self.seg.copy_out(data, len - at.first, &mut out);
        }
        proof {
            let cap = self.capacity as int;
            let idx = at.idx as int;
            let first = at.first as int;
            assert forall|i: int| 0 <= i < len implies #[trigger] out@[i] == self@.at(pos + i) by {
                div_mod::lemma_add_mod_noop(pos as int, i, cap);
                div_mod::lemma_add_mod_noop(idx, i, cap);
                div_mod::lemma_mod_twice(pos as int, cap);
                assert((pos + i) % cap == (idx + i) % cap);
                if i < first {
                    div_mod::lemma_small_mod((idx + i) as nat, cap as nat);
                } else {
                    div_mod::lemma_mod_sub_multiples_vanish(idx + i, cap);
                    div_mod::lemma_small_mod((idx + i - cap) as nat, cap as nat);
                    assert(out@[i] == self@.mem[data + (i - first)]);
                }
            }
            assert(out@ =~= Seq::new(len as nat, |i: int| self@.at(pos + i)));
        }
        out
    }

    /// Appends a record, and returns `false` where there is no room for it. The caller holds the
    /// producer lock.
    pub fn push_locked(&mut self, data: &[u8]) -> (ok: bool)
        requires
            old(self)@.wf(),
            old(self)@.tail() + old(self)@.capacity <= u64::MAX,
        ensures
            appended(old(self)@, final(self)@, data@, ok),
            final(self)@.data_seq() == old(self)@.data_seq(),
            final(self).seg.name == old(self).seg.name,
    {
        assert(self@.end() <= self.seg.mem.len());
        let head: u64 = self.seg.load_u64(self.base + OFF_HEAD);
        let tail: u64 = self.seg.load_u64(self.base + OFF_TAIL);
        let next: u64 = match push_cursor(self.capacity, head, tail, data.len()) {
            Some(next) => next,
            None => {
                return false;
            },
        };
        let mut prefix: Vec<u8> = Vec::new();
        bytes::push_le(&mut prefix, data.len() as u64, 4);
        let ghost v0 = self@;
        proof {
            bytes::lemma_le_bytes_len(data@.len(), 4);
            assert(prefix@ =~= bytes::le_bytes(data@.len(), 4));
        }
        self.write_wrapped(head, prefix.as_slice());
        let ghost v1 = self@;
        self.write_wrapped(head + 4, data);
        let ghost v2 = self@;
        self.seg.store_u64(self.base + OFF_HEAD, next);
        proof {
            let v3 = self@;
            let cap = v0.capacity;
            let d = v0.data();
            let n8 = bytes::le_bytes(next as nat, 8);
            bytes::lemma_le_bytes_len(next as nat, 8);
            bytes::lemma_pow256_values();
            // The header fields besides `head` are untouched.
            lemma_fields_kept(v0, v1);
            lemma_fields_kept(v1, v2);
            shm::lemma_field_written(v2.mem, v0.base + 64, next as nat, 8);
            shm::lemma_field_kept(v2.mem, v0.base + 64, n8, v0.base + 0, 4);
            shm::lemma_field_kept(v2.mem, v0.base + 64, n8, v0.base + 4, 4);
            shm::lemma_field_kept(v2.mem, v0.base + 64, n8, v0.base + 72, 4);
            shm::lemma_field_kept(v2.mem, v0.base + 64, n8, v0.base + 76, 4);
            shm::lemma_field_kept(v2.mem, v0.base + 64, n8, v0.base + 128, 8);
            shm::lemma_field_kept(v2.mem, v0.base + 64, n8, v0.base + 136, 4);
            // The stream grows by the record.
            let rec = record(data@);
            let grown = v0.stream() + rec;
            assert(v3.stream().len() == grown.len());
            assert forall|i: int| 0 <= i < grown.len() implies #[trigger] v3.stream()[i] == grown[i] by {
                let x = tail + i;
                lemma_wrapped_at(v0.mem, d, cap, head as int, prefix@, x);
                lemma_wrapped_at(v1.mem, d, cap, head + 4, data@, x);
                lemma_mod_shift(x, 0, cap);
            }
            assert(v3.stream() =~= grown);
            lemma_records_append(v0.stream(), data@);
        }
        true
    }

    /// Appends a record and announces it; returns `false` where the ring lacks room.
    pub fn try_push(&mut self, data: &[u8]) -> (ok: bool)
        requires
            old(self)@.wf(),
            old(self)@.tail() + old(self)@.capacity <= u64::MAX,
        ensures
            pushed(old(self)@, final(self)@, data@, ok),
            final(self).seg.name == old(self).seg.name,
    {
        let ok: bool = self.push_locked(data);
        if ok {
            let ghost v0 = self@;
            assert(self@.end() <= self.seg.mem.len());
            let seq: u32 = self.seg.load_u32(self.base + OFF_DATA_SEQ);
            self.seg.store_u32(self.base + OFF_DATA_SEQ, next_seq(seq));
            proof {
                lemma_seq_bumped(v0, self@, OFF_DATA_SEQ as int, seq);
            }
        }
        ok
    }

    /// Takes the oldest record out, `None` where the ring is empty.
    pub fn try_pop(&mut self) -> (r: Option<Vec<u8>>)
        requires
            old(self)@.wf(),
        ensures
            popped(
                old(self)@,
                final(self)@,
                match r {
                    Some(payload) => Some(payload@),
                    None => None,
                },
            ),
            final(self).seg.name == old(self).seg.name,
    {
        assert(self@.end() <= self.seg.mem.len());
        let tail: u64 = self.seg.load_u64(self.base + OFF_TAIL);
        let head: u64 = self.seg.load_u64(self.base + OFF_HEAD);
        let ghost v0 = self@;
        let ghost s = v0.stream();
        if head == tail {
            return None;
        }
        let prefix: Vec<u8> = self.read_wrapped(tail, 4);
        let len: usize = bytes::get_le(prefix.as_slice(), 0, 4) as usize;
        proof {
            assert(prefix@.subrange(0, 4) =~= s.subrange(0, 4));
            assert(s.len() >= 4int + len);
        }
        let next: u64 = match pop_cursor(self.capacity, head, tail, len) {
            Some(next) => next,
            None => {
                assert(false);
                return None;
            },
        };
        let payload: Vec<u8> = self.read_wrapped(tail + 4, len);
        self.seg.store_u64(self.base + OFF_TAIL, next);
        proof {
            let v1 = self@;
            let n8 = bytes::le_bytes(next as nat, 8);
            bytes::lemma_le_bytes_len(next as nat, 8);
            bytes::lemma_pow256_values();
            shm::lemma_field_written(v0.mem, v0.base + 128, next as nat, 8);
            shm::lemma_field_kept(v0.mem, v0.base + 128, n8, v0.base + 0, 4);
            shm::lemma_field_kept(v0.mem, v0.base + 128, n8, v0.base + 4, 4);
            shm::lemma_field_kept(v0.mem, v0.base + 128, n8, v0.base + 64, 8);
            shm::lemma_field_kept(v0.mem, v0.base + 128, n8, v0.base + 72, 4);
            shm::lemma_field_kept(v0.mem, v0.base + 128, n8, v0.base + 76, 4);
            shm::lemma_field_kept(v0.mem, v0.base + 128, n8, v0.base + 136, 4);
            assert forall|i: int| 0 <= i < s.len() - 4 - len implies #[trigger] v1.stream()[i] == s.skip(
                4int + len,
            )[i] by {
                lemma_mod_shift(next + i, 0, v0.capacity);
            }
            assert(v1.stream() =~= s.skip(4int + len));
            assert(payload@ =~= s.subrange(4, 4int + len));
            assert(v0.queue().drop_first() =~= v1.queue());
        }
        let ghost v1 = self@;
        let seq: u32 = self.seg.load_u32(self.base + OFF_SPACE_SEQ);
        self.seg.store_u32(self.base + OFF_SPACE_SEQ, next_seq(seq));
        proof {
            lemma_seq_bumped(v1, self@, OFF_SPACE_SEQ as int, seq);
        }
        Some(payload)
    }
}

/// The value of a wakeup word after one more event; it wraps.
pub fn next_seq(seq: u32) -> (r: u32)
    ensures
        r as nat == (seq as nat + 1) % 0x1_0000_0000,
{
    if seq == 0xffff_ffff {
        0
    } else {
        seq + 1
    }
}

/// A change within the data region keeps every header field.
proof fn lemma_fields_kept(a: RingView, b: RingView)
    requires
        a.placed(),
        b.base == a.base,
        b.mem.len() == a.mem.len(),
        forall|j: int|
            0 <= j < a.mem.len() && !(a.data() <= j < a.end()) ==> #[trigger] b.mem[j] == a.mem[j],
    ensures
        b.magic() == a.magic(),
        b.cap_word() == a.cap_word(),
        b.head() == a.head(),
        b.tail() == a.tail(),
        b.prod_lock() == a.prod_lock(),
        b.space_seq() == a.space_seq(),
        b.data_seq() == a.data_seq(),
{
    let p = a.base;
    assert(b.mem.subrange(p, p + 4) =~= a.mem.subrange(p, p + 4));
    assert(b.mem.subrange(p + 4, p + 8) =~= a.mem.subrange(p + 4, p + 8));
    assert(b.mem.subrange(p + 64, p + 72) =~= a.mem.subrange(p + 64, p + 72));
    assert(b.mem.subrange(p + 72, p + 76) =~= a.mem.subrange(p + 72, p + 76));
    assert(b.mem.subrange(p + 76, p + 80) =~= a.mem.subrange(p + 76, p + 80));
    assert(b.mem.subrange(p + 128, p + 136) =~= a.mem.subrange(p + 128, p + 136));
    assert(b.mem.subrange(p + 136, p + 140) =~= a.mem.subrange(p + 136, p + 140));
}

/// A change outside of a ring leaves the ring as it is.
pub proof fn lemma_same_ring(a: RingView, b: RingView)
    requires
        a.wf(),
        b.base == a.base,
        b.capacity == a.capacity,
        b.mem.len() == a.mem.len(),
        forall|j: int| a.base <= j < a.end() ==> #[trigger] b.mem[j] == a.mem[j],
    ensures
        b.wf(),
        b.queue() == a.queue(),
        b.head() == a.head(),
        b.tail() == a.tail(),
        b.prod_lock() == a.prod_lock(),
        b.space_seq() == a.space_seq(),
        b.data_seq() == a.data_seq(),
{
    let p = a.base;
    assert(b.mem.subrange(p, p + 4) =~= a.mem.subrange(p, p + 4));
    assert(b.mem.subrange(p + 4, p + 8) =~= a.mem.subrange(p + 4, p + 8));
    assert(b.mem.subrange(p + 64, p + 72) =~= a.mem.subrange(p + 64, p + 72));
    assert(b.mem.subrange(p + 72, p + 76) =~= a.mem.subrange(p + 72, p + 76));
    assert(b.mem.subrange(p + 76, p + 80) =~= a.mem.subrange(p + 76, p + 80));
    assert(b.mem.subrange(p + 128, p + 136) =~= a.mem.subrange(p + 128, p + 136));
    assert(b.mem.subrange(p + 136, p + 140) =~= a.mem.subrange(p + 136, p + 140));
    assert forall|i: int| 0 <= i < a.stream().len() implies #[trigger] b.stream()[i]
        == a.stream()[i] by {
        lemma_mod_shift(a.tail() + i, 0, a.capacity);
    }
    assert(b.stream() =~= a.stream());
}

/// Bumping a wakeup word changes nothing else about a ring.
proof fn lemma_seq_bumped(a: RingView, b: RingView, off: int, seq: u32)
    requires
        a.wf(),
        off == OFF_SPACE_SEQ || off == OFF_DATA_SEQ,
        seq as nat == shm::field(a.mem, a.base + off, 4),
        b.base == a.base,
        b.capacity == a.capacity,
        b.mem == bytes::overwrite(
            a.mem,
            a.base + off,
            bytes::le_bytes((seq as nat + 1) % 0x1_0000_0000, 4),
        ),
    ensures
        b.wf(),
        b.same_place(a),
        b.queue() == a.queue(),
        b.head() == a.head(),
        b.tail() == a.tail(),
        b.prod_lock() == a.prod_lock(),
        off == OFF_SPACE_SEQ ==> b.space_seq() == (a.space_seq() + 1) % 0x1_0000_0000
            && b.data_seq() == a.data_seq(),
        off == OFF_DATA_SEQ ==> b.data_seq() == (a.data_seq() + 1) % 0x1_0000_0000
            && b.space_seq() == a.space_seq(),
{
    let x = (seq as nat + 1) % 0x1_0000_0000;
    let n4 = bytes::le_bytes(x, 4);
    let p = a.base;
    bytes::lemma_le_bytes_len(x, 4);
    bytes::lemma_pow256_values();
    shm::lemma_field_written(a.mem, p + off, x, 4);
    shm::lemma_field_kept(a.mem, p + off, n4, p + 0, 4);
    shm::lemma_field_kept(a.mem, p + off, n4, p + 4, 4);
    shm::lemma_field_kept(a.mem, p + off, n4, p + 64, 8);
    shm::lemma_field_kept(a.mem, p + off, n4, p + 72, 4);
    shm::lemma_field_kept(a.mem, p + off, n4, p + 128, 8);
    if off == OFF_SPACE_SEQ {
        shm::lemma_field_kept(a.mem, p + off, n4, p + 136, 4);
    } else {
        shm::lemma_field_kept(a.mem, p + off, n4, p + 76, 4);
    }
    assert forall|i: int| 0 <= i < a.stream().len() implies #[trigger] b.stream()[i]
        == a.stream()[i] by {
        lemma_mod_shift(a.tail() + i, 0, a.capacity);
    }
    assert(b.stream() =~= a.stream());
}

// ---- waiting -------------------------------------------------------------------------------

/// How long a producer without a deadline sleeps between two looks, in nanoseconds.
pub const PUSH_IDLE_NANOS: u64 = 50_000_000;

/// How long a consumer without a deadline sleeps between two looks, in nanoseconds.
pub const POP_IDLE_NANOS: u64 = 100_000_000;

/// How long to sleep: until the deadline that is `remaining` nanoseconds away, `None` where it
/// has passed; for `idle` where there is no deadline.
pub fn park_for(remaining: Option<u64>, idle: u64) -> (r: Option<u64>)
    ensures
        r == (match remaining {
            Some(0) => None,
            Some(n) => Some(n),
            None => Some(idle),
        }),
{
    match remaining {
        Some(n) => if n == 0 {
            None
        } else {
            Some(n)
        },
        None => Some(idle),
    }
}

/// One round of a blocking push.
#[derive(Clone, Copy, Debug, PartialEq, Eq, Structural)]
pub enum PushStep {
    Pushed,
    TimedOut,
    /// Sleep for at most `nanos` while the space word is `seen`, and look again.
    Park { seen: u32, nanos: u64 },
}

/// One round of a blocking pop.
pub enum PopStep {
    Popped(Vec<u8>),
    TimedOut,
    /// Sleep for at most `nanos` while the data word is `seen`, and look again.
    Park { seen: u32, nanos: u64 },
}

impl Ring {
    /// One round of a push that waits for space; its deadline, if it has one, is `remaining`
    /// nanoseconds away.
    pub fn push_blocking(&mut self, data: &[u8], remaining: Option<u64>) -> (r: PushStep)
        requires
            old(self)@.wf(),
            old(self)@.tail() + old(self)@.capacity <= u64::MAX,
        ensures
            pushed(old(self)@, final(self)@, data@, r is Pushed),
            r is TimedOut ==> remaining == Some(0u64),
            r matches PushStep::Park { seen, nanos } ==> {
                &&& seen as nat == final(self)@.space_seq()
                &&& match remaining {
                    Some(n) => n > 0 && nanos == n,
                    None => nanos == PUSH_IDLE_NANOS,
                }
            },
            final(self).seg.name == old(self).seg.name,
    {
        if self.try_push(data) {
            return PushStep::Pushed;
        }
        assert(self@.end() <= self.seg.mem.len());
        let seen: u32 = self.seg.load_u32(self.base + OFF_SPACE_SEQ);
        match park_for(remaining, PUSH_IDLE_NANOS) {
            Some(nanos) => PushStep::Park { seen, nanos },
            None => PushStep::TimedOut,
        }
    }

    /// One round of a pop that waits for a record; its deadline, if it has one, is `remaining`
    /// nanoseconds away. The data word is read before the ring is looked at, so that a record
    /// that comes in between ends the sleep.
    pub fn pop_blocking(&mut self, remaining: Option<u64>) -> (r: PopStep)
        requires
            old(self)@.wf(),
        ensures
            popped(
                old(self)@,
                final(self)@,
                match r {
                    PopStep::Popped(payload) => Some(payload@),
                    _ => None,
                },
            ),
            r is TimedOut ==> remaining == Some(0u64),
            r matches PopStep::Park { seen, nanos } ==> {
                &&& seen as nat == old(self)@.data_seq()
                &&& match remaining {
                    Some(n) => n > 0 && nanos == n,
                    None => nanos == POP_IDLE_NANOS,
                }
            },
            final(self).seg.name == old(self).seg.name,
    {
        assert(self@.end() <= self.seg.mem.len());
        let seen: u32 = self.seg.load_u32(self.base + OFF_DATA_SEQ);
        match self.try_pop() {
            Some(payload) => PopStep::Popped(payload),
            None => match park_for(remaining, POP_IDLE_NANOS) {
                Some(nanos) => PopStep::Park { seen, nanos },
                None => PopStep::TimedOut,
            },
        }
    }
}

// ---- laws ----------------------------------------------------------------------------------

/// One operation on a ring with its outcome.
pub ghost enum Event {
    Pushed(Seq<u8>),
    Refused(Seq<u8>),
    Popped(Seq<u8>),
    Empty,
}

/// The operation of `e` leads from `a` to `b`.
pub open spec fn step(a: RingView, e: Event, b: RingView) -> bool {
    match e {
        Event::Pushed(data) => pushed(a, b, data, true),
        Event::Refused(data) => pushed(a, b, data, false),
        Event::Popped(payload) => popped(a, b, Some(payload)),
        Event::Empty => popped(a, b, None),
    }
}

/// The payloads that a run of operations put in, in order.
pub open spec fn accepted(events: Seq<Event>) -> Seq<Seq<u8>>
    decreases events.len(),
{
    if events.len() == 0 {
        Seq::empty()
    } else {
        match events.last() {
            Event::Pushed(data) => accepted(events.drop_last()).push(data),
            _ => accepted(events.drop_last()),
        }
    }
}

/// The payloads that a run of operations took out, in order.
pub open spec fn taken(events: Seq<Event>) -> Seq<Seq<u8>>
    decreases events.len(),
{
    if events.len() == 0 {
        Seq::empty()
    } else {
        match events.last() {
            Event::Popped(payload) => taken(events.drop_last()).push(payload),
            _ => taken(events.drop_last()),
        }
    }
}

/// Records come out in the order in which they went in, none lost, none twice: over any run of
/// operations, what was queued before and what was accepted is what was taken and what is still
/// queued.
pub proof fn law_first_in_first_out(states: Seq<RingView>, events: Seq<Event>)
    requires
        states.len() == events.len() + 1,
        states[0].wf(),
        forall|i: int|
            0 <= i < events.len() ==> step(states[i], #[trigger] events[i], states[i + 1]),
    ensures
        states.last().wf(),
        states[0].queue() + accepted(events) == taken(events) + states.last().queue(),
    decreases events.len(),
{
    if events.len() == 0 {
        assert(states[0].queue() + accepted(events) =~= taken(events) + states.last().queue());
    } else {
        let n = events.len() - 1;
        let s0 = states.drop_last();
        let e0 = events.drop_last();
        assert forall|i: int| 0 <= i < e0.len() implies step(s0[i], #[trigger] e0[i], s0[i + 1]) by {
            assert(e0[i] == events[i]);
        }
        law_first_in_first_out(s0, e0);
        let a = states[n];
        let b = states[n + 1];
        assert(step(a, events[n], b));
        assert(s0.last() == a);
        match events[n] {
            Event::Pushed(data) => {
                assert(states[0].queue() + accepted(e0).push(data) =~= (states[0].queue()
                    + accepted(e0)).push(data));
                assert(taken(e0) + a.queue().push(data) =~= (taken(e0) + a.queue()).push(data));
            },
            Event::Popped(payload) => {
                assert(taken(e0).push(payload) + a.queue().drop_first() =~= taken(e0) + a.queue());
            },
            _ => {},
        }
    }
}

/// The bytes in use are those of the queued records with their length prefixes.
pub proof fn law_used_bytes(ring: RingView)
    requires
        ring.wf(),
    ensures
        ring.used() == queue_bytes(ring.queue()),
{
    lemma_records_bytes(ring.stream());
}

/// A refused record fits once as many bytes as it takes were popped: popping a record makes room
/// for any record that is no longer.
pub proof fn law_pop_makes_room(a: RingView, b: RingView, c: RingView, payload: Seq<u8>, data: Seq<u8>, ok: bool)
    requires
        a.wf(),
        popped(a, b, Some(payload)),
        pushed(b, c, data, ok),
        data.len() <= payload.len(),
    ensures
        ok,
{
}

/// A formatted ring can be attached to, with the capacity that it was formatted with.
pub proof fn law_attach_formatted(ring: RingView)
    requires
        ring.wf(),
    ensures
        attached_capacity(ring.mem, ring.base) == Ok::<nat, RingError>(ring.capacity as nat),
{
}

/// A push ends the sleep of a consumer that parked before it, and a pop that of a producer: the
/// word that the sleeper compares with has changed.
pub proof fn law_no_lost_wakeup(a: RingView, b: RingView, data: Seq<u8>, payload: Seq<u8>)
    requires
        a.wf(),
    ensures
        pushed(a, b, data, true) ==> b.data_seq() != a.data_seq(),
        popped(a, b, Some(payload)) ==> b.space_seq() != a.space_seq(),
{
}

/// Where the words of a ring lie in its segment, and where the byte at a cursor does.
pub proof fn law_ring_layout(ring: RingView, i: int)
    requires
        ring.placed(),
    ensures
        ring.magic() == bytes::le_value(ring.mem.subrange(ring.base, ring.base + 4)),
        ring.cap_word() == bytes::le_value(ring.mem.subrange(ring.base + 4, ring.base + 8)),
        ring.head() == bytes::le_value(ring.mem.subrange(ring.base + 64, ring.base + 72)),
        ring.prod_lock() == bytes::le_value(ring.mem.subrange(ring.base + 72, ring.base + 76)),
        ring.space_seq() == bytes::le_value(ring.mem.subrange(ring.base + 76, ring.base + 80)),
        ring.tail() == bytes::le_value(ring.mem.subrange(ring.base + 128, ring.base + 136)),
        ring.data_seq() == bytes::le_value(ring.mem.subrange(ring.base + 136, ring.base + 140)),
        ring.end() == ring.base + 192 + ring.capacity,
        ring.wf() ==> ring.magic() == 0x474e_4952 && ring.cap_word() == ring.capacity
            && ring.stream().len() == ring.head() - ring.tail(),
        ring.wf() && 0 <= i < ring.head() - ring.tail() ==> ring.stream()[i] == ring.mem[ring.base
            + 192 + (ring.tail() + i) % ring.capacity],
{
}

/// A record is the length of its payload in four bytes, the low byte first, and then the whole
/// payload; a stream of records tells their payloads.
pub proof fn law_record_layout(payload: Seq<u8>, rest: Seq<u8>)
    requires
        payload.len() <= u32::MAX,
    ensures
        ({
            let s = record(payload);
            &&& s.len() == 4 + payload.len()
            &&& s[0] + 0x100 * s[1] + 0x1_0000 * s[2] + 0x100_0000 * s[3] == payload.len()
            &&& s.skip(4) == payload
            &&& records(s + rest) == (match records(rest) {
                Some(q) => Some(seq![payload] + q),
                None => None,
            })
        }),
        records(Seq::empty()) == Some(Seq::<Seq<u8>>::empty()),
{
    bytes::lemma_pow256_values();
    bytes::lemma_le_bytes_len(payload.len(), 4);
    bytes::lemma_le_value_of_bytes(payload.len(), 4);
    let s = record(payload);
    let t = s + rest;
    assert(s.subrange(0, 4) =~= bytes::le_bytes(payload.len(), 4));
    bytes::law_little_endian(s.subrange(0, 4));
    assert(s.skip(4) =~= payload);
    assert(t.subrange(0, 4) =~= bytes::le_bytes(payload.len(), 4));
    assert(t.subrange(4, 4int + payload.len()) =~= payload);
    assert(t.skip(4int + payload.len()) =~= rest);
}

/// A ring is formatted wherever the segment has room for its header of 192 bytes and its data
/// region, whatever the segment held; who attaches to it finds an empty ring of that capacity.
pub proof fn law_ring_is_made(
    seg: Segment,
    base: usize,
    capacity: usize,
    r: Result<Ring, RingError>,
    image: Segment,
    found: Result<Ring, RingError>,
)
    requires
        power2::is_pow2(capacity as int),
        base % 64 == 0,
        capacity <= u32::MAX,
        call_ensures(Ring::format, (seg, base, capacity), r),
        r matches Ok(ring) ==> image@ == ring.seg@,
        r is Ok ==> call_ensures(Ring::attach, (image, base), found),
    ensures
        r is Ok <==> base + 192 + capacity <= seg@.len(),
        r is Err ==> r == Err::<Ring, RingError>(RingError::TooSmall),
        r matches Ok(ring) ==> ring.base == base && ring.capacity == capacity && ring@.mem.len()
            == seg@.len() && ring@.head() == 0 && ring@.tail() == 0,
        r is Ok ==> found is Ok,
        r is Ok ==> (found matches Ok(ring) ==> ring.base == base && ring.capacity == capacity
            && ring.seg == image && ring@.wf() && ring@.queue() == Seq::<Seq<u8>>::empty()),
{
    if let (Ok(ring), Ok(other)) = (r, found) {
        assert(other@ =~= ring@);
    }
}

/// Who attaches finds a ring exactly where its marker is there and its capacity is a power of two
/// whose data region the segment holds.
pub proof fn law_ring_is_found(seg: Segment, base: usize, r: Result<Ring, RingError>)
    requires
        base + 192 <= seg@.len(),
        call_ensures(Ring::attach, (seg, base), r),
    ensures
        ({
            let magic = bytes::le_value(seg@.subrange(base as int, base + 4));
            let cap = bytes::le_value(seg@.subrange(base + 4, base + 8));
            &&& r == Err::<Ring, RingError>(RingError::BadMagic) <==> magic != 0x474e_4952
            &&& r is Ok <==> magic == 0x474e_4952 && power2::is_pow2(cap as int) && base + 192 + cap
                <= seg@.len()
            &&& r != Err::<Ring, RingError>(RingError::TooSmall)
            &&& r matches Ok(ring) ==> ring.seg == seg && ring.base == base && ring.capacity == cap
        }),
{
}

/// A record goes into a ring exactly where it fits together with what is queued, each record with
/// its four bytes of length. It then is the last one, and the data word is one further; otherwise
/// nothing changes.
pub proof fn law_push_takes_what_fits(ring: &mut Ring, data: &[u8], ok: bool)
    requires
        old(ring)@.wf(),
        old(ring)@.tail() + old(ring)@.capacity <= u64::MAX,
        call_ensures(Ring::try_push, (ring, data), ok),
    ensures
        ok <==> queue_bytes(old(ring)@.queue()) + 4 + data@.len() <= old(ring).capacity,
        final(ring)@.wf(),
        final(ring).base == old(ring).base && final(ring).capacity == old(ring).capacity,
        ok ==> final(ring)@.queue() == old(ring)@.queue() + seq![data@],
        ok ==> final(ring)@.data_seq() == (old(ring)@.data_seq() + 1) % 0x1_0000_0000,
        final(ring)@.tail() == old(ring)@.tail(),
        final(ring)@.space_seq() == old(ring)@.space_seq(),
        final(ring)@.prod_lock() == old(ring)@.prod_lock(),
        !ok ==> final(ring)@ == old(ring)@,
{
    law_used_bytes(old(ring)@);
    if ok {
        assert(final(ring)@.queue() =~= old(ring)@.queue() + seq![data@]);
    }
}

/// What is taken out of a ring is the record that went in first, and the space word is one
/// further; an empty ring gives nothing and does not change.
pub proof fn law_pop_takes_the_oldest(ring: &mut Ring, r: Option<Vec<u8>>)
    requires
        old(ring)@.wf(),
        call_ensures(Ring::try_pop, (ring,), r),
    ensures
        r is Some <==> old(ring)@.queue().len() > 0,
        r matches Some(payload) ==> seq![payload@] + final(ring)@.queue() == old(ring)@.queue(),
        r is Some ==> final(ring)@.space_seq() == (old(ring)@.space_seq() + 1) % 0x1_0000_0000,
        final(ring)@.wf(),
        final(ring)@.head() == old(ring)@.head(),
        final(ring)@.data_seq() == old(ring)@.data_seq(),
        final(ring)@.prod_lock() == old(ring)@.prod_lock(),
        r is None ==> final(ring)@ == old(ring)@,
{
    if let Some(payload) = r {
        assert(seq![payload@] + final(ring)@.queue() =~= old(ring)@.queue());
    }
}

/// What is pushed into an empty ring is what is popped from it.
pub proof fn law_pushed_is_popped(
    ring: &mut Ring,
    data: &[u8],
    ok: bool,
    after: &mut Ring,
    r: Option<Vec<u8>>,
)
    requires
        old(ring)@.wf(),
        old(ring)@.queue().len() == 0,
        old(ring)@.tail() + old(ring)@.capacity <= u64::MAX,
        call_ensures(Ring::try_push, (ring, data), ok),
        old(after)@ == final(ring)@,
        call_ensures(Ring::try_pop, (after,), r),
    ensures
        ok <==> 4 + data@.len() <= old(ring).capacity,
        ok ==> r is Some,
        ok ==> (r matches Some(payload) ==> payload@ == data@),
        !ok ==> r is None,
        final(after)@.queue().len() == 0,
{
    law_used_bytes(old(ring)@);
}

/// A round of a push that waits puts the record in where it fits; where it does not, it gives up
/// as no time is left, and otherwise sleeps for what is left, or for 50 milliseconds where there is
/// no deadline, while the space word stays what it is.
pub proof fn law_push_round(ring: &mut Ring, data: &[u8], remaining: Option<u64>, r: PushStep)
    requires
        old(ring)@.wf(),
        old(ring)@.tail() + old(ring)@.capacity <= u64::MAX,
        call_ensures(Ring::push_blocking, (ring, data, remaining), r),
    ensures
        r is Pushed <==> queue_bytes(old(ring)@.queue()) + 4 + data@.len() <= old(ring).capacity,
        r is Pushed ==> final(ring)@.queue() == old(ring)@.queue() + seq![data@],
        !(r is Pushed) ==> final(ring)@ == old(ring)@,
        r is TimedOut <==> !(r is Pushed) && remaining == Some(0u64),
        r matches PushStep::Park { seen, nanos } ==> seen == old(ring)@.space_seq()
            && nanos > 0 && (
        match remaining {
            Some(n) => nanos == n,
            None => nanos == 50_000_000,
        }),
{
    law_used_bytes(old(ring)@);
    if r is Pushed {
        assert(final(ring)@.queue() =~= old(ring)@.queue() + seq![data@]);
    }
}

/// A round of a pop that waits takes the oldest record where there is one; where there is none, it
/// gives up as no time is left, and otherwise sleeps for what is left, or for 100 milliseconds
/// where there is no deadline, while the data word stays what it is.
pub proof fn law_pop_round(ring: &mut Ring, remaining: Option<u64>, r: PopStep)
    requires
        old(ring)@.wf(),
        call_ensures(Ring::pop_blocking, (ring, remaining), r),
    ensures
        r is Popped <==> old(ring)@.queue().len() > 0,
        r matches PopStep::Popped(payload) ==> seq![payload@] + final(ring)@.queue()
            == old(ring)@.queue(),
        !(r is Popped) ==> final(ring)@ == old(ring)@,
        r is TimedOut <==> !(r is Popped) && remaining == Some(0u64),
        r matches PopStep::Park { seen, nanos } ==> seen == old(ring)@.data_seq() && nanos > 0 && (
        match remaining {
            Some(n) => nanos == n,
            None => nanos == 100_000_000,
        }),
{
    if let PopStep::Popped(payload) = r {
        assert(seq![payload@] + final(ring)@.queue() =~= old(ring)@.queue());
    }
}

/// A producer may go on exactly as far as the consumer, and a consumer exactly as far as the
/// producer: a record that was pushed can be popped, and leaves the cursors where it ended.
pub proof fn law_cursors_meet(
    capacity: usize,
    head: u64,
    tail: u64,
    len: usize,
    pushed_to: Option<u64>,
    popped_to: Option<u64>,
)
    requires
        tail <= head <= tail + capacity,
        tail + capacity <= u64::MAX,
        call_ensures(push_cursor, (capacity, head, tail, len), pushed_to),
        pushed_to matches Some(next) ==> call_ensures(
            pop_cursor,
            (capacity, next, head, len),
            popped_to,
        ),
    ensures
        pushed_to is Some <==> head + 4 + len <= tail + capacity,
        pushed_to matches Some(next) ==> next == head + 4 + len && popped_to == Some(next),
{
}

/// A run of bytes lies in the data region from its cursor's place on, and what does not fit before
/// the end lies at the start.
pub proof fn law_span_wraps(pos: u64, len: usize, capacity: usize, r: Span, i: int)
    requires
        0 < capacity,
        len <= capacity,
        0 <= i < len,
        call_ensures(span, (pos, len, capacity), r),
    ensures
        (pos + i) % (capacity as int) == (if i < r.first {
            r.idx + i
        } else {
            i - r.first
        }),
        r.first < len ==> r.idx + r.first == capacity,
{
    let cap = capacity as int;
    let k = pos as int / cap;
    div_mod::lemma_fundamental_div_mod(pos as int, cap);
    if i < r.first {
        div_mod::lemma_fundamental_div_mod_converse(pos + i, cap, k, r.idx + i);
    } else {
        assert(cap * (k + 1) == cap * k + cap) by (nonlinear_arith);
        div_mod::lemma_fundamental_div_mod_converse(pos + i, cap, k + 1, i - r.first);
    }
}

/// The next value of a wakeup word is another one, and after all of them the first comes again.
pub proof fn law_words_wrap(seq: u32, r: u32, capacity: usize, n: usize)
    requires
        192 + capacity <= usize::MAX,
        call_ensures(next_seq, (seq,), r),
        call_ensures(ring_bytes, (capacity,), n),
    ensures
        seq < u32::MAX ==> r == seq + 1,
        seq == u32::MAX ==> r == 0,
        n == 192 + capacity,
{
}

/// The words of a ring's error.
pub proof fn law_ring_error_words(e: RingError, words: String)
    requires
        call_ensures(RingError::message, (&e,), words),
    ensures
        words@ == match e {
            RingError::TooSmall => "segment too small for ring"@,
            RingError::BadMagic => "ring magic mismatch / not formatted"@,
            RingError::BadCapacity => "ring capacity invalid"@,
        },
{
}

} // verus!
