//! The control segment: the well-known place where connectors find the broker.
//!
//! ```text
//! offset  size  field
//! 0       8     magic        "IMPRING\0"
//! 8       4     version      1
//! 12      4     broker_pid
//! 16      8     epoch        start time of the broker; differs from run to run
//! 64      ...   submission ring (connectors to broker)
//! ```
use vstd::arithmetic::power2;
use vstd::prelude::*;

use crate::bytes;
use crate::pow2;
use crate::ring;
use crate::ring::{Ring, RingError, RING_HEADER};
use crate::shm;
use crate::shm::Segment;
use crate::text;

verus! {

/// `"IMPRING\0"`, little-endian.
pub const CTL_MAGIC: u64 = 0x0047_4e49_5250_4d49;

pub const CTL_VERSION: u32 = 1;

pub const OFF_MAGIC: usize = 0;

pub const OFF_VERSION: usize = 8;

pub const OFF_PID: usize = 12;

pub const OFF_EPOCH: usize = 16;

/// Place of the submission ring in the control segment.
pub const SUBMISSION_BASE: usize = 64;

/// Size of the submission ring's data region.
pub const SUBMISSION_CAP: usize = 0x1_0000;

/// Size of the data region of a connector's reply ring. A reply is one record, so this bounds
/// the size of a response.
pub const REPLY_CAP: usize = 0x8_0000;

/// Size of the data region of a channel's or a function's arena, where nobody asks for another.
pub const ARENA_CAP: usize = 0x8_0000;

/// The smallest arena that can be asked for.
pub const MIN_ARENA_CAP: usize = 0x4_0000;

/// The largest arena that can be asked for.
pub const MAX_ARENA_CAP: usize = 0x800_0000;

/// `x` within `lo` and `hi`.
pub open spec fn clamped(x: int, lo: int, hi: int) -> int {
    if x < lo {
        lo
    } else if x > hi {
        hi
    } else {
        x
    }
}

pub(crate) proof fn lemma_caps_are_powers()
    ensures
        power2::is_pow2(ARENA_CAP as int),
        power2::is_pow2(MIN_ARENA_CAP as int),
        power2::is_pow2(MAX_ARENA_CAP as int),
        power2::is_pow2(SUBMISSION_CAP as int),
        power2::is_pow2(REPLY_CAP as int),
{
    reveal_with_fuel(power2::is_pow2, 28);
}

/// The capacity of an arena for which `requested` bytes were asked: the default for 0, and
/// otherwise the request, kept within the bounds and rounded up to a power of two.
pub fn clamp_arena_cap(requested: usize) -> (r: usize)
    ensures
        requested == 0 ==> r == ARENA_CAP,
        requested != 0 ==> {
            let want = clamped(requested as int, MIN_ARENA_CAP as int, MAX_ARENA_CAP as int);
            &&& want <= r
            &&& forall|p: int| #[trigger] power2::is_pow2(p) && want <= p ==> r <= p
        },
        power2::is_pow2(r as int),
        MIN_ARENA_CAP <= r <= MAX_ARENA_CAP,
{
    proof {
        lemma_caps_are_powers();
    }
    if requested == 0 {
        return ARENA_CAP;
    }
    let want: usize = if requested < MIN_ARENA_CAP {
        MIN_ARENA_CAP
    } else if requested > MAX_ARENA_CAP {
        MAX_ARENA_CAP
    } else {
        requested
    };
    pow2::next_power_of_two(want)
}

/// A request that is a legal capacity already is granted as it is, and a larger request never
/// gets less.
pub proof fn law_clamp_arena_cap(a: int, ra: int, b: int, rb: int)
    requires
        0 < a <= b,
        clamped(a, MIN_ARENA_CAP as int, MAX_ARENA_CAP as int) <= ra,
        forall|p: int| #[trigger]
            power2::is_pow2(p) && clamped(a, MIN_ARENA_CAP as int, MAX_ARENA_CAP as int) <= p ==> ra
                <= p,
        power2::is_pow2(rb),
        clamped(b, MIN_ARENA_CAP as int, MAX_ARENA_CAP as int) <= rb,
    ensures
        ra <= rb,
        power2::is_pow2(a) && MIN_ARENA_CAP <= a <= MAX_ARENA_CAP ==> ra == a,
{
}

/// Bytes of the control segment.
pub fn control_segment_bytes() -> (r: usize)
    ensures
        r == SUBMISSION_BASE + RING_HEADER + SUBMISSION_CAP,
{
    SUBMISSION_BASE + ring::ring_bytes(SUBMISSION_CAP)
}

/// Why there is no usable control segment.
#[derive(Clone, Copy, Debug, PartialEq, Eq, Structural)]
pub enum ControlError {
    BadMagic,
    Version(u32),
    Ring(RingError),
}

impl ControlError {
    /// The error in words.
    pub open spec fn text(self) -> Seq<char> {
        match self {
            ControlError::BadMagic => "control magic mismatch (broker not running?)"@,
            ControlError::Version(v) => "control version "@ + text::decimal(v as nat)
                + " unsupported"@,
            ControlError::Ring(e) => e.text(),
        }
    }

    /// The error in words.
    pub fn message(&self) -> (r: String)
        ensures
            r@ == self.text(),
    {
        match self {
            ControlError::BadMagic => "control magic mismatch (broker not running?)".to_owned(),
            ControlError::Version(v) => {
                let mut s: String = "control version ".to_owned();
                s.append(text::decimal_string(*v as u64).as_str());
                s.append(" unsupported");
                s
            },
            ControlError::Ring(e) => e.message(),
        }
    }
}

/// What the first bytes of a control segment must say before its ring is used.
pub open spec fn superblock(magic: u64, version: u32) -> Result<(), ControlError> {
    if magic != CTL_MAGIC {
        Err(ControlError::BadMagic)
    } else if version != CTL_VERSION {
        Err(ControlError::Version(version))
    } else {
        Ok(())
    }
}

/// Checks the first words of a control segment.
pub fn check_superblock(magic: u64, version: u32) -> (r: Result<(), ControlError>)
    ensures
        r == superblock(magic, version),
{
    if magic != CTL_MAGIC {
        return Err(ControlError::BadMagic);
    }
    if version != CTL_VERSION {
        return Err(ControlError::Version(version));
    }
    Ok(())
}

/// Writes the superblock and an empty submission ring.
pub fn format_control(seg: Segment, broker_pid: i32, epoch: u64) -> (r: Result<Ring, RingError>)
    ensures
        r is Ok <==> SUBMISSION_BASE + RING_HEADER + SUBMISSION_CAP <= seg@.len(),
        r matches Err(e) ==> e == RingError::TooSmall,
        r matches Ok(ring) ==> {
            &&& ring@.wf()
            &&& ring@.base == SUBMISSION_BASE
            &&& ring@.capacity == SUBMISSION_CAP
            &&& ring@.queue() == Seq::<Seq<u8>>::empty()
            &&& ring.seg.name == seg.name
            &&& shm::field(ring@.mem, OFF_MAGIC as int, 8) == CTL_MAGIC
            &&& shm::field(ring@.mem, OFF_VERSION as int, 4) == CTL_VERSION
            &&& shm::field(ring@.mem, OFF_PID as int, 4) == broker_pid as u32
            &&& shm::field(ring@.mem, OFF_EPOCH as int, 8) == epoch
        },
{
    proof {
        lemma_caps_are_powers();
    }
    let mut ring: Ring = match Ring::format(seg, SUBMISSION_BASE, SUBMISSION_CAP) {
        Ok(ring) => ring,
        Err(e) => {
            return Err(e);
        },
    };
    let ghost r0 = ring@;
    assert(ring@.end() <= ring.seg.mem.len());
    let pid_word: u32 = #[verifier::truncate]
    (broker_pid as u32);
    ring.seg.store_u32(OFF_VERSION, CTL_VERSION);
    let ghost r1 = ring@;
    ring.seg.store_u32(OFF_PID, pid_word);
    let ghost r2 = ring@;
    ring.seg.store_u64(OFF_EPOCH, epoch);
    let ghost r3 = ring@;
    ring.seg.store_u64(OFF_MAGIC, CTL_MAGIC);
    proof {
        bytes::lemma_pow256_values();
        let v = bytes::le_bytes(CTL_VERSION as nat, 4);
        let p = bytes::le_bytes(pid_word as nat, 4);
        let e = bytes::le_bytes(epoch as nat, 8);
        let m = bytes::le_bytes(CTL_MAGIC as nat, 8);
        bytes::lemma_le_bytes_len(CTL_VERSION as nat, 4);
        bytes::lemma_le_bytes_len(pid_word as nat, 4);
        bytes::lemma_le_bytes_len(epoch as nat, 8);
        bytes::lemma_le_bytes_len(CTL_MAGIC as nat, 8);
        shm::lemma_field_written(r0.mem, 8, CTL_VERSION as nat, 4);
        shm::lemma_field_kept(r1.mem, 12, p, 8, 4);
        shm::lemma_field_kept(r2.mem, 16, e, 8, 4);
        shm::lemma_field_kept(r3.mem, 0, m, 8, 4);
        shm::lemma_field_written(r1.mem, 12, pid_word as nat, 4);
        shm::lemma_field_kept(r2.mem, 16, e, 12, 4);
        shm::lemma_field_kept(r3.mem, 0, m, 12, 4);
        shm::lemma_field_written(r2.mem, 16, epoch as nat, 8);
        shm::lemma_field_kept(r3.mem, 0, m, 16, 8);
        shm::lemma_field_written(r3.mem, 0, CTL_MAGIC as nat, 8);
        ring::lemma_same_ring(r0, ring@);
    }
    Ok(ring)
}

/// The submission ring of a control segment, once its superblock was checked.
pub fn attach_control(seg: Segment) -> (r: Result<Ring, ControlError>)
    requires
        SUBMISSION_BASE + RING_HEADER <= seg@.len(),
    ensures
        ({
            let magic = shm::field(seg@, OFF_MAGIC as int, 8) as u64;
            let version = shm::field(seg@, OFF_VERSION as int, 4) as u32;
            match superblock(magic, version) {
                Err(e) => r == Err::<Ring, ControlError>(e),
                Ok(_) => match ring::attached_capacity(seg@, SUBMISSION_BASE as int) {
                    Err(e) => r == Err::<Ring, ControlError>(ControlError::Ring(e)),
                    Ok(cap) => r matches Ok(ring) && ring.seg == seg && ring.base == SUBMISSION_BASE
                        && ring.capacity == cap && ring@.placed(),
                },
            }
        }),
{
    assert(SUBMISSION_BASE + RING_HEADER <= seg.mem.len());
    let magic: u64 = seg.load_u64(OFF_MAGIC);
    let version: u32 = seg.load_u32(OFF_VERSION);
    match check_superblock(magic, version) {
        Ok(_) => match Ring::attach(seg, SUBMISSION_BASE) {
            Ok(ring) => Ok(ring),
            Err(e) => Err(ControlError::Ring(e)),
        },
        Err(e) => Err(e),
    }
}

/// The process of the broker that formatted a control segment.
pub fn broker_pid(seg: &Segment) -> (r: i32)
    requires
        OFF_PID + 4 <= seg@.len(),
    ensures
        r as u32 as nat == shm::field(seg@, OFF_PID as int, 4),
{
    assert(OFF_PID + 4 <= seg.mem.len());
    let word: u32 = seg.load_u32(OFF_PID);
    let pid: i32 = #[verifier::truncate]
    (word as i32);
    assert((word as i32) as u32 == word) by (bit_vector);
    pid
}

/// The epoch of the broker that formatted a control segment.
pub fn broker_epoch(seg: &Segment) -> (r: u64)
    requires
        OFF_EPOCH + 8 <= seg@.len(),
    ensures
        r as nat == shm::field(seg@, OFF_EPOCH as int, 8),
{
    assert(OFF_EPOCH + 8 <= seg.mem.len());
    seg.load_u64(OFF_EPOCH)
}

/// A control segment that was formatted can be attached to, and says who formatted it.
pub proof fn law_attach_formatted_control(ring: ring::RingView, pid: i32, read: i32)
    requires
        ring.wf(),
        ring.base == SUBMISSION_BASE,
        shm::field(ring.mem, OFF_MAGIC as int, 8) == CTL_MAGIC,
        shm::field(ring.mem, OFF_VERSION as int, 4) == CTL_VERSION,
        shm::field(ring.mem, OFF_PID as int, 4) == pid as u32,
        read as u32 as nat == shm::field(ring.mem, OFF_PID as int, 4),
    ensures
        superblock(
            shm::field(ring.mem, OFF_MAGIC as int, 8) as u64,
            shm::field(ring.mem, OFF_VERSION as int, 4) as u32,
        ) == Ok::<(), ControlError>(()),
        ring::attached_capacity(ring.mem, SUBMISSION_BASE as int) == Ok::<nat, RingError>(
            ring.capacity as nat,
        ),
        read == pid,
{
    ring::law_attach_formatted(ring);
    assert(read as u32 == pid as u32 ==> read == pid) by (bit_vector);
}

/// An arena gets the smallest power of two that holds what was asked for, but no less than 256 KiB
/// and no more than 128 MiB, and 512 KiB where nothing was asked for.
pub proof fn law_arena_gets_what_was_asked(requested: usize, r: usize)
    requires
        call_ensures(clamp_arena_cap, (requested,), r),
    ensures
        power2::is_pow2(r as int),
        requested == 0 ==> r == 0x8_0000,
        0x4_0000 <= r <= 0x800_0000,
        0 < requested <= 0x4_0000 ==> r == 0x4_0000,
        requested >= 0x800_0000 ==> r == 0x800_0000,
        0x4_0000 <= requested <= 0x800_0000 ==> requested <= r && r < 2 * requested,
        0x4_0000 <= requested <= 0x800_0000 && power2::is_pow2(requested as int) ==> r == requested,
{
    lemma_caps_are_powers();
    if 0x4_0000 <= requested <= 0x800_0000 {
        assert(r < 2 * requested) by {
            reveal(power2::is_pow2);
            assert(power2::is_pow2(r as int / 2));
        }
    }
}

/// Who attaches to a control segment that was formatted finds the broker's process, its epoch and
/// an empty submission ring, whatever the segment held before.
pub proof fn law_control_says_who_made_it(
    seg: Segment,
    pid: i32,
    epoch: u64,
    r: Result<Ring, RingError>,
    image: Segment,
    found: Result<Ring, ControlError>,
    read_pid: i32,
    read_epoch: u64,
)
    requires
        call_ensures(format_control, (seg, pid, epoch), r),
        r matches Ok(ring) ==> image@ == ring.seg@,
        r is Ok ==> call_ensures(attach_control, (image,), found),
        r is Ok ==> call_ensures(broker_pid, (&image,), read_pid),
        r is Ok ==> call_ensures(broker_epoch, (&image,), read_epoch),
    ensures
        r is Ok <==> 64 + 192 + 0x1_0000 <= seg@.len(),
        r is Err ==> r == Err::<Ring, RingError>(RingError::TooSmall),
        r is Ok ==> read_pid == pid && read_epoch == epoch,
        r is Ok ==> found is Ok,
        r is Ok ==> (found matches Ok(ring) ==> ring.base == 64 && ring.capacity == 0x1_0000
            && ring.seg == image && ring@.wf() && ring@.queue() == Seq::<Seq<u8>>::empty()),
        r is Ok ==> bytes::le_value(image@.subrange(0, 8)) == 0x0047_4e49_5250_4d49
            && bytes::le_value(image@.subrange(8, 12)) == 1 && bytes::le_value(
            image@.subrange(12, 16),
        ) == pid as u32 && bytes::le_value(image@.subrange(16, 24)) == epoch,
{
    if let Ok(ring) = r {
        law_attach_formatted_control(ring@, pid, read_pid);
        if let Ok(other) = found {
            assert(other@ =~= ring@);
        }
    }
}

/// A control segment is used only where it begins with the marker and has version 1, and the
/// marker is looked at first.
pub proof fn law_superblock_is_checked(
    magic: u64,
    version: u32,
    r: Result<(), ControlError>,
    n: usize,
)
    requires
        call_ensures(check_superblock, (magic, version), r),
        call_ensures(control_segment_bytes, (), n),
    ensures
        r is Ok <==> magic == 0x0047_4e49_5250_4d49 && version == 1,
        r == Err::<(), ControlError>(ControlError::BadMagic) <==> magic != 0x0047_4e49_5250_4d49,
        r is Err && magic == 0x0047_4e49_5250_4d49 ==> r == Err::<(), ControlError>(
            ControlError::Version(version),
        ),
        n == 64 + 192 + 0x1_0000,
{
}

/// The words of a control segment's error.
pub proof fn law_control_error_words(e: ControlError, words: String)
    requires
        call_ensures(ControlError::message, (&e,), words),
    ensures
        words@ == match e {
            ControlError::BadMagic => "control magic mismatch (broker not running?)"@,
            ControlError::Version(v) => "control version "@ + text::decimal(v as nat)
                + " unsupported"@,
            ControlError::Ring(RingError::TooSmall) => "segment too small for ring"@,
            ControlError::Ring(RingError::BadMagic) => "ring magic mismatch / not formatted"@,
            ControlError::Ring(RingError::BadCapacity) => "ring capacity invalid"@,
        },
{
}

} // verus!
