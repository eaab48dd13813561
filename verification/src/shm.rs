//! Shared-memory segments: the image of a mapped segment, segment names, and what the results of
//! system calls on segments mean.
use vstd::prelude::*;

use crate::bytes;
use crate::text;

verus! {

/// Directory where Linux exposes POSIX shared memory.
pub const SHM_DIR: &'static str = "/dev/shm";

/// Common prefix of the file name of every segment of the bus.
pub const NAME_PREFIX: &'static str = "impulse-ring.";

/// `errno` for a name that does not exist.
pub const ENOENT: i32 = 2;

/// `errno` for an operation that is not permitted.
pub const EPERM: i32 = 1;

/// The error of a file that may not be opened.
pub const EACCES: i32 = 13;

/// Permission bits of segments: the peers of the bus may run as different users, and each needs
/// to read and write.
pub const SEGMENT_MODE: u32 = 0o666;

/// The bytes of a segment under its name.
pub struct Segment {
    pub name: String,
    pub mem: Vec<u8>,
}

impl View for Segment {
    type V = Seq<u8>;

    open spec fn view(&self) -> Seq<u8> {
        self.mem@
    }
}

/// The little-endian number in the `n` bytes from `at` on.
pub open spec fn field(mem: Seq<u8>, at: int, n: int) -> nat {
    bytes::le_value(mem.subrange(at, at + n))
}

/// A field that was written holds the low bytes of what was written.
pub proof fn lemma_field_written(mem: Seq<u8>, at: int, x: nat, n: nat)
    requires
        0 <= at,
        at + n <= mem.len(),
        x < bytes::pow256(n),
    ensures
        field(bytes::overwrite(mem, at, bytes::le_bytes(x, n)), at, n as int) == x,
{
    bytes::lemma_le_bytes_len(x, n);
    bytes::lemma_le_value_of_bytes(x, n);
    let after = bytes::overwrite(mem, at, bytes::le_bytes(x, n));
    assert(after.subrange(at, at + n) =~= bytes::le_bytes(x, n));
}

/// A write leaves the fields beside it alone.
pub proof fn lemma_field_kept(mem: Seq<u8>, at: int, s: Seq<u8>, other: int, n: int)
    requires
        0 <= other,
        0 <= n,
        other + n <= mem.len(),
        other + n <= at || at + s.len() <= other,
    ensures
        field(bytes::overwrite(mem, at, s), other, n) == field(mem, other, n),
{
    let after = bytes::overwrite(mem, at, s);
    assert(after.subrange(other, other + n) =~= mem.subrange(other, other + n));
}

impl Segment {
    /// The segment `name` with the bytes `mem`.
    pub fn from_image(name: String, mem: Vec<u8>) -> (seg: Segment)
        ensures
            seg.name == name,
            seg.mem == mem,
    {
        Segment { name, mem }
    }

    pub fn name(&self) -> (r: &str)
        ensures
            r@ == self.name@,
    {
        self.name.as_str()
    }

    pub fn len(&self) -> (r: usize)
        ensures
            r == self@.len(),
    {
        self.mem.len()
    }

    pub fn is_empty(&self) -> (r: bool)
        ensures
            r == (self@.len() == 0),
    {
        self.mem.len() == 0
    }

    /// The 32-bit word at `offset`.
    pub fn load_u32(&self, offset: usize) -> (r: u32)
        requires
            offset + 4 <= self@.len(),
        ensures
            r as nat == field(self@, offset as int, 4),
    {
        proof {
            bytes::lemma_pow256_values();
        }
        assert(offset + 4 <= self.mem.len());
        bytes::get_le(self.mem.as_slice(), offset, 4) as u32
    }

    /// The 64-bit word at `offset`.
    pub fn load_u64(&self, offset: usize) -> (r: u64)
        requires
            offset + 8 <= self@.len(),
        ensures
            r as nat == field(self@, offset as int, 8),
    {
        assert(offset + 8 <= self.mem.len());
        bytes::get_le(self.mem.as_slice(), offset, 8)
    }

    /// Sets the 32-bit word at `offset`.
    pub fn store_u32(&mut self, offset: usize, x: u32)
        requires
            offset + 4 <= old(self)@.len(),
        ensures
            final(self).name == old(self).name,
            final(self)@ == bytes::overwrite(
                old(self)@,
                offset as int,
                bytes::le_bytes(x as nat, 4),
            ),
    {
        assert(offset + 4 <= self.mem.len());
        bytes::set_le(&mut self.mem, offset, x as u64, 4);
    }

    /// Sets the 64-bit word at `offset`.
    pub fn store_u64(&mut self, offset: usize, x: u64)
        requires
            offset + 8 <= old(self)@.len(),
        ensures
            final(self).name == old(self).name,
            final(self)@ == bytes::overwrite(
                old(self)@,
                offset as int,
                bytes::le_bytes(x as nat, 8),
            ),
    {
        assert(offset + 8 <= self.mem.len());
        bytes::set_le(&mut self.mem, offset, x, 8);
    }

    /// Copies the bytes `src[from..from + n]` to `offset`.
    pub fn copy_in(&mut self, offset: usize, src: &[u8], from: usize, n: usize)
        requires
            offset + n <= old(self)@.len(),
            from + n <= src@.len(),
        ensures
            final(self).name == old(self).name,
            final(self)@ == bytes::overwrite(
                old(self)@,
                offset as int,
                src@.subrange(from as int, from + n),
            ),
    {
        let mut i: usize = 0;
        assert(offset + n <= self.mem.len());
        assert(from + n <= src.len());
        while i < n
            invariant
                i <= n,
                from + n <= src.len(),
                offset + n <= self.mem.len(),
                self.name == old(self).name,
                self@.len() == old(self)@.len(),
                forall|j: int|
                    0 <= j < self@.len() ==> #[trigger] self@[j] == (if offset <= j < offset + i {
                        src@[from + (j - offset)]
                    } else {
                        old(self)@[j]
                    }),
            decreases n - i,
        {
            self.mem.set(offset + i, src[from + i]);
            i = i + 1;
        }
        proof {
            assert(self@ =~= bytes::overwrite(
                old(self)@,
                offset as int,
                src@.subrange(from as int, from + n),
            ));
        }
    }

    /// Appends a copy of the `n` bytes from `offset` on to `out`.
    pub fn copy_out(&self, offset: usize, n: usize, out: &mut Vec<u8>)
        requires
            offset + n <= self@.len(),
        ensures
            final(out)@ == old(out)@ + self@.subrange(offset as int, offset + n),
    {
        assert(offset + n <= self.mem.len());
        out.extend_from_slice(
            vstd::slice::slice_subrange(self.mem.as_slice(), offset, offset + n),
        );
        proof {
            assert(out@ =~= old(out)@ + self@.subrange(offset as int, offset + n));
        }
    }
}

// ---- system calls --------------------------------------------------------------------------

/// Why a segment cannot be mapped.
#[derive(Clone, Copy, Debug, PartialEq, Eq, Structural)]
pub enum ShmError {
    NulInName,
    ZeroSize,
}

impl ShmError {
    /// The error in words.
    pub open spec fn text(self) -> Seq<char> {
        match self {
            ShmError::NulInName => "nul in shm name"@,
            ShmError::ZeroSize => "segment has zero size"@,
        }
    }

    /// The error in words.
    pub fn message(&self) -> (r: String)
        ensures
            r@ == self.text(),
    {
        match self {
            ShmError::NulInName => "nul in shm name".to_owned(),
            ShmError::ZeroSize => "segment has zero size".to_owned(),
        }
    }
}

/// Checks that a name can be handed to the system: it holds no nul character.
pub fn check_name(name: &str) -> (r: Result<(), ShmError>)
    ensures
        r is Ok <==> !name@.contains('\0'),
        r matches Err(e) ==> e == ShmError::NulInName,
{
    let chars: Vec<char> = text::chars_of(name);
    let mut i: usize = 0;
    while i < chars.len()
        invariant
            i <= chars@.len(),
            chars@ == name@,
            forall|j: int| 0 <= j < i ==> name@[j] != '\0',
        decreases chars@.len() - i,
    {
        if chars[i] == '\0' {
            return Err(ShmError::NulInName);
        }
        i = i + 1;
    }
    Ok(())
}

/// How a segment is come by: created (or truncated) with a size, or opened as it is.
#[derive(Clone, Copy, Debug, PartialEq, Eq, Structural)]
pub enum Mode {
    Create { size: usize },
    Open,
}

/// Why a segment was not mapped: what the system said, or a name or a size that cannot be.
#[derive(Clone, Copy, Debug, PartialEq, Eq, Structural)]
pub enum Failure {
    Os { errno: i32 },
    Shm(ShmError),
}

/// What the system is asked for, on the name or on the descriptor that it gave for the name.
#[derive(Clone, Copy, Debug, PartialEq, Eq, Structural)]
pub enum Call {
    ShmOpen { create: bool },
    Fchmod { mode: u32 },
    Ftruncate { size: usize },
    Fstat,
    Mmap { size: usize },
    Close,
}

/// What the system answers: `value` is the size of the segment where that was asked for.
#[derive(Clone, Copy, Debug, PartialEq, Eq, Structural)]
pub enum Reply {
    Done { value: usize },
    Error { errno: i32 },
}

/// Where mapping a segment stands.
#[derive(Clone, Copy, Debug, PartialEq, Eq, Structural)]
pub enum Stage {
    Opening,
    Permitting,
    Sizing,
    Measuring,
    Mapping { size: usize },
    /// The segment is mapped, and its descriptor is closed next.
    Keeping { size: usize },
    /// The segment cannot be mapped, and its descriptor is closed next.
    GivingUp { failure: Failure },
    Mapped { size: usize },
    Failed { failure: Failure },
}

/// What the system is asked for at a stage, nothing at the end.
pub open spec fn call_at(mode: Mode, stage: Stage) -> Option<Call> {
    match stage {
        Stage::Opening => Some(Call::ShmOpen { create: mode is Create }),
        Stage::Permitting => Some(Call::Fchmod { mode: SEGMENT_MODE }),
        Stage::Sizing => Some(Call::Ftruncate {
            size: match mode {
                Mode::Create { size } => size,
                Mode::Open => 0,
            },
        }),
        Stage::Measuring => Some(Call::Fstat),
        Stage::Mapping { size } => Some(Call::Mmap { size }),
        Stage::Keeping { size } => Some(Call::Close),
        Stage::GivingUp { failure } => Some(Call::Close),
        Stage::Mapped { size } => None,
        Stage::Failed { failure } => None,
    }
}

/// What the system is asked for at a stage, nothing at the end.
pub fn next_call(mode: Mode, stage: Stage) -> (r: Option<Call>)
    ensures
        r == call_at(mode, stage),
{
    match stage {
        Stage::Opening => {
            let create: bool = match mode {
                Mode::Create { size: _ } => true,
                Mode::Open => false,
            };
            Some(Call::ShmOpen { create })
        },
        Stage::Permitting => Some(Call::Fchmod { mode: SEGMENT_MODE }),
        Stage::Sizing => {
            let size: usize = match mode {
                Mode::Create { size } => size,
                Mode::Open => 0,
            };
            Some(Call::Ftruncate { size })
        },
        Stage::Measuring => Some(Call::Fstat),
        Stage::Mapping { size } => Some(Call::Mmap { size }),
        Stage::Keeping { size: _ } => Some(Call::Close),
        Stage::GivingUp { failure: _ } => Some(Call::Close),
        Stage::Mapped { size: _ } => None,
        Stage::Failed { failure: _ } => None,
    }
}

/// The stage after the answer to what was asked for. A segment that is created has its bits and
/// its size set before it is mapped; one that is opened is measured, and must not be empty. A
/// descriptor is closed whatever came of it.
pub open spec fn stage_after(mode: Mode, stage: Stage, reply: Reply) -> Stage {
    match stage {
        Stage::Opening => match reply {
            Reply::Error { errno } => Stage::Failed { failure: Failure::Os { errno } },
            Reply::Done { value } => if mode is Create {
                Stage::Permitting
            } else {
                Stage::Measuring
            },
        },
        Stage::Permitting => match reply {
            Reply::Error { errno } => Stage::GivingUp { failure: Failure::Os { errno } },
            Reply::Done { value } => Stage::Sizing,
        },
        Stage::Sizing => match reply {
            Reply::Error { errno } => Stage::GivingUp { failure: Failure::Os { errno } },
            Reply::Done { value } => Stage::Mapping {
                size: match mode {
                    Mode::Create { size } => size,
                    Mode::Open => 0,
                },
            },
        },
        Stage::Measuring => match reply {
            Reply::Error { errno } => Stage::GivingUp { failure: Failure::Os { errno } },
            Reply::Done { value } => if value == 0 {
                Stage::GivingUp { failure: Failure::Shm(ShmError::ZeroSize) }
            } else {
                Stage::Mapping { size: value }
            },
        },
        Stage::Mapping { size } => match reply {
            Reply::Error { errno } => Stage::GivingUp { failure: Failure::Os { errno } },
            Reply::Done { value } => Stage::Keeping { size },
        },
        Stage::Keeping { size } => Stage::Mapped { size },
        Stage::GivingUp { failure } => Stage::Failed { failure },
        Stage::Mapped { size } => stage,
        Stage::Failed { failure } => stage,
    }
}

/// The stage after the answer to what was asked for.
pub fn answered(mode: Mode, stage: Stage, reply: Reply) -> (r: Stage)
    ensures
        r == stage_after(mode, stage, reply),
{
    let failed: Option<i32> = match reply {
        Reply::Error { errno } => Some(errno),
        Reply::Done { value: _ } => None,
    };
    match (stage, failed) {
        (Stage::Opening, Some(errno)) => Stage::Failed { failure: Failure::Os { errno } },
        (Stage::Permitting, Some(errno)) => Stage::GivingUp { failure: Failure::Os { errno } },
        (Stage::Sizing, Some(errno)) => Stage::GivingUp { failure: Failure::Os { errno } },
        (Stage::Measuring, Some(errno)) => Stage::GivingUp { failure: Failure::Os { errno } },
        (Stage::Mapping { size: _ }, Some(errno)) => Stage::GivingUp {
            failure: Failure::Os { errno },
        },
        (Stage::Opening, None) => match mode {
            Mode::Create { size: _ } => Stage::Permitting,
            Mode::Open => Stage::Measuring,
        },
        (Stage::Permitting, None) => Stage::Sizing,
        (Stage::Sizing, None) => match mode {
            Mode::Create { size } => Stage::Mapping { size },
            Mode::Open => Stage::Mapping { size: 0 },
        },
        (Stage::Measuring, None) => match reply {
            Reply::Done { value } => if value == 0 {
                Stage::GivingUp { failure: Failure::Shm(ShmError::ZeroSize) }
            } else {
                Stage::Mapping { size: value }
            },
            Reply::Error { errno } => Stage::GivingUp { failure: Failure::Os { errno } },
        },
        (Stage::Mapping { size }, None) => Stage::Keeping { size },
        (Stage::Keeping { size }, _) => Stage::Mapped { size },
        (Stage::GivingUp { failure }, _) => Stage::Failed { failure },
        (Stage::Mapped { size }, _) => Stage::Mapped { size },
        (Stage::Failed { failure }, _) => Stage::Failed { failure },
    }
}

/// The stages that the system's answers lead through, the first one first.
pub open spec fn stages(mode: Mode, replies: Seq<Reply>) -> Seq<Stage>
    decreases replies.len(),
{
    if replies.len() == 0 {
        seq![Stage::Opening]
    } else {
        let before = stages(mode, replies.drop_last());
        before.push(stage_after(mode, before.last(), replies.last()))
    }
}

/// The descriptor is open at a stage.
pub open spec fn holds_descriptor(stage: Stage) -> bool {
    match stage {
        Stage::Opening => false,
        Stage::Mapped { size } => false,
        Stage::Failed { failure } => false,
        _ => true,
    }
}

/// Mapping a segment ends after at most five answers, and leaves no descriptor open. The
/// descriptor is there for every call that uses it, and it is closed once. A segment that was
/// created is mapped in the size that was asked for, and one that was opened in the size that
/// the system reports, which is not zero; where it is not mapped, the first error is passed on.
pub proof fn law_mapping_ends(mode: Mode, replies: Seq<Reply>)
    requires
        replies.len() == 5,
    ensures
        ({
            let st = stages(mode, replies);
            let end = st.last();
            &&& st.len() == 6
            &&& !holds_descriptor(end) && call_at(mode, end) is None
            &&& forall|i: int|
                0 <= i < 5 && call_at(mode, #[trigger] st[i]) is Some && !(call_at(mode, st[i])
                    == Some(Call::ShmOpen { create: mode is Create })) ==> holds_descriptor(st[i])
            &&& forall|i: int|
                0 <= i < 5 && holds_descriptor(#[trigger] st[i]) && !holds_descriptor(st[i + 1])
                    ==> call_at(mode, st[i]) == Some(Call::Close)
            &&& match mode {
                Mode::Create { size } => end is Mapped <==> end == (Stage::Mapped { size })
                    && replies[0] is Done && replies[1] is Done && replies[2] is Done
                    && replies[3] is Done,
                Mode::Open => end is Mapped <==> replies[0] is Done && (replies[1] matches Reply::Done {
                    value,
                } && value > 0 && end == (Stage::Mapped { size: value })) && replies[2] is Done,
            }
            &&& end is Failed ==> exists|i: int|
                0 <= i < 4 && (forall|j: int| 0 <= j < i ==> (#[trigger] replies[j]) is Done) && (
                match #[trigger] replies[i] {
                    Reply::Error { errno } => end->Failed_failure == (Failure::Os { errno }),
                    Reply::Done { value } => mode is Open && i == 1 && value == 0
                        && end->Failed_failure == Failure::Shm(ShmError::ZeroSize),
                })
        }),
{
    reveal_with_fuel(stages, 6);
    let r = replies;
    assert(r.drop_last().drop_last().drop_last().drop_last().drop_last() =~= Seq::empty());
    assert(r.drop_last().last() == r[3]);
    assert(r.drop_last().drop_last().last() == r[2]);
    assert(r.drop_last().drop_last().drop_last().last() == r[1]);
    assert(r.drop_last().drop_last().drop_last().drop_last().last() == r[0]);
    let i: int = if r[0] is Error {
        0
    } else if r[1] is Error || mode is Open && r[1]->value == 0 {
        1
    } else if r[2] is Error {
        2
    } else {
        3
    };
    assert(stages(mode, r).last() is Failed ==> match r[i] {
        Reply::Error { errno } => stages(mode, r).last()->Failed_failure == (Failure::Os { errno }),
        Reply::Done { value } => mode is Open && i == 1 && value == 0 && stages(
            mode,
            r,
        ).last()->Failed_failure == Failure::Shm(ShmError::ZeroSize),
    });
}

/// What the result of removing a name means: a name that was not there counts as removed, and
/// another error is passed on.
pub fn unlink(result: i32, errno: i32) -> (r: Result<(), i32>)
    ensures
        r is Ok <==> result >= 0 || errno == ENOENT,
        r matches Err(e) ==> e == errno,
{
    if result < 0 && errno != ENOENT {
        return Err(errno);
    }
    Ok(())
}

/// Whether the process `pid` is alive, by the result of sending it the null signal: it is where
/// the signal could be sent, and also where sending it is not permitted.
pub fn pid_alive(pid: i32, result: i32, errno: i32) -> (r: bool)
    ensures
        r == (pid > 0 && (result == 0 || errno == EPERM)),
{
    pid > 0 && (result == 0 || errno == EPERM)
}

/// The segments among some files of the shared-memory directory, under their names.
pub open spec fn segments_among(files: Seq<Seq<char>>) -> Seq<Seq<char>>
    decreases files.len(),
{
    if files.len() == 0 {
        Seq::empty()
    } else {
        let front = segments_among(files.drop_last());
        if text::occurs_at(files.last(), NAME_PREFIX@, 0) {
            front.push("/"@ + files.last())
        } else {
            front
        }
    }
}

/// The texts of a list.
pub open spec fn texts(v: Seq<String>) -> Seq<Seq<char>> {
    v.map_values(|s: String| s@)
}

/// Picks the segments out of the files of the shared-memory directory.
pub fn list_segments(files: &Vec<String>) -> (r: Vec<String>)
    ensures
        texts(r@) == segments_among(texts(files@)),
{
    let ghost all = texts(files@);
    let mut out: Vec<String> = Vec::new();
    let mut i: usize = 0;
    proof {
        assert(all.take(0) =~= Seq::<Seq<char>>::empty());
        assert(texts(out@) =~= Seq::<Seq<char>>::empty());
    }
    while i < files.len()
        invariant
            i <= files@.len(),
            all == texts(files@),
            texts(out@) == segments_among(all.take(i as int)),
        decreases files@.len() - i,
    {
        proof {
            assert(all.take(i + 1).drop_last() =~= all.take(i as int));
            assert(all.take(i + 1).last() == files@[i as int]@);
        }
        if text::starts_with(files[i].as_str(), NAME_PREFIX) {
            let mut name: String = "/".to_owned();
            name.append(files[i].as_str());
            let ghost before = out@;
            out.push(name);
            proof {
                assert(texts(out@) =~= texts(before).push(name@));
            }
        }
        i = i + 1;
    }
    proof {
        assert(all.take(i as int) =~= all);
    }
    out
}

/// A scan finds exactly the segments: every name of it is a slash and a file with the prefix,
/// and every file with the prefix is in it.
pub proof fn law_scan_finds_segments(files: Seq<Seq<char>>, name: Seq<char>)
    ensures
        segments_among(files).contains(name) <==> exists|i: int|
            0 <= i < files.len() && text::occurs_at(#[trigger] files[i], NAME_PREFIX@, 0) && name
                == "/"@ + files[i],
    decreases files.len(),
{
    if files.len() > 0 {
        let front = files.drop_last();
        let n = files.len() - 1;
        law_scan_finds_segments(front, name);
        let found = segments_among(front);
        let hit = text::occurs_at(files[n], NAME_PREFIX@, 0);
        if exists|i: int|
            0 <= i < front.len() && text::occurs_at(#[trigger] front[i], NAME_PREFIX@, 0) && name
                == "/"@ + front[i] {
            let i = choose|i: int|
                0 <= i < front.len() && text::occurs_at(#[trigger] front[i], NAME_PREFIX@, 0)
                    && name == "/"@ + front[i];
            assert(files[i] == front[i]);
            let k = choose|k: int| 0 <= k < found.len() && found[k] == name;
            assert(segments_among(files)[k] == name);
        }
        if hit && name == "/"@ + files[n] {
            assert(segments_among(files).last() == name);
        }
        if exists|i: int|
            0 <= i < files.len() && text::occurs_at(#[trigger] files[i], NAME_PREFIX@, 0) && name
                == "/"@ + files[i] {
            let i = choose|i: int|
                0 <= i < files.len() && text::occurs_at(#[trigger] files[i], NAME_PREFIX@, 0)
                    && name == "/"@ + files[i];
            if i < n {
                assert(front[i] == files[i]);
            }
        }
        if segments_among(files).contains(name) {
            let k = choose|k: int|
                0 <= k < segments_among(files).len() && segments_among(files)[k] == name;
            if k < found.len() {
                assert(found[k] == name);
                assert(found.contains(name));
                let i = choose|i: int|
                    0 <= i < front.len() && text::occurs_at(#[trigger] front[i], NAME_PREFIX@, 0)
                        && name == "/"@ + front[i];
                assert(files[i] == front[i]);
            } else {
                assert(files[n] == files.last());
            }
        }
    }
}

/// A word that is stored is the word that is loaded there, and every byte around it stays.
pub proof fn law_stored_word_is_loaded(
    seg: &mut Segment,
    offset: usize,
    x: u64,
    image: Segment,
    back: u64,
    j: int,
)
    requires
        offset + 8 <= old(seg)@.len(),
        call_ensures(Segment::store_u64, (seg, offset, x), ()),
        image@ == final(seg)@,
        call_ensures(Segment::load_u64, (&image, offset), back),
    ensures
        back == x,
        final(seg)@.len() == old(seg)@.len(),
        0 <= j < old(seg)@.len() && !(offset <= j < offset + 8) ==> final(seg)@[j] == old(seg)@[j],
{
    bytes::lemma_pow256_values();
    bytes::lemma_le_bytes_len(x as nat, 8);
    lemma_field_written(old(seg)@, offset as int, x as nat, 8);
}

/// A short word that is stored is the word that is loaded there, and every byte around it stays.
pub proof fn law_stored_short_word_is_loaded(
    seg: &mut Segment,
    offset: usize,
    x: u32,
    image: Segment,
    back: u32,
    j: int,
)
    requires
        offset + 4 <= old(seg)@.len(),
        call_ensures(Segment::store_u32, (seg, offset, x), ()),
        image@ == final(seg)@,
        call_ensures(Segment::load_u32, (&image, offset), back),
    ensures
        back == x,
        final(seg)@.len() == old(seg)@.len(),
        0 <= j < old(seg)@.len() && !(offset <= j < offset + 4) ==> final(seg)@[j] == old(seg)@[j],
{
    bytes::lemma_pow256_values();
    bytes::lemma_le_bytes_len(x as nat, 4);
    lemma_field_written(old(seg)@, offset as int, x as nat, 4);
}

/// Bytes that are copied into a segment are those that are copied out of it, and every byte around
/// them stays.
pub proof fn law_copied_bytes_come_back(
    seg: &mut Segment,
    offset: usize,
    src: &[u8],
    from: usize,
    n: usize,
    image: Segment,
    out: &mut Vec<u8>,
    j: int,
)
    requires
        offset + n <= old(seg)@.len(),
        from + n <= src@.len(),
        call_ensures(Segment::copy_in, (seg, offset, src, from, n), ()),
        image@ == final(seg)@,
        call_ensures(Segment::copy_out, (&image, offset, n, out), ()),
    ensures
        final(out)@ == old(out)@ + src@.subrange(from as int, from + n),
        final(seg)@.len() == old(seg)@.len(),
        0 <= j < old(seg)@.len() && !(offset <= j < offset + n) ==> final(seg)@[j] == old(seg)@[j],
{
    assert(final(seg)@.subrange(offset as int, offset + n) =~= src@.subrange(
        from as int,
        from + n,
    ));
}

/// What the system is asked for on the way to a mapped segment, and where its answer leads: a
/// segment that is created is opened as a new one, made readable and writable for everybody and
/// given its size; one that is opened is measured. Either is then mapped in that size, and its
/// descriptor closed.
pub proof fn law_mapping_goes_on(
    mode: Mode,
    stage: Stage,
    call: Option<Call>,
    value: usize,
    next: Stage,
)
    requires
        call_ensures(next_call, (mode, stage), call),
        call_ensures(answered, (mode, stage, Reply::Done { value }), next),
    ensures
        stage is Opening && mode is Create ==> call == Some(Call::ShmOpen { create: true }) && next
            is Permitting,
        stage is Opening && mode is Open ==> call == Some(Call::ShmOpen { create: false }) && next
            is Measuring,
        stage is Permitting ==> call == Some(Call::Fchmod { mode: 0o666 }) && next is Sizing,
        stage is Sizing ==> (mode matches Mode::Create { size } ==> call == Some(
            Call::Ftruncate { size },
        ) && next == (Stage::Mapping { size })),
        stage is Measuring ==> call == Some(Call::Fstat),
        stage is Measuring && value > 0 ==> next == (Stage::Mapping { size: value }),
        stage is Measuring && value == 0 ==> next == (Stage::GivingUp {
            failure: Failure::Shm(ShmError::ZeroSize),
        }),
        stage matches Stage::Mapping { size } ==> call == Some(Call::Mmap { size }) && next == (
        Stage::Keeping { size }),
        stage matches Stage::Keeping { size } ==> call == Some(Call::Close) && next == (
        Stage::Mapped { size }),
        stage matches Stage::GivingUp { failure } ==> call == Some(Call::Close) && next == (
        Stage::Failed { failure }),
        stage is Mapped || stage is Failed ==> call is None && next == stage,
{
}

/// An error of the system ends the way to a mapped segment with that error: at once where there is
/// no descriptor yet, and after it was closed where there is one.
pub proof fn law_mapping_fails(
    mode: Mode,
    stage: Stage,
    errno: i32,
    next: Stage,
    end: Stage,
    reply: Reply,
)
    requires
        call_ensures(answered, (mode, stage, Reply::Error { errno }), next),
        call_ensures(answered, (mode, next, reply), end),
        stage is Opening || stage is Permitting || stage is Sizing || stage is Measuring || stage
            is Mapping,
    ensures
        end == (Stage::Failed { failure: Failure::Os { errno } }),
        stage is Opening ==> next == end,
        !(stage is Opening) ==> next is GivingUp,
{
}

/// What the system's results mean: a name that is not there counts as removed; a process is alive
/// where a signal reaches it, or may not be sent to it.
pub proof fn law_system_results(
    result: i32,
    errno: i32,
    removed: Result<(), i32>,
    pid: i32,
    alive: bool,
)
    requires
        call_ensures(unlink, (result, errno), removed),
        call_ensures(pid_alive, (pid, result, errno), alive),
    ensures
        removed is Err <==> result < 0 && errno != 2,
        removed matches Err(e) ==> e == errno,
        alive <==> pid > 0 && (result == 0 || errno == 1),
{
}

/// A scan gives the segments in the order of the files, and nothing else: a file is listed, behind
/// a slash, exactly where its name begins with `impulse-ring.`.
pub proof fn law_scan_lists_segments(
    files: &Vec<String>,
    r: Vec<String>,
    shorter: &Vec<String>,
    s: Vec<String>,
)
    requires
        files@.len() > 0,
        shorter@ == files@.drop_last(),
        call_ensures(list_segments, (files,), r),
        call_ensures(list_segments, (shorter,), s),
    ensures
        ({
            let name = files@.last()@;
            let p = "impulse-ring."@;
            if p.len() <= name.len() && name.take(p.len() as int) == p {
                texts(r@) == texts(s@).push("/"@ + name)
            } else {
                texts(r@) == texts(s@)
            }
        }),
{
    assert(texts(shorter@) =~= texts(files@).drop_last());
    let name = files@.last()@;
    let p = "impulse-ring."@;
    if p.len() <= name.len() {
        assert(name.take(p.len() as int) =~= name.subrange(0, p.len() as int));
    }
}

/// An empty directory holds no segments.
pub proof fn law_scan_of_nothing(files: &Vec<String>, r: Vec<String>)
    requires
        files@.len() == 0,
        call_ensures(list_segments, (files,), r),
    ensures
        r@.len() == 0,
{
    assert(texts(r@).len() == r@.len());
}

/// A name is refused exactly where it holds a nul, and in these words; a segment says the name it
/// was made under, and how long it is.
pub proof fn law_names_are_checked(
    name: &str,
    r: Result<(), ShmError>,
    e: ShmError,
    words: String,
    seg: Segment,
    n: usize,
    empty: bool,
    own: &str,
)
    requires
        call_ensures(check_name, (name,), r),
        call_ensures(ShmError::message, (&e,), words),
        call_ensures(Segment::len, (&seg,), n),
        call_ensures(Segment::is_empty, (&seg,), empty),
        call_ensures(Segment::name, (&seg,), own),
    ensures
        r is Err <==> exists|i: int| 0 <= i < name@.len() && name@[i] == '\0',
        r is Err ==> r == Err::<(), ShmError>(ShmError::NulInName),
        words@ == (match e {
            ShmError::NulInName => "nul in shm name"@,
            ShmError::ZeroSize => "segment has zero size"@,
        }),
        n == seg.mem@.len() && (empty <==> n == 0) && own@ == seg.name@,
{
}

} // verus!
