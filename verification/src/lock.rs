//! The producers' lock: one word with three states, and a kernel queue for sleepers.
//!
//! A thread first tries to turn the word from free to held. Where that fails, it marks the word
//! contended; it has the lock if the word was free until then, and sleeps otherwise. Who releases
//! a contended word wakes one sleeper.
use vstd::prelude::*;

verus! {

pub const FREE: u32 = 0;

pub const HELD: u32 = 1;

/// Held, and someone may be asleep.
pub const CONTENDED: u32 = 2;

/// How long a thread sleeps on a contended lock before it looks again, in nanoseconds.
pub const LOCK_NANOS: u64 = 50_000_000;

/// An atomic step on the lock word: the word after it, and what the step tells its thread.
#[derive(Clone, Copy, Debug, PartialEq, Eq, Structural)]
pub struct LockStep {
    pub word: u32,
    pub flag: bool,
}

/// The first attempt: takes a free lock, and leaves another word alone. The flag says whether
/// the lock was taken.
pub open spec fn first_spec(word: u32) -> LockStep {
    if word == FREE {
        LockStep { word: HELD, flag: true }
    } else {
        LockStep { word, flag: false }
    }
}

/// A further attempt: marks the word contended. The flag says whether the lock was taken.
pub open spec fn again_spec(word: u32) -> LockStep {
    LockStep { word: CONTENDED, flag: word == FREE }
}

/// The release. The flag says whether a sleeper has to be woken.
pub open spec fn release_spec(word: u32) -> LockStep {
    LockStep { word: FREE, flag: word == CONTENDED }
}

/// The first attempt on a lock.
pub fn first(word: u32) -> (r: LockStep)
    ensures
        r == first_spec(word),
{
    if word == FREE {
        LockStep { word: HELD, flag: true }
    } else {
        LockStep { word, flag: false }
    }
}

/// A further attempt on a lock.
pub fn again(word: u32) -> (r: LockStep)
    ensures
        r == again_spec(word),
{
    LockStep { word: CONTENDED, flag: word == FREE }
}

/// The release of a lock.
pub fn release(word: u32) -> (r: LockStep)
    ensures
        r == release_spec(word),
{
    LockStep { word: FREE, flag: word == CONTENDED }
}

/// A lock with the threads around it: those inside, those that make a further attempt next, and
/// those asleep.
pub ghost struct LockState {
    pub word: u32,
    pub inside: Set<int>,
    pub trying: Set<int>,
    pub asleep: Set<int>,
}

impl LockState {
    /// The lock that nobody has used yet.
    pub open spec fn fresh() -> LockState {
        LockState { word: FREE, inside: Set::empty(), trying: Set::empty(), asleep: Set::empty() }
    }

    /// The word is free exactly when nobody is inside, at most one thread is inside, and where a
    /// thread sleeps, the release will wake it or another thread is about to mark the word.
    pub open spec fn inv(self) -> bool {
        &&& self.word == FREE || self.word == HELD || self.word == CONTENDED
        &&& self.word == FREE <==> (forall|t: int| !#[trigger] self.inside.contains(t))
        &&& forall|s: int, t: int|
            #[trigger] self.inside.contains(s) && #[trigger] self.inside.contains(t) ==> s == t
        &&& (exists|t: int| #[trigger] self.asleep.contains(t)) ==> self.word == CONTENDED || (
        exists|t: int| #[trigger] self.trying.contains(t))
    }
}

/// Thread `t` makes its first attempt.
pub open spec fn steps_first(a: LockState, t: int, b: LockState) -> bool {
    let s = first_spec(a.word);
    b == if s.flag {
        LockState { word: s.word, inside: a.inside.insert(t), ..a }
    } else {
        LockState { word: s.word, trying: a.trying.insert(t), ..a }
    }
}

/// Thread `t` makes a further attempt, and sleeps where it fails.
pub open spec fn steps_again(a: LockState, t: int, b: LockState) -> bool {
    let s = again_spec(a.word);
    &&& a.trying.contains(t)
    &&& b == if s.flag {
        LockState { word: s.word, inside: a.inside.insert(t), trying: a.trying.remove(t), ..a }
    } else {
        LockState { word: s.word, asleep: a.asleep.insert(t), trying: a.trying.remove(t), ..a }
    }
}

/// Thread `t` leaves and, where the word was contended, wakes a thread if one sleeps.
pub open spec fn steps_release(a: LockState, t: int, b: LockState) -> bool {
    let s = release_spec(a.word);
    let left = LockState { word: s.word, inside: a.inside.remove(t), ..a };
    &&& a.inside.contains(t)
    &&& if s.flag && exists|u: int| #[trigger] a.asleep.contains(u) {
        exists|u: int| #[trigger]
            a.asleep.contains(u) && b == (LockState {
                asleep: a.asleep.remove(u),
                trying: a.trying.insert(u),
                ..left
            })
    } else {
        b == left
    }
}

/// The sleep of thread `t` ends by itself.
pub open spec fn steps_timeout(a: LockState, t: int, b: LockState) -> bool {
    &&& a.asleep.contains(t)
    &&& b == (LockState { asleep: a.asleep.remove(t), trying: a.trying.insert(t), ..a })
}

/// Mutual exclusion, and no sleeper is forgotten: whatever the threads do, at most one is inside,
/// and while one sleeps, the next release wakes it or another thread is about to see to it.
pub proof fn law_lock(a: LockState, t: int, b: LockState)
    requires
        a.inv(),
        steps_first(a, t, b) || steps_again(a, t, b) || steps_release(a, t, b) || steps_timeout(
            a,
            t,
            b,
        ),
    ensures
        LockState::fresh().inv(),
        b.inv(),
{
    // Who was about to try still is, unless it is `t`.
    assert forall|u: int| #[trigger] a.trying.contains(u) && u != t implies b.trying.contains(u) by {}
    if steps_first(a, t, b) {
        if a.word == FREE {
            assert(b.inside.contains(t));
            assert(b.trying == a.trying && b.asleep == a.asleep);
            assert forall|u: int, w: int| #[trigger] b.inside.contains(u) && #[trigger]
                b.inside.contains(w) implies u == w by {
                assert(!a.inside.contains(u) && !a.inside.contains(w));
            }
        } else {
            assert(b.trying.contains(t));
            assert(b.inside == a.inside);
        }
        assert(b.inv());
    } else if steps_again(a, t, b) {
        if a.word == FREE {
            assert(b.inside.contains(t));
        } else {
            assert(b.inside == a.inside);
        }
        assert(b.inv());
    } else if steps_release(a, t, b) {
        assert(b.word == FREE);
        assert(b.inside == a.inside.remove(t));
        assert forall|s: int| !#[trigger] b.inside.contains(s) by {
            assert(a.inside.contains(s) ==> s == t);
        }
        assert forall|u: int| #[trigger] a.trying.contains(u) implies b.trying.contains(u) by {}
        if exists|u: int| #[trigger] b.asleep.contains(u) {
            let u = choose|u: int| #[trigger] b.asleep.contains(u);
            assert(a.asleep.contains(u));
            assert(exists|w: int| #[trigger] b.trying.contains(w)) by {
                if a.word == CONTENDED {
                    let w = choose|w: int| #[trigger]
                        a.asleep.contains(w) && b == (LockState {
                            word: FREE,
                            inside: a.inside.remove(t),
                            asleep: a.asleep.remove(w),
                            trying: a.trying.insert(w),
                        });
                    assert(b.trying.contains(w));
                }
            }
        }
        assert(b.inv());
    } else {
        assert(b.trying.contains(t));
        assert(b.inside == a.inside);
        assert(b.inv());
    }
}

/// What the attempts and the release do with the lock word: the first attempt takes a free lock
/// and leaves another alone; a further one leaves it contended and has it where it was free; the
/// release frees it and wakes a sleeper exactly where the word was contended.
pub proof fn law_lock_words(word: u32, f: LockStep, g: LockStep, h: LockStep)
    requires
        call_ensures(first, (word,), f),
        call_ensures(again, (word,), g),
        call_ensures(release, (word,), h),
    ensures
        f.flag <==> word == 0,
        f.word == (if word == 0 {
            1
        } else {
            word as int
        }),
        g.flag <==> word == 0,
        g.word == 2,
        h.flag <==> word == 2,
        h.word == 0,
        f == first_spec(word) && g == again_spec(word) && h == release_spec(word),
{
}

} // verus!
