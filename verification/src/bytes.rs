//! Little-endian integers as byte strings.
use vstd::prelude::*;

verus! {

/// The number that a little-endian byte string stands for.
pub open spec fn le_value(s: Seq<u8>) -> nat
    decreases s.len(),
{
    if s.len() == 0 {
        0
    } else {
        s[0] as nat + 256 * le_value(s.drop_first())
    }
}

/// The `n` low bytes of `x`, lowest first.
pub open spec fn le_bytes(x: nat, n: nat) -> Seq<u8>
    decreases n,
{
    if n == 0 {
        Seq::empty()
    } else {
        seq![(x % 256) as u8] + le_bytes(x / 256, (n - 1) as nat)
    }
}

/// 256 to the power `n`: how many values `n` bytes can hold.
pub open spec fn pow256(n: nat) -> nat
    decreases n,
{
    if n == 0 {
        1
    } else {
        256 * pow256((n - 1) as nat)
    }
}

pub proof fn lemma_pow256_values()
    ensures
        pow256(0) == 1,
        pow256(1) == 0x100,
        pow256(2) == 0x1_0000,
        pow256(4) == 0x1_0000_0000,
        pow256(8) == 0x1_0000_0000_0000_0000,
{
    reveal_with_fuel(pow256, 9);
}

pub proof fn lemma_le_bytes_len(x: nat, n: nat)
    ensures
        le_bytes(x, n).len() == n,
    decreases n,
{
    if n > 0 {
        lemma_le_bytes_len(x / 256, (n - 1) as nat);
    }
}

/// A byte string stands for a number below 256 to the power of its length.
pub proof fn lemma_le_value_bound(s: Seq<u8>)
    ensures
        le_value(s) < pow256(s.len()),
    decreases s.len(),
{
    if s.len() > 0 {
        lemma_le_value_bound(s.drop_first());
    }
}

/// Reading back the bytes of a number that fits gives the number.
pub proof fn lemma_le_value_of_bytes(x: nat, n: nat)
    requires
        x < pow256(n),
    ensures
        le_value(le_bytes(x, n)) == x,
    decreases n,
{
    if n > 0 {
        let m = (n - 1) as nat;
        let tail = le_bytes(x / 256, m);
        lemma_le_value_of_bytes(x / 256, m);
        assert(le_bytes(x, n).drop_first() =~= tail);
    }
}

/// The bytes of the number that a byte string stands for are that byte string.
pub proof fn lemma_le_bytes_of_value(s: Seq<u8>)
    ensures
        le_bytes(le_value(s), s.len()) == s,
    decreases s.len(),
{
    if s.len() > 0 {
        let rest = s.drop_first();
        lemma_le_bytes_of_value(rest);
        let v = le_value(s);
        assert(v % 256 == s[0] as nat);
        assert(v / 256 == le_value(rest));
        assert(le_bytes(v, s.len()) =~= s);
    }
}

/// Appends the `n` low bytes of `x`, lowest first.
pub fn push_le(out: &mut Vec<u8>, x: u64, n: usize)
    ensures
        final(out)@ == old(out)@ + le_bytes(x as nat, n as nat),
{
    let mut rest: u64 = x;
    let mut left: usize = n;
    proof {
        assert(out@ + le_bytes(x as nat, n as nat) =~= old(out)@ + le_bytes(x as nat, n as nat));
    }
    while left > 0
        invariant
            out@ + le_bytes(rest as nat, left as nat) == old(out)@ + le_bytes(x as nat, n as nat),
        decreases left,
    {
        let ghost before = out@;
        let low: u8 = (rest % 256) as u8;
        out.push(low);
        proof {
            let m = (left - 1) as nat;
            assert(le_bytes(rest as nat, left as nat) == seq![low] + le_bytes(
                rest as nat / 256,
                m,
            ));
            assert(before.push(low) + le_bytes(rest as nat / 256, m) =~= before + le_bytes(
                rest as nat,
                left as nat,
            ));
        }
        rest = rest / 256;
        left = left - 1;
    }
    proof {
        assert(out@ + le_bytes(rest as nat, 0) =~= out@);
    }
}

/// Reads the `n` bytes from `at` on as a little-endian number.
pub fn get_le(buf: &[u8], at: usize, n: usize) -> (x: u64)
    requires
        n <= 8,
        at + n <= buf.len(),
    ensures
        x as nat == le_value(buf@.subrange(at as int, at + n)),
        x < pow256(n as nat),
{
    let mut x: u64 = 0;
    let mut i: usize = n;
    proof {
        assert(buf@.subrange(at + n, at + n) =~= Seq::<u8>::empty());
    }
    while i > 0
        invariant
            i <= n <= 8,
            at + n <= buf.len(),
            x as nat == le_value(buf@.subrange(at + i, at + n)),
        decreases i,
    {
        i = i - 1;
        proof {
            let s = buf@.subrange(at + i, at + n);
            assert(s.drop_first() =~= buf@.subrange(at + i + 1, at + n));
            lemma_le_value_bound(s);
            lemma_pow256_monotonic(s.len(), 8);
            lemma_pow256_values();
        }
        x = x * 256 + buf[at + i] as u64;
    }
    proof {
        lemma_le_value_bound(buf@.subrange(at as int, at + n));
    }
    x
}

pub proof fn lemma_pow256_monotonic(a: nat, b: nat)
    requires
        a <= b,
    ensures
        pow256(a) <= pow256(b),
    decreases b,
{
    if a < b {
        lemma_pow256_monotonic(a, (b - 1) as nat);
    }
}

/// `mem` with the bytes from `at` on replaced by `s`.
pub open spec fn overwrite(mem: Seq<u8>, at: int, s: Seq<u8>) -> Seq<u8> {
    Seq::new(
        mem.len(),
        |i: int|
            if at <= i < at + s.len() {
                s[i - at]
            } else {
                mem[i]
            },
    )
}

/// Replaces the `n` bytes from `at` on by the `n` low bytes of `x`, lowest first.
pub fn set_le(mem: &mut Vec<u8>, at: usize, x: u64, n: usize)
    requires
        at + n <= old(mem).len(),
    ensures
        final(mem)@ == overwrite(old(mem)@, at as int, le_bytes(x as nat, n as nat)),
{
    let mut rest: u64 = x;
    let mut i: usize = 0;
    let ghost all = le_bytes(x as nat, n as nat);
    proof {
        lemma_le_bytes_len(x as nat, n as nat);
        assert(all.skip(0) =~= all);
    }
    while i < n
        invariant
            i <= n,
            at + n <= mem.len(),
            mem@.len() == old(mem)@.len(),
            all.len() == n,
            all.skip(i as int) == le_bytes(rest as nat, (n - i) as nat),
            forall|j: int|
                0 <= j < mem@.len() ==> #[trigger] mem@[j] == (if at <= j < at + i {
                    all[j - at]
                } else {
                    old(mem)@[j]
                }),
        decreases n - i,
    {
        let low: u8 = (rest % 256) as u8;
        proof {
            let m = (n - i - 1) as nat;
            assert(le_bytes(rest as nat, (n - i) as nat) == seq![low] + le_bytes(
                rest as nat / 256,
                m,
            ));
            assert(all[i as int] == all.skip(i as int)[0]);
            assert(all.skip(i + 1) =~= all.skip(i as int).drop_first());
            assert((seq![low] + le_bytes(rest as nat / 256, m)).drop_first() =~= le_bytes(
                rest as nat / 256,
                m,
            ));
        }
        mem.set(at + i, low);
        rest = rest / 256;
        i = i + 1;
    }
    proof {
        assert(mem@ =~= overwrite(old(mem)@, at as int, all));
    }
}

/// The number in some bytes, the low byte first: each byte counts 256 times the one before it.
pub proof fn law_little_endian(s: Seq<u8>)
    ensures
        s.len() == 0 ==> le_value(s) == 0,
        s.len() == 1 ==> le_value(s) == s[0],
        s.len() == 2 ==> le_value(s) == s[0] + 0x100 * s[1],
        s.len() == 4 ==> le_value(s) == s[0] + 0x100 * s[1] + 0x1_0000 * s[2] + 0x100_0000 * s[3],
        s.len() == 8 ==> le_value(s) == s[0] + 0x100 * s[1] + 0x1_0000 * s[2] + 0x100_0000 * s[3]
            + 0x1_0000_0000 * s[4] + 0x100_0000_0000 * s[5] + 0x1_0000_0000_0000 * s[6]
            + 0x100_0000_0000_0000 * s[7],
{
    reveal_with_fuel(le_value, 9);
}

/// A number that is written into bytes and read out of them is the same number, its low bytes
/// where it does not fit.
pub proof fn law_number_comes_back(
    out: &mut Vec<u8>,
    x: u64,
    n: usize,
    buf: &[u8],
    at: usize,
    back: u64,
)
    requires
        n <= 8,
        call_ensures(push_le, (out, x, n), ()),
        buf@ == final(out)@,
        at == old(out)@.len(),
        call_ensures(get_le, (buf, at, n), back),
        x < pow256(n as nat),
    ensures
        final(out)@.len() == old(out)@.len() + n,
        final(out)@.take(at as int) == old(out)@,
        back == x,
{
    lemma_le_bytes_len(x as nat, n as nat);
    lemma_le_value_of_bytes(x as nat, n as nat);
    assert(final(out)@.take(at as int) =~= old(out)@);
    assert(final(out)@.subrange(at as int, at + n) =~= le_bytes(x as nat, n as nat));
}

/// A number that is set in bytes is read at its place, and the bytes around it stay.
pub proof fn law_number_is_set(
    mem: &mut Vec<u8>,
    at: usize,
    x: u64,
    n: usize,
    buf: &[u8],
    back: u64,
    j: int,
)
    requires
        n <= 8,
        at + n <= old(mem)@.len(),
        call_ensures(set_le, (mem, at, x, n), ()),
        buf@ == final(mem)@,
        call_ensures(get_le, (buf, at, n), back),
        x < pow256(n as nat),
    ensures
        final(mem)@.len() == old(mem)@.len(),
        back == x,
        0 <= j < old(mem)@.len() && !(at <= j < at + n) ==> final(mem)@[j] == old(mem)@[j],
{
    lemma_le_bytes_len(x as nat, n as nat);
    lemma_le_value_of_bytes(x as nat, n as nat);
    assert(final(mem)@.subrange(at as int, at + n) =~= le_bytes(x as nat, n as nat));
}

} // verus!
