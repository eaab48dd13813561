//! Powers of two.
use vstd::arithmetic::power2;
use vstd::prelude::*;

verus! {

/// Whether `n` is a power of two.
pub fn is_power_of_two(n: usize) -> (r: bool)
    ensures
        r == power2::is_pow2(n as int),
{
    proof {
        reveal(power2::is_pow2);
    }
    if n == 0 {
        return false;
    }
    let mut m: usize = n;
    while m % 2 == 0
        invariant
            m > 0,
            power2::is_pow2(n as int) == power2::is_pow2(m as int),
        decreases m,
    {
        proof {
            reveal(power2::is_pow2);
        }
        m = m / 2;
    }
    m == 1
}

/// Of two powers of two the larger is at least twice the smaller.
pub proof fn lemma_pow2_gap(p: int, q: int)
    requires
        power2::is_pow2(p),
        power2::is_pow2(q),
        p < q,
    ensures
        2 * p <= q,
    decreases p,
{
    reveal(power2::is_pow2);
    if p > 1 {
        lemma_pow2_gap(p / 2, q / 2);
    }
}

/// The smallest power of two that is at least `n`.
pub fn next_power_of_two(n: usize) -> (r: usize)
    requires
        n <= 0x8000_0000,
    ensures
        power2::is_pow2(r as int),
        n <= r <= 0x8000_0000,
        forall|p: int| #[trigger] power2::is_pow2(p) && n <= p ==> r <= p,
{
    let mut r: usize = 1;
    proof {
        reveal_with_fuel(power2::is_pow2, 33);
        assert(power2::is_pow2(0x8000_0000));
    }
    while r < n
        invariant
            n <= 0x8000_0000,
            1 <= r <= 0x8000_0000,
            power2::is_pow2(r as int),
            power2::is_pow2(0x8000_0000),
            forall|p: int| #[trigger] power2::is_pow2(p) && n <= p ==> r <= p,
        decreases 0x8000_0000 - r,
    {
        proof {
            lemma_pow2_gap(r as int, 0x8000_0000);
            assert forall|p: int| #[trigger] power2::is_pow2(p) && n <= p implies 2 * r <= p by {
                lemma_pow2_gap(r as int, p);
            }
            reveal(power2::is_pow2);
            assert((2 * r) / 2 == r);
            assert(power2::is_pow2(2 * r));
        }
        r = r * 2;
    }
    r
}

/// A number is a power of two exactly where it is one, or even and half of it is a power of two;
/// the next power of two is at least the number and less than twice it.
pub proof fn law_powers_of_two(n: usize, r: bool, half: bool, m: usize, next: usize)
    requires
        call_ensures(is_power_of_two, (n,), r),
        call_ensures(is_power_of_two, ((n / 2) as usize,), half),
        0 < m <= 0x8000_0000,
        call_ensures(next_power_of_two, (m,), next),
    ensures
        r <==> n == 1 || n > 1 && n % 2 == 0 && half,
        power2::is_pow2(next as int),
        m <= next < 2 * m,
        power2::is_pow2(m as int) ==> next == m,
{
    reveal(power2::is_pow2);
    if next >= 2 * m {
        assert(power2::is_pow2(next as int / 2));
    }
}

} // verus!
