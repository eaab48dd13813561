//! Text as the bus writes it: decimal and hexadecimal numbers, and ASCII comparisons.
use vstd::prelude::*;

verus! {

/// The character of a digit in a base up to 16, letters in lower case.
pub open spec fn digit_char(d: nat) -> char {
    if d < 10 {
        ('0' as u32 + d) as char
    } else {
        ('a' as u32 + (d - 10)) as char
    }
}

/// `x` in base `base`, most significant digit first, without leading zeros.
pub open spec fn in_base(x: nat, base: nat) -> Seq<char>
    decreases x,
{
    if base < 2 {
        Seq::empty()
    } else if x < base {
        seq![digit_char(x)]
    } else {
        proof {
            assert(x / base < x) by (nonlinear_arith)
                requires
                    x >= base,
                    base >= 2,
            ;
        }
        in_base(x / base, base).push(digit_char(x % base))
    }
}

/// `x` in decimal.
pub open spec fn decimal(x: nat) -> Seq<char> {
    in_base(x, 10)
}

/// `x` in hexadecimal.
pub open spec fn hex(x: nat) -> Seq<char> {
    in_base(x, 16)
}

/// `x` in base 16 with exactly `width` digits: its low digits, zeros in front.
pub open spec fn hex_fixed(x: nat, width: nat) -> Seq<char>
    decreases width,
{
    if width == 0 {
        Seq::empty()
    } else {
        hex_fixed(x / 16, (width - 1) as nat).push(digit_char(x % 16))
    }
}

fn digit(d: u64) -> (s: &'static str)
    requires
        d < 16,
    ensures
        s@ == seq![digit_char(d as nat)],
{
    proof {
        reveal_strlit("0");
        reveal_strlit("1");
        reveal_strlit("2");
        reveal_strlit("3");
        reveal_strlit("4");
        reveal_strlit("5");
        reveal_strlit("6");
        reveal_strlit("7");
        reveal_strlit("8");
        reveal_strlit("9");
        reveal_strlit("a");
        reveal_strlit("b");
        reveal_strlit("c");
        reveal_strlit("d");
        reveal_strlit("e");
        reveal_strlit("f");
    }
    match d {
        0 => "0",
        1 => "1",
        2 => "2",
        3 => "3",
        4 => "4",
        5 => "5",
        6 => "6",
        7 => "7",
        8 => "8",
        9 => "9",
        10 => "a",
        11 => "b",
        12 => "c",
        13 => "d",
        14 => "e",
        _ => "f",
    }
}

fn in_base_string(x: u64, base: u64) -> (s: String)
    requires
        2 <= base <= 16,
    ensures
        s@ == in_base(x as nat, base as nat),
    decreases x,
{
    if x < base {
        digit(x).to_owned()
    } else {
        proof {
            assert(0 <= x / base < x) by (nonlinear_arith)
                requires
                    x >= base,
                    base >= 2,
            ;
        }
        let mut s: String = in_base_string(x / base, base);
        s.append(digit(x % base));
        proof {
            let front = in_base(x as nat / base as nat, base as nat);
            let last = digit_char(x as nat % base as nat);
            assert(front + seq![last] =~= front.push(last));
        }
        s
    }
}

/// Writes `x` in decimal.
pub fn decimal_string(x: u64) -> (s: String)
    ensures
        s@ == decimal(x as nat),
{
    in_base_string(x, 10)
}

/// The decimal digits of `x`, after a minus sign where it is negative.
pub open spec fn signed(x: int) -> Seq<char> {
    if x < 0 {
        "-"@ + decimal((-x) as nat)
    } else {
        decimal(x as nat)
    }
}

/// Writes `x` in decimal.
pub fn signed_string(x: i32) -> (s: String)
    ensures
        s@ == signed(x as int),
{
    if x < 0 {
        let mut s: String = "-".to_owned();
        s.append(decimal_string((-(x as i64)) as u64).as_str());
        s
    } else {
        decimal_string(x as u64)
    }
}

/// Writes `x` in hexadecimal.
pub fn hex_string(x: u64) -> (s: String)
    ensures
        s@ == hex(x as nat),
{
    in_base_string(x, 16)
}

/// Writes the `width` low hexadecimal digits of `x`.
pub fn hex_fixed_string(x: u64, width: usize) -> (s: String)
    ensures
        s@ == hex_fixed(x as nat, width as nat),
    decreases width,
{
    if width == 0 {
        String::new()
    } else {
        let mut s: String = hex_fixed_string(x / 16, width - 1);
        s.append(digit(x % 16));
        proof {
            let front = hex_fixed(x as nat / 16, (width - 1) as nat);
            let last = digit_char(x as nat % 16);
            assert(front + seq![last] =~= front.push(last));
        }
        s
    }
}

proof fn lemma_digit_char_injective(a: nat, b: nat)
    requires
        a < 16,
        b < 16,
        digit_char(a) == digit_char(b),
    ensures
        a == b,
{
}

/// Two numbers with the same digits are the same number.
pub proof fn lemma_in_base_injective(x: nat, y: nat, base: nat)
    requires
        2 <= base <= 16,
        in_base(x, base) == in_base(y, base),
    ensures
        x == y,
    decreases x + y,
{
    lemma_in_base_len(x, base);
    lemma_in_base_len(y, base);
    let a = in_base(x, base);
    let b = in_base(y, base);
    assert(a.last() == b.last());
    assert(a.drop_last() == b.drop_last());
    lemma_digit_char_injective(x % base, y % base);
    if x < base && y >= base {
        assert(a.drop_last() =~= Seq::<char>::empty());
        assert(b.drop_last() =~= in_base(y / base, base));
        lemma_in_base_len(y / base, base);
    } else if x >= base && y < base {
        assert(b.drop_last() =~= Seq::<char>::empty());
        assert(a.drop_last() =~= in_base(x / base, base));
        lemma_in_base_len(x / base, base);
    } else if x >= base && y >= base {
        assert(a.drop_last() =~= in_base(x / base, base));
        assert(b.drop_last() =~= in_base(y / base, base));
        assert(x / base < x) by (nonlinear_arith)
            requires
                x >= base,
                base >= 2,
        ;
        assert(y / base < y) by (nonlinear_arith)
            requires
                y >= base,
                base >= 2,
        ;
        lemma_in_base_injective(x / base, y / base, base);
        vstd::arithmetic::div_mod::lemma_fundamental_div_mod(x as int, base as int);
        vstd::arithmetic::div_mod::lemma_fundamental_div_mod(y as int, base as int);
    }
}

/// A number has at least one digit, and its last digit is its remainder.
pub proof fn lemma_in_base_len(x: nat, base: nat)
    requires
        base >= 2,
    ensures
        in_base(x, base).len() >= 1,
        in_base(x, base).last() == digit_char(x % base),
{
    if x < base {
        assert(x % base == x) by (nonlinear_arith)
            requires
                x < base,
        ;
    }
}

pub proof fn lemma_hex_fixed_len(x: nat, width: nat)
    ensures
        hex_fixed(x, width).len() == width,
    decreases width,
{
    if width > 0 {
        lemma_hex_fixed_len(x / 16, (width - 1) as nat);
    }
}

proof fn lemma_hex_width(x: nat, width: nat)
    requires
        width > 0,
        x < vstd::arithmetic::power::pow(16, width),
    ensures
        hex(x).len() <= width,
    decreases width,
{
    reveal(vstd::arithmetic::power::pow);
    if x >= 16 {
        let w = (width - 1) as nat;
        assert(vstd::arithmetic::power::pow(16, width) == 16 * vstd::arithmetic::power::pow(16, w));
        lemma_hex_width(x / 16, w);
    }
}

/// A number of eight bytes has no more than sixteen hexadecimal digits.
pub proof fn lemma_hex_len(x: u64)
    ensures
        hex(x as nat).len() <= 16,
{
    assert(vstd::arithmetic::power::pow(16, 16) == 0x1_0000_0000_0000_0000) by {
        reveal_with_fuel(vstd::arithmetic::power::pow, 17);
    }
    lemma_hex_width(x as nat, 16);
}

/// Two numbers that fit `width` hexadecimal digits and have the same digits are the same
/// number.
pub proof fn lemma_hex_fixed_injective(x: nat, y: nat, width: nat)
    requires
        x < vstd::arithmetic::power::pow(16, width),
        y < vstd::arithmetic::power::pow(16, width),
        hex_fixed(x, width) == hex_fixed(y, width),
    ensures
        x == y,
    decreases width,
{
    reveal(vstd::arithmetic::power::pow);
    if width > 0 {
        let w = (width - 1) as nat;
        let a = hex_fixed(x, width);
        let b = hex_fixed(y, width);
        assert(a.last() == b.last());
        assert(a.drop_last() =~= hex_fixed(x / 16, w));
        assert(b.drop_last() =~= hex_fixed(y / 16, w));
        lemma_digit_char_injective(x % 16, y % 16);
        lemma_hex_fixed_injective(x / 16, y / 16, w);
    }
}

/// The characters of a text.
pub fn chars_of(s: &str) -> (r: Vec<char>)
    ensures
        r@ == s@,
{
    let mut r: Vec<char> = Vec::new();
    for c in it: s.chars()
        invariant
            it.seq() == s@,
            r@ == s@.take(it.index() as int),
    {
        r.push(c);
        proof {
            assert(s@.take(it.index() + 1) =~= s@.take(it.index() as int).push(c));
        }
    }
    proof {
        assert(s@.take(s@.len() as int) =~= s@);
    }
    r
}

/// Whether two lists of characters are the same.
pub fn same_chars(a: &Vec<char>, b: &Vec<char>) -> (r: bool)
    ensures
        r == (a@ == b@),
{
    if a.len() != b.len() {
        return false;
    }
    let mut i: usize = 0;
    while i < a.len()
        invariant
            i <= a@.len(),
            a@.len() == b@.len(),
            forall|j: int| 0 <= j < i ==> a@[j] == b@[j],
        decreases a@.len() - i,
    {
        if a[i] != b[i] {
            return false;
        }
        i = i + 1;
    }
    proof {
        assert(a@ =~= b@);
    }
    true
}

/// Whether a list of characters is the text `b`.
pub fn is_text(a: &Vec<char>, b: &str) -> (r: bool)
    ensures
        r == (a@ == b@),
{
    same_chars(a, &chars_of(b))
}

/// Whether two texts are the same.
pub fn same_text(a: &str, b: &str) -> (r: bool)
    ensures
        r == (a@ == b@),
{
    same_chars(&chars_of(a), &chars_of(b))
}

/// `sub` occurs in `s` at `at`.
pub open spec fn occurs_at(s: Seq<char>, sub: Seq<char>, at: int) -> bool {
    0 <= at && at + sub.len() <= s.len() && s.subrange(at, at + sub.len()) == sub
}

fn occurs_here(s: &Vec<char>, sub: &Vec<char>, at: usize) -> (r: bool)
    requires
        at <= s.len(),
    ensures
        r == occurs_at(s@, sub@, at as int),
{
    if sub.len() > s.len() - at {
        return false;
    }
    let mut i: usize = 0;
    while i < sub.len()
        invariant
            i <= sub@.len(),
            at + sub@.len() <= s.len(),
            forall|j: int| 0 <= j < i ==> s@[at + j] == sub@[j],
        decreases sub@.len() - i,
    {
        if s[at + i] != sub[i] {
            proof {
                assert(s@.subrange(at as int, at + sub@.len())[i as int] != sub@[i as int]);
            }
            return false;
        }
        i = i + 1;
    }
    proof {
        assert(s@.subrange(at as int, at + sub@.len()) =~= sub@);
    }
    true
}

/// Whether `s` begins with `prefix`.
pub fn starts_with(s: &str, prefix: &str) -> (r: bool)
    ensures
        r == occurs_at(s@, prefix@, 0),
{
    occurs_here(&chars_of(s), &chars_of(prefix), 0)
}

/// Whether `sub` occurs in `s`.
pub fn contains(s: &str, sub: &str) -> (r: bool)
    ensures
        r == exists|at: int| occurs_at(s@, sub@, at),
{
    let a: Vec<char> = chars_of(s);
    let b: Vec<char> = chars_of(sub);
    let mut i: usize = 0;
    while i < a.len()
        invariant
            i <= a@.len(),
            a@ == s@,
            b@ == sub@,
            forall|at: int| at < i ==> !occurs_at(s@, sub@, at),
        decreases a@.len() - i,
    {
        if occurs_here(&a, &b, i) {
            return true;
        }
        i = i + 1;
    }
    occurs_here(&a, &b, i)
}

/// The digits of a number: those of its tenth and then its last one, and one digit alone where it
/// is less than ten; in base sixteen likewise.
pub proof fn law_digits(x: u64, s: String, h: String, signed_s: String, y: i32)
    requires
        call_ensures(decimal_string, (x,), s),
        call_ensures(hex_string, (x,), h),
        call_ensures(signed_string, (y,), signed_s),
    ensures
        s@.len() > 0 && h@.len() > 0,
        s@.last() == digit_char(x as nat % 10),
        h@.last() == digit_char(x as nat % 16),
        x < 10 ==> s@.len() == 1,
        x < 16 ==> h@.len() == 1,
        x >= 10 ==> s@.drop_last() == decimal(x as nat / 10),
        x >= 16 ==> h@.drop_last() == hex(x as nat / 16),
        y >= 0 ==> signed_s@ == decimal(y as nat),
        y < 0 ==> signed_s@ == "-"@ + decimal((-y) as nat),
{
    if x >= 10 {
        assert(s@.drop_last() =~= decimal(x as nat / 10));
    }
    if x >= 16 {
        assert(h@.drop_last() =~= hex(x as nat / 16));
    }
}

/// The characters of the digits, from `0` to `f`.
pub proof fn law_digit_chars(d: nat)
    requires
        d < 16,
    ensures
        d < 10 ==> digit_char(d) as int == '0' as int + d,
        10 <= d ==> digit_char(d) as int == 'a' as int + (d - 10),
{
}

/// A number with a fixed number of digits: its low digits, the last one last.
pub proof fn law_fixed_digits(x: u64, width: usize, s: String)
    requires
        call_ensures(hex_fixed_string, (x, width), s),
    ensures
        s@.len() == width,
        width > 0 ==> s@.last() == digit_char(x as nat % 16) && s@.drop_last() == hex_fixed(
            x as nat / 16,
            (width - 1) as nat,
        ),
{
    lemma_hex_fixed_len(x as nat, width as nat);
    if width > 0 {
        assert(s@.drop_last() =~= hex_fixed(x as nat / 16, (width - 1) as nat));
    }
}

/// Texts are the same exactly where their characters are, one begins with another exactly where
/// its first characters are those, and holds it exactly where some of its characters are.
pub proof fn law_texts_are_compared(
    a: &str,
    b: &str,
    same: bool,
    begins: bool,
    holds: bool,
)
    requires
        call_ensures(same_text, (a, b), same),
        call_ensures(starts_with, (a, b), begins),
        call_ensures(contains, (a, b), holds),
    ensures
        same <==> a@ == b@,
        begins <==> b@.len() <= a@.len() && a@.take(b@.len() as int) == b@,
        holds <==> exists|i: int|
            0 <= i <= a@.len() - b@.len() && #[trigger] a@.subrange(i, i + b@.len()) == b@,
{
    if b@.len() <= a@.len() {
        assert(a@.take(b@.len() as int) =~= a@.subrange(0, b@.len() as int));
    }
    if exists|at: int| occurs_at(a@, b@, at) {
        let at = choose|at: int| occurs_at(a@, b@, at);
        assert(a@.subrange(at, at + b@.len()) == b@);
    }
    if exists|i: int|
        0 <= i <= a@.len() - b@.len() && #[trigger] a@.subrange(i, i + b@.len()) == b@ {
        let i = choose|i: int|
            0 <= i <= a@.len() - b@.len() && #[trigger] a@.subrange(i, i + b@.len()) == b@;
        assert(occurs_at(a@, b@, i));
    }
}

proof fn lemma_decimal_width(x: nat, width: nat)
    requires
        width > 0,
        x < vstd::arithmetic::power::pow(10, width),
    ensures
        decimal(x).len() <= width,
    decreases width,
{
    reveal(vstd::arithmetic::power::pow);
    if x >= 10 {
        let w = (width - 1) as nat;
        assert(vstd::arithmetic::power::pow(10, width) == 10 * vstd::arithmetic::power::pow(10, w));
        lemma_decimal_width(x / 10, w);
    }
}

/// A number of eight bytes has no more than twenty decimal digits.
pub proof fn lemma_decimal_len(x: u64)
    ensures
        decimal(x as nat).len() <= 20,
{
    assert(vstd::arithmetic::power::pow(10, 20) == 100_000_000_000_000_000_000) by {
        reveal_with_fuel(vstd::arithmetic::power::pow, 21);
    }
    lemma_decimal_width(x as nat, 20);
}

} // verus!
