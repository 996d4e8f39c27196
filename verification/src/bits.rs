//! Real numbers as 64-bit IEEE 754 patterns: their order, and the pattern of a
//! whole number. No arithmetic on reals is done here.

use vstd::prelude::*;

verus! {

/// The pattern of a 64-bit floating-point number.
pub type Bits = u64;

/// The sign bit.
pub const SIGN: u64 = 0x8000_0000_0000_0000;

/// The pattern of positive infinity; larger magnitudes are not numbers.
pub const INFINITY: u64 = 0x7ff0_0000_0000_0000;

/// The magnitude of a pattern, without its sign.
pub open spec fn magnitude(b: Bits) -> int {
    if b >= SIGN {
        b - SIGN
    } else {
        b as int
    }
}

/// Whether a pattern stands for a number (infinities included).
pub open spec fn is_number(b: Bits) -> bool {
    magnitude(b) <= INFINITY
}

/// Where a number stands in the order of the reals: patterns of positive numbers
/// ascend with the number, those of negative numbers descend, and both zeros
/// coincide.
pub open spec fn rank(b: Bits) -> int {
    if b >= SIGN {
        -magnitude(b)
    } else {
        magnitude(b)
    }
}

/// `a < b`, as floating-point numbers compare.
pub open spec fn less(a: Bits, b: Bits) -> bool {
    is_number(a) && is_number(b) && rank(a) < rank(b)
}

/// `a == b`, as floating-point numbers compare.
pub open spec fn same(a: Bits, b: Bits) -> bool {
    is_number(a) && is_number(b) && rank(a) == rank(b)
}

/// Compare two numbers for `<`.
pub fn is_less(a: Bits, b: Bits) -> (r: bool)
    ensures
        r == less(a, b),
{
    let ma: u64 = if a >= SIGN { a - SIGN } else { a };
    let mb: u64 = if b >= SIGN { b - SIGN } else { b };
    if ma > INFINITY || mb > INFINITY {
        false
    } else if a >= SIGN {
        if b >= SIGN { mb < ma } else { ma > 0 || mb > 0 }
    } else {
        if b >= SIGN { false } else { ma < mb }
    }
}

/// Compare two numbers for `==`.
pub fn is_same(a: Bits, b: Bits) -> (r: bool)
    ensures
        r == same(a, b),
{
    let ma: u64 = if a >= SIGN { a - SIGN } else { a };
    let mb: u64 = if b >= SIGN { b - SIGN } else { b };
    if ma > INFINITY || mb > INFINITY {
        false
    } else {
        ma == mb && (ma == 0 || ((a >= SIGN) == (b >= SIGN)))
    }
}

/// Whether a number is positive.
pub open spec fn positive(b: Bits) -> bool {
    0 < b <= INFINITY
}

/// Whether a number is positive.
pub fn is_positive(b: Bits) -> (r: bool)
    ensures
        r == positive(b),
{
    0 < b && b <= INFINITY
}

/// `a <= b`, as floating-point numbers compare.
pub open spec fn at_most(a: Bits, b: Bits) -> bool {
    is_number(a) && is_number(b) && rank(a) <= rank(b)
}

/// Compare two numbers for `<=`.
pub fn is_at_most(a: Bits, b: Bits) -> (r: bool)
    ensures
        r == at_most(a, b),
{
    is_less(a, b) || is_same(a, b)
}

/// The smaller of two numbers; where one of them is not a number, the other.
pub open spec fn smaller(a: Bits, b: Bits) -> Bits {
    if !is_number(a) || less(b, a) {
        b
    } else {
        a
    }
}

/// The smaller of two numbers; where one of them is not a number, the other.
pub fn smaller_of(a: Bits, b: Bits) -> (r: Bits)
    ensures
        r == smaller(a, b),
{
    if !is_same(a, a) || is_less(b, a) {
        b
    } else {
        a
    }
}

/// The larger of two numbers; where one of them is not a number, the other.
pub open spec fn larger(a: Bits, b: Bits) -> Bits {
    if !is_number(a) || less(a, b) {
        b
    } else {
        a
    }
}

/// The larger of two numbers; where one of them is not a number, the other.
pub fn larger_of(a: Bits, b: Bits) -> (r: Bits)
    ensures
        r == larger(a, b),
{
    if !is_same(a, a) || is_less(a, b) {
        b
    } else {
        a
    }
}

/// A number held between two bounds.
pub open spec fn clamped(a: Bits, low: Bits, high: Bits) -> Bits {
    if less(a, low) {
        low
    } else if less(high, a) {
        high
    } else {
        a
    }
}

/// A number held between two bounds.
pub fn clamp(a: Bits, low: Bits, high: Bits) -> (r: Bits)
    ensures
        r == clamped(a, low, high),
{
    if is_less(a, low) {
        low
    } else if is_less(high, a) {
        high
    } else {
        a
    }
}

/// The weight of a significand's leading bit.
pub const LEADING: u64 = 0x10_0000_0000_0000;

/// The pattern of `m * 2^(e - 1075)`, for a significand below twice [`LEADING`]: it
/// is doubled until its leading bit is in place, which the pattern leaves out.
pub open spec fn pattern(m: nat, e: int) -> Bits
    decreases 2 * LEADING - m,
{
    if m >= LEADING || m == 0 {
        (e * LEADING + (m - LEADING)) as u64
    } else {
        pattern(2 * m, e - 1)
    }
}

/// The pattern of the whole number `n`.
pub open spec fn whole(n: nat) -> Bits {
    if n == 0 {
        0
    } else {
        pattern(n, 1075)
    }
}

/// The pattern of a whole number below 2^53.
pub fn of_whole(n: u64) -> (b: Bits)
    requires
        n < 2 * LEADING,
    ensures
        b == whole(n as nat),
{
    if n == 0 {
        return 0;
    }
    let mut m: u64 = n;
    let mut e: u64 = 1075;
    while m < LEADING
        invariant
            0 < m < 2 * LEADING,
            e <= 1075,
            e >= 1000 || m >= LEADING,
            m < LEADING ==> m as int >= doubled((1075 - e) as nat),
            pattern(m as nat, e as int) == pattern(n as nat, 1075),
        decreases 2 * LEADING - m,
    {
        proof {
            lemma_doubled((1075 - e) as nat);
        }
        m = 2 * m;
        e = e - 1;
    }
    e * LEADING + (m - LEADING)
}

/// Two to the power `k`.
spec fn doubled(k: nat) -> int
    decreases k,
{
    if k == 0 {
        1
    } else {
        2 * doubled((k - 1) as nat)
    }
}

proof fn lemma_doubled(k: nat)
    ensures
        doubled(k + 1) == 2 * doubled(k),
        k >= 53 ==> doubled(k) >= LEADING,
    decreases k,
{
    if k > 53 {
        lemma_doubled((k - 1) as nat);
    } else if k == 53 {
        reveal_with_fuel(doubled, 54);
    }
}

proof fn lemma_pattern(m: nat, e: int)
    requires
        0 < m < 2 * LEADING,
        e <= 1075,
        e >= 1022 || m >= LEADING,
        m < LEADING ==> m as int >= doubled((1075 - e) as nat),
        m >= LEADING ==> e >= 1000,
    ensures
        ({
            let b = pattern(m, e);
            let k = e - b as int / LEADING as int;
            &&& b < 1076 * LEADING
            &&& 0 <= k
            &&& m * doubled(k as nat) == LEADING + b as int % LEADING as int
        }),
    decreases 2 * LEADING - m,
{
    if m >= LEADING {
        let b = e * LEADING + (m - LEADING);
        assert(0 <= b < 1076 * LEADING) by (nonlinear_arith)
            requires
                b == e * LEADING + (m - LEADING),
                LEADING <= m < 2 * LEADING,
                0 <= e <= 1075,
                LEADING == 0x10_0000_0000_0000,
        ;
        assert(b / LEADING as int == e && b % LEADING as int == m - LEADING) by (nonlinear_arith)
            requires
                b == e * LEADING + (m - LEADING),
                LEADING <= m < 2 * LEADING,
                LEADING == 0x10_0000_0000_0000,
        ;
        assert(m * 1 == m) by (nonlinear_arith);
    } else {
        lemma_doubled((1075 - e) as nat);
        assert(e - 1 >= 1022 || 2 * m >= LEADING) by {
            if e == 1022 {
                reveal_with_fuel(doubled, 54);
            }
        }
        lemma_pattern(2 * m, e - 1);
        let b = pattern(2 * m, e - 1);
        let k = e - 1 - b as int / LEADING as int;
        lemma_doubled(k as nat);
        assert(m * (2 * doubled(k as nat)) == (2 * m) * doubled(k as nat)) by (nonlinear_arith);
    }
}

/// The pattern of a whole number stands for that number: its significand, with the leading
/// bit put back, is the number doubled as often as its exponent falls short of that of the
/// last whole bit.
pub proof fn lemma_whole_stands_for_the_number(n: nat)
    requires
        0 < n < 2 * LEADING,
    ensures
        ({
            let b = whole(n) as int;
            let k = 1075 - b / LEADING as int;
            0 <= k && n * vstd::arithmetic::power2::pow2(k as nat) == LEADING + b % LEADING as int
        }),
{
    reveal_with_fuel(doubled, 2);
    lemma_pattern(n, 1075);
    lemma_doubled_is_a_power((1075 - whole(n) as int / LEADING as int) as nat);
}

proof fn lemma_doubled_is_a_power(k: nat)
    ensures
        doubled(k) == vstd::arithmetic::power2::pow2(k),
    decreases k,
{
    vstd::arithmetic::power2::lemma2_to64();
    if k > 0 {
        lemma_doubled_is_a_power((k - 1) as nat);
        vstd::arithmetic::power2::lemma_pow2_unfold(k);
    }
}

/// The pattern of nothing is nothing.
pub proof fn lemma_nothing_is_nothing()
    ensures
        whole(0) == 0,
{
}

/// The order of patterns is that of the numbers they stand for: a positive number is above
/// any negative one, the larger magnitude is above among positive ones and below among
/// negative ones, the two zeros are the same, and what is no number compares with nothing.
pub proof fn lemma_patterns_compare_as_numbers(a: Bits, b: Bits)
    ensures
        a <= INFINITY && b <= INFINITY ==> (less(a, b) <==> a < b),
        SIGN <= a <= SIGN + INFINITY && SIGN <= b <= SIGN + INFINITY ==> (less(a, b) <==> a > b),
        SIGN < a <= SIGN + INFINITY && b <= INFINITY ==> less(a, b),
        SIGN <= a && b <= INFINITY ==> !less(b, a),
        !less(0, SIGN) && !less(SIGN, 0) && same(0, SIGN),
        INFINITY < a < SIGN || a > SIGN + INFINITY ==> !less(a, b) && !less(b, a) && !same(a, b),
        same(a, b) ==> !less(a, b),
        at_most(a, b) <==> less(a, b) || same(a, b),
        positive(a) <==> less(0, a),
{
}

/// The smaller and the larger of two numbers are the two, in order.
pub proof fn lemma_smaller_and_larger(a: Bits, b: Bits)
    requires
        is_number(a),
        is_number(b),
    ensures
        smaller(a, b) == a || smaller(a, b) == b,
        larger(a, b) == a || larger(a, b) == b,
        at_most(smaller(a, b), a),
        at_most(smaller(a, b), b),
        at_most(a, larger(a, b)),
        at_most(b, larger(a, b)),
{
}

/// A clamped number is within its bounds, and one that was is as it was.
pub proof fn lemma_clamped_is_within(a: Bits, low: Bits, high: Bits)
    requires
        is_number(a),
        at_most(low, high),
    ensures
        at_most(low, clamped(a, low, high)),
        at_most(clamped(a, low, high), high),
        at_most(low, a) && at_most(a, high) ==> clamped(a, low, high) == a,
        less(a, low) ==> clamped(a, low, high) == low,
        less(high, a) ==> clamped(a, low, high) == high,
{
}

} // verus!
