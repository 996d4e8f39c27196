//! Credit arithmetic. Balances are 64-bit two's-complement numbers.

use vstd::prelude::*;

use crate::ids::Money;

verus! {

/// The 64-bit two's-complement value congruent to `x`; `x` itself where it fits.
pub open spec fn wrapped(x: int) -> Money {
    let r = x % 0x1_0000_0000_0000_0000;
    if r > i64::MAX {
        (r - 0x1_0000_0000_0000_0000) as i64
    } else {
        r as i64
    }
}

/// Reduce a wide value to 64 bits, two's complement.
pub fn wrap(x: i128) -> (r: Money)
    ensures
        r == wrapped(x as int),
{
    let low: u64 = (x & 0xffff_ffff_ffff_ffff) as u64;
    proof {
        assert((x & 0xffff_ffff_ffff_ffff) as u64 as int == x as int % 0x1_0000_0000_0000_0000)
            by (bit_vector);
    }
    if low > 0x7fff_ffff_ffff_ffff {
        -((0xffff_ffff_ffff_ffff - low) as i64) - 1
    } else {
        low as i64
    }
}

/// A balance after a credit (or, where `amount` is negative, a charge).
pub fn credit(balance: Money, amount: Money) -> (r: Money)
    ensures
        r == wrapped(balance + amount),
{
    wrap(balance as i128 + amount as i128)
}

/// A balance after a charge.
pub fn charge(balance: Money, amount: Money) -> (r: Money)
    ensures
        r == wrapped(balance - amount),
{
    wrap(balance as i128 - amount as i128)
}

/// The price of `qty` units.
pub fn total(price: Money, qty: u32) -> (r: i128)
    ensures
        r == price * qty,
        -0x1_0000_0000_0000_0000 * 0x1_0000_0000 <= r <= 0x1_0000_0000_0000_0000 * 0x1_0000_0000,
{
    assert(-0x1_0000_0000_0000_0000 * 0x1_0000_0000 <= price * qty <= 0x1_0000_0000_0000_0000
        * 0x1_0000_0000) by (nonlinear_arith)
        requires
            -0x1_0000_0000_0000_0000 <= price <= 0x1_0000_0000_0000_0000,
            0 <= qty <= 0x1_0000_0000,
    ;
    (price as i128) * (qty as i128)
}

/// An amount that fits is itself.
pub broadcast proof fn lemma_wrapped_fits(x: int)
    requires
        i64::MIN <= x <= i64::MAX,
    ensures
        #[trigger] wrapped(x) == x,
{
    if x < 0 {
        assert(x % 0x1_0000_0000_0000_0000 == x + 0x1_0000_0000_0000_0000) by (nonlinear_arith)
            requires
                -0x1_0000_0000_0000_0000 <= x < 0,
        ;
    }
}

/// Reducing a summand first changes nothing.
pub proof fn lemma_wrapped_sum(a: int, b: int)
    ensures
        wrapped(wrapped(a) + b) == wrapped(a + b),
{
    let m: int = 0x1_0000_0000_0000_0000;
    vstd::arithmetic::div_mod::lemma_add_mod_noop(a, b, m);
    vstd::arithmetic::div_mod::lemma_add_mod_noop(wrapped(a) as int, b, m);
    assert((wrapped(a) as int) % m == a % m) by {
        vstd::arithmetic::div_mod::lemma_mod_twice(a, m);
        if a % m > i64::MAX {
            vstd::arithmetic::div_mod::lemma_mod_add_multiples_vanish(a % m - m, m);
        }
    }
}

} // verus!
