//! Financial instruments layered on the spot economy: loans, ship-loss insurance
//! and cash-settled commodity futures.

use vstd::prelude::*;

use crate::ids::{CommodityId, LoanId, Money, PlayerId, Quantity, Tick, TraderId};
use crate::money;

verus! {

/// An outstanding loan against a trader's capital.
#[derive(Debug, Clone, Copy, PartialEq, Eq, Structural)]
pub struct Loan {
    /// Stable handle.
    pub id: LoanId,
    /// The player who owns the borrowing trader.
    pub player: PlayerId,
    /// The trader the loan was credited to and is repaid from.
    pub borrower: TraderId,
    /// Amount originally borrowed.
    pub principal: Money,
    /// Current balance owed.
    pub outstanding: Money,
    /// The last tick on which the balance can be repaid; past it the lender calls
    /// the loan.
    pub due: Tick,
}

/// The product of two amounts, held within the range of [`Money`].
pub open spec fn saturating_product(a: int, b: int) -> int {
    if a * b > i64::MAX {
        i64::MAX as int
    } else if a * b < i64::MIN {
        i64::MIN as int
    } else {
        a * b
    }
}

/// The sum of two amounts, held within the range of [`Money`].
pub open spec fn saturating_sum(a: int, b: int) -> int {
    if a + b > i64::MAX {
        i64::MAX as int
    } else if a + b < i64::MIN {
        i64::MIN as int
    } else {
        a + b
    }
}

/// Division that drops the fraction, toward zero.
pub open spec fn truncated(a: int, d: int) -> int {
    if a < 0 {
        -((-a) / d)
    } else {
        a / d
    }
}

impl Loan {
    /// Whether this loan is held by `(player, trader)`.
    pub open spec fn spec_held_by(self, player: PlayerId, trader: TraderId) -> bool {
        self.player == player && self.borrower == trader
    }

    /// Whether this loan is held by `(player, trader)`.
    pub fn held_by(&self, player: PlayerId, trader: TraderId) -> (b: bool)
        ensures
            b == self.spec_held_by(player, trader),
    {
        self.player == player && self.borrower == trader
    }

    /// The interest one period charges, in basis points of the balance.
    pub open spec fn interest(self, rate_bps: u32) -> int {
        truncated(saturating_product(self.outstanding as int, rate_bps as int), 10_000)
    }

    /// The loan after one period of interest.
    pub open spec fn spec_accrued(self, rate_bps: u32) -> Loan {
        Loan {
            outstanding: saturating_sum(self.outstanding as int, self.interest(rate_bps)) as i64,
            ..self
        }
    }

    /// The loan after one period of interest.
    pub fn accrued(&self, rate_bps: u32) -> (l: Loan)
        ensures
            l == self.spec_accrued(rate_bps),
    {
        assert(-0x1_0000_0000_0000_0000 * 0x1_0000_0000 <= self.outstanding * rate_bps
            <= 0x1_0000_0000_0000_0000 * 0x1_0000_0000) by (nonlinear_arith)
            requires
                -0x1_0000_0000_0000_0000 <= self.outstanding <= 0x1_0000_0000_0000_0000,
                0 <= rate_bps <= 0x1_0000_0000,
        ;
        let product: i128 = (self.outstanding as i128) * (rate_bps as i128);
        let held: i128 = if product > i64::MAX as i128 {
            i64::MAX as i128
        } else if product < i64::MIN as i128 {
            i64::MIN as i128
        } else {
            product
        };
        let interest: i128 = if held < 0 { -((-held) / 10_000) } else { held / 10_000 };
        let sum: i128 = self.outstanding as i128 + interest;
        let outstanding: i64 = if sum > i64::MAX as i128 {
            i64::MAX
        } else if sum < i64::MIN as i128 {
            i64::MIN
        } else {
            sum as i64
        };
        Loan { outstanding, ..*self }
    }
}

/// A ship-loss insurance policy: while in force, a destroyed trader is compensated
/// once. A trader has at most one.
#[derive(Debug, Clone, Copy, PartialEq, Eq, Structural)]
pub struct Policy {
    /// The player who owns the insured trader.
    pub player: PlayerId,
    /// The insured trader.
    pub insured: TraderId,
    /// Compensation paid on destruction while covered.
    pub payout: Money,
    /// The last tick of coverage.
    pub expiry: Tick,
}

/// Which way a futures position is taken.
#[derive(Debug, Clone, Copy, PartialEq, Eq, Structural)]
pub enum FutureSide {
    /// Agreed to buy at the strike: profits when the settlement price is higher.
    Long,
    /// Agreed to sell at the strike: profits when the settlement price is lower.
    Short,
}

/// An open, cash-settled commodity-futures position.
#[derive(Debug, Clone, Copy, PartialEq, Eq, Structural)]
pub struct Future {
    /// The player who owns the holding trader.
    pub player: PlayerId,
    /// The trader carrying the position.
    pub holder: TraderId,
    /// The commodity the position is on.
    pub commodity: CommodityId,
    /// Units the position covers.
    pub quantity: Quantity,
    /// Long or short.
    pub side: FutureSide,
    /// Reference price locked at open.
    pub strike: Money,
    /// The tick on which the position settles.
    pub maturity: Tick,
}

impl Future {
    /// Gain over all units at a `settle` price: the price move times the quantity,
    /// signed by the side.
    pub open spec fn gain(self, settle: Money) -> int {
        let move_up = (settle - self.strike) * self.quantity;
        match self.side {
            FutureSide::Long => move_up,
            FutureSide::Short => -move_up,
        }
    }

    /// Cash payoff at a `settle` reference price: positive is a gain to the holder.
    pub fn payoff(&self, settle: Money) -> (p: Money)
        ensures
            p == money::wrapped(self.gain(settle)),
    {
        let spread: i128 = settle as i128 - self.strike as i128;
        assert(-0x1_0000_0000_0000_0000 * 0x1_0000_0000 <= spread * self.quantity
            <= 0x1_0000_0000_0000_0000 * 0x1_0000_0000) by (nonlinear_arith)
            requires
                -0x1_0000_0000_0000_0000 <= spread <= 0x1_0000_0000_0000_0000,
                0 <= self.quantity <= 0x1_0000_0000,
        ;
        let move_up: i128 = spread * (self.quantity as i128);
        let gain: i128 = match self.side {
            FutureSide::Long => move_up,
            FutureSide::Short => -move_up,
        };
        money::wrap(gain)
    }
}

/// A short position loses exactly what the long one gains.
pub proof fn lemma_short_mirrors_long(f: Future, settle: Money)
    ensures
        (Future { side: FutureSide::Short, ..f }).gain(settle) == -(Future {
            side: FutureSide::Long,
            ..f
        }).gain(settle),
{
}

/// A position that settles at its strike gains nothing, whichever side it is on.
pub proof fn lemma_flat_settles_to_nothing(f: Future)
    ensures
        f.gain(f.strike) == 0,
{
    assert((f.strike - f.strike) * f.quantity == 0) by (nonlinear_arith);
}

/// A long position gains from a higher price, and a short one from a lower price.
pub proof fn lemma_gain_follows_the_side(f: Future, settle: Money)
    requires
        f.quantity > 0,
    ensures
        f.side is Long ==> (f.gain(settle) > 0 <==> settle > f.strike),
        f.side is Short ==> (f.gain(settle) > 0 <==> settle < f.strike),
{
    let d = settle - f.strike;
    let q = f.quantity as int;
    assert(d > 0 ==> d * q > 0) by (nonlinear_arith)
        requires
            q > 0,
    ;
    assert(d < 0 ==> d * q < 0) by (nonlinear_arith)
        requires
            q > 0,
    ;
    assert(d == 0 ==> d * q == 0) by (nonlinear_arith);
}

/// Interest never shrinks a debt, and touches nothing of a loan but its balance.
pub proof fn lemma_interest_never_shrinks_a_debt(l: Loan, rate_bps: u32)
    requires
        l.outstanding >= 0,
    ensures
        l.spec_accrued(rate_bps).outstanding >= l.outstanding,
        l.spec_accrued(rate_bps) == (Loan {
            outstanding: l.spec_accrued(rate_bps).outstanding,
            ..l
        }),
{
    assert(l.outstanding * rate_bps >= 0) by (nonlinear_arith)
        requires
            l.outstanding >= 0,
            rate_bps >= 0,
    ;
}

/// At a rate of nothing a balance stays as it is.
pub proof fn lemma_no_rate_no_interest(l: Loan)
    ensures
        l.spec_accrued(0) == l,
{
    assert(l.outstanding * 0 == 0) by (nonlinear_arith);
}

} // verus!
