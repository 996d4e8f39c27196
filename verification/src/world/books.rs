//! The financial layer of a tick: loans accrue and are called, insurance lapses, and
//! matured futures settle.

use vstd::prelude::*;

use crate::event;
use crate::event::EventCategory;
use crate::finance::{Future, Loan, Policy};
use crate::ids::{Money, Tick};
use crate::market;
use crate::money;
use crate::search;
use crate::trader;
use crate::trader::TraderView;
use crate::world::commands;
use crate::world::messages;
use crate::world::{World, WorldView};

verus! {

/// Whether interest falls due on this tick.
pub open spec fn accrues(w: WorldView) -> bool {
    w.loan_runtime is Some && w.tick.0 > 0 && w.tick.0 % w.loan_runtime->Some_0.accrual_interval
        == 0
}

/// The loans after this tick's interest.
pub open spec fn loans_accrued(w: WorldView) -> Seq<Loan> {
    if accrues(w) {
        Seq::new(
            w.loans.len(),
            |i: int| w.loans[i].spec_accrued(w.loan_runtime->Some_0.rate_bps),
        )
    } else {
        w.loans
    }
}

/// Whether a loan is past its due tick, and so called.
pub open spec fn overdue(now: Tick, l: Loan) -> bool {
    now.0 > l.due.0
}

/// The world after trader `id`, if it is still there, has been credited `amount`.
pub open spec fn credit_trader(w: WorldView, id: crate::ids::TraderId, amount: int) -> WorldView {
    match commands::trader_slot(w.traders, id) {
        None => w,
        Some(i) => w.with_trader(
            i,
            TraderView {
                capital: money::wrapped(w.traders[i].capital + amount),
                ..w.traders[i]
            },
        ),
    }
}

/// The world after the first `n` of the `called` loans have been seized.
pub open spec fn seized(w: WorldView, called: Seq<Loan>, n: int) -> WorldView
    decreases n,
{
    if n <= 0 {
        w
    } else {
        let l = called[n - 1];
        credit_trader(seized(w, called, n - 1), l.borrower, -(l.outstanding as int)).log(
            EventCategory::System,
            None,
            messages::called(l.id, l.outstanding, l.borrower),
        )
    }
}

/// The world after loans have compounded and overdue ones been called. Nothing
/// happens to loans where there is no lending.
pub open spec fn loans_run(w: WorldView) -> WorldView {
    if w.loan_runtime is Some {
        let loans = loans_accrued(w);
        let called = loans.filter(|l: Loan| overdue(w.tick, l));
        seized(
            WorldView { loans: loans.filter(|l: Loan| !overdue(w.tick, l)), ..w },
            called,
            called.len() as int,
        )
    } else {
        w
    }
}

/// The world after policies past their last tick have lapsed.
pub open spec fn policies_run(w: WorldView) -> WorldView {
    WorldView { policies: w.policies.filter(|p: Policy| w.tick.0 <= p.expiry.0), ..w }
}

/// Whether a position settles now.
pub open spec fn matured(now: Tick, f: Future) -> bool {
    now.0 >= f.maturity.0
}

/// The price a position settles at: the reference price, or its strike where no
/// market trades the good any more.
pub open spec fn settlement(w: WorldView, f: Future) -> Money {
    match commands::mean_price(w.markets, f.commodity) {
        Some(p) => p,
        None => f.strike,
    }
}

/// The world after the first `n` of the `due` positions have settled.
pub open spec fn futures_settled(w: WorldView, due: Seq<Future>, n: int) -> WorldView
    decreases n,
{
    if n <= 0 {
        w
    } else {
        let before = futures_settled(w, due, n - 1);
        let f = due[n - 1];
        let settle = settlement(before, f);
        let payoff = money::wrapped(f.gain(settle));
        credit_trader(before, f.holder, payoff as int).log(
            EventCategory::System,
            None,
            messages::settled(
                f.holder,
                w.registry.spec_commodity_name(f.commodity),
                settle,
                f.strike,
                payoff,
            ),
        )
    }
}

/// The world after matured positions have settled.
pub open spec fn futures_run(w: WorldView) -> WorldView {
    let due = w.futures.filter(|f: Future| matured(w.tick, f));
    futures_settled(
        WorldView { futures: w.futures.filter(|f: Future| !matured(w.tick, f)), ..w },
        due,
        due.len() as int,
    )
}

/// The world after the financial layer has advanced.
pub open spec fn finance_run(w: WorldView) -> WorldView {
    futures_run(policies_run(loans_run(w)))
}

impl World {
    /// Credit a trader, if it is still there.
    fn credit_by_id(&mut self, id: crate::ids::TraderId, amount: i128)
        requires
            old(self)@.wf(),
            -0x1_0000_0000_0000_0000 <= amount <= 0x1_0000_0000_0000_0000,
        ensures
            final(self)@ == credit_trader(old(self)@, id, amount as int),
            final(self)@.wf(),
    {
        match self.trader_index(id) {
            None => {},
            Some(i) => {
                let capital = money::wrap(self.traders[i].capital as i128 + amount);
                self.traders[i].capital = capital;
                assert(self@.trader_ok(old(self)@.traders[i as int]));
                assert(self@ =~= credit_trader(old(self)@, id, amount as int));
            },
        }
    }

    /// Compound interest, then call overdue loans, seizing their balance.
    fn run_loans(&mut self)
        requires
            old(self)@.wf(),
        ensures
            final(self)@ == loans_run(old(self)@),
            final(self)@.wf(),
    {
        let rt = match self.loan_runtime {
            Some(rt) => rt,
            None => {
                return ;
            },
        };
        let now = self.tick;
        let accrue = now.0 > 0 && now.0 % rt.accrual_interval == 0;
        let ghost loans = loans_accrued(self@);
        let ghost late = |l: Loan| overdue(now, l);
        let ghost current = |l: Loan| !overdue(now, l);
        let mut kept: Vec<Loan> = Vec::new();
        let mut called: Vec<Loan> = Vec::new();
        let mut i: usize = 0;
        proof {
            search::lemma_filter_none(loans, late);
            search::lemma_filter_none(loans, current);
        }
        while i < self.loans.len()
            invariant
                i <= self.loans@.len(),
                self@ == old(self)@,
                self.loans@ == self@.loans,
                loans == loans_accrued(self@),
                loans.len() == self.loans@.len(),
                self@.loan_runtime == Some(rt),
                now == self@.tick,
                accrue == accrues(self@),
                late == (|l: Loan| overdue(now, l)),
                current == (|l: Loan| !overdue(now, l)),
                kept@ == loans.take(i as int).filter(current),
                called@ == loans.take(i as int).filter(late),
            decreases self.loans@.len() - i,
        {
            proof {
                search::lemma_filter_step(loans, late, i as int);
                search::lemma_filter_step(loans, current, i as int);
            }
            let l = if accrue {
                self.loans[i].accrued(rt.rate_bps)
            } else {
                self.loans[i]
            };
            assert(l == loans[i as int]);
            if now.0 > l.due.0 {
                called.push(l);
            } else {
                kept.push(l);
            }
            i = i + 1;
        }
        assert(loans.take(i as int) =~= loans);
        self.loans = kept;
        let ghost base = self@;
        assert(base =~= (WorldView {
            loans: loans.filter(current),
            ..old(self)@
        }));
        let mut k: usize = 0;
        while k < called.len()
            invariant
                k <= called@.len(),
                self@.wf(),
                self@ == seized(base, called@, k as int),
            decreases called@.len() - k,
        {
            let l = called[k];
            self.credit_by_id(l.borrower, -(l.outstanding as i128));
            self.log_event(
                EventCategory::System,
                None,
                messages::called_text(l.id, l.outstanding, l.borrower),
            );
            k = k + 1;
        }
        assert(called@ == loans.filter(late));
        assert(self@ == loans_run(old(self)@));
    }

    /// Let policies lapse, strictly after their expiry tick.
    fn run_policies(&mut self)
        requires
            old(self)@.wf(),
        ensures
            final(self)@ == policies_run(old(self)@),
            final(self)@.wf(),
    {
        let now = self.tick;
        let ghost p = |q: Policy| now.0 <= q.expiry.0;
        let ghost all = self.policies@;
        let mut kept: Vec<Policy> = Vec::new();
        let mut i: usize = 0;
        proof {
            search::lemma_filter_none(all, p);
        }
        while i < self.policies.len()
            invariant
                i <= self.policies@.len(),
                all == self.policies@,
                p == (|q: Policy| now.0 <= q.expiry.0),
                kept@ == all.take(i as int).filter(p),
            decreases self.policies@.len() - i,
        {
            proof {
                search::lemma_filter_step(all, p, i as int);
            }
            if now.0 <= self.policies[i].expiry.0 {
                kept.push(self.policies[i]);
            }
            i = i + 1;
        }
        assert(all.take(i as int) =~= all);
        self.policies = kept;
        assert(self@ =~= policies_run(old(self)@));
    }

    /// Settle every matured position against the reference price.
    fn run_futures(&mut self)
        requires
            old(self)@.wf(),
        ensures
            final(self)@ == futures_run(old(self)@),
            final(self)@.wf(),
    {
        let now = self.tick;
        let ghost ripe = |f: Future| matured(now, f);
        let ghost live = |f: Future| !matured(now, f);
        let ghost all = self.futures@;
        let mut kept: Vec<Future> = Vec::new();
        let mut due: Vec<Future> = Vec::new();
        let mut i: usize = 0;
        proof {
            search::lemma_filter_none(all, ripe);
            search::lemma_filter_none(all, live);
        }
        while i < self.futures.len()
            invariant
                i <= self.futures@.len(),
                all == self.futures@,
                ripe == (|f: Future| matured(now, f)),
                live == (|f: Future| !matured(now, f)),
                kept@ == all.take(i as int).filter(live),
                due@ == all.take(i as int).filter(ripe),
            decreases self.futures@.len() - i,
        {
            proof {
                search::lemma_filter_step(all, ripe, i as int);
                search::lemma_filter_step(all, live, i as int);
            }
            let f = self.futures[i];
            if now.0 >= f.maturity.0 {
                due.push(f);
            } else {
                kept.push(f);
            }
            i = i + 1;
        }
        assert(all.take(i as int) =~= all);
        self.futures = kept;
        let ghost base = self@;
        assert(base =~= (WorldView { futures: all.filter(live), ..old(self)@ }));
        let mut k: usize = 0;
        while k < due.len()
            invariant
                k <= due@.len(),
                self@.wf(),
                self@ == futures_settled(base, due@, k as int),
                self@.registry == base.registry,
            decreases due@.len() - k,
        {
            let f = due[k];
            let settle = match self.reference_price(f.commodity) {
                Some(p) => p,
                None => f.strike,
            };
            let payoff = f.payoff(settle);
            self.credit_by_id(f.holder, payoff as i128);
            let msg = messages::settled_text(
                f.holder,
                self.registry.commodity_name(f.commodity),
                settle,
                f.strike,
                payoff,
            );
            self.log_event(EventCategory::System, None, msg);
            k = k + 1;
        }
        assert(self@ == futures_run(old(self)@));
    }

    /// Advance the financial layer: accrue and call loans, lapse expired policies,
    /// and settle matured futures.
    pub(crate) fn finance_phase(&mut self)
        requires
            old(self)@.wf(),
        ensures
            final(self)@ == finance_run(old(self)@),
            final(self)@.wf(),
    {
        self.run_loans();
        self.run_policies();
        self.run_futures();
    }
}

} // verus!
