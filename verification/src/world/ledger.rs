//! What a tick does to the books, told by what can be seen before and after it: who owes
//! what, who is covered, and what is paid out.

use vstd::prelude::*;

use crate::finance::{Future, FutureSide, Loan, Policy};
use crate::ids::{Money, TraderId};
use crate::money;
use crate::search;
use crate::trader::TraderView;
use crate::world::books;
use crate::world::commands;
use crate::world::dealings::{debt, lemma_balances_wrap, lemma_stands_by_way_of, stands_at};
use crate::world::WorldView;

verus! {

/// Interest for one period is so many ten-thousandths of the balance, whole credits only,
/// and comes on top of it.
pub proof fn lemma_interest_is_a_share(l: Loan, rate_bps: u32)
    requires
        l.outstanding >= 0,
        l.outstanding * rate_bps <= i64::MAX,
        l.outstanding + l.outstanding * rate_bps <= i64::MAX,
    ensures
        ({
            let added = l.spec_accrued(rate_bps).outstanding - l.outstanding;
            &&& l.spec_accrued(rate_bps) == (Loan {
                outstanding: l.spec_accrued(rate_bps).outstanding,
                ..l
            })
            &&& 10_000 * added <= l.outstanding * rate_bps < 10_000 * (added + 1)
        }),
{
    assert(0 <= l.outstanding * rate_bps) by (nonlinear_arith)
        requires
            l.outstanding >= 0,
            rate_bps >= 0,
    ;
}

/// A position gains the move of the price on each of its units: upward for a long one,
/// downward for a short one.
pub proof fn lemma_gain_per_unit(f: Future, settle: Money)
    ensures
        f.side == FutureSide::Long ==> f.gain(settle) == f.quantity * settle - f.quantity * f.strike,
        f.side == FutureSide::Short ==> f.gain(settle) == f.quantity * f.strike - f.quantity
            * settle,
{
    let q = f.quantity as int;
    let a = settle as int;
    let b = f.strike as int;
    assert((a - b) * q == q * a - q * b) by (nonlinear_arith);
}

/// Whether traders bear different ids.
pub open spec fn traders_different(traders: Seq<TraderView>) -> bool {
    forall|i: int, j: int|
        0 <= i < j < traders.len() ==> (#[trigger] traders[i]).id != (#[trigger] traders[j]).id
}

/// Whether nothing of the traders but their capital has changed.
pub open spec fn only_purses(before: Seq<TraderView>, after: Seq<TraderView>) -> bool {
    &&& after.len() == before.len()
    &&& forall|i: int|
        0 <= i < before.len() ==> #[trigger] after[i] == (TraderView {
            capital: after[i].capital,
            ..before[i]
        })
}

proof fn lemma_credited(w: WorldView, id: TraderId, amount: int)
    requires
        traders_different(w.traders),
    ensures
        ({
            let v = books::credit_trader(w, id, amount);
            &&& v == (WorldView { traders: v.traders, ..w })
            &&& only_purses(w.traders, v.traders)
            &&& forall|i: int|
                0 <= i < w.traders.len() ==> stands_at(
                    (#[trigger] v.traders[i]).capital as int,
                    w.traders[i].capital + (if w.traders[i].id == id {
                        amount
                    } else {
                        0
                    }),
                )
        }),
{
    let p = |t: TraderView| t.id == id;
    search::lemma_first_found(w.traders, p);
    let v = books::credit_trader(w, id, amount);
    assert forall|i: int| 0 <= i < w.traders.len() implies stands_at(
        (#[trigger] v.traders[i]).capital as int,
        w.traders[i].capital + (if w.traders[i].id == id {
            amount
        } else {
            0
        }),
    ) by {
        if w.traders[i].id == id {
            search::lemma_first_some(w.traders, p, i);
            let k = search::first(w.traders, p)->Some_0;
            assert(w.traders[k].id == id);
            assert(k == i);
            lemma_balances_wrap(w.traders[i].capital + amount);
        }
    }
}

proof fn lemma_seized(w: WorldView, called: Seq<Loan>, n: int)
    requires
        traders_different(w.traders),
        0 <= n <= called.len(),
    ensures
        ({
            let v = books::seized(w, called, n);
            &&& v == (WorldView { traders: v.traders, events: v.events, ..w })
            &&& only_purses(w.traders, v.traders)
            &&& forall|i: int|
                0 <= i < w.traders.len() ==> stands_at(
                    (#[trigger] v.traders[i]).capital as int,
                    w.traders[i].capital - debt(called.take(n), w.traders[i].id),
                )
        }),
    decreases n,
{
    if n > 0 {
        lemma_seized(w, called, n - 1);
        let before = books::seized(w, called, n - 1);
        let l = called[n - 1];
        assert forall|i: int, j: int| 0 <= i < j < before.traders.len() implies (
        #[trigger] before.traders[i]).id != (#[trigger] before.traders[j]).id by {
            assert(before.traders[i].id == w.traders[i].id);
            assert(before.traders[j].id == w.traders[j].id);
        }
        lemma_credited(before, l.borrower, -(l.outstanding as int));
        let v = books::seized(w, called, n);
        assert(called.take(n).drop_last() =~= called.take(n - 1));
        assert(called.take(n).last() == l);
        assert forall|i: int| 0 <= i < w.traders.len() implies stands_at(
            (#[trigger] v.traders[i]).capital as int,
            w.traders[i].capital - debt(called.take(n), w.traders[i].id),
        ) by {
            let part = if w.traders[i].id == l.borrower {
                -(l.outstanding as int)
            } else {
                0
            };
            assert(before.traders[i].id == w.traders[i].id);
            lemma_stands_by_way_of(
                v.traders[i].capital as int,
                part,
                before.traders[i].capital as int,
                w.traders[i].capital - debt(called.take(n - 1), w.traders[i].id),
            );
        }
    } else {
        assert(called.take(0) =~= Seq::<Loan>::empty());
        assert forall|i: int| 0 <= i < w.traders.len() implies stands_at(
            (#[trigger] w.traders[i]).capital as int,
            w.traders[i].capital as int,
        ) by {}
    }
}

/// The loans of a tick: interest is charged on the ticks of the interval and on no others,
/// never on the first of all; then a loan past its due tick is called, which takes its
/// balance from its borrower, and every other loan stays, in its order. So what a trader
/// has less what it owes changes by the interest alone.
pub proof fn lemma_loans_of_a_tick(w: WorldView)
    requires
        w.loan_runtime is Some,
        traders_different(w.traders),
    ensures
        ({
            let rt = w.loan_runtime->Some_0;
            let v = books::loans_run(w);
            let charged = if w.tick.0 > 0 && w.tick.0 % rt.accrual_interval == 0 {
                Seq::new(w.loans.len(), |i: int| w.loans[i].spec_accrued(rt.rate_bps))
            } else {
                w.loans
            };
            let called = charged.filter(|l: Loan| w.tick.0 > l.due.0);
            &&& v == (WorldView {
                traders: v.traders,
                loans: v.loans,
                events: v.events,
                ..w
            })
            &&& v.loans == charged.filter(|l: Loan| w.tick.0 <= l.due.0)
            &&& only_purses(w.traders, v.traders)
            &&& forall|i: int|
                0 <= i < w.traders.len() ==> stands_at(
                    (#[trigger] v.traders[i]).capital as int,
                    w.traders[i].capital - debt(called, w.traders[i].id),
                )
            &&& forall|i: int|
                0 <= i < w.traders.len() ==> stands_at(
                    (#[trigger] v.traders[i]).capital - debt(v.loans, w.traders[i].id),
                    w.traders[i].capital - debt(charged, w.traders[i].id),
                )
        }),
{
    let charged = books::loans_accrued(w);
    let over = |l: Loan| w.tick.0 > l.due.0;
    let rest = |l: Loan| w.tick.0 <= l.due.0;
    assert((|l: Loan| books::overdue(w.tick, l)) =~= over);
    assert((|l: Loan| !books::overdue(w.tick, l)) =~= rest);
    let called = charged.filter(over);
    let left = WorldView { loans: charged.filter(rest), ..w };
    lemma_seized(left, called, called.len() as int);
    assert(called.take(called.len() as int) =~= called);
    let v = books::loans_run(w);
    assert forall|i: int| 0 <= i < w.traders.len() implies stands_at(
        (#[trigger] v.traders[i]).capital - debt(v.loans, w.traders[i].id),
        w.traders[i].capital - debt(charged, w.traders[i].id),
    ) by {
        lemma_debt_splits(charged, over, rest, w.traders[i].id);
    }
}

proof fn lemma_debt_splits(
    loans: Seq<Loan>,
    a: spec_fn(Loan) -> bool,
    b: spec_fn(Loan) -> bool,
    id: TraderId,
)
    requires
        forall|l: Loan| #[trigger] a(l) == !b(l),
    ensures
        debt(loans, id) == debt(loans.filter(a), id) + debt(loans.filter(b), id),
    decreases loans.len(),
{
    reveal(Seq::filter);
    if loans.len() > 0 {
        let init = loans.drop_last();
        lemma_debt_splits(init, a, b, id);
        assert(a(loans.last()) == !b(loans.last()));
        assert(init.filter(a).push(loans.last()).drop_last() =~= init.filter(a));
        assert(init.filter(b).push(loans.last()).drop_last() =~= init.filter(b));
    }
}

/// Without lending nothing happens to loans.
pub proof fn lemma_no_lending_no_change(w: WorldView)
    requires
        w.loan_runtime is None,
    ensures
        books::loans_run(w) == w,
{
}

/// Policies lapse once their last tick is over, and not before; nothing is paid for it.
pub proof fn lemma_policies_of_a_tick(w: WorldView)
    ensures
        ({
            let v = books::policies_run(w);
            &&& v == (WorldView { policies: v.policies, ..w })
            &&& v.policies == w.policies.filter(|p: Policy| !(w.tick.0 > p.expiry.0))
        }),
{
    assert((|p: Policy| w.tick.0 <= p.expiry.0) =~= (|p: Policy| !(w.tick.0 > p.expiry.0)));
}

/// What a trader's positions gain together, each at the reference price of its good, or at
/// its own strike where no market trades the good.
pub open spec fn gains(w: WorldView, due: Seq<Future>, id: TraderId) -> int
    decreases due.len(),
{
    if due.len() == 0 {
        0
    } else {
        let f = due.last();
        gains(w, due.drop_last(), id) + (if f.holder == id {
            match commands::mean_price(w.markets, f.commodity) {
                Some(p) => f.gain(p),
                None => 0,
            }
        } else {
            0
        })
    }
}

proof fn lemma_settled(w: WorldView, due: Seq<Future>, n: int)
    requires
        traders_different(w.traders),
        0 <= n <= due.len(),
    ensures
        ({
            let v = books::futures_settled(w, due, n);
            &&& v == (WorldView { traders: v.traders, events: v.events, ..w })
            &&& only_purses(w.traders, v.traders)
            &&& forall|i: int|
                0 <= i < w.traders.len() ==> stands_at(
                    (#[trigger] v.traders[i]).capital as int,
                    w.traders[i].capital + gains(w, due.take(n), w.traders[i].id),
                )
        }),
    decreases n,
{
    if n > 0 {
        lemma_settled(w, due, n - 1);
        let before = books::futures_settled(w, due, n - 1);
        let f = due[n - 1];
        assert forall|i: int, j: int| 0 <= i < j < before.traders.len() implies (
        #[trigger] before.traders[i]).id != (#[trigger] before.traders[j]).id by {
            assert(before.traders[i].id == w.traders[i].id);
            assert(before.traders[j].id == w.traders[j].id);
        }
        let settle = books::settlement(before, f);
        let exact = f.gain(settle);
        let payoff = money::wrapped(exact);
        if commands::mean_price(w.markets, f.commodity) is None {
            crate::finance::lemma_flat_settles_to_nothing(f);
        }
        lemma_balances_wrap(exact);
        lemma_credited(before, f.holder, payoff as int);
        let v = books::futures_settled(w, due, n);
        assert(due.take(n).drop_last() =~= due.take(n - 1));
        assert(due.take(n).last() == f);
        assert forall|i: int| 0 <= i < w.traders.len() implies stands_at(
            (#[trigger] v.traders[i]).capital as int,
            w.traders[i].capital + gains(w, due.take(n), w.traders[i].id),
        ) by {
            let mine = w.traders[i].id == f.holder;
            assert(before.traders[i].id == w.traders[i].id);
            let got = w.traders[i].capital + gains(w, due.take(n - 1), w.traders[i].id);
            if mine {
                lemma_stands_by_way_of(
                    v.traders[i].capital as int,
                    before.traders[i].capital as int,
                    payoff as int,
                    exact,
                );
            }
            lemma_stands_by_way_of(
                v.traders[i].capital as int,
                if mine {
                    exact
                } else {
                    0
                },
                before.traders[i].capital as int,
                got,
            );
        }
    } else {
        assert(due.take(0) =~= Seq::<Future>::empty());
        assert forall|i: int| 0 <= i < w.traders.len() implies stands_at(
            (#[trigger] w.traders[i]).capital as int,
            w.traders[i].capital as int,
        ) by {}
    }
}

/// Positions settle on their maturity tick, or the first after it, and leave; the others
/// stay, in their order. Each holder is paid what its positions gain, and charged where
/// they lose.
pub proof fn lemma_futures_of_a_tick(w: WorldView)
    requires
        traders_different(w.traders),
    ensures
        ({
            let v = books::futures_run(w);
            let due = w.futures.filter(|f: Future| w.tick.0 >= f.maturity.0);
            &&& v == (WorldView {
                traders: v.traders,
                futures: v.futures,
                events: v.events,
                ..w
            })
            &&& v.futures == w.futures.filter(|f: Future| w.tick.0 < f.maturity.0)
            &&& only_purses(w.traders, v.traders)
            &&& forall|i: int|
                0 <= i < w.traders.len() ==> stands_at(
                    (#[trigger] v.traders[i]).capital as int,
                    w.traders[i].capital + gains(w, due, w.traders[i].id),
                )
        }),
{
    let over = |f: Future| w.tick.0 >= f.maturity.0;
    let rest = |f: Future| w.tick.0 < f.maturity.0;
    assert((|f: Future| books::matured(w.tick, f)) =~= over);
    assert((|f: Future| !books::matured(w.tick, f)) =~= rest);
    let due = w.futures.filter(over);
    let left = WorldView { futures: w.futures.filter(rest), ..w };
    lemma_settled(left, due, due.len() as int);
    assert(due.take(due.len() as int) =~= due);
    assert forall|i: int| 0 <= i < w.traders.len() implies #[trigger] gains(
        left,
        due,
        w.traders[i].id,
    ) == gains(w, due, w.traders[i].id) by {
        lemma_gains_by_prices(left, w, due, w.traders[i].id);
    }
    let v = books::futures_run(w);
    assert forall|i: int| 0 <= i < w.traders.len() implies stands_at(
        (#[trigger] v.traders[i]).capital as int,
        w.traders[i].capital + gains(w, due, w.traders[i].id),
    ) by {
        assert(gains(left, due, w.traders[i].id) == gains(w, due, w.traders[i].id));
    }
}

proof fn lemma_gains_by_prices(a: WorldView, b: WorldView, due: Seq<Future>, id: TraderId)
    requires
        a.markets == b.markets,
    ensures
        gains(a, due, id) == gains(b, due, id),
    decreases due.len(),
{
    if due.len() > 0 {
        lemma_gains_by_prices(a, b, due.drop_last(), id);
    }
}

/// The books of a tick: interest and calls, lapses and settlements all take place, and
/// nothing but capital, papers and the log changes.
pub proof fn lemma_books_of_a_tick(w: WorldView)
    requires
        traders_different(w.traders),
    ensures
        ({
            let v = books::finance_run(w);
            &&& v == (WorldView {
                traders: v.traders,
                loans: v.loans,
                policies: v.policies,
                futures: v.futures,
                events: v.events,
                ..w
            })
            &&& v.loans == books::loans_run(w).loans
            &&& v.policies == w.policies.filter(|p: Policy| !(w.tick.0 > p.expiry.0))
            &&& v.futures == w.futures.filter(|f: Future| w.tick.0 < f.maturity.0)
            &&& only_purses(w.traders, v.traders)
            &&& forall|i: int|
                0 <= i < w.traders.len() ==> stands_at(
                    (#[trigger] v.traders[i]).capital as int,
                    books::loans_run(w).traders[i].capital + gains(
                        w,
                        w.futures.filter(|f: Future| w.tick.0 >= f.maturity.0),
                        w.traders[i].id,
                    ),
                )
        }),
{
    let a = books::loans_run(w);
    if w.loan_runtime is Some {
        lemma_loans_of_a_tick(w);
    }
    assert(only_purses(w.traders, a.traders));
    lemma_policies_of_a_tick(a);
    let b = books::policies_run(a);
    assert forall|i: int, j: int| 0 <= i < j < b.traders.len() implies (#[trigger] b.traders[i]).id
        != (#[trigger] b.traders[j]).id by {
        assert(b.traders[i].id == w.traders[i].id);
        assert(b.traders[j].id == w.traders[j].id);
    }
    lemma_futures_of_a_tick(b);
    let v = books::finance_run(w);
    let due = w.futures.filter(|f: Future| w.tick.0 >= f.maturity.0);
    assert forall|i: int| 0 <= i < w.traders.len() implies stands_at(
        (#[trigger] v.traders[i]).capital as int,
        a.traders[i].capital + gains(w, due, w.traders[i].id),
    ) by {
        lemma_gains_by_prices(b, w, due, w.traders[i].id);
        assert(b.traders[i].id == w.traders[i].id);
    }
    assert forall|i: int| 0 <= i < w.traders.len() implies #[trigger] v.traders[i] == (TraderView {
        capital: v.traders[i].capital,
        ..w.traders[i]
    }) by {
        assert(b.traders[i] == (TraderView { capital: b.traders[i].capital, ..w.traders[i] }));
    }
}

} // verus!
