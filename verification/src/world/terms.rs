//! The terms of a run hold at all times: no trader carries more loans or futures than
//! allowed, none of them is larger than allowed, and no trader is insured twice.

use vstd::prelude::*;

use crate::bits::Bits;
use crate::command::Command;
use crate::contract::Contract;
use crate::finance::{Future, FutureSide, Loan, Policy};
use crate::ids::{CommodityId, LoanId, Money, PlayerId, Quantity, SystemId, TraderId};
use crate::pricing::PricingSet;
use crate::registry::Registry;
use crate::scenario::ScenarioDef;
use crate::search;
use crate::world::battle;
use crate::world::board;
use crate::world::books;
use crate::world::commands;
use crate::world::fleet;
use crate::world::identity;
use crate::world::laws;
use crate::world::setup;
use crate::world::tick;
use crate::world::tick::HostTick;
use crate::world::trade;
use crate::world::works;
use crate::world::{ActiveView, KindView, Tables, WorldView};

verus! {

/// Whether the loans keep to the lending terms.
pub open spec fn loans_within(w: WorldView) -> bool {
    match w.loan_runtime {
        None => w.loans.len() == 0,
        Some(rt) => {
            &&& forall|id: TraderId| (#[trigger] commands::loans_of(w.loans, id)).len()
                <= rt.max_loans
            &&& forall|i: int|
                0 <= i < w.loans.len() ==> 0 < (#[trigger] w.loans[i]).principal
                    <= rt.max_principal
        },
    }
}

/// Whether the futures keep to the market's terms.
pub open spec fn futures_within(w: WorldView) -> bool {
    match w.future_runtime {
        None => w.futures.len() == 0,
        Some(rt) => {
            &&& forall|id: TraderId| (#[trigger] commands::futures_of(w.futures, id)).len()
                <= rt.max_futures
            &&& forall|i: int|
                0 <= i < w.futures.len() ==> 0 < (#[trigger] w.futures[i]).quantity
                    <= rt.max_quantity
        },
    }
}

/// Whether the policies keep to the insurer's terms.
pub open spec fn policies_within(w: WorldView) -> bool {
    &&& laws::insured_once(w.policies)
    &&& w.insurance_runtime is None ==> w.policies.len() == 0
}

/// Whether every financial position keeps to the terms of the run.
pub open spec fn within_terms(w: WorldView) -> bool {
    loans_within(w) && futures_within(w) && policies_within(w)
}

/// Whether `v` has the terms of `w`.
pub open spec fn same_terms(w: WorldView, v: WorldView) -> bool {
    &&& v.loan_runtime == w.loan_runtime
    &&& v.future_runtime == w.future_runtime
    &&& v.insurance_runtime == w.insurance_runtime
}

/// Whether `v` has the terms and the positions of `w`.
pub open spec fn same_positions(w: WorldView, v: WorldView) -> bool {
    &&& same_terms(w, v)
    &&& v.loans == w.loans
    &&& v.futures == w.futures
    &&& v.policies == w.policies
}

proof fn lemma_push<A>(s: Seq<A>, x: A, p: spec_fn(A) -> bool)
    ensures
        s.push(x).filter(p) == (if p(x) {
            s.filter(p).push(x)
        } else {
            s.filter(p)
        }),
{
    reveal(Seq::filter);
    assert(s.push(x).drop_last() =~= s);
}

proof fn lemma_alike<A>(s: Seq<A>, t: Seq<A>, p: spec_fn(A) -> bool)
    requires
        s.len() == t.len(),
        forall|i: int| 0 <= i < s.len() ==> p(#[trigger] t[i]) == p(s[i]),
    ensures
        t.filter(p).len() == s.filter(p).len(),
    decreases s.len(),
{
    reveal(Seq::filter);
    if s.len() > 0 {
        assert forall|i: int| 0 <= i < s.len() - 1 implies p(#[trigger] t.drop_last()[i]) == p(
            s.drop_last()[i],
        ) by {
            assert(t.drop_last()[i] == t[i]);
        }
        lemma_alike(s.drop_last(), t.drop_last(), p);
        assert(p(t[s.len() - 1]) == p(s[s.len() - 1]));
    }
}

proof fn lemma_fewer<A>(s: Seq<A>, keep: spec_fn(A) -> bool, p: spec_fn(A) -> bool)
    ensures
        s.filter(keep).filter(p).len() <= s.filter(p).len(),
    decreases s.len(),
{
    reveal(Seq::filter);
    if s.len() > 0 {
        lemma_fewer(s.drop_last(), keep, p);
        if keep(s.last()) {
            lemma_push(s.drop_last().filter(keep), s.last(), p);
        }
    }
}

proof fn lemma_without<A>(s: Seq<A>, k: int, p: spec_fn(A) -> bool)
    requires
        0 <= k < s.len(),
    ensures
        s.remove(k).filter(p).len() <= s.filter(p).len(),
    decreases s.len(),
{
    reveal(Seq::filter);
    if k == s.len() - 1 {
        assert(s.remove(k) =~= s.drop_last());
    } else {
        assert(s.remove(k).drop_last() =~= s.drop_last().remove(k));
        assert(s.remove(k).last() == s.last());
        lemma_without(s.drop_last(), k, p);
    }
}

proof fn lemma_same_positions(w: WorldView, v: WorldView)
    requires
        within_terms(w),
        same_positions(w, v),
    ensures
        within_terms(v),
{
}

proof fn lemma_borrowing(w: WorldView, player: PlayerId, trader: TraderId, principal: Money)
    requires
        within_terms(w),
    ensures
        commands::apply_take_loan(w, player, trader, principal) matches Ok(v) ==> within_terms(v)
            && same_terms(w, v),
{
    match commands::apply_take_loan(w, player, trader, principal) {
        Ok(v) => {
            let rt = w.loan_runtime->Some_0;
            assert forall|id: TraderId| (#[trigger] commands::loans_of(v.loans, id)).len()
                <= rt.max_loans by {
                lemma_push(w.loans, v.loans.last(), |l: Loan| l.borrower == id);
                assert(v.loans =~= w.loans.push(v.loans.last()));
                assert(commands::loans_of(w.loans, id).len() <= rt.max_loans);
            }
            assert forall|i: int| 0 <= i < v.loans.len() implies 0 < (
            #[trigger] v.loans[i]).principal <= rt.max_principal by {
                if i < w.loans.len() {
                    assert(v.loans[i] == w.loans[i]);
                }
            }
            assert(loans_within(v));
            assert(futures_within(v) && policies_within(v));
        },
        Err(_) => {},
    }
}

proof fn lemma_repaying(
    w: WorldView,
    player: PlayerId,
    trader: TraderId,
    loan: LoanId,
    amount: Money,
)
    requires
        within_terms(w),
    ensures
        commands::apply_repay(w, player, trader, loan, amount) matches Ok(v) ==> within_terms(v)
            && same_terms(w, v),
{
    match commands::apply_repay(w, player, trader, loan, amount) {
        Ok(v) => {
            let li = commands::loan_slot(w.loans, loan)->Some_0;
            search::lemma_first_found(w.loans, |l: Loan| l.id == loan);
            assert(w.loan_runtime is Some);
            let rt = w.loan_runtime->Some_0;
            assert forall|id: TraderId| (#[trigger] commands::loans_of(v.loans, id)).len()
                <= rt.max_loans by {
                let p = |l: Loan| l.borrower == id;
                assert(commands::loans_of(w.loans, id).len() <= rt.max_loans);
                if v.loans.len() < w.loans.len() {
                    lemma_without(w.loans, li, p);
                } else {
                    lemma_alike(w.loans, v.loans, p);
                }
            }
            assert forall|i: int| 0 <= i < v.loans.len() implies 0 < (
            #[trigger] v.loans[i]).principal <= rt.max_principal by {
                if v.loans.len() < w.loans.len() && i >= li {
                    assert(v.loans[i] == w.loans[i + 1]);
                } else {
                    assert(v.loans[i].principal == w.loans[i].principal);
                }
            }
            assert(loans_within(v));
            assert(futures_within(v) && policies_within(v));
        },
        Err(_) => {},
    }
}

proof fn lemma_insuring(w: WorldView, player: PlayerId, trader: TraderId)
    requires
        within_terms(w),
    ensures
        commands::apply_insure(w, player, trader) matches Ok(v) ==> within_terms(v) && same_terms(
            w,
            v,
        ),
{
    match commands::apply_insure(w, player, trader) {
        Ok(v) => {
            laws::lemma_insuring_keeps_one_policy_each(w, player, trader);
            assert(loans_within(v) && futures_within(v) && policies_within(v));
        },
        Err(_) => {},
    }
}

proof fn lemma_compensating(w: WorldView, i: int, trader: TraderId, at: Option<SystemId>)
    requires
        within_terms(w),
    ensures
        within_terms(commands::insurance_paid(w, i, trader, at)),
        same_terms(w, commands::insurance_paid(w, i, trader, at)),
{
    let v = commands::insurance_paid(w, i, trader, at);
    match commands::policy_slot(w.policies, trader) {
        Some(pi) => if commands::covers(w.policies[pi], w.tick) {
            search::lemma_first_found(w.policies, |p: Policy| p.insured == trader);
            assert(v.policies == w.policies.remove(pi));
            assert(laws::insured_once(v.policies)) by {
                assert forall|a: int, b: int|
                    #![trigger v.policies[a], v.policies[b]]
                    0 <= a < b < v.policies.len() implies v.policies[a].insured
                    != v.policies[b].insured by {
                    let x = if a < pi {
                        a
                    } else {
                        a + 1
                    };
                    let y = if b < pi {
                        b
                    } else {
                        b + 1
                    };
                    assert(v.policies[a] == w.policies[x] && v.policies[b] == w.policies[y]);
                }
            }
        },
        None => {},
    }
    assert(loans_within(v) && futures_within(v) && policies_within(v));
}

proof fn lemma_opening(
    w: WorldView,
    player: PlayerId,
    trader: TraderId,
    commodity: CommodityId,
    qty: Quantity,
    side: FutureSide,
)
    requires
        within_terms(w),
    ensures
        commands::apply_open_future(w, player, trader, commodity, qty, side) matches Ok(v)
            ==> within_terms(v) && same_terms(w, v),
{
    match commands::apply_open_future(w, player, trader, commodity, qty, side) {
        Ok(v) => {
            let rt = w.future_runtime->Some_0;
            assert forall|id: TraderId| (#[trigger] commands::futures_of(v.futures, id)).len()
                <= rt.max_futures by {
                lemma_push(w.futures, v.futures.last(), |f: Future| f.holder == id);
                assert(v.futures =~= w.futures.push(v.futures.last()));
                assert(commands::futures_of(w.futures, id).len() <= rt.max_futures);
            }
            assert forall|i: int| 0 <= i < v.futures.len() implies 0 < (
            #[trigger] v.futures[i]).quantity <= rt.max_quantity by {
                if i < w.futures.len() {
                    assert(v.futures[i] == w.futures[i]);
                }
            }
            assert(futures_within(v));
            assert(loans_within(v) && policies_within(v));
        },
        Err(_) => {},
    }
}

proof fn lemma_dealing(w: WorldView, c: Command)
    requires
        within_terms(w),
        c is TakeLoan || c is RepayLoan || c is BuyInsurance || c is OpenFuture
            || c is TraderDestroyed || c is DestroyedPirate,
    ensures
        commands::applied(w, c) matches Ok(v) ==> within_terms(v) && same_terms(w, v),
{
    reveal(commands::applied);
    match c {
        Command::TakeLoan { player, trader, principal } => {
            lemma_borrowing(w, player, trader, principal);
        },
        Command::RepayLoan { player, trader, loan, amount } => {
            lemma_repaying(w, player, trader, loan, amount);
        },
        Command::BuyInsurance { player, trader } => {
            lemma_insuring(w, player, trader);
        },
        Command::OpenFuture { player, trader, commodity, qty, side } => {
            lemma_opening(w, player, trader, commodity, qty, side);
        },
        Command::TraderDestroyed { player, trader } => {
            match commands::applied(w, c) {
                Ok(v) => {
                    let i = commands::owned_slot(w, trader, player)->Ok_0;
                    let at = commands::whereabouts(w.traders[i]);
                    let s = choose|s: WorldView|
                        v == #[trigger] commands::insurance_paid(s, i, trader, at)
                            && same_positions(w, s);
                    lemma_same_positions(w, s);
                    lemma_compensating(s, i, trader, at);
                },
                Err(_) => {},
            }
        },
        Command::DestroyedPirate { player, trader, pirate } => {
            match commands::applied(w, c) {
                Ok(v) => {
                    let met = w.contracts.filter(
                        |k: Contract| commands::quota_met(k, trader, 1),
                    );
                    let pi = commands::patrol_slot(w.pirates, pirate)->Some_0;
                    let at = w.pirates[pi].spec_docked_at();
                    let s = choose|s: WorldView|
                        v == #[trigger] commands::quotas_logged(
                            s,
                            met,
                            met.len() as int,
                            trader,
                            at,
                            ""@,
                        ) && same_positions(w, s);
                    identity::lemma_quotas_only_log(s, met, met.len() as int, trader, at, ""@);
                    lemma_same_positions(w, v);
                },
                Err(_) => {},
            }
        },
        _ => {},
    }
}

proof fn lemma_elsewhere(w: WorldView, c: Command)
    requires
        !(c is TakeLoan || c is RepayLoan || c is BuyInsurance || c is OpenFuture
            || c is TraderDestroyed || c is DestroyedPirate),
    ensures
        commands::applied(w, c) matches Ok(v) ==> same_positions(w, v),
{
    reveal(commands::applied);
}

/// No command takes a financial position past the terms of the run.
pub proof fn lemma_command_keeps_terms(w: WorldView, c: Command)
    requires
        within_terms(w),
    ensures
        commands::applied(w, c) matches Ok(v) ==> within_terms(v) && same_terms(w, v),
{
    if c is TakeLoan || c is RepayLoan || c is BuyInsurance || c is OpenFuture
        || c is TraderDestroyed || c is DestroyedPirate {
        lemma_dealing(w, c);
    } else {
        lemma_elsewhere(w, c);
        match commands::applied(w, c) {
            Ok(v) => {
                lemma_same_positions(w, v);
            },
            Err(_) => {},
        }
    }
}

proof fn lemma_commands(w: WorldView, n: int)
    requires
        within_terms(w),
        0 <= n <= w.commands.len(),
    ensures
        within_terms(tick::obeyed(w, n)),
        same_terms(w, tick::obeyed(w, n)),
    decreases n,
{
    if n <= 0 {
        lemma_same_positions(w, tick::obeyed(w, n));
    } else {
        lemma_commands(w, n - 1);
        let v = tick::obeyed(w, n - 1);
        lemma_command_keeps_terms(v, w.commands[n - 1]);
        match commands::applied(v, w.commands[n - 1]) {
            Ok(u) => {
                lemma_same_positions(u, tick::obeyed(w, n));
            },
            Err(_) => {
                lemma_same_positions(v, tick::obeyed(w, n));
            },
        }
    }
}

proof fn lemma_hunts(w: WorldView, n: int)
    ensures
        same_positions(w, battle::hunts_opened(w, n)),
    decreases n,
{
    if n > 0 {
        lemma_hunts(w, n - 1);
    }
}

proof fn lemma_gauntlets(w: WorldView, n: int)
    ensures
        same_positions(w, battle::gauntlets(w, n)),
    decreases n,
{
    if n > 0 {
        lemma_gauntlets(w, n - 1);
    }
}

proof fn lemma_engagement(
    w: WorldView,
    targets: Seq<Vec<Money>>,
    pirate_shields: Seq<Bits>,
    navy_shields: Seq<Bits>,
)
    ensures
        same_positions(w, tick::engaged(w, targets, pirate_shields, navy_shields)),
{
    let a = fleet::pirates_run(works::repriced(w, targets), pirate_shields);
    let b = battle::navy_moved(a, navy_shields);
    lemma_hunts(b, a.systems() as int);
    let c = battle::navy_run(a, navy_shields);
    lemma_gauntlets(c, c.traders.len() as int);
}

proof fn lemma_battle(w: WorldView, e: ActiveView)
    requires
        within_terms(w),
    ensures
        within_terms(battle::battle_closed(w, e)),
        same_terms(w, battle::battle_closed(w, e)),
{
    let v = battle::battle_closed(w, e);
    match e.kind {
        KindView::Ambush {
            trader,
            dest,
            navy,
            pirates,
            navy_offset,
            pirate_offset,
            respawn_delay,
            bounty,
        } => {
            let kills = battle::fallen(e.combatants, pirate_offset, pirates.len() as int);
            match commands::trader_slot(w.traders, trader) {
                None => {
                    lemma_same_positions(w, v);
                },
                Some(t) => if e.combatants[0].alive {
                    let met = if kills > 0 {
                        w.contracts.filter(
                            |c: Contract| commands::quota_met(c, trader, kills as int),
                        )
                    } else {
                        Seq::empty()
                    };
                    let ending = "; claim at its station"@;
                    let s = choose|s: WorldView|
                        v == #[trigger] commands::quotas_logged(
                            s,
                            met,
                            met.len() as int,
                            trader,
                            Some(dest),
                            ending,
                        ) && same_positions(w, s);
                    identity::lemma_quotas_only_log(
                        s,
                        met,
                        met.len() as int,
                        trader,
                        Some(dest),
                        ending,
                    );
                    lemma_same_positions(w, v);
                } else {
                    let s = choose|s: WorldView|
                        v == #[trigger] commands::insurance_paid(s, t, trader, Some(dest))
                            && same_positions(w, s);
                    lemma_same_positions(w, s);
                    lemma_compensating(s, t, trader, Some(dest));
                },
            }
        },
        KindView::Hunt { sys, navy, pirates, pirates_offset } => {
            lemma_same_positions(w, v);
        },
    }
}

proof fn lemma_battles(w: WorldView, done: Seq<ActiveView>, n: int)
    requires
        within_terms(w),
    ensures
        within_terms(battle::battles_closed(w, done, n)),
        same_terms(w, battle::battles_closed(w, done, n)),
    decreases n,
{
    if n > 0 {
        lemma_battles(w, done, n - 1);
        lemma_battle(battle::battles_closed(w, done, n - 1), done[n - 1]);
    }
}

proof fn lemma_trading(w: WorldView, t: int)
    requires
        0 <= t,
    ensures
        same_positions(w, trade::traded(w, t)),
    decreases w.traders.len() - t,
{
    if t < w.traders.len() {
        trade::lemma_turn_keeps_traders(w, t);
        if trade::turn(w, t).1 is None {
            lemma_trading(trade::turn(w, t).0, t + 1);
        }
    }
}

proof fn lemma_haggling(
    w: WorldView,
    answers: Seq<(Option<trade::TradePlan>, Seq<Option<Money>>)>,
    n: int,
)
    ensures
        same_positions(w, tick::haggled(w, answers, n)),
    decreases n,
{
    let before = if n <= 0 {
        w
    } else {
        lemma_haggling(w, answers, n - 1);
        trade::answered(
            tick::haggled(w, answers, n - 1),
            answers[n - 1].0,
            answers[n - 1].1,
        )
    };
    assert(same_positions(w, before));
    if before.stage is Trading {
        lemma_trading(before, before.stage->Trading_0 as int);
    }
}

proof fn lemma_survey(w: WorldView)
    ensures
        same_positions(w, tick::surveyed(w)),
{
    if w.contract_runtime is Some {
        let gone = w.contracts.filter(|c: Contract| board::lapsed(w.tick, c));
        let left = WorldView {
            contracts: w.contracts.filter(|c: Contract| !board::lapsed(w.tick, c)),
            ..w
        };
        identity::lemma_expiries_only_log(left, gone, gone.len() as int);
    }
}

proof fn lemma_seizures(w: WorldView, called: Seq<Loan>, n: int)
    ensures
        same_positions(w, books::seized(w, called, n)),
    decreases n,
{
    if n > 0 {
        lemma_seizures(w, called, n - 1);
    }
}

proof fn lemma_settlements(w: WorldView, due: Seq<Future>, n: int)
    ensures
        same_positions(w, books::futures_settled(w, due, n)),
    decreases n,
{
    if n > 0 {
        lemma_settlements(w, due, n - 1);
    }
}

proof fn lemma_loan_book(w: WorldView)
    requires
        within_terms(w),
    ensures
        within_terms(books::loans_run(w)),
        same_terms(w, books::loans_run(w)),
{
    if w.loan_runtime is Some {
        let rt = w.loan_runtime->Some_0;
        let loans = books::loans_accrued(w);
        let keep = |l: Loan| !books::overdue(w.tick, l);
        let left = WorldView { loans: loans.filter(keep), ..w };
        assert forall|id: TraderId| (#[trigger] commands::loans_of(left.loans, id)).len()
            <= rt.max_loans by {
            let p = |l: Loan| l.borrower == id;
            assert(commands::loans_of(w.loans, id).len() <= rt.max_loans);
            lemma_alike(w.loans, loans, p);
            lemma_fewer(loans, keep, p);
        }
        assert forall|i: int| 0 <= i < left.loans.len() implies 0 < (
        #[trigger] left.loans[i]).principal <= rt.max_principal by {
            search::lemma_filter_members(loans, keep);
            assert(left.loans[i] == loans.filter(keep)[i]);
            let k = choose|k: int| 0 <= k < loans.len() && loans[k] == left.loans[i];
            assert(loans[k].principal == w.loans[k].principal);
        }
        assert(loans_within(left));
        assert(within_terms(left));
        let called = loans.filter(|l: Loan| books::overdue(w.tick, l));
        lemma_seizures(left, called, called.len() as int);
        lemma_same_positions(left, books::loans_run(w));
    }
}

proof fn lemma_lapses(w: WorldView)
    requires
        within_terms(w),
    ensures
        within_terms(books::policies_run(w)),
        same_terms(w, books::policies_run(w)),
{
    let keep = |p: Policy| w.tick.0 <= p.expiry.0;
    let v = books::policies_run(w);
    lemma_kept_once(w.policies, keep);
    assert(loans_within(v) && futures_within(v) && policies_within(v));
}

proof fn lemma_kept_once(policies: Seq<Policy>, keep: spec_fn(Policy) -> bool)
    requires
        laws::insured_once(policies),
    ensures
        laws::insured_once(policies.filter(keep)),
        policies.filter(keep).len() <= policies.len(),
    decreases policies.len(),
{
    reveal(Seq::filter);
    if policies.len() > 0 {
        let init = policies.drop_last();
        assert forall|a: int, b: int|
            #![trigger init[a], init[b]]
            0 <= a < b < init.len() implies init[a].insured != init[b].insured by {
            assert(init[a] == policies[a] && init[b] == policies[b]);
        }
        lemma_kept_once(init, keep);
        let short = init.filter(keep);
        let long = policies.filter(keep);
        assert forall|a: int, b: int|
            #![trigger long[a], long[b]]
            0 <= a < b < long.len() implies long[a].insured != long[b].insured by {
            assert(long[a] == short[a]);
            if b < short.len() {
                assert(long[b] == short[b]);
            } else {
                search::lemma_filter_members(init, keep);
                assert(short[a] == init.filter(keep)[a]);
                let k = choose|k: int| 0 <= k < init.len() && init[k] == short[a];
                assert(policies[k] == short[a]);
                assert(policies[policies.len() - 1] == long[b]);
            }
        }
    }
}

proof fn lemma_future_book(w: WorldView)
    requires
        within_terms(w),
    ensures
        within_terms(books::futures_run(w)),
        same_terms(w, books::futures_run(w)),
{
    let keep = |f: Future| !books::matured(w.tick, f);
    let left = WorldView { futures: w.futures.filter(keep), ..w };
    match w.future_runtime {
        Some(rt) => {
            assert forall|id: TraderId| (#[trigger] commands::futures_of(left.futures, id)).len()
                <= rt.max_futures by {
                assert(commands::futures_of(w.futures, id).len() <= rt.max_futures);
                lemma_fewer(w.futures, keep, |f: Future| f.holder == id);
            }
            assert forall|i: int| 0 <= i < left.futures.len() implies 0 < (
            #[trigger] left.futures[i]).quantity <= rt.max_quantity by {
                search::lemma_filter_members(w.futures, keep);
                assert(left.futures[i] == w.futures.filter(keep)[i]);
                let k = choose|k: int| 0 <= k < w.futures.len() && w.futures[k] == left.futures[i];
                assert(0 < w.futures[k].quantity <= rt.max_quantity);
            }
        },
        None => {
            w.futures.lemma_filter_len(keep);
        },
    }
    assert(futures_within(left));
    assert(within_terms(left));
    let due = w.futures.filter(|f: Future| books::matured(w.tick, f));
    lemma_settlements(left, due, due.len() as int);
    lemma_same_positions(left, books::futures_run(w));
}

/// At the end of every tick, as at its beginning, each trader's loans and futures are no
/// more and no larger than the run's terms allow, and no trader is insured twice.
pub proof fn lemma_tick_keeps_terms(w: WorldView, h: HostTick)
    requires
        within_terms(w),
    ensures
        within_terms(tick::ticked(w, h)),
        same_terms(w, tick::ticked(w, h)),
{
    lemma_commands(w, w.commands.len() as int);
    let a = tick::begun(w, h.wants);
    lemma_same_positions(tick::commanded(w), a);
    lemma_engagement(a, h.targets, h.pirate_shields, h.navy_shields);
    let b = tick::engaged(a, h.targets, h.pirate_shields, h.navy_shields);
    lemma_same_positions(a, b);
    let list = battle::all_fought(b.encounters, h.results);
    let done = list.filter(|e: ActiveView| battle::is_over(e));
    let left = WorldView { encounters: list.filter(|e: ActiveView| !battle::is_over(e)), ..b };
    lemma_same_positions(b, left);
    lemma_battles(left, done, done.len() as int);
    let c = tick::fought(b, h.results);
    lemma_same_positions(battle::combat_run(b, h.results), c);
    lemma_haggling(c, h.answers, h.answers.len() as int);
    let d = tick::haggled(c, h.answers, h.answers.len() as int);
    lemma_same_positions(c, d);
    lemma_survey(d);
    let e = tick::surveyed(d);
    lemma_same_positions(d, e);
    let f = board::board_filled(e, h.reward);
    lemma_same_positions(e, f);
    lemma_loan_book(f);
    lemma_lapses(books::loans_run(f));
    lemma_future_book(books::policies_run(books::loans_run(f)));
    lemma_same_positions(books::finance_run(f), tick::ticked(w, h));
}

/// A new world carries no loan, no future and no policy, so it is within its terms.
pub proof fn lemma_new_world_is_within_terms(
    reg: Registry,
    s: ScenarioDef,
    seed: u64,
    pricing: PricingSet,
    tables: Tables,
    opening: Seq<Vec<Money>>,
)
    requires
        setup::built(reg, s, seed, pricing, tables, opening) is Ok,
    ensures
        within_terms(setup::built(reg, s, seed, pricing, tables, opening)->Ok_0),
{
    reveal(Seq::filter);
}

} // verus!
