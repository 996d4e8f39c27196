//! What the log tells of a command: an event for each thing worth one, with its place.

use vstd::prelude::*;

use crate::command::Command;
use crate::contract::{Contract, ContractKind, ContractState};
use crate::event;
use crate::event::{EventCategory, EventView};
use crate::finance::{FutureSide, Loan};
use crate::ids::{
    CommodityId, ContractId, LoanId, Money, PatrolId, PlayerId, Quantity, SystemId, TraderId,
};
use crate::money;
use crate::search;
use crate::trader::TraderView;
use crate::world::commands;
use crate::world::dealings::{contract_named, loan_named};
use crate::world::messages;
use crate::world::{PiracyStats, WorldView};

verus! {

/// Whether the log of `v` is that of `w` with one event more, of this tick: at its end, and
/// the oldest gone only where two thousand were there.
pub open spec fn tells(
    w: WorldView,
    v: WorldView,
    category: EventCategory,
    system: Option<SystemId>,
    message: Seq<char>,
) -> bool {
    let e = EventView { tick: w.tick, category, system, message };
    &&& w.events.len() < 2000 ==> v.events == w.events.push(e)
    &&& w.events.len() == 2000 ==> v.events == w.events.drop_first().push(e)
}

proof fn lemma_logging_tells(
    w: WorldView,
    category: EventCategory,
    system: Option<SystemId>,
    message: Seq<char>,
)
    ensures
        tells(w, w.log(category, system, message), category, system, message),
{
    let e = EventView { tick: w.tick, category, system, message };
    if w.events.len() == 2000 {
        assert(event::logged(w.events, e) =~= w.events.drop_first().push(e));
    }
}

/// Spawning, retiring, jumping, trading and scooping are not worth an event.
pub proof fn lemma_everyday_is_not_logged(w: WorldView, c: Command)
    ensures
        match c {
            Command::Spawn { .. }
            | Command::Despawn { .. }
            | Command::Jump { .. }
            | Command::Buy { .. }
            | Command::Sell { .. }
            | Command::ScoopCargo { .. } => commands::applied(w, c) matches Ok(v) ==> v.events
                == w.events,
            _ => true,
        },
{
    reveal(commands::applied);
}

/// A contract that is accepted or fulfilled is told with its destination, and the reward
/// with the latter.
pub proof fn lemma_contracts_are_told(
    w: WorldView,
    player: PlayerId,
    trader: TraderId,
    contract: ContractId,
    k: int,
)
    requires
        contract_named(w.contracts, contract, k),
    ensures
        commands::applied(w, Command::AcceptContract { player, trader, contract }) matches Ok(v)
            ==> tells(
            w,
            v,
            EventCategory::System,
            Some(w.contracts[k].destination),
            messages::accepted(contract, trader),
        ),
        commands::applied(w, Command::FulfillContract { player, trader, contract }) matches Ok(v)
            ==> tells(
            w,
            v,
            EventCategory::System,
            Some(w.contracts[k].destination),
            messages::fulfilled(contract, trader, w.contracts[k].reward),
        ),
{
    reveal(commands::applied);
    let c = w.contracts[k];
    search::lemma_first_is(w.contracts, |c: Contract| c.id == contract, k);
    lemma_logging_tells(
        w,
        EventCategory::System,
        Some(c.destination),
        messages::accepted(contract, trader),
    );
    lemma_logging_tells(
        w,
        EventCategory::System,
        Some(c.destination),
        messages::fulfilled(contract, trader, c.reward),
    );
}

/// A loan that is taken is told with what was borrowed under its id.
pub proof fn lemma_borrowing_is_told(
    w: WorldView,
    player: PlayerId,
    trader: TraderId,
    principal: Money,
)
    ensures
        commands::applied(w, Command::TakeLoan { player, trader, principal }) matches Ok(v)
            ==> tells(
            w,
            v,
            EventCategory::System,
            None,
            messages::borrowed(LoanId(w.next_loan_id), principal, trader),
        ),
{
    reveal(commands::applied);
    lemma_logging_tells(
        w,
        EventCategory::System,
        None,
        messages::borrowed(LoanId(w.next_loan_id), principal, trader),
    );
}

/// A repayment is told with what was paid and what is left of the loan.
pub proof fn lemma_repaying_is_told(
    w: WorldView,
    player: PlayerId,
    trader: TraderId,
    loan: LoanId,
    amount: Money,
    k: int,
)
    requires
        loan_named(w.loans, loan, k),
        w.loans[k].outstanding >= 0,
    ensures
        commands::applied(w, Command::RepayLoan { player, trader, loan, amount }) matches Ok(v)
            ==> exists|paid: Money, left: Money|
            paid + left == w.loans[k].outstanding && (paid == amount || left == 0) && paid <= amount
                && tells(
                w,
                v,
                EventCategory::System,
                None,
                #[trigger] messages::repaid(loan, paid, trader, left),
            ),
{
    reveal(commands::applied);
    search::lemma_first_is(w.loans, |l: Loan| l.id == loan, k);
    let l = w.loans[k];
    let paid = if amount < l.outstanding {
        amount
    } else {
        l.outstanding
    };
    let left = (l.outstanding - paid) as i64;
    lemma_logging_tells(
        w,
        EventCategory::System,
        None,
        messages::repaid(loan, paid, trader, left),
    );
}

/// Insurance is told with its payout and premium, and a future with its side, units,
/// strike and fee.
pub proof fn lemma_positions_are_told(
    w: WorldView,
    player: PlayerId,
    trader: TraderId,
    commodity: CommodityId,
    qty: Quantity,
    side: FutureSide,
)
    ensures
        commands::applied(w, Command::BuyInsurance { player, trader }) matches Ok(v)
            ==> w.insurance_runtime is Some && tells(
            w,
            v,
            EventCategory::System,
            None,
            messages::insured(
                trader,
                w.insurance_runtime->Some_0.payout,
                w.insurance_runtime->Some_0.premium,
            ),
        ),
        commands::applied(w, Command::OpenFuture { player, trader, commodity, qty, side })
            matches Ok(v) ==> w.future_runtime is Some && tells(
            w,
            v,
            EventCategory::System,
            None,
            messages::opened(
                trader,
                side,
                qty,
                w.registry.spec_commodity_name(commodity),
                v.futures.last().strike,
                w.future_runtime->Some_0.fee,
            ),
        ),
{
    reveal(commands::applied);
    if let Some(rt) = w.insurance_runtime {
        lemma_logging_tells(
            w,
            EventCategory::System,
            None,
            messages::insured(trader, rt.payout, rt.premium),
        );
    }
    if let Some(rt) = w.future_runtime {
        if let Some(strike) = commands::mean_price(w.markets, commodity) {
            lemma_logging_tells(
                w,
                EventCategory::System,
                None,
                messages::opened(
                    trader,
                    side,
                    qty,
                    w.registry.spec_commodity_name(commodity),
                    strike,
                    rt.fee,
                ),
            );
        }
    }
}

/// Whether a contract is a bounty of this trader's that `kills` more complete.
pub open spec fn completed_by(c: Contract, trader: TraderId, kills: int) -> bool {
    match c.kind {
        ContractKind::Bounty { target, progress } => (match c.state {
            ContractState::Accepted { player, trader: t } => t == trader,
            ContractState::Open => false,
        }) && progress < target && progress + kills >= target,
        _ => false,
    }
}

proof fn lemma_quotas_logged(
    w: WorldView,
    met: Seq<Contract>,
    n: int,
    trader: TraderId,
    at: Option<SystemId>,
    ending: Seq<char>,
)
    requires
        0 <= n <= met.len(),
        w.events.len() + n <= 2000,
    ensures
        ({
            let v = commands::quotas_logged(w, met, n, trader, at, ending);
            let old = w.events.len() as int;
            &&& v == (WorldView { events: v.events, ..w })
            &&& v.events.len() == old + n
            &&& v.events.take(old) == w.events
            &&& forall|k: int|
                0 <= k < n ==> #[trigger] v.events[old + k] == (EventView {
                    tick: w.tick,
                    category: EventCategory::System,
                    system: at,
                    message: messages::quota(met[k].id, trader, ending),
                })
        }),
    decreases n,
{
    let old = w.events.len() as int;
    let v = commands::quotas_logged(w, met, n, trader, at, ending);
    if n == 0 {
        assert(v.events.take(old) =~= w.events);
    } else {
        lemma_quotas_logged(w, met, n - 1, trader, at, ending);
        let b = commands::quotas_logged(w, met, n - 1, trader, at, ending);
        let text = messages::quota(met[n - 1].id, trader, ending);
        lemma_logging_tells(b, EventCategory::System, at, text);
        assert(v.events.take(old) =~= b.events.take(old));
        assert forall|k: int| 0 <= k < n implies #[trigger] v.events[old + k] == (EventView {
            tick: w.tick,
            category: EventCategory::System,
            system: at,
            message: messages::quota(met[k].id, trader, ending),
        }) by {
            if k < n - 1 {
                assert(v.events[old + k] == b.events[old + k]);
            }
        }
    }
}

/// A kill is told with its bounty, where the pirate was docked, and behind it each bounty
/// contract of the trader's that it completes, and no other.
pub proof fn lemma_kills_are_told(
    w: WorldView,
    player: PlayerId,
    trader: TraderId,
    pirate: PatrolId,
)
    requires
        w.events.len() + w.contracts.len() < 2000,
    ensures
        commands::applied(w, Command::DestroyedPirate { player, trader, pirate }) matches Ok(v) ==> {
            let old = w.events.len() as int;
            let met = w.contracts.filter(|c: Contract| completed_by(c, trader, 1));
            let bounty: Money = match w.piracy {
                Some(p) => p.bounty,
                None => 0,
            };
            &&& v.events.len() == old + 1 + met.len()
            &&& v.events.take(old) == w.events
            &&& v.events[old].tick == w.tick
            &&& v.events[old].category == EventCategory::Combat
            &&& v.events[old].message == messages::killed(trader, bounty)
            &&& forall|k: int|
                0 <= k < met.len() ==> (#[trigger] v.events[old + 1 + k]).category
                    == EventCategory::System && v.events[old + 1 + k].message == messages::quota(
                    met[k].id,
                    trader,
                    ""@,
                )
        },
{
    reveal(commands::applied);
    if let Ok(v) = commands::applied(w, Command::DestroyedPirate { player, trader, pirate }) {
        let old = w.events.len() as int;
        let f = |c: Contract| commands::quota_met(c, trader, 1);
        let g = |c: Contract| completed_by(c, trader, 1);
        assert(f =~= g);
        let met = w.contracts.filter(f);
        w.contracts.lemma_filter_len(f);
        let pi = commands::patrol_slot(w.pirates, pirate)->Some_0;
        let at = w.pirates[pi].spec_docked_at();
        let bounty: Money = match w.piracy {
            Some(p) => p.bounty,
            None => 0,
        };
        let e = EventView {
            tick: w.tick,
            category: EventCategory::Combat,
            system: at,
            message: messages::killed(trader, bounty),
        };
        let i = commands::owned_slot(w, trader, player)->Ok_0;
        let t = w.traders[i];
        let mid = WorldView {
            pirates: w.pirates.remove(pi),
            piracy_stats: PiracyStats {
                pirates_destroyed: w.piracy_stats.pirates_destroyed.wrapping_add(1),
                bounties_paid: money::wrapped(w.piracy_stats.bounties_paid + bounty),
                ..w.piracy_stats
            },
            contracts: commands::board_credited(w.contracts, trader, 1),
            ..w.with_trader(
                i,
                TraderView {
                    capital: money::wrapped(t.capital + bounty),
                    ..t
                },
            )
        };
        let told = mid.log(EventCategory::Combat, at, messages::killed(trader, bounty));
        lemma_logging_tells(mid, EventCategory::Combat, at, messages::killed(trader, bounty));
        assert(told.events == w.events.push(e));
        lemma_quotas_logged(told, met, met.len() as int, trader, at, ""@);
        assert(v.events.take(old) =~= w.events) by {
            assert(v.events.take(old + 1) == told.events);
            assert(v.events.take(old) =~= told.events.take(old));
            assert(told.events.take(old) =~= w.events);
        }
        assert(v.events[old] == v.events.take(old + 1)[old]);
    }
}

} // verus!
