//! What holds of the world as a whole: commands, books, fleets and the clock.

use vstd::prelude::*;

use crate::bits::Bits;
use crate::command::{Command, CommandError};
use crate::contract::{Contract, ContractKind};
use crate::event;
use crate::event::{EventCategory, EventView};
use crate::finance::{Loan, Policy};
use crate::ids::{
    CommodityId, ContractId, LoanId, Money, Owner, PatrolId, PlayerId, Quantity, ShipId, SystemId,
    TraderId,
};
use crate::market;
use crate::money;
use crate::patrol::Patrol;
use crate::registry::Registry;
use crate::search;
use crate::trader;
use crate::trader::{TraderLocation, TraderView};
use crate::world::battle;
use crate::world::battle::Fought;
use crate::world::board;
use crate::world::chronicle;
use crate::world::commands;
use crate::world::identity;
use crate::world::messages;
use crate::world::tick;
use crate::world::tick::HostTick;
use crate::world::trade;
use crate::world::{ActiveView, ContractRuntime, KindView, PiracyStats, WorldView};

verus! {

/// A rejected command leaves the world as it was: it is counted, and its error kept, and
/// nothing else changes.
pub proof fn lemma_rejection_has_no_side_effects(w: WorldView, n: int)
    requires
        0 < n <= w.commands.len(),
        commands::applied(tick::obeyed(w, n - 1), w.commands[n - 1]) is Err,
    ensures
        ({
            let v = tick::obeyed(w, n - 1);
            tick::obeyed(w, n) == (WorldView {
                commands_rejected: v.commands_rejected.wrapping_add(1),
                last_errors: v.last_errors.push(
                    commands::applied(v, w.commands[n - 1])->Err_0,
                ),
                ..v
            })
        }),
{
}

/// A command that is applied leaves the tallies of commands and their errors alone.
proof fn lemma_command_keeps_tallies(w: WorldView, c: Command)
    requires
        commands::applied(w, c) is Ok,
    ensures
        commands::applied(w, c)->Ok_0.commands == w.commands,
        commands::applied(w, c)->Ok_0.commands_applied == w.commands_applied,
        commands::applied(w, c)->Ok_0.commands_rejected == w.commands_rejected,
        commands::applied(w, c)->Ok_0.last_errors == w.last_errors,
{
    reveal(commands::applied);
    match c {
        Command::DestroyedPirate { player, trader, pirate } => {
            let v = commands::apply_destroyed_pirate(w, player, trader, pirate)->Ok_0;
            lemma_quotas_keep_tallies(v, w, player, trader, pirate);
        },
        _ => {},
    }
}

/// Reporting a kill leaves the tallies of commands alone.
proof fn lemma_quotas_keep_tallies(
    v: WorldView,
    w: WorldView,
    player: PlayerId,
    trader: TraderId,
    pirate: PatrolId,
)
    requires
        commands::apply_destroyed_pirate(w, player, trader, pirate) == Ok::<
            WorldView,
            CommandError,
        >(v),
    ensures
        v.commands == w.commands,
        v.commands_applied == w.commands_applied,
        v.commands_rejected == w.commands_rejected,
        v.last_errors == w.last_errors,
{
    let pi = commands::patrol_slot(w.pirates, pirate)->Some_0;
    let i = commands::owned_slot(w, trader, player)->Ok_0;
    let at = w.pirates[pi].spec_docked_at();
    let bounty = match w.piracy {
        Some(p) => p.bounty,
        None => 0,
    };
    let t = w.traders[i];
    let met = w.contracts.filter(|c: Contract| commands::quota_met(c, trader, 1));
    let settled = WorldView {
        pirates: w.pirates.remove(pi),
        piracy_stats: PiracyStats {
            pirates_destroyed: w.piracy_stats.pirates_destroyed.wrapping_add(1),
            bounties_paid: money::wrapped(w.piracy_stats.bounties_paid + bounty),
            ..w.piracy_stats
        },
        contracts: commands::board_credited(w.contracts, trader, 1),
        ..w.with_trader(i, TraderView { capital: money::wrapped(t.capital + bounty), ..t })
    }.log(
        EventCategory::Combat,
        at,
        messages::killed(trader, bounty),
    );
    identity::lemma_quotas_only_log(settled, met, met.len() as int, trader, at, ""@);
    assert(v == commands::quotas_logged(settled, met, met.len() as int, trader, at, ""@));
}

/// Every queued command is either applied or rejected, each rejection leaves one error,
/// and the queue is empty afterwards.
pub proof fn lemma_every_command_is_accounted_for(w: WorldView, n: int)
    requires
        0 <= n <= w.commands.len(),
        w.commands_applied + w.commands.len() <= u64::MAX,
        w.commands_rejected + w.commands.len() <= u64::MAX,
    ensures
        tick::obeyed(w, n).commands.len() == 0,
        tick::obeyed(w, n).commands_applied >= w.commands_applied,
        tick::obeyed(w, n).commands_rejected >= w.commands_rejected,
        tick::obeyed(w, n).commands_applied + tick::obeyed(w, n).commands_rejected
            == w.commands_applied + w.commands_rejected + n,
        tick::obeyed(w, n).last_errors.len() == tick::obeyed(w, n).commands_rejected
            - w.commands_rejected,
    decreases n,
{
    if n > 0 {
        lemma_every_command_is_accounted_for(w, n - 1);
        let v = tick::obeyed(w, n - 1);
        if commands::applied(v, w.commands[n - 1]) is Ok {
            lemma_command_keeps_tallies(v, w.commands[n - 1]);
        }
    }
}

/// A trader that was spawned is found by the id it was given: docked where it was asked
/// for, with the capital it was given and an empty hold.
pub proof fn lemma_spawned_trader_is_found(
    w: WorldView,
    player: PlayerId,
    ship: ShipId,
    at: SystemId,
    capital: Money,
)
    requires
        identity::sound(w),
        commands::apply_spawn(w, player, ship, at, capital) is Ok,
    ensures
        ({
            let v = commands::apply_spawn(w, player, ship, at, capital)->Ok_0;
            let id = TraderId(w.next_trader_id);
            &&& commands::owned_slot(v, id, player) == Ok::<int, CommandError>(
                w.traders.len() as int,
            )
            &&& v.traders[w.traders.len() as int] == TraderView::fresh(
                id,
                ship,
                capital,
                at,
                Owner::Player(player),
            )
        }),
{
    let v = commands::apply_spawn(w, player, ship, at, capital)->Ok_0;
    let id = TraderId(w.next_trader_id);
    let p = |t: TraderView| t.id == id;
    assert forall|j: int| 0 <= j < w.traders.len() implies !p(#[trigger] v.traders[j]) by {
        assert(v.traders[j] == w.traders[j]);
        assert(identity::trader_key()(w.traders[j]) < w.next_trader_id);
    }
    search::lemma_first_is(v.traders, p, w.traders.len() as int);
}

/// The id of a trader that was retired is stale: every later command for it is rejected,
/// and the others keep theirs.
pub proof fn lemma_retired_id_is_stale(w: WorldView, player: PlayerId, id: TraderId, other: PlayerId)
    requires
        identity::sound(w),
        commands::apply_despawn(w, player, id) is Ok,
    ensures
        ({
            let v = commands::apply_despawn(w, player, id)->Ok_0;
            &&& commands::owned_slot(v, id, other) == Err::<int, CommandError>(
                CommandError::UnknownTrader,
            )
            &&& v.traders.len() == w.traders.len() - 1
            &&& forall|j: int|
                0 <= j < w.traders.len() && (#[trigger] w.traders[j]).id != id
                    ==> v.traders.contains(w.traders[j])
        }),
{
    let v = commands::apply_despawn(w, player, id)->Ok_0;
    let p = |t: TraderView| t.id == id;
    search::lemma_first_found(w.traders, p);
    let i = commands::owned_slot(w, id, player)->Ok_0;
    identity::lemma_issued_remove(w.traders, identity::trader_key(), w.next_trader_id, i);
    assert forall|j: int| 0 <= j < v.traders.len() implies !p(#[trigger] v.traders[j]) by {
        if v.traders[j].id == id {
            assert(identity::trader_key()(v.traders[j]) == identity::trader_key()(w.traders[i]));
            assert(identity::bears(
                v.traders,
                identity::trader_key(),
                identity::trader_key()(w.traders[i]),
            ));
        }
    }
    search::lemma_first_none(v.traders, p);
    assert forall|j: int|
        0 <= j < w.traders.len() && (#[trigger] w.traders[j]).id != id implies v.traders.contains(
        w.traders[j],
    ) by {
        if j < i {
            assert(v.traders[j] == w.traders[j]);
        } else {
            assert(v.traders[j - 1] == w.traders[j]);
        }
    }
}

/// A hold keeps no entry of a good that has run out.
pub open spec fn no_empty_entries(cargo: Map<CommodityId, Quantity>) -> bool {
    forall|c: CommodityId| #[trigger] cargo.contains_key(c) ==> cargo[c] > 0
}

/// Selling back at once what was just bought restores the market, the hold and the
/// capital.
pub proof fn lemma_buying_then_selling_restores(
    w: WorldView,
    player: PlayerId,
    id: TraderId,
    c: CommodityId,
    qty: Quantity,
)
    requires
        commands::apply_buy(w, player, id, c, qty) is Ok,
        w.wf(),
        ({
            let t = w.traders[commands::owned_slot(w, id, player)->Ok_0];
            no_empty_entries(t.cargo) && trader::held(t.cargo, c) + qty <= u32::MAX
        }),
    ensures
        commands::apply_sell(
            commands::apply_buy(w, player, id, c, qty)->Ok_0,
            player,
            id,
            c,
            qty,
        ) == Ok::<WorldView, CommandError>(w),
{
    let p = |t: TraderView| t.id == id;
    search::lemma_first_found(w.traders, p);
    let i = commands::owned_slot(w, id, player)->Ok_0;
    let t = w.traders[i];
    let sys = commands::docked(t)->Ok_0;
    assert(w.trader_ok(t));
    let m = w.markets[sys.0 as int];
    let price = m.price(c)->Some_0;
    let v = commands::apply_buy(w, player, id, c, qty)->Ok_0;
    let bought = v.traders[i];
    assert forall|j: int| 0 <= j < i implies !p(#[trigger] v.traders[j]) by {
        assert(v.traders[j] == w.traders[j]);
    }
    search::lemma_first_is(v.traders, p, i);
    assert(commands::owned_slot(v, id, player) == Ok::<int, CommandError>(i));
    let held = trader::held(t.cargo, c);
    assert(no_empty_entries(w.traders[i].cargo));
    assert(trader::held(bought.cargo, c) == held + qty);
    assert(trader::with_units(bought.cargo, c, held) =~= t.cargo);
    let back = m.with_stock(c, (m.stock(c) - qty) as u32).added(c, qty);
    assert(back.goods =~= m.goods);
    assert(0 <= price * qty) by (nonlinear_arith)
        requires
            price >= 1,
            qty >= 0,
    ;
    assert(w.market_ok(w.markets[sys.0 as int]));
    money::lemma_wrapped_fits(t.capital as int);
    let r = commands::apply_sell(v, player, id, c, qty)->Ok_0;
    assert(r.traders =~= w.traders);
    assert(r.markets =~= w.markets);
}

/// The mass of a hold after the units of one good have changed.
pub(crate) proof fn lemma_mass_of_changed_hold(
    reg: Registry,
    cargo: Map<CommodityId, Quantity>,
    c: CommodityId,
    units: Quantity,
    n: int,
)
    requires
        0 <= n <= u32::MAX,
    ensures
        commands::mass_below(reg, cargo.insert(c, units), n) == commands::mass_below(reg, cargo, n)
            + (if c.0 < n {
            (units - trader::held(cargo, c)) * reg.spec_commodities()[c.0 as int].unit_mass
        } else {
            0
        }),
    decreases n,
{
    if n > 0 {
        lemma_mass_of_changed_hold(reg, cargo, c, units, n - 1);
        let k = CommodityId((n - 1) as u32);
        let mass = reg.spec_commodities()[n - 1].unit_mass;
        if k == c {
            assert(units * mass == trader::held(cargo, c) * mass + (units - trader::held(cargo, c))
                * mass) by (nonlinear_arith);
        } else {
            assert(trader::held(cargo.insert(c, units), k) == trader::held(cargo, k));
        }
    }
}

pub(crate) proof fn lemma_mass_is_not_negative(reg: Registry, cargo: Map<CommodityId, Quantity>, n: int)
    ensures
        commands::mass_below(reg, cargo, n) >= 0,
    decreases n,
{
    if n > 0 {
        lemma_mass_is_not_negative(reg, cargo, n - 1);
        let q = trader::held(cargo, CommodityId((n - 1) as u32));
        let mass = reg.spec_commodities()[n - 1].unit_mass;
        assert(q * mass >= 0) by (nonlinear_arith)
            requires
                q >= 0,
                mass >= 0,
        ;
    }
}

/// Whether a trader's hold is within its ship's capacity.
pub open spec fn within_capacity(w: WorldView, t: TraderView) -> bool {
    commands::hold_mass(w.registry, t.cargo) <= w.registry.spec_ships()[t.ship.0 as int].cargo_capacity
}

/// Buying never overloads a ship.
pub proof fn lemma_buying_respects_capacity(
    w: WorldView,
    player: PlayerId,
    id: TraderId,
    c: CommodityId,
    qty: Quantity,
)
    requires
        commands::apply_buy(w, player, id, c, qty) is Ok,
        w.wf(),
    ensures
        ({
            let i = commands::owned_slot(w, id, player)->Ok_0;
            within_capacity(w, commands::apply_buy(w, player, id, c, qty)->Ok_0.traders[i])
        }),
{
    search::lemma_first_found(w.traders, |t: TraderView| t.id == id);
    let i = commands::owned_slot(w, id, player)->Ok_0;
    let t = w.traders[i];
    let sys = commands::docked(t)->Ok_0;
    assert(w.trader_ok(t));
    assert(w.market_ok(w.markets[sys.0 as int]));
    let mass = w.registry.spec_commodities()[c.0 as int].unit_mass;
    let held = trader::held(t.cargo, c);
    let units = market::stocked(held, qty);
    lemma_mass_of_changed_hold(w.registry, t.cargo, c, units, w.commodities() as int);
    assert((units - held) * mass <= qty * mass) by (nonlinear_arith)
        requires
            units - held <= qty,
            mass >= 0,
    ;
}

/// Scooping drifting cargo is free, and takes no more aboard than the ship carries.
pub proof fn lemma_scooping_is_free_and_bounded(
    w: WorldView,
    player: PlayerId,
    id: TraderId,
    c: CommodityId,
    qty: Quantity,
)
    requires
        commands::apply_scoop(w, player, id, c, qty) is Ok,
        w.wf(),
        within_capacity(w, w.traders[commands::owned_slot(w, id, player)->Ok_0]),
    ensures
        ({
            let i = commands::owned_slot(w, id, player)->Ok_0;
            let t = commands::apply_scoop(w, player, id, c, qty)->Ok_0.traders[i];
            t.capital == w.traders[i].capital && within_capacity(w, t)
        }),
{
    search::lemma_first_found(w.traders, |t: TraderView| t.id == id);
    let i = commands::owned_slot(w, id, player)->Ok_0;
    let t = w.traders[i];
    let mass = w.registry.spec_commodities()[c.0 as int].unit_mass;
    let free = w.registry.spec_ships()[t.ship.0 as int].cargo_capacity - commands::hold_mass(
        w.registry,
        t.cargo,
    );
    let taken = commands::fitting(free, mass, qty);
    let held = trader::held(t.cargo, c);
    let units = market::stocked(held, taken);
    lemma_mass_of_changed_hold(w.registry, t.cargo, c, units, w.commodities() as int);
    assert((units - held) * mass <= taken * mass) by (nonlinear_arith)
        requires
            units - held <= taken,
            mass >= 0,
    ;
    if mass > 0 && qty * mass > free {
        lemma_mass_is_not_negative(w.registry, t.cargo, w.commodities() as int);
        assert(0 <= free / (mass as int) <= free) by (nonlinear_arith)
            requires
                mass > 0,
                free >= 0,
        ;
        assert((free / (mass as int)) * mass <= free) by (nonlinear_arith)
            requires
                mass > 0,
        ;
        assert(taken * mass <= free) by (nonlinear_arith)
            requires
                taken == free / (mass as int),
                mass > 0,
        ;
    } else if mass == 0 {
        assert(taken * mass == 0) by (nonlinear_arith)
            requires
                mass == 0,
        ;
    }
}

/// An accepted contract is held by the trader that took it, and is on the board still.
pub proof fn lemma_accepted_contract_is_held(
    w: WorldView,
    player: PlayerId,
    id: TraderId,
    contract: ContractId,
)
    requires
        commands::apply_accept(w, player, id, contract) is Ok,
    ensures
        ({
            let v = commands::apply_accept(w, player, id, contract)->Ok_0;
            let k = commands::contract_slot(w.contracts, contract)->Some_0;
            &&& commands::contract_slot(v.contracts, contract) == Some(k)
            &&& v.contracts[k].spec_holder() == Some((player, id))
            &&& v.contracts.len() == w.contracts.len()
            &&& commands::apply_accept(v, player, id, contract) == Err::<WorldView, CommandError>(
                CommandError::ContractUnavailable,
            )
        }),
{
    let p = |c: Contract| c.id == contract;
    search::lemma_first_found(w.contracts, p);
    let v = commands::apply_accept(w, player, id, contract)->Ok_0;
    let k = commands::contract_slot(w.contracts, contract)->Some_0;
    assert forall|j: int| 0 <= j < k implies !p(#[trigger] v.contracts[j]) by {
        assert(v.contracts[j] == w.contracts[j]);
    }
    search::lemma_first_is(v.contracts, p, k);
}

/// A fulfilled contract pays its reward once: it leaves the board, so it cannot be
/// fulfilled again.
pub proof fn lemma_fulfilled_contract_pays_once(
    w: WorldView,
    player: PlayerId,
    id: TraderId,
    contract: ContractId,
)
    requires
        identity::sound(w),
        commands::apply_fulfill(w, player, id, contract) is Ok,
    ensures
        ({
            let v = commands::apply_fulfill(w, player, id, contract)->Ok_0;
            let i = commands::owned_slot(w, id, player)->Ok_0;
            let k = commands::contract_slot(w.contracts, contract)->Some_0;
            &&& v.traders[i].capital == money::wrapped(
                w.traders[i].capital + w.contracts[k].reward,
            )
            &&& commands::contract_slot(v.contracts, contract) is None
            &&& commands::apply_fulfill(v, player, id, contract) == Err::<WorldView, CommandError>(
                CommandError::UnknownContract,
            )
        }),
{
    let p = |c: Contract| c.id == contract;
    search::lemma_first_found(w.contracts, p);
    search::lemma_first_found(w.traders, |t: TraderView| t.id == id);
    let v = commands::apply_fulfill(w, player, id, contract)->Ok_0;
    let i = commands::owned_slot(w, id, player)->Ok_0;
    let k = commands::contract_slot(w.contracts, contract)->Some_0;
    identity::lemma_issued_remove(w.contracts, identity::contract_key(), w.next_contract_id, k);
    assert forall|j: int| 0 <= j < v.contracts.len() implies !p(#[trigger] v.contracts[j]) by {
        if v.contracts[j].id == contract {
            assert(identity::contract_key()(v.contracts[j]) == identity::contract_key()(
                w.contracts[k],
            ));
            assert(identity::bears(
                v.contracts,
                identity::contract_key(),
                identity::contract_key()(w.contracts[k]),
            ));
        }
    }
    search::lemma_first_none(v.contracts, p);
    let q = |t: TraderView| t.id == id;
    assert forall|j: int| 0 <= j < i implies !q(#[trigger] v.traders[j]) by {
        assert(v.traders[j] == w.traders[j]);
    }
    search::lemma_first_is(v.traders, q, i);
}

/// Repaying at once a loan just taken closes it and restores the capital.
pub proof fn lemma_borrowing_then_repaying_restores(
    w: WorldView,
    player: PlayerId,
    id: TraderId,
    principal: Money,
    amount: Money,
)
    requires
        identity::sound(w),
        commands::apply_take_loan(w, player, id, principal) is Ok,
        w.traders[commands::owned_slot(w, id, player)->Ok_0].capital >= 0,
        w.traders[commands::owned_slot(w, id, player)->Ok_0].capital + principal <= i64::MAX,
        amount >= principal,
    ensures
        ({
            let v = commands::apply_take_loan(w, player, id, principal)->Ok_0;
            let r = commands::apply_repay(v, player, id, LoanId(w.next_loan_id), amount);
            &&& r is Ok
            &&& r->Ok_0 == (WorldView {
                next_loan_id: v.next_loan_id,
                events: r->Ok_0.events,
                ..w
            })
        }),
{
    let p = |t: TraderView| t.id == id;
    search::lemma_first_found(w.traders, p);
    let i = commands::owned_slot(w, id, player)->Ok_0;
    let v = commands::apply_take_loan(w, player, id, principal)->Ok_0;
    let loan = LoanId(w.next_loan_id);
    let q = |l: Loan| l.id == loan;
    assert forall|j: int| 0 <= j < w.loans.len() implies !q(#[trigger] v.loans[j]) by {
        assert(v.loans[j] == w.loans[j]);
        assert(identity::loan_key()(w.loans[j]) < w.next_loan_id);
    }
    search::lemma_first_is(v.loans, q, w.loans.len() as int);
    assert forall|j: int| 0 <= j < i implies !p(#[trigger] v.traders[j]) by {
        assert(v.traders[j] == w.traders[j]);
    }
    search::lemma_first_is(v.traders, p, i);
    let c = w.traders[i].capital;
    money::lemma_wrapped_fits(c + principal);
    money::lemma_wrapped_fits(c as int);
    let r = commands::apply_repay(v, player, id, loan, amount)->Ok_0;
    assert(r.traders =~= w.traders);
    assert(r.loans =~= w.loans);
}

/// Whether no trader has two policies.
pub open spec fn insured_once(policies: Seq<Policy>) -> bool {
    forall|i: int, j: int|
        #![trigger policies[i], policies[j]]
        0 <= i < j < policies.len() ==> policies[i].insured != policies[j].insured
}

/// No trader is ever insured twice.
pub proof fn lemma_insuring_keeps_one_policy_each(w: WorldView, player: PlayerId, id: TraderId)
    requires
        insured_once(w.policies),
        commands::apply_insure(w, player, id) is Ok,
    ensures
        insured_once(commands::apply_insure(w, player, id)->Ok_0.policies),
        commands::policy_slot(commands::apply_insure(w, player, id)->Ok_0.policies, id) is Some,
{
    let p = |q: Policy| q.insured == id;
    let v = commands::apply_insure(w, player, id)->Ok_0;
    assert forall|i: int| 0 <= i < w.policies.len() implies (#[trigger] w.policies[i]).insured
        != id by {
        if w.policies[i].insured == id {
            search::lemma_first_some(w.policies, p, i);
        }
    }
    let last = w.policies.len() as int;
    assert(p(v.policies[last]));
    search::lemma_first_some(v.policies, p, last);
}

/// Insurance pays for a loss once: the policy is used up by the payout.
pub proof fn lemma_insurance_pays_once(w: WorldView, i: int, id: TraderId, at: Option<SystemId>)
    requires
        insured_once(w.policies),
        0 <= i < w.traders.len(),
        commands::policy_slot(w.policies, id) is Some,
        commands::covers(w.policies[commands::policy_slot(w.policies, id)->Some_0], w.tick),
    ensures
        ({
            let k = commands::policy_slot(w.policies, id)->Some_0;
            let v = commands::insurance_paid(w, i, id, at);
            &&& v.traders[i].capital == money::wrapped(
                w.traders[i].capital + w.policies[k].payout,
            )
            &&& commands::policy_slot(v.policies, id) is None
            &&& insured_once(v.policies)
            &&& commands::insurance_paid(v, i, id, at) == v
        }),
{
    let p = |q: Policy| q.insured == id;
    search::lemma_first_found(w.policies, p);
    let k = commands::policy_slot(w.policies, id)->Some_0;
    let v = commands::insurance_paid(w, i, id, at);
    assert forall|j: int| 0 <= j < v.policies.len() implies !p(#[trigger] v.policies[j]) by {
        if j < k {
            assert(v.policies[j] == w.policies[j]);
        } else {
            assert(v.policies[j] == w.policies[j + 1]);
            assert(w.policies[k].insured != w.policies[j + 1].insured);
        }
    }
    search::lemma_first_none(v.policies, p);
    assert forall|a: int, b: int|
        #![trigger v.policies[a], v.policies[b]]
        0 <= a < b < v.policies.len() implies v.policies[a].insured != v.policies[b].insured by {
        let ma = if a < k {
            a
        } else {
            a + 1
        };
        let mb = if b < k {
            b
        } else {
            b + 1
        };
        assert(v.policies[a] == w.policies[ma] && v.policies[b] == w.policies[mb]);
    }
}

/// There is no payout after a policy's expiry tick: the report of a loss then destroys the
/// ship and pays nothing.
pub proof fn lemma_expired_insurance_pays_nothing(w: WorldView, player: PlayerId, id: TraderId)
    requires
        commands::policy_slot(w.policies, id) matches Some(k) && w.tick.0
            > w.policies[k].expiry.0,
        commands::owned_slot(w, id, player) is Ok,
    ensures
        ({
            let i = commands::owned_slot(w, id, player)->Ok_0;
            let r = commands::applied(w, Command::TraderDestroyed { player, trader: id });
            let v = r->Ok_0;
            &&& r is Ok
            &&& v.policies == w.policies
            &&& v.traders == w.traders.update(
                i,
                TraderView {
                    cargo: Map::empty(),
                    location: TraderLocation::Destroyed {
                        respawn: w.tick.spec_plus(
                            match w.piracy {
                                Some(p) => p.respawn_delay,
                                None => 50,
                            },
                        ),
                    },
                    ..w.traders[i]
                },
            )
            &&& v.piracy_stats == (PiracyStats {
                traders_lost: w.piracy_stats.traders_lost.wrapping_add(1),
                ..w.piracy_stats
            })
        }),
{
    reveal(commands::applied);
}

/// A galaxy without lawless systems has neither pirates nor a navy, whatever the
/// scenario asks for.
pub proof fn lemma_safe_galaxy_has_no_fleets(w: WorldView)
    requires
        w.wf(),
        forall|s: SystemId| !#[trigger] w.lawless(s),
    ensures
        w.pirates.len() == 0,
        w.navy.len() == 0,
{
    if w.pirates.len() > 0 {
        assert(w.patrol_ok(w.pirates[0]));
    }
    if w.navy.len() > 0 {
        assert(w.patrol_ok(w.navy[0]));
    }
}

/// Without pirates nobody is ambushed: the piracy phase changes nothing.
pub proof fn lemma_no_pirates_no_ambush(w: WorldView, n: int)
    requires
        w.pirates.len() == 0,
    ensures
        battle::gauntlets(w, n) == w,
        battle::piracy_run(w) == w,
    decreases n,
{
    lemma_no_prey(w, n);
    lemma_no_prey(w, w.traders.len() as int);
}

proof fn lemma_no_prey(w: WorldView, n: int)
    requires
        w.pirates.len() == 0,
    ensures
        battle::gauntlets(w, n) == w,
    decreases n,
{
    if n > 0 {
        lemma_no_prey(w, n - 1);
        let dest = match w.traders[n - 1].location {
            TraderLocation::InTransit { origin, dest, departure, arrival } => dest,
            _ => SystemId(0),
        };
        search::lemma_filter_members(
            w.pirates,
            |p: Patrol| p.spec_is_alive() && p.spec_docked_at() == Some(dest),
        );
    }
}

/// A player's trader acts only on command: docked and not in a fight, its turn changes
/// nothing.
pub proof fn lemma_player_traders_are_left_alone(w: WorldView, t: int)
    requires
        0 <= t < w.traders.len(),
        w.traders[t].owner is Player,
        w.traders[t].location is Docked,
    ensures
        trade::turn(w, t) == (w, None::<SystemId>),
{
}

/// Wherever a player's trader is, its turn neither trades nor looks for a trade: an arrival
/// or a respawn puts it at a station and changes nothing else of it, nor any other trader,
/// market, contract or position.
pub proof fn lemma_player_turns_only_move(w: WorldView, t: int)
    requires
        0 <= t < w.traders.len(),
        w.traders[t].owner is Player,
    ensures
        trade::turn(w, t).1 is None,
        ({
            let v = trade::turn(w, t).0;
            &&& v.traders == w.traders.update(
                t,
                TraderView { location: v.traders[t].location, ..w.traders[t] },
            )
            &&& v == (WorldView { traders: v.traders, rng: v.rng, events: v.events, ..w })
            &&& match w.traders[t].location {
                TraderLocation::Docked(s) => v == w,
                TraderLocation::InTransit { origin, dest, departure, arrival } => {
                    &&& v.rng == w.rng
                    &&& v.events == w.events
                    &&& v.traders[t].location == (if w.tick.0 < arrival.0 || battle::trader_engaged(
                        w.encounters,
                        w.traders[t].id,
                    ) {
                        w.traders[t].location
                    } else {
                        TraderLocation::Docked(dest)
                    })
                },
                TraderLocation::Destroyed { respawn } => if w.tick.0 < respawn.0 {
                    v == w
                } else {
                    v.traders[t].location is Docked
                },
            }
        }),
{
    let v = trade::turn(w, t).0;
    assert(v.traders =~= w.traders.update(
        t,
        TraderView { location: v.traders[t].location, ..w.traders[t] },
    ));
}

/// A trader in a fight is frozen: its turn changes nothing until the battle is over.
pub proof fn lemma_fighting_traders_are_frozen(w: WorldView, t: int)
    requires
        0 <= t < w.traders.len(),
        battle::trader_engaged(w.encounters, w.traders[t].id),
        !(w.traders[t].location is Destroyed),
    ensures
        trade::turn(w, t) == (w, None::<SystemId>),
{
}

/// The board keeps a contract through its deadline tick, and drops it after.
pub proof fn lemma_board_is_swept_exactly(w: WorldView, c: Contract)
    requires
        w.contract_runtime is Some,
        w.contracts.contains(c),
    ensures
        tick::surveyed(w).contracts.contains(c) <==> w.tick.0 <= c.deadline.0,
{
    let p = |k: Contract| !board::lapsed(w.tick, k);
    let gone = w.contracts.filter(|k: Contract| board::lapsed(w.tick, k));
    let left = WorldView { contracts: w.contracts.filter(p), ..w };
    identity::lemma_expiries_only_log(left, gone, gone.len() as int);
    assert(tick::surveyed(w).contracts == w.contracts.filter(p));
    search::lemma_filter_members(w.contracts, p);
    if w.tick.0 <= c.deadline.0 {
        w.contracts.lemma_filter_contains(p, w.contracts.index_of(c));
    }
}

/// A run is reproducible: from the same world, with the same commands and the same
/// answers of the host, `n` ticks lead to the same world, whatever comes after them.
pub proof fn lemma_runs_are_reproducible(
    w: WorldView,
    a: Seq<(Seq<Command>, HostTick)>,
    b: Seq<(Seq<Command>, HostTick)>,
    n: int,
)
    requires
        n <= a.len(),
        n <= b.len(),
        forall|i: int| 0 <= i < n ==> #[trigger] a[i] == b[i],
    ensures
        tick::ran(w, a, n) == tick::ran(w, b, n),
    decreases n,
{
    if n > 0 {
        lemma_runs_are_reproducible(w, a, b, n - 1);
        assert(a[n - 1] == b[n - 1]);
    }
}

/// Running `a` ticks and then `b` more is running `a + b` ticks.
pub proof fn lemma_runs_compose(
    w: WorldView,
    script: Seq<(Seq<Command>, HostTick)>,
    a: int,
    b: int,
)
    requires
        0 <= a,
        0 <= b,
        a + b <= script.len(),
    ensures
        tick::ran(tick::ran(w, script, a), script.subrange(a, script.len() as int), b)
            == tick::ran(w, script, a + b),
    decreases b,
{
    if b > 0 {
        lemma_runs_compose(w, script, a, b - 1);
        assert(script.subrange(a, script.len() as int)[b - 1] == script[a + b - 1]);
    }
}

/// Running `n` ticks moves the clock by exactly `n`.
pub proof fn lemma_runs_count_ticks(
    w: WorldView,
    script: Seq<(Seq<Command>, HostTick)>,
    n: int,
)
    requires
        0 <= n <= script.len(),
        w.tick.0 + n <= u64::MAX,
    ensures
        tick::ran(w, script, n).tick.0 == w.tick.0 + n,
    decreases n,
{
    if n > 0 {
        lemma_runs_count_ticks(w, script, n - 1);
        let v = tick::ran(w, script, n - 1);
        reveal(tick::stepped);
        chronicle::lemma_tick_logs_its_own_events(
            WorldView { commands: v.commands + script[n - 1].0, ..v },
            script[n - 1].1,
        );
    }
}

/// A treasury in deficit stalls the navy: no ship joins it.
pub proof fn lemma_deficit_stalls_the_navy(w: WorldView, shields: Seq<Bits>)
    requires
        w.navy_runtime is Some,
        battle::navy_funded(
            w,
            w.navy_runtime->Some_0.funding,
            w.navy_runtime->Some_0.upkeep,
        ).treasury < 0,
    ensures
        battle::navy_moved(w, shields).navy.len() == w.navy.len(),
        battle::navy_moved(w, shields).next_patrol_id == w.next_patrol_id,
{
    let rt = w.navy_runtime->Some_0;
    let f = battle::navy_funded(w, rt.funding, rt.upkeep);
    identity::lemma_roaming_keeps_ids(f, rt.navy_ship, f.navy, shields, f.navy.len() as int);
}

/// Whether every event of a fight says where it happened.
pub open spec fn fights_are_placed(events: Seq<EventView>) -> bool {
    forall|i: int|
        0 <= i < events.len() ==> (#[trigger] events[i]).category is System
            || events[i].system is Some
}

proof fn lemma_placed_log(events: Seq<EventView>, e: EventView)
    requires
        fights_are_placed(events),
        e.category is System || e.system is Some,
    ensures
        fights_are_placed(event::logged(events, e)),
{
    let longer = events.push(e);
    assert(fights_are_placed(longer)) by {
        assert forall|i: int| 0 <= i < longer.len() implies (#[trigger] longer[i]).category is System
            || longer[i].system is Some by {
            if i < events.len() {
                assert(longer[i] == events[i]);
            }
        }
    }
    let cut = longer.subrange(1, longer.len() as int);
    assert forall|i: int| 0 <= i < cut.len() implies (#[trigger] cut[i]).category is System
        || cut[i].system is Some by {
        assert(cut[i] == longer[i + 1]);
    }
}

proof fn lemma_placed_quotas(
    w: WorldView,
    met: Seq<Contract>,
    n: int,
    trader: TraderId,
    at: Option<SystemId>,
    ending: Seq<char>,
)
    requires
        fights_are_placed(w.events),
    ensures
        fights_are_placed(commands::quotas_logged(w, met, n, trader, at, ending).events),
    decreases n,
{
    if n > 0 {
        lemma_placed_quotas(w, met, n - 1, trader, at, ending);
        let v = commands::quotas_logged(w, met, n - 1, trader, at, ending);
        lemma_placed_log(
            v.events,
            EventView {
                tick: v.tick,
                category: EventCategory::System,
                system: at,
                message: messages::quota(met[n - 1].id, trader, ending),
            },
        );
    }
}

/// The log after a battle has ended.
proof fn lemma_placed_battle(w: WorldView, e: ActiveView)
    requires
        fights_are_placed(w.events),
    ensures
        fights_are_placed(battle::battle_closed(w, e).events),
{
    match e.kind {
        KindView::Hunt { sys, navy, pirates, pirates_offset } => {
            let down = battle::fallen(e.combatants, 0, navy.len() as int);
            let killed = battle::fallen(e.combatants, pirates_offset, pirates.len() as int);
            lemma_placed_log(
                w.events,
                EventView {
                    tick: w.tick,
                    category: EventCategory::Navy,
                    system: Some(sys),
                    message: messages::hunted(
                        w.registry.spec_systems()[sys.0 as int].name@,
                        killed,
                        down,
                    ),
                },
            );
        },
        KindView::Ambush {
            trader,
            dest,
            navy,
            pirates,
            navy_offset,
            pirate_offset,
            respawn_delay,
            bounty,
        } => {
            let name = w.registry.spec_systems()[dest.0 as int].name@;
            let kills = battle::fallen(e.combatants, pirate_offset, pirates.len() as int);
            let reward = money::wrapped(bounty * kills);
            let won = EventView {
                tick: w.tick,
                category: EventCategory::Combat,
                system: Some(dest),
                message: messages::ambush_won(name, trader, pirates.len(), kills, reward),
            };
            let lost = EventView {
                tick: w.tick,
                category: EventCategory::Piracy,
                system: Some(dest),
                message: messages::ambush_lost(name, trader),
            };
            lemma_placed_log(w.events, won);
            lemma_placed_log(w.events, lost);
            match commands::trader_slot(w.traders, trader) {
                None => {},
                Some(t) => {
                    if e.combatants[0].alive {
                        lemma_placed_win(w, e, t);
                    } else {
                        let payout = w.policies[commands::policy_slot(
                            w.policies,
                            trader,
                        )->Some_0].payout;
                        lemma_placed_log(
                            event::logged(w.events, lost),
                            EventView {
                                tick: w.tick,
                                category: EventCategory::System,
                                system: Some(dest),
                                message: messages::compensated(trader, payout),
                            },
                        );
                    }
                },
            }
        },
    }
}

/// The log after an ambush has been won.
proof fn lemma_placed_win(w: WorldView, e: ActiveView, t: int)
    requires
        fights_are_placed(w.events),
        e.kind is Ambush,
        e.combatants[0].alive,
        commands::trader_slot(w.traders, e.kind->trader) == Some(t),
    ensures
        fights_are_placed(battle::battle_closed(w, e).events),
{
    match e.kind {
        KindView::Ambush {
            trader,
            dest,
            navy,
            pirates,
            navy_offset,
            pirate_offset,
            respawn_delay,
            bounty,
        } => {
            let down = battle::fallen(e.combatants, navy_offset, navy.len() as int);
            let kills = battle::fallen(e.combatants, pirate_offset, pirates.len() as int);
            let tallied = WorldView {
                piracy_stats: PiracyStats {
                    navy_lost: w.piracy_stats.navy_lost.wrapping_add(down as u64),
                    pirates_destroyed: w.piracy_stats.pirates_destroyed.wrapping_add(kills as u64),
                    ..w.piracy_stats
                },
                navy: battle::written_back(
                    w.navy,
                    navy,
                    e.combatants,
                    navy_offset,
                    navy.len() as int,
                ).filter(battle::living()),
                pirates: battle::written_back(
                    w.pirates,
                    pirates,
                    e.combatants,
                    pirate_offset,
                    pirates.len() as int,
                ).filter(battle::living()),
                ..w
            };
            lemma_placed_survival(tallied, t, trader, dest, pirates.len(), kills, bounty);
        },
        _ => {},
    }
}

proof fn lemma_placed_survival(
    w: WorldView,
    t: int,
    trader: TraderId,
    dest: SystemId,
    pirates: nat,
    kills: nat,
    bounty: Money,
)
    requires
        fights_are_placed(w.events),
    ensures
        fights_are_placed(
            battle::ambush_survived(w, t, trader, dest, pirates, kills, bounty).events,
        ),
{
    let reward = money::wrapped(bounty * kills);
    let met = if kills > 0 {
        w.contracts.filter(|c: Contract| commands::quota_met(c, trader, kills as int))
    } else {
        Seq::empty()
    };
    let message = messages::ambush_won(
        w.registry.spec_systems()[dest.0 as int].name@,
        trader,
        pirates,
        kills,
        reward,
    );
    let paid = WorldView {
        piracy_stats: PiracyStats {
            bounties_paid: money::wrapped(w.piracy_stats.bounties_paid + reward),
            ..w.piracy_stats
        },
        contracts: if kills > 0 {
            commands::board_credited(w.contracts, trader, kills as int)
        } else {
            w.contracts
        },
        ..w.with_trader(
            t,
            TraderView {
                capital: money::wrapped(w.traders[t].capital + reward),
                ..w.traders[t]
            },
        )
    }.log(EventCategory::Combat, Some(dest), message);
    lemma_placed_log(
        w.events,
        EventView {
            tick: w.tick,
            category: EventCategory::Combat,
            system: Some(dest),
            message,
        },
    );
    lemma_placed_quotas(
        paid,
        met,
        met.len() as int,
        trader,
        Some(dest),
        "; claim at its station"@,
    );
    assert(battle::ambush_survived(w, t, trader, dest, pirates, kills, bounty)
        == commands::quotas_logged(
        paid,
        met,
        met.len() as int,
        trader,
        Some(dest),
        "; claim at its station"@,
    ));
}

proof fn lemma_placed_battles(w: WorldView, done: Seq<ActiveView>, n: int)
    requires
        fights_are_placed(w.events),
    ensures
        fights_are_placed(battle::battles_closed(w, done, n).events),
    decreases n,
{
    if n > 0 {
        lemma_placed_battles(w, done, n - 1);
        lemma_placed_battle(battle::battles_closed(w, done, n - 1), done[n - 1]);
    }
}

/// Every battle of the simulation that ends in something worth an event says where it
/// happened.
pub proof fn lemma_battles_say_where(w: WorldView, results: Seq<Fought>)
    requires
        fights_are_placed(w.events),
    ensures
        fights_are_placed(tick::fought(w, results).events),
{
    let list = battle::all_fought(w.encounters, results);
    let done = list.filter(|e: ActiveView| battle::is_over(e));
    let rest = WorldView {
        encounters: list.filter(|e: ActiveView| !battle::is_over(e)),
        ..w
    };
    lemma_placed_battles(rest, done, done.len() as int);
}

/// Whether two open contracts ask for the same job.
pub open spec fn same_job(a: Contract, b: Contract) -> bool {
    &&& a.spec_is_open()
    &&& b.spec_is_open()
    &&& match (a.kind, b.kind) {
        (
            ContractKind::Delivery { commodity: c, quantity: _ },
            ContractKind::Delivery { commodity: d, quantity: _ },
        ) => a.destination == b.destination && c == d,
        (ContractKind::Courier, ContractKind::Courier) => a.origin == b.origin && a.destination
            == b.destination,
        (
            ContractKind::Bounty { target: _, progress: _ },
            ContractKind::Bounty { target: _, progress: _ },
        ) => a.destination == b.destination,
        _ => false,
    }
}

/// Whether no job is on the board twice.
pub open spec fn no_duplicates(board: Seq<Contract>) -> bool {
    forall|i: int, j: int|
        #![trigger board[i], board[j]]
        0 <= i < j < board.len() ==> !same_job(board[i], board[j])
}

/// A delivery that is posted is not on the board yet.
proof fn lemma_delivery_is_new(w: WorldView, rt: ContractRuntime, reward: Money, i: int)
    requires
        board::delivery(w, rt, reward) is Some,
        0 <= i < w.contracts.len(),
    ensures
        !same_job(w.contracts[i], board::delivery(w, rt, reward)->Some_0),
{
    let (m, c) = board::worst_shortage(w, rt.min_shortfall)->Some_0;
    assert(board::is_worst(w, rt.min_shortfall, m, c));
    assert(board::wants_delivery(w, rt.min_shortfall, m, c));
    let p = |k: Contract| board::open_delivery(k, w.markets[m].system, c);
    assert(!board::on_board(w.contracts, p));
    assert(!p(w.contracts[i]));
}

/// A bounty that is posted is not on the board yet.
proof fn lemma_bounty_is_new(w: WorldView, rt: ContractRuntime, i: int)
    requires
        board::bounty(w, rt) is Some,
        0 <= i < w.contracts.len(),
    ensures
        !same_job(w.contracts[i], board::bounty(w, rt)->Some_0),
{
    let s = board::lair(w)->Some_0;
    let p = |c: Contract| board::open_bounty(c, s);
    assert(!board::on_board(w.contracts, p));
    assert(!p(w.contracts[i]));
}

/// A bounty is posted only at the most dangerous system with pirates present: while one
/// is open there, none is posted anywhere.
pub proof fn lemma_one_bounty_at_the_lair(w: WorldView, rt: ContractRuntime)
    ensures
        board::bounty(w, rt) is Some ==> board::is_lair(
            w,
            board::bounty(w, rt)->Some_0.destination,
        ),
        forall|i: int|
            board::lair(w) is Some && 0 <= i < w.contracts.len() && board::open_bounty(
                #[trigger] w.contracts[i],
                board::lair(w)->Some_0,
            ) ==> board::bounty(w, rt) is None,
{
    assert forall|i: int|
        board::lair(w) is Some && 0 <= i < w.contracts.len() && board::open_bounty(
            #[trigger] w.contracts[i],
            board::lair(w)->Some_0,
        ) implies board::bounty(w, rt) is None by {
        let s = board::lair(w)->Some_0;
        let p = |c: Contract| board::open_bounty(c, s);
        assert(p(w.contracts[i]));
    }
}

/// A courier run that is posted is not on the board yet.
proof fn lemma_courier_is_new(w: WorldView, rt: ContractRuntime, i: int)
    requires
        board::courier(w, rt) is Some,
        0 <= i < w.contracts.len(),
    ensures
        !same_job(w.contracts[i], board::courier(w, rt)->Some_0),
{
    let k = choose|k: int| board::is_turn(w, rt, k);
    assert(board::is_turn(w, rt, k));
    assert(board::runnable(w, rt, k));
    let a = board::courier_origin(w, rt, k);
    let p = |c: Contract| board::open_courier(c, a, board::first_link(w, a)->Some_0);
    assert(!board::on_board(w.contracts, p));
    assert(!p(w.contracts[i]));
}

/// The board never stacks duplicates, and never posts past its cap of open contracts.
pub proof fn lemma_board_is_bounded_and_distinct(w: WorldView, reward: Money)
    requires
        w.contract_runtime is Some,
        no_duplicates(w.contracts),
    ensures
        no_duplicates(board::board_filled(w, reward).contracts),
        board::open_contracts(board::board_filled(w, reward).contracts).len()
            <= board::open_contracts(w.contracts).len() || board::open_contracts(
            board::board_filled(w, reward).contracts,
        ).len() <= w.contract_runtime->Some_0.max_open,
{
    let rt = w.contract_runtime->Some_0;
    let v = board::board_filled(w, reward);
    if board::posting(w, rt) && board::candidate(w, rt, reward) is Some {
        let k = board::candidate(w, rt, reward)->Some_0;
        assert(v.contracts == w.contracts.push(k));
        assert forall|i: int, j: int|
            #![trigger v.contracts[i], v.contracts[j]]
            0 <= i < j < v.contracts.len() implies !same_job(v.contracts[i], v.contracts[j]) by {
            assert(v.contracts[i] == w.contracts[i]);
            if j < w.contracts.len() {
                assert(v.contracts[j] == w.contracts[j]);
            } else {
                if board::delivery(w, rt, reward) is Some {
                    lemma_delivery_is_new(w, rt, reward, i);
                }
                if board::bounty(w, rt) is Some {
                    lemma_bounty_is_new(w, rt, i);
                }
                if board::courier(w, rt) is Some {
                    lemma_courier_is_new(w, rt, i);
                }
            }
        }
        reveal(Seq::filter);
        assert(v.contracts.drop_last() =~= w.contracts);
    }
}

} // verus!
