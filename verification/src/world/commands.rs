//! Applying player commands. Every precondition (ownership, reachability, funds,
//! stock, hold capacity) is checked, because commands are untrusted input.

use vstd::prelude::*;

use crate::by_id::ById;
use crate::command::{Command, CommandError};
use crate::contract::{Contract, ContractKind, ContractState};
use crate::event;
use crate::event::EventCategory;
use crate::finance::{Future, FutureSide, Loan, Policy};
use crate::ids::{
    CommodityId, ContractId, LoanId, Money, Owner, PatrolId, PlayerId, Quantity, ShipId, SystemId,
    Tick, TraderId,
};
use crate::market;
use crate::market::MarketView;
use crate::money;
use crate::patrol::Patrol;
use crate::registry::Registry;
use crate::search;
use crate::trader;
use crate::trader::{Trader, TraderLocation, TraderView};
use crate::world::messages;
use crate::world::{World, WorldView};

verus! {

/// The slot of a trader.
pub open spec fn trader_slot(traders: Seq<TraderView>, id: TraderId) -> Option<int> {
    search::first(traders, |t: TraderView| t.id == id)
}

/// The slot of a player's trader; a stale id is unknown.
pub open spec fn owned_slot(w: WorldView, id: TraderId, player: PlayerId) -> Result<
    int,
    CommandError,
> {
    match trader_slot(w.traders, id) {
        None => Err(CommandError::UnknownTrader),
        Some(i) => if w.traders[i].owner == Owner::Player(player) {
            Ok(i)
        } else {
            Err(CommandError::NotOwner)
        },
    }
}

/// The system a trader is docked at.
pub open spec fn docked(t: TraderView) -> Result<SystemId, CommandError> {
    match t.location {
        TraderLocation::Docked(s) => Ok(s),
        _ => Err(CommandError::NotDocked),
    }
}

/// The mass of the goods with an id below `n` in a hold.
pub open spec fn mass_below(reg: Registry, cargo: Map<CommodityId, Quantity>, n: int) -> int
    decreases n,
{
    if n <= 0 {
        0
    } else {
        let c = CommodityId((n - 1) as u32);
        mass_below(reg, cargo, n - 1) + trader::held(cargo, c)
            * reg.spec_commodities()[n - 1].unit_mass
    }
}

/// The mass of everything in a hold.
pub open spec fn hold_mass(reg: Registry, cargo: Map<CommodityId, Quantity>) -> int {
    mass_below(reg, cargo, reg.spec_commodities().len() as int)
}

/// The world after trader `i` has paid its escort for a jump.
pub open spec fn escort_charged(w: WorldView, i: int) -> WorldView {
    match w.escort {
        None => w,
        Some(e) => if e.fee == 0 {
            w
        } else {
            let t = w.traders[i];
            WorldView {
                piracy_stats: crate::world::PiracyStats {
                    escort_fees_paid: money::wrapped(w.piracy_stats.escort_fees_paid + e.fee),
                    ..w.piracy_stats
                },
                ..w.with_trader(
                    i,
                    TraderView { capital: money::wrapped(t.capital - e.fee), ..t },
                )
            }
        },
    }
}

/// The world after trader `i` has departed for `dest`, its escort paid.
pub open spec fn departed(w: WorldView, i: int, from: SystemId, dest: SystemId) -> WorldView {
    let t = w.traders[i];
    let location = TraderLocation::InTransit {
        origin: from,
        dest,
        departure: w.tick,
        arrival: w.tick.spec_plus(w.tables.spec_travel(t.ship, from, dest)),
    };
    escort_charged(w.with_trader(i, TraderView { location, ..t }), i)
}

pub open spec fn apply_spawn(
    w: WorldView,
    player: PlayerId,
    ship: ShipId,
    at: SystemId,
    capital: Money,
) -> Result<WorldView, CommandError> {
    if ship.0 >= w.ships() {
        Err(CommandError::UnknownShip)
    } else if at.0 >= w.systems() {
        Err(CommandError::InvalidSystem)
    } else {
        Ok(
            WorldView {
                traders: w.traders.push(
                    TraderView::fresh(
                        TraderId(w.next_trader_id),
                        ship,
                        capital,
                        at,
                        Owner::Player(player),
                    ),
                ),
                next_trader_id: w.next_trader_id.wrapping_add(1),
                ..w
            },
        )
    }
}

pub open spec fn apply_despawn(w: WorldView, player: PlayerId, trader: TraderId) -> Result<
    WorldView,
    CommandError,
> {
    match owned_slot(w, trader, player) {
        Err(e) => Err(e),
        Ok(i) => Ok(WorldView { traders: w.traders.remove(i), ..w }),
    }
}

pub open spec fn apply_jump(
    w: WorldView,
    player: PlayerId,
    trader: TraderId,
    dest: SystemId,
) -> Result<WorldView, CommandError> {
    match owned_slot(w, trader, player) {
        Err(e) => Err(e),
        Ok(i) => match docked(w.traders[i]) {
            Err(e) => Err(e),
            Ok(sys) => if dest.0 >= w.systems() {
                Err(CommandError::InvalidSystem)
            } else if !w.registry.spec_systems()[sys.0 as int].connections@.contains(dest) {
                Err(CommandError::Unreachable)
            } else {
                Ok(departed(w, i, sys, dest))
            },
        },
    }
}

pub open spec fn apply_buy(
    w: WorldView,
    player: PlayerId,
    trader: TraderId,
    commodity: CommodityId,
    qty: Quantity,
) -> Result<WorldView, CommandError> {
    if qty == 0 {
        Err(CommandError::ZeroQuantity)
    } else {
        match owned_slot(w, trader, player) {
            Err(e) => Err(e),
            Ok(i) => match docked(w.traders[i]) {
                Err(e) => Err(e),
                Ok(sys) => {
                    let t = w.traders[i];
                    let m = w.markets[sys.0 as int];
                    match m.price(commodity) {
                        None => Err(CommandError::UnknownGood),
                        Some(price) => if m.stock(commodity) < qty {
                            Err(CommandError::InsufficientStock)
                        } else if t.capital < price * qty {
                            Err(CommandError::InsufficientFunds)
                        } else if hold_mass(w.registry, t.cargo) + qty
                            * w.registry.spec_commodities()[commodity.0 as int].unit_mass
                            > w.registry.spec_ships()[t.ship.0 as int].cargo_capacity {
                            Err(CommandError::OverCapacity)
                        } else {
                            Ok(
                                w.with_market(
                                    sys.0 as int,
                                    m.with_stock(commodity, (m.stock(commodity) - qty) as u32),
                                ).with_trader(
                                    i,
                                    TraderView {
                                        capital: (t.capital - price * qty) as i64,
                                        cargo: t.cargo.insert(
                                            commodity,
                                            market::stocked(trader::held(t.cargo, commodity), qty),
                                        ),
                                        ..t
                                    },
                                ),
                            )
                        },
                    }
                },
            },
        }
    }
}

pub open spec fn apply_sell(
    w: WorldView,
    player: PlayerId,
    trader: TraderId,
    commodity: CommodityId,
    qty: Quantity,
) -> Result<WorldView, CommandError> {
    if qty == 0 {
        Err(CommandError::ZeroQuantity)
    } else {
        match owned_slot(w, trader, player) {
            Err(e) => Err(e),
            Ok(i) => match docked(w.traders[i]) {
                Err(e) => Err(e),
                Ok(sys) => {
                    let t = w.traders[i];
                    let m = w.markets[sys.0 as int];
                    if trader::held(t.cargo, commodity) < qty {
                        Err(CommandError::InsufficientCargo)
                    } else {
                        match m.price(commodity) {
                            None => Err(CommandError::UnknownGood),
                            Some(price) => Ok(
                                w.with_market(sys.0 as int, m.added(commodity, qty)).with_trader(
                                    i,
                                    TraderView {
                                        capital: money::wrapped(t.capital + price * qty),
                                        cargo: trader::with_units(
                                            t.cargo,
                                            commodity,
                                            (trader::held(t.cargo, commodity) - qty) as u32,
                                        ),
                                        ..t
                                    },
                                ),
                            ),
                        }
                    }
                },
            },
        }
    }
}

/// How many units of a good of `unit_mass` fit into `free` space, out of `qty`.
pub open spec fn fitting(free: int, unit_mass: u32, qty: Quantity) -> Quantity {
    if unit_mass == 0 || qty * unit_mass <= free {
        qty
    } else if free <= 0 {
        0
    } else {
        (free / unit_mass as int) as u32
    }
}

pub open spec fn apply_scoop(
    w: WorldView,
    player: PlayerId,
    trader: TraderId,
    commodity: CommodityId,
    qty: Quantity,
) -> Result<WorldView, CommandError> {
    if qty == 0 {
        Err(CommandError::ZeroQuantity)
    } else {
        match owned_slot(w, trader, player) {
            Err(e) => Err(e),
            Ok(i) => if commodity.0 >= w.commodities() {
                Err(CommandError::UnknownGood)
            } else {
                let t = w.traders[i];
                let free = w.registry.spec_ships()[t.ship.0 as int].cargo_capacity - hold_mass(
                    w.registry,
                    t.cargo,
                );
                let taken = fitting(
                    free,
                    w.registry.spec_commodities()[commodity.0 as int].unit_mass,
                    qty,
                );
                if taken == 0 {
                    Err(CommandError::OverCapacity)
                } else {
                    Ok(
                        w.with_trader(
                            i,
                            TraderView {
                                cargo: t.cargo.insert(
                                    commodity,
                                    market::stocked(trader::held(t.cargo, commodity), taken),
                                ),
                                ..t
                            },
                        ),
                    )
                }
            },
        }
    }
}

/// The slot of a contract on the board; a stale id is unknown.
pub open spec fn contract_slot(contracts: Seq<Contract>, id: ContractId) -> Option<int> {
    search::first(contracts, |c: Contract| c.id == id)
}

pub open spec fn apply_accept(
    w: WorldView,
    player: PlayerId,
    trader: TraderId,
    contract: ContractId,
) -> Result<WorldView, CommandError> {
    match owned_slot(w, trader, player) {
        Err(e) => Err(e),
        Ok(i) => match contract_slot(w.contracts, contract) {
            None => Err(CommandError::UnknownContract),
            Some(ci) => if !w.contracts[ci].spec_is_open() {
                Err(CommandError::ContractUnavailable)
            } else {
                let c = w.contracts[ci];
                Ok(
                    WorldView {
                        contracts: w.contracts.update(
                            ci,
                            Contract { state: ContractState::Accepted { player, trader }, ..c },
                        ),
                        ..w
                    }.log(
                        EventCategory::System,
                        Some(c.destination),
                        messages::accepted(contract, trader),
                    ),
                )
            },
        },
    }
}

/// What a trader holds of the good a contract asks for; none where it asks for none.
pub open spec fn held_for(c: Contract, cargo: Map<CommodityId, Quantity>) -> Quantity {
    match c.spec_cargo() {
        Some((commodity, _)) => trader::held(cargo, commodity),
        None => 0,
    }
}

/// A hold after a contract's goods have been handed over.
pub open spec fn handed_over(c: Contract, cargo: Map<CommodityId, Quantity>) -> Map<
    CommodityId,
    Quantity,
> {
    match c.spec_cargo() {
        Some((commodity, quantity)) => trader::with_units(
            cargo,
            commodity,
            (trader::held(cargo, commodity) - quantity) as u32,
        ),
        None => cargo,
    }
}

pub open spec fn apply_fulfill(
    w: WorldView,
    player: PlayerId,
    trader: TraderId,
    contract: ContractId,
) -> Result<WorldView, CommandError> {
    match owned_slot(w, trader, player) {
        Err(e) => Err(e),
        Ok(i) => match contract_slot(w.contracts, contract) {
            None => Err(CommandError::UnknownContract),
            Some(ci) => {
                let c = w.contracts[ci];
                let t = w.traders[i];
                if c.spec_holder() != Some((player, trader)) {
                    Err(CommandError::ContractNotHeld)
                } else if w.tick.0 > c.deadline.0 {
                    Err(CommandError::ContractExpired)
                } else {
                    match docked(t) {
                        Err(e) => Err(e),
                        Ok(sys) => if sys != c.destination {
                            Err(CommandError::WrongDestination)
                        } else if !c.spec_condition_met(held_for(c, t.cargo)) {
                            if c.kind is Delivery {
                                Err(CommandError::InsufficientCargo)
                            } else {
                                Err(CommandError::BountyIncomplete)
                            }
                        } else {
                            Ok(
                                WorldView {
                                    contracts: w.contracts.remove(ci),
                                    ..w.with_trader(
                                        i,
                                        TraderView {
                                            capital: money::wrapped(t.capital + c.reward),
                                            cargo: handed_over(c, t.cargo),
                                            ..t
                                        },
                                    )
                                }.log(
                                    EventCategory::System,
                                    Some(sys),
                                    messages::fulfilled(contract, trader, c.reward),
                                ),
                            )
                        },
                    }
                }
            },
        },
    }
}

/// The loans of a trader.
pub open spec fn loans_of(loans: Seq<Loan>, trader: TraderId) -> Seq<Loan> {
    loans.filter(|l: Loan| l.borrower == trader)
}

pub open spec fn apply_take_loan(
    w: WorldView,
    player: PlayerId,
    trader: TraderId,
    principal: Money,
) -> Result<WorldView, CommandError> {
    match w.loan_runtime {
        None => Err(CommandError::LendingUnavailable),
        Some(rt) => match owned_slot(w, trader, player) {
            Err(e) => Err(e),
            Ok(i) => match docked(w.traders[i]) {
                Err(e) => Err(e),
                Ok(_) => if principal <= 0 {
                    Err(CommandError::ZeroQuantity)
                } else if principal > rt.max_principal {
                    Err(CommandError::LoanTooLarge)
                } else if loans_of(w.loans, trader).len() >= rt.max_loans {
                    Err(CommandError::TooManyLoans)
                } else {
                    let t = w.traders[i];
                    let id = LoanId(w.next_loan_id);
                    Ok(
                        WorldView {
                            loans: w.loans.push(
                                Loan {
                                    id,
                                    player,
                                    borrower: trader,
                                    principal,
                                    outstanding: principal,
                                    due: w.tick.spec_plus(rt.term_ticks),
                                },
                            ),
                            next_loan_id: w.next_loan_id.wrapping_add(1),
                            ..w.with_trader(
                                i,
                                TraderView {
                                    capital: money::wrapped(t.capital + principal),
                                    ..t
                                },
                            )
                        }.log(
                            EventCategory::System,
                            None,
                            messages::borrowed(id, principal, trader),
                        ),
                    )
                },
            },
        },
    }
}

/// The slot of a loan; a stale id is unknown.
pub open spec fn loan_slot(loans: Seq<Loan>, id: LoanId) -> Option<int> {
    search::first(loans, |l: Loan| l.id == id)
}

pub open spec fn apply_repay(
    w: WorldView,
    player: PlayerId,
    trader: TraderId,
    loan: LoanId,
    amount: Money,
) -> Result<WorldView, CommandError> {
    match owned_slot(w, trader, player) {
        Err(e) => Err(e),
        Ok(i) => if amount <= 0 {
            Err(CommandError::ZeroQuantity)
        } else {
            match loan_slot(w.loans, loan) {
                None => Err(CommandError::UnknownLoan),
                Some(li) => {
                    let l = w.loans[li];
                    let t = w.traders[i];
                    let pay = if amount < l.outstanding {
                        amount
                    } else {
                        l.outstanding
                    };
                    let remaining = (l.outstanding - pay) as i64;
                    if !l.spec_held_by(player, trader) {
                        Err(CommandError::LoanNotHeld)
                    } else if t.capital < pay {
                        Err(CommandError::InsufficientFunds)
                    } else {
                        Ok(
                            WorldView {
                                loans: if remaining == 0 {
                                    w.loans.remove(li)
                                } else {
                                    w.loans.update(li, Loan { outstanding: remaining, ..l })
                                },
                                ..w.with_trader(
                                    i,
                                    TraderView { capital: money::wrapped(t.capital - pay), ..t },
                                )
                            }.log(
                                EventCategory::System,
                                None,
                                messages::repaid(loan, pay, trader, remaining),
                            ),
                        )
                    }
                },
            }
        },
    }
}

/// The slot of the policy on a trader.
pub open spec fn policy_slot(policies: Seq<Policy>, trader: TraderId) -> Option<int> {
    search::first(policies, |p: Policy| p.insured == trader)
}

pub open spec fn apply_insure(w: WorldView, player: PlayerId, trader: TraderId) -> Result<
    WorldView,
    CommandError,
> {
    match w.insurance_runtime {
        None => Err(CommandError::InsuranceUnavailable),
        Some(rt) => match owned_slot(w, trader, player) {
            Err(e) => Err(e),
            Ok(i) => match docked(w.traders[i]) {
                Err(e) => Err(e),
                Ok(_) => {
                    let t = w.traders[i];
                    if policy_slot(w.policies, trader) is Some {
                        Err(CommandError::AlreadyInsured)
                    } else if t.capital < rt.premium {
                        Err(CommandError::InsufficientFunds)
                    } else {
                        Ok(
                            WorldView {
                                policies: w.policies.push(
                                    Policy {
                                        player,
                                        insured: trader,
                                        payout: rt.payout,
                                        expiry: w.tick.spec_plus(rt.term_ticks),
                                    },
                                ),
                                ..w.with_trader(
                                    i,
                                    TraderView {
                                        capital: money::wrapped(t.capital - rt.premium),
                                        ..t
                                    },
                                )
                            }.log(
                                EventCategory::System,
                                None,
                                messages::insured(trader, rt.payout, rt.premium),
                            ),
                        )
                    }
                },
            },
        },
    }
}

/// The sum of the prices of `c` over the first `n` markets.
pub open spec fn price_sum(markets: Seq<MarketView>, c: CommodityId, n: int) -> int
    decreases n,
{
    if n <= 0 {
        0
    } else {
        price_sum(markets, c, n - 1) + (match markets[n - 1].price(c) {
            Some(p) => p as int,
            None => 0,
        })
    }
}

/// How many of the first `n` markets trade `c`.
pub open spec fn traded_at(markets: Seq<MarketView>, c: CommodityId, n: int) -> int
    decreases n,
{
    if n <= 0 {
        0
    } else {
        traded_at(markets, c, n - 1) + (if markets[n - 1].price(c) is Some {
            1int
        } else {
            0
        })
    }
}

/// The galaxy reference price of a commodity: the mean spot price over every market
/// that trades it, or `None` if none does.
pub open spec fn mean_price(markets: Seq<MarketView>, c: CommodityId) -> Option<Money> {
    let n = markets.len() as int;
    if traded_at(markets, c, n) > 0 {
        Some((price_sum(markets, c, n) / traded_at(markets, c, n)) as i64)
    } else {
        None
    }
}

/// The futures of a trader.
pub open spec fn futures_of(futures: Seq<Future>, trader: TraderId) -> Seq<Future> {
    futures.filter(|f: Future| f.holder == trader)
}

pub open spec fn apply_open_future(
    w: WorldView,
    player: PlayerId,
    trader: TraderId,
    commodity: CommodityId,
    qty: Quantity,
    side: FutureSide,
) -> Result<WorldView, CommandError> {
    match w.future_runtime {
        None => Err(CommandError::FuturesUnavailable),
        Some(rt) => match owned_slot(w, trader, player) {
            Err(e) => Err(e),
            Ok(i) => match docked(w.traders[i]) {
                Err(e) => Err(e),
                Ok(_) => {
                    let t = w.traders[i];
                    if qty == 0 {
                        Err(CommandError::ZeroQuantity)
                    } else if qty > rt.max_quantity {
                        Err(CommandError::FutureTooLarge)
                    } else if futures_of(w.futures, trader).len() >= rt.max_futures {
                        Err(CommandError::TooManyFutures)
                    } else {
                        match mean_price(w.markets, commodity) {
                            None => Err(CommandError::UnknownGood),
                            Some(strike) => if t.capital < rt.fee {
                                Err(CommandError::InsufficientFunds)
                            } else {
                                Ok(
                                    WorldView {
                                        futures: w.futures.push(
                                            Future {
                                                player,
                                                holder: trader,
                                                commodity,
                                                quantity: qty,
                                                side,
                                                strike,
                                                maturity: w.tick.spec_plus(rt.term_ticks),
                                            },
                                        ),
                                        ..w.with_trader(
                                            i,
                                            TraderView {
                                                capital: money::wrapped(t.capital - rt.fee),
                                                ..t
                                            },
                                        )
                                    }.log(
                                        EventCategory::System,
                                        None,
                                        messages::opened(
                                            trader,
                                            side,
                                            qty,
                                            w.registry.spec_commodity_name(commodity),
                                            strike,
                                            rt.fee,
                                        ),
                                    ),
                                )
                            },
                        }
                    }
                },
            },
        },
    }
}

/// A contract after the trader `trader` has destroyed `kills` pirates: progress of a
/// bounty it holds advances, up to the target.
pub open spec fn credited(c: Contract, trader: TraderId, kills: int) -> Contract {
    match c.kind {
        ContractKind::Bounty { target, progress } => if c.spec_held_by() == Some(trader) {
            Contract {
                kind: ContractKind::Bounty {
                    target,
                    progress: if progress + kills < target {
                        (progress + kills) as u32
                    } else {
                        target
                    },
                },
                ..c
            }
        } else {
            c
        },
        _ => c,
    }
}

/// Whether `kills` more meet the quota of a bounty that `trader` holds.
pub open spec fn quota_met(c: Contract, trader: TraderId, kills: int) -> bool {
    match c.kind {
        ContractKind::Bounty { target, progress } => c.spec_held_by() == Some(trader) && progress
            < target <= progress + kills,
        _ => false,
    }
}

/// The board after `trader` has destroyed `kills` pirates.
pub open spec fn board_credited(board: Seq<Contract>, trader: TraderId, kills: int) -> Seq<
    Contract,
> {
    Seq::new(board.len(), |i: int| credited(board[i], trader, kills))
}

/// The world after logging the quota of each of the first `n` contracts of `met`.
pub open spec fn quotas_logged(
    w: WorldView,
    met: Seq<Contract>,
    n: int,
    trader: TraderId,
    at: Option<SystemId>,
    ending: Seq<char>,
) -> WorldView
    decreases n,
{
    if n <= 0 {
        w
    } else {
        quotas_logged(w, met, n - 1, trader, at, ending).log(
            EventCategory::System,
            at,
            messages::quota(met[n - 1].id, trader, ending),
        )
    }
}

/// The slot of a patrol in its fleet.
pub open spec fn patrol_slot(fleet: Seq<Patrol>, id: PatrolId) -> Option<int> {
    search::first(fleet, |p: Patrol| p.id == id)
}

pub open spec fn apply_destroyed_pirate(
    w: WorldView,
    player: PlayerId,
    trader: TraderId,
    pirate: PatrolId,
) -> Result<WorldView, CommandError> {
    match owned_slot(w, trader, player) {
        Err(e) => Err(e),
        Ok(i) => match patrol_slot(w.pirates, pirate) {
            None => Err(CommandError::UnknownPatrol),
            Some(pi) => {
                let t = w.traders[i];
                let at = w.pirates[pi].spec_docked_at();
                let bounty = match w.piracy {
                    Some(p) => p.bounty,
                    None => 0,
                };
                let met = w.contracts.filter(|c: Contract| quota_met(c, trader, 1));
                let settled = WorldView {
                    pirates: w.pirates.remove(pi),
                    piracy_stats: crate::world::PiracyStats {
                        pirates_destroyed: w.piracy_stats.pirates_destroyed.wrapping_add(1),
                        bounties_paid: money::wrapped(w.piracy_stats.bounties_paid + bounty),
                        ..w.piracy_stats
                    },
                    contracts: board_credited(w.contracts, trader, 1),
                    ..w.with_trader(
                        i,
                        TraderView { capital: money::wrapped(t.capital + bounty), ..t },
                    )
                }.log(EventCategory::Combat, at, messages::killed(trader, bounty));
                Ok(quotas_logged(settled, met, met.len() as int, trader, at, ""@))
            },
        },
    }
}

/// Whether a policy covers a loss on this tick: it does until its expiry tick is over.
pub open spec fn covers(p: Policy, now: Tick) -> bool {
    now.0 <= p.expiry.0
}

/// The world after the policy on `trader`, which stands at slot `i`, has paid for its
/// loss; the policy is used up. One that has expired pays nothing.
pub open spec fn insurance_paid(
    w: WorldView,
    i: int,
    trader: TraderId,
    at: Option<SystemId>,
) -> WorldView {
    match policy_slot(w.policies, trader) {
        None => w,
        Some(pi) => if covers(w.policies[pi], w.tick) {
            let payout = w.policies[pi].payout;
            let t = w.traders[i];
            WorldView {
                policies: w.policies.remove(pi),
                ..w.with_trader(
                    i,
                    TraderView { capital: money::wrapped(t.capital + payout), ..t },
                )
            }.log(EventCategory::System, at, messages::compensated(trader, payout))
        } else {
            w
        },
    }
}

/// The world after trader `i` is destroyed: cargo lost, respawn scheduled.
pub open spec fn trader_lost(w: WorldView, i: int, respawn_delay: u64) -> WorldView {
    let t = w.traders[i];
    WorldView {
        piracy_stats: crate::world::PiracyStats {
            traders_lost: w.piracy_stats.traders_lost.wrapping_add(1),
            ..w.piracy_stats
        },
        ..w.with_trader(
            i,
            TraderView {
                cargo: Map::empty(),
                location: TraderLocation::Destroyed { respawn: w.tick.spec_plus(respawn_delay) },
                ..t
            },
        )
    }
}

/// Where a trader is or is bound for.
pub open spec fn whereabouts(t: TraderView) -> Option<SystemId> {
    match t.location {
        TraderLocation::Docked(s) => Some(s),
        TraderLocation::InTransit { origin, dest, departure, arrival } => Some(dest),
        TraderLocation::Destroyed { respawn } => None,
    }
}

pub open spec fn apply_trader_destroyed(w: WorldView, player: PlayerId, trader: TraderId) -> Result<
    WorldView,
    CommandError,
> {
    match owned_slot(w, trader, player) {
        Err(e) => Err(e),
        Ok(i) => {
            let delay = match w.piracy {
                Some(p) => p.respawn_delay,
                None => 50,
            };
            let at = whereabouts(w.traders[i]);
            Ok(
                insurance_paid(
                    trader_lost(w, i, delay).log(
                        EventCategory::Piracy,
                        at,
                        messages::lost(trader),
                    ),
                    i,
                    trader,
                    at,
                ),
            )
        },
    }
}

/// What a command comes to: the world after it, or why it is rejected.
#[verifier::opaque]
pub open spec fn applied(w: WorldView, command: Command) -> Result<WorldView, CommandError> {
    match command {
        Command::Spawn { player, ship, at, capital } => apply_spawn(w, player, ship, at, capital),
        Command::Despawn { player, trader } => apply_despawn(w, player, trader),
        Command::Jump { player, trader, dest } => apply_jump(w, player, trader, dest),
        Command::Buy { player, trader, commodity, qty } => apply_buy(
            w,
            player,
            trader,
            commodity,
            qty,
        ),
        Command::Sell { player, trader, commodity, qty } => apply_sell(
            w,
            player,
            trader,
            commodity,
            qty,
        ),
        Command::AcceptContract { player, trader, contract } => apply_accept(
            w,
            player,
            trader,
            contract,
        ),
        Command::FulfillContract { player, trader, contract } => apply_fulfill(
            w,
            player,
            trader,
            contract,
        ),
        Command::TakeLoan { player, trader, principal } => apply_take_loan(
            w,
            player,
            trader,
            principal,
        ),
        Command::RepayLoan { player, trader, loan, amount } => apply_repay(
            w,
            player,
            trader,
            loan,
            amount,
        ),
        Command::BuyInsurance { player, trader } => apply_insure(w, player, trader),
        Command::OpenFuture { player, trader, commodity, qty, side } => apply_open_future(
            w,
            player,
            trader,
            commodity,
            qty,
            side,
        ),
        Command::DestroyedPirate { player, trader, pirate } => apply_destroyed_pirate(
            w,
            player,
            trader,
            pirate,
        ),
        Command::TraderDestroyed { player, trader } => apply_trader_destroyed(w, player, trader),
        Command::ScoopCargo { player, trader, commodity, qty } => apply_scoop(
            w,
            player,
            trader,
            commodity,
            qty,
        ),
    }
}

/// Whether a command came to what it should: accepted, the world is the one it leads
/// to; rejected, the world is untouched.
pub open spec fn settles(
    before: WorldView,
    want: Result<WorldView, CommandError>,
    after: WorldView,
    r: Result<(), CommandError>,
) -> bool {
    match r {
        Ok(_) => want == Ok::<WorldView, CommandError>(after),
        Err(e) => want == Err::<WorldView, CommandError>(e) && after == before,
    }
}

impl World {
    /// Resolve a trader id to its current slot, checking it exists and is owned by
    /// `player`. A stale id resolves to `UnknownTrader`.
    pub(crate) fn owned_trader_index(&self, id: TraderId, player: PlayerId) -> (r: Result<
        usize,
        CommandError,
    >)
        ensures
            match r {
                Ok(i) => i < self.traders@.len() && i < self@.traders.len() && owned_slot(
                    self@,
                    id,
                    player,
                ) == Ok::<int, CommandError>(i as int) && self@.traders[i as int]
                    == self.traders@[i as int]@,
                Err(e) => owned_slot(self@, id, player) == Err::<int, CommandError>(e),
            },
    {
        let ghost p = |t: TraderView| t.id == id;
        match self.trader_index(id) {
            Some(i) => {
                if self.traders[i].owner == Owner::Player(player) {
                    Ok(i)
                } else {
                    Err(CommandError::NotOwner)
                }
            },
            None => Err(CommandError::UnknownTrader),
        }
    }

    /// The current slot of a trader.
    pub(crate) fn trader_index(&self, id: TraderId) -> (r: Option<usize>)
        ensures
            match r {
                Some(i) => i < self.traders@.len() && i < self@.traders.len() && trader_slot(
                    self@.traders,
                    id,
                ) == Some(i as int) && self@.traders[i as int] == self.traders@[i as int]@,
                None => trader_slot(self@.traders, id) is None,
            },
    {
        let ghost p = |t: TraderView| t.id == id;
        let mut i: usize = 0;
        while i < self.traders.len()
            invariant
                i <= self.traders@.len(),
                self@.traders == trader::trader_views(self.traders@),
                p == (|t: TraderView| t.id == id),
                forall|j: int| 0 <= j < i ==> !p(#[trigger] self@.traders[j]),
            decreases self.traders@.len() - i,
        {
            if self.traders[i].id == id {
                proof {
                    search::lemma_first_is(self@.traders, p, i as int);
                }
                return Some(i);
            }
            i = i + 1;
        }
        proof {
            search::lemma_first_none(self@.traders, p);
        }
        None
    }

    /// The system a trader is docked at, or `NotDocked`.
    pub(crate) fn docked_system(&self, idx: usize) -> (r: Result<SystemId, CommandError>)
        requires
            self@.wf(),
            idx < self.traders@.len(),
        ensures
            r == docked(self@.traders[idx as int]),
            r is Ok ==> r->Ok_0.0 < self@.systems(),
    {
        match self.traders[idx].location {
            TraderLocation::Docked(sys) => {
                assert(self@.trader_ok(self@.traders[idx as int]));
                Ok(sys)
            },
            _ => Err(CommandError::NotDocked),
        }
    }

    /// Charge the trader at slot `i` its escort fee, if escorts are configured.
    pub(crate) fn charge_escort(&mut self, i: usize)
        requires
            i < old(self).traders@.len(),
        ensures
            final(self)@ == escort_charged(old(self)@, i as int),
            final(self).traders@.len() == old(self).traders@.len(),
    {
        match self.escort {
            None => {},
            Some(e) => {
                if e.fee != 0 {
                    let capital = money::charge(self.traders[i].capital, e.fee);
                    self.traders[i].capital = capital;
                    self.piracy_stats.escort_fees_paid = money::credit(
                        self.piracy_stats.escort_fees_paid,
                        e.fee,
                    );
                }
            },
        }
        assert(self@ =~= escort_charged(old(self)@, i as int));
    }
}

/// The current slot of a patrol in its fleet.
pub(crate) fn patrol_index(fleet: &Vec<Patrol>, id: PatrolId) -> (r: Option<usize>)
    ensures
        match r {
            Some(i) => i < fleet@.len() && patrol_slot(fleet@, id) == Some(i as int),
            None => patrol_slot(fleet@, id) is None,
        },
{
    let ghost p = |q: Patrol| q.id == id;
    let mut i: usize = 0;
    while i < fleet.len()
        invariant
            i <= fleet@.len(),
            p == (|q: Patrol| q.id == id),
            forall|j: int| 0 <= j < i ==> !p(#[trigger] fleet@[j]),
        decreases fleet@.len() - i,
    {
        if fleet[i].id == id {
            proof {
                search::lemma_first_is(fleet@, p, i as int);
            }
            return Some(i);
        }
        i = i + 1;
    }
    proof {
        search::lemma_first_none(fleet@, p);
    }
    None
}

proof fn lemma_mass_nonneg(reg: Registry, cargo: Map<CommodityId, Quantity>, n: int)
    ensures
        mass_below(reg, cargo, n) >= 0,
    decreases n,
{
    if n > 0 {
        lemma_mass_nonneg(reg, cargo, n - 1);
        let c = CommodityId((n - 1) as u32);
        let q = trader::held(cargo, c) as int;
        let u = reg.spec_commodities()[n - 1].unit_mass as int;
        assert(q * u >= 0) by (nonlinear_arith)
            requires
                q >= 0,
                u >= 0,
        ;
    }
}

/// The mass of a hold.
pub fn hold_used(reg: &Registry, cargo: &ById<Quantity>) -> (used: u128)
    requires
        reg.wf(),
    ensures
        used == hold_mass(*reg, cargo@),
        used <= 0x1_0000_0000u128 * 0x1_0000_0000_0000_0000u128,
{
    let n = reg.commodity_count();
    let mut used: u128 = 0;
    let mut k: usize = 0;
    while k < n
        invariant
            k <= n,
            n == reg.spec_commodities().len(),
            n <= u32::MAX,
            used == mass_below(*reg, cargo@, k as int),
            used <= k * 0x1_0000_0000_0000_0000,
        decreases n - k,
    {
        let c = CommodityId(k as u32);
        let q: u32 = match cargo.get(&c) {
            Some(q) => *q,
            None => 0,
        };
        let mass = reg.commodity(c).unit_mass;
        assert(0 <= q * mass <= 0x1_0000_0000_0000_0000) by (nonlinear_arith)
            requires
                0 <= q <= 0x1_0000_0000,
                0 <= mass <= 0x1_0000_0000,
        ;
        used = used + (q as u128) * (mass as u128);
        k = k + 1;
    }
    assert(used <= 0x1_0000_0000 * 0x1_0000_0000_0000_0000);
    used
}

impl World {
    fn spawn(&mut self, player: PlayerId, ship: ShipId, at: SystemId, capital: Money) -> (r: Result<
        (),
        CommandError,
    >)
        requires
            old(self)@.wf(),
        ensures
            settles(
                old(self)@,
                apply_spawn(old(self)@, player, ship, at, capital),
                final(self)@,
                r,
            ),
            final(self)@.wf(),
    {
        if ship.index() >= self.registry.ship_count() {
            return Err(CommandError::UnknownShip);
        }
        if at.index() >= self.registry.system_count() {
            return Err(CommandError::InvalidSystem);
        }
        let id = TraderId(self.next_trader_id);
        self.next_trader_id = self.next_trader_id.wrapping_add(1);
        self.traders.push(Trader::owned(id, ship, capital, at, player));
        assert(self@ =~= apply_spawn(old(self)@, player, ship, at, capital)->Ok_0);
        Ok(())
    }

    fn despawn(&mut self, player: PlayerId, trader: TraderId) -> (r: Result<(), CommandError>)
        requires
            old(self)@.wf(),
        ensures
            settles(old(self)@, apply_despawn(old(self)@, player, trader), final(self)@, r),
            final(self)@.wf(),
    {
        let idx = match self.owned_trader_index(trader, player) {
            Ok(i) => i,
            Err(e) => {
                return Err(e);
            },
        };
        let _retired = self.traders.remove(idx);
        assert(self@ =~= apply_despawn(old(self)@, player, trader)->Ok_0);
        assert(self@.wf());
        Ok(())
    }

    /// Send the trader at slot `idx` from `sys` to `dest`.
    pub(crate) fn depart(&mut self, idx: usize, sys: SystemId, dest: SystemId)
        requires
            old(self)@.wf(),
            idx < old(self).traders@.len(),
            dest.0 < old(self)@.systems(),
        ensures
            final(self)@ == departed(old(self)@, idx as int, sys, dest),
            final(self)@.wf(),
            final(self).traders@.len() == old(self).traders@.len(),
    {
        let ship = self.traders[idx].ship;
        let travel = self.tables.travel_between(ship, sys, dest);
        let location = TraderLocation::InTransit {
            origin: sys,
            dest,
            departure: self.tick,
            arrival: self.tick.plus(travel),
        };
        self.traders[idx].location = location;
        assert(self@ =~= old(self)@.with_trader(
            idx as int,
            TraderView { location, ..old(self)@.traders[idx as int] },
        ));
        self.charge_escort(idx);
    }

    fn jump(&mut self, player: PlayerId, trader: TraderId, dest: SystemId) -> (r: Result<
        (),
        CommandError,
    >)
        requires
            old(self)@.wf(),
        ensures
            settles(old(self)@, apply_jump(old(self)@, player, trader, dest), final(self)@, r),
            final(self)@.wf(),
    {
        let idx = match self.owned_trader_index(trader, player) {
            Ok(i) => i,
            Err(e) => {
                return Err(e);
            },
        };
        let sys = match self.docked_system(idx) {
            Ok(s) => s,
            Err(e) => {
                return Err(e);
            },
        };
        if dest.index() >= self.registry.system_count() {
            return Err(CommandError::InvalidSystem);
        }
        let connections = &self.registry.system(sys).connections;
        let mut reachable = false;
        let mut k: usize = 0;
        while k < connections.len()
            invariant
                k <= connections@.len(),
                reachable == connections@.take(k as int).contains(dest),
            decreases connections@.len() - k,
        {
            proof {
                let next = connections@.take(k + 1);
                assert(next[k as int] == connections@[k as int]);
                assert(next =~= connections@.take(k as int).push(connections@[k as int]));
                if connections@.take(k as int).contains(dest) {
                    let m = connections@.take(k as int).index_of(dest);
                    assert(next[m] == dest);
                }
                if next.contains(dest) && connections@[k as int] != dest {
                    let m = next.index_of(dest);
                    assert(connections@.take(k as int)[m] == dest);
                }
            }
            if connections[k] == dest {
                reachable = true;
            }
            k = k + 1;
        }
        assert(connections@.take(k as int) =~= connections@);
        if !reachable {
            return Err(CommandError::Unreachable);
        }
        self.depart(idx, sys, dest);
        Ok(())
    }

    fn buy(&mut self, player: PlayerId, trader: TraderId, commodity: CommodityId, qty: Quantity) -> (r:
        Result<(), CommandError>)
        requires
            old(self)@.wf(),
        ensures
            settles(
                old(self)@,
                apply_buy(old(self)@, player, trader, commodity, qty),
                final(self)@,
                r,
            ),
            final(self)@.wf(),
    {
        if qty == 0 {
            return Err(CommandError::ZeroQuantity);
        }
        let idx = match self.owned_trader_index(trader, player) {
            Ok(i) => i,
            Err(e) => {
                return Err(e);
            },
        };
        let sys = match self.docked_system(idx) {
            Ok(s) => s,
            Err(e) => {
                return Err(e);
            },
        };
        let ghost m = self@.markets[sys.0 as int];
        assert(self@.market_ok(m));
        let price = match self.markets[sys.index()].price(commodity) {
            Some(p) => p,
            None => {
                return Err(CommandError::UnknownGood);
            },
        };
        let stock = self.markets[sys.index()].stock(commodity);
        if stock < qty {
            return Err(CommandError::InsufficientStock);
        }
        let cost = money::total(price, qty);
        if (self.traders[idx].capital as i128) < cost {
            return Err(CommandError::InsufficientFunds);
        }
        assert(cost >= 1) by (nonlinear_arith)
            requires
                cost == price * qty,
                price >= 1,
                qty >= 1,
        ;
        let ghost t = self@.traders[idx as int];
        assert(self@.trader_ok(t));
        let unit_mass = self.registry.commodity(commodity).unit_mass;
        let capacity = self.registry.ship(self.traders[idx].ship).cargo_capacity;
        let used = hold_used(&self.registry, &self.traders[idx].cargo);
        assert(0 <= qty * unit_mass <= 0x1_0000_0000_0000_0000) by (nonlinear_arith)
            requires
                0 <= qty <= 0x1_0000_0000,
                0 <= unit_mass <= 0x1_0000_0000,
        ;
        if used + (qty as u128) * (unit_mass as u128) > capacity as u128 {
            return Err(CommandError::OverCapacity);
        }
        let _taken = self.markets[sys.index()].try_remove(commodity, qty);
        let capital = (self.traders[idx].capital as i128 - cost) as i64;
        self.traders[idx].capital = capital;
        let held = self.traders[idx].held(commodity);
        self.traders[idx].cargo.insert(commodity, held.saturating_add(qty));
        assert(self@ =~= apply_buy(old(self)@, player, trader, commodity, qty)->Ok_0);
        assert(self@.wf());
        Ok(())
    }

    fn sell(&mut self, player: PlayerId, trader: TraderId, commodity: CommodityId, qty: Quantity) -> (r:
        Result<(), CommandError>)
        requires
            old(self)@.wf(),
        ensures
            settles(
                old(self)@,
                apply_sell(old(self)@, player, trader, commodity, qty),
                final(self)@,
                r,
            ),
            final(self)@.wf(),
    {
        if qty == 0 {
            return Err(CommandError::ZeroQuantity);
        }
        let idx = match self.owned_trader_index(trader, player) {
            Ok(i) => i,
            Err(e) => {
                return Err(e);
            },
        };
        let sys = match self.docked_system(idx) {
            Ok(s) => s,
            Err(e) => {
                return Err(e);
            },
        };
        let held = self.traders[idx].held(commodity);
        if held < qty {
            return Err(CommandError::InsufficientCargo);
        }
        let ghost m = self@.markets[sys.0 as int];
        assert(self@.market_ok(m));
        assert(self@.trader_ok(self@.traders[idx as int]));
        let price = match self.markets[sys.index()].price(commodity) {
            Some(p) => p,
            None => {
                return Err(CommandError::UnknownGood);
            },
        };
        self.markets[sys.index()].add(commodity, qty);
        let proceeds = money::total(price, qty);
        assert(-0x1_0000_0000_0000_0000 * 0x1_0000_0000 <= proceeds <= 0x1_0000_0000_0000_0000
            * 0x1_0000_0000) by (nonlinear_arith)
            requires
                proceeds == price * qty,
                -0x1_0000_0000_0000_0000 <= price <= 0x1_0000_0000_0000_0000,
                0 <= qty <= 0x1_0000_0000,
        ;
        let capital = money::wrap(self.traders[idx].capital as i128 + proceeds);
        self.traders[idx].capital = capital;
        self.traders[idx].set_held(commodity, held - qty);
        assert(self@ =~= apply_sell(old(self)@, player, trader, commodity, qty)->Ok_0);
        assert(self@.wf());
        Ok(())
    }

    fn scoop(&mut self, player: PlayerId, trader: TraderId, commodity: CommodityId, qty: Quantity) -> (r:
        Result<(), CommandError>)
        requires
            old(self)@.wf(),
        ensures
            settles(
                old(self)@,
                apply_scoop(old(self)@, player, trader, commodity, qty),
                final(self)@,
                r,
            ),
            final(self)@.wf(),
    {
        if qty == 0 {
            return Err(CommandError::ZeroQuantity);
        }
        let idx = match self.owned_trader_index(trader, player) {
            Ok(i) => i,
            Err(e) => {
                return Err(e);
            },
        };
        if commodity.index() >= self.registry.commodity_count() {
            return Err(CommandError::UnknownGood);
        }
        assert(self@.trader_ok(self@.traders[idx as int]));
        let unit_mass = self.registry.commodity(commodity).unit_mass;
        let capacity = self.registry.ship(self.traders[idx].ship).cargo_capacity;
        let used = hold_used(&self.registry, &self.traders[idx].cargo);
        assert(0 <= qty * unit_mass <= 0x1_0000_0000_0000_0000) by (nonlinear_arith)
            requires
                0 <= qty <= 0x1_0000_0000,
                0 <= unit_mass <= 0x1_0000_0000,
        ;
        let load = (qty as u128) * (unit_mass as u128);
        let taken: Quantity = if unit_mass == 0 || used + load <= capacity as u128 {
            qty
        } else if used >= capacity as u128 {
            0
        } else {
            let free: u32 = (capacity as u128 - used) as u32;
            proof {
                assert(free / unit_mass <= free) by (nonlinear_arith)
                    requires
                        unit_mass >= 1,
                ;
            }
            free / unit_mass
        };
        assert(taken == fitting(capacity - used, unit_mass, qty));
        if taken == 0 {
            return Err(CommandError::OverCapacity);
        }
        let held = self.traders[idx].held(commodity);
        self.traders[idx].cargo.insert(commodity, held.saturating_add(taken));
        assert(self@ =~= apply_scoop(old(self)@, player, trader, commodity, qty)->Ok_0);
        assert(self@.wf());
        Ok(())
    }
}

impl World {
    /// The current slot of a contract on the board.
    pub(crate) fn contract_index(&self, id: ContractId) -> (r: Option<usize>)
        ensures
            match r {
                Some(i) => i < self.contracts@.len() && contract_slot(self@.contracts, id) == Some(
                    i as int,
                ),
                None => contract_slot(self@.contracts, id) is None,
            },
    {
        let ghost p = |c: Contract| c.id == id;
        let mut i: usize = 0;
        while i < self.contracts.len()
            invariant
                i <= self.contracts@.len(),
                self@.contracts == self.contracts@,
                p == (|c: Contract| c.id == id),
                forall|j: int| 0 <= j < i ==> !p(#[trigger] self.contracts@[j]),
            decreases self.contracts@.len() - i,
        {
            if self.contracts[i].id == id {
                proof {
                    search::lemma_first_is(self.contracts@, p, i as int);
                }
                return Some(i);
            }
            i = i + 1;
        }
        proof {
            search::lemma_first_none(self.contracts@, p);
        }
        None
    }

    fn accept(&mut self, player: PlayerId, trader: TraderId, contract: ContractId) -> (r: Result<
        (),
        CommandError,
    >)
        requires
            old(self)@.wf(),
        ensures
            settles(
                old(self)@,
                apply_accept(old(self)@, player, trader, contract),
                final(self)@,
                r,
            ),
            final(self)@.wf(),
    {
        match self.owned_trader_index(trader, player) {
            Ok(_) => {},
            Err(e) => {
                return Err(e);
            },
        }
        let ci = match self.contract_index(contract) {
            Some(i) => i,
            None => {
                return Err(CommandError::UnknownContract);
            },
        };
        let c = self.contracts[ci];
        if !c.is_open() {
            return Err(CommandError::ContractUnavailable);
        }
        let taken = Contract { state: ContractState::Accepted { player, trader }, ..c };
        self.contracts.set(ci, taken);
        assert(self@ =~= (WorldView {
            contracts: old(self)@.contracts.update(ci as int, taken),
            ..old(self)@
        }));
        self.log_event(
            EventCategory::System,
            Some(c.destination),
            messages::accepted_text(contract, trader),
        );
        Ok(())
    }

    fn fulfill(&mut self, player: PlayerId, trader: TraderId, contract: ContractId) -> (r: Result<
        (),
        CommandError,
    >)
        requires
            old(self)@.wf(),
        ensures
            settles(
                old(self)@,
                apply_fulfill(old(self)@, player, trader, contract),
                final(self)@,
                r,
            ),
            final(self)@.wf(),
    {
        let idx = match self.owned_trader_index(trader, player) {
            Ok(i) => i,
            Err(e) => {
                return Err(e);
            },
        };
        let ci = match self.contract_index(contract) {
            Some(i) => i,
            None => {
                return Err(CommandError::UnknownContract);
            },
        };
        let c = self.contracts[ci];
        let held_by_us = match c.holder() {
            Some((p, t)) => p == player && t == trader,
            None => false,
        };
        if !held_by_us {
            return Err(CommandError::ContractNotHeld);
        }
        if self.tick.0 > c.deadline.0 {
            return Err(CommandError::ContractExpired);
        }
        let sys = match self.docked_system(idx) {
            Ok(s) => s,
            Err(e) => {
                return Err(e);
            },
        };
        if sys != c.destination {
            return Err(CommandError::WrongDestination);
        }
        let held: Quantity = match c.cargo() {
            Some((commodity, _)) => self.traders[idx].held(commodity),
            None => 0,
        };
        if !c.condition_met(held) {
            return match c.kind {
                ContractKind::Delivery { .. } => Err(CommandError::InsufficientCargo),
                _ => Err(CommandError::BountyIncomplete),
            };
        }
        assert(self@.trader_ok(self@.traders[idx as int]));
        match c.cargo() {
            Some((commodity, quantity)) => {
                self.traders[idx].set_held(commodity, held - quantity);
            },
            None => {},
        }
        let capital = money::credit(self.traders[idx].capital, c.reward);
        self.traders[idx].capital = capital;
        let _done = self.contracts.remove(ci);
        let ghost t = old(self)@.traders[idx as int];
        assert(self@ =~= (WorldView {
            contracts: old(self)@.contracts.remove(ci as int),
            ..old(self)@.with_trader(
                idx as int,
                TraderView {
                    capital: money::wrapped(t.capital + c.reward),
                    cargo: handed_over(c, t.cargo),
                    ..t
                },
            )
        }));
        self.log_event(
            EventCategory::System,
            Some(sys),
            messages::fulfilled_text(contract, trader, c.reward),
        );
        assert(self@.wf());
        Ok(())
    }

    fn take_loan(&mut self, player: PlayerId, trader: TraderId, principal: Money) -> (r: Result<
        (),
        CommandError,
    >)
        requires
            old(self)@.wf(),
        ensures
            settles(
                old(self)@,
                apply_take_loan(old(self)@, player, trader, principal),
                final(self)@,
                r,
            ),
            final(self)@.wf(),
    {
        let rt = match self.loan_runtime {
            Some(rt) => rt,
            None => {
                return Err(CommandError::LendingUnavailable);
            },
        };
        let idx = match self.owned_trader_index(trader, player) {
            Ok(i) => i,
            Err(e) => {
                return Err(e);
            },
        };
        match self.docked_system(idx) {
            Ok(_) => {},
            Err(e) => {
                return Err(e);
            },
        }
        if principal <= 0 {
            return Err(CommandError::ZeroQuantity);
        }
        if principal > rt.max_principal {
            return Err(CommandError::LoanTooLarge);
        }
        let ghost p = |l: Loan| l.borrower == trader;
        let mut held: usize = 0;
        let mut k: usize = 0;
        proof {
            search::lemma_filter_none(self.loans@, p);
        }
        while k < self.loans.len()
            invariant
                k <= self.loans@.len(),
                held <= k,
                p == (|l: Loan| l.borrower == trader),
                held == self.loans@.take(k as int).filter(p).len(),
            decreases self.loans@.len() - k,
        {
            proof {
                search::lemma_filter_step(self.loans@, p, k as int);
            }
            if self.loans[k].borrower == trader {
                held = held + 1;
            }
            k = k + 1;
        }
        assert(self.loans@.take(k as int) =~= self.loans@);
        if held >= rt.max_loans as usize {
            return Err(CommandError::TooManyLoans);
        }
        let id = LoanId(self.next_loan_id);
        self.next_loan_id = self.next_loan_id.wrapping_add(1);
        let loan = Loan {
            id,
            player,
            borrower: trader,
            principal,
            outstanding: principal,
            due: self.tick.plus(rt.term_ticks),
        };
        self.loans.push(loan);
        let capital = money::credit(self.traders[idx].capital, principal);
        self.traders[idx].capital = capital;
        let ghost t = old(self)@.traders[idx as int];
        assert(self@ =~= (WorldView {
            loans: old(self)@.loans.push(loan),
            next_loan_id: old(self)@.next_loan_id.wrapping_add(1),
            ..old(self)@.with_trader(
                idx as int,
                TraderView { capital: money::wrapped(t.capital + principal), ..t },
            )
        }));
        assert(self@.trader_ok(old(self)@.traders[idx as int]));
        self.log_event(
            EventCategory::System,
            None,
            messages::borrowed_text(id, principal, trader),
        );
        assert(self@.wf());
        Ok(())
    }

    fn repay(&mut self, player: PlayerId, trader: TraderId, loan: LoanId, amount: Money) -> (r: Result<
        (),
        CommandError,
    >)
        requires
            old(self)@.wf(),
        ensures
            settles(
                old(self)@,
                apply_repay(old(self)@, player, trader, loan, amount),
                final(self)@,
                r,
            ),
            final(self)@.wf(),
    {
        let idx = match self.owned_trader_index(trader, player) {
            Ok(i) => i,
            Err(e) => {
                return Err(e);
            },
        };
        if amount <= 0 {
            return Err(CommandError::ZeroQuantity);
        }
        let li = match self.loan_index(loan) {
            Some(i) => i,
            None => {
                return Err(CommandError::UnknownLoan);
            },
        };
        let l = self.loans[li];
        if !l.held_by(player, trader) {
            return Err(CommandError::LoanNotHeld);
        }
        let pay: Money = if amount < l.outstanding { amount } else { l.outstanding };
        if self.traders[idx].capital < pay {
            return Err(CommandError::InsufficientFunds);
        }
        let capital = money::charge(self.traders[idx].capital, pay);
        self.traders[idx].capital = capital;
        let remaining: Money = l.outstanding - pay;
        if remaining == 0 {
            let _closed = self.loans.remove(li);
        } else {
            self.loans.set(li, Loan { outstanding: remaining, ..l });
        }
        let ghost t = old(self)@.traders[idx as int];
        assert(self@ =~= (WorldView {
            loans: if remaining == 0 {
                old(self)@.loans.remove(li as int)
            } else {
                old(self)@.loans.update(li as int, Loan { outstanding: remaining, ..l })
            },
            ..old(self)@.with_trader(
                idx as int,
                TraderView { capital: money::wrapped(t.capital - pay), ..t },
            )
        }));
        assert(self@.trader_ok(old(self)@.traders[idx as int]));
        self.log_event(
            EventCategory::System,
            None,
            messages::repaid_text(loan, pay, trader, remaining),
        );
        assert(self@.wf());
        Ok(())
    }

    /// The current slot of a loan.
    pub(crate) fn loan_index(&self, id: LoanId) -> (r: Option<usize>)
        ensures
            match r {
                Some(i) => i < self.loans@.len() && loan_slot(self@.loans, id) == Some(i as int),
                None => loan_slot(self@.loans, id) is None,
            },
    {
        let ghost p = |l: Loan| l.id == id;
        let mut i: usize = 0;
        while i < self.loans.len()
            invariant
                i <= self.loans@.len(),
                self@.loans == self.loans@,
                p == (|l: Loan| l.id == id),
                forall|j: int| 0 <= j < i ==> !p(#[trigger] self.loans@[j]),
            decreases self.loans@.len() - i,
        {
            if self.loans[i].id == id {
                proof {
                    search::lemma_first_is(self.loans@, p, i as int);
                }
                return Some(i);
            }
            i = i + 1;
        }
        proof {
            search::lemma_first_none(self.loans@, p);
        }
        None
    }

    /// The slot of the policy on a trader.
    pub(crate) fn policy_index(&self, trader: TraderId) -> (r: Option<usize>)
        ensures
            match r {
                Some(i) => i < self.policies@.len() && policy_slot(self@.policies, trader) == Some(
                    i as int,
                ),
                None => policy_slot(self@.policies, trader) is None,
            },
    {
        let ghost p = |l: Policy| l.insured == trader;
        let mut i: usize = 0;
        while i < self.policies.len()
            invariant
                i <= self.policies@.len(),
                self@.policies == self.policies@,
                p == (|l: Policy| l.insured == trader),
                forall|j: int| 0 <= j < i ==> !p(#[trigger] self.policies@[j]),
            decreases self.policies@.len() - i,
        {
            if self.policies[i].insured == trader {
                proof {
                    search::lemma_first_is(self.policies@, p, i as int);
                }
                return Some(i);
            }
            i = i + 1;
        }
        proof {
            search::lemma_first_none(self.policies@, p);
        }
        None
    }

    fn insure(&mut self, player: PlayerId, trader: TraderId) -> (r: Result<(), CommandError>)
        requires
            old(self)@.wf(),
        ensures
            settles(old(self)@, apply_insure(old(self)@, player, trader), final(self)@, r),
            final(self)@.wf(),
    {
        let rt = match self.insurance_runtime {
            Some(rt) => rt,
            None => {
                return Err(CommandError::InsuranceUnavailable);
            },
        };
        let idx = match self.owned_trader_index(trader, player) {
            Ok(i) => i,
            Err(e) => {
                return Err(e);
            },
        };
        match self.docked_system(idx) {
            Ok(_) => {},
            Err(e) => {
                return Err(e);
            },
        }
        match self.policy_index(trader) {
            Some(_) => {
                return Err(CommandError::AlreadyInsured);
            },
            None => {},
        }
        if self.traders[idx].capital < rt.premium {
            return Err(CommandError::InsufficientFunds);
        }
        let capital = money::charge(self.traders[idx].capital, rt.premium);
        self.traders[idx].capital = capital;
        let policy = Policy {
            player,
            insured: trader,
            payout: rt.payout,
            expiry: self.tick.plus(rt.term_ticks),
        };
        self.policies.push(policy);
        let ghost t = old(self)@.traders[idx as int];
        assert(self@ =~= (WorldView {
            policies: old(self)@.policies.push(policy),
            ..old(self)@.with_trader(
                idx as int,
                TraderView { capital: money::wrapped(t.capital - rt.premium), ..t },
            )
        }));
        assert(self@.trader_ok(old(self)@.traders[idx as int]));
        self.log_event(
            EventCategory::System,
            None,
            messages::insured_text(trader, rt.payout, rt.premium),
        );
        assert(self@.wf());
        Ok(())
    }

    /// The galaxy reference price of a commodity.
    pub(crate) fn reference_price(&self, c: CommodityId) -> (r: Option<Money>)
        requires
            self@.wf(),
        ensures
            r == mean_price(self@.markets, c),
            r is Some ==> r->Some_0 >= 1,
    {
        let mut sum: i128 = 0;
        let mut n: i128 = 0;
        let mut i: usize = 0;
        while i < self.markets.len()
            invariant
                i <= self.markets@.len(),
                self@.wf(),
                self@.markets == market::market_views(self.markets@),
                self.markets@.len() <= u32::MAX,
                sum == price_sum(self@.markets, c, i as int),
                n == traded_at(self@.markets, c, i as int),
                0 <= n <= i,
                n <= sum <= n * i64::MAX,
            decreases self.markets@.len() - i,
        {
            assert(self@.market_ok(self@.markets[i as int]));
            match self.markets[i].price(c) {
                Some(p) => {
                    assert(sum + p <= (n + 1) * i64::MAX) by (nonlinear_arith)
                        requires
                            sum <= n * i64::MAX,
                            p <= i64::MAX,
                    ;
                    sum = sum + p as i128;
                    n = n + 1;
                },
                None => {},
            }
            i = i + 1;
        }
        if n > 0 {
            assert(1 <= sum / n <= i64::MAX) by (nonlinear_arith)
                requires
                    n > 0,
                    n <= sum <= n * i64::MAX,
            ;
            Some((sum / n) as i64)
        } else {
            None
        }
    }

    fn open_future(
        &mut self,
        player: PlayerId,
        trader: TraderId,
        commodity: CommodityId,
        qty: Quantity,
        side: FutureSide,
    ) -> (r: Result<(), CommandError>)
        requires
            old(self)@.wf(),
        ensures
            settles(
                old(self)@,
                apply_open_future(old(self)@, player, trader, commodity, qty, side),
                final(self)@,
                r,
            ),
            final(self)@.wf(),
    {
        let rt = match self.future_runtime {
            Some(rt) => rt,
            None => {
                return Err(CommandError::FuturesUnavailable);
            },
        };
        let idx = match self.owned_trader_index(trader, player) {
            Ok(i) => i,
            Err(e) => {
                return Err(e);
            },
        };
        match self.docked_system(idx) {
            Ok(_) => {},
            Err(e) => {
                return Err(e);
            },
        }
        if qty == 0 {
            return Err(CommandError::ZeroQuantity);
        }
        if qty > rt.max_quantity {
            return Err(CommandError::FutureTooLarge);
        }
        let ghost p = |f: Future| f.holder == trader;
        let mut held: usize = 0;
        let mut k: usize = 0;
        proof {
            search::lemma_filter_none(self.futures@, p);
        }
        while k < self.futures.len()
            invariant
                k <= self.futures@.len(),
                held <= k,
                p == (|f: Future| f.holder == trader),
                held == self.futures@.take(k as int).filter(p).len(),
            decreases self.futures@.len() - k,
        {
            proof {
                search::lemma_filter_step(self.futures@, p, k as int);
            }
            if self.futures[k].holder == trader {
                held = held + 1;
            }
            k = k + 1;
        }
        assert(self.futures@.take(k as int) =~= self.futures@);
        if held >= rt.max_futures as usize {
            return Err(CommandError::TooManyFutures);
        }
        let strike = match self.reference_price(commodity) {
            Some(p) => p,
            None => {
                return Err(CommandError::UnknownGood);
            },
        };
        if self.traders[idx].capital < rt.fee {
            return Err(CommandError::InsufficientFunds);
        }
        let capital = money::charge(self.traders[idx].capital, rt.fee);
        self.traders[idx].capital = capital;
        let future = Future {
            player,
            holder: trader,
            commodity,
            quantity: qty,
            side,
            strike,
            maturity: self.tick.plus(rt.term_ticks),
        };
        self.futures.push(future);
        let ghost t = old(self)@.traders[idx as int];
        assert(self@ =~= (WorldView {
            futures: old(self)@.futures.push(future),
            ..old(self)@.with_trader(
                idx as int,
                TraderView { capital: money::wrapped(t.capital - rt.fee), ..t },
            )
        }));
        assert(self@.trader_ok(old(self)@.traders[idx as int]));
        let msg = messages::opened_text(
            trader,
            side,
            qty,
            self.registry.commodity_name(commodity),
            strike,
            rt.fee,
        );
        self.log_event(EventCategory::System, None, msg);
        assert(self@.wf());
        Ok(())
    }

    /// Credit `kills` to the bounties `trader` holds; returns those whose quota that
    /// meets, as they were before.
    pub(crate) fn credit_bounties(&mut self, trader: TraderId, kills: u64) -> (met: Vec<Contract>)
        ensures
            final(self)@ == (WorldView {
                contracts: board_credited(old(self)@.contracts, trader, kills as int),
                ..old(self)@
            }),
            met@ == old(self)@.contracts.filter(
                |c: Contract| quota_met(c, trader, kills as int),
            ),
            final(self).traders@.len() == old(self).traders@.len(),
    {
        let ghost p = |c: Contract| quota_met(c, trader, kills as int);
        let ghost board = self.contracts@;
        let mut met: Vec<Contract> = Vec::new();
        let mut next: Vec<Contract> = Vec::new();
        let mut i: usize = 0;
        proof {
            search::lemma_filter_none(board, p);
        }
        while i < self.contracts.len()
            invariant
                i <= self.contracts@.len(),
                board == self.contracts@,
                p == (|c: Contract| quota_met(c, trader, kills as int)),
                met@ == board.take(i as int).filter(p),
                next@.len() == i,
                forall|j: int|
                    0 <= j < i ==> #[trigger] next@[j] == credited(board[j], trader, kills as int),
            decreases self.contracts@.len() - i,
        {
            proof {
                search::lemma_filter_step(board, p, i as int);
            }
            let c = self.contracts[i];
            let ours = match c.held_by() {
                Some(t) => t == trader,
                None => false,
            };
            let after = match c.kind {
                ContractKind::Bounty { target, progress } => {
                    if ours {
                        let done: u128 = progress as u128 + kills as u128;
                        if progress < target && done >= target as u128 {
                            met.push(c);
                        }
                        Contract {
                            kind: ContractKind::Bounty {
                                target,
                                progress: if done < target as u128 {
                                    done as u32
                                } else {
                                    target
                                },
                            },
                            ..c
                        }
                    } else {
                        c
                    }
                },
                _ => c,
            };
            next.push(after);
            i = i + 1;
        }
        assert(board.take(i as int) =~= board);
        self.contracts = next;
        assert(self@ =~= (WorldView {
            contracts: board_credited(old(self)@.contracts, trader, kills as int),
            ..old(self)@
        }));
        met
    }

    /// Log the quota of each of these contracts as met.
    pub(crate) fn log_quotas(
        &mut self,
        met: &Vec<Contract>,
        trader: TraderId,
        at: Option<SystemId>,
        ending: &str,
    )
        requires
            old(self)@.wf(),
        ensures
            final(self)@ == quotas_logged(
                old(self)@,
                met@,
                met@.len() as int,
                trader,
                at,
                ending@,
            ),
            final(self)@.wf(),
    {
        let mut i: usize = 0;
        while i < met.len()
            invariant
                i <= met@.len(),
                self@.wf(),
                self@ == quotas_logged(old(self)@, met@, i as int, trader, at, ending@),
            decreases met@.len() - i,
        {
            self.log_event(
                EventCategory::System,
                at,
                messages::quota_text(met[i].id, trader, ending),
            );
            i = i + 1;
        }
    }

    fn destroyed_pirate(&mut self, player: PlayerId, trader: TraderId, pirate: PatrolId) -> (r:
        Result<(), CommandError>)
        requires
            old(self)@.wf(),
        ensures
            settles(
                old(self)@,
                apply_destroyed_pirate(old(self)@, player, trader, pirate),
                final(self)@,
                r,
            ),
            final(self)@.wf(),
    {
        let idx = match self.owned_trader_index(trader, player) {
            Ok(i) => i,
            Err(e) => {
                return Err(e);
            },
        };
        let pi = match patrol_index(&self.pirates, pirate) {
            Some(i) => i,
            None => {
                return Err(CommandError::UnknownPatrol);
            },
        };
        let at = self.pirates[pi].docked_at();
        let _dead = self.pirates.remove(pi);
        self.piracy_stats.pirates_destroyed = self.piracy_stats.pirates_destroyed.wrapping_add(1);
        let bounty: Money = match self.piracy {
            Some(p) => p.bounty,
            None => 0,
        };
        let capital = money::credit(self.traders[idx].capital, bounty);
        self.traders[idx].capital = capital;
        self.piracy_stats.bounties_paid = money::credit(self.piracy_stats.bounties_paid, bounty);
        let met = self.credit_bounties(trader, 1);
        let ghost t = old(self)@.traders[idx as int];
        assert(self@ =~= (WorldView {
            pirates: old(self)@.pirates.remove(pi as int),
            piracy_stats: crate::world::PiracyStats {
                pirates_destroyed: old(self)@.piracy_stats.pirates_destroyed.wrapping_add(1),
                bounties_paid: money::wrapped(old(self)@.piracy_stats.bounties_paid + bounty),
                ..old(self)@.piracy_stats
            },
            contracts: board_credited(old(self)@.contracts, trader, 1),
            ..old(self)@.with_trader(
                idx as int,
                TraderView { capital: money::wrapped(t.capital + bounty), ..t },
            )
        }));
        assert(self@.trader_ok(old(self)@.traders[idx as int]));
        self.log_event(EventCategory::Combat, at, messages::killed_text(trader, bounty));
        assert(self@.wf());
        self.log_quotas(&met, trader, at, "");
        Ok(())
    }

    /// Pay out the policy on `trader`, which stands at slot `idx`, if it has one that has
    /// not expired.
    pub(crate) fn pay_insurance(&mut self, idx: usize, trader: TraderId, at: Option<SystemId>)
        requires
            old(self)@.wf(),
            idx < old(self).traders@.len(),
        ensures
            final(self)@ == insurance_paid(old(self)@, idx as int, trader, at),
            final(self)@.wf(),
    {
        match self.policy_index(trader) {
            None => {},
            Some(pi) => {
                if self.tick.0 > self.policies[pi].expiry.0 {
                    return;
                }
                let payout = self.policies[pi].payout;
                let _used = self.policies.remove(pi);
                let capital = money::credit(self.traders[idx].capital, payout);
                self.traders[idx].capital = capital;
                let ghost t = old(self)@.traders[idx as int];
                assert(self@ =~= (WorldView {
                    policies: old(self)@.policies.remove(pi as int),
                    ..old(self)@.with_trader(
                        idx as int,
                        TraderView { capital: money::wrapped(t.capital + payout), ..t },
                    )
                }));
                assert(self@.trader_ok(old(self)@.traders[idx as int]));
                self.log_event(
                    EventCategory::System,
                    at,
                    messages::compensated_text(trader, payout),
                );
                assert(self@.wf());
            },
        }
    }

    /// Destroy the trader at slot `idx`: its cargo is lost and it respawns later.
    pub(crate) fn lose_trader(&mut self, idx: usize, respawn_delay: u64)
        requires
            old(self)@.wf(),
            idx < old(self).traders@.len(),
        ensures
            final(self)@ == trader_lost(old(self)@, idx as int, respawn_delay),
            final(self)@.wf(),
            final(self).traders@.len() == old(self).traders@.len(),
    {
        self.piracy_stats.traders_lost = self.piracy_stats.traders_lost.wrapping_add(1);
        self.traders[idx].cargo.clear();
        let respawn = self.tick.plus(respawn_delay);
        self.traders[idx].location = TraderLocation::Destroyed { respawn };
        assert(self@.trader_ok(old(self)@.traders[idx as int]));
        assert(self@ =~= trader_lost(old(self)@, idx as int, respawn_delay));
        assert(self@.wf());
    }

    fn trader_destroyed(&mut self, player: PlayerId, trader: TraderId) -> (r: Result<
        (),
        CommandError,
    >)
        requires
            old(self)@.wf(),
        ensures
            settles(old(self)@, apply_trader_destroyed(old(self)@, player, trader), final(self)@, r),
            final(self)@.wf(),
    {
        let idx = match self.owned_trader_index(trader, player) {
            Ok(i) => i,
            Err(e) => {
                return Err(e);
            },
        };
        let delay: u64 = match self.piracy {
            Some(p) => p.respawn_delay,
            None => 50,
        };
        let at = match self.traders[idx].location {
            TraderLocation::Docked(s) => Some(s),
            TraderLocation::InTransit { dest, .. } => Some(dest),
            TraderLocation::Destroyed { .. } => None,
        };
        self.lose_trader(idx, delay);
        self.log_event(EventCategory::Piracy, at, messages::lost_text(trader));
        self.pay_insurance(idx, trader, at);
        Ok(())
    }

    /// Validate and apply a single command.
    pub(crate) fn apply_command(&mut self, command: Command) -> (r: Result<(), CommandError>)
        requires
            old(self)@.wf(),
        ensures
            settles(old(self)@, applied(old(self)@, command), final(self)@, r),
            final(self)@.wf(),
    {
        reveal(applied);
        match command {
            Command::Spawn { player, ship, at, capital } => self.spawn(player, ship, at, capital),
            Command::Despawn { player, trader } => self.despawn(player, trader),
            Command::Jump { player, trader, dest } => self.jump(player, trader, dest),
            Command::Buy { player, trader, commodity, qty } => self.buy(
                player,
                trader,
                commodity,
                qty,
            ),
            Command::Sell { player, trader, commodity, qty } => self.sell(
                player,
                trader,
                commodity,
                qty,
            ),
            Command::AcceptContract { player, trader, contract } => self.accept(
                player,
                trader,
                contract,
            ),
            Command::FulfillContract { player, trader, contract } => self.fulfill(
                player,
                trader,
                contract,
            ),
            Command::TakeLoan { player, trader, principal } => self.take_loan(
                player,
                trader,
                principal,
            ),
            Command::RepayLoan { player, trader, loan, amount } => self.repay(
                player,
                trader,
                loan,
                amount,
            ),
            Command::BuyInsurance { player, trader } => self.insure(player, trader),
            Command::OpenFuture { player, trader, commodity, qty, side } => self.open_future(
                player,
                trader,
                commodity,
                qty,
                side,
            ),
            Command::DestroyedPirate { player, trader, pirate } => self.destroyed_pirate(
                player,
                trader,
                pirate,
            ),
            Command::TraderDestroyed { player, trader } => self.trader_destroyed(player, trader),
            Command::ScoopCargo { player, trader, commodity, qty } => self.scoop(
                player,
                trader,
                commodity,
                qty,
            ),
        }
    }
}

} // verus!
