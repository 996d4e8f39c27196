//! What a new world holds, told by the content and the scenario it was made from.

use vstd::prelude::*;

use crate::ids::{CommodityId, Money, Owner, PatrolId, Quantity, RecipeId, ShipId, SystemId};
use crate::market::{MarketGood, MarketView};
use crate::patrol::Patrol;
use crate::pricing::PricingSet;
use crate::registry;
use crate::registry::Registry;
use crate::rng::DetRng;
use crate::scenario::{
    ContractConfig, EscortConfig, FutureConfig, InsuranceConfig, LoanConfig, NavyConfig,
    PiracyConfig, ScenarioDef,
};
use crate::trader::{TraderLocation, TraderView};
use crate::world::fleet;
use crate::world::fleet::FleetState;
use crate::world::musters;
use crate::world::musters::without_law;
use crate::world::setup;
use crate::world::setup::WorldErrorView;
use crate::world::{Stage, Tables, WorldView};

verus! {

/// Whether entry `j` of a stock list is the last one of its good.
pub open spec fn last_of_its_good(stock: Seq<(CommodityId, Quantity)>, j: int, n: int) -> bool {
    0 <= j < n && forall|k: int| j < k < n ==> (#[trigger] stock[k]).0 != stock[j].0
}

/// What an opening market trades: exactly the goods of the stock it is given, each at the
/// stock given last. That stock is the good's equilibrium, and its price is the opening
/// one, at least a credit.
pub proof fn lemma_opening_goods(
    stock: Seq<(CommodityId, Quantity)>,
    opening: Seq<Vec<Money>>,
    i: int,
    n: int,
)
    requires
        0 <= n <= stock.len(),
    ensures
        ({
            let goods = setup::opening_goods(stock, opening, i, n);
            &&& forall|c: CommodityId| #[trigger] goods.dom().contains(c) <==> exists|j: int|
                0 <= j < n && (#[trigger] stock[j]).0 == c
            &&& forall|j: int| #[trigger]
                last_of_its_good(stock, j, n) ==> {
                    let g = goods[stock[j].0];
                    &&& g.stock == stock[j].1
                    &&& g.equilibrium == stock[j].1
                    &&& g.price >= 1
                    &&& 0 <= i < opening.len() && j < opening[i]@.len() && opening[i]@[j] >= 1
                        ==> g.price == opening[i]@[j]
                    &&& !(0 <= i < opening.len() && j < opening[i]@.len()) ==> g.price == 1
                    &&& 0 <= i < opening.len() && j < opening[i]@.len() && opening[i]@[j] < 1
                        ==> g.price == 1
                }
        }),
    decreases n,
{
    if n > 0 {
        lemma_opening_goods(stock, opening, i, n - 1);
        let before = setup::opening_goods(stock, opening, i, n - 1);
        let goods = setup::opening_goods(stock, opening, i, n);
        assert forall|c: CommodityId| #[trigger] goods.dom().contains(c) <==> exists|j: int|
            0 <= j < n && (#[trigger] stock[j]).0 == c by {
            if goods.dom().contains(c) {
                if c == stock[n - 1].0 {
                    assert(0 <= n - 1 < n && stock[n - 1].0 == c);
                } else {
                    assert(before.dom().contains(c));
                }
            }
            if exists|j: int| 0 <= j < n && (#[trigger] stock[j]).0 == c {
                let j = choose|j: int| 0 <= j < n && (#[trigger] stock[j]).0 == c;
                if j < n - 1 {
                    assert(before.dom().contains(c));
                }
            }
        }
        assert forall|j: int| #[trigger] last_of_its_good(stock, j, n) && j < n - 1 implies
            last_of_its_good(stock, j, n - 1) && stock[j].0 != stock[n - 1].0 by {
            assert(j < n - 1 < n);
            assert(stock[n - 1].0 != stock[j].0);
            assert forall|k: int| j < k < n - 1 implies (#[trigger] stock[k]).0 != stock[j].0 by {}
        }
    }
}

/// Whether every one of `amounts` is a good that is traded.
pub open spec fn all_traded(
    amounts: Seq<(CommodityId, Quantity)>,
    goods: Map<CommodityId, MarketGood>,
) -> bool {
    forall|k: int| 0 <= k < amounts.len() ==> goods.dom().contains((#[trigger] amounts[k]).0)
}

proof fn lemma_untraded(
    amounts: Seq<(CommodityId, Quantity)>,
    goods: Map<CommodityId, MarketGood>,
    n: int,
)
    requires
        0 <= n <= amounts.len(),
    ensures
        match setup::untraded(amounts, goods, n) {
            None => forall|k: int|
                0 <= k < n ==> goods.dom().contains((#[trigger] amounts[k]).0),
            Some(c) => !goods.dom().contains(c) && exists|k: int|
                0 <= k < n && (#[trigger] amounts[k]).0 == c && forall|m: int|
                    0 <= m < k ==> goods.dom().contains((#[trigger] amounts[m]).0),
        },
    decreases n,
{
    if n > 0 {
        lemma_untraded(amounts, goods, n - 1);
        if let Some(c) = setup::untraded(amounts, goods, n - 1) {
            let k = choose|k: int|
                0 <= k < n - 1 && (#[trigger] amounts[k]).0 == c && forall|m: int|
                    0 <= m < k ==> goods.dom().contains((#[trigger] amounts[m]).0);
            assert(0 <= k < n && amounts[k].0 == c);
        } else if !goods.dom().contains(amounts[n - 1].0) {
            assert(0 <= n - 1 < n && amounts[n - 1].0 == amounts[n - 1].0);
        }
    }
}

/// A market can serve its industries just where it trades every input and every output of
/// each; where it cannot, the good that is named is one that some industry uses and that
/// it does not trade.
pub proof fn lemma_industries_are_served(
    reg: Registry,
    industries: Seq<RecipeId>,
    goods: Map<CommodityId, MarketGood>,
    n: int,
)
    requires
        0 <= n <= industries.len(),
    ensures
        match setup::unserved(reg, industries, goods, n) {
            None => forall|k: int|
                0 <= k < n ==> {
                    let r = reg.spec_recipes()[(#[trigger] industries[k]).0 as int];
                    all_traded(r.inputs@, goods) && all_traded(r.outputs@, goods)
                },
            Some(c) => !goods.dom().contains(c) && exists|k: int|
                0 <= k < n && used_by(
                    reg.spec_recipes()[(#[trigger] industries[k]).0 as int].inputs@,
                    reg.spec_recipes()[industries[k].0 as int].outputs@,
                    c,
                ),
        },
    decreases n,
{
    if n > 0 {
        lemma_industries_are_served(reg, industries, goods, n - 1);
        let r = reg.spec_recipes()[industries[n - 1].0 as int];
        lemma_untraded(r.inputs@, goods, r.inputs@.len() as int);
        lemma_untraded(r.outputs@, goods, r.outputs@.len() as int);
        if let Some(c) = setup::unserved(reg, industries, goods, n - 1) {
            let k = choose|k: int|
                0 <= k < n - 1 && used_by(
                    reg.spec_recipes()[(#[trigger] industries[k]).0 as int].inputs@,
                    reg.spec_recipes()[industries[k].0 as int].outputs@,
                    c,
                );
            assert(0 <= k < n && industries[k] == industries[k]);
        } else {
            if let Some(c) = setup::unmet(r, goods) {
                if let Some(d) = setup::untraded(r.inputs@, goods, r.inputs@.len() as int) {
                    let m = choose|m: int| 0 <= m < r.inputs@.len() && (#[trigger] r.inputs@[m]).0 == d;
                    assert(r.inputs@[m].0 == c);
                } else {
                    let m = choose|m: int|
                        0 <= m < r.outputs@.len() && (#[trigger] r.outputs@[m]).0 == c;
                    assert(r.outputs@[m].0 == c);
                }
                assert(used_by(r.inputs@, r.outputs@, c));
                assert(industries[n - 1] == industries[n - 1]);
            }
        }
    }
}

/// Whether a good is among the inputs or the outputs.
pub open spec fn used_by(
    inputs: Seq<(CommodityId, Quantity)>,
    outputs: Seq<(CommodityId, Quantity)>,
    c: CommodityId,
) -> bool {
    (exists|m: int| 0 <= m < inputs.len() && (#[trigger] inputs[m]).0 == c) || (exists|m: int|
        0 <= m < outputs.len() && (#[trigger] outputs[m]).0 == c)
}

/// Markets are built one for each system, in the systems' order, each with its system's
/// goods and the strategy that the system names; where that fails, it is at the first
/// system whose industries its goods do not serve.
pub proof fn lemma_a_market_for_each_system(
    reg: Registry,
    pricing: PricingSet,
    opening: Seq<Vec<Money>>,
    n: int,
)
    requires
        0 <= n <= reg.spec_systems().len(),
    ensures
        match setup::markets_built(reg, pricing, opening, n) {
            Ok(list) => {
                &&& list.len() == n
                &&& forall|i: int|
                    0 <= i < n ==> market_of(reg, pricing, opening, i, #[trigger] list[i])
            },
            Err(e) => exists|i: int| 0 <= i < n && #[trigger] unserved_at(reg, opening, i, e),
        },
    decreases n,
{
    if n > 0 {
        lemma_a_market_for_each_system(reg, pricing, opening, n - 1);
        let p: int = n - 1;
        let s = reg.spec_systems()[p];
        let goods = setup::opening_goods(s.initial_stock@, opening, p, s.initial_stock@.len() as int);
        lemma_industries_are_served(reg, s.industries@, goods, s.industries@.len() as int);
        match setup::markets_built(reg, pricing, opening, p) {
            Err(e) => {
                let i = choose|i: int| 0 <= i < p && #[trigger] unserved_at(reg, opening, i, e);
                assert(0 <= i < n && unserved_at(reg, opening, i, e));
            },
            Ok(list) => match setup::market_built(reg, pricing, opening, p) {
                Err(e) => {
                    assert(unserved_at(reg, opening, p, e));
                },
                Ok(m) => {
                    assert(market_of(reg, pricing, opening, p, m));
                    let after = list.push(m);
                    assert forall|i: int| 0 <= i < n implies market_of(
                        reg,
                        pricing,
                        opening,
                        i,
                        #[trigger] after[i],
                    ) by {
                        if i < p {
                            assert(after[i] == list[i]);
                        }
                    }
                },
            },
        }
    }
}

/// Whether `m` is the market that system `i` opens with: of the system, by the strategy it
/// names, trading all that its industries use.
pub open spec fn market_of(
    reg: Registry,
    pricing: PricingSet,
    opening: Seq<Vec<Money>>,
    i: int,
    m: MarketView,
) -> bool {
    let s = reg.spec_systems()[i];
    &&& m.system == s.id
    &&& Some(m.pricing) == pricing.named(s.pricing@) || pricing.named(s.pricing@) is None
    &&& m.goods == setup::opening_goods(s.initial_stock@, opening, i, s.initial_stock@.len() as int)
    &&& forall|k: int|
        0 <= k < s.industries@.len() ==> {
            let r = reg.spec_recipes()[(#[trigger] s.industries@[k]).0 as int];
            all_traded(r.inputs@, m.goods) && all_traded(r.outputs@, m.goods)
        }
}

/// Whether `e` names system `i` and a good that one of its industries uses and that it
/// does not trade.
pub open spec fn unserved_at(
    reg: Registry,
    opening: Seq<Vec<Money>>,
    i: int,
    e: WorldErrorView,
) -> bool {
    let s = reg.spec_systems()[i];
    let goods = setup::opening_goods(s.initial_stock@, opening, i, s.initial_stock@.len() as int);
    exists|c: CommodityId|
        e == (WorldErrorView::MissingIndustryCommodity {
            system: reg.spec_system_name(s.id),
            commodity: reg.spec_commodity_name(c),
        }) && !(#[trigger] goods.dom().contains(c))
}

/// The traders that are placed: as many as asked for, numbered from zero in order, alike
/// in ship and capital, with empty holds, no player's, each docked at the next draw over
/// the systems.
pub proof fn lemma_traders_are_placed(
    systems: u64,
    ship: ShipId,
    capital: Money,
    n: int,
    rng: DetRng,
)
    requires
        0 <= n <= u32::MAX,
    ensures
        setup::placed(systems, ship, capital, n, rng).0.len() == n,
        n == 0 ==> setup::placed(systems, ship, capital, n, rng).1 == rng,
        forall|j: int|
            0 <= j < n ==> {
                let drawn = setup::placed(systems, ship, capital, j, rng).1;
                is_placed(
                    #[trigger] setup::placed(systems, ship, capital, n, rng).0[j],
                    j,
                    ship,
                    capital,
                    SystemId(drawn.spec_range(0, systems) as u32),
                ) && setup::placed(systems, ship, capital, j + 1, rng).1 == drawn.after_range(
                    0,
                    systems,
                )
            },
    decreases n,
{
    if n > 0 {
        lemma_traders_are_placed(systems, ship, capital, n - 1, rng);
        let before = setup::placed(systems, ship, capital, n - 1, rng).0;
        let after = setup::placed(systems, ship, capital, n, rng).0;
        assert forall|j: int| 0 <= j < n implies {
            let drawn = setup::placed(systems, ship, capital, j, rng).1;
            is_placed(
                #[trigger] after[j],
                j,
                ship,
                capital,
                SystemId(drawn.spec_range(0, systems) as u32),
            ) && setup::placed(systems, ship, capital, j + 1, rng).1 == drawn.after_range(0, systems)
        } by {
            if j < n - 1 {
                assert(after[j] == before[j]);
            } else {
                assert(after[j].cargo =~= Map::empty());
            }
        }
    }
}

/// Whether `t` is trader number `j` of the scenario, docked at `at`.
pub open spec fn is_placed(
    t: TraderView,
    j: int,
    ship: ShipId,
    capital: Money,
    at: SystemId,
) -> bool {
    &&& t.id.0 == j
    &&& t.ship == ship
    &&& t.capital == capital
    &&& t.cargo == Map::<CommodityId, Quantity>::empty()
    &&& t.location == TraderLocation::Docked(at)
    &&& t.owner == Owner::Npc
}

/// Settings come over as they are; an interval, a term or a bound of nothing counts as one.
pub proof fn lemma_settings_come_over(
    ship: ShipId,
    p: PiracyConfig,
    v: NavyConfig,
    e: EscortConfig,
    c: ContractConfig,
    l: LoanConfig,
    i: InsuranceConfig,
    f: FutureConfig,
)
    ensures
        ({
            let r = setup::piracy_terms(p, ship);
            &&& r.pirate_ship == ship
            &&& r.max_pirates >= 1 && (p.max_pirates >= 1 ==> r.max_pirates == p.max_pirates) && (
            p.max_pirates == 0 ==> r.max_pirates == 1)
            &&& r.respawn_delay == p.respawn_delay
            &&& r.fleet_size == p.fleet_size
            &&& r.bounty == p.bounty
            &&& same_or_one(p.reinforce_interval, r.reinforce_interval)
        }),
        ({
            let r = setup::navy_terms(v, ship);
            &&& r.navy_ship == ship
            &&& r.fleet_size == v.fleet_size
            &&& r.upkeep == v.upkeep
            &&& r.funding == v.funding
            &&& same_or_one(v.reinforce_interval, r.reinforce_interval)
        }),
        ({
            let r = setup::escort_terms(e, ship);
            r.escort_ship == ship && r.count == e.count && r.fee == e.fee
        }),
        ({
            let r = setup::contract_terms(c);
            &&& r.max_open == c.max_open
            &&& same_or_one(c.generation_interval, r.generation_interval)
            &&& same_or_one(c.deadline_ticks, r.deadline_ticks)
            &&& r.reward_factor == c.reward_factor
            &&& r.min_shortfall == c.min_shortfall
            &&& same_or_one(c.max_quantity as u64, r.max_quantity as u64)
            &&& r.bounty_target == c.bounty_target
            &&& r.bounty_reward == c.bounty_reward
            &&& r.courier_reward == c.courier_reward
        }),
        ({
            let r = setup::loan_terms(l);
            &&& r.rate_bps == l.rate_bps
            &&& same_or_one(l.accrual_interval, r.accrual_interval)
            &&& r.term_ticks == l.term_ticks
            &&& r.max_principal == l.max_principal
            &&& r.max_loans == l.max_loans
        }),
        ({
            let r = setup::insurance_terms(i);
            &&& r.premium == i.premium
            &&& r.payout == i.payout
            &&& same_or_one(i.term_ticks, r.term_ticks)
        }),
        ({
            let r = setup::future_terms(f);
            &&& r.fee == f.fee
            &&& same_or_one(f.term_ticks, r.term_ticks)
            &&& same_or_one(f.max_quantity as u64, r.max_quantity as u64)
            &&& r.max_futures == f.max_futures
        }),
{
}

/// Whether a setting came over: as it was, or as one where it was nothing.
pub open spec fn same_or_one(given: u64, taken: u64) -> bool {
    if given == 0 {
        taken == 1
    } else {
        taken == given
    }
}

/// Whether a ship of that name is registered.
pub open spec fn no_such_ship(reg: Registry, name: Seq<char>) -> bool {
    registry::handle_of(reg.spec_ship_ids(), name) is None
}

/// What a new world holds. The clock stands at nothing and the generator at the start of
/// its seed's stream, moved on only by what is placed. There is a market for each system,
/// there are the scenario's traders, and there are fleets of the size that was asked for,
/// wherever there is lawless space for them. No battle, contract, loan, policy, position,
/// command or event is there yet, and each part of the rules is in force just where the
/// scenario has it. What keeps a world from being built is an empty galaxy, a market that
/// does not serve its industries, or a ship that is not registered.
pub proof fn lemma_new_world(
    reg: Registry,
    s: ScenarioDef,
    seed: u64,
    pricing: PricingSet,
    tables: Tables,
    opening: Seq<Vec<Money>>,
)
    requires
        reg.spec_systems().len() <= u32::MAX,
    ensures
        match setup::built(reg, s, seed, pricing, tables, opening) {
            Ok(w) => {
                let lawless = exists|t: SystemId| #[trigger] without_law(reg, t);
                &&& reg.spec_systems().len() > 0
                &&& w.registry == reg && w.tables == tables
                &&& w.tick.0 == 0 && w.stage == Stage::Idle && w.treasury == 0
                &&& w.rng.seed == seed
                &&& w.markets.len() == reg.spec_systems().len()
                &&& forall|i: int|
                    0 <= i < w.markets.len() ==> market_of(
                        reg,
                        pricing,
                        opening,
                        i,
                        #[trigger] w.markets[i],
                    )
                &&& w.traders.len() == s.traders.count
                &&& w.next_trader_id == s.traders.count
                &&& forall|j: int|
                    0 <= j < w.traders.len() ==> (#[trigger] w.traders[j]).id.0 == j
                        && w.traders[j].capital == s.traders.starting_capital
                        && w.traders[j].owner == Owner::Npc && w.traders[j].location is Docked
                        && w.traders[j].cargo == Map::<CommodityId, Quantity>::empty()
                &&& w.pirates.len() == (match s.piracy {
                    Some(p) => if lawless {
                        p.fleet_size as nat
                    } else {
                        0
                    },
                    None => 0,
                })
                &&& w.navy.len() == (match s.navy {
                    Some(v) => if lawless {
                        v.fleet_size as nat
                    } else {
                        0
                    },
                    None => 0,
                })
                &&& w.next_patrol_id == w.pirates.len() + w.navy.len()
                &&& forall|i: int|
                    0 <= i < w.pirates.len() ==> (#[trigger] w.pirates[i]).id.0 == i
                        && w.pirates[i].location is Docked
                &&& forall|i: int|
                    0 <= i < w.navy.len() ==> (#[trigger] w.navy[i]).id.0 == w.pirates.len() + i
                        && w.navy[i].location is Docked
                &&& w.encounters.len() == 0 && w.contracts.len() == 0 && w.loans.len() == 0
                &&& w.policies.len() == 0 && w.futures.len() == 0
                &&& w.commands.len() == 0 && w.last_errors.len() == 0 && w.events.len() == 0
                &&& w.commands_applied == 0 && w.commands_rejected == 0
                &&& w.next_contract_id == 0 && w.next_loan_id == 0
                &&& w.piracy is Some == s.piracy is Some
                &&& w.navy_runtime is Some == s.navy is Some
                &&& w.escort is Some == s.escort is Some
                &&& w.contract_runtime is Some == s.contract is Some
                &&& w.loan_runtime is Some == s.loan is Some
                &&& w.insurance_runtime is Some == s.insurance is Some
                &&& w.future_runtime is Some == s.future is Some
            },
            Err(WorldErrorView::NoSystems) => reg.spec_systems().len() == 0,
            Err(WorldErrorView::UnknownShip(name)) => no_such_ship(reg, name) && {
                ||| s.traders.count > 0 && name == s.traders.ship@
                ||| s.piracy is Some && name == s.piracy->Some_0.pirate_ship@
                ||| s.navy is Some && name == s.navy->Some_0.ship@
                ||| s.escort is Some && name == s.escort->Some_0.ship@
            },
            Err(e) => exists|i: int|
                0 <= i < reg.spec_systems().len() && #[trigger] unserved_at(reg, opening, i, e),
        },
{
    let n = reg.spec_systems().len() as int;
    lemma_a_market_for_each_system(reg, pricing, opening, n);
    if n > 0 {
        if let Ok(markets) = setup::markets_built(reg, pricing, opening, n) {
            let w0 = setup::bare_world(reg, tables, markets, seed);
            let count = s.traders.count as int;
            if let Ok(w1) = setup::with_traders(w0, s) {
                if count > 0 {
                    let ship = setup::ship_named(reg, s.traders.ship@)->Ok_0;
                    lemma_traders_are_placed(
                        w0.systems() as u64,
                        ship,
                        s.traders.starting_capital,
                        count,
                        w0.rng,
                    );
                    lemma_placing_keeps_the_seed(
                        w0.systems() as u64,
                        ship,
                        s.traders.starting_capital,
                        count,
                        w0.rng,
                    );
                }
                assert(w1.rng.seed == seed);
                if let Some(p) = s.piracy {
                    if let Ok(ship) = setup::ship_named(reg, p.pirate_ship@) {
                        lemma_fleet_opens(w1, ship, p.fleet_size);
                    }
                }
                if let Ok(w2) = setup::with_piracy(w1, s) {
                    assert(w2.rng.seed == seed);
                    if let Some(v) = s.navy {
                        if let Ok(ship) = setup::ship_named(reg, v.ship@) {
                            lemma_fleet_opens(w2, ship, v.fleet_size);
                        }
                    }
                }
            }
        }
    }
}

proof fn lemma_placing_keeps_the_seed(
    systems: u64,
    ship: ShipId,
    capital: Money,
    n: int,
    rng: DetRng,
)
    ensures
        setup::placed(systems, ship, capital, n, rng).1.seed == rng.seed,
    decreases n,
{
    if n > 0 {
        lemma_placing_keeps_the_seed(systems, ship, capital, n - 1, rng);
    }
}

proof fn lemma_topping_keeps_the_seed(
    reg: Registry,
    cutoffs: Seq<u64>,
    ship: ShipId,
    target: nat,
    s: FleetState,
)
    ensures
        fleet::topped_up(reg, cutoffs, ship, target, s).rng.seed == s.rng.seed,
    decreases target - s.fleet.len(),
{
    let all = fleet::lawless_systems(reg);
    if s.fleet.len() < target && all.len() > 0 {
        let (at, rng) = fleet::weighted(all, cutoffs, s.rng);
        let def = reg.spec_ships()[ship.0 as int];
        let p = Patrol::spec_new(
            PatrolId(s.next_id),
            ship,
            def.spec_stats(),
            def.hull,
            at->Some_0,
        );
        lemma_topping_keeps_the_seed(
            reg,
            cutoffs,
            ship,
            target,
            FleetState { fleet: s.fleet.push(p), rng, next_id: s.next_id.wrapping_add(1) },
        );
    }
}

proof fn lemma_fleet_opens(w: WorldView, ship: ShipId, size: u32)
    requires
        w.registry.spec_systems().len() <= u32::MAX,
        w.next_patrol_id <= u32::MAX,
    ensures
        ({
            let f = fleet::topped_up(
                w.registry,
                w.tables.spawn_cutoffs@,
                ship,
                size as nat,
                FleetState { fleet: Seq::empty(), rng: w.rng, next_id: w.next_patrol_id },
            );
            let lawless = exists|t: SystemId| #[trigger] without_law(w.registry, t);
            &&& f.fleet.len() == (if lawless {
                size as nat
            } else {
                0
            })
            &&& f.next_id == w.next_patrol_id + f.fleet.len()
            &&& f.rng.seed == w.rng.seed
            &&& forall|i: int|
                0 <= i < f.fleet.len() ==> (#[trigger] f.fleet[i]).id.0 == w.next_patrol_id + i
                    && f.fleet[i].location is Docked
        }),
{
    let s = FleetState { fleet: Seq::empty(), rng: w.rng, next_id: w.next_patrol_id };
    musters::lemma_topping_up(w.registry, w.tables.spawn_cutoffs@, ship, size as nat, s);
    lemma_topping_keeps_the_seed(w.registry, w.tables.spawn_cutoffs@, ship, size as nat, s);
    let f = fleet::topped_up(
        w.registry,
        w.tables.spawn_cutoffs@,
        ship,
        size as nat,
        s,
    );
    assert forall|i: int| 0 <= i < f.fleet.len() implies (#[trigger] f.fleet[i]).id.0
        == w.next_patrol_id + i && f.fleet[i].location is Docked by {
        assert(musters::recruit(w.registry, ship, f.fleet[i]));
    }
}

} // verus!
