//! Building a world from linked content and a scenario.

use std::collections::VecDeque;
use std::sync::Arc;
use vstd::prelude::*;
use vstd::string::StringExecFns;

use crate::by_id::ById;
use crate::ids::{CommodityId, Money, Owner, Quantity, RecipeId, ShipId, SystemId, Tick, TraderId};
use crate::market;
use crate::market::{Market, MarketGood, MarketView};
use crate::patrol::Patrol;
use crate::pricing::PricingSet;
use crate::registry;
use crate::registry::{Registry, ResolvedRecipe};
use crate::rng::DetRng;
use crate::scenario::{
    ContractConfig, EscortConfig, FutureConfig, InsuranceConfig, LoanConfig, NavyConfig,
    PiracyConfig, ScenarioDef,
};
use crate::trader;
use crate::trader::{Trader, TraderView};
use crate::world;
use crate::world::fleet;
use crate::world::fleet::FleetState;
use crate::world::{
    ContractRuntime, EscortRuntime, FutureRuntime, InsuranceRuntime, LoanRuntime, NavyRuntime,
    PiracyRuntime, PiracyStats, Stage, Tables, World, WorldView,
};

verus! {

/// Why a world cannot be built.
#[derive(Debug, Clone)]
pub enum WorldError {
    /// The scenario names a ship that does not exist.
    UnknownShip(String),
    /// A system runs an industry on a commodity it does not trade.
    MissingIndustryCommodity { system: String, commodity: String },
    /// The galaxy is empty.
    NoSystems,
}

/// A [`WorldError`] as a mathematical value.
#[verifier::ext_equal]
pub enum WorldErrorView {
    UnknownShip(Seq<char>),
    MissingIndustryCommodity { system: Seq<char>, commodity: Seq<char> },
    NoSystems,
}

impl View for WorldError {
    type V = WorldErrorView;

    open spec fn view(&self) -> WorldErrorView {
        match self {
            WorldError::UnknownShip(s) => WorldErrorView::UnknownShip(s@),
            WorldError::MissingIndustryCommodity {
                system,
                commodity,
            } => WorldErrorView::MissingIndustryCommodity {
                system: system@,
                commodity: commodity@,
            },
            WorldError::NoSystems => WorldErrorView::NoSystems,
        }
    }
}

impl WorldErrorView {
    /// The error as text.
    pub open spec fn message(self) -> Seq<char> {
        match self {
            WorldErrorView::UnknownShip(s) => "scenario references unknown ship '"@ + s + "'"@,
            WorldErrorView::MissingIndustryCommodity { system, commodity } => "system '"@ + system
                + "' runs an industry using commodity '"@ + commodity
                + "', which it does not trade (add it to initial_stock)"@,
            WorldErrorView::NoSystems => "the galaxy has no systems"@,
        }
    }
}

impl WorldError {
    /// The error as text.
    pub fn message(&self) -> (s: String)
        ensures
            s@ == self@.message(),
    {
        let mut s = String::new();
        match self {
            WorldError::UnknownShip(name) => {
                s.append("scenario references unknown ship '");
                s.append(name.as_str());
                s.append("'");
            },
            WorldError::MissingIndustryCommodity { system, commodity } => {
                s.append("system '");
                s.append(system.as_str());
                s.append("' runs an industry using commodity '");
                s.append(commodity.as_str());
                s.append("', which it does not trade (add it to initial_stock)");
            },
            WorldError::NoSystems => {
                s.append("the galaxy has no systems");
            },
        }
        assert(s@ =~= self@.message());
        s
    }
}

/// The opening price of entry `j` of the stock of system `i`, at least one credit.
pub open spec fn opening_price(opening: Seq<Vec<Money>>, i: int, j: int) -> Money {
    if 0 <= i < opening.len() && 0 <= j < opening[i]@.len() && opening[i]@[j] > 1 {
        opening[i]@[j]
    } else {
        1
    }
}

/// The goods of system `i` after the first `n` entries of its stock; the stock a market
/// opens with is its anchor.
pub open spec fn opening_goods(
    stock: Seq<(CommodityId, Quantity)>,
    opening: Seq<Vec<Money>>,
    i: int,
    n: int,
) -> Map<CommodityId, MarketGood>
    decreases n,
{
    if n <= 0 {
        Map::empty()
    } else {
        let (c, qty) = stock[n - 1];
        opening_goods(stock, opening, i, n - 1).insert(
            c,
            MarketGood {
                stock: qty,
                equilibrium: qty,
                price: opening_price(opening, i, n - 1),
            },
        )
    }
}

/// The first of the first `n` amounts whose commodity is not among `goods`.
pub open spec fn untraded(
    amounts: Seq<(CommodityId, Quantity)>,
    goods: Map<CommodityId, MarketGood>,
    n: int,
) -> Option<CommodityId>
    decreases n,
{
    if n <= 0 {
        None
    } else {
        match untraded(amounts, goods, n - 1) {
            Some(c) => Some(c),
            None => if goods.contains_key(amounts[n - 1].0) {
                None
            } else {
                Some(amounts[n - 1].0)
            },
        }
    }
}

/// The first commodity that a recipe uses, inputs before outputs, and that is not among
/// `goods`.
pub open spec fn unmet(r: ResolvedRecipe, goods: Map<CommodityId, MarketGood>) -> Option<
    CommodityId,
> {
    match untraded(r.inputs@, goods, r.inputs@.len() as int) {
        Some(c) => Some(c),
        None => untraded(r.outputs@, goods, r.outputs@.len() as int),
    }
}

/// The first commodity that one of the first `n` industries uses and that is not among
/// `goods`.
pub open spec fn unserved(
    reg: Registry,
    industries: Seq<RecipeId>,
    goods: Map<CommodityId, MarketGood>,
    n: int,
) -> Option<CommodityId>
    decreases n,
{
    if n <= 0 {
        None
    } else {
        match unserved(reg, industries, goods, n - 1) {
            Some(c) => Some(c),
            None => unmet(reg.spec_recipes()[industries[n - 1].0 as int], goods),
        }
    }
}

/// The market of system `i`, or what keeps it from being built.
pub open spec fn market_built(
    reg: Registry,
    pricing: PricingSet,
    opening: Seq<Vec<Money>>,
    i: int,
) -> Result<MarketView, WorldErrorView> {
    let s = reg.spec_systems()[i];
    let goods = opening_goods(s.initial_stock@, opening, i, s.initial_stock@.len() as int);
    match unserved(reg, s.industries@, goods, s.industries@.len() as int) {
        Some(c) => Err(
            WorldErrorView::MissingIndustryCommodity {
                system: reg.spec_system_name(s.id),
                commodity: reg.spec_commodity_name(c),
            },
        ),
        None => Ok(
            MarketView { system: s.id, pricing: pricing.named(s.pricing@)->Some_0, goods },
        ),
    }
}

/// The markets of the first `n` systems, or what keeps the first of them from being
/// built.
pub open spec fn markets_built(
    reg: Registry,
    pricing: PricingSet,
    opening: Seq<Vec<Money>>,
    n: int,
) -> Result<Seq<MarketView>, WorldErrorView>
    decreases n,
{
    if n <= 0 {
        Ok(Seq::empty())
    } else {
        match markets_built(reg, pricing, opening, n - 1) {
            Err(e) => Err(e),
            Ok(list) => match market_built(reg, pricing, opening, n - 1) {
                Err(e) => Err(e),
                Ok(m) => Ok(list.push(m)),
            },
        }
    }
}

/// The handle of a ship.
pub open spec fn ship_named(reg: Registry, name: Seq<char>) -> Result<ShipId, WorldErrorView> {
    match registry::handle_of(reg.spec_ship_ids(), name) {
        Some(h) => Ok(ShipId(h)),
        None => Err(WorldErrorView::UnknownShip(name)),
    }
}

/// `n` traders placed on random systems, numbered from zero.
pub open spec fn placed(
    systems: u64,
    ship: ShipId,
    capital: Money,
    n: int,
    rng: DetRng,
) -> (Seq<TraderView>, DetRng)
    decreases n,
{
    if n <= 0 {
        (Seq::empty(), rng)
    } else {
        let (list, r) = placed(systems, ship, capital, n - 1, rng);
        (
            list.push(
                TraderView::fresh(
                    TraderId((n - 1) as u64),
                    ship,
                    capital,
                    SystemId(r.spec_range(0, systems) as u32),
                    Owner::Npc,
                ),
            ),
            r.after_range(0, systems),
        )
    }
}

/// The larger of two numbers.
pub open spec fn at_least(x: u64, least: u64) -> u64 {
    if x < least {
        least
    } else {
        x
    }
}

/// Resolved piracy settings; a zero that makes no sense counts as one.
pub open spec fn piracy_terms(cfg: PiracyConfig, ship: ShipId) -> PiracyRuntime {
    PiracyRuntime {
        pirate_ship: ship,
        max_pirates: if cfg.max_pirates < 1 {
            1
        } else {
            cfg.max_pirates
        },
        respawn_delay: cfg.respawn_delay,
        fleet_size: cfg.fleet_size,
        bounty: cfg.bounty,
        reinforce_interval: at_least(cfg.reinforce_interval, 1),
    }
}

/// Resolved navy settings.
pub open spec fn navy_terms(cfg: NavyConfig, ship: ShipId) -> NavyRuntime {
    NavyRuntime {
        navy_ship: ship,
        fleet_size: cfg.fleet_size,
        reinforce_interval: at_least(cfg.reinforce_interval, 1),
        upkeep: cfg.upkeep,
        funding: cfg.funding,
    }
}

/// Resolved escort settings.
pub open spec fn escort_terms(cfg: EscortConfig, ship: ShipId) -> EscortRuntime {
    EscortRuntime { escort_ship: ship, count: cfg.count, fee: cfg.fee }
}

/// Contract-board settings; a zero that makes no sense counts as one.
pub open spec fn contract_terms(cfg: ContractConfig) -> ContractRuntime {
    ContractRuntime {
        max_open: cfg.max_open,
        generation_interval: at_least(cfg.generation_interval, 1),
        deadline_ticks: at_least(cfg.deadline_ticks, 1),
        reward_factor: cfg.reward_factor,
        min_shortfall: cfg.min_shortfall,
        max_quantity: if cfg.max_quantity < 1 {
            1
        } else {
            cfg.max_quantity
        },
        bounty_target: cfg.bounty_target,
        bounty_reward: cfg.bounty_reward,
        courier_reward: cfg.courier_reward,
    }
}

/// Lending terms.
pub open spec fn loan_terms(cfg: LoanConfig) -> LoanRuntime {
    LoanRuntime {
        rate_bps: cfg.rate_bps,
        accrual_interval: at_least(cfg.accrual_interval, 1),
        term_ticks: cfg.term_ticks,
        max_principal: cfg.max_principal,
        max_loans: cfg.max_loans,
    }
}

/// Insurance terms.
pub open spec fn insurance_terms(cfg: InsuranceConfig) -> InsuranceRuntime {
    InsuranceRuntime {
        premium: cfg.premium,
        payout: cfg.payout,
        term_ticks: at_least(cfg.term_ticks, 1),
    }
}

/// Futures-market terms.
pub open spec fn future_terms(cfg: FutureConfig) -> FutureRuntime {
    FutureRuntime {
        fee: cfg.fee,
        term_ticks: at_least(cfg.term_ticks, 1),
        max_quantity: if cfg.max_quantity < 1 {
            1
        } else {
            cfg.max_quantity
        },
        max_futures: cfg.max_futures,
    }
}

/// A world with nothing in it but its markets.
pub open spec fn bare_world(
    reg: Registry,
    tables: Tables,
    markets: Seq<MarketView>,
    seed: u64,
) -> WorldView {
    WorldView {
        registry: reg,
        tables,
        tick: Tick(0),
        stage: Stage::Idle,
        rng: DetRng::spec_from_seed(seed),
        markets,
        traders: Seq::empty(),
        piracy: None,
        piracy_stats: world::no_stats(),
        pirates: Seq::empty(),
        navy_runtime: None,
        navy: Seq::empty(),
        encounters: Seq::empty(),
        next_patrol_id: 0,
        escort: None,
        treasury: 0,
        contract_runtime: None,
        contracts: Seq::empty(),
        next_contract_id: 0,
        loan_runtime: None,
        loans: Seq::empty(),
        next_loan_id: 0,
        insurance_runtime: None,
        policies: Seq::empty(),
        future_runtime: None,
        futures: Seq::empty(),
        commands: Seq::empty(),
        commands_applied: 0,
        commands_rejected: 0,
        last_errors: Seq::empty(),
        next_trader_id: 0,
        events: Seq::empty(),
    }
}

/// The world with the scenario's traders. Their ship matters only where there are any.
pub open spec fn with_traders(w: WorldView, s: ScenarioDef) -> Result<WorldView, WorldErrorView> {
    if s.traders.count == 0 {
        Ok(w)
    } else {
        match ship_named(w.registry, s.traders.ship@) {
            Err(e) => Err(e),
            Ok(ship) => {
                let (list, rng) = placed(
                    w.systems() as u64,
                    ship,
                    s.traders.starting_capital,
                    s.traders.count as int,
                    w.rng,
                );
                Ok(WorldView { traders: list, rng, next_trader_id: s.traders.count as u64, ..w })
            },
        }
    }
}

/// The world with the scenario's pirates.
pub open spec fn with_piracy(w: WorldView, s: ScenarioDef) -> Result<WorldView, WorldErrorView> {
    match s.piracy {
        None => Ok(w),
        Some(cfg) => match ship_named(w.registry, cfg.pirate_ship@) {
            Err(e) => Err(e),
            Ok(ship) => {
                let f = fleet::topped_up(
                    w.registry,
                    w.tables.spawn_cutoffs@,
                    ship,
                    cfg.fleet_size as nat,
                    FleetState { fleet: Seq::empty(), rng: w.rng, next_id: w.next_patrol_id },
                );
                Ok(
                    WorldView {
                        piracy: Some(piracy_terms(cfg, ship)),
                        pirates: f.fleet,
                        rng: f.rng,
                        next_patrol_id: f.next_id,
                        ..w
                    },
                )
            },
        },
    }
}

/// The world with the scenario's navy.
pub open spec fn with_navy(w: WorldView, s: ScenarioDef) -> Result<WorldView, WorldErrorView> {
    match s.navy {
        None => Ok(w),
        Some(cfg) => match ship_named(w.registry, cfg.ship@) {
            Err(e) => Err(e),
            Ok(ship) => {
                let f = fleet::topped_up(
                    w.registry,
                    w.tables.spawn_cutoffs@,
                    ship,
                    cfg.fleet_size as nat,
                    FleetState { fleet: Seq::empty(), rng: w.rng, next_id: w.next_patrol_id },
                );
                Ok(
                    WorldView {
                        navy_runtime: Some(navy_terms(cfg, ship)),
                        navy: f.fleet,
                        rng: f.rng,
                        next_patrol_id: f.next_id,
                        ..w
                    },
                )
            },
        },
    }
}

/// The world with the scenario's escorts.
pub open spec fn with_escort(w: WorldView, s: ScenarioDef) -> Result<WorldView, WorldErrorView> {
    match s.escort {
        None => Ok(w),
        Some(cfg) => match ship_named(w.registry, cfg.ship@) {
            Err(e) => Err(e),
            Ok(ship) => Ok(WorldView { escort: Some(escort_terms(cfg, ship)), ..w }),
        },
    }
}

/// The world with the scenario's contract board and financial terms.
pub open spec fn with_terms(w: WorldView, s: ScenarioDef) -> WorldView {
    WorldView {
        contract_runtime: match s.contract {
            Some(cfg) => Some(contract_terms(cfg)),
            None => None,
        },
        loan_runtime: match s.loan {
            Some(cfg) => Some(loan_terms(cfg)),
            None => None,
        },
        insurance_runtime: match s.insurance {
            Some(cfg) => Some(insurance_terms(cfg)),
            None => None,
        },
        future_runtime: match s.future {
            Some(cfg) => Some(future_terms(cfg)),
            None => None,
        },
        ..w
    }
}

/// The world that linked content and a scenario make, or the first thing that keeps it
/// from being built: an empty galaxy, a market, then the ships of traders, pirates,
/// navy and escorts.
pub open spec fn built(
    reg: Registry,
    s: ScenarioDef,
    seed: u64,
    pricing: PricingSet,
    tables: Tables,
    opening: Seq<Vec<Money>>,
) -> Result<WorldView, WorldErrorView> {
    if reg.spec_systems().len() == 0 {
        Err(WorldErrorView::NoSystems)
    } else {
        match markets_built(reg, pricing, opening, reg.spec_systems().len() as int) {
            Err(e) => Err(e),
            Ok(markets) => match with_traders(bare_world(reg, tables, markets, seed), s) {
                Err(e) => Err(e),
                Ok(w1) => match with_piracy(w1, s) {
                    Err(e) => Err(e),
                    Ok(w2) => match with_navy(w2, s) {
                        Err(e) => Err(e),
                        Ok(w3) => match with_escort(w3, s) {
                            Err(e) => Err(e),
                            Ok(w4) => Ok(with_terms(w4, s)),
                        },
                    },
                },
            },
        }
    }
}

/// The first of the amounts whose commodity is not among `goods`.
fn find_untraded(
    amounts: &Vec<(CommodityId, Quantity)>,
    goods: &ById<MarketGood>,
) -> (r: Option<CommodityId>)
    ensures
        r == untraded(amounts@, goods@, amounts@.len() as int),
{
    let mut k: usize = 0;
    let mut found: Option<CommodityId> = None;
    while k < amounts.len()
        invariant
            k <= amounts@.len(),
            found == untraded(amounts@, goods@, k as int),
        decreases amounts@.len() - k,
    {
        if found.is_none() && !goods.contains_key(&amounts[k].0) {
            found = Some(amounts[k].0);
        }
        k = k + 1;
    }
    found
}

/// The first commodity that an industry uses and that is not among `goods`.
fn find_unserved(
    reg: &Registry,
    industries: &Vec<RecipeId>,
    goods: &ById<MarketGood>,
) -> (r: Option<CommodityId>)
    requires
        forall|j: int|
            0 <= j < industries@.len() ==> (#[trigger] industries@[j]).0
                < reg.spec_recipes().len(),
    ensures
        r == unserved(*reg, industries@, goods@, industries@.len() as int),
{
    let mut k: usize = 0;
    let mut found: Option<CommodityId> = None;
    while k < industries.len()
        invariant
            k <= industries@.len(),
            forall|j: int|
                0 <= j < industries@.len() ==> (#[trigger] industries@[j]).0
                    < reg.spec_recipes().len(),
            found == unserved(*reg, industries@, goods@, k as int),
        decreases industries@.len() - k,
    {
        if found.is_none() {
            let r = reg.recipe(industries[k]);
            found = match find_untraded(&r.inputs, goods) {
                Some(c) => Some(c),
                None => find_untraded(&r.outputs, goods),
            };
        }
        k = k + 1;
    }
    found
}

/// Whether every good of an opening market is known and costs something.
spec fn goods_ok(goods: Map<CommodityId, MarketGood>, n: nat) -> bool {
    forall|c: CommodityId| #[trigger] goods.contains_key(c) ==> c.0 < n && goods[c].price >= 1
}

/// The goods of a market that opens with this stock.
fn stock_goods(
    stock: &Vec<(CommodityId, Quantity)>,
    opening: &Vec<Vec<Money>>,
    i: usize,
    Ghost(n): Ghost<nat>,
) -> (goods: ById<MarketGood>)
    requires
        registry::amounts_in_range(stock@, n),
    ensures
        goods@ == opening_goods(stock@, opening@, i as int, stock@.len() as int),
        goods_ok(goods@, n),
{
    let mut goods: ById<MarketGood> = ById::new();
    let mut j: usize = 0;
    while j < stock.len()
        invariant
            j <= stock@.len(),
            registry::amounts_in_range(stock@, n),
            goods@ == opening_goods(stock@, opening@, i as int, j as int),
            goods_ok(goods@, n),
        decreases stock@.len() - j,
    {
        let (c, qty) = stock[j];
        let price: Money = if i < opening.len() && j < opening[i].len() && opening[i][j] > 1 {
            opening[i][j]
        } else {
            1
        };
        goods.insert(c, MarketGood { stock: qty, equilibrium: qty, price });
        j = j + 1;
    }
    goods
}

/// Every system names a registered pricing strategy.
pub open spec fn priced(reg: Registry, pricing: PricingSet) -> bool {
    forall|i: int|
        0 <= i < reg.spec_systems().len() ==> pricing.named(
            (#[trigger] reg.spec_systems()[i]).pricing@,
        ) is Some
}

/// Build the market of every system.
fn build_markets(reg: &Registry, pricing: &PricingSet, opening: &Vec<Vec<Money>>) -> (r: Result<
    Vec<Market>,
    WorldError,
>)
    requires
        reg.wf(),
        reg.numbered(),
        priced(*reg, *pricing),
    ensures
        match r {
            Ok(list) => markets_built(
                *reg,
                *pricing,
                opening@,
                reg.spec_systems().len() as int,
            ) == Ok::<Seq<MarketView>, WorldErrorView>(market::market_views(list@))
                && list@.len() == reg.spec_systems().len() && forall|i: int|
                0 <= i < list@.len() ==> (#[trigger] list@[i]).system.0 == i && goods_ok(
                    list@[i].goods@,
                    reg.spec_commodities().len(),
                ),
            Err(e) => markets_built(*reg, *pricing, opening@, reg.spec_systems().len() as int)
                == Err::<Seq<MarketView>, WorldErrorView>(e@),
        },
{
    let n = reg.system_count();
    let ghost total = reg.spec_commodities().len();
    let mut list: Vec<Market> = Vec::new();
    let mut i: usize = 0;
    assert(market::market_views(list@) =~= Seq::empty());
    while i < n
        invariant
            i <= n,
            n == reg.spec_systems().len(),
            n <= u32::MAX,
            total == reg.spec_commodities().len(),
            reg.wf(),
            reg.numbered(),
            priced(*reg, *pricing),
            list@.len() == i,
            markets_built(*reg, *pricing, opening@, i as int) == Ok::<
                Seq<MarketView>,
                WorldErrorView,
            >(market::market_views(list@)),
            forall|k: int|
                0 <= k < list@.len() ==> (#[trigger] list@[k]).system.0 == k && goods_ok(
                    list@[k].goods@,
                    total,
                ),
        decreases n - i,
    {
        let s = reg.system(SystemId(i as u32));
        assert(reg.system_in_range(reg.spec_systems()[i as int]));
        let goods = stock_goods(&s.initial_stock, opening, i, Ghost(total));
        let strategy = match pricing.resolve(s.pricing.as_str()) {
            Ok(h) => h,
            Err(_) => {
                assert(false);
                return Err(WorldError::NoSystems);
            },
        };
        match find_unserved(reg, &s.industries, &goods) {
            Some(c) => {
                let e = WorldError::MissingIndustryCommodity {
                    system: reg.system_name(s.id).to_owned(),
                    commodity: reg.commodity_name(c).to_owned(),
                };
                assert(market_built(*reg, *pricing, opening@, i as int) == Err::<
                    MarketView,
                    WorldErrorView,
                >(e@));
                proof {
                    lemma_build_fails(*reg, *pricing, opening@, i as int, n as int, e@);
                }
                return Err(e);
            },
            None => {},
        }
        let ghost before = list@;
        let m = Market { system: s.id, pricing: strategy, goods };
        list.push(m);
        assert(market::market_views(list@) =~= market::market_views(before).push(m@));
        i = i + 1;
    }
    Ok(list)
}

/// A market that cannot be built keeps the rest from being built.
proof fn lemma_build_fails(
    reg: Registry,
    pricing: PricingSet,
    opening: Seq<Vec<Money>>,
    i: int,
    n: int,
    e: WorldErrorView,
)
    requires
        0 <= i < n,
        markets_built(reg, pricing, opening, i) is Ok,
        market_built(reg, pricing, opening, i) == Err::<MarketView, WorldErrorView>(e),
    ensures
        markets_built(reg, pricing, opening, n) == Err::<Seq<MarketView>, WorldErrorView>(e),
    decreases n,
{
    if i < n - 1 {
        lemma_build_fails(reg, pricing, opening, i, n - 1, e);
    }
}

/// Look a ship up.
fn find_ship(reg: &Registry, name: &String) -> (r: Result<ShipId, WorldError>)
    requires
        reg.wf(),
    ensures
        match r {
            Ok(ship) => ship_named(*reg, name@) == Ok::<ShipId, WorldErrorView>(ship) && ship.0
                < reg.spec_ships().len(),
            Err(e) => ship_named(*reg, name@) == Err::<ShipId, WorldErrorView>(e@),
        },
{
    match reg.ship_id(name.as_str()) {
        Some(ship) => {
            proof {
                reg.spec_ship_ids().index_of_first_ensures(name@);
            }
            Ok(ship)
        },
        None => Err(WorldError::UnknownShip(name.as_str().to_owned())),
    }
}

/// The larger of two numbers.
fn no_less(x: u64, least: u64) -> (r: u64)
    ensures
        r == at_least(x, least),
{
    if x < least {
        least
    } else {
        x
    }
}

/// `x`, but at least one.
fn positive(x: u32) -> (r: u32)
    ensures
        r == (if x < 1 {
            1
        } else {
            x
        }),
{
    if x < 1 {
        1
    } else {
        x
    }
}

impl World {
    /// Place the scenario's traders.
    fn add_traders(&mut self, s: &ScenarioDef) -> (r: Result<(), WorldError>)
        requires
            old(self)@.wf(),
            old(self)@.traders.len() == 0,
            old(self)@.next_trader_id == 0,
        ensures
            match r {
                Ok(_) => with_traders(old(self)@, *s) == Ok::<WorldView, WorldErrorView>(
                    final(self)@,
                ) && final(self)@.wf(),
                Err(e) => with_traders(old(self)@, *s) == Err::<WorldView, WorldErrorView>(e@),
            },
    {
        let ghost w = self@;
        if s.traders.count == 0 {
            return Ok(());
        }
        let ship = match find_ship(&self.registry, &s.traders.ship) {
            Ok(ship) => ship,
            Err(e) => {
                return Err(e);
            },
        };
        let n = self.registry.system_count();
        let capital = s.traders.starting_capital;
        let mut rng = self.rng;
        let mut list: Vec<Trader> = Vec::new();
        let mut k: u32 = 0;
        assert(trader::trader_views(list@) =~= Seq::empty());
        while k < s.traders.count
            invariant
                k <= s.traders.count,
                n == w.systems(),
                0 < n <= u32::MAX,
                ship.0 < w.ships(),
                list@.len() == k,
                (trader::trader_views(list@), rng) == placed(
                    n as u64,
                    ship,
                    capital,
                    k as int,
                    w.rng,
                ),
                forall|i: int|
                    0 <= i < list@.len() ==> w.trader_ok((#[trigger] list@[i])@),
            decreases s.traders.count - k,
        {
            let at = SystemId(rng.range_usize(0, n) as u32);
            let ghost before = list@;
            let t = Trader::new(TraderId(k as u64), ship, capital, at);
            assert(w.trader_ok(t@));
            list.push(t);
            assert(trader::trader_views(list@) =~= trader::trader_views(before).push(t@));
            k = k + 1;
        }
        self.rng = rng;
        self.next_trader_id = k as u64;
        self.traders = list;
        proof {
            let v = self@;
            assert(v =~= with_traders(w, *s)->Ok_0);
            assert forall|i: int| 0 <= i < v.traders.len() implies v.trader_ok(
                #[trigger] v.traders[i],
            ) by {
                assert(w.trader_ok(self.traders@[i]@));
            }
            assert(v.wf());
        }
        Ok(())
    }

    /// Raise the pirate fleet.
    fn add_piracy(&mut self, s: &ScenarioDef) -> (r: Result<(), WorldError>)
        requires
            old(self)@.wf(),
            old(self)@.piracy is None,
        ensures
            match r {
                Ok(_) => with_piracy(old(self)@, *s) == Ok::<WorldView, WorldErrorView>(
                    final(self)@,
                ) && final(self)@.wf(),
                Err(e) => with_piracy(old(self)@, *s) == Err::<WorldView, WorldErrorView>(e@),
            },
    {
        let ghost w = self@;
        let cfg = match &s.piracy {
            Some(cfg) => cfg,
            None => {
                return Ok(());
            },
        };
        let ship = match find_ship(&self.registry, &cfg.pirate_ship) {
            Ok(ship) => ship,
            Err(e) => {
                return Err(e);
            },
        };
        let (list, rng, next) = self.raise_fleet(ship, cfg.fleet_size);
        self.rng = rng;
        self.next_patrol_id = next;
        self.pirates = list;
        self.piracy = Some(
            PiracyRuntime {
                pirate_ship: ship,
                max_pirates: positive(cfg.max_pirates),
                respawn_delay: cfg.respawn_delay,
                fleet_size: cfg.fleet_size,
                bounty: cfg.bounty,
                reinforce_interval: no_less(cfg.reinforce_interval, 1),
            },
        );
        proof {
            let v = self@;
            assert(v =~= with_piracy(w, *s)->Ok_0);
            assert forall|i: int| 0 <= i < v.pirates.len() implies v.patrol_ok(
                #[trigger] v.pirates[i],
            ) by {
                assert(fleet::patrol_fits(w.registry, list@[i]));
            }
            assert forall|i: int| 0 <= i < v.traders.len() implies v.trader_ok(
                #[trigger] v.traders[i],
            ) by {
                assert(w.trader_ok(w.traders[i]));
            }
            assert(v.wf());
        }
        Ok(())
    }

    /// A fresh fleet of this ship, with the random source and the next patrol id after
    /// raising it.
    fn raise_fleet(&self, ship: ShipId, size: u32) -> (r: (Vec<Patrol>, DetRng, u64))
        requires
            self@.wf(),
            ship.0 < self@.ships(),
        ensures
            (FleetState { fleet: r.0@, rng: r.1, next_id: r.2 }) == fleet::topped_up(
                self@.registry,
                self@.tables.spawn_cutoffs@,
                ship,
                size as nat,
                FleetState {
                    fleet: Seq::empty(),
                    rng: self@.rng,
                    next_id: self@.next_patrol_id,
                },
            ),
            fleet::fleet_fits(self@.registry, r.0@),
            r.0@.len() <= size,
    {
        let mut list: Vec<Patrol> = Vec::new();
        let mut rng = self.rng;
        let mut next = self.next_patrol_id;
        fleet::top_up(
            &self.registry,
            &self.tables.spawn_cutoffs,
            ship,
            size,
            &mut list,
            &mut rng,
            &mut next,
        );
        (list, rng, next)
    }

    /// Raise the navy.
    fn add_navy(&mut self, s: &ScenarioDef) -> (r: Result<(), WorldError>)
        requires
            old(self)@.wf(),
            old(self)@.navy_runtime is None,
        ensures
            match r {
                Ok(_) => with_navy(old(self)@, *s) == Ok::<WorldView, WorldErrorView>(
                    final(self)@,
                ) && final(self)@.wf(),
                Err(e) => with_navy(old(self)@, *s) == Err::<WorldView, WorldErrorView>(e@),
            },
    {
        let ghost w = self@;
        let cfg = match &s.navy {
            Some(cfg) => cfg,
            None => {
                return Ok(());
            },
        };
        let ship = match find_ship(&self.registry, &cfg.ship) {
            Ok(ship) => ship,
            Err(e) => {
                return Err(e);
            },
        };
        let (list, rng, next) = self.raise_fleet(ship, cfg.fleet_size);
        self.rng = rng;
        self.next_patrol_id = next;
        self.navy = list;
        self.navy_runtime = Some(
            NavyRuntime {
                navy_ship: ship,
                fleet_size: cfg.fleet_size,
                reinforce_interval: no_less(cfg.reinforce_interval, 1),
                upkeep: cfg.upkeep,
                funding: cfg.funding,
            },
        );
        proof {
            let v = self@;
            assert(v =~= with_navy(w, *s)->Ok_0);
            assert forall|i: int| 0 <= i < v.navy.len() implies v.patrol_ok(
                #[trigger] v.navy[i],
            ) by {
                assert(fleet::patrol_fits(w.registry, list@[i]));
            }
            assert forall|i: int| 0 <= i < v.traders.len() implies v.trader_ok(
                #[trigger] v.traders[i],
            ) by {
                assert(w.trader_ok(w.traders[i]));
            }
            assert(v.wf());
        }
        Ok(())
    }

    /// Hire the escorts.
    fn add_escort(&mut self, s: &ScenarioDef) -> (r: Result<(), WorldError>)
        requires
            old(self)@.wf(),
        ensures
            match r {
                Ok(_) => with_escort(old(self)@, *s) == Ok::<WorldView, WorldErrorView>(
                    final(self)@,
                ) && final(self)@.wf(),
                Err(e) => with_escort(old(self)@, *s) == Err::<WorldView, WorldErrorView>(e@),
            },
    {
        let cfg = match &s.escort {
            Some(cfg) => cfg,
            None => {
                return Ok(());
            },
        };
        let ship = match find_ship(&self.registry, &cfg.ship) {
            Ok(ship) => ship,
            Err(e) => {
                return Err(e);
            },
        };
        self.escort = Some(EscortRuntime { escort_ship: ship, count: cfg.count, fee: cfg.fee });
        assert(self@.wf());
        Ok(())
    }

    /// Set the contract board and the financial terms.
    fn add_terms(&mut self, s: &ScenarioDef)
        requires
            old(self)@.wf(),
        ensures
            final(self)@ == with_terms(old(self)@, *s),
            final(self)@.wf(),
    {
        self.contract_runtime = match &s.contract {
            Some(cfg) => Some(
                ContractRuntime {
                    max_open: cfg.max_open,
                    generation_interval: no_less(cfg.generation_interval, 1),
                    deadline_ticks: no_less(cfg.deadline_ticks, 1),
                    reward_factor: cfg.reward_factor,
                    min_shortfall: cfg.min_shortfall,
                    max_quantity: positive(cfg.max_quantity),
                    bounty_target: cfg.bounty_target,
                    bounty_reward: cfg.bounty_reward,
                    courier_reward: cfg.courier_reward,
                },
            ),
            None => None,
        };
        self.loan_runtime = match &s.loan {
            Some(cfg) => Some(
                LoanRuntime {
                    rate_bps: cfg.rate_bps,
                    accrual_interval: no_less(cfg.accrual_interval, 1),
                    term_ticks: cfg.term_ticks,
                    max_principal: cfg.max_principal,
                    max_loans: cfg.max_loans,
                },
            ),
            None => None,
        };
        self.insurance_runtime = match &s.insurance {
            Some(cfg) => Some(
                InsuranceRuntime {
                    premium: cfg.premium,
                    payout: cfg.payout,
                    term_ticks: no_less(cfg.term_ticks, 1),
                },
            ),
            None => None,
        };
        self.future_runtime = match &s.future {
            Some(cfg) => Some(
                FutureRuntime {
                    fee: cfg.fee,
                    term_ticks: no_less(cfg.term_ticks, 1),
                    max_quantity: positive(cfg.max_quantity),
                    max_futures: cfg.max_futures,
                },
            ),
            None => None,
        };
        assert(self@.wf());
    }

    /// Build a world from linked content and a scenario, seeded by `seed`. `tables`
    /// and `opening`, the opening price of each entry of each system's stock, are what
    /// the host has worked out from the content's real-valued parts.
    pub fn new(
        registry: Arc<Registry>,
        scenario: &ScenarioDef,
        seed: u64,
        pricing: &PricingSet,
        tables: Tables,
        opening: &Vec<Vec<Money>>,
    ) -> (r: Result<World, WorldError>)
        requires
            registry.wf(),
            registry.numbered(),
            priced(*registry, *pricing),
        ensures
            match r {
                Ok(w) => built(*registry, *scenario, seed, *pricing, tables, opening@) == Ok::<
                    WorldView,
                    WorldErrorView,
                >(w@) && w@.ready() && w@.stage == Stage::Idle,
                Err(e) => built(*registry, *scenario, seed, *pricing, tables, opening@) == Err::<
                    WorldView,
                    WorldErrorView,
                >(e@),
            },
    {
        if registry.system_count() == 0 {
            return Err(WorldError::NoSystems);
        }
        let markets = match build_markets(&registry, pricing, opening) {
            Ok(list) => list,
            Err(e) => {
                return Err(e);
            },
        };
        let mut w = World::bare(registry, tables, markets, seed);
        match w.add_traders(scenario) {
            Ok(()) => {},
            Err(e) => {
                return Err(e);
            },
        }
        match w.add_piracy(scenario) {
            Ok(()) => {},
            Err(e) => {
                return Err(e);
            },
        }
        match w.add_navy(scenario) {
            Ok(()) => {},
            Err(e) => {
                return Err(e);
            },
        }
        match w.add_escort(scenario) {
            Ok(()) => {},
            Err(e) => {
                return Err(e);
            },
        }
        w.add_terms(scenario);
        Ok(w)
    }

    /// A world with nothing in it but its markets.
    fn bare(registry: Arc<Registry>, tables: Tables, markets: Vec<Market>, seed: u64) -> (w: World)
        requires
            registry.wf(),
            registry.spec_systems().len() > 0,
            markets@.len() == registry.spec_systems().len(),
            forall|i: int|
                0 <= i < markets@.len() ==> (#[trigger] markets@[i]).system.0 == i && goods_ok(
                    markets@[i].goods@,
                    registry.spec_commodities().len(),
                ),
        ensures
            w@ == bare_world(*registry, tables, market::market_views(markets@), seed),
            w@.wf(),
    {
        let w = World {
            registry,
            tables,
            tick: Tick(0),
            stage: Stage::Idle,
            rng: DetRng::from_seed(seed),
            markets,
            traders: Vec::new(),
            piracy: None,
            piracy_stats: PiracyStats::default(),
            pirates: Vec::new(),
            navy_runtime: None,
            navy: Vec::new(),
            encounters: Vec::new(),
            next_patrol_id: 0,
            escort: None,
            treasury: 0,
            contract_runtime: None,
            contracts: Vec::new(),
            next_contract_id: 0,
            loan_runtime: None,
            loans: Vec::new(),
            next_loan_id: 0,
            insurance_runtime: None,
            policies: Vec::new(),
            future_runtime: None,
            futures: Vec::new(),
            commands: Vec::new(),
            commands_applied: 0,
            commands_rejected: 0,
            last_errors: Vec::new(),
            next_trader_id: 0,
            events: VecDeque::new(),
        };
        proof {
            let v = w@;
            assert(v =~= bare_world(*registry, tables, market::market_views(markets@), seed));
            assert forall|i: int| 0 <= i < v.markets.len() implies v.market_ok(
                #[trigger] v.markets[i],
            ) && v.markets[i].system.0 == i by {
                assert(v.markets[i] == markets@[i]@);
            }
        }
        w
    }
}

} // verus!
