//! The simulation world: markets, traders, fleets, battles and books, advanced by a
//! deterministic tick.
//!
//! A tick runs its phases in a fixed order: commands, production, prices, pirate
//! movement, navy, piracy, combat, trading, contracts, finance. The world owns its
//! random source, so a run is reproducible.

pub mod aftermath;
pub mod battle;
pub mod board;
pub mod books;
pub mod chronicle;
pub mod commands;
pub mod dealings;
pub mod fleet;
pub mod hauls;
pub mod identity;
pub mod laws;
pub mod ledger;
pub mod messages;
pub mod musters;
pub mod observe;
pub mod openings;
pub mod output;
pub mod postings;
pub mod quotes;
pub mod roster;
pub mod rounds;
pub mod setup;
pub mod terms;
pub mod tick;
pub mod tidings;
pub mod trade;
pub mod works;

use std::collections::VecDeque;
use std::sync::Arc;
use vstd::prelude::*;

use crate::bits;
use crate::bits::Bits;
use crate::command::{Command, CommandError};
use crate::contract::Contract;
use crate::encounter::{Combatant, Encounter};
use crate::event;
use crate::event::{EventCategory, EventView, SimEvent};
use crate::finance::{Future, Loan, Policy};
use crate::ids::{CommodityId, Money, PatrolId, Quantity, ShipId, SystemId, Tick, TraderId};
use crate::market;
use crate::market::{Market, MarketView};
use crate::patrol::{Patrol, PatrolLocation};
use crate::registry::Registry;
use crate::rng::DetRng;
use crate::trader;
use crate::trader::{Trader, TraderLocation, TraderView};

verus! {

/// Resolved piracy settings.
#[derive(Debug, Clone, Copy, PartialEq, Eq, Structural)]
pub struct PiracyRuntime {
    pub pirate_ship: ShipId,
    pub max_pirates: u32,
    pub respawn_delay: u64,
    pub fleet_size: u32,
    pub bounty: Money,
    pub reinforce_interval: u64,
}

/// Resolved navy settings.
#[derive(Debug, Clone, Copy, PartialEq, Eq, Structural)]
pub struct NavyRuntime {
    pub navy_ship: ShipId,
    pub fleet_size: u32,
    pub reinforce_interval: u64,
    pub upkeep: Money,
    pub funding: Money,
}

/// Resolved escort settings.
#[derive(Debug, Clone, Copy, PartialEq, Eq, Structural)]
pub struct EscortRuntime {
    pub escort_ship: ShipId,
    pub count: u32,
    pub fee: Money,
}

/// Contract-board settings.
#[derive(Debug, Clone, Copy, PartialEq, Eq, Structural)]
pub struct ContractRuntime {
    pub max_open: u32,
    pub generation_interval: u64,
    pub deadline_ticks: u64,
    pub reward_factor: Bits,
    pub min_shortfall: u32,
    pub max_quantity: u32,
    pub bounty_target: u32,
    pub bounty_reward: Money,
    pub courier_reward: Money,
}

/// Lending terms.
#[derive(Debug, Clone, Copy, PartialEq, Eq, Structural)]
pub struct LoanRuntime {
    pub rate_bps: u32,
    pub accrual_interval: u64,
    pub term_ticks: u64,
    pub max_principal: Money,
    pub max_loans: u32,
}

/// Insurance terms.
#[derive(Debug, Clone, Copy, PartialEq, Eq, Structural)]
pub struct InsuranceRuntime {
    pub premium: Money,
    pub payout: Money,
    pub term_ticks: u64,
}

/// Futures-market terms.
#[derive(Debug, Clone, Copy, PartialEq, Eq, Structural)]
pub struct FutureRuntime {
    pub fee: Money,
    pub term_ticks: u64,
    pub max_quantity: u32,
    pub max_futures: u32,
}

/// Cumulative piracy tallies over a run.
#[derive(Debug, Clone, Copy, PartialEq, Eq, Structural)]
pub struct PiracyStats {
    /// Ambushes that were triggered.
    pub ambushes: u64,
    /// Traders destroyed by pirates.
    pub traders_lost: u64,
    /// Pirates destroyed by traders.
    pub pirates_destroyed: u64,
    /// Bounty credits paid out to victorious traders.
    pub bounties_paid: Money,
    /// Pirates destroyed by the navy on patrol.
    pub pirates_suppressed: u64,
    /// Navy ships lost fighting pirates.
    pub navy_lost: u64,
    /// Escort fees paid by traders.
    pub escort_fees_paid: Money,
    /// Navy upkeep drawn from the treasury.
    pub navy_upkeep: Money,
}

/// The tallies of a run that has not begun.
pub open spec fn no_stats() -> PiracyStats {
    PiracyStats {
        ambushes: 0,
        traders_lost: 0,
        pirates_destroyed: 0,
        bounties_paid: 0,
        pirates_suppressed: 0,
        navy_lost: 0,
        escort_fees_paid: 0,
        navy_upkeep: 0,
    }
}

impl Default for PiracyStats {
    fn default() -> (s: PiracyStats)
        ensures
            s == no_stats(),
    {
        PiracyStats {
            ambushes: 0,
            traders_lost: 0,
            pirates_destroyed: 0,
            bounties_paid: 0,
            pirates_suppressed: 0,
            navy_lost: 0,
            escort_fees_paid: 0,
            navy_upkeep: 0,
        }
    }
}

/// What the host works out once per run from real-valued content: travel times, the
/// cut-offs of weighted draws, ambush odds and courier rewards.
#[derive(Debug)]
pub struct Tables {
    /// Ticks from one system to another, by ship, origin and destination.
    pub travel: Vec<Vec<Vec<u64>>>,
    /// For the draw of a lawless system: the least numerator over 2^53 that falls
    /// past each candidate.
    pub spawn_cutoffs: Vec<u64>,
    /// The same for the draw of a lawless neighbour, by system.
    pub roam_cutoffs: Vec<Vec<u64>>,
    /// The ambush probability over 2^53, by how many pirates lurk.
    pub ambush_odds: Vec<u64>,
    /// The reward of a courier run, by destination.
    pub courier_rewards: Vec<Money>,
}

/// The certain event, over 2^53.
pub const CERTAIN: u64 = 0x20_0000_0000_0000;

impl Tables {
    /// Whole-tick travel time, at least one tick.
    pub open spec fn spec_travel(&self, ship: ShipId, from: SystemId, to: SystemId) -> u64 {
        if ship.0 < self.travel@.len() && from.0 < self.travel@[ship.0 as int]@.len() && to.0
            < self.travel@[ship.0 as int]@[from.0 as int]@.len() && self.travel@[ship.0 as int]@[
        from.0 as int]@[to.0 as int] > 1 {
            self.travel@[ship.0 as int]@[from.0 as int]@[to.0 as int]
        } else {
            1
        }
    }

    /// Whole-tick travel time between two systems for a given ship, at least one
    /// tick.
    pub fn travel_between(&self, ship: ShipId, from: SystemId, to: SystemId) -> (t: u64)
        ensures
            t == self.spec_travel(ship, from, to),
    {
        if ship.index() < self.travel.len() && from.index() < self.travel[ship.index()].len()
            && to.index() < self.travel[ship.index()][from.index()].len()
            && self.travel[ship.index()][from.index()][to.index()] > 1 {
            self.travel[ship.index()][from.index()][to.index()]
        } else {
            1
        }
    }

    /// The probability that `present` pirates ambush, over 2^53.
    pub open spec fn spec_ambush(&self, present: int) -> u64 {
        if present < self.ambush_odds@.len() {
            self.ambush_odds@[present]
        } else {
            CERTAIN
        }
    }

    /// The probability that `present` pirates ambush, over 2^53.
    pub fn ambush(&self, present: usize) -> (odds: u64)
        ensures
            odds == self.spec_ambush(present as int),
    {
        if present < self.ambush_odds.len() {
            self.ambush_odds[present]
        } else {
            CERTAIN
        }
    }

    /// The reward of a courier run to `dest`.
    pub open spec fn spec_courier(&self, dest: SystemId) -> Money {
        if dest.0 < self.courier_rewards@.len() {
            self.courier_rewards@[dest.0 as int]
        } else {
            0
        }
    }

    /// The reward of a courier run to `dest`.
    pub fn courier(&self, dest: SystemId) -> (r: Money)
        ensures
            r == self.spec_courier(dest),
    {
        if dest.index() < self.courier_rewards.len() {
            self.courier_rewards[dest.index()]
        } else {
            0
        }
    }
}

/// What a running battle is, and how its combatants map back to world agents.
#[derive(Debug)]
pub enum EncounterKind {
    /// A laden trader ambushed near `dest`. Combatants: the trader, its escorts, the
    /// navy defenders from `navy_offset`, then the pirates from `pirate_offset`.
    Ambush {
        trader: TraderId,
        dest: SystemId,
        navy: Vec<PatrolId>,
        pirates: Vec<PatrolId>,
        navy_offset: usize,
        pirate_offset: usize,
        respawn_delay: u64,
        bounty: Money,
    },
    /// The navy engaging pirates at `sys`. Combatants: the navy, then the pirates
    /// from `pirates_offset`.
    Hunt { sys: SystemId, navy: Vec<PatrolId>, pirates: Vec<PatrolId>, pirates_offset: usize },
}

/// An [`EncounterKind`] as a mathematical value.
#[verifier::ext_equal]
pub enum KindView {
    Ambush {
        trader: TraderId,
        dest: SystemId,
        navy: Seq<PatrolId>,
        pirates: Seq<PatrolId>,
        navy_offset: int,
        pirate_offset: int,
        respawn_delay: u64,
        bounty: Money,
    },
    Hunt { sys: SystemId, navy: Seq<PatrolId>, pirates: Seq<PatrolId>, pirates_offset: int },
}

impl View for EncounterKind {
    type V = KindView;

    open spec fn view(&self) -> KindView {
        match self {
            EncounterKind::Ambush {
                trader,
                dest,
                navy,
                pirates,
                navy_offset,
                pirate_offset,
                respawn_delay,
                bounty,
            } => KindView::Ambush {
                trader: *trader,
                dest: *dest,
                navy: navy@,
                pirates: pirates@,
                navy_offset: *navy_offset as int,
                pirate_offset: *pirate_offset as int,
                respawn_delay: *respawn_delay,
                bounty: *bounty,
            },
            EncounterKind::Hunt { sys, navy, pirates, pirates_offset } => KindView::Hunt {
                sys: *sys,
                navy: navy@,
                pirates: pirates@,
                pirates_offset: *pirates_offset as int,
            },
        }
    }
}

/// A battle spread across ticks: the encounter, its own random source, how many
/// steps it has run, and how to apply its outcome.
#[derive(Debug)]
pub struct ActiveEncounter {
    pub encounter: Encounter,
    pub rng: DetRng,
    pub steps: u64,
    pub kind: EncounterKind,
}

/// An [`ActiveEncounter`] as a mathematical value.
#[verifier::ext_equal]
pub struct ActiveView {
    pub combatants: Seq<Combatant>,
    pub rng: DetRng,
    pub steps: u64,
    pub kind: KindView,
}

impl View for ActiveEncounter {
    type V = ActiveView;

    open spec fn view(&self) -> ActiveView {
        ActiveView {
            combatants: self.encounter.combatants@,
            rng: self.rng,
            steps: self.steps,
            kind: self.kind@,
        }
    }
}

/// The views of the running battles.
pub open spec fn active_views(list: Seq<ActiveEncounter>) -> Seq<ActiveView> {
    Seq::new(list.len(), |i: int| list[i]@)
}

/// How far the world has come through a tick. What real-valued content decides is
/// worked out by the host between two steps, and handed to the next one.
#[derive(Debug, Clone, Copy, PartialEq, Eq, Structural)]
pub enum Stage {
    /// Between ticks.
    Idle,
    /// Commands have been applied and goods produced; prices come next.
    Produced,
    /// Prices, fleets and ambushes are done; battles come next.
    Engaged,
    /// The traders before this slot have had their turn.
    Trading(usize),
    /// The trader at this slot is docked here with an empty hold and looks for a trade.
    Seeking(usize, SystemId),
    /// Every trader has had its turn; the contract board is swept next.
    Closing,
    /// The board has been swept; a new contract and the books come next.
    Posting,
}

/// The simulation world.
#[derive(Debug)]
pub struct World {
    pub(crate) registry: Arc<Registry>,
    pub(crate) tables: Tables,
    pub(crate) tick: Tick,
    pub(crate) stage: Stage,
    pub(crate) rng: DetRng,
    pub(crate) markets: Vec<Market>,
    pub(crate) traders: Vec<Trader>,
    pub(crate) piracy: Option<PiracyRuntime>,
    pub(crate) piracy_stats: PiracyStats,
    pub(crate) pirates: Vec<Patrol>,
    pub(crate) navy_runtime: Option<NavyRuntime>,
    pub(crate) navy: Vec<Patrol>,
    pub(crate) encounters: Vec<ActiveEncounter>,
    pub(crate) next_patrol_id: u64,
    pub(crate) escort: Option<EscortRuntime>,
    pub(crate) treasury: Money,
    pub(crate) contract_runtime: Option<ContractRuntime>,
    pub(crate) contracts: Vec<Contract>,
    pub(crate) next_contract_id: u64,
    pub(crate) loan_runtime: Option<LoanRuntime>,
    pub(crate) loans: Vec<Loan>,
    pub(crate) next_loan_id: u64,
    pub(crate) insurance_runtime: Option<InsuranceRuntime>,
    pub(crate) policies: Vec<Policy>,
    pub(crate) future_runtime: Option<FutureRuntime>,
    pub(crate) futures: Vec<Future>,
    pub(crate) commands: Vec<Command>,
    pub(crate) commands_applied: u64,
    pub(crate) commands_rejected: u64,
    pub(crate) last_errors: Vec<CommandError>,
    pub(crate) next_trader_id: u64,
    pub(crate) events: VecDeque<SimEvent>,
}

/// A [`World`] as a mathematical value.
#[verifier::ext_equal]
pub struct WorldView {
    pub registry: Registry,
    pub tables: Tables,
    pub tick: Tick,
    pub stage: Stage,
    pub rng: DetRng,
    pub markets: Seq<MarketView>,
    pub traders: Seq<TraderView>,
    pub piracy: Option<PiracyRuntime>,
    pub piracy_stats: PiracyStats,
    pub pirates: Seq<Patrol>,
    pub navy_runtime: Option<NavyRuntime>,
    pub navy: Seq<Patrol>,
    pub encounters: Seq<ActiveView>,
    pub next_patrol_id: u64,
    pub escort: Option<EscortRuntime>,
    pub treasury: Money,
    pub contract_runtime: Option<ContractRuntime>,
    pub contracts: Seq<Contract>,
    pub next_contract_id: u64,
    pub loan_runtime: Option<LoanRuntime>,
    pub loans: Seq<Loan>,
    pub next_loan_id: u64,
    pub insurance_runtime: Option<InsuranceRuntime>,
    pub policies: Seq<Policy>,
    pub future_runtime: Option<FutureRuntime>,
    pub futures: Seq<Future>,
    pub commands: Seq<Command>,
    pub commands_applied: u64,
    pub commands_rejected: u64,
    pub last_errors: Seq<CommandError>,
    pub next_trader_id: u64,
    pub events: Seq<EventView>,
}

impl View for World {
    type V = WorldView;

    closed spec fn view(&self) -> WorldView {
        WorldView {
            registry: *self.registry,
            tables: self.tables,
            tick: self.tick,
            stage: self.stage,
            rng: self.rng,
            markets: market::market_views(self.markets@),
            traders: trader::trader_views(self.traders@),
            piracy: self.piracy,
            piracy_stats: self.piracy_stats,
            pirates: self.pirates@,
            navy_runtime: self.navy_runtime,
            navy: self.navy@,
            encounters: active_views(self.encounters@),
            next_patrol_id: self.next_patrol_id,
            escort: self.escort,
            treasury: self.treasury,
            contract_runtime: self.contract_runtime,
            contracts: self.contracts@,
            next_contract_id: self.next_contract_id,
            loan_runtime: self.loan_runtime,
            loans: self.loans@,
            next_loan_id: self.next_loan_id,
            insurance_runtime: self.insurance_runtime,
            policies: self.policies@,
            future_runtime: self.future_runtime,
            futures: self.futures@,
            commands: self.commands@,
            commands_applied: self.commands_applied,
            commands_rejected: self.commands_rejected,
            last_errors: self.last_errors@,
            next_trader_id: self.next_trader_id,
            events: event::event_views(self.events@),
        }
    }
}

impl WorldView {
    /// How many systems there are.
    pub open spec fn systems(self) -> nat {
        self.registry.spec_systems().len()
    }

    /// How many commodities there are.
    pub open spec fn commodities(self) -> nat {
        self.registry.spec_commodities().len()
    }

    /// How many ship types there are.
    pub open spec fn ships(self) -> nat {
        self.registry.spec_ships().len()
    }

    /// A trader whose handles point into the registry.
    pub open spec fn trader_ok(self, t: TraderView) -> bool {
        &&& t.ship.0 < self.ships()
        &&& forall|c| #[trigger] t.cargo.contains_key(c) ==> c.0 < self.commodities()
        &&& match t.location {
            TraderLocation::Docked(s) => s.0 < self.systems(),
            TraderLocation::InTransit { origin, dest, departure, arrival } => dest.0
                < self.systems(),
            TraderLocation::Destroyed { respawn } => true,
        }
    }

    /// Whether a system is lawless: it exists, and its danger is positive.
    pub open spec fn lawless(self, s: SystemId) -> bool {
        s.0 < self.systems() && bits::positive(self.registry.spec_systems()[s.0 as int].danger)
    }

    /// A patrol whose handles point into the registry, in or bound for lawless space.
    pub open spec fn patrol_ok(self, p: Patrol) -> bool {
        &&& p.ship.0 < self.ships()
        &&& match p.location {
            PatrolLocation::Docked(s) => self.lawless(s),
            PatrolLocation::InTransit { origin, dest, departure, arrival } => self.lawless(dest),
        }
    }

    /// A market whose handles point into the registry, with nothing free of charge.
    pub open spec fn market_ok(self, m: MarketView) -> bool {
        &&& m.system.0 < self.systems()
        &&& forall|c| #[trigger] m.goods.contains_key(c) ==> c.0 < self.commodities()
            && m.goods[c].price >= 1
    }

    /// A battle whose combatants are where its kind says.
    pub open spec fn encounter_ok(self, e: ActiveView) -> bool {
        match e.kind {
            KindView::Ambush {
                trader,
                dest,
                navy,
                pirates,
                navy_offset,
                pirate_offset,
                respawn_delay,
                bounty,
            } => {
                &&& dest.0 < self.systems()
                &&& 1 <= navy_offset
                &&& navy_offset + navy.len() <= e.combatants.len()
                &&& 0 <= pirate_offset
                &&& pirate_offset + pirates.len() <= e.combatants.len()
            },
            KindView::Hunt { sys, navy, pirates, pirates_offset } => {
                &&& sys.0 < self.systems()
                &&& navy.len() <= e.combatants.len()
                &&& 0 <= pirates_offset
                &&& pirates_offset + pirates.len() <= e.combatants.len()
            },
        }
    }

    /// What every operation keeps: every handle points into the registry, patrols keep
    /// to lawless space, fleets never outgrow their target size, there is a market per
    /// system, intervals are positive, and the log is bounded.
    pub open spec fn wf(self) -> bool {
        &&& self.registry.wf()
        &&& self.systems() > 0
        &&& self.markets.len() == self.systems()
        &&& forall|i: int| 0 <= i < self.markets.len() ==> self.market_ok(
            #[trigger] self.markets[i],
        ) && self.markets[i].system.0 == i
        &&& forall|i: int| 0 <= i < self.traders.len() ==> self.trader_ok(
            #[trigger] self.traders[i],
        )
        &&& forall|i: int| 0 <= i < self.pirates.len() ==> self.patrol_ok(
            #[trigger] self.pirates[i],
        )
        &&& forall|i: int| 0 <= i < self.navy.len() ==> self.patrol_ok(#[trigger] self.navy[i])
        &&& forall|i: int| 0 <= i < self.encounters.len() ==> self.encounter_ok(
            #[trigger] self.encounters[i],
        )
        &&& (match self.piracy {
            Some(rt) => rt.pirate_ship.0 < self.ships() && rt.reinforce_interval >= 1
                && self.pirates.len() <= rt.fleet_size,
            None => self.pirates.len() == 0,
        })
        &&& (match self.navy_runtime {
            Some(rt) => rt.navy_ship.0 < self.ships() && rt.reinforce_interval >= 1
                && self.navy.len() <= rt.fleet_size,
            None => self.navy.len() == 0,
        })
        &&& (self.escort is Some ==> self.escort->Some_0.escort_ship.0 < self.ships())
        &&& (self.contract_runtime is Some ==> self.contract_runtime->Some_0.generation_interval
            >= 1)
        &&& (self.loan_runtime is Some ==> self.loan_runtime->Some_0.accrual_interval >= 1)
        &&& self.events.len() <= event::EVENT_CAP
    }

    /// A well-formed world whose stage fits its traders.
    pub open spec fn ready(self) -> bool {
        &&& self.wf()
        &&& match self.stage {
            Stage::Trading(t) => t <= self.traders.len(),
            Stage::Seeking(t, sys) => {
                &&& t < self.traders.len()
                &&& self.traders[t as int].location == TraderLocation::Docked(sys)
                &&& self.traders[t as int].cargo == Map::<CommodityId, Quantity>::empty()
            },
            _ => true,
        }
    }

    /// The world after recording an event.
    pub open spec fn log(
        self,
        category: EventCategory,
        system: Option<SystemId>,
        message: Seq<char>,
    ) -> WorldView {
        WorldView {
            events: event::logged(
                self.events,
                EventView { tick: self.tick, category, system, message },
            ),
            ..self
        }
    }

    /// The world with trader `i` replaced.
    pub open spec fn with_trader(self, i: int, t: TraderView) -> WorldView {
        WorldView { traders: self.traders.update(i, t), ..self }
    }

    /// The world with market `i` replaced.
    pub open spec fn with_market(self, i: int, m: MarketView) -> WorldView {
        WorldView { markets: self.markets.update(i, m), ..self }
    }
}

impl World {
    /// Record an event, dropping the oldest once the log is full. `system` is where
    /// it happened, if that is meaningful.
    pub(crate) fn log_event(
        &mut self,
        category: EventCategory,
        system: Option<SystemId>,
        message: String,
    )
        ensures
            final(self)@ == old(self)@.log(category, system, message@),
    {
        let tick = self.tick;
        event::log(&mut self.events, SimEvent { tick, category, system, message });
    }
}

} // verus!
