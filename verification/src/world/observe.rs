//! Reading a world.

use std::collections::VecDeque;
use std::sync::Arc;
use vstd::prelude::*;

use crate::command::CommandError;
use crate::contract::Contract;
use crate::encounter::Combatant;
use crate::event;
use crate::event::SimEvent;
use crate::finance::{Future, Loan, Policy};
use crate::ids::{Money, SystemId, Tick};
use crate::market;
use crate::market::Market;
use crate::patrol::Patrol;
use crate::registry::Registry;
use crate::rng::DetRng;
use crate::trader;
use crate::trader::Trader;
use crate::world;
use crate::world::{
    ActiveEncounter, ActiveView, EncounterKind, KindView, PiracyStats, Stage, World,
};

verus! {

/// A running battle for observers: where it is, and the state of its combatants.
#[derive(Debug, Clone)]
pub struct EncounterView {
    /// The system the battle is taking place at.
    pub system: SystemId,
    /// The combatants and their current state.
    pub combatants: Vec<Combatant>,
}

/// The system a battle is taking place at.
pub open spec fn site(k: KindView) -> SystemId {
    match k {
        KindView::Ambush {
            trader,
            dest,
            navy,
            pirates,
            navy_offset,
            pirate_offset,
            respawn_delay,
            bounty,
        } => dest,
        KindView::Hunt { sys, navy, pirates, pirates_offset } => sys,
    }
}

/// Whether `v` shows the battle `e`.
pub open spec fn shows(v: EncounterView, e: ActiveView) -> bool {
    v.system == site(e.kind) && v.combatants@ == e.combatants
}

/// What an observer sees of a battle.
fn observe(e: &ActiveEncounter) -> (v: EncounterView)
    ensures
        shows(v, e@),
{
    let system = match &e.kind {
        EncounterKind::Ambush { dest, .. } => *dest,
        EncounterKind::Hunt { sys, .. } => *sys,
    };
    let ships = e.encounter.combatants();
    let mut combatants: Vec<Combatant> = Vec::new();
    let mut k: usize = 0;
    while k < ships.len()
        invariant
            k <= ships@.len(),
            combatants@ == ships@.take(k as int),
        decreases ships@.len() - k,
    {
        combatants.push(ships[k]);
        assert(combatants@ =~= ships@.take(k + 1));
        k = k + 1;
    }
    assert(combatants@ =~= ships@);
    EncounterView { system, combatants }
}

impl World {
    /// Ticks completed.
    pub fn tick_count(&self) -> (t: Tick)
        ensures
            t == self@.tick,
    {
        self.tick
    }

    /// How far the world has come through the current tick.
    pub fn stage(&self) -> (s: Stage)
        ensures
            s == self@.stage,
    {
        self.stage
    }

    /// The random source.
    pub fn rng(&self) -> (r: DetRng)
        ensures
            r == self@.rng,
    {
        self.rng
    }

    /// The markets, one per system.
    pub fn markets(&self) -> (r: &Vec<Market>)
        ensures
            market::market_views(r@) == self@.markets,
    {
        &self.markets
    }

    /// The traders.
    pub fn traders(&self) -> (r: &Vec<Trader>)
        ensures
            trader::trader_views(r@) == self@.traders,
    {
        &self.traders
    }

    /// The content the world runs on.
    pub fn registry(&self) -> (r: &Registry)
        ensures
            *r == self@.registry,
    {
        &self.registry
    }

    /// A shared handle to the content the world runs on.
    pub fn registry_arc(&self) -> (r: Arc<Registry>)
        ensures
            *r == self@.registry,
    {
        self.registry.clone()
    }

    /// The piracy tallies.
    pub fn piracy_stats(&self) -> (s: PiracyStats)
        ensures
            s == self@.piracy_stats,
    {
        self.piracy_stats
    }

    /// The pirate fleet.
    pub fn pirates(&self) -> (r: &Vec<Patrol>)
        ensures
            r@ == self@.pirates,
    {
        &self.pirates
    }

    /// The navy.
    pub fn navy(&self) -> (r: &Vec<Patrol>)
        ensures
            r@ == self@.navy,
    {
        &self.navy
    }

    /// The contract board, open and accepted contracts alike.
    pub fn contracts(&self) -> (r: &Vec<Contract>)
        ensures
            r@ == self@.contracts,
    {
        &self.contracts
    }

    /// Outstanding loans.
    pub fn loans(&self) -> (r: &Vec<Loan>)
        ensures
            r@ == self@.loans,
    {
        &self.loans
    }

    /// Active insurance policies.
    pub fn policies(&self) -> (r: &Vec<Policy>)
        ensures
            r@ == self@.policies,
    {
        &self.policies
    }

    /// Open futures positions.
    pub fn futures(&self) -> (r: &Vec<Future>)
        ensures
            r@ == self@.futures,
    {
        &self.futures
    }

    /// Number of battles currently playing out.
    pub fn active_encounters(&self) -> (n: usize)
        ensures
            n == self@.encounters.len(),
    {
        self.encounters.len()
    }

    /// The battles currently playing out.
    pub fn encounters(&self) -> (r: &Vec<ActiveEncounter>)
        ensures
            world::active_views(r@) == self@.encounters,
    {
        &self.encounters
    }

    /// Views of the running battles, for observers.
    pub fn encounter_views(&self) -> (r: Vec<EncounterView>)
        ensures
            r@.len() == self@.encounters.len(),
            forall|i: int| 0 <= i < r@.len() ==> shows(#[trigger] r@[i], self@.encounters[i]),
    {
        let mut out: Vec<EncounterView> = Vec::new();
        let mut i: usize = 0;
        while i < self.encounters.len()
            invariant
                i <= self.encounters@.len(),
                self@.encounters == world::active_views(self.encounters@),
                out@.len() == i,
                forall|k: int| 0 <= k < i ==> shows(#[trigger] out@[k], self@.encounters[k]),
            decreases self.encounters@.len() - i,
        {
            out.push(observe(&self.encounters[i]));
            i = i + 1;
        }
        out
    }

    /// The balance that funds the navy; it may be in deficit.
    pub fn treasury(&self) -> (m: Money)
        ensures
            m == self@.treasury,
    {
        self.treasury
    }

    /// How many commands have been applied.
    pub fn commands_applied(&self) -> (n: u64)
        ensures
            n == self@.commands_applied,
    {
        self.commands_applied
    }

    /// How many commands have been rejected.
    pub fn commands_rejected(&self) -> (n: u64)
        ensures
            n == self@.commands_rejected,
    {
        self.commands_rejected
    }

    /// The errors of the commands rejected in the most recent tick.
    pub fn last_command_errors(&self) -> (r: &Vec<CommandError>)
        ensures
            r@ == self@.last_errors,
    {
        &self.last_errors
    }

    /// The recorded events, oldest first.
    pub fn events(&self) -> (r: &VecDeque<SimEvent>)
        ensures
            event::event_views(r@) == self@.events,
    {
        &self.events
    }

    /// The id the next trader gets.
    pub fn next_trader_id(&self) -> (n: u64)
        ensures
            n == self@.next_trader_id,
    {
        self.next_trader_id
    }

    /// The id the next contract gets.
    pub fn next_contract_id(&self) -> (n: u64)
        ensures
            n == self@.next_contract_id,
    {
        self.next_contract_id
    }

    /// The id the next loan gets.
    pub fn next_loan_id(&self) -> (n: u64)
        ensures
            n == self@.next_loan_id,
    {
        self.next_loan_id
    }
}

} // verus!
