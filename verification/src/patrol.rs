//! Persistent roaming combat agents: pirates and the navy alike.
//!
//! A [`Patrol`] carries its hull and shield between fights, so repeated encounters
//! wear a fleet down and reinforcement tops it back up.

use vstd::prelude::*;

use crate::bits;
use crate::bits::Bits;
use crate::data::CombatStats;
use crate::ids::{PatrolId, ShipId, SystemId, Tick};

verus! {

/// Where a patrol is. Dead agents are removed, so there is no such place for them.
#[derive(Debug, Clone, Copy, PartialEq, Eq, Structural)]
pub enum PatrolLocation {
    Docked(SystemId),
    /// Departed `origin` at `departure`, arriving at `dest` at `arrival`.
    InTransit { origin: SystemId, dest: SystemId, departure: Tick, arrival: Tick },
}

/// A persistent roaming ship.
#[derive(Debug, Clone, Copy, PartialEq, Eq, Structural)]
pub struct Patrol {
    /// Stable handle.
    pub id: PatrolId,
    pub ship: ShipId,
    pub location: PatrolLocation,
    /// Persistent hull; at or below zero the agent is dead.
    pub hull: i32,
    /// Persistent shield.
    pub shield: Bits,
}

/// Hull points as the signed counter that damage is taken from.
pub open spec fn hull_counter(hull: u32) -> i32 {
    if hull > i32::MAX {
        (hull - 0x1_0000_0000) as i32
    } else {
        hull as i32
    }
}

/// Hull points as the signed counter that damage is taken from.
pub fn to_hull_counter(hull: u32) -> (h: i32)
    ensures
        h == hull_counter(hull),
{
    if hull > 0x7fff_ffff {
        -((0xffff_ffff - hull) as i32) - 1
    } else {
        hull as i32
    }
}

impl Patrol {
    /// A fresh, undamaged agent docked at `at`.
    pub open spec fn spec_new(
        id: PatrolId,
        ship: ShipId,
        stats: CombatStats,
        hull: u32,
        at: SystemId,
    ) -> Patrol {
        Patrol {
            id,
            ship,
            location: PatrolLocation::Docked(at),
            hull: hull_counter(hull),
            shield: bits::whole(stats.shield as nat),
        }
    }

    /// Spawn a fresh, undamaged agent docked at `at`.
    pub fn new(id: PatrolId, ship: ShipId, stats: &CombatStats, hull: u32, at: SystemId) -> (p:
        Patrol)
        ensures
            p == Self::spec_new(id, ship, *stats, hull, at),
    {
        Patrol {
            id,
            ship,
            location: PatrolLocation::Docked(at),
            hull: to_hull_counter(hull),
            shield: bits::of_whole(stats.shield as u64),
        }
    }

    /// Whether the agent still has hull.
    pub open spec fn spec_is_alive(self) -> bool {
        self.hull > 0
    }

    /// Whether the agent still has hull.
    pub fn is_alive(&self) -> (b: bool)
        ensures
            b == self.spec_is_alive(),
    {
        self.hull > 0
    }

    /// The system the agent is docked at.
    pub open spec fn spec_docked_at(self) -> Option<SystemId> {
        match self.location {
            PatrolLocation::Docked(s) => Some(s),
            PatrolLocation::InTransit { .. } => None,
        }
    }

    /// The system the agent is currently docked at, if any.
    pub fn docked_at(&self) -> (s: Option<SystemId>)
        ensures
            s == self.spec_docked_at(),
    {
        match self.location {
            PatrolLocation::Docked(s) => Some(s),
            PatrolLocation::InTransit { .. } => None,
        }
    }
}

/// A hull counter stands at the ship's hull points, up to whole turns of 32 bits: at the
/// points themselves wherever a signed counter can.
pub proof fn lemma_counter_holds_the_hull(hull: u32)
    ensures
        hull <= i32::MAX ==> hull_counter(hull) == hull,
        hull > i32::MAX ==> hull_counter(hull) == hull - 0x1_0000_0000,
{
}

/// An agent lives just while it has hull, and is at a station just while it is docked.
pub proof fn lemma_agents_live_and_dock(p: Patrol, s: SystemId)
    ensures
        p.spec_is_alive() <==> p.hull >= 1,
        p.spec_docked_at() == Some(s) <==> p.location == PatrolLocation::Docked(s),
        p.spec_docked_at() is None <==> p.location is InTransit,
{
}

/// A new agent of a ship with hull is alive, and docked where it was asked for.
pub proof fn lemma_new_agent_is_ready(
    id: PatrolId,
    ship: ShipId,
    stats: CombatStats,
    hull: u32,
    at: SystemId,
)
    ensures
        ({
            let p = Patrol::spec_new(id, ship, stats, hull, at);
            &&& p.id == id && p.ship == ship
            &&& p.spec_docked_at() == Some(at)
            &&& 0 < hull <= i32::MAX ==> p.spec_is_alive() && p.hull == hull
            &&& p.shield == bits::whole(stats.shield as nat)
        }),
{
}

} // verus!
