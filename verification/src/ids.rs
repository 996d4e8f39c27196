//! Handles and scalar types shared by every module.

use vstd::prelude::*;

verus! {

/// Credits.
pub type Money = i64;

/// Units of a commodity.
pub type Quantity = u32;

/// A point on the simulation clock.
#[derive(Debug, Clone, Copy, PartialEq, Eq, PartialOrd, Ord, Hash, Structural)]
pub struct Tick(pub u64);

impl Tick {
    /// The start of a run.
    pub fn zero() -> (t: Tick)
        ensures
            t.0 == 0,
    {
        Tick(0)
    }

    /// The raw tick number.
    pub fn get(&self) -> (n: u64)
        ensures
            n == self.0,
    {
        self.0
    }

    /// The tick `n` ticks later; the clock is a 64-bit counter and wraps.
    pub fn plus(&self, n: u64) -> (t: Tick)
        ensures
            t == self.spec_plus(n),
    {
        Tick(self.0.wrapping_add(n))
    }

    pub open spec fn spec_plus(&self, n: u64) -> Tick {
        Tick(self.0.wrapping_add(n))
    }

    /// The next tick.
    pub fn next(&self) -> (t: Tick)
        ensures
            t == self.spec_plus(1),
    {
        self.plus(1)
    }
}

/// A commodity, by its position in the registry.
#[derive(Debug, Clone, Copy, PartialEq, Eq, PartialOrd, Ord, Hash, Structural)]
pub struct CommodityId(pub u32);

/// A star system, by its position in the registry.
#[derive(Debug, Clone, Copy, PartialEq, Eq, PartialOrd, Ord, Hash, Structural)]
pub struct SystemId(pub u32);

/// A ship type, by its position in the registry.
#[derive(Debug, Clone, Copy, PartialEq, Eq, PartialOrd, Ord, Hash, Structural)]
pub struct ShipId(pub u32);

/// A production recipe, by its position in the registry.
#[derive(Debug, Clone, Copy, PartialEq, Eq, PartialOrd, Ord, Hash, Structural)]
pub struct RecipeId(pub u32);

impl CommodityId {
    /// The position in the registry's table.
    pub fn index(&self) -> (i: usize)
        ensures
            i == self.0,
    {
        self.0 as usize
    }
}

impl SystemId {
    /// The position in the registry's table.
    pub fn index(&self) -> (i: usize)
        ensures
            i == self.0,
    {
        self.0 as usize
    }
}

impl ShipId {
    /// The position in the registry's table.
    pub fn index(&self) -> (i: usize)
        ensures
            i == self.0,
    {
        self.0 as usize
    }
}

impl RecipeId {
    /// The position in the registry's table.
    pub fn index(&self) -> (i: usize)
        ensures
            i == self.0,
    {
        self.0 as usize
    }
}

/// A stable, never-reused handle for a trader.
#[derive(Debug, Clone, Copy, PartialEq, Eq, PartialOrd, Ord, Hash, Structural)]
pub struct TraderId(pub u64);

/// A stable, never-reused handle for a contract: assigned once, in increasing
/// order. A stale id, whose contract has left the board, fails to resolve.
#[derive(Debug, Clone, Copy, PartialEq, Eq, PartialOrd, Ord, Hash, Structural)]
pub struct ContractId(pub u64);

/// A stable, never-reused handle for a loan.
#[derive(Debug, Clone, Copy, PartialEq, Eq, PartialOrd, Ord, Hash, Structural)]
pub struct LoanId(pub u64);

/// A stable, never-reused handle for a patrol, so that a running battle can refer
/// to its participants across ticks.
#[derive(Debug, Clone, Copy, PartialEq, Eq, PartialOrd, Ord, Hash, Structural)]
pub struct PatrolId(pub u64);

/// Identifies a player.
#[derive(Debug, Clone, Copy, PartialEq, Eq, Hash, Structural)]
pub struct PlayerId(pub u32);

/// Who controls an agent. Agents nobody owns run the built-in AI; a player's agents
/// act only on commands.
#[derive(Debug, Clone, Copy, PartialEq, Eq, Structural)]
pub enum Owner {
    Npc,
    Player(PlayerId),
}

impl Default for Owner {
    fn default() -> (o: Owner)
        ensures
            o == Owner::Npc,
    {
        Owner::Npc
    }
}

} // verus!
