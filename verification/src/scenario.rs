//! Parameters of a run over already-loaded content.

use vstd::prelude::*;

use crate::bits::Bits;
use crate::ids::Money;

verus! {

/// How to populate the galaxy with traders of the built-in AI.
#[derive(Debug, Clone)]
pub struct TraderSpawn {
    /// Number of traders to create.
    pub count: u32,
    /// Ship id every one flies.
    pub ship: String,
    /// Starting capital of each.
    pub starting_capital: Money,
}

/// Piracy settings.
#[derive(Debug, Clone)]
pub struct PiracyConfig {
    /// Ship id pirates fly.
    pub pirate_ship: String,
    /// Per-tick, per-pirate probability that a pirate at a laden trader's
    /// destination intercepts it.
    pub base_ambush_chance: Bits,
    /// Most pirates that join a single ambush.
    pub max_pirates: u32,
    /// Ticks a destroyed trader is out of action.
    pub respawn_delay: u64,
    /// Target size of the pirate fleet.
    pub fleet_size: u32,
    /// Credits paid for each pirate destroyed in a won fight.
    pub bounty: Money,
    /// Ticks between reinforcements.
    pub reinforce_interval: u64,
}

/// Convoy escorts that fight alongside every ambushed trader.
#[derive(Debug, Clone)]
pub struct EscortConfig {
    /// Ship id the escorts fly.
    pub ship: String,
    /// Number of escorts of each trader.
    pub count: u32,
    /// Credits a trader pays for them each time it jumps.
    pub fee: Money,
}

/// A navy fleet that patrols lawless space and hunts pirates.
#[derive(Debug, Clone)]
pub struct NavyConfig {
    /// Ship id navy patrols fly.
    pub ship: String,
    /// Target size of the fleet.
    pub fleet_size: u32,
    /// Ticks between reinforcements.
    pub reinforce_interval: u64,
    /// Upkeep per ship and tick, drawn from the public treasury.
    pub upkeep: Money,
    /// Treasury income per tick.
    pub funding: Money,
}

/// The contract board.
#[derive(Debug, Clone)]
pub struct ContractConfig {
    /// Most simultaneously open contracts.
    pub max_open: u32,
    /// Ticks between generation attempts.
    pub generation_interval: u64,
    /// Ticks a new contract lasts.
    pub deadline_ticks: u64,
    /// Reward multiplier over the spot value of a delivery.
    pub reward_factor: Bits,
    /// Least shortfall worth a delivery contract.
    pub min_shortfall: u32,
    /// Most units of a single delivery.
    pub max_quantity: u32,
    /// Pirates a bounty asks for; `0` disables bounties.
    pub bounty_target: u32,
    /// Reward for a bounty.
    pub bounty_reward: Money,
    /// Base reward for a courier run, scaled up by danger; `0` disables couriers.
    pub courier_reward: Money,
}

/// Lending terms.
#[derive(Debug, Clone, Copy)]
pub struct LoanConfig {
    /// Interest per accrual period, in basis points of the balance.
    pub rate_bps: u32,
    /// Ticks between accruals.
    pub accrual_interval: u64,
    /// Ticks until the balance is due.
    pub term_ticks: u64,
    /// Largest principal of a loan.
    pub max_principal: Money,
    /// Most open loans of one trader.
    pub max_loans: u32,
}

/// Ship-loss insurance terms.
#[derive(Debug, Clone, Copy)]
pub struct InsuranceConfig {
    /// Up-front cost of a policy.
    pub premium: Money,
    /// Compensation paid on destruction while covered.
    pub payout: Money,
    /// Ticks a policy remains in force.
    pub term_ticks: u64,
}

/// Commodity-futures terms.
#[derive(Debug, Clone, Copy)]
pub struct FutureConfig {
    /// Commission to open a position.
    pub fee: Money,
    /// Ticks until a position settles.
    pub term_ticks: u64,
    /// Largest quantity of a position.
    pub max_quantity: u32,
    /// Most open positions of one trader.
    pub max_futures: u32,
}

/// A complete run configuration. What is absent is switched off.
#[derive(Debug, Clone)]
pub struct ScenarioDef {
    /// Human-readable name.
    pub name: String,
    /// Seed of the run.
    pub seed: u64,
    /// Default number of ticks to run.
    pub ticks: u64,
    /// Trader population.
    pub traders: TraderSpawn,
    pub piracy: Option<PiracyConfig>,
    /// How strongly traders avoid dangerous routes; `0` is risk-neutral.
    pub risk_aversion: Bits,
    pub escort: Option<EscortConfig>,
    pub navy: Option<NavyConfig>,
    pub contract: Option<ContractConfig>,
    pub loan: Option<LoanConfig>,
    pub insurance: Option<InsuranceConfig>,
    pub future: Option<FutureConfig>,
}

} // verus!
