//! The content schema: what mods author, keyed by namespaced string ids.

use vstd::prelude::*;

use crate::bits::Bits;
use crate::ids::{Money, Quantity};

verus! {

/// A point or vector in the plane.
#[derive(Debug, Clone, Copy, PartialEq, Eq, Structural)]
pub struct Point {
    pub x: Bits,
    pub y: Bits,
}

/// A good that markets trade.
#[derive(Debug, Clone)]
pub struct CommodityDef {
    /// Namespaced unique id (e.g. `"core:food"`).
    pub id: String,
    /// Human-readable name.
    pub name: String,
    /// The price at equilibrium stock.
    pub base_price: Money,
    /// Hold space one unit takes.
    pub unit_mass: u32,
    /// How strongly the price answers to stock.
    pub elasticity: Bits,
    /// A free-form grouping.
    pub category: String,
}

/// A quantity of a commodity named by id.
#[derive(Debug, Clone)]
pub struct CommodityAmount {
    pub commodity: String,
    pub qty: Quantity,
}

/// An industry's recipe: inputs turn into outputs, `rate` times a tick.
#[derive(Debug, Clone)]
pub struct ProductionRecipe {
    pub id: String,
    pub inputs: Vec<CommodityAmount>,
    pub outputs: Vec<CommodityAmount>,
    pub rate: u32,
    /// How strongly throughput answers to price.
    pub elasticity: Bits,
}

/// A star system and its market.
#[derive(Debug, Clone)]
pub struct SystemDef {
    pub id: String,
    pub name: String,
    pub position: Point,
    /// Recipe ids run here.
    pub industries: Vec<String>,
    /// System ids one jump away.
    pub connections: Vec<String>,
    /// The goods traded here, with the stock that also anchors their price.
    pub initial_stock: Vec<CommodityAmount>,
    /// The name of the pricing strategy.
    pub pricing: String,
    /// Lawlessness; pirates only operate where it is positive.
    pub danger: Bits,
}

/// Combat loadout of a ship. All zero is an inert, unarmed ship.
#[derive(Debug, Clone, Copy, PartialEq, Eq, Structural)]
pub struct CombatStats {
    /// Shield points; they absorb damage before the hull and regenerate.
    pub shield: u32,
    /// Shield points regenerated per tick.
    pub shield_regen: Bits,
    /// Damage dealt per successful shot.
    pub weapon_damage: u32,
    /// Maximum engagement distance.
    pub weapon_range: Bits,
    /// Ticks between shots.
    pub weapon_cooldown: u32,
    /// Point-blank hit probability; falls off linearly to zero at `weapon_range`.
    pub accuracy: Bits,
    /// Velocity change per tick when manoeuvring.
    pub acceleration: Bits,
}

/// The loadout of a ship without weapons or shields.
pub open spec fn unarmed() -> CombatStats {
    CombatStats {
        shield: 0,
        shield_regen: 0,
        weapon_damage: 0,
        weapon_range: 0,
        weapon_cooldown: 0,
        accuracy: 0,
        acceleration: 0,
    }
}

impl Default for CombatStats {
    fn default() -> (s: CombatStats)
        ensures
            s == unarmed(),
    {
        CombatStats {
            shield: 0,
            shield_regen: 0,
            weapon_damage: 0,
            weapon_range: 0,
            weapon_cooldown: 0,
            accuracy: 0,
            acceleration: 0,
        }
    }
}

/// The silhouette family a ship's hull is built from.
#[derive(Debug, Clone, Copy, PartialEq, Eq, Structural)]
pub enum HullShape {
    /// A sleek, pointed dart: fighters and light craft.
    Dart,
    /// A bulky hull with a hexagonal cross-section: traders and freighters.
    Freighter,
}

/// How a ship looks. Dimensions and tint are 32-bit patterns.
#[derive(Debug, Clone, Copy, PartialEq, Eq, Structural)]
pub struct ShipVisual {
    /// Hull silhouette family.
    pub hull: HullShape,
    /// Nose-to-tail length in world units.
    pub length: u32,
    /// Half-width in world units.
    pub width: u32,
    /// Dorsal height in world units.
    pub height: u32,
    /// Tint: red.
    pub red: u32,
    /// Tint: green.
    pub green: u32,
    /// Tint: blue.
    pub blue: u32,
}

/// A ship type.
#[derive(Debug, Clone)]
pub struct ShipDef {
    /// Namespaced unique id (e.g. `"core:cobra_mk3"`).
    pub id: String,
    /// Human-readable name.
    pub name: String,
    /// Hold capacity in mass units.
    pub cargo_capacity: u32,
    /// Distance covered per tick between systems.
    pub jump_speed: Bits,
    /// Structural hull points.
    pub hull: u32,
    /// Maximum in-system flight speed.
    pub max_speed: Bits,
    /// Combat loadout; `None` is an unarmed civilian.
    pub combat: Option<CombatStats>,
    /// How the ship looks; `None` falls back to a generic hull.
    pub visual: Option<ShipVisual>,
}

impl ShipDef {
    /// The loadout the ship fights with.
    pub open spec fn spec_stats(&self) -> CombatStats {
        match self.combat {
            Some(s) => s,
            None => unarmed(),
        }
    }

    /// The loadout the ship fights with: its own, or the unarmed one.
    pub fn stats(&self) -> (s: CombatStats)
        ensures
            s == self.spec_stats(),
    {
        match self.combat {
            Some(s) => s,
            None => CombatStats::default(),
        }
    }
}

/// Which engine seam a mod script plugs into.
#[derive(Debug, Clone, Copy, PartialEq, Eq, Structural)]
pub enum ScriptKind {
    /// A market pricing strategy: the script defines
    /// `fn price(base, stock, equilibrium, elasticity)`.
    Pricing,
}

impl Default for ScriptKind {
    fn default() -> (k: ScriptKind)
        ensures
            k == ScriptKind::Pricing,
    {
        ScriptKind::Pricing
    }
}

/// A behaviour script a mod declared, as source text.
#[derive(Debug, Clone)]
pub struct LoadedScript {
    /// The name it registers.
    pub name: String,
    /// The seam it plugs into.
    pub kind: ScriptKind,
    /// Its source.
    pub source: String,
    /// The mod that declared it.
    pub mod_id: String,
}

/// All content merged across mods, in load order, still keyed by string ids.
#[derive(Debug)]
pub struct MergedContent {
    pub commodities: Vec<CommodityDef>,
    pub recipes: Vec<ProductionRecipe>,
    pub systems: Vec<SystemDef>,
    pub ships: Vec<ShipDef>,
    pub scripts: Vec<LoadedScript>,
}

/// A ship fights with the loadout it has; without one it has neither weapons nor shields.
pub proof fn lemma_loadout(s: ShipDef)
    ensures
        s.combat matches Some(c) ==> s.spec_stats() == c,
        s.combat is None ==> s.spec_stats().weapon_damage == 0 && s.spec_stats().shield == 0
            && s.spec_stats().shield_regen == 0 && s.spec_stats().weapon_range == 0,
{
}

} // verus!
