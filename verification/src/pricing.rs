//! Pricing strategies. Content names a strategy per system; a [`PricingSet`] maps those
//! names to handles and holds the scripts behind them.

use vstd::prelude::*;

use crate::bits::Bits;
use crate::hook;
use crate::hook::{NamedRegistry, UnknownStrategy};
use crate::ids::{Money, Quantity};
use crate::script::ScriptedPricing;
use crate::text;

verus! {

/// `current` moved a fifth of the way toward `target`, to the nearest credit, and at
/// least one.
pub open spec fn spec_smoothed(current: Money, target: Money) -> Money {
    let next = (4 * current + target + 2) / 5;
    if next < 1 {
        1
    } else {
        next as i64
    }
}

/// Move `current` a fifth of the way toward `target`, to the nearest credit, and at
/// least one.
pub fn smoothed(current: Money, target: Money) -> (r: Money)
    ensures
        r == spec_smoothed(current, target),
{
    let sum: i128 = 4 * (current as i128) + target as i128 + 2;
    if sum < 5 {
        1
    } else {
        (sum / 5) as i64
    }
}

/// A resolved pricing strategy: the built-in formula, or a mod's script by its place
/// in the script table.
#[derive(Debug, Clone, Copy, PartialEq, Eq, Structural)]
pub enum PricingStrategy {
    /// The built-in supply/demand formula.
    SupplyDemandV1,
    /// The script at this index.
    Scripted(u32),
}

impl PricingStrategy {
    /// The unit price at a market: what its script computes, or `formula`, the price of
    /// the built-in formula. A script index out of range falls back to the formula.
    pub fn price(
        self,
        scripts: &Vec<ScriptedPricing>,
        base_price: Money,
        stock: Quantity,
        equilibrium: Quantity,
        elasticity: Bits,
        formula: Money,
    ) -> (p: Money)
        ensures
            match self {
                PricingStrategy::Scripted(i) if i < scripts@.len() => p >= 1
                    && scripts@[i as int].may_price(base_price, stock, equilibrium, elasticity, p),
                _ => p == formula,
            },
    {
        match self {
            PricingStrategy::SupplyDemandV1 => formula,
            PricingStrategy::Scripted(i) => if (i as usize) < scripts.len() {
                scripts[i as usize].price(base_price, stock, equilibrium, elasticity)
            } else {
                formula
            },
        }
    }
}

/// The name of the built-in strategy.
pub const BUILTIN: &'static str = "supply_demand_v1";

/// The pricing strategies available to a run: handles by name, and the scripts that
/// handles may point at.
#[derive(Debug)]
pub struct PricingSet {
    registry: NamedRegistry<PricingStrategy>,
    scripts: Vec<ScriptedPricing>,
}

impl PricingSet {
    /// The strategies, by name.
    pub closed spec fn strategies(&self) -> Seq<(Seq<char>, PricingStrategy)> {
        self.registry@
    }

    /// The scripts.
    pub closed spec fn spec_scripts(&self) -> Seq<ScriptedPricing> {
        self.scripts@
    }

    /// The strategy with this name.
    pub open spec fn named(&self, name: Seq<char>) -> Option<PricingStrategy> {
        match hook::slot_of(self.strategies(), name) {
            Some(i) => Some(self.strategies()[i].1),
            None => None,
        }
    }

    /// No name is given twice.
    pub open spec fn wf(&self) -> bool {
        hook::unique_names(self.strategies())
    }

    /// Resolve a strategy name to its handle, or an error that lists what is
    /// registered.
    pub fn resolve(&self, name: &str) -> (r: Result<PricingStrategy, UnknownStrategy>)
        ensures
            match r {
                Ok(h) => self.named(name@) == Some(h),
                Err(e) => self.named(name@) is None && e.name@ == name@ && e.available@
                    == text::joined(hook::names_of(self.strategies()), ", "@),
            },
    {
        match self.registry.resolve(name) {
            Ok(h) => Ok(*h),
            Err(e) => Err(e),
        }
    }

    /// Whether a strategy name is registered.
    pub fn contains(&self, name: &str) -> (b: bool)
        ensures
            b == hook::names_of(self.strategies()).contains(name@),
    {
        self.registry.contains(name)
    }

    /// Every registered strategy name: the names content may use.
    pub fn names(&self) -> (r: Vec<String>)
        ensures
            text::texts(r@) == hook::names_of(self.strategies()),
    {
        self.registry.names()
    }

    /// The script table.
    pub fn scripts(&self) -> (r: &Vec<ScriptedPricing>)
        ensures
            r@ == self.spec_scripts(),
    {
        &self.scripts
    }

    /// Register a script under `name`: it is appended to the table, and the name
    /// resolves to it.
    pub fn register_script(&mut self, name: &str, script: ScriptedPricing)
        requires
            old(self).spec_scripts().len() <= u32::MAX,
            old(self).wf(),
        ensures
            final(self).spec_scripts() == old(self).spec_scripts().push(script),
            final(self).strategies() == hook::registered(
                old(self).strategies(),
                name@,
                PricingStrategy::Scripted(old(self).spec_scripts().len() as u32),
            ),
            final(self).named(name@) == Some(
                PricingStrategy::Scripted(old(self).spec_scripts().len() as u32),
            ),
            final(self).wf(),
    {
        let index = self.scripts.len() as u32;
        proof {
            hook::lemma_registered_unique(
                self.strategies(),
                name@,
                PricingStrategy::Scripted(index),
            );
            hook::lemma_registered_resolves(
                self.strategies(),
                name@,
                PricingStrategy::Scripted(index),
            );
        }
        self.scripts.push(script);
        self.registry.register(name, PricingStrategy::Scripted(index));
    }
}

/// The built-in strategies, without scripts.
pub fn builtin_pricing() -> (set: PricingSet)
    ensures
        set.spec_scripts() == Seq::<ScriptedPricing>::empty(),
        set.strategies() == seq![(BUILTIN@, PricingStrategy::SupplyDemandV1)],
        set.named(BUILTIN@) == Some(PricingStrategy::SupplyDemandV1),
        set.wf(),
{
    let mut registry: NamedRegistry<PricingStrategy> = NamedRegistry::new();
    let ghost none = registry@;
    proof {
        crate::search::lemma_first_none(none, hook::named::<PricingStrategy>(BUILTIN@));
        hook::lemma_registered_unique(none, BUILTIN@, PricingStrategy::SupplyDemandV1);
        hook::lemma_registered_resolves(none, BUILTIN@, PricingStrategy::SupplyDemandV1);
    }
    registry.register(BUILTIN, PricingStrategy::SupplyDemandV1);
    let set = PricingSet { registry, scripts: Vec::new() };
    assert(set.strategies() =~= seq![(BUILTIN@, PricingStrategy::SupplyDemandV1)]);
    set
}

/// A price never overshoots: it ends up between where it was and where it is going.
pub proof fn lemma_smoothing_never_overshoots(current: Money, target: Money)
    requires
        current >= 1,
        target >= 1,
    ensures
        current <= target ==> current <= spec_smoothed(current, target) <= target,
        target <= current ==> target <= spec_smoothed(current, target) <= current,
{
}

/// A price that has reached its target stays there.
pub proof fn lemma_smoothing_rests_at_the_target(price: Money)
    requires
        price >= 1,
    ensures
        spec_smoothed(price, price) == price,
{
}

/// A price more than two credits away from its target moves toward it.
pub proof fn lemma_smoothing_makes_progress(current: Money, target: Money)
    requires
        current >= 1,
        target >= 1,
    ensures
        target > current + 2 ==> spec_smoothed(current, target) > current,
        target < current - 2 ==> spec_smoothed(current, target) < current,
{
}

} // verus!
