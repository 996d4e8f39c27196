//! What each market's own strategy asks for its goods: the built-in formula, which the
//! host computes in floating point, or the script that the system names.

use vstd::prelude::*;

use crate::data::CommodityDef;
use crate::ids::{CommodityId, Money, Quantity, SystemId};
use crate::market::{Market, MarketView};
use crate::pricing::{PricingSet, PricingStrategy};
use crate::registry::{Registry, ResolvedSystem};
use crate::script::ScriptedPricing;
use crate::world::setup;
use crate::world::World;

verus! {

/// The price of the formula for good `j` of market `i`; one credit where the table does
/// not say.
pub open spec fn formula_at(formula: Seq<Vec<Money>>, i: int, j: int) -> Money {
    if 0 <= i < formula.len() && 0 <= j < formula[i]@.len() {
        formula[i]@[j]
    } else {
        1
    }
}

/// Whether `p` is a price that a strategy may ask for a good: what its script may price
/// it at from the good's base price, stock, equilibrium and elasticity, or `formula`.
pub open spec fn quoted(
    strategy: PricingStrategy,
    scripts: Seq<ScriptedPricing>,
    good: CommodityDef,
    stock: Quantity,
    equilibrium: Quantity,
    formula: Money,
    p: Money,
) -> bool {
    match strategy {
        PricingStrategy::Scripted(i) if i < scripts.len() => p >= 1 && scripts[i as int].may_price(
            good.base_price,
            stock,
            equilibrium,
            good.elasticity,
            p,
        ),
        _ => p == formula,
    }
}

/// Whether `row` holds a target for each of the first `n` commodities: for one that market
/// `i` trades what its strategy may ask, and `formula` for any other.
pub open spec fn row_quoted(
    reg: Registry,
    m: MarketView,
    scripts: Seq<ScriptedPricing>,
    formula: Seq<Vec<Money>>,
    i: int,
    row: Seq<Money>,
    n: int,
) -> bool {
    &&& row.len() == n
    &&& forall|k: int|
        0 <= k < n ==> {
            let c = CommodityId(k as u32);
            let p = #[trigger] row[k];
            if m.goods.contains_key(c) {
                quoted(
                    m.pricing,
                    scripts,
                    reg.spec_commodities()[k],
                    m.goods[c].stock,
                    m.goods[c].equilibrium,
                    formula_at(formula, i, k),
                    p,
                )
            } else {
                p == formula_at(formula, i, k)
            }
        }
}

/// Whether `row` holds an opening price for each of the first `n` entries of the stock of
/// system `i`: what the strategy that the system names may ask while the good is at
/// equilibrium.
pub open spec fn opening_quoted(
    reg: Registry,
    pricing: PricingSet,
    formula: Seq<Vec<Money>>,
    i: int,
    row: Seq<Money>,
    n: int,
) -> bool {
    let s = reg.spec_systems()[i];
    &&& row.len() == n
    &&& forall|j: int|
        0 <= j < n ==> {
            let (c, stock) = s.initial_stock@[j];
            quoted(
                pricing.named(s.pricing@)->Some_0,
                pricing.spec_scripts(),
                reg.spec_commodities()[c.0 as int],
                stock,
                stock,
                formula_at(formula, i, j),
                #[trigger] row[j],
            )
        }
}

fn formula_for(formula: &Vec<Vec<Money>>, i: usize, j: usize) -> (p: Money)
    ensures
        p == formula_at(formula@, i as int, j as int),
{
    if i < formula.len() && j < formula[i].len() {
        formula[i][j]
    } else {
        1
    }
}

/// The targets of one market.
fn market_targets(
    reg: &Registry,
    m: &Market,
    scripts: &Vec<ScriptedPricing>,
    formula: &Vec<Vec<Money>>,
    i: usize,
) -> (row: Vec<Money>)
    requires
        reg.wf(),
    ensures
        row_quoted(
            *reg,
            m@,
            scripts@,
            formula@,
            i as int,
            row@,
            reg.spec_commodities().len() as int,
        ),
{
    let n = reg.commodity_count();
    let mut row: Vec<Money> = Vec::new();
    let mut k: usize = 0;
    while k < n
        invariant
            k <= n,
            n == reg.spec_commodities().len(),
            n <= u32::MAX,
            row_quoted(*reg, m@, scripts@, formula@, i as int, row@, k as int),
        decreases n - k,
    {
        let c = CommodityId(k as u32);
        let builtin = formula_for(formula, i, k);
        let p = match m.goods.get(&c) {
            None => builtin,
            Some(g) => {
                let def = reg.commodity(c);
                m.pricing.price(
                    scripts,
                    def.base_price,
                    g.stock,
                    g.equilibrium,
                    def.elasticity,
                    builtin,
                )
            },
        };
        let ghost before = row@;
        row.push(p);
        assert forall|j: int| 0 <= j < k implies row@[j] == #[trigger] before[j] by {}
        k = k + 1;
    }
    row
}

impl World {
    /// The price each market moves its goods toward, by market and commodity: its own
    /// script's, or the one that `formula` gives there.
    pub fn targets(&self, scripts: &Vec<ScriptedPricing>, formula: &Vec<Vec<Money>>) -> (t: Vec<
        Vec<Money>,
    >)
        requires
            self@.wf(),
        ensures
            t@.len() == self@.markets.len(),
            forall|i: int|
                0 <= i < t@.len() ==> row_quoted(
                    self@.registry,
                    self@.markets[i],
                    scripts@,
                    formula@,
                    i,
                    #[trigger] t@[i]@,
                    self@.commodities() as int,
                ),
    {
        let mut t: Vec<Vec<Money>> = Vec::new();
        let mut i: usize = 0;
        while i < self.markets.len()
            invariant
                i <= self.markets@.len(),
                self@.wf(),
                self.markets@.len() == self@.markets.len(),
                t@.len() == i,
                forall|j: int|
                    0 <= j < t@.len() ==> row_quoted(
                        self@.registry,
                        self@.markets[j],
                        scripts@,
                        formula@,
                        j,
                        #[trigger] t@[j]@,
                        self@.commodities() as int,
                    ),
            decreases self.markets@.len() - i,
        {
            let row = market_targets(&self.registry, &self.markets[i], scripts, formula, i);
            t.push(row);
            i = i + 1;
        }
        t
    }
}

/// The opening prices at one system.
fn opening_row(
    reg: &Registry,
    s: &ResolvedSystem,
    strategy: PricingStrategy,
    pricing: &PricingSet,
    formula: &Vec<Vec<Money>>,
    i: usize,
) -> (row: Vec<Money>)
    requires
        reg.wf(),
        i < reg.spec_systems().len(),
        *s == reg.spec_systems()[i as int],
        pricing.named(s.pricing@) == Some(strategy),
    ensures
        opening_quoted(
            *reg,
            *pricing,
            formula@,
            i as int,
            row@,
            s.initial_stock@.len() as int,
        ),
{
    assert(reg.system_in_range(reg.spec_systems()[i as int]));
    let mut row: Vec<Money> = Vec::new();
    let mut j: usize = 0;
    while j < s.initial_stock.len()
        invariant
            j <= s.initial_stock@.len(),
            *s == reg.spec_systems()[i as int],
            reg.system_in_range(*s),
            pricing.named(s.pricing@) == Some(strategy),
            opening_quoted(*reg, *pricing, formula@, i as int, row@, j as int),
        decreases s.initial_stock@.len() - j,
    {
        let (c, stock) = s.initial_stock[j];
        let def = reg.commodity(c);
        let p = strategy.price(
            pricing.scripts(),
            def.base_price,
            stock,
            stock,
            def.elasticity,
            formula_for(formula, i, j),
        );
        let ghost before = row@;
        row.push(p);
        assert forall|k: int| 0 <= k < j implies row@[k] == #[trigger] before[k] by {}
        j = j + 1;
    }
    row
}

/// The price each good opens at, by system and entry of its stock: what the strategy that
/// the system names asks at equilibrium, `formula` holding the prices of the built-in one.
pub fn opening_prices(reg: &Registry, pricing: &PricingSet, formula: &Vec<Vec<Money>>) -> (t: Vec<
    Vec<Money>,
>)
    requires
        reg.wf(),
        setup::priced(*reg, *pricing),
    ensures
        t@.len() == reg.spec_systems().len(),
        forall|i: int|
            0 <= i < t@.len() ==> opening_quoted(
                *reg,
                *pricing,
                formula@,
                i,
                #[trigger] t@[i]@,
                reg.spec_systems()[i].initial_stock@.len() as int,
            ),
{
    let n = reg.system_count();
    let mut t: Vec<Vec<Money>> = Vec::new();
    let mut i: usize = 0;
    while i < n
        invariant
            i <= n,
            n == reg.spec_systems().len(),
            n <= u32::MAX,
            reg.wf(),
            setup::priced(*reg, *pricing),
            t@.len() == i,
            forall|k: int|
                0 <= k < t@.len() ==> opening_quoted(
                    *reg,
                    *pricing,
                    formula@,
                    k,
                    #[trigger] t@[k]@,
                    reg.spec_systems()[k].initial_stock@.len() as int,
                ),
        decreases n - i,
    {
        let s = reg.system(SystemId(i as u32));
        assert(pricing.named(reg.spec_systems()[i as int].pricing@) is Some);
        let row = match pricing.resolve(s.pricing.as_str()) {
            Ok(strategy) => opening_row(reg, s, strategy, pricing, formula, i),
            Err(_) => {
                assert(false);
                Vec::new()
            },
        };
        t.push(row);
        i = i + 1;
    }
    t
}

/// A market with the built-in strategy asks the price of the formula, and so does one whose
/// script is not there; a scripted one never asks less than a credit.
pub proof fn lemma_what_is_asked(
    strategy: PricingStrategy,
    scripts: Seq<ScriptedPricing>,
    good: CommodityDef,
    stock: Quantity,
    equilibrium: Quantity,
    formula: Money,
    p: Money,
)
    requires
        quoted(strategy, scripts, good, stock, equilibrium, formula, p),
    ensures
        strategy == PricingStrategy::SupplyDemandV1 ==> p == formula,
        strategy matches PricingStrategy::Scripted(i) ==> (i >= scripts.len() ==> p == formula) && (
        i < scripts.len() ==> p >= 1),
{
}

/// The formula's price of a good is the table's, and a credit where it has none.
pub proof fn lemma_formula_is_the_table(formula: Seq<Vec<Money>>, i: int, j: int)
    ensures
        0 <= i < formula.len() && 0 <= j < formula[i]@.len() ==> formula_at(formula, i, j)
            == formula[i]@[j],
        i >= formula.len() ==> formula_at(formula, i, j) == 1,
        0 <= i < formula.len() && j >= formula[i]@.len() ==> formula_at(formula, i, j) == 1,
{
}

/// A row of targets has a price for every good: that of the formula wherever the market
/// prices by it or does not trade the good.
pub proof fn lemma_targets_by_the_formula(
    reg: Registry,
    m: MarketView,
    scripts: Seq<ScriptedPricing>,
    formula: Seq<Vec<Money>>,
    i: int,
    row: Seq<Money>,
    n: int,
    c: CommodityId,
)
    requires
        row_quoted(reg, m, scripts, formula, i, row, n),
        c.0 < n <= u32::MAX,
    ensures
        row.len() == n,
        m.pricing == PricingStrategy::SupplyDemandV1 || !m.goods.dom().contains(c) ==> row[c.0 as int]
            == formula_at(formula, i, c.0 as int),
{
    let k = c.0 as int;
    assert(CommodityId(k as u32) == c);
    assert(row[k] == row[k]);
}

} // verus!
