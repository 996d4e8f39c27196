//! Production and repricing: what industries make of the stock, and how prices follow.

use vstd::prelude::*;

use crate::ids::{CommodityId, Money, Quantity, RecipeId, SystemId};
use crate::market::{Market, MarketGood, MarketView};
use crate::pricing;
use crate::registry::{Registry, ResolvedRecipe};
use crate::world::{World, WorldView};

verus! {

/// Whether the stock covers `n` batches of each of these inputs on its own.
pub open spec fn covers(m: MarketView, inputs: Seq<(CommodityId, Quantity)>, n: int) -> bool {
    forall|k: int|
        0 <= k < inputs.len() ==> n * (#[trigger] inputs[k]).1 <= m.stock(inputs[k].0)
}

/// Whether `n` is the most batches, up to `want`, that the stock covers.
pub open spec fn most_covered(
    m: MarketView,
    inputs: Seq<(CommodityId, Quantity)>,
    want: u32,
    n: u32,
) -> bool {
    &&& n <= want
    &&& covers(m, inputs, n as int)
    &&& forall|more: int| n < more <= want ==> !#[trigger] covers(m, inputs, more)
}

/// The batches of a recipe that are run where `want` are wanted.
pub open spec fn batches(m: MarketView, inputs: Seq<(CommodityId, Quantity)>, want: u32) -> u32 {
    choose|n: u32| most_covered(m, inputs, want, n)
}

/// A market after `qty` of `c` is taken out, where that much is there.
pub open spec fn taken(m: MarketView, c: CommodityId, qty: int) -> MarketView {
    if m.goods.contains_key(c) && m.stock(c) >= qty {
        m.with_stock(c, (m.stock(c) - qty) as u32)
    } else {
        m
    }
}

/// A market after the first `k` inputs of `n` batches are drawn.
pub open spec fn drawn(
    m: MarketView,
    inputs: Seq<(CommodityId, Quantity)>,
    n: u32,
    k: int,
) -> MarketView
    decreases k,
{
    if k <= 0 {
        m
    } else {
        taken(drawn(m, inputs, n, k - 1), inputs[k - 1].0, n * inputs[k - 1].1)
    }
}

/// `n` batches of `qty` units, no more than the counter holds.
pub open spec fn output_of(n: u32, qty: Quantity) -> Quantity {
    if n * qty > u32::MAX {
        u32::MAX
    } else {
        (n * qty) as u32
    }
}

/// A market after the first `k` outputs of `n` batches are brought in.
pub open spec fn made(
    m: MarketView,
    outputs: Seq<(CommodityId, Quantity)>,
    n: u32,
    k: int,
) -> MarketView
    decreases k,
{
    if k <= 0 {
        m
    } else {
        made(m, outputs, n, k - 1).added(outputs[k - 1].0, output_of(n, outputs[k - 1].1))
    }
}

/// A market after `n` batches of a recipe.
pub open spec fn batched(m: MarketView, r: ResolvedRecipe, n: u32) -> MarketView {
    made(
        drawn(m, r.inputs@, n, r.inputs@.len() as int),
        r.outputs@,
        n,
        r.outputs@.len() as int,
    )
}

/// The batches wanted of industry `j`; none where the table does not say.
pub open spec fn wanted(wants: Seq<u32>, j: int) -> u32 {
    if 0 <= j < wants.len() {
        wants[j]
    } else {
        0
    }
}

/// The batches wanted of the industries of system `i`.
pub open spec fn wanted_at(wants: Seq<Vec<u32>>, i: int) -> Seq<u32> {
    if 0 <= i < wants.len() {
        wants[i]@
    } else {
        Seq::empty()
    }
}

/// A market after its first `k` industries have worked.
pub open spec fn worked(
    reg: Registry,
    m: MarketView,
    industries: Seq<RecipeId>,
    wants: Seq<u32>,
    k: int,
) -> MarketView
    decreases k,
{
    if k <= 0 {
        m
    } else {
        let before = worked(reg, m, industries, wants, k - 1);
        let r = reg.spec_recipes()[industries[k - 1].0 as int];
        batched(before, r, batches(before, r.inputs@, wanted(wants, k - 1)))
    }
}

/// The batches that industry `k` of a market ran.
pub open spec fn output_at(
    reg: Registry,
    m: MarketView,
    industries: Seq<RecipeId>,
    wants: Seq<u32>,
    k: int,
) -> u32 {
    let r = reg.spec_recipes()[industries[k].0 as int];
    batches(worked(reg, m, industries, wants, k), r.inputs@, wanted(wants, k))
}

/// The world after every industry has worked.
pub open spec fn produced(w: WorldView, wants: Seq<Vec<u32>>) -> WorldView {
    WorldView {
        markets: Seq::new(
            w.markets.len(),
            |i: int| {
                let industries = w.registry.spec_systems()[i].industries@;
                worked(
                    w.registry,
                    w.markets[i],
                    industries,
                    wanted_at(wants, i),
                    industries.len() as int,
                )
            },
        ),
        ..w
    }
}

/// Fewer batches need no more stock.
proof fn lemma_covers_fewer(
    m: MarketView,
    inputs: Seq<(CommodityId, Quantity)>,
    n: int,
    fewer: int,
)
    requires
        covers(m, inputs, n),
        0 <= fewer <= n,
    ensures
        covers(m, inputs, fewer),
{
    assert forall|k: int| 0 <= k < inputs.len() implies fewer * (#[trigger] inputs[k]).1 <= m.stock(
        inputs[k].0,
    ) by {
        assert(n * inputs[k].1 <= m.stock(inputs[k].0));
        let q = inputs[k].1 as int;
        assert(fewer * q <= n * q) by (nonlinear_arith)
            requires
                0 <= fewer <= n,
                0 <= q,
        ;
    }
}

/// There is one answer to how many batches run.
proof fn lemma_batches(m: MarketView, inputs: Seq<(CommodityId, Quantity)>, want: u32, n: u32)
    requires
        most_covered(m, inputs, want, n),
    ensures
        batches(m, inputs, want) == n,
{
    let b = batches(m, inputs, want);
    assert(most_covered(m, inputs, want, b));
    if b < n {
        assert(covers(m, inputs, n as int));
    }
    if n < b {
        assert(covers(m, inputs, b as int));
    }
}

/// How many batches run: the wanted, as far as each input's stock allows.
fn count_batches(market: &Market, inputs: &Vec<(CommodityId, Quantity)>, want: u32) -> (n: u32)
    ensures
        n == batches(market@, inputs@, want),
        covers(market@, inputs@, n as int),
{
    let mut n: u32 = want;
    let mut k: usize = 0;
    while k < inputs.len()
        invariant
            k <= inputs@.len(),
            n <= want,
            covers(market@, inputs@.take(k as int), n as int),
            forall|more: int| n < more <= want ==> !#[trigger] covers(market@, inputs@, more),
        decreases inputs@.len() - k,
    {
        let (c, q) = inputs[k];
        let stock = market.stock(c);
        let ghost before = n as int;
        if q > 0 && stock / q < n {
            n = stock / q;
            proof {
                lemma_covers_fewer(market@, inputs@.take(k as int), before, n as int);
                assert(n * q <= stock) by (nonlinear_arith)
                    requires
                        n == stock / q,
                        q > 0,
                ;
                assert forall|more: int| n < more <= want implies !#[trigger] covers(
                    market@,
                    inputs@,
                    more,
                ) by {
                    assert(more * q > stock) by (nonlinear_arith)
                        requires
                            more > stock / q,
                            q > 0,
                    ;
                    if covers(market@, inputs@, more) {
                        assert(more * inputs@[k as int].1 <= market@.stock(inputs@[k as int].0));
                    }
                }
            }
        } else {
            proof {
                if q > 0 {
                    assert(n * q <= stock) by (nonlinear_arith)
                        requires
                            0 <= n <= stock / q,
                            q > 0,
                    ;
                } else {
                    assert(n * q == 0) by (nonlinear_arith)
                        requires
                            q == 0,
                    ;
                }
            }
        }
        proof {
            let now = inputs@.take(k as int + 1);
            assert forall|j: int| 0 <= j < now.len() implies n * (#[trigger] now[j]).1
                <= market@.stock(now[j].0) by {
                if j < k {
                    assert(inputs@.take(k as int)[j] == now[j]);
                }
            }
        }
        k = k + 1;
    }
    proof {
        assert(inputs@.take(k as int) =~= inputs@);
        assert(most_covered(market@, inputs@, want, n));
        lemma_batches(market@, inputs@, want, n);
    }
    n
}

/// `n` batches of `qty` units, no more than the counter holds.
fn batch_output(n: u32, qty: Quantity) -> (r: Quantity)
    ensures
        r == output_of(n, qty),
{
    assert(0 <= n * qty <= 0xffff_ffff * 0xffff_ffff) by (nonlinear_arith)
        requires
            0 <= n <= 0xffff_ffff,
            0 <= qty <= 0xffff_ffff,
    ;
    let total: u64 = n as u64 * qty as u64;
    if total > 0xffff_ffff {
        0xffff_ffff
    } else {
        total as u32
    }
}

/// Run up to `want` batches of a recipe at a market; returns how many were run.
pub fn apply_recipe(market: &mut Market, recipe: &ResolvedRecipe, want: u32) -> (n: u32)
    ensures
        n == batches(old(market)@, recipe.inputs@, want),
        final(market)@ == batched(old(market)@, *recipe, n),
{
    let ghost m = market@;
    let n = count_batches(market, &recipe.inputs, want);
    let mut k: usize = 0;
    while k < recipe.inputs.len()
        invariant
            k <= recipe.inputs@.len(),
            covers(m, recipe.inputs@, n as int),
            market@ == drawn(m, recipe.inputs@, n, k as int),
        decreases recipe.inputs@.len() - k,
    {
        let (c, q) = recipe.inputs[k];
        assert(n * recipe.inputs@[k as int].1 <= m.stock(recipe.inputs@[k as int].0));
        assert(0 <= n * q) by (nonlinear_arith)
            requires
                0 <= n,
                0 <= q,
        ;
        let _there = market.try_remove(c, n * q);
        k = k + 1;
    }
    let ghost less = market@;
    let mut k: usize = 0;
    while k < recipe.outputs.len()
        invariant
            k <= recipe.outputs@.len(),
            market@ == made(less, recipe.outputs@, n, k as int),
        decreases recipe.outputs@.len() - k,
    {
        let (c, q) = recipe.outputs[k];
        market.add(c, batch_output(n, q));
        k = k + 1;
    }
    n
}

/// Production changes stock only.
pub open spec fn same_but_stock(a: MarketView, b: MarketView) -> bool {
    &&& a.system == b.system
    &&& a.pricing == b.pricing
    &&& a.goods.dom() == b.goods.dom()
    &&& forall|c: CommodityId| #[trigger]
        a.goods.contains_key(c) ==> a.goods[c].price == b.goods[c].price && a.goods[c].equilibrium
            == b.goods[c].equilibrium
}

pub(crate) proof fn lemma_drawn(m: MarketView, inputs: Seq<(CommodityId, Quantity)>, n: u32, k: int)
    ensures
        same_but_stock(drawn(m, inputs, n, k), m),
    decreases k,
{
    if k > 0 {
        lemma_drawn(m, inputs, n, k - 1);
        let before = drawn(m, inputs, n, k - 1);
        let c = inputs[k - 1].0;
        if before.goods.contains_key(c) {
            assert(drawn(m, inputs, n, k).goods.dom() =~= m.goods.dom());
        }
    }
}

pub(crate) proof fn lemma_made(m: MarketView, outputs: Seq<(CommodityId, Quantity)>, n: u32, k: int)
    ensures
        same_but_stock(made(m, outputs, n, k), m),
    decreases k,
{
    if k > 0 {
        lemma_made(m, outputs, n, k - 1);
        let before = made(m, outputs, n, k - 1);
        let c = outputs[k - 1].0;
        if before.goods.contains_key(c) {
            assert(made(m, outputs, n, k).goods.dom() =~= m.goods.dom());
        }
    }
}

/// Production changes nothing at a market but its stock: what it trades, its prices
/// and their anchors stay.
pub proof fn lemma_worked(
    reg: Registry,
    m: MarketView,
    industries: Seq<RecipeId>,
    wants: Seq<u32>,
    k: int,
)
    ensures
        same_but_stock(worked(reg, m, industries, wants, k), m),
    decreases k,
{
    if k > 0 {
        lemma_worked(reg, m, industries, wants, k - 1);
        let before = worked(reg, m, industries, wants, k - 1);
        let r = reg.spec_recipes()[industries[k - 1].0 as int];
        let n = batches(before, r.inputs@, wanted(wants, k - 1));
        lemma_drawn(before, r.inputs@, n, r.inputs@.len() as int);
        lemma_made(
            drawn(before, r.inputs@, n, r.inputs@.len() as int),
            r.outputs@,
            n,
            r.outputs@.len() as int,
        );
    }
}

/// The target price of `c` at system `i`; the price it has where the table does not
/// say.
pub open spec fn target_of(
    targets: Seq<Vec<Money>>,
    i: int,
    c: CommodityId,
    price: Money,
) -> Money {
    if 0 <= i < targets.len() && c.0 < targets[i]@.len() {
        targets[i]@[c.0 as int]
    } else {
        price
    }
}

/// A market whose prices have eased toward their targets.
pub open spec fn eased(m: MarketView, targets: Seq<Vec<Money>>, i: int) -> MarketView {
    MarketView {
        goods: m.goods.map_entries(
            |c: CommodityId, g: MarketGood|
                MarketGood {
                    price: pricing::spec_smoothed(g.price, target_of(targets, i, c, g.price)),
                    ..g
                },
        ),
        ..m
    }
}

/// The world after every market has repriced.
pub open spec fn repriced(w: WorldView, targets: Seq<Vec<Money>>) -> WorldView {
    WorldView {
        markets: Seq::new(w.markets.len(), |i: int| eased(w.markets[i], targets, i)),
        ..w
    }
}

impl World {
    /// Let the industries of system `i` work; returns the batches each ran.
    fn work_at(&mut self, i: usize, wants: &Vec<Vec<u32>>) -> (done: Vec<u32>)
        requires
            old(self)@.wf(),
            i < old(self).markets@.len(),
        ensures
            final(self)@ == old(self)@.with_market(
                i as int,
                worked(
                    old(self)@.registry,
                    old(self)@.markets[i as int],
                    old(self)@.registry.spec_systems()[i as int].industries@,
                    wanted_at(wants@, i as int),
                    old(self)@.registry.spec_systems()[i as int].industries@.len() as int,
                ),
            ),
            final(self)@.wf(),
            final(self).markets@.len() == old(self).markets@.len(),
            done@.len() == old(self)@.registry.spec_systems()[i as int].industries@.len(),
            forall|j: int|
                0 <= j < done@.len() ==> #[trigger] done@[j] == output_at(
                    old(self)@.registry,
                    old(self)@.markets[i as int],
                    old(self)@.registry.spec_systems()[i as int].industries@,
                    wanted_at(wants@, i as int),
                    j,
                ),
    {
        let ghost w = self@;
        let ghost m = w.markets[i as int];
        let ghost plan = wanted_at(wants@, i as int);
        let sid = SystemId(i as u32);
        let ghost industries = w.registry.spec_systems()[i as int].industries@;
        assert(w.registry.system_in_range(w.registry.spec_systems()[i as int]));
        let mut done: Vec<u32> = Vec::new();
        let mut j: usize = 0;
        while j < self.registry.system(sid).industries.len()
            invariant
                j <= industries.len(),
                w.wf(),
                i < self.markets@.len(),
                i == sid.0,
                i < w.systems(),
                m == w.markets[i as int],
                plan == wanted_at(wants@, i as int),
                industries == w.registry.spec_systems()[i as int].industries@,
                w.registry.system_in_range(w.registry.spec_systems()[i as int]),
                self@ == w.with_market(
                    i as int,
                    worked(w.registry, m, industries, plan, j as int),
                ),
                done@.len() == j,
                forall|k: int|
                    0 <= k < j ==> #[trigger] done@[k] == output_at(
                        w.registry,
                        m,
                        industries,
                        plan,
                        k,
                    ),
            decreases industries.len() - j,
        {
            assert(self@.markets[i as int] == worked(w.registry, m, industries, plan, j as int));
            let rid = self.registry.system(sid).industries[j];
            assert(rid == industries[j as int]);
            let want: u32 = if i < wants.len() && j < wants[i].len() {
                wants[i][j]
            } else {
                0
            };
            assert(want == wanted(plan, j as int));
            let ghost all = self@.markets;
            let n = apply_recipe(&mut self.markets[i], self.registry.recipe(rid), want);
            done.push(n);
            assert(self@.markets =~= all.update(
                i as int,
                worked(w.registry, m, industries, plan, j + 1),
            ));
            assert(self@ =~= w.with_market(
                i as int,
                worked(w.registry, m, industries, plan, j + 1),
            ));
            j = j + 1;
        }
        proof {
            let v = self@;
            lemma_worked(w.registry, m, industries, plan, industries.len() as int);
            assert(w.market_ok(m));
            assert forall|k: int| 0 <= k < v.markets.len() implies v.market_ok(
                #[trigger] v.markets[k],
            ) && v.markets[k].system.0 == k by {
                assert(w.market_ok(w.markets[k]));
                if k == i {
                    assert forall|c| #[trigger] v.markets[k].goods.contains_key(c) implies c.0
                        < v.commodities() && v.markets[k].goods[c].price >= 1 by {
                        assert(m.goods.contains_key(c));
                    }
                }
            }
            assert(v.wf());
        }
        done
    }

    /// Transform stock through every industry; returns the batches each ran.
    pub(crate) fn production_phase(&mut self, wants: &Vec<Vec<u32>>) -> (done: Vec<Vec<u32>>)
        requires
            old(self)@.wf(),
        ensures
            final(self)@ == produced(old(self)@, wants@),
            final(self)@.wf(),
            ran(old(self)@, wants@, done@),
    {
        let ghost w = self@;
        let ghost out = produced(w, wants@).markets;
        let n = self.markets.len();
        let mut done: Vec<Vec<u32>> = Vec::new();
        let mut i: usize = 0;
        while i < n
            invariant
                i <= n,
                n == self.markets@.len(),
                n == w.markets.len(),
                out == produced(w, wants@).markets,
                self@.wf(),
                self@ =~= (WorldView { markets: self@.markets, ..w }),
                self@.markets.len() == n,
                forall|k: int| 0 <= k < i ==> #[trigger] self@.markets[k] == out[k],
                forall|k: int| i <= k < n ==> #[trigger] self@.markets[k] == w.markets[k],
                done@.len() == i,
                forall|k: int| 0 <= k < i ==> ran_at(w, wants@, (#[trigger] done@[k])@, k),
            decreases n - i,
        {
            let ghost before = self@;
            let ran = self.work_at(i, wants);
            assert(before.markets[i as int] == w.markets[i as int]);
            assert(self@.markets[i as int] == out[i as int]);
            done.push(ran);
            assert(ran_at(w, wants@, done@[i as int]@, i as int));
            i = i + 1;
        }
        assert(self@.markets =~= out);
        done
    }

    /// Ease every price toward its target.
    pub(crate) fn price_phase(&mut self, targets: &Vec<Vec<Money>>)
        requires
            old(self)@.wf(),
        ensures
            final(self)@ == repriced(old(self)@, targets@),
            final(self)@.wf(),
    {
        let ghost w = self@;
        let n = self.markets.len();
        let mut i: usize = 0;
        while i < n
            invariant
                i <= n,
                n == self.markets@.len(),
                n == w.markets.len(),
                w.wf(),
                self@ =~= (WorldView { markets: self@.markets, ..w }),
                self@.markets.len() == n,
                forall|k: int|
                    0 <= k < i ==> #[trigger] self@.markets[k] == eased(w.markets[k], targets@, k),
                forall|k: int| i <= k < n ==> #[trigger] self@.markets[k] == w.markets[k],
            decreases n - i,
        {
            self.ease_at(i, targets);
            i = i + 1;
        }
        proof {
            let v = self@;
            assert(v.markets =~= repriced(w, targets@).markets);
            assert forall|k: int| 0 <= k < v.markets.len() implies v.market_ok(
                #[trigger] v.markets[k],
            ) && v.markets[k].system.0 == k by {
                assert(w.market_ok(w.markets[k]));
                assert forall|c| #[trigger] v.markets[k].goods.contains_key(c) implies c.0
                    < v.commodities() && v.markets[k].goods[c].price >= 1 by {
                    assert(w.markets[k].goods.contains_key(c));
                }
            }
            assert forall|k: int| 0 <= k < v.traders.len() implies v.trader_ok(
                #[trigger] v.traders[k],
            ) by {
                assert(w.trader_ok(w.traders[k]));
            }
            assert(v.wf());
        }
    }

    /// Ease the prices of market `i`.
    fn ease_at(&mut self, i: usize, targets: &Vec<Vec<Money>>)
        requires
            i < old(self).markets@.len(),
            old(self)@.registry.wf(),
            forall|c: CommodityId| #[trigger]
                old(self)@.markets[i as int].goods.contains_key(c) ==> c.0
                    < old(self)@.commodities(),
        ensures
            final(self)@ == old(self)@.with_market(
                i as int,
                eased(old(self)@.markets[i as int], targets@, i as int),
            ),
            final(self).markets@.len() == old(self).markets@.len(),
    {
        let ghost w = self@;
        let ghost m = w.markets[i as int];
        let ghost out = eased(m, targets@, i as int);
        let n = self.registry.commodity_count();
        let mut k: usize = 0;
        while k < n
            invariant
                k <= n,
                n == w.commodities(),
                n <= u32::MAX,
                i < self.markets@.len(),
                m == w.markets[i as int],
                out == eased(m, targets@, i as int),
                self@.markets.len() == w.markets.len(),
                self@ =~= w.with_market(i as int, self@.markets[i as int]),
                self@.markets[i as int].system == m.system,
                self@.markets[i as int].pricing == m.pricing,
                self@.markets[i as int].goods.dom() == m.goods.dom(),
                forall|c: CommodityId| #[trigger]
                    m.goods.contains_key(c) ==> self@.markets[i as int].goods[c] == (if c.0 < k {
                        out.goods[c]
                    } else {
                        m.goods[c]
                    }),
            decreases n - k,
        {
            let c = CommodityId(k as u32);
            let ghost all = self@.markets;
            let found: Option<MarketGood> = match self.markets[i].goods.get(&c) {
                Some(g) => Some(*g),
                None => None,
            };
            match found {
                None => {},
                Some(g) => {
                    assert(m.goods.contains_key(c));
                    assert(g == m.goods[c]);
                    let target = if i < targets.len() && k < targets[i].len() {
                        targets[i][k]
                    } else {
                        g.price
                    };
                    let price = pricing::smoothed(g.price, target);
                    self.markets[i].goods.insert(c, MarketGood { price, ..g });
                    assert(self@.markets[i as int].goods.dom() =~= m.goods.dom());
                },
            }
            assert(self@.markets =~= all.update(i as int, self@.markets[i as int]));
            k = k + 1;
        }
        assert(self@.markets[i as int] =~= out);
    }
}

/// Whether `done` holds the batches that the industries of system `i` ran.
pub open spec fn ran_at(w: WorldView, wants: Seq<Vec<u32>>, done: Seq<u32>, i: int) -> bool {
    let industries = w.registry.spec_systems()[i].industries@;
    done.len() == industries.len() && forall|j: int|
        0 <= j < done.len() ==> #[trigger] done[j] == output_at(
            w.registry,
            w.markets[i],
            industries,
            wanted_at(wants, i),
            j,
        )
}

/// Whether `done` holds the batches that every industry ran.
pub open spec fn ran(w: WorldView, wants: Seq<Vec<u32>>, done: Seq<Vec<u32>>) -> bool {
    done.len() == w.markets.len() && forall|i: int|
        0 <= i < done.len() ==> ran_at(w, wants, (#[trigger] done[i])@, i)
}

} // verus!
