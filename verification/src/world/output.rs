//! What industries and repricing do to a market, told by what can be seen before and after.

use vstd::prelude::*;

use crate::ids::{CommodityId, Money, Quantity};
use crate::market::{MarketGood, MarketView};
use crate::pricing;
use crate::registry::ResolvedRecipe;
use crate::world::works;
use crate::world::WorldView;

verus! {

/// What a list asks for of a good, over all its entries.
pub open spec fn asked(list: Seq<(CommodityId, Quantity)>, c: CommodityId) -> int
    decreases list.len(),
{
    if list.len() == 0 {
        0
    } else {
        asked(list.drop_last(), c) + (if list.last().0 == c {
            list.last().1 as int
        } else {
            0
        })
    }
}

/// Whether a list names no good twice.
pub open spec fn each_once(list: Seq<(CommodityId, Quantity)>) -> bool {
    forall|i: int, j: int|
        0 <= i < j < list.len() ==> (#[trigger] list[i]).0 != (#[trigger] list[j]).0
}

/// The units of a good in stock.
pub open spec fn in_stock(m: MarketView, c: CommodityId) -> int {
    if m.goods.dom().contains(c) {
        m.goods[c].stock as int
    } else {
        0
    }
}

/// Whether the stock has so many batches of every input.
pub open spec fn enough(m: MarketView, inputs: Seq<(CommodityId, Quantity)>, n: int) -> bool {
    forall|k: int|
        0 <= k < inputs.len() ==> n * (#[trigger] inputs[k]).1 <= in_stock(m, inputs[k].0)
}

proof fn lemma_some_batches(
    m: MarketView,
    inputs: Seq<(CommodityId, Quantity)>,
    want: u32,
    k: u32,
)
    requires
        k <= want,
        forall|more: int| k < more <= want ==> !#[trigger] works::covers(m, inputs, more),
    ensures
        exists|n: u32| works::most_covered(m, inputs, want, n),
    decreases k,
{
    if works::covers(m, inputs, k as int) {
        assert(works::most_covered(m, inputs, want, k));
    } else if k > 0 {
        assert forall|more: int| k - 1 < more <= want implies !#[trigger] works::covers(
            m,
            inputs,
            more,
        ) by {}
        lemma_some_batches(m, inputs, want, (k - 1) as u32);
    } else {
        assert forall|j: int| 0 <= j < inputs.len() implies 0 * (#[trigger] inputs[j]).1
            <= m.stock(inputs[j].0) by {
            let q = inputs[j].1 as int;
            assert(0 * q == 0) by (nonlinear_arith);
        }
        assert(works::covers(m, inputs, 0));
    }
}

/// An industry runs as many batches as are wanted and its inputs allow: no more than are
/// wanted, no more than every input covers, and not one fewer.
pub proof fn lemma_batches_run(m: MarketView, inputs: Seq<(CommodityId, Quantity)>, want: u32)
    ensures
        ({
            let n = works::batches(m, inputs, want);
            &&& n <= want
            &&& enough(m, inputs, n as int)
            &&& n < want ==> !enough(m, inputs, n + 1)
        }),
{
    assert forall|more: int| want < more <= want implies !#[trigger] works::covers(
        m,
        inputs,
        more,
    ) by {}
    lemma_some_batches(m, inputs, want, want);
    let n = works::batches(m, inputs, want);
    assert(works::most_covered(m, inputs, want, n));
    assert forall|k: int| 0 <= k < inputs.len() implies n * (#[trigger] inputs[k]).1 <= in_stock(
        m,
        inputs[k].0,
    ) by {}
    if n < want && enough(m, inputs, n + 1) {
        assert forall|k: int| 0 <= k < inputs.len() implies (n + 1) * (#[trigger] inputs[k]).1
            <= m.stock(inputs[k].0) by {}
        assert(works::covers(m, inputs, n + 1));
    }
}

proof fn lemma_asked_once(list: Seq<(CommodityId, Quantity)>, k: int)
    requires
        each_once(list),
        0 <= k < list.len(),
    ensures
        asked(list.take(k), list[k].0) == 0,
    decreases k,
{
    lemma_not_asked(list.take(k), list[k].0);
}

proof fn lemma_not_asked(list: Seq<(CommodityId, Quantity)>, c: CommodityId)
    requires
        forall|j: int| 0 <= j < list.len() ==> (#[trigger] list[j]).0 != c,
    ensures
        asked(list, c) == 0,
    decreases list.len(),
{
    if list.len() > 0 {
        assert(list[list.len() - 1].0 != c);
        lemma_not_asked(list.drop_last(), c);
    }
}

proof fn lemma_drawn_stock(
    m: MarketView,
    inputs: Seq<(CommodityId, Quantity)>,
    n: u32,
    k: int,
    c: CommodityId,
)
    requires
        each_once(inputs),
        enough(m, inputs, n as int),
        0 <= k <= inputs.len(),
        m.goods.dom().contains(c),
    ensures
        works::drawn(m, inputs, n, k).goods.dom().contains(c),
        in_stock(works::drawn(m, inputs, n, k), c) == in_stock(m, c) - n * asked(inputs.take(k), c),
    decreases k,
{
    if k > 0 {
        lemma_drawn_stock(m, inputs, n, k - 1, c);
        let before = works::drawn(m, inputs, n, k - 1);
        let q = inputs[k - 1].1 as int;
        assert(inputs.take(k).drop_last() =~= inputs.take(k - 1));
        assert(inputs.take(k).last() == inputs[k - 1]);
        let a = asked(inputs.take(k - 1), c);
        assert(0 <= n * q) by (nonlinear_arith)
            requires
                n >= 0,
                q >= 0,
        ;
        if inputs[k - 1].0 == c {
            lemma_asked_once(inputs, k - 1);
            assert(n * 0 == 0) by (nonlinear_arith);
            assert(n * inputs[k - 1].1 <= in_stock(m, c));
            assert(a + q == q);
        }
    } else {
        assert(inputs.take(0) =~= Seq::<(CommodityId, Quantity)>::empty());
        assert(n * 0 == 0) by (nonlinear_arith);
    }
}

proof fn lemma_made_stock(
    m: MarketView,
    outputs: Seq<(CommodityId, Quantity)>,
    n: u32,
    k: int,
    c: CommodityId,
)
    requires
        0 <= k <= outputs.len(),
        m.goods.dom().contains(c),
        in_stock(m, c) + n * asked(outputs.take(k), c) <= u32::MAX,
    ensures
        works::made(m, outputs, n, k).goods.dom().contains(c),
        in_stock(works::made(m, outputs, n, k), c) == in_stock(m, c) + n * asked(
            outputs.take(k),
            c,
        ),
    decreases k,
{
    if k > 0 {
        let q = outputs[k - 1].1 as int;
        assert(outputs.take(k).drop_last() =~= outputs.take(k - 1));
        assert(outputs.take(k).last() == outputs[k - 1]);
        let a = asked(outputs.take(k - 1), c);
        let b = asked(outputs.take(k), c);
        assert(n * b == n * a + n * (b - a)) by (nonlinear_arith);
        assert(n * q >= 0) by (nonlinear_arith)
            requires
                n >= 0,
                q >= 0,
        ;
        assert(n * 0 == 0) by (nonlinear_arith);
        lemma_made_stock(m, outputs, n, k - 1, c);
        lemma_asked_not_negative(outputs.take(k - 1), c);
        assert(n * a >= 0) by (nonlinear_arith)
            requires
                n >= 0,
                a >= 0,
        ;
    } else {
        assert(outputs.take(0) =~= Seq::<(CommodityId, Quantity)>::empty());
        assert(n * 0 == 0) by (nonlinear_arith);
    }
}

proof fn lemma_asked_not_negative(list: Seq<(CommodityId, Quantity)>, c: CommodityId)
    ensures
        asked(list, c) >= 0,
    decreases list.len(),
{
    if list.len() > 0 {
        lemma_asked_not_negative(list.drop_last(), c);
    }
}

/// A batch turns its inputs into its outputs: of every good the market trades, the stock
/// falls by what the batches take of it and grows by what they make of it, and by nothing
/// else. A good the market does not trade does not appear.
pub proof fn lemma_batches_convert(m: MarketView, r: ResolvedRecipe, n: u32, c: CommodityId)
    requires
        each_once(r.inputs@),
        enough(m, r.inputs@, n as int),
        in_stock(m, c) - n * asked(r.inputs@, c) + n * asked(r.outputs@, c) <= u32::MAX,
    ensures
        works::batched(m, r, n).goods.dom().contains(c) == m.goods.dom().contains(c),
        m.goods.dom().contains(c) ==> in_stock(works::batched(m, r, n), c) == in_stock(m, c) - n
            * asked(r.inputs@, c) + n * asked(r.outputs@, c),
{
    let i = r.inputs@.len() as int;
    let o = r.outputs@.len() as int;
    assert(r.inputs@.take(i) =~= r.inputs@);
    assert(r.outputs@.take(o) =~= r.outputs@);
    let less = works::drawn(m, r.inputs@, n, i);
    if m.goods.dom().contains(c) {
        lemma_drawn_stock(m, r.inputs@, n, i, c);
        lemma_made_stock(less, r.outputs@, n, o, c);
    } else {
        works::lemma_drawn(m, r.inputs@, n, i);
        works::lemma_made(less, r.outputs@, n, o);
    }
}

/// A price goes a fifth of the way to its target, to the nearest credit; it is never below
/// one credit.
pub proof fn lemma_price_goes_a_fifth(current: Money, target: Money)
    ensures
        ({
            let next = pricing::spec_smoothed(current, target);
            &&& next >= 1
            &&& 4 * current + target >= 3 ==> -2 <= 5 * next - (4 * current + target) <= 2
            &&& 4 * current + target < 3 ==> next == 1
        }),
{
}

/// Repricing moves the price of every good toward the target of its own market and good,
/// and changes nothing else: neither stock nor anchor nor what is traded.
pub proof fn lemma_repricing(w: WorldView, targets: Seq<Vec<Money>>, i: int, c: CommodityId)
    requires
        0 <= i < w.markets.len(),
    ensures
        ({
            let v = works::repriced(w, targets);
            let m = w.markets[i];
            let after = v.markets[i];
            let goal = if i < targets.len() && c.0 < targets[i]@.len() {
                targets[i]@[c.0 as int]
            } else {
                m.goods[c].price
            };
            &&& v == (WorldView { markets: v.markets, ..w })
            &&& v.markets.len() == w.markets.len()
            &&& after.system == m.system
            &&& after.pricing == m.pricing
            &&& after.goods.dom().contains(c) == m.goods.dom().contains(c)
            &&& m.goods.dom().contains(c) ==> {
                let g = after.goods[c];
                &&& g == (MarketGood { price: g.price, ..m.goods[c] })
                &&& m.goods[c].price >= 1 && goal >= 1 ==> {
                    &&& -2 <= 5 * g.price - (4 * m.goods[c].price + goal) <= 2
                    &&& goal >= m.goods[c].price ==> m.goods[c].price <= g.price <= goal
                    &&& goal <= m.goods[c].price ==> goal <= g.price <= m.goods[c].price
                }
            }
        }),
{
}

/// Whether `stages` shows the industries of system `i` at work, one after the other: each
/// runs its own recipe on what the one before has left, as many batches as are wanted of it
/// and its inputs allow.
pub open spec fn in_turn(
    w: WorldView,
    wants: Seq<Vec<u32>>,
    i: int,
    stages: Seq<MarketView>,
) -> bool {
    let industries = w.registry.spec_systems()[i].industries@;
    &&& stages.len() == industries.len() + 1
    &&& stages[0] == w.markets[i]
    &&& forall|k: int|
        0 <= k < industries.len() ==> {
            let r = w.registry.spec_recipes()[industries[k].0 as int];
            let want: u32 = if i < wants.len() && k < wants[i]@.len() {
                wants[i]@[k]
            } else {
                0
            };
            stages[k + 1] == works::batched(
                #[trigger] stages[k],
                r,
                works::batches(stages[k], r.inputs@, want),
            )
        }
}

/// Production at every system is the work of its own industries in turn, and changes
/// nothing but markets.
pub proof fn lemma_industries_work_in_turn(w: WorldView, wants: Seq<Vec<u32>>, i: int)
    requires
        0 <= i < w.markets.len(),
    ensures
        ({
            let v = works::produced(w, wants);
            &&& v == (WorldView { markets: v.markets, ..w })
            &&& v.markets.len() == w.markets.len()
            &&& exists|stages: Seq<MarketView>| #[trigger]
                in_turn(w, wants, i, stages) && stages.last() == v.markets[i]
        }),
{
    let industries = w.registry.spec_systems()[i].industries@;
    let plan = works::wanted_at(wants, i);
    let stages = Seq::new(
        industries.len() + 1,
        |k: int| works::worked(w.registry, w.markets[i], industries, plan, k),
    );
    assert forall|k: int| 0 <= k < industries.len() implies {
        let r = w.registry.spec_recipes()[industries[k].0 as int];
        let want: u32 = if i < wants.len() && k < wants[i]@.len() {
            wants[i]@[k]
        } else {
            0
        };
        stages[k + 1] == works::batched(
            #[trigger] stages[k],
            r,
            works::batches(stages[k], r.inputs@, want),
        )
    } by {
        assert(stages[k + 1] == works::worked(w.registry, w.markets[i], industries, plan, k + 1));
    }
    assert(in_turn(w, wants, i, stages));
    assert(stages.last() == works::produced(w, wants).markets[i]);
}

} // verus!
