//! What a trader's turn comes to, told by what can be seen before and after it.

use vstd::prelude::*;

use crate::data::CommodityDef;
use crate::ids::{CommodityId, Money, Quantity, SystemId};
use crate::market::MarketView;
use crate::money;
use crate::trader::{TraderLocation, TraderView};
use crate::world::aftermath;
use crate::world::dealings;
use crate::world::dealings::{
    lemma_balances_wrap, lemma_departure, only_stock, other_goods_kept, other_traders_kept,
    stands_at, under_way, units,
};
use crate::world::trade;
use crate::world::trade::TradePlan;
use crate::world::{PiracyStats, WorldView};

verus! {

/// An empty hold fetches nothing.
pub proof fn lemma_nothing_fetches_nothing(m: MarketView, n: int)
    ensures
        trade::proceeds(m, Map::empty(), n) == 0,
    decreases n,
{
    if n > 0 {
        lemma_nothing_fetches_nothing(m, n - 1);
    }
}

/// Units put into a hold fetch their number times the market's price, where the market
/// trades the good, and nothing where it does not.
pub proof fn lemma_goods_fetch_their_price(
    m: MarketView,
    cargo: Map<CommodityId, Quantity>,
    c: CommodityId,
    qty: Quantity,
    n: int,
)
    requires
        !cargo.dom().contains(c),
        c.0 < n <= u32::MAX,
    ensures
        trade::proceeds(m, cargo.insert(c, qty), n) == trade::proceeds(m, cargo, n) + (
        if m.goods.dom().contains(c) {
            qty * m.goods[c].price
        } else {
            0
        }),
    decreases n,
{
    lemma_fetch_below(m, cargo, c, qty, n);
}

proof fn lemma_fetch_below(
    m: MarketView,
    cargo: Map<CommodityId, Quantity>,
    c: CommodityId,
    qty: Quantity,
    n: int,
)
    requires
        !cargo.dom().contains(c),
        n <= u32::MAX,
    ensures
        trade::proceeds(m, cargo.insert(c, qty), n) == trade::proceeds(m, cargo, n) + (if c.0 < n
            && m.goods.dom().contains(c) {
            qty * m.goods[c].price
        } else {
            0
        }),
    decreases n,
{
    if n > 0 {
        lemma_fetch_below(m, cargo, c, qty, n - 1);
        let k = CommodityId((n - 1) as u32);
        assert(k.0 == n - 1);
        if k != c {
            assert(cargo.insert(c, qty).contains_key(k) == cargo.contains_key(k));
        }
    }
}

/// A trader that sells out: what the market trades of its hold goes into the stock, as far
/// as the counter goes, and is paid for; what the market does not trade stays aboard.
pub proof fn lemma_selling_out(w: WorldView, t: int, sys: SystemId)
    requires
        0 <= t < w.traders.len(),
        sys.0 < w.markets.len(),
    ensures
        ({
            let v = trade::sold_out(w, t, sys);
            let s = sys.0 as int;
            let tr = w.traders[t];
            let m = w.markets[s];
            &&& v == (WorldView { traders: v.traders, markets: v.markets, ..w })
            &&& dealings::only_purse_and_hold(w.traders, v.traders, t)
            &&& stands_at(
                v.traders[t].capital as int,
                tr.capital + trade::proceeds(
                    m,
                    tr.cargo,
                    w.registry.spec_commodities().len() as int,
                ),
            )
            &&& forall|c: CommodityId| #[trigger]
                v.traders[t].cargo.dom().contains(c) <==> tr.cargo.dom().contains(c)
                    && !m.goods.dom().contains(c)
            &&& forall|c: CommodityId| #[trigger]
                v.traders[t].cargo.dom().contains(c) ==> v.traders[t].cargo[c] == tr.cargo[c]
            &&& v.markets.len() == w.markets.len()
            &&& forall|j: int|
                0 <= j < w.markets.len() && j != s ==> #[trigger] v.markets[j] == w.markets[j]
            &&& v.markets[s].system == m.system
            &&& v.markets[s].pricing == m.pricing
            &&& forall|c: CommodityId|
                (#[trigger] v.markets[s].goods.dom().contains(c)) == m.goods.dom().contains(c)
            &&& forall|c: CommodityId| #[trigger]
                m.goods.dom().contains(c) ==> {
                    let g = v.markets[s].goods[c];
                    &&& g.price == m.goods[c].price
                    &&& g.equilibrium == m.goods[c].equilibrium
                    &&& m.goods[c].stock + units(tr.cargo, c) <= u32::MAX ==> g.stock
                        == m.goods[c].stock + units(tr.cargo, c)
                    &&& m.goods[c].stock + units(tr.cargo, c) > u32::MAX ==> g.stock == u32::MAX
                }
        }),
{
    let tr = w.traders[t];
    let m = w.markets[sys.0 as int];
    lemma_balances_wrap(tr.capital + trade::proceeds(m, tr.cargo, w.commodities() as int));
}

/// A trader that hauls: what it buys leaves the stock and comes aboard, the price of it and
/// the escort's fee leave the purse, and it is under way to where the plan says.
pub proof fn lemma_hauling(w: WorldView, t: int, sys: SystemId, plan: TradePlan)
    requires
        w.wf(),
        0 <= t < w.traders.len(),
        sys.0 < w.systems(),
        trade::feasible(w, t, sys, plan),
    ensures
        ({
            let v = trade::hauled(w, t, sys, plan);
            let s = sys.0 as int;
            let tr = w.traders[t];
            let fee: int = match w.escort {
                Some(e) => e.fee as int,
                None => 0,
            };
            &&& v == (WorldView {
                traders: v.traders,
                markets: v.markets,
                piracy_stats: v.piracy_stats,
                ..w
            })
            &&& other_traders_kept(w.traders, v.traders, t)
            &&& under_way(
                w,
                TraderView { cargo: v.traders[t].cargo, ..tr },
                v.traders[t],
                sys,
                plan.dest,
            )
            &&& stands_at(
                v.traders[t].capital as int,
                tr.capital - plan.qty * plan.unit_cost - fee,
            )
            &&& units(v.traders[t].cargo, plan.commodity) == plan.qty
            &&& other_goods_kept(tr.cargo, v.traders[t].cargo, plan.commodity)
            &&& only_stock(w.markets, v.markets, s, plan.commodity)
            &&& v.markets[s].goods[plan.commodity].stock
                == w.markets[s].goods[plan.commodity].stock - plan.qty
            &&& stands_at(
                v.piracy_stats.escort_fees_paid as int,
                w.piracy_stats.escort_fees_paid + fee,
            )
            &&& v.piracy_stats == (PiracyStats {
                escort_fees_paid: v.piracy_stats.escort_fees_paid,
                ..w.piracy_stats
            })
        }),
{
    trade::lemma_hauls_are_within_means(w, t, sys, plan);
    let tr = w.traders[t];
    let m = w.markets[sys.0 as int];
    assert(w.market_ok(m));
    let loaded = w.with_market(
        sys.0 as int,
        m.with_stock(plan.commodity, (m.stock(plan.commodity) - plan.qty) as u32),
    ).with_trader(
        t,
        TraderView {
            capital: money::wrapped(tr.capital - plan.qty * plan.unit_cost),
            cargo: tr.cargo.insert(plan.commodity, plan.qty),
            ..tr
        },
    );
    lemma_departure(loaded, t, sys, plan.dest);
}

/// A trader that leaves empty: it goes to a neighbour, with nothing but the escort's fee
/// out of its purse. Where any neighbour offers a trade, it goes to one whose offer is the
/// highest; where there is no way out, it stays.
pub proof fn lemma_leaving_empty(
    w: WorldView,
    t: int,
    sys: SystemId,
    scores: Seq<Option<Money>>,
)
    requires
        0 <= t < w.traders.len(),
    ensures
        ({
            let v = trade::deadheaded(w, t, sys, scores);
            let ways = w.registry.spec_systems()[sys.0 as int].connections@;
            let fee: int = match w.escort {
                Some(e) => e.fee as int,
                None => 0,
            };
            let offers = exists|k: int|
                0 <= k < ways.len() && k < scores.len() && (#[trigger] scores[k]) is Some;
            if ways.len() == 0 {
                v == w
            } else {
                let dest = v.traders[t].location->InTransit_dest;
                &&& v == (WorldView {
                    traders: v.traders,
                    piracy_stats: v.piracy_stats,
                    rng: v.rng,
                    ..w
                })
                &&& other_traders_kept(w.traders, v.traders, t)
                &&& under_way(w, w.traders[t], v.traders[t], sys, dest)
                &&& stands_at(v.traders[t].capital as int, w.traders[t].capital - fee)
                &&& offers ==> v.rng == w.rng && exists|k: int|
                    #![trigger scores[k]]
                    0 <= k < ways.len() && k < scores.len() && ways[k] == dest && scores[k] is Some
                        && forall|j: int|
                        #![trigger scores[j]]
                        0 <= j < ways.len() && j < scores.len() && scores[j] is Some
                            ==> scores[j]->Some_0 < scores[k]->Some_0 || (scores[j]->Some_0
                            == scores[k]->Some_0 && dest.0 <= ways[j].0)
                &&& !offers ==> dest == ways[w.rng.spec_range(0, ways.len() as u64) as int]
                    && v.rng == w.rng.after_range(0, ways.len() as u64)
            }
        }),
{
    let ways = w.registry.spec_systems()[sys.0 as int].connections@;
    if ways.len() > 0 {
        let offers = exists|k: int|
            0 <= k < ways.len() && k < scores.len() && (#[trigger] scores[k]) is Some;
        match trade::best_neighbour(ways, scores) {
            Some(n) => {
                lemma_departure(w, t, sys, n);
                let k = choose|k: int| trade::is_best(ways, scores, k);
                assert(trade::is_best(ways, scores, k));
                assert(trade::offer(scores, k) is Some);
                assert(scores[k] is Some);
                assert forall|j: int|
                    #![trigger scores[j]]
                    0 <= j < ways.len() && j < scores.len() && scores[j] is Some implies scores[j]->Some_0
                    < scores[k]->Some_0 || (scores[j]->Some_0 == scores[k]->Some_0 && n.0
                    <= ways[j].0) by {
                    assert(trade::offer(scores, j) is Some);
                }
            },
            None => {
                if offers {
                    let k = choose|k: int|
                        0 <= k < ways.len() && k < scores.len() && (#[trigger] scores[k]) is Some;
                    assert(trade::offer(scores, k) is Some);
                    lemma_some_offer_is_best(ways, scores, k);
                }
                let drawn = WorldView { rng: w.rng.after_range(0, ways.len() as u64), ..w };
                lemma_departure(
                    drawn,
                    t,
                    sys,
                    ways[w.rng.spec_range(0, ways.len() as u64) as int],
                );
            },
        }
    }
}

proof fn lemma_some_offer_is_best(ways: Seq<SystemId>, scores: Seq<Option<Money>>, k: int)
    requires
        0 <= k < ways.len(),
        trade::offer(scores, k) is Some,
    ensures
        exists|b: int| trade::is_best(ways, scores, b),
{
    lemma_best_up_to(ways, scores, k, ways.len() as int);
}

/// Whether offer `b` is the best of the first `n`.
spec fn best_of(ways: Seq<SystemId>, scores: Seq<Option<Money>>, b: int, n: int) -> bool {
    &&& 0 <= b < n
    &&& trade::offer(scores, b) is Some
    &&& forall|j: int|
        0 <= j < n && (#[trigger] trade::offer(scores, j)) is Some ==> {
            let x = trade::offer(scores, b)->Some_0;
            let y = trade::offer(scores, j)->Some_0;
            y < x || (y == x && ways[b].0 <= ways[j].0)
        }
}

proof fn lemma_best_up_to(ways: Seq<SystemId>, scores: Seq<Option<Money>>, k: int, n: int)
    requires
        0 <= k < n <= ways.len(),
        trade::offer(scores, k) is Some,
    ensures
        exists|b: int| best_of(ways, scores, b, n),
        n == ways.len() ==> exists|b: int| trade::is_best(ways, scores, b),
    decreases n,
{
    let last = n - 1;
    let found = if exists|j: int| 0 <= j < last && (#[trigger] trade::offer(scores, j)) is Some {
        let j = choose|j: int| 0 <= j < last && (#[trigger] trade::offer(scores, j)) is Some;
        lemma_best_up_to(ways, scores, j, last);
        let b = choose|b: int| best_of(ways, scores, b, last);
        if trade::offer(scores, last) is Some {
            let x = trade::offer(scores, b)->Some_0;
            let y = trade::offer(scores, last)->Some_0;
            if y < x || (y == x && ways[b].0 <= ways[last].0) {
                b
            } else {
                last
            }
        } else {
            b
        }
    } else {
        last
    };
    assert(best_of(ways, scores, found, n));
    if n == ways.len() {
        assert(trade::is_best(ways, scores, found));
    }
}

/// A trader that is out comes back once its delay is over, docked and otherwise as it was;
/// before that nothing happens to it.
pub proof fn lemma_coming_back(w: WorldView, t: int)
    requires
        0 <= t < w.traders.len(),
        w.traders[t].location is Destroyed,
    ensures
        ({
            let (v, seeks) = trade::turn(w, t);
            let respawn = w.traders[t].location->Destroyed_respawn;
            &&& seeks is None
            &&& w.tick.0 < respawn.0 ==> v == w
            &&& w.tick.0 >= respawn.0 ==> {
                &&& v == (WorldView {
                    traders: v.traders,
                    rng: v.rng,
                    events: v.events,
                    ..w
                })
                &&& other_traders_kept(w.traders, v.traders, t)
                &&& v.traders[t] == (TraderView {
                    location: v.traders[t].location,
                    ..w.traders[t]
                })
                &&& v.traders[t].location == TraderLocation::Docked(
                    SystemId(
                        w.rng.spec_range(0, w.registry.spec_systems().len() as u64) as u32,
                    ),
                )
            }
        }),
{
}

/// What the turn of a trader of the built-in kind does, once it is docked and free: laden
/// it sells out, and empty it looks for a trade. Under way it arrives on its arrival tick
/// and acts at once; before that, and while it fights, nothing happens.
pub proof fn lemma_turn_of_a_trader(w: WorldView, t: int)
    requires
        0 <= t < w.traders.len(),
        !(w.traders[t].owner is Player),
        !(w.traders[t].location is Destroyed),
    ensures
        ({
            let tr = w.traders[t];
            let (v, seeks) = trade::turn(w, t);
            let fights = aftermath::is_ambushed(w.encounters, tr.id);
            let early = tr.location is InTransit && w.tick.0 < tr.location->InTransit_arrival.0;
            let at = match tr.location {
                TraderLocation::InTransit { origin, dest, departure, arrival } => dest,
                TraderLocation::Docked(s) => s,
                TraderLocation::Destroyed { respawn } => SystemId(0),
            };
            let there = w.with_trader(t, TraderView { location: TraderLocation::Docked(at), ..tr });
            if fights || early {
                v == w && seeks is None
            } else if tr.cargo == Map::<CommodityId, Quantity>::empty() {
                v.traders =~= there.traders && v == (WorldView { traders: v.traders, ..w })
                    && seeks == Some(at)
            } else {
                seeks is None && v =~= trade::sold_out(there, t, at)
            }
        }),
{
    aftermath::lemma_ambushed(w.encounters, w.traders[t].id);
    let tr = w.traders[t];
    if let TraderLocation::Docked(s) = tr.location {
        let there = w.with_trader(t, TraderView { location: TraderLocation::Docked(s), ..tr });
        assert(there.traders =~= w.traders);
    }
}

/// What a trader loads is the most it can: so much is in stock, fits the ship and is paid
/// for by the capital, and one unit more would not be.
pub proof fn lemma_load_is_the_most(
    stock: Quantity,
    capacity: u32,
    unit_mass: u32,
    capital: Money,
    unit_cost: Money,
)
    requires
        unit_cost >= 1,
    ensures
        ({
            let q = trade::load(stock, capacity, unit_mass, capital, unit_cost);
            let m: int = if unit_mass == 0 {
                1
            } else {
                unit_mass as int
            };
            &&& 0 <= q <= stock
            &&& q * m <= capacity
            &&& q > 0 ==> q * unit_cost <= capital
            &&& q == stock || (q + 1) * m > capacity || (q + 1) * unit_cost > capital
        }),
{
    let m: int = if unit_mass == 0 {
        1
    } else {
        unit_mass as int
    };
    let q = trade::load(stock, capacity, unit_mass, capital, unit_cost);
    let room = capacity as int / m;
    let cap = capacity as int;
    assert(0 <= room && room * m <= cap && (room + 1) * m > cap) by (nonlinear_arith)
        requires
            m >= 1,
            cap >= 0,
            room == cap / m,
    ;
    let cost = unit_cost as int;
    let purse = capital as int;
    if purse >= 0 {
        let funds = purse / cost;
        assert(0 <= funds && funds * cost <= purse && (funds + 1) * cost > purse) by (
            nonlinear_arith)
            requires
                cost >= 1,
                purse >= 0,
                funds == purse / cost,
        ;
        assert(q <= funds ==> q * cost <= funds * cost) by (nonlinear_arith)
            requires
                cost >= 1,
        ;
    } else {
        assert((q + 1) * cost > purse) by (nonlinear_arith)
            requires
                q == 0,
                cost >= 1,
                purse < 0,
        ;
    }
    assert(q <= room ==> q * m <= room * m) by (nonlinear_arith)
        requires
            m >= 1,
    ;
}

/// There is a trade in a good just where it is traded at both ends, is dearer there, and a
/// unit can be loaded; it is planned at the price here, for the market there, and its
/// margin is what the prices differ by.
pub proof fn lemma_prospect_of_a_trade(
    good: CommodityDef,
    here: MarketView,
    there: MarketView,
    c: CommodityId,
    capital: Money,
    capacity: u32,
)
    requires
        here.goods.dom().contains(c) ==> here.goods[c].price >= 1,
    ensures
        match trade::prospect(good, here, there, c, capital, capacity) {
            Some((plan, margin)) => {
                &&& here.goods.dom().contains(c) && there.goods.dom().contains(c)
                &&& plan.commodity == c
                &&& plan.dest == there.system
                &&& plan.unit_cost == here.goods[c].price
                &&& plan.qty > 0
                &&& plan.qty == trade::load(
                    here.goods[c].stock,
                    capacity,
                    good.unit_mass,
                    capital,
                    here.goods[c].price,
                )
                &&& margin > 0
                &&& margin == there.goods[c].price - here.goods[c].price
            },
            None => {
                ||| !here.goods.dom().contains(c)
                ||| !there.goods.dom().contains(c)
                ||| there.goods[c].price <= here.goods[c].price
                ||| trade::load(
                    here.goods[c].stock,
                    capacity,
                    good.unit_mass,
                    capital,
                    here.goods[c].price,
                ) == 0
            },
        },
{
    if here.goods.dom().contains(c) {
        lemma_load_is_the_most(
            here.goods[c].stock,
            capacity,
            good.unit_mass,
            capital,
            here.goods[c].price,
        );
    }
}

} // verus!
