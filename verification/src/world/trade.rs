//! The trading phase: every trader's turn, one after the other.

use vstd::prelude::*;

use crate::by_id::ById;
use crate::data::CommodityDef;
use crate::event::EventCategory;
use crate::ids::{CommodityId, Money, Quantity, SystemId};
use crate::market::{Market, MarketGood, MarketView};
use crate::money;
use crate::registry::leads_to;
use crate::trader::{TraderLocation, TraderView};
use crate::world::battle;
use crate::world::commands;
use crate::world::messages;
use crate::world::{Stage, World, WorldView};

verus! {

/// What a trader has decided to haul: so much of a good bought here, for there.
#[derive(Debug, Clone, Copy, PartialEq, Eq, Structural)]
pub struct TradePlan {
    pub commodity: CommodityId,
    pub qty: Quantity,
    /// The price of a unit here.
    pub unit_cost: Money,
    pub dest: SystemId,
}

/// What the goods with an id below `n` in a hold fetch at a market.
pub open spec fn proceeds(m: MarketView, cargo: Map<CommodityId, Quantity>, n: int) -> int
    decreases n,
{
    if n <= 0 {
        0
    } else {
        let c = CommodityId((n - 1) as u32);
        proceeds(m, cargo, n - 1) + (if cargo.contains_key(c) && m.goods.contains_key(c) {
            cargo[c] * m.goods[c].price
        } else {
            0
        })
    }
}

/// A market after a hold has been emptied into it: what it trades is brought in.
pub open spec fn supplied(m: MarketView, cargo: Map<CommodityId, Quantity>) -> MarketView {
    MarketView {
        goods: m.goods.map_entries(
            |c: CommodityId, g: MarketGood|
                if cargo.contains_key(c) {
                    m.added(c, cargo[c]).goods[c]
                } else {
                    g
                },
        ),
        ..m
    }
}

/// The world after trader `t` has sold all it can at `sys`. Goods the market does not
/// trade are kept.
pub open spec fn sold_out(w: WorldView, t: int, sys: SystemId) -> WorldView {
    let tr = w.traders[t];
    let m = w.markets[sys.0 as int];
    w.with_market(sys.0 as int, supplied(m, tr.cargo)).with_trader(
        t,
        TraderView {
            capital: money::wrapped(tr.capital + proceeds(m, tr.cargo, w.commodities() as int)),
            cargo: tr.cargo.remove_keys(m.goods.dom()),
            ..tr
        },
    )
}

/// The world after trader `t` has come back at a station drawn at random.
pub open spec fn come_back(w: WorldView, t: int) -> WorldView {
    let at = SystemId(w.rng.spec_range(0, w.systems() as u64) as u32);
    let tr = w.traders[t];
    WorldView {
        rng: w.rng.after_range(0, w.systems() as u64),
        ..w.with_trader(t, TraderView { location: TraderLocation::Docked(at), ..tr })
    }.log(
        EventCategory::System,
        Some(at),
        messages::respawned(tr.id, w.registry.spec_systems()[at.0 as int].name@),
    )
}

/// The world after trader `t`, docked at `sys`, has had its turn: a player's trader acts
/// only on command, a laden one sells, and any other looks for a trade.
pub open spec fn at_dock(w: WorldView, t: int, sys: SystemId) -> (WorldView, Option<SystemId>) {
    let tr = w.traders[t];
    if tr.owner is Player {
        (w, None)
    } else if tr.cargo != Map::<CommodityId, Quantity>::empty() {
        (sold_out(w, t, sys), None)
    } else {
        (w, Some(sys))
    }
}

/// The world after trader `t` has had its turn, and where it looks for a trade, if it
/// does.
pub open spec fn turn(w: WorldView, t: int) -> (WorldView, Option<SystemId>) {
    let tr = w.traders[t];
    match tr.location {
        TraderLocation::Destroyed { respawn } => if w.tick.0 >= respawn.0 {
            (come_back(w, t), None)
        } else {
            (w, None)
        },
        TraderLocation::InTransit { origin, dest, departure, arrival } => if w.tick.0 < arrival.0
            || battle::trader_engaged(w.encounters, tr.id) {
            (w, None)
        } else {
            at_dock(
                w.with_trader(t, TraderView { location: TraderLocation::Docked(dest), ..tr }),
                t,
                dest,
            )
        },
        TraderLocation::Docked(sys) => if battle::trader_engaged(w.encounters, tr.id) {
            (w, None)
        } else {
            at_dock(w, t, sys)
        },
    }
}

/// A turn neither adds nor removes a trader.
pub proof fn lemma_turn_keeps_traders(w: WorldView, t: int)
    requires
        0 <= t < w.traders.len(),
    ensures
        turn(w, t).0.traders.len() == w.traders.len(),
{
}

/// The world after the traders from slot `t` on have had their turns, up to one that
/// looks for a trade.
pub open spec fn traded(w: WorldView, t: int) -> WorldView
    decreases w.traders.len() - t,
{
    if t < 0 || t >= w.traders.len() {
        WorldView { stage: Stage::Closing, ..w }
    } else {
        let (v, seeks) = turn(w, t);
        match seeks {
            Some(sys) => WorldView { stage: Stage::Seeking(t as usize, sys), ..v },
            None => {
                proof {
                    lemma_turn_keeps_traders(w, t);
                }
                traded(v, t + 1)
            },
        }
    }
}

/// The most units of a good that a trader hauls: no more than are in stock, than the ship
/// takes, and than the capital pays for. A good without mass counts as one with the least.
pub open spec fn load(
    stock: Quantity,
    capacity: u32,
    unit_mass: u32,
    capital: Money,
    unit_cost: Money,
) -> int {
    let room = capacity as int / (if unit_mass == 0 {
        1
    } else {
        unit_mass as int
    });
    let funds = if capital < 0 {
        0
    } else {
        capital as int / unit_cost as int
    };
    let fits = if stock < room {
        stock as int
    } else {
        room
    };
    if fits < funds {
        fits
    } else {
        funds
    }
}

/// Whether trader `t` can carry a plan out at `sys`: it goes to a neighbour, at the price
/// that the good has here, and hauls no more than it can.
pub open spec fn feasible(w: WorldView, t: int, sys: SystemId, plan: TradePlan) -> bool {
    let m = w.markets[sys.0 as int];
    let tr = w.traders[t];
    &&& w.registry.spec_systems()[sys.0 as int].connections@.contains(plan.dest)
    &&& m.price(plan.commodity) == Some(plan.unit_cost)
    &&& 1 <= plan.qty <= load(
        m.stock(plan.commodity),
        w.registry.spec_ships()[tr.ship.0 as int].cargo_capacity,
        w.registry.spec_commodities()[plan.commodity.0 as int].unit_mass,
        tr.capital,
        plan.unit_cost,
    )
}

/// The plan to haul a good from `here` to `there`, and the margin of a unit: as much as can
/// be hauled, where the good is traded at both and dearer there. None if nothing can be
/// hauled.
pub open spec fn prospect(
    good: CommodityDef,
    here: MarketView,
    there: MarketView,
    commodity: CommodityId,
    capital: Money,
    capacity: u32,
) -> Option<(TradePlan, Money)> {
    match (here.price(commodity), there.price(commodity)) {
        (Some(unit_cost), Some(price)) => {
            let qty = load(here.stock(commodity), capacity, good.unit_mass, capital, unit_cost);
            if price <= unit_cost || qty == 0 {
                None
            } else {
                Some(
                    (
                        TradePlan {
                            commodity,
                            qty: qty as u32,
                            unit_cost,
                            dest: there.system,
                        },
                        (price - unit_cost) as i64,
                    ),
                )
            }
        },
        _ => None,
    }
}

/// A load is within every bound it is made of.
proof fn lemma_load(
    stock: Quantity,
    capacity: u32,
    unit_mass: u32,
    capital: Money,
    unit_cost: Money,
)
    requires
        unit_cost >= 1,
    ensures
        0 <= load(stock, capacity, unit_mass, capital, unit_cost) <= stock,
        load(stock, capacity, unit_mass, capital, unit_cost) * unit_mass <= capacity,
        capital >= 0 ==> load(stock, capacity, unit_mass, capital, unit_cost) * unit_cost
            <= capital,
        capital < 0 ==> load(stock, capacity, unit_mass, capital, unit_cost) == 0,
{
    let n = load(stock, capacity, unit_mass, capital, unit_cost);
    let mass: int = if unit_mass == 0 {
        1
    } else {
        unit_mass as int
    };
    let room = capacity as int / mass;
    assert(0 <= room && room * mass <= capacity) by (nonlinear_arith)
        requires
            mass >= 1,
            room == capacity as int / mass,
    ;
    if capital >= 0 {
        let funds = capital as int / unit_cost as int;
        assert(0 <= funds && funds * unit_cost <= capital) by (nonlinear_arith)
            requires
                unit_cost >= 1,
                capital >= 0,
                funds == capital as int / unit_cost as int,
        ;
        assert(n * unit_cost <= funds * unit_cost) by (nonlinear_arith)
            requires
                n <= funds,
                unit_cost >= 1,
        ;
    }
    assert(n * unit_mass <= room * mass) by (nonlinear_arith)
        requires
            0 <= n <= room,
            0 <= unit_mass <= mass,
    ;
}

/// A trader hauls within its means: what it buys is there, fits the ship, and is paid for
/// out of its capital, which the purchase leaves at zero or above.
pub proof fn lemma_hauls_are_within_means(w: WorldView, t: int, sys: SystemId, plan: TradePlan)
    requires
        w.wf(),
        0 <= t < w.traders.len(),
        sys.0 < w.systems(),
        feasible(w, t, sys, plan),
    ensures
        plan.qty <= w.markets[sys.0 as int].stock(plan.commodity),
        plan.qty * w.registry.spec_commodities()[plan.commodity.0 as int].unit_mass
            <= w.registry.spec_ships()[w.traders[t].ship.0 as int].cargo_capacity,
        0 <= w.traders[t].capital - plan.qty * plan.unit_cost,
        money::wrapped(w.traders[t].capital - plan.qty * plan.unit_cost) == w.traders[t].capital
            - plan.qty * plan.unit_cost,
{
    let m = w.markets[sys.0 as int];
    assert(w.market_ok(m));
    let stock = m.stock(plan.commodity);
    let capacity = w.registry.spec_ships()[w.traders[t].ship.0 as int].cargo_capacity;
    let mass = w.registry.spec_commodities()[plan.commodity.0 as int].unit_mass;
    let capital = w.traders[t].capital;
    lemma_load(stock, capacity, mass, capital, plan.unit_cost);
    let most = load(stock, capacity, mass, capital, plan.unit_cost);
    assert(plan.qty * mass <= most * mass) by (nonlinear_arith)
        requires
            plan.qty <= most,
            mass >= 0,
    ;
    assert(0 <= plan.qty * plan.unit_cost <= most * plan.unit_cost) by (nonlinear_arith)
        requires
            0 <= plan.qty <= most,
            plan.unit_cost >= 1,
    ;
    money::lemma_wrapped_fits(capital - plan.qty * plan.unit_cost);
}

/// The most units of a good that a trader hauls.
fn most_units(
    stock: Quantity,
    capacity: u32,
    unit_mass: u32,
    capital: Money,
    unit_cost: Money,
) -> (n: Quantity)
    requires
        unit_cost >= 1,
    ensures
        n == load(stock, capacity, unit_mass, capital, unit_cost),
{
    proof {
        lemma_load(stock, capacity, unit_mass, capital, unit_cost);
    }
    let room: u32 = capacity / (if unit_mass == 0 { 1 } else { unit_mass });
    let funds: i64 = if capital < 0 { 0 } else { capital / unit_cost };
    let fits: u32 = if stock < room { stock } else { room };
    if (fits as i64) < funds {
        fits
    } else {
        funds as u32
    }
}

/// The plan to haul a good from `here` to `there`, and the margin of a unit.
pub fn prospect_of(
    good: &CommodityDef,
    here: &Market,
    there: &Market,
    commodity: CommodityId,
    capital: Money,
    capacity: u32,
) -> (r: Option<(TradePlan, Money)>)
    requires
        here@.price(commodity) is Some ==> here@.price(commodity)->Some_0 >= 1,
    ensures
        r == prospect(*good, here@, there@, commodity, capital, capacity),
{
    let (unit_cost, price) = match (here.price(commodity), there.price(commodity)) {
        (Some(a), Some(b)) => (a, b),
        _ => {
            return None;
        },
    };
    let qty = most_units(here.stock(commodity), capacity, good.unit_mass, capital, unit_cost);
    if price <= unit_cost || qty == 0 {
        None
    } else {
        let plan = TradePlan { commodity, qty, unit_cost, dest: there.system };
        Some((plan, price - unit_cost))
    }
}

/// What a trader that looks for a trade finds at a neighbour it can carry out.
pub proof fn lemma_prospects_are_feasible(
    w: WorldView,
    t: int,
    sys: SystemId,
    dest: SystemId,
    commodity: CommodityId,
)
    requires
        w.wf(),
        0 <= t < w.traders.len(),
        sys.0 < w.systems(),
        w.registry.spec_systems()[sys.0 as int].connections@.contains(dest),
        dest.0 < w.systems(),
        prospect(
            w.registry.spec_commodities()[commodity.0 as int],
            w.markets[sys.0 as int],
            w.markets[dest.0 as int],
            commodity,
            w.traders[t].capital,
            w.registry.spec_ships()[w.traders[t].ship.0 as int].cargo_capacity,
        ) is Some,
    ensures
        feasible(
            w,
            t,
            sys,
            prospect(
                w.registry.spec_commodities()[commodity.0 as int],
                w.markets[sys.0 as int],
                w.markets[dest.0 as int],
                commodity,
                w.traders[t].capital,
                w.registry.spec_ships()[w.traders[t].ship.0 as int].cargo_capacity,
            )->Some_0.0,
        ),
{
    let m = w.markets[sys.0 as int];
    assert(w.market_ok(m));
    assert(w.markets[dest.0 as int].system == dest);
    lemma_load(
        m.stock(commodity),
        w.registry.spec_ships()[w.traders[t].ship.0 as int].cargo_capacity,
        w.registry.spec_commodities()[commodity.0 as int].unit_mass,
        w.traders[t].capital,
        m.price(commodity)->Some_0,
    );
}

/// The world after trader `t` has bought what it planned at `sys` and departed.
pub open spec fn hauled(w: WorldView, t: int, sys: SystemId, plan: TradePlan) -> WorldView {
    let tr = w.traders[t];
    let m = w.markets[sys.0 as int];
    let loaded = w.with_market(
        sys.0 as int,
        m.with_stock(plan.commodity, (m.stock(plan.commodity) - plan.qty) as u32),
    ).with_trader(
        t,
        TraderView {
            capital: money::wrapped(tr.capital - plan.qty * plan.unit_cost),
            cargo: tr.cargo.insert(plan.commodity, plan.qty),
            ..tr
        },
    );
    commands::departed(loaded, t, sys, plan.dest)
}

/// The score of the trade that neighbour `k` offers, if it offers one.
pub open spec fn offer(scores: Seq<Option<Money>>, k: int) -> Option<Money> {
    if 0 <= k < scores.len() {
        scores[k]
    } else {
        None
    }
}

/// Whether neighbour `k` offers the best trade: none scores higher, and of those that
/// score the same it has the lowest id.
pub open spec fn is_best(conns: Seq<SystemId>, scores: Seq<Option<Money>>, k: int) -> bool {
    &&& 0 <= k < conns.len()
    &&& offer(scores, k) is Some
    &&& forall|j: int|
        0 <= j < conns.len() && (#[trigger] offer(scores, j)) is Some ==> {
            let a = offer(scores, k)->Some_0;
            let b = offer(scores, j)->Some_0;
            b < a || (b == a && conns[k].0 <= conns[j].0)
        }
}

/// The neighbour that offers the best trade, if any offers one.
pub open spec fn best_neighbour(conns: Seq<SystemId>, scores: Seq<Option<Money>>) -> Option<
    SystemId,
> {
    if exists|k: int| is_best(conns, scores, k) {
        Some(conns[choose|k: int| is_best(conns, scores, k)])
    } else {
        None
    }
}

/// The world after trader `t` has left `sys` empty, for the neighbour with the best
/// onward trade, or else for one drawn at random. It stays where there is no way out.
pub open spec fn deadheaded(
    w: WorldView,
    t: int,
    sys: SystemId,
    scores: Seq<Option<Money>>,
) -> WorldView {
    let conns = w.registry.spec_systems()[sys.0 as int].connections@;
    if conns.len() == 0 {
        w
    } else {
        match best_neighbour(conns, scores) {
            Some(n) => commands::departed(w, t, sys, n),
            None => commands::departed(
                WorldView { rng: w.rng.after_range(0, conns.len() as u64), ..w },
                t,
                sys,
                conns[w.rng.spec_range(0, conns.len() as u64) as int],
            ),
        }
    }
}

/// The world after the trader that looks for a trade has acted.
pub open spec fn answered(
    w: WorldView,
    plan: Option<TradePlan>,
    scores: Seq<Option<Money>>,
) -> WorldView {
    match w.stage {
        Stage::Seeking(t, sys) => WorldView {
            stage: Stage::Trading((t + 1) as usize),
            ..match plan {
                Some(p) => hauled(w, t as int, sys, p),
                None => deadheaded(w, t as int, sys, scores),
            }
        },
        _ => w,
    }
}

/// Whatever two best offers there are, they come from the same system.
proof fn lemma_best_unique(conns: Seq<SystemId>, scores: Seq<Option<Money>>, k: int)
    requires
        is_best(conns, scores, k),
    ensures
        best_neighbour(conns, scores) == Some(conns[k]),
{
    let c = choose|c: int| is_best(conns, scores, c);
    assert(is_best(conns, scores, c));
    assert(offer(scores, c) is Some);
    assert(offer(scores, k) is Some);
    assert(conns[c].0 == conns[k].0);
}

/// The neighbour with the best onward trade.
fn pick_best(conns: &Vec<SystemId>, scores: &Vec<Option<Money>>) -> (r: Option<SystemId>)
    ensures
        r == best_neighbour(conns@, scores@),
        r is Some ==> conns@.contains(r->Some_0),
{
    let mut best: Option<(usize, Money)> = None;
    let mut i: usize = 0;
    while i < conns.len()
        invariant
            i <= conns@.len(),
            match best {
                None => forall|j: int| 0 <= j < i ==> (#[trigger] offer(scores@, j)) is None,
                Some((k, a)) => {
                    &&& k < i
                    &&& offer(scores@, k as int) == Some(a)
                    &&& forall|j: int|
                        0 <= j < i && (#[trigger] offer(scores@, j)) is Some ==> {
                            let b = offer(scores@, j)->Some_0;
                            b < a || (b == a && conns@[k as int].0 <= conns@[j].0)
                        }
                },
            },
        decreases conns@.len() - i,
    {
        let o: Option<Money> = if i < scores.len() {
            scores[i]
        } else {
            None
        };
        assert(o == offer(scores@, i as int));
        match o {
            None => {},
            Some(b) => {
                let better = match best {
                    None => true,
                    Some((k, a)) => b > a || (b == a && conns[i].0 < conns[k].0),
                };
                if better {
                    best = Some((i, b));
                }
            },
        }
        i = i + 1;
    }
    match best {
        None => {
            proof {
                if exists|k: int| is_best(conns@, scores@, k) {
                    let k = choose|k: int| is_best(conns@, scores@, k);
                    assert(offer(scores@, k) is None);
                }
            }
            None
        },
        Some((k, a)) => {
            proof {
                assert(is_best(conns@, scores@, k as int));
                lemma_best_unique(conns@, scores@, k as int);
                assert(conns@.contains(conns@[k as int]));
            }
            Some(conns[k])
        },
    }
}

impl World {
    /// Sell every unit of a trader's cargo into the market it is docked at, crediting
    /// the trader. Goods the market does not trade are kept.
    fn sell_all(&mut self, t: usize, sys: SystemId)
        requires
            old(self)@.wf(),
            t < old(self).traders@.len(),
            sys.0 < old(self)@.systems(),
        ensures
            final(self)@ == sold_out(old(self)@, t as int, sys),
            final(self)@.wf(),
            final(self).traders@.len() == old(self).traders@.len(),
    {
        broadcast use money::lemma_wrapped_fits;

        let ghost w = self@;
        let s = sys.index();
        let n = self.registry.commodity_count();
        let ghost cargo = w.traders[t as int].cargo;
        let ghost m = w.markets[sys.0 as int];
        let ghost start = w.traders[t as int].capital;
        assert(w.trader_ok(w.traders[t as int]));
        assert(w.market_ok(m));
        let mut capital = self.traders[t].capital;
        let mut left: ById<Quantity> = ById::new();
        let mut k: usize = 0;
        while k < n
            invariant
                k <= n,
                n == w.commodities(),
                n <= u32::MAX,
                w.wf(),
                t < self.traders@.len(),
                s == sys.0,
                s < self.markets@.len(),
                cargo == w.traders[t as int].cargo,
                self.traders@[t as int]@.cargo == cargo,
                m == w.markets[sys.0 as int],
                start == w.traders[t as int].capital,
                self@.markets.len() == w.markets.len(),
                self@ =~= w.with_market(s as int, self@.markets[s as int]),
                capital == money::wrapped(start + proceeds(m, cargo, k as int)),
                self@.markets[s as int].system == m.system,
                self@.markets[s as int].pricing == m.pricing,
                self@.markets[s as int].goods.dom() == m.goods.dom(),
                forall|c: CommodityId| #[trigger]
                    m.goods.contains_key(c) ==> self@.markets[s as int].goods[c] == (if c.0 < k {
                        supplied(m, cargo).goods[c]
                    } else {
                        m.goods[c]
                    }),
                forall|c: CommodityId| #[trigger]
                    left@.contains_key(c) <==> c.0 < k && cargo.contains_key(c)
                        && !m.goods.contains_key(c),
                forall|c: CommodityId| #[trigger]
                    left@.contains_key(c) ==> left@[c] == cargo[c],
            decreases n - k,
        {
            let c = CommodityId(k as u32);
            let ghost before = self@.markets[s as int];
            let ghost all = self@.markets;
            match self.traders[t].cargo.get(&c) {
                None => {},
                Some(q) => {
                    let q = *q;
                    match self.markets[s].price(c) {
                        Some(p) => {
                            assert(before.goods.contains_key(c));
                            assert(p == m.goods[c].price);
                            self.markets[s].add(c, q);
                            assert(self@.markets[s as int] == before.added(c, q));
                            proof {
                                money::lemma_wrapped_sum(
                                    start + proceeds(m, cargo, k as int),
                                    q * p,
                                );
                            }
                            assert(-0x8000_0000_0000_0000 * 0xffff_ffff <= q * p
                                <= 0x8000_0000_0000_0000 * 0xffff_ffff) by (nonlinear_arith)
                                requires
                                    0 <= q <= 0xffff_ffff,
                                    -0x8000_0000_0000_0000 <= p <= 0x7fff_ffff_ffff_ffff,
                            ;
                            capital = money::wrap(capital as i128 + q as i128 * p as i128);
                        },
                        None => {
                            left.insert(c, q);
                        },
                    }
                },
            }
            assert(self@.markets =~= all.update(s as int, self@.markets[s as int]));
            k = k + 1;
        }
        self.traders[t].capital = capital;
        self.traders[t].cargo = left;
        proof {
            let v = self@;
            assert(v.markets[s as int] =~= supplied(m, cargo));
            assert(left@ =~= cargo.remove_keys(m.goods.dom()));
            assert(v.traders =~= sold_out(w, t as int, sys).traders);
            assert(v.markets =~= sold_out(w, t as int, sys).markets);
            assert(v =~= sold_out(w, t as int, sys));
            assert forall|i: int| 0 <= i < v.markets.len() implies v.market_ok(
                #[trigger] v.markets[i],
            ) && v.markets[i].system.0 == i by {
                assert(w.market_ok(w.markets[i]));
            }
            assert forall|i: int| 0 <= i < v.traders.len() implies v.trader_ok(
                #[trigger] v.traders[i],
            ) by {
                assert(w.trader_ok(w.traders[i]));
            }
            assert(v.wf());
        }
    }
}

impl World {
    /// Give the trader at slot `t` its turn; returns where it looks for a trade, if it
    /// does.
    fn take_turn(&mut self, t: usize) -> (seeks: Option<SystemId>)
        requires
            old(self)@.wf(),
            t < old(self).traders@.len(),
        ensures
            (final(self)@, seeks) == turn(old(self)@, t as int),
            final(self)@.wf(),
            final(self).traders@.len() == old(self).traders@.len(),
            seeks is Some ==> final(self)@.traders[t as int].location == TraderLocation::Docked(
                seeks->Some_0,
            ) && final(self)@.traders[t as int].cargo == Map::<CommodityId, Quantity>::empty(),
    {
        let ghost w = self@;
        assert(w.trader_ok(w.traders[t as int]));
        match self.traders[t].location {
            TraderLocation::Destroyed { respawn } => {
                if self.tick.0 >= respawn.0 {
                    let n = self.registry.system_count();
                    let at = SystemId(self.rng.range_usize(0, n) as u32);
                    self.traders[t].location = TraderLocation::Docked(at);
                    let msg = messages::respawned_text(
                        self.traders[t].id,
                        self.registry.system(at).name.as_str(),
                    );
                    proof {
                        let v = self@;
                        assert(v.traders =~= w.traders.update(
                            t as int,
                            TraderView {
                                location: TraderLocation::Docked(at),
                                ..w.traders[t as int]
                            },
                        ));
                        assert forall|i: int| 0 <= i < v.traders.len() implies v.trader_ok(
                            #[trigger] v.traders[i],
                        ) by {
                            assert(w.trader_ok(w.traders[i]));
                        }
                        assert(v.wf());
                    }
                    self.log_event(EventCategory::System, Some(at), msg);
                }
                return None;
            },
            TraderLocation::InTransit { dest, arrival, .. } => {
                if self.tick.0 < arrival.0 || self.trader_engaged(self.traders[t].id) {
                    return None;
                }
                self.traders[t].location = TraderLocation::Docked(dest);
                proof {
                    let v = self@;
                    assert(v =~= w.with_trader(
                        t as int,
                        TraderView {
                            location: TraderLocation::Docked(dest),
                            ..w.traders[t as int]
                        },
                    ));
                    assert forall|i: int| 0 <= i < v.traders.len() implies v.trader_ok(
                        #[trigger] v.traders[i],
                    ) by {
                        assert(w.trader_ok(w.traders[i]));
                    }
                    assert(v.wf());
                }
                self.act_at_dock(t, dest)
            },
            TraderLocation::Docked(sys) => {
                if self.trader_engaged(self.traders[t].id) {
                    return None;
                }
                self.act_at_dock(t, sys)
            },
        }
    }

    /// The turn of the trader at slot `t`, docked at `sys`.
    fn act_at_dock(&mut self, t: usize, sys: SystemId) -> (seeks: Option<SystemId>)
        requires
            old(self)@.wf(),
            t < old(self).traders@.len(),
            sys.0 < old(self)@.systems(),
        ensures
            (final(self)@, seeks) == at_dock(old(self)@, t as int, sys),
            final(self)@.wf(),
            final(self).traders@.len() == old(self).traders@.len(),
            seeks is Some ==> final(self)@ == old(self)@ && seeks == Some(sys)
                && old(self)@.traders[t as int].cargo == Map::<CommodityId, Quantity>::empty(),
    {
        if self.traders[t].is_player() {
            return None;
        }
        if !self.traders[t].cargo.is_empty() {
            self.sell_all(t, sys);
            return None;
        }
        Some(sys)
    }

    /// Give the traders their turns, up to one that looks for a trade.
    pub fn trade(&mut self)
        requires
            old(self)@.ready(),
            old(self)@.stage is Trading,
        ensures
            final(self)@ == traded(old(self)@, old(self)@.stage->Trading_0 as int),
            final(self)@.ready(),
            final(self)@.stage is Seeking || final(self)@.stage is Closing,
    {
        let ghost w = self@;
        let mut t: usize = match self.stage {
            Stage::Trading(t) => t,
            _ => self.traders.len(),
        };
        let ghost t0 = t as int;
        while t < self.traders.len()
            invariant
                t <= self.traders@.len(),
                self@.wf(),
                w == old(self)@,
                t0 == w.stage->Trading_0,
                traded(self@, t as int) == traded(w, t0),
            decreases self.traders@.len() - t,
        {
            let ghost here = self@;
            match self.take_turn(t) {
                Some(sys) => {
                    self.stage = Stage::Seeking(t, sys);
                    assert(self@ =~= traded(here, t as int));
                    return ;
                },
                None => {},
            }
            t = t + 1;
        }
        self.stage = Stage::Closing;
    }

    /// Whether the trader that looks for a trade can carry a plan out.
    pub fn admits(&self, plan: TradePlan) -> (b: bool)
        requires
            self@.ready(),
            self@.stage is Seeking,
        ensures
            b == feasible(
                self@,
                self@.stage->Seeking_0 as int,
                self@.stage->Seeking_1,
                plan,
            ),
    {
        match self.stage {
            Stage::Seeking(t, sys) => {
                proof {
                    assert(self@.trader_ok(self@.traders[t as int]));
                    assert(self@.market_ok(self@.markets[sys.0 as int]));
                }
                let tr = &self.traders[t];
                let m = &self.markets[sys.index()];
                let asked = match m.price(plan.commodity) {
                    Some(p) => p,
                    None => {
                        return false;
                    },
                };
                if asked != plan.unit_cost || plan.qty == 0 || !leads_to(
                    &self.registry.system(sys).connections,
                    plan.dest,
                ) {
                    return false;
                }
                let most = most_units(
                    m.stock(plan.commodity),
                    self.registry.ship(tr.ship).cargo_capacity,
                    self.registry.commodity(plan.commodity).unit_mass,
                    tr.capital,
                    asked,
                );
                plan.qty <= most
            },
            _ => false,
        }
    }

    /// The trader that looks for a trade hauls what `plan` says, or without one leaves
    /// empty for a neighbour; `scores` holds the score of the onward trade that each
    /// neighbour offers.
    pub fn answer(&mut self, plan: Option<TradePlan>, scores: &Vec<Option<Money>>)
        requires
            old(self)@.ready(),
            old(self)@.stage is Seeking,
            plan is Some ==> feasible(
                old(self)@,
                old(self)@.stage->Seeking_0 as int,
                old(self)@.stage->Seeking_1,
                plan->Some_0,
            ),
        ensures
            final(self)@ == answered(old(self)@, plan, scores@),
            final(self)@.ready(),
            final(self)@.stage is Trading,
    {
        let ghost w = self@;
        let n = self.traders.len();
        match self.stage {
            Stage::Seeking(t, sys) => {
                assert(t < n);
                assert(w.trader_ok(w.traders[t as int]));
                match plan {
                    Some(p) => {
                        self.haul(t, sys, p);
                    },
                    None => {
                        self.deadhead(t, sys, scores);
                    },
                }
                self.stage = Stage::Trading(t + 1);
            },
            _ => {},
        }
    }

    /// Buy what `plan` says at `sys` and depart.
    fn haul(&mut self, t: usize, sys: SystemId, plan: TradePlan)
        requires
            old(self)@.wf(),
            t < old(self).traders@.len(),
            sys.0 < old(self)@.systems(),
            feasible(old(self)@, t as int, sys, plan),
        ensures
            final(self)@ == hauled(old(self)@, t as int, sys, plan),
            final(self)@.wf(),
            final(self).traders@.len() == old(self).traders@.len(),
    {
        let ghost w = self@;
        let s = sys.index();
        let ghost m = w.markets[s as int];
        assert(w.market_ok(m));
        proof {
            lemma_hauls_are_within_means(w, t as int, sys, plan);
            assert(w.registry.system_in_range(w.registry.spec_systems()[s as int]));
            let conns = w.registry.spec_systems()[s as int].connections@;
            assert(conns[conns.index_of(plan.dest)].0 < w.systems());
        }
        let _ok = self.markets[s].try_remove(plan.commodity, plan.qty);
        let cost = money::total(plan.unit_cost, plan.qty);
        let capital = money::wrap(self.traders[t].capital as i128 - cost);
        self.traders[t].capital = capital;
        self.traders[t].cargo.insert(plan.commodity, plan.qty);
        proof {
            let v = self@;
            let tr = w.traders[t as int];
            assert(plan.qty * plan.unit_cost == plan.unit_cost * plan.qty) by (nonlinear_arith);
            assert(v =~= w.with_market(
                s as int,
                m.with_stock(plan.commodity, (m.stock(plan.commodity) - plan.qty) as u32),
            ).with_trader(
                t as int,
                TraderView {
                    capital: money::wrapped(tr.capital - plan.qty * plan.unit_cost),
                    cargo: tr.cargo.insert(plan.commodity, plan.qty),
                    ..tr
                },
            ));
            assert forall|i: int| 0 <= i < v.markets.len() implies v.market_ok(
                #[trigger] v.markets[i],
            ) && v.markets[i].system.0 == i by {
                assert(w.market_ok(w.markets[i]));
            }
            assert forall|i: int| 0 <= i < v.traders.len() implies v.trader_ok(
                #[trigger] v.traders[i],
            ) by {
                assert(w.trader_ok(w.traders[i]));
            }
            assert(v.wf());
        }
        self.depart(t, sys, plan.dest);
    }

    /// Leave `sys` empty for a neighbour.
    fn deadhead(&mut self, t: usize, sys: SystemId, scores: &Vec<Option<Money>>)
        requires
            old(self)@.wf(),
            t < old(self).traders@.len(),
            sys.0 < old(self)@.systems(),
        ensures
            final(self)@ == deadheaded(old(self)@, t as int, sys, scores@),
            final(self)@.wf(),
            final(self).traders@.len() == old(self).traders@.len(),
    {
        let ghost w = self@;
        let n = self.registry.system(sys).connections.len();
        if n == 0 {
            return ;
        }
        let ghost conns = w.registry.spec_systems()[sys.0 as int].connections@;
        assert(forall|j: int| 0 <= j < conns.len() ==> (#[trigger] conns[j]).0 < w.systems());
        let dest = match pick_best(&self.registry.system(sys).connections, scores) {
            Some(d) => d,
            None => {
                let k = self.rng.range_usize(0, n);
                self.registry.system(sys).connections[k]
            },
        };
        proof {
            assert(dest.0 < w.systems());
            let v = self@;
            assert forall|i: int| 0 <= i < v.traders.len() implies v.trader_ok(
                #[trigger] v.traders[i],
            ) by {
                assert(w.trader_ok(w.traders[i]));
            }
            assert(v.wf());
        }
        self.depart(t, sys, dest);
    }
}

} // verus!
