//! What a fleet does on a tick, told by what can be seen before and after it.

use vstd::prelude::*;

use crate::bits::Bits;
use crate::ids::{PatrolId, ShipId, SystemId};
use crate::patrol::{Patrol, PatrolLocation};
use crate::registry::Registry;
use crate::rng::DetRng;
use crate::search;
use crate::world::aftermath;
use crate::world::dealings::{lemma_counter_turns, stands_at};
use crate::world::fleet;
use crate::world::fleet::FleetState;
use crate::world::{ActiveView, WorldView};

verus! {

/// A draw by weight takes the first item whose cut-off it is below, or the last item.
pub proof fn lemma_draw_by_weight(items: Seq<SystemId>, cutoffs: Seq<u64>, draw: u64)
    requires
        items.len() > 0,
    ensures
        exists|k: int|
            #![trigger items[k]]
            {
                &&& 0 <= k < items.len()
                &&& fleet::falls_on(items, cutoffs, draw, 0) == items[k]
                &&& k == items.len() - 1 || (k < cutoffs.len() && draw < cutoffs[k])
                &&& forall|j: int| 0 <= j < k && j < cutoffs.len() ==> draw >= #[trigger] cutoffs[j]
            },
{
    lemma_draw_from(items, cutoffs, draw, 0);
}

proof fn lemma_draw_from(items: Seq<SystemId>, cutoffs: Seq<u64>, draw: u64, i: int)
    requires
        0 <= i < items.len(),
        forall|j: int| 0 <= j < i && j < cutoffs.len() ==> draw >= #[trigger] cutoffs[j],
    ensures
        exists|k: int|
            #![trigger items[k]]
            {
                &&& 0 <= k < items.len()
                &&& fleet::falls_on(items, cutoffs, draw, i) == items[k]
                &&& k == items.len() - 1 || (k < cutoffs.len() && draw < cutoffs[k])
                &&& forall|j: int| 0 <= j < k && j < cutoffs.len() ==> draw >= #[trigger] cutoffs[j]
            },
    decreases items.len() - i,
{
    if i == items.len() - 1 {
        assert(items[i] == items.last());
    } else if i < cutoffs.len() && draw < cutoffs[i] {
        assert(fleet::falls_on(items, cutoffs, draw, i) == items[i]);
    } else {
        lemma_draw_from(items, cutoffs, draw, i + 1);
    }
}

/// Whether a system is lawless: there is such a one, and its danger is a positive number.
pub open spec fn without_law(reg: Registry, s: SystemId) -> bool {
    s.0 < reg.spec_systems().len() && 0 < reg.spec_systems()[s.0 as int].danger
        <= 0x7ff0_0000_0000_0000
}

/// The lawless systems are all of them, each once, in the order of their ids.
pub proof fn lemma_lawless_are_all(reg: Registry)
    requires
        reg.spec_systems().len() <= u32::MAX,
    ensures
        forall|s: SystemId| #[trigger] fleet::lawless_systems(reg).contains(s) <==> without_law(
            reg,
            s,
        ),
        forall|i: int, j: int|
            0 <= i < j < fleet::lawless_systems(reg).len() ==> (#[trigger] fleet::lawless_systems(
                reg,
            )[i]).0 < (#[trigger] fleet::lawless_systems(reg)[j]).0,
{
    lemma_lawless_below(reg, reg.spec_systems().len() as int);
}

proof fn lemma_lawless_below(reg: Registry, n: int)
    requires
        0 <= n <= reg.spec_systems().len() <= u32::MAX,
    ensures
        forall|s: SystemId| #[trigger] fleet::lawless_below(reg, n).contains(s) <==> without_law(
            reg,
            s,
        ) && s.0 < n,
        forall|i: int, j: int|
            0 <= i < j < fleet::lawless_below(reg, n).len() ==> (#[trigger] fleet::lawless_below(
                reg,
                n,
            )[i]).0 < (#[trigger] fleet::lawless_below(reg, n)[j]).0,
    decreases n,
{
    if n > 0 {
        lemma_lawless_below(reg, n - 1);
        let before = fleet::lawless_below(reg, n - 1);
        let after = fleet::lawless_below(reg, n);
        let last = SystemId((n - 1) as u32);
        assert(last.0 == n - 1);
        assert forall|i: int| 0 <= i < before.len() implies (#[trigger] before[i]).0 < n - 1 by {
            assert(before.contains(before[i]));
        }
        assert forall|s: SystemId| #[trigger] after.contains(s) <==> without_law(reg, s) && s.0
            < n by {
            if after.contains(s) {
                let k = after.index_of(s);
                if k < before.len() {
                    assert(before[k] == s);
                    assert(before.contains(s));
                }
            }
            if without_law(reg, s) && s.0 < n {
                if s.0 < n - 1 {
                    assert(before.contains(s));
                    assert(after[before.index_of(s)] == s);
                } else {
                    assert(s == last);
                    assert(after[after.len() - 1] == s);
                }
            }
        }
    }
}

/// Whether `after` is patrol `before` after a tick of its own: the same ship with the same
/// hull, its shield regenerated. Still under way, it is where it was. Otherwise it is
/// docked, where it was or where it has arrived; or it has left from there for a lawless
/// neighbour, to arrive after the travel time of the fleet's ship.
pub open spec fn has_roamed(
    w: WorldView,
    ship: ShipId,
    before: Patrol,
    after: Patrol,
    shield: Bits,
) -> bool {
    let early = match before.location {
        PatrolLocation::InTransit { origin, dest, departure, arrival } => w.tick.0 < arrival.0,
        PatrolLocation::Docked(s) => false,
    };
    let at = match before.location {
        PatrolLocation::InTransit { origin, dest, departure, arrival } => dest,
        PatrolLocation::Docked(s) => s,
    };
    &&& after == (Patrol { location: after.location, shield, ..before })
    &&& early ==> after.location == before.location
    &&& !early ==> match after.location {
        PatrolLocation::Docked(s) => s == at,
        PatrolLocation::InTransit { origin, dest, departure, arrival } => {
            let rows = w.tables.travel@;
            &&& origin == at
            &&& w.registry.spec_systems()[at.0 as int].connections@.contains(dest)
            &&& without_law(w.registry, dest)
            &&& departure == w.tick
            &&& stands_at(
                arrival.0 as int,
                departure.0 + (if ship.0 < rows.len() && at.0 < rows[ship.0 as int]@.len()
                    && dest.0 < rows[ship.0 as int]@[at.0 as int]@.len()
                    && rows[ship.0 as int]@[at.0 as int]@[dest.0 as int] >= 1 {
                    rows[ship.0 as int]@[at.0 as int]@[dest.0 as int] as int
                } else {
                    1
                }),
            )
        },
    }
}

/// Whether a system has a lawless neighbour.
pub open spec fn has_way_out(reg: Registry, s: SystemId) -> bool {
    exists|k: int|
        0 <= k < reg.spec_systems()[s.0 as int].connections@.len() && without_law(
            reg,
            #[trigger] reg.spec_systems()[s.0 as int].connections@[k],
        )
}

/// What a patrol's tick comes to. A docked one leaves just where the draw is below the
/// odds of a departure and it has a lawless neighbour; one under way draws nothing.
pub proof fn lemma_roaming(w: WorldView, ship: ShipId, p: Patrol, shield: Bits, rng: DetRng)
    ensures
        ({
            let (q, after) = fleet::roamed(w, ship, p, shield, rng);
            let early = match p.location {
                PatrolLocation::InTransit { origin, dest, departure, arrival } => w.tick.0
                    < arrival.0,
                PatrolLocation::Docked(s) => false,
            };
            let at = match p.location {
                PatrolLocation::InTransit { origin, dest, departure, arrival } => dest,
                PatrolLocation::Docked(s) => s,
            };
            &&& has_roamed(w, ship, p, q, shield)
            &&& early ==> after == rng
            &&& !early ==> (q.location is InTransit <==> rng.spec_unit() < 1080863910568919
                && has_way_out(w.registry, at))
        }),
{
    let (q, after) = fleet::roamed(w, ship, p, shield, rng);
    let at = match p.location {
        PatrolLocation::InTransit { origin, dest, departure, arrival } => dest,
        PatrolLocation::Docked(s) => s,
    };
    let ways = w.registry.spec_systems()[at.0 as int].connections@;
    let f = |n: SystemId| fleet::is_lawless(w.registry, n);
    let near = fleet::lawless_neighbours(w.registry, at);
    search::lemma_filter_members(ways, f);
    if exists|k: int| 0 <= k < ways.len() && without_law(w.registry, #[trigger] ways[k]) {
        let k = choose|k: int| 0 <= k < ways.len() && without_law(w.registry, #[trigger] ways[k]);
        assert(f(ways[k]));
        ways.lemma_filter_contains(f, k);
    }
    if near.len() > 0 {
        let n = near[0];
        assert(ways.filter(f)[0] == n);
        assert(ways.contains(n));
        let k = ways.index_of(n);
        assert(without_law(w.registry, ways[k]));
        let draw = rng.after_next().spec_unit();
        let cut = fleet::roam_cutoffs(w, at);
        lemma_draw_by_weight(near, cut, draw);
        let dest = fleet::falls_on(near, cut, draw, 0);
        let j = choose|j: int| #![trigger near[j]] 0 <= j < near.len() && near[j] == dest;
        assert(ways.filter(f)[j] == dest);
        assert(ways.contains(dest));
        lemma_counter_turns(w.tick.0, w.tables.spec_travel(ship, at, dest));
    }
    assert(has_way_out(w.registry, at) == (near.len() > 0));
    assert(has_roamed(w, ship, p, q, shield));
}

/// On a tick, each patrol of a fleet keeps its place; those that fight are frozen, and the
/// others have roamed, their shields at what the host worked out for them.
pub proof fn lemma_fleet_has_roamed(
    w: WorldView,
    ship: ShipId,
    list: Seq<Patrol>,
    shields: Seq<Bits>,
    n: int,
)
    requires
        0 <= n <= list.len(),
    ensures
        fleet::fleet_roamed(w, ship, list, shields, n).0.len() == n,
        forall|i: int|
            0 <= i < n ==> moved_on(
                w,
                ship,
                list[i],
                #[trigger] fleet::fleet_roamed(w, ship, list, shields, n).0[i],
                if i < shields.len() {
                    shields[i]
                } else {
                    list[i].shield
                },
            ),
    decreases n,
{
    if n > 0 {
        lemma_fleet_has_roamed(w, ship, list, shields, n - 1);
        let (done, rng) = fleet::fleet_roamed(w, ship, list, shields, n - 1);
        let after = fleet::fleet_roamed(w, ship, list, shields, n).0;
        let p = list[n - 1];
        lemma_roaming(w, ship, p, fleet::regenerated(shields, list, n - 1), rng);
        lemma_engaged(w.encounters, p.id);
        assert forall|i: int| 0 <= i < n implies moved_on(
            w,
            ship,
            list[i],
            #[trigger] after[i],
            if i < shields.len() {
                shields[i]
            } else {
                list[i].shield
            },
        ) by {
            if i < n - 1 {
                assert(after[i] == done[i]);
            }
        }
    }
}

/// Whether a patrol fights in some battle.
pub open spec fn in_battle(battles: Seq<ActiveView>, id: PatrolId) -> bool {
    exists|i: int| 0 <= i < battles.len() && aftermath::takes_part(#[trigger] battles[i], id)
}

/// Whether a patrol has had its tick: frozen if it fights, roamed if not.
pub open spec fn moved_on(
    w: WorldView,
    ship: ShipId,
    before: Patrol,
    after: Patrol,
    shield: Bits,
) -> bool {
    if in_battle(w.encounters, before.id) {
        after == before
    } else {
        has_roamed(w, ship, before, after, shield)
    }
}

proof fn lemma_engaged(battles: Seq<ActiveView>, id: PatrolId)
    ensures
        in_battle(battles, id) == fleet::engaged(battles, id),
{
    assert forall|i: int| 0 <= i < battles.len() implies aftermath::takes_part(
        #[trigger] battles[i],
        id,
    ) == fleet::participants(battles[i].kind).contains(id) by {
        aftermath::lemma_takes_part(battles[i], id);
    }
}

/// Whether `p` is a new ship of a fleet: undamaged, docked at a lawless system.
pub open spec fn recruit(reg: Registry, ship: ShipId, p: Patrol) -> bool {
    let def = reg.spec_ships()[ship.0 as int];
    &&& p.ship == ship
    &&& def.hull <= i32::MAX ==> p.hull == def.hull
    &&& p.shield == crate::bits::whole(def.spec_stats().shield as nat)
    &&& match p.location {
        PatrolLocation::Docked(s) => without_law(reg, s),
        PatrolLocation::InTransit { origin, dest, departure, arrival } => false,
    }
}

/// Topping a fleet up: where there is lawless space, it grows to its size and no further,
/// behind the ships it has, with new ships under ids in order. Elsewhere nothing joins.
pub proof fn lemma_topping_up(
    reg: Registry,
    cutoffs: Seq<u64>,
    ship: ShipId,
    target: nat,
    s: FleetState,
)
    requires
        reg.spec_systems().len() <= u32::MAX,
        s.next_id + target <= u64::MAX,
    ensures
        ({
            let r = fleet::topped_up(reg, cutoffs, ship, target, s);
            let old = s.fleet.len();
            let law = forall|t: SystemId| !#[trigger] without_law(reg, t);
            &&& law || old >= target ==> r == s
            &&& !law && old < target ==> r.fleet.len() == target
            &&& r.fleet.len() >= old
            &&& r.fleet.take(old as int) == s.fleet
            &&& r.next_id == s.next_id + (r.fleet.len() - old)
            &&& forall|i: int|
                old <= i < r.fleet.len() ==> recruit(reg, ship, #[trigger] r.fleet[i])
                    && r.fleet[i].id.0 == s.next_id + (i - old)
        }),
    decreases target - s.fleet.len(),
{
    lemma_lawless_are_all(reg);
    let all = fleet::lawless_systems(reg);
    let r = fleet::topped_up(reg, cutoffs, ship, target, s);
    if all.len() == 0 {
        assert forall|t: SystemId| !#[trigger] without_law(reg, t) by {
            assert(!all.contains(t));
        }
    } else {
        assert(all.contains(all[0]));
        assert(without_law(reg, all[0]));
    }
    if s.fleet.len() >= target || all.len() == 0 {
        assert(r.fleet.take(s.fleet.len() as int) =~= s.fleet);
    } else {
        let (at, rng) = fleet::weighted(all, cutoffs, s.rng);
        let def = reg.spec_ships()[ship.0 as int];
        let p = Patrol::spec_new(PatrolId(s.next_id), ship, def.spec_stats(), def.hull, at->Some_0);
        lemma_draw_by_weight(all, cutoffs, s.rng.spec_unit());
        let spot = at->Some_0;
        let k = choose|k: int| #![trigger all[k]] 0 <= k < all.len() && all[k] == spot;
        assert(all.contains(spot));
        let more = FleetState {
            fleet: s.fleet.push(p),
            rng,
            next_id: s.next_id.wrapping_add(1),
        };
        lemma_topping_more(reg, cutoffs, ship, target, more);
        let old = s.fleet.len() as int;
        assert(r == fleet::topped_up(reg, cutoffs, ship, target, more));
        assert(r.fleet.take(old + 1) == more.fleet);
        assert(r.fleet.take(old) =~= s.fleet) by {
            assert forall|i: int| 0 <= i < old implies r.fleet.take(old)[i] == s.fleet[i] by {
                assert(r.fleet.take(old + 1)[i] == more.fleet[i]);
            }
        }
        assert forall|i: int| old <= i < r.fleet.len() implies recruit(
            reg,
            ship,
            #[trigger] r.fleet[i],
        ) && r.fleet[i].id.0 == s.next_id + (i - old) by {
            if i == old {
                assert(r.fleet.take(old + 1)[i] == more.fleet[i]);
            }
        }
    }
}

proof fn lemma_topping_more(
    reg: Registry,
    cutoffs: Seq<u64>,
    ship: ShipId,
    target: nat,
    s: FleetState,
)
    requires
        reg.spec_systems().len() <= u32::MAX,
        s.fleet.len() <= target,
        s.next_id + (target - s.fleet.len()) <= u64::MAX,
        exists|t: SystemId| #[trigger] without_law(reg, t),
    ensures
        ({
            let r = fleet::topped_up(reg, cutoffs, ship, target, s);
            let old = s.fleet.len();
            &&& r.fleet.len() == target
            &&& r.fleet.take(old as int) == s.fleet
            &&& r.next_id == s.next_id + (r.fleet.len() - old)
            &&& forall|i: int|
                old <= i < r.fleet.len() ==> recruit(reg, ship, #[trigger] r.fleet[i])
                    && r.fleet[i].id.0 == s.next_id + (i - old)
        }),
    decreases target - s.fleet.len(),
{
    lemma_lawless_are_all(reg);
    let all = fleet::lawless_systems(reg);
    let r = fleet::topped_up(reg, cutoffs, ship, target, s);
    let t = choose|t: SystemId| #[trigger] without_law(reg, t);
    assert(all.contains(t));
    if s.fleet.len() >= target {
        assert(r.fleet.take(s.fleet.len() as int) =~= s.fleet);
    } else {
        let (at, rng) = fleet::weighted(all, cutoffs, s.rng);
        let def = reg.spec_ships()[ship.0 as int];
        let p = Patrol::spec_new(PatrolId(s.next_id), ship, def.spec_stats(), def.hull, at->Some_0);
        lemma_draw_by_weight(all, cutoffs, s.rng.spec_unit());
        let spot = at->Some_0;
        let k = choose|k: int| #![trigger all[k]] 0 <= k < all.len() && all[k] == spot;
        assert(all.contains(spot));
        let more = FleetState {
            fleet: s.fleet.push(p),
            rng,
            next_id: s.next_id.wrapping_add(1),
        };
        lemma_topping_more(reg, cutoffs, ship, target, more);
        let old = s.fleet.len() as int;
        assert(r == fleet::topped_up(reg, cutoffs, ship, target, more));
        assert(r.fleet.take(old + 1) == more.fleet);
        assert(r.fleet.take(old) =~= s.fleet) by {
            assert forall|i: int| 0 <= i < old implies r.fleet.take(old)[i] == s.fleet[i] by {
                assert(r.fleet.take(old + 1)[i] == more.fleet[i]);
            }
        }
        assert forall|i: int| old <= i < r.fleet.len() implies recruit(
            reg,
            ship,
            #[trigger] r.fleet[i],
        ) && r.fleet[i].id.0 == s.next_id + (i - old) by {
            if i == old {
                assert(r.fleet.take(old + 1)[i] == more.fleet[i]);
            }
        }
    }
}

/// The tick of a fleet: the ships it has move on in their places; it is reinforced only on
/// the ticks of its interval, and only where that is paid for.
pub proof fn lemma_tick_of_a_fleet(
    w: WorldView,
    list: Seq<Patrol>,
    ship: ShipId,
    fleet_size: u32,
    interval: u64,
    shields: Seq<Bits>,
    paid: bool,
)
    requires
        w.registry.spec_systems().len() <= u32::MAX,
        w.next_patrol_id + fleet_size <= u64::MAX,
    ensures
        ({
            let r = fleet::fleet_run(w, list, ship, fleet_size, interval, shields, paid);
            let law = forall|t: SystemId| !#[trigger] without_law(w.registry, t);
            let old = list.len();
            let joins = paid && w.tick.0 % interval == 0 && !law && old < fleet_size;
            &&& joins ==> r.fleet.len() == fleet_size
            &&& !joins ==> r.fleet.len() == old && r.next_id == w.next_patrol_id
            &&& r.next_id == w.next_patrol_id + (r.fleet.len() - old)
            &&& forall|i: int|
                0 <= i < old ==> moved_on(
                    w,
                    ship,
                    list[i],
                    #[trigger] r.fleet[i],
                    if i < shields.len() {
                        shields[i]
                    } else {
                        list[i].shield
                    },
                )
            &&& forall|i: int|
                old <= i < r.fleet.len() ==> recruit(w.registry, ship, #[trigger] r.fleet[i])
                    && r.fleet[i].id.0 == w.next_patrol_id + (i - old)
        }),
{
    lemma_fleet_has_roamed(w, ship, list, shields, list.len() as int);
    let (moved, rng) = fleet::fleet_roamed(w, ship, list, shields, list.len() as int);
    let s = FleetState { fleet: moved, rng, next_id: w.next_patrol_id };
    lemma_topping_up(w.registry, w.tables.spawn_cutoffs@, ship, fleet_size as nat, s);
    let r = fleet::fleet_run(w, list, ship, fleet_size, interval, shields, paid);
    assert forall|i: int| 0 <= i < list.len() implies moved_on(
        w,
        ship,
        list[i],
        #[trigger] r.fleet[i],
        if i < shields.len() {
            shields[i]
        } else {
            list[i].shield
        },
    ) by {
        if paid && w.tick.0 % interval == 0 {
            assert(r.fleet.take(moved.len() as int)[i] == moved[i]);
        }
        assert(r.fleet[i] == moved[i]);
    }
}

} // verus!
