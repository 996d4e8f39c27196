//! Roaming fleets: danger-weighted placement, arrivals, roaming and reinforcement.

use vstd::prelude::*;

use crate::bits;
use crate::bits::Bits;
use crate::ids::{PatrolId, ShipId, SystemId};
use crate::patrol::{Patrol, PatrolLocation};
use crate::registry::Registry;
use crate::rng::DetRng;
use crate::search;
use crate::world::{ActiveView, KindView, World, WorldView};

verus! {

/// The probability over 2^53 that a docked patrol relocates on a tick: 12%.
pub const ROAM_CHANCE: u64 = 1080863910568919;

/// Whether a system of the registry is lawless.
pub open spec fn is_lawless(reg: Registry, s: SystemId) -> bool {
    s.0 < reg.spec_systems().len() && bits::positive(reg.spec_systems()[s.0 as int].danger)
}

/// The lawless systems among the first `n`, ascending.
pub open spec fn lawless_below(reg: Registry, n: int) -> Seq<SystemId>
    decreases n,
{
    if n <= 0 {
        Seq::empty()
    } else {
        let s = SystemId((n - 1) as u32);
        if is_lawless(reg, s) {
            lawless_below(reg, n - 1).push(s)
        } else {
            lawless_below(reg, n - 1)
        }
    }
}

/// The lawless systems, ascending.
pub open spec fn lawless_systems(reg: Registry) -> Seq<SystemId> {
    lawless_below(reg, reg.spec_systems().len() as int)
}

/// The lawless neighbours of a system, in the order of its connections.
pub open spec fn lawless_neighbours(reg: Registry, s: SystemId) -> Seq<SystemId> {
    reg.spec_systems()[s.0 as int].connections@.filter(|n: SystemId| is_lawless(reg, n))
}

/// The item a draw falls on: the first from place `i` on whose cut-off it is below, or
/// the last.
pub open spec fn falls_on(items: Seq<SystemId>, cutoffs: Seq<u64>, draw: u64, i: int) -> SystemId
    decreases items.len() - i,
{
    if i >= items.len() - 1 {
        items.last()
    } else if i < cutoffs.len() && draw < cutoffs[i] {
        items[i]
    } else {
        falls_on(items, cutoffs, draw, i + 1)
    }
}

/// A weighted draw: the item, and the generator after it. Nothing is drawn from
/// nothing.
pub open spec fn weighted(items: Seq<SystemId>, cutoffs: Seq<u64>, rng: DetRng) -> (
    Option<SystemId>,
    DetRng,
) {
    if items.len() == 0 {
        (None, rng)
    } else {
        (Some(falls_on(items, cutoffs, rng.spec_unit(), 0)), rng.after_next())
    }
}

proof fn lemma_falls_on_member(items: Seq<SystemId>, cutoffs: Seq<u64>, draw: u64, i: int)
    requires
        items.len() > 0,
        0 <= i,
    ensures
        items.contains(falls_on(items, cutoffs, draw, i)),
    decreases items.len() - i,
{
    if i >= items.len() - 1 {
        assert(items[items.len() - 1] == items.last());
    } else if i < cutoffs.len() && draw < cutoffs[i] {
    } else {
        lemma_falls_on_member(items, cutoffs, draw, i + 1);
    }
}

/// Pick an item in proportion to the weights behind `cutoffs`; `None` if there is
/// none.
pub fn weighted_pick(items: &Vec<SystemId>, cutoffs: &Vec<u64>, rng: &mut DetRng) -> (r: Option<
    SystemId,
>)
    ensures
        (r, *final(rng)) == weighted(items@, cutoffs@, *old(rng)),
        r is Some ==> items@.contains(r->Some_0),
{
    if items.len() == 0 {
        return None;
    }
    let draw = rng.unit();
    let mut i: usize = 0;
    proof {
        lemma_falls_on_member(items@, cutoffs@, draw, 0);
    }
    while i < items.len() - 1
        invariant
            0 < items@.len(),
            i <= items@.len() - 1,
            draw == old(rng).spec_unit(),
            *rng == old(rng).after_next(),
            falls_on(items@, cutoffs@, draw, i as int) == falls_on(items@, cutoffs@, draw, 0),
        decreases items@.len() - i,
    {
        if i < cutoffs.len() && draw < cutoffs[i] {
            return Some(items[i]);
        }
        i = i + 1;
    }
    Some(items[items.len() - 1])
}

/// A fleet, the generator that moves it, and the next patrol id.
#[verifier::ext_equal]
pub struct FleetState {
    pub fleet: Seq<Patrol>,
    pub rng: DetRng,
    pub next_id: u64,
}

/// A fleet topped up to `target` ships at danger-weighted lawless systems; a galaxy
/// without lawless systems gets none.
pub open spec fn topped_up(
    reg: Registry,
    cutoffs: Seq<u64>,
    ship: ShipId,
    target: nat,
    s: FleetState,
) -> FleetState
    decreases target - s.fleet.len(),
{
    if s.fleet.len() >= target || lawless_systems(reg).len() == 0 {
        s
    } else {
        let (at, rng) = weighted(lawless_systems(reg), cutoffs, s.rng);
        let def = reg.spec_ships()[ship.0 as int];
        topped_up(
            reg,
            cutoffs,
            ship,
            target,
            FleetState {
                fleet: s.fleet.push(
                    Patrol::spec_new(
                        PatrolId(s.next_id),
                        ship,
                        def.spec_stats(),
                        def.hull,
                        at->Some_0,
                    ),
                ),
                rng,
                next_id: s.next_id.wrapping_add(1),
            },
        )
    }
}

/// Whether a patrol is in or bound for lawless space, and flies a known ship.
pub open spec fn patrol_fits(reg: Registry, p: Patrol) -> bool {
    &&& p.ship.0 < reg.spec_ships().len()
    &&& match p.location {
        PatrolLocation::Docked(s) => is_lawless(reg, s),
        PatrolLocation::InTransit { origin, dest, departure, arrival } => is_lawless(reg, dest),
    }
}

/// Every patrol of a fleet fits.
pub open spec fn fleet_fits(reg: Registry, fleet: Seq<Patrol>) -> bool {
    forall|i: int| 0 <= i < fleet.len() ==> patrol_fits(reg, #[trigger] fleet[i])
}

/// The lawless systems of a registry.
pub fn find_lawless(reg: &Registry) -> (r: Vec<SystemId>)
    requires
        reg.wf(),
    ensures
        r@ == lawless_systems(*reg),
        forall|i: int| 0 <= i < r@.len() ==> is_lawless(*reg, #[trigger] r@[i]),
{
    let n = reg.system_count();
    let mut out: Vec<SystemId> = Vec::new();
    let mut i: usize = 0;
    while i < n
        invariant
            i <= n,
            n == reg.spec_systems().len(),
            n <= u32::MAX,
            out@ == lawless_below(*reg, i as int),
            forall|k: int| 0 <= k < out@.len() ==> is_lawless(*reg, #[trigger] out@[k]),
        decreases n - i,
    {
        let s = SystemId(i as u32);
        if bits::is_positive(reg.system(s).danger) {
            out.push(s);
        }
        i = i + 1;
    }
    out
}

/// The lawless neighbours of a system.
fn find_neighbours(reg: &Registry, s: SystemId) -> (r: Vec<SystemId>)
    requires
        reg.wf(),
        s.0 < reg.spec_systems().len(),
    ensures
        r@ == lawless_neighbours(*reg, s),
        forall|i: int| 0 <= i < r@.len() ==> is_lawless(*reg, #[trigger] r@[i]),
{
    let links = &reg.system(s).connections;
    let ghost p = |n: SystemId| is_lawless(*reg, n);
    let mut out: Vec<SystemId> = Vec::new();
    let mut i: usize = 0;
    proof {
        search::lemma_filter_none(links@, p);
        assert(reg.system_in_range(reg.spec_systems()[s.0 as int]));
    }
    while i < links.len()
        invariant
            i <= links@.len(),
            forall|k: int|
                0 <= k < links@.len() ==> (#[trigger] links@[k]).0 < reg.spec_systems().len(),
            p == (|n: SystemId| is_lawless(*reg, n)),
            out@ == links@.take(i as int).filter(p),
            forall|k: int| 0 <= k < out@.len() ==> is_lawless(*reg, #[trigger] out@[k]),
        decreases links@.len() - i,
    {
        proof {
            search::lemma_filter_step(links@, p, i as int);
        }
        let n = links[i];
        if bits::is_positive(reg.system(n).danger) {
            out.push(n);
        }
        i = i + 1;
    }
    assert(links@.take(i as int) =~= links@);
    out
}

/// Top a fleet up to `target` ships.
pub fn top_up(
    reg: &Registry,
    cutoffs: &Vec<u64>,
    ship: ShipId,
    target: u32,
    fleet: &mut Vec<Patrol>,
    rng: &mut DetRng,
    next_id: &mut u64,
)
    requires
        reg.wf(),
        ship.0 < reg.spec_ships().len(),
        fleet_fits(*reg, old(fleet)@),
    ensures
        (FleetState { fleet: final(fleet)@, rng: *final(rng), next_id: *final(next_id) })
            == topped_up(
            *reg,
            cutoffs@,
            ship,
            target as nat,
            FleetState { fleet: old(fleet)@, rng: *old(rng), next_id: *old(next_id) },
        ),
        fleet_fits(*reg, final(fleet)@),
        final(fleet)@.len() == old(fleet)@.len() || final(fleet)@.len() <= target,
{
    let places = find_lawless(reg);
    if places.len() == 0 {
        return ;
    }
    let def = reg.ship(ship);
    let stats = def.stats();
    let ghost start = FleetState { fleet: fleet@, rng: *rng, next_id: *next_id };
    while fleet.len() < target as usize
        invariant
            reg.wf(),
            ship.0 < reg.spec_ships().len(),
            *def == reg.spec_ships()[ship.0 as int],
            stats == def.spec_stats(),
            places@ == lawless_systems(*reg),
            places@.len() > 0,
            forall|i: int| 0 <= i < places@.len() ==> is_lawless(*reg, #[trigger] places@[i]),
            fleet_fits(*reg, fleet@),
            fleet@.len() == start.fleet.len() || fleet@.len() <= target,
            topped_up(
                *reg,
                cutoffs@,
                ship,
                target as nat,
                FleetState { fleet: fleet@, rng: *rng, next_id: *next_id },
            ) == topped_up(*reg, cutoffs@, ship, target as nat, start),
        decreases target - fleet@.len(),
    {
        let ghost before = FleetState { fleet: fleet@, rng: *rng, next_id: *next_id };
        match weighted_pick(&places, cutoffs, rng) {
            Some(at) => {
                let id = PatrolId(*next_id);
                *next_id = next_id.wrapping_add(1);
                fleet.push(Patrol::new(id, ship, &stats, def.hull, at));
                proof {
                    let k = places@.index_of(at);
                    assert(is_lawless(*reg, places@[k]));
                    assert(fleet@ =~= before.fleet.push(
                        Patrol::spec_new(id, ship, stats, def.hull, at),
                    ));
                }
            },
            None => {
                assert(false);
            },
        }
    }
}

/// The patrols of a battle.
pub open spec fn participants(k: KindView) -> Seq<PatrolId> {
    match k {
        KindView::Ambush {
            trader,
            dest,
            navy,
            pirates,
            navy_offset,
            pirate_offset,
            respawn_delay,
            bounty,
        } => navy + pirates,
        KindView::Hunt { sys, navy, pirates, pirates_offset } => navy + pirates,
    }
}

/// Whether a patrol is in a running battle.
pub open spec fn engaged(battles: Seq<ActiveView>, id: PatrolId) -> bool {
    exists|i: int| 0 <= i < battles.len() && participants((#[trigger] battles[i]).kind).contains(id)
}

/// A patrol after a tick, and the generator after it: it arrives, regenerates to
/// `shield`, and when docked may depart for a lawless neighbour.
pub open spec fn roamed(w: WorldView, ship: ShipId, p: Patrol, shield: Bits, rng: DetRng) -> (
    Patrol,
    DetRng,
) {
    let location = match p.location {
        PatrolLocation::InTransit { origin, dest, departure, arrival } => if w.tick.0
            >= arrival.0 {
            PatrolLocation::Docked(dest)
        } else {
            p.location
        },
        PatrolLocation::Docked(s) => p.location,
    };
    let here = Patrol { location, shield, ..p };
    match location {
        PatrolLocation::InTransit { origin, dest, departure, arrival } => (here, rng),
        PatrolLocation::Docked(s) => if rng.spec_unit() < ROAM_CHANCE {
            let (to, after) = weighted(
                lawless_neighbours(w.registry, s),
                roam_cutoffs(w, s),
                rng.after_next(),
            );
            match to {
                None => (here, after),
                Some(dest) => (
                    Patrol {
                        location: PatrolLocation::InTransit {
                            origin: s,
                            dest,
                            departure: w.tick,
                            arrival: w.tick.spec_plus(w.tables.spec_travel(ship, s, dest)),
                        },
                        ..here
                    },
                    after,
                ),
            }
        } else {
            (here, rng.after_next())
        },
    }
}

/// The cut-offs of the draw of a neighbour of `s`.
pub open spec fn roam_cutoffs(w: WorldView, s: SystemId) -> Seq<u64> {
    if s.0 < w.tables.roam_cutoffs@.len() {
        w.tables.roam_cutoffs@[s.0 as int]@
    } else {
        Seq::empty()
    }
}

/// The shield a patrol regenerates to: what the host worked out, or what it has.
pub open spec fn regenerated(shields: Seq<Bits>, fleet: Seq<Patrol>, i: int) -> Bits {
    if i < shields.len() {
        shields[i]
    } else {
        fleet[i].shield
    }
}

/// The first `n` patrols of a fleet after a tick, and the generator after them.
/// Patrols in a battle are frozen.
pub open spec fn fleet_roamed(
    w: WorldView,
    ship: ShipId,
    fleet: Seq<Patrol>,
    shields: Seq<Bits>,
    n: int,
) -> (Seq<Patrol>, DetRng)
    decreases n,
{
    if n <= 0 {
        (Seq::empty(), w.rng)
    } else {
        let (done, rng) = fleet_roamed(w, ship, fleet, shields, n - 1);
        if engaged(w.encounters, fleet[n - 1].id) {
            (done.push(fleet[n - 1]), rng)
        } else {
            let (p, after) = roamed(w, ship, fleet[n - 1], regenerated(shields, fleet, n - 1), rng);
            (done.push(p), after)
        }
    }
}

/// A fleet after a tick: moved, and on a reinforcement tick topped up, where that is
/// paid for.
pub open spec fn fleet_run(
    w: WorldView,
    fleet: Seq<Patrol>,
    ship: ShipId,
    fleet_size: u32,
    interval: u64,
    shields: Seq<Bits>,
    can_reinforce: bool,
) -> FleetState {
    let (moved, rng) = fleet_roamed(w, ship, fleet, shields, fleet.len() as int);
    let s = FleetState { fleet: moved, rng, next_id: w.next_patrol_id };
    if can_reinforce && w.tick.0 % interval == 0 {
        topped_up(w.registry, w.tables.spawn_cutoffs@, ship, fleet_size as nat, s)
    } else {
        s
    }
}

/// The world after the pirate fleet has moved. `shields` holds what each pirate
/// regenerates to.
pub open spec fn pirates_run(w: WorldView, shields: Seq<Bits>) -> WorldView {
    match w.piracy {
        None => w,
        Some(rt) => {
            let s = fleet_run(
                w,
                w.pirates,
                rt.pirate_ship,
                rt.fleet_size,
                rt.reinforce_interval,
                shields,
                true,
            );
            WorldView { pirates: s.fleet, rng: s.rng, next_patrol_id: s.next_id, ..w }
        },
    }
}

/// Whether an id occurs in a list.
pub fn has_patrol(list: &Vec<PatrolId>, id: PatrolId) -> (b: bool)
    ensures
        b == list@.contains(id),
{
    let mut i: usize = 0;
    while i < list.len()
        invariant
            i <= list@.len(),
            forall|j: int| 0 <= j < i ==> (#[trigger] list@[j]) != id,
        decreases list@.len() - i,
    {
        if list[i] == id {
            assert(list@[i as int] == id);
            return true;
        }
        i = i + 1;
    }
    false
}

impl World {
    /// Whether a patrol is in a running battle.
    pub(crate) fn patrol_engaged(&self, id: PatrolId) -> (b: bool)
        ensures
            b == engaged(self@.encounters, id),
    {
        let mut i: usize = 0;
        while i < self.encounters.len()
            invariant
                i <= self.encounters@.len(),
                self@.encounters.len() == self.encounters@.len(),
                forall|j: int|
                    0 <= j < i ==> !participants((#[trigger] self@.encounters[j]).kind).contains(
                        id,
                    ),
            decreases self.encounters@.len() - i,
        {
            let ghost k = self@.encounters[i as int].kind;
            assert(k == self.encounters@[i as int].kind@);
            let found = match &self.encounters[i].kind {
                crate::world::EncounterKind::Ambush { navy, pirates, .. } => {
                    proof {
                        lemma_either(navy@, pirates@, id);
                    }
                    has_patrol(navy, id) || has_patrol(pirates, id)
                },
                crate::world::EncounterKind::Hunt { navy, pirates, .. } => {
                    proof {
                        lemma_either(navy@, pirates@, id);
                    }
                    has_patrol(navy, id) || has_patrol(pirates, id)
                },
            };
            assert(found == participants(k).contains(id));
            if found {
                return true;
            }
            i = i + 1;
        }
        false
    }

    /// Move one patrol.
    fn roam(&mut self, ship: ShipId, p: Patrol, shield: Bits) -> (r: Patrol)
        requires
            old(self)@.registry.wf(),
            patrol_fits(old(self)@.registry, p),
        ensures
            ({
                let (want, rng) = roamed(old(self)@, ship, p, shield, old(self)@.rng);
                r == want && final(self)@ == (WorldView { rng, ..old(self)@ })
            }),
            patrol_fits(old(self)@.registry, r),
            r.id == p.id,
    {
        let now = self.tick;
        let location = match p.location {
            PatrolLocation::InTransit { dest, arrival, .. } => {
                if now.0 >= arrival.0 {
                    PatrolLocation::Docked(dest)
                } else {
                    p.location
                }
            },
            PatrolLocation::Docked(_) => p.location,
        };
        let here = Patrol { location, shield, ..p };
        let s = match location {
            PatrolLocation::InTransit { .. } => {
                assert(self@ =~= (WorldView { rng: old(self)@.rng, ..old(self)@ }));
                return here;
            },
            PatrolLocation::Docked(s) => s,
        };
        let draw = self.rng.unit();
        if draw >= ROAM_CHANCE {
            assert(self@ =~= (WorldView { rng: old(self)@.rng.after_next(), ..old(self)@ }));
            return here;
        }
        let neighbours = find_neighbours(&self.registry, s);
        let none: Vec<u64> = Vec::new();
        let to = if s.index() < self.tables.roam_cutoffs.len() {
            weighted_pick(&neighbours, &self.tables.roam_cutoffs[s.index()], &mut self.rng)
        } else {
            assert(none@ =~= Seq::<u64>::empty());
            weighted_pick(&neighbours, &none, &mut self.rng)
        };
        assert(self@ =~= (WorldView {
            rng: weighted(
                lawless_neighbours(old(self)@.registry, s),
                roam_cutoffs(old(self)@, s),
                old(self)@.rng.after_next(),
            ).1,
            ..old(self)@
        }));
        match to {
            None => here,
            Some(dest) => {
                proof {
                    let k = neighbours@.index_of(dest);
                    assert(is_lawless(old(self)@.registry, neighbours@[k]));
                }
                let travel = self.tables.travel_between(ship, s, dest);
                Patrol {
                    location: PatrolLocation::InTransit {
                        origin: s,
                        dest,
                        departure: now,
                        arrival: now.plus(travel),
                    },
                    ..here
                }
            },
        }
    }

    /// Advance a fleet by one tick.
    pub(crate) fn advance_fleet(
        &mut self,
        fleet: &Vec<Patrol>,
        ship: ShipId,
        fleet_size: u32,
        interval: u64,
        shields: &Vec<Bits>,
        can_reinforce: bool,
    ) -> (r: Vec<Patrol>)
        requires
            old(self)@.registry.wf(),
            fleet_fits(old(self)@.registry, fleet@),
            ship.0 < old(self)@.ships(),
            interval >= 1,
            fleet@.len() <= fleet_size,
        ensures
            ({
                let s = fleet_run(
                    old(self)@,
                    fleet@,
                    ship,
                    fleet_size,
                    interval,
                    shields@,
                    can_reinforce,
                );
                r@ == s.fleet && final(self)@ == (WorldView {
                    rng: s.rng,
                    next_patrol_id: s.next_id,
                    ..old(self)@
                })
            }),
            fleet_fits(old(self)@.registry, r@),
            r@.len() <= fleet_size,
    {
        let ghost w = self@;
        let mut moved: Vec<Patrol> = Vec::new();
        let mut i: usize = 0;
        assert(self@ =~= (WorldView { rng: w.rng, ..w }));
        while i < fleet.len()
            invariant
                i <= fleet@.len(),
                w == old(self)@,
                w.registry.wf(),
                fleet_fits(w.registry, fleet@),
                fleet_fits(w.registry, moved@),
                moved@.len() == i,
                moved@ == fleet_roamed(w, ship, fleet@, shields@, i as int).0,
                self@ == (WorldView {
                    rng: fleet_roamed(w, ship, fleet@, shields@, i as int).1,
                    ..w
                }),
            decreases fleet@.len() - i,
        {
            let p = fleet[i];
            if self.patrol_engaged(p.id) {
                moved.push(p);
            } else {
                let shield = if i < shields.len() { shields[i] } else { p.shield };
                let ghost before = self@;
                assert(roamed(before, ship, p, shield, before.rng) == roamed(
                    w,
                    ship,
                    p,
                    shield,
                    before.rng,
                ));
                let q = self.roam(ship, p, shield);
                moved.push(q);
                assert(self@ =~= (WorldView {
                    rng: fleet_roamed(w, ship, fleet@, shields@, i + 1).1,
                    ..w
                }));
            }
            i = i + 1;
        }
        if can_reinforce && self.tick.0 % interval == 0 {
            let mut rng = self.rng;
            let mut next_id = self.next_patrol_id;
            top_up(
                &self.registry,
                &self.tables.spawn_cutoffs,
                ship,
                fleet_size,
                &mut moved,
                &mut rng,
                &mut next_id,
            );
            self.rng = rng;
            self.next_patrol_id = next_id;
        }
        let ghost s = fleet_run(w, fleet@, ship, fleet_size, interval, shields@, can_reinforce);
        assert(self@ =~= (WorldView { rng: s.rng, next_patrol_id: s.next_id, ..w }));
        moved
    }

    /// Move the pirate fleet.
    pub(crate) fn pirate_phase(&mut self, shields: &Vec<Bits>)
        requires
            old(self)@.wf(),
        ensures
            final(self)@ == pirates_run(old(self)@, shields@),
            final(self)@.wf(),
    {
        let rt = match self.piracy {
            Some(rt) => rt,
            None => {
                return ;
            },
        };
        let ghost w = self@;
        let mut fleet: Vec<Patrol> = Vec::new();
        std::mem::swap(&mut fleet, &mut self.pirates);
        let ghost bare = self@;
        proof {
            assert(bare =~= (WorldView { pirates: Seq::empty(), ..w }));
            assert forall|i: int| 0 <= i < fleet@.len() implies patrol_fits(
                w.registry,
                #[trigger] fleet@[i],
            ) by {
                assert(w.patrol_ok(w.pirates[i]));
            }
            lemma_fleet_run_frame(
                w,
                bare,
                fleet@,
                rt.pirate_ship,
                rt.fleet_size,
                rt.reinforce_interval,
                shields@,
                true,
            );
        }
        let moved = self.advance_fleet(
            &fleet,
            rt.pirate_ship,
            rt.fleet_size,
            rt.reinforce_interval,
            shields,
            true,
        );
        self.pirates = moved;
        assert(self@ =~= pirates_run(w, shields@));
        proof {
            assert forall|i: int| 0 <= i < self@.pirates.len() implies self@.patrol_ok(
                #[trigger] self@.pirates[i],
            ) by {
                assert(patrol_fits(w.registry, moved@[i]));
            }
        }
    }
}

pub proof fn lemma_either(a: Seq<PatrolId>, b: Seq<PatrolId>, id: PatrolId)
    ensures
        (a + b).contains(id) == (a.contains(id) || b.contains(id)),
{
    if a.contains(id) {
        let k = a.index_of(id);
        assert((a + b)[k] == id);
    }
    if b.contains(id) {
        let k = b.index_of(id);
        assert((a + b)[a.len() + k] == id);
    }
    if (a + b).contains(id) {
        let k = (a + b).index_of(id);
        if k < a.len() {
            assert(a[k] == id);
        } else {
            assert(b[k - a.len()] == id);
        }
    }
}

/// A fleet's tick depends on the registry, the tables, the clock, the battles and the
/// generator alone.
pub proof fn lemma_fleet_run_frame(
    v: WorldView,
    w: WorldView,
    fleet: Seq<Patrol>,
    ship: ShipId,
    fleet_size: u32,
    interval: u64,
    shields: Seq<Bits>,
    can_reinforce: bool,
)
    requires
        v.registry == w.registry,
        v.tables == w.tables,
        v.tick == w.tick,
        v.encounters == w.encounters,
        v.rng == w.rng,
        v.next_patrol_id == w.next_patrol_id,
    ensures
        fleet_run(v, fleet, ship, fleet_size, interval, shields, can_reinforce) == fleet_run(
            w,
            fleet,
            ship,
            fleet_size,
            interval,
            shields,
            can_reinforce,
        ),
{
    lemma_fleet_roamed_frame(v, w, ship, fleet, shields, fleet.len() as int);
}

proof fn lemma_fleet_roamed_frame(
    v: WorldView,
    w: WorldView,
    ship: ShipId,
    fleet: Seq<Patrol>,
    shields: Seq<Bits>,
    n: int,
)
    requires
        v.registry == w.registry,
        v.tables == w.tables,
        v.tick == w.tick,
        v.encounters == w.encounters,
        v.rng == w.rng,
    ensures
        fleet_roamed(v, ship, fleet, shields, n) == fleet_roamed(w, ship, fleet, shields, n),
    decreases n,
{
    if n > 0 {
        lemma_fleet_roamed_frame(v, w, ship, fleet, shields, n - 1);
    }
}

} // verus!
