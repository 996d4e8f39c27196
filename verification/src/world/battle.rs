//! Running battles: navy hunts and pirate ambushes open them, the combat phase
//! advances them a few steps a tick, and their outcome is applied when they decide.

use vstd::prelude::*;

use crate::bits;
use crate::bits::Bits;
use crate::contract::Contract;
use crate::data::Point;
use crate::encounter;
use crate::encounter::{Combatant, Encounter, Outcome};
use crate::event;
use crate::event::EventCategory;
use crate::ids::{Money, PatrolId, SystemId, TraderId};
use crate::money;
use crate::patrol::Patrol;
use crate::registry::Registry;
use crate::rng::DetRng;
use crate::search;
use crate::trader;
use crate::trader::{TraderLocation, TraderView};
use crate::world::commands;
use crate::world::fleet;
use crate::world::messages;
use crate::world::{
    self, ActiveEncounter, ActiveView, EncounterKind, KindView, PiracyStats, World, WorldView,
};

verus! {

/// Combat steps advanced per tick.
pub const COMBAT_STEPS_PER_TICK: u64 = 25;

/// Most steps of a battle: one still undecided then ends with whoever is alive.
pub const MAX_COMBAT_STEPS: u64 = 500;

/// The pattern of the distance between the two sides of a battle: 30.
pub open spec fn far_side() -> Bits {
    bits::whole(30)
}

/// Where ship `k` of a side at `x` starts: the side spreads along the other axis.
pub open spec fn lane(x: Bits, k: int) -> Point {
    Point { x, y: bits::whole((8 * k) as nat) }
}

/// Where ship `k` of a side at `x` starts.
fn lane_at(x: Bits, k: u64) -> (p: Point)
    requires
        k <= 0x4_0000_0000,
    ensures
        p == lane(x, k as int),
{
    Point { x, y: bits::of_whole(8 * k) }
}

/// A patrol as a combatant, with the hull and shield it has left.
pub open spec fn fighter(reg: Registry, p: Patrol, faction: u8, pos: Point) -> Combatant {
    let def = reg.spec_ships()[p.ship.0 as int];
    Combatant {
        hull: p.hull,
        shield: p.shield,
        ..Combatant::spec_new(p.ship, faction, def.spec_stats(), def.hull, def.max_speed, pos)
    }
}

/// Patrols lined up for battle, from lane `from` on.
pub open spec fn line_up(
    reg: Registry,
    list: Seq<Patrol>,
    faction: u8,
    x: Bits,
    from: int,
) -> Seq<Combatant> {
    Seq::new(list.len(), |k: int| fighter(reg, list[k], faction, lane(x, from + k)))
}

/// Live patrols docked at `s` that are in none of `battles`, in fleet order.
pub open spec fn available(list: Seq<Patrol>, s: SystemId, battles: Seq<ActiveView>) -> Seq<Patrol> {
    list.filter(
        |p: Patrol|
            p.spec_is_alive() && p.spec_docked_at() == Some(s) && !fleet::engaged(battles, p.id),
    )
}

/// The ids of patrols.
pub open spec fn ids_of(list: Seq<Patrol>) -> Seq<PatrolId> {
    Seq::new(list.len(), |k: int| list[k].id)
}

/// The world after the navy and the pirates at `s` have joined battle, where both are
/// there and free; `busy` are the battles that keep patrols from it.
pub open spec fn hunt_opened(w: WorldView, busy: Seq<ActiveView>, s: SystemId) -> WorldView {
    let navy = available(w.navy, s, busy);
    let pirates = available(w.pirates, s, busy);
    if navy.len() == 0 || pirates.len() == 0 {
        w
    } else {
        WorldView {
            encounters: w.encounters.push(
                ActiveView {
                    combatants: line_up(w.registry, navy, 0, 0, 0) + line_up(
                        w.registry,
                        pirates,
                        1,
                        far_side(),
                        0,
                    ),
                    rng: DetRng::spec_from_seed(w.rng.spec_next()),
                    steps: 0,
                    kind: KindView::Hunt {
                        sys: s,
                        navy: ids_of(navy),
                        pirates: ids_of(pirates),
                        pirates_offset: navy.len() as int,
                    },
                },
            ),
            rng: w.rng.after_next(),
            ..w
        }
    }
}

/// The world after hunts have opened at the first `n` systems.
pub open spec fn hunts_opened(w: WorldView, n: int) -> WorldView
    decreases n,
{
    if n <= 0 {
        w
    } else {
        hunt_opened(hunts_opened(w, n - 1), w.encounters, SystemId((n - 1) as u32))
    }
}

/// The world after the navy has been paid for: income in, upkeep out per ship.
pub open spec fn navy_funded(w: WorldView, funding: Money, upkeep: Money) -> WorldView {
    let cost = upkeep * w.navy.len();
    WorldView {
        treasury: money::wrapped(w.treasury + funding - cost),
        piracy_stats: PiracyStats {
            navy_upkeep: money::wrapped(w.piracy_stats.navy_upkeep + cost),
            ..w.piracy_stats
        },
        ..w
    }
}

/// The world after the navy fleet has moved; a treasury in deficit stalls
/// reinforcement.
pub open spec fn navy_moved(w: WorldView, shields: Seq<Bits>) -> WorldView {
    match w.navy_runtime {
        None => w,
        Some(rt) => {
            let f = navy_funded(w, rt.funding, rt.upkeep);
            let s = fleet::fleet_run(
                f,
                f.navy,
                rt.navy_ship,
                rt.fleet_size,
                rt.reinforce_interval,
                shields,
                f.treasury >= 0,
            );
            WorldView { navy: s.fleet, rng: s.rng, next_patrol_id: s.next_id, ..f }
        },
    }
}

/// The world after the navy has moved and opened its hunts.
pub open spec fn navy_run(w: WorldView, shields: Seq<Bits>) -> WorldView {
    match w.navy_runtime {
        None => w,
        Some(rt) => hunts_opened(navy_moved(w, shields), w.systems() as int),
    }
}

/// Whether a trader is in a running battle.
pub open spec fn trader_engaged(battles: Seq<ActiveView>, id: TraderId) -> bool {
    exists|i: int| 0 <= i < battles.len() && ambushes((#[trigger] battles[i]).kind, id)
}

/// Whether a battle is an ambush on this trader.
pub open spec fn ambushes(k: KindView, id: TraderId) -> bool {
    match k {
        KindView::Ambush {
            trader,
            dest,
            navy,
            pirates,
            navy_offset,
            pirate_offset,
            respawn_delay,
            bounty,
        } => trader == id,
        KindView::Hunt { sys, navy, pirates, pirates_offset } => false,
    }
}

/// The pirates that lurk at `s`, fighting or not.
pub open spec fn lurking(list: Seq<Patrol>, s: SystemId) -> Seq<Patrol> {
    list.filter(|p: Patrol| p.spec_is_alive() && p.spec_docked_at() == Some(s))
}

/// The trader and its escorts, lined up.
pub open spec fn convoy(w: WorldView, t: TraderView) -> Seq<Combatant> {
    let def = w.registry.spec_ships()[t.ship.0 as int];
    let trader = seq![
        Combatant::spec_new(
            t.ship,
            0,
            def.spec_stats(),
            def.hull,
            def.max_speed,
            lane(0, 0),
        ),
    ];
    match w.escort {
        None => trader,
        Some(e) => {
            let edef = w.registry.spec_ships()[e.escort_ship.0 as int];
            trader + Seq::new(
                e.count as nat,
                |k: int|
                    Combatant::spec_new(
                        e.escort_ship,
                        0,
                        edef.spec_stats(),
                        edef.hull,
                        edef.max_speed,
                        lane(0, k + 1),
                    ),
            )
        },
    }
}

/// The world after an ambush on trader `t` near `dest`: up to the allowed number of
/// free pirates there against the trader, its escorts and the free navy. Nothing
/// happens where no pirate is free.
pub open spec fn ambush_opened(w: WorldView, t: int, dest: SystemId) -> WorldView {
    let rt = w.piracy->Some_0;
    let all = available(w.pirates, dest, w.encounters);
    let pirates = if all.len() <= rt.max_pirates {
        all
    } else {
        all.take(rt.max_pirates as int)
    };
    let navy = available(w.navy, dest, w.encounters);
    if pirates.len() == 0 {
        w
    } else {
        let head = convoy(w, w.traders[t]);
        let defenders = head + line_up(w.registry, navy, 0, 0, head.len() as int);
        WorldView {
            encounters: w.encounters.push(
                ActiveView {
                    combatants: defenders + line_up(w.registry, pirates, 1, far_side(), 0),
                    rng: DetRng::spec_from_seed(w.rng.spec_next()),
                    steps: 0,
                    kind: KindView::Ambush {
                        trader: w.traders[t].id,
                        dest,
                        navy: ids_of(navy),
                        pirates: ids_of(pirates),
                        navy_offset: head.len() as int,
                        pirate_offset: defenders.len() as int,
                        respawn_delay: rt.respawn_delay,
                        bounty: rt.bounty,
                    },
                },
            ),
            rng: w.rng.after_next(),
            piracy_stats: PiracyStats {
                ambushes: w.piracy_stats.ambushes.wrapping_add(1),
                ..w.piracy_stats
            },
            ..w
        }
    }
}

/// The system where trader `t` can be ambushed: it is under way, laden, not fighting,
/// and pirates lurk where it is bound for.
pub open spec fn prey_bound_for(w: WorldView, t: int) -> Option<SystemId> {
    match w.traders[t].location {
        TraderLocation::InTransit { origin, dest, departure, arrival } => if w.traders[t].cargo
            != Map::<crate::ids::CommodityId, u32>::empty() && !trader_engaged(
            w.encounters,
            w.traders[t].id,
        ) && lurking(w.pirates, dest).len() > 0 {
            Some(dest)
        } else {
            None
        },
        _ => None,
    }
}

/// The world after trader `t` has run the gauntlet.
pub open spec fn gauntlet(w: WorldView, t: int) -> WorldView {
    match prey_bound_for(w, t) {
        None => w,
        Some(dest) => {
            let drawn = WorldView { rng: w.rng.after_next(), ..w };
            if w.rng.spec_unit() < w.tables.spec_ambush(lurking(w.pirates, dest).len() as int) {
                ambush_opened(drawn, t, dest)
            } else {
                drawn
            }
        },
    }
}

/// The world after the first `n` traders have run the gauntlet.
pub open spec fn gauntlets(w: WorldView, n: int) -> WorldView
    decreases n,
{
    if n <= 0 {
        w
    } else {
        gauntlet(gauntlets(w, n - 1), n - 1)
    }
}

/// The world after pirates have ambushed what they could.
pub open spec fn piracy_run(w: WorldView) -> WorldView {
    if w.piracy is Some {
        gauntlets(w, w.traders.len() as int)
    } else {
        w
    }
}

/// A live patrol.
pub open spec fn living() -> spec_fn(Patrol) -> bool {
    |p: Patrol| p.spec_is_alive()
}

/// A fleet with the state of the first `n` of `ships` from `offset` on written back to
/// the patrols with these ids.
pub open spec fn written_back(
    list: Seq<Patrol>,
    ids: Seq<PatrolId>,
    ships: Seq<Combatant>,
    offset: int,
    n: int,
) -> Seq<Patrol>
    decreases n,
{
    if n <= 0 {
        list
    } else {
        let done = written_back(list, ids, ships, offset, n - 1);
        let c = ships[offset + n - 1];
        match commands::patrol_slot(done, ids[n - 1]) {
            None => done,
            Some(i) => done.update(i, Patrol { hull: c.hull, shield: c.shield, ..done[i] }),
        }
    }
}

/// How many of the `n` ships from `offset` on are dead.
pub open spec fn fallen(ships: Seq<Combatant>, offset: int, n: int) -> nat
    decreases n,
{
    if n <= 0 {
        0
    } else {
        fallen(ships, offset, n - 1) + (if ships[offset + n - 1].alive {
            0nat
        } else {
            1
        })
    }
}

/// The world after a hunt has ended: damage is persistent, the dead are culled.
pub open spec fn hunt_closed(
    w: WorldView,
    ships: Seq<Combatant>,
    sys: SystemId,
    navy: Seq<PatrolId>,
    pirates: Seq<PatrolId>,
    offset: int,
) -> WorldView {
    let down = fallen(ships, 0, navy.len() as int);
    let killed = fallen(ships, offset, pirates.len() as int);
    let tallied = WorldView {
        piracy_stats: PiracyStats {
            navy_lost: w.piracy_stats.navy_lost.wrapping_add(down as u64),
            pirates_suppressed: w.piracy_stats.pirates_suppressed.wrapping_add(killed as u64),
            ..w.piracy_stats
        },
        navy: written_back(w.navy, navy, ships, 0, navy.len() as int).filter(living()),
        pirates: written_back(w.pirates, pirates, ships, offset, pirates.len() as int).filter(
            living(),
        ),
        ..w
    };
    if killed > 0 || down > 0 {
        tallied.log(
            EventCategory::Navy,
            Some(sys),
            messages::hunted(w.registry.spec_systems()[sys.0 as int].name@, killed, down),
        )
    } else {
        tallied
    }
}

/// The world after the trader at slot `t` has won an ambush, killing `kills`.
pub open spec fn ambush_survived(
    w: WorldView,
    t: int,
    trader: TraderId,
    dest: SystemId,
    pirates: nat,
    kills: nat,
    bounty: Money,
) -> WorldView {
    let reward = money::wrapped(bounty * kills);
    let met = if kills > 0 {
        w.contracts.filter(|c: Contract| commands::quota_met(c, trader, kills as int))
    } else {
        Seq::empty()
    };
    let paid = WorldView {
        piracy_stats: PiracyStats {
            bounties_paid: money::wrapped(w.piracy_stats.bounties_paid + reward),
            ..w.piracy_stats
        },
        contracts: if kills > 0 {
            commands::board_credited(w.contracts, trader, kills as int)
        } else {
            w.contracts
        },
        ..w.with_trader(
            t,
            TraderView {
                capital: money::wrapped(w.traders[t].capital + reward),
                ..w.traders[t]
            },
        )
    }.log(
        EventCategory::Combat,
        Some(dest),
        messages::ambush_won(
            w.registry.spec_systems()[dest.0 as int].name@,
            trader,
            pirates,
            kills,
            reward,
        ),
    );
    commands::quotas_logged(
        paid,
        met,
        met.len() as int,
        trader,
        Some(dest),
        "; claim at its station"@,
    )
}

/// The world after an ambush has ended: damage is persistent, the dead are culled, and
/// the trader, if it is still there, collects a bounty per kill or is lost.
pub open spec fn ambush_closed(
    w: WorldView,
    ships: Seq<Combatant>,
    trader: TraderId,
    dest: SystemId,
    navy: Seq<PatrolId>,
    pirates: Seq<PatrolId>,
    navy_offset: int,
    pirate_offset: int,
    respawn_delay: u64,
    bounty: Money,
) -> WorldView {
    let down = fallen(ships, navy_offset, navy.len() as int);
    let kills = fallen(ships, pirate_offset, pirates.len() as int);
    let tallied = WorldView {
        piracy_stats: PiracyStats {
            navy_lost: w.piracy_stats.navy_lost.wrapping_add(down as u64),
            pirates_destroyed: w.piracy_stats.pirates_destroyed.wrapping_add(kills as u64),
            ..w.piracy_stats
        },
        navy: written_back(w.navy, navy, ships, navy_offset, navy.len() as int).filter(living()),
        pirates: written_back(
            w.pirates,
            pirates,
            ships,
            pirate_offset,
            pirates.len() as int,
        ).filter(living()),
        ..w
    };
    match commands::trader_slot(w.traders, trader) {
        None => tallied,
        Some(t) => if ships[0].alive {
            ambush_survived(tallied, t, trader, dest, pirates.len(), kills, bounty)
        } else {
            commands::insurance_paid(
                commands::trader_lost(tallied, t, respawn_delay).log(
                    EventCategory::Piracy,
                    Some(dest),
                    messages::ambush_lost(
                        w.registry.spec_systems()[dest.0 as int].name@,
                        trader,
                    ),
                ),
                t,
                trader,
                Some(dest),
            )
        },
    }
}

/// The world after a battle has ended.
pub open spec fn battle_closed(w: WorldView, e: ActiveView) -> WorldView {
    match e.kind {
        KindView::Ambush {
            trader,
            dest,
            navy,
            pirates,
            navy_offset,
            pirate_offset,
            respawn_delay,
            bounty,
        } => ambush_closed(
            w,
            e.combatants,
            trader,
            dest,
            navy,
            pirates,
            navy_offset,
            pirate_offset,
            respawn_delay,
            bounty,
        ),
        KindView::Hunt { sys, navy, pirates, pirates_offset } => hunt_closed(
            w,
            e.combatants,
            sys,
            navy,
            pirates,
            pirates_offset,
        ),
    }
}

/// The world after the first `n` of the `done` battles have been applied.
pub open spec fn battles_closed(w: WorldView, done: Seq<ActiveView>, n: int) -> WorldView
    decreases n,
{
    if n <= 0 {
        w
    } else {
        battle_closed(battles_closed(w, done, n - 1), done[n - 1])
    }
}

/// The steps a battle advances this tick.
pub open spec fn budget(steps: u64) -> u64 {
    if steps >= MAX_COMBAT_STEPS {
        0
    } else if MAX_COMBAT_STEPS - steps < COMBAT_STEPS_PER_TICK {
        (MAX_COMBAT_STEPS - steps) as u64
    } else {
        COMBAT_STEPS_PER_TICK
    }
}

/// What a battle came to after its steps of this tick.
#[derive(Debug)]
pub struct Fought {
    pub combatants: Vec<Combatant>,
    pub rng: DetRng,
}

/// A battle after its steps of this tick.
pub open spec fn fought(e: ActiveView, f: Fought) -> ActiveView {
    ActiveView {
        combatants: f.combatants@,
        rng: f.rng,
        steps: e.steps.wrapping_add(budget(e.steps)),
        ..e
    }
}

/// The battles after their steps of this tick.
pub open spec fn all_fought(list: Seq<ActiveView>, results: Seq<Fought>) -> Seq<ActiveView> {
    Seq::new(list.len(), |i: int| fought(list[i], results[i]))
}

/// Whether a battle is over: it has decided, or run its length.
pub open spec fn is_over(e: ActiveView) -> bool {
    !encounter::standing(e.combatants, Outcome::Ongoing) || e.steps >= MAX_COMBAT_STEPS
}

/// The world after the battles have advanced to `results` and those that are over have
/// been applied.
pub open spec fn combat_run(w: WorldView, results: Seq<Fought>) -> WorldView {
    let list = all_fought(w.encounters, results);
    let done = list.filter(|e: ActiveView| is_over(e));
    battles_closed(
        WorldView { encounters: list.filter(|e: ActiveView| !is_over(e)), ..w },
        done,
        done.len() as int,
    )
}

/// Whether `results` has an entry per battle, with as many ships as went in.
pub open spec fn matches_battles(list: Seq<ActiveView>, results: Seq<Fought>) -> bool {
    results.len() == list.len() && forall|i: int|
        0 <= i < list.len() ==> (#[trigger] results[i]).combatants@.len()
            == list[i].combatants.len()
}

/// A patrol as a combatant.
fn patrol_combatant(reg: &Registry, p: &Patrol, faction: u8, pos: Point) -> (c: Combatant)
    requires
        p.ship.0 < reg.spec_ships().len(),
    ensures
        c == fighter(*reg, *p, faction, pos),
{
    let def = reg.ship(p.ship);
    let fresh = Combatant::new(p.ship, faction, def.stats(), def.hull, def.max_speed, pos);
    Combatant { hull: p.hull, shield: p.shield, ..fresh }
}

/// Line patrols up behind the ships already there.
fn push_line(
    ships: &mut Vec<Combatant>,
    reg: &Registry,
    list: &Vec<Patrol>,
    faction: u8,
    x: Bits,
    from: u64,
)
    requires
        fleet::fleet_fits(*reg, list@),
        from <= 0x2_0000_0000,
        list@.len() <= u32::MAX,
    ensures
        final(ships)@ == old(ships)@ + line_up(*reg, list@, faction, x, from as int),
{
    let mut k: usize = 0;
    let ghost start = ships@;
    assert(start =~= start + line_up(*reg, list@, faction, x, from as int).take(0));
    while k < list.len()
        invariant
            k <= list@.len(),
            list@.len() <= u32::MAX,
            from <= 0x2_0000_0000,
            fleet::fleet_fits(*reg, list@),
            ships@ == start + line_up(*reg, list@, faction, x, from as int).take(k as int),
        decreases list@.len() - k,
    {
        assert(fleet::patrol_fits(*reg, list@[k as int]));
        let c = patrol_combatant(reg, &list[k], faction, lane_at(x, from + k as u64));
        let ghost line = line_up(*reg, list@, faction, x, from as int);
        ships.push(c);
        assert(line[k as int] == c);
        assert(ships@ =~= start + line.take(k + 1));
        k = k + 1;
    }
    assert(line_up(*reg, list@, faction, x, from as int).take(k as int) =~= line_up(
        *reg,
        list@,
        faction,
        x,
        from as int,
    ));
}

/// The ids of patrols.
fn list_ids(list: &Vec<Patrol>) -> (r: Vec<PatrolId>)
    ensures
        r@ == ids_of(list@),
{
    let mut out: Vec<PatrolId> = Vec::new();
    let mut k: usize = 0;
    while k < list.len()
        invariant
            k <= list@.len(),
            out@.len() == k,
            forall|j: int| 0 <= j < k ==> #[trigger] out@[j] == list@[j].id,
        decreases list@.len() - k,
    {
        out.push(list[k].id);
        k = k + 1;
    }
    assert(out@ =~= ids_of(list@));
    out
}

proof fn lemma_filter_fits(reg: Registry, list: Seq<Patrol>, p: spec_fn(Patrol) -> bool)
    requires
        fleet::fleet_fits(reg, list),
    ensures
        fleet::fleet_fits(reg, list.filter(p)),
        list.filter(p).len() <= list.len(),
{
    search::lemma_filter_members(list, p);
    assert forall|i: int| 0 <= i < list.filter(p).len() implies fleet::patrol_fits(
        reg,
        #[trigger] list.filter(p)[i],
    ) by {
        let k = list.index_of(list.filter(p)[i]);
        assert(fleet::patrol_fits(reg, list[k]));
    }
}

impl WorldView {
    /// Patrols of a well-formed world fit its registry.
    proof fn lemma_fleets_fit(self)
        requires
            self.wf(),
        ensures
            fleet::fleet_fits(self.registry, self.pirates),
            fleet::fleet_fits(self.registry, self.navy),
            self.pirates.len() <= u32::MAX,
            self.navy.len() <= u32::MAX,
    {
        assert forall|i: int| 0 <= i < self.pirates.len() implies fleet::patrol_fits(
            self.registry,
            #[trigger] self.pirates[i],
        ) by {
            assert(self.patrol_ok(self.pirates[i]));
        }
        assert forall|i: int| 0 <= i < self.navy.len() implies fleet::patrol_fits(
            self.registry,
            #[trigger] self.navy[i],
        ) by {
            assert(self.patrol_ok(self.navy[i]));
        }
    }
}

impl World {
    /// Live, free patrols docked at `s`, in fleet order; `busy` is how many of the
    /// running battles bind patrols.
    fn available_patrols(&self, list: &Vec<Patrol>, s: SystemId, busy: usize) -> (r: Vec<Patrol>)
        requires
            busy <= self.encounters@.len(),
        ensures
            r@ == available(list@, s, self@.encounters.take(busy as int)),
    {
        let ghost battles = self@.encounters.take(busy as int);
        let ghost p = |q: Patrol|
            q.spec_is_alive() && q.spec_docked_at() == Some(s) && !fleet::engaged(battles, q.id);
        let mut out: Vec<Patrol> = Vec::new();
        let mut i: usize = 0;
        proof {
            search::lemma_filter_none(list@, p);
        }
        while i < list.len()
            invariant
                i <= list@.len(),
                busy <= self.encounters@.len(),
                battles == self@.encounters.take(busy as int),
                p == (|q: Patrol|
                    q.spec_is_alive() && q.spec_docked_at() == Some(s) && !fleet::engaged(
                        battles,
                        q.id,
                    )),
                out@ == list@.take(i as int).filter(p),
            decreases list@.len() - i,
        {
            proof {
                search::lemma_filter_step(list@, p, i as int);
            }
            let here = match list[i].docked_at() {
                Some(at) => at == s,
                None => false,
            };
            if list[i].is_alive() && here && !self.engaged_before(busy, list[i].id) {
                out.push(list[i]);
            }
            i = i + 1;
        }
        assert(list@.take(i as int) =~= list@);
        out
    }

    /// Whether a patrol is in one of the first `busy` battles.
    fn engaged_before(&self, busy: usize, id: PatrolId) -> (b: bool)
        requires
            busy <= self.encounters@.len(),
        ensures
            b == fleet::engaged(self@.encounters.take(busy as int), id),
    {
        let ghost battles = self@.encounters.take(busy as int);
        let mut i: usize = 0;
        while i < busy
            invariant
                i <= busy <= self.encounters@.len(),
                battles == self@.encounters.take(busy as int),
                battles.len() == busy,
                forall|j: int|
                    0 <= j < i ==> !fleet::participants((#[trigger] battles[j]).kind).contains(id),
            decreases busy - i,
        {
            let ghost k = battles[i as int].kind;
            assert(k == self.encounters@[i as int].kind@);
            let found = match &self.encounters[i].kind {
                EncounterKind::Ambush { navy, pirates, .. } => {
                    proof {
                        fleet::lemma_either(navy@, pirates@, id);
                    }
                    fleet::has_patrol(navy, id) || fleet::has_patrol(pirates, id)
                },
                EncounterKind::Hunt { navy, pirates, .. } => {
                    proof {
                        fleet::lemma_either(navy@, pirates@, id);
                    }
                    fleet::has_patrol(navy, id) || fleet::has_patrol(pirates, id)
                },
            };
            assert(found == fleet::participants(k).contains(id));
            if found {
                return true;
            }
            i = i + 1;
        }
        false
    }

    /// Open a hunt at `s`, where navy and pirates are both there and free of the first
    /// `busy` battles.
    fn open_hunt(&mut self, busy: usize, s: SystemId)
        requires
            old(self)@.wf(),
            busy <= old(self).encounters@.len(),
            s.0 < old(self)@.systems(),
        ensures
            final(self)@ == hunt_opened(
                old(self)@,
                old(self)@.encounters.take(busy as int),
                s,
            ),
            final(self)@.wf(),
            final(self).encounters@.len() >= old(self).encounters@.len(),
            final(self)@.encounters.take(busy as int) == old(self)@.encounters.take(busy as int),
    {
        let ghost w = self@;
        let ghost battles = w.encounters.take(busy as int);
        let navy = self.available_patrols(&self.navy, s, busy);
        let pirates = self.available_patrols(&self.pirates, s, busy);
        if navy.len() == 0 || pirates.len() == 0 {
            return ;
        }
        proof {
            w.lemma_fleets_fit();
            let p = |q: Patrol|
                q.spec_is_alive() && q.spec_docked_at() == Some(s) && !fleet::engaged(
                    battles,
                    q.id,
                );
            lemma_filter_fits(w.registry, w.navy, p);
            lemma_filter_fits(w.registry, w.pirates, p);
        }
        let mut ships: Vec<Combatant> = Vec::new();
        push_line(&mut ships, &self.registry, &navy, 0, 0, 0);
        let pirates_offset = ships.len();
        push_line(&mut ships, &self.registry, &pirates, 1, bits::of_whole(30), 0);
        let seed = self.rng.next_u64();
        let battle = ActiveEncounter {
            encounter: Encounter::new(ships),
            rng: DetRng::from_seed(seed),
            steps: 0,
            kind: EncounterKind::Hunt {
                sys: s,
                navy: list_ids(&navy),
                pirates: list_ids(&pirates),
                pirates_offset,
            },
        };
        self.encounters.push(battle);
        proof {
            let v = self@;
            assert(v.encounters =~= w.encounters.push(battle@));
            assert(battle@.combatants =~= line_up(w.registry, navy@, 0, 0, 0) + line_up(
                w.registry,
                pirates@,
                1,
                far_side(),
                0,
            ));
            assert(v =~= hunt_opened(w, battles, s));
            assert(v.encounters.take(busy as int) =~= battles);
            assert(v.encounter_ok(battle@));
            assert forall|i: int| 0 <= i < v.encounters.len() implies v.encounter_ok(
                #[trigger] v.encounters[i],
            ) by {
                if i < w.encounters.len() {
                    assert(w.encounter_ok(w.encounters[i]));
                }
            }
        }
    }

    /// Open a battle at each system where navy and pirates share a dock and are not
    /// already fighting.
    fn navy_hunt_pirates(&mut self)
        requires
            old(self)@.wf(),
        ensures
            final(self)@ == hunts_opened(old(self)@, old(self)@.systems() as int),
            final(self)@.wf(),
    {
        let busy = self.encounters.len();
        let n = self.registry.system_count();
        let ghost w = self@;
        let mut i: usize = 0;
        assert(w.encounters.take(busy as int) =~= w.encounters);
        while i < n
            invariant
                i <= n,
                n == w.systems(),
                n <= u32::MAX,
                self@.wf(),
                self@.systems() == n,
                busy <= self.encounters@.len(),
                self@.encounters.take(busy as int) == w.encounters,
                self@ == hunts_opened(w, i as int),
            decreases n - i,
        {
            self.open_hunt(busy, SystemId(i as u32));
            i = i + 1;
        }
    }

    /// Fund and move the navy, then let it hunt.
    pub(crate) fn navy_phase(&mut self, shields: &Vec<Bits>)
        requires
            old(self)@.wf(),
        ensures
            final(self)@ == navy_run(old(self)@, shields@),
            final(self)@.wf(),
    {
        let rt = match self.navy_runtime {
            Some(rt) => rt,
            None => {
                return ;
            },
        };
        let ghost w = self@;
        let count = self.navy.len() as i128;
        assert(-0x1_0000_0000_0000_0000 * 0x1_0000_0000 <= rt.upkeep * w.navy.len()
            <= 0x1_0000_0000_0000_0000 * 0x1_0000_0000) by (nonlinear_arith)
            requires
                -0x1_0000_0000_0000_0000 <= rt.upkeep <= 0x1_0000_0000_0000_0000,
                0 <= w.navy.len() <= 0x1_0000_0000,
        ;
        let cost: i128 = (rt.upkeep as i128) * count;
        self.treasury = money::wrap(self.treasury as i128 + rt.funding as i128 - cost);
        self.piracy_stats.navy_upkeep = money::wrap(self.piracy_stats.navy_upkeep as i128 + cost);
        let can_reinforce = self.treasury >= 0;
        let ghost f = self@;
        assert(f =~= navy_funded(w, rt.funding, rt.upkeep));
        let mut list: Vec<Patrol> = Vec::new();
        std::mem::swap(&mut list, &mut self.navy);
        let ghost bare = self@;
        proof {
            assert(bare =~= (WorldView { navy: Seq::empty(), ..f }));
            w.lemma_fleets_fit();
            fleet::lemma_fleet_run_frame(
                f,
                bare,
                list@,
                rt.navy_ship,
                rt.fleet_size,
                rt.reinforce_interval,
                shields@,
                can_reinforce,
            );
        }
        let moved = self.advance_fleet(
            &list,
            rt.navy_ship,
            rt.fleet_size,
            rt.reinforce_interval,
            shields,
            can_reinforce,
        );
        self.navy = moved;
        assert(self@ =~= navy_moved(w, shields@));
        proof {
            let v = self@;
            assert forall|i: int| 0 <= i < v.navy.len() implies v.patrol_ok(
                #[trigger] v.navy[i],
            ) by {
                assert(fleet::patrol_fits(w.registry, moved@[i]));
            }
            assert forall|i: int| 0 <= i < v.traders.len() implies v.trader_ok(
                #[trigger] v.traders[i],
            ) by {
                assert(w.trader_ok(w.traders[i]));
            }
            assert forall|i: int| 0 <= i < v.encounters.len() implies v.encounter_ok(
                #[trigger] v.encounters[i],
            ) by {
                assert(w.encounter_ok(w.encounters[i]));
            }
            assert(v.wf());
        }
        self.navy_hunt_pirates();
    }
}

impl World {
    /// Whether a trader is currently in a running battle.
    pub(crate) fn trader_engaged(&self, id: TraderId) -> (b: bool)
        ensures
            b == trader_engaged(self@.encounters, id),
    {
        let ghost battles = self@.encounters;
        let mut i: usize = 0;
        while i < self.encounters.len()
            invariant
                i <= self.encounters@.len(),
                battles == self@.encounters,
                battles.len() == self.encounters@.len(),
                forall|j: int| 0 <= j < i ==> !ambushes((#[trigger] battles[j]).kind, id),
            decreases self.encounters@.len() - i,
        {
            assert(battles[i as int].kind == self.encounters@[i as int].kind@);
            let found = match &self.encounters[i].kind {
                EncounterKind::Ambush { trader, .. } => *trader == id,
                EncounterKind::Hunt { .. } => false,
            };
            assert(found == ambushes(battles[i as int].kind, id));
            if found {
                return true;
            }
            i = i + 1;
        }
        false
    }

    /// How many live pirates are docked at `s`.
    fn lurking_at(&self, s: SystemId) -> (n: usize)
        ensures
            n == lurking(self@.pirates, s).len(),
    {
        let ghost p = |q: Patrol| q.spec_is_alive() && q.spec_docked_at() == Some(s);
        let mut n: usize = 0;
        let mut i: usize = 0;
        proof {
            search::lemma_filter_none(self.pirates@, p);
        }
        while i < self.pirates.len()
            invariant
                i <= self.pirates@.len(),
                n <= i,
                p == (|q: Patrol| q.spec_is_alive() && q.spec_docked_at() == Some(s)),
                n == self.pirates@.take(i as int).filter(p).len(),
            decreases self.pirates@.len() - i,
        {
            proof {
                search::lemma_filter_step(self.pirates@, p, i as int);
            }
            let here = match self.pirates[i].docked_at() {
                Some(at) => at == s,
                None => false,
            };
            if self.pirates[i].is_alive() && here {
                n = n + 1;
            }
            i = i + 1;
        }
        assert(self.pirates@.take(i as int) =~= self.pirates@);
        n
    }

    /// The trader at slot `t` and its escorts, lined up.
    fn convoy_of(&self, t: usize) -> (ships: Vec<Combatant>)
        requires
            self@.wf(),
            t < self.traders@.len(),
        ensures
            ships@ == convoy(self@, self@.traders[t as int]),
            1 <= ships@.len() <= 0x1_0000_0000,
    {
        let ghost w = self@;
        let mut ships: Vec<Combatant> = Vec::new();
        let ship = self.traders[t].ship;
        assert(w.trader_ok(w.traders[t as int]));
        let def = self.registry.ship(ship);
        ships.push(
            Combatant::new(ship, 0, def.stats(), def.hull, def.max_speed, lane_at(0, 0)),
        );
        let ghost lead = ships@;
        match self.escort {
            None => {
                assert(ships@ =~= convoy(w, w.traders[t as int]));
            },
            Some(e) => {
                let edef = self.registry.ship(e.escort_ship);
                let mut k: u32 = 0;
                while k < e.count
                    invariant
                        k <= e.count,
                        w == self@,
                        w.escort == Some(e),
                        *edef == w.registry.spec_ships()[e.escort_ship.0 as int],
                        lead.len() == 1,
                        ships@.len() == k + 1,
                        ships@[0] == lead[0],
                        forall|j: int|
                            1 <= j <= k ==> #[trigger] ships@[j] == Combatant::spec_new(
                                e.escort_ship,
                                0,
                                edef.spec_stats(),
                                edef.hull,
                                edef.max_speed,
                                lane(0, j),
                            ),
                    decreases e.count - k,
                {
                    ships.push(
                        Combatant::new(
                            e.escort_ship,
                            0,
                            edef.stats(),
                            edef.hull,
                            edef.max_speed,
                            lane_at(0, k as u64 + 1),
                        ),
                    );
                    k = k + 1;
                }
                assert(ships@ =~= convoy(w, w.traders[t as int]));
            },
        }
        ships
    }

    /// Open a running ambush on the trader at slot `t`, bound for `dest`.
    fn create_ambush(&mut self, t: usize, dest: SystemId)
        requires
            old(self)@.wf(),
            old(self)@.piracy is Some,
            t < old(self).traders@.len(),
            dest.0 < old(self)@.systems(),
        ensures
            final(self)@ == ambush_opened(old(self)@, t as int, dest),
            final(self)@.wf(),
            final(self).traders@.len() == old(self).traders@.len(),
    {
        let ghost w = self@;
        let rt = match self.piracy {
            Some(rt) => rt,
            None => {
                return ;
            },
        };
        let busy = self.encounters.len();
        assert(w.encounters.take(busy as int) =~= w.encounters);
        let mut pirates = self.available_patrols(&self.pirates, dest, busy);
        let ghost all = pirates@;
        if pirates.len() as u64 > rt.max_pirates as u64 {
            pirates.truncate(rt.max_pirates as usize);
        }
        assert(pirates@ =~= (if all.len() <= rt.max_pirates {
            all
        } else {
            all.take(rt.max_pirates as int)
        }));
        if pirates.len() == 0 {
            return ;
        }
        let navy = self.available_patrols(&self.navy, dest, busy);
        proof {
            w.lemma_fleets_fit();
            let p = |q: Patrol|
                q.spec_is_alive() && q.spec_docked_at() == Some(dest) && !fleet::engaged(
                    w.encounters,
                    q.id,
                );
            lemma_filter_fits(w.registry, w.navy, p);
            lemma_filter_fits(w.registry, w.pirates, p);
            assert forall|i: int| 0 <= i < pirates@.len() implies fleet::patrol_fits(
                w.registry,
                #[trigger] pirates@[i],
            ) by {
                assert(fleet::patrol_fits(w.registry, all[i]));
            }
        }
        let mut ships = self.convoy_of(t);
        let navy_offset = ships.len();
        push_line(&mut ships, &self.registry, &navy, 0, 0, navy_offset as u64);
        let pirate_offset = ships.len();
        push_line(&mut ships, &self.registry, &pirates, 1, bits::of_whole(30), 0);
        self.piracy_stats.ambushes = self.piracy_stats.ambushes.wrapping_add(1);
        let seed = self.rng.next_u64();
        let battle = ActiveEncounter {
            encounter: Encounter::new(ships),
            rng: DetRng::from_seed(seed),
            steps: 0,
            kind: EncounterKind::Ambush {
                trader: self.traders[t].id,
                dest,
                navy: list_ids(&navy),
                pirates: list_ids(&pirates),
                navy_offset,
                pirate_offset,
                respawn_delay: rt.respawn_delay,
                bounty: rt.bounty,
            },
        };
        self.encounters.push(battle);
        proof {
            let v = self@;
            assert(v.encounters =~= w.encounters.push(battle@));
            assert(v =~= ambush_opened(w, t as int, dest));
            assert(v.encounter_ok(battle@));
            assert forall|i: int| 0 <= i < v.encounters.len() implies v.encounter_ok(
                #[trigger] v.encounters[i],
            ) by {
                if i < w.encounters.len() {
                    assert(w.encounter_ok(w.encounters[i]));
                }
            }
            assert forall|i: int| 0 <= i < v.traders.len() implies v.trader_ok(
                #[trigger] v.traders[i],
            ) by {
                assert(w.trader_ok(w.traders[i]));
            }
        }
    }

    /// Let the trader at slot `t` run the gauntlet.
    fn run_gauntlet(&mut self, t: usize)
        requires
            old(self)@.wf(),
            old(self)@.piracy is Some,
            t < old(self).traders@.len(),
        ensures
            final(self)@ == gauntlet(old(self)@, t as int),
            final(self)@.wf(),
            final(self).traders@.len() == old(self).traders@.len(),
            final(self)@.piracy == old(self)@.piracy,
    {
        let ghost w = self@;
        assert(w.trader_ok(w.traders[t as int]));
        let dest = match self.traders[t].location {
            TraderLocation::InTransit { dest, .. } => dest,
            _ => {
                return ;
            },
        };
        // Pirates prey on cargo; an empty trader is ignored.
        if self.traders[t].cargo.is_empty() {
            return ;
        }
        if self.trader_engaged(self.traders[t].id) {
            return ;
        }
        let present = self.lurking_at(dest);
        if present == 0 {
            return ;
        }
        let roll = self.rng.unit();
        assert(self@ =~= (WorldView { rng: w.rng.after_next(), ..w }));
        if roll < self.tables.ambush(present) {
            self.create_ambush(t, dest);
        }
    }

    /// Pirates ambush laden traders bound for where they lurk.
    pub(crate) fn piracy_phase(&mut self)
        requires
            old(self)@.wf(),
        ensures
            final(self)@ == piracy_run(old(self)@),
            final(self)@.wf(),
    {
        if self.piracy.is_none() {
            return ;
        }
        let ghost w = self@;
        let n = self.traders.len();
        let mut t: usize = 0;
        while t < n
            invariant
                t <= n,
                n == self.traders@.len(),
                self@.wf(),
                self@.piracy is Some,
                self@ == gauntlets(w, t as int),
            decreases n - t,
        {
            self.run_gauntlet(t);
            t = t + 1;
        }
    }
}

/// Writing back changes only hull and shield.
proof fn lemma_written_back(
    list: Seq<Patrol>,
    ids: Seq<PatrolId>,
    ships: Seq<Combatant>,
    offset: int,
    n: int,
)
    ensures
        written_back(list, ids, ships, offset, n).len() == list.len(),
        forall|i: int| #![trigger written_back(list, ids, ships, offset, n)[i]]
            0 <= i < list.len() ==> {
                let p = written_back(list, ids, ships, offset, n)[i];
                p.ship == list[i].ship && p.location == list[i].location
            },
    decreases n,
{
    if n > 0 {
        lemma_written_back(list, ids, ships, offset, n - 1);
        let done = written_back(list, ids, ships, offset, n - 1);
        match commands::patrol_slot(done, ids[n - 1]) {
            None => {},
            Some(i) => {
                search::lemma_first_found(done, |p: Patrol| p.id == ids[n - 1]);
            },
        }
    }
}

/// Write the state of the ships from `offset` on back to the patrols with these ids;
/// returns how many of them are dead.
fn write_back(
    list: &mut Vec<Patrol>,
    ids: &Vec<PatrolId>,
    ships: &Vec<Combatant>,
    offset: usize,
) -> (dead: u64)
    requires
        offset + ids@.len() <= ships@.len(),
    ensures
        final(list)@ == written_back(
            old(list)@,
            ids@,
            ships@,
            offset as int,
            ids@.len() as int,
        ),
        dead == fallen(ships@, offset as int, ids@.len() as int),
{
    let ghost start = list@;
    let total = ships.len();
    let mut dead: u64 = 0;
    let mut k: usize = 0;
    while k < ids.len()
        invariant
            k <= ids@.len(),
            total == ships@.len(),
            offset + ids@.len() <= ships@.len(),
            list@ == written_back(start, ids@, ships@, offset as int, k as int),
            dead == fallen(ships@, offset as int, k as int),
            dead <= k,
        decreases ids@.len() - k,
    {
        let c = ships[offset + k];
        match commands::patrol_index(list, ids[k]) {
            None => {},
            Some(i) => {
                let p = Patrol { hull: c.hull, shield: c.shield, ..list[i] };
                list.set(i, p);
            },
        }
        if !c.alive {
            dead = dead + 1;
        }
        k = k + 1;
    }
    dead
}

/// Drop the dead from a fleet.
fn cull(list: &mut Vec<Patrol>)
    ensures
        final(list)@ == old(list)@.filter(living()),
{
    let mut kept: Vec<Patrol> = Vec::new();
    let mut i: usize = 0;
    proof {
        search::lemma_filter_none(list@, living());
    }
    while i < list.len()
        invariant
            i <= list@.len(),
            kept@ == list@.take(i as int).filter(living()),
        decreases list@.len() - i,
    {
        proof {
            search::lemma_filter_step(list@, living(), i as int);
        }
        if list[i].is_alive() {
            kept.push(list[i]);
        }
        i = i + 1;
    }
    assert(list@.take(i as int) =~= list@);
    *list = kept;
}

/// A fleet that has fought keeps to lawless space and does not grow.
proof fn lemma_culled(
    w: WorldView,
    list: Seq<Patrol>,
    ids: Seq<PatrolId>,
    ships: Seq<Combatant>,
    offset: int,
    n: int,
)
    requires
        forall|i: int| 0 <= i < list.len() ==> w.patrol_ok(#[trigger] list[i]),
    ensures
        written_back(list, ids, ships, offset, n).filter(living()).len() <= list.len(),
        forall|i: int| #![trigger written_back(list, ids, ships, offset, n).filter(living())[i]]
            0 <= i < written_back(list, ids, ships, offset, n).filter(living()).len()
                ==> w.patrol_ok(written_back(list, ids, ships, offset, n).filter(living())[i]),
{
    let done = written_back(list, ids, ships, offset, n);
    lemma_written_back(list, ids, ships, offset, n);
    search::lemma_filter_members(done, living());
    assert forall|i: int| #![trigger done.filter(living())[i]] 0 <= i < done.filter(
        living(),
    ).len() implies w.patrol_ok(done.filter(living())[i]) by {
        let k = done.index_of(done.filter(living())[i]);
        assert(w.patrol_ok(list[k]));
    }
}

impl World {
    /// Write both fleets back, tally nothing yet, and cull the dead; returns how many
    /// of the navy and of the pirates fell.
    fn settle_fleets(
        &mut self,
        ships: &Vec<Combatant>,
        navy: &Vec<PatrolId>,
        navy_offset: usize,
        pirates: &Vec<PatrolId>,
        pirate_offset: usize,
    ) -> (r: (u64, u64))
        requires
            old(self)@.wf(),
            navy_offset + navy@.len() <= ships@.len(),
            pirate_offset + pirates@.len() <= ships@.len(),
        ensures
            r.0 == fallen(ships@, navy_offset as int, navy@.len() as int),
            r.1 == fallen(ships@, pirate_offset as int, pirates@.len() as int),
            final(self)@ == (WorldView {
                navy: written_back(
                    old(self)@.navy,
                    navy@,
                    ships@,
                    navy_offset as int,
                    navy@.len() as int,
                ).filter(living()),
                pirates: written_back(
                    old(self)@.pirates,
                    pirates@,
                    ships@,
                    pirate_offset as int,
                    pirates@.len() as int,
                ).filter(living()),
                ..old(self)@
            }),
            final(self)@.wf(),
    {
        let ghost w = self@;
        let down = write_back(&mut self.navy, navy, ships, navy_offset);
        let killed = write_back(&mut self.pirates, pirates, ships, pirate_offset);
        cull(&mut self.navy);
        cull(&mut self.pirates);
        proof {
            let v = self@;
            lemma_culled(w, w.navy, navy@, ships@, navy_offset as int, navy@.len() as int);
            lemma_culled(
                w,
                w.pirates,
                pirates@,
                ships@,
                pirate_offset as int,
                pirates@.len() as int,
            );
            assert(v.markets == w.markets && v.traders == w.traders && v.encounters
                == w.encounters && v.registry == w.registry);
            assert forall|i: int| 0 <= i < v.navy.len() implies v.patrol_ok(
                #[trigger] v.navy[i],
            ) by {
                assert(w.patrol_ok(v.navy[i]));
            }
            assert forall|i: int| 0 <= i < v.pirates.len() implies v.patrol_ok(
                #[trigger] v.pirates[i],
            ) by {
                assert(w.patrol_ok(v.pirates[i]));
            }
            assert forall|i: int| 0 <= i < v.traders.len() implies v.trader_ok(
                #[trigger] v.traders[i],
            ) by {
                assert(w.trader_ok(w.traders[i]));
            }
            assert forall|i: int| 0 <= i < v.encounters.len() implies v.encounter_ok(
                #[trigger] v.encounters[i],
            ) by {
                assert(w.encounter_ok(w.encounters[i]));
            }
        }
        (down, killed)
    }

    /// Apply a finished hunt.
    fn complete_hunt(
        &mut self,
        ships: &Vec<Combatant>,
        sys: SystemId,
        navy: &Vec<PatrolId>,
        pirates: &Vec<PatrolId>,
        offset: usize,
    )
        requires
            old(self)@.wf(),
            sys.0 < old(self)@.systems(),
            navy@.len() <= ships@.len(),
            offset + pirates@.len() <= ships@.len(),
        ensures
            final(self)@ == hunt_closed(
                old(self)@,
                ships@,
                sys,
                navy@,
                pirates@,
                offset as int,
            ),
            final(self)@.wf(),
            final(self)@.registry == old(self)@.registry,
    {
        let (down, killed) = self.settle_fleets(ships, navy, 0, pirates, offset);
        self.piracy_stats.navy_lost = self.piracy_stats.navy_lost.wrapping_add(down);
        self.piracy_stats.pirates_suppressed = self.piracy_stats.pirates_suppressed.wrapping_add(
            killed,
        );
        if killed > 0 || down > 0 {
            let msg = messages::hunted_text(
                self.registry.system(sys).name.as_str(),
                killed,
                down,
            );
            self.log_event(EventCategory::Navy, Some(sys), msg);
        }
    }

    /// The trader at slot `t` survived its ambush: it collects a bounty per kill, and
    /// the bounty contracts it holds are credited.
    fn reward_survivor(
        &mut self,
        t: usize,
        trader: TraderId,
        dest: SystemId,
        pirates: usize,
        kills: u64,
        bounty: Money,
    )
        requires
            old(self)@.wf(),
            t < old(self).traders@.len(),
            dest.0 < old(self)@.systems(),
        ensures
            final(self)@ == ambush_survived(
                old(self)@,
                t as int,
                trader,
                dest,
                pirates as nat,
                kills as nat,
                bounty,
            ),
            final(self)@.wf(),
            final(self)@.registry == old(self)@.registry,
    {
        let ghost w = self@;
        assert(-0x8000_0000_0000_0000_0000_0000_0000_0000 <= bounty * kills
            <= 0x7fff_ffff_ffff_ffff_ffff_ffff_ffff_ffff) by (nonlinear_arith)
            requires
                -0x8000_0000_0000_0000 <= bounty <= 0x7fff_ffff_ffff_ffff,
                0 <= kills <= 0xffff_ffff_ffff_ffff,
        ;
        let reward = money::wrap(bounty as i128 * kills as i128);
        let capital = money::credit(self.traders[t].capital, reward);
        self.traders[t].capital = capital;
        self.piracy_stats.bounties_paid = money::credit(self.piracy_stats.bounties_paid, reward);
        let ghost v0 = self@;
        assert(v0.traders =~= w.traders.update(
            t as int,
            TraderView { capital: money::wrapped(w.traders[t as int].capital + reward), ..w.traders[
                t as int] },
        ));
        proof {
            assert forall|i: int| 0 <= i < v0.traders.len() implies v0.trader_ok(
                #[trigger] v0.traders[i],
            ) by {
                assert(w.trader_ok(w.traders[i]));
            }
            assert forall|i: int| 0 <= i < v0.encounters.len() implies v0.encounter_ok(
                #[trigger] v0.encounters[i],
            ) by {
                assert(w.encounter_ok(w.encounters[i]));
            }
            assert(v0.wf());
        }
        let met = if kills > 0 {
            self.credit_bounties(trader, kills)
        } else {
            Vec::new()
        };
        let msg = messages::ambush_won_text(
            self.registry.system(dest).name.as_str(),
            trader,
            pirates as u64,
            kills,
            reward,
        );
        let ghost v1 = self@;
        assert(v1.contracts == (if kills > 0 {
            commands::board_credited(w.contracts, trader, kills as int)
        } else {
            w.contracts
        }));
        assert(v1 =~= (WorldView { contracts: v1.contracts, ..v0 }));
        self.log_event(EventCategory::Combat, Some(dest), msg);
        assert(self@.wf());
        self.log_quotas(&met, trader, Some(dest), "; claim at its station");
        proof {
            let spec_met = if kills > 0 {
                w.contracts.filter(|c: Contract| commands::quota_met(c, trader, kills as int))
            } else {
                Seq::empty()
            };
            assert(met@ =~= spec_met);
            lemma_quotas_keep(
                self@,
                v1.log(
                    EventCategory::Combat,
                    Some(dest),
                    msg@,
                ),
                met@,
                met@.len() as int,
                trader,
                Some(dest),
                "; claim at its station"@,
            );
        }
    }

    /// Apply a finished ambush.
    fn complete_ambush(
        &mut self,
        ships: &Vec<Combatant>,
        trader: TraderId,
        dest: SystemId,
        navy: &Vec<PatrolId>,
        pirates: &Vec<PatrolId>,
        navy_offset: usize,
        pirate_offset: usize,
        respawn_delay: u64,
        bounty: Money,
    )
        requires
            old(self)@.wf(),
            dest.0 < old(self)@.systems(),
            1 <= navy_offset,
            navy_offset + navy@.len() <= ships@.len(),
            pirate_offset + pirates@.len() <= ships@.len(),
        ensures
            final(self)@ == ambush_closed(
                old(self)@,
                ships@,
                trader,
                dest,
                navy@,
                pirates@,
                navy_offset as int,
                pirate_offset as int,
                respawn_delay,
                bounty,
            ),
            final(self)@.wf(),
            final(self)@.registry == old(self)@.registry,
    {
        let (down, kills) = self.settle_fleets(ships, navy, navy_offset, pirates, pirate_offset);
        self.piracy_stats.navy_lost = self.piracy_stats.navy_lost.wrapping_add(down);
        self.piracy_stats.pirates_destroyed = self.piracy_stats.pirates_destroyed.wrapping_add(
            kills,
        );
        // The trader may have been despawned mid-fight.
        let t = match self.trader_index(trader) {
            Some(t) => t,
            None => {
                return ;
            },
        };
        if ships[0].alive {
            self.reward_survivor(t, trader, dest, pirates.len(), kills, bounty);
        } else {
            self.lose_trader(t, respawn_delay);
            let msg = messages::ambush_lost_text(
                self.registry.system(dest).name.as_str(),
                trader,
            );
            self.log_event(EventCategory::Piracy, Some(dest), msg);
            self.pay_insurance(t, trader, Some(dest));
        }
    }
}

/// Logging quotas changes nothing but the log.
proof fn lemma_quotas_keep(
    v: WorldView,
    w: WorldView,
    met: Seq<Contract>,
    n: int,
    trader: TraderId,
    at: Option<SystemId>,
    ending: Seq<char>,
)
    requires
        v == commands::quotas_logged(w, met, n, trader, at, ending),
    ensures
        v.registry == w.registry,
    decreases n,
{
    if n > 0 {
        lemma_quotas_keep(
            commands::quotas_logged(w, met, n - 1, trader, at, ending),
            w,
            met,
            n - 1,
            trader,
            at,
            ending,
        );
    }
}

/// Whether a battle is over.
fn decided(ae: &ActiveEncounter) -> (b: bool)
    ensures
        b == is_over(ae@),
{
    let o = ae.encounter.outcome();
    let ghost ships = ae.encounter.combatants@;
    assert(o != Outcome::Ongoing ==> !encounter::standing(ships, Outcome::Ongoing));
    match o {
        Outcome::Ongoing => ae.steps >= MAX_COMBAT_STEPS,
        _ => true,
    }
}

/// The steps a battle that has run `steps` advances this tick.
pub fn step_budget(steps: u64) -> (n: u64)
    ensures
        n == budget(steps),
{
    if steps >= MAX_COMBAT_STEPS {
        0
    } else if MAX_COMBAT_STEPS - steps < COMBAT_STEPS_PER_TICK {
        MAX_COMBAT_STEPS - steps
    } else {
        COMBAT_STEPS_PER_TICK
    }
}

impl World {
    /// Apply the outcome of a finished battle.
    fn complete(&mut self, ae: &ActiveEncounter)
        requires
            old(self)@.wf(),
            old(self)@.encounter_ok(ae@),
        ensures
            final(self)@ == battle_closed(old(self)@, ae@),
            final(self)@.wf(),
            final(self)@.registry == old(self)@.registry,
    {
        match &ae.kind {
            EncounterKind::Ambush {
                trader,
                dest,
                navy,
                pirates,
                navy_offset,
                pirate_offset,
                respawn_delay,
                bounty,
            } => {
                self.complete_ambush(
                    ae.encounter.combatants(),
                    *trader,
                    *dest,
                    navy,
                    pirates,
                    *navy_offset,
                    *pirate_offset,
                    *respawn_delay,
                    *bounty,
                );
            },
            EncounterKind::Hunt { sys, navy, pirates, pirates_offset } => {
                self.complete_hunt(
                    ae.encounter.combatants(),
                    *sys,
                    navy,
                    pirates,
                    *pirates_offset,
                );
            },
        }
    }

    /// Advance every running battle to what its steps of this tick came to, and apply
    /// the outcome of those that are over.
    pub(crate) fn combat_phase(&mut self, results: Vec<Fought>)
        requires
            old(self)@.wf(),
            matches_battles(old(self)@.encounters, results@),
        ensures
            final(self)@ == combat_run(old(self)@, results@),
            final(self)@.wf(),
    {
        let ghost w = self@;
        let ghost given = results@;
        let ghost list = all_fought(w.encounters, given);
        let ghost over = |e: ActiveView| is_over(e);
        let ghost open = |e: ActiveView| !is_over(e);
        let ghost before = self.encounters@;
        let mut results = results;
        let mut battles: Vec<ActiveEncounter> = Vec::new();
        std::mem::swap(&mut battles, &mut self.encounters);
        let mut rest: Vec<ActiveEncounter> = Vec::new();
        let mut done: Vec<ActiveEncounter> = Vec::new();
        let ghost mut k: int = 0;
        proof {
            search::lemma_filter_none(list, over);
            search::lemma_filter_none(list, open);
            assert(world::active_views(rest@) =~= Seq::<ActiveView>::empty());
            assert(world::active_views(done@) =~= Seq::<ActiveView>::empty());
            assert(before.skip(0) =~= before);
            assert(given.skip(0) =~= given);
        }
        while battles.len() > 0
            invariant
                0 <= k <= before.len(),
                w.encounters == world::active_views(before),
                given.len() == before.len(),
                list == all_fought(w.encounters, given),
                over == (|e: ActiveView| is_over(e)),
                open == (|e: ActiveView| !is_over(e)),
                battles@ == before.skip(k),
                results@ == given.skip(k),
                world::active_views(rest@) == list.take(k).filter(open),
                world::active_views(done@) == list.take(k).filter(over),
            decreases battles@.len(),
        {
            proof {
                search::lemma_filter_step(list, over, k);
                search::lemma_filter_step(list, open, k);
            }
            let ae = battles.remove(0);
            let f = results.remove(0);
            assert(ae == before[k]);
            assert(f == given[k]);
            let steps = ae.steps.wrapping_add(step_budget(ae.steps));
            let next = ActiveEncounter {
                encounter: Encounter::new(f.combatants),
                rng: f.rng,
                steps,
                kind: ae.kind,
            };
            assert(next@ =~= list[k]);
            let ghost rest0 = rest@;
            let ghost done0 = done@;
            if decided(&next) {
                done.push(next);
                assert(world::active_views(done@) =~= world::active_views(done0).push(next@));
            } else {
                rest.push(next);
                assert(world::active_views(rest@) =~= world::active_views(rest0).push(next@));
            }
            proof {
                k = k + 1;
                assert(battles@ =~= before.skip(k));
                assert(results@ =~= given.skip(k));
            }
        }
        assert(list.take(k) =~= list);
        self.encounters = rest;
        let ghost base = self@;
        let ghost finished = list.filter(over);
        proof {
            assert(base =~= (WorldView { encounters: list.filter(open), ..w }));
            assert forall|i: int| 0 <= i < list.len() implies w.encounter_ok(#[trigger] list[i]) by {
                assert(w.encounter_ok(w.encounters[i]));
                assert(given[i].combatants@.len() == w.encounters[i].combatants.len());
            }
            search::lemma_filter_members(list, over);
            search::lemma_filter_members(list, open);
            assert forall|i: int| 0 <= i < finished.len() implies w.encounter_ok(
                #[trigger] finished[i],
            ) by {
                let j = list.index_of(finished[i]);
                assert(w.encounter_ok(list[j]));
            }
            assert forall|i: int| 0 <= i < base.encounters.len() implies base.encounter_ok(
                #[trigger] base.encounters[i],
            ) by {
                let j = list.index_of(list.filter(open)[i]);
                assert(w.encounter_ok(list[j]));
            }
            assert forall|i: int| 0 <= i < base.traders.len() implies base.trader_ok(
                #[trigger] base.traders[i],
            ) by {
                assert(w.trader_ok(w.traders[i]));
            }
            assert(base.wf());
        }
        let mut i: usize = 0;
        while i < done.len()
            invariant
                i <= done@.len(),
                world::active_views(done@) == finished,
                forall|j: int| 0 <= j < finished.len() ==> w.encounter_ok(#[trigger] finished[j]),
                self@.wf(),
                self@.registry == w.registry,
                self@ == battles_closed(base, finished, i as int),
            decreases done@.len() - i,
        {
            assert(done@[i as int]@ == finished[i as int]);
            assert(w.encounter_ok(finished[i as int]));
            self.complete(&done[i]);
            i = i + 1;
        }
    }
}

} // verus!
