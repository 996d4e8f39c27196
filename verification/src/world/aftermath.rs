//! What battles come to, told by what can be seen before and after them: who has fallen,
//! what is left of the others, and what is paid for it.

use vstd::prelude::*;

use crate::bits;
use crate::bits::Bits;
use crate::contract::Contract;
use crate::encounter;
use crate::encounter::{Combatant, Outcome};
use crate::event::EventCategory;
use crate::ids::{Money, PatrolId, SystemId, TraderId};
use crate::money;
use crate::patrol::{Patrol, PatrolLocation};
use crate::search;
use crate::trader::TraderView;
use crate::world::battle;
use crate::world::battle::Fought;
use crate::world::commands;
use crate::world::dealings;
use crate::world::dealings::{
    lemma_balances_wrap, lemma_board_counted, lemma_counter_turns, lemma_loss_settled,
    lemma_stands_by_way_of,
};
use crate::world::fleet;
use crate::world::identity;
use crate::world::messages;
use crate::world::{ActiveView, KindView, PiracyStats, WorldView};

verus! {

/// How many of the `n` ships from `offset` on do not live any more.
pub open spec fn dead(ships: Seq<Combatant>, offset: int, n: int) -> nat {
    ships.subrange(offset, offset + n).filter(|c: Combatant| !c.alive).len()
}

/// The kills of a battle are the ships of that side that do not live any more, each
/// counted once: none where all live, and all of them where none does.
pub proof fn lemma_the_fallen_are_counted(ships: Seq<Combatant>, offset: int, n: int)
    requires
        0 <= offset,
        0 <= n,
        offset + n <= ships.len(),
    ensures
        battle::fallen(ships, offset, n) == dead(ships, offset, n),
        battle::fallen(ships, offset, n) <= n,
        (forall|k: int| offset <= k < offset + n ==> !(#[trigger] ships[k]).alive)
            <==> battle::fallen(ships, offset, n) == n,
        (forall|k: int| offset <= k < offset + n ==> (#[trigger] ships[k]).alive)
            <==> battle::fallen(ships, offset, n) == 0,
    decreases n,
{
    let p = |c: Combatant| !c.alive;
    let side = ships.subrange(offset, offset + n);
    reveal(Seq::filter);
    if n > 0 {
        lemma_the_fallen_are_counted(ships, offset, n - 1);
        assert(side.drop_last() =~= ships.subrange(offset, offset + n - 1));
        assert(side.last() == ships[offset + n - 1]);
    } else {
        assert(side =~= Seq::<Combatant>::empty());
    }
}

/// Whether no id is borne twice.
pub open spec fn all_different(ids: Seq<PatrolId>) -> bool {
    forall|i: int, j: int|
        0 <= i < j < ids.len() ==> #[trigger] ids[i] != #[trigger] ids[j]
}

/// Whether the patrols of a fleet bear different ids.
pub open spec fn fleet_different(fleet: Seq<Patrol>) -> bool {
    forall|i: int, j: int|
        0 <= i < j < fleet.len() ==> (#[trigger] fleet[i]).id != (#[trigger] fleet[j]).id
}

/// Whether `after` is patrol `before` with the hull and shield that its ship has left: that
/// is the one in the place of its id, from `offset` on. One that did not fight is as it was.
pub open spec fn worn(
    before: Patrol,
    after: Patrol,
    ids: Seq<PatrolId>,
    ships: Seq<Combatant>,
    offset: int,
) -> bool {
    &&& after == (Patrol { hull: after.hull, shield: after.shield, ..before })
    &&& forall|k: int|
        0 <= k < ids.len() && #[trigger] ids[k] == before.id ==> after.hull == ships[offset
            + k].hull && after.shield == ships[offset + k].shield
    &&& (forall|k: int| 0 <= k < ids.len() ==> #[trigger] ids[k] != before.id) ==> after == before
}

/// Whether a whole fleet is worn as its ships are.
pub open spec fn fleet_worn(
    before: Seq<Patrol>,
    after: Seq<Patrol>,
    ids: Seq<PatrolId>,
    ships: Seq<Combatant>,
    offset: int,
) -> bool {
    &&& after.len() == before.len()
    &&& forall|j: int|
        0 <= j < before.len() ==> worn(before[j], #[trigger] after[j], ids, ships, offset)
}

proof fn lemma_written_back(
    fleet: Seq<Patrol>,
    ids: Seq<PatrolId>,
    ships: Seq<Combatant>,
    offset: int,
    n: int,
)
    requires
        fleet_different(fleet),
        all_different(ids),
        0 <= n <= ids.len(),
    ensures
        fleet_worn(
            fleet,
            battle::written_back(fleet, ids, ships, offset, n),
            ids.take(n),
            ships,
            offset,
        ),
    decreases n,
{
    if n > 0 {
        lemma_written_back(fleet, ids, ships, offset, n - 1);
        let done = battle::written_back(fleet, ids, ships, offset, n - 1);
        let after = battle::written_back(fleet, ids, ships, offset, n);
        let id = ids[n - 1];
        let p = |q: Patrol| q.id == id;
        search::lemma_first_found(done, p);
        assert forall|j: int| 0 <= j < fleet.len() implies worn(
            fleet[j],
            #[trigger] after[j],
            ids.take(n),
            ships,
            offset,
        ) by {
            assert(worn(fleet[j], done[j], ids.take(n - 1), ships, offset));
            assert(done[j].id == fleet[j].id);
            assert forall|k: int| 0 <= k < n - 1 implies ids.take(n - 1)[k] == #[trigger] ids.take(
                n,
            )[k] by {}
            assert(ids.take(n)[n - 1] == id);
            if fleet[j].id == id {
                search::lemma_first_some(done, p, j);
                let i = search::first(done, p)->Some_0;
                assert(worn(fleet[i], done[i], ids.take(n - 1), ships, offset));
                assert(i == j);
                assert forall|k: int| 0 <= k < n && #[trigger] ids.take(n)[k]
                    == fleet[j].id implies k == n - 1 by {
                    assert(ids[k] == id);
                }
            } else {
                assert(after[j] == done[j]);
                if forall|k: int| 0 <= k < n ==> #[trigger] ids.take(n)[k] != fleet[j].id {
                    assert forall|k: int| 0 <= k < n - 1 implies #[trigger] ids.take(n - 1)[k]
                        != fleet[j].id by {
                        assert(ids.take(n)[k] == ids.take(n - 1)[k]);
                    }
                }
                assert forall|k: int| 0 <= k < n && #[trigger] ids.take(n)[k]
                    == fleet[j].id implies after[j].hull == ships[offset + k].hull
                    && after[j].shield == ships[offset + k].shield by {
                    assert(k < n - 1);
                    assert(ids.take(n - 1)[k] == fleet[j].id);
                }
            }
        }
    }
}

/// Whether `after` is what is left of a fleet: its patrols worn as their ships are, in
/// their order, and those with no hull left are gone.
pub open spec fn fleet_left(
    before: Seq<Patrol>,
    after: Seq<Patrol>,
    ids: Seq<PatrolId>,
    ships: Seq<Combatant>,
    offset: int,
) -> bool {
    exists|mid: Seq<Patrol>| #[trigger]
        fleet_worn(before, mid, ids, ships, offset) && after == mid.filter(|p: Patrol| p.hull > 0)
}

proof fn lemma_fleet_left(
    fleet: Seq<Patrol>,
    ids: Seq<PatrolId>,
    ships: Seq<Combatant>,
    offset: int,
)
    requires
        fleet_different(fleet),
        all_different(ids),
    ensures
        fleet_left(
            fleet,
            battle::written_back(fleet, ids, ships, offset, ids.len() as int).filter(
                battle::living(),
            ),
            ids,
            ships,
            offset,
        ),
{
    let n = ids.len() as int;
    lemma_written_back(fleet, ids, ships, offset, n);
    assert(ids.take(n) =~= ids);
    let mid = battle::written_back(fleet, ids, ships, offset, n);
    assert(battle::living() =~= (|p: Patrol| p.hull > 0));
    assert(fleet_worn(fleet, mid, ids, ships, offset));
}

/// A hunt that has ended: each side is left as its ships are, and the fallen of each are
/// counted, pirates as suppressed and navy as lost. Nothing is paid, and no trader is
/// touched.
pub proof fn lemma_hunt_settled(
    w: WorldView,
    e: ActiveView,
    sys: SystemId,
    navy: Seq<PatrolId>,
    pirates: Seq<PatrolId>,
    offset: int,
)
    requires
        e.kind == (KindView::Hunt { sys, navy, pirates, pirates_offset: offset }),
        fleet_different(w.navy),
        fleet_different(w.pirates),
        all_different(navy),
        all_different(pirates),
        navy.len() <= e.combatants.len(),
        0 <= offset,
        offset + pirates.len() <= e.combatants.len(),
        e.combatants.len() <= u64::MAX,
    ensures
        ({
            let v = battle::battle_closed(w, e);
            let down = dead(e.combatants, 0, navy.len() as int);
            let killed = dead(e.combatants, offset, pirates.len() as int);
            &&& v == (WorldView {
                navy: v.navy,
                pirates: v.pirates,
                piracy_stats: v.piracy_stats,
                events: v.events,
                ..w
            })
            &&& fleet_left(w.navy, v.navy, navy, e.combatants, 0)
            &&& fleet_left(w.pirates, v.pirates, pirates, e.combatants, offset)
            &&& dealings::stands_at(
                v.piracy_stats.navy_lost as int,
                w.piracy_stats.navy_lost + down,
            )
            &&& dealings::stands_at(
                v.piracy_stats.pirates_suppressed as int,
                w.piracy_stats.pirates_suppressed + killed,
            )
            &&& v.piracy_stats == (PiracyStats {
                navy_lost: v.piracy_stats.navy_lost,
                pirates_suppressed: v.piracy_stats.pirates_suppressed,
                ..w.piracy_stats
            })
            &&& down == 0 && killed == 0 ==> v.events == w.events
        }),
{
    lemma_the_fallen_are_counted(e.combatants, 0, navy.len() as int);
    lemma_the_fallen_are_counted(e.combatants, offset, pirates.len() as int);
    lemma_fleet_left(w.navy, navy, e.combatants, 0);
    lemma_fleet_left(w.pirates, pirates, e.combatants, offset);
    lemma_counter_turns(
        w.piracy_stats.navy_lost,
        dead(e.combatants, 0, navy.len() as int) as u64,
    );
    lemma_counter_turns(
        w.piracy_stats.pirates_suppressed,
        dead(e.combatants, offset, pirates.len() as int) as u64,
    );
}

/// Whether `v` is `w` but for what a battle changes.
pub open spec fn only_battle_changes(w: WorldView, v: WorldView) -> bool {
    v == (WorldView {
        traders: v.traders,
        navy: v.navy,
        pirates: v.pirates,
        policies: v.policies,
        contracts: v.contracts,
        piracy_stats: v.piracy_stats,
        events: v.events,
        ..w
    })
}

/// An ambush that has ended: each fleet is left as its ships are, and the fallen of each
/// side are counted. A trader whose own ship lives is paid the bounty once for each
/// pirate that fell, and the bounties it holds count as many kills; a trader whose ship
/// fell is settled as lost. Where the trader is gone, nobody is paid.
pub proof fn lemma_ambush_settled(
    w: WorldView,
    e: ActiveView,
    trader: TraderId,
    dest: SystemId,
    navy: Seq<PatrolId>,
    pirates: Seq<PatrolId>,
    navy_offset: int,
    pirate_offset: int,
    delay: u64,
    bounty: Money,
    t: int,
)
    requires
        e.kind == (KindView::Ambush {
            trader,
            dest,
            navy,
            pirates,
            navy_offset,
            pirate_offset,
            respawn_delay: delay,
            bounty,
        }),
        fleet_different(w.navy),
        fleet_different(w.pirates),
        all_different(navy),
        all_different(pirates),
        0 <= navy_offset,
        navy_offset + navy.len() <= e.combatants.len(),
        0 <= pirate_offset,
        pirate_offset + pirates.len() <= e.combatants.len(),
        e.combatants.len() <= u64::MAX,
    ensures
        ({
            let v = battle::battle_closed(w, e);
            let down = dead(e.combatants, navy_offset, navy.len() as int);
            let kills = dead(e.combatants, pirate_offset, pirates.len() as int) as int;
            &&& only_battle_changes(w, v)
            &&& fleet_left(w.navy, v.navy, navy, e.combatants, navy_offset)
            &&& fleet_left(w.pirates, v.pirates, pirates, e.combatants, pirate_offset)
            &&& dealings::stands_at(
                v.piracy_stats.navy_lost as int,
                w.piracy_stats.navy_lost + down,
            )
            &&& dealings::stands_at(
                v.piracy_stats.pirates_destroyed as int,
                w.piracy_stats.pirates_destroyed + kills,
            )
            &&& dealings::named(w.traders, trader, t) && e.combatants[0].alive ==> {
                &&& dealings::only_purse(w.traders, v.traders, t)
                &&& dealings::stands_at(
                    v.traders[t].capital as int,
                    w.traders[t].capital + bounty * kills,
                )
                &&& dealings::board_counted(w.contracts, v.contracts, trader, kills)
                &&& v.policies == w.policies
                &&& dealings::stands_at(
                    v.piracy_stats.bounties_paid as int,
                    w.piracy_stats.bounties_paid + bounty * kills,
                )
                &&& v.piracy_stats == (PiracyStats {
                    navy_lost: v.piracy_stats.navy_lost,
                    pirates_destroyed: v.piracy_stats.pirates_destroyed,
                    bounties_paid: v.piracy_stats.bounties_paid,
                    ..w.piracy_stats
                })
            }
            &&& dealings::named(w.traders, trader, t) && !e.combatants[0].alive ==> {
                &&& dealings::loss_settled(w, v, t, delay)
                &&& v.contracts == w.contracts
                &&& v.piracy_stats == (PiracyStats {
                    navy_lost: v.piracy_stats.navy_lost,
                    pirates_destroyed: v.piracy_stats.pirates_destroyed,
                    traders_lost: v.piracy_stats.traders_lost,
                    ..w.piracy_stats
                })
            }
            &&& dealings::nameless(w.traders, trader) ==> {
                &&& v.traders == w.traders
                &&& v.contracts == w.contracts
                &&& v.policies == w.policies
                &&& v.piracy_stats == (PiracyStats {
                    navy_lost: v.piracy_stats.navy_lost,
                    pirates_destroyed: v.piracy_stats.pirates_destroyed,
                    ..w.piracy_stats
                })
            }
        }),
{
    let ships = e.combatants;
    let down = dead(ships, navy_offset, navy.len() as int);
    let kills = dead(ships, pirate_offset, pirates.len() as int);
    lemma_the_fallen_are_counted(ships, navy_offset, navy.len() as int);
    lemma_the_fallen_are_counted(ships, pirate_offset, pirates.len() as int);
    lemma_fleet_left(w.navy, navy, ships, navy_offset);
    lemma_fleet_left(w.pirates, pirates, ships, pirate_offset);
    lemma_counter_turns(w.piracy_stats.navy_lost, down as u64);
    lemma_counter_turns(w.piracy_stats.pirates_destroyed, kills as u64);
    let v = battle::battle_closed(w, e);
    let tallied = WorldView {
        piracy_stats: PiracyStats {
            navy_lost: w.piracy_stats.navy_lost.wrapping_add(down as u64),
            pirates_destroyed: w.piracy_stats.pirates_destroyed.wrapping_add(kills as u64),
            ..w.piracy_stats
        },
        navy: battle::written_back(w.navy, navy, ships, navy_offset, navy.len() as int).filter(
            battle::living(),
        ),
        pirates: battle::written_back(
            w.pirates,
            pirates,
            ships,
            pirate_offset,
            pirates.len() as int,
        ).filter(battle::living()),
        ..w
    };
    let p = |q: TraderView| q.id == trader;
    search::lemma_first_found(w.traders, p);
    match commands::trader_slot(w.traders, trader) {
        None => {
            if dealings::named(w.traders, trader, t) {
                search::lemma_first_some(w.traders, p, t);
            }
        },
        Some(s) => {
            if dealings::named(w.traders, trader, t) {
                assert forall|j: int| 0 <= j < t implies !p(#[trigger] w.traders[j]) by {}
                search::lemma_first_is(w.traders, p, t);
            }
            if ships[0].alive {
                lemma_won(tallied, s, trader, dest, pirates.len(), kills, bounty);
            } else {
                let lost = commands::trader_lost(tallied, s, delay).log(
                    EventCategory::Piracy,
                    Some(dest),
                    messages::ambush_lost(
                        w.registry.spec_systems()[dest.0 as int].name@,
                        trader,
                    ),
                );
                lemma_loss_settled(tallied, lost, s, delay, Some(dest));
            }
        },
    }
}

proof fn lemma_won(
    w: WorldView,
    t: int,
    trader: TraderId,
    dest: SystemId,
    pirates: nat,
    kills: nat,
    bounty: Money,
)
    requires
        0 <= t < w.traders.len(),
    ensures
        ({
            let v = battle::ambush_survived(w, t, trader, dest, pirates, kills, bounty);
            &&& v == (WorldView {
                traders: v.traders,
                contracts: v.contracts,
                piracy_stats: v.piracy_stats,
                events: v.events,
                ..w
            })
            &&& dealings::only_purse(w.traders, v.traders, t)
            &&& dealings::stands_at(
                v.traders[t].capital as int,
                w.traders[t].capital + bounty * kills,
            )
            &&& dealings::board_counted(w.contracts, v.contracts, trader, kills as int)
            &&& dealings::stands_at(
                v.piracy_stats.bounties_paid as int,
                w.piracy_stats.bounties_paid + bounty * kills,
            )
            &&& v.piracy_stats == (PiracyStats {
                bounties_paid: v.piracy_stats.bounties_paid,
                ..w.piracy_stats
            })
        }),
{
    let v = battle::ambush_survived(w, t, trader, dest, pirates, kills, bounty);
    let exact = bounty * kills;
    let reward = money::wrapped(exact);
    lemma_balances_wrap(exact);
    lemma_balances_wrap(w.traders[t].capital + reward);
    lemma_balances_wrap(w.piracy_stats.bounties_paid + reward);
    lemma_stands_by_way_of(
        money::wrapped(w.traders[t].capital + reward) as int,
        w.traders[t].capital as int,
        reward as int,
        exact,
    );
    lemma_stands_by_way_of(
        money::wrapped(w.piracy_stats.bounties_paid + reward) as int,
        w.piracy_stats.bounties_paid as int,
        reward as int,
        exact,
    );
    let met = if kills > 0 {
        w.contracts.filter(|c: Contract| commands::quota_met(c, trader, kills as int))
    } else {
        Seq::empty()
    };
    let paid = WorldView {
        piracy_stats: PiracyStats {
            bounties_paid: money::wrapped(w.piracy_stats.bounties_paid + reward),
            ..w.piracy_stats
        },
        contracts: if kills > 0 {
            commands::board_credited(w.contracts, trader, kills as int)
        } else {
            w.contracts
        },
        ..w.with_trader(
            t,
            TraderView {
                capital: money::wrapped(w.traders[t].capital + reward),
                ..w.traders[t]
            },
        )
    }.log(
        EventCategory::Combat,
        Some(dest),
        messages::ambush_won(
            w.registry.spec_systems()[dest.0 as int].name@,
            trader,
            pirates,
            kills,
            reward,
        ),
    );
    let ending = "; claim at its station"@;
    identity::lemma_quotas_only_log(paid, met, met.len() as int, trader, Some(dest), ending);
    assert(v == commands::quotas_logged(paid, met, met.len() as int, trader, Some(dest), ending));
    if kills > 0 {
        lemma_board_counted(w.contracts, trader, kills as int);
    }
}

/// Whether a patrol takes part in a battle.
pub open spec fn takes_part(e: ActiveView, id: PatrolId) -> bool {
    match e.kind {
        KindView::Ambush {
            trader,
            dest,
            navy,
            pirates,
            navy_offset,
            pirate_offset,
            respawn_delay,
            bounty,
        } => navy.contains(id) || pirates.contains(id),
        KindView::Hunt { sys, navy, pirates, pirates_offset } => navy.contains(id)
            || pirates.contains(id),
    }
}

/// The patrols of a fleet that can be drawn into a battle at `s`: they have hull left, are
/// docked there, and take part in none of `battles`.
pub open spec fn free_at(fleet: Seq<Patrol>, s: SystemId, battles: Seq<ActiveView>) -> Seq<Patrol> {
    fleet.filter(
        |p: Patrol|
            p.hull > 0 && p.location == PatrolLocation::Docked(s) && forall|i: int|
                0 <= i < battles.len() ==> !takes_part(#[trigger] battles[i], p.id),
    )
}

pub(crate) proof fn lemma_takes_part(e: ActiveView, id: PatrolId)
    ensures
        takes_part(e, id) == fleet::participants(e.kind).contains(id),
{
    match e.kind {
        KindView::Ambush {
            trader,
            dest,
            navy,
            pirates,
            navy_offset,
            pirate_offset,
            respawn_delay,
            bounty,
        } => {
            fleet::lemma_either(navy, pirates, id);
        },
        KindView::Hunt { sys, navy, pirates, pirates_offset } => {
            fleet::lemma_either(navy, pirates, id);
        },
    }
}

proof fn lemma_free(fleet: Seq<Patrol>, s: SystemId, battles: Seq<ActiveView>)
    ensures
        battle::available(fleet, s, battles) == free_at(fleet, s, battles),
{
    let f = |p: Patrol|
        p.spec_is_alive() && p.spec_docked_at() == Some(s) && !fleet::engaged(
            battles,
            p.id,
        );
    let g = |p: Patrol|
        p.hull > 0 && p.location == PatrolLocation::Docked(s) && forall|i: int|
            0 <= i < battles.len() ==> !takes_part(#[trigger] battles[i], p.id);
    assert forall|p: Patrol| #[trigger] f(p) == g(p) by {
        assert forall|i: int| 0 <= i < battles.len() implies takes_part(
            #[trigger] battles[i],
            p.id,
        ) == fleet::participants(battles[i].kind).contains(p.id) by {
            lemma_takes_part(battles[i], p.id);
        }
    }
    assert(f =~= g);
}

/// Whether a ship goes into battle for `faction` as the patrol `p` is: of its type, with
/// the hull and shield it has left, guns ready.
pub open spec fn enlisted(w: WorldView, p: Patrol, c: Combatant, faction: u8) -> bool {
    let def = w.registry.spec_ships()[p.ship.0 as int];
    &&& c.ship == p.ship
    &&& c.faction == faction
    &&& c.hull == p.hull
    &&& c.shield == p.shield
    &&& c.max_speed == def.max_speed
    &&& c.stats == def.spec_stats()
    &&& c.cooldown == 0
    &&& c.alive
}

/// Whether the `n` ships from `from` on stand side by side at `x`, eight units apart from
/// lane `lane` on, at rest.
pub open spec fn drawn_up(ships: Seq<Combatant>, from: int, n: int, x: Bits, lane: int) -> bool {
    forall|k: int|
        from <= k < from + n ==> (#[trigger] ships[k]).pos.x == x && ships[k].pos.y == bits::whole(
            (8 * (lane + k - from)) as nat,
        ) && ships[k].vel.x == 0 && ships[k].vel.y == 0
}

/// Whether the ships from `from` on are those of `list`, for `faction`.
pub open spec fn line_enlisted(
    w: WorldView,
    list: Seq<Patrol>,
    ships: Seq<Combatant>,
    from: int,
    faction: u8,
) -> bool {
    forall|k: int|
        0 <= k < list.len() ==> enlisted(w, #[trigger] list[k], ships[from + k], faction)
}

/// Whether `ids` are those of the patrols of `list`.
pub open spec fn roll(list: Seq<Patrol>, ids: Seq<PatrolId>) -> bool {
    ids.len() == list.len() && forall|k: int|
        0 <= k < list.len() ==> #[trigger] ids[k] == list[k].id
}

/// A hunt is opened at a system just where a free patrol of each fleet is there, and all of
/// them join it, navy against pirates; nothing else changes but the generator, which is
/// drawn from once.
pub proof fn lemma_hunt_opens(w: WorldView, busy: Seq<ActiveView>, s: SystemId)
    ensures
        ({
            let v = battle::hunt_opened(w, busy, s);
            let navy = free_at(w.navy, s, busy);
            let pirates = free_at(w.pirates, s, busy);
            let e = v.encounters.last();
            if navy.len() == 0 || pirates.len() == 0 {
                v == w
            } else {
                &&& v == (WorldView { encounters: v.encounters, rng: v.rng, ..w })
                &&& v.rng == w.rng.after_next()
                &&& v.encounters.len() == w.encounters.len() + 1
                &&& v.encounters.drop_last() == w.encounters
                &&& e.steps == 0
                &&& e.combatants.len() == navy.len() + pirates.len()
                &&& line_enlisted(w, navy, e.combatants, 0, 0)
                &&& line_enlisted(w, pirates, e.combatants, navy.len() as int, 1)
                &&& drawn_up(e.combatants, 0, navy.len() as int, 0, 0)
                &&& drawn_up(
                    e.combatants,
                    navy.len() as int,
                    pirates.len() as int,
                    bits::whole(30),
                    0,
                )
                &&& e.rng.seed == w.rng.spec_next() && e.rng.pos == 0
                &&& match e.kind {
                    KindView::Hunt { sys, navy: a, pirates: b, pirates_offset } => {
                        &&& sys == s
                        &&& roll(navy, a)
                        &&& roll(pirates, b)
                        &&& pirates_offset == navy.len()
                    },
                    _ => false,
                }
            }
        }),
{
    lemma_free(w.navy, s, busy);
    lemma_free(w.pirates, s, busy);
    let navy = free_at(w.navy, s, busy);
    let pirates = free_at(w.pirates, s, busy);
    let v = battle::hunt_opened(w, busy, s);
    if navy.len() > 0 && pirates.len() > 0 {
        assert(v.encounters.drop_last() =~= w.encounters);
        let a = battle::line_up(w.registry, navy, 0, 0, 0);
        let b = battle::line_up(w.registry, pirates, 1, battle::far_side(), 0);
        let all = v.encounters.last().combatants;
        assert(all == a + b);
        assert forall|k: int| 0 <= k < navy.len() implies enlisted(
            w,
            #[trigger] navy[k],
            all[k],
            0,
        ) by {
            assert(all[k] == a[k]);
        }
        assert forall|k: int| 0 <= k < pirates.len() implies enlisted(
            w,
            #[trigger] pirates[k],
            all[navy.len() + k],
            1,
        ) by {
            assert(all[navy.len() + k] == b[k]);
        }
        assert forall|k: int| 0 <= k < navy.len() implies #[trigger] all[k] == a[k] by {}
        assert forall|k: int| navy.len() <= k < navy.len() + pirates.len() implies #[trigger] all[k]
            == b[k - navy.len()] by {}
    }
}

/// Whether a trader fights in a battle.
pub open spec fn is_ambushed(battles: Seq<ActiveView>, id: TraderId) -> bool {
    exists|i: int|
        0 <= i < battles.len() && match (#[trigger] battles[i]).kind {
            KindView::Ambush {
                trader,
                dest,
                navy,
                pirates,
                navy_offset,
                pirate_offset,
                respawn_delay,
                bounty,
            } => trader == id,
            KindView::Hunt { sys, navy, pirates, pirates_offset } => false,
        }
}

pub(crate) proof fn lemma_ambushed(battles: Seq<ActiveView>, id: TraderId)
    ensures
        is_ambushed(battles, id) == battle::trader_engaged(battles, id),
{
    if battle::trader_engaged(battles, id) {
        let i = choose|i: int|
            0 <= i < battles.len() && battle::ambushes((#[trigger] battles[i]).kind, id);
        assert(0 <= i < battles.len());
    }
    if is_ambushed(battles, id) {
        let i = choose|i: int|
            0 <= i < battles.len() && match (#[trigger] battles[i]).kind {
                KindView::Ambush {
                    trader,
                    dest,
                    navy,
                    pirates,
                    navy_offset,
                    pirate_offset,
                    respawn_delay,
                    bounty,
                } => trader == id,
                KindView::Hunt { sys, navy, pirates, pirates_offset } => false,
            };
        assert(battle::ambushes(battles[i].kind, id));
    }
}

/// The pirates at a system that have hull left, fighting or not.
pub open spec fn pirates_at(w: WorldView, s: SystemId) -> Seq<Patrol> {
    w.pirates.filter(|p: Patrol| p.hull > 0 && p.location == PatrolLocation::Docked(s))
}

/// Whether `c` is a fresh ship of a type, for the trader's side.
pub open spec fn fresh_ship(w: WorldView, ship: crate::ids::ShipId, c: Combatant) -> bool {
    let def = w.registry.spec_ships()[ship.0 as int];
    &&& c.ship == ship
    &&& c.faction == 0
    &&& c.stats == def.spec_stats()
    &&& c.max_speed == def.max_speed
    &&& def.hull <= i32::MAX ==> c.hull == def.hull
    &&& c.cooldown == 0
    &&& c.alive
}

/// Running the gauntlet: only a trader under way with cargo, not fighting yet, with pirates
/// where it is bound for, can be ambushed, and then only where the draw is below the odds
/// for as many pirates. The trader's own ship, its escorts and the free navy there stand
/// against the free pirates, no more of them than the scenario allows. The ambush is
/// counted, and carries the scenario's delay and bounty.
pub proof fn lemma_gauntlet(w: WorldView, t: int)
    requires
        0 <= t < w.traders.len(),
        w.piracy is Some,
    ensures
        ({
            let v = battle::gauntlet(w, t);
            let tr = w.traders[t];
            let rt = w.piracy->Some_0;
            let dest = tr.location->InTransit_dest;
            let present = pirates_at(w, dest).len();
            let odds: int = if present < w.tables.ambush_odds@.len() {
                w.tables.ambush_odds@[present as int] as int
            } else {
                0x20_0000_0000_0000
            };
            let pirates = free_at(w.pirates, dest, w.encounters);
            let navy = free_at(w.navy, dest, w.encounters);
            let n: int = if pirates.len() <= rt.max_pirates {
                pirates.len() as int
            } else {
                rt.max_pirates as int
            };
            let escorts: int = match w.escort {
                Some(x) => x.count as int,
                None => 0,
            };
            if !(tr.location is InTransit) || tr.cargo == Map::<
                crate::ids::CommodityId,
                u32,
            >::empty() || is_ambushed(w.encounters, tr.id) || present == 0 {
                v == w
            } else if w.rng.spec_unit() >= odds || n == 0 {
                v == (WorldView { rng: w.rng.after_next(), ..w })
            } else {
                let e = v.encounters.last();
                &&& v == (WorldView {
                    encounters: v.encounters,
                    rng: v.rng,
                    piracy_stats: v.piracy_stats,
                    ..w
                })
                &&& v.encounters.len() == w.encounters.len() + 1
                &&& v.encounters.drop_last() == w.encounters
                &&& dealings::stands_at(
                    v.piracy_stats.ambushes as int,
                    w.piracy_stats.ambushes + 1,
                )
                &&& v.piracy_stats == (PiracyStats {
                    ambushes: v.piracy_stats.ambushes,
                    ..w.piracy_stats
                })
                &&& e.steps == 0
                &&& e.combatants.len() == 1 + escorts + navy.len() + n
                &&& fresh_ship(w, tr.ship, e.combatants[0])
                &&& forall|k: int|
                    1 <= k <= escorts ==> fresh_ship(
                        w,
                        w.escort->Some_0.escort_ship,
                        #[trigger] e.combatants[k],
                    )
                &&& line_enlisted(w, navy, e.combatants, 1 + escorts, 0)
                &&& line_enlisted(
                    w,
                    pirates.take(n),
                    e.combatants,
                    1 + escorts + navy.len() as int,
                    1,
                )
                &&& drawn_up(e.combatants, 0, 1 + escorts + navy.len(), 0, 0)
                &&& drawn_up(
                    e.combatants,
                    1 + escorts + navy.len(),
                    n,
                    bits::whole(30),
                    0,
                )
                &&& e.rng.seed == w.rng.after_next().spec_next() && e.rng.pos == 0
                &&& v.rng == w.rng.after_next().after_next()
                &&& match e.kind {
                    KindView::Ambush {
                        trader,
                        dest: to,
                        navy: a,
                        pirates: b,
                        navy_offset,
                        pirate_offset,
                        respawn_delay,
                        bounty,
                    } => {
                        &&& trader == tr.id
                        &&& to == dest
                        &&& roll(navy, a)
                        &&& roll(pirates.take(n), b)
                        &&& navy_offset == 1 + escorts
                        &&& pirate_offset == 1 + escorts + navy.len()
                        &&& respawn_delay == rt.respawn_delay
                        &&& bounty == rt.bounty
                    },
                    _ => false,
                }
            }
        }),
{
    let tr = w.traders[t];
    let rt = w.piracy->Some_0;
    lemma_ambushed(w.encounters, tr.id);
    if tr.location is InTransit {
        let dest = tr.location->InTransit_dest;
        let f = |p: Patrol| p.spec_is_alive() && p.spec_docked_at() == Some(dest);
        let g = |p: Patrol| p.hull > 0 && p.location == PatrolLocation::Docked(dest);
        assert(f =~= g);
        assert(battle::lurking(w.pirates, dest) == pirates_at(w, dest));
        lemma_free(w.navy, dest, w.encounters);
        lemma_free(w.pirates, dest, w.encounters);
        lemma_counter_turns(w.piracy_stats.ambushes, 1);
        let all = free_at(w.pirates, dest, w.encounters);
        let navy = free_at(w.navy, dest, w.encounters);
        let n: int = if all.len() <= rt.max_pirates {
            all.len() as int
        } else {
            rt.max_pirates as int
        };
        if all.len() <= rt.max_pirates {
            assert(all.take(n) =~= all);
        }
        let pirates = all.take(n);
        let v = battle::gauntlet(w, t);
        if v.encounters.len() > w.encounters.len() {
            assert(v.encounters.drop_last() =~= w.encounters);
            let head = battle::convoy(w, tr);
            let a = battle::line_up(w.registry, navy, 0, 0, head.len() as int);
            let b = battle::line_up(w.registry, pirates, 1, battle::far_side(), 0);
            let ships = v.encounters.last().combatants;
            assert(ships == head + a + b);
            assert(ships[0] == head[0]);
            let escorts: int = match w.escort {
                Some(x) => x.count as int,
                None => 0,
            };
            assert(head.len() == 1 + escorts);
            assert forall|k: int| 1 <= k <= escorts implies fresh_ship(
                w,
                w.escort->Some_0.escort_ship,
                #[trigger] ships[k],
            ) by {
                assert(ships[k] == head[k]);
            }
            assert forall|k: int| 0 <= k < navy.len() implies enlisted(
                w,
                #[trigger] navy[k],
                ships[1 + escorts + k],
                0,
            ) by {
                assert(ships[1 + escorts + k] == a[k]);
            }
            assert forall|k: int| 0 <= k < pirates.len() implies enlisted(
                w,
                #[trigger] pirates[k],
                ships[1 + escorts + navy.len() + k],
                1,
            ) by {
                assert(ships[1 + escorts + navy.len() + k] == b[k]);
            }
            let m = 1 + escorts + navy.len();
            assert forall|k: int| 0 <= k < m implies (#[trigger] ships[k]).pos.x == 0
                && ships[k].pos.y == bits::whole((8 * k) as nat) && ships[k].vel.x == 0
                && ships[k].vel.y == 0 by {
                if k < head.len() {
                    assert(ships[k] == head[k]);
                } else {
                    assert(ships[k] == a[k - head.len()]);
                }
            }
            assert forall|k: int| m <= k < m + n implies (#[trigger] ships[k]).pos.x == bits::whole(
                30,
            ) && ships[k].pos.y == bits::whole((8 * (k - m)) as nat) && ships[k].vel.x == 0
                && ships[k].vel.y == 0 by {
                assert(ships[k] == b[k - m]);
            }
        }
    }
}

/// How a battle goes on: it takes the ships and the generator it has come to, and its
/// length grows by the steps of a tick, but not past the most a battle may take.
pub proof fn lemma_battle_advances(e: ActiveView, f: Fought)
    requires
        e.steps <= 500,
    ensures
        ({
            let g = battle::fought(e, f);
            &&& g == (ActiveView {
                combatants: f.combatants@,
                rng: f.rng,
                steps: g.steps,
                ..e
            })
            &&& e.steps <= 475 ==> g.steps == e.steps + 25
            &&& e.steps > 475 ==> g.steps == 500
        }),
{
}

/// Which battles end: those with ships of no more than one faction left, and those that
/// have taken their full length.
pub proof fn lemma_when_battles_end(e: ActiveView)
    ensures
        battle::is_over(e) <==> e.steps >= 500 || forall|i: int, j: int|
            #![trigger e.combatants[i], e.combatants[j]]
            0 <= i < e.combatants.len() && 0 <= j < e.combatants.len() && e.combatants[i].alive
                && e.combatants[j].alive ==> e.combatants[i].faction == e.combatants[j].faction,
{
    let ships = e.combatants;
    if encounter::standing(ships, Outcome::Ongoing) {
        let (f, g) = choose|f: u8, g: u8|
            f != g && #[trigger] encounter::fights(ships, f) && #[trigger] encounter::fights(
                ships,
                g,
            );
        let i = choose|i: int|
            0 <= i < ships.len() && (#[trigger] ships[i]).alive && ships[i].faction == f;
        let j = choose|j: int|
            0 <= j < ships.len() && (#[trigger] ships[j]).alive && ships[j].faction == g;
        assert(ships[i].faction != ships[j].faction);
    } else {
        assert forall|i: int, j: int|
            #![trigger ships[i], ships[j]]
            0 <= i < ships.len() && 0 <= j < ships.len() && ships[i].alive
                && ships[j].alive implies ships[i].faction == ships[j].faction by {
            if ships[i].faction != ships[j].faction {
                assert(encounter::fights(ships, ships[i].faction));
                assert(encounter::fights(ships, ships[j].faction));
            }
        }
    }
}

/// Battles that are not over stay, in their order, as they have come to; only those that
/// are over are settled, in their order.
pub proof fn lemma_battles_stay_or_are_settled(w: WorldView, results: Seq<Fought>)
    ensures
        ({
            let now = Seq::new(
                w.encounters.len(),
                |i: int| battle::fought(w.encounters[i], results[i]),
            );
            let done = now.filter(|e: ActiveView| battle::is_over(e));
            let v = battle::combat_run(w, results);
            &&& v.encounters == now.filter(|e: ActiveView| !battle::is_over(e))
            &&& done.len() == 0 ==> v == (WorldView { encounters: v.encounters, ..w })
        }),
{
    let now = battle::all_fought(w.encounters, results);
    assert(now =~= Seq::new(
        w.encounters.len(),
        |i: int| battle::fought(w.encounters[i], results[i]),
    ));
    let done = now.filter(|e: ActiveView| battle::is_over(e));
    let left = WorldView { encounters: now.filter(|e: ActiveView| !battle::is_over(e)), ..w };
    lemma_settling_keeps_battles(left, done, done.len() as int);
}

proof fn lemma_settling_keeps_battles(w: WorldView, done: Seq<ActiveView>, n: int)
    ensures
        battle::battles_closed(w, done, n).encounters == w.encounters,
    decreases n,
{
    if n > 0 {
        lemma_settling_keeps_battles(w, done, n - 1);
        let v = battle::battles_closed(w, done, n - 1);
        lemma_closing_keeps_battles(v, done[n - 1]);
    }
}

proof fn lemma_closing_keeps_battles(w: WorldView, e: ActiveView)
    ensures
        battle::battle_closed(w, e).encounters == w.encounters,
{
    match e.kind {
        KindView::Ambush {
            trader,
            dest,
            navy,
            pirates,
            navy_offset,
            pirate_offset,
            respawn_delay,
            bounty,
        } => {
            let kills = battle::fallen(e.combatants, pirate_offset, pirates.len() as int);
            let down = battle::fallen(e.combatants, navy_offset, navy.len() as int);
            let tallied = WorldView {
                piracy_stats: PiracyStats {
                    navy_lost: w.piracy_stats.navy_lost.wrapping_add(down as u64),
                    pirates_destroyed: w.piracy_stats.pirates_destroyed.wrapping_add(
                        kills as u64,
                    ),
                    ..w.piracy_stats
                },
                navy: battle::written_back(
                    w.navy,
                    navy,
                    e.combatants,
                    navy_offset,
                    navy.len() as int,
                ).filter(battle::living()),
                pirates: battle::written_back(
                    w.pirates,
                    pirates,
                    e.combatants,
                    pirate_offset,
                    pirates.len() as int,
                ).filter(battle::living()),
                ..w
            };
            search::lemma_first_found(w.traders, |q: TraderView| q.id == trader);
            if let Some(t) = commands::trader_slot(w.traders, trader) {
                lemma_won(tallied, t, trader, dest, pirates.len(), kills, bounty);
            }
        },
        KindView::Hunt { sys, navy, pirates, pirates_offset } => {},
    }
}

/// Keeping the navy: its income comes in, and the upkeep of each ship it has goes out and
/// is counted.
pub proof fn lemma_navy_is_kept(w: WorldView, funding: Money, upkeep: Money)
    ensures
        ({
            let v = battle::navy_funded(w, funding, upkeep);
            &&& v == (WorldView { treasury: v.treasury, piracy_stats: v.piracy_stats, ..w })
            &&& dealings::stands_at(
                v.treasury as int,
                w.treasury + funding - upkeep * w.navy.len(),
            )
            &&& dealings::stands_at(
                v.piracy_stats.navy_upkeep as int,
                w.piracy_stats.navy_upkeep + upkeep * w.navy.len(),
            )
            &&& v.piracy_stats == (PiracyStats {
                navy_upkeep: v.piracy_stats.navy_upkeep,
                ..w.piracy_stats
            })
        }),
{
    lemma_balances_wrap(w.treasury + funding - upkeep * w.navy.len());
    lemma_balances_wrap(w.piracy_stats.navy_upkeep + upkeep * w.navy.len());
}

} // verus!
