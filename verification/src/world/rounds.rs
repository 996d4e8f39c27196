//! What the rounds of a tick come to: everyone whose turn it is gets it, once and in order.

use vstd::prelude::*;

use crate::bits::Bits;
use crate::ids::{Money, SystemId};
use crate::world::aftermath;
use crate::world::aftermath::free_at;
use crate::world::battle;
use crate::world::battle::Fought;
use crate::world::commands;
use crate::world::fleet;
use crate::world::tick;
use crate::world::trade;
use crate::world::trade::TradePlan;
use crate::world::works;
use crate::world::{ActiveView, KindView, Stage, WorldView};

verus! {

/// Whether a battle is a hunt at `s`.
pub open spec fn hunts_at(e: ActiveView, s: SystemId) -> bool {
    match e.kind {
        KindView::Hunt { sys, navy, pirates, pirates_offset } => sys == s,
        _ => false,
    }
}

/// Whether the navy and the pirates both have a ship free for a fight at `s`.
pub open spec fn both_free(w: WorldView, s: SystemId) -> bool {
    free_at(w.navy, s, w.encounters).len() > 0 && free_at(w.pirates, s, w.encounters).len() > 0
}

/// Whether a battle is a hunt at one of the first `n` systems where both sides are free.
pub open spec fn is_due(w: WorldView, n: int, e: ActiveView) -> bool {
    exists|s: SystemId| s.0 < n && #[trigger] hunts_at(e, s) && both_free(w, s)
}

/// The navy opens a hunt at every system where it and pirates are free, one at each and in
/// the order of the systems, and nowhere else; the battles there were go on as they were.
pub proof fn lemma_hunts_open_everywhere(w: WorldView, n: int)
    requires
        0 <= n <= u32::MAX,
    ensures
        ({
            let v = battle::hunts_opened(w, n);
            let old = w.encounters.len() as int;
            &&& v == (WorldView { encounters: v.encounters, rng: v.rng, ..w })
            &&& v.encounters.len() >= old
            &&& v.encounters.take(old) == w.encounters
            &&& forall|k: int|
                old <= k < v.encounters.len() ==> is_due(w, n, #[trigger] v.encounters[k])
            &&& forall|s: SystemId|
                s.0 < n && #[trigger] both_free(w, s) ==> exists|k: int|
                    old <= k < v.encounters.len() && hunts_at(#[trigger] v.encounters[k], s)
            &&& forall|j: int, k: int, s: SystemId, t: SystemId|
                #![trigger hunts_at(v.encounters[j], s), hunts_at(v.encounters[k], t)]
                old <= j < k < v.encounters.len() && hunts_at(v.encounters[j], s) && hunts_at(
                    v.encounters[k],
                    t,
                ) ==> s.0 < t.0
        }),
    decreases n,
{
    let old = w.encounters.len() as int;
    let v = battle::hunts_opened(w, n);
    if n <= 0 {
        assert(v.encounters.take(old) =~= w.encounters);
    } else {
        lemma_hunts_open_everywhere(w, n - 1);
        let b = battle::hunts_opened(w, n - 1);
        let here = SystemId((n - 1) as u32);
        assert(here.0 == n - 1);
        aftermath::lemma_hunt_opens(b, w.encounters, here);
        let opens = both_free(w, here);
        if opens {
            assert(v.encounters.drop_last() == b.encounters);
            assert(v.encounters.take(old) =~= b.encounters.take(old));
            assert forall|k: int| 0 <= k < b.encounters.len() implies v.encounters[k]
                == #[trigger] b.encounters[k] by {
                assert(v.encounters.drop_last()[k] == b.encounters[k]);
            }
            assert(hunts_at(v.encounters[v.encounters.len() - 1], here));
        }
        assert forall|k: int| old <= k < v.encounters.len() implies is_due(
            w,
            n,
            #[trigger] v.encounters[k],
        ) by {
            if k < b.encounters.len() {
                assert(is_due(w, n - 1, b.encounters[k]));
                let s = choose|s: SystemId|
                    s.0 < n - 1 && #[trigger] hunts_at(b.encounters[k], s) && both_free(w, s);
                assert(hunts_at(v.encounters[k], s));
            } else {
                assert(hunts_at(v.encounters[k], here) && both_free(w, here));
            }
        }
        assert forall|s: SystemId| s.0 < n && #[trigger] both_free(w, s) implies exists|k: int|
            old <= k < v.encounters.len() && hunts_at(#[trigger] v.encounters[k], s) by {
            if s.0 < n - 1 {
                let k = choose|k: int|
                    old <= k < b.encounters.len() && hunts_at(#[trigger] b.encounters[k], s);
                assert(hunts_at(v.encounters[k], s));
            } else {
                assert(s == here);
                assert(hunts_at(v.encounters[v.encounters.len() - 1], s));
            }
        }
        assert forall|j: int, k: int, s: SystemId, t: SystemId|
            #![trigger hunts_at(v.encounters[j], s), hunts_at(v.encounters[k], t)]
            old <= j < k < v.encounters.len() && hunts_at(v.encounters[j], s) && hunts_at(
                v.encounters[k],
                t,
            ) implies s.0 < t.0 by {
            assert(hunts_at(b.encounters[j], s));
            if k < b.encounters.len() {
                assert(hunts_at(b.encounters[k], t));
            } else {
                assert(is_due(w, n - 1, b.encounters[j]));
                let r = choose|r: SystemId|
                    r.0 < n - 1 && #[trigger] hunts_at(b.encounters[j], r) && both_free(w, r);
                assert(r == s);
            }
        }
    }
}

/// Every trader runs the gauntlet, one after the other, and what it meets there is what
/// those before it left.
pub proof fn lemma_every_trader_runs_the_gauntlet(w: WorldView, n: int)
    requires
        0 <= n,
    ensures
        battle::gauntlets(w, 0) == w,
        battle::gauntlets(w, n + 1) == battle::gauntlet(battle::gauntlets(w, n), n),
        w.piracy is Some ==> battle::piracy_run(w) == battle::gauntlets(w, w.traders.len() as int),
        w.piracy is None ==> battle::piracy_run(w) == w,
{
}

/// Every battle that is over is settled, one after the other; one that is not goes on.
pub proof fn lemma_every_battle_is_settled(w: WorldView, results: Seq<Fought>, n: int)
    requires
        0 <= n,
    ensures
        ({
            let now = Seq::new(
                w.encounters.len(),
                |i: int| battle::fought(w.encounters[i], results[i]),
            );
            let done = now.filter(|e: ActiveView| battle::is_over(e));
            let left = WorldView {
                encounters: now.filter(|e: ActiveView| !battle::is_over(e)),
                ..w
            };
            &&& battle::combat_run(w, results) == battle::battles_closed(
                left,
                done,
                done.len() as int,
            )
            &&& battle::battles_closed(left, done, 0) == left
            &&& battle::battles_closed(left, done, n + 1) == battle::battle_closed(
                battle::battles_closed(left, done, n),
                done[n],
            )
        }),
{
    let now = battle::all_fought(w.encounters, results);
    assert(now =~= Seq::new(
        w.encounters.len(),
        |i: int| battle::fought(w.encounters[i], results[i]),
    ));
}

/// Commands are obeyed in the order they were queued in, each in the world that those
/// before it left; a refused one is counted, its reason kept behind the others, and has no
/// other effect.
pub proof fn lemma_commands_are_obeyed_in_order(w: WorldView, n: int)
    requires
        0 <= n < w.commands.len(),
    ensures
        tick::obeyed(w, 0) == (WorldView { commands: Seq::empty(), last_errors: Seq::empty(), ..w }),
        ({
            let v = tick::obeyed(w, n);
            let next = tick::obeyed(w, n + 1);
            match commands::applied(v, w.commands[n]) {
                Ok(u) => {
                    &&& next == (WorldView { commands_applied: next.commands_applied, ..u })
                    &&& u.commands_applied < u64::MAX ==> next.commands_applied
                        == u.commands_applied + 1
                },
                Err(e) => {
                    &&& next == (WorldView {
                        commands_rejected: next.commands_rejected,
                        last_errors: v.last_errors.push(e),
                        ..v
                    })
                    &&& v.commands_rejected < u64::MAX ==> next.commands_rejected
                        == v.commands_rejected + 1
                },
            }
        }),
{
}

/// The traders have their turns in order: trading goes on behind a trader that is done, and
/// stops at one that looks for a trade, until it is answered; behind the last it is over.
pub proof fn lemma_traders_have_their_turns(w: WorldView, t: int)
    requires
        0 <= t <= w.traders.len(),
        w.traders.len() <= usize::MAX,
    ensures
        t == w.traders.len() ==> trade::traded(w, t) == (WorldView { stage: Stage::Closing, ..w }),
        t < w.traders.len() ==> {
            let (v, seeks) = trade::turn(w, t);
            match seeks {
                None => trade::traded(w, t) == trade::traded(v, t + 1),
                Some(sys) => trade::traded(w, t) == (WorldView {
                    stage: Stage::Seeking(t as usize, sys),
                    ..v
                }),
            }
        },
{
}

/// Whether two worlds are alike but for their fleets, battles, traders' purses and tallies.
pub open spec fn fleets_apart(a: WorldView, b: WorldView) -> bool {
    a == (WorldView {
        rng: a.rng,
        traders: a.traders,
        piracy_stats: a.piracy_stats,
        pirates: a.pirates,
        navy: a.navy,
        encounters: a.encounters,
        next_patrol_id: a.next_patrol_id,
        treasury: a.treasury,
        events: a.events,
        ..b
    })
}

proof fn lemma_gauntlets_keep(w: WorldView, n: int)
    ensures
        fleets_apart(battle::gauntlets(w, n), w),
    decreases n,
{
    if n > 0 {
        lemma_gauntlets_keep(w, n - 1);
    }
}

/// The order of a tick: goods are made after the commands, from what these left; prices
/// move by the stock that is there then; and nothing that the fleets do on the way changes
/// a market, a contract or a position.
pub proof fn lemma_markets_come_before_fleets(
    w: WorldView,
    targets: Seq<Vec<Money>>,
    pirate_shields: Seq<Bits>,
    navy_shields: Seq<Bits>,
    wants: Seq<Vec<u32>>,
)
    requires
        w.systems() <= u32::MAX,
    ensures
        ({
            let v = tick::engaged(w, targets, pirate_shields, navy_shields);
            &&& v.markets == works::repriced(w, targets).markets
            &&& v.contracts == w.contracts && v.loans == w.loans
            &&& v.policies == w.policies && v.futures == w.futures
            &&& v.tick == w.tick && v.commands == w.commands
            &&& v.traders.len() == w.traders.len()
        }),
        ({
            let obeyed = tick::obeyed(w, w.commands.len() as int);
            let v = tick::begun(w, wants);
            &&& v.markets == works::produced(obeyed, wants).markets
            &&& v == (WorldView { markets: v.markets, stage: Stage::Produced, ..obeyed })
        }),
{
    let priced = works::repriced(w, targets);
    let a = fleet::pirates_run(priced, pirate_shields);
    let b = battle::navy_moved(a, navy_shields);
    lemma_hunts_open_everywhere(b, a.systems() as int);
    let c = battle::navy_run(a, navy_shields);
    lemma_gauntlets_keep(c, c.traders.len() as int);
    lemma_gauntlets_count(c, c.traders.len() as int);
}

proof fn lemma_gauntlets_count(w: WorldView, n: int)
    ensures
        battle::gauntlets(w, n).traders.len() == w.traders.len(),
    decreases n,
{
    if n > 0 {
        lemma_gauntlets_count(w, n - 1);
    }
}

/// Traders that look for a trade are answered one after the other, and trading goes on
/// behind each from where it stopped.
pub proof fn lemma_seekers_are_answered_in_turn(
    w: WorldView,
    answers: Seq<(Option<TradePlan>, Seq<Option<Money>>)>,
    n: int,
)
    requires
        0 <= n < answers.len(),
    ensures
        tick::haggled(w, answers, 0) == (match w.stage {
            Stage::Trading(t) => trade::traded(w, t as int),
            _ => w,
        }),
        ({
            let v = trade::answered(
                tick::haggled(w, answers, n),
                answers[n].0,
                answers[n].1,
            );
            tick::haggled(w, answers, n + 1) == (match v.stage {
                Stage::Trading(t) => trade::traded(v, t as int),
                _ => v,
            })
        }),
{
}

} // verus!
