//! The event log across a tick: whatever happens, the log only grows at its end, and what
//! joins it carries the tick it happened on.

use vstd::prelude::*;

use crate::bits::Bits;
use crate::command::Command;
use crate::contract::Contract;
use crate::event;
use crate::event::{EventCategory, EventView};
use crate::finance::{Future, Loan};
use crate::ids::{Money, SystemId, Tick, TraderId};
use crate::world::battle;
use crate::world::board;
use crate::world::books;
use crate::world::commands;
use crate::world::fleet;
use crate::world::messages;
use crate::world::tick;
use crate::world::tick::HostTick;
use crate::world::trade;
use crate::world::works;
use crate::world::{ActiveView, KindView, WorldView};

verus! {

/// The log after recording each of `new` in turn.
pub open spec fn all_logged(events: Seq<EventView>, new: Seq<EventView>) -> Seq<EventView>
    decreases new.len(),
{
    if new.len() == 0 {
        events
    } else {
        event::logged(all_logged(events, new.drop_last()), new.last())
    }
}

/// Every event happened on this tick.
pub open spec fn stamped(new: Seq<EventView>, now: Tick) -> bool {
    forall|i: int| 0 <= i < new.len() ==> (#[trigger] new[i]).tick == now
}

/// Whether the log came to `after` by recording events of this tick alone.
pub open spec fn appended(before: Seq<EventView>, after: Seq<EventView>, now: Tick) -> bool {
    exists|new: Seq<EventView>| stamped(new, now) && #[trigger] all_logged(before, new) == after
}

/// Whether `v` stands on the same tick as `w`, and its log has only grown by events of
/// that tick.
pub open spec fn chronicled(w: WorldView, v: WorldView) -> bool {
    v.tick == w.tick && appended(w.events, v.events, w.tick)
}

/// The events of a log are in the order of their ticks, all of them before `now`.
pub open spec fn past(events: Seq<EventView>, now: Tick) -> bool {
    &&& forall|i: int| 0 <= i < events.len() ==> (#[trigger] events[i]).tick.0 < now.0
    &&& forall|i: int, j: int|
        0 <= i <= j < events.len() ==> (#[trigger] events[i]).tick.0 <= (
        #[trigger] events[j]).tick.0
}

broadcast proof fn lemma_unchanged(events: Seq<EventView>, now: Tick)
    ensures
        #[trigger] appended(events, events, now),
{
    assert(all_logged(events, Seq::empty()) == events);
    assert(stamped(Seq::empty(), now));
}

broadcast proof fn lemma_one(events: Seq<EventView>, e: EventView, now: Tick)
    requires
        e.tick == now,
    ensures
        #[trigger] appended(events, event::logged(events, e), now),
{
    let new = seq![e];
    assert(new.drop_last() =~= Seq::empty());
    assert(all_logged(events, Seq::empty()) == events);
    assert(all_logged(events, new) == event::logged(events, e));
    assert(stamped(new, now));
}

proof fn lemma_logged_in_turn(events: Seq<EventView>, a: Seq<EventView>, b: Seq<EventView>)
    ensures
        all_logged(events, a + b) == all_logged(all_logged(events, a), b),
    decreases b.len(),
{
    if b.len() == 0 {
        assert(a + b =~= a);
    } else {
        assert((a + b).drop_last() =~= a + b.drop_last());
        lemma_logged_in_turn(events, a, b.drop_last());
    }
}

proof fn lemma_chain(a: Seq<EventView>, b: Seq<EventView>, c: Seq<EventView>, now: Tick)
    requires
        appended(a, b, now),
        appended(b, c, now),
    ensures
        appended(a, c, now),
{
    let x = choose|new: Seq<EventView>| stamped(new, now) && #[trigger] all_logged(a, new) == b;
    let y = choose|new: Seq<EventView>| stamped(new, now) && #[trigger] all_logged(b, new) == c;
    lemma_logged_in_turn(a, x, y);
    assert(stamped(x + y, now));
}

proof fn lemma_quotas(
    w: WorldView,
    met: Seq<Contract>,
    n: int,
    trader: TraderId,
    at: Option<SystemId>,
    ending: Seq<char>,
)
    ensures
        chronicled(w, commands::quotas_logged(w, met, n, trader, at, ending)),
    decreases n,
{
    broadcast use lemma_unchanged, lemma_one;

    if n > 0 {
        lemma_quotas(w, met, n - 1, trader, at, ending);
        let v = commands::quotas_logged(w, met, n - 1, trader, at, ending);
        let u = commands::quotas_logged(w, met, n, trader, at, ending);
        assert(appended(v.events, u.events, w.tick));
        lemma_chain(w.events, v.events, u.events, w.tick);
    }
}

proof fn lemma_insurance(w: WorldView, i: int, id: TraderId, at: Option<SystemId>)
    ensures
        chronicled(w, commands::insurance_paid(w, i, id, at)),
{
    broadcast use lemma_unchanged, lemma_one;

    assert(appended(w.events, commands::insurance_paid(w, i, id, at).events, w.tick));
}

/// A command only adds events of its tick to the log.
pub proof fn lemma_command_is_chronicled(w: WorldView, c: Command)
    ensures
        commands::applied(w, c) matches Ok(v) ==> chronicled(w, v),
{
    broadcast use lemma_unchanged, lemma_one;

    reveal(commands::applied);
    match c {
        Command::DestroyedPirate { player, trader, pirate } => {
            match commands::applied(w, c) {
                Ok(v) => {
                    let met = w.contracts.filter(
                        |k: Contract| commands::quota_met(k, trader, 1),
                    );
                    let pi = commands::patrol_slot(w.pirates, pirate)->Some_0;
                    let at = w.pirates[pi].spec_docked_at();
                    let settled = choose|s: WorldView|
                        v == #[trigger] commands::quotas_logged(
                            s,
                            met,
                            met.len() as int,
                            trader,
                            at,
                            ""@,
                        ) && chronicled(w, s);
                    lemma_quotas(settled, met, met.len() as int, trader, at, ""@);
                    lemma_chain(w.events, settled.events, v.events, w.tick);
                },
                Err(_) => {},
            }
        },
        Command::TraderDestroyed { player, trader } => {
            match commands::applied(w, c) {
                Ok(v) => {
                    let i = commands::owned_slot(w, trader, player)->Ok_0;
                    let delay = match w.piracy {
                        Some(p) => p.respawn_delay,
                        None => 50,
                    };
                    let at = commands::whereabouts(w.traders[i]);
                    let s = commands::trader_lost(w, i, delay).log(
                        EventCategory::Piracy,
                        at,
                        messages::lost(trader),
                    );
                    assert(appended(w.events, s.events, w.tick));
                    lemma_insurance(s, i, trader, at);
                    lemma_chain(w.events, s.events, v.events, w.tick);
                },
                Err(_) => {},
            }
        },
        _ => {
            match commands::applied(w, c) {
                Ok(v) => {
                    assert(appended(w.events, v.events, w.tick));
                },
                Err(_) => {},
            }
        },
    }
}

proof fn lemma_commands(w: WorldView, n: int)
    requires
        0 <= n <= w.commands.len(),
    ensures
        chronicled(w, tick::obeyed(w, n)),
    decreases n,
{
    broadcast use lemma_unchanged;

    if n > 0 {
        lemma_commands(w, n - 1);
        let v = tick::obeyed(w, n - 1);
        let u = tick::obeyed(w, n);
        lemma_command_is_chronicled(v, w.commands[n - 1]);
        assert(appended(v.events, u.events, w.tick));
        lemma_chain(w.events, v.events, u.events, w.tick);
    }
}

proof fn lemma_hunts(w: WorldView, n: int)
    ensures
        battle::hunts_opened(w, n).tick == w.tick,
        battle::hunts_opened(w, n).events == w.events,
    decreases n,
{
    if n > 0 {
        lemma_hunts(w, n - 1);
    }
}

proof fn lemma_gauntlets(w: WorldView, n: int)
    ensures
        battle::gauntlets(w, n).tick == w.tick,
        battle::gauntlets(w, n).events == w.events,
    decreases n,
{
    if n > 0 {
        lemma_gauntlets(w, n - 1);
    }
}

/// Prices, fleets and the start of a battle are not written down.
proof fn lemma_engagement(
    w: WorldView,
    targets: Seq<Vec<Money>>,
    pirate_shields: Seq<Bits>,
    navy_shields: Seq<Bits>,
)
    ensures
        tick::engaged(w, targets, pirate_shields, navy_shields).tick == w.tick,
        tick::engaged(w, targets, pirate_shields, navy_shields).events == w.events,
{
    let a = fleet::pirates_run(works::repriced(w, targets), pirate_shields);
    let b = battle::navy_moved(a, navy_shields);
    lemma_hunts(b, a.systems() as int);
    let c = battle::navy_run(a, navy_shields);
    lemma_gauntlets(c, c.traders.len() as int);
}

proof fn lemma_win(
    w: WorldView,
    t: int,
    trader: TraderId,
    dest: SystemId,
    pirates: nat,
    kills: nat,
    bounty: Money,
)
    ensures
        chronicled(w, battle::ambush_survived(w, t, trader, dest, pirates, kills, bounty)),
{
    broadcast use lemma_one;

    let v = battle::ambush_survived(w, t, trader, dest, pirates, kills, bounty);
    let met = if kills > 0 {
        w.contracts.filter(|c: Contract| commands::quota_met(c, trader, kills as int))
    } else {
        Seq::empty()
    };
    let ending = "; claim at its station"@;
    let paid = choose|s: WorldView|
        v == #[trigger] commands::quotas_logged(
            s,
            met,
            met.len() as int,
            trader,
            Some(dest),
            ending,
        ) && chronicled(w, s);
    lemma_quotas(paid, met, met.len() as int, trader, Some(dest), ending);
    lemma_chain(w.events, paid.events, v.events, w.tick);
}

proof fn lemma_battle(w: WorldView, e: ActiveView)
    ensures
        chronicled(w, battle::battle_closed(w, e)),
{
    broadcast use lemma_unchanged, lemma_one;

    let v = battle::battle_closed(w, e);
    match e.kind {
        KindView::Ambush {
            trader,
            dest,
            navy,
            pirates,
            navy_offset,
            pirate_offset,
            respawn_delay,
            bounty,
        } => {
            let kills = battle::fallen(e.combatants, pirate_offset, pirates.len() as int);
            match commands::trader_slot(w.traders, trader) {
                None => {
                    assert(appended(w.events, v.events, w.tick));
                },
                Some(t) => if e.combatants[0].alive {
                    let tallied = choose|s: WorldView|
                        v == #[trigger] battle::ambush_survived(
                            s,
                            t,
                            trader,
                            dest,
                            pirates.len(),
                            kills,
                            bounty,
                        ) && s.tick == w.tick && s.events == w.events;
                    lemma_win(tallied, t, trader, dest, pirates.len(), kills, bounty);
                } else {
                    let s = choose|s: WorldView|
                        v == #[trigger] commands::insurance_paid(s, t, trader, Some(dest))
                            && chronicled(w, s);
                    lemma_insurance(s, t, trader, Some(dest));
                    lemma_chain(w.events, s.events, v.events, w.tick);
                },
            }
        },
        KindView::Hunt { sys, navy, pirates, pirates_offset } => {
            assert(appended(w.events, v.events, w.tick));
        },
    }
}

proof fn lemma_battles(w: WorldView, done: Seq<ActiveView>, n: int)
    ensures
        chronicled(w, battle::battles_closed(w, done, n)),
    decreases n,
{
    broadcast use lemma_unchanged;

    if n > 0 {
        lemma_battles(w, done, n - 1);
        let v = battle::battles_closed(w, done, n - 1);
        lemma_battle(v, done[n - 1]);
        lemma_chain(w.events, v.events, battle::battle_closed(v, done[n - 1]).events, w.tick);
    }
}

proof fn lemma_trading(w: WorldView, t: int)
    requires
        0 <= t,
    ensures
        chronicled(w, trade::traded(w, t)),
    decreases w.traders.len() - t,
{
    broadcast use lemma_unchanged, lemma_one;

    if t < w.traders.len() {
        trade::lemma_turn_keeps_traders(w, t);
        let v = trade::turn(w, t).0;
        assert(appended(w.events, v.events, w.tick));
        if trade::turn(w, t).1 is None {
            lemma_trading(v, t + 1);
            lemma_chain(w.events, v.events, trade::traded(v, t + 1).events, w.tick);
        }
    }
}

proof fn lemma_haggling(
    w: WorldView,
    answers: Seq<(Option<trade::TradePlan>, Seq<Option<Money>>)>,
    n: int,
)
    ensures
        chronicled(w, tick::haggled(w, answers, n)),
    decreases n,
{
    broadcast use lemma_unchanged;

    let before = if n <= 0 {
        w
    } else {
        lemma_haggling(w, answers, n - 1);
        let v = tick::haggled(w, answers, n - 1);
        trade::answered(v, answers[n - 1].0, answers[n - 1].1)
    };
    assert(chronicled(w, before));
    if before.stage is Trading {
        lemma_trading(before, before.stage->Trading_0 as int);
    }
    lemma_chain(w.events, before.events, tick::resumed(before).events, w.tick);
}

proof fn lemma_expiries(w: WorldView, gone: Seq<Contract>, n: int)
    ensures
        chronicled(w, board::expiries_logged(w, gone, n)),
    decreases n,
{
    broadcast use lemma_unchanged, lemma_one;

    if n > 0 {
        lemma_expiries(w, gone, n - 1);
        let v = board::expiries_logged(w, gone, n - 1);
        let u = board::expiries_logged(w, gone, n);
        assert(appended(v.events, u.events, w.tick));
        lemma_chain(w.events, v.events, u.events, w.tick);
    }
}

proof fn lemma_survey(w: WorldView)
    ensures
        chronicled(w, tick::surveyed(w)),
{
    broadcast use lemma_unchanged;

    if w.contract_runtime is Some {
        let gone = w.contracts.filter(|c: Contract| board::lapsed(w.tick, c));
        let left = WorldView {
            contracts: w.contracts.filter(|c: Contract| !board::lapsed(w.tick, c)),
            ..w
        };
        lemma_expiries(left, gone, gone.len() as int);
    }
}

proof fn lemma_seizures(w: WorldView, called: Seq<Loan>, n: int)
    ensures
        chronicled(w, books::seized(w, called, n)),
    decreases n,
{
    broadcast use lemma_unchanged, lemma_one;

    if n > 0 {
        lemma_seizures(w, called, n - 1);
        let v = books::seized(w, called, n - 1);
        let u = books::seized(w, called, n);
        assert(appended(v.events, u.events, w.tick));
        lemma_chain(w.events, v.events, u.events, w.tick);
    }
}

proof fn lemma_settlements(w: WorldView, due: Seq<Future>, n: int)
    ensures
        chronicled(w, books::futures_settled(w, due, n)),
    decreases n,
{
    broadcast use lemma_unchanged, lemma_one;

    if n > 0 {
        lemma_settlements(w, due, n - 1);
        let v = books::futures_settled(w, due, n - 1);
        let u = books::futures_settled(w, due, n);
        assert(appended(v.events, u.events, w.tick));
        lemma_chain(w.events, v.events, u.events, w.tick);
    }
}

proof fn lemma_books(w: WorldView)
    ensures
        chronicled(w, books::finance_run(w)),
{
    broadcast use lemma_unchanged;

    let a = books::loans_run(w);
    if w.loan_runtime is Some {
        let loans = books::loans_accrued(w);
        let called = loans.filter(|l: Loan| books::overdue(w.tick, l));
        let left = WorldView {
            loans: loans.filter(|l: Loan| !books::overdue(w.tick, l)),
            ..w
        };
        lemma_seizures(left, called, called.len() as int);
    }
    let b = books::policies_run(a);
    let due = b.futures.filter(|f: Future| books::matured(b.tick, f));
    let rest = WorldView {
        futures: b.futures.filter(|f: Future| !books::matured(b.tick, f)),
        ..b
    };
    lemma_settlements(rest, due, due.len() as int);
    lemma_chain(w.events, a.events, books::finance_run(w).events, w.tick);
}

proof fn lemma_end(w: WorldView, reward: Money)
    ensures
        appended(w.events, tick::ended(w, reward).events, w.tick),
        tick::ended(w, reward).tick == w.tick.spec_plus(1),
{
    broadcast use lemma_unchanged, lemma_one;

    let v = board::board_filled(w, reward);
    assert(appended(w.events, v.events, w.tick));
    lemma_books(v);
    lemma_chain(w.events, v.events, books::finance_run(v).events, w.tick);
}

/// A whole tick only adds events of that tick to the log, at its end: what a follower
/// collects tick by tick is the log.
pub proof fn lemma_tick_logs_its_own_events(w: WorldView, h: HostTick)
    ensures
        appended(w.events, tick::ticked(w, h).events, w.tick),
        tick::ticked(w, h).tick == w.tick.spec_plus(1),
{
    broadcast use lemma_unchanged;

    lemma_commands(w, w.commands.len() as int);
    let a = tick::begun(w, h.wants);
    let b = tick::engaged(a, h.targets, h.pirate_shields, h.navy_shields);
    lemma_engagement(a, h.targets, h.pirate_shields, h.navy_shields);
    let list = battle::all_fought(b.encounters, h.results);
    let done = list.filter(|e: ActiveView| battle::is_over(e));
    let left = WorldView { encounters: list.filter(|e: ActiveView| !battle::is_over(e)), ..b };
    lemma_battles(left, done, done.len() as int);
    let c = tick::fought(b, h.results);
    lemma_chain(w.events, b.events, c.events, w.tick);
    lemma_haggling(c, h.answers, h.answers.len() as int);
    let d = tick::haggled(c, h.answers, h.answers.len() as int);
    lemma_chain(w.events, c.events, d.events, w.tick);
    lemma_survey(d);
    let e = tick::surveyed(d);
    lemma_chain(w.events, d.events, e.events, w.tick);
    lemma_end(e, h.reward);
    lemma_chain(w.events, e.events, tick::ended(e, h.reward).events, w.tick);
}

proof fn lemma_present(events: Seq<EventView>, new: Seq<EventView>, now: Tick)
    requires
        past(events, now),
        stamped(new, now),
        now.0 < u64::MAX,
    ensures
        past(all_logged(events, new), now.spec_plus(1)),
    decreases new.len(),
{
    if new.len() > 0 {
        let init = new.drop_last();
        assert(stamped(init, now)) by {
            assert forall|i: int| 0 <= i < init.len() implies (#[trigger] init[i]).tick == now by {
                assert(init[i] == new[i]);
            }
        }
        lemma_present(events, init, now);
        let before = all_logged(events, init);
        assert(new[new.len() - 1].tick == now);
        let longer = before.push(new.last());
        assert(past(longer, now.spec_plus(1)));
        let shorter = longer.subrange(1, longer.len() as int);
        assert forall|i: int| 0 <= i < shorter.len() implies (#[trigger] shorter[i]).tick.0
            < now.0 + 1 by {
            assert(shorter[i] == longer[i + 1]);
        }
        assert forall|i: int, j: int| 0 <= i <= j < shorter.len() implies (
        #[trigger] shorter[i]).tick.0 <= (#[trigger] shorter[j]).tick.0 by {
            assert(shorter[i] == longer[i + 1]);
            assert(shorter[j] == longer[j + 1]);
        }
    }
}

/// The log stays in the order of the ticks, with nothing in it that has not happened yet.
pub proof fn lemma_log_stays_in_order(w: WorldView, h: HostTick)
    requires
        past(w.events, w.tick),
        w.tick.0 < u64::MAX,
    ensures
        past(tick::ticked(w, h).events, tick::ticked(w, h).tick),
{
    lemma_tick_logs_its_own_events(w, h);
    let new = choose|new: Seq<EventView>|
        stamped(new, w.tick) && #[trigger] all_logged(w.events, new) == tick::ticked(w, h).events;
    lemma_present(w.events, new, w.tick);
}

} // verus!
