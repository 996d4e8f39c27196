//! Who is about, command by command: which traders and pirates there are after each.

use vstd::prelude::*;

use crate::command::{Command, CommandError};
use crate::contract::Contract;
use crate::encounter::Combatant;
use crate::event::EventCategory;
use crate::finance::{Future, Loan};
use crate::ids::{CommodityId, Money, Owner, PatrolId, PlayerId, Quantity, SystemId, TraderId};
use crate::money;
use crate::patrol::Patrol;
use crate::pricing::PricingSet;
use crate::registry::Registry;
use crate::scenario::ScenarioDef;
use crate::search;
use crate::trader::TraderView;
use crate::world::battle;
use crate::world::board;
use crate::world::books;
use crate::world::commands;
use crate::world::identity;
use crate::world::messages;
use crate::world::setup;
use crate::world::tick;
use crate::world::tick::HostTick;
use crate::world::trade;
use crate::world::trade::TradePlan;
use crate::world::{ActiveView, KindView, PiracyStats, Stage, Tables, WorldView};

verus! {

/// The ids of the traders, in order.
pub open spec fn roster(w: WorldView) -> Seq<TraderId> {
    Seq::new(w.traders.len(), |i: int| w.traders[i].id)
}

/// The bounty on a pirate.
pub open spec fn bounty_on_a_pirate(w: WorldView) -> Money {
    match w.piracy {
        Some(p) => p.bounty,
        None => 0,
    }
}

/// What a reported kill does: the pirate leaves its fleet and the others keep their
/// order; the trader is paid the bounty; both are counted; and the bounties that the
/// trader holds advance by one, up to their target.
pub proof fn lemma_kill_is_paid(
    w: WorldView,
    player: PlayerId,
    trader: TraderId,
    pirate: PatrolId,
)
    requires
        commands::applied(w, Command::DestroyedPirate { player, trader, pirate }) is Ok,
    ensures
        ({
            let v = commands::applied(w, Command::DestroyedPirate { player, trader, pirate })->Ok_0;
            let i = commands::owned_slot(w, trader, player)->Ok_0;
            let pi = commands::patrol_slot(w.pirates, pirate)->Some_0;
            let bounty = bounty_on_a_pirate(w);
            &&& 0 <= i < w.traders.len()
            &&& w.traders[i].id == trader
            &&& 0 <= pi < w.pirates.len()
            &&& w.pirates[pi].id == pirate
            &&& v.pirates == w.pirates.remove(pi)
            &&& v.traders == w.traders.update(
                i,
                TraderView {
                    capital: money::wrapped(w.traders[i].capital + bounty),
                    ..w.traders[i]
                },
            )
            &&& v.piracy_stats == (PiracyStats {
                pirates_destroyed: w.piracy_stats.pirates_destroyed.wrapping_add(1),
                bounties_paid: money::wrapped(w.piracy_stats.bounties_paid + bounty),
                ..w.piracy_stats
            })
            &&& v.contracts == commands::board_credited(w.contracts, trader, 1)
            &&& v.next_trader_id == w.next_trader_id
            &&& v == (WorldView {
                traders: v.traders,
                pirates: v.pirates,
                contracts: v.contracts,
                piracy_stats: v.piracy_stats,
                events: v.events,
                ..w
            })
        }),
{
    reveal(commands::applied);
    identity::lemma_owned(w, trader, player);
    search::lemma_first_found(w.pirates, |p: Patrol| p.id == pirate);
    let v = commands::apply_destroyed_pirate(w, player, trader, pirate)->Ok_0;
    let i = commands::owned_slot(w, trader, player)->Ok_0;
    let pi = commands::patrol_slot(w.pirates, pirate)->Some_0;
    let t = w.traders[i];
    let at = w.pirates[pi].spec_docked_at();
    let bounty = bounty_on_a_pirate(w);
    let met = w.contracts.filter(|c: Contract| commands::quota_met(c, trader, 1));
    let settled = WorldView {
        pirates: w.pirates.remove(pi),
        piracy_stats: PiracyStats {
            pirates_destroyed: w.piracy_stats.pirates_destroyed.wrapping_add(1),
            bounties_paid: money::wrapped(w.piracy_stats.bounties_paid + bounty),
            ..w.piracy_stats
        },
        contracts: commands::board_credited(w.contracts, trader, 1),
        ..w.with_trader(i, TraderView { capital: money::wrapped(t.capital + bounty), ..t })
    }.log(EventCategory::Combat, at, messages::killed(trader, bounty));
    identity::lemma_quotas_only_log(settled, met, met.len() as int, trader, at, ""@);
    assert(v == commands::quotas_logged(settled, met, met.len() as int, trader, at, ""@));
}

/// A kill is paid once: after it has been reported, no report of it succeeds, and the
/// reporter is told that there is no such patrol.
pub proof fn lemma_kill_is_paid_once(
    w: WorldView,
    player: PlayerId,
    trader: TraderId,
    pirate: PatrolId,
)
    requires
        identity::sound(w),
        commands::applied(w, Command::DestroyedPirate { player, trader, pirate }) is Ok,
    ensures
        ({
            let report = Command::DestroyedPirate { player, trader, pirate };
            let v = commands::applied(w, report)->Ok_0;
            &&& commands::patrol_slot(v.pirates, pirate) is None
            &&& commands::applied(v, report) == Err::<WorldView, CommandError>(
                CommandError::UnknownPatrol,
            )
            &&& forall|p: PlayerId, t: TraderId|
                (#[trigger] commands::applied(
                    v,
                    Command::DestroyedPirate { player: p, trader: t, pirate },
                )) is Err
        }),
{
    let v = commands::applied(w, Command::DestroyedPirate { player, trader, pirate })->Ok_0;
    lemma_kill_is_paid(w, player, trader, pirate);
    let i = commands::owned_slot(w, trader, player)->Ok_0;
    let pi = commands::patrol_slot(w.pirates, pirate)->Some_0;
    let gone = |p: Patrol| p.id == pirate;
    assert forall|j: int| 0 <= j < v.pirates.len() implies !gone(#[trigger] v.pirates[j]) by {
        let k = if j < pi {
            j
        } else {
            j + 1
        };
        assert(v.pirates[j] == w.pirates[k]);
        assert(identity::patrol_key()(w.pirates[k]) != identity::patrol_key()(w.pirates[pi]));
    }
    search::lemma_first_none(v.pirates, gone);
    let mine = |t: TraderView| t.id == trader;
    search::lemma_first_found(w.traders, mine);
    assert forall|j: int| 0 <= j < i implies !mine(#[trigger] v.traders[j]) by {
        assert(v.traders[j] == w.traders[j]);
        assert(!mine(w.traders[j]));
    }
    search::lemma_first_is(v.traders, mine, i);
    reveal(commands::applied);
}

/// What a command does to the traders: a spawn appends one with the next id, a despawn
/// takes out exactly the one it names, and any other leaves the roster as it is.
pub proof fn lemma_command_keeps_the_roster(w: WorldView, c: Command)
    requires
        commands::applied(w, c) is Ok,
    ensures
        ({
            let v = commands::applied(w, c)->Ok_0;
            match c {
                Command::Spawn { player, ship, at, capital } => {
                    &&& v.traders == w.traders.push(
                        TraderView::fresh(
                            TraderId(w.next_trader_id),
                            ship,
                            capital,
                            at,
                            Owner::Player(player),
                        ),
                    )
                    &&& v.next_trader_id == w.next_trader_id.wrapping_add(1)
                },
                Command::Despawn { player, trader } => {
                    let i = commands::owned_slot(w, trader, player)->Ok_0;
                    &&& 0 <= i < w.traders.len()
                    &&& w.traders[i].id == trader
                    &&& v.traders == w.traders.remove(i)
                    &&& v.next_trader_id == w.next_trader_id
                },
                _ => roster(v) == roster(w) && v.next_trader_id == w.next_trader_id,
            }
        }),
{
    let v = commands::applied(w, c)->Ok_0;
    match c {
        Command::Spawn { player, ship, at, capital } => {
            reveal(commands::applied);
        },
        Command::Despawn { player, trader } => {
            reveal(commands::applied);
            identity::lemma_owned(w, trader, player);
        },
        Command::DestroyedPirate { player, trader, pirate } => {
            lemma_kill_is_paid(w, player, trader, pirate);
            assert(roster(v) =~= roster(w));
        },
        Command::AcceptContract { player, trader, contract } => {
            reveal(commands::applied);
        },
        Command::Jump { player, trader, dest } => {
            reveal(commands::applied);
            identity::lemma_owned(w, trader, player);
            assert(roster(v) =~= roster(w));
        },
        Command::Buy { player, trader, commodity, qty } => {
            reveal(commands::applied);
            identity::lemma_owned(w, trader, player);
            assert(roster(v) =~= roster(w));
        },
        Command::Sell { player, trader, commodity, qty } => {
            reveal(commands::applied);
            identity::lemma_owned(w, trader, player);
            assert(roster(v) =~= roster(w));
        },
        Command::ScoopCargo { player, trader, commodity, qty } => {
            reveal(commands::applied);
            identity::lemma_owned(w, trader, player);
            assert(roster(v) =~= roster(w));
        },
        Command::FulfillContract { player, trader, contract } => {
            reveal(commands::applied);
            identity::lemma_owned(w, trader, player);
            assert(roster(v) =~= roster(w));
        },
        Command::TakeLoan { player, trader, principal } => {
            reveal(commands::applied);
            identity::lemma_owned(w, trader, player);
            assert(roster(v) =~= roster(w));
        },
        Command::RepayLoan { player, trader, loan, amount } => {
            reveal(commands::applied);
            identity::lemma_owned(w, trader, player);
            assert(roster(v) =~= roster(w));
        },
        Command::BuyInsurance { player, trader } => {
            reveal(commands::applied);
            identity::lemma_owned(w, trader, player);
            assert(roster(v) =~= roster(w));
        },
        Command::OpenFuture { player, trader, commodity, qty, side } => {
            reveal(commands::applied);
            identity::lemma_owned(w, trader, player);
            assert(roster(v) =~= roster(w));
        },
        Command::TraderDestroyed { player, trader } => {
            reveal(commands::applied);
            identity::lemma_owned(w, trader, player);
            assert(roster(v) =~= roster(w));
        },
    }
}

/// The source of trader ids never goes back while commands are obeyed.
proof fn lemma_source_ascends(w: WorldView, k: int, n: int)
    requires
        identity::sound(w),
        0 <= k <= n <= w.commands.len(),
        identity::spare(w, w.commands.len() as int),
    ensures
        tick::obeyed(w, k).next_trader_id <= tick::obeyed(w, n).next_trader_id,
    decreases n - k,
{
    if k < n {
        lemma_source_ascends(w, k, n - 1);
        identity::lemma_commands_keep_ids(w, n - 1);
        let v = tick::obeyed(w, n - 1);
        if commands::applied(v, w.commands[n - 1]) is Ok {
            identity::lemma_command_keeps_ids(v, w.commands[n - 1]);
        }
    }
}

/// A spawned trader bears an id above every id that was ever borne before: whatever
/// commands came first, in whatever order.
pub proof fn lemma_spawned_id_is_new(w: WorldView, k: int, n: int)
    requires
        identity::sound(w),
        0 <= k < n <= w.commands.len(),
        identity::spare(w, w.commands.len() as int),
        w.commands[n - 1] is Spawn,
        commands::applied(tick::obeyed(w, n - 1), w.commands[n - 1]) is Ok,
    ensures
        ({
            let before = roster(tick::obeyed(w, n - 1));
            let after = roster(tick::obeyed(w, n));
            let earlier = roster(tick::obeyed(w, k));
            &&& after == before.push(after.last())
            &&& forall|j: int| 0 <= j < earlier.len() ==> (#[trigger] earlier[j]).0 < after.last().0
        }),
{
    let v = tick::obeyed(w, n - 1);
    let x = tick::obeyed(w, n);
    lemma_command_keeps_the_roster(v, w.commands[n - 1]);
    lemma_source_ascends(w, k, n - 1);
    identity::lemma_commands_keep_ids(w, k);
    assert(roster(x) =~= roster(v).push(TraderId(v.next_trader_id)));
    let u = tick::obeyed(w, k);
    assert forall|j: int| 0 <= j < roster(u).len() implies (#[trigger] roster(u)[j]).0
        < roster(x).last().0 by {
        assert(identity::trader_key()(u.traders[j]) < u.next_trader_id);
    }
}

/// A despawned trader is the only one to leave: the others keep their order and ids.
pub proof fn lemma_despawn_takes_one(w: WorldView, player: PlayerId, trader: TraderId)
    requires
        commands::applied(w, Command::Despawn { player, trader }) is Ok,
    ensures
        ({
            let v = commands::applied(w, Command::Despawn { player, trader })->Ok_0;
            let i = commands::owned_slot(w, trader, player)->Ok_0;
            &&& 0 <= i < w.traders.len()
            &&& roster(w)[i] == trader
            &&& v.traders == w.traders.remove(i)
            &&& roster(v) == roster(w).remove(i)
        }),
{
    lemma_command_keeps_the_roster(w, Command::Despawn { player, trader });
    let v = commands::applied(w, Command::Despawn { player, trader })->Ok_0;
    let i = commands::owned_slot(w, trader, player)->Ok_0;
    assert(roster(v) =~= roster(w).remove(i));
}

/// An id that has been given out and is not borne any more is never borne again, whatever
/// commands follow: each purchase in its name is refused as one by an unknown trader.
pub proof fn lemma_id_is_never_reused(w: WorldView, n: int, m: int, id: TraderId)
    requires
        identity::sound(w),
        0 <= n <= m <= w.commands.len(),
        identity::spare(w, w.commands.len() as int),
        id.0 < tick::obeyed(w, n).next_trader_id,
        !roster(tick::obeyed(w, n)).contains(id),
    ensures
        !roster(tick::obeyed(w, m)).contains(id),
        forall|player: PlayerId, commodity: CommodityId, qty: Quantity|
            qty > 0 ==> (#[trigger] commands::applied(
                tick::obeyed(w, m),
                Command::Buy { player, trader: id, commodity, qty },
            )) == Err::<WorldView, CommandError>(CommandError::UnknownTrader),
    decreases m - n,
{
    let x = tick::obeyed(w, m);
    if n < m {
        lemma_id_is_never_reused(w, n, m - 1, id);
        lemma_source_ascends(w, n, m - 1);
        let v = tick::obeyed(w, m - 1);
        let c = w.commands[m - 1];
        if commands::applied(v, c) is Ok {
            lemma_command_keeps_the_roster(v, c);
            if roster(x).contains(id) {
                let j = roster(x).index_of(id);
                let next = commands::applied(v, c)->Ok_0;
                assert(roster(x) =~= roster(next));
                match c {
                    Command::Spawn { player, ship, at, capital } => {
                        assert(roster(v)[j] == id);
                    },
                    Command::Despawn { player, trader } => {
                        let i = commands::owned_slot(v, trader, player)->Ok_0;
                        let k = if j < i {
                            j
                        } else {
                            j + 1
                        };
                        assert(roster(v)[k] == id);
                    },
                    _ => {
                        assert(roster(v)[j] == id);
                    },
                }
            }
        } else {
            assert(roster(x) =~= roster(v));
        }
    }
    let p = |t: TraderView| t.id == id;
    assert forall|j: int| 0 <= j < x.traders.len() implies !p(#[trigger] x.traders[j]) by {
        assert(roster(x)[j] == x.traders[j].id);
    }
    search::lemma_first_none(x.traders, p);
    reveal(commands::applied);
}

/// A battle that has ended leaves the roster as it is.
proof fn lemma_battle_keeps_the_roster(w: WorldView, e: ActiveView)
    ensures
        roster(battle::battle_closed(w, e)) == roster(w),
{
    let v = battle::battle_closed(w, e);
    match e.kind {
        KindView::Hunt { sys, navy, pirates, pirates_offset } => {
            assert(roster(v) =~= roster(w));
        },
        KindView::Ambush {
            trader,
            dest,
            navy,
            pirates,
            navy_offset,
            pirate_offset,
            respawn_delay,
            bounty,
        } => {
            lemma_ambush_keeps_the_roster(
                w,
                e.combatants,
                trader,
                dest,
                navy,
                pirates,
                navy_offset,
                pirate_offset,
                respawn_delay,
                bounty,
            );
        },
    }
}

/// An ambush that has ended leaves the roster as it is.
proof fn lemma_ambush_keeps_the_roster(
    w: WorldView,
    ships: Seq<Combatant>,
    trader: TraderId,
    dest: SystemId,
    navy: Seq<PatrolId>,
    pirates: Seq<PatrolId>,
    navy_offset: int,
    pirate_offset: int,
    respawn_delay: u64,
    bounty: Money,
)
    ensures
        roster(
            battle::ambush_closed(
                w,
                ships,
                trader,
                dest,
                navy,
                pirates,
                navy_offset,
                pirate_offset,
                respawn_delay,
                bounty,
            ),
        ) == roster(w),
{
    search::lemma_first_found(w.traders, |t: TraderView| t.id == trader);
    let down = battle::fallen(ships, navy_offset, navy.len() as int);
    let kills = battle::fallen(ships, pirate_offset, pirates.len() as int);
    let tallied = WorldView {
        piracy_stats: PiracyStats {
            navy_lost: w.piracy_stats.navy_lost.wrapping_add(down as u64),
            pirates_destroyed: w.piracy_stats.pirates_destroyed.wrapping_add(kills as u64),
            ..w.piracy_stats
        },
        navy: battle::written_back(w.navy, navy, ships, navy_offset, navy.len() as int).filter(
            battle::living(),
        ),
        pirates: battle::written_back(
            w.pirates,
            pirates,
            ships,
            pirate_offset,
            pirates.len() as int,
        ).filter(battle::living()),
        ..w
    };
    let v = battle::ambush_closed(
        w,
        ships,
        trader,
        dest,
        navy,
        pirates,
        navy_offset,
        pirate_offset,
        respawn_delay,
        bounty,
    );
    if let Some(t) = commands::trader_slot(w.traders, trader) {
        if ships[0].alive {
            lemma_win_keeps_the_roster(tallied, t, trader, dest, pirates.len(), kills, bounty);
        }
    }
    assert(roster(v) =~= roster(w));
}

/// A won ambush leaves the roster as it is.
proof fn lemma_win_keeps_the_roster(
    w: WorldView,
    t: int,
    trader: TraderId,
    dest: SystemId,
    pirates: nat,
    kills: nat,
    bounty: Money,
)
    requires
        0 <= t < w.traders.len(),
    ensures
        roster(battle::ambush_survived(w, t, trader, dest, pirates, kills, bounty)) == roster(w),
{
    let v = battle::ambush_survived(w, t, trader, dest, pirates, kills, bounty);
    let reward = money::wrapped(bounty * kills);
    let met = if kills > 0 {
        w.contracts.filter(|c: Contract| commands::quota_met(c, trader, kills as int))
    } else {
        Seq::empty()
    };
    let paid = WorldView {
        piracy_stats: PiracyStats {
            bounties_paid: money::wrapped(w.piracy_stats.bounties_paid + reward),
            ..w.piracy_stats
        },
        contracts: if kills > 0 {
            commands::board_credited(w.contracts, trader, kills as int)
        } else {
            w.contracts
        },
        ..w.with_trader(
            t,
            TraderView {
                capital: money::wrapped(w.traders[t].capital + reward),
                ..w.traders[t]
            },
        )
    }.log(
        EventCategory::Combat,
        Some(dest),
        messages::ambush_won(
            w.registry.spec_systems()[dest.0 as int].name@,
            trader,
            pirates,
            kills,
            reward,
        ),
    );
    let ending = "; claim at its station"@;
    identity::lemma_quotas_only_log(paid, met, met.len() as int, trader, Some(dest), ending);
    assert(v == commands::quotas_logged(paid, met, met.len() as int, trader, Some(dest), ending));
    assert(roster(v) =~= roster(w));
}

/// Battles that have ended leave the roster as it is.
proof fn lemma_battles_keep_the_roster(w: WorldView, done: Seq<ActiveView>, n: int)
    ensures
        roster(battle::battles_closed(w, done, n)) == roster(w),
    decreases n,
{
    if n > 0 {
        lemma_battles_keep_the_roster(w, done, n - 1);
        lemma_battle_keeps_the_roster(battle::battles_closed(w, done, n - 1), done[n - 1]);
    }
}

/// The turns of the traders leave the roster as it is.
proof fn lemma_trading_keeps_the_roster(w: WorldView, t: int)
    requires
        0 <= t,
    ensures
        roster(trade::traded(w, t)) == roster(w),
    decreases w.traders.len() - t,
{
    if t < w.traders.len() {
        trade::lemma_turn_keeps_traders(w, t);
        assert(roster(trade::turn(w, t).0) =~= roster(w));
        if trade::turn(w, t).1 is None {
            lemma_trading_keeps_the_roster(trade::turn(w, t).0, t + 1);
        }
    }
}

/// Trading leaves the roster as it is.
proof fn lemma_haggling_keeps_the_roster(
    w: WorldView,
    answers: Seq<(Option<TradePlan>, Seq<Option<Money>>)>,
    n: int,
)
    requires
        identity::sound(w),
        w.stage == Stage::Trading(0),
        w.traders.len() <= usize::MAX,
    ensures
        roster(tick::haggled(w, answers, n)) == roster(w),
    decreases n,
{
    if n <= 0 {
        lemma_trading_keeps_the_roster(w, 0);
    } else {
        lemma_haggling_keeps_the_roster(w, answers, n - 1);
        identity::lemma_haggling_keeps_ids(w, answers, n - 1);
        let v = tick::haggled(w, answers, n - 1);
        let x = trade::answered(v, answers[n - 1].0, answers[n - 1].1);
        assert(roster(x) =~= roster(v));
        if let Stage::Trading(t) = x.stage {
            lemma_trading_keeps_the_roster(x, t as int);
        }
    }
}

/// Crediting a trader leaves the roster as it is.
proof fn lemma_credit_keeps_the_roster(w: WorldView, id: TraderId, amount: int)
    ensures
        roster(books::credit_trader(w, id, amount)) == roster(w),
{
    search::lemma_first_found(w.traders, |t: TraderView| t.id == id);
    assert(roster(books::credit_trader(w, id, amount)) =~= roster(w));
}

proof fn lemma_seizures_keep_the_roster(w: WorldView, called: Seq<Loan>, n: int)
    ensures
        roster(books::seized(w, called, n)) == roster(w),
    decreases n,
{
    if n > 0 {
        lemma_seizures_keep_the_roster(w, called, n - 1);
        let l = called[n - 1];
        let before = books::seized(w, called, n - 1);
        let due = -(l.outstanding as int);
        lemma_credit_keeps_the_roster(before, l.borrower, due);
        assert(roster(books::seized(w, called, n)) =~= roster(
            books::credit_trader(before, l.borrower, due),
        ));
    }
}

proof fn lemma_settlements_keep_the_roster(w: WorldView, due: Seq<Future>, n: int)
    ensures
        roster(books::futures_settled(w, due, n)) == roster(w),
    decreases n,
{
    if n > 0 {
        lemma_settlements_keep_the_roster(w, due, n - 1);
        let before = books::futures_settled(w, due, n - 1);
        let f = due[n - 1];
        let gain = money::wrapped(f.gain(books::settlement(before, f))) as int;
        lemma_credit_keeps_the_roster(before, f.holder, gain);
        assert(roster(books::futures_settled(w, due, n)) =~= roster(
            books::credit_trader(before, f.holder, gain),
        ));
    }
}

/// Closing the books leaves the roster as it is.
proof fn lemma_books_keep_the_roster(w: WorldView)
    ensures
        roster(books::finance_run(w)) == roster(w),
{
    if w.loan_runtime is Some {
        let loans = books::loans_accrued(w);
        let called = loans.filter(|l: Loan| books::overdue(w.tick, l));
        let left = WorldView {
            loans: loans.filter(|l: Loan| !books::overdue(w.tick, l)),
            ..w
        };
        lemma_seizures_keep_the_roster(left, called, called.len() as int);
        assert(roster(left) =~= roster(w));
    }
    let a = books::policies_run(books::loans_run(w));
    assert(roster(a) =~= roster(w));
    let due = a.futures.filter(|f: Future| books::matured(a.tick, f));
    let rest = WorldView {
        futures: a.futures.filter(|f: Future| !books::matured(a.tick, f)),
        ..a
    };
    lemma_settlements_keep_the_roster(rest, due, due.len() as int);
    assert(roster(rest) =~= roster(a));
}

/// Only commands change the roster: the rest of a tick leaves it as it is.
pub proof fn lemma_tick_keeps_the_roster(w: WorldView, h: HostTick)
    requires
        identity::sound(w),
        room_for_a_tick(w),
    ensures
        roster(tick::ticked(w, h)) == roster(tick::commanded(w)),
        tick::commanded(w).next_trader_id <= tick::ticked(w, h).next_trader_id,
{
    let n = w.commands.len() as int;
    identity::lemma_commands_keep_ids(w, n);
    let c = tick::commanded(w);
    let a = tick::begun(w, h.wants);
    identity::lemma_begin_keeps_ids(w, h.wants);
    assert(roster(a) =~= roster(c));
    let b = tick::engaged(a, h.targets, h.pirate_shields, h.navy_shields);
    identity::lemma_engagement_keeps_ids(a, h.targets, h.pirate_shields, h.navy_shields);
    assert(roster(b) =~= roster(a));
    let list = battle::all_fought(b.encounters, h.results);
    let done = list.filter(|e: ActiveView| battle::is_over(e));
    let left = WorldView { encounters: list.filter(|e: ActiveView| !battle::is_over(e)), ..b };
    lemma_battles_keep_the_roster(left, done, done.len() as int);
    let d = tick::fought(b, h.results);
    identity::lemma_combat_keeps_ids(b, h.results);
    assert(roster(left) =~= roster(b));
    assert(roster(d) =~= roster(b));
    let e = tick::haggled(d, h.answers, h.answers.len() as int);
    identity::lemma_haggling_keeps_ids(d, h.answers, h.answers.len() as int);
    lemma_haggling_keeps_the_roster(d, h.answers, h.answers.len() as int);
    let f = tick::surveyed(e);
    identity::lemma_survey_keeps_ids(e);
    lemma_survey_keeps_the_roster(e);
    identity::lemma_end_keeps_ids(f, h.reward);
    let g = board::board_filled(f, h.reward);
    assert(roster(g) =~= roster(f));
    lemma_books_keep_the_roster(g);
    assert(roster(tick::ended(f, h.reward)) =~= roster(books::finance_run(g)));
}

/// Sweeping the board leaves the roster as it is.
proof fn lemma_survey_keeps_the_roster(w: WorldView)
    ensures
        roster(tick::surveyed(w)) == roster(w),
{
    if w.contract_runtime is Some {
        let gone = w.contracts.filter(|c: Contract| board::lapsed(w.tick, c));
        let left = WorldView {
            contracts: w.contracts.filter(|c: Contract| !board::lapsed(w.tick, c)),
            ..w
        };
        identity::lemma_expiries_only_log(left, gone, gone.len() as int);
    }
    assert(roster(tick::surveyed(w)) =~= roster(w));
}

/// Whether the 64-bit sources of ids last for another tick.
pub open spec fn room_for_a_tick(w: WorldView) -> bool {
    &&& identity::spare(w, w.commands.len() as int + 0x2_0000_0001)
    &&& w.traders.len() + w.commands.len() <= usize::MAX
}

/// Whether the sources of ids last for each of the first `n` ticks of a run.
pub open spec fn room_for_a_run(
    w: WorldView,
    script: Seq<(Seq<Command>, HostTick)>,
    n: int,
) -> bool {
    forall|k: int|
        0 <= k < n ==> {
            let v = #[trigger] tick::ran(w, script, k);
            room_for_a_tick(WorldView { commands: v.commands + script[k].0, ..v })
        }
}

/// Over a whole run, an id that has been given out and is not borne any more is never
/// borne again: handles are stable, and none is handed out twice.
pub proof fn lemma_id_is_never_reused_in_a_run(
    w: WorldView,
    script: Seq<(Seq<Command>, HostTick)>,
    n: int,
    id: TraderId,
)
    requires
        identity::sound(w),
        0 <= n <= script.len(),
        room_for_a_run(w, script, n),
        id.0 < w.next_trader_id,
        !roster(w).contains(id),
    ensures
        identity::sound(tick::ran(w, script, n)),
        id.0 < tick::ran(w, script, n).next_trader_id,
        !roster(tick::ran(w, script, n)).contains(id),
    decreases n,
{
    if n > 0 {
        assert(room_for_a_run(w, script, n - 1));
        lemma_id_is_never_reused_in_a_run(w, script, n - 1, id);
        let v = tick::ran(w, script, n - 1);
        let u = WorldView { commands: v.commands + script[n - 1].0, ..v };
        assert(room_for_a_tick(u));
        assert(roster(u) =~= roster(v));
        let len = u.commands.len() as int;
        let start = tick::obeyed(u, 0);
        assert(roster(start) =~= roster(u));
        identity::lemma_commands_keep_ids(u, 0);
        lemma_id_is_never_reused(u, 0, len, id);
        lemma_source_ascends(u, 0, len);
        lemma_tick_keeps_the_roster(u, script[n - 1].1);
        identity::lemma_tick_keeps_ids(u, script[n - 1].1);
        reveal(tick::stepped);
    }
}

/// Handles stay sound over a whole run.
pub proof fn lemma_run_keeps_handles_sound(
    w: WorldView,
    script: Seq<(Seq<Command>, HostTick)>,
    n: int,
)
    requires
        identity::sound(w),
        0 <= n <= script.len(),
        room_for_a_run(w, script, n),
    ensures
        identity::sound(tick::ran(w, script, n)),
    decreases n,
{
    if n > 0 {
        assert(room_for_a_run(w, script, n - 1));
        lemma_run_keeps_handles_sound(w, script, n - 1);
        let v = tick::ran(w, script, n - 1);
        let u = WorldView { commands: v.commands + script[n - 1].0, ..v };
        assert(room_for_a_tick(u));
        identity::lemma_tick_keeps_ids(u, script[n - 1].1);
        reveal(tick::stepped);
    }
}

/// In any world that a run leads to, a kill is paid once: from the world as it was built,
/// after any number of ticks and any commands of the next, a second report of the kill is
/// refused as one of an unknown patrol.
pub proof fn lemma_kill_is_paid_once_in_a_run(
    reg: Registry,
    scenario: ScenarioDef,
    seed: u64,
    pricing: PricingSet,
    tables: Tables,
    opening: Seq<Vec<Money>>,
    script: Seq<(Seq<Command>, HostTick)>,
    n: int,
    queue: Seq<Command>,
    k: int,
    player: PlayerId,
    trader: TraderId,
    pirate: PatrolId,
)
    requires
        setup::built(reg, scenario, seed, pricing, tables, opening) is Ok,
        ({
            let w = setup::built(reg, scenario, seed, pricing, tables, opening)->Ok_0;
            let v = WorldView { commands: queue, ..tick::ran(w, script, n) };
            let report = Command::DestroyedPirate { player, trader, pirate };
            &&& 0 <= n <= script.len()
            &&& room_for_a_run(w, script, n)
            &&& room_for_a_tick(v)
            &&& 0 <= k <= queue.len()
            &&& commands::applied(tick::obeyed(v, k), report) is Ok
        }),
    ensures
        ({
            let w = setup::built(reg, scenario, seed, pricing, tables, opening)->Ok_0;
            let v = WorldView { commands: queue, ..tick::ran(w, script, n) };
            let report = Command::DestroyedPirate { player, trader, pirate };
            let paid = commands::applied(tick::obeyed(v, k), report)->Ok_0;
            &&& commands::patrol_slot(paid.pirates, pirate) is None
            &&& commands::applied(paid, report) == Err::<WorldView, CommandError>(
                CommandError::UnknownPatrol,
            )
        }),
{
    let w = setup::built(reg, scenario, seed, pricing, tables, opening)->Ok_0;
    identity::lemma_new_world_is_sound(reg, scenario, seed, pricing, tables, opening);
    lemma_run_keeps_handles_sound(w, script, n);
    let v = WorldView { commands: queue, ..tick::ran(w, script, n) };
    identity::lemma_commands_keep_ids(v, k);
    lemma_kill_is_paid_once(tick::obeyed(v, k), player, trader, pirate);
}

} // verus!
