//! Stable handles: the ids of traders, contracts, loans and patrols are handed out in
//! ascending order and never reused, whatever a tick does.

use vstd::prelude::*;

use crate::bits::Bits;
use crate::command::Command;
use crate::contract::Contract;
use crate::encounter::Combatant;
use crate::event::EventCategory;
use crate::finance::{Future, Loan};
use crate::ids::{Money, PatrolId, PlayerId, ShipId, SystemId, TraderId};
use crate::money;
use crate::patrol::Patrol;
use crate::pricing::PricingSet;
use crate::registry::Registry;
use crate::rng::DetRng;
use crate::scenario::ScenarioDef;
use crate::search;
use crate::trader::TraderView;
use crate::world::battle;
use crate::world::battle::Fought;
use crate::world::board;
use crate::world::books;
use crate::world::commands;
use crate::world::fleet;
use crate::world::fleet::FleetState;
use crate::world::messages;
use crate::world::setup;
use crate::world::tick;
use crate::world::tick::HostTick;
use crate::world::trade;
use crate::world::works;
use crate::world::{ActiveView, KindView, PiracyStats, Stage, Tables, WorldView};

verus! {

/// Whether every item of a list bears an id below `next`, each its own.
pub open spec fn issued<T>(list: Seq<T>, key: spec_fn(T) -> u64, next: u64) -> bool {
    &&& forall|i: int| 0 <= i < list.len() ==> key(#[trigger] list[i]) < next
    &&& forall|i: int, j: int|
        #![trigger list[i], list[j]]
        0 <= i < j < list.len() ==> key(list[i]) != key(list[j])
}

/// Whether the ids of `after` are those of some of `before`, or at least `from`.
pub open spec fn stems<T>(before: Seq<T>, after: Seq<T>, key: spec_fn(T) -> u64, from: u64) -> bool {
    forall|i: int|
        0 <= i < after.len() ==> key(#[trigger] after[i]) >= from || bears(
            before,
            key,
            key(after[i]),
        )
}

/// Whether some item of a list bears the id `id`.
pub open spec fn bears<T>(list: Seq<T>, key: spec_fn(T) -> u64, id: u64) -> bool {
    exists|i: int| 0 <= i < list.len() && key(#[trigger] list[i]) == id
}

/// The id of a trader.
pub open spec fn trader_key() -> spec_fn(TraderView) -> u64 {
    |t: TraderView| t.id.0
}

/// The id of a contract.
pub open spec fn contract_key() -> spec_fn(Contract) -> u64 {
    |c: Contract| c.id.0
}

/// The id of a loan.
pub open spec fn loan_key() -> spec_fn(Loan) -> u64 {
    |l: Loan| l.id.0
}

/// The id of a patrol.
pub open spec fn patrol_key() -> spec_fn(Patrol) -> u64 {
    |p: Patrol| p.id.0
}

/// Whether no id is borne by both fleets.
pub open spec fn fleets_apart(pirates: Seq<Patrol>, navy: Seq<Patrol>) -> bool {
    forall|i: int, j: int|
        #![trigger pirates[i], navy[j]]
        0 <= i < pirates.len() && 0 <= j < navy.len() ==> pirates[i].id != navy[j].id
}

/// Whether every handle in a world is its own, and older than the next to be issued.
pub open spec fn sound(w: WorldView) -> bool {
    &&& issued(w.traders, trader_key(), w.next_trader_id)
    &&& issued(w.contracts, contract_key(), w.next_contract_id)
    &&& issued(w.loans, loan_key(), w.next_loan_id)
    &&& issued(w.pirates, patrol_key(), w.next_patrol_id)
    &&& issued(w.navy, patrol_key(), w.next_patrol_id)
    &&& fleets_apart(w.pirates, w.navy)
}

/// What a step of a tick keeps: the content, the terms of the run and the clock; and the
/// sources of ids never go back. That of contracts moves only where one is posted.
pub open spec fn kept(w: WorldView, v: WorldView) -> bool {
    &&& v.registry == w.registry
    &&& v.tables == w.tables
    &&& v.tick == w.tick
    &&& v.piracy == w.piracy
    &&& v.navy_runtime == w.navy_runtime
    &&& v.escort == w.escort
    &&& v.contract_runtime == w.contract_runtime
    &&& v.loan_runtime == w.loan_runtime
    &&& v.insurance_runtime == w.insurance_runtime
    &&& v.future_runtime == w.future_runtime
    &&& v.next_trader_id >= w.next_trader_id
    &&& v.next_contract_id == w.next_contract_id
    &&& v.next_loan_id >= w.next_loan_id
    &&& v.next_patrol_id >= w.next_patrol_id
}

/// Whether the sources of ids have `n` to spare.
pub open spec fn spare(w: WorldView, n: int) -> bool {
    &&& w.next_trader_id + n <= u64::MAX
    &&& w.next_contract_id + n <= u64::MAX
    &&& w.next_loan_id + n <= u64::MAX
    &&& w.next_patrol_id + n <= u64::MAX
}

proof fn lemma_issued_push<T>(list: Seq<T>, key: spec_fn(T) -> u64, next: u64, x: T)
    requires
        issued(list, key, next),
        key(x) == next,
        next < u64::MAX,
    ensures
        issued(list.push(x), key, (next + 1) as u64),
{
    let after = list.push(x);
    assert forall|i: int| 0 <= i < after.len() implies key(#[trigger] after[i]) < next + 1 by {
        if i < list.len() {
            assert(key(list[i]) < next);
        }
    }
    assert forall|i: int, j: int|
        #![trigger after[i], after[j]]
        0 <= i < j < after.len() implies key(after[i]) != key(after[j]) by {
        assert(key(list[i]) < next);
        if j < list.len() {
            assert(key(list[i]) != key(list[j]));
        }
    }
}

pub(crate) proof fn lemma_issued_remove<T>(list: Seq<T>, key: spec_fn(T) -> u64, next: u64, k: int)
    requires
        issued(list, key, next),
        0 <= k < list.len(),
    ensures
        issued(list.remove(k), key, next),
        stems(list, list.remove(k), key, next),
        !bears(list.remove(k), key, key(list[k])),
{
    let after = list.remove(k);
    assert forall|i: int| 0 <= i < after.len() implies key(#[trigger] after[i]) < next && bears(
        list,
        key,
        key(after[i]),
    ) && key(after[i]) != key(list[k]) by {
        let m = if i < k {
            i
        } else {
            i + 1
        };
        assert(after[i] == list[m]);
        assert(key(list[m]) < next);
        if m < k {
            assert(key(list[m]) != key(list[k]));
        } else {
            assert(key(list[k]) != key(list[m]));
        }
    }
    assert forall|i: int, j: int|
        #![trigger after[i], after[j]]
        0 <= i < j < after.len() implies key(after[i]) != key(after[j]) by {
        let mi = if i < k {
            i
        } else {
            i + 1
        };
        let mj = if j < k {
            j
        } else {
            j + 1
        };
        assert(after[i] == list[mi] && after[j] == list[mj]);
        assert(key(list[mi]) != key(list[mj]));
    }
}

proof fn lemma_issued_filter<T>(
    list: Seq<T>,
    key: spec_fn(T) -> u64,
    next: u64,
    p: spec_fn(T) -> bool,
)
    requires
        issued(list, key, next),
    ensures
        issued(list.filter(p), key, next),
        stems(list, list.filter(p), key, next),
    decreases list.len(),
{
    reveal(Seq::filter);
    search::lemma_filter_members(list, p);
    let after = list.filter(p);
    assert forall|i: int| 0 <= i < after.len() implies key(#[trigger] after[i]) < next && bears(
        list,
        key,
        key(after[i]),
    ) by {
        let m = list.index_of(after[i]);
        assert(list[m] == after[i]);
        assert(key(list[m]) < next);
    }
    if list.len() > 0 {
        let rest = list.drop_last();
        assert(issued(rest, key, next)) by {
            assert forall|i: int| 0 <= i < rest.len() implies key(#[trigger] rest[i]) < next by {
                assert(key(list[i]) < next);
            }
            assert forall|i: int, j: int|
                #![trigger rest[i], rest[j]]
                0 <= i < j < rest.len() implies key(rest[i]) != key(rest[j]) by {
                assert(key(list[i]) != key(list[j]));
            }
        }
        lemma_issued_filter(rest, key, next, p);
        search::lemma_filter_members(rest, p);
        assert forall|i: int, j: int|
            #![trigger after[i], after[j]]
            0 <= i < j < after.len() implies key(after[i]) != key(after[j]) by {
            let f = rest.filter(p);
            assert(after[i] == f[i]);
            if j < f.len() {
                assert(after[j] == f[j]);
                assert(key(f[i]) != key(f[j]));
            } else {
                assert(rest.contains(f[i]));
                let m = rest.index_of(f[i]);
                assert(rest[m] == f[i]);
                assert(list[m] == rest[m]);
                assert(after[j] == list[list.len() - 1]);
                assert(key(list[m]) != key(list[list.len() - 1]));
            }
        }
    }
}

/// Items that keep their ids keep them apart.
proof fn lemma_issued_same<T>(list: Seq<T>, after: Seq<T>, key: spec_fn(T) -> u64, next: u64)
    requires
        issued(list, key, next),
        after.len() == list.len(),
        forall|i: int| 0 <= i < list.len() ==> key(#[trigger] after[i]) == key(list[i]),
    ensures
        issued(after, key, next),
        stems(list, after, key, next),
{
    assert forall|i: int| 0 <= i < after.len() implies key(#[trigger] after[i]) < next && bears(
        list,
        key,
        key(after[i]),
    ) by {
        assert(key(list[i]) < next);
    }
    assert forall|i: int, j: int|
        #![trigger after[i], after[j]]
        0 <= i < j < after.len() implies key(after[i]) != key(after[j]) by {
        assert(key(list[i]) != key(list[j]));
    }
}

proof fn lemma_issued_later<T>(list: Seq<T>, key: spec_fn(T) -> u64, next: u64, later: u64)
    requires
        issued(list, key, next),
        next <= later,
    ensures
        issued(list, key, later),
{
    assert forall|i: int| 0 <= i < list.len() implies key(#[trigger] list[i]) < later by {}
}

/// An updated item that keeps its id.
proof fn lemma_issued_update<T>(list: Seq<T>, key: spec_fn(T) -> u64, next: u64, k: int, x: T)
    requires
        issued(list, key, next),
        0 <= k < list.len(),
        key(x) == key(list[k]),
    ensures
        issued(list.update(k, x), key, next),
{
    let after = list.update(k, x);
    assert forall|i: int| 0 <= i < list.len() implies key(#[trigger] after[i]) == key(list[i]) by {}
    lemma_issued_same(list, after, key, next);
}

/// A fleet whose ids stem from those it had, or are newer than any, stays apart from the
/// other.
proof fn lemma_pirates_stay_apart(
    pirates: Seq<Patrol>,
    after: Seq<Patrol>,
    navy: Seq<Patrol>,
    next: u64,
)
    requires
        fleets_apart(pirates, navy),
        stems(pirates, after, patrol_key(), next),
        issued(navy, patrol_key(), next),
    ensures
        fleets_apart(after, navy),
{
    assert forall|i: int, j: int|
        #![trigger after[i], navy[j]]
        0 <= i < after.len() && 0 <= j < navy.len() implies after[i].id != navy[j].id by {
        assert(patrol_key()(navy[j]) < next);
        assert(patrol_key()(after[i]) >= next || bears(pirates, patrol_key(), patrol_key()(after[i])));
        if patrol_key()(after[i]) < next {
            let k = choose|k: int|
                0 <= k < pirates.len() && patrol_key()(#[trigger] pirates[k]) == patrol_key()(after[i]);
            assert(pirates[k].id != navy[j].id);
        }
    }
}

proof fn lemma_navy_stays_apart(
    pirates: Seq<Patrol>,
    navy: Seq<Patrol>,
    after: Seq<Patrol>,
    next: u64,
)
    requires
        fleets_apart(pirates, navy),
        stems(navy, after, patrol_key(), next),
        issued(pirates, patrol_key(), next),
    ensures
        fleets_apart(pirates, after),
{
    assert forall|i: int, j: int|
        #![trigger pirates[i], after[j]]
        0 <= i < pirates.len() && 0 <= j < after.len() implies pirates[i].id != after[j].id by {
        assert(patrol_key()(pirates[i]) < next);
        assert(patrol_key()(after[j]) >= next || bears(navy, patrol_key(), patrol_key()(after[j])));
        if patrol_key()(after[j]) < next {
            let k = choose|k: int|
                0 <= k < navy.len() && patrol_key()(#[trigger] navy[k]) == patrol_key()(after[j]);
            assert(pirates[i].id != navy[k].id);
        }
    }
}

/// The handles of a world that differs only in a trader that keeps its id.
proof fn lemma_sound_with_trader(w: WorldView, k: int, t: TraderView)
    requires
        sound(w),
        0 <= k < w.traders.len(),
        t.id == w.traders[k].id,
    ensures
        sound(w.with_trader(k, t)),
{
    lemma_issued_update(w.traders, trader_key(), w.next_trader_id, k, t);
}

/// A resolved trader is there, and bears the id it was looked up by.
pub(crate) proof fn lemma_owned(w: WorldView, id: TraderId, player: PlayerId)
    ensures
        commands::owned_slot(w, id, player) is Ok ==> {
            let i = commands::owned_slot(w, id, player)->Ok_0;
            0 <= i < w.traders.len() && w.traders[i].id == id
        },
{
    search::lemma_first_found(w.traders, |t: TraderView| t.id == id);
}

/// Announcing quotas only writes to the log.
pub(crate) proof fn lemma_quotas_only_log(
    w: WorldView,
    met: Seq<Contract>,
    n: int,
    trader: TraderId,
    at: Option<SystemId>,
    ending: Seq<char>,
)
    ensures
        commands::quotas_logged(w, met, n, trader, at, ending) == (WorldView {
            events: commands::quotas_logged(w, met, n, trader, at, ending).events,
            ..w
        }),
    decreases n,
{
    if n > 0 {
        lemma_quotas_only_log(w, met, n - 1, trader, at, ending);
    }
}

/// Crediting kills keeps every contract's id.
proof fn lemma_credited_board(w: WorldView, trader: TraderId, kills: int)
    requires
        issued(w.contracts, contract_key(), w.next_contract_id),
    ensures
        issued(
            commands::board_credited(w.contracts, trader, kills),
            contract_key(),
            w.next_contract_id,
        ),
{
    lemma_issued_same(
        w.contracts,
        commands::board_credited(w.contracts, trader, kills),
        contract_key(),
        w.next_contract_id,
    );
}

/// A command that is applied issues ids in order and mixes none up, and changes neither
/// the content nor the terms of the run.
pub proof fn lemma_command_keeps_ids(w: WorldView, c: Command)
    requires
        sound(w),
        spare(w, 1),
        commands::applied(w, c) is Ok,
    ensures
        commands::applied(w, c)->Ok_0.traders.len() <= w.traders.len() + 1,
        sound(commands::applied(w, c)->Ok_0),
        kept(w, commands::applied(w, c)->Ok_0),
        commands::applied(w, c)->Ok_0.next_trader_id <= w.next_trader_id + 1,
        commands::applied(w, c)->Ok_0.next_contract_id == w.next_contract_id,
        commands::applied(w, c)->Ok_0.next_loan_id <= w.next_loan_id + 1,
        commands::applied(w, c)->Ok_0.next_patrol_id == w.next_patrol_id,
{
    reveal(commands::applied);
    let v = commands::applied(w, c)->Ok_0;
    match c {
        Command::Spawn { player, ship, at, capital } => {
            lemma_issued_push(w.traders, trader_key(), w.next_trader_id, v.traders.last());
            assert(v.traders =~= w.traders.push(v.traders.last()));
        },
        Command::Despawn { player, trader } => {
            lemma_owned(w, trader, player);
            lemma_issued_remove(
                w.traders,
                trader_key(),
                w.next_trader_id,
                commands::owned_slot(w, trader, player)->Ok_0,
            );
        },
        Command::Jump { player, trader, dest } => {
            lemma_owned(w, trader, player);
            let i = commands::owned_slot(w, trader, player)->Ok_0;
            let sys = commands::docked(w.traders[i])->Ok_0;
            lemma_departed(w, i, sys, dest);
        },
        Command::Buy { player, trader, commodity, qty } => {
            lemma_owned(w, trader, player);
            let i = commands::owned_slot(w, trader, player)->Ok_0;
            lemma_sound_with_trader(w, i, v.traders[i]);
        },
        Command::Sell { player, trader, commodity, qty } => {
            lemma_owned(w, trader, player);
            let i = commands::owned_slot(w, trader, player)->Ok_0;
            lemma_sound_with_trader(w, i, v.traders[i]);
        },
        Command::ScoopCargo { player, trader, commodity, qty } => {
            lemma_owned(w, trader, player);
            let i = commands::owned_slot(w, trader, player)->Ok_0;
            lemma_sound_with_trader(w, i, v.traders[i]);
        },
        Command::AcceptContract { player, trader, contract } => {
            search::lemma_first_found(w.contracts, |k: Contract| k.id == contract);
            let ci = commands::contract_slot(w.contracts, contract)->Some_0;
            lemma_issued_update(
                w.contracts,
                contract_key(),
                w.next_contract_id,
                ci,
                v.contracts[ci],
            );
        },
        Command::FulfillContract { player, trader, contract } => {
            lemma_owned(w, trader, player);
            search::lemma_first_found(w.contracts, |k: Contract| k.id == contract);
            let i = commands::owned_slot(w, trader, player)->Ok_0;
            let ci = commands::contract_slot(w.contracts, contract)->Some_0;
            lemma_sound_with_trader(w, i, v.traders[i]);
            lemma_issued_remove(w.contracts, contract_key(), w.next_contract_id, ci);
        },
        Command::TakeLoan { player, trader, principal } => {
            lemma_owned(w, trader, player);
            let i = commands::owned_slot(w, trader, player)->Ok_0;
            lemma_sound_with_trader(w, i, v.traders[i]);
            lemma_issued_push(w.loans, loan_key(), w.next_loan_id, v.loans.last());
            assert(v.loans =~= w.loans.push(v.loans.last()));
        },
        Command::RepayLoan { player, trader, loan, amount } => {
            lemma_owned(w, trader, player);
            search::lemma_first_found(w.loans, |l: Loan| l.id == loan);
            let i = commands::owned_slot(w, trader, player)->Ok_0;
            let li = commands::loan_slot(w.loans, loan)->Some_0;
            lemma_sound_with_trader(w, i, v.traders[i]);
            lemma_issued_remove(w.loans, loan_key(), w.next_loan_id, li);
            if v.loans.len() == w.loans.len() {
                lemma_issued_update(w.loans, loan_key(), w.next_loan_id, li, v.loans[li]);
            }
        },
        Command::BuyInsurance { player, trader } => {
            lemma_owned(w, trader, player);
            let i = commands::owned_slot(w, trader, player)->Ok_0;
            lemma_sound_with_trader(w, i, v.traders[i]);
        },
        Command::OpenFuture { player, trader, commodity, qty, side } => {
            lemma_owned(w, trader, player);
            let i = commands::owned_slot(w, trader, player)->Ok_0;
            lemma_sound_with_trader(w, i, v.traders[i]);
        },
        Command::DestroyedPirate { player, trader, pirate } => {
            lemma_owned(w, trader, player);
            lemma_kill_reported(w, player, trader, pirate);
        },
        Command::TraderDestroyed { player, trader } => {
            lemma_owned(w, trader, player);
            let i = commands::owned_slot(w, trader, player)->Ok_0;
            lemma_trader_lost(w, i, trader, v);
        },
    }
}

/// A departure keeps the trader's id.
proof fn lemma_departed(w: WorldView, i: int, from: SystemId, dest: SystemId)
    requires
        sound(w),
        0 <= i < w.traders.len(),
    ensures
        sound(commands::departed(w, i, from, dest)),
        kept(w, commands::departed(w, i, from, dest)),
        commands::departed(w, i, from, dest).next_trader_id == w.next_trader_id,
        commands::departed(w, i, from, dest).next_contract_id == w.next_contract_id,
        commands::departed(w, i, from, dest).next_loan_id == w.next_loan_id,
        commands::departed(w, i, from, dest).next_patrol_id == w.next_patrol_id,
        commands::departed(w, i, from, dest).traders.len() == w.traders.len(),
{
    let v = commands::departed(w, i, from, dest);
    assert forall|k: int| 0 <= k < w.traders.len() implies trader_key()(#[trigger] v.traders[k])
        == trader_key()(w.traders[k]) by {}
    lemma_issued_same(w.traders, v.traders, trader_key(), w.next_trader_id);
}

/// A reported kill.
proof fn lemma_kill_reported(
    w: WorldView,
    player: PlayerId,
    trader: TraderId,
    pirate: PatrolId,
)
    requires
        sound(w),
        commands::apply_destroyed_pirate(w, player, trader, pirate) is Ok,
    ensures
        ({
            let v = commands::apply_destroyed_pirate(w, player, trader, pirate)->Ok_0;
            &&& sound(v)
            &&& kept(w, v)
            &&& v.traders.len() == w.traders.len()
            &&& v.next_trader_id == w.next_trader_id
            &&& v.next_contract_id == w.next_contract_id
            &&& v.next_loan_id == w.next_loan_id
            &&& v.next_patrol_id == w.next_patrol_id
        }),
{
    lemma_owned(w, trader, player);
    search::lemma_first_found(w.pirates, |p: Patrol| p.id == pirate);
    let i = commands::owned_slot(w, trader, player)->Ok_0;
    let pi = commands::patrol_slot(w.pirates, pirate)->Some_0;
    let v = commands::apply_destroyed_pirate(w, player, trader, pirate)->Ok_0;
    let t = w.traders[i];
    let at = w.pirates[pi].spec_docked_at();
    let bounty = match w.piracy {
        Some(p) => p.bounty,
        None => 0,
    };
    let met = w.contracts.filter(|c: Contract| commands::quota_met(c, trader, 1));
    let settled = WorldView {
        pirates: w.pirates.remove(pi),
        piracy_stats: PiracyStats {
            pirates_destroyed: w.piracy_stats.pirates_destroyed.wrapping_add(1),
            bounties_paid: money::wrapped(w.piracy_stats.bounties_paid + bounty),
            ..w.piracy_stats
        },
        contracts: commands::board_credited(w.contracts, trader, 1),
        ..w.with_trader(
            i,
            TraderView { capital: money::wrapped(t.capital + bounty), ..t },
        )
    }.log(EventCategory::Combat, at, messages::killed(trader, bounty));
    lemma_quotas_only_log(settled, met, met.len() as int, trader, at, ""@);
    assert(v == commands::quotas_logged(settled, met, met.len() as int, trader, at, ""@));
    lemma_issued_update(
        w.traders,
        trader_key(),
        w.next_trader_id,
        i,
        TraderView { capital: money::wrapped(t.capital + bounty), ..t },
    );
    lemma_issued_remove(w.pirates, patrol_key(), w.next_patrol_id, pi);
    lemma_pirates_stay_apart(w.pirates, w.pirates.remove(pi), w.navy, w.next_patrol_id);
    lemma_credited_board(w, trader, 1);
}

/// A world that differs from `w` only in trader `i`, policies, tallies and the log, the
/// trader keeping its id.
proof fn lemma_trader_lost(w: WorldView, i: int, trader: TraderId, v: WorldView)
    requires
        sound(w),
        0 <= i < w.traders.len(),
        v.traders.len() == w.traders.len(),
        v == (WorldView {
            traders: v.traders,
            policies: v.policies,
            piracy_stats: v.piracy_stats,
            events: v.events,
            ..w
        }),
        forall|k: int| 0 <= k < w.traders.len() ==> (#[trigger] v.traders[k]).id == w.traders[k].id,
    ensures
        sound(v),
        kept(w, v),
{
    assert forall|k: int| 0 <= k < w.traders.len() implies trader_key()(#[trigger] v.traders[k])
        == trader_key()(w.traders[k]) by {}
    lemma_issued_same(w.traders, v.traders, trader_key(), w.next_trader_id);
}

/// The commands of a tick, as many as were queued, keep every handle sound.
pub proof fn lemma_commands_keep_ids(w: WorldView, n: int)
    requires
        sound(w),
        0 <= n <= w.commands.len(),
        spare(w, n),
    ensures
        tick::obeyed(w, n).traders.len() <= w.traders.len() + n,
        sound(tick::obeyed(w, n)),
        kept(w, tick::obeyed(w, n)),
        tick::obeyed(w, n).next_trader_id <= w.next_trader_id + n,
        tick::obeyed(w, n).next_contract_id == w.next_contract_id,
        tick::obeyed(w, n).next_loan_id <= w.next_loan_id + n,
        tick::obeyed(w, n).next_patrol_id == w.next_patrol_id,
    decreases n,
{
    if n > 0 {
        lemma_commands_keep_ids(w, n - 1);
        let v = tick::obeyed(w, n - 1);
        if commands::applied(v, w.commands[n - 1]) is Ok {
            lemma_command_keeps_ids(v, w.commands[n - 1]);
        }
    }
}

/// The first step of a tick keeps every handle sound.
pub proof fn lemma_begin_keeps_ids(w: WorldView, wants: Seq<Vec<u32>>)
    requires
        sound(w),
        spare(w, w.commands.len() as int),
    ensures
        tick::begun(w, wants).next_patrol_id == w.next_patrol_id,
        tick::begun(w, wants).traders.len() <= w.traders.len() + w.commands.len(),
        sound(tick::begun(w, wants)),
        kept(w, tick::begun(w, wants)),
{
    lemma_commands_keep_ids(w, w.commands.len() as int);
}

/// Roaming keeps every patrol's id.
pub(crate) proof fn lemma_roaming_keeps_ids(
    w: WorldView,
    ship: ShipId,
    list: Seq<Patrol>,
    shields: Seq<Bits>,
    n: int,
)
    requires
        0 <= n <= list.len(),
    ensures
        fleet::fleet_roamed(w, ship, list, shields, n).0.len() == n,
        forall|i: int|
            0 <= i < n ==> (#[trigger] fleet::fleet_roamed(w, ship, list, shields, n).0[i]).id
                == list[i].id,
    decreases n,
{
    if n > 0 {
        lemma_roaming_keeps_ids(w, ship, list, shields, n - 1);
        let done = fleet::fleet_roamed(w, ship, list, shields, n - 1).0;
        let after = fleet::fleet_roamed(w, ship, list, shields, n).0;
        assert forall|i: int| 0 <= i < n implies (#[trigger] after[i]).id == list[i].id by {
            if i < n - 1 {
                assert(after[i] == done[i]);
            }
        }
    }
}

/// Reinforcement issues a new id per ship.
proof fn lemma_top_up_keeps_ids(
    reg: Registry,
    cutoffs: Seq<u64>,
    ship: ShipId,
    target: nat,
    s: FleetState,
    start: Seq<Patrol>,
    from: u64,
)
    requires
        issued(s.fleet, patrol_key(), s.next_id),
        stems(start, s.fleet, patrol_key(), from),
        from <= s.next_id,
        s.next_id + target - s.fleet.len() <= u64::MAX || s.fleet.len() >= target,
    ensures
        ({
            let r = fleet::topped_up(reg, cutoffs, ship, target, s);
            &&& issued(r.fleet, patrol_key(), r.next_id)
            &&& stems(start, r.fleet, patrol_key(), from)
            &&& s.next_id <= r.next_id
            &&& r.next_id - s.next_id == r.fleet.len() - s.fleet.len()
            &&& r.fleet.len() <= target || r.fleet.len() == s.fleet.len()
        }),
    decreases target - s.fleet.len(),
{
    if s.fleet.len() < target && fleet::lawless_systems(reg).len() > 0 {
        let (at, rng) = fleet::weighted(fleet::lawless_systems(reg), cutoffs, s.rng);
        let def = reg.spec_ships()[ship.0 as int];
        let p = Patrol::spec_new(PatrolId(s.next_id), ship, def.spec_stats(), def.hull, at->Some_0);
        let more = FleetState {
            fleet: s.fleet.push(p),
            rng,
            next_id: s.next_id.wrapping_add(1),
        };
        lemma_issued_push(s.fleet, patrol_key(), s.next_id, p);
        assert forall|i: int| 0 <= i < more.fleet.len() implies patrol_key()(
            #[trigger] more.fleet[i],
        ) >= from || bears(start, patrol_key(), patrol_key()(more.fleet[i])) by {
            if i < s.fleet.len() {
                assert(more.fleet[i] == s.fleet[i]);
            }
        }
        lemma_top_up_keeps_ids(reg, cutoffs, ship, target, more, start, from);
    }
}

/// A tick of a fleet keeps the ids it has and issues new ones.
proof fn lemma_fleet_keeps_ids(
    w: WorldView,
    list: Seq<Patrol>,
    ship: ShipId,
    fleet_size: u32,
    interval: u64,
    shields: Seq<Bits>,
    can_reinforce: bool,
)
    requires
        issued(list, patrol_key(), w.next_patrol_id),
        w.next_patrol_id + fleet_size <= u64::MAX,
    ensures
        ({
            let s = fleet::fleet_run(w, list, ship, fleet_size, interval, shields, can_reinforce);
            &&& issued(s.fleet, patrol_key(), s.next_id)
            &&& stems(list, s.fleet, patrol_key(), w.next_patrol_id)
            &&& w.next_patrol_id <= s.next_id <= w.next_patrol_id + fleet_size
        }),
{
    lemma_roaming_keeps_ids(w, ship, list, shields, list.len() as int);
    let (moved, rng) = fleet::fleet_roamed(w, ship, list, shields, list.len() as int);
    assert forall|i: int| 0 <= i < list.len() implies patrol_key()(#[trigger] moved[i])
        == patrol_key()(list[i]) by {}
    lemma_issued_same(list, moved, patrol_key(), w.next_patrol_id);
    lemma_top_up_keeps_ids(
        w.registry,
        w.tables.spawn_cutoffs@,
        ship,
        fleet_size as nat,
        FleetState { fleet: moved, rng, next_id: w.next_patrol_id },
        list,
        w.next_patrol_id,
    );
}

/// The pirate fleet's tick.
proof fn lemma_pirates_keep_ids(w: WorldView, shields: Seq<Bits>)
    requires
        sound(w),
        w.next_patrol_id + 0x1_0000_0000 <= u64::MAX,
    ensures
        fleet::pirates_run(w, shields).traders == w.traders,
        sound(fleet::pirates_run(w, shields)),
        kept(w, fleet::pirates_run(w, shields)),
        fleet::pirates_run(w, shields).next_patrol_id < w.next_patrol_id + 0x1_0000_0000,
{
    if w.piracy is Some {
        let rt = w.piracy->Some_0;
        let v = fleet::pirates_run(w, shields);
        lemma_fleet_keeps_ids(
            w,
            w.pirates,
            rt.pirate_ship,
            rt.fleet_size,
            rt.reinforce_interval,
            shields,
            true,
        );
        lemma_issued_later(w.navy, patrol_key(), w.next_patrol_id, v.next_patrol_id);
        lemma_pirates_stay_apart(w.pirates, v.pirates, w.navy, w.next_patrol_id);
    }
}

/// Opening hunts issues no ids.
proof fn lemma_hunts_keep_ids(w: WorldView, n: int)
    requires
        sound(w),
    ensures
        sound(battle::hunts_opened(w, n)),
        battle::hunts_opened(w, n) == (WorldView {
            encounters: battle::hunts_opened(w, n).encounters,
            rng: battle::hunts_opened(w, n).rng,
            ..w
        }),
    decreases n,
{
    if n > 0 {
        lemma_hunts_keep_ids(w, n - 1);
    }
}

/// The navy's tick.
proof fn lemma_navy_keeps_ids(w: WorldView, shields: Seq<Bits>)
    requires
        sound(w),
        w.next_patrol_id + 0x1_0000_0000 <= u64::MAX,
    ensures
        battle::navy_run(w, shields).traders == w.traders,
        sound(battle::navy_run(w, shields)),
        kept(w, battle::navy_run(w, shields)),
        battle::navy_run(w, shields).next_patrol_id < w.next_patrol_id + 0x1_0000_0000,
{
    if w.navy_runtime is Some {
        let rt = w.navy_runtime->Some_0;
        let f = battle::navy_funded(w, rt.funding, rt.upkeep);
        let v = battle::navy_moved(w, shields);
        lemma_fleet_keeps_ids(
            f,
            f.navy,
            rt.navy_ship,
            rt.fleet_size,
            rt.reinforce_interval,
            shields,
            f.treasury >= 0,
        );
        lemma_issued_later(w.pirates, patrol_key(), w.next_patrol_id, v.next_patrol_id);
        lemma_navy_stays_apart(w.pirates, w.navy, v.navy, w.next_patrol_id);
        lemma_hunts_keep_ids(v, w.systems() as int);
    }
}

/// Opening ambushes issues no ids.
proof fn lemma_gauntlets_keep_ids(w: WorldView, n: int)
    ensures
        battle::gauntlets(w, n) == (WorldView {
            encounters: battle::gauntlets(w, n).encounters,
            rng: battle::gauntlets(w, n).rng,
            piracy_stats: battle::gauntlets(w, n).piracy_stats,
            ..w
        }),
    decreases n,
{
    if n > 0 {
        lemma_gauntlets_keep_ids(w, n - 1);
    }
}

/// The second step of a tick keeps every handle sound.
pub proof fn lemma_engagement_keeps_ids(
    w: WorldView,
    targets: Seq<Vec<Money>>,
    pirate_shields: Seq<Bits>,
    navy_shields: Seq<Bits>,
)
    requires
        sound(w),
        w.next_patrol_id + 0x2_0000_0000 <= u64::MAX,
    ensures
        tick::engaged(w, targets, pirate_shields, navy_shields).traders == w.traders,
        sound(tick::engaged(w, targets, pirate_shields, navy_shields)),
        kept(w, tick::engaged(w, targets, pirate_shields, navy_shields)),
{
    let a = works::repriced(w, targets);
    lemma_pirates_keep_ids(a, pirate_shields);
    let b = fleet::pirates_run(a, pirate_shields);
    lemma_navy_keeps_ids(b, navy_shields);
    let c = battle::navy_run(b, navy_shields);
    lemma_gauntlets_keep_ids(c, c.traders.len() as int);
}

/// Writing a battle back keeps every patrol's id.
proof fn lemma_write_back_keeps_ids(
    list: Seq<Patrol>,
    ids: Seq<PatrolId>,
    ships: Seq<Combatant>,
    offset: int,
    n: int,
)
    ensures
        battle::written_back(list, ids, ships, offset, n).len() == list.len(),
        forall|i: int|
            0 <= i < list.len() ==> (#[trigger] battle::written_back(
                list,
                ids,
                ships,
                offset,
                n,
            )[i]).id == list[i].id,
    decreases n,
{
    if n > 0 {
        lemma_write_back_keeps_ids(list, ids, ships, offset, n - 1);
        let done = battle::written_back(list, ids, ships, offset, n - 1);
        search::lemma_first_found(done, |p: Patrol| p.id == ids[n - 1]);
    }
}

/// A fleet after a battle: the dead are culled, the others keep their ids.
proof fn lemma_survivors_keep_ids(
    list: Seq<Patrol>,
    ids: Seq<PatrolId>,
    ships: Seq<Combatant>,
    offset: int,
    n: int,
    next: u64,
)
    requires
        issued(list, patrol_key(), next),
    ensures
        ({
            let after = battle::written_back(list, ids, ships, offset, n).filter(battle::living());
            &&& issued(after, patrol_key(), next)
            &&& stems(list, after, patrol_key(), next)
        }),
{
    lemma_write_back_keeps_ids(list, ids, ships, offset, n);
    let mid = battle::written_back(list, ids, ships, offset, n);
    assert forall|i: int| 0 <= i < list.len() implies patrol_key()(#[trigger] mid[i])
        == patrol_key()(list[i]) by {}
    lemma_issued_same(list, mid, patrol_key(), next);
    lemma_issued_filter(mid, patrol_key(), next, battle::living());
    let after = mid.filter(battle::living());
    assert forall|i: int| 0 <= i < after.len() implies patrol_key()(#[trigger] after[i]) >= next
        || bears(list, patrol_key(), patrol_key()(after[i])) by {
        let k = choose|k: int|
            0 <= k < mid.len() && patrol_key()(#[trigger] mid[k]) == patrol_key()(after[i]);
        assert(patrol_key()(list[k]) == patrol_key()(after[i]));
    }
}

/// The fleets after a battle.
proof fn lemma_fleets_after_battle(
    w: WorldView,
    ships: Seq<Combatant>,
    navy: Seq<PatrolId>,
    pirates: Seq<PatrolId>,
    navy_offset: int,
    pirate_offset: int,
)
    requires
        sound(w),
    ensures
        ({
            let n = battle::written_back(w.navy, navy, ships, navy_offset, navy.len() as int).filter(
                battle::living(),
            );
            let p = battle::written_back(
                w.pirates,
                pirates,
                ships,
                pirate_offset,
                pirates.len() as int,
            ).filter(battle::living());
            sound(WorldView { navy: n, pirates: p, ..w })
        }),
{
    lemma_survivors_keep_ids(
        w.navy,
        navy,
        ships,
        navy_offset,
        navy.len() as int,
        w.next_patrol_id,
    );
    lemma_survivors_keep_ids(
        w.pirates,
        pirates,
        ships,
        pirate_offset,
        pirates.len() as int,
        w.next_patrol_id,
    );
    let n = battle::written_back(w.navy, navy, ships, navy_offset, navy.len() as int).filter(
        battle::living(),
    );
    let p = battle::written_back(w.pirates, pirates, ships, pirate_offset, pirates.len() as int).filter(
        battle::living(),
    );
    lemma_navy_stays_apart(w.pirates, w.navy, n, w.next_patrol_id);
    lemma_pirates_stay_apart(w.pirates, p, n, w.next_patrol_id);
}

/// A battle that has ended keeps every handle sound.
proof fn lemma_battle_keeps_ids(w: WorldView, e: ActiveView)
    requires
        sound(w),
    ensures
        battle::battle_closed(w, e).traders.len() == w.traders.len(),
        sound(battle::battle_closed(w, e)),
        kept(w, battle::battle_closed(w, e)),
{
    match e.kind {
        KindView::Hunt { sys, navy, pirates, pirates_offset } => {
            lemma_fleets_after_battle(w, e.combatants, navy, pirates, 0, pirates_offset);
        },
        KindView::Ambush {
            trader,
            dest,
            navy,
            pirates,
            navy_offset,
            pirate_offset,
            respawn_delay,
            bounty,
        } => {
            lemma_fleets_after_battle(w, e.combatants, navy, pirates, navy_offset, pirate_offset);
            search::lemma_first_found(w.traders, |t: TraderView| t.id == trader);
            lemma_ambush_keeps_ids(
                w,
                e.combatants,
                trader,
                dest,
                navy,
                pirates,
                navy_offset,
                pirate_offset,
                respawn_delay,
                bounty,
            );
        },
    }
}

/// An ambush that has ended keeps every handle sound.
proof fn lemma_ambush_keeps_ids(
    w: WorldView,
    ships: Seq<Combatant>,
    trader: TraderId,
    dest: SystemId,
    navy: Seq<PatrolId>,
    pirates: Seq<PatrolId>,
    navy_offset: int,
    pirate_offset: int,
    respawn_delay: u64,
    bounty: Money,
)
    requires
        sound(w),
    ensures
        ({
            let v = battle::ambush_closed(
                w,
                ships,
                trader,
                dest,
                navy,
                pirates,
                navy_offset,
                pirate_offset,
                respawn_delay,
                bounty,
            );
            sound(v) && kept(w, v) && v.traders.len() == w.traders.len()
        }),
{
    lemma_fleets_after_battle(w, ships, navy, pirates, navy_offset, pirate_offset);
    search::lemma_first_found(w.traders, |t: TraderView| t.id == trader);
    let down = battle::fallen(ships, navy_offset, navy.len() as int);
    let kills = battle::fallen(ships, pirate_offset, pirates.len() as int);
    let tallied = WorldView {
        piracy_stats: PiracyStats {
            navy_lost: w.piracy_stats.navy_lost.wrapping_add(down as u64),
            pirates_destroyed: w.piracy_stats.pirates_destroyed.wrapping_add(kills as u64),
            ..w.piracy_stats
        },
        navy: battle::written_back(w.navy, navy, ships, navy_offset, navy.len() as int).filter(
            battle::living(),
        ),
        pirates: battle::written_back(
            w.pirates,
            pirates,
            ships,
            pirate_offset,
            pirates.len() as int,
        ).filter(battle::living()),
        ..w
    };
    assert(sound(tallied));
    let v = battle::ambush_closed(
        w,
        ships,
        trader,
        dest,
        navy,
        pirates,
        navy_offset,
        pirate_offset,
        respawn_delay,
        bounty,
    );
    match commands::trader_slot(w.traders, trader) {
        None => {},
        Some(t) => {
            if ships[0].alive {
                lemma_win_keeps_ids(tallied, t, trader, dest, pirates.len(), kills, bounty);
            } else {
                lemma_trader_lost(tallied, t, trader, v);
            }
        },
    }
}

/// A won ambush keeps every handle sound.
proof fn lemma_win_keeps_ids(
    w: WorldView,
    t: int,
    trader: TraderId,
    dest: SystemId,
    pirates: nat,
    kills: nat,
    bounty: Money,
)
    requires
        sound(w),
        0 <= t < w.traders.len(),
    ensures
        battle::ambush_survived(w, t, trader, dest, pirates, kills, bounty).traders.len()
            == w.traders.len(),
        sound(battle::ambush_survived(w, t, trader, dest, pirates, kills, bounty)),
        kept(w, battle::ambush_survived(w, t, trader, dest, pirates, kills, bounty)),
{
    let v = battle::ambush_survived(w, t, trader, dest, pirates, kills, bounty);
    let reward = money::wrapped(bounty * kills);
    let met = if kills > 0 {
        w.contracts.filter(|c: Contract| commands::quota_met(c, trader, kills as int))
    } else {
        Seq::empty()
    };
    let paid = WorldView {
        piracy_stats: PiracyStats {
            bounties_paid: money::wrapped(w.piracy_stats.bounties_paid + reward),
            ..w.piracy_stats
        },
        contracts: if kills > 0 {
            commands::board_credited(w.contracts, trader, kills as int)
        } else {
            w.contracts
        },
        ..w.with_trader(
            t,
            TraderView {
                capital: money::wrapped(w.traders[t].capital + reward),
                ..w.traders[t]
            },
        )
    }.log(
        EventCategory::Combat,
        Some(dest),
        messages::ambush_won(
            w.registry.spec_systems()[dest.0 as int].name@,
            trader,
            pirates,
            kills,
            reward,
        ),
    );
    lemma_quotas_only_log(
        paid,
        met,
        met.len() as int,
        trader,
        Some(dest),
        "; claim at its station"@,
    );
    assert(v == commands::quotas_logged(
        paid,
        met,
        met.len() as int,
        trader,
        Some(dest),
        "; claim at its station"@,
    ));
    lemma_sound_with_trader(w, t, paid.traders[t]);
    lemma_credited_board(w, trader, kills as int);
}

/// Battles that have ended keep every handle sound.
proof fn lemma_battles_keep_ids(w: WorldView, done: Seq<ActiveView>, n: int)
    requires
        sound(w),
    ensures
        battle::battles_closed(w, done, n).traders.len() == w.traders.len(),
        sound(battle::battles_closed(w, done, n)),
        kept(w, battle::battles_closed(w, done, n)),
    decreases n,
{
    if n > 0 {
        lemma_battles_keep_ids(w, done, n - 1);
        lemma_battle_keeps_ids(battle::battles_closed(w, done, n - 1), done[n - 1]);
    }
}

/// The third step of a tick keeps every handle sound.
pub proof fn lemma_combat_keeps_ids(w: WorldView, results: Seq<Fought>)
    requires
        sound(w),
    ensures
        tick::fought(w, results).traders.len() == w.traders.len(),
        sound(tick::fought(w, results)),
        kept(w, tick::fought(w, results)),
{
    let list = battle::all_fought(w.encounters, results);
    let done = list.filter(|e: ActiveView| battle::is_over(e));
    let rest = WorldView {
        encounters: list.filter(|e: ActiveView| !battle::is_over(e)),
        ..w
    };
    lemma_battles_keep_ids(rest, done, done.len() as int);
}

/// A trader's turn keeps its id.
proof fn lemma_turn_keeps_ids(w: WorldView, t: int)
    requires
        sound(w),
        0 <= t < w.traders.len(),
    ensures
        sound(trade::turn(w, t).0),
        kept(w, trade::turn(w, t).0),
{
    let v = trade::turn(w, t).0;
    assert forall|k: int| 0 <= k < w.traders.len() implies trader_key()(#[trigger] v.traders[k])
        == trader_key()(w.traders[k]) by {}
    lemma_issued_same(w.traders, v.traders, trader_key(), w.next_trader_id);
}

/// The turns of the traders keep every handle sound.
pub proof fn lemma_trading_keeps_ids(w: WorldView, t: int)
    requires
        sound(w),
        0 <= t,
    ensures
        sound(trade::traded(w, t)),
        kept(w, trade::traded(w, t)),
        trade::traded(w, t).traders.len() == w.traders.len(),
        w.traders.len() <= usize::MAX ==> (trade::traded(w, t).stage matches Stage::Seeking(k, _)
            ==> k < w.traders.len()),
    decreases w.traders.len() - t,
{
    if t < w.traders.len() {
        lemma_turn_keeps_ids(w, t);
        trade::lemma_turn_keeps_traders(w, t);
        if trade::turn(w, t).1 is None {
            lemma_trading_keeps_ids(trade::turn(w, t).0, t + 1);
        }
    }
}

/// The act of a trader that looked for a trade keeps every handle sound.
pub proof fn lemma_answer_keeps_ids(
    w: WorldView,
    plan: Option<trade::TradePlan>,
    scores: Seq<Option<Money>>,
)
    requires
        sound(w),
        w.stage matches Stage::Seeking(t, _) ==> t < w.traders.len(),
    ensures
        sound(trade::answered(w, plan, scores)),
        kept(w, trade::answered(w, plan, scores)),
        trade::answered(w, plan, scores).traders.len() == w.traders.len(),
{
    match w.stage {
        Stage::Seeking(t, sys) => {
            let v = trade::answered(w, plan, scores);
            assert forall|k: int|
                0 <= k < w.traders.len() implies trader_key()(#[trigger] v.traders[k])
                == trader_key()(w.traders[k]) by {}
            lemma_issued_same(w.traders, v.traders, trader_key(), w.next_trader_id);
        },
        _ => {},
    }
}

/// Announcing expired contracts only writes to the log.
pub(crate) proof fn lemma_expiries_only_log(w: WorldView, gone: Seq<Contract>, n: int)
    ensures
        board::expiries_logged(w, gone, n) == (WorldView {
            events: board::expiries_logged(w, gone, n).events,
            ..w
        }),
    decreases n,
{
    if n > 0 {
        lemma_expiries_only_log(w, gone, n - 1);
    }
}

/// Sweeping the board keeps every handle sound.
pub proof fn lemma_survey_keeps_ids(w: WorldView)
    requires
        sound(w),
    ensures
        sound(tick::surveyed(w)),
        kept(w, tick::surveyed(w)),
{
    if w.contract_runtime is Some {
        let gone = w.contracts.filter(|c: Contract| board::lapsed(w.tick, c));
        let left = WorldView {
            contracts: w.contracts.filter(|c: Contract| !board::lapsed(w.tick, c)),
            ..w
        };
        lemma_expiries_only_log(left, gone, gone.len() as int);
        lemma_issued_filter(
            w.contracts,
            contract_key(),
            w.next_contract_id,
            |c: Contract| !board::lapsed(w.tick, c),
        );
    }
}

/// Crediting a trader keeps its id.
proof fn lemma_credit_keeps_ids(w: WorldView, id: TraderId, amount: int)
    requires
        sound(w),
    ensures
        sound(books::credit_trader(w, id, amount)),
        books::credit_trader(w, id, amount) == (WorldView {
            traders: books::credit_trader(w, id, amount).traders,
            ..w
        }),
{
    search::lemma_first_found(w.traders, |t: TraderView| t.id == id);
    match commands::trader_slot(w.traders, id) {
        None => {},
        Some(i) => {
            lemma_sound_with_trader(w, i, books::credit_trader(w, id, amount).traders[i]);
        },
    }
}

/// Calling loans keeps every handle sound.
proof fn lemma_seizures_keep_ids(w: WorldView, called: Seq<Loan>, n: int)
    requires
        sound(w),
    ensures
        sound(books::seized(w, called, n)),
        books::seized(w, called, n) == (WorldView {
            traders: books::seized(w, called, n).traders,
            events: books::seized(w, called, n).events,
            ..w
        }),
    decreases n,
{
    if n > 0 {
        lemma_seizures_keep_ids(w, called, n - 1);
        let l = called[n - 1];
        lemma_credit_keeps_ids(
            books::seized(w, called, n - 1),
            l.borrower,
            -(l.outstanding as int),
        );
    }
}

/// Settling futures keeps every handle sound.
proof fn lemma_settlements_keep_ids(w: WorldView, due: Seq<Future>, n: int)
    requires
        sound(w),
    ensures
        sound(books::futures_settled(w, due, n)),
        books::futures_settled(w, due, n) == (WorldView {
            traders: books::futures_settled(w, due, n).traders,
            events: books::futures_settled(w, due, n).events,
            ..w
        }),
    decreases n,
{
    if n > 0 {
        lemma_settlements_keep_ids(w, due, n - 1);
        let before = books::futures_settled(w, due, n - 1);
        let f = due[n - 1];
        lemma_credit_keeps_ids(
            before,
            f.holder,
            money::wrapped(f.gain(books::settlement(before, f))) as int,
        );
    }
}

/// Closing the books keeps every handle sound.
proof fn lemma_books_keep_ids(w: WorldView)
    requires
        sound(w),
    ensures
        sound(books::finance_run(w)),
        kept(w, books::finance_run(w)),
{
    let loans = books::loans_accrued(w);
    assert forall|i: int| 0 <= i < w.loans.len() implies loan_key()(#[trigger] loans[i])
        == loan_key()(w.loans[i]) by {}
    lemma_issued_same(w.loans, loans, loan_key(), w.next_loan_id);
    lemma_issued_filter(
        loans,
        loan_key(),
        w.next_loan_id,
        |l: Loan| !books::overdue(w.tick, l),
    );
    if w.loan_runtime is Some {
        let called = loans.filter(|l: Loan| books::overdue(w.tick, l));
        let left = WorldView {
            loans: loans.filter(|l: Loan| !books::overdue(w.tick, l)),
            ..w
        };
        lemma_seizures_keep_ids(left, called, called.len() as int);
    }
    let a = books::policies_run(books::loans_run(w));
    let due = a.futures.filter(|f: Future| books::matured(a.tick, f));
    let rest = WorldView {
        futures: a.futures.filter(|f: Future| !books::matured(a.tick, f)),
        ..a
    };
    lemma_settlements_keep_ids(rest, due, due.len() as int);
}

/// The last step of a tick keeps every handle sound: at most one contract is posted, and
/// the clock moves by one.
pub proof fn lemma_end_keeps_ids(w: WorldView, reward: Money)
    requires
        sound(w),
        w.next_contract_id < u64::MAX,
    ensures
        sound(tick::ended(w, reward)),
        kept(
            w,
            WorldView {
                tick: w.tick,
                next_contract_id: w.next_contract_id,
                ..tick::ended(w, reward)
            },
        ),
        w.next_contract_id <= tick::ended(w, reward).next_contract_id <= w.next_contract_id + 1,
        tick::ended(w, reward).tick == w.tick.spec_plus(1),
{
    let v = board::board_filled(w, reward);
    if v.contracts.len() > w.contracts.len() {
        lemma_issued_push(w.contracts, contract_key(), w.next_contract_id, v.contracts.last());
        assert(v.contracts =~= w.contracts.push(v.contracts.last()));
    }
    lemma_books_keep_ids(v);
}

/// Placed traders are numbered in order.
proof fn lemma_placed(systems: u64, ship: ShipId, capital: Money, n: int, rng: DetRng)
    requires
        0 <= n <= u64::MAX,
    ensures
        setup::placed(systems, ship, capital, n, rng).0.len() == n,
        forall|i: int|
            0 <= i < n ==> (#[trigger] setup::placed(systems, ship, capital, n, rng).0[i]).id.0
                == i,
    decreases n,
{
    if n > 0 {
        lemma_placed(systems, ship, capital, n - 1, rng);
        let list = setup::placed(systems, ship, capital, n - 1, rng).0;
        let after = setup::placed(systems, ship, capital, n, rng).0;
        assert forall|i: int| 0 <= i < n implies (#[trigger] after[i]).id.0 == i by {
            if i < n - 1 {
                assert(after[i] == list[i]);
            }
        }
    }
}

/// Every handle of a new world is sound.
pub proof fn lemma_new_world_is_sound(
    reg: Registry,
    s: ScenarioDef,
    seed: u64,
    pricing: PricingSet,
    tables: Tables,
    opening: Seq<Vec<Money>>,
)
    requires
        setup::built(reg, s, seed, pricing, tables, opening) is Ok,
    ensures
        sound(setup::built(reg, s, seed, pricing, tables, opening)->Ok_0),
{
    let markets = setup::markets_built(
        reg,
        pricing,
        opening,
        reg.spec_systems().len() as int,
    )->Ok_0;
    let w0 = setup::bare_world(reg, tables, markets, seed);
    let w1 = setup::with_traders(w0, s)->Ok_0;
    if s.traders.count > 0 {
        let ship = setup::ship_named(w0.registry, s.traders.ship@)->Ok_0;
        lemma_placed(
            w0.systems() as u64,
            ship,
            s.traders.starting_capital,
            s.traders.count as int,
            w0.rng,
        );
    }
    assert(issued(w1.traders, trader_key(), w1.next_trader_id));
    let w2 = setup::with_piracy(w1, s)->Ok_0;
    if s.piracy is Some {
        let cfg = s.piracy->Some_0;
        let ship = setup::ship_named(w1.registry, cfg.pirate_ship@)->Ok_0;
        lemma_top_up_keeps_ids(
            w1.registry,
            w1.tables.spawn_cutoffs@,
            ship,
            cfg.fleet_size as nat,
            FleetState { fleet: Seq::empty(), rng: w1.rng, next_id: w1.next_patrol_id },
            Seq::empty(),
            0,
        );
    }
    if s.navy is Some {
        let cfg = s.navy->Some_0;
        let ship = setup::ship_named(w2.registry, cfg.ship@)->Ok_0;
        lemma_top_up_keeps_ids(
            w2.registry,
            w2.tables.spawn_cutoffs@,
            ship,
            cfg.fleet_size as nat,
            FleetState { fleet: Seq::empty(), rng: w2.rng, next_id: w2.next_patrol_id },
            Seq::empty(),
            w2.next_patrol_id,
        );
        let w3 = setup::with_navy(w2, s)->Ok_0;
        lemma_issued_later(w2.pirates, patrol_key(), w2.next_patrol_id, w3.next_patrol_id);
        lemma_navy_stays_apart(w2.pirates, Seq::empty(), w3.navy, w2.next_patrol_id);
    }
}

/// Trading, answer by answer, keeps every handle sound.
pub(crate) proof fn lemma_haggling_keeps_ids(
    w: WorldView,
    answers: Seq<(Option<trade::TradePlan>, Seq<Option<Money>>)>,
    n: int,
)
    requires
        sound(w),
        w.stage == Stage::Trading(0),
        w.traders.len() <= usize::MAX,
    ensures
        sound(tick::haggled(w, answers, n)),
        kept(w, tick::haggled(w, answers, n)),
        tick::haggled(w, answers, n).traders.len() == w.traders.len(),
        tick::haggled(w, answers, n).stage matches Stage::Seeking(k, _) ==> k < w.traders.len(),
    decreases n,
{
    if n <= 0 {
        lemma_trading_keeps_ids(w, 0);
    } else {
        lemma_haggling_keeps_ids(w, answers, n - 1);
        let v = tick::haggled(w, answers, n - 1);
        lemma_answer_keeps_ids(v, answers[n - 1].0, answers[n - 1].1);
        let a = trade::answered(v, answers[n - 1].0, answers[n - 1].1);
        if a.stage is Trading {
            lemma_trading_keeps_ids(a, a.stage->Trading_0 as int);
        }
    }
}

/// A whole tick moves the clock by exactly one, changes neither the content nor the terms
/// of the run, and issues ids in order without ever reusing one.
pub proof fn lemma_tick_keeps_ids(w: WorldView, h: HostTick)
    requires
        sound(w),
        spare(w, w.commands.len() as int + 0x2_0000_0001),
        w.traders.len() + w.commands.len() <= usize::MAX,
    ensures
        tick::ticked(w, h).tick == w.tick.spec_plus(1),
        sound(tick::ticked(w, h)),
        kept(
            w,
            WorldView {
                tick: w.tick,
                next_contract_id: w.next_contract_id,
                ..tick::ticked(w, h)
            },
        ),
        w.next_contract_id <= tick::ticked(w, h).next_contract_id <= w.next_contract_id + 1,
{
    let n = w.commands.len() as int;
    lemma_commands_keep_ids(w, n);
    let a = tick::begun(w, h.wants);
    lemma_begin_keeps_ids(w, h.wants);
    lemma_engagement_keeps_ids(a, h.targets, h.pirate_shields, h.navy_shields);
    let b = tick::engaged(a, h.targets, h.pirate_shields, h.navy_shields);
    lemma_combat_keeps_ids(b, h.results);
    let c = tick::fought(b, h.results);
    lemma_haggling_keeps_ids(c, h.answers, h.answers.len() as int);
    let d = tick::haggled(c, h.answers, h.answers.len() as int);
    lemma_survey_keeps_ids(d);
    lemma_end_keeps_ids(tick::surveyed(d), h.reward);
}

} // verus!
