//! What is posted on the contract board, told by what can be seen of the galaxy: where a
//! good is short, where pirates lie in wait, and which routes have no run yet.

use vstd::prelude::*;

use crate::contract::{Contract, ContractKind, ContractState};
use crate::ids::{CommodityId, Money, SystemId};
use crate::market::MarketGood;
use crate::patrol::PatrolLocation;
use crate::world::board;
use crate::world::dealings::{lemma_counter_turns, stands_at};
use crate::world::{ContractRuntime, WorldView};

verus! {

/// Whether a contract is new on the board of `w`: open, under the next id, and good until
/// the time it is given is over.
pub open spec fn newly_open(w: WorldView, rt: ContractRuntime, k: Contract) -> bool {
    &&& k.state == ContractState::Open
    &&& k.id.0 == w.next_contract_id
    &&& stands_at(k.deadline.0 as int, w.tick.0 + rt.deadline_ticks)
}

/// How many units a good at a market lacks; less than none where there is more than its
/// anchor.
pub open spec fn lack(g: MarketGood) -> int {
    g.equilibrium - g.stock
}

/// Whether a delivery of `c` to `dest` is open already.
pub open spec fn delivery_open(w: WorldView, dest: SystemId, c: CommodityId) -> bool {
    exists|i: int|
        0 <= i < w.contracts.len() && (#[trigger] w.contracts[i]).state == ContractState::Open
            && w.contracts[i].destination == dest && match w.contracts[i].kind {
            ContractKind::Delivery { commodity, quantity } => commodity == c,
            _ => false,
        }
}

/// Whether market `m` can ask for a delivery of `c`: it trades it, lacks at least so much
/// of it, and has no such delivery open.
pub open spec fn can_ask(w: WorldView, least: u32, m: int, c: CommodityId) -> bool {
    &&& 0 <= m < w.markets.len()
    &&& w.markets[m].goods.dom().contains(c)
    &&& least == 0 || lack(w.markets[m].goods[c]) >= least
    &&& !delivery_open(w, w.markets[m].system, c)
}

proof fn lemma_can_ask(w: WorldView, least: u32, m: int, c: CommodityId)
    ensures
        can_ask(w, least, m, c) == board::wants_delivery(w, least, m, c),
{
    if 0 <= m < w.markets.len() {
        let dest = w.markets[m].system;
        let p = |k: Contract| board::open_delivery(k, dest, c);
        if board::on_board(w.contracts, p) {
            let i = choose|i: int| 0 <= i < w.contracts.len() && p(#[trigger] w.contracts[i]);
            assert(w.contracts[i].state == ContractState::Open);
        }
        if delivery_open(w, dest, c) {
            let i = choose|i: int|
                0 <= i < w.contracts.len() && (#[trigger] w.contracts[i]).state
                    == ContractState::Open && w.contracts[i].destination == dest
                    && match w.contracts[i].kind {
                    ContractKind::Delivery { commodity, quantity } => commodity == c,
                    _ => false,
                };
            assert(p(w.contracts[i]));
        }
    }
}

/// Whether a shortage is the worst of those at the first `m` markets and of the goods
/// below `c` at the next.
spec fn worst_so_far(w: WorldView, least: u32, bm: int, bc: CommodityId, m: int, c: int) -> bool {
    &&& board::wants_delivery(w, least, bm, bc)
    &&& bm < m || (bm == m && bc.0 < c)
    &&& forall|n: int, d: CommodityId|
        #![trigger board::wants_delivery(w, least, n, d)]
        board::wants_delivery(w, least, n, d) && (n < m || (n == m && d.0 < c)) && !(n == bm && d
            == bc) ==> board::shorter(w, bm, bc, n, d)
}

proof fn lemma_some_worst(w: WorldView, least: u32, n: int, d: CommodityId, m: int, c: int)
    requires
        w.wf(),
        board::wants_delivery(w, least, n, d),
        0 <= m <= w.markets.len(),
        0 <= c <= w.registry.spec_commodities().len(),
        n < m || (n == m && d.0 < c),
    ensures
        exists|bm: int, bc: CommodityId| worst_so_far(w, least, bm, bc, m, c),
    decreases m, c,
{
    let all = w.registry.spec_commodities().len() as int;
    assert(all <= u32::MAX);
    if c == 0 {
        let p = m - 1;
        lemma_some_worst(w, least, n, d, p, all);
        let (bm, bc) = choose|bm: int, bc: CommodityId| worst_so_far(w, least, bm, bc, p, all);
        assert forall|x: int, y: CommodityId|
            #![trigger board::wants_delivery(w, least, x, y)]
            board::wants_delivery(w, least, x, y) && x < m && !(x == bm && y
                == bc) implies board::shorter(w, bm, bc, x, y) by {
            assert(w.market_ok(w.markets[x]));
        }
        assert(worst_so_far(w, least, bm, bc, m, 0));
    } else {
        let k = CommodityId((c - 1) as u32);
        assert(k.0 == c - 1);
        let before = exists|x: int, y: CommodityId|
            #![trigger board::wants_delivery(w, least, x, y)]
            board::wants_delivery(w, least, x, y) && (x < m || (x == m && y.0 < c - 1));
        if before {
            let (x, y) = choose|x: int, y: CommodityId|
                #![trigger board::wants_delivery(w, least, x, y)]
                board::wants_delivery(w, least, x, y) && (x < m || (x == m && y.0 < c - 1));
            let p = c - 1;
            lemma_some_worst(w, least, x, y, m, p);
            let (bm, bc) = choose|bm: int, bc: CommodityId| worst_so_far(w, least, bm, bc, m, p);
            if board::wants_delivery(w, least, m, k) && !board::shorter(w, bm, bc, m, k) {
                assert(worst_so_far(w, least, m, k, m, c)) by {
                    assert forall|x: int, y: CommodityId|
                        #![trigger board::wants_delivery(w, least, x, y)]
                        board::wants_delivery(w, least, x, y) && (x < m || (x == m && y.0 < c))
                            && !(x == m && y == k) implies board::shorter(w, m, k, x, y) by {
                        if !(x == bm && y == bc) {
                            assert(board::shorter(w, bm, bc, x, y));
                        }
                    }
                }
            } else {
                assert(worst_so_far(w, least, bm, bc, m, c));
            }
        } else {
            assert(n == m && d == k);
            assert(worst_so_far(w, least, m, k, m, c));
        }
    }
}

/// A delivery is asked for just where some market can ask for one. It is of the good that
/// is lacked most anywhere, to the market that lacks it; for all that is lacked, but no
/// more than the most a delivery carries. It starts where there is most of the good to
/// spare, or else at its destination, and pays what the host worked out.
pub proof fn lemma_posted_delivery(w: WorldView, rt: ContractRuntime, reward: Money)
    requires
        w.wf(),
    ensures
        match board::delivery(w, rt, reward) {
            None => forall|m: int, c: CommodityId| !#[trigger] can_ask(w, rt.min_shortfall, m, c),
            Some(k) => exists|m: int, c: CommodityId|
                #![trigger w.markets[m].goods.dom().contains(c)]
                {
                    let short = lack(w.markets[m].goods[c]);
                    &&& can_ask(w, rt.min_shortfall, m, c)
                    &&& newly_open(w, rt, k)
                    &&& k.destination == w.markets[m].system
                    &&& k.reward == reward
                    &&& forall|n: int, d: CommodityId| #[trigger]
                        can_ask(w, rt.min_shortfall, n, d) ==> lack(w.markets[n].goods[d]) <= short
                            || lack(w.markets[n].goods[d]) <= 0
                    &&& match k.kind {
                        ContractKind::Delivery { commodity, quantity } => {
                            &&& commodity == c
                            &&& quantity <= rt.max_quantity
                            &&& 0 <= short <= rt.max_quantity ==> quantity == short
                            &&& short > rt.max_quantity ==> quantity == rt.max_quantity
                            &&& short < 0 ==> quantity == 0
                        },
                        _ => false,
                    }
                    &&& starts_with_the_surplus(w, k.origin, k.destination, c)
                },
        },
{
    let least = rt.min_shortfall;
    lemma_counter_turns(w.tick.0, rt.deadline_ticks);
    match board::worst_shortage(w, least) {
        None => {
            assert forall|m: int, c: CommodityId| !#[trigger] can_ask(w, least, m, c) by {
                lemma_can_ask(w, least, m, c);
                if board::wants_delivery(w, least, m, c) {
                    assert(w.market_ok(w.markets[m]));
                    let n = w.markets.len() as int;
                    lemma_some_worst(w, least, m, c, n, 0);
                    let (bm, bc) = choose|bm: int, bc: CommodityId|
                        worst_so_far(w, least, bm, bc, n, 0);
                    assert(board::is_worst(w, least, bm, bc));
                }
            }
        },
        Some((m, c)) => {
            assert(board::is_worst(w, least, m, c));
            lemma_can_ask(w, least, m, c);
            assert forall|n: int, d: CommodityId| #[trigger] can_ask(
                w,
                least,
                n,
                d,
            ) implies lack(w.markets[n].goods[d]) <= lack(w.markets[m].goods[c]) || lack(
                w.markets[n].goods[d],
            ) <= 0 by {
                lemma_can_ask(w, least, n, d);
                if !(n == m && d == c) {
                    assert(board::shorter(w, m, c, n, d));
                }
            }
            lemma_source(w, c, w.markets[m].system);
            assert(w.markets[m].goods.dom().contains(c));
        },
    }
}

/// Whether a delivery to `dest` starts where it should: at a market with more of the good
/// than its anchor, with none that has more to spare, nor as much at a lower system; at its
/// destination where no market has any to spare.
pub open spec fn starts_with_the_surplus(
    w: WorldView,
    origin: SystemId,
    dest: SystemId,
    c: CommodityId,
) -> bool {
    let some = exists|m: int|
        0 <= m < w.markets.len() && (#[trigger] w.markets[m]).goods.dom().contains(c) && lack(
            w.markets[m].goods[c],
        ) < 0;
    &&& !some ==> origin == dest
    &&& some ==> exists|m: int|
        0 <= m < w.markets.len() && (#[trigger] w.markets[m]).system == origin
            && w.markets[m].goods.dom().contains(c) && lack(w.markets[m].goods[c]) < 0
            && forall|n: int|
            0 <= n < w.markets.len() && (#[trigger] w.markets[n]).goods.dom().contains(c) ==> {
                let x = lack(w.markets[n].goods[c]);
                let y = lack(w.markets[m].goods[c]);
                x > y || (x == y && origin.0 <= w.markets[n].system.0)
            }
}

spec fn source_so_far(w: WorldView, c: CommodityId, b: int, n: int) -> bool {
    &&& board::has_surplus(w, c, b)
    &&& b < n
    &&& forall|k: int|
        #[trigger] board::has_surplus(w, c, k) && k < n && k != b ==> {
            let x = board::surplus(w.markets[b].goods[c]);
            let y = board::surplus(w.markets[k].goods[c]);
            let s = w.markets[b].system.0;
            let t = w.markets[k].system.0;
            x > y || (x == y && (s < t || (s == t && b < k)))
        }
}

proof fn lemma_some_source(w: WorldView, c: CommodityId, k: int, n: int)
    requires
        board::has_surplus(w, c, k),
        k < n <= w.markets.len(),
    ensures
        exists|b: int| source_so_far(w, c, b, n),
    decreases n,
{
    let last: int = n - 1;
    if exists|j: int| #[trigger] board::has_surplus(w, c, j) && j < last {
        let j = choose|j: int| #[trigger] board::has_surplus(w, c, j) && j < last;
        lemma_some_source(w, c, j, last);
        let b = choose|b: int| source_so_far(w, c, b, last);
        if source_so_far(w, c, b, n) {
        } else {
            assert(board::has_surplus(w, c, last));
            assert(source_so_far(w, c, last, n)) by {
                assert forall|k: int|
                    #[trigger] board::has_surplus(w, c, k) && k < n && k != last implies {
                    let x = board::surplus(w.markets[last].goods[c]);
                    let y = board::surplus(w.markets[k].goods[c]);
                    let s = w.markets[last].system.0;
                    let t = w.markets[k].system.0;
                    x > y || (x == y && (s < t || (s == t && last < k)))
                } by {
                    if k != b {
                        assert(board::has_surplus(w, c, k));
                    }
                }
            }
        }
    } else {
        assert(source_so_far(w, c, last, n));
    }
}

proof fn lemma_source(w: WorldView, c: CommodityId, dest: SystemId)
    ensures
        starts_with_the_surplus(
            w,
            match board::source_of(w, c) {
                Some(s) => s,
                None => dest,
            },
            dest,
            c,
        ),
{
    let some = exists|m: int|
        0 <= m < w.markets.len() && (#[trigger] w.markets[m]).goods.dom().contains(c) && lack(
            w.markets[m].goods[c],
        ) < 0;
    if some {
        let m = choose|m: int|
            0 <= m < w.markets.len() && (#[trigger] w.markets[m]).goods.dom().contains(c) && lack(
                w.markets[m].goods[c],
            ) < 0;
        assert(board::has_surplus(w, c, m));
        lemma_some_source(w, c, m, w.markets.len() as int);
        let b = choose|b: int| source_so_far(w, c, b, w.markets.len() as int);
        assert(board::is_source(w, c, b));
        let k = choose|k: int| board::is_source(w, c, k);
        assert(board::is_source(w, c, k));
        assert(board::has_surplus(w, c, k));
        assert(w.markets[k].system == board::source_of(w, c)->Some_0);
        let origin = w.markets[k].system;
        assert forall|n: int|
            0 <= n < w.markets.len() && (#[trigger] w.markets[n]).goods.dom().contains(c) implies {
            let x = lack(w.markets[n].goods[c]);
            let y = lack(w.markets[k].goods[c]);
            x > y || (x == y && origin.0 <= w.markets[n].system.0)
        } by {
            if lack(w.markets[n].goods[c]) < 0 {
                assert(board::has_surplus(w, c, n));
            }
        }
    } else {
        if exists|k: int| board::is_source(w, c, k) {
            let k = choose|k: int| board::is_source(w, c, k);
            assert(board::has_surplus(w, c, k));
            assert(w.markets[k].goods.dom().contains(c));
        }
    }
}

/// Whether pirate `i` is docked at `s`.
pub open spec fn waits_at(w: WorldView, i: int, s: SystemId) -> bool {
    0 <= i < w.pirates.len() && w.pirates[i].location == PatrolLocation::Docked(s)
}

/// Whether a bounty at `s` is open already.
pub open spec fn bounty_open(w: WorldView, s: SystemId) -> bool {
    exists|i: int|
        0 <= i < w.contracts.len() && (#[trigger] w.contracts[i]).state == ContractState::Open
            && w.contracts[i].destination == s && w.contracts[i].kind is Bounty
}

/// Whether `s` is the most dangerous system with a pirate docked, the lowest of those that
/// are equally dangerous. Danger is a positive number there, whose patterns ascend with it.
pub open spec fn worst_den(w: WorldView, s: SystemId) -> bool {
    &&& exists|i: int| waits_at(w, i, s)
    &&& forall|i: int, t: SystemId| #[trigger]
        waits_at(w, i, t) ==> {
            let a = w.registry.spec_systems()[t.0 as int].danger;
            let b = w.registry.spec_systems()[s.0 as int].danger;
            a < b || (a == b && s.0 <= t.0)
        }
}

spec fn den_so_far(w: WorldView, s: SystemId, n: int) -> bool {
    &&& exists|i: int| i < n && #[trigger] waits_at(w, i, s)
    &&& forall|i: int, t: SystemId|
        i < n && #[trigger] waits_at(w, i, t) ==> {
            let a = w.registry.spec_systems()[t.0 as int].danger;
            let b = w.registry.spec_systems()[s.0 as int].danger;
            a < b || (a == b && s.0 <= t.0)
        }
}

proof fn lemma_some_den(w: WorldView, k: int, at: SystemId, n: int)
    requires
        waits_at(w, k, at),
        k < n <= w.pirates.len(),
    ensures
        exists|s: SystemId| den_so_far(w, s, n),
    decreases n,
{
    let last: int = n - 1;
    if exists|i: int, t: SystemId| i < last && #[trigger] waits_at(w, i, t) {
        let (i, t) = choose|i: int, t: SystemId| i < last && #[trigger] waits_at(w, i, t);
        lemma_some_den(w, i, t, last);
        let s = choose|s: SystemId| den_so_far(w, s, last);
        let x = choose|x: int| x < last && #[trigger] waits_at(w, x, s);
        assert(waits_at(w, x, s));
        match w.pirates[last].location {
            PatrolLocation::Docked(u) => {
                assert(waits_at(w, last, u));
                if !den_so_far(w, s, n) {
                    assert(den_so_far(w, u, n));
                }
            },
            PatrolLocation::InTransit { origin, dest, departure, arrival } => {
                assert(den_so_far(w, s, n));
            },
        }
    } else {
        assert(k == last);
        assert(den_so_far(w, at, n));
    }
}

proof fn lemma_dens(w: WorldView, s: SystemId)
    requires
        w.wf(),
    ensures
        worst_den(w, s) == board::is_lair(w, s),
{
    assert forall|i: int, t: SystemId| #[trigger] waits_at(w, i, t) implies board::lurks(w, i)
        && w.lawless(t) && w.pirates[i].spec_docked_at() == Some(t) by {
        assert(w.patrol_ok(w.pirates[i]));
    }
    assert forall|i: int| #[trigger] board::lurks(w, i) implies waits_at(
        w,
        i,
        w.pirates[i].spec_docked_at()->Some_0,
    ) by {}
    if board::is_lair(w, s) {
        let i = choose|i: int| #[trigger]
            board::lurks(w, i) && w.pirates[i].spec_docked_at() == Some(s);
        assert(waits_at(w, i, s));
        assert forall|j: int, t: SystemId| #[trigger] waits_at(w, j, t) implies {
            let a = w.registry.spec_systems()[t.0 as int].danger;
            let b = w.registry.spec_systems()[s.0 as int].danger;
            a < b || (a == b && s.0 <= t.0)
        } by {
            assert(board::lurks(w, j));
        }
    }
    if worst_den(w, s) {
        let i = choose|i: int| waits_at(w, i, s);
        assert(board::lurks(w, i));
        assert forall|j: int| #[trigger] board::lurks(w, j) implies {
            let t = w.pirates[j].spec_docked_at()->Some_0;
            t == s || crate::bits::less(board::danger(w, t), board::danger(w, s)) || (
            crate::bits::same(board::danger(w, t), board::danger(w, s)) && s.0 < t.0)
        } by {
            let t = w.pirates[j].spec_docked_at()->Some_0;
            assert(waits_at(w, j, t));
        }
    }
}

/// A bounty is on the pirates at the most dangerous system with some, for the target and
/// the reward of the scenario, with nothing destroyed yet. None is posted where bounties
/// are off, no pirate is docked anywhere, or one is open at that system.
pub proof fn lemma_posted_bounty(w: WorldView, rt: ContractRuntime)
    requires
        w.wf(),
    ensures
        match board::bounty(w, rt) {
            Some(k) => {
                &&& newly_open(w, rt, k)
                &&& worst_den(w, k.destination)
                &&& !bounty_open(w, k.destination)
                &&& k.origin == k.destination
                &&& k.reward == rt.bounty_reward
                &&& rt.bounty_target > 0
                &&& k.kind == (ContractKind::Bounty { target: rt.bounty_target, progress: 0 })
            },
            None => rt.bounty_target == 0 || (forall|i: int, s: SystemId|
                !#[trigger] waits_at(w, i, s)) || exists|s: SystemId|
                worst_den(w, s) && #[trigger] bounty_open(w, s),
        },
{
    lemma_counter_turns(w.tick.0, rt.deadline_ticks);
    match board::lair(w) {
        Some(s) => {
            assert(board::is_lair(w, s));
            lemma_dens(w, s);
            let p = |k: Contract| board::open_bounty(k, s);
            if board::on_board(w.contracts, p) {
                let i = choose|i: int| 0 <= i < w.contracts.len() && p(#[trigger] w.contracts[i]);
                assert(w.contracts[i].kind is Bounty);
                assert(bounty_open(w, s));
            } else if bounty_open(w, s) {
                let i = choose|i: int|
                    0 <= i < w.contracts.len() && (#[trigger] w.contracts[i]).state
                        == ContractState::Open && w.contracts[i].destination == s
                        && w.contracts[i].kind is Bounty;
                assert(p(w.contracts[i]));
            }
        },
        None => {
            assert forall|i: int, s: SystemId| !#[trigger] waits_at(w, i, s) by {
                if waits_at(w, i, s) {
                    let n = w.pirates.len() as int;
                    lemma_some_den(w, i, s, n);
                    let u = choose|u: SystemId| den_so_far(w, u, n);
                    let x = choose|x: int| x < n && #[trigger] waits_at(w, x, u);
                    assert(waits_at(w, x, u));
                    assert(worst_den(w, u));
                    lemma_dens(w, u);
                }
            }
        },
    }
}

/// Whether a run from `a` to `b` is open already.
pub open spec fn run_open(w: WorldView, a: SystemId, b: SystemId) -> bool {
    exists|i: int|
        0 <= i < w.contracts.len() && (#[trigger] w.contracts[i]).state == ContractState::Open
            && w.contracts[i].kind == ContractKind::Courier && w.contracts[i].origin == a
            && w.contracts[i].destination == b
}

/// The system whose turn it is to start a run, `k` turns on.
pub open spec fn starter(w: WorldView, rt: ContractRuntime, k: int) -> SystemId {
    SystemId(
        ((w.tick.0 / rt.generation_interval + k) % (w.registry.spec_systems().len() as int)) as u32,
    )
}

/// Whether a run can start at a system: there is a way out, and no run on the first one is
/// open.
pub open spec fn can_start(w: WorldView, a: SystemId) -> bool {
    let ways = w.registry.spec_systems()[a.0 as int].connections@;
    ways.len() > 0 && !run_open(w, a, ways[0])
}

proof fn lemma_can_start(w: WorldView, rt: ContractRuntime, k: int)
    ensures
        can_start(w, starter(w, rt, k)) == board::runnable(w, rt, k),
{
    let a = starter(w, rt, k);
    let ways = w.registry.spec_systems()[a.0 as int].connections@;
    if ways.len() > 0 {
        let b = ways[0];
        assert(board::courier_origin(w, rt, k) == a);
        assert(board::first_link(w, a) == Some(b));
        let p = |c: Contract| board::open_courier(c, a, board::first_link(w, a)->Some_0);
        if board::on_board(w.contracts, p) {
            let i = choose|i: int| 0 <= i < w.contracts.len() && p(#[trigger] w.contracts[i]);
            assert(w.contracts[i].kind == ContractKind::Courier);
        }
        if run_open(w, a, b) {
            let i = choose|i: int|
                0 <= i < w.contracts.len() && (#[trigger] w.contracts[i]).state
                    == ContractState::Open && w.contracts[i].kind == ContractKind::Courier
                    && w.contracts[i].origin == a && w.contracts[i].destination == b;
            assert(p(w.contracts[i]));
        }
    }
}

/// A courier run starts at the first system, from the one whose turn it is on, where one
/// can start; it leads along the first way out, and pays what a run there pays. None is
/// posted where couriers are off, or none can start anywhere.
pub proof fn lemma_posted_courier(w: WorldView, rt: ContractRuntime)
    ensures
        match board::courier(w, rt) {
            Some(k) => exists|n: int|
                #![trigger starter(w, rt, n)]
                {
                    let a = starter(w, rt, n);
                    &&& rt.courier_reward != 0
                    &&& 0 <= n < w.registry.spec_systems().len()
                    &&& can_start(w, a)
                    &&& forall|j: int| 0 <= j < n ==> !can_start(w, #[trigger] starter(w, rt, j))
                    &&& newly_open(w, rt, k)
                    &&& k.kind == ContractKind::Courier
                    &&& k.origin == a
                    &&& k.destination == w.registry.spec_systems()[a.0 as int].connections@[0]
                    &&& k.destination.0 < w.tables.courier_rewards@.len() ==> k.reward
                        == w.tables.courier_rewards@[k.destination.0 as int]
                },
            None => rt.courier_reward == 0 || forall|n: int|
                0 <= n < w.registry.spec_systems().len() ==> !can_start(
                    w,
                    #[trigger] starter(w, rt, n),
                ),
        },
{
    lemma_counter_turns(w.tick.0, rt.deadline_ticks);
    if exists|k: int| board::is_turn(w, rt, k) {
        let k = choose|k: int| board::is_turn(w, rt, k);
        assert(board::is_turn(w, rt, k));
        lemma_can_start(w, rt, k);
        assert forall|j: int| 0 <= j < k implies !can_start(w, #[trigger] starter(w, rt, j)) by {
            lemma_can_start(w, rt, j);
            assert(!board::runnable(w, rt, j));
        }
        assert(starter(w, rt, k) == board::courier_origin(w, rt, k));
    } else {
        assert forall|n: int| 0 <= n < w.registry.spec_systems().len() implies !can_start(
            w,
            #[trigger] starter(w, rt, n),
        ) by {
            lemma_can_start(w, rt, n);
            if board::runnable(w, rt, n) {
                lemma_first_turn(w, rt, n);
            }
        }
    }
}

proof fn lemma_first_turn(w: WorldView, rt: ContractRuntime, n: int)
    requires
        0 <= n < w.systems(),
        board::runnable(w, rt, n),
    ensures
        exists|k: int| board::is_turn(w, rt, k),
    decreases n,
{
    if exists|j: int| 0 <= j < n && #[trigger] board::runnable(w, rt, j) {
        let j = choose|j: int| 0 <= j < n && #[trigger] board::runnable(w, rt, j);
        lemma_first_turn(w, rt, j);
    } else {
        assert(board::is_turn(w, rt, n));
    }
}

/// The kinds take turns: on the ticks of the interval, a delivery, a bounty and a courier
/// run come first in turn. Where the one whose turn it is cannot be posted, the next can;
/// a contract is posted whenever any can be.
pub proof fn lemma_kinds_take_turns(w: WorldView, rt: ContractRuntime, reward: Money)
    requires
        rt.generation_interval >= 1,
    ensures
        ({
            let turn = (w.tick.0 as int / rt.generation_interval as int) % 3;
            let k = board::candidate(w, rt, reward);
            let d = board::delivery(w, rt, reward);
            let b = board::bounty(w, rt);
            let c = board::courier(w, rt);
            &&& k is None <==> d is None && b is None && c is None
            &&& k is Some ==> k == d || k == b || k == c
            &&& d is Some && (turn == 0 || (turn == 2 && c is None) || (turn == 1 && b is None && c
                is None)) ==> k == d
            &&& b is Some && (turn == 1 || (turn == 0 && d is None) || (turn == 2 && c is None && d
                is None)) ==> k == b
            &&& c is Some && (turn == 2 || (turn == 1 && b is None) || (turn == 0 && d is None && b
                is None)) ==> k == c
        }),
{
    assert(w.tick.0 / rt.generation_interval % 3 == (w.tick.0 as int
        / rt.generation_interval as int) % 3);
}

/// The board grows by at most one contract a tick: only where there is a board, only on
/// the ticks of its interval, and only while fewer are open than may be. Nothing else
/// changes but the source of ids and the log.
pub proof fn lemma_board_grows_by_one(w: WorldView, reward: Money)
    ensures
        ({
            let v = board::board_filled(w, reward);
            let rt = w.contract_runtime->Some_0;
            let open = w.contracts.filter(|c: Contract| c.state == ContractState::Open).len();
            let due = w.contract_runtime is Some && w.tick.0 % rt.generation_interval == 0 && open
                < rt.max_open;
            if due && board::candidate(w, rt, reward) is Some {
                &&& v == (WorldView {
                    contracts: v.contracts,
                    next_contract_id: v.next_contract_id,
                    events: v.events,
                    ..w
                })
                &&& v.contracts.len() == w.contracts.len() + 1
                &&& v.contracts.drop_last() == w.contracts
                &&& Some(v.contracts.last()) == board::candidate(w, rt, reward)
                &&& stands_at(v.next_contract_id as int, w.next_contract_id + 1)
            } else {
                v == w
            }
        }),
{
    lemma_counter_turns(w.next_contract_id, 1);
    assert((|c: Contract| c.spec_is_open()) =~= (|c: Contract| c.state == ContractState::Open));
    let v = board::board_filled(w, reward);
    if v.contracts.len() > w.contracts.len() {
        assert(v.contracts.drop_last() =~= w.contracts);
    }
}

/// A contract leaves the board unclaimed only once its deadline is over, and then it does;
/// the others keep their order.
pub proof fn lemma_sweeping(w: WorldView)
    requires
        w.contract_runtime is Some,
    ensures
        ({
            let v = board::board_swept(w);
            &&& v == (WorldView { contracts: v.contracts, events: v.events, ..w })
            &&& v.contracts == w.contracts.filter(|c: Contract| !(w.tick.0 > c.deadline.0))
        }),
{
    let rest = |c: Contract| !(w.tick.0 > c.deadline.0);
    assert((|c: Contract| !board::lapsed(w.tick, c)) =~= rest);
    let gone = w.contracts.filter(|c: Contract| board::lapsed(w.tick, c));
    let left = WorldView { contracts: w.contracts.filter(rest), ..w };
    crate::world::identity::lemma_expiries_only_log(left, gone, gone.len() as int);
}

/// Of shortages as bad as each other, the one at the lowest system is posted, and of those
/// there the one of the lowest good.
pub proof fn lemma_first_of_the_worst(
    w: WorldView,
    rt: ContractRuntime,
    reward: Money,
    n: int,
    d: CommodityId,
)
    requires
        w.wf(),
        can_ask(w, rt.min_shortfall, n, d),
    ensures
        match board::delivery(w, rt, reward) {
            None => false,
            Some(k) => match k.kind {
                ContractKind::Delivery { commodity, quantity } => {
                    let m = k.destination.0 as int;
                    let a = lack(w.markets[m].goods[commodity]);
                    let b = lack(w.markets[n].goods[d]);
                    &&& a >= b || b <= 0
                    &&& a == b && !(m == n && commodity == d) ==> m < n || (m == n && commodity.0
                        < d.0)
                },
                _ => false,
            },
        },
{
    lemma_posted_delivery(w, rt, reward);
    lemma_can_ask(w, rt.min_shortfall, n, d);
    if let Some((m, c)) = board::worst_shortage(w, rt.min_shortfall) {
        assert(board::is_worst(w, rt.min_shortfall, m, c));
        lemma_can_ask(w, rt.min_shortfall, m, c);
        assert(w.markets[m].system.0 == m);
        assert(w.markets[n].system.0 == n);
        assert(board::wants_delivery(w, rt.min_shortfall, n, d));
    }
}

/// The terms that are quoted are those of the delivery that would be posted: its units,
/// and the unit price of its good where it goes.
pub proof fn lemma_quoted_is_what_is_posted(w: WorldView, rt: ContractRuntime, reward: Money)
    requires
        w.wf(),
        w.contract_runtime == Some(rt),
    ensures
        board::delivery_terms(w) is Some <==> board::delivery(w, rt, reward) is Some,
        board::delivery_terms(w) matches Some((price, units)) ==> {
            let k = board::delivery(w, rt, reward)->Some_0;
            match k.kind {
                ContractKind::Delivery { commodity, quantity } => units == quantity && price
                    == w.markets[k.destination.0 as int].goods[commodity].price,
                _ => false,
            }
        },
{
    if let Some((m, c)) = board::worst_shortage(w, rt.min_shortfall) {
        assert(board::is_worst(w, rt.min_shortfall, m, c));
        assert(w.markets[m].system.0 == m);
    }
}

} // verus!
