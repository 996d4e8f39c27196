//! The contract board of a tick: overdue contracts are swept, and at most one new
//! contract is posted per interval.

use vstd::prelude::*;

use crate::bits;
use crate::contract::{Contract, ContractKind, ContractState};
use crate::event;
use crate::event::EventCategory;
use crate::ids::{CommodityId, ContractId, Money, Quantity, SystemId, Tick};
use crate::market;
use crate::market::MarketGood;
use crate::search;
use crate::world::messages;
use crate::world::{ContractRuntime, World, WorldView};

verus! {

/// Whether a contract is past its deadline.
pub open spec fn lapsed(now: Tick, c: Contract) -> bool {
    now.0 > c.deadline.0
}

/// The world after logging each of the first `n` expired contracts.
pub open spec fn expiries_logged(w: WorldView, gone: Seq<Contract>, n: int) -> WorldView
    decreases n,
{
    if n <= 0 {
        w
    } else {
        let c = gone[n - 1];
        expiries_logged(w, gone, n - 1).log(
            EventCategory::System,
            Some(c.destination),
            messages::expired(c.id, w.registry.spec_system_name(c.destination)),
        )
    }
}

/// The world after contracts past their deadline have left the board.
pub open spec fn swept(w: WorldView) -> WorldView {
    let gone = w.contracts.filter(|c: Contract| lapsed(w.tick, c));
    expiries_logged(
        WorldView { contracts: w.contracts.filter(|c: Contract| !lapsed(w.tick, c)), ..w },
        gone,
        gone.len() as int,
    )
}

/// How far a good is below its anchor.
pub open spec fn shortfall(g: MarketGood) -> int {
    if g.equilibrium > g.stock {
        g.equilibrium - g.stock
    } else {
        0
    }
}

/// How far a good is above its anchor.
pub open spec fn surplus(g: MarketGood) -> int {
    if g.stock > g.equilibrium {
        g.stock - g.equilibrium
    } else {
        0
    }
}

/// Whether a contract is an open delivery of `c` to `dest`.
pub open spec fn open_delivery(k: Contract, dest: SystemId, c: CommodityId) -> bool {
    k.spec_is_open() && k.destination == dest && k.spec_cargo() is Some && k.spec_cargo()->Some_0.0
        == c
}

/// Whether some contract of `board` satisfies `p`.
pub open spec fn on_board(board: Seq<Contract>, p: spec_fn(Contract) -> bool) -> bool {
    exists|i: int| 0 <= i < board.len() && p(#[trigger] board[i])
}

/// Whether market `m` is short enough of `c` for a delivery contract that is not on
/// the board yet.
pub open spec fn wants_delivery(w: WorldView, least: u32, m: int, c: CommodityId) -> bool {
    &&& 0 <= m < w.markets.len()
    &&& w.markets[m].goods.contains_key(c)
    &&& shortfall(w.markets[m].goods[c]) >= least
    &&& !on_board(w.contracts, |k: Contract| open_delivery(k, w.markets[m].system, c))
}

/// Whether the shortage of `c` at market `m` goes before that of `d` at market `n`:
/// the larger one, then the lower system and commodity id.
pub open spec fn shorter(w: WorldView, m: int, c: CommodityId, n: int, d: CommodityId) -> bool {
    let a = shortfall(w.markets[m].goods[c]);
    let b = shortfall(w.markets[n].goods[d]);
    let s = w.markets[m].system.0;
    let t = w.markets[n].system.0;
    a > b || (a == b && (s < t || (s == t && (c.0 < d.0 || (c == d && m < n)))))
}

/// Whether the shortage of `c` at market `m` is the one to post.
pub open spec fn is_worst(w: WorldView, least: u32, m: int, c: CommodityId) -> bool {
    &&& wants_delivery(w, least, m, c)
    &&& forall|n: int, d: CommodityId|
        #![trigger wants_delivery(w, least, n, d)]
        wants_delivery(w, least, n, d) && !(n == m && d == c) ==> shorter(w, m, c, n, d)
}

/// The worst shortage, as market and commodity.
pub open spec fn worst_shortage(w: WorldView, least: u32) -> Option<(int, CommodityId)> {
    if exists|m: int, c: CommodityId| is_worst(w, least, m, c) {
        Some(choose|m: int, c: CommodityId| is_worst(w, least, m, c))
    } else {
        None
    }
}

/// Whether market `m` has the largest surplus of `c`, ties going to the lower system
/// id.
pub open spec fn is_source(w: WorldView, c: CommodityId, m: int) -> bool {
    &&& has_surplus(w, c, m)
    &&& forall|n: int| #[trigger] has_surplus(w, c, n) && n != m ==> {
        let a = surplus(w.markets[m].goods[c]);
        let b = surplus(w.markets[n].goods[c]);
        let s = w.markets[m].system.0;
        let t = w.markets[n].system.0;
        a > b || (a == b && (s < t || (s == t && m < n)))
    }
}

/// Whether market `m` holds more of `c` than its anchor.
pub open spec fn has_surplus(w: WorldView, c: CommodityId, m: int) -> bool {
    0 <= m < w.markets.len() && w.markets[m].goods.contains_key(c) && surplus(
        w.markets[m].goods[c],
    ) > 0
}

/// The system holding the largest surplus of a commodity, or `None` if nowhere has
/// one.
pub open spec fn source_of(w: WorldView, c: CommodityId) -> Option<SystemId> {
    if exists|m: int| is_source(w, c, m) {
        Some(w.markets[choose|m: int| is_source(w, c, m)].system)
    } else {
        None
    }
}

/// A new, open contract.
pub open spec fn fresh_contract(
    w: WorldView,
    rt: ContractRuntime,
    kind: ContractKind,
    destination: SystemId,
    origin: SystemId,
    reward: Money,
) -> Contract {
    Contract {
        id: ContractId(w.next_contract_id),
        kind,
        destination,
        origin,
        reward,
        deadline: w.tick.spec_plus(rt.deadline_ticks),
        state: ContractState::Open,
    }
}

/// The units a delivery asks for.
pub open spec fn delivery_quantity(rt: ContractRuntime, g: MarketGood) -> Quantity {
    if shortfall(g) < rt.max_quantity {
        shortfall(g) as u32
    } else {
        rt.max_quantity
    }
}

/// The delivery contract of the worst shortage, paying `reward`; posted where the
/// good is in surplus.
pub open spec fn delivery(w: WorldView, rt: ContractRuntime, reward: Money) -> Option<Contract> {
    match worst_shortage(w, rt.min_shortfall) {
        None => None,
        Some((m, c)) => {
            let dest = w.markets[m].system;
            let origin = match source_of(w, c) {
                Some(s) => s,
                None => dest,
            };
            let quantity = delivery_quantity(rt, w.markets[m].goods[c]);
            Some(
                fresh_contract(
                    w,
                    rt,
                    ContractKind::Delivery { commodity: c, quantity },
                    dest,
                    origin,
                    reward,
                ),
            )
        },
    }
}

/// Whether a contract is an open bounty at `s`.
pub open spec fn open_bounty(k: Contract, s: SystemId) -> bool {
    k.spec_is_open() && k.destination == s && k.kind is Bounty
}

/// Whether pirate `i` is docked at some system.
pub open spec fn lurks(w: WorldView, i: int) -> bool {
    0 <= i < w.pirates.len() && w.pirates[i].spec_docked_at() is Some
}

/// The danger of a system.
pub open spec fn danger(w: WorldView, s: SystemId) -> bits::Bits {
    w.registry.spec_systems()[s.0 as int].danger
}

/// Whether `s` is the most dangerous system with pirates present, ties going to the
/// lower id.
pub open spec fn is_lair(w: WorldView, s: SystemId) -> bool {
    &&& exists|i: int| #[trigger] lurks(w, i) && w.pirates[i].spec_docked_at() == Some(s)
    &&& forall|i: int| #[trigger] lurks(w, i) ==> {
        let t = w.pirates[i].spec_docked_at()->Some_0;
        t == s || bits::less(danger(w, t), danger(w, s)) || (bits::same(danger(w, t), danger(w, s))
            && s.0 < t.0)
    }
}

/// The most dangerous system with pirates present.
pub open spec fn lair(w: WorldView) -> Option<SystemId> {
    if exists|s: SystemId| is_lair(w, s) {
        Some(choose|s: SystemId| is_lair(w, s))
    } else {
        None
    }
}

/// A bounty on the pirates around the most dangerous system that has some; `None` if
/// bounties are off, there is no such system, or one is already open there.
pub open spec fn bounty(w: WorldView, rt: ContractRuntime) -> Option<Contract> {
    if rt.bounty_target == 0 {
        None
    } else {
        match lair(w) {
            None => None,
            Some(s) => if on_board(w.contracts, |k: Contract| open_bounty(k, s)) {
                None
            } else {
                Some(
                    fresh_contract(
                        w,
                        rt,
                        ContractKind::Bounty { target: rt.bounty_target, progress: 0 },
                        s,
                        s,
                        rt.bounty_reward,
                    ),
                )
            },
        }
    }
}

/// The origin a courier run with this offset starts from: systems take turns.
pub open spec fn courier_origin(w: WorldView, rt: ContractRuntime, offset: int) -> SystemId {
    SystemId(((w.tick.0 / rt.generation_interval + offset) % (w.systems() as int)) as u32)
}

/// Whether a contract is an open courier run from `a` to `b`.
pub open spec fn open_courier(k: Contract, a: SystemId, b: SystemId) -> bool {
    k.spec_is_open() && k.kind is Courier && k.origin == a && k.destination == b
}

/// The first connection of a system.
pub open spec fn first_link(w: WorldView, s: SystemId) -> Option<SystemId> {
    let links = w.registry.spec_systems()[s.0 as int].connections@;
    if links.len() > 0 {
        Some(links[0])
    } else {
        None
    }
}

/// Whether a courier run with this offset can be posted: it leads somewhere, and is
/// not on the board yet.
pub open spec fn runnable(w: WorldView, rt: ContractRuntime, offset: int) -> bool {
    let a = courier_origin(w, rt, offset);
    first_link(w, a) is Some && !on_board(
        w.contracts,
        |k: Contract| open_courier(k, a, first_link(w, a)->Some_0),
    )
}

/// Whether `offset` is the first whose run can be posted.
pub open spec fn is_turn(w: WorldView, rt: ContractRuntime, offset: int) -> bool {
    &&& 0 <= offset < w.systems()
    &&& runnable(w, rt, offset)
    &&& forall|k: int| 0 <= k < offset ==> !#[trigger] runnable(w, rt, k)
}

/// A courier run between two connected systems; `None` if couriers are off, or every
/// route already has one.
pub open spec fn courier(w: WorldView, rt: ContractRuntime) -> Option<Contract> {
    if rt.courier_reward == 0 {
        None
    } else if exists|k: int| is_turn(w, rt, k) {
        let k = choose|k: int| is_turn(w, rt, k);
        let a = courier_origin(w, rt, k);
        let b = first_link(w, a)->Some_0;
        Some(fresh_contract(w, rt, ContractKind::Courier, b, a, w.tables.spec_courier(b)))
    } else {
        None
    }
}

/// The contract this tick posts: the preferred kind rotates, and the next kinds stand
/// in where it has no candidate.
pub open spec fn candidate(w: WorldView, rt: ContractRuntime, reward: Money) -> Option<Contract> {
    let turn = w.tick.0 / rt.generation_interval % 3;
    let d = delivery(w, rt, reward);
    let b = bounty(w, rt);
    let c = courier(w, rt);
    if turn == 0 {
        if d is Some {
            d
        } else if b is Some {
            b
        } else {
            c
        }
    } else if turn == 1 {
        if b is Some {
            b
        } else if c is Some {
            c
        } else {
            d
        }
    } else {
        if c is Some {
            c
        } else if d is Some {
            d
        } else {
            b
        }
    }
}

/// How a new contract is announced.
pub open spec fn announcement(w: WorldView, k: Contract) -> Seq<char> {
    let dest = w.registry.spec_system_name(k.destination);
    match k.kind {
        ContractKind::Delivery { commodity, quantity } => messages::posted_delivery(
            k.id,
            quantity,
            w.registry.spec_commodity_name(commodity),
            dest,
            k.reward,
        ),
        ContractKind::Courier => messages::posted_courier(
            k.id,
            w.registry.spec_system_name(k.origin),
            dest,
            k.reward,
        ),
        ContractKind::Bounty { target, progress } => messages::posted_bounty(
            k.id,
            target,
            dest,
            k.reward,
        ),
    }
}

/// The world after a contract has been posted.
pub open spec fn posted(w: WorldView, k: Contract) -> WorldView {
    WorldView {
        contracts: w.contracts.push(k),
        next_contract_id: w.next_contract_id.wrapping_add(1),
        ..w
    }.log(EventCategory::System, Some(k.destination), announcement(w, k))
}

/// The open contracts.
pub open spec fn open_contracts(board: Seq<Contract>) -> Seq<Contract> {
    board.filter(|c: Contract| c.spec_is_open())
}

/// Whether a contract may be posted on this tick: an interval begins, and the board
/// has room.
pub open spec fn posting(w: WorldView, rt: ContractRuntime) -> bool {
    w.tick.0 % rt.generation_interval == 0 && open_contracts(w.contracts).len() < rt.max_open
}

/// The world after the board has been swept, where there is one.
pub open spec fn board_swept(w: WorldView) -> WorldView {
    if w.contract_runtime is Some {
        swept(w)
    } else {
        w
    }
}

/// The world after the next contract has been posted, where one is due. `reward` is
/// what a delivery posted now pays.
pub open spec fn board_filled(w: WorldView, reward: Money) -> WorldView {
    match w.contract_runtime {
        None => w,
        Some(rt) => if !posting(w, rt) {
            w
        } else {
            match candidate(w, rt, reward) {
                None => w,
                Some(k) => posted(w, k),
            }
        },
    }
}

/// The unit price and the units that a delivery posted now would be for: the shortage
/// is the worst there is.
pub open spec fn delivery_terms(w: WorldView) -> Option<(Money, Quantity)> {
    match w.contract_runtime {
        None => None,
        Some(rt) => match worst_shortage(w, rt.min_shortfall) {
            None => None,
            Some((m, c)) => Some(
                (w.markets[m].goods[c].price, delivery_quantity(rt, w.markets[m].goods[c])),
            ),
        },
    }
}

proof fn lemma_worst_unique(w: WorldView, least: u32, m: int, c: CommodityId)
    requires
        is_worst(w, least, m, c),
    ensures
        worst_shortage(w, least) == Some((m, c)),
{
    let (n, d) = choose|n: int, d: CommodityId| is_worst(w, least, n, d);
    if !(n == m && d == c) {
        assert(wants_delivery(w, least, n, d));
        assert(wants_delivery(w, least, m, c));
        assert(shorter(w, m, c, n, d));
        assert(shorter(w, n, d, m, c));
    }
}

proof fn lemma_worst_none(w: WorldView, least: u32)
    requires
        forall|n: int, d: CommodityId| !#[trigger] wants_delivery(w, least, n, d),
    ensures
        worst_shortage(w, least) is None,
{
    if exists|m: int, c: CommodityId| is_worst(w, least, m, c) {
        let (n, d) = choose|n: int, d: CommodityId| is_worst(w, least, n, d);
        assert(wants_delivery(w, least, n, d));
    }
}

proof fn lemma_source_unique(w: WorldView, c: CommodityId, m: int)
    requires
        is_source(w, c, m),
    ensures
        source_of(w, c) == Some(w.markets[m].system),
{
    let n = choose|n: int| is_source(w, c, n);
    if n != m {
        assert(has_surplus(w, c, n));
        assert(has_surplus(w, c, m));
    }
}

proof fn lemma_lair_unique(w: WorldView, s: SystemId)
    requires
        is_lair(w, s),
    ensures
        lair(w) == Some(s),
{
    let t = choose|t: SystemId| is_lair(w, t);
    let i = choose|i: int| #[trigger] lurks(w, i) && w.pirates[i].spec_docked_at() == Some(s);
    let j = choose|j: int| #[trigger] lurks(w, j) && w.pirates[j].spec_docked_at() == Some(t);
    assert(lurks(w, i));
    assert(lurks(w, j));
}

proof fn lemma_turn_unique(w: WorldView, rt: ContractRuntime, k: int)
    requires
        is_turn(w, rt, k),
    ensures
        (choose|j: int| is_turn(w, rt, j)) == k,
{
    let j = choose|j: int| is_turn(w, rt, j);
    if j < k {
        assert(!runnable(w, rt, j));
    } else if k < j {
        assert(!runnable(w, rt, k));
    }
}

impl World {
    /// Sweep contracts past their deadline off the board. The deadline tick itself is
    /// still fulfillable.
    fn sweep_contracts(&mut self)
        requires
            old(self)@.wf(),
        ensures
            final(self)@ == swept(old(self)@),
            final(self)@.wf(),
    {
        let now = self.tick;
        let ghost late = |c: Contract| lapsed(now, c);
        let ghost live = |c: Contract| !lapsed(now, c);
        let ghost all = self.contracts@;
        let mut kept: Vec<Contract> = Vec::new();
        let mut gone: Vec<Contract> = Vec::new();
        let mut i: usize = 0;
        proof {
            search::lemma_filter_none(all, late);
            search::lemma_filter_none(all, live);
        }
        while i < self.contracts.len()
            invariant
                i <= self.contracts@.len(),
                all == self.contracts@,
                late == (|c: Contract| lapsed(now, c)),
                live == (|c: Contract| !lapsed(now, c)),
                kept@ == all.take(i as int).filter(live),
                gone@ == all.take(i as int).filter(late),
            decreases self.contracts@.len() - i,
        {
            proof {
                search::lemma_filter_step(all, late, i as int);
                search::lemma_filter_step(all, live, i as int);
            }
            let c = self.contracts[i];
            if now.0 > c.deadline.0 {
                gone.push(c);
            } else {
                kept.push(c);
            }
            i = i + 1;
        }
        assert(all.take(i as int) =~= all);
        self.contracts = kept;
        let ghost base = self@;
        assert(base =~= (WorldView { contracts: all.filter(live), ..old(self)@ }));
        let mut k: usize = 0;
        while k < gone.len()
            invariant
                k <= gone@.len(),
                self@.wf(),
                self@ == expiries_logged(base, gone@, k as int),
                self@.registry == base.registry,
            decreases gone@.len() - k,
        {
            let c = gone[k];
            let msg = messages::expired_text(c.id, self.registry.system_name(c.destination));
            self.log_event(EventCategory::System, Some(c.destination), msg);
            k = k + 1;
        }
    }

    /// Whether an open delivery of `c` to `dest` is on the board.
    fn delivery_posted(&self, dest: SystemId, c: CommodityId) -> (b: bool)
        ensures
            b == on_board(self@.contracts, |k: Contract| open_delivery(k, dest, c)),
    {
        let ghost p = |k: Contract| open_delivery(k, dest, c);
        let mut i: usize = 0;
        while i < self.contracts.len()
            invariant
                i <= self.contracts@.len(),
                self@.contracts == self.contracts@,
                p == (|k: Contract| open_delivery(k, dest, c)),
                forall|j: int| 0 <= j < i ==> !p(#[trigger] self.contracts@[j]),
            decreases self.contracts@.len() - i,
        {
            let k = self.contracts[i];
            let same = match k.cargo() {
                Some((cc, _)) => cc == c,
                None => false,
            };
            if k.is_open() && k.destination == dest && same {
                assert(p(self.contracts@[i as int]));
                return true;
            }
            i = i + 1;
        }
        false
    }

    /// The worst shortage: market and commodity of the biggest shortfall, ties broken
    /// by system and commodity id. Goods that already have an open delivery contract
    /// for the same destination are skipped.
    fn find_shortage(&self, least: u32) -> (r: Option<(usize, CommodityId)>)
        requires
            self@.wf(),
        ensures
            match r {
                Some((m, c)) => worst_shortage(self@, least) == Some((m as int, c)) && m
                    < self.markets@.len() && wants_delivery(self@, least, m as int, c),
                None => worst_shortage(self@, least) is None,
            },
    {
        let n = self.registry.commodity_count();
        let ghost w = self@;
        let mut best: Option<(usize, CommodityId)> = None;
        let mut m: usize = 0;
        while m < self.markets.len()
            invariant
                m <= self.markets@.len(),
                w == self@,
                w.wf(),
                n == w.commodities(),
                self.markets@.len() == w.markets.len(),
                match best {
                    Some((bm, bc)) => bm < m && wants_delivery(w, least, bm as int, bc)
                        && forall|k: int, d: CommodityId|
                        #![trigger wants_delivery(w, least, k, d)]
                        k < m && wants_delivery(w, least, k, d) && !(k == bm && d == bc)
                            ==> shorter(w, bm as int, bc, k, d),
                    None => forall|k: int, d: CommodityId|
                        #![trigger wants_delivery(w, least, k, d)]
                        k < m ==> !wants_delivery(w, least, k, d),
                },
            decreases self.markets@.len() - m,
        {
            let mut c: usize = 0;
            while c < n
                invariant
                    c <= n,
                    m < self.markets@.len(),
                    w == self@,
                    w.wf(),
                    n == w.commodities(),
                    self.markets@.len() == w.markets.len(),
                    match best {
                        Some((bm, bc)) => bm <= m && wants_delivery(w, least, bm as int, bc)
                            && forall|k: int, d: CommodityId|
                            #![trigger wants_delivery(w, least, k, d)]
                            (k < m || (k == m && d.0 < c)) && wants_delivery(w, least, k, d) && !(k
                                == bm && d == bc) ==> shorter(w, bm as int, bc, k, d),
                        None => forall|k: int, d: CommodityId|
                            #![trigger wants_delivery(w, least, k, d)]
                            (k < m || (k == m && d.0 < c)) ==> !wants_delivery(w, least, k, d),
                    },
                decreases n - c,
            {
                let id = CommodityId(c as u32);
                assert(w.markets[m as int] == self.markets@[m as int]@);
                match self.markets[m].goods.get(&id) {
                    None => {},
                    Some(g) => {
                        let short: u32 = g.equilibrium.saturating_sub(g.stock);
                        let dest = self.markets[m].system;
                        if short >= least && !self.delivery_posted(dest, id) {
                            assert(wants_delivery(w, least, m as int, id));
                            let better = match best {
                                None => true,
                                Some((bm, bc)) => {
                                    assert(w.markets[bm as int] == self.markets@[bm as int]@);
                                    let bs: u32 = match self.markets[bm].goods.get(&bc) {
                                        Some(bg) => bg.equilibrium.saturating_sub(bg.stock),
                                        None => 0,
                                    };
                                    let bsys = self.markets[bm].system;
                                    short > bs || (short == bs && (dest.0 < bsys.0 || (dest.0
                                        == bsys.0 && id.0 < bc.0)))
                                },
                            };
                            if better {
                                best = Some((m, id));
                            }
                        } else {
                            assert(!wants_delivery(w, least, m as int, id));
                        }
                    },
                }
                c = c + 1;
            }
            proof {
                assert forall|k: int, d: CommodityId|
                    #![trigger wants_delivery(w, least, k, d)]
                    k < m + 1 && wants_delivery(w, least, k, d) implies (k < m || (k == m && d.0
                    < n)) by {
                    if k == m {
                        assert(w.market_ok(w.markets[m as int]));
                    }
                }
            }
            m = m + 1;
        }
        proof {
            match best {
                Some((bm, bc)) => {
                    assert(is_worst(w, least, bm as int, bc));
                    lemma_worst_unique(w, least, bm as int, bc);
                },
                None => {
                    lemma_worst_none(w, least);
                },
            }
        }
        best
    }

    /// The system holding the largest surplus of a commodity, if any does.
    fn surplus_source(&self, c: CommodityId) -> (r: Option<SystemId>)
        ensures
            r == source_of(self@, c),
    {
        let ghost w = self@;
        let mut best: Option<usize> = None;
        let mut m: usize = 0;
        while m < self.markets.len()
            invariant
                m <= self.markets@.len(),
                w == self@,
                self.markets@.len() == w.markets.len(),
                match best {
                    Some(b) => b < m && has_surplus(w, c, b as int) && forall|n: int|
                        n < m && n != b && #[trigger] has_surplus(w, c, n) ==> {
                            let x = surplus(w.markets[b as int].goods[c]);
                            let y = surplus(w.markets[n].goods[c]);
                            let s = w.markets[b as int].system.0;
                            let t = w.markets[n].system.0;
                            x > y || (x == y && (s < t || (s == t && b < n)))
                        },
                    None => forall|n: int| n < m ==> !#[trigger] has_surplus(w, c, n),
                },
            decreases self.markets@.len() - m,
        {
            assert(w.markets[m as int] == self.markets@[m as int]@);
            match self.markets[m].goods.get(&c) {
                None => {
                    assert(!has_surplus(w, c, m as int));
                },
                Some(g) => {
                    let extra: u32 = g.stock.saturating_sub(g.equilibrium);
                    if extra > 0 {
                        assert(has_surplus(w, c, m as int));
                        let better = match best {
                            None => true,
                            Some(b) => {
                                assert(w.markets[b as int] == self.markets@[b as int]@);
                                let be: u32 = match self.markets[b].goods.get(&c) {
                                    Some(bg) => bg.stock.saturating_sub(bg.equilibrium),
                                    None => 0,
                                };
                                extra > be || (extra == be && self.markets[m].system.0
                                    < self.markets[b].system.0)
                            },
                        };
                        if better {
                            best = Some(m);
                        }
                    } else {
                        assert(!has_surplus(w, c, m as int));
                    }
                },
            }
            m = m + 1;
        }
        match best {
            Some(b) => {
                proof {
                    assert(is_source(w, c, b as int));
                    lemma_source_unique(w, c, b as int);
                    assert(w.markets[b as int] == self.markets@[b as int]@);
                }
                Some(self.markets[b].system)
            },
            None => {
                proof {
                    if exists|n: int| is_source(w, c, n) {
                        let n = choose|n: int| is_source(w, c, n);
                        assert(has_surplus(w, c, n));
                    }
                }
                None
            },
        }
    }

    /// A delivery contract from the largest current shortfall, or `None` if nothing
    /// qualifies.
    fn generate_delivery(&self, rt: &ContractRuntime, reward: Money) -> (r: Option<Contract>)
        requires
            self@.wf(),
        ensures
            r == delivery(self@, *rt, reward),
    {
        let (m, c) = match self.find_shortage(rt.min_shortfall) {
            Some(x) => x,
            None => {
                return None;
            },
        };
        assert(self@.markets[m as int] == self.markets@[m as int]@);
        let short: u32 = match self.markets[m].goods.get(&c) {
            Some(g) => g.equilibrium.saturating_sub(g.stock),
            None => 0,
        };
        let quantity: u32 = if short < rt.max_quantity { short } else { rt.max_quantity };
        let destination = self.markets[m].system;
        let origin = match self.surplus_source(c) {
            Some(s) => s,
            None => destination,
        };
        Some(
            Contract {
                id: ContractId(self.next_contract_id),
                kind: ContractKind::Delivery { commodity: c, quantity },
                destination,
                origin,
                reward,
                deadline: self.tick.plus(rt.deadline_ticks),
                state: ContractState::Open,
            },
        )
    }

    /// Whether an open bounty at `s` is on the board.
    fn bounty_posted(&self, s: SystemId) -> (b: bool)
        ensures
            b == on_board(self@.contracts, |k: Contract| open_bounty(k, s)),
    {
        let ghost p = |k: Contract| open_bounty(k, s);
        let mut i: usize = 0;
        while i < self.contracts.len()
            invariant
                i <= self.contracts@.len(),
                self@.contracts == self.contracts@,
                p == (|k: Contract| open_bounty(k, s)),
                forall|j: int| 0 <= j < i ==> !p(#[trigger] self.contracts@[j]),
            decreases self.contracts@.len() - i,
        {
            let k = self.contracts[i];
            let is_bounty = match k.kind {
                ContractKind::Bounty { .. } => true,
                _ => false,
            };
            if k.is_open() && k.destination == s && is_bounty {
                assert(p(self.contracts@[i as int]));
                return true;
            }
            i = i + 1;
        }
        false
    }

    /// A bounty on pirates around the most dangerous system that has some, unless one
    /// is already open there.
    fn generate_bounty(&self, rt: &ContractRuntime) -> (r: Option<Contract>)
        requires
            self@.wf(),
        ensures
            r == bounty(self@, *rt),
    {
        if rt.bounty_target == 0 {
            return None;
        }
        let ghost w = self@;
        let mut best: Option<SystemId> = None;
        let mut i: usize = 0;
        while i < self.pirates.len()
            invariant
                i <= self.pirates@.len(),
                w == self@,
                w.wf(),
                self.pirates@ == w.pirates,
                match best {
                    Some(b) => {
                        &&& w.lawless(b)
                        &&& exists|j: int| #[trigger] lurks(w, j)
                            && w.pirates[j].spec_docked_at() == Some(b)
                        &&& forall|j: int| j < i && #[trigger] lurks(w, j) ==> {
                            let t = w.pirates[j].spec_docked_at()->Some_0;
                            t == b || bits::less(danger(w, t), danger(w, b)) || (bits::same(
                                danger(w, t),
                                danger(w, b),
                            ) && b.0 < t.0)
                        }
                    },
                    None => forall|j: int| j < i ==> !#[trigger] lurks(w, j),
                },
            decreases self.pirates@.len() - i,
        {
            assert(w.patrol_ok(w.pirates[i as int]));
            match self.pirates[i].docked_at() {
                None => {
                    assert(!lurks(w, i as int));
                },
                Some(s) => {
                    assert(lurks(w, i as int));
                    let d = self.registry.system(s).danger;
                    let better = match best {
                        None => true,
                        Some(b) => {
                            let bd = self.registry.system(b).danger;
                            bits::is_less(bd, d) || (bits::is_same(d, bd) && s.0 < b.0)
                        },
                    };
                    if better {
                        best = Some(s);
                    }
                },
            }
            i = i + 1;
        }
        match best {
            Some(s) => {
                proof {
                    assert(is_lair(w, s));
                    lemma_lair_unique(w, s);
                }
                if self.bounty_posted(s) {
                    None
                } else {
                    Some(
                        Contract {
                            id: ContractId(self.next_contract_id),
                            kind: ContractKind::Bounty { target: rt.bounty_target, progress: 0 },
                            destination: s,
                            origin: s,
                            reward: rt.bounty_reward,
                            deadline: self.tick.plus(rt.deadline_ticks),
                            state: ContractState::Open,
                        },
                    )
                }
            },
            None => {
                proof {
                    if exists|s: SystemId| is_lair(w, s) {
                        let s = choose|s: SystemId| is_lair(w, s);
                        let j = choose|j: int| #[trigger] lurks(w, j)
                            && w.pirates[j].spec_docked_at() == Some(s);
                        assert(lurks(w, j));
                    }
                }
                None
            },
        }
    }

    /// Whether an open courier run from `a` to `b` is on the board.
    fn courier_posted(&self, a: SystemId, b: SystemId) -> (r: bool)
        ensures
            r == on_board(self@.contracts, |k: Contract| open_courier(k, a, b)),
    {
        let ghost p = |k: Contract| open_courier(k, a, b);
        let mut i: usize = 0;
        while i < self.contracts.len()
            invariant
                i <= self.contracts@.len(),
                self@.contracts == self.contracts@,
                p == (|k: Contract| open_courier(k, a, b)),
                forall|j: int| 0 <= j < i ==> !p(#[trigger] self.contracts@[j]),
            decreases self.contracts@.len() - i,
        {
            let k = self.contracts[i];
            let is_courier = match k.kind {
                ContractKind::Courier => true,
                _ => false,
            };
            if k.is_open() && is_courier && k.origin == a && k.destination == b {
                assert(p(self.contracts@[i as int]));
                return true;
            }
            i = i + 1;
        }
        false
    }

    /// A courier parcel between two connected systems, chosen so that the pairing
    /// rotates over systems.
    fn generate_courier(&self, rt: &ContractRuntime) -> (r: Option<Contract>)
        requires
            self@.wf(),
            rt.generation_interval >= 1,
        ensures
            r == courier(self@, *rt),
    {
        if rt.courier_reward == 0 {
            return None;
        }
        let ghost w = self@;
        let nsys = self.registry.system_count();
        let count = self.tick.0 / rt.generation_interval;
        let mut offset: usize = 0;
        while offset < nsys
            invariant
                offset <= nsys,
                w == self@,
                w.wf(),
                nsys == w.systems(),
                nsys <= u32::MAX,
                rt.generation_interval >= 1,
                rt.courier_reward != 0,
                count == w.tick.0 / rt.generation_interval,
                forall|k: int| 0 <= k < offset ==> !#[trigger] runnable(w, *rt, k),
            decreases nsys - offset,
        {
            let sum: u128 = count as u128 + offset as u128;
            let turn: u128 = sum % (nsys as u128);
            assert(turn < nsys);
            let origin = SystemId(turn as u32);
            assert(origin == courier_origin(w, *rt, offset as int));
            let links = &self.registry.system(origin).connections;
            if links.len() > 0 {
                let dest = links[0];
                if !self.courier_posted(origin, dest) {
                    proof {
                        assert(first_link(w, origin) == Some(dest));
                        assert(is_turn(w, *rt, offset as int));
                        lemma_turn_unique(w, *rt, offset as int);
                    }
                    return Some(
                        Contract {
                            id: ContractId(self.next_contract_id),
                            kind: ContractKind::Courier,
                            destination: dest,
                            origin,
                            reward: self.tables.courier(dest),
                            deadline: self.tick.plus(rt.deadline_ticks),
                            state: ContractState::Open,
                        },
                    );
                }
            }
            offset = offset + 1;
        }
        proof {
            if exists|k: int| is_turn(w, *rt, k) {
                let k = choose|k: int| is_turn(w, *rt, k);
                assert(runnable(w, *rt, k));
            }
        }
        None
    }

    /// The contract this tick would post, the kinds tried in rotation.
    fn next_contract(&self, rt: &ContractRuntime, reward: Money) -> (r: Option<Contract>)
        requires
            self@.wf(),
            rt.generation_interval >= 1,
        ensures
            r == candidate(self@, *rt, reward),
    {
        let turn = self.tick.0 / rt.generation_interval % 3;
        let d = self.generate_delivery(rt, reward);
        let b = self.generate_bounty(rt);
        let c = self.generate_courier(rt);
        if turn == 0 {
            if d.is_some() {
                d
            } else if b.is_some() {
                b
            } else {
                c
            }
        } else if turn == 1 {
            if b.is_some() {
                b
            } else if c.is_some() {
                c
            } else {
                d
            }
        } else {
            if c.is_some() {
                c
            } else if d.is_some() {
                d
            } else {
                b
            }
        }
    }

    /// Post a contract on the board and announce it.
    fn post(&mut self, k: Contract)
        requires
            old(self)@.wf(),
        ensures
            final(self)@ == posted(old(self)@, k),
            final(self)@.wf(),
    {
        let msg = match k.kind {
            ContractKind::Delivery { commodity, quantity } => messages::posted_delivery_text(
                k.id,
                quantity,
                self.registry.commodity_name(commodity),
                self.registry.system_name(k.destination),
                k.reward,
            ),
            ContractKind::Courier => messages::posted_courier_text(
                k.id,
                self.registry.system_name(k.origin),
                self.registry.system_name(k.destination),
                k.reward,
            ),
            ContractKind::Bounty { target, .. } => messages::posted_bounty_text(
                k.id,
                target,
                self.registry.system_name(k.destination),
                k.reward,
            ),
        };
        self.contracts.push(k);
        self.next_contract_id = self.next_contract_id.wrapping_add(1);
        assert(self@ =~= (WorldView {
            contracts: old(self)@.contracts.push(k),
            next_contract_id: old(self)@.next_contract_id.wrapping_add(1),
            ..old(self)@
        }));
        self.log_event(EventCategory::System, Some(k.destination), msg);
    }

    /// How many contracts are open.
    fn open_count(&self) -> (n: usize)
        ensures
            n == open_contracts(self@.contracts).len(),
    {
        let ghost p = |c: Contract| c.spec_is_open();
        let mut n: usize = 0;
        let mut i: usize = 0;
        proof {
            search::lemma_filter_none(self.contracts@, p);
        }
        while i < self.contracts.len()
            invariant
                i <= self.contracts@.len(),
                n <= i,
                p == (|c: Contract| c.spec_is_open()),
                n == self.contracts@.take(i as int).filter(p).len(),
            decreases self.contracts@.len() - i,
        {
            proof {
                search::lemma_filter_step(self.contracts@, p, i as int);
            }
            if self.contracts[i].is_open() {
                n = n + 1;
            }
            i = i + 1;
        }
        assert(self.contracts@.take(i as int) =~= self.contracts@);
        n
    }

    /// Expire overdue contracts.
    pub(crate) fn sweep_board(&mut self)
        requires
            old(self)@.wf(),
        ensures
            final(self)@ == board_swept(old(self)@),
            final(self)@.wf(),
    {
        if self.contract_runtime.is_some() {
            self.sweep_contracts();
        }
    }

    /// The unit price and the units that a delivery posted now would be for.
    pub(crate) fn quote_delivery(&self) -> (r: Option<(Money, Quantity)>)
        requires
            self@.wf(),
        ensures
            r == delivery_terms(self@),
    {
        let rt = match self.contract_runtime {
            Some(rt) => rt,
            None => {
                return None;
            },
        };
        let (m, c) = match self.find_shortage(rt.min_shortfall) {
            Some(x) => x,
            None => {
                return None;
            },
        };
        assert(self@.markets[m as int] == self.markets@[m as int]@);
        match self.markets[m].goods.get(&c) {
            Some(g) => {
                let short = g.equilibrium.saturating_sub(g.stock);
                let quantity = if short < rt.max_quantity {
                    short
                } else {
                    rt.max_quantity
                };
                Some((g.price, quantity))
            },
            None => None,
        }
    }

    /// Post the next contract, where one is due. `reward` is what a delivery posted now
    /// pays.
    pub(crate) fn fill_board(&mut self, reward: Money)
        requires
            old(self)@.wf(),
        ensures
            final(self)@ == board_filled(old(self)@, reward),
            final(self)@.wf(),
    {
        let rt = match self.contract_runtime {
            Some(rt) => rt,
            None => {
                return ;
            },
        };
        if self.tick.0 % rt.generation_interval != 0 {
            return ;
        }
        if self.open_count() >= rt.max_open as usize {
            return ;
        }
        match self.next_contract(&rt, reward) {
            Some(k) => {
                self.post(k);
            },
            None => {},
        }
    }
}

} // verus!
