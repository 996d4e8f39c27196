//! What each command is for, told by what can be seen before and after it: which units,
//! credits and papers change hands, and that nothing else does.

use vstd::prelude::*;

use crate::command::{Command, CommandError};
use crate::contract::{Contract, ContractKind, ContractState};
use crate::finance::{Future, FutureSide, Loan, Policy};
use crate::ids::{
    CommodityId, ContractId, LoanId, Money, Owner, PatrolId, PlayerId, Quantity, ShipId, SystemId,
    TraderId,
};
use crate::market::MarketView;
use crate::money;
use crate::patrol::Patrol;
use crate::registry::Registry;
use crate::search;
use crate::trader;
use crate::trader::{TraderLocation, TraderView};
use crate::world::commands;
use crate::world::laws;
use crate::world::roster;
use crate::world::{PiracyStats, WorldView};

verus! {

/// Whether a 64-bit counter stands at `exact`, but for whole turns of the counter.
pub open spec fn stands_at(counter: int, exact: int) -> bool {
    (counter - exact) % 0x1_0000_0000_0000_0000 == 0
}

/// A balance that is within range stands at exactly what it should.
pub proof fn lemma_stands_exactly(counter: Money, exact: int)
    requires
        stands_at(counter as int, exact),
        i64::MIN <= exact <= i64::MAX,
    ensures
        counter == exact,
{
    let d = counter - exact;
    assert(d == 0) by (nonlinear_arith)
        requires
            d % 0x1_0000_0000_0000_0000 == 0,
            -0x1_0000_0000_0000_0000 < d < 0x1_0000_0000_0000_0000,
    ;
}

/// Reducing an amount to a balance changes it by whole turns of the counter only.
pub proof fn lemma_balances_wrap(x: int)
    ensures
        stands_at(money::wrapped(x) as int, x),
{
    let m: int = 0x1_0000_0000_0000_0000;
    let r = x % m;
    let q = x / m;
    vstd::arithmetic::div_mod::lemma_fundamental_div_mod(x, m);
    let d = money::wrapped(x) - x;
    if r > i64::MAX {
        assert(d == (-q - 1) * m) by (nonlinear_arith)
            requires
                d == r - m - x,
                x == m * q + r,
        ;
        vstd::arithmetic::div_mod::lemma_mod_multiples_basic(-q - 1, m);
    } else {
        assert(d == (-q) * m) by (nonlinear_arith)
            requires
                d == r - x,
                x == m * q + r,
        ;
        vstd::arithmetic::div_mod::lemma_mod_multiples_basic(-q, m);
    }
}

/// Counting one more on a 64-bit counter.
pub proof fn lemma_counter_turns(n: u64, by: u64)
    ensures
        stands_at(n.wrapping_add(by) as int, n + by),
{
    if n + by > u64::MAX {
        assert((n.wrapping_add(by) - (n + by)) == -0x1_0000_0000_0000_0000);
        assert(-0x1_0000_0000_0000_0000int % 0x1_0000_0000_0000_0000 == 0) by (nonlinear_arith);
    }
}

/// The units of a good in a hold.
pub open spec fn units(cargo: Map<CommodityId, Quantity>, c: CommodityId) -> int {
    if cargo.dom().contains(c) {
        cargo[c] as int
    } else {
        0
    }
}

/// Whether `after` differs from `before` in the units of `c` alone.
pub open spec fn other_goods_kept(
    before: Map<CommodityId, Quantity>,
    after: Map<CommodityId, Quantity>,
    c: CommodityId,
) -> bool {
    forall|d: CommodityId|
        d != c ==> (#[trigger] after.dom().contains(d) == before.dom().contains(d)) && (
        before.dom().contains(d) ==> after[d] == before[d])
}

/// Whether trader `i` is the one that `id` names: the first to bear it.
pub open spec fn named(traders: Seq<TraderView>, id: TraderId, i: int) -> bool {
    &&& 0 <= i < traders.len()
    &&& traders[i].id == id
    &&& forall|j: int| 0 <= j < i ==> (#[trigger] traders[j]).id != id
}

/// Whether no trader bears `id`.
pub open spec fn nameless(traders: Seq<TraderView>, id: TraderId) -> bool {
    forall|j: int| 0 <= j < traders.len() ==> (#[trigger] traders[j]).id != id
}

/// Whether `after` differs from `before` in trader `i` alone.
pub open spec fn other_traders_kept(before: Seq<TraderView>, after: Seq<TraderView>, i: int) -> bool {
    &&& after.len() == before.len()
    &&& forall|j: int| 0 <= j < before.len() && j != i ==> #[trigger] after[j] == before[j]
}

/// Whether `after` differs from `before` in the capital and the hold of trader `i` alone.
pub open spec fn only_purse_and_hold(before: Seq<TraderView>, after: Seq<TraderView>, i: int) -> bool {
    &&& other_traders_kept(before, after, i)
    &&& after[i] == (TraderView { capital: after[i].capital, cargo: after[i].cargo, ..before[i] })
}

/// Whether `after` differs from `before` in the capital of trader `i` alone.
pub open spec fn only_purse(before: Seq<TraderView>, after: Seq<TraderView>, i: int) -> bool {
    &&& other_traders_kept(before, after, i)
    &&& after[i] == (TraderView { capital: after[i].capital, ..before[i] })
}

/// Whether `after` differs from `before` in the stock of `c` at market `s` alone.
pub open spec fn only_stock(
    before: Seq<MarketView>,
    after: Seq<MarketView>,
    s: int,
    c: CommodityId,
) -> bool {
    &&& after.len() == before.len()
    &&& forall|j: int| 0 <= j < before.len() && j != s ==> #[trigger] after[j] == before[j]
    &&& after[s].system == before[s].system
    &&& after[s].pricing == before[s].pricing
    &&& forall|d: CommodityId|
        d != c ==> (#[trigger] after[s].goods.dom().contains(d) == before[s].goods.dom().contains(
            d,
        )) && (before[s].goods.dom().contains(d) ==> after[s].goods[d] == before[s].goods[d])
    &&& after[s].goods.dom().contains(c)
    &&& after[s].goods[c].price == before[s].goods[c].price
    &&& after[s].goods[c].equilibrium == before[s].goods[c].equilibrium
}

proof fn lemma_slot(w: WorldView, id: TraderId, i: int)
    requires
        named(w.traders, id, i),
    ensures
        commands::trader_slot(w.traders, id) == Some(i),
{
    let p = |t: TraderView| t.id == id;
    assert forall|j: int| 0 <= j < i implies !p(#[trigger] w.traders[j]) by {}
    search::lemma_first_is(w.traders, p, i);
}

/// A purchase: what leaves the market's stock comes into the hold, and what it costs at
/// the market's price leaves the purse. It is refused for what is true: nothing asked for,
/// not the player's trader, not docked, not traded here, or more than the stock, the purse
/// or the ship allows.
pub proof fn lemma_purchase(
    w: WorldView,
    player: PlayerId,
    id: TraderId,
    i: int,
    c: CommodityId,
    qty: Quantity,
)
    requires
        named(w.traders, id, i),
        w.wf(),
    ensures
        ({
            let t = w.traders[i];
            let s = t.location->Docked_0.0 as int;
            let good = w.markets[s].goods[c];
            let def = w.registry.spec_commodities()[c.0 as int];
            let room = w.registry.spec_ships()[t.ship.0 as int].cargo_capacity;
            match commands::applied(w, Command::Buy { player, trader: id, commodity: c, qty }) {
                Ok(v) => {
                    &&& qty > 0
                    &&& t.owner == Owner::Player(player)
                    &&& t.location is Docked
                    &&& w.markets[s].goods.dom().contains(c)
                    &&& v == (WorldView { traders: v.traders, markets: v.markets, ..w })
                    &&& only_purse_and_hold(w.traders, v.traders, i)
                    &&& v.traders[i].capital == t.capital - good.price * qty
                    &&& v.traders[i].capital >= 0
                    &&& other_goods_kept(t.cargo, v.traders[i].cargo, c)
                    &&& v.traders[i].cargo.dom().contains(c)
                    &&& units(t.cargo, c) + qty <= u32::MAX ==> units(v.traders[i].cargo, c)
                        == units(t.cargo, c) + qty
                    &&& only_stock(w.markets, v.markets, s, c)
                    &&& v.markets[s].goods[c].stock == good.stock - qty
                    &&& commands::hold_mass(w.registry, t.cargo) + qty * def.unit_mass <= room
                },
                Err(e) => match e {
                    CommandError::ZeroQuantity => qty == 0,
                    CommandError::NotOwner => t.owner != Owner::Player(player),
                    CommandError::NotDocked => !(t.location is Docked),
                    CommandError::UnknownGood => !w.markets[s].goods.dom().contains(c),
                    CommandError::InsufficientStock => good.stock < qty,
                    CommandError::InsufficientFunds => t.capital < good.price * qty,
                    CommandError::OverCapacity => room < commands::hold_mass(w.registry, t.cargo)
                        + qty * def.unit_mass,
                    _ => false,
                },
            }
        }),
{
    reveal(commands::applied);
    lemma_slot(w, id, i);
    let t = w.traders[i];
    assert(w.trader_ok(t));
    if commands::apply_buy(w, player, id, c, qty) is Ok {
        let s = t.location->Docked_0.0 as int;
        let good = w.markets[s].goods[c];
        assert(w.market_ok(w.markets[s]));
        assert(0 <= good.price * qty) by (nonlinear_arith)
            requires
                good.price >= 1,
                qty >= 0,
        ;
    } else {
        if let TraderLocation::Docked(sys) = t.location {
            let m = w.markets[sys.0 as int];
            assert(m.price(c) is None || m.price(c) is Some);
        }
    }
}

/// A sale: what leaves the hold comes into the market's stock, as far as its counter goes,
/// and the purse is paid the market's price for it. It is refused for what is true.
pub proof fn lemma_sale(
    w: WorldView,
    player: PlayerId,
    id: TraderId,
    i: int,
    c: CommodityId,
    qty: Quantity,
)
    requires
        named(w.traders, id, i),
        w.wf(),
    ensures
        ({
            let t = w.traders[i];
            let s = t.location->Docked_0.0 as int;
            let good = w.markets[s].goods[c];
            match commands::applied(w, Command::Sell { player, trader: id, commodity: c, qty }) {
                Ok(v) => {
                    &&& qty > 0
                    &&& t.owner == Owner::Player(player)
                    &&& t.location is Docked
                    &&& w.markets[s].goods.dom().contains(c)
                    &&& v == (WorldView { traders: v.traders, markets: v.markets, ..w })
                    &&& only_purse_and_hold(w.traders, v.traders, i)
                    &&& stands_at(v.traders[i].capital as int, t.capital + good.price * qty)
                    &&& other_goods_kept(t.cargo, v.traders[i].cargo, c)
                    &&& units(v.traders[i].cargo, c) == units(t.cargo, c) - qty
                    &&& v.traders[i].cargo.dom().contains(c) <==> units(t.cargo, c) > qty
                    &&& only_stock(w.markets, v.markets, s, c)
                    &&& good.stock + qty <= u32::MAX ==> v.markets[s].goods[c].stock == good.stock
                        + qty
                    &&& good.stock + qty > u32::MAX ==> v.markets[s].goods[c].stock == u32::MAX
                },
                Err(e) => match e {
                    CommandError::ZeroQuantity => qty == 0,
                    CommandError::NotOwner => t.owner != Owner::Player(player),
                    CommandError::NotDocked => !(t.location is Docked),
                    CommandError::InsufficientCargo => units(t.cargo, c) < qty,
                    CommandError::UnknownGood => !w.markets[s].goods.dom().contains(c),
                    _ => false,
                },
            }
        }),
{
    reveal(commands::applied);
    lemma_slot(w, id, i);
    let t = w.traders[i];
    assert(w.trader_ok(t));
    if commands::apply_sell(w, player, id, c, qty) is Ok {
        let s = t.location->Docked_0.0 as int;
        let good = w.markets[s].goods[c];
        lemma_balances_wrap(t.capital + good.price * qty);
    }
}

/// Whether contract `k` is the one that `id` names: the first to bear it.
pub open spec fn contract_named(contracts: Seq<Contract>, id: ContractId, k: int) -> bool {
    &&& 0 <= k < contracts.len()
    &&& contracts[k].id == id
    &&& forall|j: int| 0 <= j < k ==> (#[trigger] contracts[j]).id != id
}

/// Whether loan `k` is the one that `id` names: the first to bear it.
pub open spec fn loan_named(loans: Seq<Loan>, id: LoanId, k: int) -> bool {
    &&& 0 <= k < loans.len()
    &&& loans[k].id == id
    &&& forall|j: int| 0 <= j < k ==> (#[trigger] loans[j]).id != id
}

/// Whether patrol `k` is the one that `id` names: the first to bear it.
pub open spec fn patrol_named(fleet: Seq<Patrol>, id: PatrolId, k: int) -> bool {
    &&& 0 <= k < fleet.len()
    &&& fleet[k].id == id
    &&& forall|j: int| 0 <= j < k ==> (#[trigger] fleet[j]).id != id
}

proof fn lemma_contract_slot(contracts: Seq<Contract>, id: ContractId, k: int)
    requires
        contract_named(contracts, id, k),
    ensures
        commands::contract_slot(contracts, id) == Some(k),
{
    let p = |c: Contract| c.id == id;
    assert forall|j: int| 0 <= j < k implies !p(#[trigger] contracts[j]) by {}
    search::lemma_first_is(contracts, p, k);
}

proof fn lemma_loan_slot(loans: Seq<Loan>, id: LoanId, k: int)
    requires
        loan_named(loans, id, k),
    ensures
        commands::loan_slot(loans, id) == Some(k),
{
    let p = |l: Loan| l.id == id;
    assert forall|j: int| 0 <= j < k implies !p(#[trigger] loans[j]) by {}
    search::lemma_first_is(loans, p, k);
}

pub(crate) proof fn lemma_patrol_slot(fleet: Seq<Patrol>, id: PatrolId, k: int)
    requires
        patrol_named(fleet, id, k),
    ensures
        commands::patrol_slot(fleet, id) == Some(k),
{
    let p = |l: Patrol| l.id == id;
    assert forall|j: int| 0 <= j < k implies !p(#[trigger] fleet[j]) by {}
    search::lemma_first_is(fleet, p, k);
}

/// Accepting a contract: it was open, and is held by the trader from then on; nothing else
/// of it, nor any other contract, changes. It is refused for what is true.
pub proof fn lemma_acceptance(
    w: WorldView,
    player: PlayerId,
    id: TraderId,
    i: int,
    contract: ContractId,
    k: int,
)
    requires
        named(w.traders, id, i),
        contract_named(w.contracts, contract, k),
    ensures
        match commands::applied(w, Command::AcceptContract { player, trader: id, contract }) {
            Ok(v) => {
                &&& w.traders[i].owner == Owner::Player(player)
                &&& w.contracts[k].state == ContractState::Open
                &&& v == (WorldView { contracts: v.contracts, events: v.events, ..w })
                &&& v.contracts.len() == w.contracts.len()
                &&& forall|j: int|
                    0 <= j < w.contracts.len() && j != k ==> #[trigger] v.contracts[j]
                        == w.contracts[j]
                &&& v.contracts[k].state == ContractState::Accepted { player, trader: id }
                &&& v.contracts[k] == (Contract { state: v.contracts[k].state, ..w.contracts[k] })
            },
            Err(CommandError::NotOwner) => w.traders[i].owner != Owner::Player(player),
            Err(CommandError::ContractUnavailable) => w.contracts[k].state != ContractState::Open,
            Err(_) => false,
        },
{
    reveal(commands::applied);
    lemma_slot(w, id, i);
    lemma_contract_slot(w.contracts, contract, k);
}

/// Whether what a contract asks for at its destination is met: a delivery's goods are
/// aboard, a bounty's pirates destroyed; a courier run asks for the trip alone.
pub open spec fn ripe(c: Contract, cargo: Map<CommodityId, Quantity>) -> bool {
    match c.kind {
        ContractKind::Delivery { commodity, quantity } => units(cargo, commodity) >= quantity,
        ContractKind::Courier => true,
        ContractKind::Bounty { target, progress } => progress >= target,
    }
}

/// Fulfilling a contract: the reward is paid and the contract leaves the board, the others
/// keeping their order. A delivery takes exactly its quantity of its good out of the hold
/// and leaves every other good as it was; the other kinds leave the hold alone. It is
/// refused for what is true.
pub proof fn lemma_fulfilment(
    w: WorldView,
    player: PlayerId,
    id: TraderId,
    i: int,
    contract: ContractId,
    k: int,
)
    requires
        named(w.traders, id, i),
        contract_named(w.contracts, contract, k),
    ensures
        ({
            let t = w.traders[i];
            let c = w.contracts[k];
            match commands::applied(w, Command::FulfillContract { player, trader: id, contract }) {
                Ok(v) => {
                    &&& t.owner == Owner::Player(player)
                    &&& c.state == ContractState::Accepted { player, trader: id }
                    &&& w.tick.0 <= c.deadline.0
                    &&& t.location == TraderLocation::Docked(c.destination)
                    &&& ripe(c, t.cargo)
                    &&& v == (WorldView {
                        traders: v.traders,
                        contracts: v.contracts,
                        events: v.events,
                        ..w
                    })
                    &&& v.contracts == w.contracts.remove(k)
                    &&& only_purse_and_hold(w.traders, v.traders, i)
                    &&& stands_at(v.traders[i].capital as int, t.capital + c.reward)
                    &&& match c.kind {
                        ContractKind::Delivery { commodity, quantity } => {
                            &&& units(v.traders[i].cargo, commodity) == units(t.cargo, commodity)
                                - quantity
                            &&& other_goods_kept(t.cargo, v.traders[i].cargo, commodity)
                        },
                        _ => v.traders[i].cargo == t.cargo,
                    }
                },
                Err(e) => match e {
                    CommandError::NotOwner => t.owner != Owner::Player(player),
                    CommandError::ContractNotHeld => c.state != (ContractState::Accepted {
                        player,
                        trader: id,
                    }),
                    CommandError::ContractExpired => w.tick.0 > c.deadline.0,
                    CommandError::NotDocked => !(t.location is Docked),
                    CommandError::WrongDestination => t.location != TraderLocation::Docked(
                        c.destination,
                    ),
                    CommandError::InsufficientCargo => c.kind is Delivery && !ripe(c, t.cargo),
                    CommandError::BountyIncomplete => c.kind is Bounty && !ripe(c, t.cargo),
                    _ => false,
                },
            }
        }),
{
    reveal(commands::applied);
    lemma_slot(w, id, i);
    lemma_contract_slot(w.contracts, contract, k);
    lemma_balances_wrap(w.traders[i].capital + w.contracts[k].reward);
}

/// What a trader owes over all its loans.
pub open spec fn debt(loans: Seq<Loan>, id: TraderId) -> int
    decreases loans.len(),
{
    if loans.len() == 0 {
        0
    } else {
        debt(loans.drop_last(), id) + (if loans.last().borrower == id {
            loans.last().outstanding as int
        } else {
            0
        })
    }
}

/// Debts over two lists of loans add up.
pub proof fn lemma_debts_add_up(a: Seq<Loan>, b: Seq<Loan>, id: TraderId)
    ensures
        debt(a + b, id) == debt(a, id) + debt(b, id),
    decreases b.len(),
{
    if b.len() == 0 {
        assert(a + b =~= a);
    } else {
        assert((a + b).drop_last() =~= a + b.drop_last());
        lemma_debts_add_up(a, b.drop_last(), id);
    }
}

proof fn lemma_debt_by_parts(loans: Seq<Loan>, k: int, id: TraderId)
    requires
        0 <= k < loans.len(),
    ensures
        debt(loans, id) == debt(loans.remove(k), id) + (if loans[k].borrower == id {
            loans[k].outstanding as int
        } else {
            0
        }),
{
    let a = loans.take(k);
    let m = seq![loans[k]];
    let b = loans.skip(k + 1);
    assert(loans =~= a + m + b);
    assert(loans.remove(k) =~= a + b);
    lemma_debts_add_up(a + m, b, id);
    lemma_debts_add_up(a, m, id);
    lemma_debts_add_up(a, b, id);
    assert(m.drop_last() =~= Seq::<Loan>::empty());
    assert(debt(m, id) == (if loans[k].borrower == id {
        loans[k].outstanding as int
    } else {
        0
    })) by {
        reveal_with_fuel(debt, 2);
    }
}

/// Taking a loan: the trader's capital and its debt grow by the principal, and the new loan
/// falls due after the term. It is refused for what is true.
pub proof fn lemma_borrowing(w: WorldView, player: PlayerId, id: TraderId, i: int, principal: Money)
    requires
        named(w.traders, id, i),
    ensures
        ({
            let t = w.traders[i];
            let rt = w.loan_runtime->Some_0;
            let mine = w.loans.filter(|l: Loan| l.borrower == id).len();
            match commands::applied(w, Command::TakeLoan { player, trader: id, principal }) {
                Ok(v) => {
                    &&& w.loan_runtime is Some
                    &&& t.owner == Owner::Player(player)
                    &&& t.location is Docked
                    &&& 0 < principal <= rt.max_principal
                    &&& mine < rt.max_loans
                    &&& v == (WorldView {
                        traders: v.traders,
                        loans: v.loans,
                        next_loan_id: v.next_loan_id,
                        events: v.events,
                        ..w
                    })
                    &&& only_purse(w.traders, v.traders, i)
                    &&& stands_at(v.traders[i].capital as int, t.capital + principal)
                    &&& v.loans.len() == w.loans.len() + 1
                    &&& v.loans.drop_last() == w.loans
                    &&& v.loans.last().id.0 == w.next_loan_id
                    &&& v.loans.last().player == player
                    &&& v.loans.last().borrower == id
                    &&& v.loans.last().principal == principal
                    &&& v.loans.last().outstanding == principal
                    &&& stands_at(v.loans.last().due.0 as int, w.tick.0 + rt.term_ticks)
                    &&& stands_at(v.next_loan_id as int, w.next_loan_id + 1)
                    &&& debt(v.loans, id) == debt(w.loans, id) + principal
                },
                Err(e) => match e {
                    CommandError::LendingUnavailable => w.loan_runtime is None,
                    CommandError::NotOwner => t.owner != Owner::Player(player),
                    CommandError::NotDocked => !(t.location is Docked),
                    CommandError::ZeroQuantity => principal <= 0,
                    CommandError::LoanTooLarge => principal > rt.max_principal,
                    CommandError::TooManyLoans => mine >= rt.max_loans,
                    _ => false,
                },
            }
        }),
{
    reveal(commands::applied);
    lemma_slot(w, id, i);
    lemma_balances_wrap(w.traders[i].capital + principal);
    lemma_counter_turns(w.next_loan_id, 1);
    if w.loan_runtime is Some {
        lemma_counter_turns(w.tick.0, w.loan_runtime->Some_0.term_ticks);
        if commands::apply_take_loan(w, player, id, principal) is Ok {
            let v = commands::apply_take_loan(w, player, id, principal)->Ok_0;
            assert(v.loans.drop_last() =~= w.loans);
        }
    }
}

/// Repaying a loan: the debt falls by exactly what the purse is charged. That is the
/// amount offered, where the balance is higher, and the balance is what is left then; an
/// offer of the balance or more pays it off, no more than the balance is charged, and the
/// loan is gone. No other loan changes. It is refused for what is true.
pub proof fn lemma_repayment(
    w: WorldView,
    player: PlayerId,
    id: TraderId,
    i: int,
    loan: LoanId,
    k: int,
    amount: Money,
)
    requires
        named(w.traders, id, i),
        loan_named(w.loans, loan, k),
        w.loans[k].outstanding >= 0,
    ensures
        ({
            let t = w.traders[i];
            let l = w.loans[k];
            match commands::applied(w, Command::RepayLoan { player, trader: id, loan, amount }) {
                Ok(v) => {
                    let charged = t.capital - v.traders[i].capital;
                    &&& amount > 0
                    &&& t.owner == Owner::Player(player)
                    &&& l.player == player
                    &&& l.borrower == id
                    &&& v == (WorldView {
                        traders: v.traders,
                        loans: v.loans,
                        events: v.events,
                        ..w
                    })
                    &&& only_purse(w.traders, v.traders, i)
                    &&& 0 <= charged <= amount
                    &&& debt(w.loans, id) - debt(v.loans, id) == charged
                    &&& forall|other: TraderId| other != id ==> #[trigger] debt(v.loans, other)
                        == debt(w.loans, other)
                    &&& amount < l.outstanding ==> {
                        &&& charged == amount
                        &&& v.loans.len() == w.loans.len()
                        &&& forall|j: int|
                            0 <= j < w.loans.len() && j != k ==> #[trigger] v.loans[j]
                                == w.loans[j]
                        &&& v.loans[k].outstanding == l.outstanding - amount
                        &&& v.loans[k] == (Loan { outstanding: v.loans[k].outstanding, ..l })
                    }
                    &&& amount >= l.outstanding ==> {
                        &&& charged == l.outstanding
                        &&& v.loans == w.loans.remove(k)
                    }
                },
                Err(e) => match e {
                    CommandError::NotOwner => t.owner != Owner::Player(player),
                    CommandError::ZeroQuantity => amount <= 0,
                    CommandError::LoanNotHeld => l.player != player || l.borrower != id,
                    CommandError::InsufficientFunds => t.capital < amount && t.capital
                        < l.outstanding,
                    _ => false,
                },
            }
        }),
{
    reveal(commands::applied);
    lemma_slot(w, id, i);
    lemma_loan_slot(w.loans, loan, k);
    let t = w.traders[i];
    let l = w.loans[k];
    if commands::apply_repay(w, player, id, loan, amount) is Ok {
        let v = commands::apply_repay(w, player, id, loan, amount)->Ok_0;
        let pay: int = if amount < l.outstanding {
            amount as int
        } else {
            l.outstanding as int
        };
        money::lemma_wrapped_fits(t.capital - pay);
        assert forall|other: TraderId| #[trigger] debt(v.loans, other) == debt(w.loans, other) - (
        if other == id {
            pay
        } else {
            0
        }) by {
            lemma_debt_by_parts(w.loans, k, other);
            if amount < l.outstanding {
                lemma_debt_by_parts(v.loans, k, other);
                assert(v.loans.remove(k) =~= w.loans.remove(k));
            }
        }
    }
}

/// Buying insurance: the premium is paid, and the trader is covered with the payout until
/// the term is over. It is refused for what is true.
pub proof fn lemma_insuring(w: WorldView, player: PlayerId, id: TraderId, i: int)
    requires
        named(w.traders, id, i),
    ensures
        ({
            let t = w.traders[i];
            let rt = w.insurance_runtime->Some_0;
            let insured = exists|j: int|
                0 <= j < w.policies.len() && (#[trigger] w.policies[j]).insured == id;
            match commands::applied(w, Command::BuyInsurance { player, trader: id }) {
                Ok(v) => {
                    &&& w.insurance_runtime is Some
                    &&& t.owner == Owner::Player(player)
                    &&& t.location is Docked
                    &&& !insured
                    &&& rt.premium <= t.capital
                    &&& v == (WorldView {
                        traders: v.traders,
                        policies: v.policies,
                        events: v.events,
                        ..w
                    })
                    &&& only_purse(w.traders, v.traders, i)
                    &&& stands_at(v.traders[i].capital as int, t.capital - rt.premium)
                    &&& v.policies.len() == w.policies.len() + 1
                    &&& v.policies.drop_last() == w.policies
                    &&& v.policies.last().player == player
                    &&& v.policies.last().insured == id
                    &&& v.policies.last().payout == rt.payout
                    &&& stands_at(v.policies.last().expiry.0 as int, w.tick.0 + rt.term_ticks)
                },
                Err(e) => match e {
                    CommandError::InsuranceUnavailable => w.insurance_runtime is None,
                    CommandError::NotOwner => t.owner != Owner::Player(player),
                    CommandError::NotDocked => !(t.location is Docked),
                    CommandError::AlreadyInsured => insured,
                    CommandError::InsufficientFunds => t.capital < rt.premium,
                    _ => false,
                },
            }
        }),
{
    reveal(commands::applied);
    lemma_slot(w, id, i);
    let p = |p: Policy| p.insured == id;
    search::lemma_first_found(w.policies, p);
    if exists|j: int| 0 <= j < w.policies.len() && (#[trigger] w.policies[j]).insured == id {
        let j = choose|j: int| 0 <= j < w.policies.len() && (#[trigger] w.policies[j]).insured == id;
        search::lemma_first_some(w.policies, p, j);
    }
    if w.insurance_runtime is Some {
        let rt = w.insurance_runtime->Some_0;
        lemma_balances_wrap(w.traders[i].capital - rt.premium);
        lemma_counter_turns(w.tick.0, rt.term_ticks);
        if commands::apply_insure(w, player, id) is Ok {
            let v = commands::apply_insure(w, player, id)->Ok_0;
            assert(v.policies.drop_last() =~= w.policies);
        }
    }
}

/// An empty hold weighs nothing.
pub proof fn lemma_empty_hold_weighs_nothing(reg: Registry)
    ensures
        commands::hold_mass(reg, Map::empty()) == 0,
{
    lemma_empty_below(reg, reg.spec_commodities().len() as int);
}

proof fn lemma_empty_below(reg: Registry, n: int)
    ensures
        commands::mass_below(reg, Map::empty(), n) == 0,
    decreases n,
{
    if n > 0 {
        lemma_empty_below(reg, n - 1);
        let mass = reg.spec_commodities()[n - 1].unit_mass;
        assert(0 * mass == 0) by (nonlinear_arith);
    }
}

/// A hold weighs as much more as the units that are put into it: each good counts with its
/// own mass.
pub proof fn lemma_hold_weighs_its_goods(
    reg: Registry,
    cargo: Map<CommodityId, Quantity>,
    c: CommodityId,
    n: Quantity,
)
    requires
        reg.spec_commodities().len() <= u32::MAX,
        c.0 < reg.spec_commodities().len(),
    ensures
        commands::hold_mass(reg, cargo.insert(c, n)) == commands::hold_mass(reg, cargo) + (n
            - units(cargo, c)) * reg.spec_commodities()[c.0 as int].unit_mass,
        commands::hold_mass(reg, cargo) >= 0,
{
    laws::lemma_mass_of_changed_hold(reg, cargo, c, n, reg.spec_commodities().len() as int);
    laws::lemma_mass_is_not_negative(reg, cargo, reg.spec_commodities().len() as int);
}

/// Scooping cargo: some of the units offered come aboard for nothing, as many as fit and
/// not one fewer; all of them where they weigh nothing. It is refused for what is true.
pub proof fn lemma_scooping(
    w: WorldView,
    player: PlayerId,
    id: TraderId,
    i: int,
    c: CommodityId,
    qty: Quantity,
)
    requires
        named(w.traders, id, i),
        units(w.traders[i].cargo, c) + qty <= u32::MAX,
        w.wf(),
    ensures
        ({
            let t = w.traders[i];
            let mass = w.registry.spec_commodities()[c.0 as int].unit_mass;
            let load = commands::hold_mass(w.registry, t.cargo);
            let room = w.registry.spec_ships()[t.ship.0 as int].cargo_capacity;
            match commands::applied(
                w,
                Command::ScoopCargo { player, trader: id, commodity: c, qty },
            ) {
                Ok(v) => {
                    let taken = units(v.traders[i].cargo, c) - units(t.cargo, c);
                    &&& qty > 0
                    &&& t.owner == Owner::Player(player)
                    &&& c.0 < w.registry.spec_commodities().len()
                    &&& v == (WorldView { traders: v.traders, ..w })
                    &&& other_traders_kept(w.traders, v.traders, i)
                    &&& v.traders[i] == (TraderView { cargo: v.traders[i].cargo, ..t })
                    &&& other_goods_kept(t.cargo, v.traders[i].cargo, c)
                    &&& 1 <= taken <= qty
                    &&& mass > 0 ==> load + taken * mass <= room
                    &&& taken < qty ==> load + (taken + 1) * mass > room
                },
                Err(e) => match e {
                    CommandError::ZeroQuantity => qty == 0,
                    CommandError::NotOwner => t.owner != Owner::Player(player),
                    CommandError::UnknownGood => c.0 >= w.registry.spec_commodities().len(),
                    CommandError::OverCapacity => mass > 0 && load + mass > room,
                    _ => false,
                },
            }
        }),
{
    reveal(commands::applied);
    lemma_slot(w, id, i);
    let t = w.traders[i];
    let mass = w.registry.spec_commodities()[c.0 as int].unit_mass;
    let load = commands::hold_mass(w.registry, t.cargo);
    let room = w.registry.spec_ships()[t.ship.0 as int].cargo_capacity;
    let free = room - load;
    laws::lemma_mass_is_not_negative(w.registry, t.cargo, w.commodities() as int);
    if mass > 0 && qty * mass > free {
        if free > 0 {
            let n = free / mass as int;
            assert(0 <= n && n * mass <= free && free < (n + 1) * mass && n < qty) by (nonlinear_arith)
                requires
                    mass > 0,
                    free > 0,
                    qty * mass > free,
                    n == free / mass as int,
            ;
        } else {
            assert(load + mass > room);
        }
    } else if mass > 0 && qty > 0 {
        assert(mass <= qty * mass) by (nonlinear_arith)
            requires
                qty >= 1,
                mass >= 0,
        ;
    }
    assert(1 * mass == mass) by (nonlinear_arith);
}

/// A jump: the trader, docked and with a way there, is under way from where it was, and
/// arrives after the ship's travel time, which is at least a tick. It pays the escort's
/// fee and keeps its cargo. It is refused for what is true.
pub proof fn lemma_jump(w: WorldView, player: PlayerId, id: TraderId, i: int, dest: SystemId)
    requires
        named(w.traders, id, i),
    ensures
        ({
            let t = w.traders[i];
            let from = t.location->Docked_0;
            let ways = w.registry.spec_systems()[from.0 as int].connections@;
            let fee: int = match w.escort {
                Some(e) => e.fee as int,
                None => 0,
            };
            match commands::applied(w, Command::Jump { player, trader: id, dest }) {
                Ok(v) => {
                    &&& t.owner == Owner::Player(player)
                    &&& t.location is Docked
                    &&& ways.contains(dest)
                    &&& dest.0 < w.registry.spec_systems().len()
                    &&& v == (WorldView {
                        traders: v.traders,
                        piracy_stats: v.piracy_stats,
                        ..w
                    })
                    &&& other_traders_kept(w.traders, v.traders, i)
                    &&& under_way(w, t, v.traders[i], from, dest)
                    &&& stands_at(v.traders[i].capital as int, t.capital - fee)
                    &&& stands_at(
                        v.piracy_stats.escort_fees_paid as int,
                        w.piracy_stats.escort_fees_paid + fee,
                    )
                    &&& v.piracy_stats == (PiracyStats {
                        escort_fees_paid: v.piracy_stats.escort_fees_paid,
                        ..w.piracy_stats
                    })
                },
                Err(e) => match e {
                    CommandError::NotOwner => t.owner != Owner::Player(player),
                    CommandError::NotDocked => !(t.location is Docked),
                    CommandError::InvalidSystem => dest.0 >= w.registry.spec_systems().len(),
                    CommandError::Unreachable => !ways.contains(dest),
                    _ => false,
                },
            }
        }),
{
    reveal(commands::applied);
    lemma_slot(w, id, i);
    if let TraderLocation::Docked(from) = w.traders[i].location {
        lemma_departure(w, i, from, dest);
    }
}

/// Whether `after` is `before`, but for its capital, gone from `from` to `dest` on this
/// tick: it arrives once the ship's travel time has passed, at least a tick.
pub open spec fn under_way(
    w: WorldView,
    before: TraderView,
    after: TraderView,
    from: SystemId,
    dest: SystemId,
) -> bool {
    &&& after == (TraderView { location: after.location, capital: after.capital, ..before })
    &&& match after.location {
        TraderLocation::InTransit { origin, dest: to, departure, arrival } => {
            let rows = w.tables.travel@;
            &&& origin == from
            &&& to == dest
            &&& departure == w.tick
            &&& before.ship.0 < rows.len() && from.0 < rows[before.ship.0 as int]@.len() && dest.0
                < rows[before.ship.0 as int]@[from.0 as int]@.len() ==> {
                let ticks = rows[before.ship.0 as int]@[from.0 as int]@[dest.0 as int];
                stands_at(
                    arrival.0 as int,
                    departure.0 + (if ticks >= 1 {
                        ticks as int
                    } else {
                        1
                    }),
                )
            }
        },
        _ => false,
    }
}

/// Departing charges the escort's fee and counts it.
pub(crate) proof fn lemma_departure(w: WorldView, i: int, from: SystemId, dest: SystemId)
    requires
        0 <= i < w.traders.len(),
    ensures
        ({
            let v = commands::departed(w, i, from, dest);
            let fee: int = match w.escort {
                Some(e) => e.fee as int,
                None => 0,
            };
            &&& v == (WorldView { traders: v.traders, piracy_stats: v.piracy_stats, ..w })
            &&& other_traders_kept(w.traders, v.traders, i)
            &&& under_way(w, w.traders[i], v.traders[i], from, dest)
            &&& stands_at(v.traders[i].capital as int, w.traders[i].capital - fee)
            &&& stands_at(
                v.piracy_stats.escort_fees_paid as int,
                w.piracy_stats.escort_fees_paid + fee,
            )
            &&& v.piracy_stats == (PiracyStats {
                escort_fees_paid: v.piracy_stats.escort_fees_paid,
                ..w.piracy_stats
            })
        }),
{
    let t = w.traders[i];
    lemma_counter_turns(w.tick.0, w.tables.spec_travel(t.ship, from, dest));
    if w.escort is Some {
        let fee = w.escort->Some_0.fee;
        lemma_balances_wrap(t.capital - fee);
        lemma_balances_wrap(w.piracy_stats.escort_fees_paid + fee);
    }
}

/// Spawning: a trader of the player's, of the ship and with the capital asked for and an
/// empty hold, joins at the end, docked where it was asked for, under the next id. It is
/// refused for what is true.
pub proof fn lemma_spawning(w: WorldView, player: PlayerId, ship: ShipId, at: SystemId, capital: Money)
    ensures
        match commands::applied(w, Command::Spawn { player, ship, at, capital }) {
            Ok(v) => {
                let t = v.traders.last();
                &&& ship.0 < w.registry.spec_ships().len()
                &&& at.0 < w.registry.spec_systems().len()
                &&& v == (WorldView {
                    traders: v.traders,
                    next_trader_id: v.next_trader_id,
                    ..w
                })
                &&& v.traders.len() == w.traders.len() + 1
                &&& v.traders.drop_last() == w.traders
                &&& t.id.0 == w.next_trader_id
                &&& stands_at(v.next_trader_id as int, w.next_trader_id + 1)
                &&& t.ship == ship
                &&& t.capital == capital
                &&& t.location == TraderLocation::Docked(at)
                &&& t.owner == Owner::Player(player)
                &&& forall|c: CommodityId| !#[trigger] t.cargo.dom().contains(c)
            },
            Err(CommandError::UnknownShip) => ship.0 >= w.registry.spec_ships().len(),
            Err(CommandError::InvalidSystem) => at.0 >= w.registry.spec_systems().len(),
            Err(_) => false,
        },
{
    reveal(commands::applied);
    lemma_counter_turns(w.next_trader_id, 1);
    if commands::apply_spawn(w, player, ship, at, capital) is Ok {
        let v = commands::apply_spawn(w, player, ship, at, capital)->Ok_0;
        assert(v.traders.drop_last() =~= w.traders);
    }
}

/// Despawning: the trader leaves, the others keep their order, and nothing else changes.
/// It is refused to anyone but the owner.
pub proof fn lemma_despawning(w: WorldView, player: PlayerId, id: TraderId, i: int)
    requires
        named(w.traders, id, i),
    ensures
        match commands::applied(w, Command::Despawn { player, trader: id }) {
            Ok(v) => {
                &&& w.traders[i].owner == Owner::Player(player)
                &&& v == (WorldView { traders: w.traders.remove(i), ..w })
            },
            Err(e) => e == CommandError::NotOwner && w.traders[i].owner != Owner::Player(player),
        },
{
    reveal(commands::applied);
    lemma_slot(w, id, i);
}

/// The markets that trade a good.
pub open spec fn traders_in(markets: Seq<MarketView>, c: CommodityId) -> Seq<MarketView> {
    markets.filter(|m: MarketView| m.goods.dom().contains(c))
}

/// What one unit of a good costs at each of `markets` together.
pub open spec fn bill(markets: Seq<MarketView>, c: CommodityId) -> int
    decreases markets.len(),
{
    if markets.len() == 0 {
        0
    } else {
        markets[0].goods[c].price + bill(markets.skip(1), c)
    }
}

proof fn lemma_bill_grows(markets: Seq<MarketView>, m: MarketView, c: CommodityId)
    ensures
        bill(markets.push(m), c) == bill(markets, c) + m.goods[c].price,
    decreases markets.len(),
{
    if markets.len() > 0 {
        assert(markets.push(m).skip(1) =~= markets.skip(1).push(m));
        lemma_bill_grows(markets.skip(1), m, c);
    } else {
        assert(markets.push(m).skip(1) =~= Seq::<MarketView>::empty());
        reveal_with_fuel(bill, 2);
    }
}

proof fn lemma_reference_parts(markets: Seq<MarketView>, c: CommodityId, n: int)
    requires
        0 <= n <= markets.len(),
    ensures
        commands::price_sum(markets, c, n) == bill(traders_in(markets.take(n), c), c),
        commands::traded_at(markets, c, n) == traders_in(markets.take(n), c).len(),
    decreases n,
{
    let p = |m: MarketView| m.goods.dom().contains(c);
    if n > 0 {
        lemma_reference_parts(markets, c, n - 1);
        search::lemma_filter_step(markets, p, n - 1);
        if p(markets[n - 1]) {
            lemma_bill_grows(markets.take(n - 1).filter(p), markets[n - 1], c);
        }
    } else {
        search::lemma_filter_none(markets, p);
    }
}

/// The reference price of a good is the mean of its prices over the markets that trade it,
/// rounded down to a credit; there is none where none trades it.
pub proof fn lemma_reference_price(w: WorldView, c: CommodityId)
    requires
        w.wf(),
    ensures
        ({
            let n = traders_in(w.markets, c).len();
            let all = bill(traders_in(w.markets, c), c);
            match commands::mean_price(w.markets, c) {
                Some(p) => n > 0 && p * n <= all < (p + 1) * n,
                None => n == 0,
            }
        }),
{
    let k = w.markets.len() as int;
    lemma_reference_parts(w.markets, c, k);
    assert(w.markets.take(k) =~= w.markets);
    let n = traders_in(w.markets, c).len() as int;
    let all = bill(traders_in(w.markets, c), c);
    if n > 0 {
        lemma_prices_bounded(w, c, k);
        let q = all / n;
        assert(q * n <= all < (q + 1) * n && 0 <= q <= i64::MAX) by (nonlinear_arith)
            requires
                n > 0,
                q == all / n,
                0 <= all <= n * i64::MAX,
        ;
    }
}

proof fn lemma_prices_bounded(w: WorldView, c: CommodityId, k: int)
    requires
        w.wf(),
        0 <= k <= w.markets.len(),
    ensures
        0 <= commands::price_sum(w.markets, c, k) <= commands::traded_at(w.markets, c, k)
            * i64::MAX,
    decreases k,
{
    if k > 0 {
        lemma_prices_bounded(w, c, k - 1);
        assert(w.market_ok(w.markets[k - 1]));
    }
}

/// Opening a position: the fee is paid, and the position is on so many units at the
/// reference price of this moment, to settle after the term. It is refused for what is
/// true.
pub proof fn lemma_opening(
    w: WorldView,
    player: PlayerId,
    id: TraderId,
    i: int,
    c: CommodityId,
    qty: Quantity,
    side: FutureSide,
)
    requires
        named(w.traders, id, i),
        w.wf(),
    ensures
        ({
            let t = w.traders[i];
            let rt = w.future_runtime->Some_0;
            let mine = w.futures.filter(|f: Future| f.holder == id).len();
            let n = traders_in(w.markets, c).len();
            let all = bill(traders_in(w.markets, c), c);
            match commands::applied(
                w,
                Command::OpenFuture { player, trader: id, commodity: c, qty, side },
            ) {
                Ok(v) => {
                    let f = v.futures.last();
                    &&& w.future_runtime is Some
                    &&& t.owner == Owner::Player(player)
                    &&& t.location is Docked
                    &&& 0 < qty <= rt.max_quantity
                    &&& mine < rt.max_futures
                    &&& n > 0
                    &&& rt.fee <= t.capital
                    &&& v == (WorldView {
                        traders: v.traders,
                        futures: v.futures,
                        events: v.events,
                        ..w
                    })
                    &&& only_purse(w.traders, v.traders, i)
                    &&& stands_at(v.traders[i].capital as int, t.capital - rt.fee)
                    &&& v.futures.len() == w.futures.len() + 1
                    &&& v.futures.drop_last() == w.futures
                    &&& f.player == player
                    &&& f.holder == id
                    &&& f.commodity == c
                    &&& f.quantity == qty
                    &&& f.side == side
                    &&& f.strike * n <= all < (f.strike + 1) * n
                    &&& stands_at(f.maturity.0 as int, w.tick.0 + rt.term_ticks)
                },
                Err(e) => match e {
                    CommandError::FuturesUnavailable => w.future_runtime is None,
                    CommandError::NotOwner => t.owner != Owner::Player(player),
                    CommandError::NotDocked => !(t.location is Docked),
                    CommandError::ZeroQuantity => qty == 0,
                    CommandError::FutureTooLarge => qty > rt.max_quantity,
                    CommandError::TooManyFutures => mine >= rt.max_futures,
                    CommandError::UnknownGood => n == 0,
                    CommandError::InsufficientFunds => t.capital < rt.fee,
                    _ => false,
                },
            }
        }),
{
    reveal(commands::applied);
    lemma_slot(w, id, i);
    lemma_reference_price(w, c);
    if w.future_runtime is Some {
        let rt = w.future_runtime->Some_0;
        lemma_balances_wrap(w.traders[i].capital - rt.fee);
        lemma_counter_turns(w.tick.0, rt.term_ticks);
        if commands::apply_open_future(w, player, id, c, qty, side) is Ok {
            let v = commands::apply_open_future(w, player, id, c, qty, side)->Ok_0;
            assert(v.futures.drop_last() =~= w.futures);
        }
    }
}

/// A figure that stands off another by what itself stands at a third adds up to it.
pub(crate) proof fn lemma_stands_by_way_of(a: int, x: int, r: int, y: int)
    requires
        stands_at(a, x + r),
        stands_at(r, y),
    ensures
        stands_at(a, x + y),
{
    let m: int = 0x1_0000_0000_0000_0000;
    vstd::arithmetic::div_mod::lemma_add_mod_noop(a - (x + r), r - y, m);
    assert(a - (x + y) == (a - (x + r)) + (r - y));
    assert(0int % m == 0) by (nonlinear_arith)
        requires
            m == 0x1_0000_0000_0000_0000,
    ;
}

/// Whether `after` is `before` once the trader `id` has destroyed `kills` more pirates:
/// a bounty that the trader holds has come so far, but not past its target, and nothing
/// else of any contract has changed.
pub open spec fn kills_counted(before: Contract, after: Contract, id: TraderId, kills: int) -> bool {
    match before.kind {
        ContractKind::Bounty { target, progress } => match before.state {
            ContractState::Accepted { player, trader } if trader == id && kills > 0 => {
                &&& after == (Contract { kind: after.kind, ..before })
                &&& match after.kind {
                    ContractKind::Bounty { target: target2, progress: progress2 } => {
                        &&& target2 == target
                        &&& progress + kills <= target ==> progress2 == progress + kills
                        &&& progress + kills > target ==> progress2 == target
                    },
                    _ => false,
                }
            },
            _ => after == before,
        },
        _ => after == before,
    }
}

/// Whether the kills of a trader are counted over a whole board.
pub open spec fn board_counted(
    before: Seq<Contract>,
    after: Seq<Contract>,
    id: TraderId,
    kills: int,
) -> bool {
    &&& after.len() == before.len()
    &&& forall|j: int|
        0 <= j < before.len() ==> kills_counted(before[j], #[trigger] after[j], id, kills)
}

pub(crate) proof fn lemma_board_counted(board: Seq<Contract>, id: TraderId, kills: int)
    requires
        kills > 0,
    ensures
        board_counted(board, commands::board_credited(board, id, kills), id, kills),
{
}

/// Reporting a kill: the pirate leaves its fleet and the others keep their order, the
/// trader is paid the bounty of the scenario, the kill and the payment are counted, and the
/// bounties that the trader holds come one nearer to their target. It is refused to anyone
/// but the owner.
pub proof fn lemma_reported_kill(
    w: WorldView,
    player: PlayerId,
    id: TraderId,
    i: int,
    pirate: PatrolId,
    k: int,
)
    requires
        named(w.traders, id, i),
        patrol_named(w.pirates, pirate, k),
    ensures
        ({
            let t = w.traders[i];
            let bounty: int = match w.piracy {
                Some(rt) => rt.bounty as int,
                None => 0,
            };
            match commands::applied(
                w,
                Command::DestroyedPirate { player, trader: id, pirate },
            ) {
                Ok(v) => {
                    &&& t.owner == Owner::Player(player)
                    &&& v == (WorldView {
                        traders: v.traders,
                        pirates: v.pirates,
                        contracts: v.contracts,
                        piracy_stats: v.piracy_stats,
                        events: v.events,
                        ..w
                    })
                    &&& v.pirates == w.pirates.remove(k)
                    &&& only_purse(w.traders, v.traders, i)
                    &&& stands_at(v.traders[i].capital as int, t.capital + bounty)
                    &&& board_counted(w.contracts, v.contracts, id, 1)
                    &&& stands_at(
                        v.piracy_stats.bounties_paid as int,
                        w.piracy_stats.bounties_paid + bounty,
                    )
                    &&& stands_at(
                        v.piracy_stats.pirates_destroyed as int,
                        w.piracy_stats.pirates_destroyed + 1,
                    )
                    &&& v.piracy_stats == (PiracyStats {
                        bounties_paid: v.piracy_stats.bounties_paid,
                        pirates_destroyed: v.piracy_stats.pirates_destroyed,
                        ..w.piracy_stats
                    })
                },
                Err(e) => e == CommandError::NotOwner && t.owner != Owner::Player(player),
            }
        }),
{
    lemma_slot(w, id, i);
    lemma_patrol_slot(w.pirates, pirate, k);
    let bounty: int = match w.piracy {
        Some(rt) => rt.bounty as int,
        None => 0,
    };
    lemma_balances_wrap(w.traders[i].capital + bounty);
    lemma_balances_wrap(w.piracy_stats.bounties_paid + bounty);
    lemma_counter_turns(w.piracy_stats.pirates_destroyed, 1);
    lemma_board_counted(w.contracts, id, 1);
    if commands::applied(w, Command::DestroyedPirate { player, trader: id, pirate }) is Ok {
        roster::lemma_kill_is_paid(w, player, id, pirate);
    }
    reveal(commands::applied);
}

/// Whether policy `k` is the one on the trader `id`: the first on it.
pub open spec fn policy_named(policies: Seq<Policy>, id: TraderId, k: int) -> bool {
    &&& 0 <= k < policies.len()
    &&& policies[k].insured == id
    &&& forall|j: int| 0 <= j < k ==> (#[trigger] policies[j]).insured != id
}

/// Whether `v` is `w` after the loss of trader `i`: its cargo is gone and it is out until
/// the delay is over; the loss is counted; and a policy on it that has not run out pays and
/// is used up. Without one it gets nothing.
pub open spec fn loss_settled(w: WorldView, v: WorldView, i: int, delay: u64) -> bool {
    let t = w.traders[i];
    let u = v.traders[i];
    &&& other_traders_kept(w.traders, v.traders, i)
    &&& u == (TraderView { capital: u.capital, cargo: u.cargo, location: u.location, ..t })
    &&& forall|c: CommodityId| !#[trigger] u.cargo.dom().contains(c)
    &&& match u.location {
        TraderLocation::Destroyed { respawn } => stands_at(respawn.0 as int, w.tick.0 + delay),
        _ => false,
    }
    &&& stands_at(v.piracy_stats.traders_lost as int, w.piracy_stats.traders_lost + 1)
    &&& forall|k: int| #[trigger] policy_named(w.policies, t.id, k) ==> {
        if w.tick.0 <= w.policies[k].expiry.0 {
            &&& stands_at(u.capital as int, t.capital + w.policies[k].payout)
            &&& v.policies == w.policies.remove(k)
        } else {
            u.capital == t.capital && v.policies == w.policies
        }
    }
    &&& (forall|k: int| !#[trigger] policy_named(w.policies, t.id, k)) ==> u.capital == t.capital
        && v.policies == w.policies
}

pub(crate) proof fn lemma_loss_settled(
    w: WorldView,
    lost: WorldView,
    i: int,
    delay: u64,
    at: Option<SystemId>,
)
    requires
        0 <= i < w.traders.len(),
        lost == (WorldView { events: lost.events, ..commands::trader_lost(w, i, delay) }),
    ensures
        ({
            let v = commands::insurance_paid(lost, i, w.traders[i].id, at);
            &&& loss_settled(w, v, i, delay)
            &&& v == (WorldView {
                traders: v.traders,
                policies: v.policies,
                piracy_stats: v.piracy_stats,
                events: v.events,
                ..w
            })
            &&& v.piracy_stats == (PiracyStats {
                traders_lost: v.piracy_stats.traders_lost,
                ..w.piracy_stats
            })
        }),
{
    let t = w.traders[i];
    let v = commands::insurance_paid(lost, i, t.id, at);
    let p = |q: Policy| q.insured == t.id;
    lemma_counter_turns(w.tick.0, delay);
    lemma_counter_turns(w.piracy_stats.traders_lost, 1);
    search::lemma_first_found(w.policies, p);
    assert forall|k: int| #[trigger] policy_named(w.policies, t.id, k) implies {
        if w.tick.0 <= w.policies[k].expiry.0 {
            &&& stands_at(v.traders[i].capital as int, t.capital + w.policies[k].payout)
            &&& v.policies == w.policies.remove(k)
        } else {
            v.traders[i].capital == t.capital && v.policies == w.policies
        }
    } by {
        assert forall|j: int| 0 <= j < k implies !p(#[trigger] w.policies[j]) by {}
        search::lemma_first_is(w.policies, p, k);
        lemma_balances_wrap(t.capital + w.policies[k].payout);
    }
    if forall|k: int| !#[trigger] policy_named(w.policies, t.id, k) {
        if search::first(w.policies, p) is Some {
            let k = search::first(w.policies, p)->Some_0;
            assert(policy_named(w.policies, t.id, k)) by {
                assert forall|j: int| 0 <= j < k implies (#[trigger] w.policies[j]).insured
                    != t.id by {
                    assert(!p(w.policies[j]));
                }
            }
        }
    }
}

/// Reporting a loss: the trader is settled as lost, out for the delay of the scenario's
/// piracy or the usual fifty ticks. It is refused to anyone but the owner.
pub proof fn lemma_reported_loss(w: WorldView, player: PlayerId, id: TraderId, i: int)
    requires
        named(w.traders, id, i),
    ensures
        ({
            let delay: u64 = match w.piracy {
                Some(rt) => rt.respawn_delay,
                None => 50,
            };
            match commands::applied(w, Command::TraderDestroyed { player, trader: id }) {
                Ok(v) => {
                    &&& w.traders[i].owner == Owner::Player(player)
                    &&& loss_settled(w, v, i, delay)
                    &&& v == (WorldView {
                        traders: v.traders,
                        policies: v.policies,
                        piracy_stats: v.piracy_stats,
                        events: v.events,
                        ..w
                    })
                    &&& v.piracy_stats == (PiracyStats {
                        traders_lost: v.piracy_stats.traders_lost,
                        ..w.piracy_stats
                    })
                },
                Err(e) => e == CommandError::NotOwner && w.traders[i].owner != Owner::Player(
                    player,
                ),
            }
        }),
{
    reveal(commands::applied);
    lemma_slot(w, id, i);
    let delay: u64 = match w.piracy {
        Some(rt) => rt.respawn_delay,
        None => 50,
    };
    let at = commands::whereabouts(w.traders[i]);
    let lost = commands::trader_lost(w, i, delay).log(
        crate::event::EventCategory::Piracy,
        at,
        crate::world::messages::lost(id),
    );
    lemma_loss_settled(w, lost, i, delay, at);
}

/// The trader that a command is for.
pub open spec fn addressee(c: Command) -> Option<TraderId> {
    match c {
        Command::Spawn { player, ship, at, capital } => None,
        Command::Despawn { player, trader } => Some(trader),
        Command::Jump { player, trader, dest } => Some(trader),
        Command::Buy { player, trader, commodity, qty } => Some(trader),
        Command::Sell { player, trader, commodity, qty } => Some(trader),
        Command::AcceptContract { player, trader, contract } => Some(trader),
        Command::FulfillContract { player, trader, contract } => Some(trader),
        Command::TakeLoan { player, trader, principal } => Some(trader),
        Command::RepayLoan { player, trader, loan, amount } => Some(trader),
        Command::BuyInsurance { player, trader } => Some(trader),
        Command::OpenFuture { player, trader, commodity, qty, side } => Some(trader),
        Command::DestroyedPirate { player, trader, pirate } => Some(trader),
        Command::TraderDestroyed { player, trader } => Some(trader),
        Command::ScoopCargo { player, trader, commodity, qty } => Some(trader),
    }
}

/// A command for a trader that is not there is refused: for that, unless it could not be
/// given at all, as one for no units or in a world without the service.
pub proof fn lemma_no_such_trader(w: WorldView, c: Command)
    requires
        addressee(c) is Some,
        nameless(w.traders, addressee(c)->Some_0),
    ensures
        match commands::applied(w, c) {
            Ok(_) => false,
            Err(CommandError::UnknownTrader) => true,
            Err(CommandError::ZeroQuantity) => match c {
                Command::Buy { player, trader, commodity, qty } => qty == 0,
                Command::Sell { player, trader, commodity, qty } => qty == 0,
                Command::ScoopCargo { player, trader, commodity, qty } => qty == 0,
                _ => false,
            },
            Err(CommandError::LendingUnavailable) => c is TakeLoan && w.loan_runtime is None,
            Err(CommandError::InsuranceUnavailable) => c is BuyInsurance
                && w.insurance_runtime is None,
            Err(CommandError::FuturesUnavailable) => c is OpenFuture && w.future_runtime is None,
            Err(_) => false,
        },
{
    reveal(commands::applied);
    let id = addressee(c)->Some_0;
    let p = |t: TraderView| t.id == id;
    search::lemma_first_none(w.traders, p);
}

/// A command about a contract, a loan or a pirate that is not there is refused for that.
pub proof fn lemma_no_such_thing(
    w: WorldView,
    player: PlayerId,
    id: TraderId,
    i: int,
    contract: ContractId,
    loan: LoanId,
    amount: Money,
    pirate: PatrolId,
)
    requires
        named(w.traders, id, i),
        w.traders[i].owner == Owner::Player(player),
        amount > 0,
    ensures
        (forall|j: int| 0 <= j < w.contracts.len() ==> (#[trigger] w.contracts[j]).id != contract)
            ==> commands::applied(w, Command::AcceptContract { player, trader: id, contract })
            == Err::<WorldView, CommandError>(CommandError::UnknownContract) && commands::applied(
            w,
            Command::FulfillContract { player, trader: id, contract },
        ) == Err::<WorldView, CommandError>(CommandError::UnknownContract),
        (forall|j: int| 0 <= j < w.loans.len() ==> (#[trigger] w.loans[j]).id != loan)
            ==> commands::applied(w, Command::RepayLoan { player, trader: id, loan, amount })
            == Err::<WorldView, CommandError>(CommandError::UnknownLoan),
        (forall|j: int| 0 <= j < w.pirates.len() ==> (#[trigger] w.pirates[j]).id != pirate)
            ==> commands::applied(w, Command::DestroyedPirate { player, trader: id, pirate })
            == Err::<WorldView, CommandError>(CommandError::UnknownPatrol),
{
    reveal(commands::applied);
    lemma_slot(w, id, i);
    if forall|j: int| 0 <= j < w.contracts.len() ==> (#[trigger] w.contracts[j]).id != contract {
        search::lemma_first_none(w.contracts, |c: Contract| c.id == contract);
    }
    if forall|j: int| 0 <= j < w.loans.len() ==> (#[trigger] w.loans[j]).id != loan {
        search::lemma_first_none(w.loans, |l: Loan| l.id == loan);
    }
    if forall|j: int| 0 <= j < w.pirates.len() ==> (#[trigger] w.pirates[j]).id != pirate {
        search::lemma_first_none(w.pirates, |p: Patrol| p.id == pirate);
    }
}

} // verus!
