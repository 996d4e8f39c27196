//! What a player's terminal shows.

use vstd::prelude::*;
use vstd::string::StringExecFns;

use crate::by_id::ById;
use crate::contract::{Contract, ContractKind};
use crate::finance::{Future, FutureSide, Loan, Policy};
use crate::ids::{CommodityId, Money, Quantity, SystemId, Tick, TraderId};
use crate::market;
use crate::market::{Market, MarketGood};
use crate::money;
use crate::registry::Registry;
use crate::search;
use crate::text;
use crate::text::{i64_text, join, push_i64, push_left, push_right, push_u128, push_u64, u64_text};
use crate::trader;
use crate::trader::{Trader, TraderLocation, TraderView};
use crate::world::commands;

verus! {

/// The display name of a system.
pub open spec fn system_label(reg: Registry, s: SystemId) -> Seq<char> {
    if s.0 < reg.spec_systems().len() {
        reg.spec_systems()[s.0 as int].name@
    } else {
        "?"@
    }
}

/// The display name of a system.
pub fn label_system(reg: &Registry, s: SystemId) -> (r: &str)
    ensures
        r@ == system_label(*reg, s),
{
    if s.index() < reg.system_count() {
        reg.system(s).name.as_str()
    } else {
        "?"
    }
}

/// The display name of a commodity.
pub open spec fn good_label(reg: Registry, c: CommodityId) -> Seq<char> {
    if c.0 < reg.spec_commodities().len() {
        reg.spec_commodities()[c.0 as int].name@
    } else {
        "?"@
    }
}

/// The display name of a commodity.
pub fn label_good(reg: &Registry, c: CommodityId) -> (r: &str)
    ensures
        r@ == good_label(*reg, c),
{
    if c.index() < reg.commodity_count() {
        reg.commodity(c).name.as_str()
    } else {
        "?"
    }
}

/// The danger of a system as the host wrote it out.
pub open spec fn danger_label(dangers: Seq<String>, s: SystemId) -> Seq<char> {
    if s.0 < dangers.len() {
        dangers[s.0 as int]@
    } else {
        "?"@
    }
}

/// The danger of a system as the host wrote it out.
fn label_danger(dangers: &Vec<String>, s: SystemId) -> (r: &str)
    ensures
        r@ == danger_label(dangers@, s),
{
    if s.index() < dangers.len() {
        dangers[s.index()].as_str()
    } else {
        "?"
    }
}

/// What a contract asks for, its destination aside: a delivery's cargo, a bounty's
/// progress, or a parcel.
pub open spec fn task(reg: Registry, c: Contract) -> Seq<char> {
    match c.kind {
        ContractKind::Delivery { commodity, quantity } => text::dec_nat(quantity as nat) + " "@
            + good_label(reg, commodity),
        ContractKind::Courier => "courier parcel"@,
        ContractKind::Bounty { target, progress } => "bounty "@ + text::dec_nat(progress as nat)
            + "/"@ + text::dec_nat(target as nat) + " kills"@,
    }
}

/// A one-line description of what a contract asks for.
pub fn contract_task(reg: &Registry, c: &Contract) -> (s: String)
    ensures
        s@ == task(*reg, *c),
{
    let mut s = String::new();
    match c.kind {
        ContractKind::Delivery { commodity, quantity } => {
            push_u64(&mut s, quantity as u64);
            s.append(" ");
            s.append(label_good(reg, commodity));
        },
        ContractKind::Courier => {
            s.append("courier parcel");
        },
        ContractKind::Bounty { target, progress } => {
            s.append("bounty ");
            push_u64(&mut s, progress as u64);
            s.append("/");
            push_u64(&mut s, target as u64);
            s.append(" kills");
        },
    }
    assert(s@ =~= task(*reg, *c));
    s
}

/// The ticks left until `t`.
pub open spec fn left_until(t: Tick, now: Tick) -> u64 {
    if t.0 > now.0 {
        (t.0 - now.0) as u64
    } else {
        0
    }
}

/// The ticks left until `t`.
pub fn ticks_left(t: Tick, now: Tick) -> (n: u64)
    ensures
        n == left_until(t, now),
{
    if t.0 > now.0 {
        t.0 - now.0
    } else {
        0
    }
}

/// Where a contract stands, for the holder of `id`.
pub open spec fn standing(c: Contract, id: TraderId) -> Seq<char> {
    match c.spec_holder() {
        None => "open"@,
        Some((_, t)) => if t == id {
            "yours"@
        } else {
            "taken"@
        },
    }
}

/// Where a contract stands, for the holder of `id`.
pub fn contract_standing(c: &Contract, id: TraderId) -> (s: &'static str)
    ensures
        s@ == standing(*c, id),
{
    match c.holder() {
        None => "open",
        Some((_, t)) => if t == id {
            "yours"
        } else {
            "taken"
        },
    }
}

/// One line of the contract board.
pub open spec fn contract_line(reg: Registry, c: Contract, now: Tick, id: TraderId) -> Seq<char> {
    "  #"@ + text::left(text::dec_nat(c.id.0 as nat), 3) + " "@ + text::left(task(reg, c), 16)
        + " -> "@ + text::left(system_label(reg, c.destination), 10) + " "@ + text::right(
        text::dec(c.reward as int),
        8,
    ) + " cr  "@ + text::right(text::dec_nat(left_until(c.deadline, now) as nat), 4) + "t  ["@
        + standing(c, id) + "]\n"@
}

/// The first `n` lines of the contract board.
pub open spec fn contract_lines(
    reg: Registry,
    board: Seq<Contract>,
    now: Tick,
    id: TraderId,
    n: int,
) -> Seq<char>
    decreases n,
{
    if n <= 0 {
        Seq::empty()
    } else {
        contract_lines(reg, board, now, id, n - 1) + contract_line(reg, board[n - 1], now, id)
    }
}

/// The contract board.
pub open spec fn board_shown(
    reg: Registry,
    board: Seq<Contract>,
    now: Tick,
    id: TraderId,
) -> Seq<char> {
    if board.len() == 0 {
        "\nNo contracts on the board.\n"@
    } else {
        "\nContracts:\n"@ + contract_lines(reg, board, now, id, board.len() as int)
            + "(accept <id> to take one; complete it at its destination, then fulfil <id>)\n"@
    }
}

/// Append one line of the contract board.
fn push_contract(s: &mut String, reg: &Registry, c: &Contract, now: Tick, id: TraderId)
    ensures
        final(s)@ == old(s)@ + contract_line(*reg, *c, now, id),
{
    s.append("  #");
    push_left(s, u64_text(c.id.0).as_str(), 3);
    s.append(" ");
    push_left(s, contract_task(reg, c).as_str(), 16);
    s.append(" -> ");
    push_left(s, label_system(reg, c.destination), 10);
    s.append(" ");
    push_right(s, i64_text(c.reward).as_str(), 8);
    s.append(" cr  ");
    push_right(s, u64_text(ticks_left(c.deadline, now)).as_str(), 4);
    s.append("t  [");
    s.append(contract_standing(c, id));
    s.append("]\n");
    assert(s@ =~= old(s)@ + contract_line(*reg, *c, now, id));
}

/// Render the contract board: id, task, destination, reward, time left, and whether each
/// contract is open, held by this trader, or taken by another.
pub fn contracts_text(reg: &Registry, board: &Vec<Contract>, now: Tick, id: TraderId) -> (s: String)
    ensures
        s@ == board_shown(*reg, board@, now, id),
{
    if board.len() == 0 {
        return "\nNo contracts on the board.\n".to_owned();
    }
    let mut s = String::new();
    s.append("\nContracts:\n");
    let ghost head = s@;
    let mut i: usize = 0;
    assert(s@ =~= head + contract_lines(*reg, board@, now, id, 0));
    while i < board.len()
        invariant
            i <= board@.len(),
            s@ == head + contract_lines(*reg, board@, now, id, i as int),
        decreases board@.len() - i,
    {
        push_contract(&mut s, reg, &board[i], now, id);
        assert(s@ =~= head + contract_lines(*reg, board@, now, id, i + 1));
        i = i + 1;
    }
    s.append("(accept <id> to take one; complete it at its destination, then fulfil <id>)\n");
    assert(s@ =~= board_shown(*reg, board@, now, id));
    s
}

/// The loans of a trader.
pub open spec fn loans_of(loans: Seq<Loan>, id: TraderId) -> Seq<Loan> {
    loans.filter(|l: Loan| l.borrower == id)
}

/// The loans of a trader.
pub fn loans_held(loans: &Vec<Loan>, id: TraderId) -> (r: Vec<Loan>)
    ensures
        r@ == loans_of(loans@, id),
{
    let ghost p = |l: Loan| l.borrower == id;
    let mut out: Vec<Loan> = Vec::new();
    let mut i: usize = 0;
    proof {
        search::lemma_filter_none(loans@, p);
    }
    while i < loans.len()
        invariant
            i <= loans@.len(),
            p == (|l: Loan| l.borrower == id),
            out@ == loans@.take(i as int).filter(p),
        decreases loans@.len() - i,
    {
        proof {
            search::lemma_filter_step(loans@, p, i as int);
        }
        if loans[i].borrower == id {
            out.push(loans[i]);
        }
        i = i + 1;
    }
    assert(loans@.take(i as int) =~= loans@);
    out
}

/// One line of the loan list.
pub open spec fn loan_line(l: Loan, now: Tick) -> Seq<char> {
    "  #"@ + text::left(text::dec_nat(l.id.0 as nat), 3) + " owed "@ + text::right(
        text::dec(l.outstanding as int),
        8,
    ) + " cr   due in "@ + text::right(text::dec_nat(left_until(l.due, now) as nat), 4) + "t\n"@
}

/// The first `n` lines of the loan list.
pub open spec fn loan_lines(mine: Seq<Loan>, now: Tick, n: int) -> Seq<char>
    decreases n,
{
    if n <= 0 {
        Seq::empty()
    } else {
        loan_lines(mine, now, n - 1) + loan_line(mine[n - 1], now)
    }
}

/// The loans of a trader, listed.
pub open spec fn loans_shown(loans: Seq<Loan>, now: Tick, id: TraderId) -> Seq<char> {
    let mine = loans_of(loans, id);
    if mine.len() == 0 {
        "\nNo outstanding loans.\n"@
    } else {
        "\nLoans:\n"@ + loan_lines(mine, now, mine.len() as int)
            + "(borrow <amount>; repay <id> [amount])\n"@
    }
}

/// Render a trader's outstanding loans.
pub fn loans_text(loans: &Vec<Loan>, now: Tick, id: TraderId) -> (s: String)
    ensures
        s@ == loans_shown(loans@, now, id),
{
    let mine = loans_held(loans, id);
    if mine.len() == 0 {
        return "\nNo outstanding loans.\n".to_owned();
    }
    let mut s = String::new();
    s.append("\nLoans:\n");
    let ghost head = s@;
    let mut i: usize = 0;
    assert(s@ =~= head + loan_lines(mine@, now, 0));
    while i < mine.len()
        invariant
            i <= mine@.len(),
            s@ == head + loan_lines(mine@, now, i as int),
        decreases mine@.len() - i,
    {
        let ghost before = s@;
        s.append("  #");
        push_left(&mut s, u64_text(mine[i].id.0).as_str(), 3);
        s.append(" owed ");
        push_right(&mut s, i64_text(mine[i].outstanding).as_str(), 8);
        s.append(" cr   due in ");
        push_right(&mut s, u64_text(ticks_left(mine[i].due, now)).as_str(), 4);
        s.append("t\n");
        assert(s@ =~= before + loan_line(mine@[i as int], now));
        assert(s@ =~= head + loan_lines(mine@, now, i + 1));
        i = i + 1;
    }
    s.append("(borrow <amount>; repay <id> [amount])\n");
    assert(s@ =~= loans_shown(loans@, now, id));
    s
}

/// One loan in the list of positions.
pub open spec fn loan_position(l: Loan, now: Tick) -> Seq<char> {
    "  Loan #"@ + text::dec_nat(l.id.0 as nat) + "   owed "@ + text::dec(l.outstanding as int)
        + " cr, due in "@ + text::dec_nat(left_until(l.due, now) as nat) + "t\n"@
}

/// The first `n` loans in the list of positions.
pub open spec fn loan_positions(mine: Seq<Loan>, now: Tick, n: int) -> Seq<char>
    decreases n,
{
    if n <= 0 {
        Seq::empty()
    } else {
        loan_positions(mine, now, n - 1) + loan_position(mine[n - 1], now)
    }
}

/// The policy of a trader, in the list of positions.
pub open spec fn policy_position(policies: Seq<Policy>, now: Tick, id: TraderId) -> Seq<char> {
    match commands::policy_slot(policies, id) {
        Some(i) => "  Insurance: covered for "@ + text::dec(policies[i].payout as int)
            + " cr (lapses in "@ + text::dec_nat(left_until(policies[i].expiry, now) as nat)
            + "t)\n"@,
        None => "  Insurance: none\n"@,
    }
}

/// The side of a position as a word.
pub open spec fn side_word(s: FutureSide) -> Seq<char> {
    match s {
        FutureSide::Long => "Long"@,
        FutureSide::Short => "Short"@,
    }
}

/// The side of a position as a word.
pub fn side_text(s: FutureSide) -> (r: &'static str)
    ensures
        r@ == side_word(s),
{
    match s {
        FutureSide::Long => "Long",
        FutureSide::Short => "Short",
    }
}

/// The futures of a trader.
pub open spec fn futures_of(futures: Seq<Future>, id: TraderId) -> Seq<Future> {
    futures.filter(|f: Future| f.holder == id)
}

/// The futures of a trader.
pub fn futures_held(futures: &Vec<Future>, id: TraderId) -> (r: Vec<Future>)
    ensures
        r@ == futures_of(futures@, id),
{
    let ghost p = |f: Future| f.holder == id;
    let mut out: Vec<Future> = Vec::new();
    let mut i: usize = 0;
    proof {
        search::lemma_filter_none(futures@, p);
    }
    while i < futures.len()
        invariant
            i <= futures@.len(),
            p == (|f: Future| f.holder == id),
            out@ == futures@.take(i as int).filter(p),
        decreases futures@.len() - i,
    {
        proof {
            search::lemma_filter_step(futures@, p, i as int);
        }
        if futures[i].holder == id {
            out.push(futures[i]);
        }
        i = i + 1;
    }
    assert(futures@.take(i as int) =~= futures@);
    out
}

/// One future in the list of positions.
pub open spec fn future_position(reg: Registry, f: Future, now: Tick) -> Seq<char> {
    "  Future:    "@ + side_word(f.side) + " "@ + text::dec_nat(f.quantity as nat) + " "@
        + good_label(reg, f.commodity) + " @ "@ + text::dec(f.strike as int) + " cr, matures in "@
        + text::dec_nat(left_until(f.maturity, now) as nat) + "t\n"@
}

/// The first `n` futures in the list of positions.
pub open spec fn future_positions(reg: Registry, mine: Seq<Future>, now: Tick, n: int) -> Seq<char>
    decreases n,
{
    if n <= 0 {
        Seq::empty()
    } else {
        future_positions(reg, mine, now, n - 1) + future_position(reg, mine[n - 1], now)
    }
}

/// The loans in the list of positions.
pub open spec fn loans_part(loans: Seq<Loan>, now: Tick, id: TraderId) -> Seq<char> {
    let mine = loans_of(loans, id);
    if mine.len() == 0 {
        "  Loans:     none\n"@
    } else {
        loan_positions(mine, now, mine.len() as int)
    }
}

/// The futures in the list of positions.
pub open spec fn futures_part(reg: Registry, futures: Seq<Future>, now: Tick, id: TraderId) -> Seq<
    char,
> {
    let mine = futures_of(futures, id);
    if mine.len() == 0 {
        "  Futures:   none\n"@
    } else {
        future_positions(reg, mine, now, mine.len() as int)
    }
}

/// A trader's financial positions: loans, insurance and futures.
pub open spec fn positions_shown(
    reg: Registry,
    loans: Seq<Loan>,
    policies: Seq<Policy>,
    futures: Seq<Future>,
    now: Tick,
    id: TraderId,
) -> Seq<char> {
    "\nFinancial positions:\n"@ + loans_part(loans, now, id) + policy_position(policies, now, id)
        + futures_part(reg, futures, now, id)
}

/// Append the loans in the list of positions.
fn push_loans(s: &mut String, loans: &Vec<Loan>, now: Tick, id: TraderId)
    ensures
        final(s)@ == old(s)@ + loans_part(loans@, now, id),
{
    let mine = loans_held(loans, id);
    if mine.len() == 0 {
        s.append("  Loans:     none\n");
        return ;
    }
    let ghost head = s@;
    let mut i: usize = 0;
    assert(s@ =~= head + loan_positions(mine@, now, 0));
    while i < mine.len()
        invariant
            i <= mine@.len(),
            s@ == head + loan_positions(mine@, now, i as int),
        decreases mine@.len() - i,
    {
        let ghost before = s@;
        s.append("  Loan #");
        push_u64(s, mine[i].id.0);
        s.append("   owed ");
        push_i64(s, mine[i].outstanding);
        s.append(" cr, due in ");
        push_u64(s, ticks_left(mine[i].due, now));
        s.append("t\n");
        assert(s@ =~= before + loan_position(mine@[i as int], now));
        assert(s@ =~= head + loan_positions(mine@, now, i + 1));
        i = i + 1;
    }
}

/// The slot of a trader's policy.
pub fn policy_of(policies: &Vec<Policy>, id: TraderId) -> (r: Option<usize>)
    ensures
        match r {
            Some(i) => i < policies@.len() && commands::policy_slot(policies@, id) == Some(
                i as int,
            ),
            None => commands::policy_slot(policies@, id) is None,
        },
{
    let ghost p = |q: Policy| q.insured == id;
    let mut i: usize = 0;
    while i < policies.len()
        invariant
            i <= policies@.len(),
            p == (|q: Policy| q.insured == id),
            forall|j: int| 0 <= j < i ==> !p(#[trigger] policies@[j]),
        decreases policies@.len() - i,
    {
        if policies[i].insured == id {
            proof {
                search::lemma_first_is(policies@, p, i as int);
            }
            return Some(i);
        }
        i = i + 1;
    }
    proof {
        search::lemma_first_none(policies@, p);
    }
    None
}

/// Append the policy in the list of positions.
fn push_policy(s: &mut String, policies: &Vec<Policy>, now: Tick, id: TraderId)
    ensures
        final(s)@ == old(s)@ + policy_position(policies@, now, id),
{
    match policy_of(policies, id) {
        Some(i) => {
            s.append("  Insurance: covered for ");
            push_i64(s, policies[i].payout);
            s.append(" cr (lapses in ");
            push_u64(s, ticks_left(policies[i].expiry, now));
            s.append("t)\n");
        },
        None => {
            s.append("  Insurance: none\n");
        },
    }
    assert(s@ =~= old(s)@ + policy_position(policies@, now, id));
}

/// Append the futures in the list of positions.
fn push_futures(s: &mut String, reg: &Registry, futures: &Vec<Future>, now: Tick, id: TraderId)
    ensures
        final(s)@ == old(s)@ + futures_part(*reg, futures@, now, id),
{
    let mine = futures_held(futures, id);
    if mine.len() == 0 {
        s.append("  Futures:   none\n");
        return ;
    }
    let ghost head = s@;
    let mut i: usize = 0;
    assert(s@ =~= head + future_positions(*reg, mine@, now, 0));
    while i < mine.len()
        invariant
            i <= mine@.len(),
            s@ == head + future_positions(*reg, mine@, now, i as int),
        decreases mine@.len() - i,
    {
        let ghost before = s@;
        s.append("  Future:    ");
        s.append(side_text(mine[i].side));
        s.append(" ");
        push_u64(s, mine[i].quantity as u64);
        s.append(" ");
        s.append(label_good(reg, mine[i].commodity));
        s.append(" @ ");
        push_i64(s, mine[i].strike);
        s.append(" cr, matures in ");
        push_u64(s, ticks_left(mine[i].maturity, now));
        s.append("t\n");
        assert(s@ =~= before + future_position(*reg, mine@[i as int], now));
        assert(s@ =~= head + future_positions(*reg, mine@, now, i + 1));
        i = i + 1;
    }
}

/// Render a trader's financial positions: loans, insurance and futures.
pub fn finance_text(
    reg: &Registry,
    loans: &Vec<Loan>,
    policies: &Vec<Policy>,
    futures: &Vec<Future>,
    now: Tick,
    id: TraderId,
) -> (s: String)
    ensures
        s@ == positions_shown(*reg, loans@, policies@, futures@, now, id),
{
    let mut s = String::new();
    s.append("\nFinancial positions:\n");
    push_loans(&mut s, loans, now, id);
    push_policy(&mut s, policies, now, id);
    push_futures(&mut s, reg, futures, now, id);
    assert(s@ =~= positions_shown(*reg, loans@, policies@, futures@, now, id));
    s
}

/// The goods with an id below `n` in a hold, as "Food x3".
pub open spec fn hold_items(reg: Registry, cargo: Map<CommodityId, Quantity>, n: int) -> Seq<
    Seq<char>,
>
    decreases n,
{
    if n <= 0 {
        Seq::empty()
    } else {
        let c = CommodityId((n - 1) as u32);
        if cargo.contains_key(c) {
            hold_items(reg, cargo, n - 1).push(
                good_label(reg, c) + " x"@ + text::dec_nat(cargo[c] as nat),
            )
        } else {
            hold_items(reg, cargo, n - 1)
        }
    }
}

/// The hold of a trader.
pub open spec fn hold_shown(reg: Registry, t: TraderView) -> Seq<char> {
    let cap = reg.spec_ships()[t.ship.0 as int].cargo_capacity as nat;
    if t.cargo == Map::<CommodityId, Quantity>::empty() {
        "Hold: empty [0/"@ + text::dec_nat(cap) + "]\n"@
    } else {
        "Hold: "@ + text::joined(
            hold_items(reg, t.cargo, reg.spec_commodities().len() as int),
            ", "@,
        ) + " ["@ + text::dec_nat(commands::hold_mass(reg, t.cargo) as nat) + "/"@ + text::dec_nat(
            cap,
        ) + "]\n"@
    }
}

/// The goods in a hold, as "Food x3".
fn list_hold(reg: &Registry, cargo: &ById<Quantity>) -> (r: Vec<String>)
    requires
        reg.wf(),
    ensures
        text::texts(r@) == hold_items(*reg, cargo@, reg.spec_commodities().len() as int),
{
    let n = reg.commodity_count();
    let mut out: Vec<String> = Vec::new();
    let mut k: usize = 0;
    assert(text::texts(out@) =~= hold_items(*reg, cargo@, 0));
    while k < n
        invariant
            k <= n,
            n == reg.spec_commodities().len(),
            n <= u32::MAX,
            text::texts(out@) == hold_items(*reg, cargo@, k as int),
        decreases n - k,
    {
        let c = CommodityId(k as u32);
        match cargo.get(&c) {
            Some(q) => {
                let mut item = String::new();
                item.append(label_good(reg, c));
                item.append(" x");
                push_u64(&mut item, *q as u64);
                assert(item@ =~= good_label(*reg, c) + " x"@ + text::dec_nat(cargo@[c] as nat));
                let ghost before = out@;
                out.push(item);
                assert(text::texts(out@) =~= text::texts(before).push(item@));
            },
            None => {},
        }
        k = k + 1;
    }
    out
}

/// The contracts a trader holds, as "#3 (5 Food -> Lave)", among the first `n`.
pub open spec fn held_items(reg: Registry, board: Seq<Contract>, id: TraderId, n: int) -> Seq<
    Seq<char>,
>
    decreases n,
{
    if n <= 0 {
        Seq::empty()
    } else if board[n - 1].spec_held_by() == Some(id) {
        held_items(reg, board, id, n - 1).push(
            "#"@ + text::dec_nat(board[n - 1].id.0 as nat) + " ("@ + task(reg, board[n - 1])
                + " -> "@ + system_label(reg, board[n - 1].destination) + ")"@,
        )
    } else {
        held_items(reg, board, id, n - 1)
    }
}

/// The contracts a trader holds.
fn list_held(reg: &Registry, board: &Vec<Contract>, id: TraderId) -> (r: Vec<String>)
    ensures
        text::texts(r@) == held_items(*reg, board@, id, board@.len() as int),
{
    let mut out: Vec<String> = Vec::new();
    let mut i: usize = 0;
    assert(text::texts(out@) =~= held_items(*reg, board@, id, 0));
    while i < board.len()
        invariant
            i <= board@.len(),
            text::texts(out@) == held_items(*reg, board@, id, i as int),
        decreases board@.len() - i,
    {
        let mine = match board[i].held_by() {
            Some(t) => t == id,
            None => false,
        };
        if mine {
            let mut item = String::new();
            item.append("#");
            push_u64(&mut item, board[i].id.0);
            item.append(" (");
            item.append(contract_task(reg, &board[i]).as_str());
            item.append(" -> ");
            item.append(label_system(reg, board[i].destination));
            item.append(")");
            assert(item@ =~= "#"@ + text::dec_nat(board@[i as int].id.0 as nat) + " ("@ + task(
                *reg,
                board@[i as int],
            ) + " -> "@ + system_label(*reg, board@[i as int].destination) + ")"@);
            let ghost before = out@;
            out.push(item);
            assert(text::texts(out@) =~= text::texts(before).push(item@));
        }
        i = i + 1;
    }
    out
}

/// What a trader owes on the first `n` loans.
pub open spec fn owed(loans: Seq<Loan>, id: TraderId, n: int) -> int
    decreases n,
{
    if n <= 0 {
        0
    } else {
        owed(loans, id, n - 1) + (if loans[n - 1].borrower == id {
            loans[n - 1].outstanding as int
        } else {
            0
        })
    }
}

/// What a trader owes in all.
pub open spec fn debt(loans: Seq<Loan>, id: TraderId) -> Money {
    money::wrapped(owed(loans, id, loans.len() as int))
}

/// What a trader owes in all.
pub fn total_debt(loans: &Vec<Loan>, id: TraderId) -> (d: Money)
    ensures
        d == debt(loans@, id),
{
    let n = loans.len();
    let mut sum: i128 = 0;
    let mut i: usize = 0;
    while i < n
        invariant
            i <= n,
            n == loans@.len(),
            sum == owed(loans@, id, i as int),
            -(i * 0x8000_0000_0000_0000) <= sum <= i * 0x8000_0000_0000_0000,
        decreases n - i,
    {
        if loans[i].borrower == id {
            sum = sum + loans[i].outstanding as i128;
        }
        i = i + 1;
    }
    money::wrap(sum)
}

/// The goods with an id below `n` on a market, one line each.
pub open spec fn market_lines(reg: Registry, goods: Map<CommodityId, MarketGood>, n: int) -> Seq<
    char,
>
    decreases n,
{
    if n <= 0 {
        Seq::empty()
    } else {
        let c = CommodityId((n - 1) as u32);
        if goods.contains_key(c) {
            market_lines(reg, goods, n - 1) + "  "@ + text::left(good_label(reg, c), 12)
                + " price "@ + text::right(text::dec(goods[c].price as int), 6) + "   stock "@
                + text::right(text::dec_nat(goods[c].stock as nat), 5) + "\n"@
        } else {
            market_lines(reg, goods, n - 1)
        }
    }
}

/// Append the goods of a market, one line each.
fn push_market(s: &mut String, reg: &Registry, goods: &ById<MarketGood>)
    requires
        reg.wf(),
    ensures
        final(s)@ == old(s)@ + market_lines(*reg, goods@, reg.spec_commodities().len() as int),
{
    let n = reg.commodity_count();
    let ghost head = s@;
    let mut k: usize = 0;
    assert(s@ =~= head + market_lines(*reg, goods@, 0));
    while k < n
        invariant
            k <= n,
            n == reg.spec_commodities().len(),
            n <= u32::MAX,
            s@ == head + market_lines(*reg, goods@, k as int),
        decreases n - k,
    {
        let c = CommodityId(k as u32);
        match goods.get(&c) {
            Some(g) => {
                s.append("  ");
                push_left(s, label_good(reg, c), 12);
                s.append(" price ");
                push_right(s, i64_text(g.price).as_str(), 6);
                s.append("   stock ");
                push_right(s, u64_text(g.stock as u64).as_str(), 5);
                s.append("\n");
            },
            None => {},
        }
        assert(s@ =~= head + market_lines(*reg, goods@, k + 1));
        k = k + 1;
    }
}

/// The first `n` ways out of a system, as "Leesti(d0.10)".
pub open spec fn jump_items(
    reg: Registry,
    dangers: Seq<String>,
    links: Seq<SystemId>,
    n: int,
) -> Seq<Seq<char>>
    decreases n,
{
    if n <= 0 {
        Seq::empty()
    } else {
        jump_items(reg, dangers, links, n - 1).push(
            system_label(reg, links[n - 1]) + "(d"@ + danger_label(dangers, links[n - 1]) + ")"@,
        )
    }
}

/// The ways out of a system.
fn list_jumps(reg: &Registry, dangers: &Vec<String>, links: &Vec<SystemId>) -> (r: Vec<String>)
    ensures
        text::texts(r@) == jump_items(*reg, dangers@, links@, links@.len() as int),
{
    let mut out: Vec<String> = Vec::new();
    let mut i: usize = 0;
    assert(text::texts(out@) =~= jump_items(*reg, dangers@, links@, 0));
    while i < links.len()
        invariant
            i <= links@.len(),
            text::texts(out@) == jump_items(*reg, dangers@, links@, i as int),
        decreases links@.len() - i,
    {
        let mut item = String::new();
        item.append(label_system(reg, links[i]));
        item.append("(d");
        item.append(label_danger(dangers, links[i]));
        item.append(")");
        assert(item@ =~= system_label(*reg, links@[i as int]) + "(d"@ + danger_label(
            dangers@,
            links@[i as int],
        ) + ")"@);
        let ghost before = out@;
        out.push(item);
        assert(text::texts(out@) =~= text::texts(before).push(item@));
        i = i + 1;
    }
    out
}

/// What a player's terminal draws on.
pub struct Scene<'a> {
    pub reg: &'a Registry,
    pub now: Tick,
    pub markets: &'a Vec<Market>,
    pub traders: &'a Vec<Trader>,
    pub contracts: &'a Vec<Contract>,
    pub loans: &'a Vec<Loan>,
    /// The danger of each system, written out.
    pub dangers: &'a Vec<String>,
}

impl<'a> Scene<'a> {
    /// Every handle of the traders points into the registry, and there is a market per
    /// system.
    pub open spec fn wf(&self) -> bool {
        &&& self.reg.wf()
        &&& self.markets@.len() == self.reg.spec_systems().len()
        &&& forall|i: int|
            0 <= i < self.traders@.len() ==> (#[trigger] self.traders@[i]).ship.0
                < self.reg.spec_ships().len()
        &&& forall|i: int|
            0 <= i < self.traders@.len() ==> match (#[trigger] self.traders@[i]).location {
                TraderLocation::Docked(s) => s.0 < self.reg.spec_systems().len(),
                _ => true,
            }
    }
}

/// The situation of a trader docked at `sys`.
pub open spec fn docked_shown(v: Scene, t: TraderView, id: TraderId, sys: SystemId) -> Seq<char> {
    let reg = *v.reg;
    let held = held_items(reg, v.contracts@, id, v.contracts@.len() as int);
    let d = debt(v.loans@, id);
    let links = reg.spec_systems()[sys.0 as int].connections@;
    "\n-- Tick "@ + text::dec_nat(v.now.0 as nat) + " --\nAt "@ + system_label(reg, sys)
        + " (danger "@ + danger_label(v.dangers@, sys) + ")    Capital: "@ + text::dec(
        t.capital as int,
    ) + " cr\n"@ + hold_shown(reg, t) + (if held.len() > 0 {
        "Contracts held: "@ + text::joined(held, ", "@) + "\n"@
    } else {
        Seq::empty()
    }) + (if d > 0 {
        "Debt: "@ + text::dec(d as int) + " cr owed\n"@
    } else {
        Seq::empty()
    }) + "Market:\n"@ + market_lines(
        reg,
        v.markets@[sys.0 as int].goods@,
        reg.spec_commodities().len() as int,
    ) + "Jumps: "@ + text::joined(
        jump_items(reg, v.dangers@, links, links.len() as int),
        "  "@,
    ) + "\n"@
}

/// The situation of a trader.
pub open spec fn situation(v: Scene, id: TraderId) -> Seq<char> {
    let traders = trader::trader_views(v.traders@);
    match commands::trader_slot(traders, id) {
        None => "You have no ship."@,
        Some(i) => match traders[i].location {
            TraderLocation::Docked(sys) => docked_shown(v, traders[i], id, sys),
            _ => "In transit..."@,
        },
    }
}

/// The slot of a trader.
pub fn find(traders: &Vec<Trader>, id: TraderId) -> (r: Option<usize>)
    ensures
        match r {
            Some(i) => i < traders@.len() && commands::trader_slot(
                trader::trader_views(traders@),
                id,
            ) == Some(i as int),
            None => commands::trader_slot(trader::trader_views(traders@), id) is None,
        },
{
    let ghost views = trader::trader_views(traders@);
    let ghost p = |t: TraderView| t.id == id;
    let mut i: usize = 0;
    while i < traders.len()
        invariant
            i <= traders@.len(),
            views == trader::trader_views(traders@),
            p == (|t: TraderView| t.id == id),
            forall|j: int| 0 <= j < i ==> !p(#[trigger] views[j]),
        decreases traders@.len() - i,
    {
        if traders[i].id == id {
            proof {
                search::lemma_first_is(views, p, i as int);
            }
            return Some(i);
        }
        i = i + 1;
    }
    proof {
        search::lemma_first_none(views, p);
    }
    None
}

/// Append the hold of a trader.
fn push_hold(s: &mut String, reg: &Registry, t: &Trader)
    requires
        reg.wf(),
        t.ship.0 < reg.spec_ships().len(),
    ensures
        final(s)@ == old(s)@ + hold_shown(*reg, t@),
{
    let cap = reg.ship(t.ship).cargo_capacity;
    if t.cargo.is_empty() {
        s.append("Hold: empty [0/");
        push_u64(s, cap as u64);
        s.append("]\n");
    } else {
        s.append("Hold: ");
        s.append(join(&list_hold(reg, &t.cargo), ", ").as_str());
        s.append(" [");
        push_u128(s, commands::hold_used(reg, &t.cargo));
        s.append("/");
        push_u64(s, cap as u64);
        s.append("]\n");
    }
    assert(s@ =~= old(s)@ + hold_shown(*reg, t@));
}

/// Render a trader's situation.
pub fn dashboard(v: &Scene, id: TraderId) -> (s: String)
    requires
        v.wf(),
    ensures
        s@ == situation(*v, id),
{
    let i = match find(v.traders, id) {
        Some(i) => i,
        None => {
            return "You have no ship.".to_owned();
        },
    };
    let sys = match v.traders[i].location {
        TraderLocation::Docked(s) => s,
        _ => {
            return "In transit...".to_owned();
        },
    };
    let mut s = String::new();
    s.append("\n-- Tick ");
    push_u64(&mut s, v.now.0);
    s.append(" --\nAt ");
    s.append(label_system(v.reg, sys));
    s.append(" (danger ");
    s.append(label_danger(v.dangers, sys));
    s.append(")    Capital: ");
    push_i64(&mut s, v.traders[i].capital);
    s.append(" cr\n");
    push_hold(&mut s, v.reg, &v.traders[i]);
    let held = list_held(v.reg, v.contracts, id);
    if held.len() > 0 {
        s.append("Contracts held: ");
        s.append(join(&held, ", ").as_str());
        s.append("\n");
    }
    let d = total_debt(v.loans, id);
    if d > 0 {
        s.append("Debt: ");
        push_i64(&mut s, d);
        s.append(" cr owed\n");
    }
    s.append("Market:\n");
    push_market(&mut s, v.reg, &v.markets[sys.index()].goods);
    s.append("Jumps: ");
    s.append(join(&list_jumps(v.reg, v.dangers, &v.reg.system(sys).connections), "  ").as_str());
    s.append("\n");
    assert(s@ =~= docked_shown(*v, v.traders@[i as int]@, id, sys));
    s
}

/// The first `n` ways out of a system, by name.
pub open spec fn link_names(reg: Registry, links: Seq<SystemId>, n: int) -> Seq<Seq<char>>
    decreases n,
{
    if n <= 0 {
        Seq::empty()
    } else {
        link_names(reg, links, n - 1).push(system_label(reg, links[n - 1]))
    }
}

/// One line of the map.
pub open spec fn map_line(reg: Registry, dangers: Seq<String>, i: int) -> Seq<char> {
    let s = reg.spec_systems()[i];
    "  "@ + text::left(s.name@, 10) + " danger "@ + danger_label(dangers, SystemId(i as u32))
        + "  -> "@ + text::joined(
        link_names(reg, s.connections@, s.connections@.len() as int),
        ", "@,
    ) + "\n"@
}

/// The first `n` lines of the map.
pub open spec fn map_lines(reg: Registry, dangers: Seq<String>, n: int) -> Seq<char>
    decreases n,
{
    if n <= 0 {
        Seq::empty()
    } else {
        map_lines(reg, dangers, n - 1) + map_line(reg, dangers, n - 1)
    }
}

/// The names of the ways out of a system.
fn list_links(reg: &Registry, links: &Vec<SystemId>) -> (r: Vec<String>)
    ensures
        text::texts(r@) == link_names(*reg, links@, links@.len() as int),
{
    let mut out: Vec<String> = Vec::new();
    let mut i: usize = 0;
    assert(text::texts(out@) =~= link_names(*reg, links@, 0));
    while i < links.len()
        invariant
            i <= links@.len(),
            text::texts(out@) == link_names(*reg, links@, i as int),
        decreases links@.len() - i,
    {
        let item = label_system(reg, links[i]).to_owned();
        let ghost before = out@;
        out.push(item);
        assert(text::texts(out@) =~= text::texts(before).push(item@));
        i = i + 1;
    }
    out
}

/// Render the map: systems, their danger, and where they lead.
pub fn map_text(reg: &Registry, dangers: &Vec<String>) -> (s: String)
    requires
        reg.wf(),
    ensures
        s@ == "\nSystems:\n"@ + map_lines(*reg, dangers@, reg.spec_systems().len() as int),
{
    let n = reg.system_count();
    let mut s = String::new();
    s.append("\nSystems:\n");
    let ghost head = s@;
    let mut i: usize = 0;
    assert(head =~= "\nSystems:\n"@);
    assert(s@ =~= head + map_lines(*reg, dangers@, 0));
    while i < n
        invariant
            i <= n,
            n == reg.spec_systems().len(),
            n <= u32::MAX,
            s@ == head + map_lines(*reg, dangers@, i as int),
        decreases n - i,
    {
        let id = SystemId(i as u32);
        let sys = reg.system(id);
        let ghost before = s@;
        s.append("  ");
        push_left(&mut s, sys.name.as_str(), 10);
        s.append(" danger ");
        s.append(label_danger(dangers, id));
        s.append("  -> ");
        s.append(join(&list_links(reg, &sys.connections), ", ").as_str());
        s.append("\n");
        assert(s@ =~= before + map_line(*reg, dangers@, i as int));
        assert(s@ =~= head + map_lines(*reg, dangers@, i + 1));
        i = i + 1;
    }
    s
}

/// The ticks left run down to the tick itself, and stay at none after it.
pub proof fn lemma_ticks_run_down(t: Tick, now: Tick)
    ensures
        now.0 <= t.0 ==> now.0 + left_until(t, now) == t.0,
        now.0 >= t.0 ==> left_until(t, now) == 0,
{
}

/// A trader's loans are those it borrowed: every one of them, and no other's.
pub proof fn lemma_loans_are_the_borrowers(loans: Seq<Loan>, id: TraderId)
    ensures
        loans_of(loans, id).len() <= loans.len(),
        forall|k: int|
            0 <= k < loans_of(loans, id).len() ==> (#[trigger] loans_of(loans, id)[k]).borrower == id
                && loans.contains(loans_of(loans, id)[k]),
        forall|i: int|
            0 <= i < loans.len() && (#[trigger] loans[i]).borrower == id ==> loans_of(
                loans,
                id,
            ).contains(loans[i]),
        (forall|i: int| 0 <= i < loans.len() ==> (#[trigger] loans[i]).borrower == id)
            ==> loans_of(loans, id) == loans,
    decreases loans.len(),
{
    let f = |l: Loan| l.borrower == id;
    search::lemma_filter_members(loans, f);
    assert forall|k: int| 0 <= k < loans_of(loans, id).len() implies (#[trigger] loans_of(
        loans,
        id,
    )[k]).borrower == id && loans.contains(loans_of(loans, id)[k]) by {
        assert(f(loans.filter(f)[k]));
    }
    assert forall|i: int| 0 <= i < loans.len() && (#[trigger] loans[i]).borrower == id implies
        loans_of(loans, id).contains(loans[i]) by {
        assert(f(loans[i]));
        loans.lemma_filter_contains(f, i);
    }
    reveal(Seq::filter);
    if loans.len() > 0 {
        let init = loans.drop_last();
        lemma_loans_are_the_borrowers(init, id);
        if forall|i: int| 0 <= i < loans.len() ==> (#[trigger] loans[i]).borrower == id {
            assert forall|i: int| 0 <= i < init.len() implies (#[trigger] init[i]).borrower == id by {
                assert(loans[i].borrower == id);
            }
            assert(loans[loans.len() - 1].borrower == id);
            assert(init.push(loans.last()) =~= loans);
        }
    } else {
        assert(loans_of(loans, id) =~= loans);
    }
}

/// A trader's futures are those it holds: every one of them, and no other's.
pub proof fn lemma_futures_are_the_holders(futures: Seq<Future>, id: TraderId)
    ensures
        futures_of(futures, id).len() <= futures.len(),
        forall|k: int|
            0 <= k < futures_of(futures, id).len() ==> (#[trigger] futures_of(
                futures,
                id,
            )[k]).holder == id && futures.contains(futures_of(futures, id)[k]),
        forall|i: int|
            0 <= i < futures.len() && (#[trigger] futures[i]).holder == id ==> futures_of(
                futures,
                id,
            ).contains(futures[i]),
{
    let f = |x: Future| x.holder == id;
    search::lemma_filter_members(futures, f);
    assert forall|k: int| 0 <= k < futures_of(futures, id).len() implies (#[trigger] futures_of(
        futures,
        id,
    )[k]).holder == id && futures.contains(futures_of(futures, id)[k]) by {
        assert(f(futures.filter(f)[k]));
    }
    assert forall|i: int| 0 <= i < futures.len() && (#[trigger] futures[i]).holder == id implies
        futures_of(futures, id).contains(futures[i]) by {
        assert(f(futures[i]));
        futures.lemma_filter_contains(f, i);
    }
}

/// What a trader owes goes up by the balance of each loan of its own, and by no other.
pub proof fn lemma_debt_is_what_is_owed(loans: Seq<Loan>, l: Loan, id: TraderId)
    ensures
        owed(Seq::empty(), id, 0) == 0,
        l.borrower == id ==> owed(loans.push(l), id, loans.len() as int + 1) == owed(
            loans,
            id,
            loans.len() as int,
        ) + l.outstanding,
        l.borrower != id ==> owed(loans.push(l), id, loans.len() as int + 1) == owed(
            loans,
            id,
            loans.len() as int,
        ),
        i64::MIN <= owed(loans, id, loans.len() as int) <= i64::MAX ==> debt(loans, id) == owed(
            loans,
            id,
            loans.len() as int,
        ),
{
    lemma_owed_by_prefix(loans, l, id, loans.len() as int);
    if i64::MIN <= owed(loans, id, loans.len() as int) <= i64::MAX {
        money::lemma_wrapped_fits(owed(loans, id, loans.len() as int));
    }
}

proof fn lemma_owed_by_prefix(loans: Seq<Loan>, l: Loan, id: TraderId, n: int)
    requires
        0 <= n <= loans.len(),
    ensures
        owed(loans.push(l), id, n) == owed(loans, id, n),
    decreases n,
{
    if n > 0 {
        lemma_owed_by_prefix(loans, l, id, n - 1);
        assert(loans.push(l)[n - 1] == loans[n - 1]);
    }
}

/// A contract that somebody holds is its holder's own, taken to anyone else, and open to
/// none; the three read differently.
pub proof fn lemma_standing_tells_the_holder(c: Contract, id: TraderId)
    ensures
        standing(c, id) == "open"@ <==> c.spec_held_by() is None,
        standing(c, id) == "yours"@ <==> c.spec_held_by() == Some(id),
        standing(c, id) == "taken"@ <==> c.spec_held_by() is Some && c.spec_held_by() != Some(id),
{
    reveal_strlit("open");
    reveal_strlit("yours");
    reveal_strlit("taken");
    assert("open"@[0] == 'o' && "yours"@[0] == 'y' && "taken"@[0] == 't');
}

/// A list shows every line of what it lists, one after the other: a board, the loans, the
/// positions and the map grow by the line of what comes next.
pub proof fn lemma_lists_go_line_by_line(
    reg: Registry,
    board: Seq<Contract>,
    loans: Seq<Loan>,
    futures: Seq<Future>,
    dangers: Seq<String>,
    now: Tick,
    id: TraderId,
    n: int,
)
    requires
        0 <= n,
    ensures
        contract_lines(reg, board, now, id, n + 1) == contract_lines(reg, board, now, id, n)
            + contract_line(reg, board[n], now, id),
        contract_lines(reg, board, now, id, 0).len() == 0,
        loan_lines(loans, now, n + 1) == loan_lines(loans, now, n) + loan_line(loans[n], now),
        loan_lines(loans, now, 0).len() == 0,
        loan_positions(loans, now, n + 1) == loan_positions(loans, now, n) + loan_position(
            loans[n],
            now,
        ),
        loan_positions(loans, now, 0).len() == 0,
        future_positions(reg, futures, now, n + 1) == future_positions(reg, futures, now, n)
            + future_position(reg, futures[n], now),
        future_positions(reg, futures, now, 0).len() == 0,
        map_lines(reg, dangers, n + 1) == map_lines(reg, dangers, n) + map_line(reg, dangers, n),
        map_lines(reg, dangers, 0).len() == 0,
{
}

/// The goods of a hold are listed one by one, each that is there and no other.
pub proof fn lemma_hold_is_listed(reg: Registry, cargo: Map<CommodityId, Quantity>, n: int)
    requires
        0 <= n < u32::MAX,
    ensures
        ({
            let c = CommodityId(n as u32);
            hold_items(reg, cargo, n + 1).len() == hold_items(reg, cargo, n).len() + (
            if cargo.dom().contains(c) {
                1int
            } else {
                0
            })
        }),
        hold_items(reg, cargo, 0).len() == 0,
{
    assert(CommodityId(n as u32).0 == n);
}

/// The contracts that a trader holds are listed, one by one, and no other.
pub proof fn lemma_held_are_listed(reg: Registry, board: Seq<Contract>, id: TraderId, n: int)
    requires
        0 <= n <= board.len(),
    ensures
        held_items(reg, board, id, n).len() == board.take(n).filter(
            |c: Contract| c.spec_held_by() == Some(id),
        ).len(),
    decreases n,
{
    reveal(Seq::filter);
    if n > 0 {
        lemma_held_are_listed(reg, board, id, n - 1);
        assert(board.take(n).drop_last() =~= board.take(n - 1));
        assert(board.take(n).last() == board[n - 1]);
    }
}

} // verus!
