//! The player's commands: what a line of input asks for.

use vstd::prelude::*;
use vstd::string::{StrSliceExecFns, StringExecFns};

use crate::finance::FutureSide;
use crate::ids::{CommodityId, ContractId, LoanId, Money, Quantity, SystemId};
use crate::registry::Registry;
use crate::text::same_text;
use crate::words;
use crate::words::{lower, read_signed, read_unsigned, split};

verus! {

/// A parsed player action, not yet bound to a trader.
#[derive(Debug, Clone, Copy, PartialEq, Eq, Structural)]
pub enum Action {
    Buy(CommodityId, Quantity),
    Sell(CommodityId, Quantity),
    Jump(SystemId),
    Wait(u64),
    Status,
    /// List systems and danger.
    Chart,
    /// List the contract board.
    Contracts,
    /// Take on an open contract.
    Accept(ContractId),
    /// Deliver a held contract at the current system for its reward.
    Fulfil(ContractId),
    /// List the player's outstanding loans.
    Loans,
    /// Borrow a principal against the current trader.
    Borrow(Money),
    /// Repay a loan; `None` repays as much as capital allows.
    Repay(LoanId, Option<Money>),
    /// Insure the current trader against loss.
    Insure,
    /// Open a futures position on a commodity.
    Future(CommodityId, Quantity, FutureSide),
    /// List all financial positions.
    Finance,
    Help,
    Quit,
}

/// What the player can type.
pub const HELP: &'static str = "Commands:
  buy  <commodity> <qty>   purchase goods at the local market
  sell <commodity> <qty>   sell goods from your hold
  jump <system>            travel to a connected system (risky if laden!)
  wait [n]                 let n ticks pass (default 1)
  status                   show your situation
  map                      list systems and danger
  contracts                list the delivery-contract board
  accept <id>              take on an open contract
  fulfil <id>              deliver a held contract here for its reward
  loans                    list your outstanding loans
  borrow <amount>          take a loan against your ship (at a station)
  repay <id> [amount]      repay a loan (as much as you can afford if no amount)
  insure                   insure your ship against loss (at a station)
  future <side> <c> <qty>  open a futures position (side = long or short)
  finance                  list your loans, insurance, and futures
  help                     this text
  quit                     leave the game";

/// Whether `token` names what has this id and display name: it is the id, the id
/// without its `core:` prefix, or the display name in any letter case.
pub open spec fn names(token: Seq<char>, id: Seq<char>, name: Seq<char>) -> bool {
    id == token || id == "core:"@ + token || words::lowered(name) == words::lowered(token)
}

/// Whether `token` names what has this id and display name.
fn is_named(token: &str, id: &str, name: &str) -> (b: bool)
    ensures
        b == names(token@, id@, name@),
{
    let mut full = String::new();
    full.append("core:");
    full.append(token);
    assert(full@ =~= "core:"@ + token@);
    same_text(id, token) || same_text(id, full.as_str()) || same_text(
        lower(name).as_str(),
        lower(token).as_str(),
    )
}

/// The first of the first `n` commodities that `token` names.
pub open spec fn commodity_among(reg: Registry, token: Seq<char>, n: int) -> Option<CommodityId>
    decreases n,
{
    if n <= 0 {
        None
    } else {
        match commodity_among(reg, token, n - 1) {
            Some(c) => Some(c),
            None => {
                let c = CommodityId((n - 1) as u32);
                if names(token, reg.spec_commodity_name(c), reg.spec_commodities()[n - 1].name@) {
                    Some(c)
                } else {
                    None
                }
            },
        }
    }
}

/// The commodity that `token` names.
pub open spec fn commodity_named(reg: Registry, token: Seq<char>) -> Option<CommodityId> {
    commodity_among(reg, token, reg.spec_commodities().len() as int)
}

/// Resolve a commodity from a player token: its id, the id without `core:`, or its
/// display name in any letter case.
pub fn resolve_commodity(reg: &Registry, token: &str) -> (r: Option<CommodityId>)
    requires
        reg.wf(),
    ensures
        r == commodity_named(*reg, token@),
        r is Some ==> r->Some_0.0 < reg.spec_commodities().len(),
{
    let n = reg.commodity_count();
    let mut found: Option<CommodityId> = None;
    let mut i: usize = 0;
    while i < n
        invariant
            i <= n,
            n == reg.spec_commodities().len(),
            n <= u32::MAX,
            found == commodity_among(*reg, token@, i as int),
            found is Some ==> found->Some_0.0 < n,
        decreases n - i,
    {
        let c = CommodityId(i as u32);
        if found.is_none() && is_named(
            token,
            reg.commodity_name(c),
            reg.commodity(c).name.as_str(),
        ) {
            found = Some(c);
        }
        i = i + 1;
    }
    found
}

/// The first of the first `n` systems that `token` names.
pub open spec fn system_among(reg: Registry, token: Seq<char>, n: int) -> Option<SystemId>
    decreases n,
{
    if n <= 0 {
        None
    } else {
        match system_among(reg, token, n - 1) {
            Some(s) => Some(s),
            None => {
                let s = reg.spec_systems()[n - 1];
                if names(token, reg.spec_system_name(s.id), s.name@) {
                    Some(s.id)
                } else {
                    None
                }
            },
        }
    }
}

/// The system that `token` names.
pub open spec fn system_named(reg: Registry, token: Seq<char>) -> Option<SystemId> {
    system_among(reg, token, reg.spec_systems().len() as int)
}

/// Resolve a system from a player token, the same way.
pub fn resolve_system(reg: &Registry, token: &str) -> (r: Option<SystemId>)
    requires
        reg.wf(),
    ensures
        r == system_named(*reg, token@),
        r is Some ==> r->Some_0.0 < reg.spec_systems().len(),
{
    let n = reg.system_count();
    let mut found: Option<SystemId> = None;
    let mut i: usize = 0;
    while i < n
        invariant
            i <= n,
            n == reg.spec_systems().len(),
            n <= u32::MAX,
            reg.wf(),
            found == system_among(*reg, token@, i as int),
            found is Some ==> found->Some_0.0 < n,
        decreases n - i,
    {
        let s = reg.system(SystemId(i as u32));
        assert(reg.system_in_range(reg.spec_systems()[i as int]));
        if found.is_none() && is_named(token, reg.system_name(s.id), s.name.as_str()) {
            found = Some(s.id);
        }
        i = i + 1;
    }
    found
}

/// A text in the middle of a sentence.
pub open spec fn about(before: Seq<char>, t: Seq<char>, after: Seq<char>) -> Seq<char> {
    before + t + after
}

/// A text in the middle of a sentence.
fn sentence(before: &str, t: &str, after: &str) -> (s: String)
    ensures
        s@ == about(before@, t@, after@),
{
    let mut s = String::new();
    s.append(before);
    s.append(t);
    s.append(after);
    assert(s@ =~= about(before@, t@, after@));
    s
}

/// A result whose error is text.
pub open spec fn outcome<T>(r: Result<T, String>) -> Result<T, Seq<char>> {
    match r {
        Ok(v) => Ok(v),
        Err(e) => Err(e@),
    }
}

/// The quantity a token stands for: a positive number.
pub open spec fn qty_of(t: Seq<char>) -> Result<u32, Seq<char>> {
    match words::unsigned(t, u32::MAX as nat) {
        Some(n) => if n == 0 {
            Err("quantity must be positive"@)
        } else {
            Ok(n as u32)
        },
        None => Err(about("`"@, t, "` is not a number"@)),
    }
}

/// Parse a positive quantity token.
pub fn parse_qty(t: &str) -> (r: Result<u32, String>)
    ensures
        outcome(r) == qty_of(t@),
{
    match read_unsigned(t, 0xffff_ffff) {
        Some(n) => if n == 0 {
            Err("quantity must be positive".to_owned())
        } else {
            Ok(n as u32)
        },
        None => Err(sentence("`", t, "` is not a number")),
    }
}

/// A token without a leading `#`.
pub open spec fn bare_id(t: Seq<char>) -> Seq<char> {
    if t.len() > 0 && t[0] == '#' {
        t.skip(1)
    } else {
        t
    }
}

/// Read an id, with or without a leading `#`.
fn read_id(t: &str) -> (r: Option<u64>)
    ensures
        match r {
            Some(n) => words::unsigned(bare_id(t@), u64::MAX as nat) == Some(n as nat),
            None => words::unsigned(bare_id(t@), u64::MAX as nat) is None,
        },
{
    let n = t.unicode_len();
    if n > 0 && t.get_char(0) == '#' {
        let rest = t.substring_char(1, n);
        assert(rest@ =~= t@.skip(1));
        read_unsigned(rest, 0xffff_ffff_ffff_ffff)
    } else {
        read_unsigned(t, 0xffff_ffff_ffff_ffff)
    }
}

/// The contract id a token stands for.
pub open spec fn contract_id_of(t: Seq<char>) -> Result<ContractId, Seq<char>> {
    match words::unsigned(bare_id(t), u64::MAX as nat) {
        Some(n) => Ok(ContractId(n as u64)),
        None => Err(about("`"@, t, "` is not a contract id"@)),
    }
}

/// Parse a contract id token, with or without the leading `#` the board prints.
pub fn parse_contract_id(t: &str) -> (r: Result<ContractId, String>)
    ensures
        outcome(r) == contract_id_of(t@),
{
    match read_id(t) {
        Some(n) => Ok(ContractId(n)),
        None => Err(sentence("`", t, "` is not a contract id")),
    }
}

/// The loan id a token stands for.
pub open spec fn loan_id_of(t: Seq<char>) -> Result<LoanId, Seq<char>> {
    match words::unsigned(bare_id(t), u64::MAX as nat) {
        Some(n) => Ok(LoanId(n as u64)),
        None => Err(about("`"@, t, "` is not a loan id"@)),
    }
}

/// Parse a loan id token, with or without a leading `#`.
pub fn parse_loan_id(t: &str) -> (r: Result<LoanId, String>)
    ensures
        outcome(r) == loan_id_of(t@),
{
    match read_id(t) {
        Some(n) => Ok(LoanId(n)),
        None => Err(sentence("`", t, "` is not a loan id")),
    }
}

/// The amount a token stands for.
pub open spec fn money_of(t: Seq<char>) -> Result<Money, Seq<char>> {
    match words::signed(t) {
        Some(n) => if n <= 0 {
            Err("amount must be positive"@)
        } else {
            Ok(n as i64)
        },
        None => Err(about("`"@, t, "` is not an amount"@)),
    }
}

/// Parse a positive credit amount.
pub fn parse_money(t: &str) -> (r: Result<Money, String>)
    ensures
        outcome(r) == money_of(t@),
{
    match read_signed(t) {
        Some(n) => if n <= 0 {
            Err("amount must be positive".to_owned())
        } else {
            Ok(n)
        },
        None => Err(sentence("`", t, "` is not an amount")),
    }
}

/// The side a token stands for.
pub open spec fn side_of(t: Seq<char>) -> Result<FutureSide, Seq<char>> {
    let w = words::lowered(t);
    if w == "long"@ || w == "buy"@ {
        Ok(FutureSide::Long)
    } else if w == "short"@ || w == "sell"@ {
        Ok(FutureSide::Short)
    } else {
        Err(about("side must be long or short, not `"@, t, "`"@))
    }
}

/// Parse a futures side token.
pub fn parse_side(t: &str) -> (r: Result<FutureSide, String>)
    ensures
        outcome(r) == side_of(t@),
{
    let w = lower(t);
    if same_text(w.as_str(), "long") || same_text(w.as_str(), "buy") {
        Ok(FutureSide::Long)
    } else if same_text(w.as_str(), "short") || same_text(w.as_str(), "sell") {
        Ok(FutureSide::Short)
    } else {
        Err(sentence("side must be long or short, not `", t, "`"))
    }
}

/// The commodity and quantity two tokens stand for.
pub open spec fn goods_of(reg: Registry, c: Seq<char>, q: Seq<char>) -> Result<
    (CommodityId, Quantity),
    Seq<char>,
> {
    match commodity_named(reg, c) {
        None => Err(about("no such commodity `"@, c, "`"@)),
        Some(cid) => match qty_of(q) {
            Err(e) => Err(e),
            Ok(n) => Ok((cid, n)),
        },
    }
}

/// Parse a commodity and a quantity.
fn parse_goods(reg: &Registry, c: &str, q: &str) -> (r: Result<(CommodityId, Quantity), String>)
    requires
        reg.wf(),
    ensures
        outcome(r) == goods_of(*reg, c@, q@),
        r is Ok ==> r->Ok_0.0.0 < reg.spec_commodities().len(),
{
    match resolve_commodity(reg, c) {
        None => Err(sentence("no such commodity `", c, "`")),
        Some(cid) => match parse_qty(q) {
            Err(e) => Err(e),
            Ok(n) => Ok((cid, n)),
        },
    }
}

/// The verbs a player can use, synonyms together.
pub enum Verb {
    Buy,
    Sell,
    Jump,
    Wait,
    Status,
    Chart,
    Contracts,
    Accept,
    Fulfil,
    Loans,
    Borrow,
    Repay,
    Insure,
    Future,
    Finance,
    Help,
    Quit,
    Unknown,
}

/// The verb a lower-case word stands for.
pub open spec fn verb_of(w: Seq<char>) -> Verb {
    if w == "buy"@ || w == "b"@ {
        Verb::Buy
    } else if w == "sell"@ {
        Verb::Sell
    } else if w == "jump"@ || w == "j"@ {
        Verb::Jump
    } else if w == "wait"@ || w == "w"@ {
        Verb::Wait
    } else if w == "status"@ || w == "s"@ || w == "look"@ || w == "l"@ {
        Verb::Status
    } else if w == "map"@ || w == "m"@ {
        Verb::Chart
    } else if w == "contracts"@ || w == "c"@ || w == "board"@ {
        Verb::Contracts
    } else if w == "accept"@ || w == "take"@ {
        Verb::Accept
    } else if w == "fulfil"@ || w == "fulfill"@ || w == "deliver"@ {
        Verb::Fulfil
    } else if w == "loans"@ || w == "debt"@ {
        Verb::Loans
    } else if w == "borrow"@ || w == "loan"@ {
        Verb::Borrow
    } else if w == "repay"@ {
        Verb::Repay
    } else if w == "insure"@ || w == "insurance"@ {
        Verb::Insure
    } else if w == "future"@ || w == "fut"@ {
        Verb::Future
    } else if w == "finance"@ || w == "positions"@ {
        Verb::Finance
    } else if w == "help"@ || w == "h"@ || w == "?"@ {
        Verb::Help
    } else if w == "quit"@ || w == "q"@ || w == "exit"@ {
        Verb::Quit
    } else {
        Verb::Unknown
    }
}

/// The verb a lower-case word stands for.
fn read_verb(w: &str) -> (v: Verb)
    ensures
        v == verb_of(w@),
{
    if same_text(w, "buy") || same_text(w, "b") {
        Verb::Buy
    } else if same_text(w, "sell") {
        Verb::Sell
    } else if same_text(w, "jump") || same_text(w, "j") {
        Verb::Jump
    } else if same_text(w, "wait") || same_text(w, "w") {
        Verb::Wait
    } else if same_text(w, "status") || same_text(w, "s") || same_text(w, "look") || same_text(
        w,
        "l",
    ) {
        Verb::Status
    } else if same_text(w, "map") || same_text(w, "m") {
        Verb::Chart
    } else if same_text(w, "contracts") || same_text(w, "c") || same_text(w, "board") {
        Verb::Contracts
    } else if same_text(w, "accept") || same_text(w, "take") {
        Verb::Accept
    } else if same_text(w, "fulfil") || same_text(w, "fulfill") || same_text(w, "deliver") {
        Verb::Fulfil
    } else if same_text(w, "loans") || same_text(w, "debt") {
        Verb::Loans
    } else if same_text(w, "borrow") || same_text(w, "loan") {
        Verb::Borrow
    } else if same_text(w, "repay") {
        Verb::Repay
    } else if same_text(w, "insure") || same_text(w, "insurance") {
        Verb::Insure
    } else if same_text(w, "future") || same_text(w, "fut") {
        Verb::Future
    } else if same_text(w, "finance") || same_text(w, "positions") {
        Verb::Finance
    } else if same_text(w, "help") || same_text(w, "h") || same_text(w, "?") {
        Verb::Help
    } else if same_text(w, "quit") || same_text(w, "q") || same_text(w, "exit") {
        Verb::Quit
    } else {
        Verb::Unknown
    }
}

/// The repayment two or fewer tokens ask for.
pub open spec fn repay_of(rest: Seq<Seq<char>>) -> Result<Action, Seq<char>> {
    if rest.len() == 1 {
        match loan_id_of(rest[0]) {
            Ok(id) => Ok(Action::Repay(id, None)),
            Err(e) => Err(e),
        }
    } else if rest.len() == 2 {
        match loan_id_of(rest[0]) {
            Ok(id) => match money_of(rest[1]) {
                Ok(n) => Ok(Action::Repay(id, Some(n))),
                Err(e) => Err(e),
            },
            Err(e) => Err(e),
        }
    } else {
        Err("usage: repay <id> [amount]"@)
    }
}

/// The position three tokens ask for.
pub open spec fn future_of(reg: Registry, rest: Seq<Seq<char>>) -> Result<Action, Seq<char>> {
    if rest.len() == 3 {
        match side_of(rest[0]) {
            Err(e) => Err(e),
            Ok(side) => match goods_of(reg, rest[1], rest[2]) {
                Ok(g) => Ok(Action::Future(g.0, g.1, side)),
                Err(e) => Err(e),
            },
        }
    } else {
        Err("usage: future <long|short> <commodity> <qty>"@)
    }
}

/// The action a verb and its arguments ask for.
pub open spec fn action_of(
    reg: Registry,
    verb: Seq<char>,
    rest: Seq<Seq<char>>,
) -> Result<Action, Seq<char>> {
    match verb_of(verb) {
        Verb::Buy => if rest.len() == 2 {
            match goods_of(reg, rest[0], rest[1]) {
                Ok(g) => Ok(Action::Buy(g.0, g.1)),
                Err(e) => Err(e),
            }
        } else {
            Err("usage: buy <commodity> <qty>"@)
        },
        Verb::Sell => if rest.len() == 2 {
            match goods_of(reg, rest[0], rest[1]) {
                Ok(g) => Ok(Action::Sell(g.0, g.1)),
                Err(e) => Err(e),
            }
        } else {
            Err("usage: sell <commodity> <qty>"@)
        },
        Verb::Jump => if rest.len() == 1 {
            match system_named(reg, rest[0]) {
                Some(s) => Ok(Action::Jump(s)),
                None => Err(about("no such system `"@, rest[0], "`"@)),
            }
        } else {
            Err("usage: jump <system>"@)
        },
        Verb::Wait => if rest.len() == 0 {
            Ok(Action::Wait(1))
        } else {
            match qty_of(rest[0]) {
                Ok(n) => Ok(Action::Wait(n as u64)),
                Err(e) => Err(e),
            }
        },
        Verb::Status => Ok(Action::Status),
        Verb::Chart => Ok(Action::Chart),
        Verb::Contracts => Ok(Action::Contracts),
        Verb::Accept => if rest.len() == 1 {
            match contract_id_of(rest[0]) {
                Ok(id) => Ok(Action::Accept(id)),
                Err(e) => Err(e),
            }
        } else {
            Err("usage: accept <id>"@)
        },
        Verb::Fulfil => if rest.len() == 1 {
            match contract_id_of(rest[0]) {
                Ok(id) => Ok(Action::Fulfil(id)),
                Err(e) => Err(e),
            }
        } else {
            Err("usage: fulfil <id>"@)
        },
        Verb::Loans => Ok(Action::Loans),
        Verb::Borrow => if rest.len() == 1 {
            match money_of(rest[0]) {
                Ok(n) => Ok(Action::Borrow(n)),
                Err(e) => Err(e),
            }
        } else {
            Err("usage: borrow <amount>"@)
        },
        Verb::Repay => repay_of(rest),
        Verb::Insure => Ok(Action::Insure),
        Verb::Future => future_of(reg, rest),
        Verb::Finance => Ok(Action::Finance),
        Verb::Help => Ok(Action::Help),
        Verb::Quit => Ok(Action::Quit),
        Verb::Unknown => Err(about("unknown command `"@, verb, "` (try `help`)"@)),
    }
}

/// The action a line asks for.
pub open spec fn parsed(line: Seq<char>, reg: Registry) -> Result<Action, Seq<char>> {
    let w = words::words(line);
    if w.len() == 0 {
        Err("type a command (try `help`)"@)
    } else {
        action_of(reg, words::lowered(w[0]), w.skip(1))
    }
}

/// Whether the handles of an action point into the registry.
pub open spec fn in_registry(a: Action, reg: Registry) -> bool {
    match a {
        Action::Buy(c, q) => c.0 < reg.spec_commodities().len(),
        Action::Sell(c, q) => c.0 < reg.spec_commodities().len(),
        Action::Future(c, q, s) => c.0 < reg.spec_commodities().len(),
        Action::Jump(s) => s.0 < reg.spec_systems().len(),
        _ => true,
    }
}

/// Parse a line of input into an [`Action`], or an error a player can read.
pub fn parse_action(line: &str, reg: &Registry) -> (r: Result<Action, String>)
    requires
        reg.wf(),
    ensures
        outcome(r) == parsed(line@, *reg),
        r is Ok ==> in_registry(r->Ok_0, *reg),
{
    let tokens = split(line);
    if tokens.len() == 0 {
        return Err("type a command (try `help`)".to_owned());
    }
    let verb = lower(tokens[0]);
    let ghost rest = words::words(line@).skip(1);
    let n = tokens.len() - 1;
    assert(rest.len() == n);
    assert(forall|k: int| 0 <= k < n ==> #[trigger] rest[k] == tokens@[k + 1]@);
    match read_verb(verb.as_str()) {
        Verb::Buy => if n == 2 {
            match parse_goods(reg, tokens[1], tokens[2]) {
                Ok(g) => Ok(Action::Buy(g.0, g.1)),
                Err(e) => Err(e),
            }
        } else {
            Err("usage: buy <commodity> <qty>".to_owned())
        },
        Verb::Sell => if n == 2 {
            match parse_goods(reg, tokens[1], tokens[2]) {
                Ok(g) => Ok(Action::Sell(g.0, g.1)),
                Err(e) => Err(e),
            }
        } else {
            Err("usage: sell <commodity> <qty>".to_owned())
        },
        Verb::Jump => if n == 1 {
            match resolve_system(reg, tokens[1]) {
                Some(s) => Ok(Action::Jump(s)),
                None => Err(sentence("no such system `", tokens[1], "`")),
            }
        } else {
            Err("usage: jump <system>".to_owned())
        },
        Verb::Wait => if n == 0 {
            Ok(Action::Wait(1))
        } else {
            match parse_qty(tokens[1]) {
                Ok(q) => Ok(Action::Wait(q as u64)),
                Err(e) => Err(e),
            }
        },
        Verb::Status => Ok(Action::Status),
        Verb::Chart => Ok(Action::Chart),
        Verb::Contracts => Ok(Action::Contracts),
        Verb::Accept => if n == 1 {
            match parse_contract_id(tokens[1]) {
                Ok(id) => Ok(Action::Accept(id)),
                Err(e) => Err(e),
            }
        } else {
            Err("usage: accept <id>".to_owned())
        },
        Verb::Fulfil => if n == 1 {
            match parse_contract_id(tokens[1]) {
                Ok(id) => Ok(Action::Fulfil(id)),
                Err(e) => Err(e),
            }
        } else {
            Err("usage: fulfil <id>".to_owned())
        },
        Verb::Loans => Ok(Action::Loans),
        Verb::Borrow => if n == 1 {
            match parse_money(tokens[1]) {
                Ok(m) => Ok(Action::Borrow(m)),
                Err(e) => Err(e),
            }
        } else {
            Err("usage: borrow <amount>".to_owned())
        },
        Verb::Repay => if n == 1 {
            match parse_loan_id(tokens[1]) {
                Ok(id) => Ok(Action::Repay(id, None)),
                Err(e) => Err(e),
            }
        } else if n == 2 {
            match parse_loan_id(tokens[1]) {
                Ok(id) => match parse_money(tokens[2]) {
                    Ok(m) => Ok(Action::Repay(id, Some(m))),
                    Err(e) => Err(e),
                },
                Err(e) => Err(e),
            }
        } else {
            Err("usage: repay <id> [amount]".to_owned())
        },
        Verb::Insure => Ok(Action::Insure),
        Verb::Future => if n == 3 {
            match parse_side(tokens[1]) {
                Err(e) => Err(e),
                Ok(side) => match parse_goods(reg, tokens[2], tokens[3]) {
                    Ok(g) => Ok(Action::Future(g.0, g.1, side)),
                    Err(e) => Err(e),
                },
            }
        } else {
            Err("usage: future <long|short> <commodity> <qty>".to_owned())
        },
        Verb::Finance => Ok(Action::Finance),
        Verb::Help => Ok(Action::Help),
        Verb::Quit => Ok(Action::Quit),
        Verb::Unknown => Err(sentence("unknown command `", verb.as_str(), "` (try `help`)")),
    }
}

/// The commodity that a token names is the first it names; a token that names none is
/// none's.
pub proof fn lemma_token_names_the_first_commodity(reg: Registry, token: Seq<char>, n: int)
    requires
        0 <= n <= reg.spec_commodities().len() <= u32::MAX,
    ensures
        match commodity_among(reg, token, n) {
            Some(c) => {
                &&& c.0 < n
                &&& names(token, reg.spec_commodity_name(c), reg.spec_commodities()[c.0 as int].name@)
                &&& forall|k: u32|
                    k < c.0 ==> !names(
                        token,
                        #[trigger] reg.spec_commodity_name(CommodityId(k)),
                        reg.spec_commodities()[k as int].name@,
                    )
            },
            None => forall|k: u32|
                k < n ==> !names(
                    token,
                    #[trigger] reg.spec_commodity_name(CommodityId(k)),
                    reg.spec_commodities()[k as int].name@,
                ),
        },
    decreases n,
{
    if n > 0 {
        lemma_token_names_the_first_commodity(reg, token, n - 1);
        assert(CommodityId((n - 1) as u32).0 == n - 1);
    }
}

/// The system that a token names is the first it names; a token that names none is none's.
pub proof fn lemma_token_names_the_first_system(reg: Registry, token: Seq<char>, n: int)
    requires
        0 <= n <= reg.spec_systems().len(),
    ensures
        match system_among(reg, token, n) {
            Some(s) => exists|k: int|
                0 <= k < n && (#[trigger] reg.spec_systems()[k]).id == s && names(
                    token,
                    reg.spec_system_name(s),
                    reg.spec_systems()[k].name@,
                ) && forall|m: int|
                    0 <= m < k ==> !names(
                        token,
                        reg.spec_system_name((#[trigger] reg.spec_systems()[m]).id),
                        reg.spec_systems()[m].name@,
                    ),
            None => forall|m: int|
                0 <= m < n ==> !names(
                    token,
                    reg.spec_system_name((#[trigger] reg.spec_systems()[m]).id),
                    reg.spec_systems()[m].name@,
                ),
        },
    decreases n,
{
    if n > 0 {
        lemma_token_names_the_first_system(reg, token, n - 1);
        let last = reg.spec_systems()[n - 1];
        if let Some(s) = system_among(reg, token, n - 1) {
            let k = choose|k: int|
                0 <= k < n - 1 && (#[trigger] reg.spec_systems()[k]).id == s && names(
                    token,
                    reg.spec_system_name(s),
                    reg.spec_systems()[k].name@,
                ) && forall|m: int|
                    0 <= m < k ==> !names(
                        token,
                        reg.spec_system_name((#[trigger] reg.spec_systems()[m]).id),
                        reg.spec_systems()[m].name@,
                    );
            assert(0 <= k < n && reg.spec_systems()[k].id == s);
        } else if let Some(s) = system_among(reg, token, n) {
            assert(reg.spec_systems()[n - 1].id == s);
        }
    }
}

/// Something is named by its id, by what follows `core:` in it, and by its display name in
/// any letter case.
pub proof fn lemma_what_a_token_names(token: Seq<char>, id: Seq<char>, name: Seq<char>)
    ensures
        names(id, id, name),
        names(token, "core:"@ + token, name),
        words::lowered(token) == words::lowered(name) ==> names(token, id, name),
        names(token, id, name) ==> id == token || id == "core:"@ + token || words::lowered(token)
            == words::lowered(name),
{
}

/// A quantity is a positive number that the counter holds; anything else is refused.
pub proof fn lemma_quantities_are_positive(t: Seq<char>)
    ensures
        match qty_of(t) {
            Ok(q) => q > 0 && words::unsigned(t, u32::MAX as nat) == Some(q as nat),
            Err(e) => words::unsigned(t, u32::MAX as nat) is None || words::unsigned(
                t,
                u32::MAX as nat,
            ) == Some(0nat),
        },
{
    lemma_reading_is_bounded(t, u32::MAX as nat);
}

proof fn lemma_reading_is_bounded(t: Seq<char>, max: nat)
    ensures
        words::unsigned(t, max) is Some ==> words::unsigned(t, max)->Some_0 <= max,
{
}

/// An amount is a positive number; anything else is refused.
pub proof fn lemma_amounts_are_positive(t: Seq<char>)
    ensures
        match money_of(t) {
            Ok(n) => n > 0 && words::signed(t) == Some(n as int),
            Err(e) => words::signed(t) is None || words::signed(t)->Some_0 <= 0,
        },
{
}

/// The mark in front of an id does not matter.
pub proof fn lemma_ids_with_and_without_their_mark(t: Seq<char>)
    requires
        t.len() > 0,
        t[0] != '#',
    ensures
        bare_id(seq!['#'] + t) == t,
        bare_id(t) == t,
        contract_id_of(t) is Ok ==> contract_id_of(seq!['#'] + t) == contract_id_of(t),
        loan_id_of(t) is Ok ==> loan_id_of(seq!['#'] + t) == loan_id_of(t),
        contract_id_of(t) matches Ok(id) ==> words::unsigned(t, u64::MAX as nat) == Some(
            id.0 as nat,
        ),
        loan_id_of(t) matches Ok(id) ==> words::unsigned(t, u64::MAX as nat) == Some(id.0 as nat),
{
    lemma_reading_is_bounded(t, u64::MAX as nat);
    assert((seq!['#'] + t).skip(1) =~= t);
}

/// What a player asks for is sound, whatever was typed: quantities, amounts and waits are
/// positive.
pub proof fn lemma_actions_are_sound(line: Seq<char>, reg: Registry)
    ensures
        parsed(line, reg) matches Ok(a) ==> match a {
            Action::Buy(c, q) => q > 0,
            Action::Sell(c, q) => q > 0,
            Action::Future(c, q, s) => q > 0,
            Action::Wait(n) => n > 0,
            Action::Borrow(n) => n > 0,
            Action::Repay(id, Some(n)) => n > 0,
            _ => true,
        },
        words::words(line).len() == 0 ==> parsed(line, reg) is Err,
{
    let w = words::words(line);
    if w.len() > 0 {
        let rest = w.skip(1);
        if rest.len() > 0 {
            lemma_quantities_are_positive(rest[0]);
        }
        if rest.len() > 1 {
            lemma_quantities_are_positive(rest[1]);
        }
        if rest.len() > 2 {
            lemma_quantities_are_positive(rest[2]);
        }
    }
}

/// A side is named by its own word or by what it amounts to, in any letter case, and by
/// nothing else.
pub proof fn lemma_sides_are_named(t: Seq<char>)
    ensures
        match side_of(t) {
            Ok(FutureSide::Long) => words::lowered(t) == "long"@ || words::lowered(t) == "buy"@,
            Ok(FutureSide::Short) => words::lowered(t) == "short"@ || words::lowered(t) == "sell"@,
            Err(e) => words::lowered(t) != "long"@ && words::lowered(t) != "buy"@
                && words::lowered(t) != "short"@ && words::lowered(t) != "sell"@,
        },
{
}

/// An order is what its verb and its arguments say, as many as it takes: anything else is
/// refused.
pub proof fn lemma_orders_say_what_is_wanted(reg: Registry, verb: Seq<char>, rest: Seq<Seq<char>>)
    ensures
        match action_of(reg, verb, rest) {
            Ok(Action::Buy(c, q)) => verb_of(verb) is Buy && rest.len() == 2 && commodity_named(
                reg,
                rest[0],
            ) == Some(c) && qty_of(rest[1]) == Ok::<u32, Seq<char>>(q),
            Ok(Action::Sell(c, q)) => verb_of(verb) is Sell && rest.len() == 2 && commodity_named(
                reg,
                rest[0],
            ) == Some(c) && qty_of(rest[1]) == Ok::<u32, Seq<char>>(q),
            Ok(Action::Jump(s)) => verb_of(verb) is Jump && rest.len() == 1 && system_named(
                reg,
                rest[0],
            ) == Some(s),
            Ok(Action::Wait(n)) => verb_of(verb) is Wait && (rest.len() == 0 ==> n == 1) && (
            rest.len() > 0 ==> qty_of(rest[0]) == Ok::<u32, Seq<char>>(n as u32)),
            Ok(Action::Accept(id)) => verb_of(verb) is Accept && rest.len() == 1 && contract_id_of(
                rest[0],
            ) == Ok::<ContractId, Seq<char>>(id),
            Ok(Action::Fulfil(id)) => verb_of(verb) is Fulfil && rest.len() == 1 && contract_id_of(
                rest[0],
            ) == Ok::<ContractId, Seq<char>>(id),
            Ok(Action::Borrow(n)) => verb_of(verb) is Borrow && rest.len() == 1 && money_of(
                rest[0],
            ) == Ok::<Money, Seq<char>>(n),
            Ok(Action::Repay(id, amount)) => verb_of(verb) is Repay && 1 <= rest.len() <= 2
                && loan_id_of(rest[0]) == Ok::<LoanId, Seq<char>>(id) && (amount is None
                <==> rest.len() == 1) && (amount matches Some(n) ==> money_of(rest[1]) == Ok::<
                Money,
                Seq<char>,
            >(n)),
            Ok(Action::Future(c, q, side)) => verb_of(verb) is Future && rest.len() == 3 && side_of(
                rest[0],
            ) == Ok::<FutureSide, Seq<char>>(side) && commodity_named(reg, rest[1]) == Some(c)
                && qty_of(rest[2]) == Ok::<u32, Seq<char>>(q),
            Ok(Action::Status) => verb_of(verb) is Status,
            Ok(Action::Chart) => verb_of(verb) is Chart,
            Ok(Action::Contracts) => verb_of(verb) is Contracts,
            Ok(Action::Loans) => verb_of(verb) is Loans,
            Ok(Action::Insure) => verb_of(verb) is Insure,
            Ok(Action::Finance) => verb_of(verb) is Finance,
            Ok(Action::Help) => verb_of(verb) is Help,
            Ok(Action::Quit) => verb_of(verb) is Quit,
            Err(e) => !(verb_of(verb) is Status) && !(verb_of(verb) is Quit) && !(verb_of(
                verb,
            ) is Help),
        },
{
}

} // verus!
