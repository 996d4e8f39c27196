//! The single-player loop, a decision at a time: what a line of input leads to, how a
//! command's outcome is reported, and what happens on the way after a jump.
//!
//! The host reads lines, advances the world, and prints.

use vstd::prelude::*;
use vstd::string::StringExecFns;

use crate::command::{Command, CommandError};
use crate::console;
use crate::console::{
    Scene, contracts_text, dashboard, finance_text, find, label_good, label_system, loans_text, map_text,
    side_text,
};
use crate::contract::Contract;
use crate::finance::{Future, FutureSide, Loan, Policy};
use crate::ids::{
    CommodityId, ContractId, LoanId, Money, PlayerId, Quantity, SystemId, TraderId,
};
use crate::play;
use crate::play::{Action, parse_action};
use crate::registry::Registry;
use crate::search;
use crate::text;
use crate::text::{push_i64, push_u128, push_u64};
use crate::trader;
use crate::trader::TraderLocation;
use crate::words;
use crate::words::split;
use crate::world::commands;
use crate::world::dealings::addressee;

verus! {

/// What a line of input leads to.
#[derive(Debug)]
pub enum Step {
    /// Nothing; the situation is shown again.
    Nothing,
    /// Leave the game.
    Quit,
    /// Show this.
    Say(String),
    /// Queue the command and advance a tick; this is the report of its success.
    Act(Command, String),
    /// Let ticks pass, then show this.
    Pass(u64, String),
    /// Queue the jump and advance a tick; this is shown on departure.
    Travel(Command, String),
}

/// A [`Step`] as a mathematical value.
#[verifier::ext_equal]
pub enum StepView {
    Nothing,
    Quit,
    Say(Seq<char>),
    Act(Command, Seq<char>),
    Pass(u64, Seq<char>),
    Travel(Command, Seq<char>),
}

impl View for Step {
    type V = StepView;

    open spec fn view(&self) -> StepView {
        match self {
            Step::Nothing => StepView::Nothing,
            Step::Quit => StepView::Quit,
            Step::Say(s) => StepView::Say(s@),
            Step::Act(c, s) => StepView::Act(*c, s@),
            Step::Pass(n, s) => StepView::Pass(*n, s@),
            Step::Travel(c, s) => StepView::Travel(*c, s@),
        }
    }
}

/// "Bought 10 Food." and the like.
pub open spec fn trade_report(verb: Seq<char>, n: nat, good: Seq<char>) -> Seq<char> {
    verb + " "@ + text::dec_nat(n) + " "@ + good + "."@
}

/// "Bought 10 Food." and the like.
fn report_trade(verb: &str, n: u32, good: &str) -> (s: String)
    ensures
        s@ == trade_report(verb@, n as nat, good@),
{
    let mut s = String::new();
    s.append(verb);
    s.append(" ");
    push_u64(&mut s, n as u64);
    s.append(" ");
    s.append(good);
    s.append(".");
    assert(s@ =~= trade_report(verb@, n as nat, good@));
    s
}

/// The slot of a contract on the board.
pub fn find_contract(board: &Vec<Contract>, id: ContractId) -> (r: Option<usize>)
    ensures
        match r {
            Some(i) => i < board@.len() && commands::contract_slot(board@, id) == Some(i as int),
            None => commands::contract_slot(board@, id) is None,
        },
{
    let ghost p = |c: Contract| c.id == id;
    let mut i: usize = 0;
    while i < board.len()
        invariant
            i <= board@.len(),
            p == (|c: Contract| c.id == id),
            forall|j: int| 0 <= j < i ==> !p(#[trigger] board@[j]),
        decreases board@.len() - i,
    {
        if board[i].id == id {
            proof {
                search::lemma_first_is(board@, p, i as int);
            }
            return Some(i);
        }
        i = i + 1;
    }
    proof {
        search::lemma_first_none(board@, p);
    }
    None
}

/// The slot of a loan.
pub fn find_loan(loans: &Vec<Loan>, id: LoanId) -> (r: Option<usize>)
    ensures
        match r {
            Some(i) => i < loans@.len() && commands::loan_slot(loans@, id) == Some(i as int),
            None => commands::loan_slot(loans@, id) is None,
        },
{
    let ghost p = |l: Loan| l.id == id;
    let mut i: usize = 0;
    while i < loans.len()
        invariant
            i <= loans@.len(),
            p == (|l: Loan| l.id == id),
            forall|j: int| 0 <= j < i ==> !p(#[trigger] loans@[j]),
        decreases loans@.len() - i,
    {
        if loans[i].id == id {
            proof {
                search::lemma_first_is(loans@, p, i as int);
            }
            return Some(i);
        }
        i = i + 1;
    }
    proof {
        search::lemma_first_none(loans@, p);
    }
    None
}

/// "Completed contract #3! +500 cr"; the reward is the one the board shows now.
pub open spec fn completed(board: Seq<Contract>, id: ContractId) -> Seq<char> {
    "Completed contract #"@ + text::dec_nat(id.0 as nat) + "!"@ + (match commands::contract_slot(
        board,
        id,
    ) {
        Some(i) => " +"@ + text::dec(board[i].reward as int) + " cr"@,
        None => Seq::empty(),
    })
}

/// "Completed contract #3! +500 cr".
fn completed_text(board: &Vec<Contract>, id: ContractId) -> (s: String)
    ensures
        s@ == completed(board@, id),
{
    let mut s = String::new();
    s.append("Completed contract #");
    push_u64(&mut s, id.0);
    s.append("!");
    match find_contract(board, id) {
        Some(i) => {
            s.append(" +");
            push_i64(&mut s, board[i].reward);
            s.append(" cr");
        },
        None => {},
    }
    assert(s@ =~= completed(board@, id));
    s
}

/// The capital of a trader; none where it is gone.
pub open spec fn purse(v: Scene, id: TraderId) -> Money {
    let traders = trader::trader_views(v.traders@);
    match commands::trader_slot(traders, id) {
        Some(i) => traders[i].capital,
        None => 0,
    }
}

/// What a repayment comes to: the amount asked for, or else the balance as far as
/// capital allows; at least one credit.
pub open spec fn repayment(v: Scene, id: TraderId, loan: LoanId, amount: Option<Money>) -> Money {
    let balance = match commands::loan_slot(v.loans@, loan) {
        Some(i) => v.loans@[i].outstanding,
        None => 0,
    };
    let pay = match amount {
        Some(n) => n,
        None => if balance < purse(v, id) {
            balance
        } else {
            purse(v, id)
        },
    };
    if pay < 1 {
        1
    } else {
        pay
    }
}

/// What a repayment comes to.
fn settle_repayment(v: &Scene, id: TraderId, loan: LoanId, amount: Option<Money>) -> (pay: Money)
    ensures
        pay == repayment(*v, id, loan, amount),
{
    let pay: Money = match amount {
        Some(n) => n,
        None => {
            let balance: Money = match find_loan(v.loans, loan) {
                Some(i) => v.loans[i].outstanding,
                None => 0,
            };
            let capital: Money = match console::find(v.traders, id) {
                Some(i) => v.traders[i].capital,
                None => 0,
            };
            if balance < capital {
                balance
            } else {
                capital
            }
        },
    };
    if pay < 1 {
        1
    } else {
        pay
    }
}

/// The player's other lists, beside what the situation draws on.
pub struct Papers<'a> {
    pub policies: &'a Vec<Policy>,
    pub futures: &'a Vec<Future>,
}

/// What an action leads to.
pub open spec fn planned(
    a: Action,
    v: Scene,
    papers: Papers,
    player: PlayerId,
    id: TraderId,
) -> StepView {
    let reg = *v.reg;
    match a {
        Action::Quit => StepView::Quit,
        Action::Help => StepView::Say(play::HELP@ + "\n"@),
        Action::Status => StepView::Nothing,
        Action::Chart => StepView::Say(
            "\nSystems:\n"@ + console::map_lines(
                reg,
                v.dangers@,
                reg.spec_systems().len() as int,
            ),
        ),
        Action::Contracts => StepView::Say(
            console::board_shown(reg, v.contracts@, v.now, id),
        ),
        Action::Accept(c) => StepView::Act(
            Command::AcceptContract { player, trader: id, contract: c },
            "Accepted contract #"@ + text::dec_nat(c.0 as nat) + "."@,
        ),
        Action::Fulfil(c) => StepView::Act(
            Command::FulfillContract { player, trader: id, contract: c },
            completed(v.contracts@, c),
        ),
        Action::Loans => StepView::Say(console::loans_shown(v.loans@, v.now, id)),
        Action::Finance => StepView::Say(
            console::positions_shown(
                reg,
                v.loans@,
                papers.policies@,
                papers.futures@,
                v.now,
                id,
            ),
        ),
        Action::Insure => StepView::Act(
            Command::BuyInsurance { player, trader: id },
            "Insured your ship."@,
        ),
        Action::Future(commodity, qty, side) => StepView::Act(
            Command::OpenFuture { player, trader: id, commodity, qty, side },
            "Opened a "@ + console::side_word(side) + " future on "@ + text::dec_nat(qty as nat)
                + " "@ + console::good_label(reg, commodity) + "."@,
        ),
        Action::Borrow(principal) => StepView::Act(
            Command::TakeLoan { player, trader: id, principal },
            "Borrowed "@ + text::dec(principal as int) + " cr."@,
        ),
        Action::Repay(loan, amount) => {
            let pay = repayment(v, id, loan, amount);
            StepView::Act(
                Command::RepayLoan { player, trader: id, loan, amount: pay },
                "Repaid "@ + text::dec(pay as int) + " cr on loan #"@ + text::dec_nat(
                    loan.0 as nat,
                ) + "."@,
            )
        },
        Action::Wait(n) => StepView::Pass(
            if n < 1 {
                1
            } else {
                n
            },
            "  "@ + text::dec_nat(n as nat) + " tick(s) passed.\n"@,
        ),
        Action::Buy(commodity, qty) => StepView::Act(
            Command::Buy { player, trader: id, commodity, qty },
            trade_report("Bought"@, qty as nat, console::good_label(reg, commodity)),
        ),
        Action::Sell(commodity, qty) => StepView::Act(
            Command::Sell { player, trader: id, commodity, qty },
            trade_report("Sold"@, qty as nat, console::good_label(reg, commodity)),
        ),
        Action::Jump(dest) => StepView::Travel(
            Command::Jump { player, trader: id, dest },
            "  Departing for "@ + console::system_label(reg, dest) + "...\n"@,
        ),
    }
}

/// What an action leads to.
pub fn plan(a: Action, v: &Scene, papers: &Papers, player: PlayerId, id: TraderId) -> (step: Step)
    requires
        v.wf(),
    ensures
        step@ == planned(a, *v, *papers, player, id),
{
    let mut s = String::new();
    let step = match a {
        Action::Quit => Step::Quit,
        Action::Help => {
            s.append(play::HELP);
            s.append("\n");
            assert(s@ =~= play::HELP@ + "\n"@);
            Step::Say(s)
        },
        Action::Status => Step::Nothing,
        Action::Chart => Step::Say(map_text(v.reg, v.dangers)),
        Action::Contracts => Step::Say(contracts_text(v.reg, v.contracts, v.now, id)),
        Action::Accept(c) => {
            s.append("Accepted contract #");
            push_u64(&mut s, c.0);
            s.append(".");
            assert(s@ =~= "Accepted contract #"@ + text::dec_nat(c.0 as nat) + "."@);
            Step::Act(Command::AcceptContract { player, trader: id, contract: c }, s)
        },
        Action::Fulfil(c) => Step::Act(
            Command::FulfillContract { player, trader: id, contract: c },
            completed_text(v.contracts, c),
        ),
        Action::Loans => Step::Say(loans_text(v.loans, v.now, id)),
        Action::Finance => Step::Say(
            finance_text(v.reg, v.loans, papers.policies, papers.futures, v.now, id),
        ),
        Action::Insure => Step::Act(
            Command::BuyInsurance { player, trader: id },
            "Insured your ship.".to_owned(),
        ),
        Action::Future(commodity, qty, side) => {
            s.append("Opened a ");
            s.append(side_text(side));
            s.append(" future on ");
            push_u64(&mut s, qty as u64);
            s.append(" ");
            s.append(label_good(v.reg, commodity));
            s.append(".");
            assert(s@ =~= "Opened a "@ + console::side_word(side) + " future on "@ + text::dec_nat(
                qty as nat,
            ) + " "@ + console::good_label(*v.reg, commodity) + "."@);
            Step::Act(Command::OpenFuture { player, trader: id, commodity, qty, side }, s)
        },
        Action::Borrow(principal) => {
            s.append("Borrowed ");
            push_i64(&mut s, principal);
            s.append(" cr.");
            assert(s@ =~= "Borrowed "@ + text::dec(principal as int) + " cr."@);
            Step::Act(Command::TakeLoan { player, trader: id, principal }, s)
        },
        Action::Repay(loan, amount) => {
            let pay = settle_repayment(v, id, loan, amount);
            s.append("Repaid ");
            push_i64(&mut s, pay);
            s.append(" cr on loan #");
            push_u64(&mut s, loan.0);
            s.append(".");
            assert(s@ =~= "Repaid "@ + text::dec(pay as int) + " cr on loan #"@ + text::dec_nat(
                loan.0 as nat,
            ) + "."@);
            Step::Act(Command::RepayLoan { player, trader: id, loan, amount: pay }, s)
        },
        Action::Wait(n) => {
            s.append("  ");
            push_u64(&mut s, n);
            s.append(" tick(s) passed.\n");
            assert(s@ =~= "  "@ + text::dec_nat(n as nat) + " tick(s) passed.\n"@);
            Step::Pass(
                if n < 1 {
                    1
                } else {
                    n
                },
                s,
            )
        },
        Action::Buy(commodity, qty) => Step::Act(
            Command::Buy { player, trader: id, commodity, qty },
            report_trade("Bought", qty, label_good(v.reg, commodity)),
        ),
        Action::Sell(commodity, qty) => Step::Act(
            Command::Sell { player, trader: id, commodity, qty },
            report_trade("Sold", qty, label_good(v.reg, commodity)),
        ),
        Action::Jump(dest) => {
            s.append("  Departing for ");
            s.append(label_system(v.reg, dest));
            s.append("...\n");
            assert(s@ =~= "  Departing for "@ + console::system_label(*v.reg, dest) + "...\n"@);
            Step::Travel(Command::Jump { player, trader: id, dest }, s)
        },
    };
    step
}

/// What a line of input leads to: a blank one to nothing, one that cannot be read to the
/// reason.
pub open spec fn answered(
    line: Seq<char>,
    v: Scene,
    papers: Papers,
    player: PlayerId,
    id: TraderId,
) -> StepView {
    if words::words(line).len() == 0 {
        StepView::Nothing
    } else {
        match play::parsed(line, *v.reg) {
            Err(e) => StepView::Say("  "@ + e + "\n"@),
            Ok(a) => planned(a, v, papers, player, id),
        }
    }
}

/// What a line of input leads to.
pub fn respond(line: &str, v: &Scene, papers: &Papers, player: PlayerId, id: TraderId) -> (step:
    Step)
    requires
        v.wf(),
    ensures
        step@ == answered(line@, *v, *papers, player, id),
{
    if split(line).len() == 0 {
        return Step::Nothing;
    }
    match parse_action(line, v.reg) {
        Err(e) => {
            let mut s = String::new();
            s.append("  ");
            s.append(e.as_str());
            s.append("\n");
            assert(s@ =~= "  "@ + e@ + "\n"@);
            Step::Say(s)
        },
        Ok(a) => plan(a, v, papers, player, id),
    }
}

/// Shown when the player's ship no longer exists.
pub const GONE: &'static str = "Your ship is gone. Game over.\n";

/// Shown when the session ends.
pub const FAREWELL: &'static str = "Fair skies, commander.\n";

/// What stands before a line of input: the situation and a prompt, while the player has
/// a ship.
pub open spec fn prompted(v: Scene, id: TraderId) -> Option<Seq<char>> {
    match commands::trader_slot(trader::trader_views(v.traders@), id) {
        None => None,
        Some(_) => Some(console::situation(v, id) + "> "@),
    }
}

/// What stands before a line of input, or `None` where the player has no ship.
pub fn prompt(v: &Scene, id: TraderId) -> (r: Option<String>)
    requires
        v.wf(),
    ensures
        match r {
            Some(s) => prompted(*v, id) == Some(s@),
            None => prompted(*v, id) is None,
        },
{
    match find(v.traders, id) {
        None => None,
        Some(_) => {
            let mut s = dashboard(v, id);
            s.append("> ");
            Some(s)
        },
    }
}

/// How a command's outcome reads: the first rejection of the tick, or else its success.
pub open spec fn reported(errors: Seq<CommandError>, success: Seq<char>) -> Seq<char> {
    if errors.len() > 0 {
        "  rejected: "@ + errors[0].spec_message() + "\n"@
    } else {
        "  "@ + success + "\n"@
    }
}

/// Report the outcome of a just-applied command.
pub fn report_command(errors: &Vec<CommandError>, success: &str) -> (s: String)
    ensures
        s@ == reported(errors@, success@),
{
    let mut s = String::new();
    if errors.len() > 0 {
        s.append("  rejected: ");
        s.append(errors[0].message());
    } else {
        s.append("  ");
        s.append(success);
    }
    s.append("\n");
    assert(s@ =~= reported(errors@, success@));
    s
}

/// The most ticks a journey is followed for.
pub const JOURNEY_LIMIT: u64 = 100_000;

/// What a moment of a journey leads to.
#[derive(Debug)]
pub enum Leg {
    /// The journey is over; this is shown, if anything.
    Over(Option<String>),
    /// Show this, if anything, and let a tick pass; whether the ship has been destroyed.
    Onward(Option<String>, bool),
}

/// The text of a [`Leg`], and whether the journey goes on, destroyed or not.
pub open spec fn leg_view(l: Leg) -> (Option<Seq<char>>, Option<bool>) {
    match l {
        Leg::Over(Some(s)) => (Some(s@), None),
        Leg::Over(None) => (None, None),
        Leg::Onward(Some(s), d) => (Some(s@), Some(d)),
        Leg::Onward(None, d) => (None, Some(d)),
    }
}

/// What a moment of a journey leads to. It ends where the ship docks or is gone;
/// destruction is told once.
pub open spec fn moment(reg: Registry, place: Option<TraderLocation>, destroyed: bool) -> (
    Option<Seq<char>>,
    Option<bool>,
) {
    match place {
        None => (None, None),
        Some(TraderLocation::Docked(s)) => (
            Some(
                (if destroyed {
                    "  Respawned at "@
                } else {
                    "  Arrived at "@
                }) + console::system_label(reg, s) + ".\n"@,
            ),
            None,
        ),
        Some(TraderLocation::Destroyed { respawn }) => (
            if destroyed {
                None
            } else {
                Some("  You were ambushed and destroyed! Your cargo is lost.\n"@)
            },
            Some(true),
        ),
        Some(TraderLocation::InTransit { origin, dest, departure, arrival }) => (
            None,
            Some(destroyed),
        ),
    }
}

/// What a moment of a journey leads to.
pub fn journey(reg: &Registry, place: Option<TraderLocation>, destroyed: bool) -> (l: Leg)
    ensures
        leg_view(l) == moment(*reg, place, destroyed),
{
    match place {
        None => Leg::Over(None),
        Some(TraderLocation::Docked(at)) => {
            let mut s = String::new();
            if destroyed {
                s.append("  Respawned at ");
            } else {
                s.append("  Arrived at ");
            }
            s.append(label_system(reg, at));
            s.append(".\n");
            assert(s@ =~= (if destroyed {
                "  Respawned at "@
            } else {
                "  Arrived at "@
            }) + console::system_label(*reg, at) + ".\n"@);
            Leg::Over(Some(s))
        },
        Some(TraderLocation::Destroyed { .. }) => if destroyed {
            Leg::Onward(None, true)
        } else {
            Leg::Onward(
                Some("  You were ambushed and destroyed! Your cargo is lost.\n".to_owned()),
                true,
            )
        },
        Some(TraderLocation::InTransit { .. }) => Leg::Onward(None, destroyed),
    }
}

/// What a tick under way brought in: capital that grew is a bounty.
pub open spec fn spoils(before: Money, after: Money) -> Option<Seq<char>> {
    if after > before {
        Some(
            "  Fought off pirates and claimed "@ + text::dec_nat((after - before) as nat)
                + " cr in bounties!\n"@,
        )
    } else {
        None
    }
}

/// What a tick under way brought in.
pub fn spoils_text(before: Money, after: Money) -> (r: Option<String>)
    ensures
        match r {
            Some(s) => spoils(before, after) == Some(s@),
            None => spoils(before, after) is None,
        },
{
    if after > before {
        let mut s = String::new();
        s.append("  Fought off pirates and claimed ");
        push_u128(&mut s, (after as i128 - before as i128) as u128);
        s.append(" cr in bounties!\n");
        assert(s@ =~= "  Fought off pirates and claimed "@ + text::dec_nat(
            (after - before) as nat,
        ) + " cr in bounties!\n"@);
        Some(s)
    } else {
        None
    }
}

/// What a repayment comes to: the amount asked for; without one, no more than the balance
/// and no more than the capital, and one of the two; never less than a credit.
pub proof fn lemma_repayment_comes_to(v: Scene, id: TraderId, loan: LoanId, i: int, amount: Money)
    requires
        commands::loan_slot(v.loans@, loan) == Some(i),
    ensures
        ({
            let pay = repayment(v, id, loan, None);
            let balance = v.loans@[i].outstanding;
            &&& pay >= 1
            &&& balance >= 1 && purse(v, id) >= 1 ==> pay <= balance && pay <= purse(v, id) && (pay
                == balance || pay == purse(v, id))
        }),
        amount >= 1 ==> repayment(v, id, loan, Some(amount)) == amount,
{
}

/// Whatever a player asks for is asked in the player's name and for the player's ship.
pub proof fn lemma_commands_are_the_players(
    a: Action,
    v: Scene,
    papers: Papers,
    player: PlayerId,
    id: TraderId,
)
    ensures
        planned(a, v, papers, player, id) matches StepView::Act(c, s) ==> c.spec_player() == player
            && addressee(c) == Some(id),
        planned(a, v, papers, player, id) matches StepView::Travel(c, s) ==> c.spec_player()
            == player && addressee(c) == Some(id),
        planned(a, v, papers, player, id) matches StepView::Pass(n, s) ==> n >= 1,
{
}

/// What a player does to the world is what was asked for, to the unit.
pub proof fn lemma_actions_ask_what_was_said(
    v: Scene,
    papers: Papers,
    player: PlayerId,
    id: TraderId,
    commodity: CommodityId,
    qty: Quantity,
    dest: SystemId,
    contract: ContractId,
    principal: Money,
    side: FutureSide,
)
    ensures
        planned(Action::Buy(commodity, qty), v, papers, player, id) matches StepView::Act(c, s) && c
            == (Command::Buy { player, trader: id, commodity, qty }),
        planned(Action::Sell(commodity, qty), v, papers, player, id) matches StepView::Act(c, s)
            && c == (Command::Sell { player, trader: id, commodity, qty }),
        planned(Action::Jump(dest), v, papers, player, id) matches StepView::Travel(c, s) && c == (
        Command::Jump { player, trader: id, dest }),
        planned(Action::Accept(contract), v, papers, player, id) matches StepView::Act(c, s) && c
            == (Command::AcceptContract { player, trader: id, contract }),
        planned(Action::Fulfil(contract), v, papers, player, id) matches StepView::Act(c, s) && c
            == (Command::FulfillContract { player, trader: id, contract }),
        planned(Action::Borrow(principal), v, papers, player, id) matches StepView::Act(c, s) && c
            == (Command::TakeLoan { player, trader: id, principal }),
        planned(Action::Insure, v, papers, player, id) matches StepView::Act(c, s) && c == (
        Command::BuyInsurance { player, trader: id }),
        planned(Action::Future(commodity, qty, side), v, papers, player, id) matches StepView::Act(
            c,
            s,
        ) && c == (Command::OpenFuture { player, trader: id, commodity, qty, side }),
{
}

/// A journey goes on just while the ship is under way or destroyed, and destruction is
/// told once, when it comes.
pub proof fn lemma_journeys_end_at_a_dock(
    reg: Registry,
    place: Option<TraderLocation>,
    destroyed: bool,
)
    ensures
        moment(reg, place, destroyed).1 is None <==> place is None || place->Some_0 is Docked,
        place is Some && place->Some_0 is Docked ==> moment(reg, place, destroyed).0 is Some,
        place is Some && place->Some_0 is InTransit ==> moment(reg, place, destroyed) == (
            None::<Seq<char>>,
            Some(destroyed),
        ),
        place is Some && place->Some_0 is Destroyed ==> moment(reg, place, destroyed).1 == Some(
            true,
        ) && (moment(reg, place, destroyed).0 is Some <==> !destroyed),
{
}

/// Only growing capital is told as a bounty.
pub proof fn lemma_spoils_are_gains(before: Money, after: Money)
    ensures
        spoils(before, after) is Some <==> after > before,
{
}

} // verus!
