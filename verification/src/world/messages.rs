//! The wording of logged events.

use vstd::prelude::*;
use vstd::string::StringExecFns;

use crate::finance::FutureSide;
use crate::ids::{ContractId, LoanId, Money, Quantity, TraderId};
use crate::text;
use crate::text::{push_i64, push_i64_signed, push_u64};

verus! {

/// "Contract #7 accepted by trader #3".
pub open spec fn accepted(contract: ContractId, trader: TraderId) -> Seq<char> {
    "Contract #"@ + text::dec_nat(contract.0 as nat) + " accepted by trader #"@ + text::dec_nat(
        trader.0 as nat,
    )
}

pub fn accepted_text(contract: ContractId, trader: TraderId) -> (s: String)
    ensures
        s@ == accepted(contract, trader),
{
    let mut s = String::new();
    s.append("Contract #");
    push_u64(&mut s, contract.0);
    s.append(" accepted by trader #");
    push_u64(&mut s, trader.0);
    assert(s@ =~= accepted(contract, trader));
    s
}

/// "Contract #7 fulfilled by trader #3 (+500cr)".
pub open spec fn fulfilled(contract: ContractId, trader: TraderId, reward: Money) -> Seq<char> {
    "Contract #"@ + text::dec_nat(contract.0 as nat) + " fulfilled by trader #"@ + text::dec_nat(
        trader.0 as nat,
    ) + " (+"@ + text::dec(reward as int) + "cr)"@
}

pub fn fulfilled_text(contract: ContractId, trader: TraderId, reward: Money) -> (s: String)
    ensures
        s@ == fulfilled(contract, trader, reward),
{
    let mut s = String::new();
    s.append("Contract #");
    push_u64(&mut s, contract.0);
    s.append(" fulfilled by trader #");
    push_u64(&mut s, trader.0);
    s.append(" (+");
    push_i64(&mut s, reward);
    s.append("cr)");
    assert(s@ =~= fulfilled(contract, trader, reward));
    s
}

/// "Loan #2 of 5000cr taken by trader #3".
pub open spec fn borrowed(loan: LoanId, principal: Money, trader: TraderId) -> Seq<char> {
    "Loan #"@ + text::dec_nat(loan.0 as nat) + " of "@ + text::dec(principal as int)
        + "cr taken by trader #"@ + text::dec_nat(trader.0 as nat)
}

pub fn borrowed_text(loan: LoanId, principal: Money, trader: TraderId) -> (s: String)
    ensures
        s@ == borrowed(loan, principal, trader),
{
    let mut s = String::new();
    s.append("Loan #");
    push_u64(&mut s, loan.0);
    s.append(" of ");
    push_i64(&mut s, principal);
    s.append("cr taken by trader #");
    push_u64(&mut s, trader.0);
    assert(s@ =~= borrowed(loan, principal, trader));
    s
}

/// "Loan #2 repaid 300cr by trader #3 (4700cr remaining)".
pub open spec fn repaid(loan: LoanId, pay: Money, trader: TraderId, remaining: Money) -> Seq<char> {
    "Loan #"@ + text::dec_nat(loan.0 as nat) + " repaid "@ + text::dec(pay as int)
        + "cr by trader #"@ + text::dec_nat(trader.0 as nat) + " ("@ + text::dec(remaining as int)
        + "cr remaining)"@
}

pub fn repaid_text(loan: LoanId, pay: Money, trader: TraderId, remaining: Money) -> (s: String)
    ensures
        s@ == repaid(loan, pay, trader, remaining),
{
    let mut s = String::new();
    s.append("Loan #");
    push_u64(&mut s, loan.0);
    s.append(" repaid ");
    push_i64(&mut s, pay);
    s.append("cr by trader #");
    push_u64(&mut s, trader.0);
    s.append(" (");
    push_i64(&mut s, remaining);
    s.append("cr remaining)");
    assert(s@ =~= repaid(loan, pay, trader, remaining));
    s
}

/// "Trader #3 insured for 4000cr (premium 500cr)".
pub open spec fn insured(trader: TraderId, payout: Money, premium: Money) -> Seq<char> {
    "Trader #"@ + text::dec_nat(trader.0 as nat) + " insured for "@ + text::dec(payout as int)
        + "cr (premium "@ + text::dec(premium as int) + "cr)"@
}

pub fn insured_text(trader: TraderId, payout: Money, premium: Money) -> (s: String)
    ensures
        s@ == insured(trader, payout, premium),
{
    let mut s = String::new();
    s.append("Trader #");
    push_u64(&mut s, trader.0);
    s.append(" insured for ");
    push_i64(&mut s, payout);
    s.append("cr (premium ");
    push_i64(&mut s, premium);
    s.append("cr)");
    assert(s@ =~= insured(trader, payout, premium));
    s
}

/// The name of a side.
pub open spec fn side_name(side: FutureSide) -> Seq<char> {
    match side {
        FutureSide::Long => "Long"@,
        FutureSide::Short => "Short"@,
    }
}

/// The name of a side.
pub fn side_text(side: FutureSide) -> (s: &'static str)
    ensures
        s@ == side_name(side),
{
    match side {
        FutureSide::Long => "Long",
        FutureSide::Short => "Short",
    }
}

/// "Trader #3 opened Long 10 core:food future @ 100cr (fee 50cr)".
pub open spec fn opened(
    trader: TraderId,
    side: FutureSide,
    qty: Quantity,
    commodity: Seq<char>,
    strike: Money,
    fee: Money,
) -> Seq<char> {
    "Trader #"@ + text::dec_nat(trader.0 as nat) + " opened "@ + side_name(side) + " "@
        + text::dec_nat(qty as nat) + " "@ + commodity + " future @ "@ + text::dec(strike as int)
        + "cr (fee "@ + text::dec(fee as int) + "cr)"@
}

pub fn opened_text(
    trader: TraderId,
    side: FutureSide,
    qty: Quantity,
    commodity: &str,
    strike: Money,
    fee: Money,
) -> (s: String)
    ensures
        s@ == opened(trader, side, qty, commodity@, strike, fee),
{
    let mut s = String::new();
    s.append("Trader #");
    push_u64(&mut s, trader.0);
    s.append(" opened ");
    s.append(side_text(side));
    s.append(" ");
    push_u64(&mut s, qty as u64);
    s.append(" ");
    s.append(commodity);
    s.append(" future @ ");
    push_i64(&mut s, strike);
    s.append("cr (fee ");
    push_i64(&mut s, fee);
    s.append("cr)");
    assert(s@ =~= opened(trader, side, qty, commodity@, strike, fee));
    s
}

/// "Trader #3 destroyed a pirate (+300cr)".
pub open spec fn killed(trader: TraderId, bounty: Money) -> Seq<char> {
    "Trader #"@ + text::dec_nat(trader.0 as nat) + " destroyed a pirate (+"@ + text::dec(
        bounty as int,
    ) + "cr)"@
}

pub fn killed_text(trader: TraderId, bounty: Money) -> (s: String)
    ensures
        s@ == killed(trader, bounty),
{
    let mut s = String::new();
    s.append("Trader #");
    push_u64(&mut s, trader.0);
    s.append(" destroyed a pirate (+");
    push_i64(&mut s, bounty);
    s.append("cr)");
    assert(s@ =~= killed(trader, bounty));
    s
}

/// "Bounty #7 quota met by trader #3", and what follows it.
pub open spec fn quota(contract: ContractId, trader: TraderId, ending: Seq<char>) -> Seq<char> {
    "Bounty #"@ + text::dec_nat(contract.0 as nat) + " quota met by trader #"@ + text::dec_nat(
        trader.0 as nat,
    ) + ending
}

pub fn quota_text(contract: ContractId, trader: TraderId, ending: &str) -> (s: String)
    ensures
        s@ == quota(contract, trader, ending@),
{
    let mut s = String::new();
    s.append("Bounty #");
    push_u64(&mut s, contract.0);
    s.append(" quota met by trader #");
    push_u64(&mut s, trader.0);
    s.append(ending);
    assert(s@ =~= quota(contract, trader, ending@));
    s
}

/// "Trader #3 destroyed in combat, cargo lost".
pub open spec fn lost(trader: TraderId) -> Seq<char> {
    "Trader #"@ + text::dec_nat(trader.0 as nat) + " destroyed in combat, cargo lost"@
}

pub fn lost_text(trader: TraderId) -> (s: String)
    ensures
        s@ == lost(trader),
{
    let mut s = String::new();
    s.append("Trader #");
    push_u64(&mut s, trader.0);
    s.append(" destroyed in combat, cargo lost");
    assert(s@ =~= lost(trader));
    s
}

/// "Insurance paid trader #3 4000cr for the loss".
pub open spec fn compensated(trader: TraderId, payout: Money) -> Seq<char> {
    "Insurance paid trader #"@ + text::dec_nat(trader.0 as nat) + " "@ + text::dec(payout as int)
        + "cr for the loss"@
}

pub fn compensated_text(trader: TraderId, payout: Money) -> (s: String)
    ensures
        s@ == compensated(trader, payout),
{
    let mut s = String::new();
    s.append("Insurance paid trader #");
    push_u64(&mut s, trader.0);
    s.append(" ");
    push_i64(&mut s, payout);
    s.append("cr for the loss");
    assert(s@ =~= compensated(trader, payout));
    s
}

/// "Loan #2 called: 1800cr seized from trader #3".
pub open spec fn called(loan: LoanId, balance: Money, trader: TraderId) -> Seq<char> {
    "Loan #"@ + text::dec_nat(loan.0 as nat) + " called: "@ + text::dec(balance as int)
        + "cr seized from trader #"@ + text::dec_nat(trader.0 as nat)
}

pub fn called_text(loan: LoanId, balance: Money, trader: TraderId) -> (s: String)
    ensures
        s@ == called(loan, balance, trader),
{
    let mut s = String::new();
    s.append("Loan #");
    push_u64(&mut s, loan.0);
    s.append(" called: ");
    push_i64(&mut s, balance);
    s.append("cr seized from trader #");
    push_u64(&mut s, trader.0);
    assert(s@ =~= called(loan, balance, trader));
    s
}

/// "Future settled for trader #3: core:food @ 120 vs strike 100 -> +200cr".
pub open spec fn settled(
    trader: TraderId,
    commodity: Seq<char>,
    settle: Money,
    strike: Money,
    payoff: Money,
) -> Seq<char> {
    "Future settled for trader #"@ + text::dec_nat(trader.0 as nat) + ": "@ + commodity + " @ "@
        + text::dec(settle as int) + " vs strike "@ + text::dec(strike as int) + " -> "@
        + text::dec_signed(payoff as int) + "cr"@
}

pub fn settled_text(
    trader: TraderId,
    commodity: &str,
    settle: Money,
    strike: Money,
    payoff: Money,
) -> (s: String)
    ensures
        s@ == settled(trader, commodity@, settle, strike, payoff),
{
    let mut s = String::new();
    s.append("Future settled for trader #");
    push_u64(&mut s, trader.0);
    s.append(": ");
    s.append(commodity);
    s.append(" @ ");
    push_i64(&mut s, settle);
    s.append(" vs strike ");
    push_i64(&mut s, strike);
    s.append(" -> ");
    push_i64_signed(&mut s, payoff);
    s.append("cr");
    assert(s@ =~= settled(trader, commodity@, settle, strike, payoff));
    s
}

/// "Contract #7 expired, undelivered to core:lave".
pub open spec fn expired(contract: ContractId, dest: Seq<char>) -> Seq<char> {
    "Contract #"@ + text::dec_nat(contract.0 as nat) + " expired, undelivered to "@ + dest
}

pub fn expired_text(contract: ContractId, dest: &str) -> (s: String)
    ensures
        s@ == expired(contract, dest@),
{
    let mut s = String::new();
    s.append("Contract #");
    push_u64(&mut s, contract.0);
    s.append(" expired, undelivered to ");
    s.append(dest);
    assert(s@ =~= expired(contract, dest@));
    s
}

/// "Contract #7 posted: deliver 20 core:food to core:lave for 3000cr".
pub open spec fn posted_delivery(
    contract: ContractId,
    quantity: Quantity,
    commodity: Seq<char>,
    dest: Seq<char>,
    reward: Money,
) -> Seq<char> {
    "Contract #"@ + text::dec_nat(contract.0 as nat) + " posted: deliver "@ + text::dec_nat(
        quantity as nat,
    ) + " "@ + commodity + " to "@ + dest + " for "@ + text::dec(reward as int) + "cr"@
}

pub fn posted_delivery_text(
    contract: ContractId,
    quantity: Quantity,
    commodity: &str,
    dest: &str,
    reward: Money,
) -> (s: String)
    ensures
        s@ == posted_delivery(contract, quantity, commodity@, dest@, reward),
{
    let mut s = String::new();
    s.append("Contract #");
    push_u64(&mut s, contract.0);
    s.append(" posted: deliver ");
    push_u64(&mut s, quantity as u64);
    s.append(" ");
    s.append(commodity);
    s.append(" to ");
    s.append(dest);
    s.append(" for ");
    push_i64(&mut s, reward);
    s.append("cr");
    assert(s@ =~= posted_delivery(contract, quantity, commodity@, dest@, reward));
    s
}

/// "Contract #7 posted: courier run core:lave -> core:leesti for 500cr".
pub open spec fn posted_courier(
    contract: ContractId,
    origin: Seq<char>,
    dest: Seq<char>,
    reward: Money,
) -> Seq<char> {
    "Contract #"@ + text::dec_nat(contract.0 as nat) + " posted: courier run "@ + origin + " -> "@
        + dest + " for "@ + text::dec(reward as int) + "cr"@
}

pub fn posted_courier_text(contract: ContractId, origin: &str, dest: &str, reward: Money) -> (s:
    String)
    ensures
        s@ == posted_courier(contract, origin@, dest@, reward),
{
    let mut s = String::new();
    s.append("Contract #");
    push_u64(&mut s, contract.0);
    s.append(" posted: courier run ");
    s.append(origin);
    s.append(" -> ");
    s.append(dest);
    s.append(" for ");
    push_i64(&mut s, reward);
    s.append("cr");
    assert(s@ =~= posted_courier(contract, origin@, dest@, reward));
    s
}

/// "Contract #7 posted: bounty on 3 pirate(s) near core:riedquat for 5000cr".
pub open spec fn posted_bounty(
    contract: ContractId,
    target: u32,
    dest: Seq<char>,
    reward: Money,
) -> Seq<char> {
    "Contract #"@ + text::dec_nat(contract.0 as nat) + " posted: bounty on "@ + text::dec_nat(
        target as nat,
    ) + " pirate(s) near "@ + dest + " for "@ + text::dec(reward as int) + "cr"@
}

pub fn posted_bounty_text(contract: ContractId, target: u32, dest: &str, reward: Money) -> (s:
    String)
    ensures
        s@ == posted_bounty(contract, target, dest@, reward),
{
    let mut s = String::new();
    s.append("Contract #");
    push_u64(&mut s, contract.0);
    s.append(" posted: bounty on ");
    push_u64(&mut s, target as u64);
    s.append(" pirate(s) near ");
    s.append(dest);
    s.append(" for ");
    push_i64(&mut s, reward);
    s.append("cr");
    assert(s@ =~= posted_bounty(contract, target, dest@, reward));
    s
}

/// "Navy engaged pirates at Riedquat: 2 destroyed", and the frigates lost, if any.
pub open spec fn hunted(system: Seq<char>, killed: nat, navy_down: nat) -> Seq<char> {
    let head = "Navy engaged pirates at "@ + system + ": "@ + text::dec_nat(killed)
        + " destroyed"@;
    if navy_down > 0 {
        head + ", "@ + text::dec_nat(navy_down) + " frigate(s) lost"@
    } else {
        head
    }
}

pub fn hunted_text(system: &str, killed: u64, navy_down: u64) -> (s: String)
    ensures
        s@ == hunted(system@, killed as nat, navy_down as nat),
{
    let mut s = String::new();
    s.append("Navy engaged pirates at ");
    s.append(system);
    s.append(": ");
    push_u64(&mut s, killed);
    s.append(" destroyed");
    if navy_down > 0 {
        s.append(", ");
        push_u64(&mut s, navy_down);
        s.append(" frigate(s) lost");
    }
    assert(s@ =~= hunted(system@, killed as nat, navy_down as nat));
    s
}

/// "Ambush near Riedquat: trader #3 beat 2 pirate(s), killed 1 (+300cr)".
pub open spec fn ambush_won(
    system: Seq<char>,
    trader: TraderId,
    pirates: nat,
    kills: nat,
    reward: Money,
) -> Seq<char> {
    "Ambush near "@ + system + ": trader #"@ + text::dec_nat(trader.0 as nat) + " beat "@
        + text::dec_nat(pirates) + " pirate(s), killed "@ + text::dec_nat(kills) + " (+"@
        + text::dec(reward as int) + "cr)"@
}

pub fn ambush_won_text(system: &str, trader: TraderId, pirates: u64, kills: u64, reward: Money) -> (s:
    String)
    ensures
        s@ == ambush_won(system@, trader, pirates as nat, kills as nat, reward),
{
    let mut s = String::new();
    s.append("Ambush near ");
    s.append(system);
    s.append(": trader #");
    push_u64(&mut s, trader.0);
    s.append(" beat ");
    push_u64(&mut s, pirates);
    s.append(" pirate(s), killed ");
    push_u64(&mut s, kills);
    s.append(" (+");
    push_i64(&mut s, reward);
    s.append("cr)");
    assert(s@ =~= ambush_won(system@, trader, pirates as nat, kills as nat, reward));
    s
}

/// "Ambush near Riedquat: trader #3 destroyed, cargo lost".
pub open spec fn ambush_lost(system: Seq<char>, trader: TraderId) -> Seq<char> {
    "Ambush near "@ + system + ": trader #"@ + text::dec_nat(trader.0 as nat)
        + " destroyed, cargo lost"@
}

pub fn ambush_lost_text(system: &str, trader: TraderId) -> (s: String)
    ensures
        s@ == ambush_lost(system@, trader),
{
    let mut s = String::new();
    s.append("Ambush near ");
    s.append(system);
    s.append(": trader #");
    push_u64(&mut s, trader.0);
    s.append(" destroyed, cargo lost");
    assert(s@ =~= ambush_lost(system@, trader));
    s
}

/// "Trader #3 respawned at Lave".
pub open spec fn respawned(trader: TraderId, system: Seq<char>) -> Seq<char> {
    "Trader #"@ + text::dec_nat(trader.0 as nat) + " respawned at "@ + system
}

pub fn respawned_text(trader: TraderId, system: &str) -> (s: String)
    ensures
        s@ == respawned(trader, system@),
{
    let mut s = String::new();
    s.append("Trader #");
    push_u64(&mut s, trader.0);
    s.append(" respawned at ");
    s.append(system);
    assert(s@ =~= respawned(trader, system@));
    s
}

} // verus!
