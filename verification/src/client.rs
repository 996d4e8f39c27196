//! What an observer's window shows, and which commands its controls issue.
//!
//! Each panel is a value: its rows, and for every button the command that a click
//! queues. Drawing is the host's.

use vstd::prelude::*;
use vstd::string::StringExecFns;

use crate::bits;
use crate::bits::{Bits, is_at_most, is_positive};
use crate::by_id::ById;
use crate::command::Command;
use crate::console;
use crate::console::{futures_held, loans_held, policy_of, side_text, ticks_left};
use crate::contract::{Contract, ContractKind, ContractState};
use crate::encounter::Combatant;
use crate::event::{EventCategory, SimEvent};
use crate::finance::{Future, FutureSide, Loan, Policy};
use crate::flight;
use crate::ids::{
    CommodityId, Money, Owner, PlayerId, Quantity, ShipId, SystemId, Tick, TraderId,
};
use crate::market::MarketGood;
use crate::registry;
use crate::registry::{Registry, ResolvedRecipe};
use crate::search;
use crate::text;
use crate::text::{join, push_right, push_u64};
use crate::trader;
use crate::trader::{Trader, TraderLocation, TraderView};
use crate::world::commands;
use crate::world::observe::EncounterView;
use crate::world::PiracyStats;

verus! {

/// Whether an event category stands for a fight, worth flashing on the map. Respawns
/// and other lifecycle notes do not.
pub fn is_combat(c: EventCategory) -> (b: bool)
    ensures
        b == !(c is System),
{
    match c {
        EventCategory::Combat => true,
        EventCategory::Piracy => true,
        EventCategory::Navy => true,
        EventCategory::System => false,
    }
}

/// Whether `t` can complete `c` right now: it holds the contract, is docked at the
/// destination, and the condition of the contract's kind is met.
pub open spec fn fulfillable(t: TraderView, c: Contract) -> bool {
    &&& c.spec_held_by() == Some(t.id)
    &&& t.location == TraderLocation::Docked(c.destination)
    &&& c.spec_condition_met(
        match c.spec_cargo() {
            Some((commodity, _)) => trader::held(t.cargo, commodity),
            None => 0,
        },
    )
}

/// Whether `trader` can fulfil `contract` right now: what enables the Fulfil button. The
/// world decides again when the command is applied.
pub fn can_fulfill(trader: &Trader, contract: &Contract) -> (b: bool)
    ensures
        b == fulfillable(trader@, *contract),
{
    match contract.held_by() {
        Some(id) => if id != trader.id {
            return false;
        },
        None => {
            return false;
        },
    }
    match trader.location {
        TraderLocation::Docked(s) => if s != contract.destination {
            return false;
        },
        _ => {
            return false;
        },
    }
    let held = match contract.cargo() {
        Some((commodity, _)) => trader.held(commodity),
        None => 0,
    };
    contract.condition_met(held)
}

/// The slot of the first trader that `player` owns.
pub open spec fn ship_of(traders: Seq<TraderView>, player: PlayerId) -> Option<int> {
    search::first(traders, |t: TraderView| t.owner == Owner::Player(player))
}

/// The trader owned by `player`, if any: the ship this client controls. A player learns
/// the id the world assigned by finding the ship here after a spawn.
pub fn find_player_trader(traders: &[Trader], player: PlayerId) -> (r: Option<&Trader>)
    ensures
        match ship_of(trader::trader_views(traders@), player) {
            Some(i) => 0 <= i < traders@.len() && r == Some(&traders@[i]),
            None => r is None,
        },
{
    let ghost views = trader::trader_views(traders@);
    let ghost p = |t: TraderView| t.owner == Owner::Player(player);
    let n = traders.len();
    let mut i: usize = 0;
    while i < n
        invariant
            i <= n,
            n == traders@.len(),
            views == trader::trader_views(traders@),
            p == (|t: TraderView| t.owner == Owner::Player(player)),
            forall|j: int| 0 <= j < i ==> !p(#[trigger] views[j]),
        decreases n - i,
    {
        if traders[i].owner == Owner::Player(player) {
            proof {
                search::lemma_first_is(views, p, i as int);
            }
            return Some(&traders[i]);
        }
        i = i + 1;
    }
    proof {
        search::lemma_first_none(views, p);
    }
    None
}

/// How a stock stands to its anchor.
#[derive(Debug, Clone, Copy, PartialEq, Eq, Structural)]
pub enum StockState {
    /// There is no anchor to compare with.
    Unknown,
    /// At least a quarter over the anchor.
    Surplus,
    /// At least a quarter under it.
    Shortage,
    Normal,
}

impl StockState {
    /// The word a panel shows.
    pub open spec fn word(self) -> Seq<char> {
        match self {
            StockState::Unknown => ""@,
            StockState::Surplus => "surplus"@,
            StockState::Shortage => "shortage"@,
            StockState::Normal => "normal"@,
        }
    }

    /// The word a panel shows.
    pub fn label(&self) -> (s: &'static str)
        ensures
            s@ == self.word(),
    {
        match self {
            StockState::Unknown => "",
            StockState::Surplus => "surplus",
            StockState::Shortage => "shortage",
            StockState::Normal => "normal",
        }
    }
}

/// How `stock` stands to `equilibrium`: a surplus from five quarters of it on, a
/// shortage up to three quarters.
pub open spec fn stock_class(stock: Quantity, equilibrium: Quantity) -> StockState {
    if equilibrium == 0 {
        StockState::Unknown
    } else if 4 * stock >= 5 * equilibrium {
        StockState::Surplus
    } else if 4 * stock <= 3 * equilibrium {
        StockState::Shortage
    } else {
        StockState::Normal
    }
}

/// Classify a stock against its equilibrium anchor.
pub fn stock_state(stock: Quantity, equilibrium: Quantity) -> (s: StockState)
    ensures
        s == stock_class(stock, equilibrium),
{
    let quarters: u64 = 4 * (stock as u64);
    if equilibrium == 0 {
        StockState::Unknown
    } else if quarters >= 5 * (equilibrium as u64) {
        StockState::Surplus
    } else if quarters <= 3 * (equilibrium as u64) {
        StockState::Shortage
    } else {
        StockState::Normal
    }
}

/// Which event categories the log shows.
#[derive(Debug, Clone, Copy, PartialEq, Eq, Structural)]
pub struct Filters {
    pub combat: bool,
    pub piracy: bool,
    pub navy: bool,
    pub system: bool,
}

impl Filters {
    /// Whether an event of `category` passes.
    pub open spec fn passes(self, category: EventCategory) -> bool {
        match category {
            EventCategory::Combat => self.combat,
            EventCategory::Piracy => self.piracy,
            EventCategory::Navy => self.navy,
            EventCategory::System => self.system,
        }
    }

    /// Every category.
    pub fn all() -> (f: Self)
        ensures
            forall|c: EventCategory| #[trigger] f.passes(c),
    {
        Filters { combat: true, piracy: true, navy: true, system: true }
    }

    /// Whether an event of `category` passes the filters.
    pub fn shows(&self, category: EventCategory) -> (b: bool)
        ensures
            b == self.passes(category),
    {
        match category {
            EventCategory::Combat => self.combat,
            EventCategory::Piracy => self.piracy,
            EventCategory::Navy => self.navy,
            EventCategory::System => self.system,
        }
    }
}

/// A line of the event log.
pub open spec fn log_line(e: SimEvent) -> Seq<char> {
    "["@ + text::right(text::dec_nat(e.tick.0 as nat), 5) + "] "@ + e.message@
}

/// The lines of the events among the first `n` that pass `f`, in order, each with its
/// category.
pub open spec fn log_shown(events: Seq<SimEvent>, f: Filters, n: int) -> Seq<
    (EventCategory, Seq<char>),
>
    decreases n,
{
    if n <= 0 {
        Seq::empty()
    } else if f.passes(events[n - 1].category) {
        log_shown(events, f, n - 1).push((events[n - 1].category, log_line(events[n - 1])))
    } else {
        log_shown(events, f, n - 1)
    }
}

/// The lines of the log with their text written out.
pub open spec fn log_texts(rows: Seq<(EventCategory, String)>) -> Seq<(EventCategory, Seq<char>)> {
    Seq::new(rows.len(), |i: int| (rows[i].0, rows[i].1@))
}

/// The lines of the event log that pass the filters.
pub fn log_rows(events: &Vec<SimEvent>, f: Filters) -> (r: Vec<(EventCategory, String)>)
    ensures
        log_texts(r@) == log_shown(events@, f, events@.len() as int),
{
    let mut out: Vec<(EventCategory, String)> = Vec::new();
    let n = events.len();
    let mut i: usize = 0;
    assert(log_texts(out@) =~= log_shown(events@, f, 0));
    while i < n
        invariant
            i <= n,
            n == events@.len(),
            log_texts(out@) == log_shown(events@, f, i as int),
        decreases n - i,
    {
        if f.shows(events[i].category) {
            let mut s = String::new();
            s.append("[");
            push_right(&mut s, text::u64_text(events[i].tick.0).as_str(), 5);
            s.append("] ");
            s.append(events[i].message.as_str());
            assert(s@ =~= log_line(events@[i as int]));
            let ghost before = out@;
            out.push((events[i].category, s));
            assert(log_texts(out@) =~= log_texts(before).push(
                (events@[i as int].category, s@),
            ));
        }
        i = i + 1;
    }
    out
}

/// Whether an event may flash on the map: a fight, at a known place, that the filters
/// let through.
pub open spec fn flashes(e: SimEvent, f: Filters) -> bool {
    e.system is Some && !(e.category is System) && f.passes(e.category)
}

/// Where an event may flash on the map.
pub fn flash_site(e: &SimEvent, f: Filters) -> (r: Option<SystemId>)
    ensures
        r == (if flashes(*e, f) {
            e.system
        } else {
            None
        }),
{
    if is_combat(e.category) && f.shows(e.category) {
        e.system
    } else {
        None
    }
}

/// The combatants still in action among the first `n`.
pub open spec fn afloat(ships: Seq<Combatant>, n: int) -> int
    decreases n,
{
    if n <= 0 {
        0
    } else {
        afloat(ships, n - 1) + (if ships[n - 1].alive {
            1int
        } else {
            0
        })
    }
}

/// How many combatants of a running battle are still in action.
pub fn alive_count(v: &EncounterView) -> (k: usize)
    ensures
        k == afloat(v.combatants@, v.combatants@.len() as int),
{
    let n = v.combatants.len();
    let mut k: usize = 0;
    let mut i: usize = 0;
    while i < n
        invariant
            k <= i <= n,
            n == v.combatants@.len(),
            k == afloat(v.combatants@, i as int),
        decreases n - i,
    {
        if v.combatants[i].alive {
            k = k + 1;
        }
        i = i + 1;
    }
    k
}

/// The routes of the systems before `n`, each pair once, from the lower id on.
pub open spec fn routes(reg: Registry, n: int) -> Seq<(SystemId, SystemId)>
    decreases n,
{
    if n <= 0 {
        Seq::empty()
    } else {
        let s = reg.spec_systems()[n - 1];
        routes(reg, n - 1) + routes_from(s.id, s.connections@, s.connections@.len() as int)
    }
}

/// The routes to higher ids among the first `n` links of `from`.
pub open spec fn routes_from(from: SystemId, links: Seq<SystemId>, n: int) -> Seq<
    (SystemId, SystemId),
>
    decreases n,
{
    if n <= 0 {
        Seq::empty()
    } else if links[n - 1].0 > from.0 {
        routes_from(from, links, n - 1).push((from, links[n - 1]))
    } else {
        routes_from(from, links, n - 1)
    }
}

/// The jump routes the map draws.
pub fn map_routes(reg: &Registry) -> (r: Vec<(SystemId, SystemId)>)
    ensures
        r@ == routes(*reg, reg.spec_systems().len() as int),
{
    let systems = reg.systems();
    let n = systems.len();
    let mut out: Vec<(SystemId, SystemId)> = Vec::new();
    let mut i: usize = 0;
    while i < n
        invariant
            i <= n,
            n == systems@.len(),
            systems@ == reg.spec_systems(),
            out@ == routes(*reg, i as int),
        decreases n - i,
    {
        let from = systems[i].id;
        let links = &systems[i].connections;
        let m = links.len();
        let ghost before = out@;
        let mut k: usize = 0;
        assert(out@ =~= before + routes_from(from, links@, 0));
        while k < m
            invariant
                k <= m,
                m == links@.len(),
                out@ == before + routes_from(from, links@, k as int),
            decreases m - k,
        {
            if links[k].0 > from.0 {
                out.push((from, links[k]));
            }
            assert(out@ =~= before + routes_from(from, links@, k + 1));
            k = k + 1;
        }
        i = i + 1;
    }
    out
}

/// The tally of destroyed pirates a panel shows: those that traders destroyed and those
/// that the navy did.
pub fn pirates_lost(p: &PiracyStats) -> (n: u128)
    ensures
        n == p.pirates_destroyed + p.pirates_suppressed,
{
    p.pirates_destroyed as u128 + p.pirates_suppressed as u128
}

/// The open contracts among the first `n`.
pub open spec fn open_among(board: Seq<Contract>, n: int) -> int
    decreases n,
{
    if n <= 0 {
        0
    } else {
        open_among(board, n - 1) + (if board[n - 1].spec_is_open() {
            1int
        } else {
            0
        })
    }
}

/// How many contracts of the board are open.
pub fn open_count(board: &Vec<Contract>) -> (k: usize)
    ensures
        k == open_among(board@, board@.len() as int),
{
    let n = board.len();
    let mut k: usize = 0;
    let mut i: usize = 0;
    while i < n
        invariant
            k <= i <= n,
            n == board@.len(),
            k == open_among(board@, i as int),
        decreases n - i,
    {
        if board[i].is_open() {
            k = k + 1;
        }
        i = i + 1;
    }
    k
}

/// The first `n` amounts of a recipe side, as "2 core:ore".
pub open spec fn amount_items(reg: Registry, amounts: Seq<(CommodityId, Quantity)>, n: int) -> Seq<
    Seq<char>,
>
    decreases n,
{
    if n <= 0 {
        Seq::empty()
    } else {
        amount_items(reg, amounts, n - 1).push(
            text::dec_nat(amounts[n - 1].1 as nat) + " "@ + reg.spec_commodity_name(
                amounts[n - 1].0,
            ),
        )
    }
}

/// A recipe side, as "2 core:ore + 1 core:food".
pub open spec fn amounts_shown(reg: Registry, amounts: Seq<(CommodityId, Quantity)>) -> Seq<char> {
    text::joined(amount_items(reg, amounts, amounts.len() as int), " + "@)
}

/// Render a recipe side (inputs or outputs) as "`qty name + qty name`".
pub fn fmt_amounts(reg: &Registry, amounts: &Vec<(CommodityId, Quantity)>) -> (s: String)
    ensures
        s@ == amounts_shown(*reg, amounts@),
{
    let mut items: Vec<String> = Vec::new();
    let n = amounts.len();
    let mut i: usize = 0;
    assert(text::texts(items@) =~= amount_items(*reg, amounts@, 0));
    while i < n
        invariant
            i <= n,
            n == amounts@.len(),
            text::texts(items@) == amount_items(*reg, amounts@, i as int),
        decreases n - i,
    {
        let mut item = String::new();
        push_u64(&mut item, amounts[i].1 as u64);
        item.append(" ");
        item.append(reg.commodity_name(amounts[i].0));
        assert(item@ =~= text::dec_nat(amounts@[i as int].1 as nat) + " "@ + reg.spec_commodity_name(
                amounts@[i as int].0,
            ));
        let ghost before = items@;
        items.push(item);
        assert(text::texts(items@) =~= text::texts(before).push(item@));
        i = i + 1;
    }
    join(&items, " + ")
}

/// A production chain, as "2 core:ore → 1 core:alloys"; a star where it needs nothing.
pub open spec fn chain(reg: Registry, r: ResolvedRecipe) -> Seq<char> {
    let inputs = amounts_shown(reg, r.inputs@);
    (if inputs.len() == 0 {
        "\u{2217}"@
    } else {
        inputs
    }) + " \u{2192} "@ + amounts_shown(reg, r.outputs@)
}

/// Render a production chain.
pub fn chain_text(reg: &Registry, r: &ResolvedRecipe) -> (s: String)
    ensures
        s@ == chain(*reg, *r),
{
    let inputs = fmt_amounts(reg, &r.inputs);
    let mut s = String::new();
    if inputs.as_str().unicode_len() == 0 {
        s.append("\u{2217}");
    } else {
        s.append(inputs.as_str());
    }
    s.append(" \u{2192} ");
    s.append(fmt_amounts(reg, &r.outputs).as_str());
    assert(s@ =~= chain(*reg, *r));
    s
}

/// What a contract asks for, its destination aside, in a board's column.
pub open spec fn task(reg: Registry, c: Contract) -> Seq<char> {
    match c.kind {
        ContractKind::Delivery { commodity, quantity } => text::dec_nat(quantity as nat) + " "@
            + reg.spec_commodity_name(commodity),
        ContractKind::Courier => "courier parcel"@,
        ContractKind::Bounty { target, progress } => "bounty "@ + text::dec_nat(progress as nat)
            + "/"@ + text::dec_nat(target as nat),
    }
}

/// A one-line description of what a contract asks for, for the board's task column.
pub fn contract_task(reg: &Registry, c: &Contract) -> (s: String)
    ensures
        s@ == task(*reg, *c),
{
    let mut s = String::new();
    match c.kind {
        ContractKind::Delivery { commodity, quantity } => {
            push_u64(&mut s, quantity as u64);
            s.append(" ");
            s.append(reg.commodity_name(commodity));
        },
        ContractKind::Courier => {
            s.append("courier parcel");
        },
        ContractKind::Bounty { target, progress } => {
            s.append("bounty ");
            push_u64(&mut s, progress as u64);
            s.append("/");
            push_u64(&mut s, target as u64);
        },
    }
    assert(s@ =~= task(*reg, *c));
    s
}

/// Where a contract stands for the player of this client.
#[derive(Debug, Clone, Copy, PartialEq, Eq, Structural)]
pub enum Standing {
    Open,
    Yours,
    Taken,
}

/// A row of the contract board.
pub struct ContractRow {
    pub task: String,
    pub to: String,
    pub reward: Money,
    /// Ticks until the deadline.
    pub left: u64,
    pub standing: Standing,
    /// What the row's button queues, where it has one.
    pub offer: Option<Command>,
}

/// Where a contract stands: it is the player's own where the player holds it with the
/// ship that this client controls.
pub open spec fn standing(c: Contract, player: PlayerId, ship: Option<TraderView>) -> Standing {
    match c.spec_holder() {
        None => Standing::Open,
        Some((p, t)) => if p == player && ship is Some && ship->Some_0.id == t {
            Standing::Yours
        } else {
            Standing::Taken
        },
    }
}

/// What the button of a contract queues: to accept an open one, where the player has a
/// ship; to fulfil the player's own, once that is possible.
pub open spec fn contract_offer(c: Contract, player: PlayerId, ship: Option<TraderView>) -> Option<
    Command,
> {
    match standing(c, player, ship) {
        Standing::Open => if ship is Some {
            Some(
                Command::AcceptContract { player, trader: ship->Some_0.id, contract: c.id },
            )
        } else {
            None
        },
        Standing::Yours => if fulfillable(ship->Some_0, c) {
            Some(
                Command::FulfillContract { player, trader: ship->Some_0.id, contract: c.id },
            )
        } else {
            None
        },
        Standing::Taken => None,
    }
}

/// A ship, if there is one, as a mathematical value.
pub open spec fn ship_view(ship: Option<&Trader>) -> Option<TraderView> {
    match ship {
        Some(t) => Some(t@),
        None => None,
    }
}

/// Whether `row` shows the contract `c`.
pub open spec fn row_shows(
    row: ContractRow,
    reg: Registry,
    c: Contract,
    player: PlayerId,
    ship: Option<TraderView>,
    now: Tick,
) -> bool {
    &&& row.task@ == task(reg, c)
    &&& row.to@ == reg.spec_system_name(c.destination)
    &&& row.reward == c.reward
    &&& row.left == console::left_until(c.deadline, now)
    &&& row.standing == standing(c, player, ship)
    &&& row.offer == contract_offer(c, player, ship)
}

/// One row of the contract board.
fn contract_row(reg: &Registry, c: &Contract, player: PlayerId, ship: Option<&Trader>, now: Tick) -> (r:
    ContractRow)
    ensures
        row_shows(r, *reg, *c, player, ship_view(ship), now),
{
    let (standing, offer) = match c.holder() {
        None => (
            Standing::Open,
            match ship {
                Some(t) => Some(
                    Command::AcceptContract { player, trader: t.id, contract: c.id },
                ),
                None => None,
            },
        ),
        Some((p, id)) => match ship {
            Some(t) => if p == player && t.id == id {
                (
                    Standing::Yours,
                    if can_fulfill(t, c) {
                        Some(Command::FulfillContract { player, trader: id, contract: c.id })
                    } else {
                        None
                    },
                )
            } else {
                (Standing::Taken, None)
            },
            None => (Standing::Taken, None),
        },
    };
    ContractRow {
        task: contract_task(reg, c),
        to: reg.system_name(c.destination).to_owned(),
        reward: c.reward,
        left: ticks_left(c.deadline, now),
        standing,
        offer,
    }
}

/// The contract board: what to do, where, the reward and the ticks left, with the button
/// each row offers to `player`, who controls `ship`.
pub fn contract_rows(
    reg: &Registry,
    board: &Vec<Contract>,
    player: PlayerId,
    ship: Option<&Trader>,
    now: Tick,
) -> (r: Vec<ContractRow>)
    ensures
        r@.len() == board@.len(),
        forall|i: int|
            0 <= i < r@.len() ==> row_shows(
                #[trigger] r@[i],
                *reg,
                board@[i],
                player,
                ship_view(ship),
                now,
            ),
{
    let mut rows: Vec<ContractRow> = Vec::new();
    let n = board.len();
    let mut i: usize = 0;
    while i < n
        invariant
            i <= n,
            n == board@.len(),
            rows@.len() == i,
            forall|k: int|
                0 <= k < i ==> row_shows(
                    #[trigger] rows@[k],
                    *reg,
                    board@[k],
                    player,
                    ship_view(ship),
                    now,
                ),
        decreases n - i,
    {
        rows.push(contract_row(reg, &board[i], player, ship, now));
        i = i + 1;
    }
    rows
}

/// What a trader can pay back of a loan: the balance, or as much as the capital covers.
pub open spec fn payable(capital: Money, outstanding: Money) -> Money {
    if capital < outstanding {
        capital
    } else {
        outstanding
    }
}

/// A row of the loan list.
pub struct LoanRow {
    pub loan: Loan,
    /// Ticks until the loan is due.
    pub left: u64,
    /// What the row's button queues: to repay as much as possible.
    pub offer: Option<Command>,
}

/// Whether `row` shows the loan `l` of the trader `t`.
pub open spec fn loan_shows(row: LoanRow, l: Loan, t: TraderView, player: PlayerId, now: Tick) -> bool {
    &&& row.loan == l
    &&& row.left == console::left_until(l.due, now)
    &&& row.offer == (if payable(t.capital, l.outstanding) > 0 {
        Some(
            Command::RepayLoan {
                player,
                trader: t.id,
                loan: l.id,
                amount: payable(t.capital, l.outstanding),
            },
        )
    } else {
        None
    })
}

/// What the insurance section shows.
#[derive(Debug, Clone, Copy, PartialEq, Eq, Structural)]
pub enum Cover {
    /// Insured for this payout, lapsing after so many ticks.
    Insured { payout: Money, left: u64 },
    /// Not insured; docked, the button queues this command.
    Bare(Option<Command>),
}

/// What the insurance section shows of the trader `t`.
pub open spec fn cover(policies: Seq<Policy>, t: TraderView, player: PlayerId, now: Tick) -> Cover {
    match commands::policy_slot(policies, t.id) {
        Some(i) => Cover::Insured {
            payout: policies[i].payout,
            left: console::left_until(policies[i].expiry, now),
        },
        None => Cover::Bare(
            if t.location is Docked {
                Some(Command::BuyInsurance { player, trader: t.id })
            } else {
                None
            },
        ),
    }
}

/// A row of the futures list.
pub struct FutureRow {
    pub future: Future,
    pub side: String,
    pub good: String,
    /// Ticks until the position settles.
    pub left: u64,
}

/// Whether `row` shows the position `f`.
pub open spec fn future_shows(row: FutureRow, reg: Registry, f: Future, now: Tick) -> bool {
    &&& row.future == f
    &&& row.side@ == console::side_word(f.side)
    &&& row.good@ == reg.spec_commodity_name(f.commodity)
    &&& row.left == console::left_until(f.maturity, now)
}

/// The financial services open to a player's ship.
pub struct FinancePanel {
    pub capital: Money,
    /// Whether the ship is at a station, where new positions can be opened.
    pub docked: bool,
    pub loans: Vec<LoanRow>,
    pub cover: Cover,
    pub futures: Vec<FutureRow>,
}

impl FinancePanel {
    /// What the Borrow button queues.
    pub fn borrow_offer(&self, player: PlayerId, id: TraderId, principal: Money) -> (r: Option<Command>)
        ensures
            r == (if self.docked {
                Some(Command::TakeLoan { player, trader: id, principal })
            } else {
                None
            }),
    {
        if self.docked {
            Some(Command::TakeLoan { player, trader: id, principal })
        } else {
            None
        }
    }

    /// What the Long and Short buttons queue.
    pub fn future_offer(
        &self,
        player: PlayerId,
        id: TraderId,
        commodity: CommodityId,
        qty: Quantity,
        side: FutureSide,
    ) -> (r: Option<Command>)
        ensures
            r == (if self.docked {
                Some(Command::OpenFuture { player, trader: id, commodity, qty, side })
            } else {
                None
            }),
    {
        if self.docked {
            Some(Command::OpenFuture { player, trader: id, commodity, qty, side })
        } else {
            None
        }
    }
}

/// Whether `panel` shows the position of `t`: its own loans, policy and futures.
pub open spec fn finance_shows(
    panel: FinancePanel,
    reg: Registry,
    t: TraderView,
    player: PlayerId,
    loans: Seq<Loan>,
    policies: Seq<Policy>,
    futures: Seq<Future>,
    now: Tick,
) -> bool {
    let mine = console::loans_of(loans, t.id);
    let open = console::futures_of(futures, t.id);
    &&& panel.capital == t.capital
    &&& panel.docked == (t.location is Docked)
    &&& panel.loans@.len() == mine.len()
    &&& forall|i: int|
        0 <= i < mine.len() ==> loan_shows(#[trigger] panel.loans@[i], mine[i], t, player, now)
    &&& panel.cover == cover(policies, t, player, now)
    &&& panel.futures@.len() == open.len()
    &&& forall|i: int|
        0 <= i < open.len() ==> future_shows(#[trigger] panel.futures@[i], reg, open[i], now)
}

/// The rows of a trader's loans.
fn loan_rows(t: &Trader, player: PlayerId, loans: &Vec<Loan>, now: Tick) -> (rows: Vec<LoanRow>)
    ensures
        rows@.len() == console::loans_of(loans@, t.id).len(),
        forall|i: int|
            0 <= i < rows@.len() ==> loan_shows(
                #[trigger] rows@[i],
                console::loans_of(loans@, t.id)[i],
                t@,
                player,
                now,
            ),
{
    let mine = loans_held(loans, t.id);
    let mut rows: Vec<LoanRow> = Vec::new();
    let mut i: usize = 0;
    while i < mine.len()
        invariant
            i <= mine@.len(),
            rows@.len() == i,
            forall|k: int|
                0 <= k < i ==> loan_shows(#[trigger] rows@[k], mine@[k], t@, player, now),
        decreases mine@.len() - i,
    {
        let l = mine[i];
        let pay = if t.capital < l.outstanding {
            t.capital
        } else {
            l.outstanding
        };
        let offer = if pay > 0 {
            Some(Command::RepayLoan { player, trader: t.id, loan: l.id, amount: pay })
        } else {
            None
        };
        rows.push(LoanRow { loan: l, left: ticks_left(l.due, now), offer });
        i = i + 1;
    }
    rows
}

/// The rows of a trader's futures.
fn future_rows(reg: &Registry, id: TraderId, futures: &Vec<Future>, now: Tick) -> (rows: Vec<FutureRow>)
    ensures
        rows@.len() == console::futures_of(futures@, id).len(),
        forall|i: int|
            0 <= i < rows@.len() ==> future_shows(
                #[trigger] rows@[i],
                *reg,
                console::futures_of(futures@, id)[i],
                now,
            ),
{
    let mine = futures_held(futures, id);
    let mut rows: Vec<FutureRow> = Vec::new();
    let mut i: usize = 0;
    while i < mine.len()
        invariant
            i <= mine@.len(),
            rows@.len() == i,
            forall|k: int| 0 <= k < i ==> future_shows(#[trigger] rows@[k], *reg, mine@[k], now),
        decreases mine@.len() - i,
    {
        let f = mine[i];
        rows.push(
            FutureRow {
                future: f,
                side: side_text(f.side).to_owned(),
                good: reg.commodity_name(f.commodity).to_owned(),
                left: ticks_left(f.maturity, now),
            },
        );
        i = i + 1;
    }
    rows
}

/// The financial services open to the ship `t` of `player`.
pub fn finance_panel(
    reg: &Registry,
    t: &Trader,
    player: PlayerId,
    loans: &Vec<Loan>,
    policies: &Vec<Policy>,
    futures: &Vec<Future>,
    now: Tick,
) -> (panel: FinancePanel)
    ensures
        finance_shows(panel, *reg, t@, player, loans@, policies@, futures@, now),
{
    let docked = match t.location {
        TraderLocation::Docked(_) => true,
        _ => false,
    };
    let cover = match policy_of(policies, t.id) {
        Some(i) => Cover::Insured {
            payout: policies[i].payout,
            left: ticks_left(policies[i].expiry, now),
        },
        None => Cover::Bare(
            if docked {
                Some(Command::BuyInsurance { player, trader: t.id })
            } else {
                None
            },
        ),
    };
    FinancePanel {
        capital: t.capital,
        docked,
        loans: loan_rows(t, player, loans, now),
        cover,
        futures: future_rows(reg, t.id, futures, now),
    }
}

/// A good on the market where the player's ship is docked.
#[derive(Debug, Clone, Copy, PartialEq, Eq, Structural)]
pub struct GoodRow {
    pub commodity: CommodityId,
    pub price: Money,
    pub stock: Quantity,
    pub equilibrium: Quantity,
    /// Units in the ship's hold.
    pub held: Quantity,
}

/// The goods with an id below `n` on a market, by id.
pub open spec fn goods_shown(
    goods: Map<CommodityId, MarketGood>,
    cargo: Map<CommodityId, Quantity>,
    n: int,
) -> Seq<GoodRow>
    decreases n,
{
    if n <= 0 {
        Seq::empty()
    } else {
        let c = CommodityId((n - 1) as u32);
        if goods.contains_key(c) {
            goods_shown(goods, cargo, n - 1).push(
                GoodRow {
                    commodity: c,
                    price: goods[c].price,
                    stock: goods[c].stock,
                    equilibrium: goods[c].equilibrium,
                    held: trader::held(cargo, c),
                },
            )
        } else {
            goods_shown(goods, cargo, n - 1)
        }
    }
}

/// The goods of a market, with what `cargo` holds of each.
pub fn good_rows(reg: &Registry, goods: &ById<MarketGood>, cargo: &ById<Quantity>) -> (r: Vec<GoodRow>)
    requires
        reg.wf(),
    ensures
        r@ == goods_shown(goods@, cargo@, reg.spec_commodities().len() as int),
{
    let n = reg.commodity_count();
    let mut rows: Vec<GoodRow> = Vec::new();
    let mut k: usize = 0;
    while k < n
        invariant
            k <= n,
            n <= u32::MAX,
            rows@ == goods_shown(goods@, cargo@, k as int),
        decreases n - k,
    {
        let c = CommodityId(k as u32);
        match goods.get(&c) {
            Some(g) => {
                let held = match cargo.get(&c) {
                    Some(q) => *q,
                    None => 0,
                };
                rows.push(
                    GoodRow {
                        commodity: c,
                        price: g.price,
                        stock: g.stock,
                        equilibrium: g.equilibrium,
                        held,
                    },
                );
            },
            None => {},
        }
        k = k + 1;
    }
    rows
}

impl GoodRow {
    /// What the Buy button queues.
    pub fn buy_offer(&self, player: PlayerId, id: TraderId, qty: Quantity) -> (r: Command)
        ensures
            r == (Command::Buy { player, trader: id, commodity: self.commodity, qty }),
    {
        Command::Buy { player, trader: id, commodity: self.commodity, qty }
    }

    /// What the Sell button queues: no more than the hold has, and nothing where it has
    /// none.
    pub fn sell_offer(&self, player: PlayerId, id: TraderId, qty: Quantity) -> (r: Option<Command>)
        ensures
            r == (if self.held == 0 {
                None
            } else {
                Some(
                    Command::Sell {
                        player,
                        trader: id,
                        commodity: self.commodity,
                        qty: if qty < self.held {
                            qty
                        } else {
                            self.held
                        },
                    },
                )
            }),
    {
        if self.held == 0 {
            return None;
        }
        let qty = if qty < self.held {
            qty
        } else {
            self.held
        };
        Some(Command::Sell { player, trader: id, commodity: self.commodity, qty })
    }
}

/// The units in a hold of the goods with an id below `n`.
pub open spec fn units(cargo: Map<CommodityId, Quantity>, n: int) -> int
    decreases n,
{
    if n <= 0 {
        0
    } else {
        units(cargo, n - 1) + trader::held(cargo, CommodityId((n - 1) as u32))
    }
}

/// The units of cargo aboard.
pub fn cargo_units(reg: &Registry, cargo: &ById<Quantity>) -> (u: u64)
    requires
        reg.wf(),
    ensures
        u == units(cargo@, reg.spec_commodities().len() as int),
{
    let n = reg.commodity_count();
    let mut u: u64 = 0;
    let mut k: usize = 0;
    while k < n
        invariant
            k <= n,
            n <= u32::MAX,
            u == units(cargo@, k as int),
            u <= k * u32::MAX,
        decreases n - k,
    {
        assert(k * u32::MAX + u32::MAX == (k + 1) * u32::MAX) by (nonlinear_arith);
        assert((k + 1) * u32::MAX <= u64::MAX) by (nonlinear_arith)
            requires
                k < u32::MAX,
        ;
        let held: Quantity = match cargo.get(&CommodityId(k as u32)) {
            Some(q) => *q,
            None => 0,
        };
        u = u + held as u64;
        k = k + 1;
    }
    u
}

/// Where the player's ship is, as a line of the pilot panel.
pub open spec fn whereabouts(reg: Registry, loc: TraderLocation) -> Seq<char> {
    match loc {
        TraderLocation::Docked(sys) => "Docked at "@ + reg.spec_system_name(sys),
        TraderLocation::InTransit { origin, dest, departure, arrival } => "In transit to "@
            + reg.spec_system_name(dest) + " (arrives tick "@ + text::dec_nat(
            arrival.0 as nat,
        ) + ")"@,
        TraderLocation::Destroyed { respawn } => "Destroyed; respawns at tick "@ + text::dec_nat(
            respawn.0 as nat,
        ),
    }
}

/// Where the player's ship is.
pub fn whereabouts_text(reg: &Registry, loc: &TraderLocation) -> (s: String)
    ensures
        s@ == whereabouts(*reg, *loc),
{
    let mut s = String::new();
    match loc {
        TraderLocation::Docked(sys) => {
            s.append("Docked at ");
            s.append(reg.system_name(*sys));
        },
        TraderLocation::InTransit { dest, arrival, .. } => {
            s.append("In transit to ");
            s.append(reg.system_name(*dest));
            s.append(" (arrives tick ");
            push_u64(&mut s, arrival.0);
            s.append(")");
        },
        TraderLocation::Destroyed { respawn } => {
            s.append("Destroyed; respawns at tick ");
            push_u64(&mut s, respawn.0);
        },
    }
    assert(s@ =~= whereabouts(*reg, *loc));
    s
}

/// The jumps the pilot panel offers to a ship docked at `sys`, one per link.
pub fn jump_offers(reg: &Registry, player: PlayerId, id: TraderId, sys: SystemId) -> (r: Vec<Command>)
    requires
        sys.0 < reg.spec_systems().len(),
    ensures
        r@.len() == reg.spec_systems()[sys.0 as int].connections@.len(),
        forall|i: int|
            0 <= i < r@.len() ==> #[trigger] r@[i] == (Command::Jump {
                player,
                trader: id,
                dest: reg.spec_systems()[sys.0 as int].connections@[i],
            }),
{
    let links = &reg.system(sys).connections;
    let mut out: Vec<Command> = Vec::new();
    let mut i: usize = 0;
    while i < links.len()
        invariant
            i <= links@.len(),
            out@.len() == i,
            forall|k: int|
                0 <= k < i ==> #[trigger] out@[k] == (Command::Jump {
                    player,
                    trader: id,
                    dest: links@[k],
                }),
        decreases links@.len() - i,
    {
        out.push(Command::Jump { player, trader: id, dest: links[i] });
        i = i + 1;
    }
    out
}

/// The status line of a window that watches a server.
pub open spec fn status(connected: bool, addr: Seq<char>) -> Seq<char> {
    (if connected {
        "connected to "@
    } else {
        "disconnected from "@
    }) + addr
}

/// The status line of a window that watches a server.
pub fn status_text(connected: bool, addr: &str) -> (s: String)
    ensures
        s@ == status(connected, addr@),
{
    let mut s = String::new();
    s.append(
        if connected {
            "connected to "
        } else {
            "disconnected from "
        },
    );
    s.append(addr);
    assert(s@ =~= status(connected, addr@));
    s
}

/// The ship a window launches unless told otherwise: the classic Cobra, or the first
/// ship where the content has none.
pub fn launch_ship(reg: &Registry) -> (s: ShipId)
    requires
        reg.wf(),
    ensures
        s == (match registry::handle_of(reg.spec_ship_ids(), "core:cobra_mk3"@) {
            Some(h) => ShipId(h),
            None => ShipId(0),
        }),
{
    match reg.ship_id("core:cobra_mk3") {
        Some(s) => s,
        None => ShipId(0),
    }
}

/// The most ticks a local simulation runs in one frame.
pub const MAX_TICKS_PER_FRAME: u32 = 400;

/// Whether another tick is due in this frame: the simulation runs, a whole tick of time
/// has gathered, and the frame has not had its share of ticks.
pub fn tick_due(paused: bool, gathered: Bits, ticks: u32) -> (b: bool)
    ensures
        b == (!paused && bits::at_most(flight::ONE, gathered) && ticks < MAX_TICKS_PER_FRAME),
{
    !paused && is_at_most(flight::ONE, gathered) && ticks < MAX_TICKS_PER_FRAME
}

/// What a look at a server's clock shows.
#[derive(Debug, Clone, Copy, PartialEq, Eq, Structural)]
pub enum Beat {
    /// The tick that was seen before.
    Still,
    /// A tick not seen before; the wait for it says nothing of the server's pace.
    Fresh,
    /// A tick not seen before, and the wait since the last is one of the server's periods.
    Measured,
}

/// Look at a server's clock, which shows `tick` after a wait of `waited` since it last
/// changed; `last` is the tick seen before, and becomes this one.
pub fn watch_tick(last: &mut Option<u64>, tick: u64, waited: Bits) -> (b: Beat)
    ensures
        *final(last) == Some(tick),
        b == (match *old(last) {
            None => Beat::Fresh,
            Some(t) => if t == tick {
                Beat::Still
            } else if bits::positive(waited) {
                Beat::Measured
            } else {
                Beat::Fresh
            },
        }),
{
    let b = match *last {
        None => Beat::Fresh,
        Some(t) => if t == tick {
            Beat::Still
        } else if is_positive(waited) {
            Beat::Measured
        } else {
            Beat::Fresh
        },
    };
    *last = Some(tick);
    b
}

/// How near a click must be to a system's node to select it: 12 pixels.
pub const NODE_PICK_RADIUS: Bits = 0x4028_0000_0000_0000;

/// Whether a node at this distance from a click is under it.
pub open spec fn under_click() -> spec_fn(Bits) -> bool {
    |d: Bits| bits::at_most(d, NODE_PICK_RADIUS)
}

/// The system whose node is under a click, by the distances from the click to the nodes
/// of the systems in their order; the first of several.
pub fn system_at(reg: &Registry, distances: &Vec<Bits>) -> (r: Option<SystemId>)
    requires
        distances@.len() == reg.spec_systems().len(),
    ensures
        r == (match search::first(distances@, under_click()) {
            Some(i) => Some(reg.spec_systems()[i].id),
            None => None,
        }),
{
    let ghost p = under_click();
    let mut i: usize = 0;
    while i < distances.len()
        invariant
            i <= distances@.len(),
            distances@.len() == reg.spec_systems().len(),
            p == under_click(),
            forall|j: int| 0 <= j < i ==> !p(#[trigger] distances@[j]),
        decreases distances@.len() - i,
    {
        if is_at_most(distances[i], NODE_PICK_RADIUS) {
            proof {
                search::lemma_first_is(distances@, p, i as int);
            }
            return Some(reg.systems()[i].id);
        }
        i = i + 1;
    }
    proof {
        search::lemma_first_none(distances@, p);
    }
    None
}

/// What a trader can fulfil: a contract that it holds, at the contract's destination; a
/// delivery with the goods aboard, a bounty with its kills made, a courier's job as it is.
pub proof fn lemma_what_can_be_fulfilled(t: TraderView, c: Contract)
    ensures
        fulfillable(t, c) <==> {
            &&& c.state is Accepted && c.state->trader == t.id
            &&& t.location == TraderLocation::Docked(c.destination)
            &&& match c.kind {
                ContractKind::Delivery { commodity, quantity } => quantity == 0 || (
                t.cargo.dom().contains(commodity) && t.cargo[commodity] >= quantity),
                ContractKind::Courier => true,
                ContractKind::Bounty { target, progress } => progress >= target,
            }
        },
{
}

/// A stock is compared with its anchor by quarters: it is normal strictly between three
/// and five of them.
pub proof fn lemma_stock_by_quarters(stock: Quantity, equilibrium: Quantity)
    ensures
        stock_class(stock, equilibrium) is Unknown <==> equilibrium == 0,
        equilibrium > 0 ==> {
            &&& stock_class(stock, equilibrium) is Surplus <==> 4 * (stock - equilibrium)
                >= equilibrium
            &&& stock_class(stock, equilibrium) is Shortage <==> 4 * (equilibrium - stock)
                >= equilibrium
            &&& stock == equilibrium ==> stock_class(stock, equilibrium) is Normal
        },
{
}

/// Each category of events has its own switch.
pub proof fn lemma_filters_by_category(f: Filters)
    ensures
        f.passes(EventCategory::Combat) == f.combat,
        f.passes(EventCategory::Piracy) == f.piracy,
        f.passes(EventCategory::Navy) == f.navy,
        f.passes(EventCategory::System) == f.system,
{
}

/// The log shows the events that pass the filters: as many lines as there are such
/// events, and one for each of them, under its category.
pub proof fn lemma_log_shows_what_passes(events: Seq<SimEvent>, f: Filters, n: int)
    requires
        0 <= n <= events.len(),
    ensures
        log_shown(events, f, n).len() == events.take(n).filter(
            |e: SimEvent| f.passes(e.category),
        ).len(),
        forall|i: int|
            0 <= i < n && f.passes((#[trigger] events[i]).category) ==> log_shown(
                events,
                f,
                n,
            ).contains((events[i].category, log_line(events[i]))),
        forall|k: int|
            0 <= k < log_shown(events, f, n).len() ==> f.passes(
                (#[trigger] log_shown(events, f, n)[k]).0,
            ),
    decreases n,
{
    reveal(Seq::filter);
    if n > 0 {
        lemma_log_shows_what_passes(events, f, n - 1);
        let before = log_shown(events, f, n - 1);
        let after = log_shown(events, f, n);
        assert(events.take(n).drop_last() =~= events.take(n - 1));
        assert(events.take(n).last() == events[n - 1]);
        assert forall|i: int| 0 <= i < n && f.passes((#[trigger] events[i]).category) implies
            after.contains((events[i].category, log_line(events[i]))) by {
            let row = (events[i].category, log_line(events[i]));
            if i < n - 1 {
                assert(before.contains(row));
                assert(after[before.index_of(row)] == row);
            } else {
                assert(after[after.len() - 1] == row);
            }
        }
        assert forall|k: int| 0 <= k < after.len() implies f.passes(
            (#[trigger] after[k]).0,
        ) by {
            if k < before.len() {
                assert(after[k] == before[k]);
            }
        }
    }
}

/// An event flashes just where it is a fight at a known place and its category is shown.
pub proof fn lemma_what_flashes(e: SimEvent, f: Filters)
    ensures
        flashes(e, f) ==> e.system is Some && e.category != EventCategory::System,
        e.system is Some ==> match e.category {
            EventCategory::Combat => flashes(e, f) == f.combat,
            EventCategory::Piracy => flashes(e, f) == f.piracy,
            EventCategory::Navy => flashes(e, f) == f.navy,
            EventCategory::System => !flashes(e, f),
        },
{
}

/// The ships in action are the live ones, one by one.
pub proof fn lemma_afloat_are_the_living(ships: Seq<Combatant>, n: int)
    requires
        0 <= n <= ships.len(),
    ensures
        afloat(ships, n) == ships.take(n).filter(|c: Combatant| c.alive).len(),
        (forall|i: int| 0 <= i < n ==> (#[trigger] ships[i]).alive) ==> afloat(ships, n) == n,
        (forall|i: int| 0 <= i < n ==> !(#[trigger] ships[i]).alive) ==> afloat(ships, n) == 0,
    decreases n,
{
    reveal(Seq::filter);
    if n > 0 {
        lemma_afloat_are_the_living(ships, n - 1);
        assert(ships.take(n).drop_last() =~= ships.take(n - 1));
        assert(ships.take(n).last() == ships[n - 1]);
    }
}

/// The open contracts are those that nobody has accepted, one by one.
pub proof fn lemma_open_are_counted(board: Seq<Contract>, n: int)
    requires
        0 <= n <= board.len(),
    ensures
        open_among(board, n) == board.take(n).filter(
            |c: Contract| c.state == ContractState::Open,
        ).len(),
    decreases n,
{
    reveal(Seq::filter);
    if n > 0 {
        lemma_open_are_counted(board, n - 1);
        assert(board.take(n).drop_last() =~= board.take(n - 1));
        assert(board.take(n).last() == board[n - 1]);
    }
}

/// Where a contract stands. It is open just while nobody holds it, and the player's own
/// just while the player's ship does; a button is offered for it only to accept it with
/// the ship there is, or to fulfil it where that can be done.
pub proof fn lemma_what_the_board_offers(c: Contract, player: PlayerId, ship: Option<TraderView>)
    ensures
        standing(c, player, ship) is Open <==> c.state == ContractState::Open,
        standing(c, player, ship) is Yours <==> ship is Some && c.state == (
        ContractState::Accepted { player, trader: ship->Some_0.id }),
        ship is None ==> contract_offer(c, player, ship) is None,
        ship is Some && c.state == ContractState::Open ==> contract_offer(c, player, ship) == Some(
            Command::AcceptContract { player, trader: ship->Some_0.id, contract: c.id },
        ),
        standing(c, player, ship) is Taken ==> contract_offer(c, player, ship) is None,
        standing(c, player, ship) is Yours ==> (contract_offer(c, player, ship) is Some
            <==> fulfillable(ship->Some_0, c)),
        standing(c, player, ship) is Yours && fulfillable(ship->Some_0, c) ==> contract_offer(
            c,
            player,
            ship,
        ) == Some(
            Command::FulfillContract { player, trader: ship->Some_0.id, contract: c.id },
        ),
{
}

/// A repayment on offer never exceeds the debt nor the capital, and is one of the two.
pub proof fn lemma_repayment_on_offer(capital: Money, outstanding: Money)
    ensures
        payable(capital, outstanding) <= capital,
        payable(capital, outstanding) <= outstanding,
        payable(capital, outstanding) == capital || payable(capital, outstanding) == outstanding,
{
}

/// The map draws each route once: a pair is drawn just where its lower end links to its
/// higher one.
pub proof fn lemma_routes_from(from: SystemId, links: Seq<SystemId>, n: int, to: SystemId)
    requires
        0 <= n <= links.len(),
    ensures
        routes_from(from, links, n).contains((from, to)) <==> to.0 > from.0 && links.take(
            n,
        ).contains(to),
        forall|k: int|
            0 <= k < routes_from(from, links, n).len() ==> (#[trigger] routes_from(
                from,
                links,
                n,
            )[k]).0 == from,
    decreases n,
{
    if n > 0 {
        lemma_routes_from(from, links, n - 1, to);
        let before = routes_from(from, links, n - 1);
        let after = routes_from(from, links, n);
        let few = links.take(n - 1);
        let all = links.take(n);
        if before.contains((from, to)) {
            assert(after[before.index_of((from, to))] == (from, to));
        }
        if after.contains((from, to)) {
            let k = after.index_of((from, to));
            if k < before.len() {
                assert(before[k] == (from, to));
            } else {
                assert(all[n - 1] == to);
            }
        }
        if few.contains(to) {
            assert(all[few.index_of(to)] == to);
        }
        if all.contains(to) {
            let k = all.index_of(to);
            if k < n - 1 {
                assert(few[k] == to);
            } else if to.0 > from.0 {
                assert(after[after.len() - 1] == (from, to));
            }
        }
    }
}

/// The goods that are shown are those the market trades, by ascending id, each with its
/// quote and what the hold has of it.
pub proof fn lemma_goods_are_shown(
    goods: Map<CommodityId, MarketGood>,
    cargo: Map<CommodityId, Quantity>,
    n: int,
)
    requires
        0 <= n <= u32::MAX,
    ensures
        forall|k: int|
            0 <= k < goods_shown(goods, cargo, n).len() ==> good_shows(
                goods,
                cargo,
                n,
                #[trigger] goods_shown(goods, cargo, n)[k],
            ),
        forall|c: CommodityId|
            c.0 < n && #[trigger] goods.dom().contains(c) ==> exists|k: int|
                0 <= k < goods_shown(goods, cargo, n).len() && (#[trigger] goods_shown(
                    goods,
                    cargo,
                    n,
                )[k]).commodity == c,
        forall|j: int, k: int|
            0 <= j < k < goods_shown(goods, cargo, n).len() ==> (#[trigger] goods_shown(
                goods,
                cargo,
                n,
            )[j]).commodity.0 < (#[trigger] goods_shown(goods, cargo, n)[k]).commodity.0,
    decreases n,
{
    if n > 0 {
        lemma_goods_are_shown(goods, cargo, n - 1);
        let before = goods_shown(goods, cargo, n - 1);
        let after = goods_shown(goods, cargo, n);
        assert forall|k: int| 0 <= k < after.len() implies good_shows(
            goods,
            cargo,
            n,
            #[trigger] after[k],
        ) by {
            if k < before.len() {
                assert(after[k] == before[k]);
                assert(good_shows(goods, cargo, n - 1, before[k]));
            }
        }
        assert forall|c: CommodityId| c.0 < n && #[trigger] goods.dom().contains(c) implies exists|
            k: int,
        |
            0 <= k < after.len() && (#[trigger] after[k]).commodity == c by {
            if c.0 < n - 1 {
                let k = choose|k: int| 0 <= k < before.len() && (#[trigger] before[k]).commodity == c;
                assert(after[k] == before[k]);
            } else {
                assert(c == CommodityId((n - 1) as u32));
                assert(after[after.len() - 1].commodity == c);
            }
        }
        assert forall|j: int, k: int| 0 <= j < k < after.len() implies (#[trigger] after[j]).commodity.0
            < (#[trigger] after[k]).commodity.0 by {
            assert(after[j] == before[j]);
            assert(good_shows(goods, cargo, n - 1, before[j]));
            if k < before.len() {
                assert(after[k] == before[k]);
            }
        }
    }
}

/// Whether a row quotes a good of the market, and what the hold has of it.
pub open spec fn good_shows(
    goods: Map<CommodityId, MarketGood>,
    cargo: Map<CommodityId, Quantity>,
    n: int,
    row: GoodRow,
) -> bool {
    let c = row.commodity;
    &&& c.0 < n
    &&& goods.dom().contains(c)
    &&& row.price == goods[c].price
    &&& row.stock == goods[c].stock
    &&& row.equilibrium == goods[c].equilibrium
    &&& row.held == (if cargo.dom().contains(c) {
        cargo[c]
    } else {
        0
    })
}

/// The units aboard are those of each good together: nothing in an empty hold, and a good
/// put aboard adds what is held of it.
pub proof fn lemma_units_add_up(cargo: Map<CommodityId, Quantity>, c: CommodityId, q: Quantity, n: int)
    requires
        0 <= n <= u32::MAX,
        !cargo.dom().contains(c),
    ensures
        units(Map::empty(), n) == 0,
        c.0 < n ==> units(cargo.insert(c, q), n) == units(cargo, n) + q,
        c.0 >= n ==> units(cargo.insert(c, q), n) == units(cargo, n),
    decreases n,
{
    if n > 0 {
        lemma_units_add_up(cargo, c, q, n - 1);
        let d = CommodityId((n - 1) as u32);
        assert(d.0 == n - 1);
        assert(c.0 == n - 1 ==> c == d);
    }
}

/// A node is under a click within twelve pixels of it.
pub proof fn lemma_clicks_are_within_twelve_pixels(d: Bits)
    ensures
        under_click()(d) <==> bits::at_most(d, 0x4028_0000_0000_0000),
{
}

/// A policy is shown with its payout and the ticks it has left; a ship without one is
/// offered insurance while it is docked.
pub proof fn lemma_cover_is_shown(policies: Seq<Policy>, t: TraderView, player: PlayerId, now: Tick)
    ensures
        (forall|i: int| 0 <= i < policies.len() ==> (#[trigger] policies[i]).insured != t.id)
            ==> cover(policies, t, player, now) == Cover::Bare(
            if t.location is Docked {
                Some(Command::BuyInsurance { player, trader: t.id })
            } else {
                None
            },
        ),
        cover(policies, t, player, now) matches Cover::Insured { payout, left } ==> exists|i: int|
            0 <= i < policies.len() && (#[trigger] policies[i]).insured == t.id && policies[i].payout
                == payout && (policies[i].expiry.0 >= now.0 ==> left == policies[i].expiry.0
                - now.0),
{
    let f = |p: Policy| p.insured == t.id;
    match commands::policy_slot(policies, t.id) {
        Some(i) => {
            search::lemma_first_found(policies, f);
        },
        None => {},
    }
    if forall|i: int| 0 <= i < policies.len() ==> (#[trigger] policies[i]).insured != t.id {
        assert forall|i: int| 0 <= i < policies.len() implies !f(#[trigger] policies[i]) by {}
        search::lemma_first_none(policies, f);
    }
}

} // verus!
