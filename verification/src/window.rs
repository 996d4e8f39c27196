//! The panels of an observer's window as whole values, and the dots on its map.

use vstd::prelude::*;
use vstd::string::StringExecFns;

use crate::bits;
use crate::bits::{Bits, is_at_most, is_less};
use crate::by_id::ById;
use crate::client;
use crate::client::{
    GoodRow, StockState, cargo_units, chain_text, find_player_trader, good_rows, jump_offers,
    pirates_lost, stock_state, whereabouts_text,
};
use crate::command::Command;
use crate::flight::ZERO;
use crate::ids::{Money, PlayerId, Quantity, ShipId, SystemId, Tick, TraderId};
use crate::market::Market;
use crate::patrol::{Patrol, PatrolLocation};
use crate::registry::{Registry, ResolvedSystem};
use crate::text;
use crate::text::{i64_text, push_i64, push_left, push_right, push_u128, push_u64, u64_text};
use crate::trader;
use crate::trader::{Trader, TraderLocation, TraderView};
use crate::world::PiracyStats;

verus! {

/// A line of the market in the pilot panel, with its buttons.
pub struct GoodLine {
    pub text: String,
    pub buy: Command,
    /// None where the hold has none of it.
    pub sell: Option<Command>,
}

/// A line of the market in the pilot panel.
pub open spec fn good_line(reg: Registry, row: GoodRow) -> Seq<char> {
    text::left(reg.spec_commodity_name(row.commodity), 9) + " "@ + text::right(
        text::dec(row.price as int),
        4,
    ) + " "@ + text::right(text::dec_nat(row.stock as nat), 5) + " "@ + text::right(
        text::dec_nat(row.held as nat),
        4,
    )
}

/// Whether `line` shows the good `row` to the player of the ship `id`, who trades `qty`
/// units at a time.
pub open spec fn line_shows(
    line: GoodLine,
    reg: Registry,
    row: GoodRow,
    player: PlayerId,
    id: TraderId,
    qty: Quantity,
) -> bool {
    &&& line.text@ == good_line(reg, row)
    &&& line.buy == (Command::Buy { player, trader: id, commodity: row.commodity, qty })
    &&& line.sell == (if row.held == 0 {
        None
    } else {
        Some(
            Command::Sell {
                player,
                trader: id,
                commodity: row.commodity,
                qty: if qty < row.held {
                    qty
                } else {
                    row.held
                },
            },
        )
    })
}

/// The pilot panel of a ship.
pub struct ShipPanel {
    pub ship: String,
    pub credits: String,
    pub cargo: String,
    /// Where the ship is.
    pub place: String,
    /// The market where it is docked.
    pub goods: Vec<GoodLine>,
    /// The label of each jump button, and what it queues.
    pub jumps: Vec<(String, Command)>,
    pub retire: Command,
}

/// The goods on the market where a ship is, if it is docked at one.
pub open spec fn goods_at(reg: Registry, t: TraderView, markets: Seq<Market>) -> Seq<GoodRow> {
    match t.location {
        TraderLocation::Docked(s) => if s.0 < markets.len() {
            client::goods_shown(
                markets[s.0 as int].goods@,
                t.cargo,
                reg.spec_commodities().len() as int,
            )
        } else {
            Seq::empty()
        },
        _ => Seq::empty(),
    }
}

/// The systems a ship can jump to: the links of where it is docked.
pub open spec fn links_at(reg: Registry, t: TraderView) -> Seq<SystemId> {
    match t.location {
        TraderLocation::Docked(s) => reg.spec_systems()[s.0 as int].connections@,
        _ => Seq::empty(),
    }
}

/// Whether `panel` shows the ship `t`.
pub open spec fn ship_shows(
    panel: ShipPanel,
    reg: Registry,
    t: TraderView,
    markets: Seq<Market>,
    player: PlayerId,
    qty: Quantity,
) -> bool {
    let def = reg.spec_ships()[t.ship.0 as int];
    let rows = goods_at(reg, t, markets);
    let links = links_at(reg, t);
    &&& panel.ship@ == "Ship:    "@ + def.name@
    &&& panel.credits@ == "Credits: "@ + text::dec(t.capital as int)
    &&& panel.cargo@ == "Cargo:   "@ + text::dec_nat(
        client::units(t.cargo, reg.spec_commodities().len() as int) as nat,
    ) + "/"@ + text::dec_nat(def.cargo_capacity as nat)
    &&& panel.place@ == client::whereabouts(reg, t.location)
    &&& panel.goods@.len() == rows.len()
    &&& forall|i: int|
        0 <= i < rows.len() ==> line_shows(
            #[trigger] panel.goods@[i],
            reg,
            rows[i],
            player,
            t.id,
            qty,
        )
    &&& panel.jumps@.len() == links.len()
    &&& forall|i: int|
        #![trigger panel.jumps@[i]]
        0 <= i < links.len() ==> panel.jumps@[i].0@ == reg.spec_system_name(links[i])
            && panel.jumps@[i].1 == (Command::Jump { player, trader: t.id, dest: links[i] })
    &&& panel.retire == (Command::Despawn { player, trader: t.id })
}

/// The lines of a market.
fn good_lines(
    reg: &Registry,
    rows: &Vec<GoodRow>,
    player: PlayerId,
    id: TraderId,
    qty: Quantity,
) -> (r: Vec<GoodLine>)
    ensures
        r@.len() == rows@.len(),
        forall|i: int|
            0 <= i < r@.len() ==> line_shows(#[trigger] r@[i], *reg, rows@[i], player, id, qty),
{
    let mut out: Vec<GoodLine> = Vec::new();
    let mut i: usize = 0;
    while i < rows.len()
        invariant
            i <= rows@.len(),
            out@.len() == i,
            forall|k: int|
                0 <= k < i ==> line_shows(#[trigger] out@[k], *reg, rows@[k], player, id, qty),
        decreases rows@.len() - i,
    {
        let row = rows[i];
        let mut s = String::new();
        push_left(&mut s, reg.commodity_name(row.commodity), 9);
        s.append(" ");
        push_right(&mut s, i64_text(row.price).as_str(), 4);
        s.append(" ");
        push_right(&mut s, u64_text(row.stock as u64).as_str(), 5);
        s.append(" ");
        push_right(&mut s, u64_text(row.held as u64).as_str(), 4);
        assert(s@ =~= good_line(*reg, row));
        out.push(
            GoodLine {
                text: s,
                buy: row.buy_offer(player, id, qty),
                sell: row.sell_offer(player, id, qty),
            },
        );
        i = i + 1;
    }
    out
}

/// The jump buttons of a ship docked at a system.
fn jump_lines(reg: &Registry, player: PlayerId, id: TraderId, sys: SystemId) -> (r: Vec<
    (String, Command),
>)
    requires
        sys.0 < reg.spec_systems().len(),
    ensures
        r@.len() == reg.spec_systems()[sys.0 as int].connections@.len(),
        forall|i: int|
            #![trigger r@[i]]
            0 <= i < r@.len() ==> {
                let dest = reg.spec_systems()[sys.0 as int].connections@[i];
                r@[i].0@ == reg.spec_system_name(dest) && r@[i].1 == (Command::Jump {
                    player,
                    trader: id,
                    dest,
                })
            },
{
    let links = &reg.system(sys).connections;
    let offers = jump_offers(reg, player, id, sys);
    let mut out: Vec<(String, Command)> = Vec::new();
    let mut i: usize = 0;
    while i < links.len()
        invariant
            i <= links@.len(),
            offers@.len() == links@.len(),
            out@.len() == i,
            forall|k: int|
                0 <= k < links@.len() ==> #[trigger] offers@[k] == (Command::Jump {
                    player,
                    trader: id,
                    dest: links@[k],
                }),
            forall|k: int|
                #![trigger out@[k]]
                0 <= k < i ==> out@[k].0@ == reg.spec_system_name(links@[k]) && out@[k].1 == (
                Command::Jump { player, trader: id, dest: links@[k] }),
        decreases links@.len() - i,
    {
        out.push((reg.system_name(links[i]).to_owned(), offers[i]));
        i = i + 1;
    }
    out
}

/// Whether a ship's handles point into the registry.
pub open spec fn aboard(reg: Registry, t: TraderView) -> bool {
    &&& t.ship.0 < reg.spec_ships().len()
    &&& t.location matches TraderLocation::Docked(s) ==> s.0 < reg.spec_systems().len()
}

/// The pilot panel of a ship.
fn ship_panel(
    reg: &Registry,
    t: &Trader,
    markets: &Vec<Market>,
    player: PlayerId,
    qty: Quantity,
) -> (p: ShipPanel)
    requires
        reg.wf(),
        aboard(*reg, t@),
    ensures
        ship_shows(p, *reg, t@, markets@, player, qty),
{
    let def = reg.ship(t.ship);
    let mut ship = String::new();
    ship.append("Ship:    ");
    ship.append(def.name.as_str());
    let mut credits = String::new();
    credits.append("Credits: ");
    push_i64(&mut credits, t.capital);
    let mut cargo = String::new();
    cargo.append("Cargo:   ");
    push_u64(&mut cargo, cargo_units(reg, &t.cargo));
    cargo.append("/");
    push_u64(&mut cargo, def.cargo_capacity as u64);
    let (rows, jumps) = match t.location {
        TraderLocation::Docked(sys) => (
            if sys.index() < markets.len() {
                good_rows(reg, &markets[sys.index()].goods, &t.cargo)
            } else {
                Vec::new()
            },
            jump_lines(reg, player, t.id, sys),
        ),
        _ => (Vec::new(), Vec::new()),
    };
    let panel = ShipPanel {
        ship,
        credits,
        cargo,
        place: whereabouts_text(reg, &t.location),
        goods: good_lines(reg, &rows, player, t.id, qty),
        jumps,
        retire: Command::Despawn { player, trader: t.id },
    };
    assert(panel.ship@ =~= "Ship:    "@ + def.name@);
    assert(panel.credits@ =~= "Credits: "@ + text::dec(t.capital as int));
    assert(panel.cargo@ =~= "Cargo:   "@ + text::dec_nat(
        client::units(t@.cargo, reg.spec_commodities().len() as int) as nat,
    ) + "/"@ + text::dec_nat(def.cargo_capacity as nat));
    assert(rows@ == goods_at(*reg, t@, markets@));
    panel
}

/// The pilot panel: the player's ship with what can be done with it, or none where the
/// player has yet to launch.
pub fn player_panel(
    reg: &Registry,
    traders: &Vec<Trader>,
    markets: &Vec<Market>,
    player: PlayerId,
    qty: Quantity,
) -> (p: Option<ShipPanel>)
    requires
        reg.wf(),
        forall|i: int| 0 <= i < traders@.len() ==> aboard(*reg, (#[trigger] traders@[i])@),
    ensures
        match client::ship_of(trader::trader_views(traders@), player) {
            Some(i) => match p {
                Some(panel) => ship_shows(
                    panel,
                    *reg,
                    trader::trader_views(traders@)[i],
                    markets@,
                    player,
                    qty,
                ),
                None => false,
            },
            None => p is None,
        },
{
    match find_player_trader(traders.as_slice(), player) {
        Some(t) => Some(ship_panel(reg, t, markets, player, qty)),
        None => None,
    }
}

/// What the Launch button queues.
pub fn launch_offer(player: PlayerId, ship: ShipId, at: SystemId, capital: Money) -> (c: Command)
    ensures
        c == (Command::Spawn { player, ship, at, capital }),
{
    Command::Spawn { player, ship, at, capital }
}

/// A good on the market panel.
pub struct StockLine {
    pub name: String,
    pub row: GoodRow,
    pub state: StockState,
}

/// The panel of a system: its market, and the production chains it runs.
pub struct MarketPanel {
    pub title: String,
    pub goods: Vec<StockLine>,
    pub chains: Vec<String>,
}

/// The goods on a system's market.
pub open spec fn goods_of(reg: Registry, markets: Seq<Market>, sys: SystemId) -> Seq<GoodRow> {
    if sys.0 < markets.len() {
        client::goods_shown(
            markets[sys.0 as int].goods@,
            Map::empty(),
            reg.spec_commodities().len() as int,
        )
    } else {
        Seq::empty()
    }
}

/// Whether `panel` shows the system `sys`.
pub open spec fn market_shows(
    panel: MarketPanel,
    reg: Registry,
    markets: Seq<Market>,
    sys: SystemId,
) -> bool {
    let rows = goods_of(reg, markets, sys);
    let works = reg.spec_systems()[sys.0 as int].industries@;
    &&& panel.title@ == "Market \u{2014} "@ + reg.spec_system_name(sys)
    &&& panel.goods@.len() == rows.len()
    &&& forall|i: int|
        #![trigger panel.goods@[i]]
        0 <= i < rows.len() ==> {
            &&& panel.goods@[i].name@ == reg.spec_commodity_name(rows[i].commodity)
            &&& panel.goods@[i].row == rows[i]
            &&& panel.goods@[i].state == client::stock_class(rows[i].stock, rows[i].equilibrium)
        }
    &&& panel.chains@.len() == works.len()
    &&& forall|i: int|
        #![trigger panel.chains@[i]]
        0 <= i < works.len() ==> panel.chains@[i]@ == client::chain(
            reg,
            reg.spec_recipes()[works[i].0 as int],
        )
}

/// The panel of a system.
pub fn market_panel(reg: &Registry, markets: &Vec<Market>, sys: SystemId) -> (p: MarketPanel)
    requires
        reg.wf(),
        sys.0 < reg.spec_systems().len(),
    ensures
        market_shows(p, *reg, markets@, sys),
{
    let mut title = String::new();
    title.append("Market \u{2014} ");
    title.append(reg.system_name(sys));
    let rows = if sys.index() < markets.len() {
        good_rows(reg, &markets[sys.index()].goods, &ById::new())
    } else {
        Vec::new()
    };
    assert(rows@ == goods_of(*reg, markets@, sys));
    let mut goods: Vec<StockLine> = Vec::new();
    let mut i: usize = 0;
    while i < rows.len()
        invariant
            i <= rows@.len(),
            goods@.len() == i,
            forall|k: int|
                #![trigger goods@[k]]
                0 <= k < i ==> {
                    &&& goods@[k].name@ == reg.spec_commodity_name(rows@[k].commodity)
                    &&& goods@[k].row == rows@[k]
                    &&& goods@[k].state == client::stock_class(
                        rows@[k].stock,
                        rows@[k].equilibrium,
                    )
                },
        decreases rows@.len() - i,
    {
        let row = rows[i];
        goods.push(
            StockLine {
                name: reg.commodity_name(row.commodity).to_owned(),
                row,
                state: stock_state(row.stock, row.equilibrium),
            },
        );
        i = i + 1;
    }
    let s: &ResolvedSystem = reg.system(sys);
    let mut chains: Vec<String> = Vec::new();
    let mut k: usize = 0;
    while k < s.industries.len()
        invariant
            k <= s.industries@.len(),
            reg.wf(),
            sys.0 < reg.spec_systems().len(),
            *s == reg.spec_systems()[sys.0 as int],
            chains@.len() == k,
            forall|j: int|
                #![trigger chains@[j]]
                0 <= j < k ==> chains@[j]@ == client::chain(
                    *reg,
                    reg.spec_recipes()[s.industries@[j].0 as int],
                ),
        decreases s.industries@.len() - k,
    {
        chains.push(chain_text(reg, reg.recipe(s.industries[k])));
        k = k + 1;
    }
    assert(title@ =~= "Market \u{2014} "@ + reg.spec_system_name(sys));
    MarketPanel { title, goods, chains }
}

/// A label and a count behind it.
fn counted(label: &str, n: u64) -> (s: String)
    ensures
        s@ == label@ + text::dec_nat(n as nat),
{
    let mut s = String::new();
    s.append(label);
    push_u64(&mut s, n);
    assert(s@ =~= label@ + text::dec_nat(n as nat));
    s
}

/// The tallies beside the map.
pub struct SidePanel {
    pub tick: String,
    pub traders: String,
    pub pirates: String,
    pub navy: String,
    pub ambushes: String,
    pub lost: String,
    pub destroyed: String,
    pub bounties: String,
    pub contracts: String,
    pub finance: String,
}

/// The tallies beside the map: the agents, what piracy has come to, how many contracts are
/// open and how many loans are running.
pub fn side_panel(
    tick: Tick,
    traders: usize,
    pirates: usize,
    navy: usize,
    p: &PiracyStats,
    open: usize,
    loans: usize,
) -> (s: SidePanel)
    ensures
        s.tick@ == "Tick "@ + text::dec_nat(tick.0 as nat),
        s.traders@ == "Traders:  "@ + text::dec_nat(traders as nat),
        s.pirates@ == "Pirates:  "@ + text::dec_nat(pirates as nat),
        s.navy@ == "Navy:     "@ + text::dec_nat(navy as nat),
        s.ambushes@ == "Ambushes:          "@ + text::dec_nat(p.ambushes as nat),
        s.lost@ == "Traders lost:      "@ + text::dec_nat(p.traders_lost as nat),
        s.destroyed@ == "Pirates destroyed: "@ + text::dec_nat(
            (p.pirates_destroyed + p.pirates_suppressed) as nat,
        ),
        s.bounties@ == "Bounties paid:     "@ + text::dec(p.bounties_paid as int),
        s.contracts@ == "Contracts ("@ + text::dec_nat(open as nat) + " open) \u{2026}"@,
        s.finance@ == "Finance ("@ + text::dec_nat(loans as nat) + " loans) \u{2026}"@,
{
    let mut destroyed = String::new();
    destroyed.append("Pirates destroyed: ");
    push_u128(&mut destroyed, pirates_lost(p));
    let mut bounties = String::new();
    bounties.append("Bounties paid:     ");
    push_i64(&mut bounties, p.bounties_paid);
    let mut contracts = counted("Contracts (", open as u64);
    contracts.append(" open) \u{2026}");
    let mut finance = counted("Finance (", loans as u64);
    finance.append(" loans) \u{2026}");
    SidePanel {
        tick: counted("Tick ", tick.0),
        traders: counted("Traders:  ", traders as u64),
        pirates: counted("Pirates:  ", pirates as u64),
        navy: counted("Navy:     ", navy as u64),
        ambushes: counted("Ambushes:          ", p.ambushes),
        lost: counted("Traders lost:      ", p.traders_lost),
        destroyed,
        bounties,
        contracts,
        finance,
    }
}

/// Whose dot it is on the map.
#[derive(Debug, Clone, Copy, PartialEq, Eq, Structural)]
pub enum Agent {
    Trader,
    Pirate,
    Navy,
}

/// Where a dot is drawn.
#[derive(Debug, Clone, Copy, PartialEq, Eq, Structural)]
pub enum Place {
    /// Around the node of a system, at this place of the fan.
    Fanned(SystemId, usize),
    /// On the way from one node to another.
    Between { origin: SystemId, dest: SystemId, departure: Tick, arrival: Tick },
}

/// A dot on the map.
#[derive(Debug, Clone, Copy, PartialEq, Eq, Structural)]
pub struct Dot {
    pub agent: Agent,
    pub place: Place,
}

/// How many of the dots are fanned around a system.
pub open spec fn fanned(dots: Seq<Dot>, s: SystemId) -> int
    decreases dots.len(),
{
    if dots.len() == 0 {
        0
    } else {
        fanned(dots.drop_last(), s) + (match dots.last().place {
            Place::Fanned(t, _) => if t == s {
                1int
            } else {
                0
            },
            _ => 0,
        })
    }
}

/// The dots with one more, of an agent docked at a system: at the next place of its fan.
pub open spec fn with_docked(dots: Seq<Dot>, agent: Agent, s: SystemId) -> Seq<Dot> {
    dots.push(Dot { agent, place: Place::Fanned(s, fanned(dots, s) as usize) })
}

/// The dots of the first `n` traders; one that is destroyed has none.
pub open spec fn trader_dots(traders: Seq<TraderView>, n: int) -> Seq<Dot>
    decreases n,
{
    if n <= 0 {
        Seq::empty()
    } else {
        let before = trader_dots(traders, n - 1);
        match traders[n - 1].location {
            TraderLocation::Docked(s) => with_docked(before, Agent::Trader, s),
            TraderLocation::InTransit { origin, dest, departure, arrival } => before.push(
                Dot {
                    agent: Agent::Trader,
                    place: Place::Between { origin, dest, departure, arrival },
                },
            ),
            TraderLocation::Destroyed { .. } => before,
        }
    }
}

/// The dots `before`, and those of the first `n` ships of a fleet.
pub open spec fn fleet_dots(before: Seq<Dot>, agent: Agent, fleet: Seq<Patrol>, n: int) -> Seq<Dot>
    decreases n,
{
    if n <= 0 {
        before
    } else {
        let dots = fleet_dots(before, agent, fleet, n - 1);
        match fleet[n - 1].location {
            PatrolLocation::Docked(s) => with_docked(dots, agent, s),
            PatrolLocation::InTransit { origin, dest, departure, arrival } => dots.push(
                Dot { agent, place: Place::Between { origin, dest, departure, arrival } },
            ),
        }
    }
}

/// The dots of every agent: the traders, then the pirates, then the navy.
pub open spec fn all_dots(
    traders: Seq<TraderView>,
    pirates: Seq<Patrol>,
    navy: Seq<Patrol>,
) -> Seq<Dot> {
    let a = trader_dots(traders, traders.len() as int);
    let b = fleet_dots(a, Agent::Pirate, pirates, pirates.len() as int);
    fleet_dots(b, Agent::Navy, navy, navy.len() as int)
}

/// Whether `counts` says of every system how many dots are fanned around it.
spec fn counts_dots(counts: Seq<usize>, dots: Seq<Dot>) -> bool {
    forall|k: int|
        #![trigger counts[k]]
        0 <= k < counts.len() ==> counts[k] == fanned(dots, SystemId(k as u32))
}

proof fn lemma_fanned_bound(dots: Seq<Dot>, s: SystemId)
    ensures
        0 <= fanned(dots, s) <= dots.len(),
    decreases dots.len(),
{
    if dots.len() > 0 {
        lemma_fanned_bound(dots.drop_last(), s);
    }
}

/// Add the dot of an agent docked at a system.
fn add_docked(dots: &mut Vec<Dot>, counts: &mut Vec<usize>, agent: Agent, s: SystemId)
    requires
        s.0 < old(counts)@.len() <= u32::MAX,
        counts_dots(old(counts)@, old(dots)@),
        old(dots)@.len() < usize::MAX,
    ensures
        final(dots)@ == with_docked(old(dots)@, agent, s),
        final(counts)@.len() == old(counts)@.len(),
        counts_dots(final(counts)@, final(dots)@),
{
    let ghost before = dots@;
    let ghost tally = counts@;
    let k = s.index();
    assert(counts@[k as int] == fanned(dots@, SystemId(k as u32)));
    proof {
        lemma_fanned_bound(dots@, s);
    }
    dots.push(Dot { agent, place: Place::Fanned(s, counts[k]) });
    let next = counts[k] + 1;
    counts.set(k, next);
    proof {
        assert(dots@.drop_last() =~= before);
        assert forall|j: int|
            #![trigger counts@[j]]
            0 <= j < counts@.len() implies counts@[j] == fanned(dots@, SystemId(j as u32)) by {
            assert(tally[j] == fanned(before, SystemId(j as u32)));
        }
    }
}

/// Add the dot of an agent under way.
fn add_moving(dots: &mut Vec<Dot>, counts: &Vec<usize>, dot: Dot)
    requires
        counts_dots(counts@, old(dots)@),
        dot.place is Between,
    ensures
        final(dots)@ == old(dots)@.push(dot),
        counts_dots(counts@, final(dots)@),
{
    let ghost before = dots@;
    dots.push(dot);
    proof {
        assert(dots@.drop_last() =~= before);
        assert forall|j: int|
            #![trigger counts@[j]]
            0 <= j < counts@.len() implies counts@[j] == fanned(dots@, SystemId(j as u32)) by {
            assert(counts@[j] == fanned(before, SystemId(j as u32)));
        }
    }
}

/// Whether a fleet's docked ships are at systems that exist.
pub open spec fn moored(reg: Registry, fleet: Seq<Patrol>) -> bool {
    forall|i: int|
        0 <= i < fleet.len() ==> match (#[trigger] fleet[i]).location {
            PatrolLocation::Docked(s) => s.0 < reg.spec_systems().len(),
            _ => true,
        }
}

/// Add the dots of a fleet.
fn add_fleet(dots: &mut Vec<Dot>, counts: &mut Vec<usize>, agent: Agent, fleet: &Vec<Patrol>)
    requires
        old(counts)@.len() <= u32::MAX,
        counts_dots(old(counts)@, old(dots)@),
        old(dots)@.len() + fleet@.len() <= usize::MAX,
        forall|i: int|
            0 <= i < fleet@.len() ==> match (#[trigger] fleet@[i]).location {
                PatrolLocation::Docked(s) => s.0 < old(counts)@.len(),
                _ => true,
            },
    ensures
        final(dots)@ == fleet_dots(old(dots)@, agent, fleet@, fleet@.len() as int),
        final(dots)@.len() == old(dots)@.len() + fleet@.len(),
        final(counts)@.len() == old(counts)@.len(),
        counts_dots(final(counts)@, final(dots)@),
{
    let ghost start = dots@;
    let ghost size = counts@.len();
    let mut i: usize = 0;
    while i < fleet.len()
        invariant
            i <= fleet@.len(),
            size <= u32::MAX,
            counts@.len() == size,
            counts_dots(counts@, dots@),
            dots@ == fleet_dots(start, agent, fleet@, i as int),
            dots@.len() == start.len() + i,
            start.len() + fleet@.len() <= usize::MAX,
            forall|k: int|
                0 <= k < fleet@.len() ==> match (#[trigger] fleet@[k]).location {
                    PatrolLocation::Docked(s) => s.0 < size,
                    _ => true,
                },
        decreases fleet@.len() - i,
    {
        match fleet[i].location {
            PatrolLocation::Docked(s) => {
                add_docked(dots, counts, agent, s);
            },
            PatrolLocation::InTransit { origin, dest, departure, arrival } => {
                add_moving(
                    dots,
                    counts,
                    Dot { agent, place: Place::Between { origin, dest, departure, arrival } },
                );
            },
        }
        i = i + 1;
    }
}

/// The dots on the map: docked agents are fanned around their node, those under way lie
/// between two.
pub fn map_dots(
    reg: &Registry,
    traders: &Vec<Trader>,
    pirates: &Vec<Patrol>,
    navy: &Vec<Patrol>,
) -> (dots: Vec<Dot>)
    requires
        reg.wf(),
        forall|i: int| 0 <= i < traders@.len() ==> aboard(*reg, (#[trigger] traders@[i])@),
        moored(*reg, pirates@),
        moored(*reg, navy@),
        traders@.len() + pirates@.len() + navy@.len() <= usize::MAX,
    ensures
        dots@ == all_dots(trader::trader_views(traders@), pirates@, navy@),
{
    let ghost views = trader::trader_views(traders@);
    let n = reg.system_count();
    let mut counts: Vec<usize> = Vec::new();
    let mut k: usize = 0;
    while k < n
        invariant
            k <= n,
            counts@.len() == k,
            forall|j: int| 0 <= j < k ==> #[trigger] counts@[j] == 0,
        decreases n - k,
    {
        counts.push(0);
        k = k + 1;
    }
    let mut dots: Vec<Dot> = Vec::new();
    let mut i: usize = 0;
    while i < traders.len()
        invariant
            i <= traders@.len(),
            views == trader::trader_views(traders@),
            counts@.len() == reg.spec_systems().len(),
            counts@.len() <= u32::MAX,
            forall|j: int| 0 <= j < traders@.len() ==> aboard(*reg, (#[trigger] traders@[j])@),
            counts_dots(counts@, dots@),
            dots@ == trader_dots(views, i as int),
            dots@.len() <= i,
        decreases traders@.len() - i,
    {
        assert(aboard(*reg, traders@[i as int]@));
        match traders[i].location {
            TraderLocation::Docked(s) => {
                add_docked(&mut dots, &mut counts, Agent::Trader, s);
            },
            TraderLocation::InTransit { origin, dest, departure, arrival } => {
                add_moving(
                    &mut dots,
                    &counts,
                    Dot {
                        agent: Agent::Trader,
                        place: Place::Between { origin, dest, departure, arrival },
                    },
                );
            },
            TraderLocation::Destroyed { .. } => {},
        }
        i = i + 1;
    }
    add_fleet(&mut dots, &mut counts, Agent::Pirate, pirates);
    add_fleet(&mut dots, &mut counts, Agent::Navy, navy);
    dots
}

/// Whether no two of the dots are at the same place of a fan.
pub open spec fn apart(dots: Seq<Dot>) -> bool {
    forall|i: int, j: int|
        #![trigger dots[i], dots[j]]
        0 <= i < j < dots.len() && dots[i].place is Fanned ==> dots[i].place != dots[j].place
}

/// Whether every place of a fan is below the number of dots around its system.
spec fn low(dots: Seq<Dot>) -> bool {
    forall|i: int|
        0 <= i < dots.len() ==> match (#[trigger] dots[i]).place {
            Place::Fanned(s, k) => k < fanned(dots, s),
            _ => true,
        }
}

proof fn lemma_dot(dots: Seq<Dot>, dot: Dot)
    requires
        apart(dots),
        low(dots),
        dots.len() < usize::MAX,
        dot.place matches Place::Fanned(s, k) ==> k == fanned(dots, s),
    ensures
        apart(dots.push(dot)),
        low(dots.push(dot)),
{
    let after = dots.push(dot);
    assert(after.drop_last() =~= dots);
    assert forall|i: int| 0 <= i < after.len() implies match (#[trigger] after[i]).place {
        Place::Fanned(s, k) => k < fanned(after, s),
        _ => true,
    } by {
        if i < dots.len() {
            assert(after[i] == dots[i]);
        }
    }
    assert forall|i: int, j: int|
        #![trigger after[i], after[j]]
        0 <= i < j < after.len() && after[i].place is Fanned implies after[i].place
        != after[j].place by {
        assert(after[i] == dots[i]);
        if j < dots.len() {
            assert(after[j] == dots[j]);
        }
    }
}

proof fn lemma_trader_dots(traders: Seq<TraderView>, n: int)
    requires
        0 <= n <= traders.len(),
        traders.len() <= usize::MAX,
    ensures
        apart(trader_dots(traders, n)),
        low(trader_dots(traders, n)),
        trader_dots(traders, n).len() <= n,
    decreases n,
{
    if n > 0 {
        lemma_trader_dots(traders, n - 1);
        let before = trader_dots(traders, n - 1);
        let after = trader_dots(traders, n);
        if after.len() > before.len() {
            match traders[n - 1].location {
                TraderLocation::Docked(s) => {
                    lemma_fanned_bound(before, s);
                },
                _ => {},
            }
            assert(after =~= before.push(after.last()));
            lemma_dot(before, after.last());
        }
    }
}

proof fn lemma_fleet_dots(start: Seq<Dot>, agent: Agent, fleet: Seq<Patrol>, n: int)
    requires
        apart(start),
        low(start),
        0 <= n <= fleet.len(),
        start.len() + fleet.len() <= usize::MAX,
    ensures
        apart(fleet_dots(start, agent, fleet, n)),
        low(fleet_dots(start, agent, fleet, n)),
        fleet_dots(start, agent, fleet, n).len() == start.len() + n,
    decreases n,
{
    if n > 0 {
        lemma_fleet_dots(start, agent, fleet, n - 1);
        let before = fleet_dots(start, agent, fleet, n - 1);
        let after = fleet_dots(start, agent, fleet, n);
        match fleet[n - 1].location {
            PatrolLocation::Docked(s) => {
                lemma_fanned_bound(before, s);
            },
            _ => {},
        }
        assert(after =~= before.push(after.last()));
        lemma_dot(before, after.last());
    }
}

/// Agents docked at the same system do not overlap: no two of them share a place of its
/// fan.
pub proof fn lemma_docked_agents_do_not_overlap(
    traders: Seq<TraderView>,
    pirates: Seq<Patrol>,
    navy: Seq<Patrol>,
)
    requires
        traders.len() + pirates.len() + navy.len() <= usize::MAX,
    ensures
        apart(all_dots(traders, pirates, navy)),
{
    lemma_trader_dots(traders, traders.len() as int);
    let a = trader_dots(traders, traders.len() as int);
    lemma_fleet_dots(a, Agent::Pirate, pirates, pirates.len() as int);
    let b = fleet_dots(a, Agent::Pirate, pirates, pirates.len() as int);
    lemma_fleet_dots(b, Agent::Navy, navy, navy.len() as int);
}

/// The ticks that a fight flashes on the map: 4.
pub const FLASH_LIFETIME: Bits = 0x4010_0000_0000_0000;

/// Whether a fight of this age, in ticks, still flashes.
pub fn flash_lasts(age: Bits) -> (b: bool)
    ensures
        b == (bits::at_most(ZERO, age) && bits::less(age, FLASH_LIFETIME)),
{
    is_at_most(ZERO, age) && is_less(age, FLASH_LIFETIME)
}

/// The dots of a fleet come behind those there are, one for each ship in the fleet's
/// order: around its system while it is docked, on its way otherwise.
pub proof fn lemma_a_dot_for_each_ship(start: Seq<Dot>, agent: Agent, fleet: Seq<Patrol>, n: int)
    requires
        0 <= n <= fleet.len(),
    ensures
        fleet_dots(start, agent, fleet, n).len() == start.len() + n,
        fleet_dots(start, agent, fleet, n).take(start.len() as int) == start,
        forall|i: int|
            0 <= i < n ==> dot_of(
                agent,
                fleet[i].location,
                #[trigger] fleet_dots(start, agent, fleet, n)[start.len() + i],
            ),
    decreases n,
{
    let after = fleet_dots(start, agent, fleet, n);
    if n <= 0 {
        assert(after.take(start.len() as int) =~= start);
    } else {
        lemma_a_dot_for_each_ship(start, agent, fleet, n - 1);
        let before = fleet_dots(start, agent, fleet, n - 1);
        assert(after.take(start.len() as int) =~= before.take(start.len() as int));
        assert forall|i: int| 0 <= i < n implies dot_of(
            agent,
            fleet[i].location,
            #[trigger] after[start.len() + i],
        ) by {
            if i < n - 1 {
                assert(after[start.len() + i] == before[start.len() + i]);
            }
        }
    }
}

/// Whether a dot is that of an agent of a fleet at this place.
pub open spec fn dot_of(agent: Agent, at: PatrolLocation, dot: Dot) -> bool {
    &&& dot.agent == agent
    &&& match at {
        PatrolLocation::Docked(s) => dot.place matches Place::Fanned(t, k) && t == s,
        PatrolLocation::InTransit { origin, dest, departure, arrival } => dot.place == (
        Place::Between { origin, dest, departure, arrival }),
    }
}

/// Every trader but a destroyed one has a dot, and each is where the trader is.
pub proof fn lemma_a_dot_for_each_trader(traders: Seq<TraderView>, n: int)
    requires
        0 <= n <= traders.len(),
    ensures
        trader_dots(traders, n).len() == traders.take(n).filter(
            |t: TraderView| !(t.location is Destroyed),
        ).len(),
        forall|i: int|
            0 <= i < n && !((#[trigger] traders[i]).location is Destroyed) ==> exists|k: int|
                0 <= k < trader_dots(traders, n).len() && trader_dot(
                    traders[i].location,
                    #[trigger] trader_dots(traders, n)[k],
                ),
    decreases n,
{
    reveal(Seq::filter);
    if n > 0 {
        lemma_a_dot_for_each_trader(traders, n - 1);
        let before = trader_dots(traders, n - 1);
        let after = trader_dots(traders, n);
        assert(traders.take(n).drop_last() =~= traders.take(n - 1));
        assert(traders.take(n).last() == traders[n - 1]);
        assert forall|i: int| 0 <= i < n && !((#[trigger] traders[i]).location is Destroyed) implies
            exists|k: int|
            0 <= k < after.len() && trader_dot(traders[i].location, #[trigger] after[k]) by {
            if i < n - 1 {
                let k = choose|k: int|
                    0 <= k < before.len() && trader_dot(traders[i].location, #[trigger] before[k]);
                assert(after[k] == before[k]);
            } else {
                assert(trader_dot(traders[i].location, after[after.len() - 1]));
            }
        }
    }
}

/// Whether a dot is that of a trader at this place.
pub open spec fn trader_dot(at: TraderLocation, dot: Dot) -> bool {
    &&& dot.agent == Agent::Trader
    &&& match at {
        TraderLocation::Docked(s) => dot.place matches Place::Fanned(t, k) && t == s,
        TraderLocation::InTransit { origin, dest, departure, arrival } => dot.place == (
        Place::Between { origin, dest, departure, arrival }),
        TraderLocation::Destroyed { .. } => false,
    }
}

/// A ship under way or destroyed is shown neither a market nor a jump; a docked one is
/// shown the links of its own system and the goods of its own market.
pub proof fn lemma_panel_is_of_the_dock(reg: Registry, t: TraderView, markets: Seq<Market>)
    ensures
        !(t.location is Docked) ==> goods_at(reg, t, markets).len() == 0 && links_at(
            reg,
            t,
        ).len() == 0,
        t.location matches TraderLocation::Docked(s) ==> links_at(reg, t)
            == reg.spec_systems()[s.0 as int].connections@ && (s.0 < markets.len() ==> goods_at(
            reg,
            t,
            markets,
        ) == client::goods_shown(
            markets[s.0 as int].goods@,
            t.cargo,
            reg.spec_commodities().len() as int,
        )),
{
}

} // verus!
