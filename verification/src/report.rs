//! What a headless run reports.

use vstd::prelude::*;
use vstd::string::StringExecFns;

use crate::data::CombatStats;
use crate::encounter::Outcome;
use crate::event::{EventCategory, SimEvent};
use crate::ids::{CommodityId, Money, ShipId};
use crate::market;
use crate::market::{Market, MarketView};
use crate::money;
use crate::registry;
use crate::registry::Registry;
use crate::text;
use crate::text::{push_i64, push_right, push_u64, u64_text};
use crate::trader;
use crate::trader::{Trader, TraderView};
use crate::world::commands;
use crate::world::PiracyStats;

verus! {

/// The price of a commodity over the markets that trade it.
#[derive(Debug, Clone, Copy, PartialEq, Eq, Structural)]
pub struct PriceTotal {
    pub commodity: CommodityId,
    /// The sum of the prices; their mean is the host's to take.
    pub sum: Money,
    /// How many markets trade it, one at least.
    pub markets: usize,
}

/// The price totals of the commodities with an id below `n` that some market trades.
pub open spec fn totals(markets: Seq<MarketView>, n: int) -> Seq<PriceTotal>
    decreases n,
{
    if n <= 0 {
        Seq::empty()
    } else {
        let c = CommodityId((n - 1) as u32);
        let at = commands::traded_at(markets, c, markets.len() as int);
        if at > 0 {
            totals(markets, n - 1).push(
                PriceTotal {
                    commodity: c,
                    sum: money::wrapped(commands::price_sum(markets, c, markets.len() as int)),
                    markets: at as usize,
                },
            )
        } else {
            totals(markets, n - 1)
        }
    }
}

/// The price total of one commodity.
fn price_total(markets: &Vec<Market>, c: CommodityId) -> (t: PriceTotal)
    requires
        markets@.len() <= u32::MAX,
    ensures
        t.commodity == c,
        t.sum == money::wrapped(
            commands::price_sum(market::market_views(markets@), c, markets@.len() as int),
        ),
        t.markets == commands::traded_at(market::market_views(markets@), c, markets@.len() as int),
{
    let ghost views = market::market_views(markets@);
    let n = markets.len();
    let mut sum: i128 = 0;
    let mut at: usize = 0;
    let mut i: usize = 0;
    while i < n
        invariant
            at <= i <= n,
            n == markets@.len(),
            n <= u32::MAX,
            views == market::market_views(markets@),
            sum == commands::price_sum(views, c, i as int),
            at == commands::traded_at(views, c, i as int),
            -0x1_0000_0000_0000_0000 * i <= sum <= 0x1_0000_0000_0000_0000 * i,
        decreases n - i,
    {
        match markets[i].price(c) {
            Some(p) => {
                sum = sum + p as i128;
                at = at + 1;
            },
            None => {},
        }
        i = i + 1;
    }
    PriceTotal { commodity: c, sum: money::wrap(sum), markets: at }
}

/// The price of each commodity over every market that trades it.
pub fn average_prices(reg: &Registry, markets: &Vec<Market>) -> (r: Vec<PriceTotal>)
    requires
        reg.wf(),
        markets@.len() <= u32::MAX,
    ensures
        r@ == totals(market::market_views(markets@), reg.spec_commodities().len() as int),
{
    let ghost views = market::market_views(markets@);
    let n = reg.commodity_count();
    let mut out: Vec<PriceTotal> = Vec::new();
    let mut k: usize = 0;
    while k < n
        invariant
            k <= n,
            n <= u32::MAX,
            markets@.len() <= u32::MAX,
            views == market::market_views(markets@),
            views.len() == markets@.len(),
            out@ == totals(views, k as int),
        decreases n - k,
    {
        let t = price_total(markets, CommodityId(k as u32));
        if t.markets > 0 {
            out.push(t);
        }
        k = k + 1;
    }
    out
}

/// The capital of the first `n` traders together.
pub open spec fn capital_of(traders: Seq<TraderView>, n: int) -> int
    decreases n,
{
    if n <= 0 {
        0
    } else {
        capital_of(traders, n - 1) + traders[n - 1].capital
    }
}

/// The capital of all traders.
pub fn total_trader_capital(traders: &Vec<Trader>) -> (m: Money)
    ensures
        m == money::wrapped(
            capital_of(trader::trader_views(traders@), traders@.len() as int),
        ),
{
    let ghost views = trader::trader_views(traders@);
    let n = traders.len();
    let mut sum: Money = 0;
    let mut i: usize = 0;
    proof {
        money::lemma_wrapped_fits(0);
    }
    while i < n
        invariant
            i <= n,
            n == traders@.len(),
            views == trader::trader_views(traders@),
            sum == money::wrapped(capital_of(views, i as int)),
        decreases n - i,
    {
        proof {
            money::lemma_wrapped_sum(capital_of(views, i as int), traders@[i as int].capital as int);
        }
        sum = money::credit(sum, traders[i].capital);
        i = i + 1;
    }
    sum
}

/// The name of an event category.
pub open spec fn category_word(c: EventCategory) -> Seq<char> {
    match c {
        EventCategory::Combat => "Combat"@,
        EventCategory::Piracy => "Piracy"@,
        EventCategory::Navy => "Navy"@,
        EventCategory::System => "System"@,
    }
}

/// A line of the event log.
pub open spec fn event_line(e: SimEvent) -> Seq<char> {
    "["@ + text::right(text::dec_nat(e.tick.0 as nat), 6) + "] "@ + category_word(e.category)
        + ": "@ + e.message@
}

/// A line of the event log.
pub fn event_text(e: &SimEvent) -> (s: String)
    ensures
        s@ == event_line(*e),
{
    let mut s = String::new();
    s.append("[");
    push_right(&mut s, u64_text(e.tick.0).as_str(), 6);
    s.append("] ");
    s.append(
        match e.category {
            EventCategory::Combat => "Combat",
            EventCategory::Piracy => "Piracy",
            EventCategory::Navy => "Navy",
            EventCategory::System => "System",
        },
    );
    s.append(": ");
    s.append(e.message.as_str());
    assert(s@ =~= event_line(*e));
    s
}

/// The two piracy lines of a summary.
pub open spec fn piracy_lines(p: PiracyStats, pirates: nat, navy: nat) -> Seq<char> {
    if p.ambushes > 0 || pirates > 0 {
        "  piracy: "@ + text::dec_nat(p.ambushes as nat) + " ambushes, "@ + text::dec_nat(
            p.traders_lost as nat,
        ) + " traders lost, "@ + text::dec_nat(p.pirates_destroyed as nat)
            + " pirates destroyed, "@ + text::dec(p.bounties_paid as int) + " bounties paid\n"@
            + "  fleets: "@ + text::dec_nat(pirates) + " pirates active, "@ + text::dec_nat(navy)
            + " navy active ("@ + text::dec_nat(p.pirates_suppressed as nat)
            + " pirates suppressed, "@ + text::dec_nat(p.navy_lost as nat) + " navy lost)\n"@
    } else {
        Seq::empty()
    }
}

/// The piracy lines of a summary; nothing where there has been none.
pub fn piracy_text(p: &PiracyStats, pirates: usize, navy: usize) -> (s: String)
    ensures
        s@ == piracy_lines(*p, pirates as nat, navy as nat),
{
    let mut s = String::new();
    if p.ambushes > 0 || pirates > 0 {
        s.append("  piracy: ");
        push_u64(&mut s, p.ambushes);
        s.append(" ambushes, ");
        push_u64(&mut s, p.traders_lost);
        s.append(" traders lost, ");
        push_u64(&mut s, p.pirates_destroyed);
        s.append(" pirates destroyed, ");
        push_i64(&mut s, p.bounties_paid);
        s.append(" bounties paid\n");
        s.append("  fleets: ");
        push_u64(&mut s, pirates as u64);
        s.append(" pirates active, ");
        push_u64(&mut s, navy as u64);
        s.append(" navy active (");
        push_u64(&mut s, p.pirates_suppressed);
        s.append(" pirates suppressed, ");
        push_u64(&mut s, p.navy_lost);
        s.append(" navy lost)\n");
    }
    assert(s@ =~= piracy_lines(*p, pirates as nat, navy as nat));
    s
}

/// The ticks to run before the next sample.
pub fn stride(remaining: u64, every: u64) -> (n: u64)
    ensures
        n == (if remaining < every {
            remaining
        } else {
            every
        }),
{
    if remaining < every {
        remaining
    } else {
        every
    }
}

/// How a battle ended.
pub open spec fn verdict(o: Outcome, ticks: u64) -> Seq<char> {
    match o {
        Outcome::Victory(f) => "faction "@ + text::dec_nat(f as nat) + " wins after "@
            + text::dec_nat(ticks as nat) + " ticks"@,
        Outcome::Draw => "mutual destruction after "@ + text::dec_nat(ticks as nat) + " ticks"@,
        Outcome::Ongoing => "stalemate: undecided after "@ + text::dec_nat(ticks as nat)
            + " ticks"@,
    }
}

/// How a battle ended.
pub fn verdict_text(o: Outcome, ticks: u64) -> (s: String)
    ensures
        s@ == verdict(o, ticks),
{
    let mut s = String::new();
    match o {
        Outcome::Victory(f) => {
            s.append("faction ");
            push_u64(&mut s, f as u64);
            s.append(" wins after ");
        },
        Outcome::Draw => {
            s.append("mutual destruction after ");
        },
        Outcome::Ongoing => {
            s.append("stalemate: undecided after ");
        },
    }
    push_u64(&mut s, ticks);
    s.append(" ticks");
    assert(s@ =~= verdict(o, ticks));
    s
}

/// A ship as it enters a staged battle.
#[derive(Debug, Clone, Copy, PartialEq, Eq, Structural)]
pub struct Entrant {
    pub ship: ShipId,
    pub stats: CombatStats,
    pub hull: u32,
    /// Whether it can win: an unarmed ship cannot.
    pub armed: bool,
}

/// The ship called `name`, as it enters a staged battle; none where there is no such
/// ship.
pub fn entrant(reg: &Registry, name: &str) -> (r: Option<Entrant>)
    requires
        reg.wf(),
    ensures
        r == (match registry::handle_of(reg.spec_ship_ids(), name@) {
            None => None::<Entrant>,
            Some(h) => {
                let def = reg.spec_ships()[h as int];
                Some(
                    Entrant {
                        ship: ShipId(h),
                        stats: def.spec_stats(),
                        hull: def.hull,
                        armed: def.spec_stats().weapon_damage != 0,
                    },
                )
            },
        }),
{
    match reg.ship_id(name) {
        None => None,
        Some(ship) => {
            proof {
                registry::lemma_handle_in_range(reg.spec_ship_ids(), name@);
            }
            let def = reg.ship(ship);
            let stats = def.stats();
            Some(Entrant { ship, stats, hull: def.hull, armed: stats.weapon_damage != 0 })
        },
    }
}

/// What a check of the content reports.
pub open spec fn linked_line(commodities: nat, recipes: nat, systems: nat) -> Seq<char> {
    "ok: "@ + text::dec_nat(commodities) + " commodities, "@ + text::dec_nat(recipes)
        + " recipes, "@ + text::dec_nat(systems) + " systems linked"@
}

/// What a check of the content reports.
pub fn linked_text(reg: &Registry) -> (s: String)
    ensures
        s@ == linked_line(
            reg.spec_commodities().len(),
            reg.spec_recipes().len(),
            reg.spec_systems().len(),
        ),
{
    let mut s = String::new();
    s.append("ok: ");
    push_u64(&mut s, reg.commodity_count() as u64);
    s.append(" commodities, ");
    push_u64(&mut s, reg.recipe_count() as u64);
    s.append(" recipes, ");
    push_u64(&mut s, reg.system_count() as u64);
    s.append(" systems linked");
    assert(s@ =~= linked_line(
        reg.spec_commodities().len(),
        reg.spec_recipes().len(),
        reg.spec_systems().len(),
    ));
    s
}

/// The capital of all traders is that of each together.
pub proof fn lemma_capital_adds_up(traders: Seq<TraderView>, t: TraderView)
    ensures
        capital_of(Seq::empty(), 0) == 0,
        capital_of(traders.push(t), traders.len() as int + 1) == capital_of(
            traders,
            traders.len() as int,
        ) + t.capital,
{
    lemma_capital_by_prefix(traders, t, traders.len() as int);
}

proof fn lemma_capital_by_prefix(traders: Seq<TraderView>, t: TraderView, n: int)
    requires
        0 <= n <= traders.len(),
    ensures
        capital_of(traders.push(t), n) == capital_of(traders, n),
    decreases n,
{
    if n > 0 {
        lemma_capital_by_prefix(traders, t, n - 1);
        assert(traders.push(t)[n - 1] == traders[n - 1]);
    }
}

/// The totals are of the commodities that some market trades, by ascending id, each with
/// the number of those markets and the sum of their prices.
pub proof fn lemma_totals_are_of_what_is_traded(markets: Seq<MarketView>, n: int)
    requires
        0 <= n <= u32::MAX,
        markets.len() <= usize::MAX,
    ensures
        forall|k: int|
            0 <= k < totals(markets, n).len() ==> is_total(markets, n, #[trigger] totals(markets, n)[k]),
        forall|c: CommodityId|
            c.0 < n && (exists|i: int|
                0 <= i < markets.len() && (#[trigger] markets[i]).goods.dom().contains(c))
                ==> exists|k: int|
                0 <= k < totals(markets, n).len() && (#[trigger] totals(markets, n)[k]).commodity
                    == c,
        forall|j: int, k: int|
            0 <= j < k < totals(markets, n).len() ==> (#[trigger] totals(markets, n)[j]).commodity.0
                < (#[trigger] totals(markets, n)[k]).commodity.0,
    decreases n,
{
    if n > 0 {
        lemma_totals_are_of_what_is_traded(markets, n - 1);
        let before = totals(markets, n - 1);
        let after = totals(markets, n);
        let d = CommodityId((n - 1) as u32);
        assert(d.0 == n - 1);
        lemma_traded_at(markets, d, markets.len() as int);
        assert forall|k: int| 0 <= k < after.len() implies is_total(markets, n, #[trigger] after[k]) by {
            if k < before.len() {
                assert(after[k] == before[k]);
                assert(is_total(markets, n - 1, before[k]));
            }
        }
        assert forall|c: CommodityId|
            c.0 < n && (exists|i: int|
                0 <= i < markets.len() && (#[trigger] markets[i]).goods.dom().contains(c)) implies exists|
            k: int,
        |
            0 <= k < after.len() && (#[trigger] after[k]).commodity == c by {
            if c.0 < n - 1 {
                let k = choose|k: int| 0 <= k < before.len() && (#[trigger] before[k]).commodity == c;
                assert(after[k] == before[k]);
            } else {
                assert(c == d);
                assert(after[after.len() - 1].commodity == c);
            }
        }
        assert forall|j: int, k: int| 0 <= j < k < after.len() implies (#[trigger] after[j]).commodity.0
            < (#[trigger] after[k]).commodity.0 by {
            assert(after[j] == before[j]);
            assert(is_total(markets, n - 1, before[j]));
            if k < before.len() {
                assert(after[k] == before[k]);
            }
        }
    }
}

/// Whether a total is that of a commodity that some market trades.
pub open spec fn is_total(markets: Seq<MarketView>, n: int, t: PriceTotal) -> bool {
    &&& t.commodity.0 < n
    &&& t.markets > 0
    &&& t.markets == markets.filter(
        |m: MarketView| m.goods.dom().contains(t.commodity),
    ).len()
    &&& t.sum == money::wrapped(commands::price_sum(markets, t.commodity, markets.len() as int))
}

proof fn lemma_traded_at(markets: Seq<MarketView>, c: CommodityId, n: int)
    requires
        0 <= n <= markets.len(),
    ensures
        commands::traded_at(markets, c, n) == markets.take(n).filter(
            |m: MarketView| m.goods.dom().contains(c),
        ).len(),
        commands::traded_at(markets, c, n) > 0 <==> exists|i: int|
            0 <= i < n && (#[trigger] markets[i]).goods.dom().contains(c),
        n == markets.len() ==> markets.take(n) == markets,
    decreases n,
{
    reveal(Seq::filter);
    if n == markets.len() {
        assert(markets.take(n) =~= markets);
    }
    if n > 0 {
        lemma_traded_at(markets, c, n - 1);
        assert(markets.take(n).drop_last() =~= markets.take(n - 1));
        assert(markets.take(n).last() == markets[n - 1]);
    }
}

} // verus!
