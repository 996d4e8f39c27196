//! The windows, the cockpit, reports, framing and a client's feed.

use drift::by_id::ById;
use drift::client::{
    alive_count, can_fulfill, cargo_units, chain_text, contract_rows, contract_task, finance_panel,
    find_player_trader, flash_site, fmt_amounts, good_rows, is_combat, jump_offers, launch_ship,
    log_rows, map_routes, open_count, pirates_lost, status_text, stock_state, system_at, watch_tick,
    whereabouts_text, Beat, Cover, Filters, Standing, StockState, NODE_PICK_RADIUS,
};
use drift::cockpit::{
    arrived, berth_of, bolt_strikes, bounty_after, by_distance, cue_text, docked_text, flying_text, follow,
    has_room, lock_keys, loot, navy_stance, patrols_at, system_flavour, Browse, Canister, Cockpit,
    DockStep, Readout, Scenery, Shooter, Struck, FULL_RACK, MAX_TRADE,
};
use drift::command::Command;
use drift::contract::{Contract, ContractKind, ContractState};
use drift::data::{
    CommodityAmount, CommodityDef, MergedContent, Point, ProductionRecipe, ShipDef, SystemDef,
};
use drift::encounter::{Combatant, Outcome};
use drift::event::{log, EventCategory, SimEvent, EVENT_CAP};
use drift::feed::{refusal_text, Feed, EVENT_LOG_CAP};
use drift::finance::{Future, FutureSide, Loan, Policy};
use drift::ids::{
    CommodityId, ContractId, LoanId, PatrolId, PlayerId, ShipId, SystemId, Tick, TraderId,
};
use drift::market::{Market, MarketGood};
use drift::patrol::Patrol;
use drift::pricing::{builtin_pricing, PricingStrategy};
use drift::proto::{body_length, frame, unframe, ClientMessage, Front, MAX_MSG_BYTES};
use drift::registry::{link, Registry};
use drift::report::{
    average_prices, entrant, event_text, linked_text, piracy_text, stride, total_trader_capital,
    verdict_text,
};
use drift::scene::{build_battles, build_scene, SceneBattle, SceneEdge};
use drift::trader::{Trader, TraderLocation};
use drift::world::observe::EncounterView;
use drift::world::PiracyStats;
use std::collections::VecDeque;

fn text(s: &str) -> String {
    s.to_string()
}

fn good(id: &str, name: &str) -> CommodityDef {
    CommodityDef {
        id: text(id),
        name: text(name),
        base_price: 100,
        unit_mass: 2,
        elasticity: 1.0f64.to_bits(),
        category: text("x"),
    }
}

fn place(id: &str, name: &str, links: &[&str]) -> SystemDef {
    SystemDef {
        id: text(id),
        name: text(name),
        position: Point { x: 0, y: 0 },
        industries: vec![],
        connections: links.iter().map(|s| text(s)).collect(),
        initial_stock: vec![],
        pricing: text("supply_demand_v1"),
        danger: 0,
    }
}

fn hull(id: &str) -> ShipDef {
    ShipDef {
        id: text(id),
        name: text(id),
        cargo_capacity: 10,
        jump_speed: 1.0f64.to_bits(),
        hull: 25,
        max_speed: 1.0f64.to_bits(),
        combat: None,
        visual: None,
    }
}

fn registry() -> Registry {
    let amount = |c: &str, qty: u32| CommodityAmount { commodity: text(c), qty };
    link(
        MergedContent {
            scripts: vec![],
            commodities: vec![good("core:food", "Food"), good("core:ore", "Ore")],
            recipes: vec![ProductionRecipe {
                id: text("core:smelt"),
                inputs: vec![amount("core:ore", 2)],
                outputs: vec![amount("core:food", 1)],
                rate: 3,
                elasticity: 0,
            }],
            systems: vec![
                place("core:lave", "Lave", &["core:leesti", "core:zaonce"]),
                place("core:leesti", "Leesti", &["core:lave"]),
                place("core:zaonce", "Zaonce", &[]),
            ],
            ships: vec![hull("core:shuttle"), hull("core:cobra_mk3")],
        },
        &builtin_pricing().names(),
    )
    .unwrap()
}

#[test]
fn only_fights_flash_on_the_map() {
    assert!(is_combat(EventCategory::Combat));
    assert!(is_combat(EventCategory::Piracy));
    assert!(is_combat(EventCategory::Navy));
    assert!(!is_combat(EventCategory::System));
}

#[test]
fn can_fulfill_requires_holder_location_and_cargo() {
    let ship = ShipId(0);
    let dest = SystemId(2);
    let food = CommodityId(1);
    let player = PlayerId(0);
    let tid = TraderId(5);

    let contract = Contract {
        id: ContractId(1),
        kind: ContractKind::Delivery { commodity: food, quantity: 10 },
        destination: dest,
        origin: SystemId(0),
        reward: 500,
        deadline: Tick(100),
        state: ContractState::Accepted { player, trader: tid },
    };

    let mut ready = Trader::owned(tid, ship, 1000, dest, player);
    ready.cargo.insert(food, 10);
    assert!(can_fulfill(&ready, &contract));

    let mut short = Trader::owned(tid, ship, 1000, dest, player);
    short.cargo.insert(food, 9);
    assert!(!can_fulfill(&short, &contract));

    let mut elsewhere = Trader::owned(tid, ship, 1000, SystemId(3), player);
    elsewhere.cargo.insert(food, 10);
    assert!(!can_fulfill(&elsewhere, &contract));

    let mut other = Trader::owned(TraderId(9), ship, 1000, dest, player);
    other.cargo.insert(food, 10);
    assert!(!can_fulfill(&other, &contract));

    let open = Contract { state: ContractState::Open, ..contract };
    assert!(!can_fulfill(&ready, &open));

    let courier = Contract { kind: ContractKind::Courier, ..contract };
    let empty = Trader::owned(tid, ship, 1000, dest, player);
    assert!(can_fulfill(&empty, &courier));

    let unmet = Contract { kind: ContractKind::Bounty { target: 3, progress: 2 }, ..contract };
    assert!(!can_fulfill(&empty, &unmet));
    let met = Contract { kind: ContractKind::Bounty { target: 3, progress: 3 }, ..contract };
    assert!(can_fulfill(&empty, &met));
}

#[test]
fn stock_state_classifies_surplus_and_shortage() {
    assert_eq!(stock_state(200, 100).label(), "surplus");
    assert_eq!(stock_state(50, 100).label(), "shortage");
    assert_eq!(stock_state(100, 100).label(), "normal");
    assert_eq!(stock_state(10, 0).label(), "");
    assert_eq!(stock_state(10, 0), StockState::Unknown);
}

#[test]
fn find_player_trader_matches_only_the_owner() {
    let reg = registry();
    let ship = reg.ship_id("core:cobra_mk3").unwrap();
    let at = reg.system_id("core:lave").unwrap();

    let npc = Trader::new(TraderId(1), ship, 100, at);
    let mine = Trader::owned(TraderId(2), ship, 100, at, PlayerId(0));
    let other = Trader::owned(TraderId(3), ship, 100, at, PlayerId(9));
    let traders = vec![npc, mine, other];

    assert_eq!(find_player_trader(&traders, PlayerId(0)).map(|t| t.id), Some(TraderId(2)));
    assert!(find_player_trader(&traders, PlayerId(5)).is_none());
}

fn event(tick: u64, category: EventCategory, system: Option<SystemId>) -> SimEvent {
    SimEvent { tick: Tick(tick), category, system, message: format!("event {tick}") }
}

#[test]
fn the_log_shows_the_newest_of_what_is_asked_for() {
    let events = vec![
        event(1, EventCategory::Combat, Some(SystemId(4))),
        event(2, EventCategory::System, None),
        event(3, EventCategory::Navy, Some(SystemId(5))),
    ];
    let rows = log_rows(&events, Filters::all());
    assert_eq!(rows.len(), 3);
    let no_system = Filters { system: false, ..Filters::all() };
    let shown: Vec<EventCategory> = log_rows(&events, no_system).iter().map(|r| r.0).collect();
    assert_eq!(shown.len(), 2);
    assert!(!shown.contains(&EventCategory::System));
    assert_eq!(flash_site(&events[0], Filters::all()), Some(SystemId(4)));
    assert_eq!(flash_site(&events[1], Filters::all()), None);
    assert_eq!(flash_site(&events[2], Filters { navy: false, ..Filters::all() }), None);
}

#[test]
fn the_board_offers_what_the_player_can_do() {
    let reg = registry();
    let player = PlayerId(0);
    let ship = Trader::owned(TraderId(7), ShipId(0), 100, SystemId(1), player);
    let base = Contract {
        id: ContractId(3),
        kind: ContractKind::Courier,
        destination: SystemId(1),
        origin: SystemId(0),
        reward: 250,
        deadline: Tick(30),
        state: ContractState::Open,
    };
    let mine = Contract { state: ContractState::Accepted { player, trader: TraderId(7) }, ..base };
    let taken =
        Contract { state: ContractState::Accepted { player, trader: TraderId(8) }, ..base };
    let board = vec![base, mine, taken];
    assert_eq!(open_count(&board), 1);
    let rows = contract_rows(&reg, &board, player, Some(&ship), Tick(10));
    assert_eq!(rows[0].standing, Standing::Open);
    assert_eq!(
        rows[0].offer,
        Some(Command::AcceptContract { player, trader: TraderId(7), contract: ContractId(3) })
    );
    assert_eq!((rows[0].to.as_str(), rows[0].reward, rows[0].left), ("core:leesti", 250, 20));
    assert_eq!(rows[1].standing, Standing::Yours);
    assert_eq!(
        rows[1].offer,
        Some(Command::FulfillContract { player, trader: TraderId(7), contract: ContractId(3) })
    );
    assert_eq!(rows[2].standing, Standing::Taken);
    assert_eq!(rows[2].offer, None);
    let watching = contract_rows(&reg, &board, player, None, Tick(50));
    assert_eq!(watching[0].offer, None);
    assert_eq!(watching[1].standing, Standing::Taken);
    assert_eq!(watching[0].left, 0);
    assert_eq!(rows[0].task, contract_task(&reg, &base));
}

#[test]
fn the_finance_panel_shows_the_ships_own_positions() {
    let reg = registry();
    let player = PlayerId(0);
    let id = TraderId(4);
    let t = Trader::owned(id, ShipId(0), 300, SystemId(0), player);
    let loan = Loan {
        id: LoanId(9),
        player,
        borrower: id,
        principal: 500,
        outstanding: 450,
        due: Tick(90),
    };
    let other = Loan { id: LoanId(10), borrower: TraderId(5), ..loan };
    let policy = Policy { player, insured: id, payout: 4000, expiry: Tick(60) };
    let future = Future {
        player,
        holder: id,
        commodity: CommodityId(1),
        quantity: 5,
        side: FutureSide::Short,
        strike: 40,
        maturity: Tick(70),
    };
    let bare = finance_panel(&reg, &t, player, &vec![other, loan], &vec![], &vec![future], Tick(50));
    assert!(bare.docked);
    assert_eq!(bare.loans.len(), 1);
    assert_eq!(bare.loans[0].loan.id, LoanId(9));
    assert_eq!(bare.loans[0].left, 40);
    assert_eq!(
        bare.loans[0].offer,
        Some(Command::RepayLoan { player, trader: id, loan: LoanId(9), amount: 300 }),
        "as much as the capital covers"
    );
    assert_eq!(bare.cover, Cover::Bare(Some(Command::BuyInsurance { player, trader: id })));
    assert_eq!(bare.futures.len(), 1);
    assert_eq!((bare.futures[0].side.as_str(), bare.futures[0].good.as_str()), ("Short", "core:ore"));
    assert_eq!(
        bare.borrow_offer(player, id, 70),
        Some(Command::TakeLoan { player, trader: id, principal: 70 })
    );
    let insured = finance_panel(&reg, &t, player, &vec![], &vec![policy], &vec![], Tick(50));
    assert_eq!(insured.cover, Cover::Insured { payout: 4000, left: 10 });
}

#[test]
fn the_pilot_panel_lists_goods_and_jumps() {
    let reg = registry();
    let player = PlayerId(0);
    let mut goods: ById<MarketGood> = ById::new();
    goods.insert(CommodityId(1), MarketGood { stock: 50, equilibrium: 40, price: 120 });
    let mut cargo: ById<u32> = ById::new();
    cargo.insert(CommodityId(1), 3);
    cargo.insert(CommodityId(0), 4);
    let rows = good_rows(&reg, &goods, &cargo);
    assert_eq!(rows.len(), 1);
    assert_eq!((rows[0].price, rows[0].held), (120, 3));
    assert_eq!(
        rows[0].sell_offer(player, TraderId(1), 10),
        Some(Command::Sell { player, trader: TraderId(1), commodity: CommodityId(1), qty: 3 })
    );
    assert_eq!(
        rows[0].buy_offer(player, TraderId(1), 10),
        Command::Buy { player, trader: TraderId(1), commodity: CommodityId(1), qty: 10 }
    );
    assert_eq!(cargo_units(&reg, &cargo), 7);
    let jumps = jump_offers(&reg, player, TraderId(1), SystemId(0));
    assert_eq!(jumps.len(), 2);
    assert_eq!(jumps[1], Command::Jump { player, trader: TraderId(1), dest: SystemId(2) });
    assert_eq!(launch_ship(&reg), ShipId(1));
    assert_eq!(map_routes(&reg).len(), 2, "a route both ways is drawn once");
}

#[test]
fn the_window_puts_things_in_words() {
    let reg = registry();
    assert_eq!(
        whereabouts_text(&reg, &TraderLocation::Docked(SystemId(0))),
        "Docked at core:lave"
    );
    let away = TraderLocation::InTransit {
        origin: SystemId(0),
        dest: SystemId(1),
        departure: Tick(1),
        arrival: Tick(9),
    };
    assert_eq!(whereabouts_text(&reg, &away), "In transit to core:leesti (arrives tick 9)");
    assert_eq!(
        whereabouts_text(&reg, &TraderLocation::Destroyed { respawn: Tick(12) }),
        "Destroyed; respawns at tick 12"
    );
    assert_eq!(status_text(true, "host:1"), "connected to host:1");
    assert_eq!(status_text(false, "host:1"), "disconnected from host:1");
    let r = reg.recipe(reg.recipe_id("core:smelt").unwrap());
    assert_eq!(fmt_amounts(&reg, &r.inputs), "2 core:ore");
    assert_eq!(chain_text(&reg, r), "2 core:ore \u{2192} 1 core:food");
    let stats = PiracyStats { pirates_destroyed: 3, pirates_suppressed: 4, ..PiracyStats::default() };
    assert_eq!(pirates_lost(&stats), 7);
    assert_eq!(alive_count(&EncounterView { system: SystemId(0), combatants: vec![] }), 0);
}

#[test]
fn docking_refills_and_the_keys_browse() {
    let mut c = Cockpit::new();
    assert_eq!(c.dock_key(false), DockStep::Nothing);
    assert!(c.missile_key(true, true));
    assert!(!c.missile_key(false, true));
    assert_eq!(c.missiles, FULL_RACK - 1);
    c.weapon_key();
    assert_eq!(c.weapon, 1);
    assert_eq!(c.dock_key(true), DockStep::Docked);
    assert_eq!(c.missiles, FULL_RACK);
    assert!(!c.missile_key(true, true), "no launch from the dock");
    let down = Browse { up: false, down: true, fewer: false, more: false };
    c.browse(down, 2);
    c.browse(down, 2);
    c.browse(down, 2);
    assert_eq!(c.cursor, 1, "never off the list");
    for _ in 0..100 {
        c.browse(Browse { down: false, more: true, ..down }, 2);
    }
    assert_eq!(c.qty, MAX_TRADE);
    for _ in 0..100 {
        c.browse(Browse { down: false, fewer: true, ..down }, 2);
    }
    assert_eq!(c.qty, 1);
    assert_eq!(c.dock_key(false), DockStep::Undocked);
    let reg = registry();
    assert_eq!(c.jump_key(&reg, Some(SystemId(0)), 2), Some(SystemId(2)));
    assert_eq!(c.jump_key(&reg, Some(SystemId(0)), 3), None);
    assert_eq!(c.jump_key(&reg, None, 1), None);
}

#[test]
fn the_surroundings_follow_the_player() {
    let mut shown = None;
    assert_eq!(follow(&mut shown, Some(SystemId(1))), Scenery::Rebuild(SystemId(1)));
    assert_eq!(follow(&mut shown, Some(SystemId(1))), Scenery::Keep);
    assert_eq!(follow(&mut shown, None), Scenery::Clear);
    assert_eq!(follow(&mut shown, Some(SystemId(1))), Scenery::Rebuild(SystemId(1)));
    let reg = registry();
    let stats = reg.ship(ShipId(0)).stats();
    let fleet = vec![
        Patrol::new(PatrolId(1), ShipId(0), &stats, 10, SystemId(0)),
        Patrol::new(PatrolId(2), ShipId(0), &stats, 10, SystemId(1)),
    ];
    let met: Vec<PatrolId> = patrols_at(&fleet, SystemId(1)).iter().map(|p| p.id).collect();
    assert_eq!(met, vec![PatrolId(2)]);
    let t = Trader::owned(TraderId(1), ShipId(0), 5, SystemId(2), PlayerId(0));
    assert_eq!(berth_of(&t), Some(SystemId(2)));
}

#[test]
fn crime_turns_the_navy() {
    assert_eq!(navy_stance(0), (Struck::Hostile, Shooter::Navy));
    let wanted = bounty_after(0, Shooter::Player, Struck::Navy);
    assert_eq!(wanted, 6);
    assert_eq!(bounty_after(6, Shooter::Player, Struck::Hostile), 6);
    assert_eq!(navy_stance(wanted), (Struck::Player, Shooter::Hostile));
    assert!(bolt_strikes(Shooter::Hostile, Struck::Player));
    assert!(!bolt_strikes(Shooter::Navy, Struck::Player));
    assert!(!bolt_strikes(Shooter::Player, Struck::Player));
}

#[test]
fn loot_follows_from_the_pirate() {
    assert_eq!(
        loot(PatrolId(5), 3),
        vec![
            Canister { commodity: CommodityId(2), qty: 3, seed: 5 },
            Canister { commodity: CommodityId(0), qty: 1, seed: 12 },
        ]
    );
    assert_eq!(loot(PatrolId(4), 3).len(), 1);
    let reg = registry();
    let mut t = Trader::owned(TraderId(1), ShipId(0), 5, SystemId(0), PlayerId(0));
    assert!(has_room(&reg, &t));
    t.cargo.insert(CommodityId(0), 5);
    assert!(!has_room(&reg, &t), "five units of mass two fill the hold of ten");
}

#[test]
fn the_lock_goes_from_the_nearest_outward() {
    let ds: Vec<u32> = [30.0f32, 10.0, 20.0].iter().map(|d| d.to_bits()).collect();
    assert_eq!(by_distance(&ds), vec![1, 2, 0]);
    let contacts = vec![11u64, 12, 13];
    assert_eq!(lock_keys(None, &contacts, false, true), Some(11));
    assert_eq!(lock_keys(Some(13), &contacts, false, true), Some(11));
    assert_eq!(lock_keys(Some(12), &contacts, false, false), Some(12));
    assert_eq!(lock_keys(Some(12), &contacts, true, false), None);
    assert_eq!(lock_keys(Some(99), &contacts, false, false), None, "gone contacts are dropped");
    assert_eq!(cue_text(false, true, true, true), "NO SOLUTION");
    assert_eq!(cue_text(true, true, false, true), "out of gimbal arc");
    assert_eq!(cue_text(true, false, true, false), "fly nose onto the pip");
}

#[test]
fn a_system_looks_the_same_every_time() {
    let a = system_flavour(SystemId(3));
    assert_eq!(a, system_flavour(SystemId(3)));
    let h = 3u32.wrapping_mul(2654435761);
    assert_eq!((a.hue, a.star, a.right), (h % 360, h / 360 % 5, h % 2 == 0));
}

#[test]
fn the_cockpit_reads_out_the_flight_and_the_market() {
    let reg = registry();
    let mut c = Cockpit::new();
    let r = Readout {
        capital: 900,
        hold: 4,
        capacity: 10,
        hostiles: 2,
        navy: 1,
        bounty: 60,
        weapon: "PULSE",
        beam: false,
        gimballed: true,
        ecm_ready: true,
        near: true,
        danger: "0.40",
    };
    let shown = flying_text(&reg, &c, SystemId(0), &r);
    assert_eq!(
        shown,
        "SYSTEM  Lave   danger 0.40\nCapital 900 cr     CARGO 4/10     HOSTILES 2   NAVY 1\n\
         STATUS  FUGITIVE   bounty 60\nWEAPON  PULSE (gimbal)  [Tab switch]\n\
         MISSILES 4  [M] fire     ECM ready  [E]\n\nJump to:\n  [1] Leesti\n  [2] Zaonce\n\n\
         [Space] DOCK   W/S throttle  J torus  arrows roll/pitch  , . yaw  T lock  A fire  \
         M msl  E ecm"
    );
    c.dock_key(true);
    let mut goods: ById<MarketGood> = ById::new();
    goods.insert(CommodityId(0), MarketGood { stock: 50, equilibrium: 40, price: 120 });
    let rows = good_rows(&reg, &goods, &ById::new());
    let shown = docked_text(&reg, &c, SystemId(0), 900, &rows);
    assert_eq!(
        shown,
        "DOCKED \u{2014} Lave\nCapital 900 cr     trade qty 5\n\n\
         > core:food  price   120   stock    50   held   0\n\n\
         Up/Down select   [ / ] qty   B buy   S sell   Space undock"
    );
    assert_eq!(
        c.trade(&rows, PlayerId(0), TraderId(1), true),
        Some(Command::Buy {
            player: PlayerId(0),
            trader: TraderId(1),
            commodity: CommodityId(0),
            qty: 5
        })
    );
}

#[test]
fn a_run_is_reported() {
    let reg = registry();
    assert_eq!(linked_text(&reg), "ok: 2 commodities, 1 recipes, 3 systems linked");
    let e = event(42, EventCategory::Piracy, None);
    assert_eq!(event_text(&e), "[    42] Piracy: event 42");
    assert_eq!(stride(10, 4), 4);
    assert_eq!(stride(3, 4), 3);
    assert_eq!(verdict_text(Outcome::Victory(1), 30), "faction 1 wins after 30 ticks");
    assert_eq!(verdict_text(Outcome::Draw, 30), "mutual destruction after 30 ticks");
    assert_eq!(verdict_text(Outcome::Ongoing, 30), "stalemate: undecided after 30 ticks");
    assert_eq!(piracy_text(&PiracyStats::default(), 0, 3), "");
    assert!(piracy_text(&PiracyStats::default(), 2, 3).contains("2 pirates active, 3 navy active"));
    let traders = vec![
        Trader::new(TraderId(1), ShipId(0), 40, SystemId(0)),
        Trader::new(TraderId(2), ShipId(0), 2, SystemId(0)),
    ];
    assert_eq!(total_trader_capital(&traders), 42);
    assert!(entrant(&reg, "core:nope").is_none());
    let e = entrant(&reg, "core:shuttle").unwrap();
    assert!(!e.armed);
    assert_eq!(e.hull, 25);
    let mut goods: ById<MarketGood> = ById::new();
    goods.insert(CommodityId(1), MarketGood { stock: 50, equilibrium: 40, price: 120 });
    let market = |goods: ById<MarketGood>, s: u32| Market {
        system: SystemId(s),
        goods,
        pricing: PricingStrategy::SupplyDemandV1,
    };
    let mut dear: ById<MarketGood> = ById::new();
    dear.insert(CommodityId(1), MarketGood { stock: 5, equilibrium: 40, price: 200 });
    let totals = average_prices(&reg, &vec![market(goods, 0), market(dear, 1)]);
    assert_eq!(totals.len(), 1);
    assert_eq!((totals[0].commodity, totals[0].sum, totals[0].markets), (CommodityId(1), 320, 2));
}

fn to_body(m: &ClientMessage) -> Vec<u8> {
    match m {
        ClientMessage::Hello { content_hash } => {
            serde_json::to_vec(&("hello", *content_hash as i128, 0u32, 0u32, 0i64))
        }
        ClientMessage::Command(Command::Spawn { player, ship, at, capital }) => {
            serde_json::to_vec(&("spawn", player.0 as i128, ship.0, at.0, *capital))
        }
        _ => unreachable!(),
    }
    .unwrap()
}

fn from_body(body: &[u8]) -> ClientMessage {
    let (tag, n, ship, at, capital): (String, i128, u32, u32, i64) =
        serde_json::from_slice(body).unwrap();
    if tag == "hello" {
        ClientMessage::Hello { content_hash: n as u64 }
    } else {
        ClientMessage::Command(Command::Spawn {
            player: PlayerId(n as u32),
            ship: ShipId(ship),
            at: SystemId(at),
            capital,
        })
    }
}

#[test]
fn client_message_round_trips_through_framing() {
    let msg = ClientMessage::Command(Command::Spawn {
        player: PlayerId(0),
        ship: ShipId(1),
        at: SystemId(2),
        capital: 1000,
    });
    let body = to_body(&msg);
    let mut stream = frame(&body);
    stream.extend([1, 2, 3]);
    match unframe(&stream) {
        Front::Whole(back) => {
            assert_eq!(msg, from_body(&back));
        }
        _ => panic!("the frame is whole"),
    }
    assert!(matches!(unframe(&stream[..body.len()].to_vec()), Front::Incomplete));
    let hello = ClientMessage::Hello { content_hash: u64::MAX };
    assert_eq!(hello, from_body(&to_body(&hello)));
}

#[test]
fn oversized_length_prefix_is_rejected() {
    let bytes = [0xFF, 0xFF, 0xFF, 0xFF];
    assert!(body_length(&bytes).is_err());
    assert!(matches!(unframe(&bytes.to_vec()), Front::TooLong(_)));
    assert_eq!(
        body_length(&bytes).unwrap_err().message(),
        "message length 4294967295 exceeds the 67108864-byte cap"
    );
    assert_eq!(body_length(&MAX_MSG_BYTES.to_be_bytes()).ok(), Some(67108864));
    assert!(body_length(&(MAX_MSG_BYTES + 1).to_be_bytes()).is_err());
}

#[test]
fn a_feed_keeps_the_newest_events_and_the_last_view() {
    let mut f: Feed<u32> = Feed::new();
    f.apply(vec![event(0, EventCategory::System, None)], Some(1));
    f.apply((1..=EVENT_LOG_CAP as u64).map(|t| event(t, EventCategory::Navy, None)).collect(), None);
    assert_eq!(f.events.len(), EVENT_LOG_CAP);
    assert_eq!(f.events[0].tick, Tick(1));
    assert_eq!(f.latest, Some(1));
    assert!(f.connected);
    f.lose();
    assert!(!f.connected);
    assert!(refusal_text("content mismatch").contains("content mismatch"));
}

#[test]
fn the_event_log_is_bounded() {
    let mut events: VecDeque<SimEvent> = VecDeque::new();
    for t in 0..EVENT_CAP as u64 + 5 {
        log(&mut events, event(t, EventCategory::System, None));
    }
    assert_eq!(events.len(), EVENT_CAP);
    assert_eq!(events[0].tick, Tick(5));
}

#[test]
fn system_at_picks_the_node_under_the_click() {
    let reg = registry();
    let radius = f64::from_bits(NODE_PICK_RADIUS) as f32;
    let nodes = [(100.0f32, 100.0f32), (400.0, 300.0), (700.0, 500.0)];
    let pick = |x: f32, y: f32| {
        let distances: Vec<u64> = nodes
            .iter()
            .map(|(nx, ny)| (((nx - x).powi(2) + (ny - y).powi(2)).sqrt() as f64).to_bits())
            .collect();
        system_at(&reg, &distances)
    };
    let sys = reg.system_id("core:lave").unwrap();
    assert_eq!(pick(100.0, 100.0), Some(sys));
    assert_eq!(pick(100.0 + radius - 1.0, 100.0), Some(sys));
    assert_eq!(pick(400.0, 300.0 + radius), reg.system_id("core:leesti"));
    assert_eq!(pick(-500.0, -500.0), None);
}

#[test]
fn a_servers_pace_is_measured_between_two_ticks() {
    let mut last = None;
    assert_eq!(watch_tick(&mut last, 5, 0.1f64.to_bits()), Beat::Fresh);
    assert_eq!(watch_tick(&mut last, 5, 0.1f64.to_bits()), Beat::Still);
    assert_eq!(watch_tick(&mut last, 6, 0.25f64.to_bits()), Beat::Measured);
    assert_eq!(watch_tick(&mut last, 7, 0), Beat::Fresh);
    assert_eq!(last, Some(7));
}

#[test]
fn the_scene_shows_every_route_once_and_every_ship() {
    let reg = registry();
    let stats = reg.ship(ShipId(0)).stats();
    let local = Point { x: 30.0f64.to_bits(), y: (-30.0f64).to_bits() };
    let mut lost = Combatant::new(ShipId(0), 1, stats, 10, 0, local);
    lost.alive = false;
    let flying = Combatant::new(ShipId(0), 0, stats, 10, 0, local);
    let battles = vec![EncounterView { system: SystemId(1), combatants: vec![flying, lost] }];
    let scene = build_scene(&reg, &battles);
    let names: Vec<&str> = scene.systems.iter().map(|s| s.name.as_str()).collect();
    assert_eq!(names, vec!["Lave", "Leesti", "Zaonce"]);
    let origin = Point { x: 0, y: 0 };
    assert_eq!(scene.edges, vec![SceneEdge { a: origin, b: origin }; 2]);
    let seen: Vec<(u8, bool)> = scene.combatants.iter().map(|c| (c.faction, c.alive)).collect();
    assert_eq!(seen, vec![(0, true), (1, false)]);
    assert_eq!(scene.combatants[0].local, local);
    assert_eq!(
        build_battles(&reg, &battles),
        vec![SceneBattle { center: origin, alive: 1, total: 2 }]
    );
}

#[test]
fn the_ship_is_reset_on_arrival_and_nowhere_else() {
    let mut rendered = None;
    assert!(!arrived(&mut rendered, None));
    assert_eq!(rendered, None);
    assert!(arrived(&mut rendered, Some(SystemId(1))));
    assert_eq!(rendered, Some(SystemId(1)));
    assert!(!arrived(&mut rendered, Some(SystemId(1))));
    assert!(!arrived(&mut rendered, None), "in flight the last system stays rendered");
    assert_eq!(rendered, Some(SystemId(1)));
    assert!(!arrived(&mut rendered, Some(SystemId(1))));
    assert!(arrived(&mut rendered, Some(SystemId(2))));
    assert_eq!(rendered, Some(SystemId(2)));
}
