//! What the terminal and the event log say, to the letter.

use drift::by_id::ById;
use drift::client::finance_panel;
use drift::command::Command;
use drift::console::{
    contracts_text, dashboard, finance_text, loans_text, map_text, total_debt, Scene,
};
use drift::contract::{Contract, ContractKind, ContractState};
use drift::data::{CommodityDef, MergedContent, Point, ShipDef, SystemDef};
use drift::finance::{Future, FutureSide, Loan, Policy};
use drift::ids::{
    CommodityId, ContractId, LoanId, PlayerId, RecipeId, ShipId, SystemId, Tick, TraderId,
};
use drift::market::{Market, MarketGood};
use drift::pricing::{builtin_pricing, PricingStrategy};
use drift::registry::{link, Registry};
use drift::text::{i64_text, join, u64_text};
use drift::trader::{Trader, TraderLocation};
use drift::world::messages::{
    accepted_text, ambush_lost_text, ambush_won_text, borrowed_text, called_text,
    compensated_text, expired_text, fulfilled_text, hunted_text, insured_text, killed_text,
    lost_text, opened_text, posted_bounty_text, posted_courier_text, posted_delivery_text,
    quota_text, repaid_text, respawned_text, settled_text,
};

fn text(s: &str) -> String {
    s.to_string()
}

fn good(id: &str, name: &str) -> CommodityDef {
    CommodityDef {
        id: text(id),
        name: text(name),
        base_price: 100,
        unit_mass: 2,
        elasticity: 1.0f64.to_bits(),
        category: text("x"),
    }
}

fn place(id: &str, name: &str, links: &[&str]) -> SystemDef {
    SystemDef {
        id: text(id),
        name: text(name),
        position: Point { x: 0, y: 0 },
        industries: vec![],
        connections: links.iter().map(|s| text(s)).collect(),
        initial_stock: vec![],
        pricing: text("supply_demand_v1"),
        danger: 0,
    }
}

fn registry() -> Registry {
    link(
        MergedContent {
            scripts: vec![],
            commodities: vec![good("core:food", "Food"), good("core:ore", "Ore")],
            recipes: vec![],
            systems: vec![
                place("core:lave", "Lave", &["core:leesti", "core:zaonce"]),
                place("core:leesti", "Leesti", &["core:lave"]),
                place("core:zaonce", "Zaonce", &[]),
            ],
            ships: vec![ShipDef {
                id: text("core:shuttle"),
                name: text("Shuttle"),
                cargo_capacity: 10,
                jump_speed: 1.0f64.to_bits(),
                hull: 25,
                max_speed: 1.0f64.to_bits(),
                combat: None,
                visual: None,
            }],
        },
        &builtin_pricing().names(),
    )
    .unwrap()
}

fn market() -> Market {
    let mut goods: ById<MarketGood> = ById::new();
    goods.insert(CommodityId(1), MarketGood { stock: 50, equilibrium: 40, price: 120 });
    goods.insert(CommodityId(0), MarketGood { stock: 12345, equilibrium: 40, price: 7 });
    Market { system: SystemId(0), pricing: PricingStrategy::SupplyDemandV1, goods }
}

fn contract(id: u64, state: ContractState) -> Contract {
    Contract {
        id: ContractId(id),
        kind: ContractKind::Delivery { commodity: CommodityId(1), quantity: 6 },
        destination: SystemId(1),
        origin: SystemId(0),
        reward: 250,
        deadline: Tick(30),
        state,
    }
}

fn loan(id: u64, borrower: u64, outstanding: i64) -> Loan {
    Loan {
        id: LoanId(id),
        player: PlayerId(0),
        borrower: TraderId(borrower),
        principal: 500,
        outstanding,
        due: Tick(90),
    }
}

fn in_transit() -> TraderLocation {
    TraderLocation::InTransit {
        origin: SystemId(0),
        dest: SystemId(1),
        departure: Tick(10),
        arrival: Tick(20),
    }
}

#[test]
fn the_dashboard_shows_a_docked_ship() {
    let reg = registry();
    let mut ship = Trader::owned(TraderId(7), ShipId(0), 980, SystemId(0), PlayerId(0));
    let markets = vec![market(), market(), market()];
    let dangers = vec![text("0.10"), text("0.25"), text("0.90")];
    let empty = vec![ship.clone()];
    let none: Vec<Contract> = vec![];
    let free: Vec<Loan> = vec![];
    let scene = Scene {
        reg: &reg,
        now: Tick(12),
        markets: &markets,
        traders: &empty,
        contracts: &none,
        loans: &free,
        dangers: &dangers,
    };
    assert_eq!(
        dashboard(&scene, TraderId(7)),
        "\n-- Tick 12 --\nAt Lave (danger 0.10)    Capital: 980 cr\nHold: empty [0/10]\n\
         Market:\n  Food         price      7   stock 12345\n  \
         Ore          price    120   stock    50\nJumps: Leesti(d0.25)  Zaonce(d0.90)\n"
    );
    assert_eq!(dashboard(&scene, TraderId(8)), "You have no ship.");
    ship.cargo.insert(CommodityId(1), 3);
    ship.cargo.insert(CommodityId(0), 1);
    let laden = vec![ship.clone()];
    let held = vec![
        contract(4, ContractState::Accepted { player: PlayerId(0), trader: TraderId(7) }),
        contract(5, ContractState::Open),
    ];
    let owed = vec![loan(1, 7, 300), loan(2, 8, 40), loan(3, 7, 5)];
    assert_eq!(total_debt(&owed, TraderId(7)), 305);
    let scene = Scene { traders: &laden, contracts: &held, loans: &owed, ..scene };
    assert_eq!(
        dashboard(&scene, TraderId(7)),
        "\n-- Tick 12 --\nAt Lave (danger 0.10)    Capital: 980 cr\n\
         Hold: Food x1, Ore x3 [8/10]\nContracts held: #4 (6 Ore -> Leesti)\n\
         Debt: 305 cr owed\n\
         Market:\n  Food         price      7   stock 12345\n  \
         Ore          price    120   stock    50\nJumps: Leesti(d0.25)  Zaonce(d0.90)\n"
    );
    ship.location = in_transit();
    let flying = vec![ship];
    let scene = Scene { traders: &flying, ..scene };
    assert_eq!(dashboard(&scene, TraderId(7)), "In transit...");
    assert_eq!(
        map_text(&reg, &dangers),
        "\nSystems:\n  Lave       danger 0.10  -> Leesti, Zaonce\n  \
         Leesti     danger 0.25  -> Lave\n  Zaonce     danger 0.90  -> \n"
    );
}

#[test]
fn the_lists_are_laid_out_in_columns() {
    let reg = registry();
    let id = TraderId(7);
    assert_eq!(
        contracts_text(&reg, &vec![], Tick(10), id),
        "\nNo contracts on the board.\n"
    );
    let board = vec![
        contract(4, ContractState::Accepted { player: PlayerId(0), trader: id }),
        contract(5, ContractState::Open),
        Contract {
            kind: ContractKind::Bounty { target: 3, progress: 1 },
            ..contract(16, ContractState::Accepted { player: PlayerId(1), trader: TraderId(9) })
        },
    ];
    assert_eq!(
        contracts_text(&reg, &board, Tick(10), id),
        "\nContracts:\n  #4   6 Ore            -> Leesti          250 cr    20t  [yours]\n  \
         #5   6 Ore            -> Leesti          250 cr    20t  [open]\n  \
         #16  bounty 1/3 kills -> Leesti          250 cr    20t  [taken]\n\
         (accept <id> to take one; complete it at its destination, then fulfil <id>)\n"
    );
    assert_eq!(loans_text(&vec![loan(2, 8, 40)], Tick(10), id), "\nNo outstanding loans.\n");
    assert_eq!(
        loans_text(&vec![loan(2, 8, 40), loan(3, 7, 512)], Tick(95), id),
        "\nLoans:\n  #3   owed      512 cr   due in    0t\n\
         (borrow <amount>; repay <id> [amount])\n"
    );
    assert_eq!(
        finance_text(&reg, &vec![], &vec![], &vec![], Tick(10), id),
        "\nFinancial positions:\n  Loans:     none\n  Insurance: none\n  Futures:   none\n"
    );
    let policy = Policy { player: PlayerId(0), insured: id, payout: 4000, expiry: Tick(60) };
    let future = Future {
        player: PlayerId(0),
        holder: id,
        commodity: CommodityId(1),
        quantity: 5,
        side: FutureSide::Short,
        strike: 40,
        maturity: Tick(70),
    };
    assert_eq!(
        finance_text(&reg, &vec![loan(3, 7, 512)], &vec![policy], &vec![future], Tick(50), id),
        "\nFinancial positions:\n  Loan #3   owed 512 cr, due in 40t\n  \
         Insurance: covered for 4000 cr (lapses in 10t)\n  \
         Future:    Short 5 Ore @ 40 cr, matures in 20t\n"
    );
}

#[test]
fn new_positions_are_opened_at_a_station() {
    let reg = registry();
    let (player, id) = (PlayerId(0), TraderId(7));
    let mut t = Trader::owned(id, ShipId(0), 300, SystemId(0), player);
    let docked = finance_panel(&reg, &t, player, &vec![], &vec![], &vec![], Tick(0));
    assert_eq!(
        docked.future_offer(player, id, CommodityId(1), 5, FutureSide::Long),
        Some(Command::OpenFuture {
            player,
            trader: id,
            commodity: CommodityId(1),
            qty: 5,
            side: FutureSide::Long
        })
    );
    t.location = in_transit();
    let flying = finance_panel(&reg, &t, player, &vec![], &vec![], &vec![], Tick(0));
    assert_eq!(flying.future_offer(player, id, CommodityId(1), 5, FutureSide::Long), None);
    assert_eq!(flying.borrow_offer(player, id, 70), None);
}

#[test]
fn the_log_is_worded_as_promised() {
    let (c, t, l) = (ContractId(3), TraderId(7), LoanId(2));
    assert_eq!(accepted_text(c, t), "Contract #3 accepted by trader #7");
    assert_eq!(fulfilled_text(c, t, 250), "Contract #3 fulfilled by trader #7 (+250cr)");
    assert_eq!(borrowed_text(l, 500, t), "Loan #2 of 500cr taken by trader #7");
    assert_eq!(repaid_text(l, 80, t, 420), "Loan #2 repaid 80cr by trader #7 (420cr remaining)");
    assert_eq!(insured_text(t, 4000, 90), "Trader #7 insured for 4000cr (premium 90cr)");
    assert_eq!(
        opened_text(t, FutureSide::Short, 5, "core:ore", 40, 10),
        "Trader #7 opened Short 5 core:ore future @ 40cr (fee 10cr)"
    );
    assert_eq!(killed_text(t, 60), "Trader #7 destroyed a pirate (+60cr)");
    assert_eq!(quota_text(c, t, ""), "Bounty #3 quota met by trader #7");
    assert_eq!(lost_text(t), "Trader #7 destroyed in combat, cargo lost");
    assert_eq!(compensated_text(t, 4000), "Insurance paid trader #7 4000cr for the loss");
    assert_eq!(called_text(l, 420, t), "Loan #2 called: 420cr seized from trader #7");
    assert_eq!(
        settled_text(t, "core:ore", 44, 40, 20),
        "Future settled for trader #7: core:ore @ 44 vs strike 40 -> +20cr"
    );
    assert_eq!(
        settled_text(t, "core:ore", 36, 40, -20),
        "Future settled for trader #7: core:ore @ 36 vs strike 40 -> -20cr"
    );
    assert_eq!(
        settled_text(t, "core:ore", 40, 40, 0),
        "Future settled for trader #7: core:ore @ 40 vs strike 40 -> +0cr"
    );
    assert_eq!(expired_text(c, "core:lave"), "Contract #3 expired, undelivered to core:lave");
    assert_eq!(
        posted_delivery_text(c, 6, "core:ore", "core:lave", 250),
        "Contract #3 posted: deliver 6 core:ore to core:lave for 250cr"
    );
    assert_eq!(
        posted_courier_text(c, "core:lave", "core:leesti", 250),
        "Contract #3 posted: courier run core:lave -> core:leesti for 250cr"
    );
    assert_eq!(
        posted_bounty_text(c, 3, "core:lave", 250),
        "Contract #3 posted: bounty on 3 pirate(s) near core:lave for 250cr"
    );
    assert_eq!(hunted_text("Lave", 2, 0), "Navy engaged pirates at Lave: 2 destroyed");
    assert_eq!(
        hunted_text("Lave", 2, 1),
        "Navy engaged pirates at Lave: 2 destroyed, 1 frigate(s) lost"
    );
    assert_eq!(
        ambush_won_text("Lave", t, 3, 2, 120),
        "Ambush near Lave: trader #7 beat 3 pirate(s), killed 2 (+120cr)"
    );
    assert_eq!(ambush_lost_text("Lave", t), "Ambush near Lave: trader #7 destroyed, cargo lost");
    assert_eq!(respawned_text(t, "Lave"), "Trader #7 respawned at Lave");
}

#[test]
fn numbers_are_written_out_in_full() {
    assert_eq!(u64_text(0), "0");
    assert_eq!(u64_text(u64::MAX), u64::MAX.to_string());
    assert_eq!(i64_text(i64::MIN), i64::MIN.to_string());
    assert_eq!(i64_text(i64::MAX), i64::MAX.to_string());
    assert_eq!(join(&vec![text("a"), text("b")], ", "), "a, b");
    assert_eq!(join(&vec![], ", "), "");
}

#[test]
fn names_are_looked_up_by_handle() {
    let reg = registry();
    assert_eq!(reg.commodity_name(CommodityId(1)), "core:ore");
    assert_eq!(reg.commodity_name(CommodityId(9)), "?");
    assert_eq!(reg.system_name(SystemId(2)), "core:zaonce");
    assert_eq!(reg.system_name(SystemId(3)), "?");
    assert_eq!(reg.recipe_name(RecipeId(0)), "?");
    assert_eq!(reg.recipe_count(), 0);
}
