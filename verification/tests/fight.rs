//! The fight around the player's ship, the cockpit's instruments and the window's panels.

use drift::arena::{
    bay_step, beam_burns, beam_target, bolt_hit, bolts_fly, drifts, fuel_left, injectors, jammed,
    missile_fate, neighbours, orders_for, reports, scoop, Bay, Course, Ecm, Fate, Sight,
    Wing,
};
use drift::by_id::ById;
use drift::cockpit::{Canister, Shooter, Struck, WEAPON_COUNT};
use drift::command::Command;
use drift::data::{
    CommodityAmount, CommodityDef, MergedContent, Point, ProductionRecipe, ShipDef, SystemDef,
};
use drift::flight::{Health, Throttle, WeaponHeat};
use drift::ids::{CommodityId, PatrolId, PlayerId, ShipId, SystemId, Tick, TraderId};
use drift::instruments::{
    ahead, axis, hull_low, radar_blips, spot_of, stagger, star, star_hash, target_text,
    temperature, throttle_keys, weapon, Blip, Lock, Temperature, RADAR_BLIPS,
};
use drift::market::{Market, MarketGood};
use drift::patrol::{Patrol, PatrolLocation};
use drift::pricing::{builtin_pricing, PricingStrategy};
use drift::registry::{link, Registry};
use drift::trader::{Trader, TraderLocation};
use drift::window::{
    flash_lasts, launch_offer, map_dots, market_panel, player_panel, side_panel, Agent, Place,
};
use drift::client::StockState;
use drift::world::PiracyStats;

const PLAYER: PlayerId = PlayerId(0);
const SHIP: TraderId = TraderId(7);

fn n(x: f32) -> u64 {
    f64::from(x).to_bits()
}

fn text(s: &str) -> String {
    s.to_string()
}

fn registry(extra: &[&str]) -> Registry {
    let good = |id: &str| CommodityDef {
        id: text(id),
        name: text("a good"),
        base_price: 100,
        unit_mass: 2,
        elasticity: 1.0f64.to_bits(),
        category: text("x"),
    };
    let place = |id: &str, links: &[&str], works: &[&str]| SystemDef {
        id: text(id),
        name: text("a place"),
        position: Point { x: 0, y: 0 },
        industries: works.iter().map(|s| text(s)).collect(),
        connections: links.iter().map(|s| text(s)).collect(),
        initial_stock: vec![],
        pricing: text("supply_demand_v1"),
        danger: 0,
    };
    let amount = |c: &str, qty: u32| CommodityAmount { commodity: text(c), qty };
    link(
        MergedContent {
            scripts: vec![],
            commodities: vec![good("core:food"), good("core:ore")],
            recipes: vec![
                ProductionRecipe {
                    id: text("core:smelt"),
                    inputs: vec![amount("core:ore", 2)],
                    outputs: vec![amount("core:food", 1)],
                    rate: 3,
                    elasticity: 0,
                },
                ProductionRecipe {
                    id: text("core:dig"),
                    inputs: vec![],
                    outputs: vec![amount("core:ore", 4), amount("core:food", 1)],
                    rate: 3,
                    elasticity: 0,
                },
            ],
            systems: vec![
                place("core:lave", &["core:leesti", "core:zaonce"], &["core:smelt", "core:dig"]),
                place("core:leesti", &["core:lave"], &[]),
                place("core:zaonce", extra, &[]),
            ],
            ships: vec![ShipDef {
                id: text("core:cobra_mk3"),
                name: text("Cobra"),
                cargo_capacity: 10,
                jump_speed: 1.0f64.to_bits(),
                hull: 25,
                max_speed: 1.0f64.to_bits(),
                combat: None,
                visual: None,
            }],
        },
        &builtin_pricing().names(),
    )
    .unwrap()
}

fn patrol(id: u64, location: PatrolLocation) -> Patrol {
    Patrol { id: PatrolId(id), ship: ShipId(0), location, hull: 10, shield: 0 }
}

#[test]
fn a_ship_closes_in_then_circles_and_shoots() {
    let far = orders_for(Wing::Hostile, PatrolId(4), n(151.0), n(-0.1));
    assert_eq!((far.course, far.fires, far.timer), (Course::Close, false, n(-0.1)));
    let near = orders_for(Wing::Hostile, PatrolId(4), n(35.0), n(0.0));
    assert_eq!(near.course, Course::Circle { forward: true });
    assert!(near.fires);
    assert_eq!(near.timer, n(1.15));
    let odd = orders_for(Wing::Navy, PatrolId(5), n(39.0), n(0.2));
    assert_eq!(odd.course, Course::Circle { forward: false });
    assert!(!odd.fires, "still reloading");
    assert!(orders_for(Wing::Navy, PatrolId(5), n(159.0), n(0.0)).fires);
    assert_eq!(orders_for(Wing::Navy, PatrolId(5), n(159.0), n(0.0)).timer, n(1.0));
    assert_eq!(orders_for(Wing::Navy, PatrolId(5), n(0.5), n(1.0)).course, Course::Hold);
    let again = orders_for(Wing::Hostile, PatrolId(4), n(1.0), near.timer);
    assert!(!again.fires, "shots are spaced");
}

#[test]
fn the_police_turn_on_a_wanted_pilot() {
    assert!(Wing::Navy.hunts(0, Struck::Hostile) && !Wing::Navy.hunts(0, Struck::Player));
    assert!(Wing::Navy.hunts(6, Struck::Player) && !Wing::Navy.hunts(6, Struck::Hostile));
    assert_eq!(Wing::Navy.shooter(0), Shooter::Navy);
    assert_eq!(Wing::Navy.shooter(6), Shooter::Hostile);
    assert!(Wing::Hostile.hunts(0, Struck::Player) && Wing::Hostile.hunts(0, Struck::Navy));
    assert!(!Wing::Hostile.hunts(0, Struck::Hostile));
    assert_eq!(Wing::Hostile.shooter(6), Shooter::Hostile);
}

#[test]
fn a_weapon_fires_when_it_may() {
    let cold = WeaponHeat::new();
    let hot = WeaponHeat { heat: n(1.0), cut_out: true };
    assert!(bolts_fly(false, false, true, n(0.0), &cold));
    assert!(!bolts_fly(true, false, true, n(0.0), &cold), "the beam is another matter");
    assert!(!bolts_fly(false, true, true, n(0.0), &cold), "docked");
    assert!(!bolts_fly(false, false, false, n(0.0), &cold), "not held");
    assert!(!bolts_fly(false, false, true, n(0.1), &cold), "reloading");
    assert!(!bolts_fly(false, false, true, n(0.0), &hot), "overheated");
    assert!(beam_burns(true, false, true, &cold));
    assert!(!beam_burns(true, false, true, &hot));
    assert!(!beam_burns(false, false, true, &cold));
}

#[test]
fn the_beam_melts_the_nearest_in_its_cone() {
    let sight = |d: f32, c: f32| Sight { distance: n(d), cosine: n(c) };
    let sights = vec![
        sight(50.0, 0.9),
        sight(100.0, 0.99),
        sight(80.0, 0.985),
        sight(80.0, 1.0),
        sight(131.0, 1.0),
        sight(0.0005, 1.0),
    ];
    assert_eq!(beam_target(&sights), (Some(2), n(80.0)));
    assert_eq!(beam_target(&vec![sight(131.0, 1.0)]), (None, n(130.0)));
    assert_eq!(beam_target(&vec![]), (None, n(130.0)));
}

#[test]
fn a_bolt_strikes_the_first_it_may() {
    let ships = vec![
        (Struck::Player, n(1.0)),
        (Struck::Hostile, n(3.0)),
        (Struck::Navy, n(2.9)),
        (Struck::Hostile, n(0.1)),
    ];
    assert_eq!(bolt_hit(Shooter::Player, &ships), Some(2));
    assert_eq!(bolt_hit(Shooter::Hostile, &ships), Some(0));
    assert_eq!(bolt_hit(Shooter::Navy, &ships), Some(3));
    assert_eq!(bolt_hit(Shooter::Navy, &vec![(Struck::Player, n(0.1))]), None);
}

#[test]
fn missiles_are_launched_fly_and_are_jammed() {
    assert_eq!(bay_step(n(0.5), n(10.0)), (Bay::Loading, n(0.5)));
    assert_eq!(bay_step(n(0.0), n(219.0)), (Bay::Launched, n(11.0)));
    assert_eq!(bay_step(n(-0.1), n(220.0)), (Bay::OutOfRange, n(2.0)));
    assert_eq!(missile_fate(false, n(5.0), Some(n(1.0))), Fate::Gone);
    assert_eq!(missile_fate(true, n(0.0), Some(n(1.0))), Fate::Gone);
    assert_eq!(missile_fate(true, n(5.0), Some(n(3.9))), Fate::Strikes);
    assert_eq!(missile_fate(true, n(5.0), Some(n(4.0))), Fate::Homes);
    assert_eq!(missile_fate(true, n(5.0), None), Fate::Coasts);
    let mut ecm = Ecm::new();
    assert!(!ecm.key(true), "not at a station");
    assert!(ecm.key(false));
    assert_eq!((ecm.cooldown, ecm.flash), (n(2.5), n(0.4)));
    assert!(!ecm.key(false), "charging");
    ecm.run(n(-0.5), n(-0.1));
    assert_eq!((ecm.cooldown, ecm.flash), (n(0.0), n(0.0)));
    assert!(ecm.key(false));
    let flying = vec![Shooter::Hostile, Shooter::Player, Shooter::Hostile];
    assert_eq!(jammed(&flying), vec![0, 2]);
}

#[test]
fn loot_is_scooped_in_passing() {
    let crate_of = |c: u32| Canister { commodity: CommodityId(c), qty: 2, seed: 0 };
    let adrift = vec![(crate_of(0), n(8.0)), (crate_of(1), n(7.9))];
    let got = scoop(true, true, &adrift, PLAYER, SHIP);
    assert_eq!(
        got,
        vec![(
            1,
            Command::ScoopCargo {
                player: PLAYER,
                trader: SHIP,
                commodity: CommodityId(1),
                qty: 2
            }
        )]
    );
    assert!(scoop(true, false, &adrift, PLAYER, SHIP).is_empty(), "no room");
    assert!(scoop(false, true, &adrift, PLAYER, SHIP).is_empty(), "docked");
    assert!(drifts(true, n(0.1)) && !drifts(true, n(0.0)) && !drifts(false, n(1.0)));
}

#[test]
fn only_the_fallen_are_reported() {
    let up = Health::new(n(40.0), n(20.0), n(1.0));
    let mut down = up;
    down.take_damage(n(0.0), n(0.0));
    let wing = vec![(PatrolId(1), up), (PatrolId(2), down)];
    assert_eq!(
        reports(&wing, &up, PLAYER, SHIP),
        vec![Command::DestroyedPirate { player: PLAYER, trader: SHIP, pirate: PatrolId(2) }]
    );
    assert_eq!(
        reports(&vec![], &down, PLAYER, SHIP),
        vec![Command::TraderDestroyed { player: PLAYER, trader: SHIP }]
    );
}

#[test]
fn a_hostile_locks_the_drive() {
    assert!(injectors(true, true, n(1.0), 0));
    assert!(!injectors(true, true, n(1.0), 1), "mass-locked");
    assert!(!injectors(true, true, n(0.0), 0), "dry");
    assert!(!injectors(false, true, n(1.0), 0) && !injectors(true, false, n(1.0), 0));
    assert_eq!(fuel_left(n(-0.2)), n(0.0));
    assert_eq!(fuel_left(n(3.5)), n(3.5));
}

#[test]
fn other_traders_are_scenery() {
    let at = |id: u64, s: u32| Trader::new(TraderId(id), ShipId(0), 10, SystemId(s));
    let traders = vec![at(1, 0), at(7, 0), at(2, 1), at(3, 0)];
    assert_eq!(neighbours(&traders, SHIP, SystemId(0)), vec![0, 3]);
}

#[test]
fn the_scanner_shows_hostiles_then_navy_then_the_station() {
    let blips = radar_blips(true, 2, 1);
    assert_eq!(blips.len(), RADAR_BLIPS);
    assert_eq!(
        blips[..5],
        [
            Some(Blip::Hostile(0)),
            Some(Blip::Hostile(1)),
            Some(Blip::Navy(0)),
            Some(Blip::Station),
            None
        ]
    );
    assert!(radar_blips(false, 2, 1).iter().all(|b| b.is_none()));
    assert_eq!(radar_blips(true, 30, 1)[23], Some(Blip::Hostile(23)));
}

#[test]
fn the_gauges_warn() {
    let heat = |h: f32, cut_out: bool| WeaponHeat { heat: n(h), cut_out };
    assert_eq!(temperature(&heat(0.7, false)), Temperature::Cool);
    assert_eq!(temperature(&heat(0.71, false)), Temperature::Hot);
    assert_eq!(temperature(&heat(0.5, true)), Temperature::CutOut);
    assert!(hull_low(n(0.29)) && !hull_low(n(0.3)));
    let mut t = Throttle::new();
    assert!(ahead(&t));
    t.level = n(-0.1);
    assert!(!ahead(&t));
    assert!(throttle_keys(&mut t, true, false));
    assert_eq!(t.level, n(-0.1));
    assert!(throttle_keys(&mut t, true, true));
    assert_eq!((t.level, t.at_zero_detent), (n(0.0), true));
    assert!(!throttle_keys(&mut t, false, false));
    assert_eq!((axis(false, true), axis(true, false), axis(true, true)), (1, -1, 0));
}

#[test]
fn the_target_panel_reads_out_the_lock() {
    let l = Lock {
        range: "  120",
        closing: n(-4.0),
        speed: "  4",
        firing: true,
        gimballed: false,
        in_arc: false,
        on_target: true,
    };
    assert_eq!(target_text(&l), "TARGET\nrange   120   opening   4\nON TARGET \u{2014} FIRE");
    let l = Lock { closing: n(4.0), firing: false, ..l };
    assert_eq!(target_text(&l), "TARGET\nrange   120   closing   4\nNO SOLUTION");
}

#[test]
fn there_are_four_weapons() {
    let names: Vec<&str> = (0..WEAPON_COUNT).map(|i| weapon(i).name).collect();
    assert_eq!(names, ["PULSE", "CANNON", "SCATTER", "BEAM"]);
    let pulse = weapon(0);
    assert_eq!((pulse.damage, pulse.cooldown, pulse.speed), (n(8.0), n(0.18), n(240.0)));
    assert_eq!((pulse.gimbal, pulse.heat), (Some(n(0.22)), n(0.05)));
    let cannon = weapon(1);
    assert_eq!((cannon.damage, cannon.cooldown, cannon.speed), (n(26.0), n(0.70), n(180.0)));
    assert!(cannon.big && cannon.heat == n(0.16));
    let scatter = weapon(2);
    assert_eq!((scatter.damage, scatter.cooldown, scatter.speed), (n(6.0), n(0.50), n(205.0)));
    assert_eq!((scatter.bolts, scatter.spread, scatter.heat), (3, n(0.13), n(0.12)));
    let beam = weapon(3);
    assert!(beam.beam && beam.damage == n(60.0) && beam.heat == n(0.55));
}

#[test]
fn the_sky_is_the_same_every_run() {
    fn hash(mut x: u32) -> u32 {
        x ^= x >> 16;
        x = x.wrapping_mul(0x7feb_352d);
        x ^= x >> 15;
        x = x.wrapping_mul(0x846c_a68b);
        x ^= x >> 16;
        x
    }
    for i in [0u32, 1, 77, 0x8000_0001, u32::MAX] {
        assert_eq!(star_hash(i), hash(i));
        assert_eq!(
            star(i),
            (
                hash(i.wrapping_mul(2).wrapping_add(0x9e37_79b9)),
                hash(i.wrapping_mul(2).wrapping_add(0x85eb_ca6b))
            )
        );
    }
    let s = spot_of(30);
    assert_eq!((s.sector, s.ring, s.level), (6, 2, -1));
    assert_eq!(stagger(PatrolId(13)), (3, 6));
}

fn market() -> Market {
    let mut goods: ById<MarketGood> = ById::new();
    goods.insert(CommodityId(1), MarketGood { stock: 50, equilibrium: 40, price: 120 });
    Market { system: SystemId(0), pricing: PricingStrategy::SupplyDemandV1, goods }
}

#[test]
fn the_pilot_panel_shows_the_ship_and_its_choices() {
    let reg = registry(&[]);
    let markets = vec![market()];
    let other = Trader::new(TraderId(1), ShipId(0), 10, SystemId(0));
    assert!(player_panel(&reg, &vec![other.clone()], &markets, PLAYER, 5).is_none());
    let mut t = Trader::owned(SHIP, ShipId(0), 300, SystemId(0), PLAYER);
    t.cargo.insert(CommodityId(1), 3);
    let p = player_panel(&reg, &vec![other, t.clone()], &markets, PLAYER, 5).unwrap();
    assert_eq!(p.ship, "Ship:    Cobra");
    assert_eq!(p.credits, "Credits: 300");
    assert_eq!(p.cargo, "Cargo:   3/10");
    assert_eq!(p.place, "Docked at core:lave");
    assert_eq!(p.goods.len(), 1);
    assert_eq!(p.goods[0].text, "core:ore   120    50    3");
    assert_eq!(
        p.goods[0].sell,
        Some(Command::Sell { player: PLAYER, trader: SHIP, commodity: CommodityId(1), qty: 3 })
    );
    assert_eq!(p.jumps.len(), 2);
    assert_eq!(p.jumps[1].0, "core:zaonce");
    assert_eq!(p.jumps[1].1, Command::Jump { player: PLAYER, trader: SHIP, dest: SystemId(2) });
    assert_eq!(p.retire, Command::Despawn { player: PLAYER, trader: SHIP });
    t.location = TraderLocation::Destroyed { respawn: Tick(9) };
    let p = player_panel(&reg, &vec![t], &markets, PLAYER, 5).unwrap();
    assert_eq!(p.place, "Destroyed; respawns at tick 9");
    assert!(p.goods.is_empty() && p.jumps.is_empty());
    assert_eq!(
        launch_offer(PLAYER, ShipId(0), SystemId(1), 1000),
        Command::Spawn { player: PLAYER, ship: ShipId(0), at: SystemId(1), capital: 1000 }
    );
}

#[test]
fn the_market_panel_shows_goods_and_production() {
    let reg = registry(&[]);
    let p = market_panel(&reg, &vec![market()], SystemId(0));
    assert_eq!(p.title, "Market \u{2014} core:lave");
    assert_eq!(p.goods.len(), 1);
    assert_eq!((p.goods[0].name.as_str(), p.goods[0].state), ("core:ore", StockState::Surplus));
    assert_eq!(
        p.chains,
        vec![
            "2 core:ore \u{2192} 1 core:food",
            "\u{2217} \u{2192} 4 core:ore + 1 core:food"
        ]
    );
    let p = market_panel(&reg, &vec![market()], SystemId(1));
    assert!(p.goods.is_empty() && p.chains.is_empty());
}

#[test]
fn the_side_panel_tallies() {
    let stats = PiracyStats {
        ambushes: 3,
        traders_lost: 1,
        pirates_destroyed: 4,
        bounties_paid: 90,
        pirates_suppressed: 2,
        navy_lost: 0,
        escort_fees_paid: 0,
        navy_upkeep: 0,
    };
    let s = side_panel(Tick(12), 5, 6, 7, &stats, 2, 1);
    assert_eq!(s.tick, "Tick 12");
    assert_eq!((s.traders.as_str(), s.pirates.as_str()), ("Traders:  5", "Pirates:  6"));
    assert_eq!((s.navy.as_str(), s.ambushes.as_str()), ("Navy:     7", "Ambushes:          3"));
    assert_eq!(s.lost, "Traders lost:      1");
    assert_eq!(s.destroyed, "Pirates destroyed: 6");
    assert_eq!(s.bounties, "Bounties paid:     90");
    assert_eq!(s.contracts, "Contracts (2 open) \u{2026}");
    assert_eq!(s.finance, "Finance (1 loans) \u{2026}");
}

#[test]
fn docked_agents_fan_out_around_their_node() {
    let reg = registry(&[]);
    let at = |id: u64, s: u32| Trader::new(TraderId(id), ShipId(0), 10, SystemId(s));
    let mut gone = at(9, 0);
    gone.location = TraderLocation::Destroyed { respawn: Tick(9) };
    let way = PatrolLocation::InTransit {
        origin: SystemId(0),
        dest: SystemId(1),
        departure: Tick(1),
        arrival: Tick(5),
    };
    let dots = map_dots(
        &reg,
        &vec![at(1, 0), gone, at(2, 1), at(3, 0)],
        &vec![patrol(4, PatrolLocation::Docked(SystemId(0))), patrol(5, way)],
        &vec![patrol(6, PatrolLocation::Docked(SystemId(1)))],
    );
    let places: Vec<(Agent, Place)> = dots.iter().map(|d| (d.agent, d.place)).collect();
    assert_eq!(
        places,
        vec![
            (Agent::Trader, Place::Fanned(SystemId(0), 0)),
            (Agent::Trader, Place::Fanned(SystemId(1), 0)),
            (Agent::Trader, Place::Fanned(SystemId(0), 1)),
            (Agent::Pirate, Place::Fanned(SystemId(0), 2)),
            (
                Agent::Pirate,
                Place::Between {
                    origin: SystemId(0),
                    dest: SystemId(1),
                    departure: Tick(1),
                    arrival: Tick(5)
                }
            ),
            (Agent::Navy, Place::Fanned(SystemId(1), 1)),
        ]
    );
    assert!(flash_lasts(0.0f64.to_bits()) && flash_lasts(3.9f64.to_bits()));
    assert!(!flash_lasts(4.0f64.to_bits()) && !flash_lasts((-0.1f64).to_bits()));
}

#[test]
fn one_way_connections_are_found() {
    assert_eq!(registry(&[]).one_way_links(), vec![(SystemId(0), SystemId(2))]);
    assert!(registry(&["core:lave"]).one_way_links().is_empty());
}
