//! End-to-end behaviour of the world, driven by a small host that works out the
//! real-valued parts of a tick.

use std::sync::Arc;

use drift::bits::Bits;
use drift::by_id::ById;
use drift::command::{Command, CommandError};
use drift::client::{cargo_units, find_player_trader, tick_due, MAX_TICKS_PER_FRAME};
use drift::console::Scene;
use drift::contract::{ContractKind, ContractState};
use drift::data::{
    CombatStats, CommodityAmount, CommodityDef, MergedContent, Point, ProductionRecipe, ShipDef,
    SystemDef,
};
use drift::encounter::{Combatant, Encounter, Motion, Outcome, Shot};
use drift::event::EventCategory;
use drift::finance::FutureSide;
use drift::ids::{
    CommodityId, ContractId, LoanId, Money, Owner, PlayerId, Quantity, ShipId, SystemId, TraderId,
};
use drift::market::{Market, MarketGood};
use drift::play::{parse_action, parse_qty, Action, HELP};
use drift::pricing::{builtin_pricing, PricingSet, PricingStrategy};
use drift::registry::{link, Registry, ResolvedRecipe};
use drift::repl::{
    journey, prompt, report_command, respond, spoils_text, Leg, Papers, Step, FAREWELL, GONE,
    JOURNEY_LIMIT,
};
use drift::rng::DetRng;
use drift::scenario::{
    ContractConfig, EscortConfig, FutureConfig, InsuranceConfig, LoanConfig, NavyConfig,
    PiracyConfig, ScenarioDef, TraderSpawn,
};
use drift::script::ScriptedPricing;
use drift::trader::TraderLocation;
use drift::world::battle::{step_budget, Fought};
use drift::world::setup::WorldError;
use drift::world::quotes::opening_prices;
use drift::world::trade::{prospect_of, TradePlan};
use drift::world::{PiracyStats, Stage, Tables, World};

const DENOMINATOR: f64 = 9007199254740992.0;

fn b(x: f64) -> Bits {
    x.to_bits()
}

fn f(x: Bits) -> f64 {
    f64::from_bits(x)
}

fn point(x: f64, y: f64) -> Point {
    Point { x: b(x), y: b(y) }
}

fn distance(p: Point, q: Point) -> f64 {
    ((f(p.x) - f(q.x)).powi(2) + (f(p.y) - f(q.y)).powi(2)).sqrt()
}

/// The numerators over 2^53 from which on a draw falls past each candidate.
fn cutoffs(weights: &[f64]) -> Vec<u64> {
    let total: f64 = weights.iter().sum();
    let past = |n: u64, i: usize| {
        let mut r = n as f64 / DENOMINATOR * total;
        for w in &weights[..=i] {
            r -= w;
            if r < 0.0 {
                return false;
            }
        }
        true
    };
    (0..weights.len())
        .map(|i| {
            let (mut low, mut high) = (0u64, DENOMINATOR as u64);
            while low < high {
                let mid = low + (high - low) / 2;
                if past(mid, i) {
                    high = mid;
                } else {
                    low = mid + 1;
                }
            }
            low
        })
        .collect()
}

fn odds(chance: f64) -> u64 {
    (chance.clamp(0.0, 1.0) * DENOMINATOR).ceil() as u64
}

fn tables(reg: &Registry, scn: &ScenarioDef) -> Tables {
    let systems = reg.systems();
    let travel = (0..reg.ship_count())
        .map(|s| {
            let speed = f(reg.ship(ShipId(s as u32)).jump_speed).max(1e-6);
            systems
                .iter()
                .map(|p| {
                    systems
                        .iter()
                        .map(|q| ((distance(p.position, q.position) / speed).ceil() as u64).max(1))
                        .collect()
                })
                .collect()
        })
        .collect();
    let dangers: Vec<f64> = systems.iter().map(|s| f(s.danger)).filter(|d| *d > 0.0).collect();
    let roam_cutoffs = systems
        .iter()
        .map(|s| {
            let near: Vec<f64> = s
                .connections
                .iter()
                .map(|n| f(systems[n.index()].danger))
                .filter(|d| *d > 0.0)
                .collect();
            cutoffs(&near)
        })
        .collect();
    let chance = scn.piracy.as_ref().map_or(0.0, |p| f(p.base_ambush_chance));
    let courier = scn.contract.as_ref().map_or(0, |c| c.courier_reward);
    Tables {
        travel,
        spawn_cutoffs: cutoffs(&dangers),
        roam_cutoffs,
        ambush_odds: (0..64).map(|n| odds(chance * n as f64)).collect(),
        courier_rewards: systems
            .iter()
            .map(|s| (courier as f64 * (1.0 + f(s.danger))).round() as Money)
            .collect(),
    }
}

fn supply_demand(base: Money, stock: Quantity, equilibrium: Quantity, elasticity: f64) -> Money {
    let factor = (equilibrium.max(1) as f64 / stock.max(1) as f64).powf(elasticity).clamp(0.25, 4.0);
    ((base as f64 * factor).round() as Money).max(1)
}

fn response(reg: &Registry, r: &ResolvedRecipe, m: &Market) -> f64 {
    let (c, supply) = match (r.inputs.first(), r.outputs.first()) {
        (None, Some((c, _))) => (*c, true),
        (Some((c, _)), None) => (*c, false),
        _ => return 1.0,
    };
    let base = reg.commodity(c).base_price;
    let ratio = m.price(c).unwrap_or(base) as f64 / base as f64;
    let e = f(r.elasticity);
    (if supply { ratio.powf(e) } else { ratio.powf(-e) }).clamp(0.0, 2.0)
}

/// One step of a battle.
fn step(e: &mut Encounter, rng: &mut DetRng) {
    for i in 0..e.combatants.len() {
        let me = e.combatants[i];
        let distances: Vec<f64> =
            e.combatants.iter().map(|c| distance(me.pos, c.pos)).collect();
        let patterns: Vec<Bits> = distances.iter().map(|d| b(*d)).collect();
        let coast = Motion {
            vel: me.vel,
            pos: point(f(me.pos.x) + f(me.vel.x), f(me.pos.y) + f(me.vel.y)),
        };
        let mut closing = coast;
        let mut hit = 0u64;
        if me.alive {
            if let Some(j) = e.nearest_enemy(i, &patterns) {
                let d = distances[j];
                let target = e.combatants[j].pos;
                let range = f(me.stats.weapon_range);
                let speed = f(me.max_speed);
                let mut wish = (0.0, 0.0);
                if d > range * 0.6 && d > 0.0 {
                    wish = (
                        (f(target.x) - f(me.pos.x)) / d * speed,
                        (f(target.y) - f(me.pos.y)) / d * speed,
                    );
                }
                let clamp = |v: (f64, f64), most: f64| {
                    let l = (v.0 * v.0 + v.1 * v.1).sqrt();
                    if l > most && l > 0.0 {
                        (v.0 / l * most, v.1 / l * most)
                    } else {
                        v
                    }
                };
                let dv = clamp(
                    (wish.0 - f(me.vel.x), wish.1 - f(me.vel.y)),
                    f(me.stats.acceleration),
                );
                let v = clamp((f(me.vel.x) + dv.0, f(me.vel.y) + dv.1), speed);
                closing = Motion {
                    vel: point(v.0, v.1),
                    pos: point(f(me.pos.x) + v.0, f(me.pos.y) + v.1),
                };
                if range > 0.0 {
                    hit = odds(f(me.stats.accuracy) * (1.0 - d / range));
                }
            }
        }
        if let Shot::Hit(j) = e.act(i, &patterns, coast, closing, hit, rng) {
            let t = &mut e.combatants[j];
            let damage = me.stats.weapon_damage as f64;
            let absorbed = f(t.shield).min(damage);
            t.take_damage(b(f(t.shield) - absorbed), (damage - absorbed).round() as i32);
        }
        let now = &mut e.combatants[i];
        if now.alive {
            let most = now.stats.shield as f64;
            now.shield = b((f(now.shield) + f(now.stats.shield_regen)).min(most));
        }
    }
}

/// Advance a battle until it decides or the steps run out.
fn resolve(e: &mut Encounter, rng: &mut DetRng, steps: u64) -> Outcome {
    let mut done = 0;
    while e.goes_on(done, steps) {
        step(e, rng);
        done += 1;
    }
    e.outcome()
}

struct Plan {
    plan: TradePlan,
    score: Money,
}

fn choose_trade(
    reg: &Registry,
    markets: &[Market],
    at: SystemId,
    capital: Money,
    capacity: u32,
    risk: f64,
) -> Option<Plan> {
    let here = &markets[at.index()];
    let mut best: Option<Plan> = None;
    for dest in &reg.system(at).connections {
        let there = &markets[dest.index()];
        for c in here.goods.keys() {
            let Some((plan, margin)) =
                prospect_of(reg.commodity(c), here, there, c, capital, capacity)
            else {
                continue;
            };
            let danger = f(reg.system(*dest).danger);
            let gain = margin * plan.qty as i64;
            let score = (gain as f64 * (1.0 - risk * danger)).round() as Money;
            if score > best.as_ref().map_or(0, |p| p.score) {
                best = Some(Plan { plan, score });
            }
        }
    }
    best
}

/// A world and what its host keeps beside it.
struct Sim {
    w: World,
    pricing: PricingSet,
    progress: Vec<Vec<f64>>,
    risk: f64,
    reward_factor: f64,
}

impl Sim {
    fn build(
        reg: &Arc<Registry>,
        scn: &ScenarioDef,
        seed: u64,
        pricing: PricingSet,
    ) -> Result<Sim, WorldError> {
        let formula: Vec<Vec<Money>> = reg
            .systems()
            .iter()
            .map(|s| {
                let price = |(c, q): &(CommodityId, Quantity)| {
                    let d = reg.commodity(*c);
                    supply_demand(d.base_price, *q, *q, f(d.elasticity))
                };
                s.initial_stock.iter().map(price).collect()
            })
            .collect();
        let opening = opening_prices(reg, &pricing, &formula);
        let w = World::new(reg.clone(), scn, seed, &pricing, tables(reg, scn), &opening)?;
        Ok(Sim {
            w,
            pricing,
            progress: reg.systems().iter().map(|s| vec![0.0; s.industries.len()]).collect(),
            risk: f(scn.risk_aversion),
            reward_factor: scn.contract.as_ref().map_or(0.0, |c| f(c.reward_factor)),
        })
    }

    fn new(reg: &Arc<Registry>, scn: &ScenarioDef, seed: u64) -> Sim {
        Sim::build(reg, scn, seed, builtin_pricing()).unwrap()
    }

    fn shields(&self, pirates: bool) -> Vec<Bits> {
        let fleet = if pirates { self.w.pirates() } else { self.w.navy() };
        fleet
            .iter()
            .map(|p| {
                let stats = self.w.registry().ship(p.ship).stats();
                b((f(p.shield) + f(stats.shield_regen)).min(stats.shield as f64))
            })
            .collect()
    }

    fn tick(&mut self) {
        let reg = self.w.registry_arc();
        let mut acc: Vec<Vec<f64>> = Vec::new();
        for (i, s) in reg.systems().iter().enumerate() {
            let mut row = Vec::new();
            for (j, r) in s.industries.iter().enumerate() {
                let recipe = reg.recipe(*r);
                let rate = recipe.rate as f64;
                let factor = response(&reg, recipe, &self.w.markets()[i]);
                row.push((self.progress[i][j] + rate * factor).min(rate * 2.0 + 1.0));
            }
            acc.push(row);
        }
        let wants = acc.iter().map(|r| r.iter().map(|a| a.floor() as u32).collect()).collect();
        let done: Vec<Vec<u32>> = self.w.begin_tick(&wants);
        for (i, row) in acc.iter().enumerate() {
            for (j, a) in row.iter().enumerate() {
                self.progress[i][j] = a - done[i][j] as f64;
            }
        }

        let formula: Vec<Vec<Money>> = self
            .w
            .markets()
            .iter()
            .map(|m| {
                (0..reg.commodity_count())
                    .map(|k| match m.goods.get(&CommodityId(k as u32)) {
                        Some(g) => {
                            let d = reg.commodity(CommodityId(k as u32));
                            supply_demand(d.base_price, g.stock, g.equilibrium, f(d.elasticity))
                        }
                        None => 1,
                    })
                    .collect()
            })
            .collect();
        let targets = self.w.targets(self.pricing.scripts(), &formula);
        let (pirates, navy) = (self.shields(true), self.shields(false));
        self.w.reprice(&targets, &pirates, &navy);

        let results: Vec<Fought> = self
            .w
            .encounters()
            .iter()
            .map(|a| {
                let mut e = a.encounter.clone();
                let mut rng = a.rng;
                resolve(&mut e, &mut rng, step_budget(a.steps));
                Fought { combatants: e.combatants, rng }
            })
            .collect();
        self.w.fight(results);

        loop {
            self.w.trade();
            let Stage::Seeking(t, at) = self.w.stage() else { break };
            let trader = &self.w.traders()[t];
            let (capital, capacity) = (trader.capital, reg.ship(trader.ship).cargo_capacity);
            let plan = choose_trade(&reg, self.w.markets(), at, capital, capacity, self.risk);
            let scores: Vec<Option<Money>> = reg
                .system(at)
                .connections
                .iter()
                .map(|n| {
                    choose_trade(&reg, self.w.markets(), *n, capital, capacity, self.risk)
                        .map(|p| p.score)
                })
                .collect();
            let plan = plan.map(|p| p.plan);
            assert!(plan.map_or(true, |p| self.w.admits(p)));
            self.w.answer(plan, &scores);
        }

        let reward = match self.w.survey() {
            Some((price, qty)) => {
                (price.max(1) as f64 * qty as f64 * self.reward_factor).round() as Money
            }
            None => 0,
        };
        self.w.end_tick(reward);
    }

    fn run(&mut self, n: u64) {
        for _ in 0..n {
            self.tick();
        }
    }

    fn queue(&mut self, c: Command) {
        self.w.queue_command(c);
    }

    fn apply(&mut self, c: Command) {
        self.w.queue_command(c);
        self.tick();
    }

    fn error(&self) -> Option<CommandError> {
        self.w.last_command_errors().first().copied()
    }

    fn capital(&self, id: TraderId) -> Money {
        self.w.traders().iter().find(|t| t.id == id).unwrap().capital
    }

    fn place(&self, id: TraderId) -> TraderLocation {
        self.w.traders().iter().find(|t| t.id == id).unwrap().location
    }

    fn cargo(&self, id: TraderId, c: CommodityId) -> Option<u32> {
        self.w.traders().iter().find(|t| t.id == id).unwrap().cargo.get(&c).copied()
    }

    fn spawn(&mut self, ship: &str, at: &str, capital: Money) -> (PlayerId, TraderId) {
        let player = PlayerId(0);
        let reg = self.w.registry_arc();
        let ship = reg.ship_id(ship).unwrap();
        let at = reg.system_id(at).unwrap();
        self.apply(Command::Spawn { player, ship, at, capital });
        let id = self
            .w
            .traders()
            .iter()
            .rev()
            .find(|t| t.owner == Owner::Player(player))
            .unwrap()
            .id;
        (player, id)
    }
}

fn names() -> Vec<String> {
    builtin_pricing().names()
}

fn good(id: &str, name: &str, category: &str) -> CommodityDef {
    CommodityDef {
        id: id.to_string(),
        name: name.to_string(),
        base_price: 100,
        unit_mass: 1,
        elasticity: b(1.0),
        category: category.to_string(),
    }
}

fn amount(id: &str, qty: Quantity) -> CommodityAmount {
    CommodityAmount { commodity: id.to_string(), qty }
}

fn recipe(
    id: &str,
    inputs: Vec<CommodityAmount>,
    outputs: Vec<CommodityAmount>,
    rate: u32,
    elasticity: f64,
) -> ProductionRecipe {
    ProductionRecipe { id: id.to_string(), inputs, outputs, rate, elasticity: b(elasticity) }
}

#[allow(clippy::too_many_arguments)]
fn system(
    id: &str,
    name: &str,
    x: f64,
    industries: &[&str],
    connections: &[&str],
    stock: Vec<CommodityAmount>,
    pricing: &str,
    danger: f64,
) -> SystemDef {
    SystemDef {
        id: id.to_string(),
        name: name.to_string(),
        position: point(x, 0.0),
        industries: industries.iter().map(|s| s.to_string()).collect(),
        connections: connections.iter().map(|s| s.to_string()).collect(),
        initial_stock: stock,
        pricing: pricing.to_string(),
        danger: b(danger),
    }
}

fn ship(
    id: &str,
    name: &str,
    cargo: u32,
    jump: f64,
    hull: u32,
    speed: f64,
    combat: Option<CombatStats>,
) -> ShipDef {
    ShipDef {
        id: id.to_string(),
        name: name.to_string(),
        cargo_capacity: cargo,
        jump_speed: b(jump),
        hull,
        max_speed: b(speed),
        combat,
        visual: None,
    }
}

fn linked(merged: MergedContent) -> Arc<Registry> {
    Arc::new(link(merged, &names()).unwrap())
}

/// A produces food, B consumes it, joined by a short jump.
fn two_system_registry() -> Arc<Registry> {
    linked(MergedContent {
        scripts: vec![],
        commodities: vec![good("t:food", "Food", "food")],
        recipes: vec![
            recipe("t:grow", vec![], vec![amount("t:food", 10)], 1, 0.0),
            recipe("t:eat", vec![amount("t:food", 10)], vec![], 1, 0.0),
        ],
        systems: vec![
            system(
                "t:a",
                "A",
                0.0,
                &["t:grow"],
                &["t:b"],
                vec![amount("t:food", 500)],
                "supply_demand_v1",
                0.0,
            ),
            system(
                "t:b",
                "B",
                1.0,
                &["t:eat"],
                &["t:a"],
                vec![amount("t:food", 500)],
                "supply_demand_v1",
                0.0,
            ),
        ],
        ships: vec![ship("t:freighter", "Freighter", 1000, 100.0, 100, 100.0, None)],
    })
}

fn scenario(count: u32, ship: &str, capital: Money) -> ScenarioDef {
    ScenarioDef {
        name: "test".to_string(),
        seed: 1,
        ticks: 0,
        traders: TraderSpawn { count, ship: ship.to_string(), starting_capital: capital },
        piracy: None,
        risk_aversion: b(0.0),
        escort: None,
        navy: None,
        contract: None,
        loan: None,
        insurance: None,
        future: None,
    }
}

fn price_at(s: &Sim, sys: &str, c: &str) -> f64 {
    let reg = s.w.registry_arc();
    let sid = reg.system_id(sys).unwrap();
    s.w.markets()[sid.index()].price(reg.commodity_id(c).unwrap()).unwrap() as f64
}

#[test]
fn npc_traders_narrow_the_price_differential() {
    let reg = two_system_registry();
    const TICKS: u64 = 300;
    let mut idle = Sim::new(&reg, &scenario(0, "t:freighter", 0), 1);
    idle.run(TICKS);
    let without = (price_at(&idle, "t:b", "t:food") - price_at(&idle, "t:a", "t:food")).abs();

    let mut active = Sim::new(&reg, &scenario(8, "t:freighter", 1_000_000), 1);
    active.run(TICKS);
    let with = (price_at(&active, "t:b", "t:food") - price_at(&active, "t:a", "t:food")).abs();

    assert!(with < without, "without={without}, with={with}");
    assert!(with >= 0.0 && with < without * 0.75, "without={without}, with={with}");
}

fn single_system_registry(elasticity: f64) -> Arc<Registry> {
    linked(MergedContent {
        scripts: vec![],
        commodities: vec![good("t:x", "X", "misc")],
        recipes: vec![
            recipe("t:make", vec![], vec![amount("t:x", 5)], 1, 0.0),
            recipe("t:use", vec![amount("t:x", 1)], vec![], 20, elasticity),
        ],
        systems: vec![system(
            "t:solo",
            "Solo",
            0.0,
            &["t:make", "t:use"],
            &[],
            vec![amount("t:x", 500)],
            "supply_demand_v1",
            0.0,
        )],
        ships: vec![ship("t:freighter", "Freighter", 10, 1.0, 1, 1.0, None)],
    })
}

fn solo_price(elasticity: f64, ticks: u64) -> f64 {
    let reg = single_system_registry(elasticity);
    let mut s = Sim::new(&reg, &scenario(0, "t:freighter", 0), 1);
    s.run(ticks);
    price_at(&s, "t:solo", "t:x")
}

#[test]
fn elastic_demand_caps_scarcity_price_below_clamp() {
    let clamp = 4.0 * 100.0;
    let inelastic = solo_price(0.0, 800);
    assert!(inelastic >= clamp * 0.95, "got {inelastic}");
    let elastic = solo_price(2.0, 800);
    assert!(elastic < clamp * 0.75, "got {elastic}");
    assert!(elastic < inelastic);
    let earlier = solo_price(2.0, 600);
    assert!((elastic - earlier).abs() < clamp * 0.05, "t=600 {earlier}, t=800 {elastic}");
}

fn piracy(pirate_ship: &str, chance: f64, max: u32, respawn: u64, fleet: u32, bounty: Money, every: u64) -> PiracyConfig {
    PiracyConfig {
        pirate_ship: pirate_ship.to_string(),
        base_ambush_chance: b(chance),
        max_pirates: max,
        respawn_delay: respawn,
        fleet_size: fleet,
        bounty,
        reinforce_interval: every,
    }
}

fn scenario_piracy(count: u32, ship: &str, pirate_ship: &str, chance: f64, risk: f64) -> ScenarioDef {
    ScenarioDef {
        traders: TraderSpawn { count, ship: ship.to_string(), starting_capital: 5000 },
        piracy: Some(piracy(pirate_ship, chance, 2, 40, 12, 300, 15)),
        risk_aversion: b(risk),
        ..scenario(count, ship, 5000)
    }
}

#[test]
fn safe_routes_are_never_ambushed() {
    let reg = two_system_registry();
    let mut s = Sim::new(&reg, &scenario_piracy(8, "t:freighter", "t:freighter", 0.9, 0.0), 1);
    s.run(500);
    assert!(s.w.pirates().is_empty());
    assert_eq!(s.w.piracy_stats().ambushes, 0);
}

#[test]
fn safe_galaxy_has_no_navy() {
    let reg = two_system_registry();
    let mut scn = scenario(8, "t:freighter", 5000);
    scn.navy = Some(NavyConfig {
        ship: "t:freighter".to_string(),
        fleet_size: 5,
        reinforce_interval: 10,
        upkeep: 0,
        funding: 0,
    });
    let mut s = Sim::new(&reg, &scn, 1);
    s.run(300);
    assert!(s.w.navy().is_empty(), "no lawless systems => no navy");
}

fn armed(shield: u32, regen: f64, damage: u32, range: f64, cooldown: u32, accuracy: f64, acceleration: f64) -> CombatStats {
    CombatStats {
        shield,
        shield_regen: b(regen),
        weapon_damage: damage,
        weapon_range: b(range),
        weapon_cooldown: cooldown,
        accuracy: b(accuracy),
        acceleration: b(acceleration),
    }
}

/// A small galaxy with a safe core and a lawless frontier.
fn frontier_registry() -> Arc<Registry> {
    let stock = |q: u32| vec![amount("core:food", q), amount("core:machinery", q)];
    linked(MergedContent {
        scripts: vec![],
        commodities: vec![
            good("core:food", "Food", "food"),
            good("core:machinery", "Machinery", "industrial"),
            good("core:ore", "Ore", "industrial"),
        ],
        recipes: vec![
            recipe("core:farm", vec![], vec![amount("core:food", 12)], 1, 0.0),
            recipe("core:eat", vec![amount("core:food", 4)], vec![], 1, 0.0),
            recipe("core:forge", vec![], vec![amount("core:machinery", 12)], 1, 0.0),
            recipe("core:wear", vec![amount("core:machinery", 4)], vec![], 1, 0.0),
        ],
        systems: vec![
            system("core:lave", "Lave", 0.0, &["core:farm", "core:wear"], &["core:leesti"], stock(600), "supply_demand_v1", 0.0),
            system("core:leesti", "Leesti", 3.0, &["core:forge", "core:eat"], &["core:lave", "core:riedquat"], stock(600), "supply_demand_v1", 0.1),
            SystemDef {
                initial_stock: vec![amount("core:food", 600), amount("core:machinery", 600), amount("core:ore", 600)],
                ..system("core:riedquat", "Riedquat", 6.0, &["core:eat", "core:wear"], &["core:leesti", "core:tionisla"], vec![], "supply_demand_v1", 0.9)
            },
            system("core:tionisla", "Tionisla", 9.0, &["core:eat", "core:wear"], &["core:riedquat"], stock(600), "supply_demand_v1", 0.6),
        ],
        ships: vec![
            ship("core:cobra_mk3", "Cobra Mk III", 35, 2.0, 120, 60.0, Some(armed(60, 2.0, 14, 60.0, 2, 0.8, 30.0))),
            ship("core:shuttle", "Shuttle", 20, 2.0, 30, 40.0, None),
            ship("core:pirate", "Pirate", 10, 2.0, 60, 60.0, Some(armed(20, 1.0, 9, 55.0, 2, 0.7, 30.0))),
            ship("core:navy", "Viper", 5, 2.0, 160, 70.0, Some(armed(80, 3.0, 16, 60.0, 2, 0.9, 40.0))),
            ship("core:escort", "Escort", 5, 2.0, 140, 70.0, Some(armed(60, 3.0, 16, 60.0, 2, 0.9, 40.0))),
        ],
    })
}

fn prices_are_sane(s: &Sim) {
    for m in s.w.markets() {
        for c in m.goods.keys() {
            assert!(m.price(c).unwrap() >= 1);
        }
    }
}

#[test]
fn piracy_destroys_traders_deterministically() {
    let reg = frontier_registry();
    let scn = scenario_piracy(20, "core:shuttle", "core:pirate", 0.15, 0.0);
    let run = |seed: u64| {
        let mut s = Sim::new(&reg, &scn, seed);
        s.run(1500);
        s
    };
    let s = run(42);
    let stats = s.w.piracy_stats();
    assert!(stats.ambushes > 0, "dangerous routes should trigger ambushes");
    assert!(stats.traders_lost > 0, "unarmed traders should be destroyed");
    prices_are_sane(&s);
    assert_eq!(stats, run(42).w.piracy_stats(), "piracy must be deterministic");
}

#[test]
fn no_piracy_config_means_no_ambushes() {
    let reg = frontier_registry();
    let mut s = Sim::new(&reg, &scenario(24, "core:cobra_mk3", 5000), 42);
    s.run(1000);
    assert_eq!(s.w.piracy_stats(), PiracyStats::default());
}

#[test]
fn pirate_fleet_is_persistent_and_bounded() {
    let reg = frontier_registry();
    let scn = scenario_piracy(20, "core:cobra_mk3", "core:pirate", 0.15, 0.0);
    let mut s = Sim::new(&reg, &scn, 42);
    assert!(!s.w.pirates().is_empty(), "the fleet spawns at lawless systems");
    s.run(2000);
    assert!(!s.w.pirates().is_empty(), "reinforcement keeps the fleet alive across the run");
    assert!(s.w.pirates().len() <= 12, "the fleet never exceeds its target size");
    assert!(s.w.piracy_stats().pirates_destroyed > 0, "there should be real attrition");
    for p in s.w.pirates() {
        if let Some(sys) = p.docked_at() {
            assert!(f(reg.system(sys).danger) > 0.0, "pirates must stay in lawless space");
        }
    }
}

#[test]
fn bounties_reward_armed_traders() {
    let reg = frontier_registry();
    let scn = scenario_piracy(20, "core:cobra_mk3", "core:pirate", 0.15, 0.0);
    let mut s = Sim::new(&reg, &scn, 42);
    s.run(2000);
    let stats = s.w.piracy_stats();
    assert!(stats.pirates_destroyed > 0, "armed traders should kill pirates");
    assert!(stats.bounties_paid > 0, "victorious traders should collect bounties");
}

fn scenario_defended(trader: &str, escort: Option<(&str, u32)>, navy: Option<(&str, u32)>) -> ScenarioDef {
    ScenarioDef {
        escort: escort.map(|(ship, count)| EscortConfig { ship: ship.to_string(), count, fee: 0 }),
        navy: navy.map(|(ship, fleet_size)| NavyConfig {
            ship: ship.to_string(),
            fleet_size,
            reinforce_interval: 20,
            upkeep: 1,
            funding: 1000,
        }),
        ..scenario_piracy(20, trader, "core:pirate", 0.15, 0.0)
    }
}

#[test]
fn navy_patrols_suppress_pirates() {
    let reg = frontier_registry();
    let scn = scenario_defended("core:cobra_mk3", None, Some(("core:navy", 6)));
    let mut s = Sim::new(&reg, &scn, 42);
    assert!(!s.w.navy().is_empty(), "the navy spawns to patrol lawless space");
    s.run(2000);
    assert!(s.w.piracy_stats().pirates_suppressed > 0, "the navy should destroy pirates on patrol");
    assert!(s.w.navy().len() <= 6, "the navy never exceeds its fleet size");
    for n in s.w.navy() {
        if let Some(sys) = n.docked_at() {
            assert!(f(reg.system(sys).danger) > 0.0, "navy patrols lawless space only");
        }
    }
}

#[test]
fn defended_runs_are_deterministic() {
    let reg = frontier_registry();
    let run = |seed: u64| {
        let scn =
            scenario_defended("core:cobra_mk3", Some(("core:escort", 1)), Some(("core:navy", 6)));
        let mut s = Sim::new(&reg, &scn, seed);
        s.run(800);
        format!("{:?}", s.w)
    };
    assert_eq!(run(42), run(42), "escorts + navy must stay deterministic");
}

#[test]
fn same_seed_is_byte_identical() {
    let reg = frontier_registry();
    let scn = scenario(24, "core:cobra_mk3", 5000);
    let run = |seed: u64| {
        let mut s = Sim::new(&reg, &scn, seed);
        s.run(500);
        format!("{:?}", s.w)
    };
    assert_eq!(run(42), run(42), "same seed must produce identical state");
    assert_ne!(run(42), run(7), "different seeds should diverge");
}

#[test]
fn player_can_spawn_and_trade_via_commands() {
    let reg = frontier_registry();
    let mut s = Sim::new(&reg, &scenario(0, "core:cobra_mk3", 5000), 1);
    let player = PlayerId(0);
    let ship = reg.ship_id("core:cobra_mk3").unwrap();
    let lave = reg.system_id("core:lave").unwrap();
    let food = reg.commodity_id("core:food").unwrap();

    s.apply(Command::Spawn { player, ship, at: lave, capital: 10_000 });
    assert_eq!(s.w.traders().len(), 1);
    assert!(s.w.traders()[0].is_player());
    assert_eq!(s.w.traders()[0].location, TraderLocation::Docked(lave));
    assert_eq!(s.w.commands_applied(), 1);
    let tid = s.w.traders()[0].id;

    let price = s.w.markets()[lave.index()].price(food).unwrap();
    let before = s.w.traders()[0].capital;
    s.apply(Command::Buy { player, trader: tid, commodity: food, qty: 10 });
    assert_eq!(s.cargo(tid, food), Some(10));
    assert_eq!(s.w.traders()[0].capital, before - price * 10);

    let sell = s.w.markets()[lave.index()].price(food).unwrap();
    let before = s.w.traders()[0].capital;
    s.apply(Command::Sell { player, trader: tid, commodity: food, qty: 5 });
    assert_eq!(s.cargo(tid, food), Some(5));
    assert_eq!(s.w.traders()[0].capital, before + sell * 5);

    let leesti = reg.system_id("core:leesti").unwrap();
    s.apply(Command::Jump { player, trader: tid, dest: leesti });
    assert!(matches!(s.place(tid), TraderLocation::InTransit { dest, .. } if dest == leesti));
    assert_eq!(s.w.commands_rejected(), 0, "no command should have been rejected");
}

#[test]
fn scooped_cargo_is_added_free_and_capped_by_the_hold() {
    let reg = frontier_registry();
    let mut s = Sim::new(&reg, &scenario(0, "core:cobra_mk3", 5000), 1);
    let food = reg.commodity_id("core:food").unwrap();
    let (player, tid) = s.spawn("core:cobra_mk3", "core:lave", 5000);
    let before = s.capital(tid);

    s.apply(Command::ScoopCargo { player, trader: tid, commodity: food, qty: 3 });
    assert_eq!(s.cargo(tid, food), Some(3), "scoop fills the hold");
    assert_eq!(s.capital(tid), before, "scooping is free");

    s.apply(Command::ScoopCargo { player, trader: tid, commodity: food, qty: 10_000 });
    let capacity = reg.ship(reg.ship_id("core:cobra_mk3").unwrap()).cargo_capacity;
    assert_eq!(s.cargo(tid, food), Some(capacity), "scoop is capped by the hold");

    let rejected = s.w.commands_rejected();
    s.apply(Command::ScoopCargo { player, trader: tid, commodity: food, qty: 1 });
    assert_eq!(s.w.commands_rejected(), rejected + 1, "a full hold rejects the scoop");
    assert_eq!(s.error(), Some(CommandError::OverCapacity));
}

#[test]
fn invalid_commands_are_rejected_without_side_effects() {
    let reg = frontier_registry();
    let mut s = Sim::new(&reg, &scenario(0, "core:cobra_mk3", 5000), 1);
    let lave = reg.system_id("core:lave").unwrap();
    let food = reg.commodity_id("core:food").unwrap();
    let ore = reg.commodity_id("core:ore").unwrap();
    let tionisla = reg.system_id("core:tionisla").unwrap();
    let (player, tid) = s.spawn("core:cobra_mk3", "core:lave", 500);
    let (cap, loc) = (s.capital(tid), s.place(tid));
    let applied = s.w.commands_applied();

    s.queue(Command::Buy { player, trader: tid, commodity: food, qty: 1_000_000 });
    s.queue(Command::Buy { player, trader: tid, commodity: ore, qty: 1 });
    s.queue(Command::Jump { player, trader: tid, dest: tionisla });
    s.queue(Command::Buy { player: PlayerId(1), trader: tid, commodity: food, qty: 1 });
    s.queue(Command::Jump { player, trader: TraderId(9999), dest: lave });
    s.tick();

    assert_eq!(s.w.commands_rejected(), 5, "all five should be rejected");
    assert_eq!(
        *s.w.last_command_errors(),
        vec![
            CommandError::InsufficientStock,
            CommandError::UnknownGood,
            CommandError::Unreachable,
            CommandError::NotOwner,
            CommandError::UnknownTrader,
        ]
    );
    assert_eq!(s.w.commands_applied(), applied, "none should apply");
    assert_eq!(s.capital(tid), cap);
    assert!(s.w.traders()[0].cargo.is_empty());
    assert_eq!(s.place(tid), loc);
}

#[test]
fn trader_ids_are_stable_across_removal() {
    let reg = frontier_registry();
    let mut s = Sim::new(&reg, &scenario(0, "core:cobra_mk3", 5000), 1);
    let player = PlayerId(0);
    let ship = reg.ship_id("core:cobra_mk3").unwrap();
    let lave = reg.system_id("core:lave").unwrap();
    let food = reg.commodity_id("core:food").unwrap();

    s.queue(Command::Spawn { player, ship, at: lave, capital: 5_000 });
    s.queue(Command::Spawn { player, ship, at: lave, capital: 8_000 });
    s.tick();
    assert_eq!(s.w.traders().len(), 2);
    let id_a = s.w.traders()[0].id;
    let id_b = s.w.traders()[1].id;
    assert_ne!(id_a, id_b);

    s.apply(Command::Despawn { player, trader: id_a });
    assert_eq!(s.w.traders().len(), 1);
    assert_eq!(s.w.traders()[0].id, id_b, "B kept its id despite moving slots");

    let rejected = s.w.commands_rejected();
    s.apply(Command::Buy { player, trader: id_a, commodity: food, qty: 1 });
    assert_eq!(s.w.commands_rejected(), rejected + 1);

    let price = s.w.markets()[lave.index()].price(food).unwrap();
    let cap_b = s.capital(id_b);
    s.apply(Command::Buy { player, trader: id_b, commodity: food, qty: 3 });
    assert_eq!(s.cargo(id_b, food), Some(3));
    assert_eq!(s.capital(id_b), cap_b - price * 3);
}

#[test]
fn player_traders_are_not_ai_driven() {
    let reg = frontier_registry();
    let mut s = Sim::new(&reg, &scenario(0, "core:cobra_mk3", 5000), 1);
    let lave = reg.system_id("core:lave").unwrap();
    let (_, tid) = s.spawn("core:cobra_mk3", "core:lave", 7_000);
    s.run(300);
    assert_eq!(s.place(tid), TraderLocation::Docked(lave));
    assert!(s.w.traders()[0].cargo.is_empty());
    assert_eq!(s.capital(tid), 7_000);
}

#[test]
fn commanded_runs_are_deterministic() {
    let reg = frontier_registry();
    let scn = scenario(6, "core:cobra_mk3", 5000);
    let scripted = |seed: u64| {
        let mut s = Sim::new(&reg, &scn, seed);
        let (player, tid) = s.spawn("core:cobra_mk3", "core:lave", 10_000);
        s.run(4);
        let food = reg.commodity_id("core:food").unwrap();
        s.queue(Command::Buy { player, trader: tid, commodity: food, qty: 5 });
        s.run(5);
        let dest = reg.system_id("core:leesti").unwrap();
        s.queue(Command::Jump { player, trader: tid, dest });
        s.run(20);
        format!("{:?}", s.w)
    };
    assert_eq!(scripted(1), scripted(1), "same seed + same commands => identical state");
}

#[test]
fn simulation_events_are_recorded_and_deterministic() {
    let reg = frontier_registry();
    let scn = scenario_piracy(20, "core:cobra_mk3", "core:pirate", 0.15, 0.0);
    let run = |seed: u64| {
        let mut s = Sim::new(&reg, &scn, seed);
        s.run(1500);
        s.w.events()
            .iter()
            .map(|e| (e.tick, e.category, e.message.clone()))
            .collect::<Vec<_>>()
    };
    let a = run(42);
    assert!(!a.is_empty(), "a piracy run should record events");
    assert_eq!(a, run(42), "events are deterministic for a fixed seed");
}

#[test]
fn combat_events_carry_their_location() {
    let reg = frontier_registry();
    let scn = scenario_defended("core:cobra_mk3", None, Some(("core:navy", 6)));
    let mut s = Sim::new(&reg, &scn, 42);
    s.run(2000);
    let combat: Vec<_> =
        s.w.events().iter().filter(|e| e.category != EventCategory::System).collect();
    assert!(!combat.is_empty(), "a defended piracy run should record fights");
    for e in combat {
        let sys = e.system.expect("a fight event must know its system");
        assert!(f(reg.system(sys).danger) > 0.0, "fights occur in lawless space: {}", e.message);
    }
}

#[test]
fn per_tick_event_streaming_reconstructs_the_full_log() {
    let reg = frontier_registry();
    let scn = scenario_piracy(20, "core:cobra_mk3", "core:pirate", 0.15, 0.0);
    let mut s = Sim::new(&reg, &scn, 7);
    const TICKS: u64 = 150;
    let mut streamed: Vec<(u64, String)> = Vec::new();
    for _ in 0..TICKS {
        let now = s.w.tick_count();
        s.tick();
        let mut this: Vec<(u64, String)> = s
            .w
            .events()
            .iter()
            .rev()
            .take_while(|e| e.tick == now)
            .map(|e| (e.tick.get(), e.message.clone()))
            .collect();
        this.reverse();
        streamed.extend(this);
    }
    let full: Vec<(u64, String)> =
        s.w.events().iter().map(|e| (e.tick.get(), e.message.clone())).collect();
    assert!(!streamed.is_empty(), "the run should emit events");
    assert_eq!(streamed, full);
}

fn board(max_open: u32, interval: u64, deadline: u64, factor: f64, least: u32) -> ContractConfig {
    ContractConfig {
        max_open,
        generation_interval: interval,
        deadline_ticks: deadline,
        reward_factor: b(factor),
        min_shortfall: least,
        max_quantity: 20,
        bounty_target: 0,
        bounty_reward: 0,
        courier_reward: 0,
    }
}

fn scenario_contracts(deadline_ticks: u64) -> ScenarioDef {
    ScenarioDef {
        contract: Some(board(4, 5, deadline_ticks, 1.5, 10)),
        ..scenario(0, "t:freighter", 0)
    }
}

#[test]
fn contracts_are_generated_from_shortages_deterministically() {
    let reg = two_system_registry();
    let posted = |seed| {
        let mut s = Sim::new(&reg, &scenario_contracts(1000), seed);
        s.run(200);
        s.w.contracts().clone()
    };
    let a = posted(1);
    assert!(!a.is_empty(), "sustained consumption at B should post an import contract");
    assert_eq!(a, posted(1), "the board is deterministic for a fixed seed");
    let bsys = reg.system_id("t:b").unwrap();
    let food = reg.commodity_id("t:food").unwrap();
    for c in &a {
        assert_eq!(c.destination, bsys, "contracts target the starved consumer, B");
        let (commodity, quantity) = c.cargo().expect("delivery-only board");
        assert_eq!(commodity, food);
        assert!(c.reward > 0, "a contract must pay a positive reward");
        assert!(quantity > 0 && quantity <= 20, "quantity is capped by max_quantity");
    }
}

#[test]
fn player_accepts_and_fulfills_a_contract() {
    let reg = two_system_registry();
    let mut s = Sim::new(&reg, &scenario_contracts(1000), 1);
    let bsys = reg.system_id("t:b").unwrap();
    let food = reg.commodity_id("t:food").unwrap();

    s.run(20);
    let contract = *s.w.contracts().iter().find(|c| c.is_open()).expect("an open contract");
    let cid = contract.id;
    let need = contract.cargo().map(|(_, q)| q).expect("a delivery contract");
    assert_eq!(contract.destination, bsys);

    let (player, tid) = s.spawn("t:freighter", "t:a", 1_000_000);
    s.apply(Command::AcceptContract { player, trader: tid, contract: cid });
    assert!(matches!(
        s.w.contracts().iter().find(|c| c.id == cid).unwrap().state,
        ContractState::Accepted { .. }
    ));

    s.apply(Command::Buy { player, trader: tid, commodity: food, qty: need });
    assert_eq!(s.cargo(tid, food), Some(need));
    s.queue(Command::Jump { player, trader: tid, dest: bsys });
    s.run(5);
    assert_eq!(s.place(tid), TraderLocation::Docked(bsys), "the trader should have arrived at B");

    let before = s.capital(tid);
    s.apply(Command::FulfillContract { player, trader: tid, contract: cid });
    assert_eq!(s.capital(tid), before + contract.reward, "the reward is paid on delivery");
    assert_eq!(s.cargo(tid, food).unwrap_or(0), 0, "the cargo is consumed");
    assert!(s.w.contracts().iter().all(|c| c.id != cid), "a fulfilled contract leaves the board");
}

#[test]
fn contract_acceptance_is_validated() {
    let reg = two_system_registry();
    let mut s = Sim::new(&reg, &scenario_contracts(1000), 1);
    let (player, tid) = s.spawn("t:freighter", "t:a", 1_000_000);
    s.run(19);
    let cid = s.w.contracts().iter().find(|c| c.is_open()).expect("open contract").id;

    s.apply(Command::AcceptContract { player, trader: tid, contract: ContractId(99_999) });
    assert_eq!(s.error(), Some(CommandError::UnknownContract));
    s.apply(Command::AcceptContract { player, trader: tid, contract: cid });
    assert!(s.w.last_command_errors().is_empty(), "a valid acceptance is not rejected");
    s.apply(Command::AcceptContract { player, trader: tid, contract: cid });
    assert_eq!(s.error(), Some(CommandError::ContractUnavailable));
}

#[test]
fn contract_fulfilment_is_validated() {
    let reg = two_system_registry();
    let mut s = Sim::new(&reg, &scenario_contracts(1000), 1);
    let player = PlayerId(0);
    let ship = reg.ship_id("t:freighter").unwrap();
    let asys = reg.system_id("t:a").unwrap();
    let bsys = reg.system_id("t:b").unwrap();
    s.queue(Command::Spawn { player, ship, at: asys, capital: 1_000_000 });
    s.queue(Command::Spawn { player, ship, at: asys, capital: 1_000_000 });
    s.run(20);
    let (t1, t2) = (s.w.traders()[0].id, s.w.traders()[1].id);
    let cid = s.w.contracts().iter().find(|c| c.is_open()).expect("open contract").id;

    s.apply(Command::AcceptContract { player, trader: t1, contract: cid });
    s.apply(Command::FulfillContract { player, trader: t2, contract: cid });
    assert_eq!(s.error(), Some(CommandError::ContractNotHeld));
    s.apply(Command::FulfillContract { player, trader: t1, contract: cid });
    assert_eq!(s.error(), Some(CommandError::WrongDestination));
    s.queue(Command::Jump { player, trader: t1, dest: bsys });
    s.run(5);
    assert_eq!(s.place(t1), TraderLocation::Docked(bsys));
    s.apply(Command::FulfillContract { player, trader: t1, contract: cid });
    assert_eq!(s.error(), Some(CommandError::InsufficientCargo));
}

#[test]
fn contracts_expire_and_reject_late_delivery() {
    let reg = two_system_registry();
    let mut s = Sim::new(&reg, &scenario_contracts(5), 1);
    s.tick();
    let contract = *s.w.contracts().iter().find(|c| c.is_open()).expect("a posted contract");
    let cid = contract.id;
    let deadline = contract.deadline.get();

    let (player, tid) = s.spawn("t:freighter", "t:a", 1_000_000);
    s.apply(Command::AcceptContract { player, trader: tid, contract: cid });
    while s.w.tick_count().get() <= deadline {
        s.tick();
    }
    assert!(s.w.contracts().iter().any(|c| c.id == cid), "still on the board for its rejection tick");
    s.apply(Command::FulfillContract { player, trader: tid, contract: cid });
    assert_eq!(s.error(), Some(CommandError::ContractExpired));
    assert!(s.w.contracts().iter().all(|c| c.id != cid), "the expired contract is swept");
}

#[test]
fn courier_contracts_are_generated_and_fulfilled_on_arrival() {
    let reg = two_system_registry();
    let scn = ScenarioDef {
        contract: Some(ContractConfig { courier_reward: 500, ..board(2, 5, 1000, 1.5, 1_000_000) }),
        ..scenario(0, "t:freighter", 0)
    };
    let mut s = Sim::new(&reg, &scn, 1);
    s.tick();
    let contract = *s.w.contracts().iter().find(|c| c.is_open()).expect("a courier contract");
    assert!(matches!(contract.kind, ContractKind::Courier), "kind is courier");
    assert_eq!(contract.cargo(), None, "a courier carries no goods");
    assert_ne!(contract.origin, contract.destination);
    let cid = contract.id;

    let player = PlayerId(0);
    let ship = reg.ship_id("t:freighter").unwrap();
    s.apply(Command::Spawn { player, ship, at: contract.origin, capital: 1000 });
    let tid = s.w.traders()[0].id;
    s.apply(Command::AcceptContract { player, trader: tid, contract: cid });
    s.apply(Command::FulfillContract { player, trader: tid, contract: cid });
    assert_eq!(s.error(), Some(CommandError::WrongDestination));

    s.queue(Command::Jump { player, trader: tid, dest: contract.destination });
    s.run(5);
    assert_eq!(s.place(tid), TraderLocation::Docked(contract.destination));
    let before = s.capital(tid);
    s.apply(Command::FulfillContract { player, trader: tid, contract: cid });
    assert!(s.w.last_command_errors().is_empty(), "a courier completes on arrival");
    assert_eq!(s.capital(tid), before + contract.reward, "the courier reward is paid");
    assert!(s.w.contracts().iter().all(|c| c.id != cid), "the courier leaves the board");
}

fn ports(ships: Vec<ShipDef>) -> Arc<Registry> {
    linked(MergedContent {
        scripts: vec![],
        commodities: vec![good("t:food", "Food", "food")],
        recipes: vec![
            recipe("t:grow", vec![], vec![amount("t:food", 10)], 1, 0.0),
            recipe("t:eat", vec![amount("t:food", 1)], vec![], 1, 0.0),
        ],
        systems: vec![
            system("t:a", "Aport", 0.0, &["t:grow"], &["t:b"], vec![amount("t:food", 500)], "supply_demand_v1", 0.0),
            system("t:b", "Bport", 1.0, &["t:eat"], &["t:a"], vec![amount("t:food", 500)], "supply_demand_v1", 1.0),
        ],
        ships,
    })
}

fn dangerous_reg() -> Arc<Registry> {
    ports(vec![
        ship("t:warship", "Warship", 1000, 100.0, 100_000, 1000.0, Some(armed(10_000, 1000.0, 100_000, 10_000.0, 1, 1.0, 1000.0))),
        ship("t:pirate", "Paper Pirate", 1, 100.0, 1, 1.0, None),
    ])
}

fn scenario_bounty() -> ScenarioDef {
    ScenarioDef {
        piracy: Some(piracy("t:pirate", 1.0, 1, 1000, 5, 100, 1000)),
        contract: Some(ContractConfig {
            bounty_target: 1,
            bounty_reward: 5000,
            ..board(3, 10, 1000, 1.0, 1_000_000)
        }),
        ..scenario(0, "t:warship", 0)
    }
}

#[test]
fn bounty_is_posted_at_the_lawless_system() {
    let reg = dangerous_reg();
    let mut s = Sim::new(&reg, &scenario_bounty(), 1);
    s.tick();
    let bounty = s
        .w
        .contracts()
        .iter()
        .find(|c| matches!(c.kind, ContractKind::Bounty { .. }))
        .expect("a bounty contract");
    assert!(f(reg.system(bounty.destination).danger) > 0.0);
    assert!(matches!(bounty.kind, ContractKind::Bounty { target: 1, progress: 0 }));
}

#[test]
fn bounty_without_kills_is_rejected() {
    let reg = dangerous_reg();
    let mut s = Sim::new(&reg, &scenario_bounty(), 1);
    s.tick();
    let cid = s.w.contracts().iter().find(|c| matches!(c.kind, ContractKind::Bounty { .. })).unwrap().id;
    let (player, tid) = s.spawn("t:warship", "t:b", 1000);
    s.apply(Command::AcceptContract { player, trader: tid, contract: cid });
    s.apply(Command::FulfillContract { player, trader: tid, contract: cid });
    assert_eq!(s.error(), Some(CommandError::BountyIncomplete));
}

#[test]
fn bounty_contract_accrues_kills_and_pays_out() {
    let reg = dangerous_reg();
    let mut s = Sim::new(&reg, &scenario_bounty(), 1);
    s.tick();
    let bounty =
        *s.w.contracts().iter().find(|c| matches!(c.kind, ContractKind::Bounty { .. })).expect("a bounty");
    let cid = bounty.id;
    let bsys = reg.system_id("t:b").unwrap();
    let food = reg.commodity_id("t:food").unwrap();
    assert_eq!(bounty.destination, bsys);

    let (player, tid) = s.spawn("t:warship", "t:a", 1_000_000);
    s.apply(Command::AcceptContract { player, trader: tid, contract: cid });
    s.apply(Command::Buy { player, trader: tid, commodity: food, qty: 5 });
    s.queue(Command::Jump { player, trader: tid, dest: bsys });
    for _ in 0..50 {
        if s.place(tid) == TraderLocation::Docked(bsys) {
            break;
        }
        s.tick();
    }
    let held = s.w.contracts().iter().find(|c| c.id == cid).expect("bounty still held");
    assert!(
        matches!(held.kind, ContractKind::Bounty { progress, .. } if progress >= 1),
        "an ambush win should credit a kill, got {:?}",
        held.kind
    );

    let before = s.capital(tid);
    s.apply(Command::FulfillContract { player, trader: tid, contract: cid });
    assert!(s.w.last_command_errors().is_empty(), "{:?}", s.w.last_command_errors());
    assert_eq!(s.capital(tid), before + bounty.reward);
    assert!(s.w.contracts().iter().all(|c| c.id != cid), "the claimed bounty leaves the board");
}

fn scenario_loans(rate_bps: u32, accrual_interval: u64, term_ticks: u64) -> ScenarioDef {
    ScenarioDef {
        loan: Some(LoanConfig {
            rate_bps,
            accrual_interval,
            term_ticks,
            max_principal: 10_000,
            max_loans: 2,
        }),
        ..scenario(0, "t:freighter", 0)
    }
}

#[test]
fn a_loan_credits_capital_and_is_repaid() {
    let reg = two_system_registry();
    let mut s = Sim::new(&reg, &scenario_loans(0, 100, 1000), 1);
    let (player, tid) = s.spawn("t:freighter", "t:a", 1000);
    s.apply(Command::TakeLoan { player, trader: tid, principal: 5000 });
    assert_eq!(s.w.loans().len(), 1, "the loan is on the book");
    let loan = s.w.loans()[0].id;
    assert_eq!(s.w.loans()[0].outstanding, 5000);
    assert_eq!(s.capital(tid), 6000, "the principal is credited to capital");

    s.apply(Command::RepayLoan { player, trader: tid, loan, amount: 5000 });
    assert!(s.w.loans().is_empty(), "a fully repaid loan closes");
    assert_eq!(s.capital(tid), 1000);
}

#[test]
fn loan_interest_compounds_each_period() {
    let reg = two_system_registry();
    let mut s = Sim::new(&reg, &scenario_loans(1000, 10, 1000), 1);
    let (player, tid) = s.spawn("t:freighter", "t:a", 0);
    s.apply(Command::TakeLoan { player, trader: tid, principal: 1000 });
    assert_eq!(s.w.loans()[0].outstanding, 1000);
    s.run(25);
    assert_eq!(s.w.loans()[0].outstanding, 1210, "1000 -> 1100 -> 1210 over two 10% periods");
}

#[test]
fn overdue_loan_is_called_and_seized() {
    let reg = two_system_registry();
    let mut s = Sim::new(&reg, &scenario_loans(0, 1000, 5), 1);
    let (player, tid) = s.spawn("t:freighter", "t:a", 1000);
    s.apply(Command::TakeLoan { player, trader: tid, principal: 800 });
    assert_eq!(s.capital(tid), 1800);
    let due = s.w.loans()[0].due.get();
    while s.w.tick_count().get() <= due {
        s.tick();
    }
    s.tick();
    assert!(s.w.loans().is_empty(), "the overdue loan is called");
    assert_eq!(s.capital(tid), 1000, "the outstanding balance is seized from capital");
}

#[test]
fn loan_commands_are_validated() {
    let reg = two_system_registry();
    let mut s = Sim::new(&reg, &scenario_loans(0, 100, 1000), 1);
    let (player, tid) = s.spawn("t:freighter", "t:a", 1000);
    let bsys = reg.system_id("t:b").unwrap();

    s.apply(Command::TakeLoan { player, trader: tid, principal: 20_000 });
    assert_eq!(s.error(), Some(CommandError::LoanTooLarge));
    s.apply(Command::RepayLoan { player, trader: tid, loan: LoanId(999), amount: 1 });
    assert_eq!(s.error(), Some(CommandError::UnknownLoan));

    s.queue(Command::TakeLoan { player, trader: tid, principal: 100 });
    s.queue(Command::TakeLoan { player, trader: tid, principal: 100 });
    s.tick();
    assert_eq!(s.w.loans().len(), 2);
    s.apply(Command::TakeLoan { player, trader: tid, principal: 100 });
    assert_eq!(s.error(), Some(CommandError::TooManyLoans));

    s.queue(Command::Jump { player, trader: tid, dest: bsys });
    s.queue(Command::TakeLoan { player, trader: tid, principal: 100 });
    s.tick();
    assert!(s.w.last_command_errors().contains(&CommandError::NotDocked));
}

#[test]
fn lending_unavailable_without_a_loan_config() {
    let reg = two_system_registry();
    let mut s = Sim::new(&reg, &scenario(0, "t:freighter", 0), 1);
    let (player, tid) = s.spawn("t:freighter", "t:a", 100);
    s.apply(Command::TakeLoan { player, trader: tid, principal: 50 });
    assert_eq!(s.error(), Some(CommandError::LendingUnavailable));
}

fn deadly_reg() -> Arc<Registry> {
    ports(vec![
        ship("t:hauler", "Hauler", 100, 100.0, 10, 10.0, None),
        ship("t:raider", "Raider", 1, 100.0, 100, 100.0, Some(armed(100, 10.0, 1000, 10_000.0, 1, 1.0, 100.0))),
    ])
}

fn scenario_insurance() -> ScenarioDef {
    ScenarioDef {
        piracy: Some(piracy("t:raider", 1.0, 1, 1000, 5, 100, 1000)),
        insurance: Some(InsuranceConfig { premium: 500, payout: 4000, term_ticks: 1000 }),
        ..scenario(0, "t:hauler", 0)
    }
}

#[test]
fn insurance_pays_out_on_a_covered_loss() {
    let reg = deadly_reg();
    let mut s = Sim::new(&reg, &scenario_insurance(), 1);
    let bsys = reg.system_id("t:b").unwrap();
    let food = reg.commodity_id("t:food").unwrap();
    let (player, tid) = s.spawn("t:hauler", "t:a", 10_000);
    s.apply(Command::BuyInsurance { player, trader: tid });
    assert_eq!(s.w.policies().len(), 1);
    assert_eq!(s.capital(tid), 10_000 - 500);

    s.apply(Command::Buy { player, trader: tid, commodity: food, qty: 5 });
    let before = s.capital(tid);
    s.queue(Command::Jump { player, trader: tid, dest: bsys });
    s.run(3);
    assert!(matches!(s.place(tid), TraderLocation::Destroyed { .. }), "the hauler is destroyed");
    assert_eq!(s.capital(tid), before + 4000, "insurance pays the payout");
    assert!(s.w.policies().is_empty(), "the policy is consumed by the payout");
}

#[test]
fn insurance_commands_are_validated() {
    let reg = deadly_reg();
    let mut s0 = Sim::new(&reg, &scenario(0, "t:hauler", 0), 1);
    let (player, tid0) = s0.spawn("t:hauler", "t:a", 1000);
    s0.apply(Command::BuyInsurance { player, trader: tid0 });
    assert_eq!(s0.error(), Some(CommandError::InsuranceUnavailable));

    let mut s = Sim::new(&reg, &scenario_insurance(), 1);
    let (player, tid) = s.spawn("t:hauler", "t:a", 600);
    s.apply(Command::BuyInsurance { player, trader: tid });
    assert!(s.w.last_command_errors().is_empty(), "first policy is bought");
    s.apply(Command::BuyInsurance { player, trader: tid });
    assert_eq!(s.error(), Some(CommandError::AlreadyInsured));
}

fn static_reg(pricing: &str, known: &Vec<String>) -> Arc<Registry> {
    Arc::new(
        link(
            MergedContent {
                scripts: vec![],
                commodities: vec![good("t:widget", "Widget", "misc")],
                recipes: vec![],
                systems: vec![system("t:hub", "Hub", 0.0, &[], &[], vec![amount("t:widget", 500)], pricing, 0.0)],
                ships: vec![ship("t:freighter", "Freighter", 100, 100.0, 100, 100.0, None)],
            },
            known,
        )
        .unwrap(),
    )
}

fn scenario_futures() -> ScenarioDef {
    ScenarioDef {
        future: Some(FutureConfig { fee: 100, term_ticks: 20, max_quantity: 50, max_futures: 2 }),
        ..scenario(0, "t:freighter", 0)
    }
}

#[test]
fn a_future_settles_flat_in_a_static_market() {
    let reg = static_reg("supply_demand_v1", &names());
    let mut s = Sim::new(&reg, &scenario_futures(), 1);
    let widget = reg.commodity_id("t:widget").unwrap();
    let (player, tid) = s.spawn("t:freighter", "t:hub", 10_000);
    s.apply(Command::OpenFuture { player, trader: tid, commodity: widget, qty: 10, side: FutureSide::Long });
    assert_eq!(s.w.futures().len(), 1);
    let after_fee = s.capital(tid);
    assert_eq!(after_fee, 10_000 - 100, "the open fee is charged");
    let maturity = s.w.futures()[0].maturity.get();
    while s.w.tick_count().get() < maturity {
        s.tick();
    }
    s.tick();
    assert!(s.w.futures().is_empty(), "the matured position closes");
    assert_eq!(s.capital(tid), after_fee, "a flat market settles to zero P&L");
}

#[test]
fn future_commands_are_validated() {
    let reg = static_reg("supply_demand_v1", &names());
    let widget = reg.commodity_id("t:widget").unwrap();
    let open = |player, trader, qty, side| Command::OpenFuture { player, trader, commodity: widget, qty, side };

    let mut s0 = Sim::new(&reg, &scenario(0, "t:freighter", 0), 1);
    let (player, tid0) = s0.spawn("t:freighter", "t:hub", 10_000);
    s0.apply(open(player, tid0, 1, FutureSide::Long));
    assert_eq!(s0.error(), Some(CommandError::FuturesUnavailable));

    let mut s = Sim::new(&reg, &scenario_futures(), 1);
    let (player, tid) = s.spawn("t:freighter", "t:hub", 10_000);
    s.apply(open(player, tid, 999, FutureSide::Long));
    assert_eq!(s.error(), Some(CommandError::FutureTooLarge));
    for _ in 0..2 {
        s.apply(open(player, tid, 5, FutureSide::Short));
    }
    assert_eq!(s.w.futures().len(), 2);
    s.apply(open(player, tid, 5, FutureSide::Short));
    assert_eq!(s.error(), Some(CommandError::TooManyFutures));
}

#[test]
fn a_battle_spans_several_ticks_and_freezes_the_trader() {
    let brawler = |id: &str, name: &str| ship(id, name, 100, 100.0, 300, 50.0, Some(armed(100, 0.0, 2, 60.0, 2, 0.8, 40.0)));
    let reg = ports(vec![brawler("t:brawler", "Brawler"), brawler("t:raider", "Raider")]);
    let scn = ScenarioDef {
        piracy: Some(piracy("t:raider", 1.0, 1, 1000, 4, 100, 1000)),
        ..scenario(0, "t:brawler", 0)
    };
    let mut s = Sim::new(&reg, &scn, 1);
    let bsys = reg.system_id("t:b").unwrap();
    let food = reg.commodity_id("t:food").unwrap();
    let (player, tid) = s.spawn("t:brawler", "t:a", 1_000_000);
    s.apply(Command::Buy { player, trader: tid, commodity: food, qty: 5 });
    s.apply(Command::Jump { player, trader: tid, dest: bsys });
    assert_eq!(s.w.active_encounters(), 1, "the ambush opens as a running battle");

    let mut ticks_in_battle = 0;
    for _ in 0..200 {
        if s.w.active_encounters() == 0 {
            break;
        }
        assert!(matches!(s.place(tid), TraderLocation::InTransit { .. }), "{:?}", s.place(tid));
        ticks_in_battle += 1;
        s.tick();
    }
    assert!(ticks_in_battle >= 2, "took {ticks_in_battle}");
    assert_eq!(s.w.active_encounters(), 0, "the battle eventually completes");
    assert!(
        matches!(s.place(tid), TraderLocation::Docked(_) | TraderLocation::Destroyed { .. }),
        "{:?}",
        s.place(tid)
    );
}

#[test]
fn a_lopsided_battle_still_resolves_and_pays_out() {
    let reg = frontier_registry();
    let scn = scenario_defended("core:cobra_mk3", None, Some(("core:navy", 6)));
    let mut s = Sim::new(&reg, &scn, 42);
    s.run(2000);
    assert!(s.w.piracy_stats().pirates_suppressed > 0);
    prices_are_sane(&s);
}

#[test]
fn escort_fees_are_charged_on_jumps() {
    let reg = two_system_registry();
    let fees = |fee: Money| {
        let mut scn = scenario(6, "t:freighter", 100_000);
        scn.escort = Some(EscortConfig { ship: "t:freighter".to_string(), count: 1, fee });
        let mut s = Sim::new(&reg, &scn, 1);
        s.run(200);
        s.w.piracy_stats().escort_fees_paid
    };
    assert!(fees(20) > 0, "escorted traders pay for protection when they jump");
    assert_eq!(fees(0), 0);
}

#[test]
fn an_underfunded_navy_shrinks() {
    let reg = frontier_registry();
    let run = |upkeep: Money, funding: Money| {
        let mut scn = scenario_defended("core:cobra_mk3", None, Some(("core:navy", 8)));
        scn.navy = Some(NavyConfig {
            ship: "core:navy".to_string(),
            fleet_size: 8,
            reinforce_interval: 20,
            upkeep,
            funding,
        });
        let mut s = Sim::new(&reg, &scn, 42);
        s.run(2000);
        (s.w.navy().len(), s.w.treasury())
    };
    let (funded, _) = run(1, 10_000);
    let (starved, deficit) = run(100, 0);
    assert!(funded > 0, "a funded navy is sustained near its target size");
    assert!(starved < funded, "starved={starved}, funded={funded}");
    assert!(deficit < 0, "an unfunded navy runs the treasury into deficit, got {deficit}");
}

#[test]
fn a_scripted_pricing_strategy_drives_the_market() {
    let mut pricing = builtin_pricing();
    pricing.register_script(
        "mod:double",
        ScriptedPricing::compile("fn price(base, stock, equilibrium, elasticity) { base * 2 }").unwrap(),
    );
    let known = pricing.names();
    let reg = static_reg("mod:double", &known);
    let mut s = Sim::build(&reg, &scenario(0, "t:freighter", 0), 1, pricing).unwrap();
    let widget = reg.commodity_id("t:widget").unwrap();
    assert_eq!(s.w.markets()[0].price(widget).unwrap(), 200, "the script sets price = 2 * base");
    s.run(50);
    assert_eq!(s.w.markets()[0].price(widget).unwrap(), 200);
}

#[test]
fn reporting_a_pirate_kill_removes_it_and_pays_bounty() {
    let reg = frontier_registry();
    let mut s = Sim::new(&reg, &scenario_piracy(0, "core:cobra_mk3", "core:pirate", 0.0, 0.0), 42);
    let (player, tid) = s.spawn("core:cobra_mk3", "core:lave", 1000);
    assert!(!s.w.pirates().is_empty(), "the piracy scenario spawns pirates");
    let pirate = s.w.pirates()[0].id;
    let before = s.w.pirates().len();
    let cap_before = s.capital(tid);

    s.apply(Command::DestroyedPirate { player, trader: tid, pirate });
    assert_eq!(s.w.pirates().len(), before - 1, "the reported pirate is removed");
    assert!(s.w.pirates().iter().all(|p| p.id != pirate));
    assert_eq!(s.w.piracy_stats().pirates_destroyed, 1);
    assert_eq!(s.capital(tid), cap_before + 300, "the bounty is paid to the player");

    s.apply(Command::DestroyedPirate { player, trader: tid, pirate });
    assert_eq!(s.error(), Some(CommandError::UnknownPatrol));
}

#[test]
fn reporting_player_death_destroys_the_trader_and_pays_insurance() {
    let reg = frontier_registry();
    let mut scn = scenario_piracy(0, "core:cobra_mk3", "core:pirate", 0.0, 0.0);
    scn.insurance = Some(InsuranceConfig { premium: 500, payout: 4000, term_ticks: 1000 });
    let mut s = Sim::new(&reg, &scn, 42);
    let food = reg.commodity_id("core:food").unwrap();
    let (player, tid) = s.spawn("core:cobra_mk3", "core:lave", 10_000);
    s.queue(Command::BuyInsurance { player, trader: tid });
    s.queue(Command::Buy { player, trader: tid, commodity: food, qty: 5 });
    s.tick();
    assert_eq!(s.w.policies().len(), 1);
    let before = s.capital(tid);

    s.apply(Command::TraderDestroyed { player, trader: tid });
    assert!(matches!(s.place(tid), TraderLocation::Destroyed { .. }), "the trader is destroyed");
    let lost = s.w.traders().iter().find(|t| t.id == tid).unwrap();
    assert!(lost.cargo.is_empty(), "cargo is lost on destruction");
    assert_eq!(s.w.piracy_stats().traders_lost, 1);
    assert_eq!(s.capital(tid), before + 4000, "insurance pays out on the loss");
    assert!(s.w.policies().is_empty(), "the policy is consumed");
}

fn fighter() -> CombatStats {
    armed(30, 0.5, 10, 40.0, 2, 1.0, 20.0)
}

fn at(faction: u8, stats: CombatStats, hull: u32, x: f64) -> Combatant {
    Combatant::new(ShipId(0), faction, stats, hull, b(300.0), point(x, 0.0))
}

#[test]
fn outcome_detects_victory_and_draw() {
    let mut e = Encounter::new(vec![at(0, fighter(), 10, 0.0), at(1, fighter(), 10, 5.0)]);
    assert_eq!(e.outcome(), Outcome::Ongoing);
    e.combatants[1].alive = false;
    assert_eq!(e.outcome(), Outcome::Victory(0));
    e.combatants[0].alive = false;
    assert_eq!(e.outcome(), Outcome::Draw);
}

#[test]
fn nearest_enemy_is_chosen() {
    let e = Encounter::new(vec![
        at(0, fighter(), 10, 0.0),
        at(1, fighter(), 10, 100.0),
        at(1, fighter(), 10, 10.0),
    ]);
    let from = |i: usize| -> Vec<Bits> {
        e.combatants.iter().map(|c| b(distance(e.combatants[i].pos, c.pos))).collect()
    };
    assert_eq!(e.nearest_enemy(0, &from(0)), Some(2), "the closer enemy (index 2)");
    assert_eq!(e.nearest_enemy(1, &from(1)), Some(0));
}

#[test]
fn a_duel_ends_deterministically() {
    let build = || Encounter::new(vec![at(0, fighter(), 40, -20.0), at(1, fighter(), 40, 20.0)]);
    let (mut a, mut c) = (build(), build());
    let out_a = resolve(&mut a, &mut DetRng::from_seed(5), 500);
    let out_c = resolve(&mut c, &mut DetRng::from_seed(5), 500);
    assert_ne!(out_a, Outcome::Ongoing, "the duel should conclude");
    assert_eq!(out_a, out_c, "same seed -> same outcome");
}

#[test]
fn stronger_ship_reliably_wins() {
    let strong = CombatStats { shield: 200, weapon_damage: 30, ..fighter() };
    let mut wins = 0;
    for seed in 0..20 {
        let mut e = Encounter::new(vec![at(0, strong, 300, -20.0), at(1, fighter(), 40, 20.0)]);
        if resolve(&mut e, &mut DetRng::from_seed(seed), 1000) == Outcome::Victory(0) {
            wins += 1;
        }
    }
    assert_eq!(wins, 20, "the much stronger ship should win every time");
}

#[test]
fn unarmed_ship_cannot_win() {
    let unarmed = CombatStats { weapon_damage: 0, weapon_range: b(0.0), ..fighter() };
    let mut e = Encounter::new(vec![at(0, fighter(), 40, -15.0), at(1, unarmed, 40, 15.0)]);
    assert_eq!(resolve(&mut e, &mut DetRng::from_seed(1), 1000), Outcome::Victory(0));
    assert_eq!(e.survivors(0), 1);
    assert_eq!(e.survivors(1), 0);
    assert_eq!(e.alive_count(), 1);
}

#[test]
fn a_world_that_cannot_be_built_says_why() {
    let empty = linked(MergedContent {
        scripts: vec![],
        commodities: vec![],
        recipes: vec![],
        systems: vec![],
        ships: vec![],
    });
    let scn = scenario(0, "t:freighter", 0);
    let e = Sim::build(&empty, &scn, 1, builtin_pricing()).err().unwrap();
    assert!(matches!(e, WorldError::NoSystems));

    let two = two_system_registry();
    let e = Sim::build(&two, &scenario(1, "t:ghost", 0), 1, builtin_pricing()).err().unwrap();
    assert!(matches!(&e, WorldError::UnknownShip(name) if name == "t:ghost"), "{e:?}");

    let starved = linked(MergedContent {
        scripts: vec![],
        commodities: vec![good("t:food", "Food", "food")],
        recipes: vec![recipe("t:grow", vec![], vec![amount("t:food", 10)], 1, 0.0)],
        systems: vec![system("t:a", "A", 0.0, &["t:grow"], &[], vec![], "supply_demand_v1", 0.0)],
        ships: vec![],
    });
    let e = Sim::build(&starved, &scn, 1, builtin_pricing()).err().unwrap();
    assert!(
        matches!(&e, WorldError::MissingIndustryCommodity { system, commodity }
            if system == "t:a" && commodity == "t:food"),
        "{e:?}"
    );
}

#[test]
fn every_rejection_has_its_reason() {
    let reg = two_system_registry();
    let mut s = Sim::new(&reg, &scenario_loans(0, 100, 1000), 1);
    let (player, tid) = s.spawn("t:freighter", "t:a", 1000);
    let food = reg.commodity_id("t:food").unwrap();
    let asys = reg.system_id("t:a").unwrap();
    let ship = reg.ship_id("t:freighter").unwrap();
    let cases = vec![
        (Command::Spawn { player, ship: ShipId(9), at: asys, capital: 1 }, CommandError::UnknownShip),
        (Command::Spawn { player, ship, at: SystemId(9), capital: 1 }, CommandError::InvalidSystem),
        (Command::Jump { player, trader: tid, dest: SystemId(9) }, CommandError::InvalidSystem),
        (Command::Jump { player, trader: tid, dest: asys }, CommandError::Unreachable),
        (Command::Buy { player, trader: tid, commodity: food, qty: 0 }, CommandError::ZeroQuantity),
        (Command::Buy { player, trader: tid, commodity: food, qty: 20 }, CommandError::InsufficientFunds),
        (Command::Sell { player, trader: tid, commodity: food, qty: 1 }, CommandError::InsufficientCargo),
        (Command::TakeLoan { player, trader: tid, principal: 0 }, CommandError::ZeroQuantity),
        (Command::DestroyedPirate { player, trader: tid, pirate: drift::ids::PatrolId(1) }, CommandError::UnknownPatrol),
    ];
    for (command, reason) in cases {
        let before = (s.capital(tid), s.place(tid), s.w.traders().len());
        s.apply(command);
        assert_eq!(s.error(), Some(reason), "{command:?}");
        assert_eq!(before, (s.capital(tid), s.place(tid), s.w.traders().len()));
    }

    let mut rich = Sim::new(&reg, &scenario_loans(0, 100, 1000), 1);
    let (player, tid) = rich.spawn("t:freighter", "t:a", 1_000_000_000);
    rich.run(200);
    rich.apply(Command::Buy { player, trader: tid, commodity: food, qty: 1001 });
    assert_eq!(rich.error(), Some(CommandError::OverCapacity));
    rich.apply(Command::TakeLoan { player, trader: tid, principal: 10 });
    let loan = rich.w.loans()[0].id;
    let (_, other) = rich.spawn("t:freighter", "t:a", 10);
    rich.apply(Command::RepayLoan { player, trader: other, loan, amount: 1 });
    assert_eq!(rich.error(), Some(CommandError::LoanNotHeld));
}

#[test]
fn buying_and_selling_back_restores_the_trader_and_the_market() {
    let reg = static_reg("supply_demand_v1", &names());
    let mut s = Sim::new(&reg, &scenario(0, "t:freighter", 0), 1);
    let widget = reg.commodity_id("t:widget").unwrap();
    let (player, tid) = s.spawn("t:freighter", "t:hub", 10_000);
    s.queue(Command::Buy { player, trader: tid, commodity: widget, qty: 7 });
    s.queue(Command::Sell { player, trader: tid, commodity: widget, qty: 7 });
    s.tick();
    assert_eq!(s.w.commands_applied(), 3);
    assert_eq!(s.capital(tid), 10_000);
    assert_eq!(s.cargo(tid, widget), None);
    assert_eq!(s.w.markets()[0].stock(widget), 500);
}

#[test]
fn the_clock_moves_one_tick_at_a_time_and_ids_only_grow() {
    let reg = frontier_registry();
    let scn = scenario_defended("core:cobra_mk3", None, Some(("core:navy", 6)));
    let mut s = Sim::new(&reg, &scn, 3);
    for t in 0..120u64 {
        assert_eq!(s.w.tick_count().get(), t);
        assert_eq!(s.w.stage(), Stage::Idle);
        let before = (s.w.next_trader_id(), s.w.next_contract_id(), s.w.next_loan_id());
        s.tick();
        let after = (s.w.next_trader_id(), s.w.next_contract_id(), s.w.next_loan_id());
        assert!(before.0 <= after.0 && before.1 <= after.1 && before.2 <= after.2);
        let mut ids: Vec<u64> =
            s.w.pirates().iter().chain(s.w.navy().iter()).map(|p| p.id.0).collect();
        ids.sort();
        let n = ids.len();
        ids.dedup();
        assert_eq!(ids.len(), n, "no patrol id is borne twice");
    }
}

/// Drive a session at the terminal with these lines of input; what it printed.
fn run_repl(s: &mut Sim, player: PlayerId, id: TraderId, input: &str) -> String {
    let reg = s.w.registry_arc();
    let dangers: Vec<String> =
        reg.systems().iter().map(|x| format!("{:.2}", f(x.danger))).collect();
    let mut out = format!("{HELP}\n");
    let mut lines = input.lines();
    loop {
        let step = {
            let scene = Scene {
                reg: &reg,
                now: s.w.tick_count(),
                markets: s.w.markets(),
                traders: s.w.traders(),
                contracts: s.w.contracts(),
                loans: s.w.loans(),
                dangers: &dangers,
            };
            let Some(shown) = prompt(&scene, id) else {
                out += GONE;
                break;
            };
            out += &shown;
            let Some(line) = lines.next() else { break };
            let papers = Papers { policies: s.w.policies(), futures: s.w.futures() };
            respond(line, &scene, &papers, player, id)
        };
        match step {
            Step::Nothing => {}
            Step::Quit => break,
            Step::Say(text) => out += &text,
            Step::Act(command, success) => {
                s.apply(command);
                out += &report_command(s.w.last_command_errors(), &success);
            }
            Step::Pass(n, text) => {
                s.run(n);
                out += &text;
            }
            Step::Travel(command, departure) => {
                s.apply(command);
                if !s.w.last_command_errors().is_empty() {
                    out += &report_command(s.w.last_command_errors(), "");
                    continue;
                }
                out += &departure;
                let mut destroyed = false;
                for _ in 0..JOURNEY_LIMIT {
                    let place = s.w.traders().iter().find(|t| t.id == id).map(|t| t.location);
                    match journey(&reg, place, destroyed) {
                        Leg::Over(text) => {
                            out += &text.unwrap_or_default();
                            break;
                        }
                        Leg::Onward(text, gone) => {
                            out += &text.unwrap_or_default();
                            destroyed = gone;
                            let before = s.capital(id);
                            s.tick();
                            if matches!(place, Some(TraderLocation::InTransit { .. })) {
                                out += &spoils_text(before, s.capital(id)).unwrap_or_default();
                            }
                        }
                    }
                }
            }
        }
    }
    out + FAREWELL
}

fn sandbox() -> ScenarioDef {
    scenario(0, "core:cobra_mk3", 0)
}

#[test]
fn parses_actions_and_resolves_names() {
    let r = frontier_registry();
    let food = r.commodity_id("core:food").unwrap();
    let leesti = r.system_id("core:leesti").unwrap();
    assert_eq!(parse_action("buy food 10", &r), Ok(Action::Buy(food, 10)));
    assert_eq!(parse_action("b Food 3", &r), Ok(Action::Buy(food, 3)));
    assert_eq!(parse_action("sell core:food 5", &r), Ok(Action::Sell(food, 5)));
    assert_eq!(parse_action("jump leesti", &r), Ok(Action::Jump(leesti)));
    assert_eq!(parse_action("wait 4", &r), Ok(Action::Wait(4)));
    assert_eq!(parse_action("wait", &r), Ok(Action::Wait(1)));
    assert_eq!(parse_action("s", &r), Ok(Action::Status));
    assert_eq!(parse_action("map", &r), Ok(Action::Chart));
    assert_eq!(parse_action("quit", &r), Ok(Action::Quit));
    assert!(parse_action("buy nope 1", &r).is_err());
    assert!(parse_action("buy food xx", &r).is_err());
    assert!(parse_action("buy food", &r).is_err());
    assert!(parse_action("frobnicate", &r).is_err());
}

#[test]
fn parses_contract_actions() {
    let r = frontier_registry();
    assert_eq!(parse_action("contracts", &r), Ok(Action::Contracts));
    assert_eq!(parse_action("c", &r), Ok(Action::Contracts));
    assert_eq!(parse_action("accept 7", &r), Ok(Action::Accept(ContractId(7))));
    assert_eq!(parse_action("accept #7", &r), Ok(Action::Accept(ContractId(7))));
    assert_eq!(parse_action("fulfil 3", &r), Ok(Action::Fulfil(ContractId(3))));
    assert_eq!(parse_action("fulfill 3", &r), Ok(Action::Fulfil(ContractId(3))));
    assert!(parse_action("accept", &r).is_err());
    assert!(parse_action("accept xx", &r).is_err());
    assert!(parse_action("fulfil", &r).is_err());
}

#[test]
fn parses_finance_actions() {
    let r = frontier_registry();
    assert_eq!(parse_action("loans", &r), Ok(Action::Loans));
    assert_eq!(parse_action("borrow 500", &r), Ok(Action::Borrow(500)));
    assert_eq!(parse_action("loan 1000", &r), Ok(Action::Borrow(1000)));
    assert_eq!(parse_action("repay 2", &r), Ok(Action::Repay(LoanId(2), None)));
    assert_eq!(parse_action("repay #2 300", &r), Ok(Action::Repay(LoanId(2), Some(300))));
    assert!(parse_action("borrow", &r).is_err());
    assert!(parse_action("borrow -5", &r).is_err());
    assert!(parse_action("repay", &r).is_err());
    assert!(parse_action("repay xx", &r).is_err());
}

#[test]
fn parses_insurance_and_future_actions() {
    let r = frontier_registry();
    let food = r.commodity_id("core:food").unwrap();
    assert_eq!(parse_action("insure", &r), Ok(Action::Insure));
    assert_eq!(parse_action("finance", &r), Ok(Action::Finance));
    assert_eq!(
        parse_action("future long food 5", &r),
        Ok(Action::Future(food, 5, FutureSide::Long))
    );
    assert_eq!(
        parse_action("fut short food 3", &r),
        Ok(Action::Future(food, 3, FutureSide::Short))
    );
    assert!(parse_action("future sideways food 5", &r).is_err());
    assert!(parse_action("future long food", &r).is_err());
}

#[test]
fn scripted_session_insures_and_opens_a_future() {
    let r = frontier_registry();
    let scn = ScenarioDef {
        insurance: Some(InsuranceConfig { premium: 500, payout: 4000, term_ticks: 1000 }),
        future: Some(FutureConfig { fee: 100, term_ticks: 200, max_quantity: 50, max_futures: 3 }),
        ..sandbox()
    };
    let mut s = Sim::new(&r, &scn, 1);
    let (player, id) = s.spawn("core:cobra_mk3", "core:lave", 5000);
    let text = run_repl(&mut s, player, id, "insure\nfuture long food 5\nfinance\nquit\n");
    assert!(text.contains("Insured your ship"), "insure confirmed:\n{text}");
    assert!(text.contains("Opened a Long future on 5 Food"), "future confirmed:\n{text}");
    assert!(text.contains("covered for 4000"), "finance lists the policy:\n{text}");
    assert_eq!(s.w.policies().len(), 1, "the policy is active");
    assert_eq!(s.w.futures().len(), 1, "the position is open");
}

#[test]
fn scripted_session_borrows_and_repays() {
    let r = frontier_registry();
    let scn = ScenarioDef {
        loan: Some(LoanConfig {
            rate_bps: 0,
            accrual_interval: 100,
            term_ticks: 1000,
            max_principal: 10_000,
            max_loans: 2,
        }),
        ..sandbox()
    };
    let mut s = Sim::new(&r, &scn, 1);
    let (player, id) = s.spawn("core:cobra_mk3", "core:lave", 1000);
    let text = run_repl(&mut s, player, id, "borrow 5000\nloans\nrepay 0\nquit\n");
    assert!(text.contains("Borrowed 5000 cr"), "borrow confirmed:\n{text}");
    assert!(text.contains("#0"), "the loan is listed:\n{text}");
    assert!(text.contains("Repaid 5000 cr on loan #0"), "repay confirmed:\n{text}");
    assert!(s.w.loans().is_empty(), "the loan is fully repaid and closed");
    assert_eq!(s.capital(id), 1000, "capital returns to the pre-loan level");
}

/// Aport grows food, Bport eats it, joined by a one-tick jump.
fn named_ports() -> Arc<Registry> {
    let stock = || vec![amount("t:food", 500)];
    linked(MergedContent {
        scripts: vec![],
        commodities: vec![good("t:food", "Food", "food")],
        recipes: vec![
            recipe("t:grow", vec![], vec![amount("t:food", 10)], 1, 0.0),
            recipe("t:eat", vec![amount("t:food", 10)], vec![], 1, 0.0),
        ],
        systems: vec![
            system("t:a", "Aport", 0.0, &["t:grow"], &["t:b"], stock(), "supply_demand_v1", 0.0),
            system("t:b", "Bport", 1.0, &["t:eat"], &["t:a"], stock(), "supply_demand_v1", 0.0),
        ],
        ships: vec![ship("t:freighter", "Freighter", 1000, 100.0, 100, 100.0, None)],
    })
}

#[test]
fn scripted_session_accepts_and_fulfills_a_contract() {
    let r = named_ports();
    let mut s = Sim::new(&r, &scenario_contracts(1000), 1);
    s.run(20);
    let contract = *s.w.contracts().iter().find(|c| c.is_open()).expect("an open contract");
    let cid = contract.id.0;
    let need = contract.cargo().map(|(_, q)| q).expect("a delivery contract");
    let reward = contract.reward;
    assert_eq!(contract.destination, r.system_id("t:b").unwrap());
    let (player, id) = s.spawn("t:freighter", "t:a", 1_000_000);

    let script =
        format!("contracts\naccept {cid}\nbuy food {need}\njump bport\nfulfil {cid}\nquit\n");
    let text = run_repl(&mut s, player, id, &script);
    assert!(text.contains(&format!("#{cid}")), "the board should list the contract:\n{text}");
    assert!(text.contains(&format!("Accepted contract #{cid}")), "accept confirmed:\n{text}");
    assert!(text.contains(&format!("Completed contract #{cid}")), "delivery confirmed:\n{text}");
    assert!(text.contains(&format!("+{reward} cr")), "reward shown:\n{text}");

    let food = r.commodity_id("t:food").unwrap();
    assert_eq!(s.cargo(id, food).unwrap_or(0), 0, "delivered cargo is consumed");
    assert!(s.w.contracts().iter().all(|c| c.id.0 != cid), "the contract left the board");
}

#[test]
fn fulfilling_from_the_wrong_place_is_rejected() {
    let r = named_ports();
    let mut s = Sim::new(&r, &scenario_contracts(1000), 1);
    s.run(20);
    let cid = s.w.contracts().iter().find(|c| c.is_open()).expect("open contract").id.0;
    let (player, id) = s.spawn("t:freighter", "t:a", 1_000_000);
    let text = run_repl(&mut s, player, id, &format!("accept {cid}\nfulfil {cid}\nquit\n"));
    assert!(
        text.contains("rejected:"),
        "delivery from the wrong place should be rejected:\n{text}"
    );
}

#[test]
fn scripted_session_buys_and_sells() {
    let r = frontier_registry();
    let mut s = Sim::new(&r, &sandbox(), 1);
    let (player, id) = s.spawn("core:cobra_mk3", "core:lave", 5000);
    let text = run_repl(&mut s, player, id, "buy food 10\nsell food 4\nquit\n");
    assert!(text.contains("Bought 10 Food"), "output:\n{text}");
    assert!(text.contains("Sold 4 Food"));
    assert!(text.contains("Fair skies"));
    let food = r.commodity_id("core:food").unwrap();
    assert_eq!(s.cargo(id, food), Some(6));
}

#[test]
fn scripted_jump_moves_the_player() {
    let r = frontier_registry();
    let mut s = Sim::new(&r, &sandbox(), 1);
    let (player, id) = s.spawn("core:cobra_mk3", "core:lave", 5000);
    let text = run_repl(&mut s, player, id, "jump leesti\nquit\n");
    assert!(text.contains("Departing for Leesti"), "output:\n{text}");
    assert!(text.contains("Arrived at Leesti"));
    assert_eq!(s.place(id), TraderLocation::Docked(r.system_id("core:leesti").unwrap()));
}

#[test]
fn rejected_command_is_reported_to_the_player() {
    let r = frontier_registry();
    let mut s = Sim::new(&r, &sandbox(), 1);
    let (player, id) = s.spawn("core:cobra_mk3", "core:lave", 100);
    let text = run_repl(&mut s, player, id, "buy food 100000\njump tionisla\nquit\n");
    assert_eq!(text.matches("rejected:").count(), 2, "both should be rejected:\n{text}");
}

#[test]
fn a_session_without_a_ship_is_over() {
    let r = frontier_registry();
    let mut s = Sim::new(&r, &sandbox(), 1);
    let text = run_repl(&mut s, PlayerId(0), TraderId(5), "map\nquit\n");
    assert!(text.ends_with("Your ship is gone. Game over.\nFair skies, commander.\n"), "{text}");
}

#[test]
fn local_command_sink_drives_a_player_trader() {
    let reg = frontier_registry();
    let mut s = Sim::new(&reg, &sandbox(), 1);
    let ship = reg.ship_id("core:cobra_mk3").unwrap();
    let at = reg.system_id("core:lave").unwrap();
    let food = reg.commodity_id("core:food").unwrap();

    s.queue(Command::Spawn { player: PlayerId(0), ship, at, capital: 1000 });
    s.run(2);
    let t = find_player_trader(s.w.traders(), PlayerId(0)).expect("spawned trader");
    let id = t.id;
    assert_eq!(cargo_units(&reg, &t.cargo), 0);

    s.queue(Command::Buy { player: PlayerId(0), trader: id, commodity: food, qty: 4 });
    s.run(2);
    let t = find_player_trader(s.w.traders(), PlayerId(0)).expect("trader still present");
    assert_eq!(cargo_units(&reg, &t.cargo), 4, "the buy command should have loaded cargo");
}

#[test]
fn armed_traders_survive_piracy_better_than_unarmed() {
    let reg = frontier_registry();
    let losses = |ship: &str| {
        let scn = scenario_piracy(20, ship, "core:pirate", 0.15, 0.0);
        let mut s = Sim::new(&reg, &scn, 42);
        s.run(1500);
        s.w.piracy_stats()
    };
    let armed = losses("core:cobra_mk3");
    let unarmed = losses("core:shuttle");
    assert!(
        armed.traders_lost < unarmed.traders_lost,
        "armed traders ({}) should lose fewer ships than unarmed ({})",
        armed.traders_lost,
        unarmed.traders_lost
    );
    assert!(armed.pirates_destroyed > 0, "armed traders should destroy pirates");
}

#[test]
fn pirate_fleet_can_be_depleted_without_reinforcement() {
    let reg = frontier_registry();
    let scn = ScenarioDef {
        seed: 7,
        piracy: Some(piracy("core:pirate", 0.2, 2, 40, 10, 300, 1_000_000)),
        ..scenario(24, "core:cobra_mk3", 5000)
    };
    let mut s = Sim::new(&reg, &scn, 7);
    let initial = s.w.pirates().len();
    s.run(4000);
    assert!(initial > 0, "fleet starts populated");
    assert!(
        s.w.pirates().len() < initial,
        "an un-reinforced fleet should be depleted by armed traders: {} -> {}",
        initial,
        s.w.pirates().len()
    );
}

#[test]
fn escorts_reduce_trader_losses() {
    let reg = frontier_registry();
    let losses = |escort| {
        let scn = scenario_defended("core:shuttle", escort, None);
        let mut s = Sim::new(&reg, &scn, 42);
        s.run(1500);
        s.w.piracy_stats().traders_lost
    };
    let unescorted = losses(None);
    let escorted = losses(Some(("core:escort", 2)));
    assert!(unescorted > 0, "unescorted shuttles should be dying");
    assert!(escorted < unescorted, "unescorted={unescorted}, escorted={escorted}");
}

#[test]
fn navy_reduces_trader_losses() {
    let reg = frontier_registry();
    let total_losses = |navy| -> u64 {
        (0..8)
            .map(|seed| {
                let scn = scenario_defended("core:shuttle", None, navy);
                let mut s = Sim::new(&reg, &scn, seed);
                s.run(1500);
                s.w.piracy_stats().traders_lost
            })
            .sum()
    };
    let undefended = total_losses(None);
    let defended = total_losses(Some(("core:navy", 12)));
    assert!(defended < undefended, "undefended={undefended}, defended={defended}");
}

/// A simulation run by the wall clock.
struct LocalSource {
    session: Sim,
    paused: bool,
    speed: f64,
    accum: f64,
}

fn local_source() -> LocalSource {
    let session = Sim::new(&frontier_registry(), &scenario(0, "", 0), 1);
    LocalSource { session, paused: false, speed: 10.0, accum: 0.0 }
}

impl LocalSource {
    fn advance(&mut self, dt: f64) {
        if !self.paused {
            self.accum += dt * self.speed;
        }
        let mut ticks = 0;
        while tick_due(self.paused, self.accum.to_bits(), ticks) {
            self.session.tick();
            self.accum -= 1.0;
            ticks += 1;
        }
    }
}

#[test]
fn fixed_timestep_advances_by_dt_times_speed() {
    let mut s = local_source();
    s.speed = 10.0;
    s.advance(1.0);
    assert_eq!(s.session.w.tick_count().get(), 10);
    s.advance(0.05);
    assert_eq!(s.session.w.tick_count().get(), 10);
    s.advance(0.05);
    assert_eq!(s.session.w.tick_count().get(), 11);
}

#[test]
fn paused_does_not_advance() {
    let mut s = local_source();
    s.paused = true;
    s.advance(10.0);
    assert_eq!(s.session.w.tick_count().get(), 0);
}

#[test]
fn advance_is_capped_per_frame() {
    let mut s = local_source();
    s.speed = 1000.0;
    s.advance(100.0);
    assert_eq!(s.session.w.tick_count().get() as u32, MAX_TICKS_PER_FRAME);
}

#[test]
fn a_policy_pays_until_its_expiry_tick_is_over() {
    let reg = frontier_registry();
    let paid_after = |ticks: u64| {
        let mut scn = sandbox();
        scn.insurance = Some(InsuranceConfig { premium: 500, payout: 4000, term_ticks: 2 });
        let mut s = Sim::new(&reg, &scn, 1);
        let (player, tid) = s.spawn("core:cobra_mk3", "core:lave", 10_000);
        s.apply(Command::BuyInsurance { player, trader: tid });
        s.run(ticks);
        let before = s.capital(tid);
        s.apply(Command::TraderDestroyed { player, trader: tid });
        assert_eq!(s.error(), None);
        s.capital(tid) - before
    };
    assert_eq!(paid_after(0), 4000);
    assert_eq!(paid_after(1), 4000, "the expiry tick itself is covered");
    assert_eq!(paid_after(2), 0, "a loss after expiry is not");
    assert_eq!(paid_after(3), 0);
}

#[test]
fn a_bounty_is_only_posted_at_the_most_dangerous_lair() {
    let reg = frontier_registry();
    let mut scn = scenario_piracy(0, "core:cobra_mk3", "core:pirate", 0.0, 0.0);
    scn.contract = Some(ContractConfig {
        bounty_target: 2,
        bounty_reward: 700,
        ..board(9, 1, 1_000_000, 1.0, 1_000_000)
    });
    let mut s = Sim::new(&reg, &scn, 42);
    let mut posted = 0;
    let mut held_back = 0;
    for _ in 0..120 {
        let before = s.w.contracts().len();
        s.tick();
        let mut dens: Vec<(f64, SystemId)> = s
            .w
            .pirates()
            .iter()
            .filter_map(|p| p.docked_at())
            .map(|at| (f(reg.system(at).danger), at))
            .collect();
        dens.sort_by(|a, b| b.0.partial_cmp(&a.0).unwrap().then(a.1 .0.cmp(&b.1 .0)));
        let open: Vec<SystemId> =
            s.w.contracts().iter().take(before).map(|c| c.destination).collect();
        if s.w.contracts().len() > before {
            posted += 1;
            let new = s.w.contracts()[before];
            assert!(matches!(new.kind, ContractKind::Bounty { target: 2, progress: 0 }));
            assert_eq!(new.reward, 700);
            assert_eq!(new.destination, dens[0].1);
            assert!(!open.contains(&new.destination));
        } else if let Some((_, lair)) = dens.first() {
            assert!(open.contains(lair));
            if dens.iter().any(|(_, at)| !open.contains(at)) {
                held_back += 1;
            }
        }
    }
    assert!(posted > 0);
    assert!(held_back > 0, "pirates elsewhere wait until the lair is done with");
}

#[test]
fn quantities_are_positive() {
    let r = frontier_registry();
    assert_eq!(parse_qty("0"), Err("quantity must be positive".to_string()));
    assert_eq!(parse_qty("1"), Ok(1));
    assert_eq!(parse_qty("x"), Err("`x` is not a number".to_string()));
    assert!(parse_action("buy food 0", &r).is_err());
    assert!(parse_action("sell food 0", &r).is_err());
    assert!(parse_action("future long food 0", &r).is_err());
    assert!(parse_action("wait 0", &r).is_err());
}

#[test]
fn running_in_two_parts_is_running_once() {
    let reg = frontier_registry();
    let scn = scenario_piracy(12, "core:cobra_mk3", "core:pirate", 0.15, 0.0);
    let mut once = Sim::new(&reg, &scn, 42);
    once.run(150);
    let mut twice = Sim::new(&reg, &scn, 42);
    twice.run(60);
    twice.run(90);
    assert_eq!(twice.w.tick_count().0, 150);
    assert_eq!(format!("{:?}", once.w), format!("{:?}", twice.w));
}

#[test]
fn trader_ids_are_never_given_out_again() {
    let reg = frontier_registry();
    let mut s = Sim::new(&reg, &sandbox(), 1);
    let player = PlayerId(0);
    let ship = reg.ship_id("core:cobra_mk3").unwrap();
    let at = reg.system_id("core:lave").unwrap();
    let food = reg.commodity_id("core:food").unwrap();
    let spawn = Command::Spawn { player, ship, at, capital: 1000 };
    for _ in 0..3 {
        s.queue(spawn);
    }
    s.tick();
    let ids: Vec<TraderId> = s.w.traders().iter().map(|t| t.id).collect();
    assert!(ids[0].0 < ids[1].0 && ids[1].0 < ids[2].0);
    s.queue(Command::Despawn { player, trader: ids[2] });
    s.queue(spawn);
    s.queue(Command::Despawn { player, trader: ids[0] });
    s.queue(spawn);
    s.queue(Command::Buy { player, trader: ids[2], commodity: food, qty: 1 });
    s.tick();
    assert_eq!(s.error(), Some(CommandError::UnknownTrader));
    let left: Vec<TraderId> = s.w.traders().iter().map(|t| t.id).collect();
    assert_eq!(left, vec![ids[1], TraderId(ids[2].0 + 1), TraderId(ids[2].0 + 2)]);
}

#[test]
fn a_kill_is_paid_once_and_the_other_pirates_stay() {
    let reg = frontier_registry();
    let mut s =
        Sim::new(&reg, &scenario_piracy(0, "core:cobra_mk3", "core:pirate", 0.0, 0.0), 42);
    let (player, tid) = s.spawn("core:cobra_mk3", "core:lave", 1000);
    let fleet: Vec<u64> = s.w.pirates().iter().map(|p| p.id.0).collect();
    let pirate = s.w.pirates()[1].id;
    s.queue(Command::DestroyedPirate { player, trader: tid, pirate });
    s.queue(Command::DestroyedPirate { player, trader: tid, pirate });
    s.tick();
    assert_eq!(*s.w.last_command_errors(), vec![CommandError::UnknownPatrol]);
    let rest: Vec<u64> = fleet.iter().copied().filter(|id| *id != pirate.0).collect();
    let left: Vec<u64> = s.w.pirates().iter().map(|p| p.id.0).take(rest.len()).collect();
    assert_eq!(left, rest);
    assert_eq!(s.capital(tid), 1300);
    assert_eq!(s.w.piracy_stats().bounties_paid, 300);
    assert_eq!(s.w.piracy_stats().pirates_destroyed, 1);
}

#[test]
fn a_battle_in_parts_ends_as_it_does_in_one_go() {
    let start = || Encounter::new(vec![at(0, fighter(), 60, 0.0), at(1, fighter(), 50, 25.0)]);
    let (mut whole, mut parts) = (start(), start());
    let (mut one, mut two) = (DetRng::from_seed(9), DetRng::from_seed(9));
    let outcome = resolve(&mut whole, &mut one, 400);
    for share in [3, 0, 40, 357] {
        resolve(&mut parts, &mut two, share);
    }
    assert_eq!(parts.outcome(), outcome);
    assert_eq!(parts.combatants, whole.combatants);
    assert!(!whole.goes_on(400, 400));
}

#[test]
fn a_ship_with_no_hull_left_is_destroyed() {
    let mut c = at(0, fighter(), 10, 0.0);
    c.take_damage(b(12.5), 0);
    assert!(c.alive && c.hull == 10 && f(c.shield) == 12.5);
    c.take_damage(b(0.0), 9);
    assert!(c.alive && c.hull == 1);
    c.take_damage(b(0.0), 1);
    assert!(!c.alive && c.hull == 0);
}

#[test]
fn each_market_is_priced_by_its_own_strategy() {
    let mut pricing = builtin_pricing();
    let script = "fn price(base, stock, equilibrium, elasticity) { base * 1000 + stock + equilibrium }";
    pricing.register_script("mod:odd", ScriptedPricing::compile(script).unwrap());
    let merged = MergedContent {
        scripts: vec![],
        commodities: vec![good("t:food", "Food", "food"), good("t:ore", "Ore", "industrial")],
        recipes: vec![],
        systems: vec![
            system("t:a", "A", 0.0, &[], &["t:b"], vec![amount("t:food", 7)], "supply_demand_v1", 0.0),
            system("t:b", "B", 1.0, &[], &["t:a"], vec![amount("t:food", 9)], "mod:odd", 0.0),
        ],
        ships: vec![ship("t:freighter", "Freighter", 10, 1.0, 1, 1.0, None)],
    };
    let reg = Arc::new(link(merged, &pricing.names()).unwrap());
    let base = reg.commodity(CommodityId(0)).base_price;
    let opening = opening_prices(&reg, &pricing, &vec![vec![55], vec![66]]);
    assert_eq!(opening, vec![vec![55], vec![base * 1000 + 18]]);
    let s = Sim::build(&reg, &scenario(0, "t:freighter", 0), 1, pricing).unwrap();
    let formula = vec![vec![11, 12], vec![13, 14]];
    let targets = s.w.targets(s.pricing.scripts(), &formula);
    assert_eq!(targets, vec![vec![11, 12], vec![base * 1000 + 18, 14]]);
    assert_eq!(s.w.targets(&vec![], &formula), formula, "no script, the formula");
    assert_eq!(s.w.targets(&vec![], &vec![]), vec![vec![1, 1], vec![1, 1]]);
}

#[test]
fn a_haul_is_bounded_by_stock_room_and_funds() {
    let mut reg_goods = good("t:food", "Food", "food");
    reg_goods.unit_mass = 3;
    let here = |stock: Quantity, price: Money| {
        let mut m = Market {
            system: SystemId(0),
            pricing: PricingStrategy::SupplyDemandV1,
            goods: ById::new(),
        };
        m.goods.insert(CommodityId(0), MarketGood { stock, equilibrium: 1, price });
        m
    };
    let mut there = here(0, 30);
    there.system = SystemId(4);
    let try_it = |stock: Quantity, price: Money, capital: Money, capacity: u32| {
        prospect_of(&reg_goods, &here(stock, price), &there, CommodityId(0), capital, capacity)
    };
    let units = |r: Option<(TradePlan, Money)>| r.map(|(p, margin)| (p.qty, p.unit_cost, p.dest.0, margin));
    assert_eq!(units(try_it(5, 10, 1000, 100)), Some((5, 10, 4, 20)), "what is in stock");
    assert_eq!(units(try_it(500, 10, 1000, 100)), Some((33, 10, 4, 20)), "what fits");
    assert_eq!(units(try_it(500, 10, 99, 100)), Some((9, 10, 4, 20)), "what can be paid");
    assert_eq!(units(try_it(500, 10, 9, 100)), None);
    assert_eq!(units(try_it(500, 10, -50, 100)), None);
    assert_eq!(units(try_it(500, 30, 1000, 100)), None, "not dearer there");
    assert_eq!(units(try_it(0, 10, 1000, 100)), None);
}

#[test]
fn a_plan_past_the_means_of_a_trader_is_not_admitted() {
    let reg = two_system_registry();
    let mut s = Sim::new(&reg, &scenario(1, "t:freighter", 5000), 1);
    let mut asked = 0;
    for _ in 0..40 {
        let wants = reg.systems().iter().map(|x| vec![1; x.industries.len()]).collect();
        s.w.begin_tick(&wants);
        s.w.reprice(&vec![vec![10], vec![500]], &vec![], &vec![]);
        s.w.fight(vec![]);
        s.w.trade();
        if let Stage::Seeking(t, at) = s.w.stage() {
            let trader = &s.w.traders()[t];
            let (capital, capacity) = (trader.capital, reg.ship(trader.ship).cargo_capacity);
            let found = choose_trade(&reg, s.w.markets(), at, capital, capacity, 0.0);
            if let Some(Plan { plan, .. }) = found {
                asked += 1;
                assert!(s.w.admits(plan));
                assert!(!s.w.admits(TradePlan { qty: 0, ..plan }));
                assert!(!s.w.admits(TradePlan { qty: plan.qty + 1, ..plan }));
                assert!(!s.w.admits(TradePlan { unit_cost: plan.unit_cost - 1, ..plan }));
                assert!(!s.w.admits(TradePlan { dest: at, ..plan }));
                assert!(!s.w.admits(TradePlan { commodity: CommodityId(9), ..plan }));
            }
            s.w.answer(found.map(|p| p.plan), &vec![]);
            s.w.trade();
        }
        s.w.survey();
        s.w.end_tick(0);
    }
    assert!(asked > 0);
}

#[test]
fn survivors_add_up_and_decide_the_outcome() {
    let mut e = Encounter::new(vec![
        at(0, fighter(), 10, 0.0),
        at(3, fighter(), 10, 5.0),
        at(3, fighter(), 10, 9.0),
        at(255, fighter(), 10, 12.0),
    ]);
    for fallen in [3, 0, 2, 1] {
        let total: usize = (0..=255u8).map(|f| e.survivors(f)).sum();
        assert_eq!(total, e.alive_count());
        for f in 0..=255u8 {
            let all = e.survivors(f) > 0 && e.survivors(f) == e.alive_count();
            assert_eq!(e.outcome() == Outcome::Victory(f), all);
        }
        assert_ne!(e.outcome(), Outcome::Draw);
        e.combatants[fallen].alive = false;
    }
    assert_eq!(e.alive_count(), 0);
    assert_eq!(e.outcome(), Outcome::Draw);
}
