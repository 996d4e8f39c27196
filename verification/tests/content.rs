//! Manifests, merging, linking and the content fingerprint.

use drift::data::{
    CommodityAmount, CommodityDef, HullShape, LoadedScript, MergedContent, Point,
    ProductionRecipe, ScriptKind, ShipDef, ShipVisual, SystemDef,
};
use drift::load_error::LoadError;
use drift::manifest::{topo_order, Manifest, ModDir};
use drift::merge::{check_script, merge_content, Contributions};
use drift::registry::{link, Interner, Registry};

const FLAT_PRICING: &str = "fn price(base, stock, equilibrium, elasticity) { base }";

fn pricing_set() -> Vec<String> {
    vec!["supply_demand_v1".to_string()]
}

/// A mod: its manifest and what it defines.
struct Mod {
    manifest: Manifest,
    commodities: Vec<CommodityDef>,
    recipes: Vec<ProductionRecipe>,
    systems: Vec<SystemDef>,
    ships: Vec<ShipDef>,
    scripts: Vec<(String, String)>,
}

fn module(id: &str, dependencies: &[&str]) -> Mod {
    Mod {
        manifest: Manifest {
            id: id.to_string(),
            name: id.to_string(),
            version: "0.1.0".to_string(),
            dependencies: dependencies.iter().map(|d| d.to_string()).collect(),
            overrides: vec![],
            scripts: vec![],
        },
        commodities: vec![],
        recipes: vec![],
        systems: vec![],
        ships: vec![],
        scripts: vec![],
    }
}

fn load(mods: Vec<Mod>) -> Result<MergedContent, LoadError> {
    let dirs = mods
        .iter()
        .map(|m| ModDir { manifest: m.manifest.clone(), dir: m.manifest.id.clone() })
        .collect();
    let ordered = topo_order(dirs)?;
    let mut c = Contributions { commodities: vec![], recipes: vec![], systems: vec![], ships: vec![] };
    let mut scripts: Vec<LoadedScript> = vec![];
    for d in &ordered {
        let m = mods.iter().find(|m| m.manifest.id == d.manifest.id).unwrap();
        c.commodities.push(m.commodities.clone());
        c.recipes.push(m.recipes.clone());
        c.systems.push(m.systems.clone());
        c.ships.push(m.ships.clone());
        for (name, source) in &m.scripts {
            check_script(&scripts, name, &d.manifest.id)?;
            scripts.push(LoadedScript {
                name: name.clone(),
                kind: ScriptKind::Pricing,
                source: source.clone(),
                mod_id: d.manifest.id.clone(),
            });
        }
    }
    merge_content(&ordered, c, scripts)
}

fn load_and_link(mods: Vec<Mod>) -> Result<Registry, LoadError> {
    link(load(mods)?, &pricing_set())
}

fn commodity(id: &str, name: &str, base_price: i64, unit_mass: u32, elasticity: f64, category: &str) -> CommodityDef {
    CommodityDef {
        id: id.to_string(),
        name: name.to_string(),
        base_price,
        unit_mass,
        elasticity: elasticity.to_bits(),
        category: category.to_string(),
    }
}

fn amount(id: &str, qty: u32) -> CommodityAmount {
    CommodityAmount { commodity: id.to_string(), qty }
}

fn lave(industries: &[&str], stock: Vec<CommodityAmount>, pricing: &str) -> SystemDef {
    SystemDef {
        id: "core:lave".to_string(),
        name: "Lave".to_string(),
        position: Point { x: 0, y: 0 },
        industries: industries.iter().map(|s| s.to_string()).collect(),
        connections: vec![],
        initial_stock: stock,
        pricing: pricing.to_string(),
        danger: 0,
    }
}

/// A minimal, internally-consistent mod named `core`.
fn valid_core() -> Mod {
    Mod {
        commodities: vec![
            commodity("core:food", "Food", 100, 1, 0.8, "food"),
            commodity("core:ore", "Ore", 40, 2, 0.9, "minerals"),
        ],
        recipes: vec![ProductionRecipe {
            id: "core:mine_ore".to_string(),
            inputs: vec![],
            outputs: vec![amount("core:ore", 5)],
            rate: 3,
            elasticity: 0,
        }],
        systems: vec![lave(
            &["core:mine_ore"],
            vec![amount("core:food", 100), amount("core:ore", 50)],
            "supply_demand_v1",
        )],
        ships: vec![ShipDef {
            id: "core:cobra_mk3".to_string(),
            name: "Cobra Mk III".to_string(),
            cargo_capacity: 35,
            jump_speed: 7.0f64.to_bits(),
            hull: 100,
            max_speed: 350.0f64.to_bits(),
            combat: None,
            visual: None,
        }],
        ..module("core", &[])
    }
}

#[test]
fn valid_mod_loads_and_links() {
    let reg = load_and_link(vec![valid_core()]).expect("should link");
    assert_eq!(reg.commodity_count(), 2);
    assert_eq!(reg.system_count(), 1);
    assert!(reg.commodity_id("core:food").is_some());
    assert!(reg.ship_id("core:cobra_mk3").is_some());
    let sys = &reg.systems()[0];
    assert_eq!(sys.industries.len(), 1);
    assert_eq!(reg.recipe(sys.industries[0]).outputs.len(), 1);
}

#[test]
fn missing_dependency_errors() {
    let err = load_and_link(vec![module("a", &["b"])]).unwrap_err();
    assert!(
        matches!(err, LoadError::MissingDependency { ref mod_id, ref dependency } if mod_id == "a" && dependency == "b"),
        "got {err:?}"
    );
    assert_eq!(err.message(), "mod 'a' depends on 'b', which was not found");
}

#[test]
fn dependency_cycle_errors() {
    let err = load_and_link(vec![module("a", &["b"]), module("b", &["a"])]).unwrap_err();
    assert!(matches!(err, LoadError::DependencyCycle(_)), "got {err:?}");
    assert_eq!(err.message(), "dependency cycle among mods: [a, b]");
}

#[test]
fn dangling_commodity_reference_errors() {
    let core = Mod {
        recipes: vec![ProductionRecipe {
            id: "core:bad".to_string(),
            inputs: vec![],
            outputs: vec![amount("core:ghost", 1)],
            rate: 1,
            elasticity: 0,
        }],
        ..module("core", &[])
    };
    let err = load_and_link(vec![core]).unwrap_err();
    assert!(
        matches!(err, LoadError::DanglingRef { ref target, .. } if target == "core:ghost"),
        "got {err:?}"
    );
    assert_eq!(
        err.message(),
        "recipe/system 'core:bad' references unknown commodity 'core:ghost'"
    );
}

#[test]
fn unknown_pricing_strategy_errors() {
    let core = Mod {
        commodities: vec![commodity("core:food", "Food", 100, 1, 0.8, "food")],
        systems: vec![lave(&[], vec![amount("core:food", 10)], "does_not_exist")],
        ..module("core", &[])
    };
    let err = load_and_link(vec![core]).unwrap_err();
    assert!(
        matches!(err, LoadError::UnknownPricing { ref strategy, .. } if strategy == "does_not_exist"),
        "got {err:?}"
    );
}

fn patch(overrides: &[&str]) -> Mod {
    let mut m = module("patch", &["core"]);
    m.manifest.overrides = overrides.iter().map(|s| s.to_string()).collect();
    m.commodities = vec![commodity("core:food", "Food+", 200, 1, 0.8, "food")];
    m
}

#[test]
fn duplicate_id_without_override_errors() {
    let err = load_and_link(vec![valid_core(), patch(&[])]).unwrap_err();
    assert!(
        matches!(err, LoadError::DuplicateId { ref id, .. } if id == "core:food"),
        "got {err:?}"
    );
}

#[test]
fn declared_override_replaces_definition() {
    let reg = load_and_link(vec![patch(&["core:food"]), valid_core()]).expect("override should link");
    let food = reg.commodity_id("core:food").unwrap();
    assert_eq!(reg.commodity(food).base_price, 200, "override took effect");
    assert_eq!(reg.commodity(food).name, "Food+");
    assert_eq!(reg.commodity_count(), 2);
}

fn core_with_script() -> Mod {
    Mod {
        commodities: vec![commodity("core:food", "Food", 100, 1, 0.8, "food")],
        systems: vec![lave(&[], vec![amount("core:food", 100)], "test:flat")],
        scripts: vec![("test:flat".to_string(), FLAT_PRICING.to_string())],
        ..module("core", &[])
    }
}

#[test]
fn a_system_may_name_a_mod_declared_pricing_script() {
    let reg = load_and_link(vec![core_with_script()]).expect("scripted pricing should link");
    assert_eq!(reg.scripts().len(), 1);
    let s = &reg.scripts()[0];
    assert_eq!(s.name, "test:flat");
    assert_eq!(s.mod_id, "core");
    assert_eq!(s.source, FLAT_PRICING);
    assert_eq!(reg.systems()[0].pricing, "test:flat");
}

#[test]
fn a_script_shadowing_a_builtin_is_rejected() {
    let core = Mod {
        scripts: vec![("supply_demand_v1".to_string(), FLAT_PRICING.to_string())],
        ..module("core", &[])
    };
    let err = load_and_link(vec![core]).unwrap_err();
    assert!(
        matches!(err, LoadError::ScriptShadowsBuiltin { ref name, .. } if name == "supply_demand_v1"),
        "got {err:?}"
    );
}

#[test]
fn duplicate_script_names_across_mods_are_rejected() {
    let with = |id: &str| Mod {
        scripts: vec![("shared:flat".to_string(), FLAT_PRICING.to_string())],
        ..module(id, &[])
    };
    let err = load_and_link(vec![with("a"), with("b")]).unwrap_err();
    assert!(
        matches!(err, LoadError::DuplicateId { ref kind, ref id, .. } if kind == "script" && id == "shared:flat"),
        "got {err:?}"
    );
}

#[test]
fn mods_load_after_what_they_need() {
    let dir = |m: Mod| ModDir { manifest: m.manifest, dir: String::new() };
    let mods = vec![
        dir(module("c", &["b"])),
        dir(module("b", &["z"])),
        dir(module("a", &["c"])),
        dir(module("z", &[])),
    ];
    let order: Vec<String> =
        topo_order(mods).unwrap().iter().map(|m| m.manifest.id.clone()).collect();
    assert_eq!(order, vec!["z", "b", "c", "a"]);
}

#[test]
fn the_later_of_two_mods_with_one_id_counts() {
    let dir = |d: &str| ModDir { manifest: module("m", &[]).manifest, dir: d.to_string() };
    let order = topo_order(vec![dir("one"), dir("two")]).unwrap();
    assert_eq!(order.len(), 1);
    assert_eq!(order[0].dir, "two");
}

#[test]
fn a_link_to_nowhere_is_refused() {
    let mut core = valid_core();
    core.systems[0].connections = vec!["core:nowhere".to_string()];
    let err = load_and_link(vec![core]).unwrap_err();
    assert!(
        matches!(err, LoadError::DanglingRef { ref target, ref target_kind, .. }
            if target == "core:nowhere" && target_kind == "system"),
        "got {err:?}"
    );
    let mut core = valid_core();
    core.systems[0].industries = vec!["core:magic".to_string()];
    let err = load_and_link(vec![core]).unwrap_err();
    assert!(
        matches!(err, LoadError::DanglingRef { ref target, .. } if target == "core:magic"),
        "got {err:?}"
    );
}

#[test]
fn names_are_numbered_in_order_of_first_use() {
    let mut i = Interner::new();
    assert_eq!(i.intern("b"), 0);
    assert_eq!(i.intern("a"), 1);
    assert_eq!(i.intern("b"), 0);
    assert_eq!(i.len(), 2);
    assert_eq!(i.get("a"), Some(1));
    assert_eq!(i.get("c"), None);
    assert_eq!(i.name(1), Some("a"));
    assert_eq!(i.name(2), None);
}

fn bundled() -> MergedContent {
    load(vec![valid_core()]).unwrap()
}

fn hash_of(merged: MergedContent) -> u64 {
    let known = merged.systems.iter().map(|s| s.pricing.clone()).collect();
    link(merged, &known).unwrap().content_hash()
}

#[test]
fn identical_content_hashes_equal() {
    assert_eq!(hash_of(bundled()), hash_of(bundled()));
}

#[test]
fn changed_commodity_price_changes_hash() {
    let base = hash_of(bundled());
    let mut merged = bundled();
    assert!(!merged.commodities.is_empty());
    merged.commodities[0].base_price += 1;
    assert_ne!(base, hash_of(merged), "a content change must change the fingerprint");
}

#[test]
fn changed_system_danger_changes_hash() {
    let base = hash_of(bundled());
    let mut merged = bundled();
    assert!(!merged.systems.is_empty());
    merged.systems[0].danger = (f64::from_bits(merged.systems[0].danger) + 0.01).to_bits();
    assert_ne!(base, hash_of(merged));
}

#[test]
fn changed_script_source_changes_hash() {
    let with = |source: &str| {
        let mut merged = bundled();
        merged.scripts.push(LoadedScript {
            name: "m:flat".to_string(),
            kind: ScriptKind::Pricing,
            source: source.to_string(),
            mod_id: "m".to_string(),
        });
        hash_of(merged)
    };
    let with_a = with("fn price(base, stock, equilibrium, elasticity) { base }");
    let with_b = with("fn price(base, stock, equilibrium, elasticity) { base * 2 }");
    assert_ne!(with_a, with_b, "a different script body must change the fingerprint");
}

#[test]
fn reordering_commodities_changes_interning_and_hash() {
    let base = hash_of(bundled());
    let mut merged = bundled();
    if merged.commodities.len() >= 2 {
        merged.commodities.swap(0, 1);
        assert_ne!(base, hash_of(merged));
    }
}

#[test]
fn a_good_is_not_told_from_another_by_luck_of_the_seams() {
    let mut a = bundled();
    a.commodities[0].name = "AB".to_string();
    a.commodities[0].category = "C".to_string();
    let mut b = bundled();
    b.commodities[0].name = "A".to_string();
    b.commodities[0].category = "BC".to_string();
    assert_ne!(hash_of(a), hash_of(b));
}

#[test]
fn the_looks_of_a_ship_are_part_of_the_fingerprint() {
    let look = ShipVisual {
        hull: HullShape::Dart,
        length: 12.0f32.to_bits(),
        width: 4.0f32.to_bits(),
        height: 3.0f32.to_bits(),
        red: 0.5f32.to_bits(),
        green: 0.25f32.to_bits(),
        blue: 0.75f32.to_bits(),
    };
    let with = |visual: Option<ShipVisual>| {
        let mut merged = bundled();
        merged.ships[0].visual = visual;
        hash_of(merged)
    };
    let hashes = [
        with(None),
        with(Some(look)),
        with(Some(ShipVisual { hull: HullShape::Freighter, ..look })),
        with(Some(ShipVisual { height: 2.0f32.to_bits(), ..look })),
        with(Some(ShipVisual { blue: 0.0f32.to_bits(), ..look })),
        with(Some(ShipVisual { red: look.blue, blue: look.red, ..look })),
    ];
    for i in 0..hashes.len() {
        for j in 0..i {
            assert_ne!(hashes[i], hashes[j], "looks {i} and {j}");
        }
    }
    assert_eq!(
        with(Some(ShipVisual { red: 0.0f32.to_bits(), ..look })),
        with(Some(ShipVisual { red: (-0.0f32).to_bits(), ..look })),
        "the two zeros are one number"
    );
}

#[test]
fn the_mod_of_a_script_is_part_of_the_fingerprint() {
    let with = |mod_id: &str| {
        let mut merged = bundled();
        merged.scripts.push(LoadedScript {
            name: "m:flat".to_string(),
            kind: ScriptKind::Pricing,
            source: FLAT_PRICING.to_string(),
            mod_id: mod_id.to_string(),
        });
        hash_of(merged)
    };
    assert_ne!(with("m"), with("n"));
    assert_eq!(with("m"), with("m"));
}

#[test]
fn every_price_has_a_fingerprint_of_its_own() {
    let with = |price: i64| {
        let mut merged = bundled();
        merged.commodities[0].base_price = price;
        hash_of(merged)
    };
    let mut hashes: Vec<u64> = (1..200).map(with).collect();
    hashes.sort();
    hashes.dedup();
    assert_eq!(hashes.len(), 199);
}
