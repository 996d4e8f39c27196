//! Contracts, positions, standing, targeting, pricing tables, scripts and draws.

use drift::bits::{is_less, is_positive, is_same, of_whole};
use drift::contract::{Contract, ContractKind, ContractState};
use drift::finance::{Future, FutureSide, Loan};
use drift::hook::NamedRegistry;
use drift::ids::{CommodityId, ContractId, LoanId, PlayerId, SystemId, Tick, TraderId};
use drift::money::{charge, credit, total, wrap};
use drift::nav::{legal_status, LegalStatus, FUGITIVE_BOUNTY};
use drift::pricing::{builtin_pricing, smoothed, PricingStrategy};
use drift::rng::DetRng;
use drift::script::{CompileError, ScriptedPricing};
use drift::targeting::{cycle, nearest};
use rand::{Rng, SeedableRng};

fn contract(kind: ContractKind, state: ContractState) -> Contract {
    Contract {
        id: ContractId(1),
        kind,
        destination: SystemId(1),
        origin: SystemId(0),
        reward: 500,
        deadline: Tick(100),
        state,
    }
}

#[test]
fn open_and_holder_reflect_state() {
    let delivery = ContractKind::Delivery { commodity: CommodityId(0), quantity: 10 };
    let open = contract(delivery, ContractState::Open);
    assert!(open.is_open());
    assert_eq!(open.holder(), None);
    assert_eq!(open.held_by(), None);

    let held = contract(
        delivery,
        ContractState::Accepted { player: PlayerId(3), trader: TraderId(7) },
    );
    assert!(!held.is_open());
    assert_eq!(held.holder(), Some((PlayerId(3), TraderId(7))));
    assert_eq!(held.held_by(), Some(TraderId(7)));
}

#[test]
fn cargo_and_condition_are_kind_specific() {
    let delivery = contract(
        ContractKind::Delivery { commodity: CommodityId(2), quantity: 10 },
        ContractState::Open,
    );
    assert_eq!(delivery.cargo(), Some((CommodityId(2), 10)));
    assert!(!delivery.condition_met(9));
    assert!(delivery.condition_met(10));

    let courier = contract(ContractKind::Courier, ContractState::Open);
    assert_eq!(courier.cargo(), None);
    assert!(courier.condition_met(0), "a courier only needs to arrive");

    let bounty = contract(ContractKind::Bounty { target: 3, progress: 2 }, ContractState::Open);
    assert_eq!(bounty.cargo(), None);
    assert!(!bounty.condition_met(0), "2 of 3 kills is not enough");
    let done = contract(ContractKind::Bounty { target: 3, progress: 3 }, ContractState::Open);
    assert!(done.condition_met(0));
}

fn loan() -> Loan {
    Loan {
        id: LoanId(1),
        player: PlayerId(2),
        borrower: TraderId(3),
        principal: 1000,
        outstanding: 1000,
        due: Tick(500),
    }
}

#[test]
fn held_by_matches_both_player_and_trader() {
    let loan = loan();
    assert!(loan.held_by(PlayerId(2), TraderId(3)));
    assert!(!loan.held_by(PlayerId(9), TraderId(3)), "wrong player");
    assert!(!loan.held_by(PlayerId(2), TraderId(9)), "wrong trader");
}

#[test]
fn interest_is_a_share_of_what_is_owed() {
    let l = loan();
    assert_eq!(l.accrued(1000).outstanding, 1100);
    assert_eq!(l.accrued(1000).accrued(1000).outstanding, 1210);
    assert_eq!(l.accrued(0).outstanding, 1000);
    assert_eq!(Loan { outstanding: 99, ..l }.accrued(100).outstanding, 99, "less than a credit");
}

fn long() -> Future {
    Future {
        player: PlayerId(0),
        holder: TraderId(0),
        commodity: CommodityId(0),
        quantity: 10,
        side: FutureSide::Long,
        strike: 100,
        maturity: Tick(200),
    }
}

#[test]
fn future_payoff_is_signed_by_side_and_move() {
    let base = long();
    assert_eq!(base.payoff(120), 200, "long: +20 over 10 units");
    assert_eq!(base.payoff(80), -200, "long: -20 over 10 units");
    let short = Future { side: FutureSide::Short, ..base };
    assert_eq!(short.payoff(120), -200);
    assert_eq!(short.payoff(80), 200);
}

#[test]
fn the_two_sides_of_a_future_mirror_each_other() {
    for settle in [1i64, 99, 100, 101, 5000] {
        let short = Future { side: FutureSide::Short, ..long() };
        assert_eq!(long().payoff(settle), -short.payoff(settle));
    }
    assert_eq!(long().payoff(100), 0);
}

#[test]
fn legal_status_thresholds() {
    assert_eq!(legal_status(0), LegalStatus::Clean);
    assert_eq!(legal_status(1), LegalStatus::Offender);
    assert_eq!(legal_status(FUGITIVE_BOUNTY - 1), LegalStatus::Offender);
    assert_eq!(legal_status(FUGITIVE_BOUNTY), LegalStatus::Fugitive);
    assert_eq!(legal_status(999), LegalStatus::Fugitive);
}

#[test]
fn only_clean_is_unwanted() {
    assert!(!LegalStatus::Clean.is_wanted());
    assert!(LegalStatus::Offender.is_wanted());
    assert!(LegalStatus::Fugitive.is_wanted());
}

#[test]
fn a_standing_has_a_label() {
    assert_eq!(LegalStatus::Clean.label(), "CLEAN");
    assert_eq!(LegalStatus::Offender.label(), "OFFENDER");
    assert_eq!(LegalStatus::Fugitive.label(), "FUGITIVE");
}

#[test]
fn nearest_picks_the_closest() {
    let contacts = [(0.0f32, 0.0f32, -300.0f32), (10.0, 0.0, 0.0), (0.0, 200.0, 0.0)];
    let squared: Vec<u32> =
        contacts.iter().map(|(x, y, z)| (x * x + y * y + z * z).to_bits()).collect();
    assert_eq!(nearest(&squared), Some(1));
    assert_eq!(nearest(&vec![]), None);
    assert_eq!(nearest(&vec![2.0f32.to_bits(), 1.0f32.to_bits(), 1.0f32.to_bits()]), Some(1));
}

#[test]
fn cycle_wraps_and_bootstraps() {
    assert_eq!(cycle(None, 3), Some(0), "locks the first when nothing is held");
    assert_eq!(cycle(Some(0), 3), Some(1));
    assert_eq!(cycle(Some(2), 3), Some(0), "wraps around");
    assert_eq!(cycle(Some(0), 0), None, "no contacts, no lock");
}

#[test]
fn cycling_visits_every_contact() {
    let mut seen = vec![];
    let mut at = None;
    for _ in 0..5 {
        at = cycle(at, 5);
        seen.push(at.unwrap());
    }
    assert_eq!(seen, vec![0, 1, 2, 3, 4]);
}

#[test]
fn resolves_registered_handler() {
    let mut reg: NamedRegistry<u32> = NamedRegistry::new();
    reg.register("supply_demand_v1", 1);
    assert_eq!(reg.resolve("supply_demand_v1").ok(), Some(&1));
    assert!(reg.contains("supply_demand_v1"));
}

#[test]
fn unknown_name_is_an_error_not_a_fallback() {
    let mut reg: NamedRegistry<u32> = NamedRegistry::new();
    reg.register("supply_demand_v1", 1);
    let err = reg.resolve("typo_v9").unwrap_err();
    assert_eq!(err.name, "typo_v9");
    assert!(err.available.contains("supply_demand_v1"));
    assert_eq!(
        err.message(),
        "unknown strategy 'typo_v9' (registered: [supply_demand_v1])"
    );
}

#[test]
fn registering_again_replaces_the_handler() {
    let mut reg: NamedRegistry<u32> = NamedRegistry::new();
    reg.register("a", 1);
    reg.register("b", 2);
    reg.register("a", 3);
    assert_eq!(reg.resolve("a").ok(), Some(&3));
    assert_eq!(reg.names(), vec!["a".to_string(), "b".to_string()]);
}

#[test]
fn registry_resolves_builtin() {
    let reg = builtin_pricing();
    assert!(reg.contains("supply_demand_v1"));
    assert_eq!(reg.resolve("supply_demand_v1").ok(), Some(PricingStrategy::SupplyDemandV1));
}

#[test]
fn prices_move_a_fifth_of_the_way() {
    assert_eq!(smoothed(100, 200), 120);
    assert_eq!(smoothed(200, 100), 180);
    assert_eq!(smoothed(1, 0), 1);
    assert_eq!(smoothed(100, 100), 100);
    assert_eq!(smoothed(100, 101), 100);
    let mut p = 10;
    for _ in 0..200 {
        let next = smoothed(p, 500);
        assert!(p <= next && next <= 500);
        p = next;
    }
    assert!(500 - p < 3, "rests near the target: {p}");
}

const LINEAR: &str = r#"
    fn price(base, stock, equilibrium, elasticity) {
        // Cheaper when stock exceeds equilibrium, dearer when short.
        let ratio = equilibrium.to_float() / stock.to_float();
        let p = (base.to_float() * ratio).to_int();
        if p < 1 { 1 } else { p }
    }
"#;

fn priced(s: &ScriptedPricing, base: i64, stock: u32, equilibrium: u32) -> i64 {
    s.price(base, stock, equilibrium, 1.0f64.to_bits())
}

#[test]
fn compiles_and_prices() {
    let s = ScriptedPricing::compile(LINEAR).unwrap();
    assert_eq!(priced(&s, 100, 500, 500), 100);
    assert!(priced(&s, 100, 250, 500) > 100);
    assert!(priced(&s, 100, 1000, 500) < 100);
}

#[test]
fn is_deterministic_across_instances_and_calls() {
    let a = ScriptedPricing::compile(LINEAR).unwrap();
    let b = ScriptedPricing::compile(LINEAR).unwrap();
    for stock in [1u32, 50, 100, 500, 5000] {
        let pa = priced(&a, 100, stock, 500);
        let pb = priced(&b, 100, stock, 500);
        assert_eq!(pa, pb, "same script + inputs -> same price (stock={stock})");
        assert_eq!(pa, priced(&a, 100, stock, 500));
    }
}

#[test]
fn a_runaway_script_is_terminated_not_hung() {
    let s = ScriptedPricing::compile(
        "fn price(base, stock, equilibrium, elasticity) { let x = 0; loop { x += 1; } x }",
    )
    .unwrap();
    assert_eq!(priced(&s, 100, 500, 500), 1, "runaway aborts to the price floor");
}

#[test]
fn a_broken_script_floors_to_one_rather_than_crashing() {
    let s = ScriptedPricing::compile(
        r#"fn price(base, stock, equilibrium, elasticity) { "not a number" }"#,
    )
    .unwrap();
    assert_eq!(priced(&s, 100, 500, 500), 1);
}

#[test]
fn the_sandbox_denies_ambient_access() {
    let source = "fn price(base, stock, equilibrium, elasticity) { timestamp() }";
    assert!(
        ScriptedPricing::compile(source).is_ok(),
        "compiles: unknown functions are resolved at call time"
    );
    let s = ScriptedPricing::compile(source).unwrap();
    assert_eq!(priced(&s, 100, 500, 500), 1, "ambient calls are unavailable");
    let s = ScriptedPricing::compile(
        "fn price(base, stock, equilibrium, elasticity) { import \"x\" as x; 7 }",
    )
    .unwrap();
    assert_eq!(priced(&s, 100, 500, 500), 1, "nothing can be imported");
}

/// A script whose `price` has this body.
fn bodied(body: &str) -> Result<ScriptedPricing, CompileError> {
    ScriptedPricing::compile(&format!(
        "fn double(x) {{ x * 2 }} fn price(base, stock, equilibrium, elasticity) {{ {body} }}"
    ))
}

#[test]
fn no_script_blocks_or_panics() {
    for body in [
        "sleep(1e300); 50",
        "sleep(9223372036854775807); 50",
        "let s = \"a\"; s.pad(5, \"\"); 50",
        "let a = [1]; a.pad(9223372036854775807, 0); 50",
        "let b = blob(9223372036854775807); 50",
        "let b = blob(1); b.pad(9223372036854775807, 0); 50",
        "let b = blob(1); loop { b.append(b); } 50",
        "let s = \"a\"; loop { s += s; } 50",
        "let s = \"a\"; loop { try { s += s; } catch {} } 50",
        "let a = [1]; loop { a += a; } 50",
        "let a = []; loop { a = [a]; } 50",
        "let a = [1, 2]; loop { a[0] = a; a[1] = a; } 50",
        "let a = []; loop { a = #{ a: [a] }; } 50",
        "let m = #{}; loop { m = #{ a: m, b: m }; } 50",
        "let m = #{}; loop { m.x = m; } 50",
        "let m = #{ f: 1 }; m.to_json(); 50",
        "let m = #{ a: 1 }; m.map(Fn(\"double\")); 50",
        "for x in range(0.0, 1.0 / 0.0, 1.0) {} 50",
        "for x in 0..9223372036854775807 { let y = x; } 50",
        "do { continue; } while false; 50",
        "price(base, stock, equilibrium, elasticity)",
    ] {
        let s = bodied(body).unwrap();
        assert_eq!(priced(&s, 100, 500, 500), 1, "{body}");
    }
}

#[test]
fn a_script_has_no_anonymous_functions() {
    for body in [
        "let m = #{}; let f = || m; m.f = f; m.to_json(); base",
        "let m = #{}; let f = || m; m.f = f; let n = m; n.to_json(); base",
        "let f = |x| x; loop { f = f.curry(f); } 50",
        "let f = |x| x; f.call(1)",
    ] {
        assert!(bodied(body).is_err(), "{body}");
    }
    let named = bodied("let f = Fn(\"double\"); f.call(base) + f.name.len()");
    assert_eq!(priced(&named.unwrap(), 100, 500, 500), 1, "the length of a text is left out");
    let named = bodied("let f = Fn(\"double\"); f.call(base)");
    assert_eq!(priced(&named.unwrap(), 100, 500, 500), 200);
}

#[test]
fn a_script_neither_binds_functions_nor_evaluates_texts() {
    for body in [
        "let f = Fn(\"double\"); loop { f = f.curry(f); } 50",
        "let f = Fn(\"double\"); curry(f, f); 50",
        "let s = \"a\"; loop { try { eval(\"s += s;\"); } catch {} } 50",
        "let s = \"eval(s)\"; eval(s)",
    ] {
        assert!(bodied(body).is_err(), "{body}");
    }
    for body in ["Fn(\"eval\").call(\"50\")", "let f = Fn(\"curry\"); f.call(f, f); 50"] {
        if let Ok(s) = bodied(body) {
            assert_eq!(priced(&s, 100, 500, 500), 1, "{body}");
        }
    }
}

#[test]
fn a_long_script_is_refused_or_runs() {
    let sum = vec!["1"; 2_000].join(" + ");
    let ladder = format!("{}{{ 2 }}", "if base == 0 { 1 } else ".repeat(500));
    let nested = format!("{}1{}", "(".repeat(2_000), ")".repeat(2_000));
    for body in [sum, ladder, nested] {
        if let Ok(s) = bodied(&body) {
            assert!(priced(&s, 100, 500, 500) >= 1);
        }
    }
}

#[test]
fn a_script_has_arithmetic_ranges_arrays_and_maps() {
    let s = ScriptedPricing::compile(
        "fn price(base, stock, equilibrium, elasticity) {
            let steps = [1, 2, 3];
            let m = #{ rate: 2.5 };
            let sum = 0;
            for x in steps { sum += x; }
            for i in range(0, 4) { sum += i; }
            max(base, 7) * sum + min(stock, 3) + (m.rate * 2.0).to_int() + abs(-1) + steps[2]
        }",
    )
    .unwrap();
    assert_eq!(priced(&s, 10, 500, 500), 10 * 12 + 3 + 5 + 1 + 3);
    assert_eq!(priced(&s.clone(), 10, 500, 500), priced(&s, 10, 500, 500));
}

#[test]
fn a_script_gets_its_arguments_in_order() {
    let s = ScriptedPricing::compile(
        "fn price(b, s, q, e) { b * 1000 + s * 100 + q * 10 + (e * 2.0).to_int() }",
    )
    .unwrap();
    assert_eq!(s.price(4, 3, 2, 0.5f64.to_bits()), 4321);
    let low = ScriptedPricing::compile("fn price(b, s, q, e) { 0 - 5 }").unwrap();
    assert_eq!(priced(&low, 1, 1, 1), 1, "never below one credit");
}

#[test]
fn a_script_that_does_not_parse_says_why() {
    let err = ScriptedPricing::compile("fn price(").unwrap_err();
    assert!(err.message().starts_with("script compile error: "), "{}", err.message());
    assert!(err.message().len() > "script compile error: ".len());
}

#[test]
fn a_missing_script_falls_back_to_the_formula() {
    let none = vec![];
    let e = 1.0f64.to_bits();
    assert_eq!(PricingStrategy::SupplyDemandV1.price(&none, 100, 1, 2, e, 77), 77);
    assert_eq!(PricingStrategy::Scripted(0).price(&none, 100, 1, 2, e, 77), 77);
    let one = vec![ScriptedPricing::compile("fn price(b, s, q, e) { b + 1 }").unwrap()];
    assert_eq!(PricingStrategy::Scripted(0).price(&one, 100, 1, 2, e, 77), 101);
    assert_eq!(PricingStrategy::Scripted(1).price(&one, 100, 1, 2, e, 77), 77);
}

#[test]
fn a_registered_script_is_found_by_name() {
    let mut set = builtin_pricing();
    set.register_script("m:one", ScriptedPricing::compile("fn price(b, s, q, e) { 1 }").unwrap());
    set.register_script("m:two", ScriptedPricing::compile("fn price(b, s, q, e) { 2 }").unwrap());
    assert_eq!(set.resolve("m:one").ok(), Some(PricingStrategy::Scripted(0)));
    assert_eq!(set.resolve("m:two").ok(), Some(PricingStrategy::Scripted(1)));
    assert_eq!(set.scripts().len(), 2);
    assert_eq!(set.names().len(), 3);
}

#[test]
fn same_seed_same_sequence() {
    let mut a = DetRng::from_seed(42);
    let mut b = DetRng::from_seed(42);
    for _ in 0..1000 {
        assert_eq!(a.range_u32(0, 1_000_000), b.range_u32(0, 1_000_000));
    }
}

#[test]
fn different_seed_diverges() {
    let mut a = DetRng::from_seed(1);
    let mut b = DetRng::from_seed(2);
    let sa: Vec<u32> = (0..64).map(|_| a.range_u32(0, u32::MAX)).collect();
    let sb: Vec<u32> = (0..64).map(|_| b.range_u32(0, u32::MAX)).collect();
    assert_ne!(sa, sb);
}

#[test]
fn serialized_state_resumes_identically() {
    let mut a = DetRng::from_seed(7);
    for _ in 0..10 {
        a.range_u32(0, 100);
    }
    let text = serde_json::to_string(&(a.seed, a.pos)).expect("serialize the state");
    let (seed, pos): (u64, u128) = serde_json::from_str(&text).expect("deserialize the state");
    let mut b = DetRng { seed, pos };
    for _ in 0..100 {
        assert_eq!(a.range_u32(0, 100), b.range_u32(0, 100));
    }
}

#[test]
fn draws_are_those_of_the_stream_generator() {
    let mut want = rand_chacha::ChaCha8Rng::seed_from_u64(99);
    let mut got = DetRng::from_seed(99);
    for i in 0..200u32 {
        match i % 4 {
            0 => assert_eq!(got.next_u64(), want.gen::<u64>()),
            1 => assert_eq!(got.range_u32(3, 10 + i), want.gen_range(3..10 + i)),
            2 => assert_eq!(got.range_usize(0, 7), want.gen_range(0usize..7)),
            _ => assert_eq!(got.unit() as f64 / 9007199254740992.0, want.gen::<f64>()),
        }
        assert_eq!(got.pos, want.get_word_pos());
    }
}

#[test]
fn choosing_from_nothing_draws_nothing() {
    let mut a = DetRng::from_seed(3);
    let before = a;
    assert_eq!(a.choose_index(0), None);
    assert_eq!(a, before);
    let i = a.choose_index(5).unwrap();
    assert!(i < 5);
    assert_ne!(a, before);
}

#[test]
fn patterns_order_as_the_numbers_do() {
    let xs = [-2.5f64, -0.0, 0.0, 1e-300, 0.25, 1.0, 1e300, f64::INFINITY, f64::NAN];
    for x in xs {
        assert_eq!(is_positive(x.to_bits()), x > 0.0, "{x}");
        for y in xs {
            assert_eq!(is_less(x.to_bits(), y.to_bits()), x < y, "{x} < {y}");
            assert_eq!(is_same(x.to_bits(), y.to_bits()), x == y, "{x} == {y}");
        }
    }
    for n in [0u64, 1, 2, 3, 100, 4_294_967_295] {
        assert_eq!(of_whole(n), (n as f64).to_bits());
    }
}

#[test]
fn money_wraps_like_the_machine_does() {
    assert_eq!(wrap(i64::MAX as i128 + 1), i64::MIN);
    assert_eq!(credit(10, 5), 15);
    assert_eq!(charge(10, 15), -5);
    assert_eq!(total(7, 6), 42);
}

#[test]
fn cycling_from_a_lock_goes_once_around() {
    for start in 0..5usize {
        let mut seen = vec![];
        let mut at = Some(start);
        for _ in 0..5 {
            at = cycle(at, 5);
            seen.push(at.unwrap());
        }
        assert_eq!(at, Some(start));
        seen.sort();
        assert_eq!(seen, vec![0, 1, 2, 3, 4]);
    }
}

#[test]
fn names_are_listed_once_and_are_what_resolves() {
    let mut reg: NamedRegistry<u32> = NamedRegistry::new();
    assert!(reg.names().is_empty());
    for (name, handler) in [("b", 1), ("a", 2), ("b", 3), ("c", 4), ("a", 5)] {
        reg.register(name, handler);
    }
    assert_eq!(reg.names(), vec!["b", "a", "c"]);
    for name in reg.names() {
        assert!(reg.contains(&name));
        assert!(reg.resolve(&name).is_ok());
    }
    assert!(!reg.contains("d"));
    assert!(reg.resolve("d").is_err());
}
