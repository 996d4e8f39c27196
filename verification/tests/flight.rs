//! The rules of a ship in flight, with the sums worked out as 32-bit numbers.

use drift::bits::{clamp, is_at_most, larger_of, smaller_of, Bits};
use drift::flight::{Health, Throttle, WeaponHeat, RESET};
use drift::nav::{can_jump, jump_fuel_cost};

const MAX_FUEL: f32 = 7.0;

fn b(x: f32) -> Bits {
    (x as f64).to_bits()
}

fn f(x: Bits) -> f32 {
    f64::from_bits(x) as f32
}

fn throttle(level: f32, at_zero_detent: bool) -> Throttle {
    Throttle { level: b(level), at_zero_detent }
}

fn slew(t: &mut Throttle, input: i32, rate: f32, dt: f32) {
    let next = f(t.level) + input as f32 * rate * dt;
    t.step(input, b(next));
}

#[test]
fn throttle_parks_at_zero_without_overshooting_into_reverse() {
    let mut t = throttle(0.6, false);
    for _ in 0..1000 {
        slew(&mut t, -1, 1.2, 0.1);
        assert!(f(t.level) >= 0.0, "held reverse never overshoots past zero: {}", f(t.level));
    }
    assert_eq!(f(t.level), 0.0, "settled exactly on the stop");
    assert!(t.at_zero_detent, "and latched the detent");
}

#[test]
fn crossing_zero_needs_a_fresh_press() {
    let mut t = throttle(0.0, true);
    slew(&mut t, -1, 1.2, 0.1);
    assert_eq!(f(t.level), 0.0, "held key stays parked at the detent");
    slew(&mut t, 0, 1.2, 0.1);
    assert!(!t.at_zero_detent, "release clears the latch");
    slew(&mut t, -1, 1.2, 0.1);
    assert!(f(t.level) < 0.0, "a fresh press crosses into reverse");
}

#[test]
fn detent_is_symmetric_from_reverse() {
    let mut t = throttle(-0.5, false);
    for _ in 0..1000 {
        slew(&mut t, 1, 1.2, 0.1);
        assert!(f(t.level) <= 0.0, "held forward from reverse never overshoots: {}", f(t.level));
    }
    assert_eq!(f(t.level), 0.0);
    assert!(t.at_zero_detent);
}

#[test]
fn throttle_is_clamped_and_stop_parks() {
    let mut t = Throttle::new();
    for _ in 0..1000 {
        slew(&mut t, 1, 1.2, 0.1);
    }
    assert!(f(t.level) <= 1.0 + 1e-6 && f(t.level) >= 0.99, "reaches and holds full ahead");
    t.stop();
    assert_eq!(f(t.level), 0.0);
    assert!(t.at_zero_detent, "stop parks at the detent");
}

fn fire(h: &mut WeaponHeat, amount: f32) {
    h.add(b(f(h.heat) + amount.max(0.0)));
}

fn cool(h: &mut WeaponHeat, rate: f32, dt: f32) {
    h.cool(b(f(h.heat) - rate * dt));
}

#[test]
fn sustained_fire_overheats_and_cuts_out() {
    let mut h = WeaponHeat::new();
    for _ in 0..20 {
        if h.can_fire() {
            fire(&mut h, 0.1);
        }
    }
    assert!(h.is_cut_out(), "sustained fire must overheat");
    assert!(!h.can_fire(), "an overheated laser cannot fire");
    assert!(f(h.frac()) >= 1.0 - 1e-6);
}

#[test]
fn cooling_below_reset_brings_it_back_online() {
    let mut h = WeaponHeat::new();
    fire(&mut h, 1.0);
    assert!(h.is_cut_out());
    cool(&mut h, 1.0, 0.6);
    assert!(h.is_cut_out(), "not cooled enough yet");
    cool(&mut h, 1.0, 0.1);
    assert!(!h.is_cut_out(), "cooled below reset: back online");
    assert!(h.can_fire());
    assert_eq!(f(RESET), 0.35);
}

#[test]
fn measured_fire_never_overheats() {
    let mut h = WeaponHeat::new();
    for _ in 0..200 {
        cool(&mut h, 1.0, 0.2);
        if h.can_fire() {
            fire(&mut h, 0.15);
        }
    }
    assert!(!h.is_cut_out(), "cool-limited fire never overheats");
    assert!(f(h.frac()) < 1.0);
}

#[test]
fn heat_never_goes_negative_or_unbounded() {
    let mut h = WeaponHeat::new();
    cool(&mut h, 1.0, 10.0);
    assert_eq!(f(h.frac()), 0.0);
    for _ in 0..100 {
        fire(&mut h, 1.0);
    }
    assert!(f(h.frac()) <= 1.0, "gauge fraction is clamped");
    assert_eq!(f(h.heat), 1.5);
}

fn hit(h: &mut Health, amount: f32) {
    let absorbed = f(h.absorbed(b(amount)));
    h.take_damage(b(f(h.shield) - absorbed), b(f(h.hull) - (amount - absorbed)));
}

fn regen(h: &mut Health, dt: f32) {
    h.regen(b(f(h.shield) + f(h.shield_regen) * dt));
}

#[test]
fn shield_absorbs_before_hull() {
    let mut h = Health::new(b(100.0), b(20.0), b(0.0));
    hit(&mut h, 15.0);
    assert_eq!(f(h.shield), 5.0);
    assert_eq!(f(h.hull), 100.0, "hull untouched while shield holds");
    hit(&mut h, 15.0);
    assert_eq!(f(h.shield), 0.0);
    assert_eq!(f(h.hull), 90.0);
    assert!(h.alive());
    assert_eq!(f(h.hull_frac(b(f(h.hull) / f(h.max_hull)))), 0.9);
}

#[test]
fn hull_depletion_is_death() {
    let mut h = Health::new(b(10.0), b(0.0), b(0.0));
    hit(&mut h, 100.0);
    assert!(!h.alive());
    assert_eq!(f(h.shield_frac(b(f32::NAN))), 0.0, "no shield, no bar");
}

#[test]
fn shield_regen_caps_at_max() {
    let mut h = Health::new(b(100.0), b(30.0), b(5.0));
    h.shield = b(0.0);
    regen(&mut h, 1.0);
    assert_eq!(f(h.shield), 5.0);
    for _ in 0..100 {
        regen(&mut h, 1.0);
    }
    assert_eq!(f(h.shield), 30.0, "regen cannot exceed max");
    assert_eq!(f(h.shield_frac(b(f(h.shield) / f(h.max_shield)))), 1.0);
}

fn cost(distance: f32) -> f32 {
    f(jump_fuel_cost(b(distance * 0.35)))
}

fn affordable(fuel: f32, distance: f32) -> bool {
    can_jump(b(fuel + 1e-4), b(cost(distance)))
}

#[test]
fn jump_cost_scales_with_distance_and_has_a_floor() {
    assert!((cost(10.0) - 3.5).abs() < 1e-5);
    assert!(cost(0.0) >= 0.1, "even a zero-distance hop is not free");
    assert!(cost(20.0) > cost(10.0));
}

#[test]
fn affordability_respects_the_tank() {
    assert!(affordable(MAX_FUEL, 10.0));
    assert!(!affordable(MAX_FUEL, 25.0), "beyond range on a full tank");
    assert!(!affordable(0.0, 5.0));
    assert!(affordable(cost(8.0), 8.0));
}

#[test]
fn bounds_and_extremes_agree_with_the_machine() {
    let xs = [-1.5f64, -1.0, 0.0, 0.3, 1.0, 2.0, f64::INFINITY, f64::NAN];
    for x in xs {
        let held = f64::from_bits(clamp(x.to_bits(), (-1.0f64).to_bits(), 1.0f64.to_bits()));
        assert!(held == x.clamp(-1.0, 1.0) || x.is_nan() && held.is_nan());
        for y in xs {
            let (a, c) = (x.to_bits(), y.to_bits());
            assert_eq!(is_at_most(a, c), x <= y);
            let low = f64::from_bits(smaller_of(a, c));
            assert!(low == x.min(y) || x.is_nan() && y.is_nan());
            let high = f64::from_bits(larger_of(a, c));
            assert!(high == x.max(y) || x.is_nan() && y.is_nan());
        }
    }
}
