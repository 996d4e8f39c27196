//! The instruments of the cockpit: the scanner, the gauges and the target panel, the weapons
//! to choose from, and how the surroundings are strewn.
//!
//! Numbers are 64-bit patterns, which hold every 32-bit number exactly; where a thing lies
//! on the screen is the host's to work out.

use vstd::prelude::*;
use vstd::string::StringExecFns;

use crate::bits;
use crate::bits::{Bits, is_at_most, is_less};
use crate::cockpit;
use crate::cockpit::{WEAPON_COUNT, cue_text};
use crate::flight::{Throttle, WeaponHeat, ZERO};
use crate::ids::PatrolId;

verus! {

/// The blips the scanner can show at once.
pub const RADAR_BLIPS: usize = 24;

/// Below this, 0.3 as a 32-bit number, the hull gauge warns.
pub const HULL_LOW: Bits = 0x3fd3_3333_4000_0000;

/// Above this, 0.7 as a 32-bit number, the temperature gauge warns.
pub const HOT: Bits = 0x3fe6_6666_6000_0000;

/// A blip of the scanner.
#[derive(Debug, Clone, Copy, PartialEq, Eq, Structural)]
pub enum Blip {
    /// The hostile at this place of the list.
    Hostile(usize),
    /// The navy ship at this place of the list.
    Navy(usize),
    Station,
}

/// What blip `k` of the scanner shows: the hostiles, then the navy, then the station; and
/// nothing unless in flight.
pub open spec fn blip(flying: bool, hostiles: int, navy: int, k: int) -> Option<Blip> {
    if !flying || k > hostiles + navy {
        None
    } else if k < hostiles {
        Some(Blip::Hostile(k as usize))
    } else if k < hostiles + navy {
        Some(Blip::Navy((k - hostiles) as usize))
    } else {
        Some(Blip::Station)
    }
}

/// What each blip of the scanner shows.
pub fn radar_blips(flying: bool, hostiles: usize, navy: usize) -> (r: Vec<Option<Blip>>)
    ensures
        r@.len() == RADAR_BLIPS,
        forall|k: int|
            0 <= k < r@.len() ==> #[trigger] r@[k] == blip(flying, hostiles as int, navy as int, k),
{
    let mut out: Vec<Option<Blip>> = Vec::new();
    let mut k: usize = 0;
    while k < RADAR_BLIPS
        invariant
            k <= RADAR_BLIPS,
            out@.len() == k,
            forall|j: int|
                0 <= j < k ==> #[trigger] out@[j] == blip(
                    flying,
                    hostiles as int,
                    navy as int,
                    j,
                ),
        decreases RADAR_BLIPS - k,
    {
        let b = if !flying {
            None
        } else if k < hostiles {
            Some(Blip::Hostile(k))
        } else if k - hostiles < navy {
            Some(Blip::Navy(k - hostiles))
        } else if k - hostiles == navy {
            Some(Blip::Station)
        } else {
            None
        };
        out.push(b);
        k = k + 1;
    }
    out
}

/// How the temperature gauge reads.
#[derive(Debug, Clone, Copy, PartialEq, Eq, Structural)]
pub enum Temperature {
    Cool,
    Hot,
    CutOut,
}

/// How the temperature gauge reads.
pub fn temperature(heat: &WeaponHeat) -> (t: Temperature)
    ensures
        t == (if heat.cut_out {
            Temperature::CutOut
        } else if bits::less(HOT, bits::clamped(heat.heat, ZERO, crate::flight::ONE)) {
            Temperature::Hot
        } else {
            Temperature::Cool
        }),
{
    if heat.is_cut_out() {
        Temperature::CutOut
    } else if is_less(HOT, heat.frac()) {
        Temperature::Hot
    } else {
        Temperature::Cool
    }
}

/// Whether the hull gauge, this full, warns.
pub fn hull_low(frac: Bits) -> (b: bool)
    ensures
        b == bits::less(frac, HULL_LOW),
{
    is_less(frac, HULL_LOW)
}

/// Whether the throttle gauge reads ahead; otherwise it reads in reverse.
pub fn ahead(t: &Throttle) -> (b: bool)
    ensures
        b == bits::at_most(ZERO, t.level),
{
    is_at_most(ZERO, t.level)
}

/// What the throttle keys leave to do: nothing at a station or between systems, where the
/// throttle is cut; a slew otherwise, after the stop key has cut it.
pub fn throttle_keys(t: &mut Throttle, fighting: bool, stop: bool) -> (slews: bool)
    ensures
        slews == fighting,
        *final(t) == (if !fighting || stop {
            Throttle { level: ZERO, at_zero_detent: true }
        } else {
            *old(t)
        }),
{
    if !fighting || stop {
        t.stop();
    }
    fighting
}

/// What two opposite keys amount to: one way, the other, or, together, neither.
pub fn axis(negative: bool, positive: bool) -> (a: i32)
    ensures
        a == (if positive {
            1int
        } else {
            0
        }) - (if negative {
            1int
        } else {
            0
        }),
{
    let up: i32 = if positive {
        1
    } else {
        0
    };
    if negative {
        up - 1
    } else {
        up
    }
}

/// Whether a speed along the line of sight closes the range, in a word.
pub open spec fn closing_word(closing: Bits) -> Seq<char> {
    if bits::at_most(ZERO, closing) {
        "closing"@
    } else {
        "opening"@
    }
}

/// What the target panel shows of the locked target.
pub struct Lock<'a> {
    /// The range, written out.
    pub range: &'a str,
    /// The speed along the line of sight.
    pub closing: Bits,
    /// Its size, written out.
    pub speed: &'a str,
    /// Whether there is a firing solution.
    pub firing: bool,
    /// Whether the weapon is gimballed, and whether the target is in its arc.
    pub gimballed: bool,
    pub in_arc: bool,
    /// Whether the nose is on the solution.
    pub on_target: bool,
}

/// What the target panel shows.
pub open spec fn target_panel(l: Lock) -> Seq<char> {
    "TARGET\nrange "@ + l.range@ + "   "@ + closing_word(l.closing) + " "@ + l.speed@ + "\n"@
        + cockpit::cue(l.firing, l.gimballed, l.in_arc, l.on_target)
}

/// What the target panel shows.
pub fn target_text(l: &Lock) -> (s: String)
    ensures
        s@ == target_panel(*l),
{
    let mut s = String::new();
    s.append("TARGET\nrange ");
    s.append(l.range);
    s.append("   ");
    s.append(
        if is_at_most(ZERO, l.closing) {
            "closing"
        } else {
            "opening"
        },
    );
    s.append(" ");
    s.append(l.speed);
    s.append("\n");
    s.append(cue_text(l.firing, l.gimballed, l.in_arc, l.on_target));
    assert(s@ =~= target_panel(*l));
    s
}

/// A weapon of the player's.
#[derive(Debug, Clone, Copy)]
pub struct Weapon {
    pub name: &'static str,
    /// Damage per bolt, or per second of a beam.
    pub damage: Bits,
    /// Seconds between shots.
    pub cooldown: Bits,
    /// The speed of a bolt.
    pub speed: Bits,
    /// Bolts per shot.
    pub bolts: u8,
    /// The angle between the bolts of a shot.
    pub spread: Bits,
    /// Whether its bolts are the big ones.
    pub big: bool,
    /// The half-angle within which it follows a locked target; none where it is fixed.
    pub gimbal: Option<Bits>,
    /// Heat per shot, or per second of a beam, as a fraction of the limit.
    pub heat: Bits,
    /// Whether it is a beam.
    pub beam: bool,
}

/// Whether `w` is weapon `i`: a quick gimballed pulse laser, a heavy fixed cannon, a fixed
/// scatter gun of three bolts, or a beam that melts its target and runs hot.
pub open spec fn is_weapon(w: Weapon, i: int) -> bool {
    if i == 0 {
        // 8 damage every 0.18 s at 240; 0.22 of gimbal; 0.05 of heat.
        &&& w.name@ == "PULSE"@
        &&& w.damage == 0x4020_0000_0000_0000
        &&& w.cooldown == 0x3fc7_0a3d_8000_0000
        &&& w.speed == 0x406e_0000_0000_0000
        &&& w.bolts == 1
        &&& w.spread == 0
        &&& !w.big
        &&& w.gimbal == Some(0x3fcc_28f5_c000_0000u64)
        &&& w.heat == 0x3fa9_9999_a000_0000
        &&& !w.beam
    } else if i == 1 {
        // 26 damage every 0.7 s at 180; 0.16 of heat.
        &&& w.name@ == "CANNON"@
        &&& w.damage == 0x403a_0000_0000_0000
        &&& w.cooldown == 0x3fe6_6666_6000_0000
        &&& w.speed == 0x4066_8000_0000_0000
        &&& w.bolts == 1
        &&& w.spread == 0
        &&& w.big
        &&& w.gimbal is None
        &&& w.heat == 0x3fc4_7ae1_4000_0000
        &&& !w.beam
    } else if i == 2 {
        // 6 damage, three bolts 0.13 apart, every 0.5 s at 205; 0.12 of heat.
        &&& w.name@ == "SCATTER"@
        &&& w.damage == 0x4018_0000_0000_0000
        &&& w.cooldown == 0x3fe0_0000_0000_0000
        &&& w.speed == 0x4069_a000_0000_0000
        &&& w.bolts == 3
        &&& w.spread == 0x3fc0_a3d7_0000_0000
        &&& !w.big
        &&& w.gimbal is None
        &&& w.heat == 0x3fbe_b851_e000_0000
        &&& !w.beam
    } else {
        // 60 damage and 0.55 of heat per second.
        &&& w.name@ == "BEAM"@
        &&& w.damage == 0x404e_0000_0000_0000
        &&& w.cooldown == 0
        &&& w.speed == 0
        &&& w.bolts == 0
        &&& w.spread == 0
        &&& !w.big
        &&& w.gimbal is None
        &&& w.heat == 0x3fe1_9999_a000_0000
        &&& w.beam
    }
}

/// The player's weapon `i`.
pub fn weapon(i: usize) -> (w: Weapon)
    requires
        i < WEAPON_COUNT,
    ensures
        is_weapon(w, i as int),
{
    if i == 0 {
        Weapon {
            name: "PULSE",
            damage: 0x4020_0000_0000_0000,
            cooldown: 0x3fc7_0a3d_8000_0000,
            speed: 0x406e_0000_0000_0000,
            bolts: 1,
            spread: 0,
            big: false,
            gimbal: Some(0x3fcc_28f5_c000_0000),
            heat: 0x3fa9_9999_a000_0000,
            beam: false,
        }
    } else if i == 1 {
        Weapon {
            name: "CANNON",
            damage: 0x403a_0000_0000_0000,
            cooldown: 0x3fe6_6666_6000_0000,
            speed: 0x4066_8000_0000_0000,
            bolts: 1,
            spread: 0,
            big: true,
            gimbal: None,
            heat: 0x3fc4_7ae1_4000_0000,
            beam: false,
        }
    } else if i == 2 {
        Weapon {
            name: "SCATTER",
            damage: 0x4018_0000_0000_0000,
            cooldown: 0x3fe0_0000_0000_0000,
            speed: 0x4069_a000_0000_0000,
            bolts: 3,
            spread: 0x3fc0_a3d7_0000_0000,
            big: false,
            gimbal: None,
            heat: 0x3fbe_b851_e000_0000,
            beam: false,
        }
    } else {
        Weapon {
            name: "BEAM",
            damage: 0x404e_0000_0000_0000,
            cooldown: 0,
            speed: 0,
            bolts: 0,
            spread: 0,
            big: false,
            gimbal: None,
            heat: 0x3fe1_9999_a000_0000,
            beam: true,
        }
    }
}

/// Where an agent stands around the player, in steps.
#[derive(Debug, Clone, Copy, PartialEq, Eq, Structural)]
pub struct Spot {
    /// The direction, in twenty-fourths of a turn.
    pub sector: u64,
    /// How far out, in steps.
    pub ring: u64,
    /// How high, in steps; negative below.
    pub level: i64,
}

/// Where an agent stands: it follows from the id alone, so that agents hold still.
pub fn spot_of(id: u64) -> (s: Spot)
    ensures
        s.sector == id % 24,
        s.ring == id % 4,
        s.level == id % 7 - 3,
{
    Spot { sector: id % 24, ring: id % 4, level: (id % 7) as i64 - 3 }
}

/// By how many steps a ship's first shot and first missile are put off, so that a wing does
/// not volley together.
pub fn stagger(id: PatrolId) -> (r: (u64, u64))
    ensures
        r.0 == id.0 % 5,
        r.1 == id.0 % 7,
{
    (id.0 % 5, id.0 % 7)
}

/// The product of two words, kept to a word.
pub open spec fn product(a: u32, b: u32) -> u32 {
    ((a * b) % 0x1_0000_0000) as u32
}

/// A word with its bits mixed up.
pub open spec fn mixed(x: u32) -> u32 {
    let a = product(x ^ (x >> 16), 0x7feb_352d);
    let b = product(a ^ (a >> 15), 0x846c_a68b);
    b ^ (b >> 16)
}

/// The product of two words, kept to a word.
fn multiply(a: u32, b: u32) -> (c: u32)
    ensures
        c == product(a, b),
{
    assert(a * b <= 0xffff_ffff * 0xffff_ffff) by (nonlinear_arith)
        requires
            a <= 0xffff_ffff,
            b <= 0xffff_ffff,
    ;
    assert(0 <= a * b) by (nonlinear_arith);
    ((a as u64 * b as u64) % 0x1_0000_0000) as u32
}

/// A word with its bits mixed up. It is no random number: the same word always gives the
/// same result, so that a sky strewn by it is the same every run.
pub fn star_hash(x: u32) -> (h: u32)
    ensures
        h == mixed(x),
{
    let a = multiply(x ^ (x >> 16), 0x7feb_352d);
    let b = multiply(a ^ (a >> 15), 0x846c_a68b);
    b ^ (b >> 16)
}

/// The two words that say where star `i` stands.
pub fn star(i: u32) -> (r: (u32, u32))
    ensures
        r.0 == mixed(((2 * i + 0x9e37_79b9) % 0x1_0000_0000) as u32),
        r.1 == mixed(((2 * i + 0x85eb_ca6b) % 0x1_0000_0000) as u32),
{
    let u = ((2 * (i as u64) + 0x9e37_79b9) % 0x1_0000_0000) as u32;
    let v = ((2 * (i as u64) + 0x85eb_ca6b) % 0x1_0000_0000) as u32;
    (star_hash(u), star_hash(v))
}

/// The scanner shows the hostiles, the navy and the station, each once and in that order,
/// and nothing behind them; out of flight it shows nothing.
pub proof fn lemma_scanner_shows_all(hostiles: int, navy: int, k: int)
    requires
        0 <= hostiles <= usize::MAX,
        0 <= navy <= usize::MAX,
        0 <= k,
    ensures
        blip(false, hostiles, navy, k) is None,
        k < hostiles ==> blip(true, hostiles, navy, k) == Some(Blip::Hostile(k as usize)),
        k < navy ==> blip(true, hostiles, navy, hostiles + k) == Some(Blip::Navy(k as usize)),
        blip(true, hostiles, navy, hostiles + navy) == Some(Blip::Station),
        k > hostiles + navy ==> blip(true, hostiles, navy, k) is None,
{
}

/// Only the pulse laser follows a locked target, only the last weapon is a beam, and every
/// other fires bolts: three from the scatter gun, one from the rest, big ones from the
/// cannon.
pub proof fn lemma_weapons_differ(w: Weapon, i: int)
    requires
        0 <= i < 4,
        is_weapon(w, i),
    ensures
        w.gimbal is Some <==> i == 0,
        w.beam <==> i == 3,
        w.big <==> i == 1,
        w.bolts == (if i == 3 {
            0int
        } else if i == 2 {
            3
        } else {
            1
        }),
        w.spread != 0 <==> i == 2,
        w.cooldown == 0 <==> i == 3,
        bits::less(0, w.damage),
        bits::less(0, w.heat),
{
}

/// A product is kept to a word by dropping whole turns of it.
pub proof fn lemma_product_is_kept_to_a_word(a: u32, b: u32)
    ensures
        (a * b - product(a, b)) % 0x1_0000_0000 == 0,
        a * b <= u32::MAX ==> product(a, b) == a * b,
{
    let p = a * b;
    assert(p >= 0) by (nonlinear_arith)
        requires
            p == a * b,
            a >= 0,
            b >= 0,
    ;
    vstd::arithmetic::div_mod::lemma_fundamental_div_mod(p, 0x1_0000_0000);
    vstd::arithmetic::div_mod::lemma_mod_multiples_basic(p / 0x1_0000_0000, 0x1_0000_0000);
    if p <= u32::MAX {
        vstd::arithmetic::div_mod::lemma_small_mod(p as nat, 0x1_0000_0000);
    }
}

} // verus!
