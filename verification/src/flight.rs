//! The rules of a ship in flight that are decided by comparing numbers: the throttle's
//! detent, the laser's temperature and a ship's health.
//!
//! Numbers are 64-bit patterns, which hold every 32-bit number exactly. Sums and
//! products are the host's: a function takes their result and decides what becomes of
//! it.

use vstd::prelude::*;

use crate::bits;
use crate::bits::{Bits, clamp, is_at_most, is_less, is_same, smaller_of, larger_of};

verus! {

/// The pattern of zero.
pub const ZERO: Bits = 0;

/// The pattern of one.
pub const ONE: Bits = 0x3ff0_0000_0000_0000;

/// The pattern of minus one.
pub const MINUS_ONE: Bits = 0xbff0_0000_0000_0000;

/// The hottest a laser gets: one and a half times its limit.
pub const HOTTEST: Bits = 0x3ff8_0000_0000_0000;

/// The heat at which a laser that cut out comes back: 0.35 of its limit, as a 32-bit
/// number.
pub const RESET: Bits = 0x3fd6_6666_6000_0000;

/// A held throttle setpoint in `[-1, 1]` with a zero detent: slewing into zero parks
/// there until the key is released, so crossing into the opposite sign takes a fresh
/// press.
#[derive(Debug, Clone, Copy, PartialEq, Eq, Structural)]
pub struct Throttle {
    /// Current setpoint, `-1` (full reverse) to `1` (full ahead).
    pub level: Bits,
    /// Whether the throttle is parked at the zero detent.
    pub at_zero_detent: bool,
}

impl Throttle {
    /// Whether slewing to `next` reaches or passes zero from the other side.
    pub open spec fn enters_detent(self, next: Bits) -> bool {
        (bits::less(ZERO, self.level) && bits::at_most(next, ZERO)) || (bits::less(
            self.level,
            ZERO,
        ) && bits::at_most(ZERO, next))
    }

    /// The throttle after a frame with this input.
    pub open spec fn stepped(self, input: i32, next: Bits) -> Throttle {
        if input == 0 {
            Throttle { at_zero_detent: false, ..self }
        } else if self.enters_detent(next) {
            Throttle { level: ZERO, at_zero_detent: true }
        } else if self.at_zero_detent && bits::same(self.level, ZERO) {
            Throttle { level: ZERO, ..self }
        } else {
            Throttle { level: bits::clamped(next, MINUS_ONE, ONE), ..self }
        }
    }

    /// A throttle at rest.
    pub fn new() -> (t: Self)
        ensures
            t == (Throttle { level: ZERO, at_zero_detent: false }),
    {
        Throttle { level: ZERO, at_zero_detent: false }
    }

    /// Advance the throttle one frame. `input` is the raw axis: positive to raise,
    /// negative to lower, zero when released. `next` is the level slewed by it.
    pub fn step(&mut self, input: i32, next: Bits)
        ensures
            *final(self) == old(self).stepped(input, next),
    {
        if input == 0 {
            self.at_zero_detent = false;
            return;
        }
        if (is_less(ZERO, self.level) && is_at_most(next, ZERO)) || (is_less(self.level, ZERO)
            && is_at_most(ZERO, next)) {
            self.level = ZERO;
            self.at_zero_detent = true;
        } else if self.at_zero_detent && is_same(self.level, ZERO) {
            self.level = ZERO;
        } else {
            self.level = clamp(next, MINUS_ONE, ONE);
        }
    }

    /// Cut to a parked dead stop.
    pub fn stop(&mut self)
        ensures
            *final(self) == (Throttle { level: ZERO, at_zero_detent: true }),
    {
        self.level = ZERO;
        self.at_zero_detent = true;
    }
}

/// A throttle parked at the detent stays there while the key is held, whichever way and
/// however far it slews.
pub proof fn lemma_detent_holds(t: Throttle, input: i32, next: Bits)
    requires
        t == (Throttle { level: ZERO, at_zero_detent: true }),
        input != 0,
    ensures
        t.stepped(input, next) == t,
{
}

/// No single step takes the throttle from ahead to reverse, or back.
pub proof fn lemma_zero_is_never_crossed(t: Throttle, input: i32, next: Bits)
    ensures
        bits::less(ZERO, t.level) ==> !bits::less(t.stepped(input, next).level, ZERO),
        bits::less(t.level, ZERO) ==> !bits::less(ZERO, t.stepped(input, next).level),
{
}

/// The throttle keeps within its range.
pub proof fn lemma_throttle_in_range(t: Throttle, input: i32, next: Bits)
    requires
        bits::at_most(MINUS_ONE, t.level),
        bits::at_most(t.level, ONE),
        bits::is_number(next),
    ensures
        bits::at_most(MINUS_ONE, t.stepped(input, next).level),
        bits::at_most(t.stepped(input, next).level, ONE),
{
}

/// Once released, a parked throttle follows the key again.
pub proof fn lemma_release_rearms(t: Throttle, input: i32, next: Bits)
    requires
        t == (Throttle { level: ZERO, at_zero_detent: true }),
        input != 0,
    ensures
        t.stepped(0, ZERO).stepped(input, next).level == bits::clamped(next, MINUS_ONE, ONE),
{
}

/// The laser temperature of a weapon mount, as a fraction of its limit. A laser that
/// reaches the limit cuts out until it has cooled well below it.
#[derive(Debug, Clone, Copy, PartialEq, Eq, Structural)]
pub struct WeaponHeat {
    pub heat: Bits,
    /// Whether the laser overheated and has not cooled enough since.
    pub cut_out: bool,
}

impl WeaponHeat {
    /// The temperature after firing brought the heat to `heated`.
    pub open spec fn fired(self, heated: Bits) -> WeaponHeat {
        let heat = bits::smaller(heated, HOTTEST);
        WeaponHeat { heat, cut_out: self.cut_out || bits::at_most(ONE, heat) }
    }

    /// The temperature after rest brought the heat to `cooled`.
    pub open spec fn rested(self, cooled: Bits) -> WeaponHeat {
        let heat = bits::larger(cooled, ZERO);
        WeaponHeat { heat, cut_out: self.cut_out && !bits::at_most(heat, RESET) }
    }

    /// A cold laser.
    pub fn new() -> (w: Self)
        ensures
            w == (WeaponHeat { heat: ZERO, cut_out: false }),
    {
        WeaponHeat { heat: ZERO, cut_out: false }
    }

    /// Heat as a fraction between zero and one, for a gauge.
    pub fn frac(&self) -> (f: Bits)
        ensures
            f == bits::clamped(self.heat, ZERO, ONE),
    {
        clamp(self.heat, ZERO, ONE)
    }

    /// Whether the laser is too hot to fire.
    pub fn is_cut_out(&self) -> (b: bool)
        ensures
            b == self.cut_out,
    {
        self.cut_out
    }

    /// Whether the weapon may fire.
    pub fn can_fire(&self) -> (b: bool)
        ensures
            b == !self.cut_out,
    {
        !self.cut_out
    }

    /// Firing brought the heat to `heated`: it is held below its maximum, and at the
    /// limit the laser cuts out.
    pub fn add(&mut self, heated: Bits)
        ensures
            *final(self) == old(self).fired(heated),
    {
        self.heat = smaller_of(heated, HOTTEST);
        if is_at_most(ONE, self.heat) {
            self.cut_out = true;
        }
    }

    /// Rest brought the heat to `cooled`: it never goes below zero, and a laser that cut
    /// out comes back once cool enough.
    pub fn cool(&mut self, cooled: Bits)
        ensures
            *final(self) == old(self).rested(cooled),
    {
        self.heat = larger_of(cooled, ZERO);
        if self.cut_out && is_at_most(self.heat, RESET) {
            self.cut_out = false;
        }
    }
}

/// Heat stays between zero and its maximum, whatever sums it is given.
pub proof fn lemma_heat_is_bounded(w: WeaponHeat, given: Bits)
    requires
        bits::at_most(ZERO, w.heat),
        bits::at_most(w.heat, HOTTEST),
    ensures
        bits::at_most(w.fired(given).heat, HOTTEST),
        bits::at_most(ZERO, w.rested(given).heat),
        bits::at_most(ZERO, given) ==> bits::at_most(ZERO, w.fired(given).heat),
        bits::at_most(given, w.heat) ==> bits::at_most(w.rested(given).heat, HOTTEST),
{
}

/// A laser cuts out only at its limit, and comes back only below the reset point; in
/// between it stays as it was.
pub proof fn lemma_cut_out_has_hysteresis(w: WeaponHeat, given: Bits)
    ensures
        !w.cut_out && w.fired(given).cut_out ==> bits::at_most(ONE, w.fired(given).heat),
        w.cut_out ==> w.fired(given).cut_out,
        !w.cut_out ==> !w.rested(given).cut_out,
        w.cut_out && bits::less(RESET, given) ==> w.rested(given).cut_out,
        w.cut_out && bits::at_most(given, RESET) ==> !w.rested(given).cut_out,
{
}

/// Hull and shield for a combatant in a real-time fight. Damage is absorbed by the shield
/// first, and a ship dies when its hull is gone.
#[derive(Debug, Clone, Copy, PartialEq, Eq, Structural)]
pub struct Health {
    pub hull: Bits,
    pub max_hull: Bits,
    pub shield: Bits,
    pub max_shield: Bits,
    pub shield_regen: Bits,
}

/// How full a gauge reads: `ratio`, held between empty and full, and empty where there is
/// no maximum.
pub open spec fn gauge(max: Bits, ratio: Bits) -> Bits {
    if bits::less(ZERO, max) {
        bits::clamped(ratio, ZERO, ONE)
    } else {
        ZERO
    }
}

impl Health {
    /// A ship with this hull and shield; both start at their maximum.
    pub fn new(hull: Bits, shield: Bits, regen: Bits) -> (h: Self)
        ensures
            h == (Health { hull, max_hull: hull, shield, max_shield: shield, shield_regen: regen }),
    {
        Health { hull, max_hull: hull, shield, max_shield: shield, shield_regen: regen }
    }

    /// Hull as a fraction of its maximum, for a gauge; `ratio` is their quotient.
    pub fn hull_frac(&self, ratio: Bits) -> (f: Bits)
        ensures
            f == gauge(self.max_hull, ratio),
    {
        if is_less(ZERO, self.max_hull) {
            clamp(ratio, ZERO, ONE)
        } else {
            ZERO
        }
    }

    /// Shield as a fraction of its maximum, for a bar; `ratio` is their quotient.
    pub fn shield_frac(&self, ratio: Bits) -> (f: Bits)
        ensures
            f == gauge(self.max_shield, ratio),
    {
        if is_less(ZERO, self.max_shield) {
            clamp(ratio, ZERO, ONE)
        } else {
            ZERO
        }
    }

    /// How much of a blow the shield takes.
    pub fn absorbed(&self, amount: Bits) -> (a: Bits)
        ensures
            a == bits::smaller(self.shield, amount),
    {
        smaller_of(self.shield, amount)
    }

    /// A blow leaves this much shield and hull: the shield less what it absorbed, and the
    /// hull less the rest.
    pub fn take_damage(&mut self, shield: Bits, hull: Bits)
        ensures
            *final(self) == (Health { shield, hull, ..*old(self) }),
    {
        self.shield = shield;
        self.hull = hull;
    }

    /// Whether the ship is still flying.
    pub open spec fn spec_alive(self) -> bool {
        bits::less(ZERO, self.hull)
    }

    /// Whether the ship is still flying.
    pub fn alive(&self) -> (b: bool)
        ensures
            b == self.spec_alive(),
    {
        is_less(ZERO, self.hull)
    }

    /// The shield grew to `grown`, but no further than its maximum.
    pub fn regen(&mut self, grown: Bits)
        ensures
            *final(self) == (Health {
                shield: bits::smaller(grown, old(self).max_shield),
                ..*old(self)
            }),
    {
        self.shield = smaller_of(grown, self.max_shield);
    }
}

/// The shield takes the whole of a blow that it can hold, so that nothing is left for the
/// hull, and never more than it has.
pub proof fn lemma_shield_absorbs_first(h: Health, amount: Bits)
    requires
        bits::is_number(h.shield),
        bits::is_number(amount),
    ensures
        bits::at_most(amount, h.shield) ==> bits::same(bits::smaller(h.shield, amount), amount),
        bits::less(h.shield, amount) ==> bits::smaller(h.shield, amount) == h.shield,
{
}

/// Away from the detent a held key slews the throttle: to the level it is slewed to, held
/// within full reverse and full ahead. A released key leaves the level as it is.
pub proof fn lemma_throttle_follows_the_key(t: Throttle, input: i32, next: Bits)
    requires
        bits::is_number(next),
        !t.at_zero_detent,
    ensures
        t.stepped(0, next).level == t.level,
        !t.stepped(0, next).at_zero_detent,
        input != 0 && bits::less(ZERO, t.level) && bits::less(ZERO, next) && bits::at_most(next, ONE)
            ==> t.stepped(input, next).level == next,
        input != 0 && bits::less(ZERO, t.level) && bits::less(ONE, next) ==> t.stepped(
            input,
            next,
        ).level == ONE,
        input != 0 && bits::less(t.level, ZERO) && bits::less(next, ZERO) && bits::at_most(
            MINUS_ONE,
            next,
        ) ==> t.stepped(input, next).level == next,
        input != 0 && bits::less(t.level, ZERO) && bits::less(next, MINUS_ONE) ==> t.stepped(
            input,
            next,
        ).level == MINUS_ONE,
        input != 0 && bits::less(ZERO, t.level) && bits::at_most(next, ZERO) ==> t.stepped(
            input,
            next,
        ) == (Throttle { level: ZERO, at_zero_detent: true }),
        input != 0 && bits::less(t.level, ZERO) && bits::at_most(ZERO, next) ==> t.stepped(
            input,
            next,
        ) == (Throttle { level: ZERO, at_zero_detent: true }),
{
}

/// A laser's heat is what firing or rest brought it to, as long as that is within bounds; a
/// laser that reaches its limit cuts out.
pub proof fn lemma_heat_is_what_it_was_brought_to(w: WeaponHeat, given: Bits)
    requires
        bits::is_number(given),
    ensures
        bits::less(given, HOTTEST) ==> w.fired(given).heat == given,
        bits::less(HOTTEST, given) ==> w.fired(given).heat == HOTTEST,
        bits::less(ZERO, given) ==> w.rested(given).heat == given,
        bits::less(given, ZERO) ==> w.rested(given).heat == ZERO,
        bits::at_most(ONE, given) ==> w.fired(given).cut_out,
        bits::less(given, ONE) ==> w.fired(given).cut_out == w.cut_out,
{
}

/// A gauge reads empty where there is no maximum, and otherwise the ratio, between empty
/// and full.
pub proof fn lemma_gauge_reads_the_ratio(max: Bits, ratio: Bits)
    requires
        bits::is_number(ratio),
    ensures
        !bits::less(ZERO, max) ==> gauge(max, ratio) == ZERO,
        bits::less(ZERO, max) && bits::at_most(ZERO, ratio) && bits::at_most(ratio, ONE) ==> gauge(
            max,
            ratio,
        ) == ratio,
        bits::less(ZERO, max) && bits::less(ONE, ratio) ==> gauge(max, ratio) == ONE,
        bits::less(ZERO, max) && bits::less(ratio, ZERO) ==> gauge(max, ratio) == ZERO,
{
}

/// A ship flies just while it has hull.
pub proof fn lemma_ships_fly_with_hull(h: Health)
    ensures
        h.spec_alive() <==> 0 < h.hull <= 0x7ff0_0000_0000_0000,
{
}

} // verus!
