//! The fight around the player's ship: on whom a wing fires, when a weapon goes off, what a
//! shot strikes, and what is reported of it to the simulation.
//!
//! Positions, aim and timers are the host's; a function takes the distances and the time
//! left that they come to. Numbers are 64-bit patterns, which hold every 32-bit number
//! exactly.

use vstd::prelude::*;

use crate::bits;
use crate::bits::{Bits, is_at_most, is_less, larger_of};
use crate::cockpit;
use crate::cockpit::{Canister, Shooter, Struck, bolt_strikes, navy_stance};
use crate::command::Command;
use crate::flight::{Health, WeaponHeat, ZERO};
use crate::ids::{PatrolId, PlayerId, SystemId, TraderId};
use crate::nav;
use crate::search;
use crate::trader;
use crate::trader::{Trader, TraderLocation, TraderView};

verus! {

/// Nearer than this, half a unit, a ship does not steer any more.
pub const TOUCHING: Bits = 0x3fe0_0000_0000_0000;

/// Nearer than this, 35 units, a pirate circles its target.
pub const HOSTILE_BAND: Bits = 0x4041_8000_0000_0000;

/// Nearer than this, 40 units, a navy ship circles its target.
pub const NAVY_BAND: Bits = 0x4044_0000_0000_0000;

/// How far a pirate shoots: 150 units.
pub const HOSTILE_REACH: Bits = 0x4062_c000_0000_0000;

/// How far the navy shoots: 160 units.
pub const NAVY_REACH: Bits = 0x4064_0000_0000_0000;

/// The seconds between a pirate's shots: 1.15, as a 32-bit number.
pub const HOSTILE_RELOAD: Bits = 0x3ff2_6666_6000_0000;

/// The seconds between a navy ship's shots: 1.
pub const NAVY_RELOAD: Bits = 0x3ff0_0000_0000_0000;

/// A bolt strikes what it passes nearer than this: 3 units.
pub const HIT_RADIUS: Bits = 0x4008_0000_0000_0000;

/// How far the beam reaches: 130 units.
pub const BEAM_RANGE: Bits = 0x4060_4000_0000_0000;

/// The cosine of the beam's half-angle: 0.985, as a 32-bit number.
pub const BEAM_COS: Bits = 0x3fef_851e_c000_0000;

/// Nearer than this, a thousandth of a unit as a 32-bit number, the beam hits nothing.
pub const BEAM_LEAST: Bits = 0x3f50_624d_e000_0000;

/// A pirate launches a missile at a player nearer than this: 220 units.
pub const LAUNCH_RANGE: Bits = 0x406b_8000_0000_0000;

/// The seconds a pirate's launcher takes to reload: 11.
pub const BAY_RELOAD: Bits = 0x4026_0000_0000_0000;

/// The seconds until a launcher looks again for a player out of range: 2.
pub const BAY_RETRY: Bits = 0x4000_0000_0000_0000;

/// A missile goes off nearer than this to its target: 4 units.
pub const MISSILE_RADIUS: Bits = 0x4010_0000_0000_0000;

/// The seconds between two bursts of counter-measures: 2.5.
pub const ECM_COOLDOWN: Bits = 0x4004_0000_0000_0000;

/// The seconds that a burst of counter-measures lights up: 0.4, as a 32-bit number.
pub const ECM_FLASH: Bits = 0x3fd9_9999_a000_0000;

/// A canister nearer than this is scooped: 8 units.
pub const SCOOP_RADIUS: Bits = 0x4020_0000_0000_0000;

/// The ships that fight on their own.
#[derive(Debug, Clone, Copy, PartialEq, Eq, Structural)]
pub enum Wing {
    Hostile,
    Navy,
}

impl Wing {
    /// Where a ship stops closing in.
    pub open spec fn band(self) -> Bits {
        match self {
            Wing::Hostile => HOSTILE_BAND,
            Wing::Navy => NAVY_BAND,
        }
    }

    /// How far a ship shoots.
    pub open spec fn reach(self) -> Bits {
        match self {
            Wing::Hostile => HOSTILE_REACH,
            Wing::Navy => NAVY_REACH,
        }
    }

    /// The seconds between shots.
    pub open spec fn reload(self) -> Bits {
        match self {
            Wing::Hostile => HOSTILE_RELOAD,
            Wing::Navy => NAVY_RELOAD,
        }
    }

    /// As whose the wing's bolts count.
    pub open spec fn fires_as(self, bounty: u32) -> Shooter {
        match self {
            Wing::Hostile => Shooter::Hostile,
            Wing::Navy => if nav::standing(bounty).spec_is_wanted() {
                Shooter::Hostile
            } else {
                Shooter::Navy
            },
        }
    }

    /// Whether the wing goes for a ship: pirates for the player and the navy, the navy for
    /// a wanted player, and for pirates otherwise.
    pub open spec fn spec_hunts(self, bounty: u32, at: Struck) -> bool {
        match self {
            Wing::Hostile => at != Struck::Hostile,
            Wing::Navy => if nav::standing(bounty).spec_is_wanted() {
                at == Struck::Player
            } else {
                at == Struck::Hostile
            },
        }
    }

    /// Whether the wing goes for a ship, where this bounty is on the player.
    pub fn hunts(self, bounty: u32, at: Struck) -> (b: bool)
        ensures
            b == self.spec_hunts(bounty, at),
    {
        match self {
            Wing::Hostile => at != Struck::Hostile,
            Wing::Navy => at == navy_stance(bounty).0,
        }
    }

    /// As whose the wing's bolts count, where this bounty is on the player.
    pub fn shooter(self, bounty: u32) -> (s: Shooter)
        ensures
            s == self.fires_as(bounty),
    {
        match self {
            Wing::Hostile => Shooter::Hostile,
            Wing::Navy => navy_stance(bounty).1,
        }
    }
}

/// A wing's bolts strike every ship that it goes for.
pub proof fn lemma_wing_hits_its_prey(wing: Wing, bounty: u32, at: Struck)
    requires
        wing.spec_hunts(bounty, at),
    ensures
        cockpit::strikes(wing.fires_as(bounty), at),
{
}

/// Where a ship steers.
#[derive(Debug, Clone, Copy, PartialEq, Eq, Structural)]
pub enum Course {
    /// Nowhere: it is upon its target.
    Hold,
    /// Straight at its target.
    Close,
    /// Around its target; the sense alternates by id, so that a wing does not stack.
    Circle { forward: bool },
}

/// What a ship does in a frame.
#[derive(Debug, Clone, Copy, PartialEq, Eq, Structural)]
pub struct Orders {
    pub course: Course,
    /// Whether it shoots.
    pub fires: bool,
    /// The seconds until it may shoot again.
    pub timer: Bits,
}

/// What a ship does in a frame, `distance` away from its target and `timer` seconds from
/// its next shot.
pub open spec fn orders(wing: Wing, id: PatrolId, distance: Bits, timer: Bits) -> Orders {
    let fires = bits::at_most(timer, ZERO) && bits::less(distance, wing.reach());
    Orders {
        course: if !bits::less(TOUCHING, distance) {
            Course::Hold
        } else if bits::less(wing.band(), distance) {
            Course::Close
        } else {
            Course::Circle { forward: id.0 % 2 == 0 }
        },
        fires,
        timer: if fires {
            wing.reload()
        } else {
            timer
        },
    }
}

/// What a ship does in a frame: it closes in, circles at its band, and shoots once it is
/// ready and in reach.
pub fn orders_for(wing: Wing, id: PatrolId, distance: Bits, timer: Bits) -> (o: Orders)
    ensures
        o == orders(wing, id, distance, timer),
{
    let (band, reach, reload) = match wing {
        Wing::Hostile => (HOSTILE_BAND, HOSTILE_REACH, HOSTILE_RELOAD),
        Wing::Navy => (NAVY_BAND, NAVY_REACH, NAVY_RELOAD),
    };
    let fires = is_at_most(timer, ZERO) && is_less(distance, reach);
    let course = if !is_less(TOUCHING, distance) {
        Course::Hold
    } else if is_less(band, distance) {
        Course::Close
    } else {
        Course::Circle { forward: id.0 % 2 == 0 }
    };
    Orders {
        course,
        fires,
        timer: if fires {
            reload
        } else {
            timer
        },
    }
}

/// A ship that has shot has to wait before it shoots again.
pub proof fn lemma_shots_are_spaced(wing: Wing, id: PatrolId, near: Bits, timer: Bits, later: Bits)
    requires
        orders(wing, id, near, timer).fires,
    ensures
        !orders(wing, id, later, orders(wing, id, near, timer).timer).fires,
{
}

/// Whether the player's bolts go off: with a bolt weapon selected, in flight, with the
/// trigger held, once the weapon is ready and not too hot.
pub fn bolts_fly(beam: bool, docked: bool, held: bool, timer: Bits, heat: &WeaponHeat) -> (b: bool)
    ensures
        b == (!beam && !docked && held && !bits::less(ZERO, timer) && !heat.cut_out),
{
    !beam && !docked && held && !is_less(ZERO, timer) && heat.can_fire()
}

/// Whether the player's beam burns: with the beam selected, in flight, with the trigger
/// held, while it is not too hot.
pub fn beam_burns(beam: bool, docked: bool, held: bool, heat: &WeaponHeat) -> (b: bool)
    ensures
        b == (beam && !docked && held && !heat.cut_out),
{
    beam && !docked && held && heat.can_fire()
}

/// A hostile as the beam sees it.
#[derive(Debug, Clone, Copy, PartialEq, Eq, Structural)]
pub struct Sight {
    pub distance: Bits,
    /// The cosine of the angle between the nose and the hostile.
    pub cosine: Bits,
}

/// Whether the beam can hit a hostile: it is in reach, and within the beam's cone.
pub open spec fn in_beam(s: Sight) -> bool {
    !bits::less(s.distance, BEAM_LEAST) && !bits::less(BEAM_RANGE, s.distance) && !bits::less(
        s.cosine,
        BEAM_COS,
    )
}

/// The hostile among the first `n` that the beam hits: the nearest that it can, and the
/// first of those that are equally near.
pub open spec fn beam_mark(sights: Seq<Sight>, n: int) -> Option<int>
    decreases n,
{
    if n <= 0 {
        None
    } else {
        let before = beam_mark(sights, n - 1);
        if !in_beam(sights[n - 1]) {
            before
        } else if before is Some && bits::at_most(
            sights[before->Some_0].distance,
            sights[n - 1].distance,
        ) {
            before
        } else {
            Some(n - 1)
        }
    }
}

/// The hostile that the beam hits, and how far it shines: to the hit, or as far as it
/// reaches.
pub fn beam_target(sights: &Vec<Sight>) -> (r: (Option<usize>, Bits))
    ensures
        match r.0 {
            Some(i) => i < sights@.len() && beam_mark(sights@, sights@.len() as int) == Some(
                i as int,
            ) && r.1 == sights@[i as int].distance,
            None => beam_mark(sights@, sights@.len() as int) is None && r.1 == BEAM_RANGE,
        },
{
    let mut best: Option<usize> = None;
    let mut i: usize = 0;
    while i < sights.len()
        invariant
            i <= sights@.len(),
            match best {
                Some(k) => k < i && beam_mark(sights@, i as int) == Some(k as int),
                None => beam_mark(sights@, i as int) is None,
            },
        decreases sights@.len() - i,
    {
        let s = sights[i];
        if !is_less(s.distance, BEAM_LEAST) && !is_less(BEAM_RANGE, s.distance) && !is_less(
            s.cosine,
            BEAM_COS,
        ) {
            match best {
                Some(k) => {
                    if !is_at_most(sights[k].distance, s.distance) {
                        best = Some(i);
                    }
                },
                None => {
                    best = Some(i);
                },
            }
        }
        i = i + 1;
    }
    match best {
        Some(k) => (best, sights[k].distance),
        None => (None, BEAM_RANGE),
    }
}

/// The beam hits a hostile whenever one is in it, and then none that is in it is nearer.
pub proof fn lemma_beam_takes_the_nearest(sights: Seq<Sight>, n: int)
    requires
        0 <= n <= sights.len(),
        forall|i: int| 0 <= i < n ==> bits::is_number((#[trigger] sights[i]).distance),
    ensures
        match beam_mark(sights, n) {
            Some(k) => {
                &&& 0 <= k < n
                &&& in_beam(sights[k])
                &&& forall|i: int|
                    0 <= i < n && in_beam(#[trigger] sights[i]) ==> bits::at_most(
                        sights[k].distance,
                        sights[i].distance,
                    )
            },
            None => forall|i: int| 0 <= i < n ==> !in_beam(#[trigger] sights[i]),
        },
    decreases n,
{
    if n > 0 {
        lemma_beam_takes_the_nearest(sights, n - 1);
    }
}

/// Whether a shot of `by` strikes a ship of that side at that distance.
pub open spec fn is_hit(by: Shooter) -> spec_fn((Struck, Bits)) -> bool {
    |t: (Struck, Bits)| cockpit::strikes(by, t.0) && bits::less(t.1, HIT_RADIUS)
}

/// The ship that a bolt strikes, by the side and the distance of each: the first that it
/// may strike and is near enough.
pub fn bolt_hit(by: Shooter, ships: &Vec<(Struck, Bits)>) -> (r: Option<usize>)
    ensures
        match r {
            Some(i) => i < ships@.len() && search::first(ships@, is_hit(by)) == Some(i as int),
            None => search::first(ships@, is_hit(by)) is None,
        },
{
    let ghost p = is_hit(by);
    let mut i: usize = 0;
    while i < ships.len()
        invariant
            i <= ships@.len(),
            p == is_hit(by),
            forall|j: int| 0 <= j < i ==> !p(#[trigger] ships@[j]),
        decreases ships@.len() - i,
    {
        if bolt_strikes(by, ships[i].0) && is_less(ships[i].1, HIT_RADIUS) {
            proof {
                search::lemma_first_is(ships@, p, i as int);
            }
            return Some(i);
        }
        i = i + 1;
    }
    proof {
        search::lemma_first_none(ships@, p);
    }
    None
}

/// What a pirate's missile launcher did.
#[derive(Debug, Clone, Copy, PartialEq, Eq, Structural)]
pub enum Bay {
    /// It is still loading.
    Loading,
    /// It launched a missile at the player.
    Launched,
    /// The player is out of range.
    OutOfRange,
}

/// A pirate's missile launcher, `timer` seconds from being ready and `distance` away from
/// the player: what it did, and the seconds until it is ready again.
pub fn bay_step(timer: Bits, distance: Bits) -> (r: (Bay, Bits))
    ensures
        r == (if bits::less(ZERO, timer) {
            (Bay::Loading, timer)
        } else if bits::less(distance, LAUNCH_RANGE) {
            (Bay::Launched, BAY_RELOAD)
        } else {
            (Bay::OutOfRange, BAY_RETRY)
        }),
{
    if is_less(ZERO, timer) {
        (Bay::Loading, timer)
    } else if is_less(distance, LAUNCH_RANGE) {
        (Bay::Launched, BAY_RELOAD)
    } else {
        (Bay::OutOfRange, BAY_RETRY)
    }
}

/// What becomes of a missile.
#[derive(Debug, Clone, Copy, PartialEq, Eq, Structural)]
pub enum Fate {
    /// It is gone: the fight is over, or its time is up.
    Gone,
    /// It flies on straight: its target is gone.
    Coasts,
    /// It flies on after its target.
    Homes,
    /// It goes off at its target.
    Strikes,
}

/// What becomes of a missile that has `ttl` seconds left; `distance` is how far it is from
/// its target, where that still flies. A fight lasts while the player is in flight in a
/// system.
pub fn missile_fate(fighting: bool, ttl: Bits, distance: Option<Bits>) -> (f: Fate)
    ensures
        f == (if !fighting || bits::at_most(ttl, ZERO) {
            Fate::Gone
        } else {
            match distance {
                None => Fate::Coasts,
                Some(d) => if bits::less(d, MISSILE_RADIUS) {
                    Fate::Strikes
                } else {
                    Fate::Homes
                },
            }
        }),
{
    if !fighting || is_at_most(ttl, ZERO) {
        return Fate::Gone;
    }
    match distance {
        None => Fate::Coasts,
        Some(d) => if is_less(d, MISSILE_RADIUS) {
            Fate::Strikes
        } else {
            Fate::Homes
        },
    }
}

/// Electronic counter-measures.
#[derive(Debug, Clone, Copy, PartialEq, Eq, Structural)]
pub struct Ecm {
    /// The seconds until they are ready.
    pub cooldown: Bits,
    /// The seconds that the last burst still lights up.
    pub flash: Bits,
}

impl Ecm {
    /// Counter-measures that are ready.
    pub fn new() -> (e: Self)
        ensures
            e == (Ecm { cooldown: ZERO, flash: ZERO }),
    {
        Ecm { cooldown: ZERO, flash: ZERO }
    }

    /// A frame passed and left these times; neither goes below zero.
    pub fn run(&mut self, cooldown: Bits, flash: Bits)
        ensures
            *final(self) == (Ecm {
                cooldown: bits::larger(cooldown, ZERO),
                flash: bits::larger(flash, ZERO),
            }),
    {
        self.cooldown = larger_of(cooldown, ZERO);
        self.flash = larger_of(flash, ZERO);
    }

    /// The counter-measures key: whether there is a burst. Not while docked, nor before
    /// they are ready.
    pub fn key(&mut self, docked: bool) -> (burst: bool)
        ensures
            burst == (!docked && !bits::less(ZERO, old(self).cooldown)),
            *final(self) == (if burst {
                Ecm { cooldown: ECM_COOLDOWN, flash: ECM_FLASH }
            } else {
                *old(self)
            }),
    {
        if docked || is_less(ZERO, self.cooldown) {
            return false;
        }
        self.cooldown = ECM_COOLDOWN;
        self.flash = ECM_FLASH;
        true
    }
}

/// The hostile missiles among the first `n`.
pub open spec fn incoming(missiles: Seq<Shooter>, n: int) -> Seq<usize>
    decreases n,
{
    if n <= 0 {
        Seq::empty()
    } else if missiles[n - 1] == Shooter::Hostile {
        incoming(missiles, n - 1).push((n - 1) as usize)
    } else {
        incoming(missiles, n - 1)
    }
}

/// The missiles that a burst of counter-measures sets off: every hostile one.
pub fn jammed(missiles: &Vec<Shooter>) -> (r: Vec<usize>)
    ensures
        r@ == incoming(missiles@, missiles@.len() as int),
{
    let mut out: Vec<usize> = Vec::new();
    let mut i: usize = 0;
    while i < missiles.len()
        invariant
            i <= missiles@.len(),
            out@ == incoming(missiles@, i as int),
        decreases missiles@.len() - i,
    {
        if missiles[i] == Shooter::Hostile {
            out.push(i);
        }
        i = i + 1;
    }
    out
}

/// Counter-measures set off every hostile missile, and none of the player's own.
pub proof fn lemma_ecm_spares_the_players_own(missiles: Seq<Shooter>, n: int, i: usize)
    requires
        0 <= n <= missiles.len(),
        missiles.len() <= usize::MAX,
        i < n,
    ensures
        incoming(missiles, n).contains(i) <==> missiles[i as int] == Shooter::Hostile,
    decreases n,
{
    let before = incoming(missiles, n - 1);
    lemma_incoming_below(missiles, n - 1);
    if i < n - 1 {
        lemma_ecm_spares_the_players_own(missiles, n - 1, i);
        if missiles[n - 1] == Shooter::Hostile {
            let after = before.push((n - 1) as usize);
            if before.contains(i) {
                let k = before.index_of(i);
                assert(after[k] == i);
            }
            if after.contains(i) {
                let k = choose|k: int| 0 <= k < after.len() && after[k] == i;
                assert(before[k] == i);
            }
        }
    } else if missiles[n - 1] == Shooter::Hostile {
        assert(before.push((n - 1) as usize)[before.len() as int] == i);
    }
}

proof fn lemma_incoming_below(missiles: Seq<Shooter>, n: int)
    requires
        0 <= n <= missiles.len(),
        missiles.len() <= usize::MAX,
    ensures
        forall|k: int|
            0 <= k < incoming(missiles, n).len() ==> #[trigger] incoming(missiles, n)[k] < n,
    decreases n,
{
    if n > 0 {
        lemma_incoming_below(missiles, n - 1);
        let before = incoming(missiles, n - 1);
        assert forall|k: int| 0 <= k < incoming(missiles, n).len() implies #[trigger] incoming(
            missiles,
            n,
        )[k] < n by {
            if k < before.len() {
                assert(incoming(missiles, n)[k] == before[k]);
            }
        }
    }
}

/// Whether a canister drifts on: while the fight lasts, until its time is up.
pub fn drifts(fighting: bool, ttl: Bits) -> (b: bool)
    ensures
        b == (fighting && !bits::at_most(ttl, ZERO)),
{
    fighting && !is_at_most(ttl, ZERO)
}

/// The canisters among the first `n` that are scooped, each with what is asked of the
/// simulation.
pub open spec fn haul(
    canisters: Seq<(Canister, Bits)>,
    player: PlayerId,
    trader: TraderId,
    n: int,
) -> Seq<(usize, Command)>
    decreases n,
{
    if n <= 0 {
        Seq::empty()
    } else {
        let before = haul(canisters, player, trader, n - 1);
        let c = canisters[n - 1];
        if bits::less(c.1, SCOOP_RADIUS) {
            before.push(
                (
                    (n - 1) as usize,
                    Command::ScoopCargo {
                        player,
                        trader,
                        commodity: c.0.commodity,
                        qty: c.0.qty,
                    },
                ),
            )
        } else {
            before
        }
    }
}

/// The canisters that the player scoops, by the distance of each, and what is asked of the
/// simulation for them. A full hold, or the end of the fight, leaves them drifting.
pub fn scoop(
    fighting: bool,
    room: bool,
    canisters: &Vec<(Canister, Bits)>,
    player: PlayerId,
    trader: TraderId,
) -> (r: Vec<(usize, Command)>)
    ensures
        r@ == (if fighting && room {
            haul(canisters@, player, trader, canisters@.len() as int)
        } else {
            Seq::empty()
        }),
{
    let mut out: Vec<(usize, Command)> = Vec::new();
    if !fighting || !room {
        return out;
    }
    let mut i: usize = 0;
    while i < canisters.len()
        invariant
            i <= canisters@.len(),
            out@ == haul(canisters@, player, trader, i as int),
        decreases canisters@.len() - i,
    {
        if is_less(canisters[i].1, SCOOP_RADIUS) {
            let c = canisters[i].0;
            out.push(
                (i, Command::ScoopCargo { player, trader, commodity: c.commodity, qty: c.qty }),
            );
        }
        i = i + 1;
    }
    out
}

/// What is reported of the first `n` hostiles: the death of each that is down.
pub open spec fn kills(
    hostiles: Seq<(PatrolId, Health)>,
    player: PlayerId,
    trader: TraderId,
    n: int,
) -> Seq<Command>
    decreases n,
{
    if n <= 0 {
        Seq::empty()
    } else {
        let before = kills(hostiles, player, trader, n - 1);
        if hostiles[n - 1].1.spec_alive() {
            before
        } else {
            before.push(
                Command::DestroyedPirate { player, trader, pirate: hostiles[n - 1].0 },
            )
        }
    }
}

/// What is reported to the simulation after a frame: each pirate that is down, then the
/// player, if the player's own ship is. The navy's losses are the simulation's own affair
/// and are not reported.
pub fn reports(
    hostiles: &Vec<(PatrolId, Health)>,
    own: &Health,
    player: PlayerId,
    trader: TraderId,
) -> (r: Vec<Command>)
    ensures
        r@ == (if own.spec_alive() {
            kills(hostiles@, player, trader, hostiles@.len() as int)
        } else {
            kills(hostiles@, player, trader, hostiles@.len() as int).push(
                Command::TraderDestroyed { player, trader },
            )
        }),
{
    let mut out: Vec<Command> = Vec::new();
    let mut i: usize = 0;
    while i < hostiles.len()
        invariant
            i <= hostiles@.len(),
            out@ == kills(hostiles@, player, trader, i as int),
        decreases hostiles@.len() - i,
    {
        if !hostiles[i].1.alive() {
            out.push(Command::DestroyedPirate { player, trader, pirate: hostiles[i].0 });
        }
        i = i + 1;
    }
    if !own.alive() {
        out.push(Command::TraderDestroyed { player, trader });
    }
    out
}

/// Only pirates that are down are reported, so a report never names one that still flies.
pub proof fn lemma_only_the_fallen_are_reported(
    hostiles: Seq<(PatrolId, Health)>,
    player: PlayerId,
    trader: TraderId,
    n: int,
    k: int,
)
    requires
        0 <= n <= hostiles.len(),
        0 <= k < kills(hostiles, player, trader, n).len(),
    ensures
        exists|i: int|
            0 <= i < n && !(#[trigger] hostiles[i]).1.spec_alive() && kills(
                hostiles,
                player,
                trader,
                n,
            )[k] == (Command::DestroyedPirate { player, trader, pirate: hostiles[i].0 }),
    decreases n,
{
    let before = kills(hostiles, player, trader, n - 1);
    if k < before.len() {
        lemma_only_the_fallen_are_reported(hostiles, player, trader, n - 1, k);
        let i = choose|i: int|
            0 <= i < n - 1 && !(#[trigger] hostiles[i]).1.spec_alive() && before[k] == (
            Command::DestroyedPirate { player, trader, pirate: hostiles[i].0 });
        assert(!hostiles[i].1.spec_alive());
    } else {
        assert(!hostiles[n - 1].1.spec_alive());
    }
}

/// Whether a trader is scenery around the player: docked in the same system, and not the
/// player's own.
pub open spec fn is_neighbour(t: TraderView, me: TraderId, sys: SystemId) -> bool {
    t.id != me && t.location == TraderLocation::Docked(sys)
}

/// The traders among the first `n` that are scenery around the player.
pub open spec fn around(traders: Seq<TraderView>, me: TraderId, sys: SystemId, n: int) -> Seq<usize>
    decreases n,
{
    if n <= 0 {
        Seq::empty()
    } else if is_neighbour(traders[n - 1], me, sys) {
        around(traders, me, sys, n - 1).push((n - 1) as usize)
    } else {
        around(traders, me, sys, n - 1)
    }
}

/// The traders that are scenery around the player's ship `me` in a system.
pub fn neighbours(traders: &Vec<Trader>, me: TraderId, sys: SystemId) -> (r: Vec<usize>)
    ensures
        r@ == around(trader::trader_views(traders@), me, sys, traders@.len() as int),
{
    let ghost views = trader::trader_views(traders@);
    let mut out: Vec<usize> = Vec::new();
    let mut i: usize = 0;
    while i < traders.len()
        invariant
            i <= traders@.len(),
            views == trader::trader_views(traders@),
            out@ == around(views, me, sys, i as int),
        decreases traders@.len() - i,
    {
        if traders[i].id != me && traders[i].location == TraderLocation::Docked(sys) {
            out.push(i);
        }
        i = i + 1;
    }
    out
}

/// Whether the injectors burn: in flight, with the key held and fuel left, and with no
/// hostile near.
pub open spec fn burns(fighting: bool, held: bool, fuel: Bits, hostiles: nat) -> bool {
    fighting && held && bits::less(ZERO, fuel) && hostiles == 0
}

/// Whether the injectors burn.
pub fn injectors(fighting: bool, held: bool, fuel: Bits, hostiles: usize) -> (b: bool)
    ensures
        b == burns(fighting, held, fuel, hostiles as nat),
{
    fighting && held && is_less(ZERO, fuel) && hostiles == 0
}

/// What is left in the tank after a frame that would leave `raw`: never less than nothing.
pub fn fuel_left(raw: Bits) -> (f: Bits)
    ensures
        f == bits::larger(raw, ZERO),
{
    larger_of(raw, ZERO)
}

/// The presence of a hostile locks the drive, and so does an empty tank.
pub proof fn lemma_no_fleeing_a_fight(fighting: bool, held: bool, fuel: Bits, hostiles: nat)
    ensures
        hostiles > 0 ==> !burns(fighting, held, fuel, hostiles),
        !bits::less(ZERO, fuel) ==> !burns(fighting, held, fuel, hostiles),
{
}

/// What a wing does at a distance. Upon its target it holds; beyond its band it closes in;
/// in between it circles, ships of even and of odd id in opposite senses. It shoots just
/// when it is ready and its target is nearer than its reach, and has to reload after, else
/// its timer is as it was.
pub proof fn lemma_a_wing_in_action(wing: Wing, id: PatrolId, distance: Bits, timer: Bits)
    requires
        bits::is_number(distance),
        bits::is_number(timer),
    ensures
        ({
            let o = orders(wing, id, distance, timer);
            let reach: Bits = if wing is Hostile {
                0x4062_c000_0000_0000
            } else {
                0x4064_0000_0000_0000
            };
            let band: Bits = if wing is Hostile {
                0x4041_8000_0000_0000
            } else {
                0x4044_0000_0000_0000
            };
            &&& o.course is Hold <==> bits::at_most(distance, 0x3fe0_0000_0000_0000)
            &&& o.course is Close <==> bits::less(band, distance)
            &&& o.course is Circle ==> (o.course->forward <==> id.0 % 2 == 0)
            &&& o.fires <==> bits::at_most(timer, 0) && bits::less(distance, reach)
            &&& !o.fires ==> o.timer == timer
            &&& o.fires ==> bits::less(0, o.timer)
        }),
{
}

/// Pirates go for everyone but pirates. The navy goes for pirates, and for the player
/// alone once wanted; its bolts then count as a hostile's.
pub proof fn lemma_whom_a_wing_hunts(bounty: u32)
    ensures
        Wing::Hostile.spec_hunts(bounty, Struck::Player),
        Wing::Hostile.spec_hunts(bounty, Struck::Navy),
        !Wing::Hostile.spec_hunts(bounty, Struck::Hostile),
        !Wing::Navy.spec_hunts(bounty, Struck::Navy),
        Wing::Navy.spec_hunts(bounty, Struck::Player) <==> nav::standing(bounty).spec_is_wanted(),
        Wing::Navy.spec_hunts(bounty, Struck::Hostile) <==> !nav::standing(bounty).spec_is_wanted(),
        Wing::Hostile.fires_as(bounty) == Shooter::Hostile,
        Wing::Navy.fires_as(bounty) == Shooter::Hostile <==> nav::standing(
            bounty,
        ).spec_is_wanted(),
        Wing::Navy.fires_as(bounty) != Shooter::Player,
{
}

/// The beam reaches from a thousandth of a unit to 130, within its cone.
pub proof fn lemma_what_the_beam_reaches(s: Sight)
    requires
        bits::is_number(s.distance),
        bits::is_number(s.cosine),
    ensures
        in_beam(s) <==> bits::at_most(0x3f50_624d_e000_0000, s.distance) && bits::at_most(
            s.distance,
            0x4060_4000_0000_0000,
        ) && bits::at_most(0x3fef_851e_c000_0000, s.cosine),
{
}

/// Of equally near hostiles the beam hits the first.
pub proof fn lemma_beam_takes_the_first(sights: Seq<Sight>, n: int, i: int)
    requires
        0 <= i < n <= sights.len(),
        forall|k: int| 0 <= k < n ==> bits::is_number((#[trigger] sights[k]).distance),
        in_beam(sights[i]),
        beam_mark(sights, n) is Some,
        i < beam_mark(sights, n)->Some_0,
    ensures
        bits::less(sights[beam_mark(sights, n)->Some_0].distance, sights[i].distance),
    decreases n,
{
    let before = beam_mark(sights, n - 1);
    lemma_beam_takes_the_nearest(sights, n - 1);
    if beam_mark(sights, n) == before {
        lemma_beam_takes_the_first(sights, n - 1, i);
    } else {
        assert(bits::at_most(sights[before->Some_0].distance, sights[i].distance));
        assert(bits::is_number(sights[before->Some_0].distance));
        assert(bits::is_number(sights[n - 1].distance));
        assert(bits::is_number(sights[i].distance));
    }
}

/// The canisters that are scooped are those nearer than eight units, each once and in
/// order, and what is asked of the simulation is what each holds, for the player's ship.
pub proof fn lemma_scoop_takes_what_is_near(
    canisters: Seq<(Canister, Bits)>,
    player: PlayerId,
    trader: TraderId,
    n: int,
)
    requires
        0 <= n <= canisters.len() <= usize::MAX,
    ensures
        forall|k: int|
            0 <= k < haul(canisters, player, trader, n).len() ==> is_scooped(
                canisters,
                player,
                trader,
                n,
                #[trigger] haul(canisters, player, trader, n)[k],
            ),
        forall|i: int|
            0 <= i < n && bits::less((#[trigger] canisters[i]).1, 0x4020_0000_0000_0000)
                ==> exists|k: int|
                0 <= k < haul(canisters, player, trader, n).len() && (#[trigger] haul(
                    canisters,
                    player,
                    trader,
                    n,
                )[k]).0 == i,
        forall|j: int, k: int|
            0 <= j < k < haul(canisters, player, trader, n).len() ==> (#[trigger] haul(
                canisters,
                player,
                trader,
                n,
            )[j]).0 < (#[trigger] haul(canisters, player, trader, n)[k]).0,
    decreases n,
{
    if n > 0 {
        lemma_scoop_takes_what_is_near(canisters, player, trader, n - 1);
        let before = haul(canisters, player, trader, n - 1);
        let after = haul(canisters, player, trader, n);
        assert forall|k: int| 0 <= k < after.len() implies is_scooped(
            canisters,
            player,
            trader,
            n,
            #[trigger] after[k],
        ) by {
            if k < before.len() {
                assert(after[k] == before[k]);
                assert(is_scooped(canisters, player, trader, n - 1, before[k]));
            }
        }
        assert forall|i: int|
            0 <= i < n && bits::less((#[trigger] canisters[i]).1, 0x4020_0000_0000_0000) implies exists|
            k: int,
        |
            0 <= k < after.len() && (#[trigger] after[k]).0 == i by {
            if i < n - 1 {
                let k = choose|k: int| 0 <= k < before.len() && (#[trigger] before[k]).0 == i;
                assert(after[k] == before[k]);
            } else {
                assert(after[after.len() - 1].0 == i);
            }
        }
        assert forall|j: int, k: int| 0 <= j < k < after.len() implies (#[trigger] after[j]).0 < (
        #[trigger] after[k]).0 by {
            if k < before.len() {
                assert(after[j] == before[j] && after[k] == before[k]);
            } else {
                assert(after[j] == before[j]);
                assert(is_scooped(canisters, player, trader, n - 1, before[j]));
            }
        }
    }
}

/// Whether an entry asks for what canister it names holds, that one being near enough.
pub open spec fn is_scooped(
    canisters: Seq<(Canister, Bits)>,
    player: PlayerId,
    trader: TraderId,
    n: int,
    e: (usize, Command),
) -> bool {
    &&& e.0 < n
    &&& bits::less(canisters[e.0 as int].1, 0x4020_0000_0000_0000)
    &&& e.1 == (Command::ScoopCargo {
        player,
        trader,
        commodity: canisters[e.0 as int].0.commodity,
        qty: canisters[e.0 as int].0.qty,
    })
}

/// Every pirate that is down is reported, in the order they stand in, as many reports as
/// there are fallen.
pub proof fn lemma_every_fallen_pirate_is_reported(
    hostiles: Seq<(PatrolId, Health)>,
    player: PlayerId,
    trader: TraderId,
    n: int,
)
    requires
        0 <= n <= hostiles.len(),
    ensures
        kills(hostiles, player, trader, n).len() == hostiles.take(n).filter(
            |h: (PatrolId, Health)| !h.1.spec_alive(),
        ).len(),
        forall|i: int|
            0 <= i < n && !(#[trigger] hostiles[i]).1.spec_alive() ==> kills(
                hostiles,
                player,
                trader,
                n,
            ).contains(Command::DestroyedPirate { player, trader, pirate: hostiles[i].0 }),
    decreases n,
{
    let down = |h: (PatrolId, Health)| !h.1.spec_alive();
    reveal(Seq::filter);
    if n > 0 {
        lemma_every_fallen_pirate_is_reported(hostiles, player, trader, n - 1);
        let before = kills(hostiles, player, trader, n - 1);
        let after = kills(hostiles, player, trader, n);
        assert(hostiles.take(n).drop_last() =~= hostiles.take(n - 1));
        assert(hostiles.take(n).last() == hostiles[n - 1]);
        assert forall|i: int| 0 <= i < n && !(#[trigger] hostiles[i]).1.spec_alive() implies
            after.contains(Command::DestroyedPirate { player, trader, pirate: hostiles[i].0 }) by {
            let c = Command::DestroyedPirate { player, trader, pirate: hostiles[i].0 };
            if i < n - 1 {
                assert(before.contains(c));
                assert(after[before.index_of(c)] == c);
            } else {
                assert(after[after.len() - 1] == c);
            }
        }
    }
}

/// The scenery around the player is the docked traders of the system but the player's own,
/// each once, in order.
pub proof fn lemma_scenery_is_the_docked(
    traders: Seq<TraderView>,
    me: TraderId,
    sys: SystemId,
    n: int,
    i: usize,
)
    requires
        0 <= n <= traders.len() <= usize::MAX,
    ensures
        around(traders, me, sys, n).contains(i) <==> i < n && traders[i as int].id != me
            && traders[i as int].location == TraderLocation::Docked(sys),
        forall|j: int, k: int|
            0 <= j < k < around(traders, me, sys, n).len() ==> #[trigger] around(
                traders,
                me,
                sys,
                n,
            )[j] < #[trigger] around(traders, me, sys, n)[k],
        forall|j: int|
            0 <= j < around(traders, me, sys, n).len() ==> #[trigger] around(
                traders,
                me,
                sys,
                n,
            )[j] < n,
    decreases n,
{
    if n > 0 {
        lemma_scenery_is_the_docked(traders, me, sys, n - 1, i);
        let before = around(traders, me, sys, n - 1);
        let after = around(traders, me, sys, n);
        if before.contains(i) {
            assert(after[before.index_of(i)] == i);
        }
        if after.contains(i) {
            let k = after.index_of(i);
            if k < before.len() {
                assert(before[k] == i);
            }
        }
        if i == n - 1 && is_neighbour(traders[n - 1], me, sys) {
            assert(after[after.len() - 1] == i);
        }
    }
}

/// The injectors burn whenever the key is held in flight, with fuel and no hostile near.
pub proof fn lemma_when_the_injectors_burn(fighting: bool, held: bool, fuel: Bits, hostiles: nat)
    ensures
        burns(fighting, held, fuel, hostiles) ==> fighting && held && hostiles == 0
            && bits::less(0, fuel),
        fighting && held && hostiles == 0 && bits::less(0, fuel) ==> burns(
            fighting,
            held,
            fuel,
            hostiles,
        ),
{
}

/// A bolt strikes a ship just where it may, and passes it nearer than three units; a wing's
/// guns reload for a second, a pirate's a little longer.
pub proof fn lemma_what_a_bolt_strikes(by: Shooter, at: Struck, distance: Bits)
    ensures
        is_hit(by)((at, distance)) <==> cockpit::strikes(by, at) && bits::less(
            distance,
            0x4008_0000_0000_0000,
        ),
        Wing::Navy.reload() == 0x3ff0_0000_0000_0000,
        Wing::Hostile.reload() == 0x3ff2_6666_6000_0000,
{
}

} // verus!
