//! An encounter: a set of combatants across factions, fighting until one side
//! remains.
//!
//! Each tick every live ship targets its nearest enemy, closes, and fires when in
//! range and off cooldown. The decisions are made here; distances, motion, hit
//! odds and damage to shields are reals, and come from the host.

use vstd::prelude::*;

use crate::bits;
use crate::bits::Bits;
use crate::data::{CombatStats, Point};
use crate::ids::ShipId;
use crate::patrol;
use crate::rng::DetRng;
use crate::search;

verus! {

/// A ship in a fight.
#[derive(Debug, Clone, Copy, PartialEq, Eq, Structural)]
pub struct Combatant {
    pub ship: ShipId,
    pub faction: u8,
    pub stats: CombatStats,
    pub hull: i32,
    pub shield: Bits,
    pub max_speed: Bits,
    pub pos: Point,
    pub vel: Point,
    pub cooldown: u32,
    pub alive: bool,
}

impl Combatant {
    /// A fresh ship at rest, shields up.
    pub open spec fn spec_new(
        ship: ShipId,
        faction: u8,
        stats: CombatStats,
        hull: u32,
        max_speed: Bits,
        pos: Point,
    ) -> Combatant {
        Combatant {
            ship,
            faction,
            stats,
            hull: patrol::hull_counter(hull),
            shield: bits::whole(stats.shield as nat),
            max_speed,
            pos,
            vel: Point { x: 0, y: 0 },
            cooldown: 0,
            alive: true,
        }
    }

    /// A fresh ship at rest, shields up.
    pub fn new(
        ship: ShipId,
        faction: u8,
        stats: CombatStats,
        hull: u32,
        max_speed: Bits,
        pos: Point,
    ) -> (c: Combatant)
        ensures
            c == Self::spec_new(ship, faction, stats, hull, max_speed, pos),
    {
        Combatant {
            ship,
            faction,
            stats,
            hull: patrol::to_hull_counter(hull),
            shield: bits::of_whole(stats.shield as u64),
            max_speed,
            pos,
            vel: Point { x: 0, y: 0 },
            cooldown: 0,
            alive: true,
        }
    }

    /// Take a hit: `shield` is what it leaves of the shield, and `through` the damage that
    /// reaches the hull. A ship with no hull left is destroyed.
    pub fn take_damage(&mut self, shield: Bits, through: i32)
        requires
            i32::MIN <= old(self).hull - through <= i32::MAX,
        ensures
            *final(self) == (Combatant {
                shield,
                hull: (old(self).hull - through) as i32,
                alive: old(self).alive && old(self).hull - through > 0,
                ..*old(self)
            }),
    {
        self.shield = shield;
        self.hull = self.hull - through;
        if self.hull <= 0 {
            self.alive = false;
        }
    }
}

/// The result of (a point in) an encounter.
#[derive(Debug, Clone, Copy, PartialEq, Eq, Structural)]
pub enum Outcome {
    /// Two or more factions still have live ships.
    Ongoing,
    /// No ships survive.
    Draw,
    /// Exactly one faction has live ships.
    Victory(u8),
}

/// A battle in progress.
#[derive(Debug, Clone)]
pub struct Encounter {
    pub combatants: Vec<Combatant>,
}

/// Where a ship goes this tick: its velocity and its position after it.
#[derive(Debug, Clone, Copy, PartialEq, Eq, Structural)]
pub struct Motion {
    pub vel: Point,
    pub pos: Point,
}

/// What a ship's guns did.
#[derive(Debug, Clone, Copy, PartialEq, Eq, Structural)]
pub enum Shot {
    /// They did not fire.
    Held,
    /// They fired at a combatant and missed.
    Missed(usize),
    /// They fired at a combatant and hit.
    Hit(usize),
}

/// The live ships.
pub open spec fn alive(ships: Seq<Combatant>) -> Seq<Combatant> {
    ships.filter(|c: Combatant| c.alive)
}

/// The live ships of a faction.
pub open spec fn alive_of(ships: Seq<Combatant>, faction: u8) -> Seq<Combatant> {
    ships.filter(|c: Combatant| c.alive && c.faction == faction)
}

/// Whether some ship of `faction` lives.
pub open spec fn fights(ships: Seq<Combatant>, faction: u8) -> bool {
    exists|i: int|
        0 <= i < ships.len() && (#[trigger] ships[i]).alive && ships[i].faction == faction
}

/// The outcome a set of ships stands at.
pub open spec fn standing(ships: Seq<Combatant>, o: Outcome) -> bool {
    match o {
        Outcome::Draw => forall|f: u8| !#[trigger] fights(ships, f),
        Outcome::Victory(f) => fights(ships, f) && forall|g: u8|
            #[trigger] fights(ships, g) ==> g == f,
        Outcome::Ongoing => exists|f: u8, g: u8|
            f != g && #[trigger] fights(ships, f) && #[trigger] fights(ships, g),
    }
}

/// Whether combatant `j` is a live enemy of combatant `i`.
pub open spec fn is_enemy(ships: Seq<Combatant>, i: int, j: int) -> bool {
    j != i && ships[j].alive && ships[j].faction != ships[i].faction
}

/// Whether `j` is the enemy of `i` to aim at: none is nearer, and none before it is
/// as near.
pub open spec fn is_nearest(
    ships: Seq<Combatant>,
    i: int,
    distances: Seq<Bits>,
    j: int,
) -> bool {
    &&& 0 <= j < ships.len()
    &&& is_enemy(ships, i, j)
    &&& forall|k: int|
        0 <= k < ships.len() && #[trigger] is_enemy(ships, i, k) ==> !bits::less(
            distances[k],
            distances[j],
        ) && (k < j ==> bits::less(distances[j], distances[k]))
}

/// Every distance is a number.
pub open spec fn measured(distances: Seq<Bits>) -> bool {
    forall|k: int| 0 <= k < distances.len() ==> bits::is_number(#[trigger] distances[k])
}

/// The cooldown after a tick has passed.
pub open spec fn cooled(cooldown: u32) -> u32 {
    if cooldown > 0 {
        (cooldown - 1) as u32
    } else {
        0
    }
}

/// Whether a ship fires at an enemy at `distance`: armed, off cooldown, in range.
pub open spec fn may_fire(c: Combatant, distance: Bits) -> bool {
    &&& c.stats.weapon_damage > 0
    &&& cooled(c.cooldown) == 0
    &&& (bits::less(distance, c.stats.weapon_range) || bits::same(
        distance,
        c.stats.weapon_range,
    ))
}

impl Encounter {
    /// Start a battle.
    pub fn new(combatants: Vec<Combatant>) -> (e: Self)
        ensures
            e.combatants@ == combatants@,
    {
        Encounter { combatants }
    }

    /// The ships, in a fixed order.
    pub fn combatants(&self) -> (c: &Vec<Combatant>)
        ensures
            c@ == self.combatants@,
    {
        &self.combatants
    }

    /// How many ships live.
    pub fn alive_count(&self) -> (n: usize)
        ensures
            n == alive(self.combatants@).len(),
    {
        let mut n: usize = 0;
        let mut i: usize = 0;
        let ghost p = |c: Combatant| c.alive;
        assert(self.combatants@.take(0).filter(p).len() == 0) by {
            reveal(Seq::filter);
        }
        while i < self.combatants.len()
            invariant
                i <= self.combatants@.len(),
                n <= i,
                p == (|c: Combatant| c.alive),
                n == self.combatants@.take(i as int).filter(p).len(),
            decreases self.combatants@.len() - i,
        {
            proof {
                reveal(Seq::filter);
                let next = self.combatants@.take(i + 1);
                assert(next.drop_last() =~= self.combatants@.take(i as int));
                assert(next.last() == self.combatants@[i as int]);
            }
            if self.combatants[i].alive {
                n = n + 1;
            }
            i = i + 1;
        }
        assert(self.combatants@.take(i as int) =~= self.combatants@);
        n
    }

    /// How many ships of a faction live.
    pub fn survivors(&self, faction: u8) -> (n: usize)
        ensures
            n == alive_of(self.combatants@, faction).len(),
    {
        let mut n: usize = 0;
        let mut i: usize = 0;
        let ghost p = |c: Combatant| c.alive && c.faction == faction;
        assert(self.combatants@.take(0).filter(p).len() == 0) by {
            reveal(Seq::filter);
        }
        while i < self.combatants.len()
            invariant
                i <= self.combatants@.len(),
                n <= i,
                p == (|c: Combatant| c.alive && c.faction == faction),
                n == self.combatants@.take(i as int).filter(p).len(),
            decreases self.combatants@.len() - i,
        {
            proof {
                reveal(Seq::filter);
                let next = self.combatants@.take(i + 1);
                assert(next.drop_last() =~= self.combatants@.take(i as int));
                assert(next.last() == self.combatants@[i as int]);
            }
            if self.combatants[i].alive && self.combatants[i].faction == faction {
                n = n + 1;
            }
            i = i + 1;
        }
        assert(self.combatants@.take(i as int) =~= self.combatants@);
        n
    }

    /// Nearest living enemy of combatant `i`, by its distance, then the lowest index.
    /// `distances` holds how far each combatant is from `i`.
    pub fn nearest_enemy(&self, i: usize, distances: &Vec<Bits>) -> (r: Option<usize>)
        requires
            i < self.combatants@.len(),
            distances@.len() == self.combatants@.len(),
            measured(distances@),
        ensures
            match r {
                Some(j) => is_nearest(self.combatants@, i as int, distances@, j as int),
                None => forall|j: int|
                    0 <= j < self.combatants@.len() ==> !#[trigger] is_enemy(
                        self.combatants@,
                        i as int,
                        j,
                    ),
            },
    {
        let mut best: Option<usize> = None;
        let mut j: usize = 0;
        while j < self.combatants.len()
            invariant
                j <= self.combatants@.len(),
                i < self.combatants@.len(),
                distances@.len() == self.combatants@.len(),
                measured(distances@),
                match best {
                    Some(b) => {
                        &&& b < j
                        &&& is_enemy(self.combatants@, i as int, b as int)
                        &&& forall|k: int|
                            0 <= k < j && #[trigger] is_enemy(self.combatants@, i as int, k)
                                ==> !bits::less(distances@[k], distances@[b as int]) && (k < b
                                ==> bits::less(distances@[b as int], distances@[k]))
                    },
                    None => forall|k: int|
                        0 <= k < j ==> !#[trigger] is_enemy(self.combatants@, i as int, k),
                },
            decreases self.combatants@.len() - j,
        {
            let enemy = j != i && self.combatants[j].alive && self.combatants[j].faction
                != self.combatants[i].faction;
            if enemy {
                let better = match best {
                    None => true,
                    Some(b) => bits::is_less(distances[j], distances[b]),
                };
                if better {
                    best = Some(j);
                }
            }
            j = j + 1;
        }
        best
    }

    /// Current outcome.
    pub fn outcome(&self) -> (o: Outcome)
        ensures
            standing(self.combatants@, o),
    {
        let mut first: Option<u8> = None;
        let mut i: usize = 0;
        while i < self.combatants.len()
            invariant
                i <= self.combatants@.len(),
                match first {
                    None => forall|k: int| 0 <= k < i ==> !(#[trigger] self.combatants@[k]).alive,
                    Some(f) => fights(self.combatants@, f) && forall|k: int|
                        0 <= k < i && (#[trigger] self.combatants@[k]).alive
                            ==> self.combatants@[k].faction == f,
                },
            decreases self.combatants@.len() - i,
        {
            if self.combatants[i].alive {
                let f = self.combatants[i].faction;
                assert(fights(self.combatants@, f)) by {
                    assert(self.combatants@[i as int].alive);
                }
                match first {
                    None => {
                        first = Some(f);
                    },
                    Some(g) => {
                        if f != g {
                            return Outcome::Ongoing;
                        }
                    },
                }
            }
            i = i + 1;
        }
        match first {
            None => Outcome::Draw,
            Some(f) => Outcome::Victory(f),
        }
    }

    /// Whether a battle that may take `steps` steps goes on after `done`: until then it
    /// stops only once it is decided.
    pub fn goes_on(&self, done: u64, steps: u64) -> (b: bool)
        ensures
            b == (done < steps && standing(self.combatants@, Outcome::Ongoing)),
    {
        let o = self.outcome();
        proof {
            if standing(self.combatants@, Outcome::Ongoing) {
                lemma_one_outcome(self.combatants@, o, Outcome::Ongoing);
            }
        }
        done < steps && o == Outcome::Ongoing
    }

    /// Let ship `i` act for one tick: cool down, move, and fire at its nearest enemy
    /// when it can. `coasting` is its motion with no enemy left, `closing` the one
    /// toward its target, and `odds` the hit probability at the target's distance,
    /// over 2^53. Damage of a hit and shield regeneration are the host's.
    pub fn act(
        &mut self,
        i: usize,
        distances: &Vec<Bits>,
        coasting: Motion,
        closing: Motion,
        odds: u64,
        rng: &mut DetRng,
    ) -> (shot: Shot)
        requires
            i < old(self).combatants@.len(),
            distances@.len() == old(self).combatants@.len(),
            measured(distances@),
        ensures
            final(self).combatants@.len() == old(self).combatants@.len(),
            forall|k: int| #![trigger final(self).combatants@[k]]
                0 <= k < old(self).combatants@.len() && k != i ==> final(self).combatants@[k]
                    == old(self).combatants@[k],
            ({
                let me = old(self).combatants@[i as int];
                let now = final(self).combatants@[i as int];
                let target = |j: int| is_nearest(old(self).combatants@, i as int, distances@, j);
                if !me.alive {
                    &&& now == me
                    &&& shot is Held
                    &&& *final(rng) == *old(rng)
                } else if forall|j: int|
                    0 <= j < old(self).combatants@.len() ==> !#[trigger] is_enemy(
                        old(self).combatants@,
                        i as int,
                        j,
                    ) {
                    &&& now == (Combatant {
                        cooldown: cooled(me.cooldown),
                        vel: coasting.vel,
                        pos: coasting.pos,
                        ..me
                    })
                    &&& shot is Held
                    &&& *final(rng) == *old(rng)
                } else {
                    exists|j: int| #[trigger] target(j) && {
                        let fires = may_fire(me, distances@[j]);
                        &&& now == (Combatant {
                            cooldown: if fires {
                                me.stats.weapon_cooldown
                            } else {
                                cooled(me.cooldown)
                            },
                            vel: closing.vel,
                            pos: closing.pos,
                            ..me
                        })
                        &&& shot == (if !fires {
                            Shot::Held
                        } else if old(rng).spec_unit() < odds {
                            Shot::Hit(j as usize)
                        } else {
                            Shot::Missed(j as usize)
                        })
                        &&& *final(rng) == (if fires {
                            old(rng).after_next()
                        } else {
                            *old(rng)
                        })
                    }
                }
            }),
    {
        let me = self.combatants[i];
        if !me.alive {
            return Shot::Held;
        }
        let cooldown: u32 = if me.cooldown > 0 { me.cooldown - 1 } else { 0 };
        match self.nearest_enemy(i, distances) {
            None => {
                self.combatants.set(
                    i,
                    Combatant { cooldown, vel: coasting.vel, pos: coasting.pos, ..me },
                );
                Shot::Held
            },
            Some(j) => {
                let ghost target = |k: int|
                    is_nearest(old(self).combatants@, i as int, distances@, k);
                assert(target(j as int));
                assert(is_enemy(old(self).combatants@, i as int, j as int));
                let d = distances[j];
                let range = me.stats.weapon_range;
                if me.stats.weapon_damage > 0 && cooldown == 0 && (bits::is_less(d, range)
                    || bits::is_same(d, range)) {
                    let draw = rng.unit();
                    self.combatants.set(
                        i,
                        Combatant {
                            cooldown: me.stats.weapon_cooldown,
                            vel: closing.vel,
                            pos: closing.pos,
                            ..me
                        },
                    );
                    if draw < odds {
                        Shot::Hit(j)
                    } else {
                        Shot::Missed(j)
                    }
                } else {
                    self.combatants.set(
                        i,
                        Combatant { cooldown, vel: closing.vel, pos: closing.pos, ..me },
                    );
                    Shot::Held
                }
            },
        }
    }
}

/// A battle stands at exactly one outcome.
pub proof fn lemma_one_outcome(ships: Seq<Combatant>, a: Outcome, b: Outcome)
    requires
        standing(ships, a),
        standing(ships, b),
    ensures
        a == b,
{
    match (a, b) {
        (Outcome::Ongoing, Outcome::Victory(f)) => {
            let (x, y) = choose|x: u8, y: u8|
                x != y && #[trigger] fights(ships, x) && #[trigger] fights(ships, y);
            assert(x == f && y == f);
        },
        (Outcome::Victory(f), Outcome::Ongoing) => {
            let (x, y) = choose|x: u8, y: u8|
                x != y && #[trigger] fights(ships, x) && #[trigger] fights(ships, y);
            assert(x == f && y == f);
        },
        _ => {},
    }
}

/// A faction with no survivors has not won, and the victor has some.
pub proof fn lemma_victor_survives(ships: Seq<Combatant>, f: u8)
    requires
        standing(ships, Outcome::Victory(f)),
    ensures
        alive_of(ships, f).len() > 0,
        forall|g: u8| g != f ==> (#[trigger] alive_of(ships, g)).len() == 0,
{
    let i = choose|i: int| 0 <= i < ships.len() && (#[trigger] ships[i]).alive && ships[i].faction == f;
    ships.lemma_filter_contains(|c: Combatant| c.alive && c.faction == f, i);
    assert forall|g: u8| g != f implies (#[trigger] alive_of(ships, g)).len() == 0 by {
        let p = |c: Combatant| c.alive && c.faction == g;
        search::lemma_filter_members(ships, p);
        if ships.filter(p).len() > 0 {
            let c = ships.filter(p)[0];
            assert(ships.contains(c));
            let k = ships.index_of(c);
            assert(ships[k].alive && ships[k].faction == g);
            assert(fights(ships, g));
        }
    }
}

/// How many ships of the factions below `n` live, faction by faction.
pub open spec fn survivors_below(ships: Seq<Combatant>, n: int) -> nat
    decreases n,
{
    if n <= 0 {
        0
    } else {
        survivors_below(ships, n - 1) + alive_of(ships, (n - 1) as u8).len()
    }
}

/// The counts of a set of ships, one ship at a time.
proof fn lemma_counts_by_ship(ships: Seq<Combatant>, f: u8)
    requires
        ships.len() > 0,
    ensures
        alive(ships).len() == alive(ships.drop_last()).len() + (if ships.last().alive {
            1nat
        } else {
            0nat
        }),
        alive_of(ships, f).len() == alive_of(ships.drop_last(), f).len() + (if ships.last().alive
            && ships.last().faction == f {
            1nat
        } else {
            0nat
        }),
{
    reveal(Seq::filter);
}

proof fn lemma_survivors_below_by_ship(ships: Seq<Combatant>, n: int)
    requires
        ships.len() > 0,
        0 <= n <= 256,
    ensures
        survivors_below(ships, n) == survivors_below(ships.drop_last(), n) + (if ships.last().alive
            && ships.last().faction < n {
            1nat
        } else {
            0nat
        }),
    decreases n,
{
    if n > 0 {
        lemma_survivors_below_by_ship(ships, n - 1);
        lemma_counts_by_ship(ships, (n - 1) as u8);
    }
}

proof fn lemma_nobody_survives_of_none(n: int)
    ensures
        survivors_below(Seq::empty(), n) == 0,
    decreases n,
{
    if n > 0 {
        lemma_nobody_survives_of_none(n - 1);
        reveal(Seq::filter);
    }
}

/// The survivors of all factions together are the ships that live.
pub proof fn lemma_survivors_add_up(ships: Seq<Combatant>)
    ensures
        alive(ships).len() == survivors_below(ships, 256),
    decreases ships.len(),
{
    if ships.len() == 0 {
        reveal(Seq::filter);
        assert(ships =~= Seq::empty());
        lemma_nobody_survives_of_none(256);
    } else {
        lemma_survivors_add_up(ships.drop_last());
        lemma_counts_by_ship(ships, 0);
        lemma_survivors_below_by_ship(ships, 256);
    }
}

/// A faction's survivors are some of the ships that live, and all of them just where every
/// one is the faction's; they are none just where the faction does not fight.
proof fn lemma_share_of_survivors(ships: Seq<Combatant>, f: u8)
    ensures
        alive_of(ships, f).len() <= alive(ships).len(),
        alive_of(ships, f).len() == alive(ships).len() <==> forall|i: int|
            0 <= i < ships.len() && (#[trigger] ships[i]).alive ==> ships[i].faction == f,
        alive_of(ships, f).len() == 0 <==> !fights(ships, f),
        alive(ships).len() == 0 <==> forall|i: int|
            0 <= i < ships.len() ==> !(#[trigger] ships[i]).alive,
    decreases ships.len(),
{
    if ships.len() == 0 {
        reveal(Seq::filter);
    } else {
        let init = ships.drop_last();
        lemma_share_of_survivors(init, f);
        lemma_counts_by_ship(ships, f);
        assert(forall|i: int| 0 <= i < init.len() ==> #[trigger] init[i] == ships[i]);
        assert(ships[ships.len() - 1] == ships.last());
        assert forall|i: int| 0 <= i < init.len() implies init[i] == #[trigger] ships[i] by {}
        if fights(init, f) {
            let k = choose|k: int|
                0 <= k < init.len() && (#[trigger] init[k]).alive && init[k].faction == f;
            assert(ships[k].alive && ships[k].faction == f);
        }
        if fights(ships, f) {
            let k = choose|k: int|
                0 <= k < ships.len() && (#[trigger] ships[k]).alive && ships[k].faction == f;
            if k < init.len() {
                assert(init[k].alive && init[k].faction == f);
            }
        }
    }
}

/// The counts decide the outcome: a battle is a draw just where no ship lives, and a
/// faction has won just where it has survivors and they are all the ships that live.
pub proof fn lemma_outcome_by_count(ships: Seq<Combatant>)
    ensures
        standing(ships, Outcome::Draw) <==> alive(ships).len() == 0,
        forall|f: u8|
            standing(ships, Outcome::Victory(f)) <==> 0 < (#[trigger] alive_of(ships, f)).len()
                && alive_of(ships, f).len() == alive(ships).len(),
{
    lemma_share_of_survivors(ships, 0);
    if standing(ships, Outcome::Draw) {
        assert forall|i: int| 0 <= i < ships.len() implies !(#[trigger] ships[i]).alive by {
            assert(!fights(ships, ships[i].faction));
        }
    }
    assert forall|f: u8|
        standing(ships, Outcome::Victory(f)) <==> 0 < (#[trigger] alive_of(ships, f)).len()
            && alive_of(ships, f).len() == alive(ships).len() by {
        lemma_share_of_survivors(ships, f);
        if standing(ships, Outcome::Victory(f)) {
            assert forall|i: int|
                0 <= i < ships.len() && (#[trigger] ships[i]).alive implies ships[i].faction == f by {
                assert(fights(ships, ships[i].faction));
            }
        }
    }
}

/// The ships and the draws after at most `n` steps of a battle: it stops early once it is
/// decided. What a step does is `step`.
pub open spec fn advanced(
    state: (Seq<Combatant>, DetRng),
    step: spec_fn((Seq<Combatant>, DetRng)) -> (Seq<Combatant>, DetRng),
    n: int,
) -> (Seq<Combatant>, DetRng)
    decreases n,
{
    if n <= 0 || !standing(state.0, Outcome::Ongoing) {
        state
    } else {
        advanced(step(state), step, n - 1)
    }
}

/// A battle may be spread over several calls: advancing by `a` steps and then by `b` more
/// is advancing by `a + b`, whatever a step does.
pub proof fn lemma_battle_in_parts(
    state: (Seq<Combatant>, DetRng),
    step: spec_fn((Seq<Combatant>, DetRng)) -> (Seq<Combatant>, DetRng),
    a: int,
    b: int,
)
    requires
        0 <= a,
        0 <= b,
    ensures
        advanced(advanced(state, step, a), step, b) == advanced(state, step, a + b),
    decreases a,
{
    if a > 0 && standing(state.0, Outcome::Ongoing) {
        lemma_battle_in_parts(step(state), step, a - 1, b);
    }
}

/// A gun cools by one each tick, down to ready.
pub proof fn lemma_guns_cool(cooldown: u32)
    ensures
        cooldown > 0 ==> cooled(cooldown) + 1 == cooldown,
        cooldown == 0 ==> cooled(cooldown) == 0,
{
}

/// A ship fires at its enemy just where it is armed, its gun is ready after this tick's
/// cooling, and the enemy is no farther off than its range.
pub proof fn lemma_when_guns_fire(c: Combatant, distance: Bits)
    requires
        bits::is_number(distance),
        bits::is_number(c.stats.weapon_range),
    ensures
        c.stats.weapon_damage == 0 ==> !may_fire(c, distance),
        c.cooldown > 1 ==> !may_fire(c, distance),
        bits::less(c.stats.weapon_range, distance) ==> !may_fire(c, distance),
        c.stats.weapon_damage > 0 && c.cooldown <= 1 && !bits::less(c.stats.weapon_range, distance)
            ==> may_fire(c, distance),
{
}

/// A fresh ship has all its hull and shield, is at rest, is ready to fire and lives.
pub proof fn lemma_fresh_combatant(
    ship: ShipId,
    faction: u8,
    stats: CombatStats,
    hull: u32,
    max_speed: Bits,
    pos: Point,
)
    ensures
        ({
            let c = Combatant::spec_new(ship, faction, stats, hull, max_speed, pos);
            &&& c.ship == ship && c.faction == faction && c.stats == stats
            &&& c.max_speed == max_speed && c.pos == pos
            &&& hull <= i32::MAX ==> c.hull == hull
            &&& c.shield == bits::whole(stats.shield as nat)
            &&& c.vel.x == 0 && c.vel.y == 0
            &&& c.cooldown == 0
            &&& c.alive
        }),
{
}

/// A ship aims at a live ship of another faction than its own; no other such ship is
/// nearer, and of those as near it takes the first.
pub proof fn lemma_aim_is_at_the_nearest(
    ships: Seq<Combatant>,
    i: int,
    distances: Seq<Bits>,
    j: int,
    k: int,
)
    requires
        0 <= i < ships.len(),
        0 <= k < ships.len(),
        distances.len() == ships.len(),
        measured(distances),
        is_nearest(ships, i, distances, j),
    ensures
        0 <= j < ships.len(),
        ships[j].alive,
        ships[j].faction != ships[i].faction,
        ships[k].alive && ships[k].faction != ships[i].faction ==> bits::less(
            distances[j],
            distances[k],
        ) || (bits::same(distances[j], distances[k]) && j <= k),
{
    if ships[k].alive && ships[k].faction != ships[i].faction {
        assert(is_enemy(ships, i, k));
        assert(bits::is_number(distances[j]) && bits::is_number(distances[k]));
    }
}

/// The outcome of a battle, by its ships: a draw just where none lives; a victory of the
/// faction that a live ship is of, just where every other live ship is of it too; and
/// otherwise it goes on.
pub proof fn lemma_outcome_by_ships(ships: Seq<Combatant>, o: Outcome)
    requires
        standing(ships, o),
    ensures
        match o {
            Outcome::Draw => forall|i: int| 0 <= i < ships.len() ==> !(#[trigger] ships[i]).alive,
            Outcome::Victory(f) => {
                &&& exists|i: int| 0 <= i < ships.len() && (#[trigger] ships[i]).alive
                &&& forall|i: int|
                    0 <= i < ships.len() && (#[trigger] ships[i]).alive ==> ships[i].faction == f
            },
            Outcome::Ongoing => exists|i: int, j: int|
                0 <= i < ships.len() && 0 <= j < ships.len() && (#[trigger] ships[i]).alive
                    && (#[trigger] ships[j]).alive && ships[i].faction != ships[j].faction,
        },
{
    assert forall|i: int| 0 <= i < ships.len() && (#[trigger] ships[i]).alive implies fights(
        ships,
        ships[i].faction,
    ) by {}
    if let Outcome::Ongoing = o {
        let (f, g) = choose|f: u8, g: u8|
            f != g && #[trigger] fights(ships, f) && #[trigger] fights(ships, g);
        let i = choose|i: int|
            0 <= i < ships.len() && (#[trigger] ships[i]).alive && ships[i].faction == f;
        let j = choose|j: int|
            0 <= j < ships.len() && (#[trigger] ships[j]).alive && ships[j].faction == g;
        assert(ships[i].alive && ships[j].alive);
    }
}

/// A battle that goes on takes a step at a time; a decided one takes none.
pub proof fn lemma_battle_takes_steps(
    state: (Seq<Combatant>, DetRng),
    step: spec_fn((Seq<Combatant>, DetRng)) -> (Seq<Combatant>, DetRng),
    n: int,
)
    requires
        0 <= n,
    ensures
        advanced(state, step, 0) == state,
        standing(state.0, Outcome::Ongoing) ==> advanced(state, step, 1) == step(state),
        !standing(state.0, Outcome::Ongoing) ==> advanced(state, step, n) == state,
{
    reveal_with_fuel(advanced, 2);
}

} // verus!
