//! What a pilot's controls do, and what the cockpit shows.
//!
//! Flight, gunnery and drawing are the host's; the decisions that a key press leads to
//! are made here, from plain values.

use vstd::prelude::*;
use vstd::string::StringExecFns;

use crate::client;
use crate::client::GoodRow;
use crate::command::Command;
use crate::console;
use crate::console::label_system;
use crate::ids::{CommodityId, Money, PatrolId, PlayerId, Quantity, SystemId, TraderId};
use crate::nav;
use crate::patrol::{Patrol, PatrolLocation};
use crate::registry::Registry;
use crate::search;
use crate::targeting;
use crate::targeting::cycle;
use crate::text;
use crate::text::{i64_text, push_i64, push_left, push_right, push_u128, push_u64, u64_text};
use crate::trader::{Trader, TraderLocation};
use crate::world::commands;

verus! {

/// The most units the trade control asks for.
pub const MAX_TRADE: Quantity = 50;

/// The jumps that the number keys reach.
pub const JUMP_KEYS: usize = 9;

/// Missiles aboard after docking.
pub const FULL_RACK: u32 = 4;

/// Bounty added for each shot of the player's that strikes the navy.
pub const CRIME_PER_HIT: u32 = 6;

/// How many weapons the player can choose from.
pub const WEAPON_COUNT: usize = 4;

/// Cockpit interaction state.
#[derive(Debug, Clone, Copy, PartialEq, Eq, Structural)]
pub struct Cockpit {
    /// Whether the player is docked at the station.
    pub docked: bool,
    /// The line of the market that is selected.
    pub cursor: usize,
    /// The units a trade asks for.
    pub qty: Quantity,
    /// Missiles in the rack.
    pub missiles: u32,
    /// The selected weapon.
    pub weapon: usize,
}

/// What the dock key did.
#[derive(Debug, Clone, Copy, PartialEq, Eq, Structural)]
pub enum DockStep {
    /// Too far from the station.
    Nothing,
    Undocked,
    /// Stopped at the station; the host refuels the ship.
    Docked,
}

/// The browsing keys of the market that were pressed.
#[derive(Debug, Clone, Copy, PartialEq, Eq, Structural)]
pub struct Browse {
    pub up: bool,
    pub down: bool,
    pub fewer: bool,
    pub more: bool,
}

impl Cockpit {
    /// The cursor after browsing `goods` lines: one line up, one down, never off the
    /// list at its end.
    pub open spec fn moved(self, keys: Browse, goods: usize) -> int {
        let up = if keys.up && self.cursor > 0 {
            self.cursor - 1
        } else {
            self.cursor as int
        };
        if keys.down {
            if up + 1 < goods {
                up + 1
            } else {
                goods - 1
            }
        } else {
            up
        }
    }

    /// The trade quantity after browsing: one fewer, but one at least; one more, but
    /// [`MAX_TRADE`] at most.
    pub open spec fn amount(self, keys: Browse) -> int {
        let fewer = if keys.fewer {
            if self.qty > 2 {
                self.qty - 1
            } else {
                1
            }
        } else {
            self.qty as int
        };
        if keys.more {
            if fewer < MAX_TRADE {
                fewer + 1
            } else {
                MAX_TRADE as int
            }
        } else {
            fewer
        }
    }

    /// The cockpit at the start.
    pub fn new() -> (c: Self)
        ensures
            c == (Cockpit { docked: false, cursor: 0, qty: 5, missiles: FULL_RACK, weapon: 0 }),
    {
        Cockpit { docked: false, cursor: 0, qty: 5, missiles: FULL_RACK, weapon: 0 }
    }

    /// The dock key: leave the station, or dock if it is in range, which also refills
    /// the missile rack.
    pub fn dock_key(&mut self, in_range: bool) -> (step: DockStep)
        ensures
            step == (if old(self).docked {
                DockStep::Undocked
            } else if in_range {
                DockStep::Docked
            } else {
                DockStep::Nothing
            }),
            *final(self) == (match step {
                DockStep::Undocked => Cockpit { docked: false, ..*old(self) },
                DockStep::Docked => Cockpit { docked: true, missiles: FULL_RACK, ..*old(self) },
                DockStep::Nothing => *old(self),
            }),
    {
        if self.docked {
            self.docked = false;
            DockStep::Undocked
        } else if in_range {
            self.docked = true;
            self.missiles = FULL_RACK;
            DockStep::Docked
        } else {
            DockStep::Nothing
        }
    }

    /// Browse the market of a station where `goods` goods are traded. Nothing happens
    /// in flight, or where nothing is traded.
    pub fn browse(&mut self, keys: Browse, goods: usize)
        ensures
            *final(self) == (if old(self).docked && goods > 0 {
                Cockpit {
                    cursor: old(self).moved(keys, goods) as usize,
                    qty: old(self).amount(keys) as u32,
                    ..*old(self)
                }
            } else {
                *old(self)
            }),
    {
        if !self.docked || goods == 0 {
            return;
        }
        if keys.up && self.cursor > 0 {
            self.cursor = self.cursor - 1;
        }
        if keys.down {
            if self.cursor < goods - 1 {
                self.cursor = self.cursor + 1;
            } else {
                self.cursor = goods - 1;
            }
        }
        if keys.fewer {
            if self.qty > 2 {
                self.qty = self.qty - 1;
            } else {
                self.qty = 1;
            }
        }
        if keys.more {
            if self.qty < MAX_TRADE {
                self.qty = self.qty + 1;
            } else {
                self.qty = MAX_TRADE;
            }
        }
    }

    /// What the buy and sell keys queue: a trade in the selected good, where the cursor
    /// stands on one.
    pub fn trade(&self, rows: &Vec<GoodRow>, player: PlayerId, id: TraderId, buy: bool) -> (r: Option<
        Command,
    >)
        ensures
            r == (if self.docked && self.cursor < rows@.len() {
                let commodity = rows@[self.cursor as int].commodity;
                if buy {
                    Some(Command::Buy { player, trader: id, commodity, qty: self.qty })
                } else {
                    Some(Command::Sell { player, trader: id, commodity, qty: self.qty })
                }
            } else {
                None
            }),
    {
        if !self.docked || self.cursor >= rows.len() {
            return None;
        }
        let commodity = rows[self.cursor].commodity;
        if buy {
            Some(Command::Buy { player, trader: id, commodity, qty: self.qty })
        } else {
            Some(Command::Sell { player, trader: id, commodity, qty: self.qty })
        }
    }

    /// The weapon key: the next weapon, around the list, unless docked.
    pub fn weapon_key(&mut self)
        requires
            old(self).weapon < WEAPON_COUNT,
        ensures
            *final(self) == (if old(self).docked {
                *old(self)
            } else {
                Cockpit { weapon: ((old(self).weapon + 1) % 4) as usize, ..*old(self) }
            }),
            final(self).weapon < WEAPON_COUNT,
    {
        if !self.docked {
            self.weapon = (self.weapon + 1) % WEAPON_COUNT;
        }
    }

    /// The missile key: whether a missile leaves the rack. It takes a lock, a missile
    /// and a launcher that is ready.
    pub fn missile_key(&mut self, locked: bool, ready: bool) -> (fired: bool)
        ensures
            fired == (!old(self).docked && locked && ready && old(self).missiles > 0),
            *final(self) == (if fired {
                Cockpit { missiles: (old(self).missiles - 1) as u32, ..*old(self) }
            } else {
                *old(self)
            }),
    {
        if self.docked || !locked || !ready || self.missiles == 0 {
            return false;
        }
        self.missiles = self.missiles - 1;
        true
    }

    /// The jump key `digit`, counted from 1: the destination it stands for among the
    /// links of the system where the ship is. Nothing while docked or between systems.
    pub fn jump_key(&self, reg: &Registry, system: Option<SystemId>, digit: usize) -> (r: Option<
        SystemId,
    >)
        requires
            system is Some ==> system->Some_0.0 < reg.spec_systems().len(),
        ensures
            r == (if self.docked || system is None || !(1 <= digit <= JUMP_KEYS) {
                None
            } else {
                let links = reg.spec_systems()[system->Some_0.0 as int].connections@;
                if digit <= links.len() {
                    Some(links[digit - 1])
                } else {
                    None
                }
            }),
    {
        if self.docked || digit < 1 || digit > JUMP_KEYS {
            return None;
        }
        match system {
            None => None,
            Some(s) => {
                let links = &reg.system(s).connections;
                if digit <= links.len() {
                    Some(links[digit - 1])
                } else {
                    None
                }
            },
        }
    }
}

/// The system where the player's ship is, none while it is between systems.
pub open spec fn berth(loc: TraderLocation) -> Option<SystemId> {
    match loc {
        TraderLocation::Docked(s) => Some(s),
        _ => None,
    }
}

/// The system where the player's ship is, none while it is between systems.
pub fn berth_of(t: &Trader) -> (r: Option<SystemId>)
    ensures
        r == berth(t.location),
{
    match t.location {
        TraderLocation::Docked(s) => Some(s),
        _ => None,
    }
}

/// What becomes of the ships around the player.
#[derive(Debug, Clone, Copy, PartialEq, Eq, Structural)]
pub enum Scenery {
    /// They stay as they are.
    Keep,
    /// They leave: the player is between systems.
    Clear,
    /// They are set up anew for the system the player has come to.
    Rebuild(SystemId),
}

/// What becomes of the ships around the player, who was last seen at `shown`.
pub open spec fn scenery(shown: Option<SystemId>, here: Option<SystemId>) -> Scenery {
    match here {
        None => Scenery::Clear,
        Some(s) => if shown == Some(s) {
            Scenery::Keep
        } else {
            Scenery::Rebuild(s)
        },
    }
}

/// Whether the player has come to a system other than the one last rendered, in which
/// case the ship is put back at its entry point and the sky is drawn anew. In flight the
/// last system stays rendered.
pub fn arrived(rendered: &mut Option<SystemId>, here: Option<SystemId>) -> (reset: bool)
    ensures
        reset == (here is Some && here != *old(rendered)),
        *final(rendered) == (if reset {
            here
        } else {
            *old(rendered)
        }),
{
    match here {
        None => false,
        Some(s) => {
            let same = match *rendered {
                Some(t) => t == s,
                None => false,
            };
            if same {
                false
            } else {
                *rendered = Some(s);
                true
            }
        },
    }
}

/// Follow the player: what becomes of the ships around, and what is shown from then on.
pub fn follow(shown: &mut Option<SystemId>, here: Option<SystemId>) -> (r: Scenery)
    ensures
        r == scenery(*old(shown), here),
        *final(shown) == here,
{
    match here {
        None => {
            *shown = None;
            Scenery::Clear
        },
        Some(s) => {
            let same = match *shown {
                Some(t) => t == s,
                None => false,
            };
            if same {
                Scenery::Keep
            } else {
                *shown = Some(s);
                Scenery::Rebuild(s)
            }
        },
    }
}

/// The patrols docked at a system, in the order of the fleet.
pub open spec fn present(fleet: Seq<Patrol>, s: SystemId) -> Seq<Patrol> {
    fleet.filter(|p: Patrol| p.location == PatrolLocation::Docked(s))
}

/// The patrols docked at a system: those that the player meets there.
pub fn patrols_at(fleet: &Vec<Patrol>, s: SystemId) -> (r: Vec<Patrol>)
    ensures
        r@ == present(fleet@, s),
{
    let ghost p = |p: Patrol| p.location == PatrolLocation::Docked(s);
    let mut out: Vec<Patrol> = Vec::new();
    let mut i: usize = 0;
    proof {
        search::lemma_filter_none(fleet@, p);
    }
    while i < fleet.len()
        invariant
            i <= fleet@.len(),
            p == (|p: Patrol| p.location == PatrolLocation::Docked(s)),
            out@ == fleet@.take(i as int).filter(p),
        decreases fleet@.len() - i,
    {
        proof {
            search::lemma_filter_step(fleet@, p, i as int);
        }
        if fleet[i].location == PatrolLocation::Docked(s) {
            out.push(fleet[i]);
        }
        i = i + 1;
    }
    assert(fleet@.take(i as int) =~= fleet@);
    out
}

/// Whose bolt it is.
#[derive(Debug, Clone, Copy, PartialEq, Eq, Structural)]
pub enum Shooter {
    Player,
    /// A pirate, or the navy firing on a wanted player.
    Hostile,
    Navy,
}

/// Who a bolt may strike.
#[derive(Debug, Clone, Copy, PartialEq, Eq, Structural)]
pub enum Struck {
    Player,
    Hostile,
    Navy,
}

/// Whether a bolt damages what it meets: the player's strikes pirates and the navy, a
/// hostile one everything but pirates, the navy's pirates only.
pub open spec fn strikes(by: Shooter, at: Struck) -> bool {
    match by {
        Shooter::Player => at != Struck::Player,
        Shooter::Hostile => at != Struck::Hostile,
        Shooter::Navy => at == Struck::Hostile,
    }
}

/// Whether a bolt damages what it meets.
pub fn bolt_strikes(by: Shooter, at: Struck) -> (b: bool)
    ensures
        b == strikes(by, at),
{
    match by {
        Shooter::Player => at != Struck::Player,
        Shooter::Hostile => at != Struck::Hostile,
        Shooter::Navy => at == Struck::Hostile,
    }
}

/// The bounty on the player after a bolt struck: hitting the navy is a crime.
pub fn bounty_after(bounty: u32, by: Shooter, at: Struck) -> (b: u32)
    requires
        bounty <= u32::MAX - CRIME_PER_HIT,
    ensures
        b == (if by == Shooter::Player && at == Struck::Navy {
            (bounty + CRIME_PER_HIT) as u32
        } else {
            bounty
        }),
{
    if by == Shooter::Player && at == Struck::Navy {
        bounty + CRIME_PER_HIT
    } else {
        bounty
    }
}

/// On whom the navy fires, and as whose its bolts count: a wanted player, or the
/// pirates.
pub fn navy_stance(bounty: u32) -> (r: (Struck, Shooter))
    ensures
        r == (if nav::standing(bounty).spec_is_wanted() {
            (Struck::Player, Shooter::Hostile)
        } else {
            (Struck::Hostile, Shooter::Navy)
        }),
{
    if nav::legal_status(bounty).is_wanted() {
        (Struck::Player, Shooter::Hostile)
    } else {
        (Struck::Hostile, Shooter::Navy)
    }
}

/// The navy's bolts always strike those on whom it fires, so a wanted player is hit and
/// a clean one is safe from them.
pub proof fn lemma_navy_hits_its_prey(bounty: u32)
    ensures
        nav::standing(bounty).spec_is_wanted() ==> strikes(Shooter::Hostile, Struck::Player),
        !nav::standing(bounty).spec_is_wanted() ==> strikes(Shooter::Navy, Struck::Hostile)
            && !strikes(Shooter::Navy, Struck::Player),
{
}

/// A cargo canister adrift.
#[derive(Debug, Clone, Copy, PartialEq, Eq, Structural)]
pub struct Canister {
    pub commodity: CommodityId,
    pub qty: Quantity,
    /// What the host scatters the canister by.
    pub seed: u64,
}

/// Canister `k` of what a destroyed pirate spills, where `goods` goods exist.
pub open spec fn canister(id: PatrolId, k: int, goods: int) -> Canister {
    let seed = (id.0 + 7 * k) % 0x1_0000_0000_0000_0000;
    let n = if goods > 0 {
        goods
    } else {
        1
    };
    Canister {
        commodity: CommodityId((seed % n) as u32),
        qty: (1 + seed % 3) as u32,
        seed: seed as u64,
    }
}

/// What a destroyed pirate spills: a canister or two. It follows from the pirate's id
/// alone, so a fixed seed replays identically.
pub fn loot(id: PatrolId, goods: usize) -> (r: Vec<Canister>)
    requires
        goods <= u32::MAX,
    ensures
        r@.len() == 1 + id.0 % 2,
        forall|k: int|
            0 <= k < r@.len() ==> #[trigger] r@[k] == canister(id, k, goods as int),
{
    let n: u64 = if goods > 0 {
        goods as u64
    } else {
        1
    };
    let drops: u64 = 1 + id.0 % 2;
    let mut out: Vec<Canister> = Vec::new();
    let mut k: u64 = 0;
    while k < drops
        invariant
            k <= drops,
            drops == 1 + id.0 % 2,
            n == (if goods > 0 {
                goods as int
            } else {
                1
            }),
            n <= u32::MAX,
            n > 0,
            out@.len() == k,
            forall|j: int|
                0 <= j < k ==> #[trigger] out@[j] == canister(id, j, goods as int),
        decreases drops - k,
    {
        let seed = id.0.wrapping_add(k * 7);
        assert(seed as int == (id.0 + 7 * k) % 0x1_0000_0000_0000_0000);
        out.push(
            Canister {
                commodity: CommodityId((seed % n) as u32),
                qty: (1 + seed % 3) as u32,
                seed,
            },
        );
        k = k + 1;
    }
    out
}

/// Every canister holds one to three units of a good that exists.
pub proof fn lemma_loot_is_real(id: PatrolId, k: int, goods: int)
    requires
        0 < goods <= u32::MAX,
    ensures
        canister(id, k, goods).commodity.0 < goods,
        1 <= canister(id, k, goods).qty <= 3,
{
    let seed = (id.0 + 7 * k) % 0x1_0000_0000_0000_0000;
    assert(0 <= seed % goods < goods) by (nonlinear_arith)
        requires
            goods > 0,
    ;
}

/// Whether a ship has room for more cargo.
pub fn has_room(reg: &Registry, t: &Trader) -> (b: bool)
    requires
        reg.wf(),
        t.ship.0 < reg.spec_ships().len(),
    ensures
        b == (commands::hold_mass(*reg, t@.cargo) < reg.spec_ships()[t.ship.0 as int].cargo_capacity),
{
    commands::hold_used(reg, &t.cargo) < reg.ship(t.ship).cargo_capacity as u128
}

/// Whether a list is ordered by distance, and equally distant contacts by their place.
pub open spec fn outward(order: Seq<usize>, distances: Seq<u32>) -> bool {
    forall|i: int, j: int|
        #![trigger order[i], order[j]]
        0 <= i < j < order.len() ==> {
            let a = targeting::place(distances[order[i] as int]);
            let b = targeting::place(distances[order[j] as int]);
            a < b || (a == b && order[i] < order[j])
        }
}

/// Whether a list names each of the first `n` contacts once.
pub open spec fn names_each(order: Seq<usize>, n: int) -> bool {
    &&& order.len() == n
    &&& forall|i: int| 0 <= i < order.len() ==> (#[trigger] order[i]) < n
    &&& forall|c: usize| c < n ==> #[trigger] order.contains(c)
}

/// The contacts from the nearest outward, by the patterns of the squared distances.
pub fn by_distance(distances: &Vec<u32>) -> (order: Vec<usize>)
    ensures
        names_each(order@, distances@.len() as int),
        outward(order@, distances@),
{
    let mut order: Vec<usize> = Vec::new();
    let n = distances.len();
    let mut c: usize = 0;
    while c < n
        invariant
            c <= n,
            n == distances@.len(),
            names_each(order@, c as int),
            outward(order@, distances@),
        decreases n - c,
    {
        let ghost before = order@;
        let mut k: usize = order.len();
        while k > 0 && targeting::place_of(distances[c]) < targeting::place_of(
            distances[order[k - 1]],
        )
            invariant
                k <= order@.len(),
                c < n,
                n == distances@.len(),
                order@ == before,
                names_each(order@, c as int),
                forall|j: int|
                    k <= j < order@.len() ==> targeting::place(distances@[c as int])
                        < targeting::place(distances@[(#[trigger] order@[j]) as int]),
            decreases k,
        {
            k = k - 1;
        }
        order.insert(k, c);
        proof {
            assert(order@ == before.insert(k as int, c));
            assert forall|x: usize| x < c + 1 implies #[trigger] order@.contains(x) by {
                if x == c {
                    assert(order@[k as int] == c);
                } else {
                    assert(before.contains(x));
                    let i = before.index_of(x);
                    if i < k {
                        assert(order@[i] == x);
                    } else {
                        assert(order@[i + 1] == x);
                    }
                }
            }
            assert(outward(order@, distances@)) by {
                assert forall|i: int, j: int|
                    #![trigger order@[i], order@[j]]
                    0 <= i < j < order@.len() implies {
                    let a = targeting::place(distances@[order@[i] as int]);
                    let b = targeting::place(distances@[order@[j] as int]);
                    a < b || (a == b && order@[i] < order@[j])
                } by {
                    let bi = if i < k {
                        i
                    } else {
                        i - 1
                    };
                    let bj = if j < k {
                        j
                    } else {
                        j - 1
                    };
                    if i != k && j != k {
                        assert(order@[i] == before[bi] && order@[j] == before[bj]);
                    } else if i == k {
                        assert(order@[j] == before[bj]);
                    } else {
                        assert(order@[i] == before[i]);
                        if k > 0 {
                            assert(before[k - 1] < c);
                            assert(before[i] < c);
                        }
                    }
                }
            }
        }
        c = c + 1;
    }
    order
}

/// Being the contact `e`.
pub open spec fn is_contact(e: u64) -> spec_fn(u64) -> bool {
    |x: u64| x == e
}

/// Where a contact stands in the list.
pub open spec fn slot(contacts: Seq<u64>, e: u64) -> Option<int> {
    search::first(contacts, is_contact(e))
}

/// The lock after the keys: cleared, then moved on to the next contact (the nearest where
/// nothing was locked), then dropped if its target is gone.
pub open spec fn locked_after(
    locked: Option<u64>,
    contacts: Seq<u64>,
    clear: bool,
    next: bool,
) -> Option<u64> {
    let kept = if clear || locked is None || slot(contacts, locked->Some_0) is None {
        None
    } else {
        locked
    };
    if next {
        if contacts.len() == 0 {
            None
        } else if kept is None {
            Some(contacts[0])
        } else {
            Some(contacts[(slot(contacts, kept->Some_0)->Some_0 + 1) % (contacts.len() as int)])
        }
    } else {
        kept
    }
}

/// Where a contact stands in the list.
fn find_contact(contacts: &Vec<u64>, e: u64) -> (r: Option<usize>)
    ensures
        match r {
            Some(i) => i < contacts@.len() && slot(contacts@, e) == Some(i as int),
            None => slot(contacts@, e) is None,
        },
{
    let ghost p = is_contact(e);
    let mut i: usize = 0;
    while i < contacts.len()
        invariant
            i <= contacts@.len(),
            p == is_contact(e),
            forall|j: int| 0 <= j < i ==> !p(#[trigger] contacts@[j]),
        decreases contacts@.len() - i,
    {
        if contacts[i] == e {
            proof {
                search::lemma_first_is(contacts@, p, i as int);
            }
            return Some(i);
        }
        i = i + 1;
    }
    proof {
        search::lemma_first_none(contacts@, p);
    }
    None
}

/// The target lock, given the contacts from the nearest outward, after the clear and the
/// lock key.
pub fn lock_keys(locked: Option<u64>, contacts: &Vec<u64>, clear: bool, next: bool) -> (r: Option<
    u64,
>)
    ensures
        r == locked_after(locked, contacts@, clear, next),
{
    let at = if clear {
        None
    } else {
        match locked {
            Some(e) => find_contact(contacts, e),
            None => None,
        }
    };
    if next {
        match cycle(at, contacts.len()) {
            Some(i) => Some(contacts[i]),
            None => None,
        }
    } else {
        match at {
            Some(_) => locked,
            None => None,
        }
    }
}

/// A lock is always on a contact that is there.
pub proof fn lemma_lock_is_present(locked: Option<u64>, contacts: Seq<u64>, clear: bool, next: bool)
    ensures
        locked_after(locked, contacts, clear, next) matches Some(e) ==> contacts.contains(e),
{
    if !clear && locked is Some && slot(contacts, locked->Some_0) is Some {
        search::lemma_first_found(contacts, is_contact(locked->Some_0));
        let i = slot(contacts, locked->Some_0)->Some_0;
        assert(contacts[i] == locked->Some_0);
        let n = contacts.len() as int;
        assert(0 <= (i + 1) % n < n);
    }
}

/// How the gunnery cue reads.
pub open spec fn cue(firing: bool, gimballed: bool, in_arc: bool, on_target: bool) -> Seq<char> {
    if !firing {
        "NO SOLUTION"@
    } else if gimballed {
        if in_arc {
            "GIMBAL LOCKED \u{2014} FIRE"@
        } else {
            "out of gimbal arc"@
        }
    } else if on_target {
        "ON TARGET \u{2014} FIRE"@
    } else {
        "fly nose onto the pip"@
    }
}

/// How the gunnery cue reads: whether there is a firing solution at all, and whether the
/// gimbal or the nose is on it.
pub fn cue_text(firing: bool, gimballed: bool, in_arc: bool, on_target: bool) -> (s: &'static str)
    ensures
        s@ == cue(firing, gimballed, in_arc, on_target),
{
    if !firing {
        "NO SOLUTION"
    } else if gimballed {
        if in_arc {
            "GIMBAL LOCKED \u{2014} FIRE"
        } else {
            "out of gimbal arc"
        }
    } else if on_target {
        "ON TARGET \u{2014} FIRE"
    } else {
        "fly nose onto the pip"
    }
}

/// The visual identity of a system, in steps that the host turns into colours and places.
#[derive(Debug, Clone, Copy, PartialEq, Eq, Structural)]
pub struct Flavour {
    /// Degrees around the colour circle.
    pub hue: u32,
    /// The size of the star, in steps.
    pub star: u32,
    /// Whether the planet stands to the right.
    pub right: bool,
    /// How high the planet stands, in steps.
    pub rise: u32,
    /// How far away the planet stands, in steps.
    pub depth: u32,
}

/// The visual identity of a system: it follows from the id alone, so each place looks
/// distinct and is identical every run.
pub fn system_flavour(sys: SystemId) -> (f: Flavour)
    ensures
        ({
            let h = (sys.0 * 2_654_435_761) % 0x1_0000_0000;
            &&& f.hue == h % 360
            &&& f.star == (h / 360) % 5
            &&& f.right == (h % 2 == 0)
            &&& f.rise == (h / 7) % 4
            &&& f.depth == (h / 11) % 3
        }),
{
    let h: u64 = ((sys.0 as u64) * 2_654_435_761) % 0x1_0000_0000;
    Flavour {
        hue: (h % 360) as u32,
        star: ((h / 360) % 5) as u32,
        right: h % 2 == 0,
        rise: ((h / 7) % 4) as u32,
        depth: ((h / 11) % 3) as u32,
    }
}

/// A line of the station's market as the cockpit shows it.
pub open spec fn market_line(reg: Registry, row: GoodRow, selected: bool) -> Seq<char> {
    (if selected {
        ">"@
    } else {
        " "@
    }) + " "@ + text::left(reg.spec_commodity_name(row.commodity), 10) + " price "@ + text::right(
        text::dec(row.price as int),
        5,
    ) + "   stock "@ + text::right(text::dec_nat(row.stock as nat), 5) + "   held "@ + text::right(
        text::dec_nat(row.held as nat),
        3,
    ) + "\n"@
}

/// The first `n` lines of the station's market.
pub open spec fn market_lines(reg: Registry, rows: Seq<GoodRow>, cursor: usize, n: int) -> Seq<char>
    decreases n,
{
    if n <= 0 {
        Seq::empty()
    } else {
        market_lines(reg, rows, cursor, n - 1) + market_line(reg, rows[n - 1], n - 1 == cursor)
    }
}

/// What the cockpit shows at a station.
pub open spec fn docked_hud(
    reg: Registry,
    cockpit: Cockpit,
    sys: SystemId,
    capital: Money,
    rows: Seq<GoodRow>,
) -> Seq<char> {
    "DOCKED \u{2014} "@ + console::system_label(reg, sys) + "\nCapital "@ + text::dec(
        capital as int,
    ) + " cr     trade qty "@ + text::dec_nat(cockpit.qty as nat) + "\n\n"@ + market_lines(
        reg,
        rows,
        cockpit.cursor,
        rows.len() as int,
    ) + "\nUp/Down select   [ / ] qty   B buy   S sell   Space undock"@
}

/// Append a line of the station's market.
fn push_row(s: &mut String, reg: &Registry, row: &GoodRow, selected: bool)
    ensures
        final(s)@ == old(s)@ + market_line(*reg, *row, selected),
{
    s.append(
        if selected {
            ">"
        } else {
            " "
        },
    );
    s.append(" ");
    push_left(s, reg.commodity_name(row.commodity), 10);
    s.append(" price ");
    push_right(s, i64_text(row.price).as_str(), 5);
    s.append("   stock ");
    push_right(s, u64_text(row.stock as u64).as_str(), 5);
    s.append("   held ");
    push_right(s, u64_text(row.held as u64).as_str(), 3);
    s.append("\n");
    assert(s@ =~= old(s)@ + market_line(*reg, *row, selected));
}

/// What the cockpit shows at a station.
pub fn docked_text(
    reg: &Registry,
    cockpit: &Cockpit,
    sys: SystemId,
    capital: Money,
    rows: &Vec<GoodRow>,
) -> (s: String)
    ensures
        s@ == docked_hud(*reg, *cockpit, sys, capital, rows@),
{
    let mut s = String::new();
    s.append("DOCKED \u{2014} ");
    s.append(label_system(reg, sys));
    s.append("\nCapital ");
    push_i64(&mut s, capital);
    s.append(" cr     trade qty ");
    push_u64(&mut s, cockpit.qty as u64);
    s.append("\n\n");
    let ghost head = s@;
    let n = rows.len();
    let mut i: usize = 0;
    assert(s@ =~= head + market_lines(*reg, rows@, cockpit.cursor, 0));
    while i < n
        invariant
            i <= n,
            n == rows@.len(),
            s@ == head + market_lines(*reg, rows@, cockpit.cursor, i as int),
        decreases n - i,
    {
        push_row(&mut s, reg, &rows[i], i == cockpit.cursor);
        assert(s@ =~= head + market_lines(*reg, rows@, cockpit.cursor, i + 1));
        i = i + 1;
    }
    s.append("\nUp/Down select   [ / ] qty   B buy   S sell   Space undock");
    assert(s@ =~= docked_hud(*reg, *cockpit, sys, capital, rows@));
    s
}

/// What the cockpit draws on in flight.
pub struct Readout<'a> {
    pub capital: Money,
    /// The mass in the hold, and what it takes.
    pub hold: u128,
    pub capacity: u32,
    pub hostiles: usize,
    pub navy: usize,
    pub bounty: u32,
    pub weapon: &'a str,
    pub beam: bool,
    pub gimballed: bool,
    pub ecm_ready: bool,
    /// Whether the station is in range.
    pub near: bool,
    /// The danger of the system, written out.
    pub danger: &'a str,
}

/// How a weapon is mounted.
pub open spec fn mount(beam: bool, gimballed: bool) -> Seq<char> {
    if beam {
        "beam"@
    } else if gimballed {
        "gimbal"@
    } else {
        "fixed"@
    }
}

/// The destinations of the first `n` number keys.
pub open spec fn key_lines(reg: Registry, links: Seq<SystemId>, n: int) -> Seq<char>
    decreases n,
{
    if n <= 0 {
        Seq::empty()
    } else {
        key_lines(reg, links, n - 1) + "  ["@ + text::dec_nat(n as nat) + "] "@
            + console::system_label(reg, links[n - 1]) + "\n"@
    }
}

/// How many number keys have a destination.
pub open spec fn keyed(links: Seq<SystemId>) -> int {
    if links.len() < JUMP_KEYS {
        links.len() as int
    } else {
        JUMP_KEYS as int
    }
}

/// The bounty on the player, where there is one.
pub open spec fn bounty_part(bounty: u32) -> Seq<char> {
    if bounty > 0 {
        "   bounty "@ + text::dec_nat(bounty as nat)
    } else {
        Seq::empty()
    }
}

/// The upper part of what the cockpit shows in flight.
pub open spec fn status_part(reg: Registry, cockpit: Cockpit, sys: SystemId, r: Readout) -> Seq<char> {
    "SYSTEM  "@ + console::system_label(reg, sys) + "   danger "@ + r.danger@ + "\nCapital "@
        + text::dec(r.capital as int) + " cr     CARGO "@ + text::dec_nat(r.hold as nat) + "/"@
        + text::dec_nat(r.capacity as nat) + "     HOSTILES "@ + text::dec_nat(r.hostiles as nat)
        + "   NAVY "@ + text::dec_nat(r.navy as nat) + "\nSTATUS  "@ + nav::standing(
        r.bounty,
    ).spec_label() + bounty_part(r.bounty) + "\nWEAPON  "@ + r.weapon@ + " ("@ + mount(
        r.beam,
        r.gimballed,
    ) + ")  [Tab switch]\nMISSILES "@ + text::dec_nat(cockpit.missiles as nat)
        + "  [M] fire     ECM "@ + (if r.ecm_ready {
        "ready"@
    } else {
        "charging"@
    }) + "  [E]\n"@
}

/// What the cockpit shows in flight.
pub open spec fn flying_hud(reg: Registry, cockpit: Cockpit, sys: SystemId, r: Readout) -> Seq<char> {
    let links = reg.spec_systems()[sys.0 as int].connections@;
    status_part(reg, cockpit, sys, r) + "\nJump to:\n"@ + key_lines(reg, links, keyed(links)) + (
    if r.near {
        "\n[Space] DOCK   W/S throttle  J torus  arrows roll/pitch  , . yaw  T lock  A fire  M msl  E ecm"@
    } else {
        "\nW/S throttle  J torus  arrows roll/pitch  , . yaw  T lock  A fire  M msl  E ecm   (1-9 jump)"@
    })
}

/// The upper part of what the cockpit shows in flight.
fn status_text(reg: &Registry, cockpit: &Cockpit, sys: SystemId, r: &Readout) -> (s: String)
    ensures
        s@ == status_part(*reg, *cockpit, sys, *r),
{
    let mut s = String::new();
    s.append("SYSTEM  ");
    s.append(label_system(reg, sys));
    s.append("   danger ");
    s.append(r.danger);
    s.append("\nCapital ");
    push_i64(&mut s, r.capital);
    s.append(" cr     CARGO ");
    push_u128(&mut s, r.hold);
    s.append("/");
    push_u64(&mut s, r.capacity as u64);
    s.append("     HOSTILES ");
    push_u64(&mut s, r.hostiles as u64);
    s.append("   NAVY ");
    push_u64(&mut s, r.navy as u64);
    s.append("\nSTATUS  ");
    s.append(nav::legal_status(r.bounty).label());
    let ghost head = s@;
    if r.bounty > 0 {
        s.append("   bounty ");
        push_u64(&mut s, r.bounty as u64);
    }
    assert(s@ =~= head + bounty_part(r.bounty));
    s.append("\nWEAPON  ");
    s.append(r.weapon);
    s.append(" (");
    s.append(
        if r.beam {
            "beam"
        } else if r.gimballed {
            "gimbal"
        } else {
            "fixed"
        },
    );
    s.append(")  [Tab switch]\nMISSILES ");
    push_u64(&mut s, cockpit.missiles as u64);
    s.append("  [M] fire     ECM ");
    s.append(
        if r.ecm_ready {
            "ready"
        } else {
            "charging"
        },
    );
    s.append("  [E]\n");
    assert(s@ =~= status_part(*reg, *cockpit, sys, *r));
    s
}

/// What the cockpit shows in flight.
pub fn flying_text(reg: &Registry, cockpit: &Cockpit, sys: SystemId, r: &Readout) -> (s: String)
    requires
        sys.0 < reg.spec_systems().len(),
    ensures
        s@ == flying_hud(*reg, *cockpit, sys, *r),
{
    let mut s = status_text(reg, cockpit, sys, r);
    s.append("\nJump to:\n");
    let links = &reg.system(sys).connections;
    let n = if links.len() < JUMP_KEYS {
        links.len()
    } else {
        JUMP_KEYS
    };
    let ghost head = s@;
    let mut i: usize = 0;
    assert(s@ =~= head + key_lines(*reg, links@, 0));
    while i < n
        invariant
            i <= n,
            n <= links@.len(),
            s@ == head + key_lines(*reg, links@, i as int),
        decreases n - i,
    {
        s.append("  [");
        push_u64(&mut s, (i + 1) as u64);
        s.append("] ");
        s.append(label_system(reg, links[i]));
        s.append("\n");
        assert(s@ =~= head + key_lines(*reg, links@, i + 1));
        i = i + 1;
    }
    s.append(
        if r.near {
            "\n[Space] DOCK   W/S throttle  J torus  arrows roll/pitch  , . yaw  T lock  A fire  M msl  E ecm"
        } else {
            "\nW/S throttle  J torus  arrows roll/pitch  , . yaw  T lock  A fire  M msl  E ecm   (1-9 jump)"
        },
    );
    assert(s@ =~= flying_hud(*reg, *cockpit, sys, *r));
    s
}

/// Browsing moves the cursor by one line at a time and never off the list.
pub proof fn lemma_cursor_moves_by_a_line(c: Cockpit, keys: Browse, goods: usize)
    requires
        c.cursor < goods,
    ensures
        0 <= c.moved(keys, goods) < goods,
        keys.up && !keys.down && c.cursor > 0 ==> c.moved(keys, goods) == c.cursor - 1,
        keys.up && !keys.down && c.cursor == 0 ==> c.moved(keys, goods) == 0,
        keys.down && !keys.up && c.cursor + 1 < goods ==> c.moved(keys, goods) == c.cursor + 1,
        keys.down && !keys.up && c.cursor + 1 == goods ==> c.moved(keys, goods) == c.cursor,
        !keys.up && !keys.down ==> c.moved(keys, goods) == c.cursor,
        keys.up && keys.down && c.cursor > 0 ==> c.moved(keys, goods) == c.cursor,
{
}

/// The trade quantity goes by one at a time, and stays between one unit and fifty.
pub proof fn lemma_quantity_goes_by_one(c: Cockpit, keys: Browse)
    requires
        1 <= c.qty <= 50,
    ensures
        1 <= c.amount(keys) <= 50,
        keys.fewer && !keys.more ==> c.amount(keys) == c.qty - 1 || (c.qty == 1 && c.amount(keys)
            == 1),
        keys.more && !keys.fewer ==> c.amount(keys) == c.qty + 1 || (c.qty == 50 && c.amount(keys)
            == 50),
        !keys.fewer && !keys.more ==> c.amount(keys) == c.qty,
        keys.fewer && keys.more && c.qty > 1 ==> c.amount(keys) == c.qty,
{
}

/// A ship is at a station just while it is docked there.
pub proof fn lemma_berth_is_the_dock(loc: TraderLocation, s: SystemId)
    ensures
        berth(loc) == Some(s) <==> loc == TraderLocation::Docked(s),
        berth(loc) is None <==> !(loc is Docked),
{
}

/// The ships around the player are those of the place: they leave while it is nowhere,
/// stay while it stays, and are set up anew where it has come to.
pub proof fn lemma_scenery_follows(shown: Option<SystemId>, here: Option<SystemId>)
    ensures
        scenery(shown, here) == Scenery::Clear <==> here is None,
        scenery(shown, here) == Scenery::Keep <==> here is Some && here == shown,
        scenery(shown, here) matches Scenery::Rebuild(s) ==> here == Some(s) && shown != here,
        here is Some && here != shown ==> scenery(shown, here) == Scenery::Rebuild(here->Some_0),
{
}

/// The player meets the patrols that are docked at the system: every one of them, and no
/// other.
pub proof fn lemma_player_meets_the_docked(fleet: Seq<Patrol>, s: SystemId)
    ensures
        present(fleet, s).len() <= fleet.len(),
        forall|k: int|
            0 <= k < present(fleet, s).len() ==> (#[trigger] present(fleet, s)[k]).location
                == PatrolLocation::Docked(s) && fleet.contains(present(fleet, s)[k]),
        forall|i: int|
            0 <= i < fleet.len() && (#[trigger] fleet[i]).location == PatrolLocation::Docked(s)
                ==> present(fleet, s).contains(fleet[i]),
{
    let f = |p: Patrol| p.location == PatrolLocation::Docked(s);
    search::lemma_filter_members(fleet, f);
    assert forall|k: int| 0 <= k < present(fleet, s).len() implies (#[trigger] present(
        fleet,
        s,
    )[k]).location == PatrolLocation::Docked(s) && fleet.contains(present(fleet, s)[k]) by {
        assert(f(fleet.filter(f)[k]));
    }
    assert forall|i: int|
        0 <= i < fleet.len() && (#[trigger] fleet[i]).location == PatrolLocation::Docked(s) implies
        present(fleet, s).contains(fleet[i]) by {
        assert(f(fleet[i]));
        fleet.lemma_filter_contains(f, i);
    }
}

/// Nobody's bolts strike their own side; the player's and a hostile's strike both others,
/// and the navy's strike pirates and not the player.
pub proof fn lemma_no_friendly_fire()
    ensures
        !strikes(Shooter::Player, Struck::Player),
        !strikes(Shooter::Hostile, Struck::Hostile),
        !strikes(Shooter::Navy, Struck::Navy),
        strikes(Shooter::Player, Struck::Hostile),
        strikes(Shooter::Player, Struck::Navy),
        strikes(Shooter::Hostile, Struck::Player),
        strikes(Shooter::Hostile, Struck::Navy),
        strikes(Shooter::Navy, Struck::Hostile),
        !strikes(Shooter::Navy, Struck::Player),
{
}

/// The canisters of a pirate are scattered by its id, seven apart; each holds the good
/// that its seed comes to among those that exist, and one unit more than its seed leaves
/// of three.
pub proof fn lemma_loot_follows_the_id(id: PatrolId, k: int, goods: int)
    requires
        0 <= k,
        0 < goods <= u32::MAX,
    ensures
        canister(id, 0, goods).seed == id.0,
        (canister(id, k + 1, goods).seed - canister(id, k, goods).seed - 7)
            % 0x1_0000_0000_0000_0000 == 0,
        canister(id, k, goods).commodity.0 < goods,
        (canister(id, k, goods).seed - canister(id, k, goods).commodity.0) % goods == 0,
        1 <= canister(id, k, goods).qty <= 3,
        (canister(id, k, goods).seed - (canister(id, k, goods).qty - 1)) % 3 == 0,
{
    let m: int = 0x1_0000_0000_0000_0000;
    let a = id.0 + 7 * k;
    let s = a % m;
    let t = (a + 7) % m;
    assert(id.0 + 7 * (k + 1) == a + 7);
    vstd::arithmetic::div_mod::lemma_fundamental_div_mod(a, m);
    vstd::arithmetic::div_mod::lemma_fundamental_div_mod(a + 7, m);
    let q = a / m - (a + 7) / m;
    assert(t - s - 7 == q * m);
    vstd::arithmetic::div_mod::lemma_mod_multiples_basic(q, m);
    vstd::arithmetic::div_mod::lemma_fundamental_div_mod(s, goods);
    assert(s - s % goods == (s / goods) * goods) by (nonlinear_arith)
        requires
            s == goods * (s / goods) + s % goods,
    ;
    vstd::arithmetic::div_mod::lemma_mod_multiples_basic(s / goods, goods);
    assert(s % goods < goods) by (nonlinear_arith)
        requires
            goods > 0,
    ;
    assert(0 <= s % goods) by (nonlinear_arith)
        requires
            goods > 0,
    ;
}

/// What the lock keys do. With no key a lock stays while its target is there, and is
/// dropped with it. The clear key drops it. The lock key takes the nearest contact where
/// nothing is locked, else the one after the locked one, round the list; with no contacts
/// it locks nothing.
pub proof fn lemma_lock_goes_round(locked: Option<u64>, contacts: Seq<u64>, i: int)
    requires
        contacts.no_duplicates(),
    ensures
        locked_after(None, contacts, false, false) is None,
        locked_after(locked, contacts, true, false) is None,
        0 <= i < contacts.len() ==> {
            &&& locked_after(Some(contacts[i]), contacts, false, false) == Some(contacts[i])
            &&& i + 1 < contacts.len() ==> locked_after(Some(contacts[i]), contacts, false, true)
                == Some(contacts[i + 1])
            &&& i + 1 == contacts.len() ==> locked_after(Some(contacts[i]), contacts, false, true)
                == Some(contacts[0])
        },
        contacts.len() > 0 ==> locked_after(None, contacts, false, true) == Some(contacts[0]),
        contacts.len() > 0 ==> locked_after(locked, contacts, true, true) == Some(contacts[0]),
        contacts.len() == 0 ==> locked_after(locked, contacts, false, true) is None,
        locked is Some && !contacts.contains(locked->Some_0) ==> locked_after(
            locked,
            contacts,
            false,
            false,
        ) is None,
{
    if 0 <= i < contacts.len() {
        search::lemma_first_is(contacts, is_contact(contacts[i]), i);
        let n = contacts.len() as int;
        if i + 1 < n {
            vstd::arithmetic::div_mod::lemma_small_mod((i + 1) as nat, n as nat);
        } else {
            vstd::arithmetic::div_mod::lemma_mod_self_0(n);
        }
    }
    if locked is Some {
        let e = locked->Some_0;
        lemma_lock_is_present(locked, contacts, false, false);
    }
}

/// The number keys stand for the first links of a system, as many as there are keys.
pub proof fn lemma_keys_stand_for_links(links: Seq<SystemId>)
    ensures
        0 <= keyed(links) <= 9,
        keyed(links) <= links.len(),
        keyed(links) == links.len() || keyed(links) == 9,
{
}

} // verus!
