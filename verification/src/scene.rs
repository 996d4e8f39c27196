//! What a spectator's view draws: the systems, the routes between them, and the battles
//! under way. Where a point lies on the screen is the host's to work out.

use vstd::prelude::*;

use crate::bits::Bits;
use crate::client;
use crate::client::{alive_count, map_routes};
use crate::data::Point;
use crate::encounter::Combatant;
use crate::ids::SystemId;
use crate::registry::Registry;
use crate::world::observe::EncounterView;

verus! {

/// A star system node.
pub struct SceneSystem {
    /// Where it lies in the galaxy.
    pub pos: Point,
    /// Lawlessness, for colouring.
    pub danger: Bits,
    pub name: String,
}

/// A jump connection between two systems, drawn once per pair.
#[derive(Debug, Clone, Copy, PartialEq, Eq, Structural)]
pub struct SceneEdge {
    pub a: Point,
    pub b: Point,
}

/// One ship in a running battle.
#[derive(Debug, Clone, Copy, PartialEq, Eq, Structural)]
pub struct SceneCombatant {
    /// Where the battle's system lies in the galaxy.
    pub base: Point,
    /// Where the ship is in the battle's own space.
    pub local: Point,
    /// Combat faction, for colouring.
    pub faction: u8,
    pub alive: bool,
}

/// A beacon for a running battle.
#[derive(Debug, Clone, Copy, PartialEq, Eq, Structural)]
pub struct SceneBattle {
    /// Where the battle's system lies in the galaxy.
    pub center: Point,
    /// Combatants still in action.
    pub alive: usize,
    pub total: usize,
}

/// Everything a renderer needs to draw one frame of the spectator view.
pub struct Scene {
    pub systems: Vec<SceneSystem>,
    pub edges: Vec<SceneEdge>,
    /// All combatants across every running battle.
    pub combatants: Vec<SceneCombatant>,
}

/// Where a system lies.
pub open spec fn site(reg: Registry, s: SystemId) -> Point {
    reg.spec_systems()[s.0 as int].position
}

/// Whether every battle is at a system that exists.
pub open spec fn placed(reg: Registry, encounters: Seq<EncounterView>) -> bool {
    forall|i: int|
        0 <= i < encounters.len() ==> (#[trigger] encounters[i]).system.0
            < reg.spec_systems().len()
}

/// Whether `nodes` shows the systems of the registry, one each in their order.
pub open spec fn systems_shown(nodes: Seq<SceneSystem>, reg: Registry) -> bool {
    &&& nodes.len() == reg.spec_systems().len()
    &&& forall|i: int|
        0 <= i < nodes.len() ==> {
            let s = reg.spec_systems()[i];
            (#[trigger] nodes[i]).pos == s.position && nodes[i].danger == s.danger
                && nodes[i].name@ == s.name@
        }
}

/// Whether `edges` shows the routes of the map, one each in their order.
pub open spec fn edges_shown(edges: Seq<SceneEdge>, reg: Registry) -> bool {
    let routes = client::routes(reg, reg.spec_systems().len() as int);
    &&& edges.len() == routes.len()
    &&& forall|i: int|
        0 <= i < edges.len() ==> #[trigger] edges[i] == (SceneEdge {
            a: site(reg, routes[i].0),
            b: site(reg, routes[i].1),
        })
}

/// The first `n` ships of a battle.
pub open spec fn ships_of(reg: Registry, e: EncounterView, n: int) -> Seq<SceneCombatant>
    decreases n,
{
    if n <= 0 {
        Seq::empty()
    } else {
        let c = e.combatants@[n - 1];
        ships_of(reg, e, n - 1).push(
            SceneCombatant {
                base: site(reg, e.system),
                local: c.pos,
                faction: c.faction,
                alive: c.alive,
            },
        )
    }
}

/// The ships of the first `n` battles.
pub open spec fn all_ships(reg: Registry, encounters: Seq<EncounterView>, n: int) -> Seq<
    SceneCombatant,
>
    decreases n,
{
    if n <= 0 {
        Seq::empty()
    } else {
        let e = encounters[n - 1];
        all_ships(reg, encounters, n - 1) + ships_of(reg, e, e.combatants@.len() as int)
    }
}

/// The beacon of a battle.
pub open spec fn beacon(reg: Registry, e: EncounterView) -> SceneBattle {
    SceneBattle {
        center: site(reg, e.system),
        alive: client::afloat(e.combatants@, e.combatants@.len() as int) as usize,
        total: e.combatants@.len() as usize,
    }
}

proof fn lemma_routes_from_valid(reg: Registry, from: SystemId, links: Seq<SystemId>, n: int)
    requires
        0 <= n <= links.len(),
        from.0 < reg.spec_systems().len(),
        forall|i: int| 0 <= i < links.len() ==> (#[trigger] links[i]).0 < reg.spec_systems().len(),
    ensures
        forall|i: int|
            0 <= i < client::routes_from(from, links, n).len() ==> (
            #[trigger] client::routes_from(from, links, n)[i]).0.0 < reg.spec_systems().len()
                && client::routes_from(from, links, n)[i].1.0 < reg.spec_systems().len(),
    decreases n,
{
    if n > 0 {
        lemma_routes_from_valid(reg, from, links, n - 1);
        let head = client::routes_from(from, links, n - 1);
        assert(links[n - 1].0 < reg.spec_systems().len());
        assert forall|i: int| 0 <= i < client::routes_from(from, links, n).len() implies (
        #[trigger] client::routes_from(from, links, n)[i]).0.0 < reg.spec_systems().len()
            && client::routes_from(from, links, n)[i].1.0 < reg.spec_systems().len() by {
            if i < head.len() {
                assert(client::routes_from(from, links, n)[i] == head[i]);
            }
        }
    }
}

proof fn lemma_routes_valid(reg: Registry, n: int)
    requires
        reg.wf(),
        reg.numbered(),
        0 <= n <= reg.spec_systems().len(),
    ensures
        forall|i: int|
            0 <= i < client::routes(reg, n).len() ==> (#[trigger] client::routes(reg, n)[i]).0.0
                < reg.spec_systems().len() && client::routes(reg, n)[i].1.0
                < reg.spec_systems().len(),
    decreases n,
{
    if n > 0 {
        lemma_routes_valid(reg, n - 1);
        let s = reg.spec_systems()[n - 1];
        lemma_routes_from_valid(reg, s.id, s.connections@, s.connections@.len() as int);
        let head = client::routes(reg, n - 1);
        let tail = client::routes_from(s.id, s.connections@, s.connections@.len() as int);
        assert forall|i: int| 0 <= i < (head + tail).len() implies (#[trigger] (head
            + tail)[i]).0.0 < reg.spec_systems().len() && (head + tail)[i].1.0
            < reg.spec_systems().len() by {
            if i < head.len() {
                assert((head + tail)[i] == head[i]);
            } else {
                assert((head + tail)[i] == tail[i - head.len()]);
            }
        }
    }
}

/// Build the static galaxy: systems and jump edges.
pub fn build_static(reg: &Registry) -> (r: (Vec<SceneSystem>, Vec<SceneEdge>))
    requires
        reg.wf(),
        reg.numbered(),
    ensures
        systems_shown(r.0@, *reg),
        edges_shown(r.1@, *reg),
{
    let systems = reg.systems();
    let mut nodes: Vec<SceneSystem> = Vec::new();
    let mut i: usize = 0;
    while i < systems.len()
        invariant
            i <= systems@.len(),
            systems@ == reg.spec_systems(),
            nodes@.len() == i,
            forall|k: int|
                0 <= k < i ==> (#[trigger] nodes@[k]).pos == systems@[k].position
                    && nodes@[k].danger == systems@[k].danger && nodes@[k].name@
                    == systems@[k].name@,
        decreases systems@.len() - i,
    {
        let s = &systems[i];
        nodes.push(
            SceneSystem { pos: s.position, danger: s.danger, name: s.name.as_str().to_owned() },
        );
        i = i + 1;
    }
    let routes = map_routes(reg);
    proof {
        lemma_routes_valid(*reg, reg.spec_systems().len() as int);
    }
    let mut edges: Vec<SceneEdge> = Vec::new();
    let mut j: usize = 0;
    while j < routes.len()
        invariant
            j <= routes@.len(),
            edges@.len() == j,
            forall|k: int|
                0 <= k < routes@.len() ==> (#[trigger] routes@[k]).0.0 < reg.spec_systems().len()
                    && routes@[k].1.0 < reg.spec_systems().len(),
            forall|k: int|
                0 <= k < j ==> #[trigger] edges@[k] == (SceneEdge {
                    a: site(*reg, routes@[k].0),
                    b: site(*reg, routes@[k].1),
                }),
        decreases routes@.len() - j,
    {
        let (a, b) = routes[j];
        edges.push(SceneEdge { a: reg.system(a).position, b: reg.system(b).position });
        j = j + 1;
    }
    (nodes, edges)
}

/// Every combatant of every running battle.
pub fn build_combatants(reg: &Registry, encounters: &Vec<EncounterView>) -> (r: Vec<SceneCombatant>)
    requires
        placed(*reg, encounters@),
    ensures
        r@ == all_ships(*reg, encounters@, encounters@.len() as int),
{
    let mut out: Vec<SceneCombatant> = Vec::new();
    let mut i: usize = 0;
    while i < encounters.len()
        invariant
            i <= encounters@.len(),
            placed(*reg, encounters@),
            out@ == all_ships(*reg, encounters@, i as int),
        decreases encounters@.len() - i,
    {
        let e = &encounters[i];
        let base = reg.system(e.system).position;
        let ghost before = out@;
        let mut k: usize = 0;
        assert(out@ =~= before + ships_of(*reg, *e, 0));
        while k < e.combatants.len()
            invariant
                k <= e.combatants@.len(),
                base == site(*reg, e.system),
                out@ == before + ships_of(*reg, *e, k as int),
            decreases e.combatants@.len() - k,
        {
            let c = e.combatants[k];
            out.push(
                SceneCombatant { base, local: c.pos, faction: c.faction, alive: c.alive },
            );
            assert(out@ =~= before + ships_of(*reg, *e, k + 1));
            k = k + 1;
        }
        i = i + 1;
    }
    out
}

/// One beacon per running battle.
pub fn build_battles(reg: &Registry, encounters: &Vec<EncounterView>) -> (r: Vec<SceneBattle>)
    requires
        placed(*reg, encounters@),
    ensures
        r@.len() == encounters@.len(),
        forall|i: int| 0 <= i < r@.len() ==> #[trigger] r@[i] == beacon(*reg, encounters@[i]),
{
    let mut out: Vec<SceneBattle> = Vec::new();
    let mut i: usize = 0;
    while i < encounters.len()
        invariant
            i <= encounters@.len(),
            placed(*reg, encounters@),
            out@.len() == i,
            forall|k: int| 0 <= k < i ==> #[trigger] out@[k] == beacon(*reg, encounters@[k]),
        decreases encounters@.len() - i,
    {
        let e = &encounters[i];
        out.push(
            SceneBattle {
                center: reg.system(e.system).position,
                alive: alive_count(e),
                total: e.combatants.len(),
            },
        );
        i = i + 1;
    }
    out
}

/// Build the full scene for a frame: the galaxy and the live battles.
pub fn build_scene(reg: &Registry, encounters: &Vec<EncounterView>) -> (s: Scene)
    requires
        reg.wf(),
        reg.numbered(),
        placed(*reg, encounters@),
    ensures
        systems_shown(s.systems@, *reg),
        edges_shown(s.edges@, *reg),
        s.combatants@ == all_ships(*reg, encounters@, encounters@.len() as int),
{
    let (systems, edges) = build_static(reg);
    Scene { systems, edges, combatants: build_combatants(reg, encounters) }
}

/// A frame shows every ship of every battle: as many as the battles have, each where its
/// battle is, in its place, of its side.
pub proof fn lemma_every_ship_is_shown(reg: Registry, e: EncounterView, n: int)
    requires
        0 <= n <= e.combatants@.len(),
    ensures
        ships_of(reg, e, n).len() == n,
        forall|i: int|
            0 <= i < n ==> {
                let s = #[trigger] ships_of(reg, e, n)[i];
                let c = e.combatants@[i];
                &&& s.base == reg.spec_systems()[e.system.0 as int].position
                &&& s.local == c.pos
                &&& s.faction == c.faction
                &&& s.alive == c.alive
            },
    decreases n,
{
    if n > 0 {
        lemma_every_ship_is_shown(reg, e, n - 1);
        let before = ships_of(reg, e, n - 1);
        let after = ships_of(reg, e, n);
        assert forall|i: int| 0 <= i < n implies {
            let s = #[trigger] after[i];
            let c = e.combatants@[i];
            &&& s.base == reg.spec_systems()[e.system.0 as int].position
            &&& s.local == c.pos
            &&& s.faction == c.faction
            &&& s.alive == c.alive
        } by {
            if i < n - 1 {
                assert(after[i] == before[i]);
            }
        }
    }
}

/// The ships of the battles, told battle after battle.
pub proof fn lemma_battles_are_shown_in_turn(reg: Registry, battles: Seq<EncounterView>, n: int)
    requires
        0 <= n < battles.len(),
    ensures
        all_ships(reg, battles, 0).len() == 0,
        all_ships(reg, battles, n + 1).len() == all_ships(reg, battles, n).len()
            + battles[n].combatants@.len(),
        all_ships(reg, battles, n + 1).take(all_ships(reg, battles, n).len() as int) == all_ships(
            reg,
            battles,
            n,
        ),
        all_ships(reg, battles, n + 1).skip(all_ships(reg, battles, n).len() as int) == ships_of(
            reg,
            battles[n],
            battles[n].combatants@.len() as int,
        ),
{
    let e = battles[n];
    lemma_every_ship_is_shown(reg, e, e.combatants@.len() as int);
    let a = all_ships(reg, battles, n);
    let b = ships_of(reg, e, e.combatants@.len() as int);
    assert((a + b).take(a.len() as int) =~= a);
    assert((a + b).skip(a.len() as int) =~= b);
}

/// A beacon stands where its battle is, and counts its ships and those that live.
pub proof fn lemma_beacon_counts(reg: Registry, e: EncounterView)
    requires
        e.combatants@.len() <= usize::MAX,
    ensures
        beacon(reg, e).center == reg.spec_systems()[e.system.0 as int].position,
        beacon(reg, e).total == e.combatants@.len(),
        beacon(reg, e).alive == e.combatants@.filter(|c: Combatant| c.alive).len(),
{
    let n = e.combatants@.len() as int;
    client::lemma_afloat_are_the_living(e.combatants@, n);
    assert(e.combatants@.take(n) =~= e.combatants@);
    e.combatants@.lemma_filter_len(|c: Combatant| c.alive);
}

} // verus!
