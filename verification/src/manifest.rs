//! Mod manifests, and the order mods load in.

use vstd::prelude::*;

use crate::data::ScriptKind;
use crate::load_error::{LoadError, LoadErrorView};
use crate::text;
use crate::text::{has_text, join, less_text, same_text};

verus! {

/// One script entry of a manifest: a named script backed by a file.
#[derive(Debug, Clone)]
pub struct ScriptEntry {
    /// The strategy name content refers to.
    pub name: String,
    /// Path of the source, relative to the mod's directory.
    pub path: String,
    /// Which seam the script plugs into.
    pub kind: ScriptKind,
}

/// A mod's manifest.
#[derive(Debug, Clone)]
pub struct Manifest {
    /// Unique mod id.
    pub id: String,
    /// Human-readable name.
    pub name: String,
    /// Version string.
    pub version: String,
    /// Ids of mods that load before this one.
    pub dependencies: Vec<String>,
    /// Content ids this mod intentionally replaces.
    pub overrides: Vec<String>,
    /// Behaviour scripts this mod contributes.
    pub scripts: Vec<ScriptEntry>,
}

impl Manifest {
    /// Whether the mod declares that it replaces `id`.
    pub fn overrides(&self, id: &str) -> (b: bool)
        ensures
            b == text::texts(self.overrides@).contains(id@),
    {
        has_text(&self.overrides, id)
    }
}

/// A discovered mod: its manifest, and where it lives.
#[derive(Debug, Clone)]
pub struct ModDir {
    pub manifest: Manifest,
    pub dir: String,
}

impl ModDir {
    /// The mod's id.
    pub open spec fn id(&self) -> Seq<char> {
        self.manifest.id@
    }

    /// The ids of the mods this one depends on.
    pub open spec fn needs(&self) -> Seq<Seq<char>> {
        text::texts(self.manifest.dependencies@)
    }
}

/// The ids of a list of mods.
pub open spec fn ids(mods: Seq<ModDir>) -> Seq<Seq<char>> {
    Seq::new(mods.len(), |i: int| mods[i].id())
}

/// Ids ascend strictly.
pub open spec fn ascending(mods: Seq<ModDir>) -> bool {
    forall|i: int, j: int|
        0 <= i < j < mods.len() ==> text::text_less(
            (#[trigger] mods[i]).id(),
            (#[trigger] mods[j]).id(),
        )
}

/// Whether `m` is the last of `mods` with its id.
pub open spec fn is_latest(mods: Seq<ModDir>, m: ModDir) -> bool {
    exists|k: int|
        0 <= k < mods.len() && (#[trigger] mods[k]) == m && forall|l: int|
            k < l < mods.len() ==> (#[trigger] mods[l]).id() != m.id()
}

/// Whether `list` holds the mods by ascending id, one for each id: of those that share
/// one, the last.
pub open spec fn is_catalogue(mods: Seq<ModDir>, list: Seq<ModDir>) -> bool {
    &&& ascending(list)
    &&& forall|i: int| 0 <= i < list.len() ==> is_latest(mods, #[trigger] list[i])
    &&& forall|k: int| 0 <= k < mods.len() ==> ids(list).contains((#[trigger] mods[k]).id())
}

/// The first of the first `n` dependencies of a mod that no mod has as its id.
pub open spec fn missing_of(list: Seq<ModDir>, m: ModDir, n: int) -> Option<Seq<char>>
    decreases n,
{
    if n <= 0 {
        None
    } else {
        match missing_of(list, m, n - 1) {
            Some(d) => Some(d),
            None => if ids(list).contains(m.needs()[n - 1]) {
                None
            } else {
                Some(m.needs()[n - 1])
            },
        }
    }
}

/// The first of the first `n` mods with a dependency that is not there, and that
/// dependency.
pub open spec fn first_missing(list: Seq<ModDir>, n: int) -> Option<LoadErrorView>
    decreases n,
{
    if n <= 0 {
        None
    } else {
        match first_missing(list, n - 1) {
            Some(e) => Some(e),
            None => match missing_of(list, list[n - 1], list[n - 1].needs().len() as int) {
                Some(d) => Some(
                    LoadErrorView::MissingDependency {
                        mod_id: list[n - 1].id(),
                        dependency: d,
                    },
                ),
                None => None,
            },
        }
    }
}

/// Whether mod `i` can be placed after those in `placed`: it has not been, and all it
/// needs has been.
pub open spec fn is_ready(list: Seq<ModDir>, placed: Seq<int>, i: int) -> bool {
    &&& 0 <= i < list.len()
    &&& !placed.contains(i)
    &&& forall|d: int|
        0 <= d < list[i].needs().len() ==> is_placed(list, placed, #[trigger] list[i].needs()[d])
}

/// Whether the mod with this id has been placed.
pub open spec fn is_placed(list: Seq<ModDir>, placed: Seq<int>, id: Seq<char>) -> bool {
    exists|k: int| 0 <= k < placed.len() && list[#[trigger] placed[k]].id() == id
}

/// The last of the mods before `n` that can be placed.
pub open spec fn last_ready(list: Seq<ModDir>, placed: Seq<int>, n: int) -> Option<int>
    decreases n,
{
    if n <= 0 {
        None
    } else if is_ready(list, placed, n - 1) {
        Some(n - 1)
    } else {
        last_ready(list, placed, n - 1)
    }
}

/// The order mods are placed in after those in `placed`: always the one with the
/// greatest id among those whose dependencies have been placed.
pub open spec fn placed_after(list: Seq<ModDir>, placed: Seq<int>) -> Seq<int>
    decreases list.len() - placed.len(),
{
    if placed.len() >= list.len() {
        placed
    } else {
        match last_ready(list, placed, list.len() as int) {
            None => placed,
            Some(i) => placed_after(list, placed.push(i)),
        }
    }
}

/// The ids of the mods that were not placed, in order.
pub open spec fn stuck(list: Seq<ModDir>, placed: Seq<int>, n: int) -> Seq<Seq<char>>
    decreases n,
{
    if n <= 0 {
        Seq::empty()
    } else if placed.contains(n - 1) {
        stuck(list, placed, n - 1)
    } else {
        stuck(list, placed, n - 1).push(list[n - 1].id())
    }
}

/// The mods of a catalogue in load order, or what keeps them from one: a dependency that
/// is not there, or a circle.
pub open spec fn load_order(list: Seq<ModDir>) -> Result<Seq<ModDir>, LoadErrorView> {
    match first_missing(list, list.len() as int) {
        Some(e) => Err(e),
        None => {
            let order = placed_after(list, Seq::empty());
            if order.len() < list.len() {
                Err(
                    LoadErrorView::DependencyCycle(
                        text::joined(stuck(list, order, list.len() as int), ", "@),
                    ),
                )
            } else {
                Ok(Seq::new(order.len(), |k: int| list[order[k]]))
            }
        },
    }
}

/// Whether `r` is what ordering `mods` comes to.
pub open spec fn ordered(mods: Seq<ModDir>, r: Result<Vec<ModDir>, LoadError>) -> bool {
    exists|list: Seq<ModDir>| #[trigger]
        is_catalogue(mods, list) && match r {
            Ok(v) => load_order(list) == Ok::<Seq<ModDir>, LoadErrorView>(v@),
            Err(e) => load_order(list) == Err::<Seq<ModDir>, LoadErrorView>(e@),
        }
}

/// A mod goes into a catalogue.
fn enter(list: &mut Vec<ModDir>, m: ModDir, Ghost(mods): Ghost<Seq<ModDir>>)
    requires
        is_catalogue(mods, old(list)@),
    ensures
        is_catalogue(mods.push(m), final(list)@),
{
    let ghost before = list@;
    let mut p: usize = 0;
    while p < list.len() && less_text(list[p].manifest.id.as_str(), m.manifest.id.as_str())
        invariant
            p <= list@.len(),
            list@ == before,
            forall|i: int| 0 <= i < p ==> text::text_less((#[trigger] list@[i]).id(), m.id()),
        decreases list@.len() - p,
    {
        p = p + 1;
    }
    let same = p < list.len() && same_text(
        list[p].manifest.id.as_str(),
        m.manifest.id.as_str(),
    );
    proof {
        assert forall|i: int| p <= i < before.len() && (!same || i > p) implies text::text_less(
            m.id(),
            (#[trigger] before[i]).id(),
        ) by {
            text::lemma_text_order(m.id(), before[p as int].id(), before[i].id());
            text::lemma_text_order(before[p as int].id(), m.id(), before[i].id());
            if i > p {
                assert(text::text_less(before[p as int].id(), before[i].id()));
            }
        }
    }
    if same {
        list.set(p, m);
    } else {
        list.insert(p, m);
    }
    proof {
        let after = list@;
        let all = mods.push(m);
        assert(after[p as int] == m);
        assert forall|i: int, j: int| 0 <= i < j < after.len() implies text::text_less(
            (#[trigger] after[i]).id(),
            (#[trigger] after[j]).id(),
        ) by {
            let bi = if same || i < p {
                i
            } else {
                i - 1
            };
            let bj = if same || j < p {
                j
            } else {
                j - 1
            };
            if i != p {
                assert(after[i] == before[bi]);
            }
            if j != p {
                assert(after[j] == before[bj]);
            }
            if i != p && j != p {
                assert(text::text_less(before[bi].id(), before[bj].id()));
            }
        }
        assert forall|i: int| 0 <= i < after.len() implies is_latest(all, #[trigger] after[i]) by {
            if i == p {
                assert(all[mods.len() as int] == m);
            } else {
                let b = if same || i < p {
                    i
                } else {
                    i - 1
                };
                assert(after[i] == before[b]);
                assert(is_latest(mods, before[b]));
                let k = choose|k: int|
                    0 <= k < mods.len() && (#[trigger] mods[k]) == before[b] && forall|l: int|
                        k < l < mods.len() ==> (#[trigger] mods[l]).id() != before[b].id();
                assert(all[k] == after[i]);
                text::lemma_text_order(before[b].id(), m.id(), m.id());
                text::lemma_text_order(m.id(), before[b].id(), m.id());
                assert(after[i].id() != m.id());
                assert forall|l: int| k < l < all.len() implies (#[trigger] all[l]).id()
                    != after[i].id() by {
                    if l < mods.len() {
                        assert(all[l] == mods[l]);
                    }
                }
            }
        }
        assert forall|k: int| 0 <= k < all.len() implies ids(after).contains(
            (#[trigger] all[k]).id(),
        ) by {
            if k == mods.len() {
                assert(ids(after)[p as int] == m.id());
            } else {
                assert(all[k] == mods[k]);
                let b = ids(before).index_of(mods[k].id());
                assert(before[b].id() == mods[k].id());
                if same && b == p {
                    assert(ids(after)[p as int] == m.id());
                } else {
                    let a = if same || b < p {
                        b
                    } else {
                        b + 1
                    };
                    assert(after[a] == before[b]);
                    assert(ids(after)[a] == mods[k].id());
                }
            }
        }
    }
}

/// The mods by ascending id.
fn catalogue(mods: Vec<ModDir>) -> (list: Vec<ModDir>)
    ensures
        is_catalogue(mods@, list@),
{
    let ghost all = mods@;
    let ghost mut k: int = 0;
    let mut mods = mods;
    let mut list: Vec<ModDir> = Vec::new();
    assert(all.skip(0) =~= all);
    while mods.len() > 0
        invariant
            0 <= k <= all.len(),
            mods@ == all.skip(k),
            is_catalogue(all.take(k), list@),
        decreases mods@.len(),
    {
        let m = mods.remove(0);
        enter(&mut list, m, Ghost(all.take(k)));
        proof {
            assert(all.take(k).push(m) =~= all.take(k + 1));
            assert(mods@ =~= all.skip(k + 1));
            k = k + 1;
        }
    }
    assert(all.take(k) =~= all);
    list
}

/// Whether a mod has this id.
fn knows(list: &Vec<ModDir>, id: &str) -> (b: bool)
    ensures
        b == ids(list@).contains(id@),
{
    let mut i: usize = 0;
    while i < list.len()
        invariant
            i <= list@.len(),
            forall|j: int| 0 <= j < i ==> (#[trigger] ids(list@)[j]) != id@,
        decreases list@.len() - i,
    {
        assert(ids(list@)[i as int] == list@[i as int].manifest.id@);
        if same_text(list[i].manifest.id.as_str(), id) {
            return true;
        }
        i = i + 1;
    }
    false
}

/// The first dependency that is not there.
fn find_missing(list: &Vec<ModDir>) -> (r: Option<LoadError>)
    ensures
        match r {
            Some(e) => first_missing(list@, list@.len() as int) == Some(e@),
            None => first_missing(list@, list@.len() as int) is None,
        },
{
    let mut found: Option<LoadError> = None;
    let mut i: usize = 0;
    while i < list.len()
        invariant
            i <= list@.len(),
            match found {
                Some(e) => first_missing(list@, i as int) == Some(e@),
                None => first_missing(list@, i as int) is None,
            },
        decreases list@.len() - i,
    {
        if found.is_none() {
            let mut absent: Option<usize> = None;
            let mut d: usize = 0;
            while d < list[i].manifest.dependencies.len()
                invariant
                    i < list@.len(),
                    d <= list@[i as int].manifest.dependencies@.len(),
                    match absent {
                        Some(a) => a < d && missing_of(list@, list@[i as int], d as int) == Some(
                            list@[i as int].manifest.dependencies@[a as int]@,
                        ),
                        None => missing_of(list@, list@[i as int], d as int) is None,
                    },
                decreases list@[i as int].manifest.dependencies@.len() - d,
            {
                assert(list@[i as int].needs()[d as int]
                    == list@[i as int].manifest.dependencies@[d as int]@);
                if absent.is_none() && !knows(list, list[i].manifest.dependencies[d].as_str()) {
                    absent = Some(d);
                }
                d = d + 1;
            }
            match absent {
                Some(a) => {
                    found = Some(
                        LoadError::MissingDependency {
                            mod_id: list[i].manifest.id.as_str().to_owned(),
                            dependency: list[i].manifest.dependencies[a].as_str().to_owned(),
                        },
                    );
                },
                None => {},
            }
        }
        i = i + 1;
    }
    found
}

/// Places as mathematical integers.
pub open spec fn as_ints(v: Seq<usize>) -> Seq<int> {
    Seq::new(v.len(), |i: int| v[i] as int)
}

/// Whether a place is taken.
fn has_place(placed: &Vec<usize>, i: usize) -> (b: bool)
    ensures
        b == as_ints(placed@).contains(i as int),
{
    let mut k: usize = 0;
    while k < placed.len()
        invariant
            k <= placed@.len(),
            forall|j: int| 0 <= j < k ==> (#[trigger] as_ints(placed@)[j]) != i,
        decreases placed@.len() - k,
    {
        assert(as_ints(placed@)[k as int] == placed@[k as int]);
        if placed[k] == i {
            return true;
        }
        k = k + 1;
    }
    false
}

/// Whether the mod with this id has been placed.
fn has_mod(list: &Vec<ModDir>, placed: &Vec<usize>, id: &str) -> (b: bool)
    requires
        forall|k: int| 0 <= k < placed@.len() ==> (#[trigger] placed@[k]) < list@.len(),
    ensures
        b == is_placed(list@, as_ints(placed@), id@),
{
    let ghost p = as_ints(placed@);
    let mut k: usize = 0;
    while k < placed.len()
        invariant
            k <= placed@.len(),
            p == as_ints(placed@),
            forall|k: int| 0 <= k < placed@.len() ==> (#[trigger] placed@[k]) < list@.len(),
            forall|j: int| 0 <= j < k ==> list@[#[trigger] p[j]].id() != id@,
        decreases placed@.len() - k,
    {
        assert(p[k as int] == placed@[k as int]);
        if same_text(list[placed[k]].manifest.id.as_str(), id) {
            assert(list@[p[k as int]].id() == id@);
            return true;
        }
        k = k + 1;
    }
    false
}

/// Whether mod `i` can be placed next.
fn can_place(list: &Vec<ModDir>, placed: &Vec<usize>, i: usize) -> (b: bool)
    requires
        i < list@.len(),
        forall|k: int| 0 <= k < placed@.len() ==> (#[trigger] placed@[k]) < list@.len(),
    ensures
        b == is_ready(list@, as_ints(placed@), i as int),
{
    if has_place(placed, i) {
        return false;
    }
    let mut d: usize = 0;
    while d < list[i].manifest.dependencies.len()
        invariant
            i < list@.len(),
            d <= list@[i as int].manifest.dependencies@.len(),
            forall|k: int| 0 <= k < placed@.len() ==> (#[trigger] placed@[k]) < list@.len(),
            forall|e: int|
                0 <= e < d ==> is_placed(
                    list@,
                    as_ints(placed@),
                    #[trigger] list@[i as int].needs()[e],
                ),
        decreases list@[i as int].manifest.dependencies@.len() - d,
    {
        assert(list@[i as int].needs()[d as int]
            == list@[i as int].manifest.dependencies@[d as int]@);
        if !has_mod(list, placed, list[i].manifest.dependencies[d].as_str()) {
            return false;
        }
        d = d + 1;
    }
    true
}

/// The last mod that can be placed next.
fn pick_ready(list: &Vec<ModDir>, placed: &Vec<usize>) -> (r: Option<usize>)
    requires
        forall|k: int| 0 <= k < placed@.len() ==> (#[trigger] placed@[k]) < list@.len(),
    ensures
        match r {
            Some(i) => i < list@.len() && last_ready(
                list@,
                as_ints(placed@),
                list@.len() as int,
            ) == Some(i as int) && is_ready(list@, as_ints(placed@), i as int),
            None => last_ready(list@, as_ints(placed@), list@.len() as int) is None,
        },
{
    let mut n: usize = list.len();
    while n > 0
        invariant
            n <= list@.len(),
            forall|k: int| 0 <= k < placed@.len() ==> (#[trigger] placed@[k]) < list@.len(),
            last_ready(list@, as_ints(placed@), n as int) == last_ready(
                list@,
                as_ints(placed@),
                list@.len() as int,
            ),
        decreases n,
    {
        if can_place(list, placed, n - 1) {
            return Some(n - 1);
        }
        n = n - 1;
    }
    None
}

/// The order mods are placed in.
fn place_all(list: &Vec<ModDir>) -> (placed: Vec<usize>)
    ensures
        as_ints(placed@) == placed_after(list@, Seq::empty()),
        forall|k: int| 0 <= k < placed@.len() ==> (#[trigger] placed@[k]) < list@.len(),
        as_ints(placed@).no_duplicates(),
        placed@.len() <= list@.len(),
{
    let mut placed: Vec<usize> = Vec::new();
    let mut done = false;
    assert(as_ints(placed@) =~= Seq::empty());
    while !done && placed.len() < list.len()
        invariant
            placed@.len() <= list@.len(),
            forall|k: int| 0 <= k < placed@.len() ==> (#[trigger] placed@[k]) < list@.len(),
            as_ints(placed@).no_duplicates(),
            placed_after(list@, as_ints(placed@)) == placed_after(list@, Seq::empty()),
            done ==> placed_after(list@, as_ints(placed@)) == as_ints(placed@),
        decreases list@.len() - placed@.len() + (if done {
            0int
        } else {
            1
        }),
    {
        let ghost before = as_ints(placed@);
        match pick_ready(list, &placed) {
            Some(i) => {
                placed.push(i);
                assert(as_ints(placed@) =~= before.push(i as int));
            },
            None => {
                done = true;
            },
        }
    }
    placed
}

/// The ids of the mods that were not placed.
fn list_stuck(list: &Vec<ModDir>, placed: &Vec<usize>) -> (r: Vec<String>)
    ensures
        text::texts(r@) == stuck(list@, as_ints(placed@), list@.len() as int),
{
    let mut out: Vec<String> = Vec::new();
    let mut i: usize = 0;
    assert(text::texts(out@) =~= Seq::empty());
    while i < list.len()
        invariant
            i <= list@.len(),
            text::texts(out@) == stuck(list@, as_ints(placed@), i as int),
        decreases list@.len() - i,
    {
        if !has_place(placed, i) {
            let ghost before = out@;
            let id = list[i].manifest.id.as_str().to_owned();
            out.push(id);
            assert(text::texts(out@) =~= text::texts(before).push(id@));
        }
        i = i + 1;
    }
    out
}

/// The mods at these places.
fn take_in_order(list: Vec<ModDir>, placed: &Vec<usize>) -> (out: Vec<ModDir>)
    requires
        forall|k: int| 0 <= k < placed@.len() ==> (#[trigger] placed@[k]) < list@.len(),
        as_ints(placed@).no_duplicates(),
    ensures
        out@ == Seq::new(placed@.len(), |k: int| list@[placed@[k] as int]),
{
    let ghost all = list@;
    let ghost p = as_ints(placed@);
    let mut list = list;
    let mut slots: Vec<Option<ModDir>> = Vec::new();
    assert(all.skip(0) =~= all);
    while list.len() > 0
        invariant
            slots@.len() <= all.len(),
            list@ == all.skip(slots@.len() as int),
            forall|j: int| 0 <= j < slots@.len() ==> #[trigger] slots@[j] == Some(all[j]),
        decreases list@.len(),
    {
        let m = list.remove(0);
        slots.push(Some(m));
        assert(list@ =~= all.skip(slots@.len() as int));
    }
    let mut out: Vec<ModDir> = Vec::new();
    let mut k: usize = 0;
    while k < placed.len()
        invariant
            k <= placed@.len(),
            slots@.len() == all.len(),
            p == as_ints(placed@),
            p.no_duplicates(),
            forall|k: int| 0 <= k < placed@.len() ==> (#[trigger] placed@[k]) < all.len(),
            out@.len() == k,
            forall|j: int| 0 <= j < k ==> #[trigger] out@[j] == all[placed@[j] as int],
            forall|j: int|
                k <= j < placed@.len() ==> slots@[(#[trigger] placed@[j]) as int] == Some(
                    all[placed@[j] as int],
                ),
        decreases placed@.len() - k,
    {
        let i = placed[k];
        let ghost before = slots@;
        match slots[i].take() {
            Some(m) => {
                out.push(m);
            },
            None => {
                assert(false);
            },
        }
        proof {
            assert forall|j: int| k + 1 <= j < placed@.len() implies slots@[(
            #[trigger] placed@[j]) as int] == Some(all[placed@[j] as int]) by {
                assert(p[j] != p[k as int]);
            }
        }
        k = k + 1;
    }
    assert(out@ =~= Seq::new(placed@.len(), |k: int| all[placed@[k] as int]));
    out
}

/// Order mods so every dependency precedes its dependents. Where several could come
/// next, the one with the greatest id does, so the order does not depend on how the mods
/// were found. Of mods that share an id the last counts.
pub fn topo_order(mods: Vec<ModDir>) -> (r: Result<Vec<ModDir>, LoadError>)
    ensures
        ordered(mods@, r),
{
    let ghost given = mods@;
    let list = catalogue(mods);
    let ghost all = list@;
    match find_missing(&list) {
        Some(e) => {
            assert(is_catalogue(given, all));
            return Err(e);
        },
        None => {},
    }
    let placed = place_all(&list);
    if placed.len() < list.len() {
        let names = list_stuck(&list, &placed);
        let e = LoadError::DependencyCycle(join(&names, ", "));
        assert(is_catalogue(given, all));
        return Err(e);
    }
    let out = take_in_order(list, &placed);
    proof {
        let order = placed_after(all, Seq::empty());
        assert(out@ =~= Seq::new(order.len(), |k: int| all[order[k]]));
        assert(is_catalogue(given, all));
    }
    Ok(out)
}

/// Whether each mod stands once, after all it needs.
pub open spec fn in_order(list: Seq<ModDir>, placed: Seq<int>) -> bool {
    &&& placed.no_duplicates()
    &&& forall|k: int| 0 <= k < placed.len() ==> 0 <= #[trigger] placed[k] < list.len()
    &&& forall|k: int, d: int|
        #![trigger list[placed[k]].needs()[d]]
        0 <= k < placed.len() && 0 <= d < list[placed[k]].needs().len() ==> is_placed(
            list,
            placed.take(k),
            list[placed[k]].needs()[d],
        )
}

proof fn lemma_last_ready(list: Seq<ModDir>, placed: Seq<int>, n: int)
    requires
        n <= list.len(),
    ensures
        match last_ready(list, placed, n) {
            Some(i) => is_ready(list, placed, i),
            None => forall|i: int| 0 <= i < n ==> !is_ready(list, placed, i),
        },
    decreases n,
{
    if n > 0 && !is_ready(list, placed, n - 1) {
        lemma_last_ready(list, placed, n - 1);
    }
}

/// Placing goes on until no mod can be placed, and keeps the order sound.
proof fn lemma_placed_after(list: Seq<ModDir>, placed: Seq<int>)
    requires
        in_order(list, placed),
    ensures
        in_order(list, placed_after(list, placed)),
        placed_after(list, placed).len() >= list.len() || forall|i: int|
            !#[trigger] is_ready(list, placed_after(list, placed), i),
    decreases list.len() - placed.len(),
{
    if placed.len() < list.len() {
        lemma_last_ready(list, placed, list.len() as int);
        match last_ready(list, placed, list.len() as int) {
            None => {},
            Some(i) => {
                let next = placed.push(i);
                assert forall|k: int, d: int|
                    #![trigger list[next[k]].needs()[d]]
                    0 <= k < next.len() && 0 <= d < list[next[k]].needs().len() implies is_placed(
                    list,
                    next.take(k),
                    list[next[k]].needs()[d],
                ) by {
                    assert(next.take(k) =~= placed.take(k));
                    if k < placed.len() {
                        assert(list[placed[k]].needs()[d] == list[next[k]].needs()[d]);
                    } else {
                        assert(placed.take(k) =~= placed);
                    }
                }
                lemma_placed_after(list, next);
            },
        }
    }
}

/// A mod loads after every mod it depends on.
pub proof fn lemma_dependencies_first(list: Seq<ModDir>, order: Seq<ModDir>, k: int, d: int)
    requires
        load_order(list) == Ok::<Seq<ModDir>, LoadErrorView>(order),
        0 <= k < order.len(),
        0 <= d < order[k].needs().len(),
    ensures
        exists|j: int| 0 <= j < k && (#[trigger] order[j]).id() == order[k].needs()[d],
{
    let placed = placed_after(list, Seq::empty());
    lemma_placed_after(list, Seq::empty());
    assert(order[k] == list[placed[k]]);
    assert(is_placed(list, placed.take(k), list[placed[k]].needs()[d]));
    let j = choose|j: int|
        0 <= j < placed.take(k).len() && list[#[trigger] placed.take(k)[j]].id()
            == list[placed[k]].needs()[d];
    assert(order[j] == list[placed[j]]);
}

/// Every mod of the catalogue is loaded, each once.
pub proof fn lemma_all_loaded(list: Seq<ModDir>, order: Seq<ModDir>)
    requires
        ascending(list),
        load_order(list) == Ok::<Seq<ModDir>, LoadErrorView>(order),
    ensures
        order.len() == list.len(),
        forall|i: int| 0 <= i < list.len() ==> order.contains(#[trigger] list[i]),
        ids(order).no_duplicates(),
{
    let placed = placed_after(list, Seq::empty());
    lemma_placed_after(list, Seq::empty());
    lemma_bounded_distinct(placed, list.len() as int);
    assert forall|i: int| 0 <= i < list.len() implies order.contains(#[trigger] list[i]) by {
        lemma_onto(placed, list.len() as int, i);
        let k = placed.index_of(i);
        assert(order[k] == list[i]);
    }
    assert forall|a: int, b: int|
        0 <= a < ids(order).len() && 0 <= b < ids(order).len() && a != b implies #[trigger] ids(
        order,
    )[a] != #[trigger] ids(order)[b] by {
        let i = placed[a];
        let j = placed[b];
        assert(order[a] == list[i]);
        assert(order[b] == list[j]);
        assert(i != j);
        text::lemma_text_order(list[i].id(), list[j].id(), list[i].id());
        text::lemma_text_order(list[j].id(), list[i].id(), list[j].id());
        if i < j {
            assert(text::text_less(list[i].id(), list[j].id()));
        } else {
            assert(text::text_less(list[j].id(), list[i].id()));
        }
    }
}

/// Distinct numbers below `n` are at most `n`.
proof fn lemma_bounded_distinct(s: Seq<int>, n: int)
    requires
        s.no_duplicates(),
        n >= 0,
        forall|k: int| 0 <= k < s.len() ==> 0 <= #[trigger] s[k] < n,
    ensures
        s.len() <= n,
    decreases n,
{
    if s.len() > 0 {
        if n == 0 {
            assert(0 <= s[0] < n);
        } else if s.contains(n - 1) {
            let k = s.index_of(n - 1);
            let t = s.remove(k);
            assert forall|j: int| 0 <= j < t.len() implies 0 <= #[trigger] t[j] < n - 1 by {
                let o = if j < k {
                    j
                } else {
                    j + 1
                };
                assert(t[j] == s[o]);
                assert(s[o] != s[k]);
            }
            assert(t.no_duplicates());
            lemma_bounded_distinct(t, n - 1);
        } else {
            assert forall|j: int| 0 <= j < s.len() implies 0 <= #[trigger] s[j] < n - 1 by {
                assert(s[j] != n - 1);
            }
            lemma_bounded_distinct(s, n - 1);
        }
    }
}

/// As many distinct numbers below `n` as there are include each.
proof fn lemma_onto(s: Seq<int>, n: int, i: int)
    requires
        s.no_duplicates(),
        s.len() >= n,
        0 <= i < n,
        forall|k: int| 0 <= k < s.len() ==> 0 <= #[trigger] s[k] < n,
    ensures
        s.contains(i),
{
    if !s.contains(i) {
        let t = s.push(i);
        assert(t.no_duplicates()) by {
            assert forall|a: int, b: int|
                0 <= a < t.len() && 0 <= b < t.len() && a != b implies t[a] != t[b] by {
                if a < s.len() && b < s.len() {
                    assert(s[a] != s[b]);
                } else if a < s.len() {
                    assert(s.contains(s[a]));
                } else {
                    assert(s.contains(s[b]));
                }
            }
        }
        lemma_bounded_distinct(t, n);
    }
}

/// A mod that cannot be placed depends on one that cannot be placed either: the mods
/// that a cycle error names hold a circle.
pub proof fn lemma_stuck_depends_on_stuck(list: Seq<ModDir>, i: int)
    requires
        first_missing(list, list.len() as int) is None,
        placed_after(list, Seq::empty()).len() < list.len(),
        0 <= i < list.len(),
        !placed_after(list, Seq::empty()).contains(i),
    ensures
        exists|j: int|
            0 <= j < list.len() && list[i].needs().contains((#[trigger] list[j]).id())
                && !placed_after(list, Seq::empty()).contains(j),
{
    let placed = placed_after(list, Seq::empty());
    lemma_placed_after(list, Seq::empty());
    assert(!is_ready(list, placed, i));
    let d = choose|d: int|
        0 <= d < list[i].needs().len() && !is_placed(list, placed, #[trigger] list[i].needs()[d]);
    let id = list[i].needs()[d];
    lemma_not_missing(list, list.len() as int, i);
    lemma_known(list, list[i], list[i].needs().len() as int, d);
    let j = ids(list).index_of(id);
    assert(list[j].id() == id);
    if placed.contains(j) {
        let k = placed.index_of(j);
        assert(list[placed[k]].id() == id);
    }
    assert(list[i].needs().contains(list[j].id()));
}

proof fn lemma_not_missing(list: Seq<ModDir>, n: int, i: int)
    requires
        first_missing(list, n) is None,
        0 <= i < n,
    ensures
        missing_of(list, list[i], list[i].needs().len() as int) is None,
    decreases n,
{
    if i < n - 1 {
        lemma_not_missing(list, n - 1, i);
    }
}

proof fn lemma_known(list: Seq<ModDir>, m: ModDir, n: int, d: int)
    requires
        missing_of(list, m, n) is None,
        0 <= d < n,
    ensures
        ids(list).contains(m.needs()[d]),
    decreases n,
{
    if d < n - 1 {
        lemma_known(list, m, n - 1, d);
    }
}

/// There is one catalogue of given mods, so the load order is a function of them.
pub proof fn lemma_catalogue_unique(mods: Seq<ModDir>, a: Seq<ModDir>, b: Seq<ModDir>)
    requires
        is_catalogue(mods, a),
        is_catalogue(mods, b),
    ensures
        a == b,
{
    lemma_catalogue_prefix(mods, a, b, if a.len() <= b.len() {
        a.len() as int
    } else {
        b.len() as int
    });
    lemma_no_more(mods, a, b);
    lemma_no_more(mods, b, a);
    assert(a =~= b);
}

/// A catalogue that agrees with another as far as both go is no longer than it.
proof fn lemma_no_more(mods: Seq<ModDir>, a: Seq<ModDir>, b: Seq<ModDir>)
    requires
        is_catalogue(mods, a),
        is_catalogue(mods, b),
        forall|i: int| 0 <= i < a.len() && i < b.len() ==> #[trigger] a[i] == b[i],
    ensures
        b.len() <= a.len(),
{
    if a.len() < b.len() {
        let n = a.len() as int;
        assert(is_latest(mods, b[n]));
        let k = choose|k: int|
            0 <= k < mods.len() && (#[trigger] mods[k]) == b[n] && forall|l: int|
                k < l < mods.len() ==> (#[trigger] mods[l]).id() != b[n].id();
        assert(ids(a).contains(mods[k].id()));
        let j = ids(a).index_of(b[n].id());
        assert(a[j] == b[j]);
        assert(text::text_less(b[j].id(), b[n].id()));
        text::lemma_text_order(b[n].id(), b[n].id(), b[n].id());
    }
}

proof fn lemma_catalogue_prefix(mods: Seq<ModDir>, a: Seq<ModDir>, b: Seq<ModDir>, n: int)
    requires
        is_catalogue(mods, a),
        is_catalogue(mods, b),
        0 <= n <= a.len(),
        n <= b.len(),
    ensures
        forall|i: int| 0 <= i < n ==> #[trigger] a[i] == b[i],
    decreases n,
{
    if n > 0 {
        lemma_catalogue_prefix(mods, a, b, n - 1);
        lemma_not_before(mods, a, b, n - 1);
        lemma_not_before(mods, b, a, n - 1);
        text::lemma_text_order(a[n - 1].id(), b[n - 1].id(), a[n - 1].id());
        assert(a[n - 1].id() == b[n - 1].id());
        lemma_latest_unique(mods, a[n - 1], b[n - 1]);
    }
}

/// Where two catalogues agree up to `n`, the second's next does not come before the
/// first's.
proof fn lemma_not_before(mods: Seq<ModDir>, a: Seq<ModDir>, b: Seq<ModDir>, n: int)
    requires
        is_catalogue(mods, a),
        is_catalogue(mods, b),
        0 <= n < a.len(),
        n < b.len(),
        forall|i: int| 0 <= i < n ==> #[trigger] a[i] == b[i],
    ensures
        !text::text_less(b[n].id(), a[n].id()),
{
    assert(is_latest(mods, b[n]));
    let k = choose|k: int|
        0 <= k < mods.len() && (#[trigger] mods[k]) == b[n] && forall|l: int|
            k < l < mods.len() ==> (#[trigger] mods[l]).id() != b[n].id();
    assert(ids(a).contains(mods[k].id()));
    let j = ids(a).index_of(b[n].id());
    assert(a[j].id() == b[n].id());
    text::lemma_text_order(b[n].id(), a[n].id(), b[n].id());
    text::lemma_text_order(a[n].id(), b[n].id(), a[n].id());
    if j < n {
        assert(a[j] == b[j]);
        assert(text::text_less(b[j].id(), b[n].id()));
        text::lemma_text_order(b[n].id(), b[n].id(), b[n].id());
    } else if j > n {
        assert(text::text_less(a[n].id(), a[j].id()));
    }
}

proof fn lemma_latest_unique(mods: Seq<ModDir>, m: ModDir, o: ModDir)
    requires
        is_latest(mods, m),
        is_latest(mods, o),
        m.id() == o.id(),
    ensures
        m == o,
{
    let k = choose|k: int|
        0 <= k < mods.len() && (#[trigger] mods[k]) == m && forall|l: int|
            k < l < mods.len() ==> (#[trigger] mods[l]).id() != m.id();
    let l = choose|l: int|
        0 <= l < mods.len() && (#[trigger] mods[l]) == o && forall|j: int|
            l < j < mods.len() ==> (#[trigger] mods[j]).id() != o.id();
    if k < l {
        assert(mods[l].id() != m.id());
    } else if l < k {
        assert(mods[k].id() != o.id());
    }
}

/// The load order does not depend on the order mods are discovered in.
pub proof fn lemma_discovery_order(
    mods: Seq<ModDir>,
    other: Seq<ModDir>,
    a: Seq<ModDir>,
    b: Seq<ModDir>,
)
    requires
        ids(mods).no_duplicates(),
        ids(other).no_duplicates(),
        forall|m: ModDir| mods.contains(m) <==> #[trigger] other.contains(m),
        is_catalogue(mods, a),
        is_catalogue(other, b),
    ensures
        load_order(a) == load_order(b),
{
    assert forall|i: int| 0 <= i < a.len() implies is_latest(other, #[trigger] a[i]) by {
        assert(is_latest(mods, a[i]));
        let k = choose|k: int|
            0 <= k < mods.len() && (#[trigger] mods[k]) == a[i] && forall|l: int|
                k < l < mods.len() ==> (#[trigger] mods[l]).id() != a[i].id();
        assert(mods.contains(a[i]));
        assert(other.contains(a[i]));
        let o = other.index_of(a[i]);
        assert forall|l: int| o < l < other.len() implies (#[trigger] other[l]).id()
            != a[i].id() by {
            assert(ids(other)[l] != ids(other)[o]);
        }
    }
    assert forall|k: int| 0 <= k < other.len() implies ids(a).contains(
        (#[trigger] other[k]).id(),
    ) by {
        assert(other.contains(other[k]));
        assert(mods.contains(other[k]));
        let j = mods.index_of(other[k]);
        assert(ids(a).contains(mods[j].id()));
    }
    lemma_catalogue_unique(other, a, b);
}

/// The next mod to be placed is the one with the greatest place among those that have not
/// been and whose needs have all been met; none is placed only where there is no such one.
pub proof fn lemma_greatest_ready_goes_first(list: Seq<ModDir>, placed: Seq<int>, n: int)
    requires
        0 <= n <= list.len(),
    ensures
        match last_ready(list, placed, n) {
            Some(i) => {
                &&& 0 <= i < n
                &&& !placed.contains(i)
                &&& forall|d: int|
                    0 <= d < list[i].needs().len() ==> is_placed(
                        list,
                        placed,
                        #[trigger] list[i].needs()[d],
                    )
                &&& forall|j: int| i < j < n ==> !#[trigger] is_ready(list, placed, j)
            },
            None => forall|j: int| 0 <= j < n ==> !#[trigger] is_ready(list, placed, j),
        },
    decreases n,
{
    if n > 0 {
        if !is_ready(list, placed, n - 1) {
            lemma_greatest_ready_goes_first(list, placed, n - 1);
        }
    }
}

/// A dependency that is said to be missing is one that the mod needs and that no mod has
/// as its id; where none is said to be, every need of every mod is there.
pub proof fn lemma_missing_is_really_missing(list: Seq<ModDir>, n: int)
    requires
        0 <= n <= list.len(),
    ensures
        match first_missing(list, n) {
            Some(LoadErrorView::MissingDependency { mod_id, dependency }) => {
                &&& !ids(list).contains(dependency)
                &&& exists|i: int|
                    0 <= i < n && (#[trigger] list[i]).id() == mod_id && list[i].needs().contains(
                        dependency,
                    )
            },
            Some(_) => false,
            None => forall|i: int, d: int|
                0 <= i < n && 0 <= d < list[i].needs().len() ==> ids(list).contains(
                    #[trigger] list[i].needs()[d],
                ),
        },
    decreases n,
{
    if n > 0 {
        let p: int = n - 1;
        lemma_missing_is_really_missing(list, p);
        let m = list[p];
        lemma_missing_of(list, m, m.needs().len() as int);
        if let Some(LoadErrorView::MissingDependency { mod_id, dependency }) = first_missing(list, p) {
            let i = choose|i: int|
                0 <= i < p && (#[trigger] list[i]).id() == mod_id && list[i].needs().contains(
                    dependency,
                );
            assert(0 <= i < n && list[i].id() == mod_id);
        }
    }
}

proof fn lemma_missing_of(list: Seq<ModDir>, m: ModDir, n: int)
    requires
        0 <= n <= m.needs().len(),
    ensures
        match missing_of(list, m, n) {
            Some(d) => m.needs().contains(d) && !ids(list).contains(d),
            None => forall|d: int| 0 <= d < n ==> ids(list).contains(#[trigger] m.needs()[d]),
        },
    decreases n,
{
    if n > 0 {
        lemma_missing_of(list, m, n - 1);
    }
}

/// The mods that a circle is blamed on are exactly those that were not placed.
pub proof fn lemma_stuck_are_the_rest(list: Seq<ModDir>, placed: Seq<int>, n: int)
    requires
        0 <= n <= list.len(),
    ensures
        stuck(list, placed, n).len() + Seq::new(n as nat, |i: int| i).filter(
            |i: int| placed.contains(i),
        ).len() == n,
        forall|i: int|
            0 <= i < n && !#[trigger] placed.contains(i) ==> stuck(list, placed, n).contains(
                list[i].id(),
            ),
    decreases n,
{
    reveal(Seq::filter);
    let all = Seq::new(n as nat, |i: int| i);
    if n > 0 {
        lemma_stuck_are_the_rest(list, placed, n - 1);
        assert(all.drop_last() =~= Seq::new((n - 1) as nat, |i: int| i));
        assert(all.last() == n - 1);
        let before = stuck(list, placed, n - 1);
        let after = stuck(list, placed, n);
        assert forall|i: int| 0 <= i < n && !#[trigger] placed.contains(i) implies after.contains(
            list[i].id(),
        ) by {
            if i < n - 1 {
                assert(before.contains(list[i].id()));
                let k = before.index_of(list[i].id());
                assert(after[k] == list[i].id());
            } else {
                assert(after[after.len() - 1] == list[i].id());
            }
        }
    }
}

} // verus!
