//! Merging what mods contribute into one set of content, under the override rules.

use vstd::prelude::*;

use crate::data::{
    CommodityDef, LoadedScript, MergedContent, ProductionRecipe, ShipDef, SystemDef,
};
use crate::load_error::{LoadError, LoadErrorView};
use crate::manifest::{Manifest, ModDir};
use crate::search;
use crate::text;
use crate::text::same_text;

verus! {

/// A definition with a unique id.
pub trait Keyed {
    /// The id.
    spec fn key(&self) -> Seq<char>;

    /// The id.
    fn id(&self) -> (s: &str)
        ensures
            s@ == self.key(),
    ;
}

impl Keyed for CommodityDef {
    open spec fn key(&self) -> Seq<char> {
        self.id@
    }

    fn id(&self) -> (s: &str) {
        self.id.as_str()
    }
}

impl Keyed for ProductionRecipe {
    open spec fn key(&self) -> Seq<char> {
        self.id@
    }

    fn id(&self) -> (s: &str) {
        self.id.as_str()
    }
}

impl Keyed for SystemDef {
    open spec fn key(&self) -> Seq<char> {
        self.id@
    }

    fn id(&self) -> (s: &str) {
        self.id.as_str()
    }
}

impl Keyed for ShipDef {
    open spec fn key(&self) -> Seq<char> {
        self.id@
    }

    fn id(&self) -> (s: &str) {
        self.id.as_str()
    }
}

/// The ids of a list of definitions.
pub open spec fn keys<T: Keyed>(defs: Seq<T>) -> Seq<Seq<char>> {
    Seq::new(defs.len(), |i: int| defs[i].key())
}

/// What has been merged so far: the definitions, and the mod each came from.
#[verifier::ext_equal]
#[verifier::reject_recursive_types(T)]
pub struct Merged<T> {
    pub defs: Seq<T>,
    pub owners: Seq<Seq<char>>,
}

/// An id that is this one.
pub open spec fn is_key(id: Seq<char>) -> spec_fn(Seq<char>) -> bool {
    |k: Seq<char>| k == id
}

/// The place of the definition with this id.
pub open spec fn place_of<T: Keyed>(defs: Seq<T>, id: Seq<char>) -> Option<int> {
    search::first(keys(defs), is_key(id))
}

/// One definition more. A new id comes last; a known one is replaced where it stands,
/// but only by another mod that declares the override.
pub open spec fn with_def<T: Keyed>(
    kind: Seq<char>,
    m: Manifest,
    so_far: Merged<T>,
    def: T,
) -> Result<Merged<T>, LoadErrorView> {
    match place_of(so_far.defs, def.key()) {
        None => Ok(
            Merged { defs: so_far.defs.push(def), owners: so_far.owners.push(m.id@) },
        ),
        Some(p) => if so_far.owners[p] == m.id@ || !text::texts(m.overrides@).contains(
            def.key(),
        ) {
            Err(
                LoadErrorView::DuplicateId {
                    kind,
                    id: def.key(),
                    first: so_far.owners[p],
                    second: m.id@,
                },
            )
        } else {
            Ok(
                Merged {
                    defs: so_far.defs.update(p, def),
                    owners: so_far.owners.update(p, m.id@),
                },
            )
        },
    }
}

/// The first `n` definitions of a mod.
pub open spec fn with_defs<T: Keyed>(
    kind: Seq<char>,
    m: Manifest,
    so_far: Merged<T>,
    defs: Seq<T>,
    n: int,
) -> Result<Merged<T>, LoadErrorView>
    decreases n,
{
    if n <= 0 {
        Ok(so_far)
    } else {
        match with_defs(kind, m, so_far, defs, n - 1) {
            Err(e) => Err(e),
            Ok(s) => with_def(kind, m, s, defs[n - 1]),
        }
    }
}

/// The definitions of the first `n` mods, in load order.
pub open spec fn merged_mods<T: Keyed>(
    kind: Seq<char>,
    mods: Seq<ModDir>,
    per_mod: Seq<Vec<T>>,
    n: int,
) -> Result<Merged<T>, LoadErrorView>
    decreases n,
{
    if n <= 0 {
        Ok(Merged { defs: Seq::empty(), owners: Seq::empty() })
    } else {
        match merged_mods(kind, mods, per_mod, n - 1) {
            Err(e) => Err(e),
            Ok(s) => with_defs(
                kind,
                mods[n - 1].manifest,
                s,
                per_mod[n - 1]@,
                per_mod[n - 1]@.len() as int,
            ),
        }
    }
}

/// The merged definitions of a kind, or the first collision.
pub open spec fn merged<T: Keyed>(kind: Seq<char>, mods: Seq<ModDir>, per_mod: Seq<Vec<T>>) -> Result<
    Seq<T>,
    LoadErrorView,
> {
    match merged_mods(kind, mods, per_mod, per_mod.len() as int) {
        Err(e) => Err(e),
        Ok(s) => Ok(s.defs),
    }
}

/// No id occurs twice.
pub open spec fn distinct<T: Keyed>(defs: Seq<T>) -> bool {
    keys(defs).no_duplicates()
}

proof fn lemma_with_def<T: Keyed>(kind: Seq<char>, m: Manifest, so_far: Merged<T>, def: T)
    requires
        distinct(so_far.defs),
        so_far.defs.len() == so_far.owners.len(),
    ensures
        match with_def(kind, m, so_far, def) {
            Ok(s) => distinct(s.defs) && s.defs.len() == s.owners.len(),
            Err(_) => true,
        },
{
    let ks = keys(so_far.defs);
    search::lemma_first_found(ks, is_key(def.key()));
    match with_def(kind, m, so_far, def) {
        Err(_) => {},
        Ok(s) => match place_of(so_far.defs, def.key()) {
            None => {
                assert forall|i: int| 0 <= i < ks.len() implies #[trigger] ks[i] != def.key() by {
                    if ks[i] == def.key() {
                        assert(is_key(def.key())(ks[i]));
                        search::lemma_first_some(ks, is_key(def.key()), i);
                    }
                }
                assert(keys(s.defs) =~= ks.push(def.key()));
            },
            Some(p) => {
                assert(keys(s.defs) =~= ks);
            },
        },
    }
}

proof fn lemma_with_defs<T: Keyed>(
    kind: Seq<char>,
    m: Manifest,
    so_far: Merged<T>,
    defs: Seq<T>,
    n: int,
)
    requires
        distinct(so_far.defs),
        so_far.defs.len() == so_far.owners.len(),
    ensures
        match with_defs(kind, m, so_far, defs, n) {
            Ok(s) => distinct(s.defs) && s.defs.len() == s.owners.len(),
            Err(_) => true,
        },
    decreases n,
{
    if n > 0 {
        lemma_with_defs(kind, m, so_far, defs, n - 1);
        match with_defs(kind, m, so_far, defs, n - 1) {
            Ok(s) => {
                lemma_with_def(kind, m, s, defs[n - 1]);
            },
            Err(_) => {},
        }
    }
}

/// Merged content holds each id once.
pub proof fn lemma_merged_distinct<T: Keyed>(
    kind: Seq<char>,
    mods: Seq<ModDir>,
    per_mod: Seq<Vec<T>>,
    n: int,
)
    ensures
        match merged_mods(kind, mods, per_mod, n) {
            Ok(s) => distinct(s.defs) && s.defs.len() == s.owners.len(),
            Err(_) => true,
        },
    decreases n,
{
    if n > 0 {
        lemma_merged_distinct(kind, mods, per_mod, n - 1);
        match merged_mods(kind, mods, per_mod, n - 1) {
            Ok(s) => {
                lemma_with_defs(
                    kind,
                    mods[n - 1].manifest,
                    s,
                    per_mod[n - 1]@,
                    per_mod[n - 1]@.len() as int,
                );
            },
            Err(_) => {},
        }
    }
}

/// The place of the definition with this id.
fn find_place<T: Keyed>(defs: &Vec<T>, id: &str) -> (r: Option<usize>)
    ensures
        match r {
            Some(p) => p < defs@.len() && place_of(defs@, id@) == Some(p as int),
            None => place_of(defs@, id@) is None,
        },
{
    let ghost ks = keys(defs@);
    let ghost p = is_key(id@);
    let mut i: usize = 0;
    while i < defs.len()
        invariant
            i <= defs@.len(),
            ks == keys(defs@),
            p == is_key(id@),
            forall|j: int| 0 <= j < i ==> !p(#[trigger] ks[j]),
        decreases defs@.len() - i,
    {
        assert(ks[i as int] == defs@[i as int].key());
        if same_text(defs[i].id(), id) {
            proof {
                search::lemma_first_is(ks, p, i as int);
            }
            return Some(i);
        }
        i = i + 1;
    }
    proof {
        search::lemma_first_none(ks, p);
    }
    None
}

/// A failure at definition `k` of a mod is the failure of that mod.
proof fn lemma_def_fails<T: Keyed>(
    kind: Seq<char>,
    m: Manifest,
    so_far: Merged<T>,
    defs: Seq<T>,
    k: int,
    n: int,
    e: LoadErrorView,
)
    requires
        0 <= k <= n,
        with_defs(kind, m, so_far, defs, k) == Err::<Merged<T>, LoadErrorView>(e),
    ensures
        with_defs(kind, m, so_far, defs, n) == Err::<Merged<T>, LoadErrorView>(e),
    decreases n,
{
    if k < n {
        lemma_def_fails(kind, m, so_far, defs, k, n - 1, e);
    }
}

/// A failure at mod `k` is the failure of the merge.
proof fn lemma_mod_fails<T: Keyed>(
    kind: Seq<char>,
    mods: Seq<ModDir>,
    per_mod: Seq<Vec<T>>,
    k: int,
    n: int,
    e: LoadErrorView,
)
    requires
        0 <= k <= n,
        merged_mods(kind, mods, per_mod, k) == Err::<Merged<T>, LoadErrorView>(e),
    ensures
        merged_mods(kind, mods, per_mod, n) == Err::<Merged<T>, LoadErrorView>(e),
    decreases n,
{
    if k < n {
        lemma_mod_fails(kind, mods, per_mod, k, n - 1, e);
    }
}

/// Merge the definitions of one mod into those so far.
fn merge_mod<T: Keyed>(
    kind: &str,
    m: &Manifest,
    defs: Vec<T>,
    out: &mut Vec<T>,
    owners: &mut Vec<String>,
) -> (r: Result<(), LoadError>)
    requires
        old(out)@.len() == old(owners)@.len(),
    ensures
        final(out)@.len() == final(owners)@.len(),
        match r {
            Ok(_) => with_defs(
                kind@,
                *m,
                Merged { defs: old(out)@, owners: text::texts(old(owners)@) },
                defs@,
                defs@.len() as int,
            ) == Ok::<Merged<T>, LoadErrorView>(
                Merged { defs: final(out)@, owners: text::texts(final(owners)@) },
            ),
            Err(e) => with_defs(
                kind@,
                *m,
                Merged { defs: old(out)@, owners: text::texts(old(owners)@) },
                defs@,
                defs@.len() as int,
            ) == Err::<Merged<T>, LoadErrorView>(e@),
        },
{
    let ghost all = defs@;
    let ghost start = Merged { defs: out@, owners: text::texts(owners@) };
    let ghost mut k: int = 0;
    let mut queue = defs;
    assert(all.skip(0) =~= all);
    while queue.len() > 0
        invariant
            0 <= k <= all.len(),
            all == defs@,
            queue@ == all.skip(k),
            out@.len() == owners@.len(),
            start == (Merged { defs: old(out)@, owners: text::texts(old(owners)@) }),
            with_defs(kind@, *m, start, all, k) == Ok::<Merged<T>, LoadErrorView>(
                Merged { defs: out@, owners: text::texts(owners@) },
            ),
        decreases queue@.len(),
    {
        let def = queue.remove(0);
        assert(def == all[k]);
        let ghost before = Merged { defs: out@, owners: text::texts(owners@) };
        match find_place(out, def.id()) {
            None => {
                out.push(def);
                let id = m.id.as_str().to_owned();
                owners.push(id);
                assert(text::texts(owners@) =~= before.owners.push(m.id@));
            },
            Some(p) => {
                assert(text::texts(owners@)[p as int] == owners@[p as int]@);
                if same_text(owners[p].as_str(), m.id.as_str()) || !m.overrides(def.id()) {
                    let e = LoadError::DuplicateId {
                        kind: kind.to_owned(),
                        id: def.id().to_owned(),
                        first: owners[p].as_str().to_owned(),
                        second: m.id.as_str().to_owned(),
                    };
                    proof {
                        assert(with_def(kind@, *m, before, def) == Err::<Merged<T>, LoadErrorView>(
                            e@,
                        ));
                        lemma_def_fails(kind@, *m, start, all, k + 1, all.len() as int, e@);
                    }
                    return Err(e);
                }
                out.set(p, def);
                owners.set(p, m.id.as_str().to_owned());
                assert(text::texts(owners@) =~= before.owners.update(p as int, m.id@));
            },
        }
        proof {
            assert(with_def(kind@, *m, before, def) == Ok::<Merged<T>, LoadErrorView>(
                Merged { defs: out@, owners: text::texts(owners@) },
            ));
            k = k + 1;
            assert(queue@ =~= all.skip(k));
        }
    }
    Ok(())
}

/// Merge the definitions of a kind, mod by mod in load order. A mod that defines an id
/// twice always fails; a later mod may replace an id only if it declares the override.
pub fn merge<T: Keyed>(kind: &str, mods: &Vec<ModDir>, per_mod: Vec<Vec<T>>) -> (r: Result<
    Vec<T>,
    LoadError,
>)
    requires
        per_mod@.len() <= mods@.len(),
    ensures
        match r {
            Ok(v) => merged(kind@, mods@, per_mod@) == Ok::<Seq<T>, LoadErrorView>(v@) && distinct(
                v@,
            ),
            Err(e) => merged(kind@, mods@, per_mod@) == Err::<Seq<T>, LoadErrorView>(e@),
        },
{
    let ghost all = per_mod@;
    let mut queue = per_mod;
    let n = queue.len();
    let mut out: Vec<T> = Vec::new();
    let mut owners: Vec<String> = Vec::new();
    let mut k: usize = 0;
    assert(all.skip(0) =~= all);
    assert(text::texts(owners@) =~= Seq::empty());
    while k < n
        invariant
            k <= n,
            n == all.len(),
            n <= mods@.len(),
            all == per_mod@,
            queue@ == all.skip(k as int),
            out@.len() == owners@.len(),
            merged_mods(kind@, mods@, all, k as int) == Ok::<Merged<T>, LoadErrorView>(
                Merged { defs: out@, owners: text::texts(owners@) },
            ),
        decreases n - k,
    {
        let defs = queue.remove(0);
        assert(defs == all[k as int]);
        match merge_mod(kind, &mods[k].manifest, defs, &mut out, &mut owners) {
            Ok(()) => {},
            Err(e) => {
                proof {
                    lemma_mod_fails(kind@, mods@, all, k + 1, n as int, e@);
                }
                return Err(e);
            },
        }
        assert(queue@ =~= all.skip(k + 1));
        k = k + 1;
    }
    proof {
        lemma_merged_distinct(kind@, mods@, all, n as int);
    }
    Ok(out)
}

/// A script with this name.
pub open spec fn script_named(name: Seq<char>) -> spec_fn(LoadedScript) -> bool {
    |s: LoadedScript| s.name@ == name
}

/// Whether a mod may register a script under `name`: no script before it did.
pub fn check_script(scripts: &Vec<LoadedScript>, name: &str, mod_id: &str) -> (r: Result<
    (),
    LoadError,
>)
    ensures
        match search::first(scripts@, script_named(name@)) {
            None => r is Ok,
            Some(i) => match r {
                Ok(_) => false,
                Err(e) => e@ == (LoadErrorView::DuplicateId {
                    kind: "script"@,
                    id: name@,
                    first: scripts@[i].mod_id@,
                    second: mod_id@,
                }),
            },
        },
{
    let ghost p = script_named(name@);
    let mut i: usize = 0;
    while i < scripts.len()
        invariant
            i <= scripts@.len(),
            p == script_named(name@),
            forall|j: int| 0 <= j < i ==> !p(#[trigger] scripts@[j]),
        decreases scripts@.len() - i,
    {
        if same_text(scripts[i].name.as_str(), name) {
            proof {
                search::lemma_first_is(scripts@, p, i as int);
            }
            return Err(
                LoadError::DuplicateId {
                    kind: "script".to_owned(),
                    id: name.to_owned(),
                    first: scripts[i].mod_id.as_str().to_owned(),
                    second: mod_id.to_owned(),
                },
            );
        }
        i = i + 1;
    }
    proof {
        search::lemma_first_none(scripts@, p);
    }
    Ok(())
}

/// What each mod contributes, mod by mod in load order.
#[derive(Debug)]
pub struct Contributions {
    pub commodities: Vec<Vec<CommodityDef>>,
    pub recipes: Vec<Vec<ProductionRecipe>>,
    pub systems: Vec<Vec<SystemDef>>,
    pub ships: Vec<Vec<ShipDef>>,
}

/// The first collision among the contributions: commodities, then recipes, systems and
/// ships.
pub open spec fn collision(mods: Seq<ModDir>, c: Contributions) -> Option<LoadErrorView> {
    match merged("commodity"@, mods, c.commodities@) {
        Err(e) => Some(e),
        Ok(_) => match merged("recipe"@, mods, c.recipes@) {
            Err(e) => Some(e),
            Ok(_) => match merged("system"@, mods, c.systems@) {
                Err(e) => Some(e),
                Ok(_) => match merged("ship"@, mods, c.ships@) {
                    Err(e) => Some(e),
                    Ok(_) => None,
                },
            },
        },
    }
}

/// Merge what every mod contributes; `scripts` are those the mods declared.
pub fn merge_content(mods: &Vec<ModDir>, c: Contributions, scripts: Vec<LoadedScript>) -> (r:
    Result<MergedContent, LoadError>)
    requires
        c.commodities@.len() <= mods@.len(),
        c.recipes@.len() <= mods@.len(),
        c.systems@.len() <= mods@.len(),
        c.ships@.len() <= mods@.len(),
    ensures
        match r {
            Err(e) => collision(mods@, c) == Some(e@),
            Ok(m) => {
                &&& collision(mods@, c) is None
                &&& merged("commodity"@, mods@, c.commodities@) == Ok::<
                    Seq<CommodityDef>,
                    LoadErrorView,
                >(m.commodities@)
                &&& merged("recipe"@, mods@, c.recipes@) == Ok::<
                    Seq<ProductionRecipe>,
                    LoadErrorView,
                >(m.recipes@)
                &&& merged("system"@, mods@, c.systems@) == Ok::<Seq<SystemDef>, LoadErrorView>(
                    m.systems@,
                )
                &&& merged("ship"@, mods@, c.ships@) == Ok::<Seq<ShipDef>, LoadErrorView>(m.ships@)
                &&& m.scripts == scripts
                &&& distinct(m.commodities@)
                &&& distinct(m.recipes@)
                &&& distinct(m.systems@)
                &&& distinct(m.ships@)
            },
        },
{
    let commodities = match merge("commodity", mods, c.commodities) {
        Ok(v) => v,
        Err(e) => {
            return Err(e);
        },
    };
    let recipes = match merge("recipe", mods, c.recipes) {
        Ok(v) => v,
        Err(e) => {
            return Err(e);
        },
    };
    let systems = match merge("system", mods, c.systems) {
        Ok(v) => v,
        Err(e) => {
            return Err(e);
        },
    };
    let ships = match merge("ship", mods, c.ships) {
        Ok(v) => v,
        Err(e) => {
            return Err(e);
        },
    };
    Ok(MergedContent { commodities, recipes, systems, ships, scripts })
}

/// A definition with a new id comes last. One with a known id stands in the place of the
/// one there was, and only another mod that declares the override may put it there: it is
/// a duplicate otherwise, of which both mods are told.
pub proof fn lemma_new_comes_last_and_known_is_replaced<T: Keyed>(
    kind: Seq<char>,
    m: Manifest,
    so_far: Merged<T>,
    def: T,
)
    requires
        distinct(so_far.defs),
        so_far.defs.len() == so_far.owners.len(),
    ensures
        !keys(so_far.defs).contains(def.key()) ==> with_def(kind, m, so_far, def) == Ok::<
            Merged<T>,
            LoadErrorView,
        >(Merged { defs: so_far.defs.push(def), owners: so_far.owners.push(m.id@) }),
        forall|p: int|
            0 <= p < so_far.defs.len() && (#[trigger] so_far.defs[p]).key() == def.key()
                ==> match with_def(kind, m, so_far, def) {
                Ok(s) => {
                    &&& so_far.owners[p] != m.id@
                    &&& text::texts(m.overrides@).contains(def.key())
                    &&& s.defs == so_far.defs.update(p, def)
                    &&& s.owners == so_far.owners.update(p, m.id@)
                },
                Err(e) => {
                    &&& so_far.owners[p] == m.id@ || !text::texts(m.overrides@).contains(def.key())
                    &&& e == (LoadErrorView::DuplicateId {
                        kind,
                        id: def.key(),
                        first: so_far.owners[p],
                        second: m.id@,
                    })
                },
            },
{
    let ids = keys(so_far.defs);
    let f = is_key(def.key());
    if !ids.contains(def.key()) {
        assert forall|k: int| 0 <= k < ids.len() implies !f(#[trigger] ids[k]) by {}
        search::lemma_first_none(ids, f);
    }
    assert forall|p: int|
        0 <= p < so_far.defs.len() && (#[trigger] so_far.defs[p]).key() == def.key() implies
        place_of(so_far.defs, def.key()) == Some(p) by {
        assert(ids[p] == def.key());
        assert forall|k: int| 0 <= k < p implies !f(#[trigger] ids[k]) by {
            assert(ids[k] != ids[p]);
        }
        search::lemma_first_is(ids, f, p);
    }
}

/// What a mod defines is what is there after it: every definition of it stands under its
/// id, and an id that was there before still is.
pub proof fn lemma_a_mods_definitions_stand<T: Keyed>(
    kind: Seq<char>,
    m: Manifest,
    so_far: Merged<T>,
    defs: Seq<T>,
    n: int,
)
    requires
        distinct(so_far.defs),
        so_far.defs.len() == so_far.owners.len(),
        0 <= n <= defs.len(),
    ensures
        with_defs(kind, m, so_far, defs, n) matches Ok(s) ==> {
            &&& s.defs.len() >= so_far.defs.len()
            &&& s.defs.len() == s.owners.len()
            &&& forall|i: int|
                0 <= i < n ==> stands(s, #[trigger] defs[i], m.id@)
            &&& forall|p: int|
                0 <= p < so_far.defs.len() ==> (#[trigger] s.defs[p]).key()
                    == so_far.defs[p].key() && (s.owners[p] == m.id@ || s.defs[p]
                    == so_far.defs[p])
        },
    decreases n,
{
    if n > 0 {
        let p: int = n - 1;
        lemma_a_mods_definitions_stand(kind, m, so_far, defs, p);
        lemma_with_defs(kind, m, so_far, defs, p);
        if let Ok(before) = with_defs(kind, m, so_far, defs, p) {
            let def = defs[p];
            lemma_new_comes_last_and_known_is_replaced(kind, m, before, def);
            if let Ok(s) = with_defs(kind, m, so_far, defs, n) {
                if keys(before.defs).contains(def.key()) {
                    let q = keys(before.defs).index_of(def.key());
                    assert(before.defs[q].key() == def.key());
                    assert(s.defs[q] == def && s.owners[q] == m.id@);
                    assert(stands(s, def, m.id@));
                    assert forall|i: int| 0 <= i < n implies stands(s, #[trigger] defs[i], m.id@) by {
                        if i < p {
                            let j = choose|j: int|
                                0 <= j < before.defs.len() && #[trigger] before.defs[j] == defs[i]
                                    && before.owners[j] == m.id@;
                            assert(j != q);
                            assert(s.defs[j] == defs[i] && s.owners[j] == m.id@);
                        }
                    }
                } else {
                    assert(s.defs[before.defs.len() as int] == def);
                    assert(stands(s, def, m.id@));
                    assert forall|i: int| 0 <= i < n implies stands(s, #[trigger] defs[i], m.id@) by {
                        if i < p {
                            let j = choose|j: int|
                                0 <= j < before.defs.len() && #[trigger] before.defs[j] == defs[i]
                                    && before.owners[j] == m.id@;
                            assert(s.defs[j] == defs[i] && s.owners[j] == m.id@);
                        }
                    }
                }
            }
        }
    }
}

/// Whether a definition is among those merged, as one of this mod's.
pub open spec fn stands<T: Keyed>(s: Merged<T>, def: T, owner: Seq<char>) -> bool {
    exists|j: int|
        0 <= j < s.defs.len() && #[trigger] s.defs[j] == def && s.owners[j] == owner
}

/// Content collides just where some kind of it does, and the first kind that does is the
/// one that is told.
pub proof fn lemma_first_collision_is_told(mods: Seq<ModDir>, c: Contributions)
    ensures
        collision(mods, c) is None <==> merged("commodity"@, mods, c.commodities@) is Ok && merged(
            "recipe"@,
            mods,
            c.recipes@,
        ) is Ok && merged("system"@, mods, c.systems@) is Ok && merged(
            "ship"@,
            mods,
            c.ships@,
        ) is Ok,
        merged("commodity"@, mods, c.commodities@) matches Err(e) ==> collision(mods, c) == Some(e),
        merged("commodity"@, mods, c.commodities@) is Ok ==> (merged("recipe"@, mods, c.recipes@)
            matches Err(e) ==> collision(mods, c) == Some(e)),
{
}

/// A script has the name that it was declared under.
pub proof fn lemma_scripts_by_name(s: LoadedScript, name: Seq<char>)
    ensures
        script_named(name)(s) <==> s.name@ == name,
{
}

} // verus!
