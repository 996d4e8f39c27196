//! Linking: string-id content becomes handle-based, cross-checked runtime data.
//!
//! Every id is interned to a handle, then every reference (recipe to commodities,
//! system to recipes, systems, commodities and pricing strategy) is resolved. A
//! reference that does not resolve aborts the load, so a [`Registry`] never holds a
//! dangling handle.

use vstd::prelude::*;

use crate::bits::Bits;
use crate::data::{
    CommodityAmount, CommodityDef, LoadedScript, MergedContent, Point, ProductionRecipe, ScriptKind,
    ShipDef, SystemDef,
};
use crate::hash;
use crate::ids::{CommodityId, Quantity, RecipeId, ShipId, SystemId};
use crate::load_error::{LoadError, LoadErrorView};
use crate::text;
use crate::text::{has_text, same_text};

verus! {

/// Distinct names, numbered in the order they were first seen.
#[derive(Debug)]
pub struct Interner {
    names: Vec<String>,
}

impl View for Interner {
    type V = Seq<Seq<char>>;

    closed spec fn view(&self) -> Seq<Seq<char>> {
        text::texts(self.names@)
    }
}

/// The distinct members of `ids`, in the order of first occurrence.
pub open spec fn interned(ids: Seq<Seq<char>>) -> Seq<Seq<char>>
    decreases ids.len(),
{
    if ids.len() == 0 {
        Seq::empty()
    } else {
        let before = interned(ids.drop_last());
        if before.contains(ids.last()) {
            before
        } else {
            before.push(ids.last())
        }
    }
}

impl Interner {
    /// An interner that knows no names.
    pub fn new() -> (i: Self)
        ensures
            i@ == Seq::<Seq<char>>::empty(),
    {
        let i = Interner { names: Vec::new() };
        assert(i@ =~= Seq::<Seq<char>>::empty());
        i
    }

    /// The number of `name`: the place of its first occurrence.
    pub fn get(&self, name: &str) -> (r: Option<u32>)
        requires
            self@.len() <= u32::MAX,
        ensures
            r == handle_of(self@, name@),
    {
        let mut i: usize = 0;
        while i < self.names.len()
            invariant
                i <= self.names@.len(),
                self@.len() == self.names@.len(),
                self@.len() <= u32::MAX,
                self@ == text::texts(self.names@),
                forall|j: int| 0 <= j < i ==> (#[trigger] self@[j]) != name@,
            decreases self.names@.len() - i,
        {
            if same_text(self.names[i].as_str(), name) {
                assert(self@[i as int] == name@);
                proof {
                    lemma_first_at(self@, name@, i as int);
                }
                return Some(i as u32);
            }
            i = i + 1;
        }
        assert(!self@.contains(name@));
        None
    }

    /// Number `name`, keeping the number it has if it is already known.
    pub fn intern(&mut self, name: &str) -> (n: u32)
        requires
            old(self)@.len() < u32::MAX,
        ensures
            final(self)@ == (if old(self)@.contains(name@) {
                old(self)@
            } else {
                old(self)@.push(name@)
            }),
            handle_of(final(self)@, name@) == Some(n),
    {
        match self.get(name) {
            Some(n) => n,
            None => {
                let n = self.names.len() as u32;
                self.names.push(name.to_owned());
                proof {
                    assert(self@ =~= old(self)@.push(name@));
                    assert(self@[n as int] == name@);
                    assert forall|j: int| 0 <= j < n implies (#[trigger] self@[j]) != name@ by {
                        assert(self@[j] == old(self)@[j]);
                        assert(old(self)@.contains(old(self)@[j]));
                    }
                    lemma_first_at(self@, name@, n as int);
                }
                n
            },
        }
    }

    /// The name with this number.
    pub fn name(&self, n: u32) -> (r: Option<&str>)
        ensures
            match r {
                Some(s) => n < self@.len() && s@ == self@[n as int],
                None => n >= self@.len(),
            },
    {
        if (n as usize) < self.names.len() {
            Some(self.names[n as usize].as_str())
        } else {
            None
        }
    }

    /// How many names are known.
    pub fn len(&self) -> (n: usize)
        ensures
            n == self@.len(),
    {
        self.names.len()
    }
}

/// The number a list of names gives to `name`.
pub open spec fn handle_of(names: Seq<Seq<char>>, name: Seq<char>) -> Option<u32> {
    if names.contains(name) {
        Some(names.index_of_first(name)->Some_0 as u32)
    } else {
        None
    }
}

proof fn lemma_first_at(names: Seq<Seq<char>>, name: Seq<char>, i: int)
    requires
        0 <= i < names.len(),
        names[i] == name,
        forall|j: int| 0 <= j < i ==> (#[trigger] names[j]) != name,
    ensures
        names.contains(name),
        names.index_of_first(name) == Some(i),
{
    names.index_of_first_ensures(name);
}

/// A recipe whose commodity references are handles.
#[derive(Debug, Clone)]
pub struct ResolvedRecipe {
    pub id: RecipeId,
    pub inputs: Vec<(CommodityId, Quantity)>,
    pub outputs: Vec<(CommodityId, Quantity)>,
    pub rate: u32,
    pub elasticity: Bits,
}

/// A [`ResolvedRecipe`] as a mathematical value.
#[verifier::ext_equal]
pub struct RecipeView {
    pub id: RecipeId,
    pub inputs: Seq<(CommodityId, Quantity)>,
    pub outputs: Seq<(CommodityId, Quantity)>,
    pub rate: u32,
    pub elasticity: Bits,
}

impl View for ResolvedRecipe {
    type V = RecipeView;

    open spec fn view(&self) -> RecipeView {
        RecipeView {
            id: self.id,
            inputs: self.inputs@,
            outputs: self.outputs@,
            rate: self.rate,
            elasticity: self.elasticity,
        }
    }
}

/// A system whose references are handles.
#[derive(Debug, Clone)]
pub struct ResolvedSystem {
    pub id: SystemId,
    pub name: String,
    pub position: Point,
    pub industries: Vec<RecipeId>,
    pub connections: Vec<SystemId>,
    pub initial_stock: Vec<(CommodityId, Quantity)>,
    /// The name of a registered pricing strategy.
    pub pricing: String,
    /// Lawlessness; scales pirate activity.
    pub danger: Bits,
}

/// A [`ResolvedSystem`] as a mathematical value.
#[verifier::ext_equal]
pub struct SystemView {
    pub id: SystemId,
    pub name: Seq<char>,
    pub position: Point,
    pub industries: Seq<RecipeId>,
    pub connections: Seq<SystemId>,
    pub initial_stock: Seq<(CommodityId, Quantity)>,
    pub pricing: Seq<char>,
    pub danger: Bits,
}

impl View for ResolvedSystem {
    type V = SystemView;

    open spec fn view(&self) -> SystemView {
        SystemView {
            id: self.id,
            name: self.name@,
            position: self.position,
            industries: self.industries@,
            connections: self.connections@,
            initial_stock: self.initial_stock@,
            pricing: self.pricing@,
            danger: self.danger,
        }
    }
}

/// Immutable, fully linked game data. Lists are indexed by the handle.
#[derive(Debug)]
pub struct Registry {
    pub(crate) commodity_ids: Interner,
    pub(crate) commodities: Vec<CommodityDef>,
    pub(crate) recipe_ids: Interner,
    pub(crate) recipes: Vec<ResolvedRecipe>,
    pub(crate) system_ids: Interner,
    pub(crate) systems: Vec<ResolvedSystem>,
    pub(crate) ship_ids: Interner,
    pub(crate) ships: Vec<ShipDef>,
    pub(crate) scripts: Vec<LoadedScript>,
}

/// The ids of a list of commodity definitions.
pub open spec fn commodity_names(list: Seq<CommodityDef>) -> Seq<Seq<char>> {
    Seq::new(list.len(), |i: int| list[i].id@)
}

/// The ids of a list of recipes.
pub open spec fn recipe_names(list: Seq<ProductionRecipe>) -> Seq<Seq<char>> {
    Seq::new(list.len(), |i: int| list[i].id@)
}

/// The ids of a list of systems.
pub open spec fn system_names(list: Seq<SystemDef>) -> Seq<Seq<char>> {
    Seq::new(list.len(), |i: int| list[i].id@)
}

/// The ids of a list of ships.
pub open spec fn ship_names(list: Seq<ShipDef>) -> Seq<Seq<char>> {
    Seq::new(list.len(), |i: int| list[i].id@)
}

/// The handles the linker gives out, by the id each stands for.
pub struct Handles {
    pub commodities: Seq<Seq<char>>,
    pub recipes: Seq<Seq<char>>,
    pub systems: Seq<Seq<char>>,
}

/// A reference that does not resolve.
pub open spec fn dangling<T>(
    kind: Seq<char>,
    referrer: Seq<char>,
    target_kind: Seq<char>,
    target: Seq<char>,
) -> Result<T, LoadErrorView> {
    Err(LoadErrorView::DanglingRef { kind, referrer, target_kind, target })
}

/// The first `n` amounts with their commodities resolved, or the first that names
/// none.
pub open spec fn link_amounts(
    amounts: Seq<CommodityAmount>,
    n: int,
    referrer: Seq<char>,
    commodities: Seq<Seq<char>>,
) -> Result<Seq<(CommodityId, Quantity)>, LoadErrorView>
    decreases n,
{
    if n <= 0 {
        Ok(Seq::empty())
    } else {
        match link_amounts(amounts, n - 1, referrer, commodities) {
            Err(e) => Err(e),
            Ok(done) => match handle_of(commodities, amounts[n - 1].commodity@) {
                Some(h) => Ok(done.push((CommodityId(h), amounts[n - 1].qty))),
                None => dangling(
                    "recipe/system"@,
                    referrer,
                    "commodity"@,
                    amounts[n - 1].commodity@,
                ),
            },
        }
    }
}

/// A recipe with its references resolved: inputs first, then outputs.
pub open spec fn link_recipe(r: ProductionRecipe, h: Handles) -> Result<RecipeView, LoadErrorView> {
    match link_amounts(r.inputs@, r.inputs@.len() as int, r.id@, h.commodities) {
        Err(e) => Err(e),
        Ok(inputs) => match link_amounts(
            r.outputs@,
            r.outputs@.len() as int,
            r.id@,
            h.commodities,
        ) {
            Err(e) => Err(e),
            Ok(outputs) => Ok(
                RecipeView {
                    id: RecipeId(handle_of(h.recipes, r.id@)->Some_0),
                    inputs,
                    outputs,
                    rate: r.rate,
                    elasticity: r.elasticity,
                },
            ),
        },
    }
}

/// The first `n` recipes linked, or the first failure.
pub open spec fn link_recipes(list: Seq<ProductionRecipe>, n: int, h: Handles) -> Result<
    Seq<RecipeView>,
    LoadErrorView,
>
    decreases n,
{
    if n <= 0 {
        Ok(Seq::empty())
    } else {
        match link_recipes(list, n - 1, h) {
            Err(e) => Err(e),
            Ok(done) => match link_recipe(list[n - 1], h) {
                Err(e) => Err(e),
                Ok(r) => Ok(done.push(r)),
            },
        }
    }
}

/// The first `n` names as handles, or the first that names nothing.
pub open spec fn link_names(
    names: Seq<String>,
    n: int,
    referrer: Seq<char>,
    target_kind: Seq<char>,
    known: Seq<Seq<char>>,
) -> Result<Seq<u32>, LoadErrorView>
    decreases n,
{
    if n <= 0 {
        Ok(Seq::empty())
    } else {
        match link_names(names, n - 1, referrer, target_kind, known) {
            Err(e) => Err(e),
            Ok(done) => match handle_of(known, names[n - 1]@) {
                Some(h) => Ok(done.push(h)),
                None => dangling("system"@, referrer, target_kind, names[n - 1]@),
            },
        }
    }
}

/// Handles as recipe ids.
pub open spec fn as_recipes(hs: Seq<u32>) -> Seq<RecipeId> {
    Seq::new(hs.len(), |i: int| RecipeId(hs[i]))
}

/// Handles as system ids.
pub open spec fn as_systems(hs: Seq<u32>) -> Seq<SystemId> {
    Seq::new(hs.len(), |i: int| SystemId(hs[i]))
}

/// A system with its references resolved: industries, connections, stock, and last
/// the pricing strategy, which must be one of `pricing`.
pub open spec fn link_system(s: SystemDef, h: Handles, pricing: Seq<Seq<char>>) -> Result<
    SystemView,
    LoadErrorView,
> {
    match link_names(s.industries@, s.industries@.len() as int, s.id@, "recipe"@, h.recipes) {
        Err(e) => Err(e),
        Ok(industries) => match link_names(
            s.connections@,
            s.connections@.len() as int,
            s.id@,
            "system"@,
            h.systems,
        ) {
            Err(e) => Err(e),
            Ok(connections) => match link_amounts(
                s.initial_stock@,
                s.initial_stock@.len() as int,
                s.id@,
                h.commodities,
            ) {
                Err(e) => Err(e),
                Ok(initial_stock) => if pricing.contains(s.pricing@) {
                    Ok(
                        SystemView {
                            id: SystemId(handle_of(h.systems, s.id@)->Some_0),
                            name: s.name@,
                            position: s.position,
                            industries: as_recipes(industries),
                            connections: as_systems(connections),
                            initial_stock,
                            pricing: s.pricing@,
                            danger: s.danger,
                        },
                    )
                } else {
                    Err(LoadErrorView::UnknownPricing { system: s.id@, strategy: s.pricing@ })
                },
            },
        },
    }
}

/// The first `n` systems linked, or the first failure.
pub open spec fn link_systems(
    list: Seq<SystemDef>,
    n: int,
    h: Handles,
    pricing: Seq<Seq<char>>,
) -> Result<Seq<SystemView>, LoadErrorView>
    decreases n,
{
    if n <= 0 {
        Ok(Seq::empty())
    } else {
        match link_systems(list, n - 1, h, pricing) {
            Err(e) => Err(e),
            Ok(done) => match link_system(list[n - 1], h, pricing) {
                Err(e) => Err(e),
                Ok(s) => Ok(done.push(s)),
            },
        }
    }
}

/// The pricing names valid once the first `n` scripts have registered theirs, or
/// the first script that takes a built-in's name.
pub open spec fn pricing_after(
    known: Seq<Seq<char>>,
    scripts: Seq<LoadedScript>,
    n: int,
) -> Result<Seq<Seq<char>>, LoadErrorView>
    decreases n,
{
    if n <= 0 {
        Ok(known)
    } else {
        match pricing_after(known, scripts, n - 1) {
            Err(e) => Err(e),
            Ok(names) => if scripts[n - 1].kind != ScriptKind::Pricing {
                Ok(names)
            } else if known.contains(scripts[n - 1].name@) {
                Err(
                    LoadErrorView::ScriptShadowsBuiltin {
                        mod_id: scripts[n - 1].mod_id@,
                        name: scripts[n - 1].name@,
                    },
                )
            } else {
                Ok(names.push(scripts[n - 1].name@))
            },
        }
    }
}

/// The handles `merged` gives out.
pub open spec fn handles(merged: MergedContent) -> Handles {
    Handles {
        commodities: interned(commodity_names(merged.commodities@)),
        recipes: interned(recipe_names(merged.recipes@)),
        systems: interned(system_names(merged.systems@)),
    }
}

/// What linking `merged` comes to: the linked recipes and systems, or the first
/// failure among scripts, then recipes, then systems.
pub open spec fn linked(merged: MergedContent, known: Seq<Seq<char>>) -> Result<
    (Seq<RecipeView>, Seq<SystemView>),
    LoadErrorView,
> {
    match pricing_after(known, merged.scripts@, merged.scripts@.len() as int) {
        Err(e) => Err(e),
        Ok(pricing) => match link_recipes(
            merged.recipes@,
            merged.recipes@.len() as int,
            handles(merged),
        ) {
            Err(e) => Err(e),
            Ok(recipes) => match link_systems(
                merged.systems@,
                merged.systems@.len() as int,
                handles(merged),
                pricing,
            ) {
                Err(e) => Err(e),
                Ok(systems) => Ok((recipes, systems)),
            },
        },
    }
}

/// The views of a list of recipes.
pub open spec fn recipe_views(list: Seq<ResolvedRecipe>) -> Seq<RecipeView> {
    Seq::new(list.len(), |i: int| list[i]@)
}

/// The views of a list of systems.
pub open spec fn system_views(list: Seq<ResolvedSystem>) -> Seq<SystemView> {
    Seq::new(list.len(), |i: int| list[i]@)
}

/// Lengths that 32-bit handles can number.
pub open spec fn numberable(merged: MergedContent) -> bool {
    &&& merged.commodities@.len() <= u32::MAX
    &&& merged.recipes@.len() <= u32::MAX
    &&& merged.systems@.len() <= u32::MAX
    &&& merged.ships@.len() <= u32::MAX
}

impl Registry {
    /// The commodities, by handle.
    pub closed spec fn spec_commodities(&self) -> Seq<CommodityDef> {
        self.commodities@
    }

    /// The recipes, by handle.
    pub closed spec fn spec_recipes(&self) -> Seq<ResolvedRecipe> {
        self.recipes@
    }

    /// The systems, by handle.
    pub closed spec fn spec_systems(&self) -> Seq<ResolvedSystem> {
        self.systems@
    }

    /// The ships, by handle.
    pub closed spec fn spec_ships(&self) -> Seq<ShipDef> {
        self.ships@
    }

    /// The scripts, in load order.
    pub closed spec fn spec_scripts(&self) -> Seq<LoadedScript> {
        self.scripts@
    }

    /// The id behind each commodity handle.
    pub closed spec fn spec_commodity_ids(&self) -> Seq<Seq<char>> {
        self.commodity_ids@
    }

    /// The id behind each recipe handle.
    pub closed spec fn spec_recipe_ids(&self) -> Seq<Seq<char>> {
        self.recipe_ids@
    }

    /// The id behind each system handle.
    pub closed spec fn spec_system_ids(&self) -> Seq<Seq<char>> {
        self.system_ids@
    }

    /// The id behind each ship handle.
    pub closed spec fn spec_ship_ids(&self) -> Seq<Seq<char>> {
        self.ship_ids@
    }
}

/// Every handle in `amounts` names one of `n` commodities.
pub open spec fn amounts_in_range(amounts: Seq<(CommodityId, Quantity)>, n: nat) -> bool {
    forall|i: int| 0 <= i < amounts.len() ==> (#[trigger] amounts[i]).0.0 < n
}

impl Registry {
    /// Every handle the registry holds points into its own tables, and handles fit
    /// their 32 bits.
    pub open spec fn wf(&self) -> bool {
        &&& self.spec_commodities().len() <= u32::MAX
        &&& self.spec_recipes().len() <= u32::MAX
        &&& self.spec_systems().len() <= u32::MAX
        &&& self.spec_ships().len() <= u32::MAX
        &&& self.spec_commodity_ids().len() <= self.spec_commodities().len()
        &&& self.spec_recipe_ids().len() <= self.spec_recipes().len()
        &&& self.spec_system_ids().len() <= self.spec_systems().len()
        &&& self.spec_ship_ids().len() <= self.spec_ships().len()
        &&& forall|i: int| #![trigger self.spec_recipes()[i]]
            0 <= i < self.spec_recipes().len() ==> {
                &&& amounts_in_range(
                    self.spec_recipes()[i].inputs@,
                    self.spec_commodities().len(),
                )
                &&& amounts_in_range(
                    self.spec_recipes()[i].outputs@,
                    self.spec_commodities().len(),
                )
            }
        &&& forall|i: int| #![trigger self.spec_systems()[i]]
            0 <= i < self.spec_systems().len() ==> self.system_in_range(self.spec_systems()[i])
    }

    /// Every system stands at its own handle.
    pub open spec fn numbered(&self) -> bool {
        forall|i: int|
            0 <= i < self.spec_systems().len() ==> (#[trigger] self.spec_systems()[i]).id.0 == i
    }

    /// Every handle of a system points into the registry's tables.
    pub open spec fn system_in_range(&self, s: ResolvedSystem) -> bool {
        &&& s.id.0 < self.spec_systems().len()
        &&& amounts_in_range(s.initial_stock@, self.spec_commodities().len())
        &&& forall|j: int|
            0 <= j < s.industries@.len() ==> (#[trigger] s.industries@[j]).0
                < self.spec_recipes().len()
        &&& forall|j: int|
            0 <= j < s.connections@.len() ==> (#[trigger] s.connections@[j]).0
                < self.spec_systems().len()
    }

    /// How many commodities there are.
    pub fn commodity_count(&self) -> (n: usize)
        ensures
            n == self.spec_commodities().len(),
    {
        self.commodities.len()
    }

    /// The definition of a commodity.
    pub fn commodity(&self, id: CommodityId) -> (c: &CommodityDef)
        requires
            id.0 < self.spec_commodities().len(),
        ensures
            *c == self.spec_commodities()[id.0 as int],
    {
        &self.commodities[id.index()]
    }

    /// The commodity with this id.
    pub fn commodity_id(&self, name: &str) -> (r: Option<CommodityId>)
        requires
            self.wf(),
        ensures
            r == (match handle_of(self.spec_commodity_ids(), name@) {
                Some(h) => Some(CommodityId(h)),
                None => None,
            }),
    {
        match self.commodity_ids.get(name) {
            Some(h) => Some(CommodityId(h)),
            None => None,
        }
    }

    /// The id behind a commodity handle, `"?"` where it has none.
    pub open spec fn spec_commodity_name(&self, id: CommodityId) -> Seq<char> {
        if id.0 < self.spec_commodity_ids().len() {
            self.spec_commodity_ids()[id.0 as int]
        } else {
            "?"@
        }
    }

    /// The id behind a commodity handle, `"?"` where it has none.
    pub fn commodity_name(&self, id: CommodityId) -> (s: &str)
        ensures
            s@ == self.spec_commodity_name(id),
    {
        match self.commodity_ids.name(id.0) {
            Some(s) => s,
            None => "?",
        }
    }

    /// A recipe.
    pub fn recipe(&self, id: RecipeId) -> (r: &ResolvedRecipe)
        requires
            id.0 < self.spec_recipes().len(),
        ensures
            *r == self.spec_recipes()[id.0 as int],
    {
        &self.recipes[id.index()]
    }

    /// The recipe with this id.
    pub fn recipe_id(&self, name: &str) -> (r: Option<RecipeId>)
        requires
            self.wf(),
        ensures
            r == (match handle_of(self.spec_recipe_ids(), name@) {
                Some(h) => Some(RecipeId(h)),
                None => None,
            }),
    {
        match self.recipe_ids.get(name) {
            Some(h) => Some(RecipeId(h)),
            None => None,
        }
    }

    /// The id behind a recipe handle, `"?"` where it has none.
    pub fn recipe_name(&self, id: RecipeId) -> (s: &str)
        ensures
            s@ == (if id.0 < self.spec_recipe_ids().len() {
                self.spec_recipe_ids()[id.0 as int]
            } else {
                "?"@
            }),
    {
        match self.recipe_ids.name(id.0) {
            Some(s) => s,
            None => "?",
        }
    }

    /// How many recipes there are.
    pub fn recipe_count(&self) -> (n: usize)
        ensures
            n == self.spec_recipes().len(),
    {
        self.recipes.len()
    }

    /// How many systems there are.
    pub fn system_count(&self) -> (n: usize)
        ensures
            n == self.spec_systems().len(),
    {
        self.systems.len()
    }

    /// A system.
    pub fn system(&self, id: SystemId) -> (s: &ResolvedSystem)
        requires
            id.0 < self.spec_systems().len(),
        ensures
            *s == self.spec_systems()[id.0 as int],
    {
        &self.systems[id.index()]
    }

    /// The system with this id.
    pub fn system_id(&self, name: &str) -> (r: Option<SystemId>)
        requires
            self.wf(),
        ensures
            r == (match handle_of(self.spec_system_ids(), name@) {
                Some(h) => Some(SystemId(h)),
                None => None,
            }),
    {
        match self.system_ids.get(name) {
            Some(h) => Some(SystemId(h)),
            None => None,
        }
    }

    /// The id behind a system handle, `"?"` where it has none.
    pub open spec fn spec_system_name(&self, id: SystemId) -> Seq<char> {
        if id.0 < self.spec_system_ids().len() {
            self.spec_system_ids()[id.0 as int]
        } else {
            "?"@
        }
    }

    /// The id behind a system handle, `"?"` where it has none.
    pub fn system_name(&self, id: SystemId) -> (s: &str)
        ensures
            s@ == self.spec_system_name(id),
    {
        match self.system_ids.name(id.0) {
            Some(s) => s,
            None => "?",
        }
    }

    /// The systems, by handle.
    pub fn systems(&self) -> (s: &Vec<ResolvedSystem>)
        ensures
            s@ == self.spec_systems(),
    {
        &self.systems
    }

    /// The commodities, by handle.
    pub fn commodities(&self) -> (s: &Vec<CommodityDef>)
        ensures
            s@ == self.spec_commodities(),
    {
        &self.commodities
    }

    /// The ship with this id.
    pub fn ship_id(&self, name: &str) -> (r: Option<ShipId>)
        requires
            self.wf(),
        ensures
            r == (match handle_of(self.spec_ship_ids(), name@) {
                Some(h) => Some(ShipId(h)),
                None => None,
            }),
    {
        match self.ship_ids.get(name) {
            Some(h) => Some(ShipId(h)),
            None => None,
        }
    }

    /// The interned commodity id at `i`, empty where there is none.
    pub(crate) fn commodity_key(&self, i: u32) -> (s: &str)
        ensures
            s@ == hash::key_at(self.spec_commodity_ids(), i as int),
    {
        match self.commodity_ids.name(i) {
            Some(s) => s,
            None => {
                proof {
                    reveal_strlit("");
                    assert(""@ =~= Seq::<char>::empty());
                }
                ""
            },
        }
    }

    /// The interned recipe id at `i`, empty where there is none.
    pub(crate) fn recipe_key(&self, i: u32) -> (s: &str)
        ensures
            s@ == hash::key_at(self.spec_recipe_ids(), i as int),
    {
        match self.recipe_ids.name(i) {
            Some(s) => s,
            None => {
                proof {
                    reveal_strlit("");
                    assert(""@ =~= Seq::<char>::empty());
                }
                ""
            },
        }
    }

    /// The interned system id at `i`, empty where there is none.
    pub(crate) fn system_key(&self, i: u32) -> (s: &str)
        ensures
            s@ == hash::key_at(self.spec_system_ids(), i as int),
    {
        match self.system_ids.name(i) {
            Some(s) => s,
            None => {
                proof {
                    reveal_strlit("");
                    assert(""@ =~= Seq::<char>::empty());
                }
                ""
            },
        }
    }

    /// The interned ship id at `i`, empty where there is none.
    pub(crate) fn ship_key(&self, i: u32) -> (s: &str)
        ensures
            s@ == hash::key_at(self.spec_ship_ids(), i as int),
    {
        match self.ship_ids.name(i) {
            Some(s) => s,
            None => {
                proof {
                    reveal_strlit("");
                    assert(""@ =~= Seq::<char>::empty());
                }
                ""
            },
        }
    }

    /// A ship type.
    pub fn ship(&self, id: ShipId) -> (s: &ShipDef)
        requires
            id.0 < self.spec_ships().len(),
        ensures
            *s == self.spec_ships()[id.0 as int],
    {
        &self.ships[id.index()]
    }

    /// How many ship types there are.
    pub fn ship_count(&self) -> (n: usize)
        ensures
            n == self.spec_ships().len(),
    {
        self.ships.len()
    }

    /// The behaviour scripts mods declared, in load order.
    pub fn scripts(&self) -> (s: &Vec<LoadedScript>)
        ensures
            s@ == self.spec_scripts(),
    {
        &self.scripts
    }
}

proof fn lemma_interned_len(ids: Seq<Seq<char>>)
    ensures
        interned(ids).len() <= ids.len(),
    decreases ids.len(),
{
    if ids.len() > 0 {
        lemma_interned_len(ids.drop_last());
    }
}

/// An interned id is found.
proof fn lemma_interned_has(ids: Seq<Seq<char>>, i: int)
    requires
        0 <= i < ids.len(),
    ensures
        interned(ids).contains(ids[i]),
    decreases ids.len(),
{
    let before = interned(ids.drop_last());
    if i < ids.len() - 1 {
        lemma_interned_has(ids.drop_last(), i);
        assert(ids.drop_last()[i] == ids[i]);
        if !before.contains(ids.last()) {
            let k = before.index_of(ids[i]);
            assert(before.push(ids.last())[k] == ids[i]);
        }
    } else if !before.contains(ids.last()) {
        assert(before.push(ids.last())[before.len() as int] == ids[i]);
    }
}

/// A name on the list has a handle, and the handle leads back to the name.
pub proof fn lemma_handle_in_range(names: Seq<Seq<char>>, name: Seq<char>)
    requires
        names.len() <= u32::MAX,
        names.contains(name),
    ensures
        handle_of(names, name) is Some,
        handle_of(names, name)->Some_0 < names.len(),
        names[handle_of(names, name)->Some_0 as int] == name,
{
    names.index_of_first_ensures(name);
}

/// A failed prefix fails the whole list.
proof fn lemma_amounts_prefix(
    amounts: Seq<CommodityAmount>,
    i: int,
    n: int,
    referrer: Seq<char>,
    commodities: Seq<Seq<char>>,
)
    requires
        0 <= i <= n,
        link_amounts(amounts, i, referrer, commodities) is Err,
    ensures
        link_amounts(amounts, n, referrer, commodities) == link_amounts(
            amounts,
            i,
            referrer,
            commodities,
        ),
    decreases n,
{
    if i < n {
        lemma_amounts_prefix(amounts, i, n - 1, referrer, commodities);
    }
}

/// Resolve a list of amounts.
fn resolve_amounts(amounts: &Vec<CommodityAmount>, referrer: &String, ids: &Interner) -> (r: Result<
    Vec<(CommodityId, Quantity)>,
    LoadError,
>)
    requires
        ids@.len() <= u32::MAX,
    ensures
        match r {
            Ok(v) => link_amounts(amounts@, amounts@.len() as int, referrer@, ids@) == Ok::<
                Seq<(CommodityId, Quantity)>,
                LoadErrorView,
            >(v@) && amounts_in_range(v@, ids@.len()),
            Err(e) => link_amounts(amounts@, amounts@.len() as int, referrer@, ids@) == Err::<
                Seq<(CommodityId, Quantity)>,
                LoadErrorView,
            >(e@),
        },
{
    let mut out: Vec<(CommodityId, Quantity)> = Vec::new();
    let mut i: usize = 0;
    while i < amounts.len()
        invariant
            i <= amounts@.len(),
            ids@.len() <= u32::MAX,
            link_amounts(amounts@, i as int, referrer@, ids@) == Ok::<
                Seq<(CommodityId, Quantity)>,
                LoadErrorView,
            >(out@),
            amounts_in_range(out@, ids@.len()),
        decreases amounts@.len() - i,
    {
        match ids.get(amounts[i].commodity.as_str()) {
            Some(h) => {
                proof {
                    lemma_handle_in_range(ids@, amounts@[i as int].commodity@);
                }
                out.push((CommodityId(h), amounts[i].qty));
            },
            None => {
                let e = LoadError::DanglingRef {
                    kind: "recipe/system".to_owned(),
                    referrer: referrer.clone(),
                    target_kind: "commodity".to_owned(),
                    target: amounts[i].commodity.clone(),
                };
                proof {
                    lemma_amounts_prefix(
                        amounts@,
                        i + 1,
                        amounts@.len() as int,
                        referrer@,
                        ids@,
                    );
                }
                return Err(e);
            },
        }
        i = i + 1;
    }
    Ok(out)
}

proof fn lemma_names_prefix(
    names: Seq<String>,
    i: int,
    n: int,
    referrer: Seq<char>,
    target_kind: Seq<char>,
    known: Seq<Seq<char>>,
)
    requires
        0 <= i <= n,
        link_names(names, i, referrer, target_kind, known) is Err,
    ensures
        link_names(names, n, referrer, target_kind, known) == link_names(
            names,
            i,
            referrer,
            target_kind,
            known,
        ),
    decreases n,
{
    if i < n {
        lemma_names_prefix(names, i, n - 1, referrer, target_kind, known);
    }
}

/// Resolve a list of names a system refers to.
fn resolve_names(
    names: &Vec<String>,
    referrer: &String,
    target_kind: &str,
    ids: &Interner,
) -> (r: Result<Vec<u32>, LoadError>)
    requires
        ids@.len() <= u32::MAX,
    ensures
        match r {
            Ok(v) => link_names(names@, names@.len() as int, referrer@, target_kind@, ids@) == Ok::<
                Seq<u32>,
                LoadErrorView,
            >(v@) && forall|j: int| 0 <= j < v@.len() ==> (#[trigger] v@[j]) < ids@.len(),
            Err(e) => link_names(names@, names@.len() as int, referrer@, target_kind@, ids@)
                == Err::<Seq<u32>, LoadErrorView>(e@),
        },
{
    let mut out: Vec<u32> = Vec::new();
    let mut i: usize = 0;
    while i < names.len()
        invariant
            i <= names@.len(),
            ids@.len() <= u32::MAX,
            link_names(names@, i as int, referrer@, target_kind@, ids@) == Ok::<
                Seq<u32>,
                LoadErrorView,
            >(out@),
            forall|j: int| 0 <= j < out@.len() ==> (#[trigger] out@[j]) < ids@.len(),
        decreases names@.len() - i,
    {
        match ids.get(names[i].as_str()) {
            Some(h) => {
                proof {
                    lemma_handle_in_range(ids@, names@[i as int]@);
                }
                out.push(h);
            },
            None => {
                let e = LoadError::DanglingRef {
                    kind: "system".to_owned(),
                    referrer: referrer.clone(),
                    target_kind: target_kind.to_owned(),
                    target: names[i].clone(),
                };
                proof {
                    lemma_names_prefix(
                        names@,
                        i + 1,
                        names@.len() as int,
                        referrer@,
                        target_kind@,
                        ids@,
                    );
                }
                return Err(e);
            },
        }
        i = i + 1;
    }
    Ok(out)
}

/// Handles as recipe ids.
fn to_recipes(hs: Vec<u32>) -> (r: Vec<RecipeId>)
    ensures
        r@ == as_recipes(hs@),
{
    let mut out: Vec<RecipeId> = Vec::new();
    let mut i: usize = 0;
    while i < hs.len()
        invariant
            i <= hs@.len(),
            out@.len() == i,
            forall|j: int| 0 <= j < i ==> #[trigger] out@[j] == RecipeId(hs@[j]),
        decreases hs@.len() - i,
    {
        out.push(RecipeId(hs[i]));
        i = i + 1;
    }
    assert(out@ =~= as_recipes(hs@));
    out
}

/// Handles as system ids.
fn to_systems(hs: Vec<u32>) -> (r: Vec<SystemId>)
    ensures
        r@ == as_systems(hs@),
{
    let mut out: Vec<SystemId> = Vec::new();
    let mut i: usize = 0;
    while i < hs.len()
        invariant
            i <= hs@.len(),
            out@.len() == i,
            forall|j: int| 0 <= j < i ==> #[trigger] out@[j] == SystemId(hs@[j]),
        decreases hs@.len() - i,
    {
        out.push(SystemId(hs[i]));
        i = i + 1;
    }
    assert(out@ =~= as_systems(hs@));
    out
}

proof fn lemma_recipes_prefix(list: Seq<ProductionRecipe>, i: int, n: int, h: Handles)
    requires
        0 <= i <= n,
        link_recipes(list, i, h) is Err,
    ensures
        link_recipes(list, n, h) == link_recipes(list, i, h),
    decreases n,
{
    if i < n {
        lemma_recipes_prefix(list, i, n - 1, h);
    }
}

/// Resolve the recipes.
fn resolve_recipes(
    list: &Vec<ProductionRecipe>,
    commodity_ids: &Interner,
    recipe_ids: &Interner,
    Ghost(h): Ghost<Handles>,
) -> (r: Result<Vec<ResolvedRecipe>, LoadError>)
    requires
        commodity_ids@.len() <= u32::MAX,
        recipe_ids@.len() <= u32::MAX,
        h.commodities == commodity_ids@,
        h.recipes == recipe_ids@,
        forall|i: int| 0 <= i < list@.len() ==> recipe_ids@.contains((#[trigger] list@[i]).id@),
    ensures
        match r {
            Ok(v) => {
                &&& link_recipes(list@, list@.len() as int, h) == Ok::<
                    Seq<RecipeView>,
                    LoadErrorView,
                >(recipe_views(v@))
                &&& v@.len() == list@.len()
                &&& forall|i: int| #![trigger v@[i]]
                    0 <= i < v@.len() ==> {
                        &&& amounts_in_range(v@[i].inputs@, commodity_ids@.len())
                        &&& amounts_in_range(v@[i].outputs@, commodity_ids@.len())
                    }
            },
            Err(e) => link_recipes(list@, list@.len() as int, h) == Err::<
                Seq<RecipeView>,
                LoadErrorView,
            >(e@),
        },
{
    let mut out: Vec<ResolvedRecipe> = Vec::new();
    assert(recipe_views(out@) =~= Seq::empty());
    let mut i: usize = 0;
    while i < list.len()
        invariant
            i <= list@.len(),
            out@.len() == i,
            commodity_ids@.len() <= u32::MAX,
            recipe_ids@.len() <= u32::MAX,
            h.commodities == commodity_ids@,
            h.recipes == recipe_ids@,
            forall|j: int| 0 <= j < list@.len() ==> recipe_ids@.contains((#[trigger] list@[j]).id@),
            link_recipes(list@, i as int, h) == Ok::<Seq<RecipeView>, LoadErrorView>(
                recipe_views(out@),
            ),
            forall|j: int| #![trigger out@[j]]
                0 <= j < out@.len() ==> {
                    &&& amounts_in_range(out@[j].inputs@, commodity_ids@.len())
                    &&& amounts_in_range(out@[j].outputs@, commodity_ids@.len())
                },
        decreases list@.len() - i,
    {
        let r = &list[i];
        let id = match recipe_ids.get(r.id.as_str()) {
            Some(n) => RecipeId(n),
            None => RecipeId(0),
        };
        assert(recipe_ids@.contains(list@[i as int].id@));
        let inputs = match resolve_amounts(&r.inputs, &r.id, commodity_ids) {
            Ok(v) => v,
            Err(e) => {
                proof {
                    lemma_recipes_prefix(list@, i + 1, list@.len() as int, h);
                }
                return Err(e);
            },
        };
        let outputs = match resolve_amounts(&r.outputs, &r.id, commodity_ids) {
            Ok(v) => v,
            Err(e) => {
                proof {
                    lemma_recipes_prefix(list@, i + 1, list@.len() as int, h);
                }
                return Err(e);
            },
        };
        let ghost before = out@;
        out.push(
            ResolvedRecipe { id, inputs, outputs, rate: r.rate, elasticity: r.elasticity },
        );
        proof {
            assert(recipe_views(out@) =~= recipe_views(before).push(out@[i as int]@));
        }
        i = i + 1;
    }
    Ok(out)
}

proof fn lemma_systems_prefix(
    list: Seq<SystemDef>,
    i: int,
    n: int,
    h: Handles,
    pricing: Seq<Seq<char>>,
)
    requires
        0 <= i <= n,
        link_systems(list, i, h, pricing) is Err,
    ensures
        link_systems(list, n, h, pricing) == link_systems(list, i, h, pricing),
    decreases n,
{
    if i < n {
        lemma_systems_prefix(list, i, n - 1, h, pricing);
    }
}

/// Resolve the systems.
fn resolve_systems(
    list: &Vec<SystemDef>,
    commodity_ids: &Interner,
    recipe_ids: &Interner,
    system_ids: &Interner,
    pricing: &Vec<String>,
    Ghost(h): Ghost<Handles>,
) -> (r: Result<Vec<ResolvedSystem>, LoadError>)
    requires
        commodity_ids@.len() <= u32::MAX,
        recipe_ids@.len() <= u32::MAX,
        system_ids@.len() <= u32::MAX,
        h.commodities == commodity_ids@,
        h.recipes == recipe_ids@,
        h.systems == system_ids@,
        forall|i: int| 0 <= i < list@.len() ==> system_ids@.contains((#[trigger] list@[i]).id@),
    ensures
        match r {
            Ok(v) => {
                &&& link_systems(list@, list@.len() as int, h, text::texts(pricing@)) == Ok::<
                    Seq<SystemView>,
                    LoadErrorView,
                >(system_views(v@))
                &&& v@.len() == list@.len()
                &&& forall|i: int| #![trigger v@[i]]
                    0 <= i < v@.len() ==> handles_in_range(
                        v@[i],
                        commodity_ids@.len(),
                        recipe_ids@.len(),
                        system_ids@.len(),
                    )
            },
            Err(e) => link_systems(list@, list@.len() as int, h, text::texts(pricing@)) == Err::<
                Seq<SystemView>,
                LoadErrorView,
            >(e@),
        },
{
    let mut out: Vec<ResolvedSystem> = Vec::new();
    assert(system_views(out@) =~= Seq::empty());
    let mut i: usize = 0;
    while i < list.len()
        invariant
            i <= list@.len(),
            out@.len() == i,
            commodity_ids@.len() <= u32::MAX,
            recipe_ids@.len() <= u32::MAX,
            system_ids@.len() <= u32::MAX,
            h.commodities == commodity_ids@,
            h.recipes == recipe_ids@,
            h.systems == system_ids@,
            forall|j: int| 0 <= j < list@.len() ==> system_ids@.contains((#[trigger] list@[j]).id@),
            link_systems(list@, i as int, h, text::texts(pricing@)) == Ok::<
                Seq<SystemView>,
                LoadErrorView,
            >(system_views(out@)),
            forall|j: int| #![trigger out@[j]]
                0 <= j < out@.len() ==> handles_in_range(
                    out@[j],
                    commodity_ids@.len(),
                    recipe_ids@.len(),
                    system_ids@.len(),
                ),
        decreases list@.len() - i,
    {
        let s = &list[i];
        let id = match system_ids.get(s.id.as_str()) {
            Some(n) => SystemId(n),
            None => SystemId(0),
        };
        proof {
            assert(system_ids@.contains(list@[i as int].id@));
            lemma_handle_in_range(system_ids@, list@[i as int].id@);
        }
        let industries = match resolve_names(&s.industries, &s.id, "recipe", recipe_ids) {
            Ok(v) => to_recipes(v),
            Err(e) => {
                proof {
                    lemma_systems_prefix(list@, i + 1, list@.len() as int, h, text::texts(pricing@));
                }
                return Err(e);
            },
        };
        let connections = match resolve_names(&s.connections, &s.id, "system", system_ids) {
            Ok(v) => to_systems(v),
            Err(e) => {
                proof {
                    lemma_systems_prefix(list@, i + 1, list@.len() as int, h, text::texts(pricing@));
                }
                return Err(e);
            },
        };
        let initial_stock = match resolve_amounts(&s.initial_stock, &s.id, commodity_ids) {
            Ok(v) => v,
            Err(e) => {
                proof {
                    lemma_systems_prefix(list@, i + 1, list@.len() as int, h, text::texts(pricing@));
                }
                return Err(e);
            },
        };
        if !has_text(pricing, s.pricing.as_str()) {
            let e = LoadError::UnknownPricing {
                system: s.id.clone(),
                strategy: s.pricing.clone(),
            };
            proof {
                lemma_systems_prefix(list@, i + 1, list@.len() as int, h, text::texts(pricing@));
            }
            return Err(e);
        }
        let ghost before = out@;
        out.push(
            ResolvedSystem {
                id,
                name: s.name.clone(),
                position: s.position,
                industries,
                connections,
                initial_stock,
                pricing: s.pricing.clone(),
                danger: s.danger,
            },
        );
        proof {
            assert(system_views(out@) =~= system_views(before).push(out@[i as int]@));
        }
        i = i + 1;
    }
    Ok(out)
}

/// Every handle of a system is below the given counts.
pub open spec fn handles_in_range(s: ResolvedSystem, commodities: nat, recipes: nat, systems: nat) -> bool {
    &&& s.id.0 < systems
    &&& amounts_in_range(s.initial_stock@, commodities)
    &&& forall|j: int| 0 <= j < s.industries@.len() ==> (#[trigger] s.industries@[j]).0 < recipes
    &&& forall|j: int| 0 <= j < s.connections@.len() ==> (#[trigger] s.connections@[j]).0 < systems
}

proof fn lemma_pricing_prefix(known: Seq<Seq<char>>, scripts: Seq<LoadedScript>, i: int, n: int)
    requires
        0 <= i <= n,
        pricing_after(known, scripts, i) is Err,
    ensures
        pricing_after(known, scripts, n) == pricing_after(known, scripts, i),
    decreases n,
{
    if i < n {
        lemma_pricing_prefix(known, scripts, i, n - 1);
    }
}

/// The pricing names content may use: the known ones and those of scripts.
fn valid_pricing(known: &Vec<String>, scripts: &Vec<LoadedScript>) -> (r: Result<
    Vec<String>,
    LoadError,
>)
    ensures
        match r {
            Ok(v) => pricing_after(text::texts(known@), scripts@, scripts@.len() as int) == Ok::<
                Seq<Seq<char>>,
                LoadErrorView,
            >(text::texts(v@)),
            Err(e) => pricing_after(text::texts(known@), scripts@, scripts@.len() as int) == Err::<
                Seq<Seq<char>>,
                LoadErrorView,
            >(e@),
        },
{
    let mut names: Vec<String> = Vec::new();
    let mut k: usize = 0;
    while k < known.len()
        invariant
            k <= known@.len(),
            text::texts(names@) == text::texts(known@).take(k as int),
        decreases known@.len() - k,
    {
        let ghost before = names@;
        names.push(known[k].clone());
        proof {
            assert(text::texts(names@) =~= text::texts(before).push(known@[k as int]@));
            assert(text::texts(names@) =~= text::texts(known@).take(k + 1));
        }
        k = k + 1;
    }
    assert(text::texts(names@) =~= text::texts(known@));
    let mut i: usize = 0;
    while i < scripts.len()
        invariant
            i <= scripts@.len(),
            pricing_after(text::texts(known@), scripts@, i as int) == Ok::<
                Seq<Seq<char>>,
                LoadErrorView,
            >(text::texts(names@)),
        decreases scripts@.len() - i,
    {
        let s = &scripts[i];
        if s.kind == ScriptKind::Pricing {
            if has_text(known, s.name.as_str()) {
                let e = LoadError::ScriptShadowsBuiltin {
                    mod_id: s.mod_id.clone(),
                    name: s.name.clone(),
                };
                proof {
                    lemma_pricing_prefix(
                        text::texts(known@),
                        scripts@,
                        i + 1,
                        scripts@.len() as int,
                    );
                }
                return Err(e);
            }
            let ghost before = names@;
            names.push(s.name.clone());
            proof {
                assert(text::texts(names@) =~= text::texts(before).push(s.name@));
            }
        }
        i = i + 1;
    }
    Ok(names)
}

/// Link merged content into a [`Registry`], validating every reference.
///
/// `known_pricing` holds the names of the strategies the caller has registered; a
/// pricing script adds its own, and must not take one of these.
pub fn link(merged: MergedContent, known_pricing: &Vec<String>) -> (r: Result<Registry, LoadError>)
    requires
        numberable(merged),
    ensures
        match r {
            Ok(reg) => {
                &&& reg.wf()
                &&& linked(merged, text::texts(known_pricing@)) == Ok::<
                    (Seq<RecipeView>, Seq<SystemView>),
                    LoadErrorView,
                >((recipe_views(reg.spec_recipes()), system_views(reg.spec_systems())))
                &&& reg.spec_commodities() == merged.commodities@
                &&& reg.spec_ships() == merged.ships@
                &&& reg.spec_scripts() == merged.scripts@
                &&& reg.spec_commodity_ids() == handles(merged).commodities
                &&& reg.spec_recipe_ids() == handles(merged).recipes
                &&& reg.spec_system_ids() == handles(merged).systems
                &&& reg.spec_ship_ids() == interned(ship_names(merged.ships@))
            },
            Err(e) => linked(merged, text::texts(known_pricing@)) == Err::<
                (Seq<RecipeView>, Seq<SystemView>),
                LoadErrorView,
            >(e@),
        },
{
    let mut commodity_ids = Interner::new();
    let mut i: usize = 0;
    while i < merged.commodities.len()
        invariant
            i <= merged.commodities@.len() <= u32::MAX,
            commodity_ids@ == interned(commodity_names(merged.commodities@).take(i as int)),
        decreases merged.commodities@.len() - i,
    {
        proof {
            let all = commodity_names(merged.commodities@);
            lemma_interned_len(all.take(i as int));
            assert(all.take(i + 1).drop_last() =~= all.take(i as int));
            assert(all.take(i + 1).last() == all[i as int]);
        }
        commodity_ids.intern(merged.commodities[i].id.as_str());
        i = i + 1;
    }
    let mut recipe_ids = Interner::new();
    let mut i: usize = 0;
    while i < merged.recipes.len()
        invariant
            i <= merged.recipes@.len() <= u32::MAX,
            recipe_ids@ == interned(recipe_names(merged.recipes@).take(i as int)),
        decreases merged.recipes@.len() - i,
    {
        proof {
            let all = recipe_names(merged.recipes@);
            lemma_interned_len(all.take(i as int));
            assert(all.take(i + 1).drop_last() =~= all.take(i as int));
            assert(all.take(i + 1).last() == all[i as int]);
        }
        recipe_ids.intern(merged.recipes[i].id.as_str());
        i = i + 1;
    }
    let mut system_ids = Interner::new();
    let mut i: usize = 0;
    while i < merged.systems.len()
        invariant
            i <= merged.systems@.len() <= u32::MAX,
            system_ids@ == interned(system_names(merged.systems@).take(i as int)),
        decreases merged.systems@.len() - i,
    {
        proof {
            let all = system_names(merged.systems@);
            lemma_interned_len(all.take(i as int));
            assert(all.take(i + 1).drop_last() =~= all.take(i as int));
            assert(all.take(i + 1).last() == all[i as int]);
        }
        system_ids.intern(merged.systems[i].id.as_str());
        i = i + 1;
    }
    let mut ship_ids = Interner::new();
    let mut i: usize = 0;
    while i < merged.ships.len()
        invariant
            i <= merged.ships@.len() <= u32::MAX,
            ship_ids@ == interned(ship_names(merged.ships@).take(i as int)),
        decreases merged.ships@.len() - i,
    {
        proof {
            let all = ship_names(merged.ships@);
            lemma_interned_len(all.take(i as int));
            assert(all.take(i + 1).drop_last() =~= all.take(i as int));
            assert(all.take(i + 1).last() == all[i as int]);
        }
        ship_ids.intern(merged.ships[i].id.as_str());
        i = i + 1;
    }
    let ghost h = handles(merged);
    proof {
        let c = commodity_names(merged.commodities@);
        let r = recipe_names(merged.recipes@);
        let s = system_names(merged.systems@);
        let p = ship_names(merged.ships@);
        assert(c.take(c.len() as int) =~= c);
        assert(r.take(r.len() as int) =~= r);
        assert(s.take(s.len() as int) =~= s);
        assert(p.take(p.len() as int) =~= p);
        lemma_interned_len(c);
        lemma_interned_len(r);
        lemma_interned_len(s);
        lemma_interned_len(p);
        assert forall|i: int| 0 <= i < merged.recipes@.len() implies recipe_ids@.contains(
            (#[trigger] merged.recipes@[i]).id@,
        ) by {
            lemma_interned_has(r, i);
            assert(r[i] == merged.recipes@[i].id@);
        }
        assert forall|i: int| 0 <= i < merged.systems@.len() implies system_ids@.contains(
            (#[trigger] merged.systems@[i]).id@,
        ) by {
            lemma_interned_has(s, i);
            assert(s[i] == merged.systems@[i].id@);
        }
    }
    let pricing = match valid_pricing(known_pricing, &merged.scripts) {
        Ok(names) => names,
        Err(e) => {
            return Err(e);
        },
    };
    let recipes = match resolve_recipes(&merged.recipes, &commodity_ids, &recipe_ids, Ghost(h)) {
        Ok(v) => v,
        Err(e) => {
            return Err(e);
        },
    };
    let systems = match resolve_systems(
        &merged.systems,
        &commodity_ids,
        &recipe_ids,
        &system_ids,
        &pricing,
        Ghost(h),
    ) {
        Ok(v) => v,
        Err(e) => {
            return Err(e);
        },
    };
    let reg = Registry {
        commodity_ids,
        commodities: merged.commodities,
        recipe_ids,
        recipes,
        system_ids,
        systems,
        ship_ids,
        ships: merged.ships,
        scripts: merged.scripts,
    };
    Ok(reg)
}

/// Distinct ids are interned as they are, so a handle is the place of its definition.
pub proof fn lemma_interned_distinct(ids: Seq<Seq<char>>)
    requires
        ids.no_duplicates(),
    ensures
        interned(ids) == ids,
    decreases ids.len(),
{
    if ids.len() > 0 {
        let before = ids.drop_last();
        assert(before.no_duplicates());
        lemma_interned_distinct(before);
        if before.contains(ids.last()) {
            let k = before.index_of(ids.last());
            assert(ids[k] == ids[ids.len() - 1]);
        }
        assert(before.push(ids.last()) =~= ids);
    } else {
        assert(interned(ids) =~= ids);
    }
}

/// The handle of a definition is its place, where ids are distinct.
pub proof fn lemma_handle_is_place(ids: Seq<Seq<char>>, i: int)
    requires
        ids.no_duplicates(),
        0 <= i < ids.len() <= u32::MAX,
    ensures
        handle_of(interned(ids), ids[i]) == Some(i as u32),
{
    lemma_interned_distinct(ids);
    assert forall|j: int| 0 <= j < i implies (#[trigger] ids[j]) != ids[i] by {}
    lemma_first_at(ids, ids[i], i);
}

proof fn lemma_link_systems(
    list: Seq<SystemDef>,
    n: int,
    h: Handles,
    pricing: Seq<Seq<char>>,
    i: int,
)
    requires
        0 <= i < n,
        link_systems(list, n, h, pricing) is Ok,
    ensures
        link_systems(list, n, h, pricing)->Ok_0.len() == n,
        link_system(list[i], h, pricing) == Ok::<SystemView, LoadErrorView>(
            link_systems(list, n, h, pricing)->Ok_0[i],
        ),
    decreases n,
{
    if n > 1 {
        if i < n - 1 {
            lemma_link_systems(list, n - 1, h, pricing, i);
        } else {
            lemma_link_systems(list, n - 1, h, pricing, 0);
        }
    } else {
        assert(link_systems(list, 0, h, pricing)->Ok_0.len() == 0);
    }
}

/// Where system ids are distinct, every linked system stands at its own handle.
pub proof fn lemma_linked_numbered(merged: MergedContent, known: Seq<Seq<char>>, reg: Registry)
    requires
        numberable(merged),
        system_names(merged.systems@).no_duplicates(),
        linked(merged, known) is Ok,
        linked(merged, known)->Ok_0.1 == system_views(reg.spec_systems()),
    ensures
        reg.numbered(),
{
    let pricing = pricing_after(known, merged.scripts@, merged.scripts@.len() as int)->Ok_0;
    let n = merged.systems@.len() as int;
    let names = system_names(merged.systems@);
    let out = system_views(reg.spec_systems());
    assert forall|i: int| 0 <= i < reg.spec_systems().len() implies (
    #[trigger] reg.spec_systems()[i]).id.0 == i by {
        assert(out[i] == reg.spec_systems()[i]@);
        if n == 0 {
            assert(out.len() == 0);
        }
        lemma_link_systems(merged.systems@, n, handles(merged), pricing, 0);
        lemma_link_systems(merged.systems@, n, handles(merged), pricing, i);
        lemma_handle_is_place(names, i);
        assert(names[i] == merged.systems@[i].id@);
    }
}

/// A linked system uses a pricing strategy that was registered, as a built-in or by a
/// script.
pub proof fn lemma_linked_priced(merged: MergedContent, known: Seq<Seq<char>>, i: int)
    requires
        linked(merged, known) is Ok,
        0 <= i < merged.systems@.len(),
    ensures
        pricing_after(known, merged.scripts@, merged.scripts@.len() as int)->Ok_0.contains(
            linked(merged, known)->Ok_0.1[i].pricing,
        ),
{
    let pricing = pricing_after(known, merged.scripts@, merged.scripts@.len() as int)->Ok_0;
    lemma_link_systems(
        merged.systems@,
        merged.systems@.len() as int,
        handles(merged),
        pricing,
        i,
    );
}

/// Whether some system with the handle `from` has a jump connection to `to`.
pub open spec fn connected(systems: Seq<ResolvedSystem>, from: SystemId, to: SystemId) -> bool {
    exists|i: int|
        0 <= i < systems.len() && (#[trigger] systems[i]).id == from
            && systems[i].connections@.contains(to)
}

/// The connections among the first `n` of `from` that are not mirrored.
pub open spec fn unmirrored_from(
    systems: Seq<ResolvedSystem>,
    from: SystemId,
    links: Seq<SystemId>,
    n: int,
) -> Seq<(SystemId, SystemId)>
    decreases n,
{
    if n <= 0 {
        Seq::empty()
    } else if connected(systems, links[n - 1], from) {
        unmirrored_from(systems, from, links, n - 1)
    } else {
        unmirrored_from(systems, from, links, n - 1).push((from, links[n - 1]))
    }
}

/// The connections of the first `n` systems that are not mirrored.
pub open spec fn unmirrored(systems: Seq<ResolvedSystem>, n: int) -> Seq<(SystemId, SystemId)>
    decreases n,
{
    if n <= 0 {
        Seq::empty()
    } else {
        let s = systems[n - 1];
        unmirrored(systems, n - 1) + unmirrored_from(
            systems,
            s.id,
            s.connections@,
            s.connections@.len() as int,
        )
    }
}

/// Whether a list of links leads to `to`.
pub(crate) fn leads_to(links: &Vec<SystemId>, to: SystemId) -> (b: bool)
    ensures
        b == links@.contains(to),
{
    let mut i: usize = 0;
    while i < links.len()
        invariant
            i <= links@.len(),
            forall|k: int| 0 <= k < i ==> #[trigger] links@[k] != to,
        decreases links@.len() - i,
    {
        if links[i] == to {
            return true;
        }
        i = i + 1;
    }
    false
}

/// Whether some system with the handle `from` has a jump connection to `to`.
fn is_connected(systems: &Vec<ResolvedSystem>, from: SystemId, to: SystemId) -> (b: bool)
    ensures
        b == connected(systems@, from, to),
{
    let mut i: usize = 0;
    while i < systems.len()
        invariant
            i <= systems@.len(),
            forall|k: int|
                0 <= k < i ==> !((#[trigger] systems@[k]).id == from
                    && systems@[k].connections@.contains(to)),
        decreases systems@.len() - i,
    {
        if systems[i].id == from && leads_to(&systems[i].connections, to) {
            return true;
        }
        i = i + 1;
    }
    false
}

impl Registry {
    /// The jump connections that are not mirrored, in the order of the systems. A one-way
    /// jump is usually an authoring mistake, but not fatal.
    pub fn one_way_links(&self) -> (r: Vec<(SystemId, SystemId)>)
        ensures
            r@ == unmirrored(self.spec_systems(), self.spec_systems().len() as int),
    {
        let systems = self.systems();
        let mut out: Vec<(SystemId, SystemId)> = Vec::new();
        let mut i: usize = 0;
        while i < systems.len()
            invariant
                i <= systems@.len(),
                out@ == unmirrored(systems@, i as int),
            decreases systems@.len() - i,
        {
            let from = systems[i].id;
            let links = &systems[i].connections;
            let ghost before = out@;
            let mut k: usize = 0;
            assert(out@ =~= before + unmirrored_from(systems@, from, links@, 0));
            while k < links.len()
                invariant
                    k <= links@.len(),
                    out@ == before + unmirrored_from(systems@, from, links@, k as int),
                decreases links@.len() - k,
            {
                if !is_connected(systems, links[k], from) {
                    out.push((from, links[k]));
                }
                assert(out@ =~= before + unmirrored_from(systems@, from, links@, k + 1));
                k = k + 1;
            }
            i = i + 1;
        }
        out
    }
}

/// Names are numbered in the order they are first seen: every name of the list is known,
/// no other is, and numbering more names leaves the numbers given out as they are.
pub proof fn lemma_names_are_numbered_as_seen(ids: Seq<Seq<char>>, name: Seq<char>)
    ensures
        interned(Seq::<Seq<char>>::empty()).len() == 0,
        interned(ids).contains(name) <==> ids.contains(name),
        ids.contains(name) ==> interned(ids.push(name)) == interned(ids),
        !ids.contains(name) ==> interned(ids.push(name)) == interned(ids).push(name),
    decreases ids.len(),
{
    if ids.len() > 0 {
        let init = ids.drop_last();
        lemma_names_are_numbered_as_seen(init, name);
        let before = interned(init);
        if ids.contains(name) {
            let k = ids.index_of(name);
            if k < init.len() {
                assert(init[k] == name);
                assert(before.contains(name));
                if interned(ids) != before {
                    assert(interned(ids)[before.index_of(name)] == name);
                }
            } else if !before.contains(name) {
                assert(interned(ids)[before.len() as int] == name);
            }
        }
        if interned(ids).contains(name) {
            let k = interned(ids).index_of(name);
            if k < before.len() {
                assert(before[k] == name);
                assert(init.contains(name));
                assert(ids[init.index_of(name)] == name);
            } else {
                assert(ids[ids.len() - 1] == name);
            }
        }
    }
    assert(ids.push(name).drop_last() =~= ids);
}

/// Linked amounts are the amounts with their commodities' handles: as many, in their
/// order, of the same quantities, each handle leading back to the name. Linking fails at a
/// commodity that is not known.
pub proof fn lemma_amounts_are_linked(
    amounts: Seq<CommodityAmount>,
    n: int,
    referrer: Seq<char>,
    commodities: Seq<Seq<char>>,
)
    requires
        0 <= n <= amounts.len(),
        commodities.len() <= u32::MAX,
    ensures
        match link_amounts(amounts, n, referrer, commodities) {
            Ok(v) => {
                &&& v.len() == n
                &&& forall|i: int|
                    0 <= i < n ==> (#[trigger] v[i]).1 == amounts[i].qty && v[i].0.0
                        < commodities.len() && commodities[v[i].0.0 as int] == amounts[i].commodity@
            },
            Err(e) => exists|i: int|
                0 <= i < n && !commodities.contains((#[trigger] amounts[i]).commodity@) && e == (
                LoadErrorView::DanglingRef {
                    kind: "recipe/system"@,
                    referrer,
                    target_kind: "commodity"@,
                    target: amounts[i].commodity@,
                }) && forall|j: int|
                    0 <= j < i ==> commodities.contains((#[trigger] amounts[j]).commodity@),
        },
    decreases n,
{
    if n > 0 {
        lemma_amounts_are_linked(amounts, n - 1, referrer, commodities);
        let name = amounts[n - 1].commodity@;
        if commodities.contains(name) {
            lemma_handle_in_range(commodities, name);
        }
        match link_amounts(amounts, n - 1, referrer, commodities) {
            Err(e) => {
                let p: int = n - 1;
                let i = choose|i: int|
                    0 <= i < p && !commodities.contains((#[trigger] amounts[i]).commodity@) && e
                        == (LoadErrorView::DanglingRef {
                        kind: "recipe/system"@,
                        referrer,
                        target_kind: "commodity"@,
                        target: amounts[i].commodity@,
                    }) && forall|j: int|
                        0 <= j < i ==> commodities.contains((#[trigger] amounts[j]).commodity@);
                assert(0 <= i < n && !commodities.contains(amounts[i].commodity@));
            },
            Ok(done) => {
                assert forall|j: int| 0 <= j < n - 1 implies commodities.contains(
                    (#[trigger] amounts[j]).commodity@,
                ) by {
                    assert(commodities[done[j].0.0 as int] == amounts[j].commodity@);
                }
                if let Ok(v) = link_amounts(amounts, n, referrer, commodities) {
                    assert forall|i: int| 0 <= i < n implies (#[trigger] v[i]).1 == amounts[i].qty
                        && v[i].0.0 < commodities.len() && commodities[v[i].0.0 as int]
                        == amounts[i].commodity@ by {
                        if i < n - 1 {
                            assert(v[i] == done[i]);
                        }
                    }
                } else {
                    assert(!commodities.contains(amounts[n - 1].commodity@));
                }
            },
        }
    }
}

/// Linked names are the names' handles: as many, in their order, each leading back to its
/// name. Linking fails at a name that is not known.
pub proof fn lemma_names_are_linked(
    names: Seq<String>,
    n: int,
    referrer: Seq<char>,
    target_kind: Seq<char>,
    known: Seq<Seq<char>>,
)
    requires
        0 <= n <= names.len(),
        known.len() <= u32::MAX,
    ensures
        match link_names(names, n, referrer, target_kind, known) {
            Ok(v) => {
                &&& v.len() == n
                &&& forall|i: int|
                    0 <= i < n ==> (#[trigger] v[i]) < known.len() && known[v[i] as int]
                        == names[i]@
            },
            Err(e) => exists|i: int|
                0 <= i < n && !known.contains((#[trigger] names[i])@) && e == (
                LoadErrorView::DanglingRef {
                    kind: "system"@,
                    referrer,
                    target_kind,
                    target: names[i]@,
                }),
        },
    decreases n,
{
    if n > 0 {
        lemma_names_are_linked(names, n - 1, referrer, target_kind, known);
        let name = names[n - 1]@;
        if known.contains(name) {
            lemma_handle_in_range(known, name);
        }
        match link_names(names, n - 1, referrer, target_kind, known) {
            Err(e) => {
                let p: int = n - 1;
                let i = choose|i: int|
                    0 <= i < p && !known.contains((#[trigger] names[i])@) && e == (
                    LoadErrorView::DanglingRef {
                        kind: "system"@,
                        referrer,
                        target_kind,
                        target: names[i]@,
                    });
                assert(0 <= i < n && !known.contains(names[i]@));
            },
            Ok(done) => {
                if let Ok(v) = link_names(names, n, referrer, target_kind, known) {
                    assert forall|i: int| 0 <= i < n implies (#[trigger] v[i]) < known.len()
                        && known[v[i] as int] == names[i]@ by {
                        if i < n - 1 {
                            assert(v[i] == done[i]);
                        }
                    }
                } else {
                    assert(!known.contains(names[n - 1]@));
                }
            },
        }
    }
}

/// A linked recipe is the recipe with its handles: it takes and makes what the recipe
/// does, in the same quantities, at the same rate.
pub proof fn lemma_recipe_is_linked(r: ProductionRecipe, h: Handles)
    requires
        h.commodities.len() <= u32::MAX,
        h.recipes.len() <= u32::MAX,
        h.recipes.contains(r.id@),
    ensures
        link_recipe(r, h) matches Ok(v) ==> {
            &&& h.recipes[v.id.0 as int] == r.id@
            &&& v.inputs.len() == r.inputs@.len()
            &&& v.outputs.len() == r.outputs@.len()
            &&& forall|i: int|
                0 <= i < v.inputs.len() ==> (#[trigger] v.inputs[i]).1 == r.inputs@[i].qty
                    && h.commodities[v.inputs[i].0.0 as int] == r.inputs@[i].commodity@
            &&& forall|i: int|
                0 <= i < v.outputs.len() ==> (#[trigger] v.outputs[i]).1 == r.outputs@[i].qty
                    && h.commodities[v.outputs[i].0.0 as int] == r.outputs@[i].commodity@
            &&& v.rate == r.rate
            &&& v.elasticity == r.elasticity
        },
        (forall|i: int|
            0 <= i < r.inputs@.len() ==> h.commodities.contains((#[trigger] r.inputs@[i]).commodity@))
            && (forall|i: int|
            0 <= i < r.outputs@.len() ==> h.commodities.contains(
                (#[trigger] r.outputs@[i]).commodity@,
            )) ==> link_recipe(r, h) is Ok,
{
    lemma_amounts_are_linked(r.inputs@, r.inputs@.len() as int, r.id@, h.commodities);
    lemma_amounts_are_linked(r.outputs@, r.outputs@.len() as int, r.id@, h.commodities);
    lemma_handle_in_range(h.recipes, r.id@);
}

/// A linked system is the system with its handles: its industries, links and stock lead
/// back to the names it was written with, and the rest is as it was.
pub proof fn lemma_system_is_linked(s: SystemDef, h: Handles, pricing: Seq<Seq<char>>)
    requires
        h.commodities.len() <= u32::MAX,
        h.recipes.len() <= u32::MAX,
        h.systems.len() <= u32::MAX,
        h.systems.contains(s.id@),
    ensures
        link_system(s, h, pricing) matches Ok(v) ==> {
            &&& h.systems[v.id.0 as int] == s.id@
            &&& v.name == s.name@
            &&& v.position == s.position
            &&& v.danger == s.danger
            &&& v.pricing == s.pricing@
            &&& pricing.contains(s.pricing@)
            &&& v.industries.len() == s.industries@.len()
            &&& forall|i: int|
                0 <= i < v.industries.len() ==> h.recipes[(#[trigger] v.industries[i]).0 as int]
                    == s.industries@[i]@
            &&& v.connections.len() == s.connections@.len()
            &&& forall|i: int|
                0 <= i < v.connections.len() ==> h.systems[(#[trigger] v.connections[i]).0 as int]
                    == s.connections@[i]@
            &&& v.initial_stock.len() == s.initial_stock@.len()
            &&& forall|i: int|
                0 <= i < v.initial_stock.len() ==> (#[trigger] v.initial_stock[i]).1
                    == s.initial_stock@[i].qty && h.commodities[v.initial_stock[i].0.0 as int]
                    == s.initial_stock@[i].commodity@
        },
        link_system(s, h, pricing) matches Err(LoadErrorView::UnknownPricing { system, strategy })
            ==> system == s.id@ && strategy == s.pricing@ && !pricing.contains(s.pricing@),
{
    lemma_names_are_linked(
        s.industries@,
        s.industries@.len() as int,
        s.id@,
        "recipe"@,
        h.recipes,
    );
    lemma_names_are_linked(
        s.connections@,
        s.connections@.len() as int,
        s.id@,
        "system"@,
        h.systems,
    );
    lemma_amounts_are_linked(s.initial_stock@, s.initial_stock@.len() as int, s.id@, h.commodities);
    lemma_handle_in_range(h.systems, s.id@);
    if let Ok(v) = link_system(s, h, pricing) {
        let industries = link_names(
            s.industries@,
            s.industries@.len() as int,
            s.id@,
            "recipe"@,
            h.recipes,
        )->Ok_0;
        let connections = link_names(
            s.connections@,
            s.connections@.len() as int,
            s.id@,
            "system"@,
            h.systems,
        )->Ok_0;
        assert forall|i: int| 0 <= i < v.industries.len() implies h.recipes[(
        #[trigger] v.industries[i]).0 as int] == s.industries@[i]@ by {
            assert(v.industries[i].0 == industries[i]);
        }
        assert forall|i: int| 0 <= i < v.connections.len() implies h.systems[(
        #[trigger] v.connections[i]).0 as int] == s.connections@[i]@ by {
            assert(v.connections[i].0 == connections[i]);
        }
    }
}

/// Content is linked piece by piece: there is a linked recipe for each recipe and a linked
/// system for each system, in their order.
pub proof fn lemma_content_is_linked_in_order(
    recipes: Seq<ProductionRecipe>,
    systems: Seq<SystemDef>,
    n: int,
    h: Handles,
    pricing: Seq<Seq<char>>,
)
    requires
        0 <= n,
    ensures
        link_recipes(recipes, n, h) matches Ok(v) ==> v.len() == n && forall|i: int|
            0 <= i < n ==> link_recipe(recipes[i], h) == Ok::<RecipeView, LoadErrorView>(
                #[trigger] v[i],
            ),
        link_systems(systems, n, h, pricing) matches Ok(v) ==> v.len() == n && forall|i: int|
            0 <= i < n ==> link_system(systems[i], h, pricing) == Ok::<SystemView, LoadErrorView>(
                #[trigger] v[i],
            ),
    decreases n,
{
    if n > 0 {
        lemma_content_is_linked_in_order(recipes, systems, n - 1, h, pricing);
        if let Ok(v) = link_recipes(recipes, n, h) {
            let before = link_recipes(recipes, n - 1, h)->Ok_0;
            assert forall|i: int| 0 <= i < n implies link_recipe(recipes[i], h) == Ok::<
                RecipeView,
                LoadErrorView,
            >(#[trigger] v[i]) by {
                if i < n - 1 {
                    assert(v[i] == before[i]);
                }
            }
        }
        if let Ok(v) = link_systems(systems, n, h, pricing) {
            let before = link_systems(systems, n - 1, h, pricing)->Ok_0;
            assert forall|i: int| 0 <= i < n implies link_system(systems[i], h, pricing) == Ok::<
                SystemView,
                LoadErrorView,
            >(#[trigger] v[i]) by {
                if i < n - 1 {
                    assert(v[i] == before[i]);
                }
            }
        }
    }
}

/// The strategies that systems may name are the built-in ones and those of the pricing
/// scripts, and no script takes the name of a built-in one.
pub proof fn lemma_strategies_are_built_in_or_scripted(
    known: Seq<Seq<char>>,
    scripts: Seq<LoadedScript>,
    n: int,
    name: Seq<char>,
)
    requires
        0 <= n <= scripts.len(),
    ensures
        match pricing_after(known, scripts, n) {
            Ok(names) => {
                &&& names.contains(name) <==> known.contains(name) || exists|i: int|
                    0 <= i < n && (#[trigger] scripts[i]).kind == ScriptKind::Pricing
                        && scripts[i].name@ == name
                &&& forall|i: int|
                    0 <= i < n && (#[trigger] scripts[i]).kind == ScriptKind::Pricing
                        ==> !known.contains(scripts[i].name@)
            },
            Err(e) => exists|i: int|
                0 <= i < n && (#[trigger] scripts[i]).kind == ScriptKind::Pricing
                    && known.contains(scripts[i].name@) && e == (
                LoadErrorView::ScriptShadowsBuiltin {
                    mod_id: scripts[i].mod_id@,
                    name: scripts[i].name@,
                }),
        },
    decreases n,
{
    if n > 0 {
        let p: int = n - 1;
        lemma_strategies_are_built_in_or_scripted(known, scripts, p, name);
        let last = scripts[p];
        match pricing_after(known, scripts, p) {
            Err(e) => {
                let i = choose|i: int|
                    0 <= i < p && (#[trigger] scripts[i]).kind == ScriptKind::Pricing
                        && known.contains(scripts[i].name@) && e == (
                    LoadErrorView::ScriptShadowsBuiltin {
                        mod_id: scripts[i].mod_id@,
                        name: scripts[i].name@,
                    });
                assert(0 <= i < n && scripts[i].kind == ScriptKind::Pricing);
            },
            Ok(before) => {
                if let Ok(names) = pricing_after(known, scripts, n) {
                    if before.contains(name) && names != before {
                        assert(names[before.index_of(name)] == name);
                    }
                    if last.kind == ScriptKind::Pricing && last.name@ == name {
                        assert(names[before.len() as int] == name);
                    }
                    if names.contains(name) && !before.contains(name) {
                        let k = names.index_of(name);
                        if k < before.len() {
                            assert(before[k] == name);
                        }
                        assert(scripts[p].kind == ScriptKind::Pricing);
                    }
                    if exists|i: int|
                        0 <= i < n && (#[trigger] scripts[i]).kind == ScriptKind::Pricing
                            && scripts[i].name@ == name {
                        let i = choose|i: int|
                            0 <= i < n && (#[trigger] scripts[i]).kind == ScriptKind::Pricing
                                && scripts[i].name@ == name;
                        if i < p {
                            assert(before.contains(name));
                        }
                    }
                } else {
                    assert(scripts[p].kind == ScriptKind::Pricing);
                }
            },
        }
    }
}

/// The links that are reported are those without one back: each of them, and no other.
pub proof fn lemma_one_way_links(systems: Seq<ResolvedSystem>, n: int, a: SystemId, b: SystemId)
    requires
        0 <= n <= systems.len(),
    ensures
        unmirrored(systems, n).contains((a, b)) <==> {
            &&& exists|i: int|
                0 <= i < n && (#[trigger] systems[i]).id == a && systems[i].connections@.contains(b)
            &&& forall|j: int|
                0 <= j < systems.len() && (#[trigger] systems[j]).id == b
                    ==> !systems[j].connections@.contains(a)
        },
    decreases n,
{
    if n > 0 {
        let p: int = n - 1;
        lemma_one_way_links(systems, p, a, b);
        let s = systems[p];
        let before = unmirrored(systems, p);
        let here = unmirrored_from(systems, s.id, s.connections@, s.connections@.len() as int);
        lemma_one_way_from(systems, s.id, s.connections@, s.connections@.len() as int, a, b);
        assert(s.connections@.take(s.connections@.len() as int) =~= s.connections@);
        let all = unmirrored(systems, n);
        assert(all == before + here);
        if before.contains((a, b)) {
            assert(all[before.index_of((a, b))] == (a, b));
        }
        if here.contains((a, b)) {
            assert(all[before.len() + here.index_of((a, b))] == (a, b));
            assert(systems[p].id == a);
        }
        if all.contains((a, b)) {
            let k = all.index_of((a, b));
            if k < before.len() {
                assert(before[k] == (a, b));
            } else {
                assert(here[k - before.len()] == (a, b));
            }
        }
        let linked = exists|i: int|
            0 <= i < n && (#[trigger] systems[i]).id == a && systems[i].connections@.contains(b);
        if linked {
            let i = choose|i: int|
                0 <= i < n && (#[trigger] systems[i]).id == a && systems[i].connections@.contains(b);
            if i < p {
                assert(systems[i].id == a);
            }
        }
    }
}

proof fn lemma_one_way_from(
    systems: Seq<ResolvedSystem>,
    from: SystemId,
    links: Seq<SystemId>,
    n: int,
    a: SystemId,
    b: SystemId,
)
    requires
        0 <= n <= links.len(),
    ensures
        unmirrored_from(systems, from, links, n).contains((a, b)) <==> a == from && links.take(
            n,
        ).contains(b) && !connected(systems, b, a),
    decreases n,
{
    if n > 0 {
        let p: int = n - 1;
        lemma_one_way_from(systems, from, links, p, a, b);
        let before = unmirrored_from(systems, from, links, p);
        let after = unmirrored_from(systems, from, links, n);
        let few = links.take(p);
        let all = links.take(n);
        if before.contains((a, b)) {
            assert(after[before.index_of((a, b))] == (a, b));
        }
        if after.contains((a, b)) {
            let k = after.index_of((a, b));
            if k < before.len() {
                assert(before[k] == (a, b));
            } else {
                assert(all[p] == b);
            }
        }
        if few.contains(b) {
            assert(all[few.index_of(b)] == b);
        }
        if all.contains(b) {
            let k = all.index_of(b);
            if k < p {
                assert(few[k] == b);
            } else if a == from && !connected(systems, b, a) {
                assert(after[after.len() - 1] == (a, b));
            }
        }
    }
}

/// Content that links does so as a whole: there is a recipe for each recipe and a system
/// for each system, linked with the handles of all the content, and every commodity,
/// recipe and system of it has one.
pub proof fn lemma_content_links_as_a_whole(merged: MergedContent, known: Seq<Seq<char>>)
    ensures
        linked(merged, known) matches Ok((recipes, systems)) ==> {
            &&& recipes.len() == merged.recipes@.len()
            &&& systems.len() == merged.systems@.len()
            &&& forall|i: int|
                0 <= i < recipes.len() ==> link_recipe(merged.recipes@[i], handles(merged)) == Ok::<
                    RecipeView,
                    LoadErrorView,
                >(#[trigger] recipes[i])
        },
        forall|i: int|
            0 <= i < merged.commodities@.len() ==> handles(merged).commodities.contains(
                (#[trigger] merged.commodities@[i]).id@,
            ),
        forall|i: int|
            0 <= i < merged.recipes@.len() ==> handles(merged).recipes.contains(
                (#[trigger] merged.recipes@[i]).id@,
            ),
        forall|i: int|
            0 <= i < merged.systems@.len() ==> handles(merged).systems.contains(
                (#[trigger] merged.systems@[i]).id@,
            ),
{
    let h = handles(merged);
    if let Ok(pricing) = pricing_after(known, merged.scripts@, merged.scripts@.len() as int) {
        lemma_content_is_linked_in_order(
            merged.recipes@,
            merged.systems@,
            merged.recipes@.len() as int,
            h,
            pricing,
        );
        lemma_content_is_linked_in_order(
            merged.recipes@,
            merged.systems@,
            merged.systems@.len() as int,
            h,
            pricing,
        );
    }
    assert forall|i: int| 0 <= i < merged.commodities@.len() implies h.commodities.contains(
        (#[trigger] merged.commodities@[i]).id@,
    ) by {
        lemma_interned_has(commodity_names(merged.commodities@), i);
    }
    assert forall|i: int| 0 <= i < merged.recipes@.len() implies h.recipes.contains(
        (#[trigger] merged.recipes@[i]).id@,
    ) by {
        lemma_interned_has(recipe_names(merged.recipes@), i);
    }
    assert forall|i: int| 0 <= i < merged.systems@.len() implies h.systems.contains(
        (#[trigger] merged.systems@[i]).id@,
    ) by {
        lemma_interned_has(system_names(merged.systems@), i);
    }
}

} // verus!
