//! The content fingerprint: FNV-1a over a canonical encoding of linked content.
//!
//! Encodings are written with what follows them: `put_x(v, rest)` is the bytes of `v`
//! and then `rest`. Every encoding can be told from what follows it, so two contents
//! with the same encoding are the same.

use vstd::prelude::*;

use crate::bits::{Bits, SIGN};
use crate::data::{
    CombatStats, CommodityDef, HullShape, LoadedScript, ScriptKind, ShipDef, ShipVisual,
};
use crate::ids::{CommodityId, Money, Quantity, RecipeId, ShipId, SystemId};
use crate::registry::{Registry, ResolvedRecipe, ResolvedSystem};

verus! {

/// The state an FNV-1a hash starts from.
pub const OFFSET: u64 = 0xcbf2_9ce4_8422_2325;

/// The multiplier of 64-bit FNV-1a.
pub const PRIME: u64 = 0x0000_0100_0000_01b3;

/// The state after one more byte.
pub open spec fn mixed(h: u64, b: u8) -> u64 {
    (h ^ (b as u64)).wrapping_mul(PRIME)
}

/// The state after more bytes.
pub open spec fn absorbed(h: u64, bytes: Seq<u8>) -> u64
    decreases bytes.len(),
{
    if bytes.len() == 0 {
        h
    } else {
        mixed(absorbed(h, bytes.drop_last()), bytes.last())
    }
}

/// The FNV-1a hash of bytes.
pub open spec fn fnv1a(bytes: Seq<u8>) -> u64 {
    absorbed(OFFSET, bytes)
}

/// Absorbing is one byte after the other.
pub proof fn lemma_absorbed(h: u64, a: Seq<u8>, b: Seq<u8>)
    ensures
        absorbed(h, a + b) == absorbed(absorbed(h, a), b),
    decreases b.len(),
{
    if b.len() == 0 {
        assert(a + b =~= a);
    } else {
        lemma_absorbed(h, a, b.drop_last());
        assert((a + b).drop_last() =~= a + b.drop_last());
    }
}

/// Absorbing one byte more.
proof fn lemma_push(h: u64, s: Seq<u8>, b: u8)
    ensures
        absorbed(h, s.push(b)) == mixed(absorbed(h, s), b),
{
    assert(s.push(b).drop_last() =~= s);
}

/// The four bytes of a number, lowest first.
pub open spec fn le4(v: u32) -> Seq<u8> {
    seq![
        (v % 0x100) as u8,
        (v / 0x100 % 0x100) as u8,
        (v / 0x1_0000 % 0x100) as u8,
        (v / 0x100_0000) as u8,
    ]
}

/// The eight bytes of a number, lowest first.
pub open spec fn le8(v: u64) -> Seq<u8> {
    le4((v % 0x1_0000_0000) as u32) + le4((v / 0x1_0000_0000) as u32)
}

/// A balance as the unsigned number with the same 64 bits.
pub open spec fn unsigned(v: Money) -> u64 {
    if v < 0 {
        (v + 0x1_0000_0000_0000_0000) as u64
    } else {
        v as u64
    }
}

/// A pattern with both zeros written alike.
pub open spec fn one_zero(b: Bits) -> Bits {
    if b == SIGN {
        0
    } else {
        b
    }
}

pub open spec fn put_u32(v: u32, rest: Seq<u8>) -> Seq<u8> {
    le4(v) + rest
}

pub open spec fn put_u64(v: u64, rest: Seq<u8>) -> Seq<u8> {
    le8(v) + rest
}

pub open spec fn put_bytes(bytes: Seq<u8>, rest: Seq<u8>) -> Seq<u8> {
    bytes + rest
}

/// A text: its length in bytes, and its bytes.
pub open spec fn put_text(s: Seq<char>, rest: Seq<u8>) -> Seq<u8> {
    let bytes = vstd::utf8::encode_utf8(s);
    put_u64(bytes.len() as u64, put_bytes(bytes, rest))
}

/// The elements of a list from `i` on.
pub open spec fn put_from<T>(
    list: Seq<T>,
    put: spec_fn(T, Seq<u8>) -> Seq<u8>,
    i: int,
    rest: Seq<u8>,
) -> Seq<u8>
    decreases list.len() - i,
{
    if i < 0 || i >= list.len() {
        rest
    } else {
        put(list[i], put_from(list, put, i + 1, rest))
    }
}

/// A list: its length, and its elements.
pub open spec fn put_list<T>(
    list: Seq<T>,
    put: spec_fn(T, Seq<u8>) -> Seq<u8>,
    rest: Seq<u8>,
) -> Seq<u8> {
    put_u64(list.len() as u64, put_from(list, put, 0, rest))
}

pub open spec fn put_amount(a: (CommodityId, Quantity), rest: Seq<u8>) -> Seq<u8> {
    put_u32(a.0.0, put_u32(a.1, rest))
}

pub open spec fn put_recipe_id(r: RecipeId, rest: Seq<u8>) -> Seq<u8> {
    put_u32(r.0, rest)
}

pub open spec fn put_system_id(s: SystemId, rest: Seq<u8>) -> Seq<u8> {
    put_u32(s.0, rest)
}

/// [`put_amount`] as an element encoding.
pub open spec fn amounts() -> spec_fn((CommodityId, Quantity), Seq<u8>) -> Seq<u8> {
    |v: (CommodityId, Quantity), t: Seq<u8>| put_amount(v, t)
}

/// [`put_recipe_id`] as an element encoding.
pub open spec fn recipe_ids() -> spec_fn(RecipeId, Seq<u8>) -> Seq<u8> {
    |v: RecipeId, t: Seq<u8>| put_recipe_id(v, t)
}

/// [`put_system_id`] as an element encoding.
pub open spec fn system_ids() -> spec_fn(SystemId, Seq<u8>) -> Seq<u8> {
    |v: SystemId, t: Seq<u8>| put_system_id(v, t)
}

/// [`put_commodity`] as an element encoding.
pub open spec fn commodities() -> spec_fn(CommodityFacts, Seq<u8>) -> Seq<u8> {
    |v: CommodityFacts, t: Seq<u8>| put_commodity(v, t)
}

/// [`put_recipe`] as an element encoding.
pub open spec fn recipes() -> spec_fn(RecipeFacts, Seq<u8>) -> Seq<u8> {
    |v: RecipeFacts, t: Seq<u8>| put_recipe(v, t)
}

/// [`put_system`] as an element encoding.
pub open spec fn systems() -> spec_fn(SystemFacts, Seq<u8>) -> Seq<u8> {
    |v: SystemFacts, t: Seq<u8>| put_system(v, t)
}

/// [`put_ship`] as an element encoding.
pub open spec fn ships() -> spec_fn(ShipFacts, Seq<u8>) -> Seq<u8> {
    |v: ShipFacts, t: Seq<u8>| put_ship(v, t)
}

/// [`put_script`] as an element encoding.
pub open spec fn scripts() -> spec_fn(ScriptFacts, Seq<u8>) -> Seq<u8> {
    |v: ScriptFacts, t: Seq<u8>| put_script(v, t)
}

/// What the fingerprint tells of a commodity: its interned id and its fields.
#[verifier::ext_equal]
pub struct CommodityFacts {
    pub key: Seq<char>,
    pub id: Seq<char>,
    pub name: Seq<char>,
    pub base_price: Money,
    pub unit_mass: u32,
    pub elasticity: Bits,
    pub category: Seq<char>,
}

/// What the fingerprint tells of a recipe.
#[verifier::ext_equal]
pub struct RecipeFacts {
    pub key: Seq<char>,
    pub inputs: Seq<(CommodityId, Quantity)>,
    pub outputs: Seq<(CommodityId, Quantity)>,
    pub rate: u32,
    pub elasticity: Bits,
}

/// What the fingerprint tells of a system.
#[verifier::ext_equal]
pub struct SystemFacts {
    pub key: Seq<char>,
    pub name: Seq<char>,
    pub x: Bits,
    pub y: Bits,
    pub industries: Seq<RecipeId>,
    pub connections: Seq<SystemId>,
    pub initial_stock: Seq<(CommodityId, Quantity)>,
    pub pricing: Seq<char>,
    pub danger: Bits,
}

/// What the fingerprint tells of a ship type.
#[verifier::ext_equal]
pub struct ShipFacts {
    pub key: Seq<char>,
    pub id: Seq<char>,
    pub name: Seq<char>,
    pub cargo_capacity: u32,
    pub jump_speed: Bits,
    pub hull: u32,
    pub max_speed: Bits,
    pub combat: Option<CombatStats>,
    pub visual: Option<ShipVisual>,
}

/// What the fingerprint tells of a script.
#[verifier::ext_equal]
pub struct ScriptFacts {
    pub name: Seq<char>,
    pub kind: ScriptKind,
    pub source: Seq<char>,
    pub mod_id: Seq<char>,
}

/// What the fingerprint tells of linked content, in handle order.
#[verifier::ext_equal]
pub struct Facts {
    pub commodities: Seq<CommodityFacts>,
    pub recipes: Seq<RecipeFacts>,
    pub systems: Seq<SystemFacts>,
    pub ships: Seq<ShipFacts>,
    pub scripts: Seq<ScriptFacts>,
}

/// The interned id at `i`, empty where there is none.
pub open spec fn key_at(ids: Seq<Seq<char>>, i: int) -> Seq<char> {
    if 0 <= i < ids.len() {
        ids[i]
    } else {
        Seq::empty()
    }
}

/// A loadout with both zeros written alike.
pub open spec fn loadout(c: CombatStats) -> CombatStats {
    CombatStats {
        shield_regen: one_zero(c.shield_regen),
        weapon_range: one_zero(c.weapon_range),
        accuracy: one_zero(c.accuracy),
        acceleration: one_zero(c.acceleration),
        ..c
    }
}

/// A 32-bit pattern with both zeros written alike.
pub open spec fn one_zero_32(b: u32) -> u32 {
    if b == 0x8000_0000 {
        0
    } else {
        b
    }
}

/// A look with both zeros written alike.
pub open spec fn look(v: ShipVisual) -> ShipVisual {
    ShipVisual {
        hull: v.hull,
        length: one_zero_32(v.length),
        width: one_zero_32(v.width),
        height: one_zero_32(v.height),
        red: one_zero_32(v.red),
        green: one_zero_32(v.green),
        blue: one_zero_32(v.blue),
    }
}

pub open spec fn commodity_facts(key: Seq<char>, c: CommodityDef) -> CommodityFacts {
    CommodityFacts {
        key,
        id: c.id@,
        name: c.name@,
        base_price: c.base_price,
        unit_mass: c.unit_mass,
        elasticity: one_zero(c.elasticity),
        category: c.category@,
    }
}

pub open spec fn recipe_facts(key: Seq<char>, r: ResolvedRecipe) -> RecipeFacts {
    RecipeFacts {
        key,
        inputs: r.inputs@,
        outputs: r.outputs@,
        rate: r.rate,
        elasticity: one_zero(r.elasticity),
    }
}

pub open spec fn system_facts(key: Seq<char>, s: ResolvedSystem) -> SystemFacts {
    SystemFacts {
        key,
        name: s.name@,
        x: one_zero(s.position.x),
        y: one_zero(s.position.y),
        industries: s.industries@,
        connections: s.connections@,
        initial_stock: s.initial_stock@,
        pricing: s.pricing@,
        danger: one_zero(s.danger),
    }
}

pub open spec fn ship_facts(key: Seq<char>, s: ShipDef) -> ShipFacts {
    ShipFacts {
        key,
        id: s.id@,
        name: s.name@,
        cargo_capacity: s.cargo_capacity,
        jump_speed: one_zero(s.jump_speed),
        hull: s.hull,
        max_speed: one_zero(s.max_speed),
        combat: match s.combat {
            Some(c) => Some(loadout(c)),
            None => None,
        },
        visual: match s.visual {
            Some(v) => Some(look(v)),
            None => None,
        },
    }
}

pub open spec fn script_facts(s: LoadedScript) -> ScriptFacts {
    ScriptFacts { name: s.name@, kind: s.kind, source: s.source@, mod_id: s.mod_id@ }
}

/// What the fingerprint tells of a registry.
pub open spec fn facts(reg: Registry) -> Facts {
    Facts {
        commodities: Seq::new(
            reg.spec_commodities().len(),
            |i: int| commodity_facts(key_at(reg.spec_commodity_ids(), i), reg.spec_commodities()[i]),
        ),
        recipes: Seq::new(
            reg.spec_recipes().len(),
            |i: int| recipe_facts(key_at(reg.spec_recipe_ids(), i), reg.spec_recipes()[i]),
        ),
        systems: Seq::new(
            reg.spec_systems().len(),
            |i: int| system_facts(key_at(reg.spec_system_ids(), i), reg.spec_systems()[i]),
        ),
        ships: Seq::new(
            reg.spec_ships().len(),
            |i: int| ship_facts(key_at(reg.spec_ship_ids(), i), reg.spec_ships()[i]),
        ),
        scripts: Seq::new(reg.spec_scripts().len(), |i: int| script_facts(reg.spec_scripts()[i])),
    }
}

pub open spec fn put_commodity(c: CommodityFacts, rest: Seq<u8>) -> Seq<u8> {
    put_text(
        c.key,
        put_text(
            c.id,
            put_text(
                c.name,
                put_u64(
                    unsigned(c.base_price),
                    put_u32(c.unit_mass, put_u64(c.elasticity, put_text(c.category, rest))),
                ),
            ),
        ),
    )
}

pub open spec fn put_recipe(r: RecipeFacts, rest: Seq<u8>) -> Seq<u8> {
    put_text(
        r.key,
        put_list(
            r.inputs,
            amounts(),
            put_list(
                r.outputs,
                amounts(),
                put_u32(r.rate, put_u64(r.elasticity, rest)),
            ),
        ),
    )
}

pub open spec fn put_system(s: SystemFacts, rest: Seq<u8>) -> Seq<u8> {
    put_text(
        s.key,
        put_text(
            s.name,
            put_u64(
                s.x,
                put_u64(
                    s.y,
                    put_list(
                        s.industries,
                        recipe_ids(),
                        put_list(
                            s.connections,
                            system_ids(),
                            put_list(
                                s.initial_stock,
                                amounts(),
                                put_text(s.pricing, put_u64(s.danger, rest)),
                            ),
                        ),
                    ),
                ),
            ),
        ),
    )
}

pub open spec fn put_combat(c: Option<CombatStats>, rest: Seq<u8>) -> Seq<u8> {
    match c {
        None => put_u32(0, rest),
        Some(s) => put_u32(
            1,
            put_u32(
                s.shield,
                put_u64(
                    s.shield_regen,
                    put_u32(
                        s.weapon_damage,
                        put_u64(
                            s.weapon_range,
                            put_u32(
                                s.weapon_cooldown,
                                put_u64(s.accuracy, put_u64(s.acceleration, rest)),
                            ),
                        ),
                    ),
                ),
            ),
        ),
    }
}

/// The number of a hull silhouette.
pub open spec fn shape_number(h: HullShape) -> u32 {
    match h {
        HullShape::Dart => 0,
        HullShape::Freighter => 1,
    }
}

pub open spec fn put_visual(v: Option<ShipVisual>, rest: Seq<u8>) -> Seq<u8> {
    match v {
        None => put_u32(0, rest),
        Some(s) => put_u32(
            1,
            put_u32(
                shape_number(s.hull),
                put_u32(
                    s.length,
                    put_u32(
                        s.width,
                        put_u32(
                            s.height,
                            put_u32(s.red, put_u32(s.green, put_u32(s.blue, rest))),
                        ),
                    ),
                ),
            ),
        ),
    }
}

pub open spec fn put_ship(s: ShipFacts, rest: Seq<u8>) -> Seq<u8> {
    put_text(
        s.key,
        put_text(
            s.id,
            put_text(
                s.name,
                put_u32(
                    s.cargo_capacity,
                    put_u64(
                        s.jump_speed,
                        put_u32(
                            s.hull,
                            put_u64(s.max_speed, put_combat(s.combat, put_visual(s.visual, rest))),
                        ),
                    ),
                ),
            ),
        ),
    )
}

/// The number of a script kind.
pub open spec fn kind_number(k: ScriptKind) -> u32 {
    match k {
        ScriptKind::Pricing => 0,
    }
}

pub open spec fn put_script(s: ScriptFacts, rest: Seq<u8>) -> Seq<u8> {
    put_text(
        s.name,
        put_u32(kind_number(s.kind), put_text(s.source, put_text(s.mod_id, rest))),
    )
}

/// The canonical encoding of content.
pub open spec fn put_facts(f: Facts, rest: Seq<u8>) -> Seq<u8> {
    put_list(
        f.commodities,
        commodities(),
        put_list(
            f.recipes,
            recipes(),
            put_list(
                f.systems,
                systems(),
                put_list(
                    f.ships,
                    ships(),
                    put_list(f.scripts, scripts(), rest),
                ),
            ),
        ),
    )
}

/// The canonical encoding of linked content.
pub open spec fn encoding(reg: Registry) -> Seq<u8> {
    put_facts(facts(reg), Seq::empty())
}

/// A running FNV-1a hash.
#[derive(Debug, Clone, Copy, PartialEq, Eq, Structural)]
pub struct Fnv(pub u64);

impl Fnv {
    /// The hash of nothing.
    pub fn new() -> (h: Self)
        ensures
            h.0 == fnv1a(Seq::empty()),
            h.0 == OFFSET,
    {
        Fnv(OFFSET)
    }

    /// Absorb a byte.
    pub fn byte(&mut self, b: u8)
        ensures
            final(self).0 == mixed(old(self).0, b),
    {
        self.0 = (self.0 ^ (b as u64)).wrapping_mul(PRIME);
    }

    /// Absorb bytes.
    pub fn bytes(&mut self, bs: &[u8])
        ensures
            final(self).0 == absorbed(old(self).0, bs@),
            forall|rest: Seq<u8>| #[trigger]
                absorbed(final(self).0, rest) == absorbed(old(self).0, put_bytes(bs@, rest)),
    {
        let mut i: usize = 0;
        while i < bs.len()
            invariant
                i <= bs@.len(),
                self.0 == absorbed(old(self).0, bs@.take(i as int)),
            decreases bs@.len() - i,
        {
            self.byte(bs[i]);
            assert(bs@.take(i + 1).drop_last() =~= bs@.take(i as int));
            i = i + 1;
        }
        assert(bs@.take(i as int) =~= bs@);
        proof {
            let after = self.0;
            assert forall|rest: Seq<u8>| #[trigger] absorbed(after, rest) == absorbed(
                old(self).0,
                put_bytes(bs@, rest),
            ) by {
                lemma_absorbed(old(self).0, bs@, rest);
            }
        }
    }

    /// Absorb a 32-bit number, lowest byte first.
    pub fn u32(&mut self, v: u32)
        ensures
            final(self).0 == absorbed(old(self).0, le4(v)),
            forall|rest: Seq<u8>| #[trigger]
                absorbed(final(self).0, rest) == absorbed(old(self).0, put_u32(v, rest)),
    {
        let ghost h = self.0;
        let ghost all = le4(v);
        self.byte((v % 0x100) as u8);
        self.byte((v / 0x100 % 0x100) as u8);
        self.byte((v / 0x1_0000 % 0x100) as u8);
        self.byte((v / 0x100_0000) as u8);
        proof {
            let s0 = Seq::<u8>::empty();
            let s1 = s0.push(all[0]);
            let s2 = s1.push(all[1]);
            let s3 = s2.push(all[2]);
            lemma_push(h, s0, all[0]);
            lemma_push(h, s1, all[1]);
            lemma_push(h, s2, all[2]);
            lemma_push(h, s3, all[3]);
            assert(s3.push(all[3]) =~= all);
            let after = self.0;
            assert forall|rest: Seq<u8>| #[trigger] absorbed(after, rest) == absorbed(
                h,
                put_u32(v, rest),
            ) by {
                lemma_absorbed(h, all, rest);
            }
        }
    }

    /// Absorb a 64-bit number, lowest byte first.
    pub fn u64(&mut self, v: u64)
        ensures
            final(self).0 == absorbed(old(self).0, le8(v)),
            forall|rest: Seq<u8>| #[trigger]
                absorbed(final(self).0, rest) == absorbed(old(self).0, put_u64(v, rest)),
    {
        let ghost h = self.0;
        self.u32((v % 0x1_0000_0000) as u32);
        self.u32((v / 0x1_0000_0000) as u32);
        proof {
            let a = le4((v % 0x1_0000_0000) as u32);
            let b = le4((v / 0x1_0000_0000) as u32);
            lemma_absorbed(h, a, b);
            let after = self.0;
            assert forall|rest: Seq<u8>| #[trigger] absorbed(after, rest) == absorbed(
                h,
                put_u64(v, rest),
            ) by {
                lemma_absorbed(h, le8(v), rest);
            }
        }
    }

    /// Absorb a length as a 64-bit number.
    pub fn usize(&mut self, v: usize)
        ensures
            final(self).0 == absorbed(old(self).0, le8(v as u64)),
            forall|rest: Seq<u8>| #[trigger]
                absorbed(final(self).0, rest) == absorbed(old(self).0, put_u64(v as u64, rest)),
    {
        self.u64(v as u64);
    }

    /// Absorb a balance, two's complement.
    pub fn i64(&mut self, v: Money)
        ensures
            final(self).0 == absorbed(old(self).0, le8(unsigned(v))),
            forall|rest: Seq<u8>| #[trigger]
                absorbed(final(self).0, rest) == absorbed(old(self).0, put_u64(unsigned(v), rest)),
    {
        let bits: u64 = if v < 0 {
            0xffff_ffff_ffff_ffff - ((-(v + 1)) as u64)
        } else {
            v as u64
        };
        self.u64(bits);
    }

    /// Absorb a real number's pattern, both zeros alike.
    pub fn pattern(&mut self, v: Bits)
        ensures
            final(self).0 == absorbed(old(self).0, le8(one_zero(v))),
            forall|rest: Seq<u8>| #[trigger]
                absorbed(final(self).0, rest) == absorbed(old(self).0, put_u64(one_zero(v), rest)),
    {
        self.u64(
            if v == SIGN {
                0
            } else {
                v
            },
        );
    }

    /// Absorb a text: its length in bytes, and its bytes.
    pub fn str(&mut self, s: &str)
        ensures
            final(self).0 == absorbed(old(self).0, put_text(s@, Seq::empty())),
            forall|rest: Seq<u8>| #[trigger]
                absorbed(final(self).0, rest) == absorbed(old(self).0, put_text(s@, rest)),
    {
        let bytes = s.as_bytes();
        self.usize(bytes.len());
        let ghost mid = self.0;
        self.bytes(bytes);
        proof {
            assert(put_bytes(bytes@, Seq::empty()) =~= bytes@);
            assert(absorbed(mid, put_bytes(bytes@, Seq::empty())) == self.0);
        }
    }

    /// The hash of all that was absorbed.
    pub fn finish(&self) -> (h: u64)
        ensures
            h == self.0,
    {
        self.0
    }
}

/// Absorb amounts.
fn feed_amounts(h: &mut Fnv, list: &Vec<(CommodityId, Quantity)>)
    ensures
        forall|rest: Seq<u8>| #[trigger]
            absorbed(final(h).0, rest) == absorbed(old(h).0, put_list(list@, amounts(), rest)),
{
    let ghost start = h.0;
    h.usize(list.len());
    let ghost mid = h.0;
    let mut i: usize = 0;
    while i < list.len()
        invariant
            i <= list@.len(),
            forall|rest: Seq<u8>|
                absorbed(h.0, put_from(list@, amounts(), i as int, rest)) == absorbed(
                    mid,
                    #[trigger] put_from(list@, amounts(), 0, rest),
                ),
        decreases list@.len() - i,
    {
        let ghost before = h.0;
        h.u32(list[i].0.0);
        let ghost half = h.0;
        h.u32(list[i].1);
        proof {
            let after = h.0;
            assert forall|rest: Seq<u8>|
                absorbed(after, put_from(list@, amounts(), i + 1, rest)) == absorbed(
                    mid,
                    #[trigger] put_from(list@, amounts(), 0, rest),
                ) by {
                let tail = put_from(list@, amounts(), i + 1, rest);
                assert(put_from(list@, amounts(), i as int, rest) == put_amount(list@[i as int], tail));
                assert(absorbed(after, tail) == absorbed(before, put_amount(list@[i as int], tail)));
            }
        }
        i = i + 1;
    }
    proof {
        let end = h.0;
        assert forall|rest: Seq<u8>| #[trigger]
            absorbed(end, rest) == absorbed(start, put_list(list@, amounts(), rest)) by {
            let all = put_from(list@, amounts(), 0, rest);
            assert(put_from(list@, amounts(), i as int, rest) == rest);
            assert(absorbed(mid, all) == absorbed(start, put_u64(list@.len() as u64, all)));
        }
    }
}

/// Absorb recipe handles.
fn feed_recipe_ids(h: &mut Fnv, list: &Vec<RecipeId>)
    ensures
        forall|rest: Seq<u8>| #[trigger]
            absorbed(final(h).0, rest) == absorbed(old(h).0, put_list(list@, recipe_ids(), rest)),
{
    let ghost start = h.0;
    h.usize(list.len());
    let ghost mid = h.0;
    let mut i: usize = 0;
    while i < list.len()
        invariant
            i <= list@.len(),
            forall|rest: Seq<u8>|
                absorbed(h.0, put_from(list@, recipe_ids(), i as int, rest)) == absorbed(
                    mid,
                    #[trigger] put_from(list@, recipe_ids(), 0, rest),
                ),
        decreases list@.len() - i,
    {
        let ghost before = h.0;
        h.u32(list[i].0);
        proof {
            let after = h.0;
            assert forall|rest: Seq<u8>|
                absorbed(after, put_from(list@, recipe_ids(), i + 1, rest)) == absorbed(
                    mid,
                    #[trigger] put_from(list@, recipe_ids(), 0, rest),
                ) by {
                let tail = put_from(list@, recipe_ids(), i + 1, rest);
                assert(put_from(list@, recipe_ids(), i as int, rest) == put_recipe_id(list@[i as int], tail));
                assert(absorbed(after, tail) == absorbed(before, put_recipe_id(list@[i as int], tail)));
            }
        }
        i = i + 1;
    }
    proof {
        let end = h.0;
        assert forall|rest: Seq<u8>| #[trigger]
            absorbed(end, rest) == absorbed(start, put_list(list@, recipe_ids(), rest)) by {
            let all = put_from(list@, recipe_ids(), 0, rest);
            assert(put_from(list@, recipe_ids(), i as int, rest) == rest);
            assert(absorbed(mid, all) == absorbed(start, put_u64(list@.len() as u64, all)));
        }
    }
}

/// Absorb system handles.
fn feed_system_ids(h: &mut Fnv, list: &Vec<SystemId>)
    ensures
        forall|rest: Seq<u8>| #[trigger]
            absorbed(final(h).0, rest) == absorbed(old(h).0, put_list(list@, system_ids(), rest)),
{
    let ghost start = h.0;
    h.usize(list.len());
    let ghost mid = h.0;
    let mut i: usize = 0;
    while i < list.len()
        invariant
            i <= list@.len(),
            forall|rest: Seq<u8>|
                absorbed(h.0, put_from(list@, system_ids(), i as int, rest)) == absorbed(
                    mid,
                    #[trigger] put_from(list@, system_ids(), 0, rest),
                ),
        decreases list@.len() - i,
    {
        let ghost before = h.0;
        h.u32(list[i].0);
        proof {
            let after = h.0;
            assert forall|rest: Seq<u8>|
                absorbed(after, put_from(list@, system_ids(), i + 1, rest)) == absorbed(
                    mid,
                    #[trigger] put_from(list@, system_ids(), 0, rest),
                ) by {
                let tail = put_from(list@, system_ids(), i + 1, rest);
                assert(put_from(list@, system_ids(), i as int, rest) == put_system_id(list@[i as int], tail));
                assert(absorbed(after, tail) == absorbed(before, put_system_id(list@[i as int], tail)));
            }
        }
        i = i + 1;
    }
    proof {
        let end = h.0;
        assert forall|rest: Seq<u8>| #[trigger]
            absorbed(end, rest) == absorbed(start, put_list(list@, system_ids(), rest)) by {
            let all = put_from(list@, system_ids(), 0, rest);
            assert(put_from(list@, system_ids(), i as int, rest) == rest);
            assert(absorbed(mid, all) == absorbed(start, put_u64(list@.len() as u64, all)));
        }
    }
}

/// Absorb a commodity.
fn feed_commodity(h: &mut Fnv, key: &str, c: &CommodityDef)
    ensures
        forall|rest: Seq<u8>| #[trigger]
            absorbed(final(h).0, rest) == absorbed(
                old(h).0,
                put_commodity(commodity_facts(key@, *c), rest),
            ),
{
    h.str(key);
    h.str(c.id.as_str());
    h.str(c.name.as_str());
    h.i64(c.base_price);
    h.u32(c.unit_mass);
    h.pattern(c.elasticity);
    h.str(c.category.as_str());
}

/// Absorb a recipe.
fn feed_recipe(h: &mut Fnv, key: &str, r: &ResolvedRecipe)
    ensures
        forall|rest: Seq<u8>| #[trigger]
            absorbed(final(h).0, rest) == absorbed(
                old(h).0,
                put_recipe(recipe_facts(key@, *r), rest),
            ),
{
    h.str(key);
    feed_amounts(h, &r.inputs);
    feed_amounts(h, &r.outputs);
    h.u32(r.rate);
    h.pattern(r.elasticity);
}

/// Absorb a system.
fn feed_system(h: &mut Fnv, key: &str, s: &ResolvedSystem)
    ensures
        forall|rest: Seq<u8>| #[trigger]
            absorbed(final(h).0, rest) == absorbed(
                old(h).0,
                put_system(system_facts(key@, *s), rest),
            ),
{
    h.str(key);
    h.str(s.name.as_str());
    h.pattern(s.position.x);
    h.pattern(s.position.y);
    feed_recipe_ids(h, &s.industries);
    feed_system_ids(h, &s.connections);
    feed_amounts(h, &s.initial_stock);
    h.str(s.pricing.as_str());
    h.pattern(s.danger);
}

/// Absorb a loadout.
fn feed_combat(h: &mut Fnv, c: &Option<CombatStats>)
    ensures
        forall|rest: Seq<u8>| #[trigger]
            absorbed(final(h).0, rest) == absorbed(
                old(h).0,
                put_combat(
                    match *c {
                        Some(s) => Some(loadout(s)),
                        None => None,
                    },
                    rest,
                ),
            ),
{
    match c {
        None => {
            h.u32(0);
        },
        Some(s) => {
            h.u32(1);
            h.u32(s.shield);
            h.pattern(s.shield_regen);
            h.u32(s.weapon_damage);
            h.pattern(s.weapon_range);
            h.u32(s.weapon_cooldown);
            h.pattern(s.accuracy);
            h.pattern(s.acceleration);
        },
    }
}

/// Absorb a 32-bit pattern, both zeros alike.
fn feed_single(h: &mut Fnv, v: u32)
    ensures
        forall|rest: Seq<u8>| #[trigger]
            absorbed(final(h).0, rest) == absorbed(old(h).0, put_u32(one_zero_32(v), rest)),
{
    h.u32(
        if v == 0x8000_0000 {
            0
        } else {
            v
        },
    );
}

/// Absorb a ship's look.
fn feed_visual(h: &mut Fnv, v: &Option<ShipVisual>)
    ensures
        forall|rest: Seq<u8>| #[trigger]
            absorbed(final(h).0, rest) == absorbed(
                old(h).0,
                put_visual(
                    match *v {
                        Some(s) => Some(look(s)),
                        None => None,
                    },
                    rest,
                ),
            ),
{
    match v {
        None => {
            h.u32(0);
        },
        Some(s) => {
            h.u32(1);
            h.u32(
                match s.hull {
                    HullShape::Dart => 0,
                    HullShape::Freighter => 1,
                },
            );
            feed_single(h, s.length);
            feed_single(h, s.width);
            feed_single(h, s.height);
            feed_single(h, s.red);
            feed_single(h, s.green);
            feed_single(h, s.blue);
        },
    }
}

/// Absorb a ship type.
fn feed_ship(h: &mut Fnv, key: &str, s: &ShipDef)
    ensures
        forall|rest: Seq<u8>| #[trigger]
            absorbed(final(h).0, rest) == absorbed(old(h).0, put_ship(ship_facts(key@, *s), rest)),
{
    h.str(key);
    h.str(s.id.as_str());
    h.str(s.name.as_str());
    h.u32(s.cargo_capacity);
    h.pattern(s.jump_speed);
    h.u32(s.hull);
    h.pattern(s.max_speed);
    feed_combat(h, &s.combat);
    feed_visual(h, &s.visual);
}

/// Absorb a script.
fn feed_script(h: &mut Fnv, s: &LoadedScript)
    ensures
        forall|rest: Seq<u8>| #[trigger]
            absorbed(final(h).0, rest) == absorbed(old(h).0, put_script(script_facts(*s), rest)),
{
    h.str(s.name.as_str());
    h.u32(
        match s.kind {
            ScriptKind::Pricing => 0,
        },
    );
    h.str(s.source.as_str());
    h.str(s.mod_id.as_str());
}

/// Absorb the commodities of a registry.
fn feed_commodities(h: &mut Fnv, reg: &Registry)
    requires
        reg.wf(),
    ensures
        forall|rest: Seq<u8>| #[trigger]
            absorbed(final(h).0, rest) == absorbed(
                old(h).0,
                put_list(facts(*reg).commodities, commodities(), rest),
            ),
{
    let ghost start = h.0;
    let ghost list = facts(*reg).commodities;
    let n = reg.commodity_count();
    h.usize(n);
    let ghost mid = h.0;
    let mut i: usize = 0;
    while i < n
        invariant
            i <= n,
            n == list.len(),
            list == facts(*reg).commodities,
            reg.wf(),
            forall|rest: Seq<u8>|
                absorbed(h.0, put_from(list, commodities(), i as int, rest)) == absorbed(
                    mid,
                    #[trigger] put_from(list, commodities(), 0, rest),
                ),
        decreases n - i,
    {
        let ghost before = h.0;
        feed_commodity(h, reg.commodity_key(i as u32), reg.commodity(CommodityId(i as u32)));
        proof {
            let after = h.0;
            assert forall|rest: Seq<u8>|
                absorbed(after, put_from(list, commodities(), i + 1, rest)) == absorbed(
                    mid,
                    #[trigger] put_from(list, commodities(), 0, rest),
                ) by {
                let tail = put_from(list, commodities(), i + 1, rest);
                assert(put_from(list, commodities(), i as int, rest) == put_commodity(list[i as int], tail));
                assert(absorbed(after, tail) == absorbed(before, put_commodity(list[i as int], tail)));
            }
        }
        i = i + 1;
    }
    proof {
        let end = h.0;
        assert forall|rest: Seq<u8>| #[trigger]
            absorbed(end, rest) == absorbed(start, put_list(list, commodities(), rest)) by {
            let all = put_from(list, commodities(), 0, rest);
            assert(put_from(list, commodities(), i as int, rest) == rest);
            assert(absorbed(mid, all) == absorbed(start, put_u64(list.len() as u64, all)));
        }
    }
}

/// Absorb the recipes of a registry.
fn feed_recipes(h: &mut Fnv, reg: &Registry)
    requires
        reg.wf(),
    ensures
        forall|rest: Seq<u8>| #[trigger]
            absorbed(final(h).0, rest) == absorbed(
                old(h).0,
                put_list(facts(*reg).recipes, recipes(), rest),
            ),
{
    let ghost start = h.0;
    let ghost list = facts(*reg).recipes;
    let n = reg.recipe_count();
    h.usize(n);
    let ghost mid = h.0;
    let mut i: usize = 0;
    while i < n
        invariant
            i <= n,
            n == list.len(),
            list == facts(*reg).recipes,
            reg.wf(),
            forall|rest: Seq<u8>|
                absorbed(h.0, put_from(list, recipes(), i as int, rest)) == absorbed(
                    mid,
                    #[trigger] put_from(list, recipes(), 0, rest),
                ),
        decreases n - i,
    {
        let ghost before = h.0;
        feed_recipe(h, reg.recipe_key(i as u32), reg.recipe(RecipeId(i as u32)));
        proof {
            let after = h.0;
            assert forall|rest: Seq<u8>|
                absorbed(after, put_from(list, recipes(), i + 1, rest)) == absorbed(
                    mid,
                    #[trigger] put_from(list, recipes(), 0, rest),
                ) by {
                let tail = put_from(list, recipes(), i + 1, rest);
                assert(put_from(list, recipes(), i as int, rest) == put_recipe(list[i as int], tail));
                assert(absorbed(after, tail) == absorbed(before, put_recipe(list[i as int], tail)));
            }
        }
        i = i + 1;
    }
    proof {
        let end = h.0;
        assert forall|rest: Seq<u8>| #[trigger]
            absorbed(end, rest) == absorbed(start, put_list(list, recipes(), rest)) by {
            let all = put_from(list, recipes(), 0, rest);
            assert(put_from(list, recipes(), i as int, rest) == rest);
            assert(absorbed(mid, all) == absorbed(start, put_u64(list.len() as u64, all)));
        }
    }
}

/// Absorb the systems of a registry.
fn feed_systems(h: &mut Fnv, reg: &Registry)
    requires
        reg.wf(),
    ensures
        forall|rest: Seq<u8>| #[trigger]
            absorbed(final(h).0, rest) == absorbed(
                old(h).0,
                put_list(facts(*reg).systems, systems(), rest),
            ),
{
    let ghost start = h.0;
    let ghost list = facts(*reg).systems;
    let n = reg.system_count();
    h.usize(n);
    let ghost mid = h.0;
    let mut i: usize = 0;
    while i < n
        invariant
            i <= n,
            n == list.len(),
            list == facts(*reg).systems,
            reg.wf(),
            forall|rest: Seq<u8>|
                absorbed(h.0, put_from(list, systems(), i as int, rest)) == absorbed(
                    mid,
                    #[trigger] put_from(list, systems(), 0, rest),
                ),
        decreases n - i,
    {
        let ghost before = h.0;
        feed_system(h, reg.system_key(i as u32), reg.system(SystemId(i as u32)));
        proof {
            let after = h.0;
            assert forall|rest: Seq<u8>|
                absorbed(after, put_from(list, systems(), i + 1, rest)) == absorbed(
                    mid,
                    #[trigger] put_from(list, systems(), 0, rest),
                ) by {
                let tail = put_from(list, systems(), i + 1, rest);
                assert(put_from(list, systems(), i as int, rest) == put_system(list[i as int], tail));
                assert(absorbed(after, tail) == absorbed(before, put_system(list[i as int], tail)));
            }
        }
        i = i + 1;
    }
    proof {
        let end = h.0;
        assert forall|rest: Seq<u8>| #[trigger]
            absorbed(end, rest) == absorbed(start, put_list(list, systems(), rest)) by {
            let all = put_from(list, systems(), 0, rest);
            assert(put_from(list, systems(), i as int, rest) == rest);
            assert(absorbed(mid, all) == absorbed(start, put_u64(list.len() as u64, all)));
        }
    }
}

/// Absorb the ships of a registry.
fn feed_ships(h: &mut Fnv, reg: &Registry)
    requires
        reg.wf(),
    ensures
        forall|rest: Seq<u8>| #[trigger]
            absorbed(final(h).0, rest) == absorbed(
                old(h).0,
                put_list(facts(*reg).ships, ships(), rest),
            ),
{
    let ghost start = h.0;
    let ghost list = facts(*reg).ships;
    let n = reg.ship_count();
    h.usize(n);
    let ghost mid = h.0;
    let mut i: usize = 0;
    while i < n
        invariant
            i <= n,
            n == list.len(),
            list == facts(*reg).ships,
            reg.wf(),
            forall|rest: Seq<u8>|
                absorbed(h.0, put_from(list, ships(), i as int, rest)) == absorbed(
                    mid,
                    #[trigger] put_from(list, ships(), 0, rest),
                ),
        decreases n - i,
    {
        let ghost before = h.0;
        feed_ship(h, reg.ship_key(i as u32), reg.ship(ShipId(i as u32)));
        proof {
            let after = h.0;
            assert forall|rest: Seq<u8>|
                absorbed(after, put_from(list, ships(), i + 1, rest)) == absorbed(
                    mid,
                    #[trigger] put_from(list, ships(), 0, rest),
                ) by {
                let tail = put_from(list, ships(), i + 1, rest);
                assert(put_from(list, ships(), i as int, rest) == put_ship(list[i as int], tail));
                assert(absorbed(after, tail) == absorbed(before, put_ship(list[i as int], tail)));
            }
        }
        i = i + 1;
    }
    proof {
        let end = h.0;
        assert forall|rest: Seq<u8>| #[trigger]
            absorbed(end, rest) == absorbed(start, put_list(list, ships(), rest)) by {
            let all = put_from(list, ships(), 0, rest);
            assert(put_from(list, ships(), i as int, rest) == rest);
            assert(absorbed(mid, all) == absorbed(start, put_u64(list.len() as u64, all)));
        }
    }
}

/// Absorb the scripts of a registry.
fn feed_scripts(h: &mut Fnv, reg: &Registry)
    requires
        reg.wf(),
    ensures
        forall|rest: Seq<u8>| #[trigger]
            absorbed(final(h).0, rest) == absorbed(
                old(h).0,
                put_list(facts(*reg).scripts, scripts(), rest),
            ),
{
    let ghost start = h.0;
    let ghost list = facts(*reg).scripts;
    let n = reg.scripts().len();
    h.usize(n);
    let ghost mid = h.0;
    let mut i: usize = 0;
    while i < n
        invariant
            i <= n,
            n == list.len(),
            list == facts(*reg).scripts,
            reg.wf(),
            forall|rest: Seq<u8>|
                absorbed(h.0, put_from(list, scripts(), i as int, rest)) == absorbed(
                    mid,
                    #[trigger] put_from(list, scripts(), 0, rest),
                ),
        decreases n - i,
    {
        let ghost before = h.0;
        feed_script(h, &reg.scripts()[i]);
        proof {
            let after = h.0;
            assert forall|rest: Seq<u8>|
                absorbed(after, put_from(list, scripts(), i + 1, rest)) == absorbed(
                    mid,
                    #[trigger] put_from(list, scripts(), 0, rest),
                ) by {
                let tail = put_from(list, scripts(), i + 1, rest);
                assert(put_from(list, scripts(), i as int, rest) == put_script(list[i as int], tail));
                assert(absorbed(after, tail) == absorbed(before, put_script(list[i as int], tail)));
            }
        }
        i = i + 1;
    }
    proof {
        let end = h.0;
        assert forall|rest: Seq<u8>| #[trigger]
            absorbed(end, rest) == absorbed(start, put_list(list, scripts(), rest)) by {
            let all = put_from(list, scripts(), 0, rest);
            assert(put_from(list, scripts(), i as int, rest) == rest);
            assert(absorbed(mid, all) == absorbed(start, put_u64(list.len() as u64, all)));
        }
    }
}

impl Registry {
    /// The content fingerprint: the FNV-1a hash of the canonical encoding of the linked
    /// content. The encoding covers every field, so two registries have the same one if and
    /// only if they linked to the same content in the same interned order; the fingerprint
    /// then agrees as well, and short of a collision of 64-bit hashes it differs otherwise.
    pub fn content_hash(&self) -> (h: u64)
        requires
            self.wf(),
        ensures
            h == fnv1a(encoding(*self)),
    {
        let mut h = Fnv::new();
        feed_commodities(&mut h, self);
        feed_recipes(&mut h, self);
        feed_systems(&mut h, self);
        feed_ships(&mut h, self);
        feed_scripts(&mut h, self);
        assert(absorbed(h.0, Seq::empty()) == fnv1a(encoding(*self)));
        h.finish()
    }
}

/// A text whose length in bytes is a 64-bit number.
pub open spec fn text_fits(s: Seq<char>) -> bool {
    vstd::utf8::encode_utf8(s).len() <= u64::MAX
}

/// Whether an encoding tells elements apart, and each from what follows it.
pub open spec fn tells_apart<T>(
    put: spec_fn(T, Seq<u8>) -> Seq<u8>,
    ok: spec_fn(T) -> bool,
) -> bool {
    forall|a: T, b: T, x: Seq<u8>, y: Seq<u8>|
        ok(a) && ok(b) && #[trigger] put(a, x) == #[trigger] put(b, y) ==> a == b && x == y
}

proof fn lemma_tail(a: Seq<u8>, b: Seq<u8>, x: Seq<u8>, y: Seq<u8>)
    requires
        a + x == b + y,
        a.len() == b.len(),
    ensures
        a == b,
        x == y,
{
    assert(a =~= (a + x).take(a.len() as int));
    assert(b =~= (b + y).take(b.len() as int));
    assert(x =~= (a + x).skip(a.len() as int));
    assert(y =~= (b + y).skip(b.len() as int));
}

proof fn lemma_put_u32(a: u32, b: u32, x: Seq<u8>, y: Seq<u8>)
    requires
        put_u32(a, x) == put_u32(b, y),
    ensures
        a == b,
        x == y,
{
    lemma_tail(le4(a), le4(b), x, y);
    lemma_le4(a, b);
}

pub(crate) proof fn lemma_le4(a: u32, b: u32)
    requires
        le4(a) == le4(b),
    ensures
        a == b,
{
    assert(le4(a)[0] == le4(b)[0]);
    assert(le4(a)[1] == le4(b)[1]);
    assert(le4(a)[2] == le4(b)[2]);
    assert(le4(a)[3] == le4(b)[3]);
}

proof fn lemma_put_u64(a: u64, b: u64, x: Seq<u8>, y: Seq<u8>)
    requires
        put_u64(a, x) == put_u64(b, y),
    ensures
        a == b,
        x == y,
{
    lemma_tail(le8(a), le8(b), x, y);
    lemma_tail(
        le4((a % 0x1_0000_0000) as u32),
        le4((b % 0x1_0000_0000) as u32),
        le4((a / 0x1_0000_0000) as u32),
        le4((b / 0x1_0000_0000) as u32),
    );
    lemma_le4((a % 0x1_0000_0000) as u32, (b % 0x1_0000_0000) as u32);
    lemma_le4((a / 0x1_0000_0000) as u32, (b / 0x1_0000_0000) as u32);
}

proof fn lemma_put_text(a: Seq<char>, b: Seq<char>, x: Seq<u8>, y: Seq<u8>)
    requires
        put_text(a, x) == put_text(b, y),
        text_fits(a),
        text_fits(b),
    ensures
        a == b,
        x == y,
{
    let p = vstd::utf8::encode_utf8(a);
    let q = vstd::utf8::encode_utf8(b);
    lemma_put_u64(p.len() as u64, q.len() as u64, put_bytes(p, x), put_bytes(q, y));
    lemma_tail(p, q, x, y);
    vstd::utf8::encode_utf8_decode_utf8(a);
    vstd::utf8::encode_utf8_decode_utf8(b);
}

/// Every element of a list is fine, and so is its length.
pub open spec fn all_fit<T>(list: Seq<T>, ok: spec_fn(T) -> bool) -> bool {
    &&& list.len() <= u64::MAX
    &&& forall|i: int| 0 <= i < list.len() ==> ok(#[trigger] list[i])
}

proof fn lemma_put_from<T>(
    l: Seq<T>,
    m: Seq<T>,
    put: spec_fn(T, Seq<u8>) -> Seq<u8>,
    ok: spec_fn(T) -> bool,
    i: int,
    x: Seq<u8>,
    y: Seq<u8>,
)
    requires
        l.len() == m.len(),
        0 <= i <= l.len(),
        tells_apart(put, ok),
        all_fit(l, ok),
        all_fit(m, ok),
        put_from(l, put, i, x) == put_from(m, put, i, y),
    ensures
        forall|k: int| i <= k < l.len() ==> #[trigger] l[k] == m[k],
        x == y,
    decreases l.len() - i,
{
    if i < l.len() {
        let p = put_from(l, put, i + 1, x);
        let q = put_from(m, put, i + 1, y);
        assert(put(l[i], p) == put(m[i], q));
        assert(ok(l[i]) && ok(m[i]));
        assert(l[i] == m[i] && p == q);
        lemma_put_from(l, m, put, ok, i + 1, x, y);
    }
}

proof fn lemma_put_list<T>(
    l: Seq<T>,
    m: Seq<T>,
    put: spec_fn(T, Seq<u8>) -> Seq<u8>,
    ok: spec_fn(T) -> bool,
    x: Seq<u8>,
    y: Seq<u8>,
)
    requires
        tells_apart(put, ok),
        all_fit(l, ok),
        all_fit(m, ok),
        put_list(l, put, x) == put_list(m, put, y),
    ensures
        l == m,
        x == y,
{
    lemma_put_u64(
        l.len() as u64,
        m.len() as u64,
        put_from(l, put, 0, x),
        put_from(m, put, 0, y),
    );
    lemma_put_from(l, m, put, ok, 0, x, y);
    assert(l =~= m);
}

/// Nothing is asked of an element of fixed size.
pub open spec fn any<T>() -> spec_fn(T) -> bool {
    |t: T| true
}

proof fn lemma_amounts()
    ensures
        tells_apart(amounts(), any::<(CommodityId, Quantity)>()),
{
    assert forall|
        a: (CommodityId, Quantity),
        b: (CommodityId, Quantity),
        x: Seq<u8>,
        y: Seq<u8>,
    | #[trigger] amounts()(a, x) == #[trigger] amounts()(b, y) implies a == b && x == y by {
        lemma_put_u32(a.0.0, b.0.0, put_u32(a.1, x), put_u32(b.1, y));
        lemma_put_u32(a.1, b.1, x, y);
    }
}

proof fn lemma_recipe_ids()
    ensures
        tells_apart(recipe_ids(), any::<RecipeId>()),
{
    assert forall|a: RecipeId, b: RecipeId, x: Seq<u8>, y: Seq<u8>| #[trigger]
        recipe_ids()(a, x) == #[trigger] recipe_ids()(b, y) implies a == b && x == y by {
        lemma_put_u32(a.0, b.0, x, y);
    }
}

proof fn lemma_system_ids()
    ensures
        tells_apart(system_ids(), any::<SystemId>()),
{
    assert forall|a: SystemId, b: SystemId, x: Seq<u8>, y: Seq<u8>| #[trigger]
        system_ids()(a, x) == #[trigger] system_ids()(b, y) implies a == b && x == y by {
        lemma_put_u32(a.0, b.0, x, y);
    }
}

pub open spec fn commodity_fits() -> spec_fn(CommodityFacts) -> bool {
    |c: CommodityFacts|
        text_fits(c.key) && text_fits(c.id) && text_fits(c.name) && text_fits(c.category)
}

proof fn lemma_commodities()
    ensures
        tells_apart(commodities(), commodity_fits()),
{
    assert forall|a: CommodityFacts, b: CommodityFacts, x: Seq<u8>, y: Seq<u8>|
        commodity_fits()(a) && commodity_fits()(b) && #[trigger] commodities()(a, x)
            == #[trigger] commodities()(b, y) implies a == b && x == y by {
        let a6 = put_text(a.category, x);
        let b6 = put_text(b.category, y);
        let a5 = put_u64(a.elasticity, a6);
        let b5 = put_u64(b.elasticity, b6);
        let a4 = put_u32(a.unit_mass, a5);
        let b4 = put_u32(b.unit_mass, b5);
        let a3 = put_u64(unsigned(a.base_price), a4);
        let b3 = put_u64(unsigned(b.base_price), b4);
        let a2 = put_text(a.name, a3);
        let b2 = put_text(b.name, b3);
        let a1 = put_text(a.id, a2);
        let b1 = put_text(b.id, b2);
        lemma_put_text(a.key, b.key, a1, b1);
        lemma_put_text(a.id, b.id, a2, b2);
        lemma_put_text(a.name, b.name, a3, b3);
        lemma_put_u64(unsigned(a.base_price), unsigned(b.base_price), a4, b4);
        lemma_put_u32(a.unit_mass, b.unit_mass, a5, b5);
        lemma_put_u64(a.elasticity, b.elasticity, a6, b6);
        lemma_put_text(a.category, b.category, x, y);
    }
}

pub open spec fn recipe_fits() -> spec_fn(RecipeFacts) -> bool {
    |r: RecipeFacts|
        text_fits(r.key) && r.inputs.len() <= u64::MAX && r.outputs.len() <= u64::MAX
}

proof fn lemma_recipes()
    ensures
        tells_apart(recipes(), recipe_fits()),
{
    lemma_amounts();
    assert forall|a: RecipeFacts, b: RecipeFacts, x: Seq<u8>, y: Seq<u8>|
        recipe_fits()(a) && recipe_fits()(b) && #[trigger] recipes()(a, x)
            == #[trigger] recipes()(b, y) implies a == b && x == y by {
        let any = any::<(CommodityId, Quantity)>();
        let a4 = put_u64(a.elasticity, x);
        let b4 = put_u64(b.elasticity, y);
        let a3 = put_u32(a.rate, a4);
        let b3 = put_u32(b.rate, b4);
        let a2 = put_list(a.outputs, amounts(), a3);
        let b2 = put_list(b.outputs, amounts(), b3);
        let a1 = put_list(a.inputs, amounts(), a2);
        let b1 = put_list(b.inputs, amounts(), b2);
        lemma_put_text(a.key, b.key, a1, b1);
        lemma_put_list(a.inputs, b.inputs, amounts(), any, a2, b2);
        lemma_put_list(a.outputs, b.outputs, amounts(), any, a3, b3);
        lemma_put_u32(a.rate, b.rate, a4, b4);
        lemma_put_u64(a.elasticity, b.elasticity, x, y);
    }
}

pub open spec fn system_fits() -> spec_fn(SystemFacts) -> bool {
    |s: SystemFacts|
        text_fits(s.key) && text_fits(s.name) && text_fits(s.pricing) && s.industries.len()
            <= u64::MAX && s.connections.len() <= u64::MAX && s.initial_stock.len() <= u64::MAX
}

proof fn lemma_systems()
    ensures
        tells_apart(systems(), system_fits()),
{
    lemma_amounts();
    lemma_recipe_ids();
    lemma_system_ids();
    assert forall|a: SystemFacts, b: SystemFacts, x: Seq<u8>, y: Seq<u8>|
        system_fits()(a) && system_fits()(b) && #[trigger] systems()(a, x)
            == #[trigger] systems()(b, y) implies a == b && x == y by {
        let a8 = put_u64(a.danger, x);
        let b8 = put_u64(b.danger, y);
        let a7 = put_text(a.pricing, a8);
        let b7 = put_text(b.pricing, b8);
        let a6 = put_list(a.initial_stock, amounts(), a7);
        let b6 = put_list(b.initial_stock, amounts(), b7);
        let a5 = put_list(a.connections, system_ids(), a6);
        let b5 = put_list(b.connections, system_ids(), b6);
        let a4 = put_list(a.industries, recipe_ids(), a5);
        let b4 = put_list(b.industries, recipe_ids(), b5);
        let a3 = put_u64(a.y, a4);
        let b3 = put_u64(b.y, b4);
        let a2 = put_u64(a.x, a3);
        let b2 = put_u64(b.x, b3);
        let a1 = put_text(a.name, a2);
        let b1 = put_text(b.name, b2);
        lemma_put_text(a.key, b.key, a1, b1);
        lemma_put_text(a.name, b.name, a2, b2);
        lemma_put_u64(a.x, b.x, a3, b3);
        lemma_put_u64(a.y, b.y, a4, b4);
        lemma_put_list(a.industries, b.industries, recipe_ids(), any::<RecipeId>(), a5, b5);
        lemma_put_list(a.connections, b.connections, system_ids(), any::<SystemId>(), a6, b6);
        lemma_put_list(
            a.initial_stock,
            b.initial_stock,
            amounts(),
            any::<(CommodityId, Quantity)>(),
            a7,
            b7,
        );
        lemma_put_text(a.pricing, b.pricing, a8, b8);
        lemma_put_u64(a.danger, b.danger, x, y);
    }
}

proof fn lemma_put_combat(
    a: Option<CombatStats>,
    b: Option<CombatStats>,
    x: Seq<u8>,
    y: Seq<u8>,
)
    requires
        put_combat(a, x) == put_combat(b, y),
    ensures
        a == b,
        x == y,
{
    match (a, b) {
        (Some(s), Some(t)) => {
            let a7 = put_u64(s.acceleration, x);
            let b7 = put_u64(t.acceleration, y);
            let a6 = put_u64(s.accuracy, a7);
            let b6 = put_u64(t.accuracy, b7);
            let a5 = put_u32(s.weapon_cooldown, a6);
            let b5 = put_u32(t.weapon_cooldown, b6);
            let a4 = put_u64(s.weapon_range, a5);
            let b4 = put_u64(t.weapon_range, b5);
            let a3 = put_u32(s.weapon_damage, a4);
            let b3 = put_u32(t.weapon_damage, b4);
            let a2 = put_u64(s.shield_regen, a3);
            let b2 = put_u64(t.shield_regen, b3);
            let a1 = put_u32(s.shield, a2);
            let b1 = put_u32(t.shield, b2);
            lemma_put_u32(1, 1, a1, b1);
            lemma_put_u32(s.shield, t.shield, a2, b2);
            lemma_put_u64(s.shield_regen, t.shield_regen, a3, b3);
            lemma_put_u32(s.weapon_damage, t.weapon_damage, a4, b4);
            lemma_put_u64(s.weapon_range, t.weapon_range, a5, b5);
            lemma_put_u32(s.weapon_cooldown, t.weapon_cooldown, a6, b6);
            lemma_put_u64(s.accuracy, t.accuracy, a7, b7);
            lemma_put_u64(s.acceleration, t.acceleration, x, y);
        },
        (None, None) => {
            lemma_put_u32(0, 0, x, y);
        },
        (Some(s), None) => {
            let rest = put_combat(a, x).skip(4);
            assert(put_u32(1, rest) =~= put_combat(a, x));
            lemma_put_u32(1, 0, rest, y);
        },
        (None, Some(t)) => {
            let rest = put_combat(b, y).skip(4);
            assert(put_u32(1, rest) =~= put_combat(b, y));
            lemma_put_u32(0, 1, x, rest);
        },
    }
}

proof fn lemma_put_visual(
    a: Option<ShipVisual>,
    b: Option<ShipVisual>,
    x: Seq<u8>,
    y: Seq<u8>,
)
    requires
        put_visual(a, x) == put_visual(b, y),
    ensures
        a == b,
        x == y,
{
    match (a, b) {
        (Some(s), Some(t)) => {
            let a6 = put_u32(s.blue, x);
            let b6 = put_u32(t.blue, y);
            let a5 = put_u32(s.green, a6);
            let b5 = put_u32(t.green, b6);
            let a4 = put_u32(s.red, a5);
            let b4 = put_u32(t.red, b5);
            let a3 = put_u32(s.height, a4);
            let b3 = put_u32(t.height, b4);
            let a2 = put_u32(s.width, a3);
            let b2 = put_u32(t.width, b3);
            let a1 = put_u32(s.length, a2);
            let b1 = put_u32(t.length, b2);
            let a0 = put_u32(shape_number(s.hull), a1);
            let b0 = put_u32(shape_number(t.hull), b1);
            lemma_put_u32(1, 1, a0, b0);
            lemma_put_u32(shape_number(s.hull), shape_number(t.hull), a1, b1);
            lemma_put_u32(s.length, t.length, a2, b2);
            lemma_put_u32(s.width, t.width, a3, b3);
            lemma_put_u32(s.height, t.height, a4, b4);
            lemma_put_u32(s.red, t.red, a5, b5);
            lemma_put_u32(s.green, t.green, a6, b6);
            lemma_put_u32(s.blue, t.blue, x, y);
        },
        (None, None) => {
            lemma_put_u32(0, 0, x, y);
        },
        (Some(s), None) => {
            let rest = put_visual(a, x).skip(4);
            assert(put_u32(1, rest) =~= put_visual(a, x));
            lemma_put_u32(1, 0, rest, y);
        },
        (None, Some(t)) => {
            let rest = put_visual(b, y).skip(4);
            assert(put_u32(1, rest) =~= put_visual(b, y));
            lemma_put_u32(0, 1, x, rest);
        },
    }
}

pub open spec fn ship_fits() -> spec_fn(ShipFacts) -> bool {
    |s: ShipFacts| text_fits(s.key) && text_fits(s.id) && text_fits(s.name)
}

proof fn lemma_ships()
    ensures
        tells_apart(ships(), ship_fits()),
{
    assert forall|a: ShipFacts, b: ShipFacts, x: Seq<u8>, y: Seq<u8>|
        ship_fits()(a) && ship_fits()(b) && #[trigger] ships()(a, x) == #[trigger] ships()(
            b,
            y,
        ) implies a == b && x == y by {
        let a8 = put_visual(a.visual, x);
        let b8 = put_visual(b.visual, y);
        let a7 = put_combat(a.combat, a8);
        let b7 = put_combat(b.combat, b8);
        let a6 = put_u64(a.max_speed, a7);
        let b6 = put_u64(b.max_speed, b7);
        let a5 = put_u32(a.hull, a6);
        let b5 = put_u32(b.hull, b6);
        let a4 = put_u64(a.jump_speed, a5);
        let b4 = put_u64(b.jump_speed, b5);
        let a3 = put_u32(a.cargo_capacity, a4);
        let b3 = put_u32(b.cargo_capacity, b4);
        let a2 = put_text(a.name, a3);
        let b2 = put_text(b.name, b3);
        let a1 = put_text(a.id, a2);
        let b1 = put_text(b.id, b2);
        lemma_put_text(a.key, b.key, a1, b1);
        lemma_put_text(a.id, b.id, a2, b2);
        lemma_put_text(a.name, b.name, a3, b3);
        lemma_put_u32(a.cargo_capacity, b.cargo_capacity, a4, b4);
        lemma_put_u64(a.jump_speed, b.jump_speed, a5, b5);
        lemma_put_u32(a.hull, b.hull, a6, b6);
        lemma_put_u64(a.max_speed, b.max_speed, a7, b7);
        lemma_put_combat(a.combat, b.combat, a8, b8);
        lemma_put_visual(a.visual, b.visual, x, y);
    }
}

pub open spec fn script_fits() -> spec_fn(ScriptFacts) -> bool {
    |s: ScriptFacts| text_fits(s.name) && text_fits(s.source) && text_fits(s.mod_id)
}

proof fn lemma_scripts()
    ensures
        tells_apart(scripts(), script_fits()),
{
    assert forall|a: ScriptFacts, b: ScriptFacts, x: Seq<u8>, y: Seq<u8>|
        script_fits()(a) && script_fits()(b) && #[trigger] scripts()(a, x)
            == #[trigger] scripts()(b, y) implies a == b && x == y by {
        let a3 = put_text(a.mod_id, x);
        let b3 = put_text(b.mod_id, y);
        let a2 = put_text(a.source, a3);
        let b2 = put_text(b.source, b3);
        let a1 = put_u32(kind_number(a.kind), a2);
        let b1 = put_u32(kind_number(b.kind), b2);
        lemma_put_text(a.name, b.name, a1, b1);
        lemma_put_u32(kind_number(a.kind), kind_number(b.kind), a2, b2);
        lemma_put_text(a.source, b.source, a3, b3);
        lemma_put_text(a.mod_id, b.mod_id, x, y);
    }
}

/// Every length is a 64-bit number.
pub open spec fn facts_fit(f: Facts) -> bool {
    &&& all_fit(f.commodities, commodity_fits())
    &&& all_fit(f.recipes, recipe_fits())
    &&& all_fit(f.systems, system_fits())
    &&& all_fit(f.ships, ship_fits())
    &&& all_fit(f.scripts, script_fits())
}

/// Two registries have the same canonical encoding exactly where they hold the same
/// content in the same interned order.
pub proof fn lemma_encoding_tells_content_apart(a: Registry, b: Registry)
    requires
        facts_fit(facts(a)),
        facts_fit(facts(b)),
    ensures
        encoding(a) == encoding(b) <==> facts(a) == facts(b),
{
    if encoding(a) == encoding(b) {
        let f = facts(a);
        let g = facts(b);
        let none = Seq::<u8>::empty();
        lemma_commodities();
        lemma_recipes();
        lemma_systems();
        lemma_ships();
        lemma_scripts();
        let a4 = put_list(f.scripts, scripts(), none);
        let b4 = put_list(g.scripts, scripts(), none);
        let a3 = put_list(f.ships, ships(), a4);
        let b3 = put_list(g.ships, ships(), b4);
        let a2 = put_list(f.systems, systems(), a3);
        let b2 = put_list(g.systems, systems(), b3);
        let a1 = put_list(f.recipes, recipes(), a2);
        let b1 = put_list(g.recipes, recipes(), b2);
        lemma_put_list(f.commodities, g.commodities, commodities(), commodity_fits(), a1, b1);
        lemma_put_list(f.recipes, g.recipes, recipes(), recipe_fits(), a2, b2);
        lemma_put_list(f.systems, g.systems, systems(), system_fits(), a3, b3);
        lemma_put_list(f.ships, g.ships, ships(), ship_fits(), a4, b4);
        lemma_put_list(f.scripts, g.scripts, scripts(), script_fits(), none, none);
    }
}

/// Registries with the same content in the same interned order have the same
/// fingerprint.
pub proof fn lemma_same_content_same_hash(a: Registry, b: Registry)
    requires
        facts(a) == facts(b),
    ensures
        fnv1a(encoding(a)) == fnv1a(encoding(b)),
{
}

/// Whether two patterns stand for the same number: they are the same, or both a zero.
pub open spec fn alike(a: Bits, b: Bits) -> bool {
    a == b || ((a == 0 || a == 0x8000_0000_0000_0000) && (b == 0 || b == 0x8000_0000_0000_0000))
}

/// The same of 32-bit patterns.
pub open spec fn alike_32(a: u32, b: u32) -> bool {
    a == b || ((a == 0 || a == 0x8000_0000) && (b == 0 || b == 0x8000_0000))
}

/// Content with the same facts is the same content: as many commodities, recipes, systems,
/// ships and scripts, each as it is, but for the sign of a zero.
pub proof fn lemma_facts_tell_everything(a: Registry, b: Registry)
    requires
        facts(a) == facts(b),
    ensures
        a.spec_commodities().len() == b.spec_commodities().len(),
        forall|i: int|
            0 <= i < a.spec_commodities().len() ==> same_commodity(
                #[trigger] a.spec_commodities()[i],
                b.spec_commodities()[i],
            ),
        a.spec_recipes().len() == b.spec_recipes().len(),
        forall|i: int|
            0 <= i < a.spec_recipes().len() ==> same_recipe(
                #[trigger] a.spec_recipes()[i],
                b.spec_recipes()[i],
            ),
        a.spec_systems().len() == b.spec_systems().len(),
        forall|i: int|
            0 <= i < a.spec_systems().len() ==> same_system(
                #[trigger] a.spec_systems()[i],
                b.spec_systems()[i],
            ),
        a.spec_ships().len() == b.spec_ships().len(),
        forall|i: int|
            0 <= i < a.spec_ships().len() ==> same_ship(
                #[trigger] a.spec_ships()[i],
                b.spec_ships()[i],
            ),
        a.spec_scripts().len() == b.spec_scripts().len(),
        forall|i: int|
            0 <= i < a.spec_scripts().len() ==> same_script(
                #[trigger] a.spec_scripts()[i],
                b.spec_scripts()[i],
            ),
{
    lemma_same_commodities(a, b);
    lemma_same_recipes(a, b);
    lemma_same_systems(a, b);
    lemma_same_ships(a, b);
    lemma_same_scripts(a, b);
}

#[verifier::spinoff_prover]
proof fn lemma_same_commodities(a: Registry, b: Registry)
    requires
        facts(a).commodities == facts(b).commodities,
    ensures
        a.spec_commodities().len() == b.spec_commodities().len(),
        forall|i: int|
            0 <= i < a.spec_commodities().len() ==> same_commodity(
                #[trigger] a.spec_commodities()[i],
                b.spec_commodities()[i],
            ),
{
    let f = facts(a).commodities;
    let g = facts(b).commodities;
    assert(f.len() == g.len());
    assert forall|i: int| 0 <= i < a.spec_commodities().len() implies same_commodity(
        #[trigger] a.spec_commodities()[i],
        b.spec_commodities()[i],
    ) by {
        let x = commodity_facts(key_at(a.spec_commodity_ids(), i), a.spec_commodities()[i]);
        let y = commodity_facts(key_at(b.spec_commodity_ids(), i), b.spec_commodities()[i]);
        assert(f[i] === x);
        assert(g[i] === y);
    }
}

#[verifier::spinoff_prover]
proof fn lemma_same_recipes(a: Registry, b: Registry)
    requires
        facts(a).recipes == facts(b).recipes,
    ensures
        a.spec_recipes().len() == b.spec_recipes().len(),
        forall|i: int|
            0 <= i < a.spec_recipes().len() ==> same_recipe(
                #[trigger] a.spec_recipes()[i],
                b.spec_recipes()[i],
            ),
{
    let f = facts(a).recipes;
    let g = facts(b).recipes;
    assert(f.len() == g.len());
    assert forall|i: int| 0 <= i < a.spec_recipes().len() implies same_recipe(
        #[trigger] a.spec_recipes()[i],
        b.spec_recipes()[i],
    ) by {
        let x = recipe_facts(key_at(a.spec_recipe_ids(), i), a.spec_recipes()[i]);
        let y = recipe_facts(key_at(b.spec_recipe_ids(), i), b.spec_recipes()[i]);
        assert(f[i] === x);
        assert(g[i] === y);
    }
}

#[verifier::spinoff_prover]
proof fn lemma_same_systems(a: Registry, b: Registry)
    requires
        facts(a).systems == facts(b).systems,
    ensures
        a.spec_systems().len() == b.spec_systems().len(),
        forall|i: int|
            0 <= i < a.spec_systems().len() ==> same_system(
                #[trigger] a.spec_systems()[i],
                b.spec_systems()[i],
            ),
{
    let f = facts(a).systems;
    let g = facts(b).systems;
    assert(f.len() == g.len());
    assert forall|i: int| 0 <= i < a.spec_systems().len() implies same_system(
        #[trigger] a.spec_systems()[i],
        b.spec_systems()[i],
    ) by {
        let x = system_facts(key_at(a.spec_system_ids(), i), a.spec_systems()[i]);
        let y = system_facts(key_at(b.spec_system_ids(), i), b.spec_systems()[i]);
        assert(f[i] === x);
        assert(g[i] === y);
    }
}

#[verifier::spinoff_prover]
proof fn lemma_same_ships(a: Registry, b: Registry)
    requires
        facts(a).ships == facts(b).ships,
    ensures
        a.spec_ships().len() == b.spec_ships().len(),
        forall|i: int|
            0 <= i < a.spec_ships().len() ==> same_ship(
                #[trigger] a.spec_ships()[i],
                b.spec_ships()[i],
            ),
{
    let f = facts(a).ships;
    let g = facts(b).ships;
    assert(f.len() == g.len());
    assert forall|i: int| 0 <= i < a.spec_ships().len() implies same_ship(
        #[trigger] a.spec_ships()[i],
        b.spec_ships()[i],
    ) by {
        let x = ship_facts(key_at(a.spec_ship_ids(), i), a.spec_ships()[i]);
        let y = ship_facts(key_at(b.spec_ship_ids(), i), b.spec_ships()[i]);
        assert(f[i] === x);
        assert(g[i] === y);
    }
}

#[verifier::spinoff_prover]
proof fn lemma_same_scripts(a: Registry, b: Registry)
    requires
        facts(a).scripts == facts(b).scripts,
    ensures
        a.spec_scripts().len() == b.spec_scripts().len(),
        forall|i: int|
            0 <= i < a.spec_scripts().len() ==> same_script(
                #[trigger] a.spec_scripts()[i],
                b.spec_scripts()[i],
            ),
{
    let f = facts(a).scripts;
    let g = facts(b).scripts;
    assert(f.len() == g.len());
    assert forall|i: int| 0 <= i < a.spec_scripts().len() implies same_script(
        #[trigger] a.spec_scripts()[i],
        b.spec_scripts()[i],
    ) by {
        assert(f[i] === script_facts(a.spec_scripts()[i]));
        assert(g[i] === script_facts(b.spec_scripts()[i]));
    }
}

pub open spec fn same_commodity(a: CommodityDef, b: CommodityDef) -> bool {
    &&& a.id@ == b.id@ && a.name@ == b.name@ && a.category@ == b.category@
    &&& a.base_price == b.base_price && a.unit_mass == b.unit_mass
    &&& alike(a.elasticity, b.elasticity)
}

pub open spec fn same_recipe(a: ResolvedRecipe, b: ResolvedRecipe) -> bool {
    &&& a.inputs@ == b.inputs@ && a.outputs@ == b.outputs@
    &&& a.rate == b.rate
    &&& alike(a.elasticity, b.elasticity)
}

pub open spec fn same_system(a: ResolvedSystem, b: ResolvedSystem) -> bool {
    &&& a.name@ == b.name@ && a.pricing@ == b.pricing@
    &&& alike(a.position.x, b.position.x) && alike(a.position.y, b.position.y)
    &&& a.industries@ == b.industries@ && a.connections@ == b.connections@
    &&& a.initial_stock@ == b.initial_stock@
    &&& alike(a.danger, b.danger)
}

pub open spec fn same_ship(a: ShipDef, b: ShipDef) -> bool {
    &&& a.id@ == b.id@ && a.name@ == b.name@
    &&& a.cargo_capacity == b.cargo_capacity && a.hull == b.hull
    &&& alike(a.jump_speed, b.jump_speed) && alike(a.max_speed, b.max_speed)
    &&& match (a.combat, b.combat) {
        (Some(c), Some(d)) => {
            &&& c.shield == d.shield && alike(c.shield_regen, d.shield_regen)
            &&& c.weapon_damage == d.weapon_damage && alike(c.weapon_range, d.weapon_range)
            &&& c.weapon_cooldown == d.weapon_cooldown && alike(c.accuracy, d.accuracy)
            &&& alike(c.acceleration, d.acceleration)
        },
        (None, None) => true,
        _ => false,
    }
    &&& match (a.visual, b.visual) {
        (Some(c), Some(d)) => {
            &&& c.hull == d.hull
            &&& alike_32(c.length, d.length) && alike_32(c.width, d.width)
            &&& alike_32(c.height, d.height) && alike_32(c.red, d.red)
            &&& alike_32(c.green, d.green) && alike_32(c.blue, d.blue)
        },
        (None, None) => true,
        _ => false,
    }
}

pub open spec fn same_script(a: LoadedScript, b: LoadedScript) -> bool {
    a.name@ == b.name@ && a.kind == b.kind && a.source@ == b.source@ && a.mod_id@ == b.mod_id@
}

/// The hash starts from the basis of 64-bit FNV, and each byte is put in before the state is
/// multiplied by its prime.
pub proof fn lemma_hash_is_fnv(bytes: Seq<u8>, b: u8)
    ensures
        fnv1a(Seq::empty()) == 0xcbf2_9ce4_8422_2325,
        fnv1a(bytes.push(b)) == (fnv1a(bytes) ^ (b as u64)).wrapping_mul(0x100_0000_01b3),
{
    assert(bytes.push(b).drop_last() =~= bytes);
}

} // verus!
