//! What a changed field does to the content fingerprint.
//!
//! Each step of FNV-1a is a bijection of the state, so once two states differ, absorbing the
//! same bytes keeps them different. And up to four changed bytes in a row cannot cancel each
//! other out, so a change within one such field always shows.

use vstd::prelude::*;

use crate::hash;
use crate::hash::{CommodityFacts, Facts, PRIME};
use crate::ids::Money;
use crate::registry::Registry;

verus! {

/// A product, kept to 64 bits, is off the exact one by a whole number of turns.
proof fn lemma_turns(x: u64) -> (k: int)
    ensures
        x.wrapping_mul(PRIME) == x * 0x100_0000_01b3 - k * 0x1_0000_0000_0000_0000,
{
    let full = x * 0x100_0000_01b3;
    full / 0x1_0000_0000_0000_0000
}

/// Multiplying tells states apart.
proof fn lemma_product_tells(x: u64, y: u64)
    requires
        x.wrapping_mul(PRIME) == y.wrapping_mul(PRIME),
    ensures
        x == y,
{
    let j = lemma_turns(x);
    let k = lemma_turns(y);
    let w = x - y;
    let turns = j - k;
    assert(w * 0x100_0000_01b3 == turns * 0x1_0000_0000_0000_0000);
    assert(w * 0x100_0000_01b3 * 0xce96_5057_aff6_957b == turns * 0x1_0000_0000_0000_0000
        * 0xce96_5057_aff6_957b);
    assert(0x100_0000_01b3 * 0xce96_5057_aff6_957b == 1 + 887285111055
        * 0x1_0000_0000_0000_0000);
    assert(w == 0x1_0000_0000_0000_0000 * (turns * 0xce96_5057_aff6_957b - 887285111055 * w));
}

/// Absorbing one byte tells states apart.
proof fn lemma_step_tells(s: u64, t: u64, b: u8)
    requires
        hash::mixed(s, b) == hash::mixed(t, b),
    ensures
        s == t,
{
    let c = b as u64;
    lemma_product_tells(s ^ c, t ^ c);
    assert(s ^ c == t ^ c ==> s == t) by (bit_vector);
}

/// Absorbing the same bytes tells states apart.
pub proof fn lemma_absorbing_tells(s: u64, t: u64, bytes: Seq<u8>)
    requires
        s != t,
    ensures
        hash::absorbed(s, bytes) != hash::absorbed(t, bytes),
    decreases bytes.len(),
{
    if bytes.len() > 0 {
        lemma_absorbing_tells(s, t, bytes.drop_last());
        let a = hash::absorbed(s, bytes.drop_last());
        let b = hash::absorbed(t, bytes.drop_last());
        if hash::mixed(a, bytes.last()) == hash::mixed(b, bytes.last()) {
            lemma_step_tells(a, b, bytes.last());
        }
    }
}

/// A byte changes no more of a state than its lowest byte.
proof fn lemma_near(s: u64, b: u8)
    ensures
        -255 <= (s ^ (b as u64)) - s <= 255,
        (s ^ (b as u64)) / 256 == s / 256,
{
    let c = b as u64;
    assert((s ^ c) / 256 == s / 256) by (bit_vector)
        requires
            c < 256,
    ;
}

/// Differences this small, carried through up to three products, do not cancel out to
/// anything near zero but zero.
proof fn lemma_no_cancelling(d: int, e: int, f: int, left: int, turns: int)
    requires
        -255 <= d <= 255,
        -510 <= e <= 510,
        -510 <= f <= 510,
        -255 <= left <= 255,
        left == d * 1329227997362564068125063396651957931 + e * 1208925820571204291060521 + f * 1099511628211 - turns
            * 0x1_0000_0000_0000_0000,
    ensures
        left == 0,
{
    let high = d * 567675 + e * 870 + f;
    let low = 435 * (d * 189225 + e * 435 + f);
    let more = turns - d * 72057594123452416 - e * 65536;
    assert(left == high * 0x100_0000_0000 + low - more * 0x1_0000_0000_0000_0000);
    let whole = high - more * 0x100_0000;
    assert(left - low == 0x100_0000_0000 * whole);
    assert(whole == 0);
}

/// How far apart two states are after a byte each, given how far apart they were with the
/// bytes put in.
proof fn lemma_apart(x: u64, y: u64) -> (turns: int)
    ensures
        x.wrapping_mul(PRIME) - y.wrapping_mul(PRIME) == (x - y) * 1099511628211 - turns
            * 0x1_0000_0000_0000_0000,
{
    let j = lemma_turns(x);
    let k = lemma_turns(y);
    j - k
}

proof fn lemma_same_byte(s: u64, a: u8, b: u8)
    requires
        s ^ (a as u64) == s ^ (b as u64),
    ensures
        a == b,
{
    let c = a as u64;
    let d = b as u64;
    assert(s ^ c == s ^ d ==> c == d) by (bit_vector);
}

/// Two bytes put into states that were `near` zero apart, or were carried there by three
/// products, come to the same state only from the same state, and are then the same.
proof fn lemma_last_byte(
    s: u64,
    t: u64,
    a: u8,
    b: u8,
    d: int,
    e: int,
    f: int,
    turns: int,
)
    requires
        hash::mixed(s, a) == hash::mixed(t, b),
        -255 <= d <= 255,
        -510 <= e <= 510,
        -510 <= f <= 510,
        s - t == d * 1329227997362564068125063396651957931 + e * 1208925820571204291060521 + f * 1099511628211 - turns
            * 0x1_0000_0000_0000_0000,
    ensures
        s == t,
        a == b,
{
    lemma_product_tells(s ^ (a as u64), t ^ (b as u64));
    lemma_near(s, a);
    lemma_near(t, b);
    assert(s / 256 == t / 256);
    lemma_no_cancelling(d, e, f, s - t, turns);
    lemma_same_byte(s, a, b);
}

/// Four bytes that are not the same lead from one state to two.
proof fn lemma_four_bytes_tell(
    h: u64,
    a0: u8,
    a1: u8,
    a2: u8,
    a3: u8,
    b0: u8,
    b1: u8,
    b2: u8,
    b3: u8,
)
    requires
        hash::mixed(hash::mixed(hash::mixed(hash::mixed(h, a0), a1), a2), a3) == hash::mixed(
            hash::mixed(hash::mixed(hash::mixed(h, b0), b1), b2),
            b3,
        ),
    ensures
        a0 == b0 && a1 == b1 && a2 == b2 && a3 == b3,
{
    let s1 = hash::mixed(h, a0);
    let s2 = hash::mixed(s1, a1);
    let s3 = hash::mixed(s2, a2);
    let t1 = hash::mixed(h, b0);
    let t2 = hash::mixed(t1, b1);
    let t3 = hash::mixed(t2, b2);
    let x1 = h ^ (a0 as u64);
    let y1 = h ^ (b0 as u64);
    let x2 = s1 ^ (a1 as u64);
    let y2 = t1 ^ (b1 as u64);
    let x3 = s2 ^ (a2 as u64);
    let y3 = t2 ^ (b2 as u64);
    lemma_near(h, a0);
    lemma_near(h, b0);
    lemma_near(s1, a1);
    lemma_near(t1, b1);
    lemma_near(s2, a2);
    lemma_near(t2, b2);
    let d = x1 - y1;
    assert(-255 <= d <= 255);
    let e = (x2 - y2) - (s1 - t1);
    let f = (x3 - y3) - (s2 - t2);
    let k1 = lemma_apart(x1, y1);
    let k2 = lemma_apart(x2, y2);
    let k3 = lemma_apart(x3, y3);
    lemma_last_byte(s3, t3, a3, b3, d, e, f, k3 + k2 * 1099511628211 + k1 * 1208925820571204291060521);
    lemma_last_byte(s2, t2, a2, b2, 0, d, e, k2 + k1 * 1099511628211);
    lemma_last_byte(s1, t1, a1, b1, 0, 0, d, k1);
    lemma_product_tells(x1, y1);
    lemma_same_byte(h, a0, b0);
}

/// Contents whose encodings differ in one 32-bit number have different hashes.
pub proof fn lemma_changed_number_changes_hash(
    before: Seq<u8>,
    a: u32,
    b: u32,
    after: Seq<u8>,
)
    requires
        a != b,
    ensures
        hash::fnv1a(before + hash::put_u32(a, after)) != hash::fnv1a(
            before + hash::put_u32(b, after),
        ),
{
    let h = hash::absorbed(hash::OFFSET, before);
    lemma_split(before, hash::le4(a), after);
    lemma_split(before, hash::le4(b), after);
    lemma_numbers_tell(h, a, b);
    lemma_absorbing_tells(
        hash::absorbed(h, hash::le4(a)),
        hash::absorbed(h, hash::le4(b)),
        after,
    );
}

/// The hash of three stretches of bytes, one after the other.
proof fn lemma_split(before: Seq<u8>, mid: Seq<u8>, after: Seq<u8>)
    ensures
        hash::fnv1a(before + (mid + after)) == hash::absorbed(
            hash::absorbed(hash::absorbed(hash::OFFSET, before), mid),
            after,
        ),
{
    hash::lemma_absorbed(hash::OFFSET, before, mid + after);
    hash::lemma_absorbed(hash::absorbed(hash::OFFSET, before), mid, after);
}

proof fn lemma_numbers_tell(h: u64, a: u32, b: u32)
    requires
        a != b,
    ensures
        hash::absorbed(h, hash::le4(a)) != hash::absorbed(h, hash::le4(b)),
{
    let x = hash::le4(a);
    let y = hash::le4(b);
    lemma_four(h, x);
    lemma_four(h, y);
    if hash::absorbed(h, x) == hash::absorbed(h, y) {
        lemma_four_bytes_tell(h, x[0], x[1], x[2], x[3], y[0], y[1], y[2], y[3]);
        assert(x =~= y);
        hash::lemma_le4(a, b);
    }
}

proof fn lemma_four(h: u64, x: Seq<u8>)
    requires
        x.len() == 4,
    ensures
        hash::absorbed(h, x) == hash::mixed(
            hash::mixed(hash::mixed(hash::mixed(h, x[0]), x[1]), x[2]),
            x[3],
        ),
{
    reveal_with_fuel(hash::absorbed, 5);
}

proof fn lemma_text_goes_before(s: Seq<char>, rest: Seq<u8>)
    ensures
        hash::put_text(s, rest) == hash::put_text(s, Seq::empty()) + rest,
{
    assert(hash::put_text(s, rest) =~= hash::put_text(s, Seq::empty()) + rest);
}

/// What the encoding of a commodity has before its price.
spec fn before_price(c: CommodityFacts) -> Seq<u8> {
    hash::put_text(c.key, Seq::empty()) + hash::put_text(c.id, Seq::empty()) + hash::put_text(
        c.name,
        Seq::empty(),
    )
}

/// What the encoding of a commodity has after its price, and what follows it.
spec fn after_price(c: CommodityFacts, rest: Seq<u8>) -> Seq<u8> {
    hash::put_u32(c.unit_mass, hash::put_u64(c.elasticity, hash::put_text(c.category, rest)))
}

proof fn lemma_price_in_place(c: CommodityFacts, rest: Seq<u8>)
    ensures
        hash::put_commodity(c, rest) == before_price(c) + hash::put_u64(
            hash::unsigned(c.base_price),
            after_price(c, rest),
        ),
{
    let priced = hash::put_u64(hash::unsigned(c.base_price), after_price(c, rest));
    lemma_text_goes_before(c.name, priced);
    let named = hash::put_text(c.name, priced);
    lemma_text_goes_before(c.id, named);
    lemma_text_goes_before(c.key, hash::put_text(c.id, named));
    assert(hash::put_commodity(c, rest) =~= before_price(c) + priced);
}

proof fn lemma_commodity_goes_before(c: CommodityFacts, rest: Seq<u8>)
    ensures
        hash::put_commodity(c, rest) == hash::put_commodity(c, Seq::empty()) + rest,
{
    lemma_price_in_place(c, rest);
    lemma_price_in_place(c, Seq::empty());
    lemma_text_goes_before(c.category, rest);
    assert(hash::put_commodity(c, rest) =~= hash::put_commodity(c, Seq::empty()) + rest);
}

proof fn lemma_join(a: Seq<u8>, b: Seq<u8>, c: Seq<u8>)
    ensures
        a + (b + c) == (a + b) + c,
{
    assert(a + (b + c) =~= (a + b) + c);
}

proof fn lemma_nothing(a: Seq<u8>)
    ensures
        Seq::<u8>::empty() + a == a,
{
    assert(Seq::<u8>::empty() + a =~= a);
}

proof fn lemma_halves(p: Money, rest: Seq<u8>)
    ensures
        hash::put_u64(hash::unsigned(p), rest) == hash::put_u32(
            lower(p),
            hash::put_u32(upper(p), rest),
        ),
{
    lemma_join(hash::le4(lower(p)), hash::le4(upper(p)), rest);
}

/// The encoding of a list from `j` on is that of its elements up to `i`, and then that from
/// `i` on.
proof fn lemma_list_splits(list: Seq<CommodityFacts>, j: int, i: int, rest: Seq<u8>)
    requires
        0 <= j <= i <= list.len(),
    ensures
        hash::put_from(list, hash::commodities(), j, rest) == hash::put_from(
            list.take(i),
            hash::commodities(),
            j,
            Seq::empty(),
        ) + hash::put_from(list, hash::commodities(), i, rest),
    decreases i - j,
{
    let put = hash::commodities();
    let none = Seq::<u8>::empty();
    if j < i {
        lemma_list_splits(list, j + 1, i, rest);
        let head = hash::put_from(list.take(i), put, j + 1, none);
        let tail = hash::put_from(list, put, i, rest);
        assert(list.take(i)[j] == list[j]);
        lemma_commodity_goes_before(list[j], head + tail);
        lemma_commodity_goes_before(list[j], head);
        assert(hash::put_from(list, put, j, rest) == hash::put_commodity(list[j], head + tail));
        assert(hash::put_from(list.take(i), put, j, none) == hash::put_commodity(list[j], head));
        lemma_join(hash::put_commodity(list[j], none), head, tail);
    } else {
        lemma_nothing(hash::put_from(list, put, i, rest));
    }
}

/// Lists that agree from `j` on have the same encoding from `j` on.
proof fn lemma_list_agrees(a: Seq<CommodityFacts>, b: Seq<CommodityFacts>, j: int, rest: Seq<u8>)
    requires
        a.len() == b.len(),
        0 <= j <= a.len(),
        forall|k: int| j <= k < a.len() ==> a[k] == #[trigger] b[k],
    ensures
        hash::put_from(a, hash::commodities(), j, rest) == hash::put_from(
            b,
            hash::commodities(),
            j,
            rest,
        ),
    decreases a.len() - j,
{
    if j < a.len() {
        lemma_list_agrees(a, b, j + 1, rest);
        assert(a[j] == b[j]);
    }
}

/// What the encoding of content has after its commodities.
spec fn others(f: Facts) -> Seq<u8> {
    hash::put_list(
        f.recipes,
        hash::recipes(),
        hash::put_list(
            f.systems,
            hash::systems(),
            hash::put_list(
                f.ships,
                hash::ships(),
                hash::put_list(f.scripts, hash::scripts(), Seq::empty()),
            ),
        ),
    )
}

/// What the encoding of content has before the price of commodity `i`.
spec fn lead(f: Facts, i: int) -> Seq<u8> {
    hash::le8(f.commodities.len() as u64) + hash::put_from(
        f.commodities.take(i),
        hash::commodities(),
        0,
        Seq::empty(),
    ) + before_price(f.commodities[i])
}

/// What the encoding of content has after the price of commodity `i`.
spec fn trail(f: Facts, i: int) -> Seq<u8> {
    let rest = others(f);
    after_price(
        f.commodities[i],
        hash::put_from(f.commodities, hash::commodities(), i + 1, rest),
    )
}

proof fn lemma_price_in_encoding(f: Facts, i: int)
    requires
        0 <= i < f.commodities.len(),
    ensures
        hash::put_facts(f, Seq::empty()) == lead(f, i) + hash::put_u64(
            hash::unsigned(f.commodities[i].base_price),
            trail(f, i),
        ),
{
    let put = hash::commodities();
    let rest = others(f);
    lemma_list_splits(f.commodities, 0, i, rest);
    let tail = hash::put_from(f.commodities, put, i + 1, rest);
    assert(hash::put_from(f.commodities, put, i, rest) == hash::put_commodity(
        f.commodities[i],
        tail,
    ));
    lemma_price_in_place(f.commodities[i], tail);
    let count = hash::le8(f.commodities.len() as u64);
    let head = hash::put_from(f.commodities.take(i), put, 0, Seq::empty());
    let front = before_price(f.commodities[i]);
    let priced = hash::put_u64(hash::unsigned(f.commodities[i].base_price), trail(f, i));
    assert(hash::put_facts(f, Seq::empty()) == count + (head + (front + priced)));
    lemma_join(count, head, front + priced);
    lemma_join(count + head, front, priced);
}

/// The halves of the 64 bits of a price.
pub open spec fn upper(p: Money) -> u32 {
    (hash::unsigned(p) / 0x1_0000_0000) as u32
}

pub open spec fn lower(p: Money) -> u32 {
    (hash::unsigned(p) % 0x1_0000_0000) as u32
}

/// Changing the price of one commodity changes the content fingerprint, wherever the change
/// stays within one half of the price's 64 bits, as it does between any two prices from zero
/// up to 2^32.
pub proof fn lemma_changed_price_changes_hash(a: Registry, b: Registry, i: int)
    requires
        0 <= i < hash::facts(a).commodities.len(),
        hash::facts(b).commodities.len() == hash::facts(a).commodities.len(),
        hash::facts(b) == (Facts {
            commodities: hash::facts(a).commodities.update(
                i,
                CommodityFacts {
                    base_price: hash::facts(b).commodities[i].base_price,
                    ..hash::facts(a).commodities[i]
                },
            ),
            ..hash::facts(a)
        }),
        hash::facts(a).commodities[i].base_price != hash::facts(b).commodities[i].base_price,
        upper(hash::facts(a).commodities[i].base_price) == upper(
            hash::facts(b).commodities[i].base_price,
        ) || lower(hash::facts(a).commodities[i].base_price) == lower(
            hash::facts(b).commodities[i].base_price,
        ),
    ensures
        hash::fnv1a(hash::encoding(a)) != hash::fnv1a(hash::encoding(b)),
{
    let f = hash::facts(a);
    let g = hash::facts(b);
    lemma_price_in_encoding(f, i);
    lemma_price_in_encoding(g, i);
    assert(f.commodities.take(i) =~= g.commodities.take(i));
    assert(lead(f, i) == lead(g, i));
    let rest = others(f);
    lemma_list_agrees(f.commodities, g.commodities, i + 1, rest);
    assert(trail(f, i) == trail(g, i));
    let p = f.commodities[i].base_price;
    let q = g.commodities[i].base_price;
    let before = lead(f, i);
    let after = trail(f, i);
    lemma_halves(p, after);
    lemma_halves(q, after);
    if upper(p) == upper(q) {
        assert(lower(p) != lower(q));
        lemma_changed_number_changes_hash(
            before,
            lower(p),
            lower(q),
            hash::put_u32(upper(p), after),
        );
    } else {
        let low = hash::le4(lower(p));
        lemma_join(before, low, hash::put_u32(upper(p), after));
        lemma_join(before, low, hash::put_u32(upper(q), after));
        lemma_changed_number_changes_hash(before + low, upper(p), upper(q), after);
    }
}

/// Any two prices from zero up to 2^32 agree in their upper halves.
pub proof fn lemma_small_prices_share_a_half(p: Money, q: Money)
    requires
        0 <= p < 0x1_0000_0000,
        0 <= q < 0x1_0000_0000,
    ensures
        upper(p) == upper(q),
{
}

} // verus!
