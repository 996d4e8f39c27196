//! The deterministic random source.
//!
//! A run must be reproducible: the same seed gives the same run. A [`DetRng`] is a
//! position in the ChaCha8 stream of a seed, so its whole state is two numbers and
//! a dumped world can be resumed.

use rand::{Rng, SeedableRng};
use rand_chacha::ChaCha8Rng;
use vstd::prelude::*;

verus! {

/// A position in the random stream of a seed.
#[derive(Debug, Clone, Copy, PartialEq, Eq, Structural)]
pub struct DetRng {
    /// The seed of the stream.
    pub seed: u64,
    /// How many 32-bit words of it have been used.
    pub pos: u128,
}

/// The 64-bit draw of ChaCha8, seeded with `seed`, from word `pos` of its stream.
pub uninterp spec fn chacha_u64(seed: u64, pos: u128) -> u64;

/// The draw from `[low, high)` of ChaCha8, seeded with `seed`, from word `pos` of
/// its stream, and the word after the last it used.
pub uninterp spec fn chacha_range_u64(seed: u64, pos: u128, low: u64, high: u64) -> (u64, u128);

/// The same over 32-bit numbers.
pub uninterp spec fn chacha_range_u32(seed: u64, pos: u128, low: u32, high: u32) -> (u32, u128);

/// The number of words in a stream, after which it repeats.
pub const STREAM_WORDS: u128 = 0x10_0000_0000_0000_0000;

/// `rand::Rng::gen::<u64>` on a `ChaCha8Rng` seeded by `seed_from_u64` and moved to
/// a word position by `set_word_pos`. Claimed: the draw depends on the seed and the
/// position alone, and it uses two words.
#[verifier::external_body]
fn draw_u64(seed: u64, pos: u128) -> (r: (u64, u128))
    ensures
        r.0 == chacha_u64(seed, pos),
        r.1 == ((pos + 2) as int) % (STREAM_WORDS as int),
{
    let mut rng = ChaCha8Rng::seed_from_u64(seed);
    rng.set_word_pos(pos);
    let value = rng.gen::<u64>();
    (value, rng.get_word_pos())
}

/// `rand::Rng::gen_range` over 64-bit numbers on such a generator. Claimed: value
/// and position after it depend on seed, position and bounds alone, and the value
/// lies in the range.
#[verifier::external_body]
fn draw_range_u64(seed: u64, pos: u128, low: u64, high: u64) -> (r: (u64, u128))
    requires
        low < high,
    ensures
        r == chacha_range_u64(seed, pos, low, high),
        low <= r.0 < high,
{
    let mut rng = ChaCha8Rng::seed_from_u64(seed);
    rng.set_word_pos(pos);
    let value = rng.gen_range(low..high);
    (value, rng.get_word_pos())
}

/// `rand::Rng::gen_range` over 32-bit numbers on such a generator. Claimed: value
/// and position after it depend on seed, position and bounds alone, and the value
/// lies in the range.
#[verifier::external_body]
fn draw_range_u32(seed: u64, pos: u128, low: u32, high: u32) -> (r: (u32, u128))
    requires
        low < high,
    ensures
        r == chacha_range_u32(seed, pos, low, high),
        low <= r.0 < high,
{
    let mut rng = ChaCha8Rng::seed_from_u64(seed);
    rng.set_word_pos(pos);
    let value = rng.gen_range(low..high);
    (value, rng.get_word_pos())
}

impl DetRng {
    /// The start of the stream of a seed.
    pub open spec fn spec_from_seed(seed: u64) -> DetRng {
        DetRng { seed, pos: 0 }
    }

    /// Construct from a 64-bit seed. Two generators with the same seed produce the
    /// same sequence.
    pub fn from_seed(seed: u64) -> (r: Self)
        ensures
            r == Self::spec_from_seed(seed),
    {
        DetRng { seed, pos: 0 }
    }

    /// The full 64-bit draw.
    pub open spec fn spec_next(self) -> u64 {
        chacha_u64(self.seed, self.pos)
    }

    /// The generator after a 64-bit draw.
    pub open spec fn after_next(self) -> DetRng {
        DetRng { pos: (((self.pos + 2) as int) % (STREAM_WORDS as int)) as u128, ..self }
    }

    /// A full 64-bit draw, also used to seed an independent child generator.
    pub fn next_u64(&mut self) -> (v: u64)
        ensures
            v == old(self).spec_next(),
            *final(self) == old(self).after_next(),
    {
        let (v, pos) = draw_u64(self.seed, self.pos);
        self.pos = pos;
        v
    }

    /// A uniform draw from the unit interval, as the numerator over 2^53.
    pub open spec fn spec_unit(self) -> u64 {
        self.spec_next() / 2048
    }

    /// A uniform draw from `[0, 1)`, as the numerator over 2^53: the upper 53 bits
    /// of a 64-bit draw.
    pub fn unit(&mut self) -> (v: u64)
        ensures
            v == old(self).spec_unit(),
            *final(self) == old(self).after_next(),
    {
        self.next_u64() / 2048
    }

    /// The draw from `[low, high)`.
    pub open spec fn spec_range(self, low: u64, high: u64) -> u64 {
        chacha_range_u64(self.seed, self.pos, low, high).0
    }

    /// The generator after a draw from `[low, high)`.
    pub open spec fn after_range(self, low: u64, high: u64) -> DetRng {
        DetRng { pos: chacha_range_u64(self.seed, self.pos, low, high).1, ..self }
    }

    /// Uniform integer in `[low, high)`.
    pub fn range_u32(&mut self, low: u32, high: u32) -> (v: u32)
        requires
            low < high,
        ensures
            low <= v < high,
            v == chacha_range_u32(old(self).seed, old(self).pos, low, high).0,
            final(self).seed == old(self).seed,
            final(self).pos == chacha_range_u32(old(self).seed, old(self).pos, low, high).1,
    {
        let (v, pos) = draw_range_u32(self.seed, self.pos, low, high);
        self.pos = pos;
        v
    }

    /// Uniform integer in `[low, high)` over `usize`.
    pub fn range_usize(&mut self, low: usize, high: usize) -> (v: usize)
        requires
            low < high,
        ensures
            low <= v < high,
            v == old(self).spec_range(low as u64, high as u64),
            *final(self) == old(self).after_range(low as u64, high as u64),
    {
        let (v, pos) = draw_range_u64(self.seed, self.pos, low as u64, high as u64);
        self.pos = pos;
        v as usize
    }

    /// Pick an index in `[0, len)`, or `None` when there is none; nothing is drawn
    /// then.
    pub fn choose_index(&mut self, len: usize) -> (r: Option<usize>)
        ensures
            len == 0 ==> r is None && *final(self) == *old(self),
            len > 0 ==> r == Some(old(self).spec_range(0, len as u64) as usize) && r->Some_0 < len
                && *final(self) == old(self).after_range(0, len as u64),
    {
        if len == 0 {
            None
        } else {
            Some(self.range_usize(0, len))
        }
    }
}

/// A draw from the unit interval is the upper 53 bits of a full draw.
pub proof fn lemma_unit_is_the_upper_bits(r: DetRng)
    ensures
        r.spec_unit() < 0x20_0000_0000_0000,
        r.spec_unit() * 0x800 <= r.spec_next() < (r.spec_unit() + 1) * 0x800,
{
}

/// A generator stays on the stream of its seed: each full draw moves it on by two words,
/// round the end of the stream.
pub proof fn lemma_stream_goes_on(r: DetRng, low: u64, high: u64)
    requires
        r.pos < 0x10_0000_0000_0000_0000,
    ensures
        r.after_next().seed == r.seed,
        r.after_range(low, high).seed == r.seed,
        r.pos + 2 < 0x10_0000_0000_0000_0000 ==> r.after_next().pos == r.pos + 2,
        r.pos + 2 >= 0x10_0000_0000_0000_0000 ==> r.after_next().pos == r.pos + 2
            - 0x10_0000_0000_0000_0000,
{
}

/// The same seed starts the same stream at its first word, and different seeds do not.
pub proof fn lemma_seed_tells_the_stream(a: u64, b: u64)
    ensures
        DetRng::spec_from_seed(a) == DetRng::spec_from_seed(b) <==> a == b,
        DetRng::spec_from_seed(a).seed == a,
        DetRng::spec_from_seed(a).pos == 0,
{
}

} // verus!
