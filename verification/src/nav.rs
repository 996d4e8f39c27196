//! Jump fuel and a pilot's legal standing.

use vstd::prelude::*;

use crate::bits;
use crate::bits::{Bits, is_at_most, larger_of};

verus! {

/// The least fuel a jump costs, a tenth of a unit as a 32-bit number: even a neighbour is
/// never free.
pub const LEAST_FUEL: Bits = 0x3fb9_9999_a000_0000;

/// The fuel a jump costs, where its distance alone comes to `raw`.
pub fn jump_fuel_cost(raw: Bits) -> (cost: Bits)
    ensures
        cost == bits::larger(raw, LEAST_FUEL),
{
    larger_of(raw, LEAST_FUEL)
}

/// Whether a jump at this cost is affordable with what the tank holds.
pub fn can_jump(tank: Bits, cost: Bits) -> (b: bool)
    ensures
        b == bits::at_most(cost, tank),
{
    is_at_most(cost, tank)
}

/// No jump is free, and an empty tank affords none.
pub proof fn lemma_no_jump_is_free(raw: Bits)
    ensures
        bits::at_most(LEAST_FUEL, bits::larger(raw, LEAST_FUEL)),
        !bits::at_most(bits::larger(raw, LEAST_FUEL), 0),
{
}

/// The bounty from which on a pilot is a fugitive, hunted on sight.
pub const FUGITIVE_BOUNTY: u32 = 50;

/// A pilot's legal standing. The police leave a clean pilot alone, and hunt an offender
/// or a fugitive.
#[derive(Debug, Clone, Copy, PartialEq, Eq, Structural)]
pub enum LegalStatus {
    Clean,
    Offender,
    Fugitive,
}

/// The standing that a bounty means.
pub open spec fn standing(bounty: u32) -> LegalStatus {
    if bounty == 0 {
        LegalStatus::Clean
    } else if bounty < FUGITIVE_BOUNTY {
        LegalStatus::Offender
    } else {
        LegalStatus::Fugitive
    }
}

/// Map a bounty to a [`LegalStatus`].
pub fn legal_status(bounty: u32) -> (s: LegalStatus)
    ensures
        s == standing(bounty),
{
    if bounty == 0 {
        LegalStatus::Clean
    } else if bounty < FUGITIVE_BOUNTY {
        LegalStatus::Offender
    } else {
        LegalStatus::Fugitive
    }
}

impl LegalStatus {
    /// Whether the police treat this pilot as prey.
    pub open spec fn spec_is_wanted(self) -> bool {
        self != LegalStatus::Clean
    }

    /// Whether the police treat this pilot as prey.
    pub fn is_wanted(self) -> (b: bool)
        ensures
            b == self.spec_is_wanted(),
    {
        match self {
            LegalStatus::Clean => false,
            _ => true,
        }
    }

    /// Short label.
    pub open spec fn spec_label(self) -> Seq<char> {
        match self {
            LegalStatus::Clean => "CLEAN"@,
            LegalStatus::Offender => "OFFENDER"@,
            LegalStatus::Fugitive => "FUGITIVE"@,
        }
    }

    /// Short label.
    pub fn label(self) -> (s: &'static str)
        ensures
            s@ == self.spec_label(),
    {
        match self {
            LegalStatus::Clean => "CLEAN",
            LegalStatus::Offender => "OFFENDER",
            LegalStatus::Fugitive => "FUGITIVE",
        }
    }
}

/// A pilot is wanted exactly where there is a bounty on them.
pub proof fn lemma_wanted_iff_bounty(bounty: u32)
    ensures
        standing(bounty).spec_is_wanted() <==> bounty > 0,
{
}

/// A growing bounty never improves a pilot's standing: who is a fugitive stays one, and
/// who is wanted stays wanted.
pub proof fn lemma_standing_worsens(less: u32, more: u32)
    requires
        less <= more,
    ensures
        standing(less) == LegalStatus::Fugitive ==> standing(more) == LegalStatus::Fugitive,
        standing(less).spec_is_wanted() ==> standing(more).spec_is_wanted(),
{
}

/// A pilot without a bounty is clean, one below fifty an offender, and one from fifty on a
/// fugitive.
pub proof fn lemma_standing_by_bounty(bounty: u32)
    ensures
        standing(bounty) == LegalStatus::Clean <==> bounty == 0,
        standing(bounty) == LegalStatus::Offender <==> 0 < bounty < 50,
        standing(bounty) == LegalStatus::Fugitive <==> bounty >= 50,
        standing(bounty).spec_is_wanted() <==> bounty != 0,
{
}

/// Each standing reads differently.
pub proof fn lemma_labels_differ(a: LegalStatus, b: LegalStatus)
    ensures
        a.spec_label() == b.spec_label() ==> a == b,
{
    reveal_strlit("CLEAN");
    reveal_strlit("OFFENDER");
    reveal_strlit("FUGITIVE");
    assert("CLEAN"@.len() == 5 && "OFFENDER"@[0] == 'O' && "FUGITIVE"@[0] == 'F');
}

} // verus!
