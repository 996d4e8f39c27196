//! Target selection over a set of contacts.

use vstd::prelude::*;

verus! {

/// Where a 32-bit floating-point pattern stands in the total order of such numbers:
/// negative ones below positive ones, `-0` just below `0`.
pub open spec fn place(b: u32) -> int {
    if b >= 0x8000_0000 {
        0x7fff_ffff - b
    } else {
        b as int
    }
}

/// Whether contact `i` is the nearest: none is closer, and those before it are farther.
pub open spec fn is_nearest(distances: Seq<u32>, i: int) -> bool {
    &&& 0 <= i < distances.len()
    &&& forall|j: int| 0 <= j < distances.len() ==> place(distances[i]) <= place(
        #[trigger] distances[j],
    )
    &&& forall|j: int| 0 <= j < i ==> place(distances[i]) < place(#[trigger] distances[j])
}

/// The place of a pattern in the total order.
pub fn place_of(b: u32) -> (p: i64)
    ensures
        p == place(b),
{
    if b >= 0x8000_0000 {
        0x7fff_ffff - b as i64
    } else {
        b as i64
    }
}

/// The nearest contact, by the patterns of the squared distances to each; the first of
/// those that are equally near, and none where there are no contacts.
pub fn nearest(distances: &Vec<u32>) -> (r: Option<usize>)
    ensures
        match r {
            Some(i) => is_nearest(distances@, i as int),
            None => distances@.len() == 0,
        },
{
    if distances.len() == 0 {
        return None;
    }
    let mut best: usize = 0;
    let mut i: usize = 1;
    while i < distances.len()
        invariant
            1 <= i <= distances@.len(),
            best < i,
            forall|j: int| 0 <= j < i ==> place(distances@[best as int]) <= place(
                #[trigger] distances@[j],
            ),
            forall|j: int| 0 <= j < best ==> place(distances@[best as int]) < place(
                #[trigger] distances@[j],
            ),
        decreases distances@.len() - i,
    {
        if place_of(distances[i]) < place_of(distances[best]) {
            best = i;
        }
        i = i + 1;
    }
    Some(best)
}

/// The next target when cycling through `len` contacts.
pub open spec fn spec_cycle(current: Option<usize>, len: usize) -> Option<usize> {
    if len == 0 {
        None
    } else {
        match current {
            Some(i) => Some(((i + 1) % (len as int)) as usize),
            None => Some(0),
        }
    }
}

/// The next target index when cycling with a lock key. Advances, wrapping, from
/// `current`, starts at `0` when nothing is locked, and yields `None` for an empty
/// contact set.
pub fn cycle(current: Option<usize>, len: usize) -> (r: Option<usize>)
    requires
        current is Some ==> current->Some_0 < usize::MAX,
    ensures
        r == spec_cycle(current, len),
        r is Some ==> r->Some_0 < len,
{
    if len == 0 {
        return None;
    }
    match current {
        Some(i) => Some((i + 1) % len),
        None => Some(0),
    }
}

/// The target after pressing the lock key `n` times.
pub open spec fn cycled(current: Option<usize>, len: usize, n: nat) -> Option<usize>
    decreases n,
{
    if n == 0 {
        current
    } else {
        spec_cycle(cycled(current, len, (n - 1) as nat), len)
    }
}

/// From nothing locked, the key reaches each contact in turn: after `n + 1` presses it is
/// contact `n`, counted around.
pub proof fn lemma_cycle_visits_all(len: usize, n: nat)
    requires
        len > 0,
    ensures
        cycled(None, len, n + 1) == Some((n % (len as nat)) as usize),
    decreases n,
{
    reveal_with_fuel(cycled, 2);
    if n > 0 {
        lemma_cycle_visits_all(len, (n - 1) as nat);
        let m = len as int;
        let k = (n - 1) % m;
        vstd::arithmetic::div_mod::lemma_add_mod_noop(n - 1, 1, m);
        if m == 1 {
            assert((k + 1) % m == 0);
            assert(n as int % m == 0);
        } else {
            vstd::arithmetic::div_mod::lemma_small_mod(1, m as nat);
            assert((k + 1) % m == (n as int) % m);
        }
    } else {
        assert(0int % (len as int) == 0);
    }
}

/// From contact `i` locked, `n` presses move the lock `n` contacts on, counted around.
pub proof fn lemma_cycle_steps(i: usize, len: usize, n: nat)
    requires
        i < len,
    ensures
        cycled(Some(i), len, n) == Some(((i + n) % (len as int)) as usize),
    decreases n,
{
    let m = len as int;
    if n == 0 {
        vstd::arithmetic::div_mod::lemma_small_mod(i as nat, m as nat);
    } else {
        lemma_cycle_steps(i, len, (n - 1) as nat);
        let k = (i + n - 1) % m;
        assert(0 <= k < m) by {
            vstd::arithmetic::div_mod::lemma_mod_bound(i + n - 1, m);
        }
        vstd::arithmetic::div_mod::lemma_add_mod_noop_right(1, i + n - 1, m);
        assert((1 + k) % m == (1 + (i + n - 1)) % m);
        assert((k as usize) as int == k);
        assert(0 <= (i + n) % m < m) by {
            vstd::arithmetic::div_mod::lemma_mod_bound(i + n, m);
        }
    }
}

/// Whether contact `j` is locked on the way around from contact `i`.
pub open spec fn reaches(i: usize, len: usize, j: usize) -> bool {
    exists|n: nat| 1 <= n <= len && #[trigger] cycled(Some(i), len, n) == Some(j)
}

/// From a locked contact, as many presses as there are contacts go once around: each
/// press locks a contact, every contact is locked exactly once, and the last is the one
/// that was locked before.
pub proof fn lemma_cycle_goes_round(i: usize, len: usize)
    requires
        i < len,
    ensures
        forall|n: nat|
            1 <= n <= len ==> (#[trigger] cycled(Some(i), len, n)) is Some && cycled(
                Some(i),
                len,
                n,
            )->Some_0 < len,
        forall|j: usize| j < len ==> #[trigger] reaches(i, len, j),
        forall|n: nat, m: nat|
            1 <= n <= len && 1 <= m <= len && (#[trigger] cycled(Some(i), len, n)) == (
            #[trigger] cycled(Some(i), len, m)) ==> n == m,
        cycled(Some(i), len, len as nat) == Some(i),
{
    let size = len as int;
    assert forall|n: nat| 1 <= n <= len implies (#[trigger] cycled(Some(i), len, n)) == Some(
        (if i + n < size {
            i + n
        } else {
            i + n - size
        }) as usize,
    ) by {
        lemma_cycle_steps(i, len, n);
        if i + n < size {
            vstd::arithmetic::div_mod::lemma_small_mod((i + n) as nat, size as nat);
        } else {
            vstd::arithmetic::div_mod::lemma_mod_sub_multiples_vanish(i + n, size);
            vstd::arithmetic::div_mod::lemma_small_mod((i + n - size) as nat, size as nat);
        }
    }
    assert forall|j: usize| j < len implies #[trigger] reaches(i, len, j) by {
        let n: nat = if j > i {
            (j - i) as nat
        } else {
            (j - i + size) as nat
        };
        assert(cycled(Some(i), len, n) == Some(j));
    }
}

} // verus!
