//! The randomness the generators draw on, from the `rand` crate.

use rand::rngs::{StdRng, SysError, SysRng};
use rand::seq::{IndexedRandom, SliceRandom};
use rand::{RngExt, SeedableRng, TryRng};
use vstd::prelude::*;

verus! {

#[verifier::external_type_specification]
#[verifier::external_body]
pub struct ExStdRng(StdRng);

#[verifier::external_type_specification]
#[verifier::external_body]
pub struct ExSysError(SysError);

/// The draw `IndexedRandom::choose` makes on a non-empty slice of `len`
/// elements from the generator state `rng`: the index of the element chosen,
/// and the generator's state afterwards.
pub uninterp spec fn spec_choose_draw(len: usize, rng: StdRng) -> (usize, StdRng);

/// `IndexedRandom::choose` of `rand` on a slice: `None` on an empty slice,
/// leaving the generator as it was; otherwise the element at an index below
/// the length. The index and the generator's next state are a function of
/// the length and the generator's state, named, not computed (a uniform draw).
#[verifier::external_body]
pub(crate) fn choose_one<'a, T>(items: &'a [T], rng: &mut StdRng) -> (r: Option<&'a T>)
    ensures
        items@.len() == 0 ==> r is None && *final(rng) == *old(rng),
        items@.len() > 0 ==> (r matches Some(x) && spec_choose_draw(items@.len() as usize, *old(rng)).0
            < items@.len() && *x == items@[spec_choose_draw(items@.len() as usize, *old(rng)).0 as int]),
        items@.len() > 0 ==> *final(rng) == spec_choose_draw(items@.len() as usize, *old(rng)).1,
{
    items.choose(rng)
}

/// The reordering `SliceRandom::shuffle` makes of a slice of `len`
/// elements from the generator state `rng`: for each position, the index of
/// the element that moves there, and the generator's state afterwards.
pub uninterp spec fn spec_shuffle_draw(len: usize, rng: StdRng) -> (Seq<int>, StdRng);

/// `SliceRandom::shuffle` of `rand`: a permutation of the vector, each
/// element kept as often as before. Which permutation, and the generator's
/// next state, are a function of the length and the generator's state,
/// named, not computed (a uniform permutation).
#[verifier::external_body]
pub(crate) fn shuffle_all<T>(items: &mut Vec<T>, rng: &mut StdRng)
    ensures
        final(items)@.to_multiset() == old(items)@.to_multiset(),
        final(items)@.len() == old(items)@.len(),
        forall|i: int|
            0 <= i < old(items)@.len() ==> 0 <= #[trigger] spec_shuffle_draw(
                old(items)@.len() as usize,
                *old(rng),
            ).0[i] < old(items)@.len() && final(items)@[i] == old(items)@[spec_shuffle_draw(
                old(items)@.len() as usize,
                *old(rng),
            ).0[i]],
        *final(rng) == spec_shuffle_draw(old(items)@.len() as usize, *old(rng)).1,
{
    items.shuffle(rng)
}

/// The draw `RngExt::random_range` makes over `0..bound` from the generator
/// state `rng`: the value drawn, and the generator's state afterwards.
pub uninterp spec fn spec_range_draw(bound: usize, rng: StdRng) -> (usize, StdRng);

/// `RngExt::random_range` of `rand` over `0..bound`: an index below
/// `bound`. The value and the generator's next state are a function of the
/// bound and the generator's state, named, not computed (a uniform draw).
/// The range must not be empty, or `rand` panics.
#[verifier::external_body]
pub(crate) fn random_index(rng: &mut StdRng, bound: usize) -> (r: usize)
    requires
        bound > 0,
    ensures
        r < bound,
        r == spec_range_draw(bound, *old(rng)).0,
        *final(rng) == spec_range_draw(bound, *old(rng)).1,
{
    rng.random_range(0..bound)
}

/// `TryRng::try_fill_bytes` of `rand` on the operating system's generator
/// `SysRng`: 32 fresh bytes, or the error the system reported. Nothing is
/// said of the bytes.
#[verifier::external_body]
pub(crate) fn os_seed() -> (r: Result<[u8; 32], SysError>) {
    let mut seed = [0u8; 32];
    match SysRng.try_fill_bytes(&mut seed) {
        Ok(()) => Ok(seed),
        Err(err) => Err(err),
    }
}

/// The generator `StdRng::from_seed` builds from a seed: the seed is its
/// whole state, so equal seeds give equal generators.
pub uninterp spec fn spec_std_rng_from_seed(seed: Seq<u8>) -> StdRng;

/// `SeedableRng::from_seed` of `rand` for `StdRng`: the generator seeded
/// with `seed`, named, not computed.
#[verifier::external_body]
pub(crate) fn std_rng_from_seed(seed: [u8; 32]) -> (r: StdRng)
    ensures
        r == spec_std_rng_from_seed(seed@),
{
    StdRng::from_seed(seed)
}

} // verus!
