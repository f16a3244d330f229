//! Named random streams: one generator for each purpose, derived from the
//! scenario's base seed and a hash of the purpose's name.

use vstd::prelude::*;
use rand::SeedableRng;
use rand_xoshiro::Xoshiro256PlusPlus;

verus! {

/// The generator type of every stream, opaque to the verifier.
#[verifier::external_type_specification]
#[verifier::external_body]
pub struct ExXoshiro256PlusPlus(Xoshiro256PlusPlus);

/// Calls `fxhash::hash64` on the name of a stream. Nothing is claimed of the
/// hash: it is read in the machine's byte order.
#[verifier::external_body]
pub(crate) fn hash64(key: &str) -> u64 {
    fxhash::hash64(key)
}

/// The generator that `Xoshiro256PlusPlus::seed_from_u64` makes of `seed`.
/// Its state is worked out from the seed by integer arithmetic on
/// little-endian bytes, so that one seed gives one generator everywhere.
pub uninterp spec fn seeded_generator(seed: u64) -> Xoshiro256PlusPlus;

/// Calls `Xoshiro256PlusPlus::seed_from_u64`. The contract claims that the
/// generator that comes back is a function of the seed alone, and gives it
/// its name; of its state nothing more is claimed.
#[verifier::external_body]
fn seed_rng(seed: u64) -> (rng: Xoshiro256PlusPlus)
    ensures
        rng == seeded_generator(seed),
{
    Xoshiro256PlusPlus::seed_from_u64(seed)
}

/// The indices that `rand::seq::index::sample` draws, in the order drawn,
/// when it is asked for `amount` of `length` indices with the generator that
/// `Xoshiro256PlusPlus::seed_from_u64` makes of `seed`.
pub uninterp spec fn sampled(seed: u64, length: usize, amount: usize) -> Seq<usize>;

/// What the sampler promises of every sample: as many indices as asked for,
/// each below `length`, none twice.
pub open spec fn is_sample(ids: Seq<usize>, length: usize, amount: usize) -> bool {
    &&& ids.len() == amount
    &&& forall|i: int| 0 <= i < ids.len() ==> ids[i] < length
    &&& forall|i: int, j: int| 0 <= i < j < ids.len() ==> ids[i] != ids[j]
}

/// Makes the generator of `seed` with `Xoshiro256PlusPlus::seed_from_u64` and
/// calls `rand::seq::index::sample` with it, which draws `amount` distinct
/// indices below `length`. The sampler panics if `amount` exceeds `length`,
/// and for a `length` above what 32 bits hold it samples by rejection, which
/// asserts that `amount` is strictly below `length`: both are left out. The
/// contract claims that the sample is a function of the seed and the two
/// numbers, gives it its name, and claims of it what the sampler documents:
/// the count, the range and that no index comes twice.
#[verifier::external_body]
pub(crate) fn seeded_sample(seed: u64, length: usize, amount: usize) -> (ids: Vec<usize>)
    requires
        amount <= length,
        length > u32::MAX ==> amount < length,
    ensures
        ids@ == sampled(seed, length, amount),
        is_sample(ids@, length, amount),
{
    let mut rng = Xoshiro256PlusPlus::seed_from_u64(seed);
    rand::seq::index::sample(&mut rng, length, amount).into_vec()
}

/// The seed of a stream: the base seed plus the stream's offset, wrapping
/// round at 64 bits.
pub open spec fn stream_seed_of(base_seed: u64, seed_offset: u64) -> u64 {
    if base_seed + seed_offset <= u64::MAX {
        (base_seed + seed_offset) as u64
    } else {
        (base_seed + seed_offset - u64::MAX - 1) as u64
    }
}

/// Combines the base seed of a scenario with the offset of a stream.
pub fn stream_seed(base_seed: u64, seed_offset: u64) -> (seed: u64)
    ensures
        seed == stream_seed_of(base_seed, seed_offset),
{
    base_seed.wrapping_add(seed_offset)
}

/// The offset of the stream called `key`: a 64-bit hash of the name.
pub fn seed_offset(key: &str) -> u64 {
    hash64(key)
}

/// The generator of the stream with the given offset under `base_seed`: the
/// one seeded with the base seed plus the offset, so that the same pair
/// always gives a generator in the same state.
pub fn stream(base_seed: u64, seed_offset: u64) -> (rng: Xoshiro256PlusPlus)
    ensures
        rng == seeded_generator(stream_seed_of(base_seed, seed_offset)),
{
    seed_rng(stream_seed(base_seed, seed_offset))
}

} // verus!
