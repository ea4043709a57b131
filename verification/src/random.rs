//! The random choices of text generation, drawn from a seeded generator.
use vstd::prelude::*;
use rand::RngExt;
use rand_seeder::{Seeder, SipRng};

verus! {

#[verifier::external_type_specification]
#[verifier::external_body]
pub struct ExSipRng(SipRng);

/// `Seeder::from(seed).into_rng()` from `rand_seeder`: a `SipRng` whose state
/// is derived from the hash of `seed`. The generator is opaque here.
#[verifier::external_body]
fn rng_from_seed(seed: &str) -> SipRng {
    Seeder::from(seed).into_rng()
}

/// A record of the seed that a generator was made from. Only
/// `seeded_rng` makes one, together with the generator it describes.
pub struct SeedMark {
    seed: Ghost<Seq<char>>,
}

impl SeedMark {
    /// The seed.
    pub closed spec fn seed(&self) -> Seq<char> {
        self.seed@
    }
}

/// A random number generator seeded with `seed`, and the record of that
/// seed.
pub fn seeded_rng(seed: &str) -> (r: (SipRng, SeedMark))
    ensures
        r.1.seed() == seed@,
{
    (rng_from_seed(seed), SeedMark { seed: Ghost(seed@) })
}

/// `RngExt::random_range(..len)` from `rand`: an index drawn from `0..len`.
/// The range must not be empty (`random_range` panics on an empty range).
#[verifier::external_body]
pub(crate) fn random_index(rng: &mut SipRng, len: usize) -> (r: usize)
    requires
        len > 0,
    ensures
        r < len,
{
    rng.random_range(..len)
}

/// `RngExt::random_range(lo..=hi)` from `rand`: a number drawn from `lo..=hi`.
/// The range must not be empty (`random_range` panics on an empty range).
#[verifier::external_body]
pub(crate) fn random_between(rng: &mut SipRng, lo: usize, hi: usize) -> (r: usize)
    requires
        lo <= hi,
    ensures
        lo <= r <= hi,
{
    rng.random_range(lo..=hi)
}

/// `rand::seq::index::sample(rng, len, amount)`: `amount` distinct indices
/// from `0..len`, in random order. It panics when `amount > len`.
#[verifier::external_body]
pub(crate) fn sample_indices(rng: &mut SipRng, len: usize, amount: usize) -> (r: Vec<usize>)
    requires
        amount <= len,
    ensures
        r@.len() == amount,
        r@.no_duplicates(),
        forall|i: int| 0 <= i < r@.len() ==> #[trigger] r@[i] < len,
{
    rand::seq::index::sample(rng, len, amount).into_vec()
}

} // verus!
