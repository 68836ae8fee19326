//! The random source behind shuffled visit orders.

use rand::rngs::{OsRng, StdRng};
use rand::seq::SliceRandom;
use rand::SeedableRng;
use vstd::prelude::*;

use crate::order::{
    identity_order, is_visit_order, lemma_each_once_is_visit_order,
    lemma_identity_visits_each_once, lemma_rearrangement_visits_each_once, sequential_order,
    visits_each_once,
};

verus! {

/// `rand::rngs::StdRng`, carried as an opaque value.
#[verifier::external_type_specification]
#[verifier::external_body]
pub struct ExStdRng(StdRng);

/// Calls `SeedableRng::seed_from_u64` for `StdRng`. Nothing is claimed of the
/// generator that comes back.
#[verifier::external_body]
fn rng_from_seed(seed: u64) -> StdRng {
    StdRng::seed_from_u64(seed)
}

/// Calls `SeedableRng::from_rng` for `StdRng` on `OsRng`, which seeds the
/// generator from the operating system. There is no generator where the
/// system has no entropy to offer; nothing is claimed of one that comes
/// back, nor of when one does.
#[verifier::external_body]
fn rng_from_system() -> Option<StdRng> {
    StdRng::from_rng(OsRng).ok()
}

/// Calls `SliceRandom::shuffle` on the items. The method only swaps pairs of
/// elements, so whatever the generator draws, the items afterwards are the
/// items before in some other arrangement.
#[verifier::external_body]
fn shuffle_in_place(items: &mut Vec<i64>, rng: &mut StdRng)
    ensures
        final(items)@.to_multiset() == old(items)@.to_multiset(),
{
    items.shuffle(rng);
}

/// The operating system had no entropy to seed a generator with.
#[derive(Clone, Copy, Debug, PartialEq, Eq, Structural)]
pub struct NoEntropy;

/// A generator of random numbers that one workload run owns.
pub struct RandomSource {
    rng: StdRng,
}

impl RandomSource {
    /// A source that replays the same draws for the same seed.
    pub fn seeded(seed: u64) -> (source: RandomSource) {
        RandomSource { rng: rng_from_seed(seed) }
    }

    /// A source seeded by the operating system, where the system can seed
    /// one.
    pub fn unseeded() -> (source: Result<RandomSource, NoEntropy>) {
        match rng_from_system() {
            Some(rng) => Ok(RandomSource { rng }),
            None => Err(NoEntropy),
        }
    }

    /// Rearranges `items` at random. No item is lost, gained or changed.
    pub fn shuffle(&mut self, items: &mut Vec<i64>)
        ensures
            final(items)@.to_multiset() == old(items)@.to_multiset(),
            final(items)@.len() == old(items)@.len(),
    {
        proof {
            items@.to_multiset_ensures();
        }
        shuffle_in_place(items, &mut self.rng);
        proof {
            items@.to_multiset_ensures();
        }
    }
}

/// Draws a visit order over `n` records: the identity order, shuffled.
pub fn shuffled_order(n: u32, source: &mut RandomSource) -> (order: Vec<i64>)
    ensures
        visits_each_once(order@, n as nat),
        is_visit_order(order@),
{
    let mut order = sequential_order(n);
    source.shuffle(&mut order);
    proof {
        lemma_identity_visits_each_once(n as nat);
        lemma_rearrangement_visits_each_once(identity_order(n as nat), order@, n as nat);
        lemma_each_once_is_visit_order(order@);
    }
    order
}

} // verus!
