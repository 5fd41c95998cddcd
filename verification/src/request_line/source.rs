//! The source of random choices that every generator draws from.

use vstd::prelude::*;
use proptest::test_runner::TestRng;
use rand::Rng;

verus! {

/// `proptest::test_runner::TestRng`, the seedable random number generator of
/// proptest. Its state is opaque here.
#[verifier::external_type_specification]
#[verifier::external_body]
pub struct ExTestRng(TestRng);

/// Draws an integer from `lo..=hi` with `rand::Rng::random_range`.
///
/// `random_range` panics on an empty range, which `lo <= hi` rules out, and
/// returns a value of the range it was given. Nothing else is claimed of the
/// value drawn.
#[verifier::external_body]
pub(crate) fn draw_in_range(rng: &mut TestRng, lo: u64, hi: u64) -> (drawn: u64)
    requires
        lo <= hi,
    ensures
        lo <= drawn <= hi,
{
    rng.random_range(lo..=hi)
}

/// Draws a 32-bit integer from `lo..=hi`.
pub(crate) fn draw_u32(rng: &mut TestRng, lo: u32, hi: u32) -> (drawn: u32)
    requires
        lo <= hi,
    ensures
        lo <= drawn <= hi,
{
    draw_in_range(rng, lo as u64, hi as u64) as u32
}

/// Draws an index below `bound`, each with the same chance.
pub fn draw_index(rng: &mut TestRng, bound: usize) -> (index: usize)
    requires
        0 < bound,
    ensures
        index < bound,
{
    let hi: u64 = (bound - 1) as u64;
    draw_in_range(rng, 0, hi) as usize
}

/// Draws a number of items from `min..=max`.
pub fn draw_count(rng: &mut TestRng, min: usize, max: usize) -> (count: usize)
    requires
        min <= max,
    ensures
        min <= count <= max,
{
    draw_in_range(rng, min as u64, max as u64) as usize
}

/// Draws `true` or `false` with the same chance.
pub(crate) fn draw_bool(rng: &mut TestRng) -> bool {
    draw_in_range(rng, 0, 1) == 1
}

/// Draws any byte.
pub(crate) fn draw_u8(rng: &mut TestRng) -> u8 {
    draw_in_range(rng, 0, 0xFF) as u8
}

/// Draws any 16-bit value.
pub(crate) fn draw_u16(rng: &mut TestRng) -> u16 {
    draw_in_range(rng, 0, 0xFFFF) as u16
}

/// The sum of the weights.
pub open spec fn total_weight(weights: Seq<u32>) -> nat
    decreases weights.len(),
{
    if weights.len() == 0 {
        0
    } else {
        total_weight(weights.drop_last()) + weights.last() as nat
    }
}

/// The alternative that `roll` falls on, when the alternatives lie side by
/// side on a line, each as long as its weight: the one at `index` reaches from
/// the sum of the weights before it up to, not including, that sum plus its
/// own weight.
pub open spec fn falls_on(weights: Seq<u32>, roll: nat, index: int) -> bool {
    &&& 0 <= index < weights.len()
    &&& total_weight(weights.take(index)) <= roll < total_weight(weights.take(index + 1))
}

/// The weights before an alternative never sum to more than all of them.
pub proof fn lemma_total_weight_take(weights: Seq<u32>, n: int)
    requires
        0 <= n <= weights.len(),
    ensures
        total_weight(weights.take(n)) <= total_weight(weights),
        n < weights.len() ==> total_weight(weights.take(n + 1)) == total_weight(weights.take(n))
            + weights[n],
    decreases weights.len() - n,
{
    if n < weights.len() {
        assert(weights.take(n + 1).drop_last() =~= weights.take(n));
        lemma_total_weight_take(weights, n + 1);
    } else {
        assert(weights.take(n) =~= weights);
    }
}

/// The alternative that `roll` falls on. An alternative of weight zero is
/// never the one.
pub fn weighted_index(weights: &Vec<u32>, roll: u32) -> (index: usize)
    requires
        roll < total_weight(weights@),
    ensures
        falls_on(weights@, roll as nat, index as int),
        weights[index as int] > 0,
{
    let mut index: usize = 0;
    let mut below: u64 = 0;
    proof {
        assert(weights@.take(0) =~= Seq::<u32>::empty());
    }
    loop
        invariant
            index < weights.len(),
            below == total_weight(weights@.take(index as int)),
            below <= roll,
            roll < total_weight(weights@),
        decreases weights.len() - index,
    {
        proof {
            lemma_total_weight_take(weights@, index as int);
        }
        let reach: u64 = below + weights[index] as u64;
        if (roll as u64) < reach {
            return index;
        }
        proof {
            if index + 1 == weights.len() {
                assert(weights@.take(index + 1) =~= weights@);
            }
        }
        below = reach;
        index = index + 1;
    }
}

/// Draws an alternative, each with a chance in proportion to its weight.
pub fn draw_weighted(rng: &mut TestRng, weights: &Vec<u32>) -> (index: usize)
    requires
        0 < total_weight(weights@) <= u32::MAX,
    ensures
        index < weights.len(),
        weights[index as int] > 0,
{
    let mut total: u32 = 0;
    let mut i: usize = 0;
    proof {
        assert(weights@.take(0) =~= Seq::<u32>::empty());
    }
    while i < weights.len()
        invariant
            i <= weights.len(),
            total == total_weight(weights@.take(i as int)),
            total_weight(weights@) <= u32::MAX,
        decreases weights.len() - i,
    {
        proof {
            lemma_total_weight_take(weights@, i as int);
            lemma_total_weight_take(weights@, i + 1);
        }
        total = total + weights[i];
        i = i + 1;
    }
    proof {
        assert(weights@.take(weights.len() as int) =~= weights@);
    }
    let roll: u32 = draw_u32(rng, 0, total - 1);
    weighted_index(weights, roll)
}

} // verus!
