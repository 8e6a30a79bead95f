//! Ranking of graded individuals by fitness.
//!
//! A fitness is carried as the bit pattern of an IEEE-754 single-precision
//! value. Ranking uses the total order of those values (the order of
//! `f32::total_cmp`), so that every bit pattern, NaN included, has a place.
use rayon::slice::ParallelSliceMut;
use std::cmp::Ordering;
use vstd::prelude::*;

use crate::population::{GradedIndividual, Individual};

verus! {

/// The integer key whose order is the total order of the float with bit
/// pattern `bits`: non-negative values keep their bits, negative values have
/// their magnitude bits reversed below zero.
pub open spec fn rank_key(bits: u32) -> int {
    if bits < 0x8000_0000 {
        bits as int
    } else {
        0x7fff_ffff - bits as int
    }
}

/// Every entry ranks at least as high as every entry after it.
pub open spec fn sorted_by_rank<I>(s: Seq<GradedIndividual<I>>) -> bool
    where I: Individual + Send + Sync,
{
    forall|i: int, j: int| 0 <= i < j < s.len() ==> rank_key(s[i].fitness) >= rank_key(s[j].fitness)
}

/// The executable form of `rank_key`.
pub fn fitness_key(bits: u32) -> (r: i32)
    ensures
        r as int == rank_key(bits),
{
    if bits < 0x8000_0000 {
        bits as i32
    } else {
        (0x7fff_ffffi64 - bits as i64) as i32
    }
}

/// The order in which two graded individuals stand in a population: the one
/// with the higher fitness first.
pub fn rank_cmp<I>(a: &GradedIndividual<I>, b: &GradedIndividual<I>) -> (r: Ordering)
    where I: Individual + Send + Sync,
    ensures
        (r == Ordering::Less) <==> rank_key(a.fitness) > rank_key(b.fitness),
        (r == Ordering::Greater) <==> rank_key(a.fitness) < rank_key(b.fitness),
        (r == Ordering::Equal) <==> rank_key(a.fitness) == rank_key(b.fitness),
{
    let ka = fitness_key(a.fitness);
    let kb = fitness_key(b.fitness);
    if ka > kb {
        Ordering::Less
    } else if ka < kb {
        Ordering::Greater
    } else {
        Ordering::Equal
    }
}

/// Relies on rayon's `ParallelSliceMut::par_sort_by`: it sorts the slice in
/// place, as a permutation of its entries, ascending under the comparator;
/// `rank_cmp` is a total order that puts the higher fitness first.
#[verifier::external_body]
pub(crate) fn sort_by_rank<I>(v: &mut Vec<GradedIndividual<I>>)
    where I: Individual + Send + Sync,
    ensures
        final(v)@.to_multiset() == old(v)@.to_multiset(),
        sorted_by_rank(final(v)@),
{
    v.par_sort_by(|a, b| rank_cmp(a, b));
}

} // verus!
