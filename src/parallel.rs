//! Data-parallel evaluation over a range of indices.
use rayon::iter::{IndexedParallelIterator, IntoParallelIterator, ParallelIterator};
use vstd::prelude::*;

verus! {

/// Relies on rayon's `into_par_iter` over a `Range<usize>`, `map` and
/// `collect_into_vec`: `f` is called once for each index of `lo..hi`, on any
/// worker, and the results are collected in index order.
#[verifier::external_body]
pub(crate) fn par_map_range<T, C>(lo: usize, hi: usize, f: C) -> (r: Vec<T>)
    where T: Send, C: Fn(usize) -> T + Send + Sync,
    requires
        lo <= hi,
        forall|j: usize| lo <= j < hi ==> f.requires((j,)),
    ensures
        r.len() == hi - lo,
        forall|i: int| 0 <= i < r.len() ==> f.ensures(((lo + i) as usize,), #[trigger] r[i]),
{
    let mut r = Vec::new();
    (lo..hi).into_par_iter().map(f).collect_into_vec(&mut r);
    r
}

} // verus!
