//! Work handed out to a thread pool.

use rayon::iter::{IntoParallelIterator, ParallelIterator};
use vstd::prelude::*;

verus! {

/// Calls `f` on `0..n` through rayon's parallel iterators.
///
/// Trusted: `(0..n).into_par_iter().map(f).collect::<Vec<_>>()` calls `f` once on each index and
/// returns the results in index order, whatever thread computed them.
#[verifier::external_body]
pub(crate) fn par_map<T: Send, F: Fn(usize) -> T + Sync + Send>(n: usize, f: F) -> (out: Vec<T>)
    requires
        forall|i: usize| i < n ==> call_requires(f, (i,)),
    ensures
        out@.len() == n,
        forall|i: usize| i < n ==> call_ensures(f, (i,), #[trigger] out@[i as int]),
{
    (0..n).into_par_iter().map(f).collect()
}

} // verus!
