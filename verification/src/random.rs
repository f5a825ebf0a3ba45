use vstd::prelude::*;

verus! {

/// Relies on rand::random_range: a uniformly distributed value in the
/// half-open range, which panics only when the range is empty. Nothing more
/// than membership in the range can be promised of a random draw.
#[verifier::external_body]
fn sample_i64(lo: i64, hi: i64) -> (r: i64)
    requires
        lo < hi,
    ensures
        lo <= r < hi,
{
    rand::random_range(lo..hi)
}

/// A vector of `n` independent draws from the half-open range `[lo, hi)`.
pub fn rand_array(n: usize, lo: i64, hi: i64) -> (r: Vec<i64>)
    requires
        lo < hi,
    ensures
        r@.len() == n,
        forall|i: int| 0 <= i < n ==> lo <= #[trigger] r@[i] < hi,
{
    let mut out: Vec<i64> = Vec::new();
    let mut i: usize = 0;
    while i < n
        invariant
            lo < hi,
            i <= n,
            out@.len() == i,
            forall|j: int| 0 <= j < i ==> lo <= #[trigger] out@[j] < hi,
        decreases n - i,
    {
        out.push(sample_i64(lo, hi));
        i += 1;
    }
    out
}

} // verus!
