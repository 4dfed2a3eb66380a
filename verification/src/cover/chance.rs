//! Random draws for the activity modules.
use vstd::prelude::*;

verus! {

/// `rand::random_range` on `lo..hi`: a value drawn from the thread's generator,
/// uniformly from the range; it panics on an empty range, which `requires`
/// rules out.
#[verifier::external_body]
pub(crate) fn random_in(lo: u64, hi: u64) -> (r: u64)
    requires
        lo < hi,
    ensures
        lo <= r < hi,
{
    rand::random_range(lo..hi)
}

/// `rand::random_ratio(1, d)`: true with a chance of one in `d`; certainly true
/// for `d == 1`. It panics for `d == 0`, which `requires` rules out.
#[verifier::external_body]
pub(crate) fn one_chance_in(d: u32) -> (b: bool)
    requires
        d > 0,
    ensures
        d == 1 ==> b,
{
    rand::random_ratio(1, d)
}

} // verus!
