use vstd::prelude::*;

verus! {

/// Relies on rand::random: sixteen bytes drawn from the thread-local
/// generator. Nothing is promised of the values.
#[verifier::external_body]
pub(crate) fn random_bytes_16() -> (r: [u8; 16]) {
    rand::random()
}

/// Relies on rand::random_range over `0..n`: the draw lies in the range.
/// The call panics on an empty range, which the requires rules out.
#[verifier::external_body]
pub(crate) fn random_below(n: usize) -> (r: usize)
    requires
        n >= 1,
    ensures
        r < n,
{
    rand::random_range(0..n)
}

/// Relies on rand::random_range over `lo..hi`: the draw lies in the range.
/// The call panics on an empty range, which the requires rules out.
#[verifier::external_body]
pub(crate) fn random_i64_between(lo: i64, hi: i64) -> (r: i64)
    requires
        lo < hi,
    ensures
        lo <= r < hi,
{
    rand::random_range(lo..hi)
}

} // verus!
