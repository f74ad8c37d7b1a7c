use vstd::prelude::*;

verus! {

/// Relies on rand::Rng::gen_range: called on the range `0..n`, it returns a
/// value drawn from that range, so the result is strictly below `n`. The
/// call panics on an empty range, which `requires` rules out. The value
/// drawn depends on a thread-local generator, so nothing more than the
/// bound is promised of it.
#[verifier::external_body]
pub(crate) fn random_below(n: usize) -> (r: usize)
    requires
        n > 0,
    ensures
        r < n,
{
    rand::Rng::gen_range(&mut rand::thread_rng(), 0..n)
}

} // verus!
