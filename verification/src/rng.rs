//! The random source: the calling thread's generator.
//!
//! The generator is seeded from the operating system at its first use in a
//! thread and again from time to time. Where the operating system has no
//! entropy to give, that panics; no argument decides it and no `requires`
//! can rule it out.

use rand::Rng;
use vstd::prelude::*;

verus! {

/// Calls `rand::Rng::gen_range` on `rand::thread_rng()` with the inclusive
/// range `lo..=hi`. The call panics on an empty range, which `requires` rules
/// out, and where the operating system fails to seed the generator, which
/// nothing rules out; the sampled integer lies in the range.
#[verifier::external_body]
pub(crate) fn raw_between(lo: i64, hi: i64) -> (r: i64)
    requires
        lo <= hi,
    ensures
        lo <= r <= hi,
{
    rand::thread_rng().gen_range(lo..=hi)
}

/// Calls `rand::random::<u32>()`: any 32-bit word may come back. The call
/// panics where the operating system fails to seed the generator.
#[verifier::external_body]
pub(crate) fn random_word() -> (r: u32) {
    rand::random::<u32>()
}

} // verus!
