use rand::rngs::StdRng;
use rand::{Rng, SeedableRng};
use vstd::prelude::*;

verus! {

/// The seeded generator of the `rand` crate; its state is opaque here.
#[verifier::external_type_specification]
#[verifier::external_body]
pub struct ExStdRng(rand::rngs::StdRng);

/// `StdRng::from_rng(OsRng)`: a generator seeded from the operating
/// system's entropy, or `None` when the operating system gives none
/// (`try_fill_bytes` reports the failure instead of panicking). Nothing is
/// claimed of the state.
#[verifier::external_body]
fn rng_from_os() -> Option<StdRng> {
    StdRng::from_rng(rand::rngs::OsRng).ok()
}

/// A generator seeded from the operating system, or, when it has no
/// entropy to give, from `fallback_seed` (see `rng_from_seed`).
pub fn fresh_rng(fallback_seed: u64) -> StdRng {
    match rng_from_os() {
        Some(r) => r,
        None => rng_from_seed(fallback_seed),
    }
}

/// `StdRng::seed_from_u64`: a generator whose sequence is fixed by `seed`.
/// The state is opaque, so nothing is claimed of it here.
#[verifier::external_body]
pub fn rng_from_seed(seed: u64) -> StdRng {
    StdRng::seed_from_u64(seed)
}

/// `Rng::gen_range` on a half-open `u16` range: a value in `lo..hi`. The
/// crate panics on an empty range, which `requires` leaves out.
#[verifier::external_body]
pub fn gen_range_u16(rng: &mut StdRng, lo: u16, hi: u16) -> (r: u16)
    requires
        lo < hi,
    ensures
        lo <= r < hi,
{
    rng.gen_range(lo..hi)
}

/// `Rng::gen_range` on a half-open `usize` range: a value in `lo..hi`. The
/// crate panics on an empty range, which `requires` leaves out.
#[verifier::external_body]
pub fn gen_range_usize(rng: &mut StdRng, lo: usize, hi: usize) -> (r: usize)
    requires
        lo < hi,
    ensures
        lo <= r < hi,
{
    rng.gen_range(lo..hi)
}

/// `Rng::gen_range` on a half-open `u32` range: a value in `lo..hi`. The
/// crate panics on an empty range, which `requires` leaves out.
#[verifier::external_body]
pub fn gen_range_u32(rng: &mut StdRng, lo: u32, hi: u32) -> (r: u32)
    requires
        lo < hi,
    ensures
        lo <= r < hi,
{
    rng.gen_range(lo..hi)
}

/// `Rng::gen_ratio`: `true` with probability `numerator / denominator`. The
/// crate panics when the denominator is 0 or smaller than the numerator; a
/// ratio of 0 never gives `true` and a ratio of 1 always does.
#[verifier::external_body]
pub fn gen_ratio(rng: &mut StdRng, numerator: u32, denominator: u32) -> (r: bool)
    requires
        0 < denominator,
        numerator <= denominator,
    ensures
        numerator == 0 ==> !r,
        numerator == denominator ==> r,
{
    rng.gen_ratio(numerator, denominator)
}

} // verus!
