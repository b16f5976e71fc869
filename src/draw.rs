//! The integer draws that the destroyers make from the shared generator.
use vstd::prelude::*;

use rand::rngs::StdRng;

use crate::colors::Rgb;
use crate::patterns::{property_values, value_count, Property};

verus! {

#[verifier::external_type_specification]
#[verifier::external_body]
pub struct ExStdRng(rand::rngs::StdRng);

/// Relies on rand's `Rng::gen_range` over `0..n`: a value below `n`. It
/// panics on an empty range, which `n > 0` rules out.
#[verifier::external_body]
fn gen_below(rng: &mut StdRng, n: usize) -> (r: usize)
    requires
        n > 0,
    ensures
        r < n,
{
    rand::Rng::gen_range(rng, 0..n)
}

/// Relies on rand's `Rng::gen_range` over `0..=255` on `u8`: a channel
/// drawn from the whole range, with the same draws on every platform. The
/// range is never empty, so it does not panic; every `u8` may come back.
#[verifier::external_body]
fn random_channel(rng: &mut StdRng) -> (c: u8) {
    rand::Rng::gen_range(rng, 0..=255u8)
}

/// A colour whose three channels are drawn uniformly, red first.
pub fn random_rgb(rng: &mut StdRng) -> (c: Rgb)
    ensures
        c.r <= 255 && c.g <= 255 && c.b <= 255,
{
    let r = random_channel(rng);
    let g = random_channel(rng);
    let b = random_channel(rng);
    Rgb { r, g, b }
}

/// The index of a keyword of `p`, drawn uniformly from its whole table; it
/// may be the one already in place.
pub fn pick_keyword(rng: &mut StdRng, p: Property) -> (j: usize)
    ensures
        j < property_values(p).len(),
{
    gen_below(rng, value_count(p))
}

} // verus!
