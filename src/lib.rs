//! A perturbation engine for stylesheets: it finds colour literals, size
//! literals, layout keywords, overflow declarations and rule blocks in a
//! document's text, and writes perturbed values back in their place.
//!
//! The scanners and rewriters here are exact: each is stated over spec
//! functions of the fixed pattern it matches and of the text it writes.
//! Values that come from floating-point noise are computed by the caller and
//! handed in as plain integers; whole-range draws go through `draw`.
use vstd::prelude::*;

pub mod colors;
pub mod draw;
pub mod layout;
pub mod overflow;
pub mod patterns;
pub mod sizes;
pub mod text;

verus! {

/// Levels above this threshold switch colour and size destruction to
/// full-range randomisation and turn on overflow forcing.
pub const RANDOM_LEVEL_THRESHOLD: u32 = 5;

/// Whether `level` puts the engine in random mode.
pub fn use_random(level: u32) -> (r: bool)
    ensures
        r == (level > 5),
{
    level > RANDOM_LEVEL_THRESHOLD
}

} // verus!
