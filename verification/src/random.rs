//! The random draws that the generators consume.
//!
//! A generator is handed in by the caller and every draw is made on it, so
//! a seeded generator gives the same draws again.

use vstd::prelude::*;
use rand::Rng;
use rand::rngs::StdRng;
use rand::seq::SliceRandom;
use crate::cell::Cell;
use crate::terrain::SlopeDirection;
use crate::unit::{is_unit_fraction, UNIT};

verus! {

/// The generator `rand::rngs::StdRng`.  Nothing is seen of its state.
#[verifier::external_type_specification]
#[verifier::external_body]
pub struct ExStdRng(rand::rngs::StdRng);

/// Calls `rand::Rng::gen_range` on two `i64` ends.  It samples the half-open
/// range from `low` to `high` and panics where that range is empty; the only
/// thing claimed of the outcome is that it lies in the range.
#[verifier::external_body]
fn gen_range(rng: &mut StdRng, low: i64, high: i64) -> (r: i64)
    requires
        low < high,
    ensures
        low <= r < high,
{
    rng.gen_range(low, high)
}

/// Calls `rand::seq::SliceRandom::choose` on a list.  It gives none for an
/// empty list and otherwise one of the list's items, picked at random.
#[verifier::external_body]
fn pick<T: Copy>(options: &Vec<T>, rng: &mut StdRng) -> (r: Option<T>)
    ensures
        r is None <==> options@.len() == 0,
        r matches Some(item) ==> options@.contains(item),
{
    options.choose(rng).copied()
}

/// Picks one of the given slope directions at random.
pub fn choose_slope(options: &Vec<SlopeDirection>, rng: &mut StdRng) -> (d: SlopeDirection)
    requires
        options@.len() > 0,
    ensures
        options@.contains(d),
{
    match pick(options, rng) {
        Some(d) => d,
        None => options[0],
    }
}

/// Picks one of the given cells at random.
pub fn choose_cell(options: &Vec<Cell>, rng: &mut StdRng) -> (c: Cell)
    requires
        options@.len() > 0,
    ensures
        options@.contains(c),
{
    match pick(options, rng) {
        Some(c) => c,
        None => options[0],
    }
}

/// Calls `rand::Rng::gen` for a `bool`: a coin is tossed, and nothing is
/// claimed of how it falls.
#[verifier::external_body]
pub(crate) fn toss(rng: &mut StdRng) -> bool {
    rng.gen()
}

/// Draws an integer between `low` and `high`, both included.
pub fn draw_between(rng: &mut StdRng, low: i64, high: i64) -> (r: i64)
    requires
        low <= high < i64::MAX,
    ensures
        low <= r <= high,
{
    gen_range(rng, low, high + 1)
}

/// Draws a fraction between zero and one, both included.
pub fn draw_fraction(rng: &mut StdRng) -> (t: i64)
    ensures
        is_unit_fraction(t as int),
{
    gen_range(rng, 0, UNIT + 1)
}

} // verus!
