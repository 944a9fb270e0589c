//! Drawing new problems from the thread-local generator of `rand`.

use vstd::prelude::*;
use rand::Rng;
use crate::session::{Draw, Slot};

verus! {

/// Relies on `rand::thread_rng` and `Rng::gen_range`: a value drawn from
/// `lo..hi`. `gen_range` panics on an empty range, hence `lo < hi`.
#[verifier::external_body]
fn draw_in(lo: u32, hi: u32) -> (r: u32)
    requires
        lo < hi,
    ensures
        lo <= r < hi,
{
    rand::thread_rng().gen_range(lo..hi)
}

/// Relies on `rand::random::<bool>`: a fair coin. Nothing is promised of
/// the outcome.
#[verifier::external_body]
fn fair_coin() -> (r: bool) {
    rand::random::<bool>()
}

/// Draws the numbers of a new problem: a multiplier in 2..=10, a numerator
/// and a denominator in 1..=12, which side is the base, and the hidden slot.
pub fn random_draw() -> (d: Draw)
    ensures
        d.valid(),
{
    let multiplier = draw_in(2, 11);
    let num = draw_in(1, 13);
    let den = draw_in(1, 13);
    let a_is_base = fair_coin();
    let slot = draw_in(0, 4);
    let hidden = if slot == 0 {
        Slot::NumA
    } else if slot == 1 {
        Slot::DenA
    } else if slot == 2 {
        Slot::NumB
    } else {
        Slot::DenB
    };
    Draw { multiplier, num, den, a_is_base, hidden }
}

} // verus!
