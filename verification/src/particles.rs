//! The random numbers break particles scatter with: a xorshift generator
//! whose state the caller keeps. Turning a draw into a fraction is floating
//! point and happens beside the renderer.

use vstd::prelude::*;

verus! {

/// The state a fresh (zero) generator starts from.
pub const XORSHIFT_SEED: u32 = 0x9E37_79B9;

/// The generator's next state: a zero state is first replaced by
/// `XORSHIFT_SEED`, then the three xorshift steps `<< 13`, `>> 17`, `<< 5`.
pub open spec fn spec_xorshift(state: u32) -> u32 {
    let x0 = if state == 0 { XORSHIFT_SEED } else { state };
    let x1 = x0 ^ (x0 << 13u32);
    let x2 = x1 ^ (x1 >> 17u32);
    x2 ^ (x2 << 5u32)
}

/// Advance the generator in `state` and return the new state, which is also
/// the draw.
pub fn xorshift(state: &mut u32) -> (r: u32)
    ensures
        r == spec_xorshift(*old(state)),
        *final(state) == r,
{
    if *state == 0 {
        *state = XORSHIFT_SEED;
    }
    let mut x = *state;
    x = x ^ (x << 13);
    x = x ^ (x >> 17);
    x = x ^ (x << 5);
    *state = x;
    x
}

} // verus!
