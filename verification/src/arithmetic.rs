//! Integer square roots, and the facts about squares that the closed forms
//! of the map's layout rest on.

use vstd::prelude::*;

verus! {

/// Squaring keeps the order of numbers that are not negative.
pub proof fn lemma_square_monotonic(a: int, b: int)
    by (nonlinear_arith)
    requires
        0 <= a <= b,
    ensures
        a * a <= b * b,
{
}

/// A number that is not negative is the square root, rounded down, of its
/// square only.
pub proof fn lemma_square_root_unique(root: int, other: int)
    by (nonlinear_arith)
    requires
        0 <= root,
        0 <= other,
        root * root <= other * other < (root + 1) * (root + 1),
    ensures
        root == other,
{
}

/// The square root of `n`, rounded down.
pub fn integer_square_root(n: u32) -> (root: u32)
    ensures
        root * root <= n < (root + 1) * (root + 1),
{
    let mut low: u32 = 0;
    let mut high: u32 = 65536;
    while high - low > 1
        invariant
            low < high <= 65536,
            low * low <= n < high * high,
        decreases high - low,
    {
        let middle: u32 = low + (high - low) / 2;
        assert(middle * middle <= 65536 * 65536) by (nonlinear_arith)
            requires
                0 <= middle <= 65536,
        ;
        let square: u64 = middle as u64 * middle as u64;
        if square <= n as u64 {
            low = middle;
        } else {
            high = middle;
        }
    }
    low
}

} // verus!
