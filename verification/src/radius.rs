//! The radius of a hexagonal map and the number of tiles that it holds.

use crate::arithmetic::{integer_square_root, lemma_square_monotonic, lemma_square_root_unique};
use vstd::prelude::*;

verus! {

/// The number of tiles of a hexagonal map of the given radius: the centered
/// hexagonal number `3 radius^2 + 3 radius + 1`.
pub open spec fn tile_amount(radius: int) -> int {
    3 * radius * radius + 3 * radius + 1
}

/// Whether a map of some radius from 0 to 255 holds exactly `amount` tiles.
pub open spec fn is_tile_amount(amount: int) -> bool {
    exists|radius: int| 0 <= radius <= 255 && #[trigger] tile_amount(radius) == amount
}

/// A larger map holds more tiles.
pub proof fn lemma_tile_amount_increases(smaller: int, larger: int)
    by (nonlinear_arith)
    requires
        0 <= smaller < larger,
    ensures
        tile_amount(smaller) < tile_amount(larger),
{
}

/// No map of a radius up to 255 holds more than 195841 tiles.
pub proof fn lemma_tile_amount_bound(radius: int)
    requires
        0 <= radius <= 255,
    ensures
        1 <= tile_amount(radius) <= 195841,
{
    assert(tile_amount(0) == 1);
    assert(tile_amount(255) == 195841);
    if radius > 0 {
        lemma_tile_amount_increases(0, radius);
    }
    if radius < 255 {
        lemma_tile_amount_increases(radius, 255);
    }
}

/// The number of tiles determines the radius.
pub proof fn lemma_tile_amount_determines_radius(first: int, second: int)
    requires
        0 <= first,
        0 <= second,
        tile_amount(first) == tile_amount(second),
    ensures
        first == second,
{
    if first < second {
        lemma_tile_amount_increases(first, second);
    }
    if second < first {
        lemma_tile_amount_increases(second, first);
    }
}

/// Twelve times a centered hexagonal number is three more than a square.
proof fn lemma_tile_amount_square(radius: int)
    by (nonlinear_arith)
    ensures
        12 * tile_amount(radius) - 3 == (6 * radius + 3) * (6 * radius + 3),
{
}

/// The number of tiles that was refused: no hexagonal map of a radius from
/// 0 to 255 holds exactly that many.
#[derive(Copy, Clone, Debug, PartialEq, Eq, Structural, Hash)]
pub struct InvalidTileAmount(pub usize);

/// The radius of a hexagonal map: the number of rings of tiles around the
/// tile in its middle.
#[derive(Copy, Clone, Debug, PartialEq, Eq, Structural, Hash)]
pub struct Radius(pub u8);

impl Radius {
    pub fn new(rings: u8) -> (result: Self)
        ensures
            result.0 == rings,
    {
        Radius(rings)
    }

    /// The radius of the map that holds exactly `tile_count` tiles.
    ///
    /// Fails if there is no such map of a radius from 0 to 255.
    pub fn try_from(tile_count: usize) -> (result: Result<Radius, InvalidTileAmount>)
        ensures
            match result {
                Ok(radius) => tile_amount(radius.0 as int) == tile_count,
                Err(error) => error == InvalidTileAmount(tile_count) && !is_tile_amount(
                    tile_count as int,
                ),
            },
    {
        if tile_count == 0 || tile_count > 195841 {
            proof {
                assert forall|radius: int| 0 <= radius <= 255 implies #[trigger] tile_amount(radius)
                    != tile_count by {
                    lemma_tile_amount_bound(radius);
                }
            }
            return Err(InvalidTileAmount(tile_count));
        }
        let square: u32 = 12 * (tile_count as u32) - 3;
        let root: u32 = integer_square_root(square);
        proof {
            if root >= 1534 {
                lemma_square_monotonic(1534, root as int);
            }
        }
        if root * root == square && root >= 3 && (root - 3) % 6 == 0 {
            let rings: u32 = (root - 3) / 6;
            proof {
                lemma_tile_amount_square(rings as int);
                assert(tile_amount(rings as int) == tile_count);
            }
            Ok(Radius(rings as u8))
        } else {
            proof {
                assert forall|radius: int| 0 <= radius <= 255 implies #[trigger] tile_amount(radius)
                    != tile_count by {
                    if tile_amount(radius) == tile_count {
                        lemma_tile_amount_square(radius);
                        lemma_square_root_unique(root as int, 6 * radius + 3);
                    }
                }
            }
            Err(InvalidTileAmount(tile_count))
        }
    }

    /// The number of tiles of a map of this radius.
    pub fn into_tile_amount(self) -> (result: usize)
        ensures
            result == tile_amount(self.0 as int),
    {
        let rings: u32 = self.0 as u32;
        assert(3 * rings * rings == 3 * (rings * rings)) by (nonlinear_arith);
        assert(rings * rings <= 65025) by (nonlinear_arith)
            requires
                0 <= rings <= 255,
        ;
        (3 * (rings * rings) + 3 * rings + 1) as usize
    }
}

impl From<u8> for Radius {
    fn from(rings: u8) -> (result: Radius) {
        Radius(rings)
    }
}

impl vstd::std_specs::convert::FromSpecImpl<u8> for Radius {
    open spec fn obeys_from_spec() -> bool {
        true
    }

    open spec fn from_spec(rings: u8) -> Radius {
        Radius(rings)
    }
}

} // verus!
