//! The order in which a hexagonal map stores its tiles.
//!
//! The tiles are stored row by row, the row with the largest `r` first. A
//! row below the middle row (`r > 0`) is stored from its leftmost tile to
//! its rightmost, the middle row and the rows above it from the rightmost
//! tile to the leftmost. [`index_of`] and [`coordinates_of`] say where a
//! tile is stored and which tile is stored where;
//! [`coordinates_to_index`] and [`index_to_coordinates`] compute both in
//! constant time.

use crate::arithmetic::{integer_square_root, lemma_square_monotonic};
use crate::coordinates::{abs, hex_distance, AxialCoordinates};
use crate::radius::{lemma_tile_amount_bound, tile_amount, Radius};
use vstd::prelude::*;

verus! {

/// Whether the tile at `(q, r)` belongs to the map of the given radius.
pub open spec fn is_on_map(radius: int, q: int, r: int) -> bool {
    hex_distance(q, r) <= radius
}

/// The number of tiles in the row `r`.
pub open spec fn row_length(radius: int, r: int) -> int {
    2 * radius + 1 - abs(r)
}

/// The number of tiles that are stored before the first tile of the row
/// `r`: the tiles of the rows from `r + 1` to `radius`.
pub open spec fn tiles_before_row(radius: int, r: int) -> int
    decreases radius - r,
{
    if r >= radius {
        0
    } else {
        tiles_before_row(radius, r + 1) + row_length(radius, r + 1)
    }
}

/// The number of tiles that are stored before the tile at `(q, r)` in its
/// own row.
pub open spec fn offset_in_row(radius: int, q: int, r: int) -> int {
    if r > 0 {
        q + radius
    } else {
        radius - q
    }
}

/// Where the tile at `(q, r)` is stored.
pub open spec fn index_of(radius: int, q: int, r: int) -> int {
    tiles_before_row(radius, r) + offset_in_row(radius, q, r)
}

/// The row, and the place in that row, of the tile that is stored `index`
/// places after the first tile of the row `row`.
pub open spec fn row_of(radius: int, row: int, index: int) -> (int, int)
    decreases row + radius,
{
    if row <= -radius || index < row_length(radius, row) {
        (row, index)
    } else {
        row_of(radius, row - 1, index - row_length(radius, row))
    }
}

/// The coordinates of the tile that is stored at `index`.
pub open spec fn coordinates_of(radius: int, index: int) -> (int, int) {
    let (r, offset) = row_of(radius, radius, index);
    if r > 0 {
        (offset - radius, r)
    } else {
        (radius - offset, r)
    }
}

/// The number of tiles in the first `rows` rows of the map, where `rows` is
/// at most `radius`: `(radius + 1) + (radius + 2) + ... + (radius + rows)`.
pub open spec fn lower_rows_amount(radius: int, rows: int) -> int {
    rows * radius + rows * (rows + 1) / 2
}

/// The number of tiles in the first `rows` rows from the middle row on:
/// `(2 radius + 1) + 2 radius + ... + (2 radius + 2 - rows)`.
pub open spec fn upper_rows_amount(radius: int, rows: int) -> int {
    rows * (2 * radius + 2) - rows * (rows + 1) / 2
}

/// One more of the first rows adds a row of `radius + rows + 1` tiles.
proof fn lemma_lower_rows_step(radius: int, rows: int)
    ensures
        lower_rows_amount(radius, rows + 1) == lower_rows_amount(radius, rows) + radius + rows + 1,
{
    assert((rows + 1) * radius == rows * radius + radius) by (nonlinear_arith);
    assert((rows + 1) * (rows + 2) == rows * (rows + 1) + 2 * (rows + 1)) by (nonlinear_arith);
}

/// One more of the rows from the middle row on adds a row of
/// `2 radius + 1 - rows` tiles.
proof fn lemma_upper_rows_step(radius: int, rows: int)
    ensures
        upper_rows_amount(radius, rows + 1) == upper_rows_amount(radius, rows) + 2 * radius + 1
            - rows,
{
    assert((rows + 1) * (2 * radius + 2) == rows * (2 * radius + 2) + 2 * radius + 2)
        by (nonlinear_arith);
    assert((rows + 1) * (rows + 2) == rows * (rows + 1) + 2 * (rows + 1)) by (nonlinear_arith);
}

/// The closed form of [`tiles_before_row`]: the rows before the row `r` are
/// the first `radius - r` rows if `r` is not negative, and else the first
/// `radius` rows and `-r` rows from the middle row on.
pub proof fn lemma_tiles_before_row(radius: int, r: int)
    requires
        -radius <= r <= radius,
    ensures
        tiles_before_row(radius, r) == if r >= 0 {
            lower_rows_amount(radius, radius - r)
        } else {
            lower_rows_amount(radius, radius) + upper_rows_amount(radius, -r)
        },
    decreases radius - r,
{
    if r >= radius {
        assert(0 * radius == 0) by (nonlinear_arith);
    } else {
        lemma_tiles_before_row(radius, r + 1);
        if r >= 0 {
            lemma_lower_rows_step(radius, radius - r - 1);
        } else {
            lemma_upper_rows_step(radius, -r - 1);
            assert(upper_rows_amount(radius, 0) == 0) by (nonlinear_arith);
        }
    }
}

/// The tiles of the map of a given radius are those of its `radius` first
/// rows and of the `radius + 1` rows from the middle row on.
proof fn lemma_rows_amount(radius: int)
    ensures
        lower_rows_amount(radius, radius) + upper_rows_amount(radius, radius + 1) == tile_amount(
            radius,
        ),
{
    lemma_upper_rows_step(radius, radius);
    assert(radius * (2 * radius + 2) == 2 * (radius * radius) + 2 * radius) by (nonlinear_arith);
    assert(3 * radius * radius == 3 * (radius * radius)) by (nonlinear_arith);
}

/// A row further down is stored earlier: no more tiles come before it.
pub proof fn lemma_tiles_before_row_monotonic(radius: int, lower: int, upper: int)
    requires
        -radius <= upper <= lower <= radius,
    ensures
        tiles_before_row(radius, lower) <= tiles_before_row(radius, upper),
    decreases lower - upper,
{
    if upper < lower {
        lemma_tiles_before_row_monotonic(radius, lower, upper + 1);
    }
}

/// Every row ends before the map does.
pub proof fn lemma_row_ends_on_map(radius: int, r: int)
    requires
        -radius <= r <= radius,
    ensures
        0 <= tiles_before_row(radius, r),
        tiles_before_row(radius, r) + row_length(radius, r) <= tile_amount(radius),
    decreases r + radius,
{
    lemma_tiles_before_row_monotonic(radius, radius, r);
    if r == -radius {
        lemma_tiles_before_row(radius, r);
        lemma_rows_amount(radius);
        if radius == 0 {
            assert(upper_rows_amount(0, 0) == 0) by (nonlinear_arith);
        } else {
            lemma_upper_rows_step(radius, radius);
        }
    } else {
        lemma_row_ends_on_map(radius, r - 1);
    }
}

/// The number of tiles in the first `lower_rows` rows of the map.
fn tiles_lower_rows(radius: Radius, lower_rows: u32) -> (result: usize)
    requires
        lower_rows <= radius.0 + 1,
    ensures
        result == lower_rows_amount(radius.0 as int, lower_rows as int),
{
    let radius: u32 = radius.0 as u32;
    assert(lower_rows * radius <= 256 * 255) by (nonlinear_arith)
        requires
            0 <= lower_rows <= 256,
            0 <= radius <= 255,
    ;
    assert(lower_rows * (lower_rows + 1) <= 256 * 257) by (nonlinear_arith)
        requires
            0 <= lower_rows <= 256,
    ;
    let tiles_lower_rows: u32 = lower_rows * radius + lower_rows * (lower_rows + 1) / 2;
    tiles_lower_rows as usize
}

/// The number of tiles in the first `upper_rows` rows from the middle row
/// on.
fn tiles_upper_rows(radius: Radius, upper_rows: u32) -> (result: usize)
    requires
        upper_rows <= radius.0 + 1,
    ensures
        result == upper_rows_amount(radius.0 as int, upper_rows as int),
{
    let radius: u32 = radius.0 as u32;
    let diameter: u32 = 2 * radius + 1;
    assert(upper_rows * (diameter + 1) <= 256 * 512) by (nonlinear_arith)
        requires
            0 <= upper_rows <= 256,
            0 <= diameter + 1 <= 512,
    ;
    assert(upper_rows * (upper_rows + 1) <= 256 * 257) by (nonlinear_arith)
        requires
            0 <= upper_rows <= 256,
    ;
    assert(upper_rows * (upper_rows + 1) <= upper_rows * (diameter + 1)) by (nonlinear_arith)
        requires
            0 <= upper_rows,
            upper_rows + 1 <= diameter + 1,
    ;
    let tiles_upper_rows: u32 = upper_rows * (diameter + 1) - upper_rows * (upper_rows + 1) / 2;
    tiles_upper_rows as usize
}

/// The number of tiles that are stored before the first tile of the row `r`.
fn tiles_till_row(radius: Radius, r: i32) -> (result: usize)
    requires
        -radius.0 <= r <= radius.0,
    ensures
        result == tiles_before_row(radius.0 as int, r as int),
{
    let lower_rows: i32 = radius.0 as i32 - if r > 0 {
        r
    } else {
        0
    };
    let upper_rows: i32 = if r < 0 {
        -r
    } else {
        0
    };
    proof {
        lemma_tiles_before_row(radius.0 as int, r as int);
        assert(upper_rows_amount(radius.0 as int, 0) == 0) by (nonlinear_arith);
        lemma_row_ends_on_map(radius.0 as int, r as int);
        lemma_tile_amount_bound(radius.0 as int);
    }
    tiles_lower_rows(radius, lower_rows as u32) + tiles_upper_rows(radius, upper_rows as u32)
}

/// Where the tile at `coordinates` is stored in a map of the given radius.
///
/// The tile must belong to the map.
pub fn coordinates_to_index(radius: Radius, coordinates: AxialCoordinates) -> (index: usize)
    requires
        is_on_map(radius.0 as int, coordinates.q as int, coordinates.r as int),
    ensures
        index == index_of(radius.0 as int, coordinates.q as int, coordinates.r as int),
        index < tile_amount(radius.0 as int),
{
    let signed_radius: i32 = if coordinates.r() <= 0 {
        -(radius.0 as i32)
    } else {
        radius.0 as i32
    };
    let shifted: i32 = coordinates.q() + signed_radius;
    let normalized_offset: usize = if shifted < 0 {
        (-shifted) as usize
    } else {
        shifted as usize
    };
    proof {
        lemma_row_ends_on_map(radius.0 as int, coordinates.r as int);
        lemma_tile_amount_bound(radius.0 as int);
    }
    let current_row_start: usize = tiles_till_row(radius, coordinates.r());
    current_row_start + normalized_offset
}

/// The product of two successive numbers is even.
proof fn lemma_successive_product_even(n: int)
    requires
        0 <= n,
    ensures
        (n * (n + 1)) % 2 == 0,
    decreases n,
{
    if n == 0 {
        assert(0 * 1 == 0) by (nonlinear_arith);
    } else {
        lemma_successive_product_even(n - 1);
        assert(n * (n + 1) == (n - 1) * n + 2 * n) by (nonlinear_arith);
    }
}

/// Twice the number of tiles in the first `rows` rows.
proof fn lemma_twice_lower_rows(radius: int, rows: int)
    requires
        0 <= rows,
    ensures
        2 * lower_rows_amount(radius, rows) == rows * rows + rows * (2 * radius + 1),
{
    lemma_successive_product_even(rows);
    assert(rows * rows + rows * (2 * radius + 1) == 2 * (rows * radius) + rows * (rows + 1))
        by (nonlinear_arith);
}

/// Twice the number of tiles in the first `rows` rows from the middle row
/// on.
proof fn lemma_twice_upper_rows(radius: int, rows: int)
    requires
        0 <= rows,
    ensures
        2 * upper_rows_amount(radius, rows) == rows * (4 * radius + 3) - rows * rows,
{
    lemma_successive_product_even(rows);
    assert(rows * (4 * radius + 3) - rows * rows == 2 * (rows * (2 * radius + 2)) - rows * (rows
        + 1)) by (nonlinear_arith);
}

/// More of the first rows hold more tiles.
proof fn lemma_lower_rows_increase(radius: int, fewer: int, more: int)
    requires
        0 <= radius,
        0 <= fewer <= more,
    ensures
        lower_rows_amount(radius, fewer) <= lower_rows_amount(radius, more),
        fewer < more ==> lower_rows_amount(radius, fewer) < lower_rows_amount(radius, more),
    decreases more - fewer,
{
    if fewer < more {
        lemma_lower_rows_increase(radius, fewer, more - 1);
        lemma_lower_rows_step(radius, more - 1);
    }
}

/// More of the rows from the middle row on hold more tiles, as long as
/// the rows are on the map.
proof fn lemma_upper_rows_increase(radius: int, fewer: int, more: int)
    requires
        0 <= radius,
        0 <= fewer <= more <= radius + 1,
    ensures
        upper_rows_amount(radius, fewer) <= upper_rows_amount(radius, more),
    decreases more - fewer,
{
    if fewer < more {
        lemma_upper_rows_increase(radius, fewer, more - 1);
        lemma_upper_rows_step(radius, more - 1);
    }
}

/// If `2 rows + width` is at most the square root of `width^2 + 8 tiles`,
/// then `rows^2 + rows width` is at most `2 tiles`.
proof fn lemma_root_above(rows: int, width: int, root: int, tiles: int)
    by (nonlinear_arith)
    requires
        0 <= rows,
        0 <= width,
        2 * rows + width <= root,
        root * root <= width * width + 8 * tiles,
    ensures
        rows * rows + rows * width <= 2 * tiles,
{
    assert((2 * rows + width) * (2 * rows + width) <= root * root);
    assert((2 * rows + width) * (2 * rows + width) == 4 * (rows * rows) + 4 * (rows * width)
        + width * width);
}

/// If the square root of `width^2 + 8 tiles`, rounded down, is less than
/// `2 (rows + 1) + width`, then `2 tiles` is less than
/// `(rows + 1)^2 + (rows + 1) width`.
proof fn lemma_root_below(rows: int, width: int, root: int, tiles: int)
    by (nonlinear_arith)
    requires
        0 <= rows,
        0 <= width,
        0 <= root <= 2 * rows + width + 1,
        width * width + 8 * tiles < (root + 1) * (root + 1),
    ensures
        2 * tiles < (rows + 1) * (rows + 1) + (rows + 1) * width,
{
    assert((root + 1) * (root + 1) <= (2 * rows + width + 2) * (2 * rows + width + 2));
    assert((2 * rows + width + 2) * (2 * rows + width + 2) == 4 * ((rows + 1) * (rows + 1)) + 4 * ((
    rows + 1) * width) + width * width);
}

/// If the square root of `width^2 - 8 tiles`, rounded up, is at most
/// `width - 2 rows`, then `rows width - rows^2` is at most `2 tiles`.
proof fn lemma_gap_above(rows: int, width: int, root: int, tiles: int)
    by (nonlinear_arith)
    requires
        0 <= rows,
        0 <= root <= width - 2 * rows,
        width * width - 8 * tiles <= root * root,
    ensures
        rows * width - rows * rows <= 2 * tiles,
{
    assert(root * root <= (width - 2 * rows) * (width - 2 * rows));
    assert((width - 2 * rows) * (width - 2 * rows) == width * width - 4 * (rows * width) + 4 * (rows
        * rows));
}

/// If the square root of `width^2 - 8 tiles`, rounded up, is more than
/// `width - 2 (rows + 1)`, then `2 tiles` is less than
/// `(rows + 1) width - (rows + 1)^2`.
proof fn lemma_gap_below(rows: int, width: int, root: int, tiles: int)
    by (nonlinear_arith)
    requires
        0 <= rows,
        0 <= width - 2 * rows - 2 <= root - 1,
        (root - 1) * (root - 1) < width * width - 8 * tiles,
    ensures
        2 * tiles < (rows + 1) * width - (rows + 1) * (rows + 1),
{
    assert((width - 2 * rows - 2) * (width - 2 * rows - 2) <= (root - 1) * (root - 1));
    assert((width - 2 * rows - 2) * (width - 2 * rows - 2) == width * width - 4 * ((rows + 1)
        * width) + 4 * ((rows + 1) * (rows + 1)));
}

/// The number of whole rows, counted from the first, that `tiles` tiles
/// fill: the positive solution of `rows^2 + (2 radius + 1) rows = 2 tiles`,
/// rounded down.
fn filled_lower_rows(radius: Radius, tiles: usize) -> (rows: u32)
    requires
        tiles <= lower_rows_amount(radius.0 as int, radius.0 as int),
    ensures
        rows <= radius.0,
        lower_rows_amount(radius.0 as int, rows as int) <= tiles,
        tiles < lower_rows_amount(radius.0 as int, rows + 1),
{
    let width: u32 = 2 * (radius.0 as u32) + 1;
    proof {
        lemma_twice_lower_rows(radius.0 as int, radius.0 as int);
        assert(radius.0 * radius.0 <= 255 * 255) by (nonlinear_arith)
            requires
                0 <= radius.0 <= 255,
        ;
        assert(radius.0 * (2 * radius.0 + 1) == 2 * (radius.0 * radius.0) + radius.0)
            by (nonlinear_arith);
        assert(width * width <= 511 * 511) by (nonlinear_arith)
            requires
                0 <= width <= 511,
        ;
    }
    let square: u32 = width * width + 8 * (tiles as u32);
    let root: u32 = integer_square_root(square);
    proof {
        if root < width {
            lemma_square_monotonic(root + 1, width as int);
        }
    }
    let rows: u32 = (root - width) / 2;
    proof {
        lemma_root_above(rows as int, width as int, root as int, tiles as int);
        lemma_root_below(rows as int, width as int, root as int, tiles as int);
        lemma_twice_lower_rows(radius.0 as int, rows as int);
        lemma_twice_lower_rows(radius.0 as int, rows + 1);
        if rows > radius.0 {
            lemma_lower_rows_increase(radius.0 as int, radius.0 as int, rows as int);
        }
    }
    rows
}

/// The number of whole rows, counted from the middle row, that `tiles`
/// tiles fill: the smaller solution of
/// `rows^2 - (4 radius + 3) rows + 2 tiles = 0`, rounded down.
fn filled_upper_rows(radius: Radius, tiles: usize) -> (rows: u32)
    requires
        tiles < upper_rows_amount(radius.0 as int, radius.0 + 1),
    ensures
        rows <= radius.0,
        upper_rows_amount(radius.0 as int, rows as int) <= tiles,
        tiles < upper_rows_amount(radius.0 as int, rows + 1),
{
    let rings: u32 = radius.0 as u32;
    let width: u32 = 4 * rings + 3;
    proof {
        lemma_twice_upper_rows(rings as int, rings + 1);
        assert((rings + 1) * (4 * rings + 3) - (rings + 1) * (rings + 1) == 3 * (rings * rings) + 5
            * rings + 2) by (nonlinear_arith);
        assert(width * width == 16 * (rings * rings) + 24 * rings + 9) by (nonlinear_arith)
            requires
                width == 4 * rings + 3,
        ;
        assert(rings * rings <= 255 * 255) by (nonlinear_arith)
            requires
                0 <= rings <= 255,
        ;
        assert((2 * rings + 1) * (2 * rings + 1) == 4 * (rings * rings) + 4 * rings + 1)
            by (nonlinear_arith);
    }
    let square: u32 = width * width - 8 * (tiles as u32);
    assert(square > (2 * rings + 1) * (2 * rings + 1));
    let floor: u32 = integer_square_root(square);
    proof {
        if floor >= 1024 {
            lemma_square_monotonic(1024, floor as int);
        }
    }
    let root: u32 = if floor * floor == square {
        floor
    } else {
        floor + 1
    };
    proof {
        assert((root - 1) * (root - 1) < square <= root * root) by {
            if floor * floor == square {
                assert((floor - 1) * (floor - 1) < floor * floor) by (nonlinear_arith)
                    requires
                        floor >= 1,
                ;
            }
        }
        if root > width {
            lemma_square_monotonic(width as int, root - 1);
        }
        if root < 2 * rings + 2 {
            lemma_square_monotonic(root as int, 2 * rings + 1);
        }
    }
    let rows: u32 = (width - root) / 2;
    proof {
        lemma_gap_above(rows as int, width as int, root as int, tiles as int);
        lemma_gap_below(rows as int, width as int, root as int, tiles as int);
        lemma_twice_upper_rows(rings as int, rows as int);
        lemma_twice_upper_rows(rings as int, rows + 1);
    }
    rows
}

/// The tile that lies `offset` places into the row `r` is found there when
/// the rows are walked from any row before it.
proof fn lemma_row_of_located(radius: int, top: int, r: int, offset: int)
    requires
        -radius <= r <= top <= radius,
        0 <= offset < row_length(radius, r),
    ensures
        row_of(
            radius,
            top,
            tiles_before_row(radius, r) - tiles_before_row(radius, top) + offset,
        ) == (r, offset),
    decreases top - r,
{
    if r < top {
        lemma_tiles_before_row_monotonic(radius, top - 1, r);
        lemma_row_of_located(radius, top - 1, r, offset);
    }
}

/// The coordinates of the tile that is stored at `index` in a map of the
/// given radius.
///
/// The map must hold more than `index` tiles.
pub fn index_to_coordinates(radius: Radius, index: usize) -> (coordinates: AxialCoordinates)
    requires
        index < tile_amount(radius.0 as int),
    ensures
        coordinates@ == coordinates_of(radius.0 as int, index as int),
        is_on_map(radius.0 as int, coordinates.q as int, coordinates.r as int),
        index_of(radius.0 as int, coordinates.q as int, coordinates.r as int) == index,
{
    let ghost rings = radius.0 as int;
    proof {
        lemma_rows_amount(rings);
        lemma_tile_amount_bound(rings);
    }
    let all_tiles_lower_rows: usize = tiles_lower_rows(radius, radius.0 as u32);
    let lower_rows_tiles: usize = if index < all_tiles_lower_rows {
        index
    } else {
        all_tiles_lower_rows
    };
    let upper_rows_tiles: usize = if index < all_tiles_lower_rows {
        0
    } else {
        index - all_tiles_lower_rows
    };
    proof {
        assert(upper_rows_amount(rings, 0) == 0) by (nonlinear_arith);
        lemma_upper_rows_step(rings, 0);
        lemma_upper_rows_increase(rings, 1, rings + 1);
    }
    let lower_rows: u32 = filled_lower_rows(radius, lower_rows_tiles);
    let upper_rows: u32 = filled_upper_rows(radius, upper_rows_tiles);
    proof {
        if index < all_tiles_lower_rows {
            if lower_rows >= rings {
                lemma_lower_rows_increase(rings, rings, lower_rows as int);
            }
            if upper_rows > 0 {
                lemma_upper_rows_increase(rings, 1, upper_rows as int);
            }
        } else {
            if lower_rows < rings {
                lemma_lower_rows_increase(rings, lower_rows + 1, rings);
            }
        }
    }
    let tiles_till_row: usize = tiles_lower_rows(radius, lower_rows) + tiles_upper_rows(
        radius,
        upper_rows,
    );
    let offset_from_row_start: usize = index - tiles_till_row;
    let r: i32 = radius.0 as i32 - lower_rows as i32 - upper_rows as i32;
    proof {
        lemma_tiles_before_row(rings, r as int);
        lemma_lower_rows_step(rings, lower_rows as int);
        lemma_upper_rows_step(rings, upper_rows as int);
        assert(tiles_till_row == tiles_before_row(rings, r as int));
        assert(offset_from_row_start < row_length(rings, r as int));
        lemma_row_of_located(rings, rings, r as int, offset_from_row_start as int);
    }
    let q: i32 = offset_from_row_start as i32 - radius.0 as i32;
    let q: i32 = if index < all_tiles_lower_rows {
        q
    } else {
        -q
    };
    AxialCoordinates::new(q, r)
}

/// The last row ends where the map ends.
proof fn lemma_last_row_ends_map(radius: int)
    requires
        0 <= radius,
    ensures
        tiles_before_row(radius, -radius) + row_length(radius, -radius) == tile_amount(radius),
{
    lemma_tiles_before_row(radius, -radius);
    lemma_rows_amount(radius);
    lemma_upper_rows_step(radius, radius);
    if radius == 0 {
        assert(upper_rows_amount(0, 0) == 0) by (nonlinear_arith);
    }
}

/// Walking the rows from the row `top` finds, for every place on the map
/// from the start of that row on, a row of the map and a place in that row.
proof fn lemma_row_of_on_map(radius: int, top: int, index: int)
    requires
        -radius <= top <= radius,
        0 <= index,
        tiles_before_row(radius, top) + index < tile_amount(radius),
    ensures
        -radius <= row_of(radius, top, index).0 <= top,
        0 <= row_of(radius, top, index).1 < row_length(radius, row_of(radius, top, index).0),
        tiles_before_row(radius, row_of(radius, top, index).0) - tiles_before_row(radius, top)
            + row_of(radius, top, index).1 == index,
    decreases top + radius,
{
    if top <= -radius {
        lemma_last_row_ends_map(radius);
    } else if index < row_length(radius, top) {
    } else {
        lemma_row_of_on_map(radius, top - 1, index - row_length(radius, top));
    }
}

/// Every place of the map holds a tile of the map, and that tile is stored
/// at that place: [`index_of`] undoes [`coordinates_of`].
pub proof fn lemma_index_of_coordinates_of(radius: int, index: int)
    requires
        0 <= radius,
        0 <= index < tile_amount(radius),
    ensures
        is_on_map(radius, coordinates_of(radius, index).0, coordinates_of(radius, index).1),
        index_of(radius, coordinates_of(radius, index).0, coordinates_of(radius, index).1)
            == index,
{
    lemma_row_of_on_map(radius, radius, index);
}

/// Every tile of the map is stored at a place of the map, and that place
/// holds that tile: [`coordinates_of`] undoes [`index_of`].
pub proof fn lemma_coordinates_of_index_of(radius: int, q: int, r: int)
    requires
        is_on_map(radius, q, r),
    ensures
        0 <= index_of(radius, q, r) < tile_amount(radius),
        coordinates_of(radius, index_of(radius, q, r)) == (q, r),
{
    lemma_row_ends_on_map(radius, r);
    lemma_row_of_located(radius, radius, r, offset_in_row(radius, q, r));
}

/// Two tiles of the map that are stored at the same place are the same
/// tile.
pub proof fn lemma_index_of_injective(radius: int, q1: int, r1: int, q2: int, r2: int)
    requires
        is_on_map(radius, q1, r1),
        is_on_map(radius, q2, r2),
        index_of(radius, q1, r1) == index_of(radius, q2, r2),
    ensures
        q1 == q2,
        r1 == r2,
{
    lemma_coordinates_of_index_of(radius, q1, r1);
    lemma_coordinates_of_index_of(radius, q2, r2);
}

/// The rows are stored in descending order: of two places of the map, the
/// later one holds a tile of the same row or of a row with a smaller `r`.
pub proof fn lemma_rows_descend(radius: int, earlier: int, later: int)
    requires
        0 <= radius,
        0 <= earlier < later < tile_amount(radius),
    ensures
        coordinates_of(radius, earlier).1 >= coordinates_of(radius, later).1,
{
    lemma_row_of_on_map(radius, radius, earlier);
    lemma_row_of_on_map(radius, radius, later);
    let first = row_of(radius, radius, earlier).0;
    let second = row_of(radius, radius, later).0;
    if first < second {
        lemma_tiles_before_row_monotonic(radius, second - 1, first);
    }
}

/// A row below the middle row is stored from left to right: of two places
/// that hold tiles of the same row with a positive `r`, the later one holds
/// the tile with the larger `q`.
pub proof fn lemma_row_ascends_below_middle(radius: int, earlier: int, later: int)
    requires
        0 <= radius,
        0 <= earlier < later < tile_amount(radius),
        coordinates_of(radius, earlier).1 == coordinates_of(radius, later).1,
        coordinates_of(radius, earlier).1 > 0,
    ensures
        coordinates_of(radius, earlier).0 < coordinates_of(radius, later).0,
{
    lemma_row_of_on_map(radius, radius, earlier);
    lemma_row_of_on_map(radius, radius, later);
}

/// The middle row and the rows above it are stored from right to left: of
/// two places that hold tiles of the same row with an `r` that is not
/// positive, the later one holds the tile with the smaller `q`.
pub proof fn lemma_row_descends_from_middle(radius: int, earlier: int, later: int)
    requires
        0 <= radius,
        0 <= earlier < later < tile_amount(radius),
        coordinates_of(radius, earlier).1 == coordinates_of(radius, later).1,
        coordinates_of(radius, earlier).1 <= 0,
    ensures
        coordinates_of(radius, earlier).0 > coordinates_of(radius, later).0,
{
    lemma_row_of_on_map(radius, radius, earlier);
    lemma_row_of_on_map(radius, radius, later);
}

} // verus!
