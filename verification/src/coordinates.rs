//! Axial and cubic coordinates of hexagonal tiles, and the six directions
//! in which a tile has a neighbor.

use vstd::prelude::*;

verus! {

/// The absolute value of an integer.
pub open spec fn abs(x: int) -> int {
    if x < 0 {
        -x
    } else {
        x
    }
}

/// The number of steps between the origin and the tile at `(q, r)`: half the
/// sum of the absolute values of the three cubic components `q`, `r` and
/// `-q - r`.
pub open spec fn hex_distance(q: int, r: int) -> int {
    (abs(q) + abs(r) + abs(-q - r)) / 2
}

/// One of the six directions in which a hexagonal tile has a neighbor.
#[derive(Clone, Copy, Debug, PartialEq, Eq, Structural, Hash)]
pub enum Direction {
    Right,
    LowerRight,
    LowerLeft,
    Left,
    UpperLeft,
    UpperRight,
}

impl Direction {
    /// The step `(q, r)` that leads from a tile to its neighbor in this direction.
    pub open spec fn offset(self) -> (int, int) {
        match self {
            Direction::Right => (1, 0),
            Direction::LowerRight => (0, 1),
            Direction::LowerLeft => (-1, 1),
            Direction::Left => (-1, 0),
            Direction::UpperLeft => (0, -1),
            Direction::UpperRight => (1, -1),
        }
    }

    /// The direction that leads back.
    pub open spec fn reversed(self) -> Direction {
        match self {
            Direction::Right => Direction::Left,
            Direction::LowerRight => Direction::UpperLeft,
            Direction::LowerLeft => Direction::UpperRight,
            Direction::Left => Direction::Right,
            Direction::UpperLeft => Direction::LowerRight,
            Direction::UpperRight => Direction::LowerLeft,
        }
    }

    /// The direction that leads back: if a tile lies to the right of another,
    /// that other lies to its left.
    pub fn opposite(self) -> (result: Direction)
        ensures
            result == self.reversed(),
    {
        match self {
            Direction::Right => Direction::Left,
            Direction::LowerRight => Direction::UpperLeft,
            Direction::LowerLeft => Direction::UpperRight,
            Direction::Left => Direction::Right,
            Direction::UpperLeft => Direction::LowerRight,
            Direction::UpperRight => Direction::LowerLeft,
        }
    }

    /// The unit vector of this direction.
    pub fn unit_vector(self) -> (result: AxialCoordinates)
        ensures
            result@ == self.offset(),
    {
        match self {
            Direction::Right => AxialCoordinates { q: 1, r: 0 },
            Direction::LowerRight => AxialCoordinates { q: 0, r: 1 },
            Direction::LowerLeft => AxialCoordinates { q: -1, r: 1 },
            Direction::Left => AxialCoordinates { q: -1, r: 0 },
            Direction::UpperLeft => AxialCoordinates { q: 0, r: -1 },
            Direction::UpperRight => AxialCoordinates { q: 1, r: -1 },
        }
    }
}

/// The direction of the step `(dq, dr)`, if it is one of the six unit vectors.
pub open spec fn direction_of_step(dq: int, dr: int) -> Option<Direction> {
    if dq == 1 && dr == 0 {
        Some(Direction::Right)
    } else if dq == 0 && dr == 1 {
        Some(Direction::LowerRight)
    } else if dq == -1 && dr == 1 {
        Some(Direction::LowerLeft)
    } else if dq == -1 && dr == 0 {
        Some(Direction::Left)
    } else if dq == 0 && dr == -1 {
        Some(Direction::UpperLeft)
    } else if dq == 1 && dr == -1 {
        Some(Direction::UpperRight)
    } else {
        None
    }
}

/// The direction that leads from the tile at `from` to the tile at `to`, if
/// the two are neighbors.
pub open spec fn direction_between(from: (int, int), to: (int, int)) -> Option<Direction> {
    direction_of_step(to.0 - from.0, to.1 - from.1)
}

/// If a tile lies in some direction from another, that other lies in the
/// reversed direction from it; and if two tiles are not neighbors one way,
/// they are not the other way.
pub proof fn lemma_direction_back(from: (int, int), to: (int, int))
    ensures
        direction_between(to, from) == match direction_between(from, to) {
            Some(direction) => Some(direction.reversed()),
            None => None,
        },
{
}

/// Two tiles are neighbors exactly if they are one step apart.
pub proof fn lemma_neighbors_are_one_step_apart(from: (int, int), to: (int, int))
    ensures
        direction_between(from, to) is Some <==> hex_distance(to.0 - from.0, to.1 - from.1) == 1,
{
}

/// The position of a hexagonal tile: column `q` and row `r`.
#[derive(Copy, Clone, Debug, PartialEq, Eq, Structural, Hash)]
pub struct AxialCoordinates {
    pub q: i32,
    pub r: i32,
}

impl View for AxialCoordinates {
    type V = (int, int);

    open spec fn view(&self) -> (int, int) {
        (self.q as int, self.r as int)
    }
}

impl AxialCoordinates {
    pub fn new(q: i32, r: i32) -> (result: Self)
        ensures
            result.q == q,
            result.r == r,
    {
        Self { q, r }
    }

    pub fn q(&self) -> (result: i32)
        ensures
            result == self.q,
    {
        self.q
    }

    pub fn r(&self) -> (result: i32)
        ensures
            result == self.r,
    {
        self.r
    }

    /// Whether the distance from the origin to this tile fits in `u32`. It
    /// does for every tile but the one at `(i32::MIN, i32::MIN)`.
    pub open spec fn distance_is_representable(&self) -> bool {
        hex_distance(self.q as int, self.r as int) <= u32::MAX
    }

    /// The number of steps from the origin to this tile.
    pub fn distance_to_origin(&self) -> (result: u32)
        requires
            self.distance_is_representable(),
        ensures
            result == hex_distance(self.q as int, self.r as int),
    {
        let q: i64 = self.q as i64;
        let r: i64 = self.r as i64;
        let s: i64 = -q - r;
        let sum: i64 = magnitude(q) + magnitude(r) + magnitude(s);
        (sum / 2) as u32
    }

    /// Whether this tile lies at most `radius` steps from the origin. Unlike
    /// [`AxialCoordinates::distance_to_origin`] this is defined for every tile.
    pub fn is_within(&self, radius: u8) -> (result: bool)
        ensures
            result == (hex_distance(self.q as int, self.r as int) <= radius),
    {
        let q: i64 = self.q as i64;
        let r: i64 = self.r as i64;
        let s: i64 = -q - r;
        let sum: i64 = magnitude(q) + magnitude(r) + magnitude(s);
        sum / 2 <= radius as i64
    }

    /// The component-wise sum of two coordinates.
    pub fn add(self, other: AxialCoordinates) -> (result: AxialCoordinates)
        requires
            i32::MIN <= self.q + other.q <= i32::MAX,
            i32::MIN <= self.r + other.r <= i32::MAX,
        ensures
            result.q == self.q + other.q,
            result.r == self.r + other.r,
    {
        AxialCoordinates { q: self.q + other.q, r: self.r + other.r }
    }

    /// The component-wise difference of two coordinates.
    pub fn subtract(self, other: AxialCoordinates) -> (result: AxialCoordinates)
        requires
            i32::MIN <= self.q - other.q <= i32::MAX,
            i32::MIN <= self.r - other.r <= i32::MAX,
        ensures
            result.q == self.q - other.q,
            result.r == self.r - other.r,
    {
        AxialCoordinates { q: self.q - other.q, r: self.r - other.r }
    }

    /// Whether the neighbor of this tile in `direction` has coordinates that
    /// fit in `i32`.
    pub open spec fn has_neighbor(&self, direction: Direction) -> bool {
        &&& i32::MIN <= self.q + direction.offset().0 <= i32::MAX
        &&& i32::MIN <= self.r + direction.offset().1 <= i32::MAX
    }

    /// The neighbor of this tile in `direction`.
    pub fn next(self, direction: Direction) -> (result: AxialCoordinates)
        requires
            self.has_neighbor(direction),
        ensures
            result.q == self.q + direction.offset().0,
            result.r == self.r + direction.offset().1,
            direction_between(self@, result@) == Some(direction),
    {
        self.add(direction.unit_vector())
    }

    pub fn next_right(self) -> (result: AxialCoordinates)
        requires
            self.has_neighbor(Direction::Right),
        ensures
            result.q == self.q + 1,
            result.r == self.r,
    {
        self.next(Direction::Right)
    }

    pub fn next_lower_right(self) -> (result: AxialCoordinates)
        requires
            self.has_neighbor(Direction::LowerRight),
        ensures
            result.q == self.q,
            result.r == self.r + 1,
    {
        self.next(Direction::LowerRight)
    }

    pub fn next_lower_left(self) -> (result: AxialCoordinates)
        requires
            self.has_neighbor(Direction::LowerLeft),
        ensures
            result.q == self.q - 1,
            result.r == self.r + 1,
    {
        self.next(Direction::LowerLeft)
    }

    pub fn next_left(self) -> (result: AxialCoordinates)
        requires
            self.has_neighbor(Direction::Left),
        ensures
            result.q == self.q - 1,
            result.r == self.r,
    {
        self.next(Direction::Left)
    }

    pub fn next_upper_left(self) -> (result: AxialCoordinates)
        requires
            self.has_neighbor(Direction::UpperLeft),
        ensures
            result.q == self.q,
            result.r == self.r - 1,
    {
        self.next(Direction::UpperLeft)
    }

    pub fn next_upper_right(self) -> (result: AxialCoordinates)
        requires
            self.has_neighbor(Direction::UpperRight),
        ensures
            result.q == self.q + 1,
            result.r == self.r - 1,
    {
        self.next(Direction::UpperRight)
    }

    /// The direction that leads from this tile to `other`, if `other` is one
    /// of its six neighbors.
    pub fn neighboring(&self, other: &AxialCoordinates) -> (result: Option<Direction>)
        ensures
            result == direction_between(self@, other@),
    {
        let dq: i64 = other.q as i64 - self.q as i64;
        let dr: i64 = other.r as i64 - self.r as i64;
        if dq == 1 && dr == 0 {
            Some(Direction::Right)
        } else if dq == 0 && dr == 1 {
            Some(Direction::LowerRight)
        } else if dq == -1 && dr == 1 {
            Some(Direction::LowerLeft)
        } else if dq == -1 && dr == 0 {
            Some(Direction::Left)
        } else if dq == 0 && dr == -1 {
            Some(Direction::UpperLeft)
        } else if dq == 1 && dr == -1 {
            Some(Direction::UpperRight)
        } else {
            None
        }
    }

    /// The cubic form of these coordinates, whose third component is `-q - r`.
    pub fn to_cubic(&self) -> (result: CubicCoordinates)
        requires
            i32::MIN <= -self.q - self.r <= i32::MAX,
        ensures
            result.q == self.q,
            result.r == self.r,
            result.s == -self.q - self.r,
    {
        let s: i64 = -(self.q as i64) - self.r as i64;
        CubicCoordinates { q: self.q, r: self.r, s: s as i32 }
    }

    /// The position of the tile's centre on the display plane, in pixels:
    /// `x = 32 q + 16 r` and `y = -21 r`.
    pub fn planar_position(&self) -> (result: (i64, i64))
        ensures
            result.0 == 32 * self.q + 16 * self.r,
            result.1 == -21 * self.r,
    {
        let q: i64 = self.q as i64;
        let r: i64 = self.r as i64;
        (q * 32 + r * 16, -(r * 21))
    }
}

/// The absolute value of `x`.
fn magnitude(x: i64) -> (result: i64)
    requires
        x > i64::MIN,
    ensures
        result == abs(x as int),
{
    if x < 0 {
        -x
    } else {
        x
    }
}

/// Coordinates with three components, of which the third is determined by
/// the other two on a hexagonal map: `s = -q - r`.
#[derive(Copy, Clone, Debug, PartialEq, Eq, Structural, Hash)]
pub struct CubicCoordinates {
    pub q: i32,
    pub r: i32,
    pub s: i32,
}

impl CubicCoordinates {
    pub fn new(q: i32, r: i32, s: i32) -> (result: Self)
        ensures
            result.q == q,
            result.r == r,
            result.s == s,
    {
        Self { q, r, s }
    }

    pub fn q(&self) -> (result: i32)
        ensures
            result == self.q,
    {
        self.q
    }

    pub fn r(&self) -> (result: i32)
        ensures
            result == self.r,
    {
        self.r
    }

    pub fn s(&self) -> (result: i32)
        ensures
            result == self.s,
    {
        self.s
    }

    /// The axial form of these coordinates, if they are coordinates of a
    /// hexagonal tile: if their three components add up to zero.
    pub fn to_axial(&self) -> (result: Option<AxialCoordinates>)
        ensures
            result == if self.q + self.r + self.s == 0 {
                Some(AxialCoordinates { q: self.q, r: self.r })
            } else {
                None
            },
    {
        if self.q as i64 + self.r as i64 + self.s as i64 == 0 {
            Some(AxialCoordinates { q: self.q, r: self.r })
        } else {
            None
        }
    }
}

} // verus!
