//! A hexagonal map: the tiles within a given number of steps of the tile in
//! the middle, stored without gaps in the order that
//! [`crate::layout`] defines, and found by their coordinates in constant
//! time.

use crate::coordinates::AxialCoordinates;
use crate::layout::{
    coordinates_of, coordinates_to_index, index_of, index_to_coordinates, is_on_map,
};
use crate::radius::{
    is_tile_amount, lemma_tile_amount_bound, lemma_tile_amount_determines_radius, tile_amount,
    InvalidTileAmount, Radius,
};
use vstd::prelude::*;

verus! {

/// The tiles of a hexagonal map of some radius.
///
/// The map holds exactly as many tiles as a map of its radius has places.
#[derive(Debug, PartialEq, Eq)]
pub struct HexagonalMap<T> {
    tiles: Vec<T>,
    radius: Radius,
}

impl<T> View for HexagonalMap<T> {
    type V = Seq<T>;

    /// The tiles in the order in which they are stored.
    closed spec fn view(&self) -> Seq<T> {
        self.tiles@
    }
}

impl<T> HexagonalMap<T> {
    #[verifier::type_invariant]
    spec fn holds_every_tile(self) -> bool {
        self.tiles@.len() == tile_amount(self.radius.0 as int)
    }

    /// The radius of the map.
    pub closed spec fn spec_radius(&self) -> Radius {
        self.radius
    }

    /// The radius of the map, as a number.
    pub open spec fn rings(&self) -> int {
        self.spec_radius().0 as int
    }

    /// The vector in which the map stores its tiles.
    pub closed spec fn stored(self) -> Vec<T> {
        self.tiles
    }

    /// What [`HexagonalMap::from_vec`] makes of `vec`: the map of the radius
    /// that has as many places as `vec` has tiles, which stores its tiles
    /// in `vec`; or the number of tiles, if there is no such radius.
    pub closed spec fn made_from(vec: Vec<T>) -> Result<HexagonalMap<T>, InvalidTileAmount> {
        if is_tile_amount(vec@.len() as int) {
            Ok(
                HexagonalMap {
                    tiles: vec,
                    radius: Radius(
                        choose|rings: u8| #[trigger]
                            tile_amount(rings as int) == vec@.len(),
                    ),
                },
            )
        } else {
            Err(InvalidTileAmount(vec@.len() as usize))
        }
    }

    /// The tile at `coordinates`, which must belong to the map.
    pub fn get_unchecked(&self, coordinates: AxialCoordinates) -> (tile: &T)
        requires
            is_on_map(self.rings(), coordinates.q as int, coordinates.r as int),
        ensures
            0 <= index_of(self.rings(), coordinates.q as int, coordinates.r as int) < self@.len(),
            *tile == self@[index_of(self.rings(), coordinates.q as int, coordinates.r as int)],
    {
        proof {
            use_type_invariant(self);
        }
        let index: usize = coordinates_to_index(self.radius, coordinates);
        &self.tiles[index]
    }

    /// The tile at `coordinates`, if it belongs to the map.
    pub fn get(&self, coordinates: AxialCoordinates) -> (tile: Option<&T>)
        ensures
            match tile {
                Some(tile) => is_on_map(self.rings(), coordinates.q as int, coordinates.r as int)
                    && 0 <= index_of(self.rings(), coordinates.q as int, coordinates.r as int)
                    < self@.len() && *tile == self@[index_of(
                    self.rings(),
                    coordinates.q as int,
                    coordinates.r as int,
                )],
                None => !is_on_map(self.rings(), coordinates.q as int, coordinates.r as int),
            },
    {
        if !coordinates.is_within(self.radius.0) {
            return None;
        }
        Some(self.get_unchecked(coordinates))
    }

    /// The tile at `coordinates`, to be changed in place, if it belongs to
    /// the map. The other tiles stay as they are.
    pub fn get_mut(&mut self, coordinates: AxialCoordinates) -> (tile: Option<&mut T>)
        ensures
            final(self).rings() == old(self).rings(),
            match tile {
                Some(tile) => is_on_map(
                    old(self).rings(),
                    coordinates.q as int,
                    coordinates.r as int,
                ) && 0 <= index_of(old(self).rings(), coordinates.q as int, coordinates.r as int)
                    < old(self)@.len() && *tile == old(self)@[index_of(
                    old(self).rings(),
                    coordinates.q as int,
                    coordinates.r as int,
                )] && final(self)@ == old(self)@.update(
                    index_of(old(self).rings(), coordinates.q as int, coordinates.r as int),
                    *final(tile),
                ),
                None => !is_on_map(old(self).rings(), coordinates.q as int, coordinates.r as int)
                    && final(self)@ == old(self)@,
            },
    {
        proof {
            use_type_invariant(&*self);
        }
        if !coordinates.is_within(self.radius.0) {
            return None;
        }
        let index: usize = coordinates_to_index(self.radius, coordinates);
        Some(&mut self.tiles[index])
    }

    /// Puts `tile` at `coordinates`, if they belong to the map, and returns
    /// whether it did. The other tiles stay as they are.
    pub fn set(&mut self, coordinates: AxialCoordinates, tile: T) -> (stored: bool)
        ensures
            final(self).rings() == old(self).rings(),
            stored == is_on_map(old(self).rings(), coordinates.q as int, coordinates.r as int),
            stored ==> 0 <= index_of(old(self).rings(), coordinates.q as int, coordinates.r as int)
                < old(self)@.len() && final(self)@ == old(self)@.update(
                index_of(old(self).rings(), coordinates.q as int, coordinates.r as int),
                tile,
            ),
            !stored ==> final(self)@ == old(self)@,
    {
        proof {
            use_type_invariant(&*self);
        }
        if !coordinates.is_within(self.radius.0) {
            return false;
        }
        let index: usize = coordinates_to_index(self.radius, coordinates);
        self.tiles[index] = tile;
        true
    }

    /// The map that holds the tiles of `vec` in their order.
    ///
    /// Fails if no map of a radius from 0 to 255 has exactly as many places
    /// as `vec` has tiles.
    pub fn from_vec(vec: Vec<T>) -> (result: Result<HexagonalMap<T>, InvalidTileAmount>)
        ensures
            match result {
                Ok(map) => map@ == vec@ && tile_amount(map.rings()) == vec@.len(),
                Err(error) => error == InvalidTileAmount(vec.len()) && !is_tile_amount(
                    vec@.len() as int,
                ),
            },
            result == Self::made_from(vec),
    {
        match Radius::try_from(vec.len()) {
            Ok(radius) => {
                proof {
                    assert(tile_amount(radius.0 as int) == vec@.len());
                    let chosen = choose|rings: u8| #[trigger]
                        tile_amount(rings as int) == vec@.len();
                    lemma_tile_amount_determines_radius(radius.0 as int, chosen as int);
                }
                Ok(Self { tiles: vec, radius })
            },
            Err(error) => Err(error),
        }
    }

    /// Every tile of the map with its coordinates, in the order in which
    /// the tiles are stored.
    ///
    /// The coordinates are those at which [`HexagonalMap::get`] finds the
    /// tile.
    pub fn iter_with_coordinates(self) -> (result: Vec<(T, AxialCoordinates)>)
        ensures
            result@.len() == self@.len(),
            forall|index: int|
                0 <= index < result@.len() ==> {
                    &&& (#[trigger] result@[index]).0 == self@[index]
                    &&& result@[index].1@ == coordinates_of(self.rings(), index)
                    &&& is_on_map(
                        self.rings(),
                        result@[index].1.q as int,
                        result@[index].1.r as int,
                    )
                    &&& index_of(
                        self.rings(),
                        result@[index].1.q as int,
                        result@[index].1.r as int,
                    ) == index
                },
    {
        proof {
            use_type_invariant(&self);
            lemma_tile_amount_bound(self.radius.0 as int);
        }
        let radius = self.radius;
        let ghost tiles = self.tiles@;
        let mut result: Vec<(T, AxialCoordinates)> = Vec::new();
        let mut index: usize = 0;
        for tile in remaining: self.tiles
            invariant
                remaining.seq() == tiles,
                tiles.len() == tile_amount(radius.0 as int),
                tiles.len() <= 195841,
                index == remaining.index(),
                result@.len() == index,
                forall|earlier: int|
                    0 <= earlier < index ==> {
                        &&& (#[trigger] result@[earlier]).0 == tiles[earlier]
                        &&& result@[earlier].1@ == coordinates_of(radius.0 as int, earlier)
                        &&& is_on_map(
                            radius.0 as int,
                            result@[earlier].1.q as int,
                            result@[earlier].1.r as int,
                        )
                        &&& index_of(
                            radius.0 as int,
                            result@[earlier].1.q as int,
                            result@[earlier].1.r as int,
                        ) == earlier
                    },
        {
            result.push((tile, index_to_coordinates(radius, index)));
            index += 1;
        }
        result
    }

    /// The tiles in the order in which they are stored.
    pub fn into_vec(self) -> (result: Vec<T>)
        ensures
            result@ == self@,
            result == self.stored(),
    {
        self.tiles
    }

    /// The tiles in the order in which they are stored.
    pub fn tiles(&self) -> (result: &[T])
        ensures
            result@ == self@,
            result@.len() == tile_amount(self.rings()),
    {
        proof {
            use_type_invariant(self);
        }
        self.tiles.as_slice()
    }

    /// The radius of the map.
    pub fn radius(&self) -> (result: Radius)
        ensures
            result == self.spec_radius(),
            self@.len() == tile_amount(self.rings()),
    {
        proof {
            use_type_invariant(self);
        }
        self.radius
    }
}

impl<T> TryFrom<Vec<T>> for HexagonalMap<T> {
    type Error = InvalidTileAmount;

    /// The same as [`HexagonalMap::from_vec`].
    fn try_from(value: Vec<T>) -> (result: Result<Self, InvalidTileAmount>) {
        Self::from_vec(value)
    }
}

impl<T> vstd::std_specs::convert::TryFromSpecImpl<Vec<T>> for HexagonalMap<T> {
    open spec fn obeys_try_from_spec() -> bool {
        true
    }

    open spec fn try_from_spec(value: Vec<T>) -> Result<Self, InvalidTileAmount> {
        Self::made_from(value)
    }
}

impl<T> From<HexagonalMap<T>> for Vec<T> {
    /// The same as [`HexagonalMap::into_vec`].
    fn from(value: HexagonalMap<T>) -> (result: Vec<T>) {
        value.into_vec()
    }
}

impl<T> vstd::std_specs::convert::FromSpecImpl<HexagonalMap<T>> for Vec<T> {
    open spec fn obeys_from_spec() -> bool {
        true
    }

    open spec fn from_spec(value: HexagonalMap<T>) -> Vec<T> {
        value.stored()
    }
}

impl<T: Clone> Clone for HexagonalMap<T> {
    /// A map of the same radius that holds a clone of each tile at the
    /// place of that tile.
    fn clone(&self) -> (result: Self)
        ensures
            result.rings() == self.rings(),
            result@.len() == self@.len(),
            forall|index: int|
                0 <= index < self@.len() ==> cloned::<T>(
                    #[trigger] self@[index],
                    result@[index],
                ),
    {
        proof {
            use_type_invariant(self);
        }
        Self { tiles: self.tiles.clone(), radius: self.radius }
    }
}

} // verus!
