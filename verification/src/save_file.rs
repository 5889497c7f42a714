//! A saved game: the tiles of a hexagonal map in the order in which the map
//! stores them, each with the three connections that it owns.

use crate::coordinates::AxialCoordinates;
use crate::hexagonal_map::HexagonalMap;
use crate::layout::coordinates_of;
use crate::radius::{is_tile_amount, tile_amount, InvalidTileAmount};
use vstd::prelude::*;

verus! {

/// Where a saved game lies, relative to the directory of the assets.
#[derive(Debug, Clone, PartialEq, Eq)]
pub struct SaveFilePath {
    relative_to_assets: String,
}

impl View for SaveFilePath {
    type V = Seq<char>;

    closed spec fn view(&self) -> Seq<char> {
        self.relative_to_assets@
    }
}

impl SaveFilePath {
    pub fn new(relative_to_assets: String) -> (result: Self)
        ensures
            result@ == relative_to_assets@,
    {
        Self { relative_to_assets }
    }

    pub fn relative_to_assets(&self) -> (result: &str)
        ensures
            result@ == self@,
    {
        self.relative_to_assets.as_str()
    }
}

/// What is saved of a connection between two tiles.
#[derive(Copy, Clone, Debug, PartialEq, Eq, Structural, Hash)]
pub struct TempConnectionComponent(pub usize);

/// What is saved of a tile itself: the name of its type.
#[derive(Debug, Clone, PartialEq, Eq)]
pub struct SaveFileTileData {
    pub tile_type: String,
}

/// A saved connection.
#[derive(Copy, Clone, Debug, PartialEq, Eq, Structural, Hash)]
pub struct SaveFileTileConnection {
    pub temp_data: TempConnectionComponent,
}

/// A saved tile, with the connections to its right, lower right and lower
/// left neighbors.
#[derive(Debug, Clone, PartialEq, Eq)]
pub struct SaveFileTile {
    pub tile_data: SaveFileTileData,
    pub tile_connection_right: SaveFileTileConnection,
    pub tile_connection_lower_right: SaveFileTileConnection,
    pub tile_connection_lower_left: SaveFileTileConnection,
}

/// A saved game.
#[derive(Debug, Clone, PartialEq, Eq)]
pub struct SaveFile {
    pub tiles: Vec<SaveFileTile>,
}

impl SaveFile {
    /// The saved tiles, each with the coordinates of the place at which a
    /// hexagonal map stores it.
    ///
    /// Fails if no map of a radius from 0 to 255 has exactly as many places
    /// as there are saved tiles.
    pub fn into_tiles_with_coordinates(self) -> (result: Result<
        Vec<(SaveFileTile, AxialCoordinates)>,
        InvalidTileAmount,
    >)
        ensures
            match result {
                Ok(placed) => placed@.len() == self.tiles@.len() && exists|radius: int|
                    0 <= radius <= 255 && #[trigger] tile_amount(radius) == placed@.len()
                        && forall|index: int|
                        0 <= index < placed@.len() ==> (#[trigger] placed@[index]).0
                            == self.tiles@[index] && placed@[index].1@ == coordinates_of(
                            radius,
                            index,
                        ),
                Err(error) => error == InvalidTileAmount(self.tiles@.len() as usize)
                    && !is_tile_amount(self.tiles@.len() as int),
            },
    {
        match HexagonalMap::from_vec(self.tiles) {
            Ok(map) => {
                let radius = map.radius();
                let placed = map.iter_with_coordinates();
                assert(tile_amount(radius.0 as int) == placed@.len());
                Ok(placed)
            },
            Err(error) => Err(error),
        }
    }
}

} // verus!
