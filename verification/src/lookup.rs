//! The table that finds the tile at a given position.
//!
//! The table is a hash map of the `bevy` engine. Verus does not look inside
//! it: what the map holds is named by [`table_contents`], and the three
//! functions that touch the map are trusted to do to it what their contracts
//! say. Everything else in this module is verified against those contracts.

use crate::coordinates::AxialCoordinates;
use vstd::prelude::*;

verus! {

/// The identifier of a tile of a scenario: its position in the list of tiles.
#[derive(Copy, Clone, Debug, PartialEq, Eq, Structural, Hash)]
pub struct TileId(pub usize);

/// Finds the tile at a given position.
///
/// The hash map inside is of a type whose declaration names a trait, for
/// its allocator, that the crate of the map does not export. So the map is
/// kept out of sight of Verus as a whole, and what it holds is known by
/// [`table_contents`] only.
#[verifier::external_body]
#[derive(Debug, PartialEq, Eq)]
pub struct TilesByCoordinates {
    map: bevy::utils::HashMap<(i32, i32), usize>,
}

/// What a table holds: for each position `(q, r)` that has an entry, the
/// number of the tile entered for it.
pub uninterp spec fn table_contents(table: TilesByCoordinates) -> Map<(int, int), int>;

/// The contents of a table without entries.
pub open spec fn no_entries() -> Map<(int, int), int> {
    Map::empty()
}

/// `bevy::utils::HashMap::default`: the new map has no entries.
#[verifier::external_body]
fn empty_table() -> (table: TilesByCoordinates)
    ensures
        table_contents(table) == no_entries(),
{
    TilesByCoordinates { map: bevy::utils::HashMap::default() }
}

/// `hashbrown::HashMap::insert`, on the map inside the table: afterwards the
/// map holds `tile` for `(q, r)` and is otherwise unchanged. The call returns
/// the tile that the map held for `(q, r)` before, if it held one.
#[verifier::external_body]
fn table_insert(table: &mut TilesByCoordinates, q: i32, r: i32, tile: usize) -> (previous: Option<
    usize,
>)
    ensures
        table_contents(*final(table)) == table_contents(*old(table)).insert(
            (q as int, r as int),
            tile as int,
        ),
        match previous {
            Some(earlier) => table_contents(*old(table)).contains_key((q as int, r as int))
                && table_contents(*old(table))[(q as int, r as int)] == earlier,
            None => !table_contents(*old(table)).contains_key((q as int, r as int)),
        },
{
    table.map.insert((q, r), tile)
}

/// `hashbrown::HashMap::get`, on the map inside the table: the call returns
/// the tile that the map holds for `(q, r)`, if it holds one.
#[verifier::external_body]
fn table_get(table: &TilesByCoordinates, q: i32, r: i32) -> (found: Option<usize>)
    ensures
        match found {
            Some(tile) => table_contents(*table).contains_key((q as int, r as int))
                && table_contents(*table)[(q as int, r as int)] == tile,
            None => !table_contents(*table).contains_key((q as int, r as int)),
        },
{
    table.map.get(&(q, r)).copied()
}

impl View for TilesByCoordinates {
    type V = Map<(int, int), int>;

    open spec fn view(&self) -> Map<(int, int), int> {
        table_contents(*self)
    }
}

impl TilesByCoordinates {
    /// A table without entries.
    pub fn new() -> (table: Self)
        ensures
            table@ == no_entries(),
    {
        empty_table()
    }

    /// Enters `tile` at `coordinates`. Returns the tile that was entered
    /// there before, if there was one; the new entry replaces it.
    pub fn insert(&mut self, coordinates: AxialCoordinates, tile: TileId) -> (previous: Option<
        TileId,
    >)
        ensures
            final(self)@ == old(self)@.insert(coordinates@, tile.0 as int),
            match previous {
                Some(earlier) => old(self)@.contains_key(coordinates@) && old(self)@[coordinates@]
                    == earlier.0,
                None => !old(self)@.contains_key(coordinates@),
            },
    {
        match table_insert(self, coordinates.q, coordinates.r, tile.0) {
            Some(earlier) => Some(TileId(earlier)),
            None => None,
        }
    }

    /// The tile at `coordinates`, if there is one.
    pub fn get(&self, coordinates: AxialCoordinates) -> (found: Option<TileId>)
        ensures
            match found {
                Some(tile) => self@.contains_key(coordinates@) && self@[coordinates@] == tile.0,
                None => !self@.contains_key(coordinates@),
            },
    {
        match table_get(self, coordinates.q, coordinates.r) {
            Some(tile) => Some(TileId(tile)),
            None => None,
        }
    }
}

} // verus!
