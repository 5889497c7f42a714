//! Scenarios: tiles at given positions and the connections between them.
//!
//! A scenario is consistent when every connection joins two neighboring
//! tiles, no two connections attach to the same side of a tile, no two tiles
//! share a position, and every pair of neighboring tiles is connected.
//! [`Scenario::load`] checks this and, for a consistent scenario, resolves
//! which connection is attached to each side of each tile.

use crate::coordinates::{direction_between, AxialCoordinates, Direction};
use crate::hexagonal_map::HexagonalMap;
use crate::layout::{coordinates_of, lemma_index_of_coordinates_of};
use crate::lookup::{TileId, TilesByCoordinates};
use crate::radius::{is_tile_amount, tile_amount, InvalidTileAmount};
use vstd::prelude::*;

verus! {

/// The identifier of a connection of a scenario: its position in the list of
/// connections.
#[derive(Copy, Clone, Debug, PartialEq, Eq, Structural, Hash)]
pub struct ConnectionId(pub usize);

/// A tile of a scenario: the name of its type and its position.
#[derive(Debug, Clone, PartialEq, Eq)]
pub struct ScenarioTile {
    pub tile_type: String,
    pub coordinates: AxialCoordinates,
}

/// The two tiles that a connection joins.
#[derive(Copy, Clone, Debug, PartialEq, Eq, Structural, Hash)]
pub struct ConnectedTiles(pub TileId, pub TileId);

/// A connection of a scenario.
#[derive(Copy, Clone, Debug, PartialEq, Eq, Structural, Hash)]
pub struct TileConnection {
    pub connected_tiles: ConnectedTiles,
}

/// A scenario as it is stored: tiles and the connections between them.
#[derive(Debug, Clone, PartialEq, Eq)]
pub struct Scenario {
    pub tiles: Vec<ScenarioTile>,
    pub tile_connections: Vec<TileConnection>,
}

/// The connection attached to each of the six sides of a tile.
#[derive(Copy, Clone, Debug, PartialEq, Eq, Structural, Hash)]
pub struct NeighboringTiles {
    pub right: Option<ConnectionId>,
    pub upper_right: Option<ConnectionId>,
    pub lower_right: Option<ConnectionId>,
    pub left: Option<ConnectionId>,
    pub lower_left: Option<ConnectionId>,
    pub upper_left: Option<ConnectionId>,
}

/// Why a scenario is not consistent.
#[derive(Copy, Clone, Debug, PartialEq, Eq, Structural)]
pub enum LoadError {
    /// `connection` names `tile`, which the scenario does not have.
    OutOfBoundsTileIndex { tile: TileId, connection: ConnectionId },
    /// A connection joins `first` and `second`, which are not neighbors.
    NonAdjacentConnection { first: TileId, second: TileId },
    /// `connection` attaches to the side `slot` of `tile`, to which an
    /// earlier connection is attached already.
    DuplicateConnection { slot: Direction, connection: ConnectionId, tile: TileId },
    /// The tiles `first` and `second` both lie at `coordinates`.
    DuplicateCoordinates { coordinates: AxialCoordinates, first: TileId, second: TileId },
    /// The tile at `coordinates` has a neighbor in `direction`, at `neighbor`,
    /// and no connection to it.
    MissingConnection {
        coordinates: AxialCoordinates,
        direction: Direction,
        neighbor: AxialCoordinates,
    },
}

/// A tile of a loaded scenario.
#[derive(Debug, Clone, PartialEq, Eq)]
pub struct LoadedTile {
    pub id: TileId,
    pub tile_type: String,
    pub coordinates: AxialCoordinates,
    pub neighboring_tiles: NeighboringTiles,
}

/// A connection of a loaded scenario.
#[derive(Copy, Clone, Debug, PartialEq, Eq, Structural, Hash)]
pub struct LoadedConnection {
    pub id: ConnectionId,
    pub connected_tiles: ConnectedTiles,
}

/// A scenario that was found consistent.
#[derive(Debug, PartialEq, Eq)]
pub struct LoadedScenario {
    pub tiles: Vec<LoadedTile>,
    pub tile_connections: Vec<LoadedConnection>,
    pub tiles_by_coordinates: TilesByCoordinates,
}

/// Whether `link` attaches to the side `slot` of the tile number `tile`: it
/// joins two tiles of the scenario, `tile` is one of them, and the other lies
/// in the direction `slot` from it.
pub open spec fn claims(
    tiles: Seq<AxialCoordinates>,
    link: ConnectedTiles,
    tile: int,
    slot: Direction,
) -> bool {
    &&& link.0.0 < tiles.len()
    &&& link.1.0 < tiles.len()
    &&& {
        let direction = direction_between(tiles[link.0.0 as int]@, tiles[link.1.0 as int]@);
        ||| link.0.0 == tile && direction == Some(slot)
        ||| link.1.0 == tile && direction == Some(slot.reversed())
    }
}

/// Whether one of the first `count` connections attaches to the side `slot`
/// of the tile number `tile`.
pub open spec fn slot_taken(
    tiles: Seq<AxialCoordinates>,
    links: Seq<ConnectedTiles>,
    count: int,
    tile: int,
    slot: Direction,
) -> bool {
    exists|k: int| 0 <= k < count && #[trigger] claims(tiles, links[k], tile, slot)
}

/// What is wrong with the connection number `k`, given the connections
/// before it: it names a tile that does not exist, it joins two tiles that
/// are not neighbors, or it attaches to a side of one of its two tiles that
/// an earlier connection is attached to.
pub open spec fn connection_fault(
    tiles: Seq<AxialCoordinates>,
    links: Seq<ConnectedTiles>,
    k: int,
) -> Option<LoadError> {
    let first = links[k].0;
    let second = links[k].1;
    let connection = ConnectionId(k as usize);
    if first.0 >= tiles.len() {
        Some(LoadError::OutOfBoundsTileIndex { tile: first, connection })
    } else if second.0 >= tiles.len() {
        Some(LoadError::OutOfBoundsTileIndex { tile: second, connection })
    } else {
        match direction_between(tiles[first.0 as int]@, tiles[second.0 as int]@) {
            None => Some(LoadError::NonAdjacentConnection { first, second }),
            Some(slot) => if slot_taken(tiles, links, k, first.0 as int, slot) {
                Some(LoadError::DuplicateConnection { slot, connection, tile: first })
            } else if slot_taken(tiles, links, k, second.0 as int, slot.reversed()) {
                Some(
                    LoadError::DuplicateConnection {
                        slot: slot.reversed(),
                        connection,
                        tile: second,
                    },
                )
            } else {
                None
            },
        }
    }
}

/// What is wrong with the first of the first `count` connections that has a
/// fault.
pub open spec fn first_connection_fault(
    tiles: Seq<AxialCoordinates>,
    links: Seq<ConnectedTiles>,
    count: int,
) -> Option<LoadError>
    decreases count,
{
    if count <= 0 {
        None
    } else {
        match first_connection_fault(tiles, links, count - 1) {
            Some(fault) => Some(fault),
            None => connection_fault(tiles, links, count - 1),
        }
    }
}

/// Whether one of the first `count` tiles lies at `position`.
pub open spec fn position_taken(
    tiles: Seq<AxialCoordinates>,
    count: int,
    position: AxialCoordinates,
) -> bool {
    exists|i: int| 0 <= i < count && #[trigger] tiles[i] == position
}

/// What is wrong with the position of the tile number `tile`, given the
/// tiles before it: one of them lies at the same position.
pub open spec fn position_fault(tiles: Seq<AxialCoordinates>, tile: int) -> Option<LoadError> {
    if position_taken(tiles, tile, tiles[tile]) {
        let earlier = choose|i: int| 0 <= i < tile && #[trigger] tiles[i] == tiles[tile];
        Some(
            LoadError::DuplicateCoordinates {
                coordinates: tiles[tile],
                first: TileId(earlier as usize),
                second: TileId(tile as usize),
            },
        )
    } else {
        None
    }
}

/// What is wrong with the first of the first `count` tiles that shares its
/// position with an earlier tile.
pub open spec fn first_position_fault(tiles: Seq<AxialCoordinates>, count: int) -> Option<
    LoadError,
>
    decreases count,
{
    if count <= 0 {
        None
    } else {
        match first_position_fault(tiles, count - 1) {
            Some(fault) => Some(fault),
            None => position_fault(tiles, count - 1),
        }
    }
}

/// The position one step in `direction` from `position`.
pub open spec fn step(position: (int, int), direction: Direction) -> (int, int) {
    (position.0 + direction.offset().0, position.1 + direction.offset().1)
}

/// Whether the scenario has a tile at `position`.
pub open spec fn tile_at(tiles: Seq<AxialCoordinates>, position: (int, int)) -> bool {
    exists|j: int| 0 <= j < tiles.len() && (#[trigger] tiles[j])@ == position
}

/// Whether the tile number `tile` has a neighbor in the direction `slot`
/// and no connection attached to that side.
pub open spec fn lacks_connection(
    tiles: Seq<AxialCoordinates>,
    links: Seq<ConnectedTiles>,
    tile: int,
    slot: Direction,
) -> bool {
    &&& !slot_taken(tiles, links, links.len() as int, tile, slot)
    &&& tile_at(tiles, step(tiles[tile]@, slot))
}

/// The error that reports that the tile at `position` lacks a connection to
/// its neighbor in `direction`.
pub open spec fn missing_connection(position: AxialCoordinates, direction: Direction) -> LoadError {
    LoadError::MissingConnection {
        coordinates: position,
        direction,
        neighbor: AxialCoordinates {
            q: (position.q + direction.offset().0) as i32,
            r: (position.r + direction.offset().1) as i32,
        },
    }
}

/// The first side of the tile number `tile`, in the order right, lower
/// right, lower left, left, upper left, upper right, on which the tile has a
/// neighbor and no connection.
pub open spec fn neighbor_fault(
    tiles: Seq<AxialCoordinates>,
    links: Seq<ConnectedTiles>,
    tile: int,
) -> Option<LoadError> {
    if lacks_connection(tiles, links, tile, Direction::Right) {
        Some(missing_connection(tiles[tile], Direction::Right))
    } else if lacks_connection(tiles, links, tile, Direction::LowerRight) {
        Some(missing_connection(tiles[tile], Direction::LowerRight))
    } else if lacks_connection(tiles, links, tile, Direction::LowerLeft) {
        Some(missing_connection(tiles[tile], Direction::LowerLeft))
    } else if lacks_connection(tiles, links, tile, Direction::Left) {
        Some(missing_connection(tiles[tile], Direction::Left))
    } else if lacks_connection(tiles, links, tile, Direction::UpperLeft) {
        Some(missing_connection(tiles[tile], Direction::UpperLeft))
    } else if lacks_connection(tiles, links, tile, Direction::UpperRight) {
        Some(missing_connection(tiles[tile], Direction::UpperRight))
    } else {
        None
    }
}

/// What is wrong with the first of the first `count` tiles that lacks a
/// connection to one of its neighbors.
pub open spec fn first_neighbor_fault(
    tiles: Seq<AxialCoordinates>,
    links: Seq<ConnectedTiles>,
    count: int,
) -> Option<LoadError>
    decreases count,
{
    if count <= 0 {
        None
    } else {
        match first_neighbor_fault(tiles, links, count - 1) {
            Some(fault) => Some(fault),
            None => neighbor_fault(tiles, links, count - 1),
        }
    }
}

/// The first fault of a scenario, if it has one: the connections are
/// examined first, in their order, then the positions of the tiles, then
/// the neighbors of each tile.
pub open spec fn load_fault(tiles: Seq<AxialCoordinates>, links: Seq<ConnectedTiles>) -> Option<
    LoadError,
> {
    match first_connection_fault(tiles, links, links.len() as int) {
        Some(fault) => Some(fault),
        None => match first_position_fault(tiles, tiles.len() as int) {
            Some(fault) => Some(fault),
            None => first_neighbor_fault(tiles, links, tiles.len() as int),
        },
    }
}

/// Whether `slots` holds, for each side of each tile, the one of the first
/// `count` connections that attaches to it, and nothing where none does.
pub open spec fn slots_resolved(
    tiles: Seq<AxialCoordinates>,
    links: Seq<ConnectedTiles>,
    count: int,
    slots: Seq<NeighboringTiles>,
) -> bool {
    &&& slots.len() == tiles.len()
    &&& forall|tile: int, slot: Direction, k: int|
        0 <= tile < tiles.len() && 0 <= k < count && #[trigger] claims(tiles, links[k], tile, slot)
            ==> slots[tile].slot(slot) == Some(ConnectionId(k as usize))
    &&& forall|tile: int, slot: Direction|
        0 <= tile < tiles.len() ==> match #[trigger] slots[tile].slot(slot) {
            Some(connection) => connection.0 < count && claims(
                tiles,
                links[connection.0 as int],
                tile,
                slot,
            ),
            None => true,
        }
}

/// Whether `table` holds exactly the positions of the first `count` tiles,
/// each with the number of its tile.
pub open spec fn table_resolved(
    tiles: Seq<AxialCoordinates>,
    count: int,
    table: Map<(int, int), int>,
) -> bool {
    &&& forall|position: (int, int)| #[trigger]
        table.contains_key(position) ==> 0 <= table[position] < count
            && tiles[table[position]]@ == position
    &&& forall|tile: int|
        0 <= tile < count ==> table.contains_key((#[trigger] tiles[tile])@) && table[tiles[tile]@]
            == tile
}

impl NeighboringTiles {
    /// The connection attached to the side `direction`, if there is one.
    pub open spec fn slot(self, direction: Direction) -> Option<ConnectionId> {
        match direction {
            Direction::Right => self.right,
            Direction::LowerRight => self.lower_right,
            Direction::LowerLeft => self.lower_left,
            Direction::Left => self.left,
            Direction::UpperLeft => self.upper_left,
            Direction::UpperRight => self.upper_right,
        }
    }

    /// No connection on any side.
    pub fn new() -> (result: Self)
        ensures
            forall|direction: Direction| result.slot(direction) is None,
    {
        NeighboringTiles {
            right: None,
            upper_right: None,
            lower_right: None,
            left: None,
            lower_left: None,
            upper_left: None,
        }
    }

    /// The connection attached to the side `direction`, if there is one.
    pub fn get(&self, direction: Direction) -> (result: Option<ConnectionId>)
        ensures
            result == self.slot(direction),
    {
        match direction {
            Direction::Right => self.right,
            Direction::LowerRight => self.lower_right,
            Direction::LowerLeft => self.lower_left,
            Direction::Left => self.left,
            Direction::UpperLeft => self.upper_left,
            Direction::UpperRight => self.upper_right,
        }
    }

    /// The same sides, with `connection` attached to the side `direction`.
    pub fn with(self, direction: Direction, connection: ConnectionId) -> (result: Self)
        ensures
            result.slot(direction) == Some(connection),
            forall|other: Direction| other != direction ==> result.slot(other) == self.slot(other),
    {
        match direction {
            Direction::Right => NeighboringTiles { right: Some(connection), ..self },
            Direction::LowerRight => NeighboringTiles { lower_right: Some(connection), ..self },
            Direction::LowerLeft => NeighboringTiles { lower_left: Some(connection), ..self },
            Direction::Left => NeighboringTiles { left: Some(connection), ..self },
            Direction::UpperLeft => NeighboringTiles { upper_left: Some(connection), ..self },
            Direction::UpperRight => NeighboringTiles { upper_right: Some(connection), ..self },
        }
    }
}


/// Whether `link` joins two tiles of the scenario that are neighbors.
pub open spec fn joins_neighbors(tiles: Seq<AxialCoordinates>, link: ConnectedTiles) -> bool {
    &&& link.0.0 < tiles.len()
    &&& link.1.0 < tiles.len()
    &&& direction_between(tiles[link.0.0 as int]@, tiles[link.1.0 as int]@) is Some
}

/// Whether a scenario is consistent: every connection joins two
/// neighboring tiles, no two connections attach to the same side of a tile,
/// no two tiles lie at the same position, and every tile has a connection on
/// each side on which it has a neighbor.
pub open spec fn is_consistent(tiles: Seq<AxialCoordinates>, links: Seq<ConnectedTiles>) -> bool {
    &&& forall|k: int| 0 <= k < links.len() ==> joins_neighbors(tiles, #[trigger] links[k])
    &&& forall|j: int, k: int, tile: int, slot: Direction|
        0 <= j < k < links.len() && #[trigger] claims(tiles, links[j], tile, slot) ==> !#[trigger] claims(
            tiles,
            links[k],
            tile,
            slot,
        )
    &&& forall|i: int, j: int| 0 <= i < j < tiles.len() ==> #[trigger] tiles[i] != #[trigger] tiles[j]
    &&& forall|i: int, j: int, slot: Direction|
        0 <= i < tiles.len() && 0 <= j < tiles.len() && direction_between(
            (#[trigger] tiles[i])@,
            (#[trigger] tiles[j])@,
        ) == Some(slot) ==> #[trigger] slot_taken(tiles, links, links.len() as int, i, slot)
}

/// None of the first connections has a fault exactly if each of them is
/// without fault, given the connections before it.
proof fn lemma_no_connection_fault(
    tiles: Seq<AxialCoordinates>,
    links: Seq<ConnectedTiles>,
    count: int,
)
    ensures
        first_connection_fault(tiles, links, count) is None <==> forall|k: int|
            0 <= k < count ==> (#[trigger] connection_fault(tiles, links, k)) is None,
    decreases count,
{
    if count > 0 {
        lemma_no_connection_fault(tiles, links, count - 1);
    }
}

/// None of the first tiles shares its position with an earlier tile exactly
/// if each of them lies where no earlier tile lies.
proof fn lemma_no_position_fault(tiles: Seq<AxialCoordinates>, count: int)
    ensures
        first_position_fault(tiles, count) is None <==> forall|tile: int|
            0 <= tile < count ==> (#[trigger] position_fault(tiles, tile)) is None,
    decreases count,
{
    if count > 0 {
        lemma_no_position_fault(tiles, count - 1);
    }
}

/// None of the first tiles lacks a connection exactly if each of them has a
/// connection to each of its neighbors.
proof fn lemma_no_neighbor_fault(
    tiles: Seq<AxialCoordinates>,
    links: Seq<ConnectedTiles>,
    count: int,
)
    ensures
        first_neighbor_fault(tiles, links, count) is None <==> forall|tile: int|
            0 <= tile < count ==> (#[trigger] neighbor_fault(tiles, links, tile)) is None,
    decreases count,
{
    if count > 0 {
        lemma_no_neighbor_fault(tiles, links, count - 1);
    }
}

/// A scenario without fault is consistent.
proof fn lemma_faultless_is_consistent(tiles: Seq<AxialCoordinates>, links: Seq<ConnectedTiles>)
    requires
        load_fault(tiles, links) is None,
    ensures
        is_consistent(tiles, links),
{
    lemma_no_connection_fault(tiles, links, links.len() as int);
    lemma_no_position_fault(tiles, tiles.len() as int);
    lemma_no_neighbor_fault(tiles, links, tiles.len() as int);
    assert forall|k: int| 0 <= k < links.len() implies joins_neighbors(
        tiles,
        #[trigger] links[k],
    ) by {
        assert(connection_fault(tiles, links, k) is None);
    }
    assert forall|j: int, k: int, tile: int, slot: Direction|
        0 <= j < k < links.len() && #[trigger] claims(tiles, links[j], tile, slot) implies !#[trigger] claims(
        tiles,
        links[k],
        tile,
        slot,
    ) by {
        assert(connection_fault(tiles, links, k) is None);
    }
    assert forall|i: int, j: int| 0 <= i < j < tiles.len() implies #[trigger] tiles[i]
        != #[trigger] tiles[j] by {
        assert(position_fault(tiles, j) is None);
    }
    assert forall|i: int, j: int, slot: Direction|
        0 <= i < tiles.len() && 0 <= j < tiles.len() && direction_between(
            (#[trigger] tiles[i])@,
            (#[trigger] tiles[j])@,
        ) == Some(slot) implies #[trigger] slot_taken(tiles, links, links.len() as int, i, slot) by {
        assert(neighbor_fault(tiles, links, i) is None);
        assert(tiles[j]@ == step(tiles[i]@, slot));
        assert(tile_at(tiles, step(tiles[i]@, slot)));
        assert(!lacks_connection(tiles, links, i, slot));
    }
}

/// A consistent scenario is without fault.
proof fn lemma_consistent_is_faultless(tiles: Seq<AxialCoordinates>, links: Seq<ConnectedTiles>)
    requires
        is_consistent(tiles, links),
    ensures
        load_fault(tiles, links) is None,
{
    lemma_no_connection_fault(tiles, links, links.len() as int);
    lemma_no_position_fault(tiles, tiles.len() as int);
    lemma_no_neighbor_fault(tiles, links, tiles.len() as int);
    assert forall|k: int| 0 <= k < links.len() implies (#[trigger] connection_fault(
        tiles,
        links,
        k,
    )) is None by {
        assert(joins_neighbors(tiles, links[k]));
        let first = links[k].0.0 as int;
        let second = links[k].1.0 as int;
        let slot = direction_between(tiles[first]@, tiles[second]@).unwrap();
        assert(claims(tiles, links[k], first, slot));
        assert(claims(tiles, links[k], second, slot.reversed()));
    }
    assert forall|tile: int| 0 <= tile < tiles.len() implies (#[trigger] position_fault(
        tiles,
        tile,
    )) is None by {
        if position_taken(tiles, tile, tiles[tile]) {
            let earlier = choose|i: int| 0 <= i < tile && #[trigger] tiles[i] == tiles[tile];
            assert(tiles[earlier] != tiles[tile]);
        }
    }
    assert forall|tile: int| 0 <= tile < tiles.len() implies (#[trigger] neighbor_fault(
        tiles,
        links,
        tile,
    )) is None by {
        assert forall|slot: Direction| !lacks_connection(tiles, links, tile, slot) by {
            if tile_at(tiles, step(tiles[tile]@, slot)) {
                let other = choose|j: int|
                    0 <= j < tiles.len() && (#[trigger] tiles[j])@ == step(tiles[tile]@, slot);
                assert(direction_between(tiles[tile]@, tiles[other]@) == Some(slot));
                assert(slot_taken(tiles, links, links.len() as int, tile, slot));
            }
        }
    }
}

/// A scenario has no fault exactly if it is consistent: so
/// [`Scenario::load`] succeeds on the consistent scenarios and on no others.
pub proof fn lemma_load_fault_iff_inconsistent(
    tiles: Seq<AxialCoordinates>,
    links: Seq<ConnectedTiles>,
)
    ensures
        load_fault(tiles, links) is None <==> is_consistent(tiles, links),
{
    if load_fault(tiles, links) is None {
        lemma_faultless_is_consistent(tiles, links);
    }
    if is_consistent(tiles, links) {
        lemma_consistent_is_faultless(tiles, links);
    }
}

/// A connection that is attached to a side of a tile is attached to the
/// opposite side of the tile's neighbor on that side.
pub proof fn lemma_sides_are_symmetric(
    tiles: Seq<AxialCoordinates>,
    links: Seq<ConnectedTiles>,
    slots: Seq<NeighboringTiles>,
    tile: int,
    slot: Direction,
)
    requires
        slots_resolved(tiles, links, links.len() as int, slots),
        0 <= tile < tiles.len(),
        slots[tile].slot(slot) is Some,
    ensures
        exists|neighbor: int|
            0 <= neighbor < tiles.len() && direction_between(
                tiles[tile]@,
                (#[trigger] tiles[neighbor])@,
            ) == Some(slot) && slots[neighbor].slot(slot.reversed()) == slots[tile].slot(slot),
{
    let connection = slots[tile].slot(slot).unwrap();
    let link = links[connection.0 as int];
    assert(claims(tiles, link, tile, slot));
    let neighbor = if link.0.0 == tile && direction_between(
        tiles[link.0.0 as int]@,
        tiles[link.1.0 as int]@,
    ) == Some(slot) {
        link.1.0 as int
    } else {
        link.0.0 as int
    };
    assert(claims(tiles, links[connection.0 as int], neighbor, slot.reversed()));
    assert(direction_between(tiles[tile]@, tiles[neighbor]@) == Some(slot));
}

/// The tiles of a hexagonal map, each at the position of its place, lie at
/// different positions.
pub proof fn lemma_places_are_distinct(tiles: Seq<AxialCoordinates>, radius: int)
    requires
        0 <= radius,
        tiles.len() == tile_amount(radius),
        forall|index: int|
            0 <= index < tiles.len() ==> (#[trigger] tiles[index])@ == coordinates_of(
                radius,
                index,
            ),
    ensures
        first_position_fault(tiles, tiles.len() as int) is None,
{
    lemma_no_position_fault(tiles, tiles.len() as int);
    assert forall|tile: int| 0 <= tile < tiles.len() implies (#[trigger] position_fault(
        tiles,
        tile,
    )) is None by {
        if position_taken(tiles, tile, tiles[tile]) {
            let earlier = choose|i: int| 0 <= i < tile && #[trigger] tiles[i] == tiles[tile];
            lemma_index_of_coordinates_of(radius, earlier);
            lemma_index_of_coordinates_of(radius, tile);
        }
    }
}

/// A fault found among the first connections stays the first fault when
/// more connections are examined.
proof fn lemma_connection_fault_persists(
    tiles: Seq<AxialCoordinates>,
    links: Seq<ConnectedTiles>,
    found: int,
    count: int,
)
    requires
        0 <= found <= count,
        first_connection_fault(tiles, links, found) is Some,
    ensures
        first_connection_fault(tiles, links, count) == first_connection_fault(tiles, links, found),
    decreases count - found,
{
    if found < count {
        lemma_connection_fault_persists(tiles, links, found, count - 1);
    }
}

/// A shared position found among the first tiles stays the first fault when
/// more tiles are examined.
proof fn lemma_position_fault_persists(tiles: Seq<AxialCoordinates>, found: int, count: int)
    requires
        0 <= found <= count,
        first_position_fault(tiles, found) is Some,
    ensures
        first_position_fault(tiles, count) == first_position_fault(tiles, found),
    decreases count - found,
{
    if found < count {
        lemma_position_fault_persists(tiles, found, count - 1);
    }
}

/// A missing connection found among the first tiles stays the first fault
/// when more tiles are examined.
proof fn lemma_neighbor_fault_persists(
    tiles: Seq<AxialCoordinates>,
    links: Seq<ConnectedTiles>,
    found: int,
    count: int,
)
    requires
        0 <= found <= count,
        first_neighbor_fault(tiles, links, found) is Some,
    ensures
        first_neighbor_fault(tiles, links, count) == first_neighbor_fault(tiles, links, found),
    decreases count - found,
{
    if found < count {
        lemma_neighbor_fault_persists(tiles, links, found, count - 1);
    }
}

impl Scenario {
    /// The positions of the tiles, in their order.
    pub open spec fn positions(&self) -> Seq<AxialCoordinates> {
        Seq::new(self.tiles@.len(), |i: int| self.tiles@[i].coordinates)
    }

    /// The pairs of tiles that the connections join, in their order.
    pub open spec fn links(&self) -> Seq<ConnectedTiles> {
        Seq::new(self.tile_connections@.len(), |k: int| self.tile_connections@[k].connected_tiles)
    }

    /// The scenario with the given connections whose tiles are of the given
    /// types and lie where a hexagonal map stores them: the tile number
    /// `index` at the coordinates of the place `index`.
    ///
    /// Fails if no map of a radius from 0 to 255 has exactly as many places
    /// as there are tiles.
    pub fn on_hexagonal_map(tile_types: Vec<String>, tile_connections: Vec<TileConnection>) -> (result:
        Result<Scenario, InvalidTileAmount>)
        ensures
            match result {
                Ok(scenario) => scenario.tile_connections@ == tile_connections@
                    && scenario.tiles@.len() == tile_types@.len() && exists|radius: int|
                    0 <= radius <= 255 && #[trigger] tile_amount(radius) == tile_types@.len()
                        && forall|index: int|
                        0 <= index < tile_types@.len() ==> (#[trigger] scenario.tiles@[index]).tile_type
                            == tile_types@[index] && scenario.tiles@[index].coordinates@
                            == coordinates_of(radius, index),
                Err(error) => error == InvalidTileAmount(tile_types@.len() as usize)
                    && !is_tile_amount(tile_types@.len() as int),
            },
    {
        let map = match HexagonalMap::from_vec(tile_types) {
            Ok(map) => map,
            Err(error) => {
                return Err(error);
            },
        };
        let radius = map.radius();
        let placed = map.iter_with_coordinates();
        let ghost pairs = placed@;
        let mut tiles: Vec<ScenarioTile> = Vec::new();
        for pair in remaining: placed
            invariant
                remaining.seq() == pairs,
                tiles@.len() == remaining.index(),
                forall|index: int|
                    0 <= index < tiles@.len() ==> (#[trigger] tiles@[index]).tile_type
                        == pairs[index].0 && tiles@[index].coordinates == pairs[index].1,
        {
            tiles.push(ScenarioTile { tile_type: pair.0, coordinates: pair.1 });
        }
        assert(tile_amount(radius.0 as int) == tile_types@.len());
        Ok(Scenario { tiles, tile_connections })
    }

    /// Attaches the connection number `k` to the sides of its two tiles.
    fn attach(&self, slots: &mut Vec<NeighboringTiles>, k: usize) -> (result: Result<(), LoadError>)
        requires
            k < self.tile_connections@.len(),
            slots_resolved(self.positions(), self.links(), k as int, old(slots)@),
        ensures
            match result {
                Ok(_) => connection_fault(self.positions(), self.links(), k as int) is None
                    && slots_resolved(self.positions(), self.links(), k + 1, final(slots)@),
                Err(fault) => connection_fault(self.positions(), self.links(), k as int) == Some(
                    fault,
                ),
            },
    {
        let ghost tiles = self.positions();
        let ghost links = self.links();
        let link = self.tile_connections[k].connected_tiles;
        let first = link.0;
        let second = link.1;
        let connection = ConnectionId(k);
        if first.0 >= self.tiles.len() {
            return Err(LoadError::OutOfBoundsTileIndex { tile: first, connection });
        }
        if second.0 >= self.tiles.len() {
            return Err(LoadError::OutOfBoundsTileIndex { tile: second, connection });
        }
        let from = self.tiles[first.0].coordinates;
        let to = self.tiles[second.0].coordinates;
        let slot = match from.neighboring(&to) {
            None => {
                return Err(LoadError::NonAdjacentConnection { first, second });
            },
            Some(slot) => slot,
        };
        let back = slot.opposite();
        let first_sides = slots[first.0];
        if first_sides.get(slot).is_some() {
            proof {
                let earlier = first_sides.slot(slot).unwrap();
                assert(claims(tiles, links[earlier.0 as int], first.0 as int, slot));
            }
            return Err(LoadError::DuplicateConnection { slot, connection, tile: first });
        }
        let second_sides = slots[second.0];
        if second_sides.get(back).is_some() {
            proof {
                let earlier = second_sides.slot(back).unwrap();
                assert(claims(tiles, links[earlier.0 as int], second.0 as int, back));
            }
            return Err(LoadError::DuplicateConnection { slot: back, connection, tile: second });
        }
        assert(first.0 != second.0);
        slots.set(first.0, first_sides.with(slot, connection));
        slots.set(second.0, second_sides.with(back, connection));
        proof {
            let before = old(slots)@;
            let after = slots@;
            assert forall|tile: int, side: Direction, j: int|
                0 <= tile < tiles.len() && 0 <= j < k + 1 && #[trigger] claims(
                    tiles,
                    links[j],
                    tile,
                    side,
                ) implies after[tile].slot(side) == Some(ConnectionId(j as usize)) by {
                if j < k {
                    assert(before[tile].slot(side) == Some(ConnectionId(j as usize)));
                }
            }
            assert forall|tile: int, side: Direction| 0 <= tile < tiles.len() implies match #[trigger] after[tile].slot(
                side,
            ) {
                Some(attached) => attached.0 < k + 1 && claims(
                    tiles,
                    links[attached.0 as int],
                    tile,
                    side,
                ),
                None => true,
            } by {
                if (tile == first.0 && side == slot) || (tile == second.0 && side == back) {
                } else {
                    assert(after[tile].slot(side) == before[tile].slot(side));
                }
            }
        }
        Ok(())
    }

    /// Attaches every connection to the sides of its two tiles.
    fn resolve_connections(&self) -> (result: Result<Vec<NeighboringTiles>, LoadError>)
        ensures
            match result {
                Ok(slots) => first_connection_fault(
                    self.positions(),
                    self.links(),
                    self.links().len() as int,
                ) is None && slots_resolved(
                    self.positions(),
                    self.links(),
                    self.links().len() as int,
                    slots@,
                ),
                Err(fault) => first_connection_fault(
                    self.positions(),
                    self.links(),
                    self.links().len() as int,
                ) == Some(fault),
            },
    {
        let ghost tiles = self.positions();
        let ghost links = self.links();
        let mut slots: Vec<NeighboringTiles> = Vec::new();
        let mut tile: usize = 0;
        while tile < self.tiles.len()
            invariant
                tile <= self.tiles@.len(),
                slots@.len() == tile,
                forall|i: int, side: Direction|
                    0 <= i < tile ==> (#[trigger] slots@[i].slot(side)) is None,
            decreases self.tiles@.len() - tile,
        {
            slots.push(NeighboringTiles::new());
            tile += 1;
        }
        let mut k: usize = 0;
        while k < self.tile_connections.len()
            invariant
                k <= self.tile_connections@.len(),
                tiles == self.positions(),
                links == self.links(),
                slots_resolved(tiles, links, k as int, slots@),
                first_connection_fault(tiles, links, k as int) is None,
            decreases self.tile_connections@.len() - k,
        {
            match self.attach(&mut slots, k) {
                Ok(_) => {},
                Err(fault) => {
                    proof {
                        lemma_connection_fault_persists(tiles, links, k + 1, links.len() as int);
                    }
                    return Err(fault);
                },
            }
            k += 1;
        }
        Ok(slots)
    }

    /// Enters every tile in a table, by its position.
    fn index_tiles(&self) -> (result: Result<TilesByCoordinates, LoadError>)
        ensures
            match result {
                Ok(table) => first_position_fault(self.positions(), self.positions().len() as int)
                    is None && table_resolved(
                    self.positions(),
                    self.positions().len() as int,
                    table@,
                ),
                Err(fault) => first_position_fault(
                    self.positions(),
                    self.positions().len() as int,
                ) == Some(fault),
            },
    {
        let ghost tiles = self.positions();
        let mut table = TilesByCoordinates::new();
        let mut tile: usize = 0;
        while tile < self.tiles.len()
            invariant
                tile <= self.tiles@.len(),
                tiles == self.positions(),
                table_resolved(tiles, tile as int, table@),
                first_position_fault(tiles, tile as int) is None,
            decreases self.tiles@.len() - tile,
        {
            let coordinates = self.tiles[tile].coordinates;
            match table.get(coordinates) {
                Some(first) => {
                    proof {
                        assert(tiles[first.0 as int] == coordinates);
                        let earlier = choose|i: int|
                            0 <= i < tile && #[trigger] tiles[i] == tiles[tile as int];
                        assert(table@[tiles[earlier]@] == earlier);
                        lemma_position_fault_persists(tiles, tile + 1, tiles.len() as int);
                    }
                    return Err(
                        LoadError::DuplicateCoordinates {
                            coordinates,
                            first,
                            second: TileId(tile),
                        },
                    );
                },
                None => {},
            }
            proof {
                if position_taken(tiles, tile as int, tiles[tile as int]) {
                    let earlier = choose|i: int|
                        0 <= i < tile && #[trigger] tiles[i] == tiles[tile as int];
                    assert(table@.contains_key(tiles[earlier]@));
                }
            }
            table.insert(coordinates, TileId(tile));
            tile += 1;
        }
        Ok(table)
    }

    /// Looks for a neighbor of the tile number `tile` in `direction` to
    /// which the tile has no connection.
    fn check_side(
        &self,
        slots: &Vec<NeighboringTiles>,
        table: &TilesByCoordinates,
        tile: usize,
        direction: Direction,
    ) -> (result: Option<LoadError>)
        requires
            tile < self.tiles@.len(),
            slots_resolved(self.positions(), self.links(), self.links().len() as int, slots@),
            table_resolved(self.positions(), self.positions().len() as int, table@),
        ensures
            result == if lacks_connection(self.positions(), self.links(), tile as int, direction) {
                Some(missing_connection(self.positions()[tile as int], direction))
            } else {
                None
            },
    {
        let ghost tiles = self.positions();
        let ghost links = self.links();
        let coordinates = self.tiles[tile].coordinates;
        if slots[tile].get(direction).is_some() {
            proof {
                let attached = slots@[tile as int].slot(direction).unwrap();
                assert(claims(tiles, links[attached.0 as int], tile as int, direction));
            }
            return None;
        }
        let step = direction.unit_vector();
        let q: i64 = coordinates.q as i64 + step.q as i64;
        let r: i64 = coordinates.r as i64 + step.r as i64;
        if q < i32::MIN as i64 || q > i32::MAX as i64 || r < i32::MIN as i64 || r > i32::MAX as i64 {
            return None;
        }
        let neighbor = AxialCoordinates::new(q as i32, r as i32);
        match table.get(neighbor) {
            Some(found) => {
                proof {
                    assert(tiles[found.0 as int]@ == neighbor@);
                }
                Some(LoadError::MissingConnection { coordinates, direction, neighbor })
            },
            None => None,
        }
    }

    /// Looks for a neighbor of the tile number `tile` to which the tile has
    /// no connection.
    fn check_neighbors(
        &self,
        slots: &Vec<NeighboringTiles>,
        table: &TilesByCoordinates,
        tile: usize,
    ) -> (result: Option<LoadError>)
        requires
            tile < self.tiles@.len(),
            slots_resolved(self.positions(), self.links(), self.links().len() as int, slots@),
            table_resolved(self.positions(), self.positions().len() as int, table@),
        ensures
            result == neighbor_fault(self.positions(), self.links(), tile as int),
    {
        if let Some(fault) = self.check_side(slots, table, tile, Direction::Right) {
            return Some(fault);
        }
        if let Some(fault) = self.check_side(slots, table, tile, Direction::LowerRight) {
            return Some(fault);
        }
        if let Some(fault) = self.check_side(slots, table, tile, Direction::LowerLeft) {
            return Some(fault);
        }
        if let Some(fault) = self.check_side(slots, table, tile, Direction::Left) {
            return Some(fault);
        }
        if let Some(fault) = self.check_side(slots, table, tile, Direction::UpperLeft) {
            return Some(fault);
        }
        self.check_side(slots, table, tile, Direction::UpperRight)
    }

    /// Looks for a pair of neighboring tiles without a connection.
    fn check_completeness(&self, slots: &Vec<NeighboringTiles>, table: &TilesByCoordinates) -> (result:
        Option<LoadError>)
        requires
            slots_resolved(self.positions(), self.links(), self.links().len() as int, slots@),
            table_resolved(self.positions(), self.positions().len() as int, table@),
        ensures
            result == first_neighbor_fault(
                self.positions(),
                self.links(),
                self.positions().len() as int,
            ),
    {
        let ghost tiles = self.positions();
        let ghost links = self.links();
        let mut tile: usize = 0;
        while tile < self.tiles.len()
            invariant
                tile <= self.tiles@.len(),
                tiles == self.positions(),
                links == self.links(),
                slots_resolved(tiles, links, links.len() as int, slots@),
                table_resolved(tiles, tiles.len() as int, table@),
                first_neighbor_fault(tiles, links, tile as int) is None,
            decreases self.tiles@.len() - tile,
        {
            if let Some(fault) = self.check_neighbors(slots, table, tile) {
                proof {
                    lemma_neighbor_fault_persists(tiles, links, tile + 1, tiles.len() as int);
                }
                return Some(fault);
            }
            tile += 1;
        }
        None
    }

    /// Checks that the scenario is consistent and resolves its connections.
    ///
    /// The scenario is refused with its first fault: a connection that names
    /// a tile that does not exist, joins two tiles that are not neighbors or
    /// attaches to a side of a tile that is taken; then two tiles at one
    /// position; then two neighboring tiles without a connection. Otherwise
    /// each tile comes back with its identifier, its type, its position and
    /// the connection on each of its sides, each connection with its
    /// identifier and its two tiles, and a table that finds each tile by its
    /// position.
    pub fn load(&self) -> (result: Result<LoadedScenario, LoadError>)
        ensures
            match result {
                Ok(loaded) => load_fault(self.positions(), self.links()) is None
                    && loaded.describes(*self),
                Err(fault) => load_fault(self.positions(), self.links()) == Some(fault),
            },
    {
        let slots = match self.resolve_connections() {
            Ok(slots) => slots,
            Err(fault) => {
                return Err(fault);
            },
        };
        let tiles_by_coordinates = match self.index_tiles() {
            Ok(table) => table,
            Err(fault) => {
                return Err(fault);
            },
        };
        if let Some(fault) = self.check_completeness(&slots, &tiles_by_coordinates) {
            return Err(fault);
        }
        let mut tiles: Vec<LoadedTile> = Vec::new();
        let mut tile: usize = 0;
        while tile < self.tiles.len()
            invariant
                tile <= self.tiles@.len(),
                slots@.len() == self.tiles@.len(),
                tiles@.len() == tile,
                forall|i: int|
                    0 <= i < tile ==> (#[trigger] tiles@[i]) == (LoadedTile {
                        id: TileId(i as usize),
                        tile_type: self.tiles@[i].tile_type,
                        coordinates: self.tiles@[i].coordinates,
                        neighboring_tiles: slots@[i],
                    }),
            decreases self.tiles@.len() - tile,
        {
            tiles.push(
                LoadedTile {
                    id: TileId(tile),
                    tile_type: self.tiles[tile].tile_type.clone(),
                    coordinates: self.tiles[tile].coordinates,
                    neighboring_tiles: slots[tile],
                },
            );
            tile += 1;
        }
        let mut tile_connections: Vec<LoadedConnection> = Vec::new();
        let mut k: usize = 0;
        while k < self.tile_connections.len()
            invariant
                k <= self.tile_connections@.len(),
                tile_connections@.len() == k,
                forall|j: int|
                    0 <= j < k ==> (#[trigger] tile_connections@[j]) == (LoadedConnection {
                        id: ConnectionId(j as usize),
                        connected_tiles: self.tile_connections@[j].connected_tiles,
                    }),
            decreases self.tile_connections@.len() - k,
        {
            tile_connections.push(
                LoadedConnection {
                    id: ConnectionId(k),
                    connected_tiles: self.tile_connections[k].connected_tiles,
                },
            );
            k += 1;
        }
        let loaded = LoadedScenario { tiles, tile_connections, tiles_by_coordinates };
        proof {
            assert(loaded.sides() =~= slots@);
        }
        Ok(loaded)
    }
}

impl LoadedScenario {
    /// The connections on the sides of each tile, in the order of the tiles.
    pub open spec fn sides(&self) -> Seq<NeighboringTiles> {
        Seq::new(self.tiles@.len(), |i: int| self.tiles@[i].neighboring_tiles)
    }

    /// Whether this is what loading `scenario` gives: its tiles and
    /// connections in their order, each with its number as identifier; on
    /// each side of each tile the connection that attaches to it; in the
    /// table each tile by its position.
    pub open spec fn describes(&self, scenario: Scenario) -> bool {
        &&& self.tiles@.len() == scenario.tiles@.len()
        &&& forall|i: int|
            0 <= i < self.tiles@.len() ==> {
                &&& (#[trigger] self.tiles@[i]).id == TileId(i as usize)
                &&& self.tiles@[i].tile_type == scenario.tiles@[i].tile_type
                &&& self.tiles@[i].coordinates == scenario.tiles@[i].coordinates
            }
        &&& slots_resolved(
            scenario.positions(),
            scenario.links(),
            scenario.links().len() as int,
            self.sides(),
        )
        &&& self.tile_connections@.len() == scenario.tile_connections@.len()
        &&& forall|k: int|
            0 <= k < self.tile_connections@.len() ==> (#[trigger] self.tile_connections@[k])
                == (LoadedConnection {
                id: ConnectionId(k as usize),
                connected_tiles: scenario.tile_connections@[k].connected_tiles,
            })
        &&& table_resolved(
            scenario.positions(),
            scenario.positions().len() as int,
            self.tiles_by_coordinates@,
        )
    }
}

} // verus!
