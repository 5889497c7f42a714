use strategy_game::coordinates::{AxialCoordinates, Direction};
use strategy_game::lookup::{TileId, TilesByCoordinates};
use strategy_game::radius::InvalidTileAmount;
use strategy_game::scenario::{
    ConnectedTiles, ConnectionId, LoadError, LoadedConnection, NeighboringTiles, Scenario,
    ScenarioTile, TileConnection,
};

fn scenario(tiles: &[(i32, i32)], connections: &[(usize, usize)]) -> Scenario {
    Scenario {
        tiles: tiles
            .iter()
            .enumerate()
            .map(|(number, (q, r))| ScenarioTile {
                tile_type: format!("type_{number}"),
                coordinates: AxialCoordinates::new(*q, *r),
            })
            .collect(),
        tile_connections: connections
            .iter()
            .map(|(first, second)| TileConnection {
                connected_tiles: ConnectedTiles(TileId(*first), TileId(*second)),
            })
            .collect(),
    }
}

// The tile in the middle and the six tiles around it, in the order of the
// six directions.
fn seven_tiles() -> Vec<(i32, i32)> {
    vec![(0, 0), (1, 0), (0, 1), (-1, 1), (-1, 0), (0, -1), (1, -1)]
}

fn spokes() -> Vec<(usize, usize)> {
    vec![(0, 1), (0, 2), (0, 3), (0, 4), (0, 5), (0, 6)]
}

fn rim() -> Vec<(usize, usize)> {
    vec![(1, 2), (2, 3), (3, 4), (4, 5), (5, 6), (6, 1)]
}

fn sides(slots: [Option<usize>; 6]) -> NeighboringTiles {
    NeighboringTiles {
        right: slots[0].map(ConnectionId),
        lower_right: slots[1].map(ConnectionId),
        lower_left: slots[2].map(ConnectionId),
        left: slots[3].map(ConnectionId),
        upper_left: slots[4].map(ConnectionId),
        upper_right: slots[5].map(ConnectionId),
    }
}

#[test]
fn second_connection_on_one_side_is_refused() {
    let twice = scenario(&[(0, 0), (1, 0), (1, 0)], &[(0, 1), (0, 2)]);
    assert_eq!(
        twice.load().unwrap_err(),
        LoadError::DuplicateConnection {
            slot: Direction::Right,
            connection: ConnectionId(1),
            tile: TileId(0),
        }
    );
    let repeated = scenario(&[(0, 0), (1, 0), (0, 1)], &[(0, 1), (0, 1)]);
    assert_eq!(
        repeated.load().unwrap_err(),
        LoadError::DuplicateConnection {
            slot: Direction::Right,
            connection: ConnectionId(1),
            tile: TileId(0),
        }
    );
}

#[test]
fn connection_in_both_directions_is_refused() {
    let there_and_back = scenario(&[(0, 0), (1, 0)], &[(0, 1), (1, 0)]);
    assert_eq!(
        there_and_back.load().unwrap_err(),
        LoadError::DuplicateConnection {
            slot: Direction::Left,
            connection: ConnectionId(1),
            tile: TileId(1),
        }
    );
    let shared_far_end = scenario(&[(0, 0), (1, 0), (0, 0)], &[(0, 1), (2, 1)]);
    assert_eq!(
        shared_far_end.load().unwrap_err(),
        LoadError::DuplicateConnection {
            slot: Direction::Left,
            connection: ConnectionId(1),
            tile: TileId(1),
        }
    );
}

#[test]
fn neighbors_without_connection_are_refused() {
    let unconnected = scenario(&[(0, 0), (1, 0)], &[]);
    assert_eq!(
        unconnected.load().unwrap_err(),
        LoadError::MissingConnection {
            coordinates: AxialCoordinates::new(0, 0),
            direction: Direction::Right,
            neighbor: AxialCoordinates::new(1, 0),
        }
    );
    let reversed = scenario(&[(1, 0), (0, 0)], &[]);
    assert_eq!(
        reversed.load().unwrap_err(),
        LoadError::MissingConnection {
            coordinates: AxialCoordinates::new(1, 0),
            direction: Direction::Left,
            neighbor: AxialCoordinates::new(0, 0),
        }
    );
}

#[test]
fn connection_between_distant_tiles_is_refused() {
    let distant = scenario(&[(0, 0), (2, 0)], &[(0, 1)]);
    assert_eq!(
        distant.load().unwrap_err(),
        LoadError::NonAdjacentConnection { first: TileId(0), second: TileId(1) }
    );
    let to_itself = scenario(&[(0, 0)], &[(0, 0)]);
    assert_eq!(
        to_itself.load().unwrap_err(),
        LoadError::NonAdjacentConnection { first: TileId(0), second: TileId(0) }
    );
}

#[test]
fn connection_to_unknown_tile_is_refused() {
    let second_unknown = scenario(&[(0, 0), (1, 0)], &[(0, 1), (1, 2)]);
    assert_eq!(
        second_unknown.load().unwrap_err(),
        LoadError::OutOfBoundsTileIndex { tile: TileId(2), connection: ConnectionId(1) }
    );
    let first_unknown = scenario(&[(0, 0), (1, 0)], &[(7, 9)]);
    assert_eq!(
        first_unknown.load().unwrap_err(),
        LoadError::OutOfBoundsTileIndex { tile: TileId(7), connection: ConnectionId(0) }
    );
    let no_tiles = scenario(&[], &[(0, 0)]);
    assert_eq!(
        no_tiles.load().unwrap_err(),
        LoadError::OutOfBoundsTileIndex { tile: TileId(0), connection: ConnectionId(0) }
    );
}

#[test]
fn two_tiles_at_one_position_are_refused() {
    let stacked = scenario(&[(0, 0), (3, 3), (0, 0)], &[]);
    assert_eq!(
        stacked.load().unwrap_err(),
        LoadError::DuplicateCoordinates {
            coordinates: AxialCoordinates::new(0, 0),
            first: TileId(0),
            second: TileId(2),
        }
    );
}

#[test]
fn connections_are_examined_before_positions_and_neighbors() {
    let faulty = scenario(&[(0, 0), (1, 0), (0, 0), (5, 5)], &[(0, 3)]);
    assert_eq!(
        faulty.load().unwrap_err(),
        LoadError::NonAdjacentConnection { first: TileId(0), second: TileId(3) }
    );
    let stacked_neighbors = scenario(&[(0, 0), (1, 0), (0, 0)], &[]);
    assert_eq!(
        stacked_neighbors.load().unwrap_err(),
        LoadError::DuplicateCoordinates {
            coordinates: AxialCoordinates::new(0, 0),
            first: TileId(0),
            second: TileId(2),
        }
    );
}

#[test]
fn seven_connected_tiles_load() {
    let mut connections = spokes();
    connections.extend(rim());
    let complete = scenario(&seven_tiles(), &connections);
    let loaded = complete.load().unwrap();

    assert_eq!(loaded.tiles.len(), 7);
    for (number, tile) in loaded.tiles.iter().enumerate() {
        assert_eq!(tile.id, TileId(number));
        assert_eq!(tile.tile_type, format!("type_{number}"));
        assert_eq!(tile.coordinates, complete.tiles[number].coordinates);
    }
    assert_eq!(
        loaded.tiles[0].neighboring_tiles,
        sides([Some(0), Some(1), Some(2), Some(3), Some(4), Some(5)])
    );
    assert_eq!(loaded.tiles[1].neighboring_tiles, sides([None, None, Some(6), Some(0), Some(11), None]));
    assert_eq!(loaded.tiles[2].neighboring_tiles, sides([None, None, None, Some(7), Some(1), Some(6)]));
    assert_eq!(loaded.tiles[3].neighboring_tiles, sides([Some(7), None, None, None, Some(8), Some(2)]));
    assert_eq!(loaded.tiles[4].neighboring_tiles, sides([Some(3), Some(8), None, None, None, Some(9)]));
    assert_eq!(loaded.tiles[5].neighboring_tiles, sides([Some(10), Some(4), Some(9), None, None, None]));
    assert_eq!(loaded.tiles[6].neighboring_tiles, sides([None, Some(11), Some(5), Some(10), None, None]));

    assert_eq!(loaded.tile_connections.len(), 12);
    for (number, connection) in loaded.tile_connections.iter().enumerate() {
        assert_eq!(
            *connection,
            LoadedConnection {
                id: ConnectionId(number),
                connected_tiles: complete.tile_connections[number].connected_tiles,
            }
        );
    }

    for (number, (q, r)) in seven_tiles().into_iter().enumerate() {
        assert_eq!(
            loaded.tiles_by_coordinates.get(AxialCoordinates::new(q, r)),
            Some(TileId(number))
        );
    }
    assert_eq!(loaded.tiles_by_coordinates.get(AxialCoordinates::new(2, 0)), None);
    assert_eq!(loaded.tiles_by_coordinates.get(AxialCoordinates::new(1, 1)), None);
}

#[test]
fn seven_tiles_without_rim_connections_are_refused() {
    let spokes_only = scenario(&seven_tiles(), &spokes());
    assert_eq!(
        spokes_only.load().unwrap_err(),
        LoadError::MissingConnection {
            coordinates: AxialCoordinates::new(1, 0),
            direction: Direction::LowerLeft,
            neighbor: AxialCoordinates::new(0, 1),
        }
    );
}

#[test]
fn sides_without_neighbor_need_no_connection() {
    let alone = scenario(&[(4, -9)], &[]);
    let loaded = alone.load().unwrap();
    assert_eq!(loaded.tiles[0].neighboring_tiles, NeighboringTiles::new());
    assert_eq!(loaded.tiles[0].neighboring_tiles, sides([None; 6]));

    let apart = scenario(&[(0, 0), (2, 0), (0, 2), (-2, 2)], &[]);
    assert!(apart.load().is_ok());

    let pair = scenario(&[(0, 0), (0, 1)], &[(1, 0)]);
    let loaded = pair.load().unwrap();
    assert_eq!(loaded.tiles[0].neighboring_tiles, sides([None, Some(0), None, None, None, None]));
    assert_eq!(loaded.tiles[1].neighboring_tiles, sides([None, None, None, None, Some(0), None]));

    let corners = scenario(
        &[(i32::MAX, i32::MAX), (i32::MIN, i32::MIN), (i32::MAX, i32::MIN), (i32::MIN, i32::MAX)],
        &[],
    );
    assert!(corners.load().is_ok());

    let empty = scenario(&[], &[]);
    let loaded = empty.load().unwrap();
    assert!(loaded.tiles.is_empty());
    assert!(loaded.tile_connections.is_empty());
}

#[test]
fn neighboring_tiles_keep_what_is_attached() {
    let none = NeighboringTiles::new();
    assert_eq!(none.get(Direction::Left), None);
    let one = none.with(Direction::Left, ConnectionId(4));
    assert_eq!(one.get(Direction::Left), Some(ConnectionId(4)));
    assert_eq!(one.left, Some(ConnectionId(4)));
    assert_eq!(one.get(Direction::Right), None);
    let two = one.with(Direction::UpperRight, ConnectionId(9));
    assert_eq!(two, sides([None, None, None, Some(4), None, Some(9)]));
    assert_eq!(two.with(Direction::Left, ConnectionId(1)).get(Direction::Left), Some(ConnectionId(1)));
}

#[test]
fn table_finds_tiles_by_their_coordinates() {
    let mut table = TilesByCoordinates::new();
    let here = AxialCoordinates::new(3, -1);
    let there = AxialCoordinates::new(-1, 3);
    assert_eq!(table.get(here), None);
    assert_eq!(table.insert(here, TileId(5)), None);
    assert_eq!(table.get(here), Some(TileId(5)));
    assert_eq!(table.get(there), None);
    assert_eq!(table.insert(there, TileId(8)), None);
    assert_eq!(table.insert(here, TileId(6)), Some(TileId(5)));
    assert_eq!(table.get(here), Some(TileId(6)));
    assert_eq!(table.get(there), Some(TileId(8)));
    assert_eq!(table.get(AxialCoordinates::new(3, 3)), None);
}

fn connections(pairs: &[(usize, usize)]) -> Vec<TileConnection> {
    pairs
        .iter()
        .map(|(first, second)| TileConnection {
            connected_tiles: ConnectedTiles(TileId(*first), TileId(*second)),
        })
        .collect()
}

#[test]
fn tiles_of_a_map_lie_at_their_places() {
    let types: Vec<String> = (0..7).map(|number| format!("type_{number}")).collect();
    let pairs = [
        (3, 0),
        (3, 1),
        (3, 2),
        (3, 4),
        (3, 5),
        (3, 6),
        (2, 1),
        (1, 0),
        (0, 4),
        (4, 6),
        (6, 5),
        (5, 2),
    ];
    let on_map = Scenario::on_hexagonal_map(types.clone(), connections(&pairs)).unwrap();
    let places = [(-1, 1), (0, 1), (1, 0), (0, 0), (-1, 0), (1, -1), (0, -1)];
    assert_eq!(on_map.tiles.len(), 7);
    for (number, tile) in on_map.tiles.iter().enumerate() {
        assert_eq!(tile.tile_type, types[number]);
        assert_eq!(tile.coordinates, AxialCoordinates::new(places[number].0, places[number].1));
    }
    assert_eq!(on_map.tile_connections, connections(&pairs));

    let loaded = on_map.load().unwrap();
    assert_eq!(
        loaded.tiles[3].neighboring_tiles,
        sides([Some(2), Some(1), Some(0), Some(3), Some(5), Some(4)])
    );
    assert_eq!(loaded.tiles_by_coordinates.get(AxialCoordinates::new(0, 0)), Some(TileId(3)));

    let without_rim = Scenario::on_hexagonal_map(types, connections(&pairs[..6])).unwrap();
    assert_eq!(
        without_rim.load().unwrap_err(),
        LoadError::MissingConnection {
            coordinates: AxialCoordinates::new(-1, 1),
            direction: Direction::Right,
            neighbor: AxialCoordinates::new(0, 1),
        }
    );
}

#[test]
fn tiles_must_fill_a_map_to_lie_at_its_places() {
    let types: Vec<String> = (0..5).map(|number| format!("type_{number}")).collect();
    assert_eq!(
        Scenario::on_hexagonal_map(types, Vec::new()),
        Err(InvalidTileAmount(5))
    );
    assert_eq!(
        Scenario::on_hexagonal_map(Vec::new(), connections(&[(0, 0)])),
        Err(InvalidTileAmount(0))
    );
    let single = Scenario::on_hexagonal_map(vec![String::from("only")], Vec::new()).unwrap();
    assert_eq!(single.tiles[0].coordinates, AxialCoordinates::new(0, 0));
    assert!(single.load().is_ok());
}
