use strategy_game::coordinates::AxialCoordinates;
use strategy_game::radius::InvalidTileAmount;
use strategy_game::save_file::{
    SaveFile, SaveFilePath, SaveFileTile, SaveFileTileConnection, SaveFileTileData,
    TempConnectionComponent,
};

fn saved_tile(number: usize) -> SaveFileTile {
    SaveFileTile {
        tile_data: SaveFileTileData { tile_type: format!("tile_{number}") },
        tile_connection_right: SaveFileTileConnection {
            temp_data: TempConnectionComponent(3 * number),
        },
        tile_connection_lower_right: SaveFileTileConnection {
            temp_data: TempConnectionComponent(3 * number + 1),
        },
        tile_connection_lower_left: SaveFileTileConnection {
            temp_data: TempConnectionComponent(3 * number + 2),
        },
    }
}

#[test]
fn save_file_path_keeps_the_path() {
    let path = SaveFilePath::new(String::from("save_files/scenarios/test_map"));
    assert_eq!(path.relative_to_assets(), "save_files/scenarios/test_map");
    assert_eq!(SaveFilePath::new(String::new()).relative_to_assets(), "");
}

#[test]
fn saved_tiles_get_the_coordinates_of_their_places() {
    let tiles: Vec<SaveFileTile> = (0..7).map(saved_tile).collect();
    let placed = SaveFile { tiles: tiles.clone() }.into_tiles_with_coordinates().unwrap();
    let coordinates = [(-1, 1), (0, 1), (1, 0), (0, 0), (-1, 0), (1, -1), (0, -1)];
    assert_eq!(placed.len(), 7);
    for (number, (tile, position)) in placed.into_iter().enumerate() {
        assert_eq!(tile, tiles[number]);
        assert_eq!(position, AxialCoordinates::new(coordinates[number].0, coordinates[number].1));
    }
}

#[test]
fn saved_tiles_must_fill_a_map() {
    let tiles: Vec<SaveFileTile> = (0..5).map(saved_tile).collect();
    assert_eq!(SaveFile { tiles }.into_tiles_with_coordinates(), Err(InvalidTileAmount(5)));
    assert_eq!(
        SaveFile { tiles: Vec::new() }.into_tiles_with_coordinates(),
        Err(InvalidTileAmount(0))
    );
}
