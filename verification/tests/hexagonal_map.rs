use strategy_game::coordinates::AxialCoordinates;
use strategy_game::hexagonal_map::HexagonalMap;
use strategy_game::layout::{coordinates_to_index, index_to_coordinates};
use strategy_game::radius::{InvalidTileAmount, Radius};

// Each radius with the coordinates of its map, each at the place where it is stored.
fn coordinates() -> Vec<(Radius, Vec<AxialCoordinates>)> {
    vec![
        (Radius::new(0), vec![AxialCoordinates::new(0, 0)]),
        (
            Radius::new(1),
            vec![
                // r = 1
                AxialCoordinates::new(-1, 1),
                AxialCoordinates::new(0, 1),
                // r = 0
                AxialCoordinates::new(1, 0),
                AxialCoordinates::new(0, 0),
                AxialCoordinates::new(-1, 0),
                // r = -1
                AxialCoordinates::new(1, -1),
                AxialCoordinates::new(0, -1),
            ],
        ),
        (
            Radius::new(2),
            vec![
                // r = 2
                AxialCoordinates::new(-2, 2),
                AxialCoordinates::new(-1, 2),
                AxialCoordinates::new(0, 2),
                // r = 1
                AxialCoordinates::new(-2, 1),
                AxialCoordinates::new(-1, 1),
                AxialCoordinates::new(0, 1),
                AxialCoordinates::new(1, 1),
                // r = 0
                AxialCoordinates::new(2, 0),
                AxialCoordinates::new(1, 0),
                AxialCoordinates::new(0, 0),
                AxialCoordinates::new(-1, 0),
                AxialCoordinates::new(-2, 0),
                // r = -1
                AxialCoordinates::new(2, -1),
                AxialCoordinates::new(1, -1),
                AxialCoordinates::new(0, -1),
                AxialCoordinates::new(-1, -1),
                // r = -2
                AxialCoordinates::new(2, -2),
                AxialCoordinates::new(1, -2),
                AxialCoordinates::new(0, -2),
            ],
        ),
        (
            Radius::new(3),
            vec![
                // r = 3
                AxialCoordinates::new(-3, 3),
                AxialCoordinates::new(-2, 3),
                AxialCoordinates::new(-1, 3),
                AxialCoordinates::new(0, 3),
                // r = 2
                AxialCoordinates::new(-3, 2),
                AxialCoordinates::new(-2, 2),
                AxialCoordinates::new(-1, 2),
                AxialCoordinates::new(0, 2),
                AxialCoordinates::new(1, 2),
                // r = 1
                AxialCoordinates::new(-3, 1),
                AxialCoordinates::new(-2, 1),
                AxialCoordinates::new(-1, 1),
                AxialCoordinates::new(0, 1),
                AxialCoordinates::new(1, 1),
                AxialCoordinates::new(2, 1),
                // r = 0
                AxialCoordinates::new(3, 0),
                AxialCoordinates::new(2, 0),
                AxialCoordinates::new(1, 0),
                AxialCoordinates::new(0, 0),
                AxialCoordinates::new(-1, 0),
                AxialCoordinates::new(-2, 0),
                AxialCoordinates::new(-3, 0),
                // r = -1
                AxialCoordinates::new(3, -1),
                AxialCoordinates::new(2, -1),
                AxialCoordinates::new(1, -1),
                AxialCoordinates::new(0, -1),
                AxialCoordinates::new(-1, -1),
                AxialCoordinates::new(-2, -1),
                // r = -2
                AxialCoordinates::new(3, -2),
                AxialCoordinates::new(2, -2),
                AxialCoordinates::new(1, -2),
                AxialCoordinates::new(0, -2),
                AxialCoordinates::new(-1, -2),
                // r = -3
                AxialCoordinates::new(3, -3),
                AxialCoordinates::new(2, -3),
                AxialCoordinates::new(1, -3),
                AxialCoordinates::new(0, -3),
            ],
        ),
    ]
}

// Each radius with the coordinates of the ring just outside its map.
fn coordinates_out_of_bounds() -> Vec<(Radius, Vec<AxialCoordinates>)> {
    vec![
        (
            Radius::new(0),
            vec![
                // r = 1
                AxialCoordinates::new(-1, 1),
                AxialCoordinates::new(0, 1),
                // r = 0
                AxialCoordinates::new(1, 0),
                AxialCoordinates::new(-1, 0),
                // r = -1
                AxialCoordinates::new(1, -1),
                AxialCoordinates::new(0, -1),
            ],
        ),
        (
            Radius::new(1),
            vec![
                // r = 2
                AxialCoordinates::new(-2, 2),
                AxialCoordinates::new(-1, 2),
                AxialCoordinates::new(0, 2),
                // r = 1
                AxialCoordinates::new(-2, 1),
                AxialCoordinates::new(1, 1),
                // r = 0
                AxialCoordinates::new(2, 0),
                AxialCoordinates::new(-2, 0),
                // r = -1
                AxialCoordinates::new(2, -1),
                AxialCoordinates::new(-1, -1),
                // r = -2
                AxialCoordinates::new(2, -2),
                AxialCoordinates::new(1, -2),
                AxialCoordinates::new(0, -2),
            ],
        ),
        (
            Radius::new(2),
            vec![
                // r = 3
                AxialCoordinates::new(-3, 3),
                AxialCoordinates::new(-2, 3),
                AxialCoordinates::new(-1, 3),
                AxialCoordinates::new(0, 3),
                // r = 2
                AxialCoordinates::new(-3, 2),
                AxialCoordinates::new(1, 2),
                // r = 1
                AxialCoordinates::new(-3, 1),
                AxialCoordinates::new(2, 1),
                // r = 0
                AxialCoordinates::new(3, 0),
                AxialCoordinates::new(-3, 0),
                // r = -1
                AxialCoordinates::new(3, -1),
                AxialCoordinates::new(-2, -1),
                // r = -2
                AxialCoordinates::new(3, -2),
                AxialCoordinates::new(-1, -2),
                // r = -3
                AxialCoordinates::new(3, -3),
                AxialCoordinates::new(2, -3),
                AxialCoordinates::new(1, -3),
                AxialCoordinates::new(0, -3),
            ],
        ),
        (
            Radius::new(3),
            vec![
                // r = 4
                AxialCoordinates::new(-4, 4),
                AxialCoordinates::new(-3, 4),
                AxialCoordinates::new(-2, 4),
                AxialCoordinates::new(-1, 4),
                AxialCoordinates::new(0, 4),
                // r = 3
                AxialCoordinates::new(-4, 3),
                AxialCoordinates::new(1, 3),
                // r = 2
                AxialCoordinates::new(-4, 2),
                AxialCoordinates::new(2, 2),
                // r = 1
                AxialCoordinates::new(-4, 1),
                AxialCoordinates::new(3, 1),
                // r = 0
                AxialCoordinates::new(4, 0),
                AxialCoordinates::new(-4, 0),
                // r = -1
                AxialCoordinates::new(4, -1),
                AxialCoordinates::new(-3, -1),
                // r = -2
                AxialCoordinates::new(4, -2),
                AxialCoordinates::new(-2, -2),
                // r = -3
                AxialCoordinates::new(4, -3),
                AxialCoordinates::new(-1, -3),
                // r = -4
                AxialCoordinates::new(4, -4),
                AxialCoordinates::new(3, -4),
                AxialCoordinates::new(2, -4),
                AxialCoordinates::new(1, -4),
                AxialCoordinates::new(0, -4),
            ],
        ),
    ]
}

#[test]
fn test_coordinates_to_index() {
    for (radius, coordinates) in coordinates() {
        for (index, coordinates) in coordinates.into_iter().enumerate() {
            let actual_index = coordinates_to_index(radius, coordinates);
            assert_eq!(actual_index, index, "{coordinates:?}");
        }
    }
}

#[test]
fn test_get_unchecked() {
    for (radius, coordinates) in coordinates() {
        let hexagonal_map = HexagonalMap::from_vec(coordinates.clone()).unwrap();
        assert_eq!(hexagonal_map.radius(), radius);
        for coordinates in coordinates {
            assert_eq!(hexagonal_map.get_unchecked(coordinates), &coordinates);
        }
    }
}

#[test]
fn test_get() {
    for ((radius, coordinates), (_, out_of_bounds_coordinates)) in
        coordinates().into_iter().zip(coordinates_out_of_bounds())
    {
        let hexagonal_map = HexagonalMap::from_vec(coordinates.clone()).unwrap();
        assert_eq!(hexagonal_map.radius(), radius);

        for coordinates in coordinates {
            assert_eq!(hexagonal_map.get(coordinates), Some(&coordinates));
        }

        for out_of_bounds_coordinates in out_of_bounds_coordinates {
            assert_eq!(hexagonal_map.get(out_of_bounds_coordinates), None);
        }
    }
}

#[test]
fn test_index_to_coordinates() {
    for (radius, coordinates) in coordinates() {
        for (index, coordinates) in coordinates.into_iter().enumerate() {
            let actual_coordinates = index_to_coordinates(radius, index);
            assert_eq!(actual_coordinates, coordinates, "Index: {index:?}");
        }
    }
}

#[test]
fn test_from_vec() {
    for (radius, coordinates) in coordinates() {
        let hexagonal_map = HexagonalMap::try_from(coordinates.clone());
        assert_eq!(hexagonal_map, HexagonalMap::from_vec(coordinates.clone()));
        let hexagonal_map = hexagonal_map.unwrap();
        assert_eq!(hexagonal_map.tiles(), &coordinates[..]);
        assert_eq!(hexagonal_map.radius(), radius);

        let next_radius = Radius::from(radius.0 + 1);
        for amount_tiles in (radius.into_tile_amount() + 1)..next_radius.into_tile_amount() {
            assert_eq!(
                HexagonalMap::try_from(vec![0; amount_tiles]),
                Err(InvalidTileAmount(amount_tiles))
            );
        }
    }
}

#[test]
fn get_rejects_coordinates_outside_the_radius() {
    let tiles: Vec<u32> = (0..7).collect();
    let hexagonal_map = HexagonalMap::from_vec(tiles).unwrap();
    assert_eq!(hexagonal_map.radius(), Radius::new(1));
    assert_eq!(hexagonal_map.get(AxialCoordinates::new(2, 0)), None);
    assert_eq!(hexagonal_map.get(AxialCoordinates::new(1, 0)), Some(&2));
    assert_eq!(hexagonal_map.get(AxialCoordinates::new(1, 1)), None);
    assert_eq!(hexagonal_map.get(AxialCoordinates::new(-1, -1)), None);
    assert_eq!(hexagonal_map.get(AxialCoordinates::new(i32::MIN, i32::MIN)), None);
    assert_eq!(hexagonal_map.get(AxialCoordinates::new(i32::MAX, i32::MIN)), None);
    assert_eq!(hexagonal_map.get(AxialCoordinates::new(i32::MAX, i32::MAX)), None);
}

#[test]
fn get_finds_every_tile_of_larger_maps() {
    for radius in 0u8..=12 {
        let amount = Radius::new(radius).into_tile_amount();
        let hexagonal_map = HexagonalMap::from_vec((0..amount).collect::<Vec<usize>>()).unwrap();
        let reach = i32::from(radius) + 2;
        let mut found = 0;
        for q in -reach..=reach {
            for r in -reach..=reach {
                let coordinates = AxialCoordinates::new(q, r);
                match hexagonal_map.get(coordinates) {
                    Some(tile) => {
                        assert!(coordinates.distance_to_origin() <= u32::from(radius));
                        assert_eq!(index_to_coordinates(Radius::new(radius), *tile), coordinates);
                        found += 1;
                    }
                    None => assert!(coordinates.distance_to_origin() > u32::from(radius)),
                }
            }
        }
        assert_eq!(found, amount);
    }
}

#[test]
fn from_vec_keeps_the_order_of_the_tiles() {
    let tiles = vec!['a', 'b', 'c', 'd', 'e', 'f', 'g'];
    let hexagonal_map = HexagonalMap::from_vec(tiles.clone()).unwrap();
    assert_eq!(hexagonal_map.tiles(), &tiles[..]);
    assert_eq!(hexagonal_map.clone().into_vec(), tiles);
    assert_eq!(Vec::from(hexagonal_map), tiles);
}

#[test]
fn from_vec_refuses_other_lengths() {
    assert_eq!(HexagonalMap::from_vec(Vec::<u8>::new()), Err(InvalidTileAmount(0)));
    assert_eq!(HexagonalMap::from_vec(vec![0u8; 6]), Err(InvalidTileAmount(6)));
    assert_eq!(HexagonalMap::from_vec(vec![0u8; 8]), Err(InvalidTileAmount(8)));
    assert_eq!(HexagonalMap::from_vec(vec![0u8; 195842]), Err(InvalidTileAmount(195842)));
    assert_eq!(HexagonalMap::from_vec(vec![0u8; 195841]).unwrap().radius(), Radius::new(255));
}

#[test]
fn iter_with_coordinates_pairs_tiles_with_their_coordinates() {
    let hexagonal_map = HexagonalMap::from_vec(vec![10, 11, 12, 13, 14, 15, 16]).unwrap();
    assert_eq!(
        hexagonal_map.iter_with_coordinates(),
        vec![
            (10, AxialCoordinates::new(-1, 1)),
            (11, AxialCoordinates::new(0, 1)),
            (12, AxialCoordinates::new(1, 0)),
            (13, AxialCoordinates::new(0, 0)),
            (14, AxialCoordinates::new(-1, 0)),
            (15, AxialCoordinates::new(1, -1)),
            (16, AxialCoordinates::new(0, -1)),
        ]
    );
    let single = HexagonalMap::from_vec(vec!["only"]).unwrap();
    assert_eq!(single.iter_with_coordinates(), vec![("only", AxialCoordinates::new(0, 0))]);
}

#[test]
fn tiles_are_changed_in_place() {
    let mut hexagonal_map = HexagonalMap::from_vec(vec![10, 11, 12, 13, 14, 15, 16]).unwrap();
    assert!(hexagonal_map.set(AxialCoordinates::new(1, 0), 22));
    assert!(!hexagonal_map.set(AxialCoordinates::new(2, 0), 99));
    assert_eq!(hexagonal_map.tiles(), &[10, 11, 22, 13, 14, 15, 16]);

    if let Some(tile) = hexagonal_map.get_mut(AxialCoordinates::new(0, -1)) {
        *tile += 100;
    }
    assert_eq!(hexagonal_map.get_mut(AxialCoordinates::new(-1, -1)), None);
    assert_eq!(hexagonal_map.get_mut(AxialCoordinates::new(i32::MIN, i32::MIN)), None);
    assert_eq!(hexagonal_map.get(AxialCoordinates::new(0, -1)), Some(&116));
    assert_eq!(hexagonal_map.radius(), Radius::new(1));
    assert_eq!(hexagonal_map.into_vec(), vec![10, 11, 22, 13, 14, 15, 116]);
}
