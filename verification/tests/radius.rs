use strategy_game::arithmetic::integer_square_root;
use strategy_game::radius::{InvalidTileAmount, Radius};

#[test]
fn try_from_accepts_centered_hexagonal_numbers() {
    assert_eq!(Radius::try_from(1), Ok(Radius::new(0)));
    assert_eq!(Radius::try_from(7), Ok(Radius::new(1)));
    assert_eq!(Radius::try_from(19), Ok(Radius::new(2)));
    assert_eq!(Radius::try_from(37), Ok(Radius::new(3)));
    assert_eq!(Radius::try_from(61), Ok(Radius::new(4)));
    assert_eq!(Radius::try_from(195841), Ok(Radius::new(255)));
}

#[test]
fn try_from_refuses_other_numbers() {
    assert_eq!(Radius::try_from(0), Err(InvalidTileAmount(0)));
    assert_eq!(Radius::try_from(6), Err(InvalidTileAmount(6)));
    assert_eq!(Radius::try_from(8), Err(InvalidTileAmount(8)));
    assert_eq!(Radius::try_from(195840), Err(InvalidTileAmount(195840)));
    assert_eq!(Radius::try_from(195842), Err(InvalidTileAmount(195842)));
    assert_eq!(Radius::try_from(197383), Err(InvalidTileAmount(197383)));
    assert_eq!(Radius::try_from(usize::MAX), Err(InvalidTileAmount(usize::MAX)));
}

#[test]
fn try_from_undoes_into_tile_amount() {
    let mut amounts = Vec::new();
    for rings in 0u8..=255 {
        let radius = Radius::from(rings);
        assert_eq!(radius, Radius::new(rings));
        let amount = radius.into_tile_amount();
        let rings = usize::from(rings);
        assert_eq!(amount, 3 * rings * rings + 3 * rings + 1);
        assert_eq!(Radius::try_from(amount), Ok(radius));
        amounts.push(amount);
    }
    for amount in 0usize..200000 {
        assert_eq!(Radius::try_from(amount).is_ok(), amounts.contains(&amount));
    }
}

#[test]
fn integer_square_root_rounds_down() {
    assert_eq!(integer_square_root(0), 0);
    assert_eq!(integer_square_root(1), 1);
    assert_eq!(integer_square_root(3), 1);
    assert_eq!(integer_square_root(4), 2);
    assert_eq!(integer_square_root(8), 2);
    assert_eq!(integer_square_root(9), 3);
    assert_eq!(integer_square_root(1046529), 1023);
    assert_eq!(integer_square_root(1046528), 1022);
    assert_eq!(integer_square_root(u32::MAX), 65535);
    for n in 0u32..5000 {
        let root = u64::from(integer_square_root(n));
        assert!(root * root <= u64::from(n) && u64::from(n) < (root + 1) * (root + 1));
    }
}
