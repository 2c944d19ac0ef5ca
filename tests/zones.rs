use region_scanner::{region_coords, ConfigError, Zone};

#[test]
fn zone_new_accepts_positive_extents() {
    let z = Zone::new(-1, 1, -1, 1).unwrap();
    assert_eq!((z.from_x, z.to_x, z.from_z, z.to_z), (-1, 1, -1, 1));
    assert_eq!(z.size(), 4);
}

#[test]
fn zone_new_rejects_empty_x() {
    assert_eq!(Zone::new(1, 1, 0, 2), Err(ConfigError::EmptyZone));
    assert_eq!(Zone::new(2, 1, 0, 2), Err(ConfigError::EmptyZone));
}

#[test]
fn zone_new_rejects_empty_z() {
    assert_eq!(Zone::new(0, 2, 3, 3), Err(ConfigError::EmptyZone));
    assert_eq!(Zone::new(0, 2, 3, -3), Err(ConfigError::EmptyZone));
}

#[test]
fn zone_from_coords() {
    assert_eq!(
        Zone::from_coords(&vec![0, 3, -2, 0]),
        Ok(Zone { from_x: 0, to_x: 3, from_z: -2, to_z: 0 })
    );
    assert_eq!(Zone::from_coords(&vec![0, 3, -2]), Err(ConfigError::WrongZoneLength));
    assert_eq!(Zone::from_coords(&vec![0, 3, -2, 0, 1]), Err(ConfigError::WrongZoneLength));
    assert_eq!(Zone::from_coords(&vec![0, 0, -2, 0]), Err(ConfigError::EmptyZone));
}

#[test]
fn zone_size_is_product_of_extents() {
    let z = Zone::new(-3, 2, 10, 17).unwrap();
    assert_eq!(z.size(), 35);
}

#[test]
fn region_coords_x_slowest() {
    let z = Zone::new(-1, 1, 5, 8).unwrap();
    assert_eq!(
        region_coords(&z),
        vec![(-1, 5), (-1, 6), (-1, 7), (0, 5), (0, 6), (0, 7)]
    );
}
