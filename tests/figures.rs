use libapollo::figures::{
    latitude_map, longitude_map, make_status_data, pack_bools_to_byte, unpack_bools,
    unpack_status_blocks, StatusBoolsArray, StatusFlagsLat,
};

const EXAMPLE_STATUSES: [StatusBoolsArray; 2] = [
    [true, true, false, true, true, true, true, false],
    [false, true, false, false, false, false, false, false],
];

fn make_statuses(status_bools: [StatusBoolsArray; 2]) -> [u8; 2] {
    [pack_bools_to_byte(status_bools[0]), pack_bools_to_byte(status_bools[1])]
}

fn degrees_to_units(degrees: f64) -> i64 {
    (degrees * 10_000_000.0).round() as i64
}

#[test]
fn check_status_packing() {
    let attempt: [u8; 2] = make_statuses(EXAMPLE_STATUSES);
    let expected_output: [u8; 2] = [0b01111011u8, 0b00000010u8];
    assert_eq!(
        attempt, expected_output,
        "\nexpected: [{:08b}, {:08b}]\nfound:    [{:08b}, {:08b}]",
        expected_output[0], expected_output[1], attempt[0], attempt[1]
    );
}

#[test]
fn pack_fewer_than_eight_bools() {
    assert_eq!(pack_bools_to_byte([true, false, true]), 0b101);
    assert_eq!(pack_bools_to_byte::<0>([]), 0);
}

#[test]
fn unpack_bools_round_trips_every_array() {
    for byte in 0u16..256 {
        let bools = unpack_bools(byte as u8);
        assert_eq!(pack_bools_to_byte(bools) as u16, byte);
    }
    assert_eq!(unpack_bools(pack_bools_to_byte(EXAMPLE_STATUSES[0])), EXAMPLE_STATUSES[0]);
    assert_eq!(unpack_bools(0x02), [false, true, false, false, false, false, false, false]);
}

#[test]
fn status_flags_altitude_bucket() {
    // 9 km is bucket 4: bit 2 of the altitude nibble, i.e. bit 6 of the byte.
    let flags = StatusFlagsLat::new(true, false, true, true, 9_000);
    assert_eq!(flags.into_byte(), 0b0100_1101);
    // 40 km clamps to 15.
    let high = StatusFlagsLat::new(false, false, false, false, 40_000);
    assert_eq!(high.into_byte(), 0b1111_0000);
    let ground = StatusFlagsLat::new(false, true, false, false, 1_999);
    assert_eq!(ground.into_byte(), 0b0000_0010);
}

#[test]
fn coordinate_map_latitude_round_trip() {
    let map = latitude_map();
    let x = degrees_to_units(38.897957);
    let back = map.demap(map.map(x));
    assert!((back - x).abs() < 1000, "latitude came back as {}", back);
}

#[test]
fn coordinate_map_longitude_round_trip() {
    let map = longitude_map();
    let x = degrees_to_units(-77.036560);
    let back = map.demap(map.map(x));
    assert!((back - x).abs() < 1000, "longitude came back as {}", back);
}

#[test]
fn coordinate_map_exact_values() {
    let lat = latitude_map();
    assert_eq!(lat.map(-900_000_000), [0, 0, 0]);
    assert_eq!(lat.map(900_000_000), [0xFF, 0xFF, 0xFF]);
    // The midpoint maps to round(16777215 / 2) = 8388608 = 0x800000.
    assert_eq!(lat.map(0), [0x00, 0x00, 0x80]);
    assert_eq!(lat.demap([0, 0, 0]), -900_000_000);
    assert_eq!(lat.demap([0xFF, 0xFF, 0xFF]), 900_000_000);
    let lon = longitude_map();
    assert_eq!(lon.map(1_800_000_000), [0xFF, 0xFF, 0xFF]);
}

#[test]
fn coordinate_map_accuracy_over_range() {
    let lat = latitude_map();
    let lon = longitude_map();
    let mut x: i64 = -900_000_000;
    while x <= 900_000_000 {
        assert!((lat.demap(lat.map(x)) - x).abs() < 1000);
        x += 7_654_321;
    }
    let mut y: i64 = -1_800_000_000;
    while y <= 1_800_000_000 {
        assert!((lon.demap(lon.map(y)) - y).abs() < 1000);
        y += 12_345_677;
    }
}

#[test]
fn status_blocks_round_trip() {
    let lat = degrees_to_units(41.1499498);
    let lon = degrees_to_units(-87.2426919);
    let blocks = make_status_data(lat, lon, EXAMPLE_STATUSES);
    assert_eq!(blocks[0][3], 0x7B);
    assert_eq!(blocks[1][3], 0x02);
    let (lat2, lon2, flags) = unpack_status_blocks(blocks);
    assert!((lat2 - lat).abs() < 1000);
    assert!((lon2 - lon).abs() < 1000);
    assert_eq!(flags, EXAMPLE_STATUSES);
}
