use point10::point0::Point0;
use point10::v1;
use point10::v2;

fn sample_point() -> Point0 {
    Point0 {
        x: 1000,
        y: 2000,
        z: 300,
        intensity: 10,
        return_number: 1,
        number_of_returns_of_given_pulse: 1,
        scan_direction_flag: false,
        edge_of_flight_line: false,
        classification: 2,
        scan_angle_rank: 0,
        user_data: 0,
        point_source_id: 7,
    }
}

#[test]
fn bit_fields_pack_unpack_every_byte() {
    for b in 0u16..256 {
        let byte = b as u8;
        let mut p = Point0::default();
        p.populate_bit_fields_from(byte);
        assert_eq!(p.bit_fields_to_byte(), byte);
        assert!(p.return_number <= 7);
        assert!(p.number_of_returns_of_given_pulse <= 7);
    }
}

#[test]
fn record_round_trips_through_bytes() {
    let p = Point0 {
        x: -123_456,
        y: 2_000_000_000,
        z: -1,
        intensity: 65535,
        return_number: 5,
        number_of_returns_of_given_pulse: 7,
        scan_direction_flag: true,
        edge_of_flight_line: true,
        classification: 200,
        scan_angle_rank: -90,
        user_data: 17,
        point_source_id: 54321,
    };
    let mut buf: Vec<u8> = vec![0u8; 24];
    p.pack_into(&mut buf);
    let q = Point0::unpack_from(&buf);
    assert_eq!(q, p);
    // little-endian layout of the first field
    assert_eq!(buf[0], (-123_456i32).to_le_bytes()[0]);
    assert_eq!(buf[3], (-123_456i32).to_le_bytes()[3]);
    // bytes past the record are untouched
    assert_eq!(&buf[20..], &[0u8; 4]);
}

#[test]
fn first_point_is_raw_v1() {
    let p = sample_point();
    let mut compressor = v1::LasPoint0Compressor::new();
    let mut dst: Vec<u8> = Vec::new();
    compressor.init_first_point(&mut dst, &p);
    // exactly the 20 wire bytes, no coder symbols
    assert_eq!(dst.len(), 20);
    let mut decompressor = v1::LasPoint0Decompressor::new();
    let q = decompressor.decompress_first(&dst);
    assert_eq!(q, p);
}

#[test]
fn first_point_is_raw_v2() {
    let p = sample_point();
    let mut compressor = v2::LasPoint0Compressor::new();
    let mut dst: Vec<u8> = Vec::new();
    compressor.init_first_point(&mut dst, &p);
    assert_eq!(dst.len(), 20);
    let mut decompressor = v2::LasPoint0Decompressor::new();
    let q = decompressor.decompress_first(&dst);
    assert_eq!(q, p);
}

#[test]
fn compress_first_matches_pack() {
    let p = sample_point();
    let mut buf: Vec<u8> = vec![0u8; 20];
    p.pack_into(&mut buf);
    let mut compressor = v1::LasPoint0Compressor::new();
    let mut dst: Vec<u8> = Vec::new();
    compressor.compress_first(&mut dst, &buf);
    assert_eq!(dst, buf);
    assert_eq!(compressor.size_of_field(), 20);
}
