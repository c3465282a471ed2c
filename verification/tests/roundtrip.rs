use point10::decoders::ArithmeticDecoder;
use point10::encoders::ArithmeticEncoder;
use point10::point0::Point0;
use point10::v1;
use point10::v2;
use point10::v2::Point10ChangedValues;
use point10::v2::scan_angle_rank_symbol;

fn base_point() -> Point0 {
    Point0 {
        x: 1000,
        y: 2000,
        z: 300,
        intensity: 10,
        return_number: 1,
        number_of_returns_of_given_pulse: 1,
        scan_direction_flag: false,
        edge_of_flight_line: false,
        classification: 2,
        scan_angle_rank: 0,
        user_data: 0,
        point_source_id: 7,
    }
}

fn round_trip_v1(points: &[Point0]) -> Vec<Point0> {
    let mut compressor = v1::LasPoint0Compressor::new();
    let mut head: Vec<u8> = Vec::new();
    compressor.init_first_point(&mut head, &points[0]);
    let mut encoder = ArithmeticEncoder::new();
    for p in &points[1..] {
        compressor.compress_field_with(&mut encoder, p);
    }
    encoder.done();
    let body = encoder.into_bytes();

    let mut decompressor = v1::LasPoint0Decompressor::new();
    let mut out: Vec<Point0> = Vec::new();
    out.push(decompressor.decompress_first(&head));
    let mut decoder = ArithmeticDecoder::new(body);
    decoder.read_init_bytes();
    for _ in &points[1..] {
        out.push(decompressor.decompress_field_with(&mut decoder));
    }
    out
}

fn round_trip_v2(points: &[Point0]) -> Vec<Point0> {
    let mut compressor = v2::LasPoint0Compressor::new();
    let mut head: Vec<u8> = Vec::new();
    compressor.init_first_point(&mut head, &points[0]);
    let mut encoder = ArithmeticEncoder::new();
    for p in &points[1..] {
        compressor.compress_field_with(&mut encoder, p);
    }
    encoder.done();
    let body = encoder.into_bytes();

    let mut decompressor = v2::LasPoint0Decompressor::new();
    let mut out: Vec<Point0> = Vec::new();
    out.push(decompressor.decompress_first(&head));
    let mut decoder = ArithmeticDecoder::new(body);
    decoder.read_init_bytes();
    for _ in &points[1..] {
        out.push(decompressor.decompress_field_with(&mut decoder));
    }
    out
}

#[test]
fn two_identical_points_v2() {
    let p = base_point();
    // the intensity is tracked per bucket, which starts at zero: the
    // first repeat therefore still flags the intensity, and nothing else
    assert_eq!(Point10ChangedValues::from_points(&p, &p, 0).value, 16);
    // once the bucket has seen the intensity, nothing is flagged
    assert_eq!(Point10ChangedValues::from_points(&p, &p, 10).value, 0);
    let decoded = round_trip_v2(&[p, p]);
    assert_eq!(decoded, vec![p, p]);
    // and a third identical point decodes too
    let decoded = round_trip_v2(&[p, p, p]);
    assert_eq!(decoded, vec![p, p, p]);
}

#[test]
fn only_intensity_changes_v1_vs_v2() {
    let p0 = base_point();
    let mut p1 = p0;
    p1.intensity = 20;
    // version 1 flags the intensity on bit 5
    assert_eq!(v1::changed_values_v1(&p1, &p0), 32);
    // version 2 flags it on bit 4
    assert_eq!(Point10ChangedValues::from_points(&p1, &p0, p0.intensity).value, 16);
    let decoded = round_trip_v1(&[p0, p1]);
    assert_eq!(decoded[1].intensity, 20);
    assert_eq!(decoded, vec![p0, p1]);
    let decoded = round_trip_v2(&[p0, p1]);
    assert_eq!(decoded[1].intensity, 20);
    assert_eq!(decoded, vec![p0, p1]);
}

#[test]
fn scan_angle_rank_wraparound_v2() {
    let p0 = Point0 { scan_angle_rank: 120, ..base_point() };
    let p1 = Point0 { scan_angle_rank: -100, ..base_point() };
    // (-100 - 120) mod 256 == 36
    assert_eq!(scan_angle_rank_symbol(p1.scan_angle_rank, p0.scan_angle_rank), 36);
    let decoded = round_trip_v2(&[p0, p1]);
    assert_eq!(decoded[1].scan_angle_rank, -100);
    assert_eq!(decoded, vec![p0, p1]);
}

#[test]
fn bit_fields_change_affects_buckets_v2() {
    let p0 = base_point();
    let p1 = Point0 {
        x: 1100,
        y: 2050,
        z: 310,
        return_number: 2,
        number_of_returns_of_given_pulse: 3,
        ..base_point()
    };
    let decoded = round_trip_v2(&[p0, p1]);
    assert_eq!(decoded, vec![p0, p1]);
}

#[test]
fn three_point_window_fills_v1() {
    // x residuals 5, 10, 15: after the third compressed point the
    // median of the window is 10
    let mut points: Vec<Point0> = Vec::new();
    let mut p = base_point();
    points.push(p);
    p.x += 5;
    points.push(p);
    p.x += 10;
    points.push(p);
    p.x += 15;
    points.push(p);

    let mut compressor = v1::LasPoint0Compressor::new();
    let mut head: Vec<u8> = Vec::new();
    compressor.init_first_point(&mut head, &points[0]);
    let mut encoder = ArithmeticEncoder::new();
    for q in &points[1..] {
        compressor.compress_field_with(&mut encoder, q);
    }
    encoder.done();

    let mut decompressor = v1::LasPoint0Decompressor::new();
    decompressor.decompress_first(&head);
    let mut decoder = ArithmeticDecoder::new(encoder.into_bytes());
    decoder.read_init_bytes();
    for _ in 0..3 {
        decompressor.decompress_field_with(&mut decoder);
    }
    assert_eq!(decompressor.median_x_diff(), 10);
}

#[test]
fn varied_sequence_round_trips_v1() {
    let points = varied_points();
    assert_eq!(round_trip_v1(&points), points);
}

#[test]
fn varied_sequence_round_trips_v2() {
    let points = varied_points();
    assert_eq!(round_trip_v2(&points), points);
}

#[test]
fn pseudo_random_sequence_round_trips_v1() {
    let points = pseudo_random_points(300);
    assert_eq!(round_trip_v1(&points), points);
}

#[test]
fn pseudo_random_sequence_round_trips_v2() {
    let points = pseudo_random_points(300);
    assert_eq!(round_trip_v2(&points), points);
}

fn varied_points() -> Vec<Point0> {
    vec![
        base_point(),
        Point0 { x: -5000, y: 123, z: -99999, intensity: 0, ..base_point() },
        Point0 {
            x: i32::MAX,
            y: i32::MIN,
            z: 0,
            intensity: 65535,
            return_number: 7,
            number_of_returns_of_given_pulse: 7,
            scan_direction_flag: true,
            edge_of_flight_line: true,
            classification: 255,
            scan_angle_rank: -128,
            user_data: 255,
            point_source_id: 65535,
        },
        Point0 { scan_angle_rank: 127, ..base_point() },
        base_point(),
        base_point(),
        Point0 { user_data: 3, point_source_id: 9, classification: 31, ..base_point() },
    ]
}

fn pseudo_random_points(n: usize) -> Vec<Point0> {
    // a small linear congruential generator keeps the data deterministic
    let mut state: u64 = 0x1234_5678_9abc_def0;
    let mut next = move || {
        state = state.wrapping_mul(6364136223846793005).wrapping_add(1442695040888963407);
        (state >> 16) as u32
    };
    let mut points: Vec<Point0> = Vec::new();
    let mut p = base_point();
    for _ in 0..n {
        p.x = p.x.wrapping_add((next() % 2000) as i32 - 1000);
        p.y = p.y.wrapping_add((next() % 2000) as i32 - 1000);
        p.z = p.z.wrapping_add((next() % 100) as i32 - 50);
        if next() % 4 == 0 {
            p.intensity = (next() % 65536) as u16;
        }
        if next() % 8 == 0 {
            let mut q = Point0::default();
            q.populate_bit_fields_from((next() % 256) as u8);
            p.return_number = q.return_number;
            p.number_of_returns_of_given_pulse = q.number_of_returns_of_given_pulse;
            p.scan_direction_flag = q.scan_direction_flag;
            p.edge_of_flight_line = q.edge_of_flight_line;
        }
        if next() % 8 == 0 {
            p.classification = (next() % 256) as u8;
        }
        if next() % 8 == 0 {
            p.scan_angle_rank = (next() % 256) as u8 as i8;
        }
        if next() % 16 == 0 {
            p.user_data = (next() % 256) as u8;
        }
        if next() % 16 == 0 {
            p.point_source_id = (next() % 65536) as u16;
        }
        points.push(p);
    }
    points
}
