use point10::compressors::IntegerCompressorBuilder;
use point10::decoders::ArithmeticDecoder;
use point10::decompressors::IntegerDecompressorBuilder;
use point10::encoders::ArithmeticEncoder;
use point10::models::ArithmeticBitModel;
use point10::models::ArithmeticModelBuilder;

#[test]
fn symbols_round_trip_through_the_range_coder() {
    let symbols: Vec<u32> = vec![0, 1, 2, 63, 5, 5, 5, 0, 62, 31, 31, 1, 0, 63];
    let mut enc_model = ArithmeticModelBuilder::new(64).build();
    let mut encoder = ArithmeticEncoder::new();
    for &s in &symbols {
        encoder.encode_symbol(&mut enc_model, s);
    }
    encoder.done();
    let mut dec_model = ArithmeticModelBuilder::new(64).build();
    let mut decoder = ArithmeticDecoder::new(encoder.into_bytes());
    decoder.read_init_bytes();
    for &s in &symbols {
        assert_eq!(decoder.decode_symbol(&mut dec_model), s);
    }
}

#[test]
fn raw_bits_round_trip() {
    let mut encoder = ArithmeticEncoder::new();
    encoder.write_bits(5, 19);
    encoder.write_bits(24, 0x00ab_cdef);
    encoder.write_bits(1, 1);
    encoder.write_short(0xbeef);
    encoder.done();
    let mut decoder = ArithmeticDecoder::new(encoder.into_bytes());
    decoder.read_init_bytes();
    assert_eq!(decoder.read_bits(5), 19);
    assert_eq!(decoder.read_bits(24), 0x00ab_cdef);
    assert_eq!(decoder.read_bits(1), 1);
    assert_eq!(decoder.read_short(), 0xbeef);
}

#[test]
fn integers_round_trip_through_the_residual_coder() {
    let values: Vec<i32> = vec![0, 1, -1, 5, 100000, -100000, i32::MAX, i32::MIN, 42, 42, 42];
    let mut ic = IntegerCompressorBuilder::new().bits(32).contexts(2).build_initialized();
    let mut encoder = ArithmeticEncoder::new();
    let mut pred: i32 = 0;
    let mut widths: Vec<u32> = Vec::new();
    for &v in &values {
        ic.compress(&mut encoder, pred, v, 1);
        widths.push(ic.k());
        pred = v;
    }
    encoder.done();
    let mut id = IntegerDecompressorBuilder::new().bits(32).contexts(2).build_initialized();
    let mut decoder = ArithmeticDecoder::new(encoder.into_bytes());
    decoder.read_init_bytes();
    let mut pred: i32 = 0;
    for (i, &v) in values.iter().enumerate() {
        let got = id.decompress(&mut decoder, pred, 1);
        assert_eq!(got, v);
        // the decoder recovers the same corrector width
        assert_eq!(id.k(), widths[i]);
        pred = v;
    }
}

#[test]
fn sixteen_bit_values_round_trip() {
    let values: Vec<i32> = vec![0, 65535, 10, 20, 30000, 1, 0];
    let mut ic = IntegerCompressorBuilder::new().bits(16).build_initialized();
    let mut encoder = ArithmeticEncoder::new();
    let mut pred: i32 = 0;
    for &v in &values {
        ic.compress(&mut encoder, pred, v, 0);
        assert!(ic.k() <= 32);
        pred = v;
    }
    encoder.done();
    let mut id = IntegerDecompressorBuilder::new().bits(16).build_initialized();
    let mut decoder = ArithmeticDecoder::new(encoder.into_bytes());
    decoder.read_init_bytes();
    let mut pred: i32 = 0;
    for &v in &values {
        let got = id.decompress(&mut decoder, pred, 0);
        assert_eq!(got, v);
        assert!(id.k() <= 32);
        pred = v;
    }
}

#[test]
fn corrector_width_is_deterministic() {
    // compressing the same inputs twice yields the same k each time
    let inputs: Vec<(i32, i32)> = vec![(0, 0), (0, 1), (10, 5), (-1000, 1000), (7, 7)];
    let mut first: Vec<u32> = Vec::new();
    let mut ic = IntegerCompressorBuilder::new().bits(32).build_initialized();
    let mut encoder = ArithmeticEncoder::new();
    for &(p, v) in &inputs {
        ic.compress(&mut encoder, p, v, 0);
        assert!(ic.k() <= 32);
        first.push(ic.k());
    }
    encoder.done();
    let mut ic = IntegerCompressorBuilder::new().bits(32).build_initialized();
    let mut encoder = ArithmeticEncoder::new();
    for (i, &(p, v)) in inputs.iter().enumerate() {
        ic.compress(&mut encoder, p, v, 0);
        assert_eq!(ic.k(), first[i]);
    }
    encoder.done();
}

#[test]
fn single_bits_round_trip() {
    let bits: Vec<u32> = vec![0, 0, 1, 0, 1, 1, 1, 0, 0, 0, 0, 1];
    let mut bm = ArithmeticBitModel::new();
    let mut encoder = ArithmeticEncoder::new();
    for &b in &bits {
        encoder.encode_bit(&mut bm, b);
    }
    encoder.done();
    let mut bm = ArithmeticBitModel::new();
    let mut decoder = ArithmeticDecoder::new(encoder.into_bytes());
    decoder.read_init_bytes();
    for &b in &bits {
        assert_eq!(decoder.decode_bit(&mut bm), b);
    }
}
