use point10::utils::StreamingMedian;
use point10::v1::median_diff;

#[test]
fn median_of_three_exhaustive_small() {
    // every triple over {0, 1, 2}: the result is the element at index 1
    // of a stable sort (for ties the values coincide, so the middle
    // value is unambiguous)
    for a in 0i32..3 {
        for b in 0i32..3 {
            for c in 0i32..3 {
                let mut sorted = [a, b, c];
                sorted.sort();
                assert_eq!(median_diff(&[a, b, c]), sorted[1], "triple {:?}", (a, b, c));
            }
        }
    }
}

#[test]
fn median_of_three_distinct() {
    assert_eq!(median_diff(&[5, 10, 15]), 10);
    assert_eq!(median_diff(&[15, 5, 10]), 10);
    assert_eq!(median_diff(&[-7, 9, 3]), 3);
    assert_eq!(median_diff(&[i32::MIN, 0, i32::MAX]), 0);
}

#[test]
fn streaming_median_starts_at_zero() {
    let m = StreamingMedian::new();
    assert_eq!(m.get(), 0);
}

#[test]
fn streaming_median_tracks_window() {
    let mut m = StreamingMedian::new();
    for v in [3, 9, 1, 7, 5] {
        m.add(v);
    }
    // window now holds 3, 9, 1, 7, 5 in sorted slots; the middle is 5
    assert_eq!(m.get(), 5);
}

#[test]
fn streaming_median_deterministic() {
    // identical add-sequences from the zero state give identical medians
    let adds = [14, -3, 14, 200, -77, 0, 3, 3, 9, -1, 55, 1000, -1000, 17];
    let mut a = StreamingMedian::new();
    let mut b = StreamingMedian::new();
    for v in adds {
        a.add(v);
        b.add(v);
        assert_eq!(a.get(), b.get());
    }
}
