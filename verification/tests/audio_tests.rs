use tensoraudio::{deinterleave, duplicate_channels, from_planar, interleave, to_planar, NoiseColor};

#[test]
fn test_interleave_deinterleave() {
    // Create test data
    let channel1: Vec<f32> = vec![1.0, 2.0, 3.0];
    let channel2: Vec<f32> = vec![4.0, 5.0, 6.0];
    let channels = vec![channel1.clone(), channel2.clone()];

    // Test interleaving
    let interleaved = interleave(&channels);
    assert_eq!(interleaved, vec![1.0, 4.0, 2.0, 5.0, 3.0, 6.0]);

    // Test deinterleaving
    let deinterleaved = deinterleave(&interleaved, 2);
    assert_eq!(deinterleaved[0], channel1);
    assert_eq!(deinterleaved[1], channel2);

    // Test round trip
    let round_trip = interleave(&deinterleave(&interleaved, 2));
    assert_eq!(round_trip, interleaved);
}

#[test]
fn interleave_uses_first_channel_length() {
    let channels: Vec<Vec<i32>> = vec![vec![1, 2], vec![3, 4, 5]];
    assert_eq!(interleave(&channels), vec![1, 3, 2, 4]);
}

#[test]
fn interleave_single_channel_is_identity() {
    let channels: Vec<Vec<f32>> = vec![vec![0.5, -0.5, 0.25]];
    assert_eq!(interleave(&channels), vec![0.5, -0.5, 0.25]);
}

#[test]
fn deinterleave_uneven_length() {
    let data: Vec<i32> = vec![0, 1, 2, 3, 4, 5, 6];
    let channels = deinterleave(&data, 3);
    assert_eq!(channels, vec![vec![0, 3, 6], vec![1, 4], vec![2, 5]]);
}

#[test]
fn deinterleave_more_channels_than_samples() {
    let data: Vec<i32> = vec![7];
    let channels = deinterleave(&data, 3);
    assert_eq!(channels, vec![vec![7], vec![], vec![]]);
}

#[test]
fn deinterleave_then_interleave_round_trip() {
    let data: Vec<f32> = vec![0.0, 0.1, 0.2, 1.0, 1.1, 1.2, 2.0, 2.1, 2.2, 3.0, 3.1, 3.2];
    let channels = deinterleave(&data, 3);
    assert_eq!(channels[0], vec![0.0, 1.0, 2.0, 3.0]);
    assert_eq!(interleave(&channels), data);
}

#[test]
fn planar_layout_puts_channels_in_rows() {
    let data: Vec<i32> = vec![10, 20, 11, 21, 12, 22];
    let planar = to_planar(&data, 2);
    assert_eq!(planar, vec![10, 11, 12, 20, 21, 22]);
    assert_eq!(from_planar(&planar, 2), data);
}

#[test]
fn planar_matches_deinterleave_then_flatten() {
    let data: Vec<f32> = vec![1.0, 2.0, 3.0, 4.0, 5.0, 6.0, 7.0, 8.0, 9.0];
    let flat: Vec<f32> = deinterleave(&data, 3).into_iter().flatten().collect();
    assert_eq!(to_planar(&data, 3), flat);
}

#[test]
fn from_planar_round_trip() {
    let planar: Vec<i32> = vec![1, 2, 3, 4, 5, 6, 7, 8];
    let interleaved = from_planar(&planar, 4);
    assert_eq!(interleaved, vec![1, 3, 5, 7, 2, 4, 6, 8]);
    assert_eq!(to_planar(&interleaved, 4), planar);
}

#[test]
fn duplicate_channels_repeats_each_sample() {
    let single: Vec<f32> = vec![0.0, 0.5, -1.0];
    assert_eq!(
        duplicate_channels(&single, 2),
        vec![0.0, 0.0, 0.5, 0.5, -1.0, -1.0]
    );
    assert_eq!(duplicate_channels(&single, 1), single);
    assert!(duplicate_channels(&single, 0).is_empty());
}

#[test]
fn noise_color_is_copy() {
    let color = NoiseColor::Pink;
    let copy = color;
    assert_eq!(color, copy);
    assert_ne!(NoiseColor::White, NoiseColor::Pink);
}
