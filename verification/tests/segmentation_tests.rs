use tensoraudio::{desegment_layout, segment_channels, segment_layout, SegmentError, SegmentPlan};

#[test]
fn plan_counts_segments_and_padding() {
    // 100 samples, segments of 1 s at 10 Hz overlapping by 2 samples.
    let plan = segment_layout(100, 1, 10, 2).unwrap();
    assert_eq!(
        plan,
        SegmentPlan {
            total_samples: 100,
            segment_samples: 10,
            overlap_length: 2,
            step_size: 8,
            num_segments: 13,
            padding: 6,
        }
    );
}

#[test]
fn plan_without_padding() {
    // 30 samples, segments of 10 without overlap: exactly three segments.
    let plan = segment_layout(30, 2, 5, 0).unwrap();
    assert_eq!(plan.num_segments, 3);
    assert_eq!(plan.padding, 0);
}

#[test]
fn plan_errors() {
    assert_eq!(segment_layout(100, 1, 10, 10), Err(SegmentError::NonPositiveStep));
    assert_eq!(segment_layout(100, 1, 10, 12), Err(SegmentError::NonPositiveStep));
    assert_eq!(segment_layout(0, 1, 10, 2), Err(SegmentError::EmptyAudio));
    assert_eq!(segment_layout(100, 1, 10, -1), Err(SegmentError::NegativeOverlap));
    assert_eq!(segment_layout(100, i64::MAX, 2, 0), Err(SegmentError::Overflow));
    assert_eq!(segment_layout(100, 0, 10, 0), Err(SegmentError::NonPositiveStep));
}

#[test]
fn segments_cover_the_audio_and_pad_with_zero() {
    let left: Vec<i32> = (0..7).collect();
    let right: Vec<i32> = (100..107).collect();
    let plan = segment_layout(7, 1, 5, 2).unwrap();
    assert_eq!((plan.step_size, plan.num_segments, plan.padding), (3, 2, 1));
    let segments = segment_channels(&[left, right], &plan, -1);
    assert_eq!(
        segments,
        vec![
            vec![vec![0, 1, 2, 3, 4], vec![100, 101, 102, 103, 104]],
            vec![vec![3, 4, 5, 6, -1], vec![103, 104, 105, 106, -1]],
        ]
    );
}

#[test]
fn fewest_segments_that_cover_the_audio() {
    // 8 samples, segments of 4 overlapping by 2: segments at 0, 2 and 4
    // cover the audio exactly.
    let plan = segment_layout(8, 1, 4, 2).unwrap();
    assert_eq!((plan.step_size, plan.num_segments, plan.padding), (2, 3, 0));
    let audio: Vec<Vec<i32>> = vec![(0..8).collect()];
    let segments = segment_channels(&audio, &plan, -1);
    assert_eq!(
        segments,
        vec![vec![vec![0, 1, 2, 3]], vec![vec![2, 3, 4, 5]], vec![vec![4, 5, 6, 7]]]
    );
    // Audio no longer than one segment takes one segment.
    let short = segment_layout(3, 1, 4, 2).unwrap();
    assert_eq!((short.num_segments, short.padding), (1, 1));
    // As many segments as ceil((T - L) / (S - L)) for T = 44100 * 3 + 17.
    let long = segment_layout(44_100 * 3 + 17, 1, 44_100, 4410).unwrap();
    let expected = ((44_100 * 3 + 17 - 4410) as f64 / (44_100 - 4410) as f64).ceil() as i64;
    assert_eq!(long.num_segments, expected);
}

#[test]
fn segments_of_float_audio_have_segment_shape() {
    let audio: Vec<Vec<f32>> = vec![vec![0.25; 25], vec![-0.25; 25]];
    let plan = segment_layout(25, 1, 10, 1).unwrap();
    let segments = segment_channels(&audio, &plan, 0.0);
    assert_eq!(segments.len() as i64, plan.num_segments);
    for segment in &segments {
        assert_eq!(segment.len(), 2);
        for channel in segment {
            assert_eq!(channel.len() as i64, plan.segment_samples);
        }
    }
    assert_eq!(segments[2][0][6], 0.25);
    assert_eq!(segments[2][0][7], 0.0);
}

#[test]
fn desegment_restores_the_cut_length() {
    for &(total, overlap) in &[(100i64, 2i64), (30, 0), (7, 1), (8, 2), (3, 2), (44_100 * 3 + 17, 4410)] {
        let rate = if total > 1000 { 44_100 } else { 10 };
        let plan = segment_layout(total, 1, rate, overlap).unwrap();
        let layout = desegment_layout(plan.num_segments, 1, rate, overlap, plan.padding).unwrap();
        assert_eq!(layout.output_length, total);
        assert_eq!(layout.total_padded, total + plan.padding);
    }
}

#[test]
fn desegment_layout_values() {
    let layout = desegment_layout(13, 1, 10, 2, 6).unwrap();
    assert_eq!(layout.segment_samples, 10);
    assert_eq!(layout.step_size, 8);
    assert_eq!(layout.total_padded, 106);
    assert_eq!(layout.output_length, 100);
    assert_eq!(layout.fade_len, 1);
    assert_eq!(layout.segment_window(0), (0, 10));
    assert_eq!(layout.segment_window(12), (96, 106));
}

#[test]
fn desegment_layout_errors() {
    assert_eq!(desegment_layout(3, 1, 10, -3, 0), Err(SegmentError::NegativeOverlap));
    assert_eq!(desegment_layout(1, -1, 10, 0, 0), Err(SegmentError::NegativeLength));
    assert_eq!(desegment_layout(i64::MAX, 1, 10, 2, 0), Err(SegmentError::Overflow));
    // An overlap of -1 halves to a fade of 0 samples.
    assert_eq!(desegment_layout(2, 1, 10, -1, 0).unwrap().fade_len, 0);
    // Without padding the whole padded length is kept.
    assert_eq!(desegment_layout(2, 1, 10, 2, 0).unwrap().output_length, 18);
    assert_eq!(desegment_layout(2, 1, 10, 2, -4).unwrap().output_length, 18);
    // Segments that do not advance, and padding beyond the padded length, are
    // laid out as they come.
    let still = desegment_layout(3, 1, 10, 10, 0).unwrap();
    assert_eq!((still.step_size, still.total_padded), (0, 10));
    assert_eq!(still.segment_window(2), (0, 10));
    assert_eq!(desegment_layout(3, 1, 10, 2, 27).unwrap().output_length, -1);
}
