use tensoraudio::{EnvelopeLayout, Fade, FadeError, FadeShape, FadeSpan};

fn envelope_len(fade: &Fade, waveform_length: i64) -> (i64, i64) {
    let fade_in = fade.fade_in_span(waveform_length).unwrap();
    let fade_out = fade.fade_out_span(waveform_length).unwrap();
    (
        fade_in.ramp_len + fade_in.flat_len,
        fade_out.ramp_len + fade_out.flat_len,
    )
}

#[test]
fn test_fade_linear() {
    let fade = Fade::new(10, 10, "linear");
    assert_eq!(fade.shape(), FadeShape::Linear);
    assert_eq!(envelope_len(&fade, 20), (20, 20));
}

#[test]
fn test_fade_exponential() {
    let fade = Fade::new(10, 10, "exponential");
    assert_eq!(fade.shape(), FadeShape::Exponential);
    assert_eq!(envelope_len(&fade, 20), (20, 20));
}

#[test]
fn test_fade_logarithmic() {
    let fade = Fade::new(10, 10, "logarithmic");
    assert_eq!(fade.shape(), FadeShape::Logarithmic);
    assert_eq!(envelope_len(&fade, 20), (20, 20));
}

#[test]
fn test_fade_quarter_sine() {
    let fade = Fade::new(10, 10, "quarter_sine");
    assert_eq!(fade.shape(), FadeShape::QuarterSine);
    assert_eq!(envelope_len(&fade, 20), (20, 20));
}

#[test]
fn test_fade_half_sine() {
    let fade = Fade::new(10, 10, "half_sine");
    assert_eq!(fade.shape(), FadeShape::HalfSine);
    assert_eq!(envelope_len(&fade, 20), (20, 20));
}

#[test]
fn test_fade_in_length_greater_than_waveform_length() {
    let fade = Fade::new(30, 10, "linear");
    assert_eq!(envelope_len(&fade, 20), (20, 20));
    assert_eq!(
        fade.fade_in_span(20),
        Ok(FadeSpan { ramp_len: 20, flat_len: 0 })
    );
}

#[test]
fn test_fade_out_length_greater_than_waveform_length() {
    let fade = Fade::new(10, 30, "linear");
    assert_eq!(envelope_len(&fade, 20), (20, 20));
    assert_eq!(
        fade.fade_out_span(20),
        Ok(FadeSpan { ramp_len: 20, flat_len: 0 })
    );
}

#[test]
fn fade_spans_put_ramp_and_unit_gain_side_by_side() {
    let fade = Fade::new(4, 6, "half_sine");
    assert_eq!(fade.fade_in_span(20), Ok(FadeSpan { ramp_len: 4, flat_len: 16 }));
    assert_eq!(fade.fade_out_span(20), Ok(FadeSpan { ramp_len: 6, flat_len: 14 }));
    assert_eq!(fade.fade_in_span(0), Ok(FadeSpan { ramp_len: 0, flat_len: 0 }));
}

#[test]
fn unknown_shape_is_linear() {
    assert_eq!(Fade::new(1, 1, "cubic").shape(), FadeShape::Linear);
    assert_eq!(Fade::new(1, 1, "").shape(), FadeShape::Linear);
    assert_eq!(Fade::new(1, 1, "Exponential").shape(), FadeShape::Linear);
}

#[test]
fn negative_lengths_are_refused() {
    let fade = Fade::new(-1, 3, "linear");
    assert_eq!(fade.fade_in_span(10), Err(FadeError::NegativeLength));
    assert_eq!(fade.fade_out_span(10), Ok(FadeSpan { ramp_len: 3, flat_len: 7 }));
    assert_eq!(fade.fade_out_span(-2), Err(FadeError::NegativeLength));
}

#[test]
fn fade_in_ramp_comes_first_and_fade_out_ramp_last() {
    let fade = Fade::new(4, 6, "linear");
    assert_eq!(
        fade.fade_in_layout(20),
        Ok(EnvelopeLayout { ramp_start: 0, ramp_end: 4, unit_start: 4, unit_end: 20 })
    );
    assert_eq!(
        fade.fade_out_layout(20),
        Ok(EnvelopeLayout { ramp_start: 14, ramp_end: 20, unit_start: 0, unit_end: 14 })
    );
    let long = Fade::new(30, 30, "linear");
    assert_eq!(
        long.fade_out_layout(20),
        Ok(EnvelopeLayout { ramp_start: 0, ramp_end: 20, unit_start: 0, unit_end: 0 })
    );
    assert_eq!(Fade::new(-1, 0, "linear").fade_in_layout(5), Err(FadeError::NegativeLength));
}
