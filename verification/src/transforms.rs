//! Fades: their parameters, the shape of their gain curves, and the layout of
//! the fade-in and fade-out envelopes over a waveform.
use vstd::prelude::*;
use crate::text::same_text;

verus! {

/// The curve that a fade follows over its ramp.
#[derive(Debug, Clone, Copy, PartialEq, Eq, Structural)]
pub enum FadeShape {
    Linear,
    Exponential,
    Logarithmic,
    QuarterSine,
    HalfSine,
}

/// The shape that a fade named `name` follows: the five known names select
/// their curve, and any other name selects the linear one.
pub open spec fn shape_named(name: Seq<char>) -> FadeShape {
    if name == "exponential"@ {
        FadeShape::Exponential
    } else if name == "logarithmic"@ {
        FadeShape::Logarithmic
    } else if name == "quarter_sine"@ {
        FadeShape::QuarterSine
    } else if name == "half_sine"@ {
        FadeShape::HalfSine
    } else {
        FadeShape::Linear
    }
}

/// A fade-in of `fade_in_len` samples and a fade-out of `fade_out_len`
/// samples, both following the curve named by `fade_shape`.
#[derive(Debug)]
pub struct Fade {
    fade_in_len: i64,
    fade_out_len: i64,
    fade_shape: String,
}

/// The layout of one envelope over a waveform: a ramp of `ramp_len` samples
/// and `flat_len` samples of unit gain.
#[derive(Debug, Clone, Copy, PartialEq, Eq, Structural)]
pub struct FadeSpan {
    pub ramp_len: i64,
    pub flat_len: i64,
}

/// Where an envelope's parts lie within a waveform, as half-open ranges of
/// sample positions: the ramp covers `ramp_start..ramp_end` and unit gain
/// covers `unit_start..unit_end`.
#[derive(Debug, Clone, Copy, PartialEq, Eq, Structural)]
pub struct EnvelopeLayout {
    pub ramp_start: i64,
    pub ramp_end: i64,
    pub unit_start: i64,
    pub unit_end: i64,
}

/// Why an envelope cannot be laid out.
#[derive(Debug, Clone, Copy, PartialEq, Eq, Structural)]
pub enum FadeError {
    /// The ramp would have a negative number of samples.
    NegativeLength,
}

/// The envelope of a fade of `fade_len` samples over a waveform of
/// `wave_len` samples: the ramp is as long as the fade but no longer than the
/// waveform, and unit gain fills the rest.
pub open spec fn span_of(fade_len: i64, wave_len: i64) -> Result<FadeSpan, FadeError> {
    let ramp = if fade_len < wave_len { fade_len } else { wave_len };
    if ramp < 0 {
        Err(FadeError::NegativeLength)
    } else {
        Ok(FadeSpan { ramp_len: ramp, flat_len: (wave_len - ramp) as i64 })
    }
}

/// The envelope of a fade-in over a waveform of `wave_len` samples: the
/// ramp first, from position 0, then unit gain to the end.
pub open spec fn fade_in_layout_of(fade_len: i64, wave_len: i64) -> Result<EnvelopeLayout, FadeError> {
    match span_of(fade_len, wave_len) {
        Ok(s) => Ok(
            EnvelopeLayout {
                ramp_start: 0,
                ramp_end: s.ramp_len,
                unit_start: s.ramp_len,
                unit_end: wave_len,
            },
        ),
        Err(e) => Err(e),
    }
}

/// The envelope of a fade-out over a waveform of `wave_len` samples: unit
/// gain first, from position 0, then the ramp to the end.
pub open spec fn fade_out_layout_of(fade_len: i64, wave_len: i64) -> Result<EnvelopeLayout, FadeError> {
    match span_of(fade_len, wave_len) {
        Ok(s) => Ok(
            EnvelopeLayout {
                ramp_start: s.flat_len,
                ramp_end: wave_len,
                unit_start: 0,
                unit_end: s.flat_len,
            },
        ),
        Err(e) => Err(e),
    }
}

fn span(fade_len: i64, wave_len: i64) -> (res: Result<FadeSpan, FadeError>)
    ensures
        res == span_of(fade_len, wave_len),
{
    let ramp = if fade_len < wave_len { fade_len } else { wave_len };
    if ramp < 0 {
        Err(FadeError::NegativeLength)
    } else {
        Ok(FadeSpan { ramp_len: ramp, flat_len: wave_len - ramp })
    }
}

impl Fade {
    pub closed spec fn spec_fade_in_len(&self) -> i64 {
        self.fade_in_len
    }

    pub closed spec fn spec_fade_out_len(&self) -> i64 {
        self.fade_out_len
    }

    pub closed spec fn spec_shape_name(&self) -> Seq<char> {
        self.fade_shape@
    }

    /// A fade with the given lengths and the curve named `fade_shape`.
    pub fn new(fade_in_len: i64, fade_out_len: i64, fade_shape: &str) -> (fade: Self)
        ensures
            fade.spec_fade_in_len() == fade_in_len,
            fade.spec_fade_out_len() == fade_out_len,
            fade.spec_shape_name() == fade_shape@,
    {
        Self { fade_in_len, fade_out_len, fade_shape: fade_shape.to_owned() }
    }

    /// The curve that both envelopes of this fade follow.
    pub fn shape(&self) -> (shape: FadeShape)
        ensures
            shape == shape_named(self.spec_shape_name()),
    {
        let name = self.fade_shape.as_str();
        if same_text(name, "exponential") {
            FadeShape::Exponential
        } else if same_text(name, "logarithmic") {
            FadeShape::Logarithmic
        } else if same_text(name, "quarter_sine") {
            FadeShape::QuarterSine
        } else if same_text(name, "half_sine") {
            FadeShape::HalfSine
        } else {
            FadeShape::Linear
        }
    }

    /// The layout of the fade-in envelope over a waveform of `waveform_length`
    /// samples: the ramp comes first, unit gain after it.
    pub fn fade_in_span(&self, waveform_length: i64) -> (res: Result<FadeSpan, FadeError>)
        ensures
            res == span_of(self.spec_fade_in_len(), waveform_length),
            res matches Ok(s) ==> s.ramp_len + s.flat_len == waveform_length,
    {
        span(self.fade_in_len, waveform_length)
    }

    /// The layout of the fade-out envelope over a waveform of
    /// `waveform_length` samples: unit gain comes first, the ramp after it.
    pub fn fade_out_span(&self, waveform_length: i64) -> (res: Result<FadeSpan, FadeError>)
        ensures
            res == span_of(self.spec_fade_out_len(), waveform_length),
            res matches Ok(s) ==> s.ramp_len + s.flat_len == waveform_length,
    {
        span(self.fade_out_len, waveform_length)
    }

    /// Where the fade-in envelope lies over a waveform of `waveform_length`
    /// samples: its ramp starts the waveform and unit gain fills the rest.
    pub fn fade_in_layout(&self, waveform_length: i64) -> (res: Result<EnvelopeLayout, FadeError>)
        ensures
            res == fade_in_layout_of(self.spec_fade_in_len(), waveform_length),
            res matches Ok(l) ==> {
                &&& l.ramp_start == 0
                &&& l.ramp_end == l.unit_start
                &&& l.unit_end == waveform_length
                &&& 0 <= l.ramp_end <= waveform_length
                &&& l.ramp_end - l.ramp_start == (if self.spec_fade_in_len() < waveform_length {
                    self.spec_fade_in_len()
                } else {
                    waveform_length
                })
            },
    {
        match span(self.fade_in_len, waveform_length) {
            Ok(s) => Ok(
                EnvelopeLayout {
                    ramp_start: 0,
                    ramp_end: s.ramp_len,
                    unit_start: s.ramp_len,
                    unit_end: waveform_length,
                },
            ),
            Err(e) => Err(e),
        }
    }

    /// Where the fade-out envelope lies over a waveform of `waveform_length`
    /// samples: unit gain starts the waveform and its ramp ends it.
    pub fn fade_out_layout(&self, waveform_length: i64) -> (res: Result<EnvelopeLayout, FadeError>)
        ensures
            res == fade_out_layout_of(self.spec_fade_out_len(), waveform_length),
            res matches Ok(l) ==> {
                &&& l.unit_start == 0
                &&& l.unit_end == l.ramp_start
                &&& l.ramp_end == waveform_length
                &&& 0 <= l.ramp_start <= waveform_length
                &&& l.ramp_end - l.ramp_start == (if self.spec_fade_out_len() < waveform_length {
                    self.spec_fade_out_len()
                } else {
                    waveform_length
                })
            },
    {
        match span(self.fade_out_len, waveform_length) {
            Ok(s) => Ok(
                EnvelopeLayout {
                    ramp_start: s.flat_len,
                    ramp_end: waveform_length,
                    unit_start: 0,
                    unit_end: s.flat_len,
                },
            ),
            Err(e) => Err(e),
        }
    }
}

/// A fade of `fade_len` samples over a waveform of `wave_len` samples can be
/// laid out exactly when neither length is negative; a fade of zero samples
/// is an empty ramp. The ramp is as long as the fade, or as the waveform
/// where the fade is longer, and unit gain fills the rest; the fade-in ramp
/// starts the waveform and the fade-out ramp ends it.
pub proof fn lemma_fade_layouts(fade_len: i64, wave_len: i64)
    ensures
        (span_of(fade_len, wave_len) is Ok) == (fade_len >= 0 && wave_len >= 0),
        span_of(fade_len, wave_len) matches Ok(s) ==> {
            &&& s.ramp_len <= fade_len
            &&& s.ramp_len <= wave_len
            &&& (s.ramp_len == fade_len || s.ramp_len == wave_len)
            &&& s.ramp_len + s.flat_len == wave_len
        },
        (fade_in_layout_of(fade_len, wave_len) is Ok) == (fade_len >= 0 && wave_len >= 0),
        (fade_out_layout_of(fade_len, wave_len) is Ok) == (fade_len >= 0 && wave_len >= 0),
        fade_in_layout_of(fade_len, wave_len) matches Ok(l) ==> {
            &&& l.ramp_start == 0
            &&& l.ramp_end == span_of(fade_len, wave_len)->Ok_0.ramp_len
            &&& l.unit_start == l.ramp_end
            &&& l.unit_end == wave_len
        },
        fade_out_layout_of(fade_len, wave_len) matches Ok(l) ==> {
            &&& l.unit_start == 0
            &&& l.ramp_start == l.unit_end
            &&& l.ramp_end == wave_len
            &&& l.ramp_end - l.ramp_start == span_of(fade_len, wave_len)->Ok_0.ramp_len
        },
{
}

} // verus!
