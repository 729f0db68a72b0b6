//! Splitting audio into overlapping segments of equal length, and the layout
//! in which segments are put back together.
//!
//! A segment lasts `segment_length` seconds, that is `segment_length *
//! sample_rate` samples, and each segment starts `overlap_length` samples
//! before the previous one ends. The last segment is padded with silence.
use vstd::prelude::*;
use crate::audio::views;
use vstd::arithmetic::div_mod::{
    lemma_fundamental_div_mod, lemma_mod_pos_bound,
};

verus! {

/// Why audio cannot be split into segments, or segments put back together.
#[derive(Debug, Clone, Copy, PartialEq, Eq, Structural)]
pub enum SegmentError {
    /// A length or position does not fit in 64 bits.
    Overflow,
    /// Consecutive segments would not start at increasing positions: the
    /// overlap is at least as long as a segment.
    NonPositiveStep,
    /// There is no sample to split.
    EmptyAudio,
    /// The overlap is negative, so the fade over it cannot be laid out.
    NegativeOverlap,
    /// The reassembled audio or a segment would have a negative length.
    NegativeLength,
}

/// How audio of `total_samples` samples is cut into segments.
#[derive(Debug, Clone, Copy, PartialEq, Eq, Structural)]
pub struct SegmentPlan {
    /// The number of samples of the audio.
    pub total_samples: i64,
    /// The number of samples of every segment.
    pub segment_samples: i64,
    /// The number of samples that consecutive segments share.
    pub overlap_length: i64,
    /// The distance between the starts of consecutive segments.
    pub step_size: i64,
    /// The number of segments.
    pub num_segments: i64,
    /// The number of silent samples that complete the last segment.
    pub padding: i64,
}

/// Whether `x` fits in an `i64`.
pub open spec fn fits_i64(x: int) -> bool {
    i64::MIN <= x <= i64::MAX
}

/// The fewest segments of `seg` samples, each starting `step` samples after
/// the previous one, that cover `total` samples: one segment when it alone
/// reaches the end, else one more than it takes to bring the start of the
/// last segment within `seg` samples of the end.
pub open spec fn segment_count(total: int, seg: int, step: int) -> int {
    if total <= seg {
        1
    } else {
        (total - seg + step - 1) / step + 1
    }
}

/// The plan for cutting `total_samples` samples into segments of
/// `segment_length` seconds at `sample_rate` samples per second that overlap
/// by `overlap_length` samples: the fewest segments that cover the audio,
/// each starting `step_size` samples after the previous one, the last one
/// padded to its full length.
pub open spec fn segment_plan_of(
    total_samples: i64,
    segment_length: i64,
    sample_rate: u32,
    overlap_length: i64,
) -> Result<SegmentPlan, SegmentError> {
    let seg = segment_length * sample_rate;
    let step = seg - overlap_length;
    if !fits_i64(seg) || !fits_i64(step) {
        Err(SegmentError::Overflow)
    } else if step <= 0 {
        Err(SegmentError::NonPositiveStep)
    } else if total_samples <= 0 {
        Err(SegmentError::EmptyAudio)
    } else if overlap_length < 0 {
        Err(SegmentError::NegativeOverlap)
    } else {
        let n = segment_count(total_samples as int, seg, step);
        let last = (n - 1) * step;
        if !fits_i64(last + seg) {
            Err(SegmentError::Overflow)
        } else {
            Ok(
                SegmentPlan {
                    total_samples,
                    segment_samples: seg as i64,
                    overlap_length,
                    step_size: step as i64,
                    num_segments: n as i64,
                    padding: (last + seg - total_samples) as i64,
                },
            )
        }
    }
}

impl SegmentPlan {
    /// The plan describes segments that start at increasing positions: the
    /// last one reaches the end of the audio, the one before it does not,
    /// and the padding completes the last one.
    pub open spec fn wf(&self) -> bool {
        &&& self.total_samples > 0
        &&& self.overlap_length >= 0
        &&& self.step_size > 0
        &&& self.segment_samples == self.step_size + self.overlap_length
        &&& self.num_segments >= 1
        &&& (self.num_segments - 1) * self.step_size + self.segment_samples >= self.total_samples
        &&& (self.num_segments == 1 || (self.num_segments - 2) * self.step_size
            + self.segment_samples < self.total_samples)
        &&& (self.num_segments - 1) * self.step_size < self.total_samples
        &&& fits_i64((self.num_segments - 1) * self.step_size + self.segment_samples)
        &&& self.padding == (self.num_segments - 1) * self.step_size + self.segment_samples
            - self.total_samples
        &&& self.padding >= 0
    }

    /// The position in the audio at which segment `i` starts.
    pub open spec fn start_of(&self, i: int) -> int {
        i * self.step_size
    }
}

/// Sample `j` of channel `c` of segment `i`: the audio sample at that
/// position, or `zero` past the end of the audio.
pub open spec fn segment_sample<T>(
    audio: Seq<Seq<T>>,
    plan: SegmentPlan,
    zero: T,
    i: int,
    c: int,
    j: int,
) -> T {
    let p = plan.start_of(i) + j;
    if p < plan.total_samples {
        audio[c][p]
    } else {
        zero
    }
}

/// The segment count covers the audio and is the fewest that do.
proof fn lemma_segment_count(total: int, seg: int, step: int)
    requires
        total > 0,
        step > 0,
        seg >= step,
    ensures
        segment_count(total, seg, step) >= 1,
        (segment_count(total, seg, step) - 1) * step + seg >= total,
        segment_count(total, seg, step) == 1 || (segment_count(total, seg, step) - 2) * step
            + seg < total,
        (segment_count(total, seg, step) - 1) * step < total,
        segment_count(total, seg, step) <= total,
{
    if total > seg {
        let a = total - seg + step - 1;
        lemma_fundamental_div_mod(a, step);
        lemma_mod_pos_bound(a, step);
        let q = a / step;
        let r = a % step;
        assert(a == q * step + r) by (nonlinear_arith)
            requires
                a == step * q + r,
        ;
        assert(q >= 1 && q * step + seg >= total && (q - 1) * step + seg < total && q * step
            < total && q + 1 <= total) by (nonlinear_arith)
            requires
                a == q * step + r,
                0 <= r < step,
                a == total - seg + step - 1,
                total > seg,
                seg >= step,
                step > 0,
        ;
    }
}

/// The plan for cutting `total_samples` samples into segments of
/// `segment_length` seconds at `sample_rate` samples per second that overlap
/// by `overlap_length` samples.
pub fn segment_layout(
    total_samples: i64,
    segment_length: i64,
    sample_rate: u32,
    overlap_length: i64,
) -> (res: Result<SegmentPlan, SegmentError>)
    ensures
        res == segment_plan_of(total_samples, segment_length, sample_rate, overlap_length),
        res matches Ok(plan) ==> plan.wf(),
{
    let segment_samples = match segment_length.checked_mul(sample_rate as i64) {
        Some(s) => s,
        None => return Err(SegmentError::Overflow),
    };
    let step_size = match segment_samples.checked_sub(overlap_length) {
        Some(s) => s,
        None => return Err(SegmentError::Overflow),
    };
    if step_size <= 0 {
        return Err(SegmentError::NonPositiveStep);
    }
    if total_samples <= 0 {
        return Err(SegmentError::EmptyAudio);
    }
    if overlap_length < 0 {
        return Err(SegmentError::NegativeOverlap);
    }
    let num_segments = if total_samples <= segment_samples {
        1
    } else {
        ((total_samples - segment_samples + (step_size - 1)) as u64 / step_size as u64) as i64 + 1
    };
    proof {
        lemma_segment_count(total_samples as int, segment_samples as int, step_size as int);
    }
    let last_start = (num_segments - 1) * step_size;
    let segment_end = match last_start.checked_add(segment_samples) {
        Some(e) => e,
        None => return Err(SegmentError::Overflow),
    };
    let padding = segment_end - total_samples;
    Ok(
        SegmentPlan {
            total_samples,
            segment_samples,
            overlap_length,
            step_size,
            num_segments,
            padding,
        },
    )
}

/// The segments of `audio` (one sequence of samples per channel) cut as
/// `plan` says: segment `i`, channel `c`, sample `j`.
pub open spec fn segmented<T>(audio: Seq<Seq<T>>, plan: SegmentPlan, zero: T) -> Seq<
    Seq<Seq<T>>,
> {
    Seq::new(
        plan.num_segments as nat,
        |i: int|
            Seq::new(
                audio.len(),
                |c: int|
                    Seq::new(
                        plan.segment_samples as nat,
                        |j: int| segment_sample(audio, plan, zero, i, c, j),
                    ),
            ),
    )
}

/// The contents of a vector of segments.
pub open spec fn segment_views<T>(segments: Seq<Vec<Vec<T>>>) -> Seq<Seq<Seq<T>>> {
    segments.map_values(|s: Vec<Vec<T>>| views(s@))
}

fn cut_row<T: Copy>(channel: &Vec<T>, start: i64, plan: &SegmentPlan, zero: T) -> (row: Vec<T>)
    requires
        plan.wf(),
        plan.segment_samples <= usize::MAX,
        channel@.len() == plan.total_samples,
        0 <= start <= (plan.num_segments - 1) * plan.step_size,
    ensures
        row@ == Seq::new(
            plan.segment_samples as nat,
            |j: int|
                if start + j < plan.total_samples {
                    channel@[start + j]
                } else {
                    zero
                },
        ),
{
    let seg = plan.segment_samples as usize;
    let total = plan.total_samples;
    let mut row: Vec<T> = Vec::new();
    let mut j: usize = 0;
    while j < seg
        invariant
            plan.wf(),
            seg == plan.segment_samples,
            total == plan.total_samples,
            channel@.len() == total,
            0 <= start <= (plan.num_segments - 1) * plan.step_size,
            j <= seg,
            row@.len() == j,
            forall|k: int|
                0 <= k < j ==> #[trigger] row@[k] == (if start + k < total {
                    channel@[start + k]
                } else {
                    zero
                }),
        decreases seg - j,
    {
        let p = start + j as i64;
        if p < total {
            let len = channel.len();
            assert(0 <= p < len);
            row.push(channel[p as usize]);
        } else {
            row.push(zero);
        }
        j = j + 1;
    }
    assert(row@ =~= Seq::new(
        plan.segment_samples as nat,
        |j: int|
            if start + j < plan.total_samples {
                channel@[start + j]
            } else {
                zero
            },
    ));
    row
}

/// Cuts `audio`, one vector of samples per channel, into the segments of
/// `plan`: each segment holds `plan.segment_samples` samples of every
/// channel, starting `plan.step_size` samples after the previous one, and
/// `zero` fills what lies past the end of the audio.
pub fn segment_channels<T: Copy>(audio: &[Vec<T>], plan: &SegmentPlan, zero: T) -> (segments: Vec<
    Vec<Vec<T>>,
>)
    requires
        plan.wf(),
        plan.segment_samples <= usize::MAX,
        plan.total_samples <= usize::MAX,
        forall|c: int|
            0 <= c < audio@.len() ==> #[trigger] audio@[c]@.len() == plan.total_samples,
    ensures
        segment_views(segments@) == segmented(views(audio@), *plan, zero),
{
    proof {
        assert(plan.num_segments <= plan.total_samples) by (nonlinear_arith)
            requires
                (plan.num_segments - 1) * plan.step_size < plan.total_samples,
                plan.step_size >= 1,
                plan.num_segments >= 1,
        ;
    }
    let n = plan.num_segments as usize;
    let num_channels = audio.len();
    let ghost target = segmented(views(audio@), *plan, zero);
    let mut segments: Vec<Vec<Vec<T>>> = Vec::new();
    let mut i: usize = 0;
    while i < n
        invariant
            plan.wf(),
            plan.segment_samples <= usize::MAX,
            n == plan.num_segments,
            num_channels == audio@.len(),
            forall|c: int|
                0 <= c < audio@.len() ==> #[trigger] audio@[c]@.len() == plan.total_samples,
            target == segmented(views(audio@), *plan, zero),
            i <= n,
            segments@.len() == i,
            forall|k: int| 0 <= k < i ==> #[trigger] views(segments@[k]@) == target[k],
        decreases n - i,
    {
        proof {
            assert(i * plan.step_size <= (plan.num_segments - 1) * plan.step_size) by (nonlinear_arith)
                requires
                    i < plan.num_segments,
                    plan.step_size > 0,
            ;
        }
        let start = i as i64 * plan.step_size;
        let mut segment: Vec<Vec<T>> = Vec::new();
        let mut c: usize = 0;
        while c < num_channels
            invariant
                plan.wf(),
                plan.segment_samples <= usize::MAX,
                n == plan.num_segments,
                num_channels == audio@.len(),
                forall|c: int|
                    0 <= c < audio@.len() ==> #[trigger] audio@[c]@.len() == plan.total_samples,
                target == segmented(views(audio@), *plan, zero),
                i < n,
                start == i * plan.step_size,
                0 <= start <= (plan.num_segments - 1) * plan.step_size,
                c <= num_channels,
                segment@.len() == c,
                forall|k: int| 0 <= k < c ==> #[trigger] segment@[k]@ == target[i as int][k],
            decreases num_channels - c,
        {
            let row = cut_row(&audio[c], start, plan, zero);
            proof {
                assert(views(audio@)[c as int] == audio@[c as int]@);
                assert(row@ =~= target[i as int][c as int]);
            }
            segment.push(row);
            c = c + 1;
        }
        assert(views(segment@) =~= target[i as int]);
        segments.push(segment);
        i = i + 1;
    }
    assert(segment_views(segments@) =~= target);
    segments
}

/// Where segments of `segment_length` seconds at `sample_rate` samples per
/// second go when they are put back together.
#[derive(Debug, Clone, Copy, PartialEq, Eq, Structural)]
pub struct DesegmentLayout {
    /// The number of segments.
    pub num_segments: i64,
    /// The number of samples of every segment.
    pub segment_samples: i64,
    /// The distance between the starts of consecutive segments.
    pub step_size: i64,
    /// The length of the reassembled audio, padding included.
    pub total_padded: i64,
    /// The length of the reassembled audio once the padding is removed.
    pub output_length: i64,
    /// The length of the fade-in and of the fade-out applied to every segment.
    pub fade_len: i64,
}

/// Half of `x`, rounded toward zero.
pub open spec fn half_toward_zero(x: int) -> int {
    if x >= 0 {
        x / 2
    } else {
        -((-x) / 2)
    }
}

/// The layout for putting `num_segments` segments of `segment_length`
/// seconds at `sample_rate` samples per second, which overlap by
/// `overlap_length` samples, back together and removing `padding` samples at
/// the end. Each segment is faded in and out over half the overlap. The
/// reassembled audio and each segment must have a length of at least zero;
/// the step between segments and the padding are taken as they come, so a
/// step of zero or less gives windows that do not advance, and a padding
/// beyond the padded length gives a negative output length.
pub open spec fn desegment_layout_of(
    num_segments: i64,
    segment_length: i64,
    sample_rate: u32,
    overlap_length: i64,
    padding: i64,
) -> Result<DesegmentLayout, SegmentError> {
    let seg = segment_length * sample_rate;
    let step = seg - overlap_length;
    let total_padded = (num_segments - 1) * step + seg;
    let fade_len = half_toward_zero(overlap_length as int);
    if !fits_i64(seg) || !fits_i64(step) {
        Err(SegmentError::Overflow)
    } else if !fits_i64((num_segments - 1) * step) || !fits_i64(total_padded) {
        Err(SegmentError::Overflow)
    } else if total_padded < 0 || seg < 0 {
        Err(SegmentError::NegativeLength)
    } else if fade_len < 0 {
        Err(SegmentError::NegativeOverlap)
    } else {
        Ok(
            DesegmentLayout {
                num_segments,
                segment_samples: seg as i64,
                step_size: step as i64,
                total_padded: total_padded as i64,
                output_length: (if padding > 0 {
                    total_padded - padding
                } else {
                    total_padded
                }) as i64,
                fade_len: fade_len as i64,
            },
        )
    }
}

impl DesegmentLayout {
    /// The reassembled audio spans the windows of all segments, one after
    /// another `step_size` apart.
    pub open spec fn wf(&self) -> bool {
        &&& self.segment_samples >= 0
        &&& fits_i64((self.num_segments - 1) * self.step_size)
        &&& self.total_padded == (self.num_segments - 1) * self.step_size + self.segment_samples
        &&& self.total_padded >= 0
    }

    /// The window `[start, end)` of the reassembled audio that segment `i`
    /// covers.
    pub fn segment_window(&self, i: i64) -> (window: (i64, i64))
        requires
            self.wf(),
            0 <= i < self.num_segments,
        ensures
            window.0 == i * self.step_size,
            window.1 == window.0 + self.segment_samples,
            self.step_size >= 0 ==> 0 <= window.0 <= window.1 <= self.total_padded,
    {
        proof {
            let n = self.num_segments as int;
            let step = self.step_size as int;
            assert((0 <= i * step <= (n - 1) * step) || ((n - 1) * step <= i * step <= 0))
                by (nonlinear_arith)
                requires
                    0 <= i < n,
            ;
            assert(step >= 0 ==> 0 <= i * step <= (n - 1) * step) by (nonlinear_arith)
                requires
                    0 <= i < n,
            ;
        }
        let start = i * self.step_size;
        (start, start + self.segment_samples)
    }
}

/// The layout for putting `num_segments` segments of `segment_length`
/// seconds at `sample_rate` samples per second, which overlap by
/// `overlap_length` samples, back together and removing `padding` samples at
/// the end.
pub fn desegment_layout(
    num_segments: i64,
    segment_length: i64,
    sample_rate: u32,
    overlap_length: i64,
    padding: i64,
) -> (res: Result<DesegmentLayout, SegmentError>)
    ensures
        res == desegment_layout_of(
            num_segments,
            segment_length,
            sample_rate,
            overlap_length,
            padding,
        ),
        res matches Ok(layout) ==> layout.wf(),
{
    let segment_samples = match segment_length.checked_mul(sample_rate as i64) {
        Some(s) => s,
        None => return Err(SegmentError::Overflow),
    };
    let step_size = match segment_samples.checked_sub(overlap_length) {
        Some(s) => s,
        None => return Err(SegmentError::Overflow),
    };
    let span = match (num_segments as i128 - 1).checked_mul(step_size as i128) {
        Some(s) => s,
        None => return Err(SegmentError::Overflow),
    };
    if span < i64::MIN as i128 || span > i64::MAX as i128 {
        return Err(SegmentError::Overflow);
    }
    let total_padded = match (span as i64).checked_add(segment_samples) {
        Some(t) => t,
        None => return Err(SegmentError::Overflow),
    };
    if total_padded < 0 || segment_samples < 0 {
        return Err(SegmentError::NegativeLength);
    }
    if overlap_length < -1 {
        return Err(SegmentError::NegativeOverlap);
    }
    let fade_len = if overlap_length >= 0 {
        overlap_length / 2
    } else {
        0
    };
    let output_length = if padding > 0 {
        total_padded - padding
    } else {
        total_padded
    };
    Ok(
        DesegmentLayout {
            num_segments,
            segment_samples,
            step_size,
            total_padded,
            output_length,
            fade_len,
        },
    )
}

/// Putting back together the segments that a plan cut, with the padding
/// that the plan reports, gives audio exactly as long as the audio that was
/// cut.
pub proof fn lemma_desegment_restores_length(
    total_samples: i64,
    segment_length: i64,
    sample_rate: u32,
    overlap_length: i64,
)
    requires
        segment_plan_of(total_samples, segment_length, sample_rate, overlap_length) is Ok,
    ensures
        ({
            let plan = segment_plan_of(
                total_samples,
                segment_length,
                sample_rate,
                overlap_length,
            )->Ok_0;
            &&& desegment_layout_of(
                plan.num_segments,
                segment_length,
                sample_rate,
                overlap_length,
                plan.padding,
            ) is Ok
            &&& desegment_layout_of(
                plan.num_segments,
                segment_length,
                sample_rate,
                overlap_length,
                plan.padding,
            )->Ok_0.output_length == total_samples
        }),
{
    let seg = segment_length * sample_rate;
    let step = seg - overlap_length;
    lemma_segment_count(total_samples as int, seg, step);
    let n = segment_count(total_samples as int, seg, step);
    assert(0 <= (n - 1) * step) by (nonlinear_arith)
        requires
            n >= 1,
            step > 0,
    ;
}

/// The segment in which sample `p` is found: the one that starts at or
/// before it the latest, or the last segment for samples past its start.
pub open spec fn segment_index(plan: SegmentPlan, p: int) -> int {
    if p / (plan.step_size as int) < plan.num_segments {
        p / (plan.step_size as int)
    } else {
        plan.num_segments - 1
    }
}

/// Every sample of the audio lies in a segment: sample `p` lies in segment
/// `segment_index(plan, p)`.
pub proof fn lemma_segments_cover(plan: SegmentPlan, p: int)
    requires
        plan.wf(),
        0 <= p < plan.total_samples,
    ensures
        0 <= segment_index(plan, p) < plan.num_segments,
        plan.start_of(segment_index(plan, p)) <= p,
        p < plan.start_of(segment_index(plan, p)) + plan.segment_samples,
{
    let step = plan.step_size as int;
    let n = plan.num_segments as int;
    let seg = plan.segment_samples as int;
    lemma_fundamental_div_mod(p, step);
    lemma_mod_pos_bound(p, step);
    let q = p / step;
    assert(p == q * step + p % step) by (nonlinear_arith)
        requires
            p == step * q + p % step,
    ;
    assert(q >= 0) by (nonlinear_arith)
        requires
            p == q * step + p % step,
            0 <= p % step < step,
            p >= 0,
    ;
    if q >= n {
        assert((n - 1) * step <= p) by (nonlinear_arith)
            requires
                q >= n,
                p == q * step + p % step,
                p % step >= 0,
                step > 0,
        ;
    } else {
        assert(p < q * step + seg);
    }
}

/// Cutting audio into segments loses no sample: sample `p` of channel `c`
/// is found in segment `segment_index(plan, p)`.
pub proof fn lemma_segments_keep_samples<T>(
    audio: Seq<Seq<T>>,
    plan: SegmentPlan,
    zero: T,
    c: int,
    p: int,
)
    requires
        plan.wf(),
        0 <= c < audio.len(),
        0 <= p < plan.total_samples,
    ensures
        segmented(audio, plan, zero)[segment_index(plan, p)][c][p - plan.start_of(
            segment_index(plan, p),
        )] == audio[c][p],
{
    lemma_segments_cover(plan, p);
}

/// Every request with audio to cut and an overlap shorter than a segment
/// gets a plan, however long the overlap, as long as the lengths fit in 64
/// bits: its segments are `segment_length * sample_rate` samples long and
/// start `segment_length * sample_rate - overlap_length` samples apart.
pub proof fn lemma_plan_exists(
    total_samples: i64,
    segment_length: i64,
    sample_rate: u32,
    overlap_length: i64,
)
    requires
        total_samples > 0,
        0 <= overlap_length < segment_length * sample_rate,
        fits_i64(segment_length * sample_rate),
        fits_i64(total_samples + segment_length * sample_rate),
    ensures
        segment_plan_of(total_samples, segment_length, sample_rate, overlap_length) is Ok,
        ({
            let plan = segment_plan_of(
                total_samples,
                segment_length,
                sample_rate,
                overlap_length,
            )->Ok_0;
            &&& plan.segment_samples == segment_length * sample_rate
            &&& plan.step_size == segment_length * sample_rate - overlap_length
            &&& plan.overlap_length == overlap_length
            &&& plan.total_samples == total_samples
        }),
{
    let seg = segment_length * sample_rate;
    let step = seg - overlap_length;
    lemma_segment_count(total_samples as int, seg, step);
}

/// Each reassembled segment is faded in and out over half the overlap,
/// rounded toward zero: twice the fade is the overlap or one sample less,
/// and an overlap of -1, the only negative one accepted, gives no fade.
pub proof fn lemma_desegment_fade_is_half_overlap(
    num_segments: i64,
    segment_length: i64,
    sample_rate: u32,
    overlap_length: i64,
    padding: i64,
)
    ensures
        desegment_layout_of(num_segments, segment_length, sample_rate, overlap_length, padding) matches Ok(
            l,
        ) ==> {
            &&& overlap_length >= 0 ==> 2 * l.fade_len <= overlap_length < 2 * l.fade_len + 2
            &&& overlap_length < 0 ==> overlap_length == -1 && l.fade_len == 0
        },
{
}

} // verus!
