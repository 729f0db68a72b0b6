//! WAV headers and samples, decoded by `hound` from the bytes of a WAV file.
//!
//! `hound` reads the header of a WAV file and then yields its samples one at
//! a time, each either decoded or failed. This module holds what the library
//! decides around those calls: which sample type to decode into, which part
//! of the file to read, and how failures are reported.
use vstd::prelude::*;

verus! {

/// `hound::Error`, the error of `hound`'s readers and writers, carried
/// through unread.
#[verifier::external_type_specification]
#[verifier::external_body]
pub struct ExHoundError(hound::Error);

/// `hound::WavIntoSamples`, the iterator over the samples of a WAV reader;
/// what it has yet to yield is named by `pending_i16` and `pending_i32`.
#[verifier::external_type_specification]
#[verifier::external_body]
#[verifier::reject_recursive_types(R)]
#[verifier::reject_recursive_types(S)]
pub struct ExWavIntoSamples<R, S>(hound::WavIntoSamples<R, S>);

/// Whether samples are stored as IEEE floats or as integers.
#[derive(Debug, Clone, Copy, PartialEq, Eq, Structural)]
pub enum SampleFormat {
    Float,
    Int,
}

/// The properties of the audio in a WAV file.
#[derive(Debug, Clone, Copy, PartialEq, Eq, Structural)]
pub struct WavSpec {
    /// The number of channels.
    pub channels: u16,
    /// The number of frames per second.
    pub sample_rate: u32,
    /// The number of bits of each sample.
    pub bits_per_sample: u16,
    /// Whether samples are floats or integers.
    pub sample_format: SampleFormat,
}

/// The header of a WAV file: its spec and the number of samples it holds
/// over all channels.
#[derive(Debug, Clone, Copy, PartialEq, Eq, Structural)]
pub struct WavHeader {
    pub spec: WavSpec,
    pub len: u32,
}

/// Why a WAV file could not be read.
#[derive(Debug)]
pub enum WavError {
    /// `hound` rejected the header or failed to decode a sample.
    Hound(hound::Error),
    /// A chunk was asked to start after the end of the audio.
    StartBeyondDuration,
    /// A chunk was asked to end after the end of the audio.
    EndBeyondDuration,
    /// A chunk was asked to end before it starts.
    EndBeforeStart,
}

/// The header that `hound::WavReader::new` reads from `bytes`, or `None`
/// where it rejects them.
pub uninterp spec fn wav_header_of(bytes: Seq<u8>) -> Option<WavHeader>;

/// What the sample iterator of `hound` over `bytes`, decoding into `i16`,
/// yields: `Some` for each decoded sample, `None` for each failure.
pub uninterp spec fn wav_samples_i16_of(bytes: Seq<u8>) -> Seq<Option<i16>>;

/// What the sample iterator of `hound` over `bytes`, decoding into `i32`,
/// yields: `Some` for each decoded sample, `None` for each failure.
pub uninterp spec fn wav_samples_i32_of(bytes: Seq<u8>) -> Seq<Option<i32>>;

/// What an `i16` sample iterator of `hound` has yet to yield.
pub uninterp spec fn pending_i16(samples: hound::WavIntoSamples<&[u8], i16>) -> Seq<Option<i16>>;

/// What an `i32` sample iterator of `hound` has yet to yield.
pub uninterp spec fn pending_i32(samples: hound::WavIntoSamples<&[u8], i32>) -> Seq<Option<i32>>;

/// Whether every outcome in `outcomes` is a decoded sample.
pub open spec fn all_decoded<S>(outcomes: Seq<Option<S>>) -> bool {
    forall|k: int| 0 <= k < outcomes.len() ==> #[trigger] outcomes[k] is Some
}

/// The samples of `outcomes`, each of which is a decoded sample.
pub open spec fn decoded<S>(outcomes: Seq<Option<S>>) -> Seq<S> {
    outcomes.map_values(|o: Option<S>| o->Some_0)
}

/// Reads the header of `bytes` with `hound::WavReader::new` and turns the
/// reader into its `i16` sample iterator with `into_samples`. The contract
/// states what `hound`'s source shows: the header is accepted only with at
/// least one channel and a sample count that is a multiple of the channel
/// count, and the iterator then yields one outcome per sample. What the
/// header and the outcomes are is left to the names `wav_header_of` and
/// `wav_samples_i16_of`.
#[verifier::external_body]
pub(crate) fn open_i16<'a>(bytes: &'a [u8]) -> (res: Result<
    (WavHeader, hound::WavIntoSamples<&'a [u8], i16>),
    hound::Error,
>)
    ensures
        (res is Ok) == (wav_header_of(bytes@) is Some),
        res matches Ok((header, samples)) ==> {
            &&& wav_header_of(bytes@) == Some(header)
            &&& pending_i16(samples) == wav_samples_i16_of(bytes@)
            &&& pending_i16(samples).len() == header.len
            &&& header.spec.channels > 0
            &&& header.len as nat % (header.spec.channels as nat) == 0
        },
{
    let reader = hound::WavReader::new(bytes)?;
    let s = reader.spec();
    let sample_format = match s.sample_format {
        hound::SampleFormat::Float => SampleFormat::Float,
        hound::SampleFormat::Int => SampleFormat::Int,
    };
    let spec = WavSpec { channels: s.channels, sample_rate: s.sample_rate, bits_per_sample: s.bits_per_sample, sample_format };
    Ok((WavHeader { spec, len: reader.len() }, reader.into_samples::<i16>()))
}

/// As `open_i16`, with the sample iterator decoding into `i32`.
#[verifier::external_body]
fn open_i32<'a>(bytes: &'a [u8]) -> (res: Result<
    (WavHeader, hound::WavIntoSamples<&'a [u8], i32>),
    hound::Error,
>)
    ensures
        (res is Ok) == (wav_header_of(bytes@) is Some),
        res matches Ok((header, samples)) ==> {
            &&& wav_header_of(bytes@) == Some(header)
            &&& pending_i32(samples) == wav_samples_i32_of(bytes@)
            &&& pending_i32(samples).len() == header.len
            &&& header.spec.channels > 0
            &&& header.len as nat % (header.spec.channels as nat) == 0
        },
{
    let reader = hound::WavReader::new(bytes)?;
    let s = reader.spec();
    let sample_format = match s.sample_format {
        hound::SampleFormat::Float => SampleFormat::Float,
        hound::SampleFormat::Int => SampleFormat::Int,
    };
    let spec = WavSpec { channels: s.channels, sample_rate: s.sample_rate, bits_per_sample: s.bits_per_sample, sample_format };
    Ok((WavHeader { spec, len: reader.len() }, reader.into_samples::<i32>()))
}

/// `Iterator::next` of `hound`'s `i16` sample iterator: it yields the first
/// pending outcome, `Ok` for a decoded sample and `Err` for a failure, and
/// `None` once nothing is pending.
#[verifier::external_body]
pub(crate) fn next_i16(samples: &mut hound::WavIntoSamples<&[u8], i16>) -> (res: Option<Result<i16, hound::Error>>)
    ensures
        pending_i16(*old(samples)).len() == 0 ==> res is None && pending_i16(*final(samples))
            == pending_i16(*old(samples)),
        pending_i16(*old(samples)).len() > 0 ==> {
            &&& res is Some
            &&& pending_i16(*final(samples)) == pending_i16(*old(samples)).drop_first()
            &&& (res->Some_0 is Ok) == (pending_i16(*old(samples))[0] is Some)
            &&& res->Some_0 matches Ok(v) ==> pending_i16(*old(samples))[0] == Some(v)
        },
{
    samples.next()
}

/// `Iterator::next` of `hound`'s `i32` sample iterator, as `next_i16`.
#[verifier::external_body]
fn next_i32(samples: &mut hound::WavIntoSamples<&[u8], i32>) -> (res: Option<Result<i32, hound::Error>>)
    ensures
        pending_i32(*old(samples)).len() == 0 ==> res is None && pending_i32(*final(samples))
            == pending_i32(*old(samples)),
        pending_i32(*old(samples)).len() > 0 ==> {
            &&& res is Some
            &&& pending_i32(*final(samples)) == pending_i32(*old(samples)).drop_first()
            &&& (res->Some_0 is Ok) == (pending_i32(*old(samples))[0] is Some)
            &&& res->Some_0 matches Ok(v) ==> pending_i32(*old(samples))[0] == Some(v)
        },
{
    samples.next()
}

impl WavHeader {
    /// The number of frames: samples per channel.
    pub fn duration(&self) -> (frames: u32)
        requires
            self.spec.channels > 0,
        ensures
            frames == self.len as nat / (self.spec.channels as nat),
    {
        self.len / self.spec.channels as u32
    }
}

/// The header of the WAV file in `bytes`.
pub fn wav_header(bytes: &[u8]) -> (res: Result<WavHeader, WavError>)
    ensures
        (res is Ok) == (wav_header_of(bytes@) is Some),
        res matches Ok(header) ==> {
            &&& wav_header_of(bytes@) == Some(header)
            &&& header.spec.channels > 0
            &&& header.len as nat % (header.spec.channels as nat) == 0
        },
        res matches Err(e) ==> e is Hound,
{
    match open_i16(bytes) {
        Ok((header, _samples)) => Ok(header),
        Err(e) => Err(WavError::Hound(e)),
    }
}

/// The sample type that a file of the given spec is decoded into.
#[derive(Debug, Clone, Copy, PartialEq, Eq, Structural)]
pub enum SampleEncoding {
    Float32,
    Int16,
    Int32,
}

/// Float files are decoded into 32-bit floats, 16-bit integer files into
/// `i16`, and integer files of any other depth into `i32`.
pub open spec fn encoding_for(spec: WavSpec) -> SampleEncoding {
    match spec.sample_format {
        SampleFormat::Float => SampleEncoding::Float32,
        SampleFormat::Int => if spec.bits_per_sample == 16 {
            SampleEncoding::Int16
        } else {
            SampleEncoding::Int32
        },
    }
}

/// The sample type that a file of the given spec is decoded into.
pub fn sample_encoding(spec: &WavSpec) -> (encoding: SampleEncoding)
    ensures
        encoding == encoding_for(*spec),
{
    match spec.sample_format {
        SampleFormat::Float => SampleEncoding::Float32,
        SampleFormat::Int => if spec.bits_per_sample == 16 {
            SampleEncoding::Int16
        } else {
            SampleEncoding::Int32
        },
    }
}

/// The samples, over all channels, of the frames `start..end` of audio of
/// `duration` frames and `channels` channels: the first sample and the
/// number of samples.
pub open spec fn chunk_range_of(duration: u32, channels: u16, start: usize, end: usize) -> Option<
    (u64, u64),
> {
    if start > duration || end > duration || end < start {
        None
    } else {
        Some(((start * channels) as u64, ((end - start) * channels) as u64))
    }
}

/// Where the frames `start..end` of audio of `duration` frames and
/// `channels` channels lie among its samples: the first sample and the
/// number of samples. A chunk must start and end inside the audio, and end
/// no earlier than it starts.
pub fn chunk_sample_range(duration: u32, channels: u16, start: usize, end: usize) -> (res: Result<
    (u64, u64),
    WavError,
>)
    ensures
        start > duration ==> res matches Err(WavError::StartBeyondDuration),
        start <= duration && end > duration ==> res matches Err(WavError::EndBeyondDuration),
        start <= duration && end <= duration && end < start ==> res matches Err(
            WavError::EndBeforeStart,
        ),
        res is Ok == chunk_range_of(duration, channels, start, end) is Some,
        res matches Ok(range) ==> chunk_range_of(duration, channels, start, end) == Some(range),
        res matches Ok((first, count)) ==> first == start * channels && count == (end - start)
            * channels && first + count == end * channels,
{
    if start > duration as usize {
        return Err(WavError::StartBeyondDuration);
    }
    if end > duration as usize {
        return Err(WavError::EndBeyondDuration);
    }
    if end < start {
        return Err(WavError::EndBeforeStart);
    }
    proof {
        assert(start * channels <= 0xffff_ffff * 0xffff && (end - start) * channels
            <= 0xffff_ffff * 0xffff) by (nonlinear_arith)
            requires
                start <= 0xffff_ffff,
                end - start <= 0xffff_ffff,
                channels <= 0xffff,
        ;
    }
    let first = start as u64 * channels as u64;
    let count = (end - start) as u64 * channels as u64;
    assert(start * channels + (end - start) * channels == end * channels) by (nonlinear_arith);
    Ok((first, count))
}

/// The outcomes of the samples, over all channels, of the frames
/// `start..end` of audio of `channels` channels.
pub open spec fn chunk_outcomes<S>(outcomes: Seq<Option<S>>, channels: u16, start: int, end: int) -> Seq<
    Option<S>,
> {
    outcomes.subrange(start * channels, end * channels)
}

/// The frame count of a header, as `WavHeader::duration` computes it.
pub open spec fn frames_of(header: WavHeader) -> nat {
    header.len as nat / (header.spec.channels as nat)
}

proof fn lemma_chunk_inside(header: WavHeader, start: usize, end: usize)
    requires
        header.spec.channels > 0,
        header.len as nat % (header.spec.channels as nat) == 0,
        chunk_range_of(frames_of(header) as u32, header.spec.channels, start, end) is Some,
    ensures
        ({
            let (first, count) = chunk_range_of(
                frames_of(header) as u32,
                header.spec.channels,
                start,
                end,
            )->Some_0;
            first + count <= header.len
        }),
{
    let ch = header.spec.channels as int;
    let len = header.len as int;
    vstd::arithmetic::div_mod::lemma_fundamental_div_mod(len, ch);
    let d = len / ch;
    assert(start * ch + (end - start) * ch <= len) by (nonlinear_arith)
        requires
            len == ch * d + 0,
            start <= end <= d,
            ch > 0,
    ;
}

/// The samples, decoded into `i16`, of the frames `start..end` of the WAV
/// file in `bytes`. Samples before the chunk are skipped whether or not they
/// decode; every sample of the chunk must decode.
#[verifier::loop_isolation(false)]
pub fn read_chunk_i16(bytes: &[u8], start: usize, end: usize) -> (res: Result<Vec<i16>, WavError>)
    ensures
        wav_header_of(bytes@) is None ==> res matches Err(WavError::Hound(_)),
        wav_header_of(bytes@) matches Some(h) ==> {
            let outcomes = wav_samples_i16_of(bytes@);
            let duration = frames_of(h);
            &&& h.spec.channels > 0
            &&& h.len as nat % (h.spec.channels as nat) == 0
            &&& outcomes.len() == h.len
            &&& (start > duration ==> res matches Err(WavError::StartBeyondDuration))
            &&& (start <= duration && end > duration ==> res matches Err(
                WavError::EndBeyondDuration,
            ))
            &&& (start <= duration && end <= duration && end < start ==> res matches Err(
                WavError::EndBeforeStart,
            ))
            &&& start <= end <= duration ==> {
                let wanted = chunk_outcomes(outcomes, h.spec.channels, start as int, end as int);
                &&& (res is Ok) == all_decoded(wanted)
                &&& (res matches Ok(v) ==> v@ == decoded(wanted))
                &&& (res matches Err(e) ==> e is Hound)
            }
        },
{
    let (header, mut samples) = match open_i16(bytes) {
        Ok(opened) => opened,
        Err(e) => return Err(WavError::Hound(e)),
    };
    let duration = header.duration();
    let (first, count) = match chunk_sample_range(duration, header.spec.channels, start, end) {
        Ok(range) => range,
        Err(e) => return Err(e),
    };
    let ghost all = pending_i16(samples);
    proof {
        lemma_chunk_inside(header, start, end);
        assert(all.skip(0) =~= all);
    }
    let mut skipped: u64 = 0;
    while skipped < first
        invariant
            skipped <= first,
            first + count <= all.len(),
            pending_i16(samples) == all.skip(skipped as int),
        decreases first - skipped,
    {
        let _ = next_i16(&mut samples);
        proof {
            assert(all.skip(skipped as int).drop_first() =~= all.skip(skipped + 1));
        }
        skipped = skipped + 1;
    }
    let mut out: Vec<i16> = Vec::new();
    let mut taken: u64 = 0;
    while taken < count
        invariant
            taken <= count,
            first + count <= all.len(),
            pending_i16(samples) == all.skip(first + taken),
            all_decoded(all.subrange(first as int, first + taken)),
            out@ == decoded(all.subrange(first as int, first + taken)),
        decreases count - taken,
    {
        let ghost before = all.subrange(first as int, first + taken);
        let next = next_i16(&mut samples);
        proof {
            assert(all.skip(first + taken).drop_first() =~= all.skip(first + taken + 1));
            assert(all.skip(first + taken)[0] == all[first + taken]);
        }
        match next {
            Some(Ok(v)) => {
                out.push(v);
                proof {
                    let after = all.subrange(first as int, first + taken + 1);
                    assert(after =~= before.push(all[first + taken]));
                    assert(decoded(after) =~= decoded(before).push(v));
                }
            },
            Some(Err(e)) => {
                proof {
                    let wanted = all.subrange(first as int, first + count);
                    assert(wanted[taken as int] == all[first + taken]);
                    assert(wanted[taken as int] is None);
                    assert(!all_decoded(wanted));
                }
                return Err(WavError::Hound(e));
            },
            None => {
                assert(false);
                return Err(WavError::EndBeyondDuration);
            },
        }
        taken = taken + 1;
    }
    Ok(out)
}

/// The samples, decoded into `i32`, of the frames `start..end` of the WAV
/// file in `bytes`. Samples before the chunk are skipped whether or not they
/// decode; every sample of the chunk must decode.
#[verifier::loop_isolation(false)]
pub fn read_chunk_i32(bytes: &[u8], start: usize, end: usize) -> (res: Result<Vec<i32>, WavError>)
    ensures
        wav_header_of(bytes@) is None ==> res matches Err(WavError::Hound(_)),
        wav_header_of(bytes@) matches Some(h) ==> {
            let outcomes = wav_samples_i32_of(bytes@);
            let duration = frames_of(h);
            &&& h.spec.channels > 0
            &&& h.len as nat % (h.spec.channels as nat) == 0
            &&& outcomes.len() == h.len
            &&& (start > duration ==> res matches Err(WavError::StartBeyondDuration))
            &&& (start <= duration && end > duration ==> res matches Err(
                WavError::EndBeyondDuration,
            ))
            &&& (start <= duration && end <= duration && end < start ==> res matches Err(
                WavError::EndBeforeStart,
            ))
            &&& start <= end <= duration ==> {
                let wanted = chunk_outcomes(outcomes, h.spec.channels, start as int, end as int);
                &&& (res is Ok) == all_decoded(wanted)
                &&& (res matches Ok(v) ==> v@ == decoded(wanted))
                &&& (res matches Err(e) ==> e is Hound)
            }
        },
{
    let (header, mut samples) = match open_i32(bytes) {
        Ok(opened) => opened,
        Err(e) => return Err(WavError::Hound(e)),
    };
    let duration = header.duration();
    let (first, count) = match chunk_sample_range(duration, header.spec.channels, start, end) {
        Ok(range) => range,
        Err(e) => return Err(e),
    };
    let ghost all = pending_i32(samples);
    proof {
        lemma_chunk_inside(header, start, end);
        assert(all.skip(0) =~= all);
    }
    let mut skipped: u64 = 0;
    while skipped < first
        invariant
            skipped <= first,
            first + count <= all.len(),
            pending_i32(samples) == all.skip(skipped as int),
        decreases first - skipped,
    {
        let _ = next_i32(&mut samples);
        proof {
            assert(all.skip(skipped as int).drop_first() =~= all.skip(skipped + 1));
        }
        skipped = skipped + 1;
    }
    let mut out: Vec<i32> = Vec::new();
    let mut taken: u64 = 0;
    while taken < count
        invariant
            taken <= count,
            first + count <= all.len(),
            pending_i32(samples) == all.skip(first + taken),
            all_decoded(all.subrange(first as int, first + taken)),
            out@ == decoded(all.subrange(first as int, first + taken)),
        decreases count - taken,
    {
        let ghost before = all.subrange(first as int, first + taken);
        let next = next_i32(&mut samples);
        proof {
            assert(all.skip(first + taken).drop_first() =~= all.skip(first + taken + 1));
            assert(all.skip(first + taken)[0] == all[first + taken]);
        }
        match next {
            Some(Ok(v)) => {
                out.push(v);
                proof {
                    let after = all.subrange(first as int, first + taken + 1);
                    assert(after =~= before.push(all[first + taken]));
                    assert(decoded(after) =~= decoded(before).push(v));
                }
            },
            Some(Err(e)) => {
                proof {
                    let wanted = all.subrange(first as int, first + count);
                    assert(wanted[taken as int] == all[first + taken]);
                    assert(wanted[taken as int] is None);
                    assert(!all_decoded(wanted));
                }
                return Err(WavError::Hound(e));
            },
            None => {
                assert(false);
                return Err(WavError::EndBeyondDuration);
            },
        }
        taken = taken + 1;
    }
    Ok(out)
}

/// A header that `hound` accepts holds whole frames: its frame count times
/// its channel count is its sample count.
pub proof fn lemma_frames_cover_samples(header: WavHeader)
    requires
        header.spec.channels > 0,
        header.len as nat % (header.spec.channels as nat) == 0,
    ensures
        frames_of(header) * header.spec.channels == header.len,
{
    let ch = header.spec.channels as int;
    vstd::arithmetic::div_mod::lemma_fundamental_div_mod(header.len as int, ch);
    let d = header.len as int / ch;
    assert(frames_of(header) == d);
    assert(d * ch == ch * d) by (nonlinear_arith);
}

/// The chunk of all the frames of a file is the whole file: reading the
/// frames `0..duration` gives what loading the file gives.
pub proof fn lemma_whole_file_chunk<S>(header: WavHeader, outcomes: Seq<Option<S>>)
    requires
        header.spec.channels > 0,
        header.len as nat % (header.spec.channels as nat) == 0,
        outcomes.len() == header.len,
    ensures
        chunk_outcomes(outcomes, header.spec.channels, 0, frames_of(header) as int) == outcomes,
{
    lemma_frames_cover_samples(header);
    assert(chunk_outcomes(outcomes, header.spec.channels, 0, frames_of(header) as int)
        =~= outcomes);
}

/// Two adjacent chunks, frames `a..b` and `b..c`, joined are the chunk of
/// frames `a..c`: each decodes in full exactly when both parts do, and its
/// samples are theirs one after the other.
pub proof fn lemma_adjacent_chunks<S>(
    outcomes: Seq<Option<S>>,
    channels: u16,
    a: int,
    b: int,
    c: int,
)
    requires
        0 <= a <= b <= c,
        c * channels <= outcomes.len(),
    ensures
        chunk_outcomes(outcomes, channels, a, b) + chunk_outcomes(outcomes, channels, b, c)
            == chunk_outcomes(outcomes, channels, a, c),
        all_decoded(chunk_outcomes(outcomes, channels, a, c)) == (all_decoded(
            chunk_outcomes(outcomes, channels, a, b),
        ) && all_decoded(chunk_outcomes(outcomes, channels, b, c))),
        decoded(chunk_outcomes(outcomes, channels, a, b)) + decoded(
            chunk_outcomes(outcomes, channels, b, c),
        ) == decoded(chunk_outcomes(outcomes, channels, a, c)),
{
    let ch = channels as int;
    assert(0 <= a * ch <= b * ch <= c * ch) by (nonlinear_arith)
        requires
            0 <= a <= b <= c,
            ch >= 0,
    ;
    let x = chunk_outcomes(outcomes, channels, a, b);
    let y = chunk_outcomes(outcomes, channels, b, c);
    let z = chunk_outcomes(outcomes, channels, a, c);
    assert(x + y =~= z);
    assert(all_decoded(z) == (all_decoded(x) && all_decoded(y))) by {
        if all_decoded(x) && all_decoded(y) {
            assert forall|k: int| 0 <= k < z.len() implies #[trigger] z[k] is Some by {
                if k < x.len() {
                    assert(z[k] == x[k]);
                } else {
                    assert(z[k] == y[k - x.len()]);
                }
            }
        }
        if all_decoded(z) {
            assert forall|k: int| 0 <= k < x.len() implies #[trigger] x[k] is Some by {
                assert(x[k] == z[k]);
            }
            assert forall|k: int| 0 <= k < y.len() implies #[trigger] y[k] is Some by {
                assert(y[k] == z[k + x.len()]);
            }
        }
    }
    assert(decoded(x) + decoded(y) =~= decoded(z));
}

/// Every sample of the WAV file in `bytes`, decoded into `i16`; every
/// sample must decode.
pub fn load_i16(bytes: &[u8]) -> (res: Result<Vec<i16>, WavError>)
    ensures
        wav_header_of(bytes@) is None ==> res matches Err(WavError::Hound(_)),
        wav_header_of(bytes@) matches Some(h) ==> {
            let outcomes = wav_samples_i16_of(bytes@);
            &&& outcomes.len() == h.len
            &&& (res is Ok) == all_decoded(outcomes)
            &&& (res matches Ok(v) ==> v@ == decoded(outcomes))
            &&& (res matches Ok(v) ==> v@.len() == frames_of(h) * h.spec.channels)
            &&& (res matches Err(e) ==> e is Hound)
        },
{
    let header = match wav_header(bytes) {
        Ok(h) => h,
        Err(e) => return Err(e),
    };
    let duration = header.duration();
    let res = read_chunk_i16(bytes, 0, duration as usize);
    proof {
        lemma_whole_file_chunk(header, wav_samples_i16_of(bytes@));
        lemma_frames_cover_samples(header);
    }
    res
}

/// Every sample of the WAV file in `bytes`, decoded into `i32`; every
/// sample must decode.
pub fn load_i32(bytes: &[u8]) -> (res: Result<Vec<i32>, WavError>)
    ensures
        wav_header_of(bytes@) is None ==> res matches Err(WavError::Hound(_)),
        wav_header_of(bytes@) matches Some(h) ==> {
            let outcomes = wav_samples_i32_of(bytes@);
            &&& outcomes.len() == h.len
            &&& (res is Ok) == all_decoded(outcomes)
            &&& (res matches Ok(v) ==> v@ == decoded(outcomes))
            &&& (res matches Ok(v) ==> v@.len() == frames_of(h) * h.spec.channels)
            &&& (res matches Err(e) ==> e is Hound)
        },
{
    let header = match wav_header(bytes) {
        Ok(h) => h,
        Err(e) => return Err(e),
    };
    let duration = header.duration();
    let res = read_chunk_i32(bytes, 0, duration as usize);
    proof {
        lemma_whole_file_chunk(header, wav_samples_i32_of(bytes@));
        lemma_frames_cover_samples(header);
    }
    res
}

/// The sample format named `name`: "float" or "int".
pub open spec fn format_named(name: Seq<char>) -> Option<SampleFormat> {
    if name == "float"@ {
        Some(SampleFormat::Float)
    } else if name == "int"@ {
        Some(SampleFormat::Int)
    } else {
        None
    }
}

/// The sample format named `name`: "float" or "int"; no other name is
/// accepted.
pub fn parse_sample_format(name: &str) -> (format: Option<SampleFormat>)
    ensures
        format == format_named(name@),
{
    if crate::text::same_text(name, "float") {
        Some(SampleFormat::Float)
    } else if crate::text::same_text(name, "int") {
        Some(SampleFormat::Int)
    } else {
        None
    }
}

/// The spec a file is saved with: float samples take 32 bits, integer
/// samples 16.
pub fn save_spec(sample_rate: u32, channels: u16, sample_format: SampleFormat) -> (spec: WavSpec)
    ensures
        spec.sample_rate == sample_rate,
        spec.channels == channels,
        spec.sample_format == sample_format,
        spec.bits_per_sample == (match sample_format {
            SampleFormat::Float => 32u16,
            SampleFormat::Int => 16u16,
        }),
{
    let bits_per_sample: u16 = match sample_format {
        SampleFormat::Float => 32,
        SampleFormat::Int => 16,
    };
    WavSpec { sample_rate, channels, bits_per_sample, sample_format }
}

/// The sample format decides first: a float file is decoded into floats
/// whatever its depth, and an integer file never is; an integer file is
/// decoded into `i16` exactly when its samples are 16 bits, into `i32` at
/// any other depth.
pub proof fn lemma_encoding_follows_format(spec: WavSpec)
    ensures
        (encoding_for(spec) == SampleEncoding::Float32) == (spec.sample_format
            == SampleFormat::Float),
        spec.sample_format == SampleFormat::Int ==> ((encoding_for(spec) == SampleEncoding::Int16)
            == (spec.bits_per_sample == 16)),
        spec.sample_format == SampleFormat::Int && spec.bits_per_sample != 16 ==> encoding_for(spec)
            == SampleEncoding::Int32,
{
}

} // verus!
