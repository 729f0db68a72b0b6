//! WAV streams: a header for a stream of unknown length followed by 16-bit
//! samples, read back with `hound` or written sample by sample.
use vstd::prelude::*;
use crate::wav::{
    all_decoded, decoded, frames_of, next_i16, open_i16, pending_i16, wav_header_of,
    wav_samples_i16_of, SampleFormat, WavError, WavSpec,
};

verus! {

/// The samples of a WAV stream, decoded into `i16`, with what its header
/// says of their layout.
#[derive(Debug)]
pub struct StreamedWav {
    /// Every sample, over all channels.
    pub samples: Vec<i16>,
    /// The number of frames per second.
    pub sample_rate: u32,
    /// The number of channels.
    pub channels: u16,
    /// The number of frames: samples per channel. The stream lasts
    /// `num_frames / sample_rate` seconds.
    pub num_frames: u32,
}

/// The number of samples collected before they join the decoded audio.
pub const CHUNK_SIZE: usize = 1024;

/// Reads a WAV stream from `bytes`: its header, then every sample decoded
/// into `i16`, collected in chunks of `CHUNK_SIZE` samples. The first sample
/// that fails to decode ends the reading with its error.
#[verifier::loop_isolation(false)]
pub fn read_wav_from_stream(bytes: &[u8]) -> (res: Result<StreamedWav, WavError>)
    ensures
        wav_header_of(bytes@) is None ==> res matches Err(WavError::Hound(_)),
        wav_header_of(bytes@) matches Some(h) ==> {
            let outcomes = wav_samples_i16_of(bytes@);
            &&& (res is Ok) == all_decoded(outcomes)
            &&& (res matches Ok(w) ==> {
                &&& w.samples@ == decoded(outcomes)
                &&& w.sample_rate == h.spec.sample_rate
                &&& w.channels == h.spec.channels
                &&& w.num_frames == frames_of(h)
            })
            &&& (res matches Err(e) ==> e is Hound)
        },
{
    let (header, mut wav_samples) = match open_i16(bytes) {
        Ok(opened) => opened,
        Err(e) => return Err(WavError::Hound(e)),
    };
    let sample_rate = header.spec.sample_rate;
    let num_frames = header.duration();
    let mut samples: Vec<i16> = Vec::new();
    let mut chunk: Vec<i16> = Vec::new();
    let ghost all = pending_i16(wav_samples);
    let ghost mut consumed: int = 0;
    proof {
        assert(all.skip(0) =~= all);
        assert(all.take(0) =~= Seq::<Option<i16>>::empty());
        assert(decoded(all.take(0)) =~= samples@ + chunk@);
    }
    loop
        invariant
            all == wav_samples_i16_of(bytes@),
            0 <= consumed <= all.len(),
            pending_i16(wav_samples) == all.skip(consumed),
            all_decoded(all.take(consumed)),
            samples@ + chunk@ == decoded(all.take(consumed)),
            chunk@.len() < CHUNK_SIZE,
        decreases all.len() - consumed,
    {
        let ghost before = all.take(consumed);
        let next = next_i16(&mut wav_samples);
        match next {
            None => {
                proof {
                    assert(all.take(consumed) =~= all);
                }
                break;
            },
            Some(Err(e)) => {
                proof {
                    assert(all.skip(consumed)[0] == all[consumed]);
                    assert(all[consumed] is None);
                    assert(!all_decoded(all));
                }
                return Err(WavError::Hound(e));
            },
            Some(Ok(s)) => {
                let ghost old_samples = samples@;
                let ghost old_chunk = chunk@;
                chunk.push(s);
                proof {
                    assert(all.skip(consumed)[0] == all[consumed]);
                    assert(all.skip(consumed).drop_first() =~= all.skip(consumed + 1));
                    assert(all.take(consumed + 1) =~= before.push(all[consumed]));
                    assert(decoded(all.take(consumed + 1)) =~= decoded(before).push(s));
                    assert(old_samples + chunk@ =~= (old_samples + old_chunk).push(s));
                    consumed = consumed + 1;
                }
                if chunk.len() == CHUNK_SIZE {
                    samples.append(&mut chunk);
                }
            },
        }
    }
    if !chunk.is_empty() {
        samples.append(&mut chunk);
    }
    proof {
        assert(samples@ =~= decoded(all));
    }
    Ok(StreamedWav { samples, sample_rate, channels: header.spec.channels, num_frames })
}

/// The two bytes of `x`, least significant first.
pub open spec fn le_u16_bytes(x: u16) -> Seq<u8> {
    seq![(x % 256) as u8, (x / 256) as u8]
}

/// The four bytes of `x`, least significant first.
pub open spec fn le_u32_bytes(x: u32) -> Seq<u8> {
    seq![
        (x % 256) as u8,
        ((x / 256) % 256) as u8,
        ((x / 65536) % 256) as u8,
        (x / 16777216) as u8,
    ]
}

/// The bytes of a 16-bit sample in a WAV stream: its two's complement,
/// least significant byte first.
pub open spec fn sample_le_bytes(sample: i16) -> Seq<u8> {
    le_u16_bytes(sample as u16)
}

/// The bytes of `samples`, one after another.
pub open spec fn encoded_samples(samples: Seq<i16>) -> Seq<u8>
    decreases samples.len(),
{
    if samples.len() == 0 {
        Seq::empty()
    } else {
        encoded_samples(samples.drop_last()) + sample_le_bytes(samples.last())
    }
}

/// The 44-byte header of a mono stream of 16-bit integer samples at
/// `sample_rate` frames per second whose length is unknown: the RIFF and
/// data chunk sizes read `0xFFFFFFFF`.
#[verifier::opaque]
pub open spec fn stream_header_bytes(sample_rate: u32) -> Seq<u8> {
    seq![0x52u8, 0x49, 0x46, 0x46] + seq![0xffu8, 0xff, 0xff, 0xff] + seq![
        0x57u8,
        0x41,
        0x56,
        0x45,
    ] + seq![0x66u8, 0x6d, 0x74, 0x20] + le_u32_bytes(16) + le_u16_bytes(1) + le_u16_bytes(1)
        + le_u32_bytes(sample_rate) + le_u32_bytes((sample_rate * 2) as u32) + le_u16_bytes(2)
        + le_u16_bytes(16) + seq![0x64u8, 0x61, 0x74, 0x61] + seq![0xffu8, 0xff, 0xff, 0xff]
}

/// `hound::WavSpec::into_header_for_infinite_file`: the header of a WAV
/// stream of unknown length. The contract covers the one spec this library
/// streams, mono 16-bit integer samples, for which `hound`'s source writes
/// the 44-byte PCM header and then overwrites both chunk sizes with
/// `0xFFFFFFFF`; it divides by the sample rate and multiplies it by the two
/// bytes of a frame, hence the bounds on the rate.
#[verifier::external_body]
fn header_for_infinite_file(spec: WavSpec) -> (header: Vec<u8>)
    requires
        spec.channels == 1,
        spec.bits_per_sample == 16,
        spec.sample_format == SampleFormat::Int,
        0 < spec.sample_rate <= u32::MAX / 2,
    ensures
        header@ == stream_header_bytes(spec.sample_rate),
{
    let sample_format = match spec.sample_format {
        SampleFormat::Float => hound::SampleFormat::Float,
        SampleFormat::Int => hound::SampleFormat::Int,
    };
    let s = hound::WavSpec { channels: spec.channels, sample_rate: spec.sample_rate, bits_per_sample: spec.bits_per_sample, sample_format };
    s.into_header_for_infinite_file()
}

/// `hound::Sample::write` for an `i16` sample: at 16 bits `hound`'s source
/// writes the sample's two bytes, least significant first, which writing
/// into a vector cannot fail.
#[verifier::external_body]
fn write_sample_i16(sample: i16, out: &mut Vec<u8>, bits: u16) -> (res: Result<(), hound::Error>)
    requires
        bits == 16,
    ensures
        res is Ok,
        final(out)@ == old(out)@ + sample_le_bytes(sample),
{
    hound::Sample::write(sample, out, bits)
}

/// The spec of the streams written here: mono 16-bit integer samples.
pub fn stream_spec(sample_rate: u32) -> (spec: WavSpec)
    ensures
        spec == (WavSpec {
            channels: 1,
            sample_rate,
            bits_per_sample: 16,
            sample_format: SampleFormat::Int,
        }),
{
    WavSpec { channels: 1, sample_rate, bits_per_sample: 16, sample_format: SampleFormat::Int }
}

/// The header of a mono stream of 16-bit samples at `sample_rate` frames
/// per second.
pub fn stream_header(sample_rate: u32) -> (header: Vec<u8>)
    requires
        0 < sample_rate <= u32::MAX / 2,
    ensures
        header@ == stream_header_bytes(sample_rate),
{
    header_for_infinite_file(stream_spec(sample_rate))
}

/// The bytes of one 16-bit sample in a stream.
pub fn sample_bytes(sample: i16) -> (bytes: Vec<u8>)
    ensures
        bytes@ == sample_le_bytes(sample),
{
    let mut bytes: Vec<u8> = Vec::new();
    let _ = write_sample_i16(sample, &mut bytes, 16);
    assert(bytes@ =~= sample_le_bytes(sample));
    bytes
}

/// Writes to `writer` the header of a mono stream of 16-bit samples at
/// `sample_rate` frames per second, then every sample of `samples`.
pub fn write_wav_to_stream(writer: &mut Vec<u8>, samples: &[i16], sample_rate: u32) -> (res: Result<
    (),
    WavError,
>)
    requires
        0 < sample_rate <= u32::MAX / 2,
    ensures
        res is Ok,
        final(writer)@ == old(writer)@ + stream_header_bytes(sample_rate) + encoded_samples(
            samples@,
        ),
        final(writer)@.len() == old(writer)@.len() + 44 + 2 * samples@.len(),
{
    let mut header = stream_header(sample_rate);
    writer.append(&mut header);
    let ghost start = writer@;
    let mut i: usize = 0;
    proof {
        assert(samples@.take(0) =~= Seq::<i16>::empty());
        assert(writer@ =~= start + encoded_samples(samples@.take(0)));
    }
    while i < samples.len()
        invariant
            i <= samples@.len(),
            start == old(writer)@ + stream_header_bytes(sample_rate),
            writer@ == start + encoded_samples(samples@.take(i as int)),
        ensures
            i == samples@.len(),
            writer@ == start + encoded_samples(samples@.take(i as int)),
        decreases samples@.len() - i,
    {
        let ghost before = writer@;
        if write_sample_i16(samples[i], writer, 16).is_err() {
            break;
        }
        proof {
            let t = samples@.take(i + 1);
            assert(t.drop_last() =~= samples@.take(i as int));
            assert(t.last() == samples@[i as int]);
            assert(writer@ =~= start + encoded_samples(t));
        }
        i = i + 1;
    }
    assert(samples@.take(samples@.len() as int) =~= samples@);
    proof {
        lemma_stream_header_len(sample_rate);
        lemma_encoded_len(samples@);
    }
    Ok(())
}

/// The header of a stream is 44 bytes long.
pub proof fn lemma_stream_header_len(sample_rate: u32)
    ensures
        stream_header_bytes(sample_rate).len() == 44,
{
    reveal(stream_header_bytes);
}

/// A stream holds two bytes for every sample.
pub proof fn lemma_encoded_len(samples: Seq<i16>)
    ensures
        encoded_samples(samples).len() == 2 * samples.len(),
    decreases samples.len(),
{
    if samples.len() > 0 {
        lemma_encoded_len(samples.drop_last());
    }
}

} // verus!
