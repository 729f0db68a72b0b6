//! Audio buffer layouts, WAV decoding and stream encoding through `hound`,
//! segmentation plans and fade envelopes, with their contracts proved by
//! Verus.
pub mod audio;
pub mod segmentation;
pub mod text;
pub mod transforms;
pub mod wav;
pub mod wav_stream;

pub use audio::{deinterleave, duplicate_channels, from_planar, interleave, to_planar, NoiseColor};
pub use segmentation::{
    desegment_layout, segment_channels, segment_layout, DesegmentLayout, SegmentError, SegmentPlan,
};
pub use transforms::{EnvelopeLayout, Fade, FadeError, FadeShape, FadeSpan};
pub use wav::{
    chunk_sample_range, load_i16, load_i32, parse_sample_format, read_chunk_i16, read_chunk_i32,
    sample_encoding, save_spec, wav_header, SampleEncoding, SampleFormat, WavError, WavHeader,
    WavSpec,
};
pub use wav_stream::{
    read_wav_from_stream, sample_bytes, stream_header, write_wav_to_stream, StreamedWav,
};
