use std::io::Cursor;
use tensoraudio::{
    chunk_sample_range, load_i16, load_i32, parse_sample_format, read_chunk_i16,
    read_chunk_i32, read_wav_from_stream, sample_bytes, sample_encoding, save_spec,
    stream_header, wav_header, write_wav_to_stream, SampleEncoding, SampleFormat, WavError,
    WavSpec,
};

fn wav_bytes<S: hound::Sample + Copy>(spec: hound::WavSpec, samples: &[S]) -> Vec<u8> {
    let mut buffer = Vec::new();
    {
        let mut writer = hound::WavWriter::new(Cursor::new(&mut buffer), spec).unwrap();
        for &s in samples {
            writer.write_sample(s).unwrap();
        }
        writer.finalize().unwrap();
    }
    buffer
}

fn int_spec(channels: u16, bits_per_sample: u16) -> hound::WavSpec {
    hound::WavSpec {
        channels,
        sample_rate: 44100,
        bits_per_sample,
        sample_format: hound::SampleFormat::Int,
    }
}

#[test]
fn test_read_wav_from_stream() {
    // Create a simple mono WAV file in memory with two samples
    let spec = hound::WavSpec {
        channels: 1,
        sample_rate: 44100,
        bits_per_sample: 16,
        sample_format: hound::SampleFormat::Int,
    };
    let mut buffer = Vec::new();
    {
        let mut writer = hound::WavWriter::new(Cursor::new(&mut buffer), spec).unwrap();
        writer.write_sample(42i16).unwrap();
        writer.write_sample(-42i16).unwrap();
        writer.finalize().unwrap();
    }

    // Read it back using our function
    let streamed = read_wav_from_stream(&buffer).unwrap();
    let samples = streamed.samples;
    let duration = streamed.num_frames as f32 / streamed.sample_rate as f32;

    assert_eq!(samples, vec![42i16, -42i16]);
    assert_eq!(duration, 2.0 / 44100.0);
}

#[test]
fn test_write_wav_to_stream() {
    let samples = vec![10000, 10000];
    let sample_rate = 44100;
    let mut writer = Vec::new();
    write_wav_to_stream(&mut writer, &samples, sample_rate).unwrap();
    assert!(writer.len() > 0);
}

#[test]
fn read_stream_of_many_chunks() {
    let samples: Vec<i16> = (0..5000).map(|i| (i * 7 - 9000) as i16).collect();
    let bytes = wav_bytes(int_spec(2, 16), &samples);
    let streamed = read_wav_from_stream(&bytes).unwrap();
    assert_eq!(streamed.samples, samples);
    assert_eq!(streamed.channels, 2);
    assert_eq!(streamed.sample_rate, 44100);
    assert_eq!(streamed.num_frames, 2500);
}

#[test]
fn stereo_stream_lasts_its_frames() {
    let bytes = wav_bytes(int_spec(2, 16), &[1i16, 2, 3, 4, 5, 6]);
    let streamed = read_wav_from_stream(&bytes).unwrap();
    assert_eq!(streamed.samples, vec![1, 2, 3, 4, 5, 6]);
    assert_eq!(streamed.num_frames, 3);
    let duration = streamed.num_frames as f32 / streamed.sample_rate as f32;
    assert_eq!(duration, 3.0 / 44100.0);
}

#[test]
fn adjacent_chunks_join() {
    let samples: Vec<i16> = (0..30).map(|x| x * 3 - 40).collect();
    let bytes = wav_bytes(int_spec(3, 16), &samples);
    let mut joined = read_chunk_i16(&bytes, 1, 4).unwrap();
    joined.extend(read_chunk_i16(&bytes, 4, 9).unwrap());
    assert_eq!(joined, read_chunk_i16(&bytes, 1, 9).unwrap());
    let duration = wav_header(&bytes).unwrap().duration() as usize;
    assert_eq!(read_chunk_i16(&bytes, 0, duration).unwrap(), load_i16(&bytes).unwrap());
}

#[test]
fn read_stream_rejects_garbage_and_float_samples() {
    assert!(matches!(read_wav_from_stream(b"not a wav file"), Err(WavError::Hound(_))));
    let float_spec = hound::WavSpec {
        channels: 1,
        sample_rate: 8000,
        bits_per_sample: 32,
        sample_format: hound::SampleFormat::Float,
    };
    let bytes = wav_bytes(float_spec, &[0.5f32, -0.5]);
    assert!(matches!(read_wav_from_stream(&bytes), Err(WavError::Hound(_))));
}

#[test]
fn stream_header_bytes_are_the_pcm_header() {
    let header = stream_header(16000);
    let mut expected = Vec::new();
    expected.extend_from_slice(b"RIFF");
    expected.extend_from_slice(&[0xff; 4]);
    expected.extend_from_slice(b"WAVEfmt ");
    expected.extend_from_slice(&16u32.to_le_bytes());
    expected.extend_from_slice(&1u16.to_le_bytes());
    expected.extend_from_slice(&1u16.to_le_bytes());
    expected.extend_from_slice(&16000u32.to_le_bytes());
    expected.extend_from_slice(&32000u32.to_le_bytes());
    expected.extend_from_slice(&2u16.to_le_bytes());
    expected.extend_from_slice(&16u16.to_le_bytes());
    expected.extend_from_slice(b"data");
    expected.extend_from_slice(&[0xff; 4]);
    assert_eq!(header, expected);
}

#[test]
fn sample_bytes_are_little_endian() {
    assert_eq!(sample_bytes(0x1234), vec![0x34, 0x12]);
    assert_eq!(sample_bytes(-2), vec![0xfe, 0xff]);
    assert_eq!(sample_bytes(i16::MIN), vec![0x00, 0x80]);
}

#[test]
fn written_stream_is_header_then_samples() {
    let samples: Vec<i16> = vec![1, -1, 300];
    let mut writer = vec![9u8];
    write_wav_to_stream(&mut writer, &samples, 8000).unwrap();
    assert_eq!(writer.len(), 1 + 44 + 6);
    assert_eq!(writer[0], 9);
    assert_eq!(&writer[1..45], &stream_header(8000)[..]);
    assert_eq!(&writer[45..], &[1, 0, 0xff, 0xff, 0x2c, 0x01]);
}

#[test]
fn header_of_written_file() {
    let bytes = wav_bytes(int_spec(2, 16), &[1i16, 2, 3, 4, 5, 6]);
    let header = wav_header(&bytes).unwrap();
    assert_eq!(
        header.spec,
        WavSpec {
            channels: 2,
            sample_rate: 44100,
            bits_per_sample: 16,
            sample_format: SampleFormat::Int,
        }
    );
    assert_eq!(header.len, 6);
    assert_eq!(header.duration(), 3);
    assert!(matches!(wav_header(&bytes[..20]), Err(WavError::Hound(_))));
}

#[test]
fn read_chunk_of_frames() {
    let samples: Vec<i16> = (0..20).collect();
    let bytes = wav_bytes(int_spec(2, 16), &samples);
    assert_eq!(read_chunk_i16(&bytes, 2, 5).unwrap(), vec![4, 5, 6, 7, 8, 9]);
    assert_eq!(read_chunk_i16(&bytes, 0, 10).unwrap(), samples);
    assert!(read_chunk_i16(&bytes, 4, 4).unwrap().is_empty());
    assert!(matches!(read_chunk_i16(&bytes, 11, 12), Err(WavError::StartBeyondDuration)));
    assert!(matches!(read_chunk_i16(&bytes, 0, 11), Err(WavError::EndBeyondDuration)));
    assert!(matches!(read_chunk_i16(&bytes, 5, 2), Err(WavError::EndBeforeStart)));
}

#[test]
fn read_chunk_int32_of_24_bit_file() {
    let samples: Vec<i32> = vec![-8_000_000, 1, 8_000_000, 42];
    let bytes = wav_bytes(int_spec(1, 24), &samples);
    assert_eq!(read_chunk_i32(&bytes, 1, 3).unwrap(), vec![1, 8_000_000]);
    assert_eq!(load_i32(&bytes).unwrap(), samples);
    // 24-bit samples do not fit in an i16.
    assert!(matches!(load_i16(&bytes), Err(WavError::Hound(_))));
}

#[test]
fn load_whole_file() {
    let samples: Vec<i16> = vec![i16::MIN, -1, 0, 1, i16::MAX, 7];
    let bytes = wav_bytes(int_spec(3, 16), &samples);
    let loaded = load_i16(&bytes).unwrap();
    assert_eq!(loaded, samples);
    let header = wav_header(&bytes).unwrap();
    assert_eq!(loaded.len(), header.duration() as usize * header.spec.channels as usize);
}

#[test]
fn chunk_ranges() {
    assert_eq!(chunk_sample_range(441000, 2, 0, 1000).unwrap(), (0, 2000));
    assert_eq!(chunk_sample_range(10, 3, 4, 10).unwrap(), (12, 18));
    assert!(matches!(chunk_sample_range(10, 3, 11, 10), Err(WavError::StartBeyondDuration)));
    assert!(matches!(chunk_sample_range(10, 3, 1, 11), Err(WavError::EndBeyondDuration)));
    assert!(matches!(chunk_sample_range(10, 3, 6, 5), Err(WavError::EndBeforeStart)));
}

#[test]
fn encodings_and_formats() {
    let mut spec = save_spec(44100, 2, SampleFormat::Int);
    assert_eq!(spec.bits_per_sample, 16);
    assert_eq!(sample_encoding(&spec), SampleEncoding::Int16);
    spec.bits_per_sample = 24;
    assert_eq!(sample_encoding(&spec), SampleEncoding::Int32);
    let float_spec = save_spec(48000, 1, SampleFormat::Float);
    assert_eq!(float_spec.bits_per_sample, 32);
    assert_eq!(sample_encoding(&float_spec), SampleEncoding::Float32);
    assert_eq!(parse_sample_format("float"), Some(SampleFormat::Float));
    assert_eq!(parse_sample_format("int"), Some(SampleFormat::Int));
    assert_eq!(parse_sample_format("Int"), None);
    assert_eq!(parse_sample_format("double"), None);
}
