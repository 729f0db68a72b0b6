# tensoraudio

Audio file handling and processing: WAV files and streams, channel layouts,
segmentation of long audio into overlapping windows, and fades.

## Layout

- `src/` is the library, written in Verus. Its functions carry contracts
  that Verus proves, resting on six small trusted wrappers of `hound` (in
  `wav.rs` and `wav_stream.rs`) whose contracts are taken from `hound`'s
  source and not proved:
  - `audio.rs`: interleaved and planar channel layouts (`interleave`,
    `deinterleave`, `to_planar`, `from_planar`, `duplicate_channels`) and
    the laws that relate them.
  - `wav.rs`: WAV headers and samples decoded by `hound` from the bytes of a
    file, chunk ranges, the choice of sample type, and the save spec.
  - `wav_stream.rs`: reading a WAV stream, and writing the header and samples
    of a mono 16-bit stream.
  - `segmentation.rs`: the plan that cuts audio into overlapping segments,
    the segments themselves, and the layout that puts them back together.
  - `transforms.rs`: fades, their shapes and the layout of their envelopes.
- `tests/` runs the library on concrete values.
- `app/` holds what the library cannot: file and standard stream I/O,
  floating-point sample arithmetic, and tensors through `tch`.
