# tiny_audio_codec

A small transform audio codec. PCM samples are cut into frames of 512, taken
through a windowed MDCT, quantized band by band against a masking threshold,
and the quantized integers are Rice-coded into a `.gla` file whose header
records the frame count, sample rate, channel count and the quantizer step
(delta-table index) of each band of each frame.

Layout:

- `src/` — the verified library (Verus):
  - `bitstream.rs`: bit sequences, their packing into bytes, and the
    `bitstream_io` bit writer and reader over in-memory buffers;
  - `rice.rs`: zigzag codes, remainder lengths, Rice codes of values;
  - `format.rs`: the band layout, the bits of a frame and of a header, how
    they are read back, and the proofs that reading gives back what was
    written;
  - `header.rs`: writing and reading the header fields;
  - `encoder.rs`, `decoder.rs`: the encoder's and decoder's bitstream state;
  - `recorder.rs`, `playback.rs`: the recorder screens, the capture and
    playback threads and the audio output as state and decision functions
    (which frames each playback batch carries, when each thread stops);
  - `queue.rs`: taking runs of items from the front of a queue.
- `app/` — the floating-point signal path (MDCT, quantizer, inverse MDCT),
  WAV and file input/output, on top of the library. The recorder window,
  the audio player and its output callback, the capture stream and the
  worker threads, and the Android entry point are not here: they are built
  on `eframe`/`egui`, `cpal` and `crossbeam-channel`, which target the
  device and are not dependencies of this crate. What they decide is the
  library's `recorder` and `playback` modules, which such a front end
  drives with the events it sees.
- `tests/` — tests of the library.
