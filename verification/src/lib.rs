//! A small transform audio codec: the integer back end that turns quantized
//! spectral frames into a Rice-coded bitstream with a header, and reads it back.

pub mod bitstream;
pub mod error;
pub mod rice;
pub mod format;
pub mod header;
pub mod encoder;
pub mod decoder;
pub mod recorder;
pub mod playback;
pub mod queue;
