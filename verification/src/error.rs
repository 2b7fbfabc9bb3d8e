//! The errors of the codec.

use vstd::prelude::*;

verus! {

/// Why an encoder or decoder operation did not complete.
#[derive(Debug, Clone, Copy, PartialEq, Eq, Structural)]
pub enum CodecError {
    /// The encoder has no open bitstream: it was not reset, or its stream
    /// was already saved.
    NoWriter,
    /// The decoder has no input.
    NoReader,
    /// Every frame that the header announces has been decoded.
    Finished,
    /// The input ended in the middle of a field.
    UnexpectedEnd,
    /// A value does not fit in the bits of its field.
    ExcessiveValue,
    /// Fewer samples are waiting than one frame takes.
    NotEnoughSamples,
}

/// The outcome of a write to an in-memory bit writer, as a codec result.
pub(crate) fn write_outcome(r: Result<(), std::io::Error>) -> (out: Result<(), CodecError>)
    ensures
        r is Ok ==> out is Ok,
        r is Err ==> out == Err::<(), CodecError>(CodecError::ExcessiveValue),
{
    match r {
        Ok(()) => Ok(()),
        Err(_) => Err(CodecError::ExcessiveValue),
    }
}

/// The outcome of a read from an in-memory bit reader, as a codec result:
/// such a read fails only where the input ends.
pub(crate) fn read_outcome(r: Result<u32, std::io::Error>) -> (out: Result<u32, CodecError>)
    ensures
        r matches Ok(v) ==> out == Ok::<u32, CodecError>(v),
        r is Err ==> out == Err::<u32, CodecError>(CodecError::UnexpectedEnd),
{
    match r {
        Ok(v) => Ok(v),
        Err(_) => Err(CodecError::UnexpectedEnd),
    }
}

} // verus!
