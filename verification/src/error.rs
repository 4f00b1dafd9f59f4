//! What can end a run, and what the collaborators report.

use vstd::prelude::*;

verus! {

/// Why a run failed.
#[derive(Clone, Copy, Debug, PartialEq, Eq, Structural)]
pub enum Error {
    /// The container header could not be parsed.
    MalformedHeader,
    /// The container's picture size is not the size the caller expects.
    DimensionMismatch,
    /// No decoding engine exists for the container's tag.
    UnsupportedCodec,
    /// The decoding engine did not start.
    EngineInitFailed,
    /// The stream ended inside a frame record header.
    Truncated,
    /// Reading the container failed for another reason than its end.
    ReadFailed,
    /// The engine rejected a payload; the number is the engine's own code.
    DecodeFailed(i32),
    /// Writing a picture failed, and not because the consumer went away.
    SinkWriteFailed,
}

/// How reading from the container failed.
#[derive(Clone, Copy, Debug, PartialEq, Eq, Structural)]
pub enum ReadError {
    /// The stream ended exactly at a record boundary.
    EndOfStream,
    /// The stream ended before the bytes asked for were complete.
    Truncated,
    /// Any other failure.
    Other,
}

/// How writing to the sink failed.
#[derive(Clone, Copy, Debug, PartialEq, Eq, Structural)]
pub enum SinkError {
    /// The consumer of the output has gone away.
    Closed,
    /// Any other failure.
    Other,
}

} // verus!
