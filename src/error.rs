//! Error categories of decoding, reading and playing.
use vstd::prelude::*;

verus! {

/// Errors in decoding sample bytes.
#[derive(Debug, Clone, Copy, PartialEq, Eq, Structural)]
pub enum DecodingError {
    UnknownFormat,
    UnsupportedBitDepth,
    UnsupportedFormat,
}

/// Errors in reading a sample by position.
#[derive(Debug, Clone, Copy, PartialEq, Eq, Structural)]
pub enum ReaderError {
    InvalidChannel,
    InvalidSample,
    DecodingError,
}

/// Errors in playing frames.
#[derive(Debug, Clone, Copy, PartialEq, Eq, Structural)]
pub enum PlayerError {
    InvalidOutputBufferLength,
    InvalidData,
    FinishedPlaying,
}

} // verus!
