use vstd::prelude::*;

verus! {

/// Failures of the rendering core.
#[derive(Clone, Copy, Debug, PartialEq, Eq, Structural)]
pub enum Error {
    /// The device could not provide memory for a buffer.
    OutOfDeviceMemory,
    /// A resource handle did not resolve to a live resource.
    InvalidHandle,
    /// A write was larger than the buffer it targets.
    BufferTooSmall,
    /// The image descriptor had to be flushed while image slot 0 was empty,
    /// so empty slots had no default image to repeat.
    ImageSlotZeroEmpty,
    /// Bytes that do not decode as a JPEG image.
    InvalidJpeg,
    /// An image whose pixel layout has no texture format here.
    UnsupportedFormat,
}

/// Reasons an asset import can fail on its own (not through a library it uses).
#[derive(Clone, Debug, Eq, Hash, Ord, PartialEq, PartialOrd)]
pub enum ErrorKind {
    InvalidFont,
    InvalidShader(String),
    NoBounds,
    NoCompiler,
}

} // verus!
