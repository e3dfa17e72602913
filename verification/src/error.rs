//! The ways in which a load can fail.

use vstd::prelude::*;

verus! {

/// The structural rule of the format that a file breaks.
#[derive(Clone, Copy, Debug, PartialEq, Eq, Structural)]
pub enum Corruption {
    /// The file header or a frame header does not carry its magic number.
    BadMagic,
    /// A chunk's handler has read past the end that the chunk declares.
    ChunkOverrun,
    /// A length-prefixed string does not hold UTF-8.
    InvalidUtf8,
    /// A linked cel names its own frame or a later one.
    LinkedFrameNotEarlier,
    /// A cel's pixel data is no zlib stream.
    BadCompressedData,
    /// A cel's pixel data does not inflate to `width * height * 4` bytes.
    PixelSizeMismatch,
    /// A cel names a layer that no layer chunk has declared yet.
    LayerIndexOutOfRange,
}

/// What the file holds that this decoder does not read.
#[derive(Clone, Copy, Debug, PartialEq, Eq, Structural)]
pub enum Unsupported {
    /// A chunk of this numeric type.
    ChunkType(u16),
    /// A cel stored in the mode of this number.
    CelType(u16),
    /// A canvas with more bytes than this machine can address.
    CanvasSize,
}

/// Why a load was aborted. No partial document is ever handed out.
#[derive(Clone, Copy, Debug, PartialEq, Eq, Structural)]
pub enum AsepriteError {
    /// A chunk type or cel storage mode that is recognised but not read.
    Unimplemented(Unsupported),
    /// The bytes break a rule of the format.
    CorruptFile(Corruption),
    /// The byte source ended before a read was complete.
    Io,
}

} // verus!
