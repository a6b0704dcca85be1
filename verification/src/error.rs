use vstd::prelude::*;

verus! {

/// Everything that can abort a parse, in the order the stages report it:
/// transport (`Truncated`), decompression (`Decompress`), then the format
/// checks on sprite records and chunk coordinates.
#[derive(Clone, Copy, Debug, PartialEq, Eq, Structural)]
pub enum LayError {
    /// The stream ended before a complete header or record could be read.
    Truncated,
    /// The stream was detected as compressed but is not a valid zlib stream.
    Decompress,
    /// A sprite record carries a type discriminant outside the known set.
    UnknownSpriteType(u8),
    /// A chunk coordinate is a NaN or an infinity.
    NonFiniteCoord,
    /// A chunk coordinate has a non-zero fractional part.
    FractionalCoord,
    /// The sprite table is empty; a layout without sprites is meaningless.
    NoSprites,
}

} // verus!
