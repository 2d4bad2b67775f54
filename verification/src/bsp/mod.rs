//! GoldSrc BSP v30 ingestion: the byte cursor, the header and lump
//! directory, WAD3 texture archives and miptex decoding, and the entity lump.
pub mod compile;
pub mod entity;
pub mod format;
pub mod info;
pub mod reader;
pub mod wad;
pub mod wadlist;

use vstd::prelude::*;

verus! {

/// Why a BSP, WAD or miptex buffer was rejected.
#[derive(Clone, Copy, PartialEq, Eq, Debug, Structural)]
pub enum BspError {
    /// A read of `need` bytes at `at` runs past the `have` bytes there are.
    UnexpectedEnd { need: usize, at: usize, have: usize },
    /// The header carries a version other than GoldSrc's 30.
    UnsupportedVersion(i32),
    /// A lump's `start..end` range runs past the `len` bytes of the file.
    LumpOutOfRange { lump: usize, start: usize, end: usize, len: usize },
    /// The first four bytes are not `WAD3`.
    NotWad3,
    /// A miptex is empty or larger than 4096 in either dimension.
    InvalidDimensions { width: u32, height: u32 },
    /// A miptex whose pixels live in an external WAD.
    NoEmbeddedPixels,
    /// The first mip level runs past the end of the miptex.
    Mip0OutOfRange,
    /// The palette count runs past the end of the miptex.
    PaletteHeaderOutOfRange,
    /// The palette runs past the end of the miptex.
    PaletteOutOfRange,
}

} // verus!
