//! Asset importers: PNG to CHR tiles and palettes, RLE, and WAV to DPCM.

use vstd::prelude::*;

pub mod color;
pub mod png;
pub mod rle;
pub mod wav;

verus! {

/// The importer kinds the assembler's include directives use.
#[derive(Debug, Clone, Copy, PartialEq, Eq, Structural)]
#[non_exhaustive]
pub enum Importer {
    /// `.incbin`: raw binary include.
    Binary,
    /// `.incpng`: PNG to CHR tiles.
    Png,
    /// `.incpal`: palette include.
    Palette,
    /// `.incrle`: run-length-encoded include.
    Rle,
    /// `.incwav`: WAV to DPCM.
    Wav,
}

} // verus!
