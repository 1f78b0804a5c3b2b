//! The ways in which an encoding run can fail.

use vstd::prelude::*;

verus! {

/// Every failure is fatal for the run that produced it.
#[derive(Debug, Clone, PartialEq, Eq)]
pub enum PipelineError {
    /// The picture does not use exactly four distinct colours; `found` is the
    /// number it does use.
    PaletteSize { found: usize },
    /// The picture's width is not a multiple of four; `excess` columns would
    /// have to be trimmed to make it one.
    UnalignedWidth { excess: u32 },
    /// The pixel at column `x`, row `y` has a colour that is not in the palette.
    OffPaletteColour { x: u32, y: u32 },
    /// The audio has `actual` bytes but the picture only has room for `capacity`.
    PayloadTooLarge { actual: usize, capacity: usize },
    /// None of the four masks is set at byte `index`.
    MaskCoverage { index: usize },
    /// The bitmap encoder or parser rejected its input, or produced something
    /// that does not have the shape the pipeline relies on.
    ContainerFormat { detail: String },
}

} // verus!
