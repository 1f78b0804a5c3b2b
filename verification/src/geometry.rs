//! The one constraint on a picture's size.

use vstd::prelude::*;
use crate::error::PipelineError;

verus! {

/// Rows of a bitmap are padded to a multiple of this many bytes.
pub const PADDING: u32 = 4;

/// Accepts a width that is a multiple of four.
///
/// With such a width an 8-bit bitmap has no padding bytes, so its pixel data
/// is exactly one byte per pixel. Any other width is refused, with the
/// number of columns beyond the last multiple of four.
pub fn validate_width(width: u32) -> (result: Result<(), PipelineError>)
    ensures
        match result {
            Ok(_) => width % 4 == 0,
            Err(e) => {
                &&& e matches PipelineError::UnalignedWidth { excess }
                &&& excess == width % 4
                &&& excess != 0
            },
        },
{
    if width % PADDING != 0 {
        Err(PipelineError::UnalignedWidth { excess: width % PADDING })
    } else {
        Ok(())
    }
}

} // verus!
