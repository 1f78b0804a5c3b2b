//! Colours and the four-colour palette.

use vstd::prelude::*;

verus! {

/// One pixel's colour: red, green and blue, eight bits each.
#[derive(Debug, Clone, Copy, PartialEq, Eq, Structural)]
pub struct Rgb {
    pub r: u8,
    pub g: u8,
    pub b: u8,
}

/// Number of colours a picture must use.
pub const PALETTE_SIZE: usize = 4;

/// Number of entries in the colour table of an 8-bit indexed bitmap.
pub const COLOUR_TABLE_SIZE: usize = 256;

/// The colour table obtained by repeating `palette` until 256 entries are filled.
pub open spec fn tiled(palette: Seq<Rgb>) -> Seq<Rgb> {
    Seq::new(256, |i: int| palette[i % 4])
}

/// Builds the 256-entry colour table whose entry `i` is `palette[i mod 4]`.
pub fn tile_palette(palette: &[Rgb]) -> (table: Vec<Rgb>)
    requires
        palette@.len() == 4,
    ensures
        table@ == tiled(palette@),
{
    let mut table: Vec<Rgb> = Vec::with_capacity(COLOUR_TABLE_SIZE);
    let mut i: usize = 0;
    while i < COLOUR_TABLE_SIZE
        invariant
            i <= 256,
            palette@.len() == 4,
            table@.len() == i,
            forall|j: int| 0 <= j < i ==> table@[j] == palette@[j % 4],
        decreases 256 - i,
    {
        table.push(palette[i % PALETTE_SIZE]);
        i += 1;
    }
    table
}

} // verus!
