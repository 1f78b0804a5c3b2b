//! Finding the colours a picture uses.

use vstd::prelude::*;
use std::collections::HashSet;
use crate::colour::{Rgb, PALETTE_SIZE};
use crate::error::PipelineError;
use crate::picture::Picture;

verus! {

broadcast use vstd::std_specs::hash::group_hash_axioms;

/// The colours of `pixels` without repetition, in the order in which they
/// first appear.
pub open spec fn distinct_colours(pixels: Seq<Rgb>) -> Seq<Rgb>
    decreases pixels.len(),
{
    if pixels.len() == 0 {
        Seq::empty()
    } else {
        let earlier = distinct_colours(pixels.drop_last());
        if earlier.contains(pixels.last()) {
            earlier
        } else {
            earlier.push(pixels.last())
        }
    }
}

/// A colour as one number, different for different colours.
pub open spec fn colour_code(colour: Rgb) -> u32 {
    (colour.r * 65536 + colour.g * 256 + colour.b) as u32
}

/// `distinct_colours` holds every colour of `pixels`, holds nothing else, and
/// holds nothing twice.
pub proof fn lemma_distinct_colours(pixels: Seq<Rgb>)
    ensures
        distinct_colours(pixels).no_duplicates(),
        distinct_colours(pixels).len() <= pixels.len(),
        forall|c: Rgb| distinct_colours(pixels).contains(c) <==> pixels.contains(c),
    decreases pixels.len(),
{
    if pixels.len() > 0 {
        let init = pixels.drop_last();
        let earlier = distinct_colours(init);
        lemma_distinct_colours(init);
        assert forall|c: Rgb| distinct_colours(pixels).contains(c) <==> pixels.contains(c) by {
            if pixels.contains(c) {
                let i = choose|i: int| 0 <= i < pixels.len() && pixels[i] == c;
                if i < pixels.len() - 1 {
                    assert(init[i] == c);
                    assert(init.contains(c));
                    assert(earlier.contains(c));
                }
                if earlier.contains(c) {
                    let j = choose|j: int| 0 <= j < earlier.len() && earlier[j] == c;
                    assert(distinct_colours(pixels)[j] == c);
                } else {
                    assert(earlier.push(pixels.last())[earlier.len() as int] == c);
                }
            }
            if distinct_colours(pixels).contains(c) {
                let j = choose|j: int|
                    0 <= j < distinct_colours(pixels).len() && distinct_colours(pixels)[j] == c;
                if j < earlier.len() {
                    assert(earlier[j] == c);
                    assert(earlier.contains(c));
                    assert(init.contains(c));
                    let i = choose|i: int| 0 <= i < init.len() && init[i] == c;
                    assert(pixels[i] == c);
                } else {
                    assert(pixels[pixels.len() - 1] == c);
                }
            }
        }
    }
}

/// The number of distinct colours is the size of the set of colours.
pub proof fn lemma_distinct_count(pixels: Seq<Rgb>)
    ensures
        distinct_colours(pixels).len() == pixels.to_set().len(),
{
    lemma_distinct_colours(pixels);
    let distinct = distinct_colours(pixels);
    distinct.unique_seq_to_set();
    assert(distinct.to_set() =~= pixels.to_set());
}

/// Collects the palette of a picture: its distinct colours, in the order in
/// which a row-major scan first meets them.
///
/// Fails unless there are exactly four, and then reports how many there are.
pub fn extract_palette(image: &Picture) -> (result: Result<Vec<Rgb>, PipelineError>)
    ensures
        result is Ok <==> image.pixels@.to_set().len() == 4,
        match result {
            Ok(palette) => {
                &&& palette@ == distinct_colours(image.pixels@)
                &&& palette@.len() == 4
                &&& palette@.no_duplicates()
            },
            Err(e) => {
                &&& e matches PipelineError::PaletteSize { found }
                &&& found == image.pixels@.to_set().len()
                &&& found == distinct_colours(image.pixels@).len()
                &&& found != 4
            },
        },
{
    let mut seen: HashSet<u32> = HashSet::new();
    let mut palette: Vec<Rgb> = Vec::new();
    let mut i: usize = 0;
    while i < image.pixels.len()
        invariant
            i <= image.pixels@.len(),
            palette@ == distinct_colours(image.pixels@.take(i as int)),
            forall|c: Rgb| #[trigger] seen@.contains(colour_code(c)) <==> palette@.contains(c),
        decreases image.pixels@.len() - i,
    {
        let colour = image.pixels[i];
        let code: u32 = (colour.r as u32) * 65536 + (colour.g as u32) * 256 + (colour.b as u32);
        let ghost before = palette@;
        let ghost prefix = image.pixels@.take(i as int + 1);
        assert(prefix.drop_last() == image.pixels@.take(i as int));
        assert(prefix.last() == colour);
        assert(code == colour_code(colour));
        assert(seen@.contains(colour_code(colour)) <==> before.contains(colour));
        if seen.insert(code) {
            palette.push(colour);
            assert forall|c: Rgb| #[trigger]
                seen@.contains(colour_code(c)) <==> palette@.contains(c) by {
                assert(colour_code(c) == code <==> c == colour);
                if c == colour {
                    assert(palette@[before.len() as int] == c);
                } else if before.contains(c) {
                    let j = choose|j: int| 0 <= j < before.len() && before[j] == c;
                    assert(palette@[j] == c);
                } else if palette@.contains(c) {
                    let j = choose|j: int| 0 <= j < palette@.len() && palette@[j] == c;
                    assert(before[j] == c);
                }
            }
        }
        i += 1;
    }
    assert(image.pixels@.take(i as int) == image.pixels@);
    proof {
        lemma_distinct_colours(image.pixels@);
        lemma_distinct_count(image.pixels@);
    }
    if palette.len() == PALETTE_SIZE {
        Ok(palette)
    } else {
        Err(PipelineError::PaletteSize { found: palette.len() })
    }
}

} // verus!
