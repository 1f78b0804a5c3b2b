//! One binary plane per palette colour, marking the pixels of that colour.

use vstd::prelude::*;
use crate::colour::Rgb;
use crate::error::PipelineError;
use crate::picture::{lemma_cell_in_grid, Picture};

verus! {

/// The four planes of a mask set, as sequences of bytes.
pub open spec fn planes_of(masks: &[Vec<u8>; 4]) -> Seq<Seq<u8>> {
    Seq::new(4, |k: int| masks@[k]@)
}

/// `k` is the position of the first entry of `colours` equal to `colour`.
pub open spec fn is_first_match(colours: Seq<Rgb>, colour: Rgb, k: int) -> bool {
    &&& 0 <= k < colours.len()
    &&& colours[k] == colour
    &&& forall|j: int| 0 <= j < k ==> colours[j] != colour
}

/// Plane `k` of a picture: 1 where the pixel's colour is first found at
/// position `k` of `colours`, 0 elsewhere, in row-major order.
pub open spec fn mask_of(pixels: Seq<Rgb>, colours: Seq<Rgb>, k: int) -> Seq<u8> {
    Seq::new(pixels.len(), |i: int| if is_first_match(colours, pixels[i], k) { 1u8 } else { 0u8 })
}

/// `i` is the first pixel whose colour is missing from `colours`.
pub open spec fn is_first_off_palette(pixels: Seq<Rgb>, colours: Seq<Rgb>, i: int) -> bool {
    &&& 0 <= i < pixels.len()
    &&& !colours.contains(pixels[i])
    &&& forall|j: int| 0 <= j < i ==> colours.contains(#[trigger] pixels[j])
}

/// Exactly one of the four planes is non-zero at position `i`.
pub open spec fn one_plane_active(planes: Seq<Seq<u8>>, i: int) -> bool {
    exists|k: int|
        0 <= k < 4 && #[trigger] planes[k][i] != 0 && forall|j: int|
            0 <= j < 4 && j != k ==> #[trigger] planes[j][i] == 0
}

/// Four planes of `n` bytes each, of which exactly one is non-zero at every
/// position.
pub open spec fn is_partition(planes: Seq<Seq<u8>>, n: nat) -> bool {
    &&& planes.len() == 4
    &&& forall|k: int| 0 <= k < 4 ==> (#[trigger] planes[k]).len() == n
    &&& forall|i: int| 0 <= i < n ==> one_plane_active(planes, i)
}

/// Position of the first entry of `colours` equal to `colour`, if there is one.
pub fn find_colour(colours: &[Rgb], colour: Rgb) -> (found: Option<usize>)
    ensures
        match found {
            Some(k) => is_first_match(colours@, colour, k as int),
            None => !colours@.contains(colour),
        },
{
    let mut k: usize = 0;
    while k < colours.len()
        invariant
            k <= colours@.len(),
            forall|j: int| 0 <= j < k ==> colours@[j] != colour,
        decreases colours@.len() - k,
    {
        if colours[k] == colour {
            return Some(k);
        }
        k += 1;
    }
    None
}

/// Splits a picture into four planes, one per palette colour.
///
/// Plane `k` is 1 at every pixel whose colour is `colours[k]` and 0 elsewhere,
/// in the picture's own row-major order. The call fails on the first pixel (in
/// that order) whose colour is not in `colours`.
pub fn create_masks(colours: &[Rgb], source_image: &Picture) -> (result: Result<
    [Vec<u8>; 4],
    PipelineError,
>)
    requires
        source_image.wf(),
        colours@.len() == 4,
    ensures
        result is Ok <==> forall|i: int|
            0 <= i < source_image.pixels@.len() ==> colours@.contains(
                #[trigger] source_image.pixels@[i],
            ),
        result matches Ok(masks) ==> {
            &&& forall|k: int|
                0 <= k < 4 ==> (#[trigger] planes_of(&masks)[k]) == mask_of(
                    source_image.pixels@,
                    colours@,
                    k,
                )
            &&& is_partition(planes_of(&masks), source_image.pixels@.len())
        },
        result matches Err(e) ==> {
            &&& e matches PipelineError::OffPaletteColour { x, y }
            &&& x < source_image.width
            &&& y < source_image.height
            &&& is_first_off_palette(source_image.pixels@, colours@, y * source_image.width + x)
        },
{
    let width = source_image.width;
    let height = source_image.height;
    let size: usize = source_image.pixels.len();
    let ghost pixels = source_image.pixels@;
    let mut masks = [vec![0u8; size], vec![0u8; size], vec![0u8; size], vec![0u8; size]];
    let mut y: u32 = 0;
    while y < height
        invariant
            y <= height,
            source_image.wf(),
            width == source_image.width,
            height == source_image.height,
            pixels == source_image.pixels@,
            size == pixels.len(),
            colours@.len() == 4,
            forall|k: int| 0 <= k < 4 ==> (#[trigger] masks@[k])@.len() == size,
            forall|i: int| 0 <= i < y * width ==> colours@.contains(#[trigger] pixels[i]),
            forall|k: int, i: int|
                0 <= k < 4 && 0 <= i < size ==> #[trigger] masks@[k]@[i] == (if i < y * width
                    && is_first_match(colours@, pixels[i], k) {
                    1u8
                } else {
                    0u8
                }),
        decreases height - y,
    {
        let mut x: u32 = 0;
        while x < width
            invariant
                y < height,
                x <= width,
                source_image.wf(),
                width == source_image.width,
                height == source_image.height,
                pixels == source_image.pixels@,
                size == pixels.len(),
                colours@.len() == 4,
                forall|k: int| 0 <= k < 4 ==> (#[trigger] masks@[k])@.len() == size,
                forall|i: int| 0 <= i < y * width + x ==> colours@.contains(#[trigger] pixels[i]),
                forall|k: int, i: int|
                    0 <= k < 4 && 0 <= i < size ==> #[trigger] masks@[k]@[i] == (if i < y * width
                        + x && is_first_match(colours@, pixels[i], k) {
                        1u8
                    } else {
                        0u8
                    }),
            decreases width - x,
        {
            proof {
                lemma_cell_in_grid(width as int, height as int, x as int, y as int);
            }
            let pixel_idx: usize = (y as usize) * (width as usize) + (x as usize);
            match find_colour(colours, source_image.pixel(x, y)) {
                Some(palette_idx) => {
                    masks[palette_idx][pixel_idx] = 1;
                },
                None => {
                    return Err(PipelineError::OffPaletteColour { x, y });
                },
            }
            x += 1;
        }
        proof {
            assert((y + 1) * width == y * width + width) by (nonlinear_arith);
        }
        y += 1;
    }
    proof {
        assert(y * width == width * height) by (nonlinear_arith)
            requires
                y == height,
        ;
        assert forall|k: int| 0 <= k < 4 implies (#[trigger] planes_of(&masks)[k]) == mask_of(
            pixels,
            colours@,
            k,
        ) by {
            assert(planes_of(&masks)[k] =~= mask_of(pixels, colours@, k));
        }
        lemma_masks_partition(pixels, colours@);
        assert forall|i: int| 0 <= i < size implies one_plane_active(planes_of(&masks), i) by {
            assert(one_plane_active(picture_planes(pixels, colours@), i));
            assert(planes_of(&masks) =~= picture_planes(pixels, colours@));
        }
    }
    Ok(masks)
}

/// The four planes of a picture, in palette order.
pub open spec fn picture_planes(pixels: Seq<Rgb>, colours: Seq<Rgb>) -> Seq<Seq<u8>> {
    Seq::new(4, |k: int| mask_of(pixels, colours, k))
}

/// The planes of a picture whose colours all come from a four-colour palette
/// partition its pixels: at every pixel exactly one plane is set.
pub proof fn lemma_masks_partition(pixels: Seq<Rgb>, colours: Seq<Rgb>)
    requires
        colours.len() == 4,
        forall|i: int| 0 <= i < pixels.len() ==> colours.contains(#[trigger] pixels[i]),
    ensures
        is_partition(picture_planes(pixels, colours), pixels.len()),
{
    let planes = picture_planes(pixels, colours);
    assert forall|i: int| 0 <= i < pixels.len() implies one_plane_active(planes, i) by {
        let k = first_match(colours, pixels[i]);
        assert(colours.contains(pixels[i]));
        lemma_first_match(colours, pixels[i]);
        assert(planes[k][i] != 0);
        assert forall|j: int| 0 <= j < 4 && j != k implies #[trigger] planes[j][i] == 0 by {
            if is_first_match(colours, pixels[i], j) {
                assert(false);
            }
        }
    }
}

/// Position of the first entry of `colours` equal to `colour`; the length of
/// `colours` when there is none.
pub open spec fn first_match(colours: Seq<Rgb>, colour: Rgb) -> int
    decreases colours.len(),
{
    if colours.len() == 0 {
        0
    } else if colours[0] == colour {
        0
    } else {
        1 + first_match(colours.skip(1), colour)
    }
}

/// `first_match` finds the first match when there is one.
pub proof fn lemma_first_match(colours: Seq<Rgb>, colour: Rgb)
    ensures
        0 <= first_match(colours, colour) <= colours.len(),
        colours.contains(colour) ==> is_first_match(colours, colour, first_match(colours, colour)),
        !colours.contains(colour) ==> first_match(colours, colour) == colours.len(),
    decreases colours.len(),
{
    if colours.len() == 0 {
    } else if colours[0] == colour {
    } else {
        let rest = colours.skip(1);
        lemma_first_match(rest, colour);
        if colours.contains(colour) {
            let w = choose|w: int| 0 <= w < colours.len() && colours[w] == colour;
            assert(rest[w - 1] == colour);
            assert(rest.contains(colour));
            let r = first_match(rest, colour);
            assert forall|j: int| 0 <= j < r + 1 implies colours[j] != colour by {
                if j > 0 {
                    assert(rest[j - 1] == colours[j]);
                }
            }
        } else {
            if rest.contains(colour) {
                let w = choose|w: int| 0 <= w < rest.len() && rest[w] == colour;
                assert(colours[w + 1] == colour);
            }
        }
    }
}

/// The two binary digits of a mask number, high bit first.
pub open spec fn spec_mask_label(index: int) -> Seq<char> {
    seq![if index / 2 == 1 { '1' } else { '0' }, if index % 2 == 1 { '1' } else { '0' }]
}

/// The label under which mask `index` is stored: its number as two binary
/// digits.
pub fn mask_label(index: usize) -> (label: &'static str)
    requires
        index < 4,
    ensures
        label@ == spec_mask_label(index as int),
{
    proof {
        reveal_strlit("00");
        reveal_strlit("01");
        reveal_strlit("10");
        reveal_strlit("11");
    }
    let label = if index == 0 {
        "00"
    } else if index == 1 {
        "01"
    } else if index == 2 {
        "10"
    } else {
        "11"
    };
    assert(label@ =~= spec_mask_label(index as int));
    label
}

} // verus!
