//! The encoding pipeline, from a decoded picture and raw audio to the bytes
//! of the files to be written.
//!
//! The pipeline has two stages, so that a caller can write the mask files
//! before it reads the audio: [`build_masks`] and [`embed_audio`].
//! [`encode`] runs both.
//!
//! The bitmap parser is only called on targets whose `usize` has 64 bits; on
//! others whatever needs it fails with `ContainerFormat`.

use vstd::prelude::*;
use crate::audio::{load_audio, padded};
use crate::colour::Rgb;
use crate::container::{
    bmp_encoding, encode_mask, encode_painted_bitmap, flip_rows, flipped_index,
    is_bottom_up_bitmap, layout_fits, lemma_flipped_index, mask_palette, painted_bitmap,
    parsed_layout, pixel_data_start, read_layout, region_of, BitmapLayout,
};
use crate::error::PipelineError;
use crate::geometry::validate_width;
use crate::mask::{
    create_masks, first_match, is_first_match, is_partition, lemma_first_match, mask_of,
    one_plane_active, planes_of,
};
use crate::paint::{
    active_mask, lemma_painted_byte, lemma_partition_is_covered, paint_audio_bytes, painted,
    painted_byte,
};
use crate::palette::{distinct_colours, extract_palette, lemma_distinct_colours};
use crate::picture::Picture;

verus! {

/// The pixel data of a mask file: the region that its header describes,
/// where that region holds exactly `size` bytes and ends where the file
/// ends; `None` where the parser refuses the file or the header describes
/// another region.
pub open spec fn mask_data(file: Seq<u8>, size: nat) -> Option<Seq<u8>> {
    match parsed_layout(file) {
        Some((start, len)) => if len == size && start <= file.len() && file.len() - start
            == size {
            Some(file.subrange(start as int, (start + len) as int))
        } else {
            None
        },
        None => None,
    }
}

/// What comes back when a mask plane is encoded as a bitmap file and the
/// pixel data of that file is read again.
pub open spec fn stored_mask(mask: Seq<u8>, width: u32, height: u32) -> Option<Seq<u8>> {
    match bmp_encoding(mask, width, height, mask_palette()) {
        Some(file) => mask_data(file, mask.len()),
        None => None,
    }
}

/// All four planes of a picture survive being encoded and read again.
pub open spec fn masks_round_trip(pixels: Seq<Rgb>, colours: Seq<Rgb>, width: u32, height: u32)
    -> bool {
    forall|k: int|
        0 <= k < 4 ==> stored_mask(#[trigger] mask_of(pixels, colours, k), width, height) is Some
}

/// The four planes of a picture in the order in which a bitmap file stores
/// them: bottom row first.
pub open spec fn stored_planes(pixels: Seq<Rgb>, colours: Seq<Rgb>, width: int, height: int) -> Seq<
    Seq<u8>,
> {
    Seq::new(4, |k: int| flip_rows(mask_of(pixels, colours, k), width, height))
}

/// The picture that an indexed bitmap shows when its colour table repeats
/// `palette`: the stored rows put back in top-down order, and every index
/// taken modulo four.
pub open spec fn shown_picture(data: Seq<u8>, palette: Seq<Rgb>, width: int, height: int) -> Seq<
    Rgb,
> {
    Seq::new(data.len(), |i: int| palette[(flip_rows(data, width, height)[i] % 4) as int])
}

/// Encodes each of the four planes as a bitmap file.
pub fn encode_masks(masks: &[Vec<u8>; 4], width: u32, height: u32) -> (result: Result<
    [Vec<u8>; 4],
    PipelineError,
>)
    requires
        forall|k: int| 0 <= k < 4 ==> (#[trigger] masks@[k])@.len() == width * height,
        width % 4 == 0,
    ensures
        match result {
            Ok(files) => forall|k: int|
                0 <= k < 4 ==> {
                    &&& bmp_encoding(masks@[k]@, width, height, mask_palette()) == Some(
                        (#[trigger] files@[k])@,
                    )
                    &&& is_bottom_up_bitmap(files@[k]@, masks@[k]@, width, height, 2)
                },
            Err(e) => {
                &&& e matches PipelineError::ContainerFormat { .. }
                &&& exists|k: int|
                    0 <= k < 4 && bmp_encoding(
                        (#[trigger] masks@[k])@,
                        width,
                        height,
                        mask_palette(),
                    ) is None
            },
        },
{
    let mut files: [Vec<u8>; 4] = [Vec::new(), Vec::new(), Vec::new(), Vec::new()];
    let mut k: usize = 0;
    while k < 4
        invariant
            k <= 4,
            width % 4 == 0,
            forall|j: int| 0 <= j < 4 ==> (#[trigger] masks@[j])@.len() == width * height,
            forall|j: int|
                0 <= j < k ==> {
                    &&& bmp_encoding(masks@[j]@, width, height, mask_palette()) == Some(
                        (#[trigger] files@[j])@,
                    )
                    &&& is_bottom_up_bitmap(files@[j]@, masks@[j]@, width, height, 2)
                },
        decreases 4 - k,
    {
        match encode_mask(masks[k].as_slice(), width, height) {
            Ok(file) => {
                files[k] = file;
            },
            Err(e) => {
                assert(bmp_encoding(masks@[k as int]@, width, height, mask_palette()) is None);
                return Err(e);
            },
        }
        k += 1;
    }
    Ok(files)
}

/// The pixel data of a mask file whose header was read as `layout`: the
/// region the header describes.
///
/// Fails with `ContainerFormat` unless that region holds exactly `size` bytes
/// and ends where the file ends, so that a mask is never read from anywhere
/// but the place where a file of that size keeps its pixels.
pub fn mask_region(file: &[u8], layout: BitmapLayout, size: usize) -> (result: Result<
    Vec<u8>,
    PipelineError,
>)
    ensures
        result is Ok <==> layout_fits(file@.len(), layout, size as nat),
        result matches Ok(mask) ==> mask@ == file@.subrange(
            layout.image_data_start as int,
            layout.image_data_start + layout.image_data_len,
        ),
        result matches Err(e) ==> e matches PipelineError::ContainerFormat { .. },
{
    let mask = region_of(file, layout)?;
    if mask.len() != size || file.len() - layout.image_data_start != size {
        return Err(
            PipelineError::ContainerFormat {
                detail: "mask file does not hold one byte per pixel".to_string(),
            },
        );
    }
    Ok(mask)
}

/// Reads the pixel data of a mask file that should hold `size` pixels.
pub fn read_mask(file: &[u8], size: usize) -> (result: Result<Vec<u8>, PipelineError>)
    ensures
        match mask_data(file@, size as nat) {
            Some(data) => result matches Ok(mask) && mask@ == data,
            None => result matches Err(PipelineError::ContainerFormat { .. }),
        },
{
    let layout = read_layout(file)?;
    mask_region(file, layout, size)
}

/// Reads the pixel data of each of the four mask files.
pub fn read_masks(files: &[Vec<u8>; 4], size: usize) -> (result: Result<
    [Vec<u8>; 4],
    PipelineError,
>)
    ensures
        match result {
            Ok(masks) => forall|k: int|
                0 <= k < 4 ==> mask_data(files@[k]@, size as nat) == Some((#[trigger] masks@[k])@),
            Err(e) => {
                &&& e matches PipelineError::ContainerFormat { .. }
                &&& exists|k: int|
                    0 <= k < 4 && mask_data((#[trigger] files@[k])@, size as nat) is None
            },
        },
{
    let mut masks: [Vec<u8>; 4] = [Vec::new(), Vec::new(), Vec::new(), Vec::new()];
    let mut k: usize = 0;
    while k < 4
        invariant
            k <= 4,
            forall|j: int|
                0 <= j < k ==> mask_data(files@[j]@, size as nat) == Some((#[trigger] masks@[j])@),
        decreases 4 - k,
    {
        match read_mask(files[k].as_slice(), size) {
            Ok(mask) => {
                masks[k] = mask;
            },
            Err(e) => {
                assert(mask_data(files@[k as int]@, size as nat) is None);
                return Err(e);
            },
        }
        k += 1;
    }
    Ok(masks)
}

/// What the first stage hands to the second, and to whoever writes the mask
/// files.
#[derive(Debug, Clone, PartialEq, Eq)]
pub struct MaskStage {
    /// The picture's four colours; the position of a colour is its mask number.
    pub palette: Vec<Rgb>,
    pub width: u32,
    pub height: u32,
    /// The four planes as two-colour bitmap files, in palette order.
    pub mask_files: [Vec<u8>; 4],
    /// The four planes in the order in which those files store them.
    pub masks: [Vec<u8>; 4],
}

impl MaskStage {
    /// Four colours, an aligned width, and one byte per pixel in every plane.
    pub open spec fn wf(&self) -> bool {
        &&& self.palette@.len() == 4
        &&& self.width % 4 == 0
        &&& forall|k: int|
            0 <= k < 4 ==> (#[trigger] self.masks@[k])@.len() == self.width * self.height
    }

    /// The stage is the one that belongs to `image`.
    pub open spec fn describes(&self, image: &Picture) -> bool {
        &&& self.wf()
        &&& self.width == image.width
        &&& self.height == image.height
        &&& self.palette@ == distinct_colours(image.pixels@)
        &&& forall|k: int|
            0 <= k < 4 ==> bmp_encoding(
                mask_of(image.pixels@, self.palette@, k),
                self.width,
                self.height,
                mask_palette(),
            ) == Some((#[trigger] self.mask_files@[k])@)
        &&& planes_of(&self.masks) == stored_planes(
            image.pixels@,
            self.palette@,
            self.width as int,
            self.height as int,
        )
    }
}

/// Stored bottom row first, the planes of a picture still partition its
/// pixels, and the plane that is set at a stored position is the one of the
/// colour of the pixel stored there.
pub proof fn lemma_stored_planes(pixels: Seq<Rgb>, colours: Seq<Rgb>, width: int, height: int)
    requires
        0 <= width,
        0 <= height,
        pixels.len() == width * height,
        colours.len() == 4,
        forall|i: int| 0 <= i < pixels.len() ==> colours.contains(#[trigger] pixels[i]),
    ensures
        is_partition(stored_planes(pixels, colours, width, height), pixels.len()),
        forall|p: int|
            0 <= p < pixels.len() ==> {
                &&& (#[trigger] active_mask(
                    stored_planes(pixels, colours, width, height),
                    p,
                )) is Some
                &&& is_first_match(
                    colours,
                    pixels[flipped_index(width, height, p)],
                    active_mask(stored_planes(pixels, colours, width, height), p).unwrap() as int,
                )
            },
{
    let planes = stored_planes(pixels, colours, width, height);
    assert forall|p: int| 0 <= p < pixels.len() implies {
        &&& one_plane_active(planes, p)
        &&& (#[trigger] active_mask(planes, p)) is Some
        &&& is_first_match(
            colours,
            pixels[flipped_index(width, height, p)],
            active_mask(planes, p).unwrap() as int,
        )
    } by {
        lemma_flipped_index(width, height, p);
        let i = flipped_index(width, height, p);
        let colour = pixels[i];
        assert(colours.contains(colour));
        lemma_first_match(colours, colour);
        let m = first_match(colours, colour);
        assert forall|j: int| 0 <= j < 4 implies #[trigger] planes[j][p] == (if j == m {
            1u8
        } else {
            0u8
        }) by {
            assert(planes[j][p] == mask_of(pixels, colours, j)[i]);
            if j != m && is_first_match(colours, colour, j) {
                assert(false);
            }
        }
        assert(planes[m][p] != 0);
    }
    assert forall|i: int| 0 <= i < pixels.len() implies one_plane_active(planes, i) by {
        assert(active_mask(planes, i) is Some);
    }
    assert forall|k: int| 0 <= k < 4 implies (#[trigger] planes[k]).len() == pixels.len() by {}
}

/// Painting the stored planes of a picture into any audio gives pixel data
/// that shows the picture, and that keeps the high six bits of every audio
/// byte.
pub proof fn lemma_painting_shows_picture(
    pixels: Seq<Rgb>,
    colours: Seq<Rgb>,
    width: int,
    height: int,
    audio: Seq<u8>,
)
    requires
        0 <= width,
        0 <= height,
        pixels.len() == width * height,
        audio.len() == pixels.len(),
        colours.len() == 4,
        forall|i: int| 0 <= i < pixels.len() ==> colours.contains(#[trigger] pixels[i]),
    ensures
        shown_picture(
            painted(audio, stored_planes(pixels, colours, width, height)),
            colours,
            width,
            height,
        ) == pixels,
        forall|p: int|
            0 <= p < audio.len() ==> #[trigger] painted(
                audio,
                stored_planes(pixels, colours, width, height),
            )[p] & 0xFC == audio[p] & 0xFC,
{
    let planes = stored_planes(pixels, colours, width, height);
    let data = painted(audio, planes);
    lemma_stored_planes(pixels, colours, width, height);
    assert forall|p: int| 0 <= p < audio.len() implies #[trigger] data[p] & 0xFC == audio[p]
        & 0xFC by {
        let m = active_mask(planes, p).unwrap();
        lemma_painted_byte(audio[p], m);
    }
    let shown = shown_picture(data, colours, width, height);
    assert forall|i: int| 0 <= i < pixels.len() implies shown[i] == pixels[i] by {
        lemma_flipped_index(width, height, i);
        let p = flipped_index(width, height, i);
        let m = active_mask(planes, p).unwrap();
        lemma_painted_byte(audio[p], m);
        assert(flip_rows(data, width, height)[i] == data[p]);
        assert(data[p] == painted_byte(audio[p], m));
    }
    assert(shown =~= pixels);
}

/// The first stage: palette, width check, mask planes, and their trip
/// through the bitmap encoder and parser.
///
/// Fails with `PaletteSize` unless the picture has exactly four colours, then
/// with `UnalignedWidth` unless its width is a multiple of four. After that
/// only the encoder or the parser can make it fail, with `ContainerFormat`.
pub fn build_masks(image: &Picture) -> (result: Result<MaskStage, PipelineError>)
    requires
        image.wf(),
    ensures
        match result {
            Ok(stage) => {
                &&& distinct_colours(image.pixels@).len() == 4
                &&& image.width % 4 == 0
                &&& masks_round_trip(
                    image.pixels@,
                    distinct_colours(image.pixels@),
                    image.width,
                    image.height,
                )
                &&& stage.describes(image)
                &&& is_partition(planes_of(&stage.masks), image.pixels@.len())
            },
            Err(PipelineError::PaletteSize { found }) => {
                &&& distinct_colours(image.pixels@).len() != 4
                &&& found == distinct_colours(image.pixels@).len()
            },
            Err(PipelineError::UnalignedWidth { excess }) => {
                &&& distinct_colours(image.pixels@).len() == 4
                &&& image.width % 4 != 0
                &&& excess == image.width % 4
            },
            Err(PipelineError::ContainerFormat { .. }) => {
                &&& distinct_colours(image.pixels@).len() == 4
                &&& image.width % 4 == 0
                &&& !masks_round_trip(
                    image.pixels@,
                    distinct_colours(image.pixels@),
                    image.width,
                    image.height,
                )
            },
            Err(_) => false,
        },
        distinct_colours(image.pixels@).len() != 4 ==> result matches Err(
            PipelineError::PaletteSize { .. },
        ),
        distinct_colours(image.pixels@).len() == 4 && image.width % 4 != 0 ==> result matches Err(
            PipelineError::UnalignedWidth { .. },
        ),
        distinct_colours(image.pixels@).len() == 4 && image.width % 4 == 0 ==> (result is Ok
            <==> masks_round_trip(
            image.pixels@,
            distinct_colours(image.pixels@),
            image.width,
            image.height,
        )),
{
    let ghost pixels = image.pixels@;
    let palette = match extract_palette(image) {
        Ok(palette) => palette,
        Err(e) => {
            return Err(e);
        },
    };
    let width = image.width;
    let height = image.height;
    match validate_width(width) {
        Ok(()) => {},
        Err(e) => {
            return Err(e);
        },
    }
    proof {
        lemma_distinct_colours(pixels);
        assert forall|i: int| 0 <= i < pixels.len() implies palette@.contains(
            #[trigger] pixels[i],
        ) by {
            assert(pixels.contains(pixels[i]));
        }
    }
    let masks = match create_masks(palette.as_slice(), image) {
        Ok(masks) => masks,
        Err(e) => {
            return Err(e);
        },
    };
    assert forall|k: int| 0 <= k < 4 implies (#[trigger] masks@[k])@ == mask_of(
        pixels,
        palette@,
        k,
    ) by {
        assert(planes_of(&masks)[k] == masks@[k]@);
    }
    let mask_files = match encode_masks(&masks, width, height) {
        Ok(files) => files,
        Err(e) => {
            proof {
                let k = choose|k: int|
                    0 <= k < 4 && bmp_encoding(
                        (#[trigger] masks@[k])@,
                        width,
                        height,
                        mask_palette(),
                    ) is None;
                assert(stored_mask(mask_of(pixels, palette@, k), width, height) is None);
            }
            return Err(e);
        },
    };
    // the data is read back from the files so that it is in the order of the
    // output format.
    let size = image.pixels.len();
    let stored = match read_masks(&mask_files, size) {
        Ok(stored) => stored,
        Err(e) => {
            proof {
                let k = choose|k: int|
                    0 <= k < 4 && mask_data((#[trigger] mask_files@[k])@, size as nat) is None;
                assert(stored_mask(mask_of(pixels, palette@, k), width, height) is None);
            }
            return Err(e);
        },
    };
    proof {
        assert forall|k: int| 0 <= k < 4 implies (#[trigger] stored@[k])@ == flip_rows(
            mask_of(pixels, palette@, k),
            width as int,
            height as int,
        ) && stored_mask(mask_of(pixels, palette@, k), width, height) is Some by {
            let file = mask_files@[k]@;
            assert(is_bottom_up_bitmap(file, masks@[k]@, width, height, 2));
            assert(mask_data(file, size as nat) == Some(stored@[k]@));
        }
        assert(planes_of(&stored) =~= stored_planes(
            pixels,
            palette@,
            width as int,
            height as int,
        ));
        lemma_stored_planes(pixels, palette@, width as int, height as int);
    }
    Ok(MaskStage { palette, width, height, mask_files, masks: stored })
}

/// Some plane is active at every one of the first `n` positions.
pub open spec fn is_covered(planes: Seq<Seq<u8>>, n: nat) -> bool {
    forall|i: int| 0 <= i < n ==> active_mask(planes, i) is Some
}

/// The second stage: loads the audio, paints the mask numbers into it, and
/// builds the finished bitmap file around the result.
///
/// Fails with `PayloadTooLarge` where the audio has more bytes than the
/// picture has pixels, then with `MaskCoverage` at the first position that no
/// mask claims. After that only the encoder or the parser can make it fail,
/// with `ContainerFormat`.
pub fn embed_audio(stage: &MaskStage, audio: &[u8]) -> (result: Result<Vec<u8>, PipelineError>)
    requires
        stage.wf(),
    ensures
        ({
            let n = (stage.width * stage.height) as nat;
            let planes = planes_of(&stage.masks);
            let data = painted(padded(audio@, n), planes);
            let file = painted_bitmap(data, stage.palette@, stage.width, stage.height);
            match result {
                Ok(bytes) => {
                    &&& audio@.len() <= n
                    &&& is_covered(planes, n)
                    &&& file == Some(bytes@)
                    &&& bytes@.len() == pixel_data_start(256) + n
                    &&& bytes@.subrange(pixel_data_start(256) as int, bytes@.len() as int) == data
                },
                Err(PipelineError::PayloadTooLarge { actual, capacity }) => {
                    &&& actual == audio@.len()
                    &&& capacity == n
                    &&& actual > capacity
                },
                Err(PipelineError::MaskCoverage { index }) => {
                    &&& audio@.len() <= n
                    &&& 0 <= index < n
                    &&& active_mask(planes, index as int) is None
                    &&& is_covered(planes, index as nat)
                },
                Err(PipelineError::ContainerFormat { .. }) => {
                    &&& audio@.len() <= n
                    &&& is_covered(planes, n)
                    &&& file is None
                },
                Err(_) => false,
            }
        }),
        audio@.len() > stage.width * stage.height ==> result matches Err(
            PipelineError::PayloadTooLarge { .. },
        ),
        audio@.len() <= stage.width * stage.height && is_partition(
            planes_of(&stage.masks),
            (stage.width * stage.height) as nat,
        ) ==> !(result matches Err(PipelineError::MaskCoverage { .. })),
        result matches Ok(bytes) ==> forall|p: int|
            0 <= p < stage.width * stage.height ==> #[trigger] bytes@[pixel_data_start(256) + p]
                & 0xFC == padded(audio@, (stage.width * stage.height) as nat)[p] & 0xFC,
{
    // filling the buffer this way ensures that there is a byte for every pixel.
    let capacity = stage.masks[0].len();
    proof {
        assert(capacity == stage.masks@[0]@.len());
        if is_partition(planes_of(&stage.masks), capacity as nat) {
            lemma_partition_is_covered(planes_of(&stage.masks), capacity as nat);
        }
    }
    let audio_bytes = match load_audio(audio, capacity) {
        Ok(buf) => buf,
        Err(e) => {
            return Err(e);
        },
    };
    let painted_audio_bytes = match paint_audio_bytes(audio_bytes.as_slice(), &stage.masks) {
        Ok(bytes) => bytes,
        Err(e) => {
            return Err(e);
        },
    };
    let finished = encode_painted_bitmap(
        painted_audio_bytes.as_slice(),
        stage.palette.as_slice(),
        stage.width,
        stage.height,
    );
    proof {
        if finished is Ok {
            let bytes = finished->Ok_0;
            assert forall|p: int| 0 <= p < capacity implies #[trigger] bytes@[pixel_data_start(256)
                + p] & 0xFC == audio_bytes@[p] & 0xFC by {
                assert(bytes@.subrange(pixel_data_start(256) as int, bytes@.len() as int)[p]
                    == painted_audio_bytes@[p]);
            }
        }
    }
    finished
}

/// Everything one run produces.
#[derive(Debug, Clone, PartialEq, Eq)]
pub struct Encoded {
    /// The picture's four colours; the position of a colour is its mask number.
    pub palette: Vec<Rgb>,
    /// The four planes as two-colour bitmap files, in palette order.
    pub mask_files: [Vec<u8>; 4],
    /// The finished 256-colour bitmap file.
    pub final_file: Vec<u8>,
}

impl Encoded {
    /// The pixel data of the finished file.
    pub open spec fn spec_pixel_data(&self) -> Seq<u8> {
        self.final_file@.subrange(pixel_data_start(256) as int, self.final_file@.len() as int)
    }
}

/// The pixel data of the finished file for a picture and its audio.
pub open spec fn painted_picture(pixels: Seq<Rgb>, width: u32, height: u32, audio: Seq<u8>) -> Seq<
    u8,
> {
    painted(
        padded(audio, pixels.len()),
        stored_planes(pixels, distinct_colours(pixels), width as int, height as int),
    )
}

/// Runs the whole pipeline on a decoded picture and the bytes of an audio file.
///
/// On success the finished file shows the picture and carries the audio: its
/// pixel indices, modulo four and looked up in the palette, are the picture's
/// pixels, and the high six bits of each index are those of the audio byte at
/// the same position (zero beyond the end of the audio).
///
/// Errors come in this order: `PaletteSize`, `UnalignedWidth`,
/// `ContainerFormat` from the masks, `PayloadTooLarge`, `ContainerFormat` from
/// the finished file. `OffPaletteColour` and `MaskCoverage` cannot occur.
pub fn encode(image: &Picture, audio: &[u8]) -> (result: Result<Encoded, PipelineError>)
    requires
        image.wf(),
    ensures
        ({
            let pixels = image.pixels@;
            let palette = distinct_colours(pixels);
            let data = painted_picture(pixels, image.width, image.height, audio@);
            let file = painted_bitmap(data, palette, image.width, image.height);
            let masks_ok = palette.len() == 4 && image.width % 4 == 0 && masks_round_trip(
                pixels,
                palette,
                image.width,
                image.height,
            );
            match result {
                Ok(out) => {
                    &&& masks_ok
                    &&& audio@.len() <= pixels.len()
                    &&& out.palette@ == palette
                    &&& forall|k: int|
                        0 <= k < 4 ==> bmp_encoding(
                            mask_of(pixels, palette, k),
                            image.width,
                            image.height,
                            mask_palette(),
                        ) == Some((#[trigger] out.mask_files@[k])@)
                    &&& file == Some(out.final_file@)
                    &&& out.final_file@.len() == pixel_data_start(256) + pixels.len()
                    &&& out.spec_pixel_data() == data
                    &&& shown_picture(
                        out.spec_pixel_data(),
                        palette,
                        image.width as int,
                        image.height as int,
                    ) == pixels
                    &&& forall|p: int|
                        0 <= p < pixels.len() ==> #[trigger] out.spec_pixel_data()[p] & 0xFC
                            == padded(audio@, pixels.len())[p] & 0xFC
                },
                Err(PipelineError::PaletteSize { found }) => {
                    &&& palette.len() != 4
                    &&& found == palette.len()
                },
                Err(PipelineError::UnalignedWidth { excess }) => {
                    &&& palette.len() == 4
                    &&& image.width % 4 != 0
                    &&& excess == image.width % 4
                },
                Err(PipelineError::PayloadTooLarge { actual, capacity }) => {
                    &&& masks_ok
                    &&& actual == audio@.len()
                    &&& capacity == pixels.len()
                    &&& actual > capacity
                },
                Err(PipelineError::ContainerFormat { .. }) => {
                    &&& palette.len() == 4
                    &&& image.width % 4 == 0
                    &&& !masks_round_trip(pixels, palette, image.width, image.height) || (
                    audio@.len() <= pixels.len() && file is None)
                },
                Err(_) => false,
            }
        }),
        distinct_colours(image.pixels@).len() != 4 ==> result matches Err(
            PipelineError::PaletteSize { .. },
        ),
        distinct_colours(image.pixels@).len() == 4 && image.width % 4 != 0 ==> result matches Err(
            PipelineError::UnalignedWidth { .. },
        ),
        distinct_colours(image.pixels@).len() == 4 && image.width % 4 == 0 && masks_round_trip(
            image.pixels@,
            distinct_colours(image.pixels@),
            image.width,
            image.height,
        ) ==> if audio@.len() > image.pixels@.len() {
            result matches Err(PipelineError::PayloadTooLarge { .. })
        } else {
            result is Ok <==> painted_bitmap(
                painted_picture(image.pixels@, image.width, image.height, audio@),
                distinct_colours(image.pixels@),
                image.width,
                image.height,
            ) is Some
        },
{
    let stage = match build_masks(image) {
        Ok(stage) => stage,
        Err(e) => {
            return Err(e);
        },
    };
    proof {
        let pixels = image.pixels@;
        let palette = distinct_colours(pixels);
        lemma_distinct_colours(pixels);
        assert forall|i: int| 0 <= i < pixels.len() implies palette.contains(
            #[trigger] pixels[i],
        ) by {
            assert(pixels.contains(pixels[i]));
        }
        lemma_stored_planes(pixels, palette, image.width as int, image.height as int);
        lemma_painting_shows_picture(
            pixels,
            palette,
            image.width as int,
            image.height as int,
            padded(audio@, pixels.len()),
        );
    }
    let final_file = match embed_audio(&stage, audio) {
        Ok(bytes) => bytes,
        Err(e) => {
            return Err(e);
        },
    };
    Ok(Encoded { palette: stage.palette, mask_files: stage.mask_files, final_file })
}

} // verus!
