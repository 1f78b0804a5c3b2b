//! The bitmap container: encoding indexed pixels, finding the pixel data in
//! an encoded file, and overwriting it.
//!
//! Encoding and parsing are done by the `image` and `tinybmp` crates. What
//! this module assumes of them is stated on the items marked
//! `external_body` below; everything else is proved from that.

use vstd::prelude::*;
use vstd::arithmetic::div_mod::{lemma_fundamental_div_mod, lemma_fundamental_div_mod_converse};
use vstd::slice::slice_to_vec;
use crate::colour::{tile_palette, tiled, Rgb};
use crate::error::PipelineError;

verus! {

/// Where a bitmap file keeps its pixel data, as its header states it.
#[derive(Debug, Clone, Copy, PartialEq, Eq, Structural)]
pub struct BitmapLayout {
    /// Offset from the start of the file at which the pixel data begins.
    pub image_data_start: usize,
    /// Length of the pixel data in bytes.
    pub image_data_len: u32,
}

/// The error type of the `image` crate.
#[verifier::external_type_specification]
#[verifier::external_body]
pub struct ExImageError(image::ImageError);

/// The error type of the `tinybmp` crate.
#[verifier::external_type_specification]
#[verifier::external_body]
pub struct ExParseError(tinybmp::ParseError);

/// The file that `image`'s BMP encoder writes for 8-bit indexed `pixels` of
/// the given size with the colour table `palette`, or `None` where the
/// encoder refuses.
pub uninterp spec fn bmp_encoding(
    pixels: Seq<u8>,
    width: u32,
    height: u32,
    palette: Seq<Rgb>,
) -> Option<Seq<u8>>;

/// The pixel-data offset and length that `tinybmp` reads from the header of
/// `bytes`, or `None` where it does not accept `bytes` as a bitmap.
pub uninterp spec fn bmp_layout(bytes: Seq<u8>) -> Option<(nat, nat)>;

/// Offset of the pixel data in a bitmap with a colour table of `colours`
/// entries: a 14-byte file header, a 40-byte info header, and four bytes per
/// table entry.
pub open spec fn pixel_data_start(colours: nat) -> nat {
    54 + 4 * colours
}

/// For a position in a bitmap's pixel data, the row-major index of the pixel
/// that is stored there (and the other way round): rows are stored bottom row
/// first, each row left to right.
pub open spec fn flipped_index(width: int, height: int, i: int) -> int {
    (height - 1 - i / width) * width + i % width
}

/// `pixels` with the order of its rows reversed.
pub open spec fn flip_rows(pixels: Seq<u8>, width: int, height: int) -> Seq<u8> {
    Seq::new(pixels.len(), |i: int| pixels[flipped_index(width, height, i)])
}

/// Reversing the order of the rows maps the grid onto itself, and doing it
/// twice changes nothing.
pub proof fn lemma_flipped_index(width: int, height: int, i: int)
    requires
        0 <= width,
        0 <= height,
        0 <= i < width * height,
    ensures
        0 <= flipped_index(width, height, i) < width * height,
        flipped_index(width, height, flipped_index(width, height, i)) == i,
{
    assert(width > 0) by (nonlinear_arith)
        requires
            0 <= width,
            0 <= i < width * height,
    ;
    let q = i / width;
    let r = i % width;
    lemma_fundamental_div_mod(i, width);
    assert(0 <= q < height) by (nonlinear_arith)
        requires
            i == width * q + r,
            0 <= r < width,
            0 <= i < width * height,
    ;
    let f = flipped_index(width, height, i);
    assert(0 <= f < width * height) by (nonlinear_arith)
        requires
            f == (height - 1 - q) * width + r,
            0 <= q < height,
            0 <= r < width,
    ;
    lemma_fundamental_div_mod_converse(f, width, height - 1 - q, r);
    assert(flipped_index(width, height, f) == q * width + r);
    assert(q * width == width * q) by (nonlinear_arith);
}

/// The shape of an encoded file when rows need no padding: headers and
/// colour table, then the pixels bottom row first.
pub open spec fn is_bottom_up_bitmap(
    file: Seq<u8>,
    pixels: Seq<u8>,
    width: u32,
    height: u32,
    colours: nat,
) -> bool {
    &&& file.len() == pixel_data_start(colours) + pixels.len()
    &&& file.subrange(pixel_data_start(colours) as int, file.len() as int) == flip_rows(
        pixels,
        width as int,
        height as int,
    )
}

/// Calls `image::codecs::bmp::BmpEncoder::encode_with_palette` on an
/// in-memory writer, with colour type `L8`.
///
/// Assumed of the encoder: its output depends on the arguments alone, and
/// when it succeeds on a width that is a multiple of four it has written 54
/// bytes of headers, four bytes per palette entry, and then one byte per
/// pixel, bottom row first and without padding.
#[verifier::external_body]
fn encode_with_palette(pixels: &[u8], width: u32, height: u32, palette: &[Rgb]) -> (result: Result<
    Vec<u8>,
    image::ImageError,
>)
    requires
        pixels@.len() == width * height,
        width % 4 == 0,
        palette@.len() <= 256,
    ensures
        match result {
            Ok(file) => {
                &&& bmp_encoding(pixels@, width, height, palette@) == Some(file@)
                &&& is_bottom_up_bitmap(file@, pixels@, width, height, palette@.len())
            },
            Err(_) => bmp_encoding(pixels@, width, height, palette@) is None,
        },
{
    let table: Vec<[u8; 3]> = palette.iter().map(|c| [c.r, c.g, c.b]).collect();
    let mut file: Vec<u8> = Vec::new();
    let mut encoder = image::codecs::bmp::BmpEncoder::new(&mut file);
    match encoder.encode_with_palette(pixels, width, height, image::ColorType::L8, Some(&table)) {
        Ok(()) => Ok(file),
        Err(e) => Err(e),
    }
}

/// Calls `tinybmp::RawBmp::from_slice` and reads `image_data_start` and
/// `image_data_len` from the header it returns.
///
/// Assumed of the parser: its result depends on the bytes alone, and it
/// accepts no file that ends before the offset its header gives. The parser
/// multiplies header fields as `usize`, which cannot overflow where `usize`
/// has 64 bits; other targets are left out.
#[verifier::external_body]
fn parse_layout(bytes: &[u8]) -> (result: Result<BitmapLayout, tinybmp::ParseError>)
    requires
        usize::BITS == 64,
    ensures
        match result {
            Ok(layout) => {
                &&& bmp_layout(bytes@) == Some(
                    (layout.image_data_start as nat, layout.image_data_len as nat),
                )
                &&& layout.image_data_start <= bytes@.len()
            },
            Err(_) => bmp_layout(bytes@) is None,
        },
{
    match tinybmp::RawBmp::from_slice(bytes) {
        Ok(bitmap) => Ok(
            BitmapLayout {
                image_data_start: bitmap.header().image_data_start,
                image_data_len: bitmap.header().image_data_len,
            },
        ),
        Err(e) => Err(e),
    }
}

/// The encoder's own description of why it failed (`Display` of
/// `image::ImageError`).
#[verifier::external_body]
fn describe_encode_error(error: &image::ImageError) -> String {
    format!("{error}")
}

/// The parser's own description of why it failed (`Debug` of
/// `tinybmp::ParseError`).
#[verifier::external_body]
fn describe_parse_error(error: &tinybmp::ParseError) -> String {
    format!("{error:?}")
}

/// The colour table of a mask file: index 0 is black, index 1 is white.
pub open spec fn mask_palette() -> Seq<Rgb> {
    seq![Rgb { r: 0, g: 0, b: 0 }, Rgb { r: 255, g: 255, b: 255 }]
}

/// Encodes indexed pixels as a bitmap file.
///
/// Returns the encoder's file where it produces one, and `ContainerFormat`
/// where it refuses. A file that is returned has the pixels in its last
/// `width * height` bytes, bottom row first.
pub fn encode_indexed(pixels: &[u8], width: u32, height: u32, palette: &[Rgb]) -> (result: Result<
    Vec<u8>,
    PipelineError,
>)
    requires
        pixels@.len() == width * height,
        width % 4 == 0,
        palette@.len() <= 256,
    ensures
        match bmp_encoding(pixels@, width, height, palette@) {
            Some(file) => result matches Ok(bytes) && bytes@ == file,
            None => result matches Err(PipelineError::ContainerFormat { .. }),
        },
        result matches Ok(bytes) ==> is_bottom_up_bitmap(
            bytes@,
            pixels@,
            width,
            height,
            palette@.len(),
        ),
{
    match encode_with_palette(pixels, width, height, palette) {
        Ok(bytes) => Ok(bytes),
        Err(e) => Err(PipelineError::ContainerFormat { detail: describe_encode_error(&e) }),
    }
}

/// Encodes one mask plane as a two-colour bitmap file (0 black, 1 white).
pub fn encode_mask(mask: &[u8], width: u32, height: u32) -> (result: Result<Vec<u8>, PipelineError>)
    requires
        mask@.len() == width * height,
        width % 4 == 0,
    ensures
        match bmp_encoding(mask@, width, height, mask_palette()) {
            Some(file) => result matches Ok(bytes) && bytes@ == file,
            None => result matches Err(PipelineError::ContainerFormat { .. }),
        },
        result matches Ok(bytes) ==> is_bottom_up_bitmap(bytes@, mask@, width, height, 2),
{
    let mut palette: Vec<Rgb> = Vec::with_capacity(2);
    palette.push(Rgb { r: 0, g: 0, b: 0 });
    palette.push(Rgb { r: 255, g: 255, b: 255 });
    assert(palette@ == mask_palette());
    encode_indexed(mask, width, height, palette.as_slice())
}

/// The all-zero pixel data of a placeholder bitmap.
pub open spec fn blank(size: nat) -> Seq<u8> {
    Seq::new(size, |i: int| 0u8)
}

/// Encodes an all-zero picture of `size` pixels with the given colour table:
/// a file with valid headers whose pixel data is still to be filled in.
pub fn encode_empty_bitmap(size: usize, width: u32, height: u32, palette: &[Rgb]) -> (result:
    Result<Vec<u8>, PipelineError>)
    requires
        size == width * height,
        width % 4 == 0,
        palette@.len() <= 256,
    ensures
        match bmp_encoding(blank(size as nat), width, height, palette@) {
            Some(file) => result matches Ok(bytes) && bytes@ == file,
            None => result matches Err(PipelineError::ContainerFormat { .. }),
        },
        result matches Ok(bytes) ==> is_bottom_up_bitmap(
            bytes@,
            blank(size as nat),
            width,
            height,
            palette@.len(),
        ),
{
    let zeros: Vec<u8> = vec![0u8; size];
    assert(zeros@ == blank(size as nat));
    encode_indexed(zeros.as_slice(), width, height, palette)
}

/// What the parser makes of `bytes` on the target at hand. The parser is only
/// called where `usize` has 64 bits, so elsewhere nothing parses.
pub open spec fn parsed_layout(bytes: Seq<u8>) -> Option<(nat, nat)> {
    if usize::BITS == 64 {
        bmp_layout(bytes)
    } else {
        None
    }
}

/// Reads from a bitmap's header where its pixel data begins and how long it
/// is.
///
/// Fails with `ContainerFormat` where the parser refuses the bytes, and on
/// every target whose `usize` does not have 64 bits: the parser's size
/// arithmetic is free of overflow only there, so it is not called elsewhere.
pub fn read_layout(bytes: &[u8]) -> (result: Result<BitmapLayout, PipelineError>)
    ensures
        match parsed_layout(bytes@) {
            Some((start, len)) => {
                &&& result matches Ok(layout)
                &&& layout.image_data_start == start
                &&& layout.image_data_len == len
                &&& start <= bytes@.len()
            },
            None => result matches Err(PipelineError::ContainerFormat { .. }),
        },
{
    if usize::BITS != 64 {
        return Err(
            PipelineError::ContainerFormat {
                detail: "bitmaps are parsed on 64-bit targets only".to_string(),
            },
        );
    }
    match parse_layout(bytes) {
        Ok(layout) => Ok(layout),
        Err(e) => Err(PipelineError::ContainerFormat { detail: describe_parse_error(&e) }),
    }
}

/// The `len` bytes of `bytes` that begin at `start`.
pub fn pixel_region(bytes: &[u8], start: usize, len: usize) -> (data: Vec<u8>)
    requires
        start + len <= bytes@.len(),
    ensures
        data@ == bytes@.subrange(start as int, start + len),
{
    assert(bytes@.len() == bytes.len());
    slice_to_vec(&bytes[start..start + len])
}

/// The pixel-data region that `layout` describes: `image_data_len` bytes from
/// `image_data_start`. Fails with `ContainerFormat` where `bytes` ends before
/// the region does.
pub fn region_of(bytes: &[u8], layout: BitmapLayout) -> (result: Result<Vec<u8>, PipelineError>)
    ensures
        result is Ok <==> layout.image_data_start + layout.image_data_len <= bytes@.len(),
        result matches Ok(data) ==> data@ == bytes@.subrange(
            layout.image_data_start as int,
            layout.image_data_start + layout.image_data_len,
        ),
        result matches Err(e) ==> e matches PipelineError::ContainerFormat { .. },
{
    let start = layout.image_data_start;
    let len = layout.image_data_len as usize;
    if start > bytes.len() || bytes.len() - start < len {
        return Err(
            PipelineError::ContainerFormat {
                detail: "file ends before its pixel data does".to_string(),
            },
        );
    }
    Ok(pixel_region(bytes, start, len))
}

/// Extracts the pixel indices of a bitmap file in the order in which the file
/// stores them: the region that the header describes, and nothing that comes
/// before or after it.
pub fn read_bitmap_indices(bytes: &[u8]) -> (result: Result<Vec<u8>, PipelineError>)
    ensures
        match parsed_layout(bytes@) {
            Some((start, len)) => if start + len <= bytes@.len() {
                result matches Ok(data) && data@ == bytes@.subrange(
                    start as int,
                    (start + len) as int,
                )
            } else {
                result matches Err(PipelineError::ContainerFormat { .. })
            },
            None => result matches Err(PipelineError::ContainerFormat { .. }),
        },
{
    let layout = read_layout(bytes)?;
    region_of(bytes, layout)
}

/// The header's layout agrees with the file and with the data to be written:
/// the data has the length the header states, and fills the file from the
/// header's offset to the end.
pub open spec fn layout_fits(file_len: nat, layout: BitmapLayout, data_len: nat) -> bool {
    &&& layout.image_data_len == data_len
    &&& layout.image_data_start <= file_len
    &&& file_len - layout.image_data_start == data_len
}

/// Overwrites the pixel data of a bitmap file, leaving everything before it
/// untouched.
///
/// Fails with `ContainerFormat`, and writes nothing, unless `painted` has
/// exactly the length that the header states and that the file has room for.
pub fn patch_pixel_data(bitmap_bytes: Vec<u8>, layout: BitmapLayout, painted: &[u8]) -> (result:
    Result<Vec<u8>, PipelineError>)
    ensures
        result is Ok <==> layout_fits(bitmap_bytes@.len(), layout, painted@.len()),
        result matches Ok(patched) ==> patched@ == bitmap_bytes@.subrange(
            0,
            layout.image_data_start as int,
        ) + painted@,
        result matches Err(e) ==> e matches PipelineError::ContainerFormat { .. },
{
    let index_offset = layout.image_data_start;
    if painted.len() as u64 != layout.image_data_len as u64 {
        return Err(
            PipelineError::ContainerFormat {
                detail: "pixel data length differs from the length in the header".to_string(),
            },
        );
    }
    if index_offset > bitmap_bytes.len() || bitmap_bytes.len() - index_offset != painted.len() {
        return Err(
            PipelineError::ContainerFormat {
                detail: "pixel data does not fill the file from the header's offset".to_string(),
            },
        );
    }
    let mut patched = bitmap_bytes;
    patched.truncate(index_offset);
    patched.extend_from_slice(painted);
    assert(patched@ =~= bitmap_bytes@.subrange(0, index_offset as int) + painted@);
    Ok(patched)
}

/// The finished bitmap file for `painted`, as far as it depends on what the
/// encoder and the parser make of the placeholder: the placeholder's headers
/// and colour table followed by the painted bytes, where the header's layout
/// fits them; `None` where one of the two refuses or the layout does not fit.
pub open spec fn painted_bitmap(painted: Seq<u8>, palette: Seq<Rgb>, width: u32, height: u32)
    -> Option<Seq<u8>> {
    match bmp_encoding(blank(painted.len()), width, height, tiled(palette)) {
        Some(file) => match parsed_layout(file) {
            Some((start, len)) => if len == painted.len() && start <= file.len() && file.len()
                - start == painted.len() {
                Some(file.subrange(0, start as int) + painted)
            } else {
                None
            },
            None => None,
        },
        None => None,
    }
}

/// Builds the finished bitmap file: a 256-colour indexed bitmap whose colour
/// table repeats `palette` and whose pixel data is `padded_audio_bytes`.
///
/// A placeholder with all-zero pixels is encoded first, so that headers and
/// colour table are the encoder's own; its pixel data is then replaced.
pub fn encode_painted_bitmap(
    padded_audio_bytes: &[u8],
    palette: &[Rgb],
    width: u32,
    height: u32,
) -> (result: Result<Vec<u8>, PipelineError>)
    requires
        padded_audio_bytes@.len() == width * height,
        width % 4 == 0,
        palette@.len() == 4,
    ensures
        match painted_bitmap(padded_audio_bytes@, palette@, width, height) {
            Some(file) => result matches Ok(bytes) && bytes@ == file,
            None => result matches Err(PipelineError::ContainerFormat { .. }),
        },
        result matches Ok(bytes) ==> {
            &&& bytes@.len() == pixel_data_start(256) + padded_audio_bytes@.len()
            &&& bytes@.subrange(pixel_data_start(256) as int, bytes@.len() as int)
                == padded_audio_bytes@
        },
{
    let size = padded_audio_bytes.len();
    let table = tile_palette(palette);
    let bitmap_bytes = encode_empty_bitmap(size, width, height, table.as_slice())?;
    let layout = read_layout(bitmap_bytes.as_slice())?;
    let patched = patch_pixel_data(bitmap_bytes, layout, padded_audio_bytes)?;
    assert(patched@.subrange(pixel_data_start(256) as int, patched@.len() as int)
        =~= padded_audio_bytes@);
    Ok(patched)
}

} // verus!
