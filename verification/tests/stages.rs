use audio_bitmap::audio::load_audio;
use audio_bitmap::colour::{tile_palette, Rgb};
use audio_bitmap::error::PipelineError;
use audio_bitmap::geometry::validate_width;
use audio_bitmap::mask::{create_masks, find_colour, mask_label};
use audio_bitmap::paint::{find_active_mask, paint_audio_bytes};
use audio_bitmap::palette::extract_palette;
use audio_bitmap::picture::Picture;

const A: Rgb = Rgb { r: 32, g: 32, b: 32 };
const B: Rgb = Rgb { r: 220, g: 110, b: 0 };
const C: Rgb = Rgb { r: 0, g: 220, b: 110 };
const D: Rgb = Rgb { r: 110, g: 0, b: 220 };
const E: Rgb = Rgb { r: 1, g: 2, b: 3 };

fn picture(width: u32, height: u32, pixels: Vec<Rgb>) -> Picture {
    match Picture::new(width, height, pixels) {
        Some(p) => p,
        None => panic!("pixel count does not match the size"),
    }
}

#[test]
fn tile_palette_repeats_every_four() {
    let table = tile_palette(&[A, B, C, D]);
    assert_eq!(table.len(), 256);
    for i in 0..256 {
        assert_eq!(table[i], [A, B, C, D][i % 4]);
    }
    assert_eq!(table[0], A);
    assert_eq!(table[5], B);
    assert_eq!(table[254], C);
    assert_eq!(table[255], D);
}

#[test]
fn picture_new_checks_pixel_count() {
    assert!(Picture::new(2, 2, vec![A, B, C, D]).is_some());
    assert!(Picture::new(2, 2, vec![A, B, C]).is_none());
    assert!(Picture::new(2, 3, vec![A, B, C, D]).is_none());
    assert!(Picture::new(0, 7, vec![]).is_some());
    assert!(Picture::new(0, 7, vec![A]).is_none());
}

#[test]
fn picture_pixel_is_row_major() {
    let p = picture(3, 2, vec![A, B, C, D, E, A]);
    assert_eq!(p.pixel(0, 0), A);
    assert_eq!(p.pixel(2, 0), C);
    assert_eq!(p.pixel(0, 1), D);
    assert_eq!(p.pixel(1, 1), E);
    assert_eq!(p.pixel(2, 1), A);
}

#[test]
fn extract_palette_keeps_order_of_first_appearance() {
    let p = picture(4, 2, vec![C, C, A, C, D, A, B, D]);
    assert_eq!(extract_palette(&p), Ok(vec![C, A, D, B]));
}

#[test]
fn extract_palette_rejects_three_colours() {
    let p = picture(4, 1, vec![A, B, C, A]);
    assert_eq!(extract_palette(&p), Err(PipelineError::PaletteSize { found: 3 }));
}

#[test]
fn extract_palette_rejects_five_colours() {
    let p = picture(4, 2, vec![A, B, C, D, E, A, B, C]);
    assert_eq!(extract_palette(&p), Err(PipelineError::PaletteSize { found: 5 }));
}

#[test]
fn extract_palette_rejects_an_empty_picture() {
    let p = picture(0, 0, vec![]);
    assert_eq!(extract_palette(&p), Err(PipelineError::PaletteSize { found: 0 }));
}

#[test]
fn extract_palette_tells_close_colours_apart() {
    let near = Rgb { r: 32, g: 32, b: 33 };
    let swapped = Rgb { r: 0, g: 110, b: 220 };
    let p = picture(4, 1, vec![A, near, B, swapped]);
    assert_eq!(extract_palette(&p), Ok(vec![A, near, B, swapped]));
}

#[test]
fn validate_width_accepts_multiples_of_four() {
    assert_eq!(validate_width(0), Ok(()));
    assert_eq!(validate_width(4), Ok(()));
    assert_eq!(validate_width(640), Ok(()));
    assert_eq!(validate_width(4294967292), Ok(()));
}

#[test]
fn validate_width_reports_the_columns_to_trim() {
    assert_eq!(validate_width(1), Err(PipelineError::UnalignedWidth { excess: 1 }));
    assert_eq!(validate_width(6), Err(PipelineError::UnalignedWidth { excess: 2 }));
    assert_eq!(validate_width(643), Err(PipelineError::UnalignedWidth { excess: 3 }));
    assert_eq!(validate_width(u32::MAX), Err(PipelineError::UnalignedWidth { excess: 3 }));
}

#[test]
fn find_colour_returns_the_first_position() {
    assert_eq!(find_colour(&[A, B, C, D], A), Some(0));
    assert_eq!(find_colour(&[A, B, C, D], D), Some(3));
    assert_eq!(find_colour(&[A, B, B, D], B), Some(1));
    assert_eq!(find_colour(&[A, B, C, D], E), None);
    assert_eq!(find_colour(&[], A), None);
}

#[test]
fn create_masks_marks_each_colour_in_its_plane() {
    let p = picture(4, 2, vec![A, B, C, D, D, D, A, B]);
    let masks = create_masks(&[A, B, C, D], &p).unwrap();
    assert_eq!(masks[0], vec![1, 0, 0, 0, 0, 0, 1, 0]);
    assert_eq!(masks[1], vec![0, 1, 0, 0, 0, 0, 0, 1]);
    assert_eq!(masks[2], vec![0, 0, 1, 0, 0, 0, 0, 0]);
    assert_eq!(masks[3], vec![0, 0, 0, 1, 1, 1, 0, 0]);
}

#[test]
fn create_masks_partitions_the_pixels() {
    let p = picture(4, 3, vec![A, B, C, D, B, B, A, C, D, D, D, A]);
    let masks = create_masks(&[D, C, B, A], &p).unwrap();
    for i in 0..12 {
        let set = (0..4).filter(|&k| masks[k][i] != 0).count();
        assert_eq!(set, 1);
    }
}

#[test]
fn create_masks_uses_the_first_of_two_equal_palette_entries() {
    let p = picture(4, 1, vec![A, B, A, B]);
    let masks = create_masks(&[A, B, A, B], &p).unwrap();
    assert_eq!(masks[0], vec![1, 0, 1, 0]);
    assert_eq!(masks[1], vec![0, 1, 0, 1]);
    assert_eq!(masks[2], vec![0, 0, 0, 0]);
    assert_eq!(masks[3], vec![0, 0, 0, 0]);
}

#[test]
fn create_masks_reports_the_first_off_palette_pixel() {
    let p = picture(4, 2, vec![A, B, C, D, A, A, E, E]);
    assert_eq!(
        create_masks(&[A, B, C, D], &p),
        Err(PipelineError::OffPaletteColour { x: 2, y: 1 })
    );
    let q = picture(4, 2, vec![A, E, C, D, A, A, E, E]);
    assert_eq!(
        create_masks(&[A, B, C, D], &q),
        Err(PipelineError::OffPaletteColour { x: 1, y: 0 })
    );
}

#[test]
fn load_audio_pads_with_zeros() {
    assert_eq!(load_audio(&[7, 9], 5), Ok(vec![7, 9, 0, 0, 0]));
    assert_eq!(load_audio(&[], 3), Ok(vec![0, 0, 0]));
    assert_eq!(load_audio(&[], 0), Ok(vec![]));
}

#[test]
fn load_audio_accepts_an_exact_fit() {
    assert_eq!(load_audio(&[1, 2, 3], 3), Ok(vec![1, 2, 3]));
}

#[test]
fn load_audio_refuses_what_does_not_fit() {
    assert_eq!(
        load_audio(&[1, 2, 3, 4], 3),
        Err(PipelineError::PayloadTooLarge { actual: 4, capacity: 3 })
    );
    assert_eq!(
        load_audio(&[1], 0),
        Err(PipelineError::PayloadTooLarge { actual: 1, capacity: 0 })
    );
}

#[test]
fn find_active_mask_returns_the_first_plane_set() {
    let masks = [vec![0, 1, 0, 0], vec![1, 0, 0, 0], vec![0, 0, 0, 9], vec![0, 1, 0, 1]];
    assert_eq!(find_active_mask(&masks, 0), Some(1));
    assert_eq!(find_active_mask(&masks, 1), Some(0));
    assert_eq!(find_active_mask(&masks, 2), None);
    assert_eq!(find_active_mask(&masks, 3), Some(2));
}

#[test]
fn paint_replaces_the_low_two_bits() {
    let masks = [vec![1, 0, 0, 0], vec![0, 1, 0, 0], vec![0, 0, 1, 0], vec![0, 0, 0, 1]];
    let painted = paint_audio_bytes(&[0xFF, 0xFF, 0xFF, 0xFF], &masks).unwrap();
    assert_eq!(painted, vec![0xFC, 0xFD, 0xFE, 0xFF]);
    let painted = paint_audio_bytes(&[0x00, 0x01, 0x02, 0x03], &masks).unwrap();
    assert_eq!(painted, vec![0x00, 0x01, 0x02, 0x03]);
    let painted = paint_audio_bytes(&[0x03, 0x80, 0x7F, 0xA4], &masks).unwrap();
    assert_eq!(painted, vec![0x00, 0x81, 0x7E, 0xA7]);
}

#[test]
fn paint_keeps_the_high_six_bits() {
    let masks = [vec![0; 256], vec![0; 256], vec![1; 256], vec![0; 256]];
    let audio: Vec<u8> = (0..=255).collect();
    let painted = paint_audio_bytes(&audio, &masks).unwrap();
    for i in 0..256 {
        assert_eq!(painted[i] >> 2, audio[i] >> 2);
        assert_eq!(painted[i] & 3, 2);
    }
}

#[test]
fn paint_treats_any_non_zero_mask_byte_as_set() {
    let masks = [vec![0, 0], vec![0, 255], vec![7, 0], vec![0, 0]];
    assert_eq!(paint_audio_bytes(&[0x10, 0x20], &masks), Ok(vec![0x12, 0x21]));
}

#[test]
fn paint_is_repeatable() {
    let masks = [vec![1, 0, 0], vec![0, 0, 1], vec![0, 1, 0], vec![0, 0, 0]];
    let audio = [0x55, 0xAA, 0x0F];
    let first = paint_audio_bytes(&audio, &masks);
    let second = paint_audio_bytes(&audio, &masks);
    assert_eq!(first, Ok(vec![0x54, 0xAA, 0x0D]));
    assert_eq!(first, second);
}

#[test]
fn paint_of_nothing_is_nothing() {
    let masks = [vec![], vec![], vec![], vec![]];
    assert_eq!(paint_audio_bytes(&[], &masks), Ok(vec![]));
}

#[test]
fn paint_reports_the_first_uncovered_position() {
    let masks = [vec![1, 0, 0, 0], vec![0, 1, 0, 0], vec![0, 0, 0, 0], vec![0, 0, 0, 0]];
    assert_eq!(
        paint_audio_bytes(&[1, 2, 3, 4], &masks),
        Err(PipelineError::MaskCoverage { index: 2 })
    );
}

#[test]
fn paint_fails_when_one_mask_of_a_partition_is_wiped() {
    let p = picture(4, 1, vec![A, B, C, D]);
    let mut masks = create_masks(&[A, B, C, D], &p).unwrap();
    assert_eq!(paint_audio_bytes(&[0, 0, 0, 0], &masks), Ok(vec![0, 1, 2, 3]));
    masks[3][3] = 0;
    assert_eq!(
        paint_audio_bytes(&[0, 0, 0, 0], &masks),
        Err(PipelineError::MaskCoverage { index: 3 })
    );
}

#[test]
fn mask_label_is_the_number_in_binary() {
    assert_eq!(mask_label(0), "00");
    assert_eq!(mask_label(1), "01");
    assert_eq!(mask_label(2), "10");
    assert_eq!(mask_label(3), "11");
}

#[test]
fn paint_ignores_mask_bytes_beyond_the_audio() {
    let masks = [vec![1, 0, 0, 0, 0], vec![0, 1, 0, 0], vec![0, 0, 1, 0, 0, 0], vec![0, 0, 0]];
    assert_eq!(paint_audio_bytes(&[0xF0, 0xF1, 0xF2], &masks), Ok(vec![0xF0, 0xF1, 0xF2]));
    assert_eq!(paint_audio_bytes(&[0xF3, 0xF3], &masks), Ok(vec![0xF0, 0xF1]));
    assert_eq!(paint_audio_bytes(&[], &masks), Ok(vec![]));
}

#[test]
fn paint_of_longer_masks_still_reports_the_first_gap() {
    let masks = [vec![1, 0, 0, 1], vec![0, 0, 0, 0], vec![0, 0, 1, 0], vec![0, 0, 0, 0]];
    assert_eq!(
        paint_audio_bytes(&[5, 6, 7], &masks),
        Err(PipelineError::MaskCoverage { index: 1 })
    );
    assert_eq!(paint_audio_bytes(&[5], &masks), Ok(vec![4]));
}

#[test]
fn painting_a_painted_buffer_changes_nothing() {
    let masks = [vec![1, 0, 0, 0], vec![0, 0, 1, 0], vec![0, 1, 0, 0], vec![0, 0, 0, 1]];
    let once = paint_audio_bytes(&[0xFF, 0x12, 0x80, 0x03], &masks).unwrap();
    assert_eq!(once, vec![0xFC, 0x12, 0x81, 0x03]);
    let twice = paint_audio_bytes(&once, &masks).unwrap();
    assert_eq!(twice, once);
}

#[test]
fn painted_low_bits_name_a_mask_that_is_set() {
    let masks = [vec![0, 0, 5, 0], vec![1, 0, 0, 0], vec![0, 0, 0, 1], vec![1, 1, 1, 1]];
    let out = paint_audio_bytes(&[0xAB, 0xCD, 0xEF, 0x01], &masks).unwrap();
    assert_eq!(out, vec![0xA9, 0xCF, 0xEC, 0x02]);
    for i in 0..4 {
        assert_ne!(masks[(out[i] % 4) as usize][i], 0);
    }
}
