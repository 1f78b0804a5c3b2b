use audio_bitmap::colour::Rgb;
use audio_bitmap::container::{
    encode_empty_bitmap, encode_indexed, encode_mask, encode_painted_bitmap, patch_pixel_data,
    pixel_region, read_bitmap_indices, read_layout, region_of, BitmapLayout,
};
use audio_bitmap::error::PipelineError;

const A: Rgb = Rgb { r: 32, g: 32, b: 32 };
const B: Rgb = Rgb { r: 220, g: 110, b: 0 };
const C: Rgb = Rgb { r: 0, g: 220, b: 110 };
const D: Rgb = Rgb { r: 110, g: 0, b: 220 };

fn le32(bytes: &[u8], at: usize) -> u32 {
    u32::from_le_bytes([bytes[at], bytes[at + 1], bytes[at + 2], bytes[at + 3]])
}

#[test]
fn encode_mask_writes_rows_bottom_up() {
    let mask = [1, 0, 0, 0, 0, 1, 0, 0, 0, 0, 1, 1];
    let file = encode_mask(&mask, 4, 3).unwrap();
    assert_eq!(file.len(), 62 + 12);
    assert_eq!(&file[0..2], b"BM");
    assert_eq!(le32(&file, 2), 74);
    assert_eq!(le32(&file, 10), 62);
    assert_eq!(le32(&file, 18), 4);
    assert_eq!(le32(&file, 22), 3);
    assert_eq!(&file[54..62], &[0, 0, 0, 0, 255, 255, 255, 0]);
    assert_eq!(&file[62..], &[0, 0, 1, 1, 0, 1, 0, 0, 1, 0, 0, 0]);
}

#[test]
fn encode_mask_decodes_to_black_and_white() {
    let mask = [1, 0, 0, 0, 0, 1, 0, 0];
    let file = encode_mask(&mask, 4, 2).unwrap();
    let decoded = image::load_from_memory(&file).unwrap().into_rgb8();
    assert_eq!(decoded.dimensions(), (4, 2));
    for y in 0..2 {
        for x in 0..4 {
            let expected = if mask[(y * 4 + x) as usize] == 1 { [255, 255, 255] } else { [0, 0, 0] };
            assert_eq!(decoded.get_pixel(x, y).0, expected);
        }
    }
}

#[test]
fn encode_indexed_writes_the_colour_table_as_bgr() {
    let file = encode_indexed(&[0, 1, 2, 3], 4, 1, &[A, B, C, D]).unwrap();
    assert_eq!(file.len(), 54 + 16 + 4);
    assert_eq!(le32(&file, 10), 70);
    assert_eq!(&file[54..58], &[32, 32, 32, 0]);
    assert_eq!(&file[58..62], &[0, 110, 220, 0]);
    assert_eq!(&file[62..66], &[110, 220, 0, 0]);
    assert_eq!(&file[66..70], &[220, 0, 110, 0]);
    assert_eq!(&file[70..], &[0, 1, 2, 3]);
}

#[test]
fn encode_empty_bitmap_has_headers_and_zero_pixels() {
    let table: Vec<Rgb> = (0..256).map(|i| [A, B, C, D][i % 4]).collect();
    let file = encode_empty_bitmap(8, 4, 2, &table).unwrap();
    assert_eq!(file.len(), 1078 + 8);
    assert_eq!(&file[0..2], b"BM");
    assert_eq!(le32(&file, 10), 1078);
    assert_eq!(le32(&file, 34), 8);
    assert_eq!(le32(&file, 46), 256);
    assert_eq!(&file[54..58], &[32, 32, 32, 0]);
    assert_eq!(&file[54 + 4 * 255..1078], &[220, 0, 110, 0]);
    assert!(file[1078..].iter().all(|&b| b == 0));
}

#[test]
fn pixel_region_is_the_bytes_between_its_bounds() {
    assert_eq!(pixel_region(&[1, 2, 3, 4, 5], 2, 3), vec![3, 4, 5]);
    assert_eq!(pixel_region(&[1, 2, 3, 4, 5], 1, 2), vec![2, 3]);
    assert_eq!(pixel_region(&[1, 2, 3], 0, 3), vec![1, 2, 3]);
    assert_eq!(pixel_region(&[1, 2, 3], 3, 0), Vec::<u8>::new());
    assert_eq!(pixel_region(&[1, 2, 3], 1, 0), Vec::<u8>::new());
}

#[test]
fn region_of_takes_what_the_header_describes() {
    let bytes = [9, 8, 7, 6, 5, 4];
    let inner = BitmapLayout { image_data_start: 2, image_data_len: 3 };
    assert_eq!(region_of(&bytes, inner), Ok(vec![7, 6, 5]));
    let tail = BitmapLayout { image_data_start: 2, image_data_len: 4 };
    assert_eq!(region_of(&bytes, tail), Ok(vec![7, 6, 5, 4]));
    let empty = BitmapLayout { image_data_start: 6, image_data_len: 0 };
    assert_eq!(region_of(&bytes, empty), Ok(vec![]));
}

#[test]
fn region_of_refuses_a_region_beyond_the_file() {
    let bytes = [9, 8, 7, 6, 5, 4];
    let long = BitmapLayout { image_data_start: 2, image_data_len: 5 };
    assert!(matches!(region_of(&bytes, long), Err(PipelineError::ContainerFormat { .. })));
    let late = BitmapLayout { image_data_start: 7, image_data_len: 0 };
    assert!(matches!(region_of(&bytes, late), Err(PipelineError::ContainerFormat { .. })));
    let huge = BitmapLayout { image_data_start: usize::MAX, image_data_len: u32::MAX };
    assert!(matches!(region_of(&bytes, huge), Err(PipelineError::ContainerFormat { .. })));
}

#[test]
fn read_layout_reports_offset_and_length() {
    let file = encode_mask(&[1, 0, 0, 0, 0, 1, 0, 0], 4, 2).unwrap();
    assert_eq!(read_layout(&file), Ok(BitmapLayout { image_data_start: 62, image_data_len: 8 }));
    let table: Vec<Rgb> = (0..256).map(|i| [A, B, C, D][i % 4]).collect();
    let wide = encode_empty_bitmap(12, 4, 3, &table).unwrap();
    assert_eq!(read_layout(&wide), Ok(BitmapLayout { image_data_start: 1078, image_data_len: 12 }));
    assert!(matches!(read_layout(b"BM"), Err(PipelineError::ContainerFormat { .. })));
}

#[test]
fn read_bitmap_indices_leaves_out_what_follows_the_pixel_data() {
    let mask = [1, 0, 0, 0, 0, 1, 0, 0, 0, 0, 1, 1];
    let mut file = encode_mask(&mask, 4, 3).unwrap();
    file.extend_from_slice(&[0xAA, 0xBB, 0xCC]);
    assert_eq!(file.len(), 62 + 12 + 3);
    assert_eq!(read_bitmap_indices(&file), Ok(vec![0, 0, 1, 1, 0, 1, 0, 0, 1, 0, 0, 0]));
}

#[test]
fn read_bitmap_indices_leaves_out_headers_and_colour_table() {
    let file = encode_indexed(&[3, 2, 1, 0, 0, 1, 2, 3], 4, 2, &[A, B, C, D]).unwrap();
    let data = read_bitmap_indices(&file).unwrap();
    assert_eq!(data.len(), 8);
    assert_eq!(data, vec![0, 1, 2, 3, 3, 2, 1, 0]);
}

#[test]
fn read_bitmap_indices_returns_the_stored_order() {
    let mask = [1, 0, 0, 0, 0, 1, 0, 0, 0, 0, 1, 1];
    let file = encode_mask(&mask, 4, 3).unwrap();
    let stored = read_bitmap_indices(&file).unwrap();
    assert_eq!(stored, vec![0, 0, 1, 1, 0, 1, 0, 0, 1, 0, 0, 0]);
}

#[test]
fn read_bitmap_indices_follows_the_header_offset() {
    let file = encode_indexed(&[3, 2, 1, 0], 4, 1, &[A, B, C, D]).unwrap();
    assert_eq!(read_bitmap_indices(&file), Ok(vec![3, 2, 1, 0]));
}

#[test]
fn read_bitmap_indices_rejects_what_is_no_bitmap() {
    assert!(matches!(
        read_bitmap_indices(b"not a bitmap at all"),
        Err(PipelineError::ContainerFormat { .. })
    ));
    assert!(matches!(read_bitmap_indices(&[]), Err(PipelineError::ContainerFormat { .. })));
}

#[test]
fn read_bitmap_indices_rejects_a_truncated_file() {
    let file = encode_mask(&[1, 0, 0, 0], 4, 1).unwrap();
    assert!(matches!(
        read_bitmap_indices(&file[..file.len() - 1]),
        Err(PipelineError::ContainerFormat { .. })
    ));
    assert!(matches!(
        read_bitmap_indices(&file[..20]),
        Err(PipelineError::ContainerFormat { .. })
    ));
}

#[test]
fn container_error_carries_the_parser_message() {
    match read_bitmap_indices(b"XYZ") {
        Err(PipelineError::ContainerFormat { detail }) => {
            assert!(detail.contains("InvalidFileSignature"), "{}", detail);
        }
        other => panic!("unexpected result {:?}", other),
    }
}

#[test]
fn patch_pixel_data_overwrites_only_the_tail() {
    let layout = BitmapLayout { image_data_start: 3, image_data_len: 2 };
    assert_eq!(patch_pixel_data(vec![9, 8, 7, 0, 0], layout, &[5, 6]), Ok(vec![9, 8, 7, 5, 6]));
}

#[test]
fn patch_pixel_data_accepts_empty_data() {
    let layout = BitmapLayout { image_data_start: 3, image_data_len: 0 };
    assert_eq!(patch_pixel_data(vec![9, 8, 7], layout, &[]), Ok(vec![9, 8, 7]));
}

#[test]
fn patch_pixel_data_refuses_a_length_other_than_the_header_states() {
    let layout = BitmapLayout { image_data_start: 3, image_data_len: 3 };
    assert!(matches!(
        patch_pixel_data(vec![9, 8, 7, 0, 0], layout, &[5, 6]),
        Err(PipelineError::ContainerFormat { .. })
    ));
}

#[test]
fn patch_pixel_data_refuses_data_that_does_not_fill_the_file() {
    let layout = BitmapLayout { image_data_start: 2, image_data_len: 2 };
    assert!(matches!(
        patch_pixel_data(vec![9, 8, 7, 0, 0], layout, &[5, 6]),
        Err(PipelineError::ContainerFormat { .. })
    ));
    let beyond = BitmapLayout { image_data_start: 6, image_data_len: 0 };
    assert!(matches!(
        patch_pixel_data(vec![9, 8, 7, 0, 0], beyond, &[]),
        Err(PipelineError::ContainerFormat { .. })
    ));
}

#[test]
fn painted_bitmap_keeps_the_placeholder_headers() {
    let painted = [0xFC, 0x01, 0x82, 0x03, 0x10, 0x21, 0x32, 0x43];
    let file = encode_painted_bitmap(&painted, &[A, B, C, D], 4, 2).unwrap();
    let table: Vec<Rgb> = (0..256).map(|i| [A, B, C, D][i % 4]).collect();
    let placeholder = encode_empty_bitmap(8, 4, 2, &table).unwrap();
    assert_eq!(file.len(), 1078 + 8);
    assert_eq!(&file[..1078], &placeholder[..1078]);
    assert_eq!(&file[1078..], &painted);
}

#[test]
fn painted_bitmap_tiles_the_palette() {
    let file = encode_painted_bitmap(&[0, 0, 0, 0], &[A, B, C, D], 4, 1).unwrap();
    for i in 0..256 {
        let c = [A, B, C, D][i % 4];
        assert_eq!(&file[54 + 4 * i..58 + 4 * i], &[c.b, c.g, c.r, 0]);
    }
}

#[test]
fn painted_bitmap_is_a_readable_bitmap() {
    let painted = [0xFC, 0x01, 0x82, 0x03, 0x10, 0x21, 0x32, 0x43];
    let file = encode_painted_bitmap(&painted, &[A, B, C, D], 4, 2).unwrap();
    assert_eq!(read_bitmap_indices(&file), Ok(painted.to_vec()));
    let decoded = image::load_from_memory(&file).unwrap().into_rgb8();
    assert_eq!(decoded.dimensions(), (4, 2));
    assert_eq!(decoded.get_pixel(0, 1).0, [32, 32, 32]);
    assert_eq!(decoded.get_pixel(1, 1).0, [220, 110, 0]);
    assert_eq!(decoded.get_pixel(2, 1).0, [0, 220, 110]);
    assert_eq!(decoded.get_pixel(3, 1).0, [110, 0, 220]);
    assert_eq!(decoded.get_pixel(0, 0).0, [32, 32, 32]);
    assert_eq!(decoded.get_pixel(3, 0).0, [110, 0, 220]);
}
