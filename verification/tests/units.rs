use pdf_rasterizer::color::unpremultiply;
use pdf_rasterizer::content::{image_name, placement_stream};
use pdf_rasterizer::geometry::page_points;
use pdf_rasterizer::pages::{process_page, sequence_pages, EncodedPage, RenderedPage};
use pdf_rasterizer::ConvertError;

#[test]
fn opaque_pixel_unchanged() {
    let rgba: Vec<u8> = vec![10, 20, 30, 255];
    assert_eq!(unpremultiply(&rgba), vec![10, 20, 30]);
}

#[test]
fn transparent_pixel_maps_to_black() {
    let rgba: Vec<u8> = vec![200, 100, 50, 0];
    assert_eq!(unpremultiply(&rgba), vec![0, 0, 0]);
}

#[test]
fn half_alpha_restores_color() {
    // 64 premultiplied at alpha 128 is (64 * 255 + 64) / 128 = 128.
    let rgba: Vec<u8> = vec![64, 64, 64, 128];
    assert_eq!(unpremultiply(&rgba), vec![128, 128, 128]);
}

#[test]
fn restored_channel_clamps_at_255() {
    // 200 premultiplied at alpha 100 would restore to 510; it clamps.
    let rgba: Vec<u8> = vec![200, 0, 0, 100];
    assert_eq!(unpremultiply(&rgba), vec![255, 0, 0]);
}

#[test]
fn unpremultiply_ignores_trailing_fragment() {
    let rgba: Vec<u8> = vec![1, 2, 3, 255, 9, 9, 9];
    assert_eq!(unpremultiply(&rgba), vec![1, 2, 3]);
}

#[test]
fn unpremultiply_two_pixels() {
    let rgba: Vec<u8> = vec![10, 20, 30, 255, 7, 7, 7, 0];
    assert_eq!(unpremultiply(&rgba), vec![10, 20, 30, 0, 0, 0]);
}

#[test]
fn letter_page_points_at_150_dpi() {
    // 612 x 792 points rendered at 150 dpi is 1275 x 1650 pixels; the
    // geometry math maps the pixels back to the same page size.
    assert_eq!(page_points(1275, 150), 612);
    assert_eq!(page_points(1650, 150), 792);
}

#[test]
fn page_points_identity_at_72_dpi() {
    assert_eq!(page_points(100, 72), 100);
}

#[test]
fn page_points_rounds_to_nearest() {
    // 100 pixels at 144 dpi is exactly 50 points; 101 pixels is 50.5,
    // rounded to 51.
    assert_eq!(page_points(100, 144), 50);
    assert_eq!(page_points(101, 144), 51);
}

#[test]
fn placement_stream_draws_full_page() {
    let ops = placement_stream(612, 792, 0);
    assert_eq!(ops, b"q\n612 0 0 792 0 0 cm\n/Im0 Do\nQ".to_vec());
}

#[test]
fn placement_stream_names_image_by_position() {
    let ops = placement_stream(10, 20, 17);
    assert_eq!(ops, b"q\n10 0 0 20 0 0 cm\n/Im17 Do\nQ".to_vec());
}

#[test]
fn image_name_is_unique_per_page() {
    assert_eq!(image_name(0), b"Im0".to_vec());
    assert_eq!(image_name(12), b"Im12".to_vec());
}

#[test]
fn process_page_encodes_a_jpeg() {
    let page = RenderedPage { width: 2, height: 2, pixels: vec![255; 16] };
    let encoded = process_page(3, &page).unwrap();
    assert_eq!(encoded.index, 3);
    assert_eq!(encoded.width, 2);
    assert_eq!(encoded.height, 2);
    // A JPEG stream starts with the SOI marker: the encoder really ran.
    assert!(encoded.bytes.len() > 2);
    assert_eq!(&encoded.bytes[0..2], &[0xff, 0xd8]);
}

#[test]
fn process_page_rejects_malformed_buffer() {
    // Three pixels' worth of bytes for a 2 x 2 page is not a rendering.
    let page = RenderedPage { width: 2, height: 2, pixels: vec![255; 12] };
    assert_eq!(process_page(5, &page), Err(ConvertError::Render { page: 5 }));
}

#[test]
fn process_page_rejects_zero_dimension() {
    let page = RenderedPage { width: 0, height: 4, pixels: vec![] };
    assert_eq!(process_page(2, &page), Err(ConvertError::Encode { page: 2 }));
}

#[test]
fn sequence_pages_restores_index_order() {
    let pages = vec![
        EncodedPage { index: 2, width: 3, height: 3, bytes: vec![2] },
        EncodedPage { index: 0, width: 1, height: 1, bytes: vec![0] },
        EncodedPage { index: 1, width: 2, height: 2, bytes: vec![1] },
    ];
    let ordered = sequence_pages(pages);
    assert_eq!(ordered.len(), 3);
    for (i, page) in ordered.iter().enumerate() {
        assert_eq!(page.index, i);
        assert_eq!(page.bytes, vec![i as u8]);
        assert_eq!(page.width, i as u32 + 1);
    }
}

#[test]
fn error_descriptions_name_the_stage() {
    assert!(ConvertError::Parse.describe().contains("not a well-formed"));
    assert!(ConvertError::Assembly.describe().contains("serialized"));
    assert_eq!(ConvertError::Render { page: 4 }.page(), Some(4));
    assert_eq!(ConvertError::Encode { page: 9 }.page(), Some(9));
    assert_eq!(ConvertError::Parse.page(), None);
}
