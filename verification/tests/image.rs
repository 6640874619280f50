use std::rc::Rc;

use asteria::image::{
    detect_image_format, hash_bytes, parse_image_dimensions, ImageCache, ImageDecoder,
    ImageFormat,
};

fn png_header(width: u32, height: u32) -> Vec<u8> {
    let mut d = vec![0x89, b'P', b'N', b'G', 0x0D, 0x0A, 0x1A, 0x0A];
    d.extend_from_slice(&[0, 0, 0, 13, b'I', b'H', b'D', b'R']);
    d.extend_from_slice(&width.to_be_bytes());
    d.extend_from_slice(&height.to_be_bytes());
    d
}

#[test]
fn detects_formats_by_magic_bytes() {
    assert_eq!(detect_image_format(&png_header(1, 1)), Some(ImageFormat::Png));
    assert_eq!(detect_image_format(&[0xFF, 0xD8, 0xFF, 0xE0]), Some(ImageFormat::Jpeg));
    assert_eq!(detect_image_format(b"BMxxxx"), Some(ImageFormat::Bmp));
    assert_eq!(detect_image_format(b"GIF89a"), Some(ImageFormat::Gif));
    assert_eq!(detect_image_format(b"RIFF\0\0\0\0WEBPVP8 "), Some(ImageFormat::WebP));
    assert_eq!(detect_image_format(b"RIFF\0\0\0\0WAVE"), None);
    assert_eq!(detect_image_format(&[b'I', b'I', 0x2A, 0x00]), Some(ImageFormat::Tiff));
    assert_eq!(detect_image_format(&[b'M', b'M', 0x00, 0x2A]), Some(ImageFormat::Tiff));
    assert_eq!(detect_image_format(b"<?xml version=\"1.0\"?><svg></svg>"), Some(ImageFormat::Svg));
    assert_eq!(detect_image_format(b""), None);
    assert_eq!(detect_image_format(b"hello"), None);
}

#[test]
fn svg_tag_must_start_in_first_kilobyte() {
    let mut late = vec![b' '; 1021];
    late.extend_from_slice(b"<svg>");
    assert_eq!(detect_image_format(&late), None);
    let mut early = vec![b' '; 1020];
    early.extend_from_slice(b"<svg>");
    assert_eq!(detect_image_format(&early), Some(ImageFormat::Svg));
}

#[test]
fn reads_png_gif_and_bmp_dimensions() {
    assert_eq!(parse_image_dimensions(ImageFormat::Png, &png_header(640, 480)), (640, 480));
    assert_eq!(parse_image_dimensions(ImageFormat::Png, &png_header(0, 7)), (1, 7));
    assert_eq!(parse_image_dimensions(ImageFormat::Png, &png_header(5, 5)[..20]), (300, 150));
    assert_eq!(parse_image_dimensions(ImageFormat::Gif, b"GIF89a\x20\x01\x10\x00"), (288, 16));
    let mut bmp = vec![0u8; 26];
    bmp[0] = b'B';
    bmp[1] = b'M';
    bmp[18..22].copy_from_slice(&100i32.to_le_bytes());
    bmp[22..26].copy_from_slice(&(-50i32).to_le_bytes());
    assert_eq!(parse_image_dimensions(ImageFormat::Bmp, &bmp), (100, 50));
    assert_eq!(parse_image_dimensions(ImageFormat::Svg, b"<svg>"), (300, 150));
}

#[test]
fn walks_jpeg_segments_to_the_frame_header() {
    let mut jpeg = vec![0xFF, 0xD8, 0xFF, 0xE0, 0x00, 0x10];
    jpeg.extend_from_slice(&[0u8; 14]);
    jpeg.extend_from_slice(&[0xFF, 0xC0, 0x00, 0x11, 0x08, 0x00, 0x20, 0x00, 0x40, 0x03]);
    jpeg.extend_from_slice(&[0u8; 10]);
    assert_eq!(parse_image_dimensions(ImageFormat::Jpeg, &jpeg), (64, 32));
    let scan = [0xFF, 0xD8, 0xFF, 0xDA, 0x00, 0x10];
    assert_eq!(parse_image_dimensions(ImageFormat::Jpeg, &scan), (300, 150));
}

#[test]
fn decoding_unknown_data_fails_with_message() {
    let decoder = ImageDecoder::new();
    let err = decoder.decode_image("logo", b"not an image").unwrap_err();
    assert_eq!(err, "Unknown image format for 'logo'");
}

#[test]
fn decoding_fills_four_bytes_per_pixel() {
    let decoder = ImageDecoder::default();
    let data = png_header(2, 3);
    let img = decoder.decode_image("p", &data).unwrap();
    assert_eq!(img.id, "p");
    assert_eq!(img.format, ImageFormat::Png);
    assert_eq!((img.width, img.height), (2, 3));
    assert_eq!(img.data.len(), 24);
    let expected: Vec<u8> = (0..24).map(|k| (k % data.len()) as u8).collect();
    assert_eq!(img.data, expected);
}

#[test]
fn fnv1a_hash_values() {
    assert_eq!(hash_bytes(b""), 0xcbf29ce484222325);
    assert_eq!(hash_bytes(b"a"), 0xaf63dc4c8601ec8c);
}

#[test]
fn image_cache_reuses_decoded_images() {
    let mut cache = ImageCache::new();
    assert!(cache.is_empty());
    let data = png_header(4, 4);
    let first = cache.get_or_decode("a", &data).unwrap();
    let second = cache.get_or_decode("a", &data).unwrap();
    assert!(Rc::ptr_eq(&first, &second));
    assert_eq!(cache.len(), 1);
    let other = cache.get_or_decode("b", &data).unwrap();
    assert!(!Rc::ptr_eq(&first, &other));
    assert_eq!(cache.len(), 2);
    assert!(cache.get_or_decode("c", b"garbage").is_err());
    assert_eq!(cache.len(), 2);
}
