use wscb_atlas::blit::copy_pixels;
use wscb_atlas::error::SdlError;
use wscb_atlas::geom::{Point, Rect};
use wscb_atlas::pixel::PixelFormat;

const INDEX8_CODE: u32 = 0x1300_0801;
const FOURCC_CODE: u32 = 0x3231_5659;

#[test]
fn full_copy_with_equal_pitches_reproduces_the_source() {
    let fmt = PixelFormat::new(INDEX8_CODE);
    let src: Vec<u8> = vec![1, 2, 3, 4, 5, 6, 7, 8];
    let mut dst: Vec<u8> = vec![0; 8];
    let r = copy_pixels(
        &src,
        Rect::new(0, 0, 4, 2),
        4,
        &mut dst,
        Point::new(0, 0),
        4,
        fmt,
    );
    assert!(r.is_ok());
    assert_eq!(dst, src);
}

#[test]
fn sub_rect_copy_with_offsets_and_pitches() {
    let fmt = PixelFormat::new(INDEX8_CODE);
    // Source: 3 rows of pitch 5, pixels numbered row-major.
    let src: Vec<u8> = vec![
        10, 11, 12, 13, 0, //
        20, 21, 22, 23, 0, //
        30, 31, 32, 33, 0,
    ];
    // Copy the 2x2 block whose top-left pixel is (1, 1).
    let mut dst: Vec<u8> = vec![0; 18];
    let r = copy_pixels(
        &src,
        Rect::new(1, 1, 2, 2),
        5,
        &mut dst,
        Point::new(2, 1),
        6,
        fmt,
    );
    assert!(r.is_ok());
    let expected: Vec<u8> = vec![
        0, 0, 0, 0, 0, 0, //
        0, 0, 21, 22, 0, 0, //
        0, 0, 31, 32, 0, 0,
    ];
    assert_eq!(dst, expected);
}

#[test]
fn four_byte_pixels_copy_whole_pixels() {
    let fmt = PixelFormat::new(0x1646_2004);
    let src: Vec<u8> = (0..16).collect();
    let mut dst: Vec<u8> = vec![0; 16];
    let r = copy_pixels(
        &src,
        Rect::new(0, 0, 2, 2),
        8,
        &mut dst,
        Point::new(0, 0),
        8,
        fmt,
    );
    assert!(r.is_ok());
    assert_eq!(dst, src);
}

#[test]
fn unsupported_format_fails_and_leaves_destination_untouched() {
    let fmt = PixelFormat::new(FOURCC_CODE);
    let src: Vec<u8> = vec![1, 2, 3, 4];
    let mut dst: Vec<u8> = vec![9, 9, 9, 9];
    let r = copy_pixels(
        &src,
        Rect::new(0, 0, 2, 2),
        2,
        &mut dst,
        Point::new(0, 0),
        2,
        fmt,
    );
    assert!(matches!(r, Err(SdlError::SdlError(_))));
    assert_eq!(dst, vec![9, 9, 9, 9]);
}

#[test]
fn zero_height_copy_does_nothing() {
    let fmt = PixelFormat::new(INDEX8_CODE);
    let src: Vec<u8> = vec![1, 2, 3, 4];
    let mut dst: Vec<u8> = vec![0, 0, 0, 0];
    let r = copy_pixels(
        &src,
        Rect::new(0, 0, 4, 0),
        4,
        &mut dst,
        Point::new(0, 0),
        4,
        fmt,
    );
    assert!(r.is_ok());
    assert_eq!(dst, vec![0, 0, 0, 0]);
}
