use wscb_atlas::pixel::PixelFormat;

// A packed four-byte format (RGBA, eight bits per channel).
const RGBA_CODE: u32 = 0x1646_2004;
// A packed one-byte indexed format.
const INDEX8_CODE: u32 = 0x1300_0801;
// A four-character-code format, which carries no bits-per-pixel value.
const FOURCC_CODE: u32 = 0x3231_5659;

#[test]
fn bits_per_pixel_of_packed_formats() {
    assert_eq!(PixelFormat::new(RGBA_CODE).bits_per_pixel(), 32);
    assert_eq!(PixelFormat::new(INDEX8_CODE).bits_per_pixel(), 8);
}

#[test]
fn bits_per_pixel_of_fourcc_is_zero() {
    assert_eq!(PixelFormat::new(FOURCC_CODE).bits_per_pixel(), 0);
    assert_eq!(PixelFormat::new(0).bits_per_pixel(), 0);
}

#[test]
fn bytes_per_pixel_of_supported_formats() {
    assert_eq!(PixelFormat::new(RGBA_CODE).bytes_per_pixel(), Some(4));
    assert_eq!(PixelFormat::new(INDEX8_CODE).bytes_per_pixel(), Some(1));
}

#[test]
fn bytes_per_pixel_rejects_unsupported_bit_counts() {
    assert_eq!(PixelFormat::new(FOURCC_CODE).bytes_per_pixel(), None);
    // Nine bits per pixel is not a whole number of bytes.
    assert_eq!(PixelFormat::new(0x1000_0900).bytes_per_pixel(), None);
    assert_eq!(PixelFormat::new(0).bytes_per_pixel(), None);
}
