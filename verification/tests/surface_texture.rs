use wscb_atlas::error::SdlError;
use wscb_atlas::geom::Size;
use wscb_atlas::pixel::PixelFormat;
use wscb_atlas::surface::Surface;
use wscb_atlas::texture::Texture;

const INDEX8_CODE: u32 = 0x1300_0801;
const RGBA_CODE: u32 = 0x1646_2004;
const FOURCC_CODE: u32 = 0x3231_5659;

#[test]
fn texture_create_is_zero_filled_with_tight_pitch() {
    let t = Texture::create(PixelFormat::new(RGBA_CODE), Size::new(3, 2)).unwrap();
    assert_eq!(t.size(), Size::new(3, 2));
    assert_eq!(t.format(), PixelFormat::new(RGBA_CODE));
    assert_eq!(t.pitch, 12);
    assert_eq!(t.pixels, vec![0u8; 24]);
}

#[test]
fn texture_create_rejects_unsupported_format() {
    let r = Texture::create(PixelFormat::new(FOURCC_CODE), Size::new(4, 4));
    assert!(matches!(r, Err(SdlError::SdlError(_))));
}

#[test]
fn texture_create_rejects_saturated_dimensions() {
    let r = Texture::create(PixelFormat::new(INDEX8_CODE), Size::new(u32::MAX, 1));
    assert!(matches!(r, Err(SdlError::SdlError(_))));
}

#[test]
fn surface_new_accepts_a_coherent_layout() {
    let s = Surface::new(
        PixelFormat::new(INDEX8_CODE),
        Size::new(4, 2),
        5,
        vec![7u8; 10],
    )
    .unwrap();
    assert_eq!(s.size(), Size::new(4, 2));
    assert_eq!(s.pitch(), 5);
    assert_eq!(s.pixels().len(), 10);
}

#[test]
fn surface_new_rejects_a_pitch_smaller_than_a_row() {
    let r = Surface::new(
        PixelFormat::new(RGBA_CODE),
        Size::new(4, 2),
        15,
        vec![0u8; 30],
    );
    assert!(matches!(r, Err(SdlError::SdlError(_))));
}

#[test]
fn surface_new_rejects_a_short_buffer() {
    let r = Surface::new(
        PixelFormat::new(INDEX8_CODE),
        Size::new(4, 2),
        4,
        vec![0u8; 7],
    );
    assert!(matches!(r, Err(SdlError::SdlError(_))));
}

#[test]
fn surface_duplicate_copies_everything() {
    let s = Surface::new(
        PixelFormat::new(INDEX8_CODE),
        Size::new(2, 2),
        2,
        vec![1, 2, 3, 4],
    )
    .unwrap();
    let d = s.duplicate();
    assert_eq!(d.size(), s.size());
    assert_eq!(d.pitch(), s.pitch());
    assert_eq!(d.format(), s.format());
    assert_eq!(d.pixels(), s.pixels());
}

#[test]
fn error_message_carries_the_text() {
    let e = SdlError::sdl_err("boom");
    assert!(matches!(&e, SdlError::SdlError(m) if m == "boom"));
    assert_eq!(e.message(), "boom");
    assert!(e.is_backend());
    let c = SdlError::TryFromIntError;
    assert_eq!(c.message(), "integer out of range");
    assert!(!c.is_backend());
    let copy = e.clone();
    assert_eq!(copy.message(), "boom");
}
