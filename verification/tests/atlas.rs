use wscb_atlas::atlas::{bounding_rect, AtlasManager, AtlasSegment};
use wscb_atlas::texture::Texture;
use wscb_atlas::error::SdlError;
use wscb_atlas::geom::{Point, Rect, Size};
use wscb_atlas::pixel::PixelFormat;
use wscb_atlas::surface::Surface;

const INDEX8_CODE: u32 = 0x1300_0801;
const RGBA_CODE: u32 = 0x1646_2004;

fn fmt1() -> PixelFormat {
    PixelFormat::new(INDEX8_CODE)
}

fn fmt4() -> PixelFormat {
    PixelFormat::new(RGBA_CODE)
}

fn filled_surface(w: u32, h: u32, value: u8) -> Surface {
    Surface::new(
        fmt1(),
        Size::new(w, h),
        w as usize,
        vec![value; (w * h) as usize],
    )
    .unwrap()
}

#[test]
fn single_fit_lands_at_the_padded_origin() {
    let mut m = AtlasManager::empty(1, Size::new(64, 64), fmt4()).unwrap();
    let h = m.allocate(Size::new(10, 10)).unwrap();
    assert_eq!(h.index, 1);
    assert_eq!(h.rect, Rect::new(1, 1, 10, 10));
    assert_eq!(m.segment_count(), 1);
}

#[test]
fn line_wrap_opens_the_next_line() {
    let mut m = AtlasManager::empty(1, Size::new(64, 64), fmt4()).unwrap();
    let first = m.allocate(Size::new(10, 10)).unwrap();
    assert_eq!(first.rect, Rect::new(1, 1, 10, 10));
    let second = m.allocate(Size::new(60, 10)).unwrap();
    assert_eq!(second.index, 1);
    assert_eq!(second.rect, Rect::new(1, 13, 60, 10));
    let (pen, line_height) = m.get_texture_segment(&second).cursor();
    assert_eq!(pen, Point::new(62, 12));
    assert_eq!(line_height, 12);
}

#[test]
fn segment_spill_creates_a_second_segment() {
    let mut m = AtlasManager::empty(0, Size::new(32, 32), fmt4()).unwrap();
    let first = m.allocate(Size::new(20, 20)).unwrap();
    assert_eq!(first.index, 1);
    assert_eq!(first.rect, Rect::new(0, 0, 20, 20));
    let second = m.allocate(Size::new(20, 20)).unwrap();
    assert_eq!(second.index, 2);
    assert_eq!(second.rect, Rect::new(0, 0, 20, 20));
    assert_eq!(m.segment_count(), 2);
}

#[test]
fn oversize_request_grows_a_segment_to_the_padded_size() {
    let mut m = AtlasManager::empty(2, Size::new(32, 32), fmt4()).unwrap();
    let h = m.allocate(Size::new(40, 8)).unwrap();
    assert_eq!(h.index, 2);
    assert_eq!(h.rect, Rect::new(2, 2, 40, 8));
    assert_eq!(m.segment_count(), 2);
    assert_eq!(m.get_texture(&h).size(), Size::new(44, 32));
}

#[test]
fn full_size_request_succeeds_only_on_an_empty_segment() {
    let mut m = AtlasManager::empty(0, Size::new(32, 32), fmt4()).unwrap();
    let h = m.allocate(Size::new(32, 32)).unwrap();
    assert_eq!(h.index, 1);
    assert_eq!(h.rect, Rect::new(0, 0, 32, 32));
    assert_eq!(m.segment_count(), 1);

    let mut m2 = AtlasManager::empty(0, Size::new(32, 32), fmt4()).unwrap();
    m2.allocate(Size::new(5, 5)).unwrap();
    let spilled = m2.allocate(Size::new(32, 32)).unwrap();
    assert_eq!(spilled.index, 2);
    assert_eq!(m2.segment_count(), 2);
}

#[test]
fn zero_size_requests_are_accepted() {
    // Policy: a request of zero width or height is accepted; it trivially
    // fits and does not advance the cursor.
    let mut m = AtlasManager::empty(0, Size::new(32, 32), fmt4()).unwrap();
    let z = m.allocate(Size::new(0, 0)).unwrap();
    assert_eq!(z.index, 1);
    assert_eq!(z.rect, Rect::new(0, 0, 0, 0));
    let next = m.allocate(Size::new(10, 10)).unwrap();
    assert_eq!(next.rect, Rect::new(0, 0, 10, 10));
}

#[test]
fn handles_stay_valid_as_segments_accumulate() {
    let mut m = AtlasManager::empty(0, Size::new(16, 16), fmt4()).unwrap();
    let first = m.allocate(Size::new(16, 16)).unwrap();
    let size_then = m.get_texture(&first).size();
    for _ in 0..5 {
        m.allocate(Size::new(16, 16)).unwrap();
    }
    assert_eq!(m.segment_count(), 6);
    assert!((first.index as usize) <= m.segment_count());
    assert_eq!(m.get_texture(&first).size(), size_then);
}

#[test]
fn get_texture_answers_the_same_for_repeated_lookups() {
    let mut m = AtlasManager::empty(0, Size::new(16, 16), fmt4()).unwrap();
    let h = m.allocate(Size::new(4, 4)).unwrap();
    let size_a = m.get_texture(&h).size();
    let pixels_a = m.get_texture(&h).pixels.clone();
    let size_b = m.get_texture(&h).size();
    let pixels_b = &m.get_texture(&h).pixels;
    assert_eq!(size_a, size_b);
    assert_eq!(&pixels_a, pixels_b);
}

#[test]
fn single_upload_copies_the_source_into_the_inner_rect() {
    let mut m = AtlasManager::empty(0, Size::new(8, 8), fmt1()).unwrap();
    let src = Surface::new(
        fmt1(),
        Size::new(4, 2),
        4,
        vec![1, 2, 3, 4, 5, 6, 7, 8],
    )
    .unwrap();
    let h = m.allocate_then_copy_surface(&src, None).unwrap();
    assert_eq!(h.index, 1);
    assert_eq!(h.rect, Rect::new(0, 0, 4, 2));
    let tex = m.get_texture(&h);
    for y in 0..2usize {
        for x in 0..4usize {
            assert_eq!(tex.pixels[y * tex.pitch + x], (y * 4 + x + 1) as u8);
        }
    }
    // Bytes outside the allocation stay zero.
    assert_eq!(tex.pixels[4], 0);
}

#[test]
fn single_upload_with_a_source_rect_copies_only_that_part() {
    let mut m = AtlasManager::empty(0, Size::new(8, 8), fmt1()).unwrap();
    let src = Surface::new(
        fmt1(),
        Size::new(4, 2),
        4,
        vec![1, 2, 3, 4, 5, 6, 7, 8],
    )
    .unwrap();
    let h = m
        .allocate_then_copy_surface(&src, Some(Rect::new(1, 1, 2, 1)))
        .unwrap();
    assert_eq!(h.rect, Rect::new(0, 0, 2, 1));
    let tex = m.get_texture(&h);
    assert_eq!(tex.pixels[0], 6);
    assert_eq!(tex.pixels[1], 7);
    assert_eq!(tex.pixels[2], 0);
}

#[test]
fn single_upload_rejects_a_format_mismatch() {
    let mut m = AtlasManager::empty(0, Size::new(8, 8), fmt4()).unwrap();
    let src = filled_surface(4, 2, 9);
    let r = m.allocate_then_copy_surface(&src, None);
    assert!(matches!(r, Err(SdlError::SdlError(_))));
    assert_eq!(m.segment_count(), 1);
}

#[test]
fn batched_group_packs_three_sources_on_one_line() {
    let mut m = AtlasManager::empty(0, Size::new(32, 32), fmt1()).unwrap();
    let sources = vec![
        filled_surface(8, 8, 0xAA),
        filled_surface(8, 8, 0xBB),
        filled_surface(8, 8, 0xCC),
    ];
    let results = m.allocate_then_copy_surfaces(&sources);
    assert_eq!(results.len(), 3);
    let handles: Vec<_> = results
        .iter()
        .map(|r| *r.as_ref().unwrap())
        .collect();
    assert_eq!(handles[0].rect, Rect::new(0, 0, 8, 8));
    assert_eq!(handles[1].rect, Rect::new(8, 0, 8, 8));
    assert_eq!(handles[2].rect, Rect::new(16, 0, 8, 8));
    assert!(handles.iter().all(|h| h.index == 1));

    // The whole group is covered by one bounding rectangle, the region a
    // backend would lock once.
    let rects: Vec<Rect> = handles.iter().map(|h| h.rect).collect();
    assert_eq!(bounding_rect(&rects), Some(Rect::new(0, 0, 24, 8)));

    let tex = m.get_texture(&handles[0]);
    let values = [0xAAu8, 0xBB, 0xCC];
    for (which, h) in handles.iter().enumerate() {
        for y in 0..8usize {
            for x in 0..8usize {
                let row = h.rect.position.y as usize + y;
                let col = h.rect.position.x as usize + x;
                assert_eq!(tex.pixels[row * tex.pitch + col], values[which]);
            }
        }
    }
}

#[test]
fn batched_upload_isolates_a_format_mismatch() {
    let mut m = AtlasManager::empty(0, Size::new(32, 32), fmt1()).unwrap();
    let good = filled_surface(8, 8, 1);
    let bad = Surface::new(fmt4(), Size::new(2, 2), 8, vec![0u8; 16]).unwrap();
    let sources = vec![good, bad];
    let results = m.allocate_then_copy_surfaces(&sources);
    assert_eq!(results.len(), 2);
    assert!(results[0].is_ok());
    assert!(matches!(&results[1], Err(SdlError::SdlError(_))));
    // No allocation happened for the mismatched source: the cursor only
    // advanced past the first one.
    let h = results[0].as_ref().unwrap();
    let (pen, _) = m.get_texture_segment(h).cursor();
    assert_eq!(pen, Point::new(8, 0));
}

#[test]
fn bounding_rect_of_nothing_is_none() {
    assert_eq!(bounding_rect(&Vec::new()), None);
}

#[test]
fn bounding_rect_covers_scattered_rects() {
    let rects = vec![
        Rect::new(4, 6, 2, 2),
        Rect::new(1, 9, 3, 1),
        Rect::new(5, 2, 4, 3),
    ];
    assert_eq!(bounding_rect(&rects), Some(Rect::new(1, 2, 8, 8)));
}

#[test]
fn static_segment_never_allocates() {
    let texture = Texture::create(fmt1(), Size::new(16, 16)).unwrap();
    let mut seg = AtlasSegment::new_static(texture);
    assert_eq!(seg.allocate(Size::new(1, 1)), None);
    assert_eq!(seg.allocate_with_padding(Size::new(1, 1), 2), None);
}

#[test]
fn dynamic_segment_packs_along_the_current_line() {
    let texture = Texture::create(fmt1(), Size::new(8, 8)).unwrap();
    let mut seg = AtlasSegment::new_dynamic(texture);
    assert_eq!(seg.allocate(Size::new(3, 3)), Some(Point::new(0, 0)));
    assert_eq!(seg.allocate(Size::new(3, 2)), Some(Point::new(3, 0)));
    let (pen, line_height) = seg.cursor();
    assert_eq!(pen, Point::new(6, 0));
    assert_eq!(line_height, 3);
    // The next request no longer fits the line and opens a new one below.
    assert_eq!(seg.allocate(Size::new(4, 4)), Some(Point::new(0, 3)));
    // A request taller than the remaining space fails and moves nothing.
    assert_eq!(seg.allocate(Size::new(1, 8)), None);
    assert_eq!(seg.cursor().0, Point::new(4, 3));
}

#[test]
fn padded_segment_allocation_returns_the_inner_origin() {
    let texture = Texture::create(fmt1(), Size::new(16, 16)).unwrap();
    let mut seg = AtlasSegment::new_dynamic(texture);
    assert_eq!(
        seg.allocate_with_padding(Size::new(4, 4), 2),
        Some(Point::new(2, 2))
    );
    // The padded footprint is 8 wide, so the next inner origin is at 10.
    assert_eq!(
        seg.allocate_with_padding(Size::new(4, 4), 2),
        Some(Point::new(10, 2))
    );
}

#[test]
fn grown_segment_takes_smaller_follow_up_allocations() {
    let mut m = AtlasManager::empty(0, Size::new(16, 16), fmt4()).unwrap();
    let big = m.allocate(Size::new(40, 8)).unwrap();
    assert_eq!(big.index, 2);
    assert_eq!(m.get_texture(&big).size(), Size::new(40, 16));
    // A later small request lands in the grown segment, not a third one.
    let small = m.allocate(Size::new(4, 4)).unwrap();
    assert_eq!(small.index, 2);
    assert_eq!(small.rect, Rect::new(0, 8, 4, 4));
    assert_eq!(m.segment_count(), 2);
}

#[test]
fn empty_manager_rejects_an_unsupported_format() {
    let r = AtlasManager::empty(0, Size::new(8, 8), PixelFormat::new(0x3231_5659));
    assert!(matches!(r, Err(SdlError::SdlError(_))));
}
