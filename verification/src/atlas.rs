//! The atlas: shelf-packing segments and the manager that owns them.
//!
//! A segment is one texture plus a packing cursor. Allocation walks left to
//! right along a current line; when the line is full a new line opens below
//! it; when the segment is full the manager spills to a new segment. Nothing
//! is ever freed, so every handle stays valid for the manager's life.

use vstd::prelude::*;

use crate::blit::{blitted, copy_pixels, in_region, region_byte};
use crate::error::SdlError;
use crate::geom::{
    rect_in_bounds, rect_within, rects_overlap, sat_add, spec_max_dimension, spec_outset, Point,
    PointUnit, Rect, Size,
};
use crate::pixel::{format_supported, spec_bpp_of, PixelFormat};
use crate::surface::{lemma_surface_region_in_bounds, Surface};
use crate::texture::{lemma_texture_region_in_bounds, texture_creatable, Texture};

verus! {

/// One atlas segment. A `Static` segment is reserved for externally provided
/// content and is never allocated into; a `Dynamic` segment carries the
/// shelf-packing cursor. The ghost `allocs` field records every rectangle
/// handed out of the segment, padding included.
pub enum AtlasSegment {
    Static(Texture),
    Dynamic {
        texture: Texture,
        current_position: Point,
        current_line_height: PointUnit,
        allocs: Ghost<Seq<Rect>>,
    },
}

/// The shelf-packing step on a segment of the given size: either the origin
/// where the request lands together with the new cursor, or nothing when the
/// request cannot fit. Mirrors the executable step exactly.
pub open spec fn shelf_fit(size: Size, pen: Point, line_height: PointUnit, req: Size) -> Option<
    (Point, Point, PointUnit),
> {
    let wi = size.width as int;
    let hi = size.height as int;
    let px = pen.x as int;
    let py = pen.y as int;
    let lh = line_height as int;
    let rw = req.width as int;
    let rh = req.height as int;
    if rh > hi || rw > wi {
        None
    } else if sat_add(py, rh) > hi {
        None
    } else if sat_add(px, rw) <= wi {
        Some(
            (
                pen,
                Point { x: sat_add(px, rw) as u32, y: pen.y },
                if lh >= rh {
                    line_height
                } else {
                    req.height
                },
            ),
        )
    } else {
        let py2 = sat_add(py, lh);
        if sat_add(py2, rh) > hi {
            None
        } else {
            Some((Point { x: 0, y: py2 as u32 }, Point { x: req.width, y: py2 as u32 }, req.height))
        }
    }
}

/// Whether a recorded rectangle is compatible with the cursor: it lies fully
/// above the current line, or on the current line left of the pen.
pub open spec fn shelf_placed(r: Rect, pen: Point, line_height: PointUnit) -> bool {
    ||| r.position.y + r.size.height <= pen.y
    ||| {
        &&& r.position.y >= pen.y
        &&& r.position.y + r.size.height <= pen.y + line_height
        &&& r.position.x + r.size.width <= pen.x
    }
}

/// The segment invariant over the cursor and the recorded rectangles:
/// the cursor stays inside the texture, every recorded rectangle lies in
/// bounds and respects the cursor, no two recorded rectangles overlap, and a
/// segment holding any rectangle of positive area no longer looks untouched.
pub open spec fn seg_wf(size: Size, pen: Point, line_height: PointUnit, allocs: Seq<Rect>) -> bool {
    &&& size.width < u32::MAX
    &&& size.height < u32::MAX
    &&& pen.x <= size.width
    &&& pen.y + line_height <= size.height
    &&& forall|i: int| 0 <= i < allocs.len() ==> rect_in_bounds(#[trigger] allocs[i], size)
    &&& forall|i: int|
        0 <= i < allocs.len() ==> shelf_placed(#[trigger] allocs[i], pen, line_height)
    &&& forall|i: int, j: int|
        0 <= i < j < allocs.len() ==> !rects_overlap(#[trigger] allocs[i], #[trigger] allocs[j])
    &&& (exists|i: int|
        0 <= i < allocs.len() && (#[trigger] allocs[i]).size.width > 0 && allocs[i].size.height > 0)
        ==> (pen.y > 0 || (pen.x > 0 && line_height > 0))
}

impl AtlasSegment {
    /// The texture the segment draws from.
    pub open spec fn spec_texture(self) -> Texture {
        match self {
            AtlasSegment::Static(t) => t,
            AtlasSegment::Dynamic { texture, .. } => texture,
        }
    }

    pub open spec fn is_dynamic(self) -> bool {
        self matches AtlasSegment::Dynamic { .. }
    }

    /// The pen of a dynamic segment.
    pub open spec fn spec_pen(self) -> Point {
        match self {
            AtlasSegment::Static(_) => Point { x: 0, y: 0 },
            AtlasSegment::Dynamic { current_position, .. } => current_position,
        }
    }

    /// The current line height of a dynamic segment.
    pub open spec fn spec_line_height(self) -> PointUnit {
        match self {
            AtlasSegment::Static(_) => 0,
            AtlasSegment::Dynamic { current_line_height, .. } => current_line_height,
        }
    }

    /// The rectangles handed out of the segment, padding included.
    pub open spec fn spec_allocs(self) -> Seq<Rect> {
        match self {
            AtlasSegment::Static(_) => Seq::empty(),
            AtlasSegment::Dynamic { allocs, .. } => allocs@,
        }
    }

    /// Well-formedness: the texture is coherent and, for a dynamic segment,
    /// the cursor and the recorded rectangles satisfy the segment invariant.
    pub open spec fn wf(self) -> bool {
        &&& self.spec_texture().wf()
        &&& self.is_dynamic() ==> seg_wf(
            self.spec_texture().size,
            self.spec_pen(),
            self.spec_line_height(),
            self.spec_allocs(),
        )
    }

    /// What allocation would answer: the landing point and new cursor on a
    /// dynamic segment, nothing on a static one.
    pub open spec fn spec_fit(self, req: Size) -> Option<(Point, Point, PointUnit)> {
        match self {
            AtlasSegment::Static(_) => None,
            AtlasSegment::Dynamic { texture, current_position, current_line_height, .. } =>
                shelf_fit(texture.size, current_position, current_line_height, req),
        }
    }
}

/// A successful shelf step keeps the segment invariant: the new rectangle is
/// in bounds, overlaps no recorded rectangle, and the moved cursor covers it.
proof fn lemma_shelf_fit_preserves(
    size: Size,
    pen: Point,
    line_height: PointUnit,
    allocs: Seq<Rect>,
    req: Size,
    origin: Point,
    pen2: Point,
    lh2: PointUnit,
)
    requires
        seg_wf(size, pen, line_height, allocs),
        shelf_fit(size, pen, line_height, req) == Some((origin, pen2, lh2)),
    ensures
        seg_wf(size, pen2, lh2, allocs.push(Rect { position: origin, size: req })),
{
    let nr = Rect { position: origin, size: req };
    let pushed = allocs.push(nr);
    assert(rect_in_bounds(nr, size));
    assert(shelf_placed(nr, pen2, lh2));
    assert forall|i: int| 0 <= i < allocs.len() implies shelf_placed(
        #[trigger] allocs[i],
        pen2,
        lh2,
    ) && !rects_overlap(allocs[i], nr) by {
        assert(shelf_placed(allocs[i], pen, line_height));
    }
    assert forall|i: int, j: int| 0 <= i < j < pushed.len() implies !rects_overlap(
        #[trigger] pushed[i],
        #[trigger] pushed[j],
    ) by {
        if j < allocs.len() {
            assert(!rects_overlap(allocs[i], allocs[j]));
        } else {
            assert(pushed[j] == nr);
            assert(!rects_overlap(allocs[i], nr));
        }
    }
    assert forall|i: int| 0 <= i < pushed.len() implies rect_in_bounds(
        #[trigger] pushed[i],
        size,
    ) && shelf_placed(pushed[i], pen2, lh2) by {
        if i < allocs.len() {
            assert(rect_in_bounds(allocs[i], size));
            assert(shelf_placed(allocs[i], pen2, lh2));
        }
    }
}

/// The executable shelf-packing step; pure, on plain values.
fn shelf_alloc(size: Size, pen: Point, line_height: PointUnit, req: Size) -> (r: Option<
    (Point, Point, PointUnit),
>)
    ensures
        r == shelf_fit(size, pen, line_height, req),
{
    if req.height > size.height || req.width > size.width {
        return None;
    }
    if pen.y.saturating_add(req.height) > size.height {
        return None;
    }
    if pen.x.saturating_add(req.width) <= size.width {
        let new_lh = if line_height >= req.height {
            line_height
        } else {
            req.height
        };
        return Some(
            (pen, Point { x: pen.x.saturating_add(req.width), y: pen.y }, new_lh),
        );
    }
    let py2 = pen.y.saturating_add(line_height);
    if py2.saturating_add(req.height) > size.height {
        return None;
    }
    Some((Point { x: 0, y: py2 }, Point { x: req.width, y: py2 }, req.height))
}

impl AtlasSegment {
    /// A fresh dynamic segment over `texture`, with its cursor at the
    /// origin and nothing allocated yet.
    pub fn new_dynamic(texture: Texture) -> (s: AtlasSegment)
        requires
            texture.wf(),
        ensures
            s.wf(),
            s.is_dynamic(),
            s.spec_texture() == texture,
            s.spec_pen() == (Point { x: 0, y: 0 }),
            s.spec_line_height() == 0,
            s.spec_allocs() == Seq::<Rect>::empty(),
    {
        AtlasSegment::Dynamic {
            texture,
            current_position: Point { x: 0, y: 0 },
            current_line_height: 0,
            allocs: Ghost(Seq::empty()),
        }
    }

    /// A static segment over `texture`: reserved content that allocation
    /// never touches.
    pub fn new_static(texture: Texture) -> (s: AtlasSegment)
        requires
            texture.wf(),
        ensures
            s.wf(),
            !s.is_dynamic(),
            s.spec_texture() == texture,
    {
        AtlasSegment::Static(texture)
    }

    /// Try to place `request` in the segment. On success the cursor moves so
    /// that no later allocation can collide with the returned rectangle; on
    /// failure the segment is untouched. A static segment always fails.
    pub fn allocate(&mut self, request: Size) -> (r: Option<Point>)
        requires
            old(self).wf(),
        ensures
            final(self).wf(),
            final(self).spec_texture() == old(self).spec_texture(),
            final(self).is_dynamic() == old(self).is_dynamic(),
            match old(self).spec_fit(request) {
                Some((origin, pen2, lh2)) => {
                    &&& r == Some(origin)
                    &&& final(self).spec_pen() == pen2
                    &&& final(self).spec_line_height() == lh2
                    &&& final(self).spec_allocs() == old(self).spec_allocs().push(
                        Rect { position: origin, size: request },
                    )
                },
                None => {
                    &&& r is None
                    &&& *final(self) == *old(self)
                },
            },
    {
        match self {
            AtlasSegment::Static(_) => None,
            AtlasSegment::Dynamic { texture, current_position, current_line_height, allocs } => {
                match shelf_alloc(texture.size, *current_position, *current_line_height, request) {
                    None => None,
                    Some((origin, new_pen, new_lh)) => {
                        proof {
                            lemma_shelf_fit_preserves(
                                texture.size,
                                *current_position,
                                *current_line_height,
                                allocs@,
                                request,
                                origin,
                                new_pen,
                                new_lh,
                            );
                        }
                        *current_position = new_pen;
                        *current_line_height = new_lh;
                        *allocs = Ghost(allocs@.push(Rect { position: origin, size: request }));
                        Some(origin)
                    },
                }
            },
        }
    }

    /// Place `request` grown by `padding` on every side, and return the
    /// origin of the inner, unpadded rectangle.
    pub fn allocate_with_padding(&mut self, request: Size, padding: PointUnit) -> (r: Option<
        Point,
    >)
        requires
            old(self).wf(),
        ensures
            final(self).wf(),
            final(self).spec_texture() == old(self).spec_texture(),
            final(self).is_dynamic() == old(self).is_dynamic(),
            match old(self).spec_fit(spec_outset(request, padding)) {
                Some((origin, pen2, lh2)) => {
                    &&& r == Some(
                        Point {
                            x: sat_add(origin.x as int, padding as int) as u32,
                            y: sat_add(origin.y as int, padding as int) as u32,
                        },
                    )
                    &&& final(self).spec_pen() == pen2
                    &&& final(self).spec_line_height() == lh2
                    &&& final(self).spec_allocs() == old(self).spec_allocs().push(
                        Rect { position: origin, size: spec_outset(request, padding) },
                    )
                },
                None => {
                    &&& r is None
                    &&& *final(self) == *old(self)
                },
            },
    {
        let padded = request.outset(padding);
        match self.allocate(padded) {
            None => None,
            Some(origin) => Some(
                Point {
                    x: origin.x.saturating_add(padding),
                    y: origin.y.saturating_add(padding),
                },
            ),
        }
    }

    /// The packing cursor: the pen position and the current line height.
    /// A static segment has no cursor and reports the origin.
    pub fn cursor(&self) -> (r: (Point, PointUnit))
        ensures
            r.0 == self.spec_pen(),
            r.1 == self.spec_line_height(),
    {
        match self {
            AtlasSegment::Static(_) => (Point { x: 0, y: 0 }, 0),
            AtlasSegment::Dynamic { current_position, current_line_height, .. } => (
                *current_position,
                *current_line_height,
            ),
        }
    }
}

/// A handle to one allocation: a one-based segment index (so that zero can
/// serve as "no handle") and the inner rectangle the caller owns inside that
/// segment's texture.
#[derive(Debug, Clone, Copy, PartialEq, Eq, Hash, Structural)]
pub struct TextureHandle {
    pub index: u32,
    pub rect: Rect,
}

/// The origin of the inner rectangle for an allocation landing at `origin`.
pub open spec fn inner_origin(origin: Point, padding: PointUnit) -> Point {
    Point {
        x: sat_add(origin.x as int, padding as int) as u32,
        y: sat_add(origin.y as int, padding as int) as u32,
    }
}

/// Rectangles inside disjoint rectangles are themselves disjoint.
pub proof fn lemma_within_preserves_disjoint(i1: Rect, o1: Rect, i2: Rect, o2: Rect)
    requires
        rect_within(i1, o1),
        rect_within(i2, o2),
        !rects_overlap(o1, o2),
    ensures
        !rects_overlap(i1, i2),
{
}

/// The inner rectangle of an allocation sits inside its padded rectangle,
/// and so inside any bounds the padded rectangle fits (bounds that stay
/// below the coordinate unit's saturation point).
pub proof fn lemma_inner_rect_in_bounds(
    origin: Point,
    request: Size,
    padding: PointUnit,
    bounds: Size,
)
    requires
        rect_in_bounds(Rect { position: origin, size: spec_outset(request, padding) }, bounds),
        bounds.width < u32::MAX,
        bounds.height < u32::MAX,
    ensures
        rect_within(
            Rect { position: inner_origin(origin, padding), size: request },
            Rect { position: origin, size: spec_outset(request, padding) },
        ),
        rect_in_bounds(
            Rect { position: inner_origin(origin, padding), size: request },
            bounds,
        ),
{
}

/// The atlas manager: an append-only sequence of segments, the index of the
/// segment new allocations try first, and the allocation policy constants.
pub struct AtlasManager {
    segments: Vec<AtlasSegment>,
    current_index: usize,
    padding: PointUnit,
    default_size: Size,
    pixel_format: PixelFormat,
}

/// The mathematical state of a manager.
pub struct AtlasView {
    pub segments: Seq<AtlasSegment>,
    pub current_index: int,
    pub padding: PointUnit,
    pub default_size: Size,
    pub pixel_format: PixelFormat,
}

impl View for AtlasManager {
    type V = AtlasView;

    closed spec fn view(&self) -> AtlasView {
        AtlasView {
            segments: self.segments@,
            current_index: self.current_index as int,
            padding: self.padding,
            default_size: self.default_size,
            pixel_format: self.pixel_format,
        }
    }
}

/// Whether the allocation policy constants of two manager states agree.
pub open spec fn same_config(a: AtlasView, b: AtlasView) -> bool {
    &&& a.padding == b.padding
    &&& a.default_size == b.default_size
    &&& a.pixel_format == b.pixel_format
}

/// Segments are append-only: every segment of `a` still stands in `b` with
/// the same texture size, kind and format, and with every allocation it
/// already carried.
pub open spec fn segments_preserved(a: AtlasView, b: AtlasView) -> bool {
    &&& b.segments.len() >= a.segments.len()
    &&& forall|i: int|
        0 <= i < a.segments.len() ==> {
            &&& (#[trigger] b.segments[i]).spec_texture().size == a.segments[i].spec_texture().size
            &&& b.segments[i].spec_texture().format == a.segments[i].spec_texture().format
            &&& b.segments[i].is_dynamic() == a.segments[i].is_dynamic()
            &&& a.segments[i].spec_allocs().is_prefix_of(b.segments[i].spec_allocs())
        }
}

/// What one allocation does: how the state `post` and the answer `r` follow
/// from the state `pre` and the request. Either the padded request fits the
/// current segment, whose cursor then moves; or a new segment sized for the
/// padded request (at least the default size) is appended and holds it; or
/// that segment cannot come to be and the state is unchanged.
pub open spec fn alloc_outcome(
    pre: AtlasView,
    post: AtlasView,
    request: Size,
    r: Result<TextureHandle, SdlError>,
) -> bool {
    let cur = pre.segments[pre.current_index];
    let padded = spec_outset(request, pre.padding);
    let grow = spec_max_dimension(pre.default_size, padded);
    match cur.spec_fit(padded) {
        Some((origin, pen2, lh2)) => r matches Ok(h) && {
            &&& h.index as int == pre.current_index + 1
            &&& h.rect == (Rect { position: inner_origin(origin, pre.padding), size: request })
            &&& post.segments.len() == pre.segments.len()
            &&& post.current_index == pre.current_index
            &&& post.segments[pre.current_index].spec_pen() == pen2
            &&& post.segments[pre.current_index].spec_line_height() == lh2
            &&& post.segments[pre.current_index].spec_allocs() == cur.spec_allocs().push(
                (Rect { position: origin, size: padded }),
            )
            &&& forall|i: int|
                0 <= i < pre.segments.len() && i != pre.current_index ==> post.segments[i]
                    == #[trigger] pre.segments[i]
        },
        None => {
            if texture_creatable(pre.pixel_format, grow) && pre.segments.len() < u32::MAX {
                r matches Ok(h) && {
                    &&& h.index as int == pre.segments.len() + 1
                    &&& h.rect == (Rect {
                        position: inner_origin(Point { x: 0, y: 0 }, pre.padding),
                        size: request,
                    })
                    &&& post.segments.len() == pre.segments.len() + 1
                    &&& post.current_index == pre.segments.len()
                    &&& forall|i: int|
                        0 <= i < pre.segments.len() ==> post.segments[i] == #[trigger] pre.segments[i]
                    &&& post.segments[pre.segments.len() as int].is_dynamic()
                    &&& post.segments[pre.segments.len() as int].spec_texture().size == grow
                    &&& post.segments[pre.segments.len() as int].spec_pen() == (Point {
                        x: padded.width,
                        y: 0,
                    })
                    &&& post.segments[pre.segments.len() as int].spec_line_height() == padded.height
                    &&& post.segments[pre.segments.len() as int].spec_allocs()
                        == Seq::<Rect>::empty().push(
                        (Rect { position: Point { x: 0, y: 0 }, size: padded }),
                    )
                }
            } else {
                r matches Err(e) && {
                    &&& post == pre
                    &&& (!texture_creatable(pre.pixel_format, grow) ==> (e matches SdlError::SdlError(_)))
                    &&& (texture_creatable(pre.pixel_format, grow) ==> e == SdlError::TryFromIntError)
                }
            }
        },
    }
}

/// One segment's allocation state: everything the packing algorithm reads
/// and writes, with the pixel bytes left out.
pub struct SegState {
    pub is_dynamic: bool,
    pub size: Size,
    pub pen: Point,
    pub line_height: PointUnit,
    pub allocs: Seq<Rect>,
}

/// The manager's allocation state: the segments' packing states and the
/// allocation policy, with the pixel bytes left out. Unlike `AtlasView`
/// this state can be computed forward in specifications, so a batch can be
/// specified as a fold of single allocations.
pub struct AllocState {
    pub segments: Seq<SegState>,
    pub current_index: int,
    pub padding: PointUnit,
    pub default_size: Size,
    pub pixel_format: PixelFormat,
}

pub open spec fn seg_state_of(s: AtlasSegment) -> SegState {
    SegState {
        is_dynamic: s.is_dynamic(),
        size: s.spec_texture().size,
        pen: s.spec_pen(),
        line_height: s.spec_line_height(),
        allocs: s.spec_allocs(),
    }
}

pub open spec fn alloc_state_of(v: AtlasView) -> AllocState {
    AllocState {
        segments: Seq::new(v.segments.len(), |i: int| seg_state_of(v.segments[i])),
        current_index: v.current_index,
        padding: v.padding,
        default_size: v.default_size,
        pixel_format: v.pixel_format,
    }
}

/// The allocation state after one allocation of `request`: the current
/// segment's cursor moves when the padded request fits it; otherwise a
/// sized segment is appended when it can be created; otherwise nothing
/// changes.
pub open spec fn state_after_alloc(st: AllocState, request: Size) -> AllocState {
    let padded = spec_outset(request, st.padding);
    let grow = spec_max_dimension(st.default_size, padded);
    let cur = st.segments[st.current_index];
    let fit = if cur.is_dynamic {
        shelf_fit(cur.size, cur.pen, cur.line_height, padded)
    } else {
        None
    };
    match fit {
        Some((origin, pen2, lh2)) => AllocState {
            segments: st.segments.update(
                st.current_index,
                SegState {
                    is_dynamic: cur.is_dynamic,
                    size: cur.size,
                    pen: pen2,
                    line_height: lh2,
                    allocs: cur.allocs.push(Rect { position: origin, size: padded }),
                },
            ),
            current_index: st.current_index,
            padding: st.padding,
            default_size: st.default_size,
            pixel_format: st.pixel_format,
        },
        None => {
            if texture_creatable(st.pixel_format, grow) && st.segments.len() < u32::MAX {
                AllocState {
                    segments: st.segments.push(
                        SegState {
                            is_dynamic: true,
                            size: grow,
                            pen: Point { x: padded.width, y: 0 },
                            line_height: padded.height,
                            allocs: Seq::<Rect>::empty().push(
                                Rect { position: Point { x: 0, y: 0 }, size: padded },
                            ),
                        },
                    ),
                    current_index: st.segments.len() as int,
                    padding: st.padding,
                    default_size: st.default_size,
                    pixel_format: st.pixel_format,
                }
            } else {
                st
            }
        },
    }
}

/// The handle one allocation of `request` answers with, or nothing when it
/// fails.
pub open spec fn alloc_handle(st: AllocState, request: Size) -> Option<TextureHandle> {
    let padded = spec_outset(request, st.padding);
    let grow = spec_max_dimension(st.default_size, padded);
    let cur = st.segments[st.current_index];
    let fit = if cur.is_dynamic {
        shelf_fit(cur.size, cur.pen, cur.line_height, padded)
    } else {
        None
    };
    match fit {
        Some((origin, _, _)) => Some(
            TextureHandle {
                index: (st.current_index + 1) as u32,
                rect: Rect { position: inner_origin(origin, st.padding), size: request },
            },
        ),
        None => {
            if texture_creatable(st.pixel_format, grow) && st.segments.len() < u32::MAX {
                Some(
                    TextureHandle {
                        index: (st.segments.len() + 1) as u32,
                        rect: Rect {
                            position: inner_origin(Point { x: 0, y: 0 }, st.padding),
                            size: request,
                        },
                    },
                )
            } else {
                None
            }
        },
    }
}

/// The allocation state after the batched upload's allocation pass has
/// worked through the first `j` sources, in source order: a source whose
/// format does not match the manager's is skipped, every other one goes
/// through a single allocation.
pub open spec fn batch_state(st0: AllocState, sources: Seq<Surface>, j: int) -> AllocState
    decreases j,
{
    if j <= 0 {
        st0
    } else {
        let prev = batch_state(st0, sources, j - 1);
        if sources[j - 1].format == st0.pixel_format {
            state_after_alloc(prev, sources[j - 1].size)
        } else {
            prev
        }
    }
}

/// The handle the batched upload's slot `j` ends with, or nothing when
/// that slot fails (a format mismatch, or an allocation failure against
/// the state left by the sources before it).
pub open spec fn batch_slot(st0: AllocState, sources: Seq<Surface>, j: int) -> Option<
    TextureHandle,
> {
    if sources[j].format == st0.pixel_format {
        alloc_handle(batch_state(st0, sources, j), sources[j].size)
    } else {
        None
    }
}

/// One allocation's outcome, read at the allocation-state level: the state
/// moves by `state_after_alloc`, and the answer is `alloc_handle` or an
/// error.
proof fn lemma_alloc_outcome_matches_state(
    pre: AtlasView,
    post: AtlasView,
    request: Size,
    r: Result<TextureHandle, SdlError>,
)
    requires
        0 <= pre.current_index < pre.segments.len(),
        pre.segments[pre.current_index].is_dynamic(),
        alloc_outcome(pre, post, request, r),
        same_config(pre, post),
        post.segments.len() >= pre.segments.len(),
        forall|i: int|
            0 <= i < pre.segments.len() ==> {
                &&& (#[trigger] post.segments[i]).spec_texture().size == pre.segments[
                    i
                ].spec_texture().size
                &&& post.segments[i].is_dynamic() == pre.segments[i].is_dynamic()
            },
    ensures
        alloc_state_of(post) == state_after_alloc(alloc_state_of(pre), request),
        (match alloc_handle(alloc_state_of(pre), request) {
            Some(h) => r == Result::<TextureHandle, SdlError>::Ok(h),
            None => r is Err,
        }),
{
    let sta = alloc_state_of(pre);
    let stb = alloc_state_of(post);
    let step = state_after_alloc(sta, request);
    let padded = spec_outset(request, pre.padding);
    let cur = pre.segments[pre.current_index];
    match cur.spec_fit(padded) {
        Some((origin, pen2, lh2)) => {
            assert forall|i: int| 0 <= i < stb.segments.len() implies stb.segments[i]
                == step.segments[i] by {
                if i != pre.current_index {
                    assert(post.segments[i] == pre.segments[i]);
                }
            }
            assert(stb.segments =~= step.segments);
            assert(stb == step);
        },
        None => {
            let grow = spec_max_dimension(pre.default_size, padded);
            if texture_creatable(pre.pixel_format, grow) && pre.segments.len() < u32::MAX {
                assert forall|i: int| 0 <= i < stb.segments.len() implies stb.segments[i]
                    == step.segments[i] by {
                    if i < pre.segments.len() {
                        assert(post.segments[i] == pre.segments[i]);
                    }
                }
                assert(stb.segments =~= step.segments);
                assert(stb == step);
            } else {
                assert(post == pre);
                assert(stb.segments =~= step.segments);
                assert(stb == step);
            }
        },
    }
}

/// Law: two distinct rectangles recorded on one segment never overlap, and
/// neither do any rectangles lying within them — in particular the inner
/// rectangles that handles carry.
pub proof fn lemma_allocations_disjoint(
    m: AtlasManager,
    t: int,
    a1: int,
    a2: int,
    r1: Rect,
    r2: Rect,
)
    requires
        m.wf(),
        0 <= t < m@.segments.len(),
        0 <= a1 < m@.segments[t].spec_allocs().len(),
        0 <= a2 < m@.segments[t].spec_allocs().len(),
        a1 != a2,
        rect_within(r1, m@.segments[t].spec_allocs()[a1]),
        rect_within(r2, m@.segments[t].spec_allocs()[a2]),
    ensures
        !rects_overlap(m@.segments[t].spec_allocs()[a1], m@.segments[t].spec_allocs()[a2]),
        !rects_overlap(r1, r2),
{
    let allocs = m@.segments[t].spec_allocs();
    if a1 < a2 {
        assert(!rects_overlap(allocs[a1], allocs[a2]));
    } else {
        assert(!rects_overlap(allocs[a2], allocs[a1]));
    }
    lemma_within_preserves_disjoint(r1, allocs[a1], r2, allocs[a2]);
}

/// Law: every rectangle recorded on a segment lies, padding included,
/// within that segment's texture bounds.
pub proof fn lemma_allocations_in_bounds(m: AtlasManager, t: int, a: int)
    requires
        m.wf(),
        0 <= t < m@.segments.len(),
        0 <= a < m@.segments[t].spec_allocs().len(),
    ensures
        rect_in_bounds(m@.segments[t].spec_allocs()[a], m@.segments[t].spec_texture().size),
{
}

/// Law: a handle valid for one manager state stays valid, and names a
/// segment of the same size, in every later state — segments are only ever
/// appended, never resized or removed.
pub proof fn lemma_handle_stays_valid(a: AtlasView, b: AtlasView, h: TextureHandle)
    requires
        segments_preserved(a, b),
        1 <= h.index,
        h.index as int <= a.segments.len(),
    ensures
        h.index as int <= b.segments.len(),
        b.segments[h.index - 1].spec_texture().size == a.segments[h.index - 1].spec_texture().size,
{
}

/// Law: after a successful shelf step, the rectangle just placed overlaps
/// none of the rectangles recorded before it — the moved cursor shields
/// them all.
pub proof fn lemma_fresh_alloc_disjoint(
    size: Size,
    pen: Point,
    line_height: PointUnit,
    allocs: Seq<Rect>,
    req: Size,
)
    requires
        seg_wf(size, pen, line_height, allocs),
        shelf_fit(size, pen, line_height, req) is Some,
    ensures
        forall|i: int|
            0 <= i < allocs.len() ==> !rects_overlap(
                #[trigger] allocs[i],
                Rect {
                    position: shelf_fit(size, pen, line_height, req)->Some_0.0,
                    size: req,
                },
            ),
{
    let (origin, pen2, lh2) = shelf_fit(size, pen, line_height, req)->Some_0;
    lemma_shelf_fit_preserves(size, pen, line_height, allocs, req, origin, pen2, lh2);
    let pushed = allocs.push(Rect { position: origin, size: req });
    assert forall|i: int| 0 <= i < allocs.len() implies !rects_overlap(
        #[trigger] allocs[i],
        Rect { position: origin, size: req },
    ) by {
        assert(pushed[i] == allocs[i]);
        assert(pushed[allocs.len() as int] == (Rect { position: origin, size: req }));
        assert(!rects_overlap(pushed[i], pushed[allocs.len() as int]));
    }
}

/// Law: a segment spawned for a request is at least as large as the padded
/// request on both axes.
pub proof fn lemma_grown_segment_covers(default_size: Size, request: Size, padding: PointUnit)
    ensures
        spec_max_dimension(default_size, spec_outset(request, padding)).width >= spec_outset(
            request,
            padding,
        ).width,
        spec_max_dimension(default_size, spec_outset(request, padding)).height >= spec_outset(
            request,
            padding,
        ).height,
        spec_max_dimension(default_size, spec_outset(request, padding)).width
            >= default_size.width,
        spec_max_dimension(default_size, spec_outset(request, padding)).height
            >= default_size.height,
{
}

/// Law: a request of the segment's full size succeeds on an untouched
/// segment, landing at the origin.
pub proof fn lemma_full_request_empty_segment(size: Size)
    ensures
        shelf_fit(size, Point { x: 0, y: 0 }, 0, size) matches Some((origin, _, _)) && origin
            == (Point { x: 0, y: 0 }),
{
}

/// Law: a request of the segment's full size fails once the segment holds
/// any rectangle of positive area.
pub proof fn lemma_full_request_nonempty_segment(
    size: Size,
    pen: Point,
    line_height: PointUnit,
    allocs: Seq<Rect>,
    a: int,
)
    requires
        seg_wf(size, pen, line_height, allocs),
        0 <= a < allocs.len(),
        allocs[a].size.width > 0,
        allocs[a].size.height > 0,
        size.width > 0,
        size.height > 0,
    ensures
        shelf_fit(size, pen, line_height, size) is None,
{
    assert(pen.y > 0 || (pen.x > 0 && line_height > 0));
}

/// The smallest rectangle covering every rectangle of the list, or nothing
/// for an empty list. A rectangle's saturating right and bottom edges are
/// what must be covered. This is the region to lock when a group of
/// allocations on one segment is uploaded in one sweep.
pub fn bounding_rect(rects: &Vec<Rect>) -> (r: Option<Rect>)
    ensures
        (r is None) == (rects@.len() == 0),
        r matches Some(b) ==> {
            &&& forall|i: int|
                0 <= i < rects@.len() ==> {
                    &&& b.position.x <= (#[trigger] rects@[i]).position.x
                    &&& b.position.y <= rects@[i].position.y
                    &&& sat_add(rects@[i].position.x as int, rects@[i].size.width as int)
                        <= b.position.x + b.size.width
                    &&& sat_add(rects@[i].position.y as int, rects@[i].size.height as int)
                        <= b.position.y + b.size.height
                }
            &&& exists|i: int|
                0 <= i < rects@.len() && b.position.x == (#[trigger] rects@[i]).position.x
            &&& exists|i: int|
                0 <= i < rects@.len() && b.position.y == (#[trigger] rects@[i]).position.y
            &&& exists|i: int|
                0 <= i < rects@.len() && b.position.x + b.size.width == sat_add(
                    (#[trigger] rects@[i]).position.x as int,
                    rects@[i].size.width as int,
                )
            &&& exists|i: int|
                0 <= i < rects@.len() && b.position.y + b.size.height == sat_add(
                    (#[trigger] rects@[i]).position.y as int,
                    rects@[i].size.height as int,
                )
        },
{
    if rects.len() == 0 {
        return None;
    }
    let mut min_x: PointUnit = rects[0].position.x;
    let mut min_y: PointUnit = rects[0].position.y;
    let mut max_x: PointUnit = rects[0].position.x.saturating_add(rects[0].size.width);
    let mut max_y: PointUnit = rects[0].position.y.saturating_add(rects[0].size.height);
    let mut i: usize = 1;
    while i < rects.len()
        invariant
            1 <= i <= rects@.len(),
            forall|j: int|
                0 <= j < i ==> {
                    &&& min_x <= (#[trigger] rects@[j]).position.x
                    &&& min_y <= rects@[j].position.y
                    &&& sat_add(rects@[j].position.x as int, rects@[j].size.width as int) <= max_x
                    &&& sat_add(rects@[j].position.y as int, rects@[j].size.height as int) <= max_y
                },
            exists|j: int| 0 <= j < i && min_x == (#[trigger] rects@[j]).position.x,
            exists|j: int| 0 <= j < i && min_y == (#[trigger] rects@[j]).position.y,
            exists|j: int|
                0 <= j < i && max_x == sat_add(
                    (#[trigger] rects@[j]).position.x as int,
                    rects@[j].size.width as int,
                ),
            exists|j: int|
                0 <= j < i && max_y == sat_add(
                    (#[trigger] rects@[j]).position.y as int,
                    rects@[j].size.height as int,
                ),
        decreases rects@.len() - i,
    {
        let r = rects[i];
        if r.position.x < min_x {
            min_x = r.position.x;
        }
        if r.position.y < min_y {
            min_y = r.position.y;
        }
        let right = r.position.x.saturating_add(r.size.width);
        if right > max_x {
            max_x = right;
        }
        let bottom = r.position.y.saturating_add(r.size.height);
        if bottom > max_y {
            max_y = bottom;
        }
        i = i + 1;
    }
    Some(Rect { position: Point { x: min_x, y: min_y }, size: Size { width: max_x - min_x, height: max_y - min_y } })
}

/// What one slot of a batched upload promises when the source's format does
/// not match the manager's: that slot fails with a backend error.
pub open spec fn mismatch_err(
    src: Surface,
    fmt: PixelFormat,
    r: Result<TextureHandle, SdlError>,
) -> bool {
    src.format != fmt ==> (r matches Err(e) && (e matches SdlError::SdlError(_)))
}

/// What a successful slot of a batched upload promises: a handle naming a
/// dynamic segment, the source's size as its inner rectangle, and a matching
/// padded rectangle recorded in that segment.
pub open spec fn ok_slot(
    post: AtlasView,
    src: Surface,
    r: Result<TextureHandle, SdlError>,
) -> bool {
    r matches Ok(h) ==> {
        &&& src.format == post.pixel_format
        &&& 1 <= h.index
        &&& h.index as int <= post.segments.len()
        &&& post.segments[h.index - 1].is_dynamic()
        &&& h.rect.size == src.size
        &&& exists|a: int|
            {
                &&& 0 <= a < post.segments[h.index - 1].spec_allocs().len()
                &&& (#[trigger] post.segments[h.index - 1].spec_allocs()[a]).size == spec_outset(
                    src.size,
                    post.padding,
                )
                &&& h.rect.position == inner_origin(
                    post.segments[h.index - 1].spec_allocs()[a].position,
                    post.padding,
                )
            }
    }
}

/// What a successful slot's pixels look like after the batched upload: the
/// whole source stands in the handle's inner rectangle.
pub open spec fn slot_blitted(
    post: AtlasView,
    src: Surface,
    r: Result<TextureHandle, SdlError>,
) -> bool {
    r matches Ok(h) ==> {
        let tex = post.segments[h.index - 1].spec_texture();
        let bpp = spec_bpp_of(post.pixel_format);
        forall|y: int, k: int|
            0 <= y < src.size.height && 0 <= k < src.size.width * bpp ==> #[trigger] region_byte(
                tex.pixels@,
                h.rect.position.x as int,
                h.rect.position.y as int,
                y,
                k,
                tex.pitch as int,
                bpp,
            ) == region_byte(src.pixels@, 0, 0, y, k, src.pitch as int, bpp)
    }
}

/// The slot facts of a batched upload's allocation pass, with the position
/// of the slot's padded rectangle in its segment's record made explicit.
spec fn ok_spot(
    post: AtlasView,
    src: Surface,
    r: Result<TextureHandle, SdlError>,
    spot: (int, int),
) -> bool {
    r matches Ok(h) ==> {
        &&& src.format == post.pixel_format
        &&& h.index as int == spot.0 + 1
        &&& 0 <= spot.0 < post.segments.len()
        &&& post.segments[spot.0].is_dynamic()
        &&& 0 <= spot.1 < post.segments[spot.0].spec_allocs().len()
        &&& post.segments[spot.0].spec_allocs()[spot.1].size == spec_outset(src.size, post.padding)
        &&& h.rect == (Rect {
            position: inner_origin(
                post.segments[spot.0].spec_allocs()[spot.1].position,
                post.padding,
            ),
            size: src.size,
        })
    }
}

/// No two successful slots name the same recorded rectangle.
spec fn spots_unique(
    results: Seq<Result<TextureHandle, SdlError>>,
    spots: Seq<(int, int)>,
    n: int,
) -> bool {
    forall|j1: int, j2: int|
        0 <= j1 < j2 < n && (#[trigger] spots[j1]).0 == (#[trigger] spots[j2]).0 && results[j1]
            is Ok && results[j2] is Ok ==> spots[j1].1 != spots[j2].1
}

impl AtlasManager {
    /// The manager invariant: at least one segment; the current segment is
    /// the last one and is dynamic; every segment is well formed; every
    /// dynamic segment's texture carries the manager's pixel format; and the
    /// segment count leaves room for one-based `u32` handles.
    pub open spec fn wf(self) -> bool {
        &&& self@.segments.len() >= 1
        &&& self@.segments.len() <= u32::MAX
        &&& self@.current_index == self@.segments.len() - 1
        &&& self@.segments[self@.current_index].is_dynamic()
        &&& format_supported(self@.pixel_format)
        &&& forall|i: int| 0 <= i < self@.segments.len() ==> (#[trigger] self@.segments[i]).wf()
        &&& forall|i: int|
            0 <= i < self@.segments.len() && (#[trigger] self@.segments[i]).is_dynamic()
                ==> self@.segments[i].spec_texture().format == self@.pixel_format
    }

    /// The size a freshly spawned segment would get for `minimum_size`.
    pub open spec fn spec_segment_size(self, minimum_size: Option<Size>) -> Size {
        match minimum_size {
            Some(ms) => spec_max_dimension(self@.default_size, ms),
            None => self@.default_size,
        }
    }

    /// Build a fresh dynamic segment of the default size, grown to cover
    /// `minimum_size` when one is given.
    fn alloc_segment(&self, minimum_size: Option<Size>) -> (r: Result<AtlasSegment, SdlError>)
        ensures
            match r {
                Ok(seg) => {
                    &&& texture_creatable(self@.pixel_format, self.spec_segment_size(minimum_size))
                    &&& seg.is_dynamic()
                    &&& seg.wf()
                    &&& seg.spec_texture().size == self.spec_segment_size(minimum_size)
                    &&& seg.spec_texture().format == self@.pixel_format
                    &&& seg.spec_pen() == (Point { x: 0, y: 0 })
                    &&& seg.spec_line_height() == 0
                    &&& seg.spec_allocs() == Seq::<Rect>::empty()
                    &&& forall|i: int|
                        0 <= i < seg.spec_texture().pixels@.len() ==> seg.spec_texture().pixels@[i]
                            == 0u8
                },
                Err(e) => {
                    &&& !texture_creatable(self@.pixel_format, self.spec_segment_size(minimum_size))
                    &&& e matches SdlError::SdlError(_)
                },
            },
    {
        let mut size = self.default_size;
        if let Some(minimum_size) = minimum_size {
            size = size.max_dimension(minimum_size);
        }
        let texture = match Texture::create(self.pixel_format, size) {
            Ok(t) => t,
            Err(e) => {
                return Err(e);
            },
        };
        Ok(
            AtlasSegment::Dynamic {
                texture,
                current_position: Point { x: 0, y: 0 },
                current_line_height: 0,
                allocs: Ghost(Seq::empty()),
            },
        )
    }

    /// Create a manager with one empty dynamic segment of the given size.
    /// Fails exactly when such a segment's texture cannot be created.
    pub fn empty(
        padding: PointUnit,
        atlas_segment_size: Size,
        pixel_format: PixelFormat,
    ) -> (r: Result<AtlasManager, SdlError>)
        ensures
            match r {
                Ok(m) => {
                    &&& texture_creatable(pixel_format, atlas_segment_size)
                    &&& m.wf()
                    &&& m@.padding == padding
                    &&& m@.default_size == atlas_segment_size
                    &&& m@.pixel_format == pixel_format
                    &&& m@.segments.len() == 1
                    &&& m@.current_index == 0
                    &&& m@.segments[0].spec_texture().size == atlas_segment_size
                    &&& m@.segments[0].spec_pen() == (Point { x: 0, y: 0 })
                    &&& m@.segments[0].spec_line_height() == 0
                    &&& m@.segments[0].spec_allocs() == Seq::<Rect>::empty()
                },
                Err(e) => {
                    &&& !texture_creatable(pixel_format, atlas_segment_size)
                    &&& e matches SdlError::SdlError(_)
                },
            },
    {
        let mut this = AtlasManager {
            segments: Vec::new(),
            padding,
            default_size: atlas_segment_size,
            current_index: 0,
            pixel_format,
        };
        let allocated = match this.alloc_segment(None) {
            Ok(seg) => seg,
            Err(e) => {
                return Err(e);
            },
        };
        this.segments.push(allocated);
        Ok(this)
    }

    /// The number of segments the manager owns.
    pub fn segment_count(&self) -> (n: usize)
        ensures
            n == self@.segments.len(),
    {
        self.segments.len()
    }

    /// The padding laid around every allocation.
    pub fn padding(&self) -> (p: PointUnit)
        ensures
            p == self@.padding,
    {
        self.padding
    }

    /// The pixel format shared by all dynamic segments.
    pub fn pixel_format(&self) -> (f: PixelFormat)
        ensures
            f == self@.pixel_format,
    {
        self.pixel_format
    }

    /// Allocate `request` with the manager's padding: first against the
    /// current segment, and on failure against a freshly spawned segment
    /// sized to hold the padded request (at least the default size). The
    /// handle names the chosen segment and the inner rectangle. A request
    /// of zero width or height is accepted: it trivially fits and, bar its
    /// padding, does not advance the cursor. Fails exactly when a needed
    /// new segment cannot be created, or when a new segment would overflow
    /// the handle index space; failure leaves the manager unchanged.
    pub fn allocate(&mut self, request: Size) -> (r: Result<TextureHandle, SdlError>)
        requires
            old(self).wf(),
        ensures
            final(self).wf(),
            same_config(old(self)@, final(self)@),
            segments_preserved(old(self)@, final(self)@),
            forall|i: int|
                0 <= i < old(self)@.segments.len() ==> (#[trigger] final(self)@.segments[
                    i
                ]).spec_texture() == old(self)@.segments[i].spec_texture(),
            alloc_outcome(old(self)@, final(self)@, request, r),
            forall|i: int, j: int|
                #![trigger final(self)@.segments[i].spec_texture().pixels@[j]]
                old(self)@.segments.len() <= i < final(self)@.segments.len()
                    && 0 <= j < final(self)@.segments[i].spec_texture().pixels@.len()
                    ==> final(self)@.segments[i].spec_texture().pixels@[j] == 0u8,
    {
        let index = self.current_index;
        let padding = self.padding;
        let seg = &mut self.segments[index];
        let allocated = seg.allocate_with_padding(request, padding);

        if let Some(allocated) = allocated {
            assert(index + 1 <= u32::MAX);
            let h = TextureHandle {
                index: (index + 1) as u32,
                rect: Rect { position: allocated, size: request },
            };
            proof {
                assert(final(self)@.segments =~= old(self)@.segments.update(
                    index as int,
                    final(self)@.segments[index as int],
                ));
            }
            return Ok(h);
        }

        // The current segment is full: spawn a new one sized for the
        // padded request and place the request there.
        proof {
            assert(self@.segments =~= old(self)@.segments.update(
                self@.current_index,
                self@.segments[self@.current_index],
            ));
            assert(self@.segments =~= old(self)@.segments);
        }
        let padded = request.outset(padding);
        let mut segment = match self.alloc_segment(Some(padded)) {
            Ok(seg) => seg,
            Err(e) => {
                return Err(e);
            },
        };
        if self.segments.len() >= (u32::MAX as usize) {
            return Err(SdlError::TryFromIntError);
        }
        let new_index = self.segments.len();
        let origin = match segment.allocate_with_padding(request, padding) {
            Some(p) => p,
            None => {
                // A fresh segment sized to the padded request always fits it.
                proof {
                    assert(false);
                }
                Point { x: 0, y: 0 }
            },
        };
        let h = TextureHandle {
            index: (new_index + 1) as u32,
            rect: Rect { position: origin, size: request },
        };
        self.segments.push(segment);
        self.current_index = new_index;
        Ok(h)
    }

    /// Allocate room for `source_rect` of `source` (the whole surface when
    /// no rectangle is given) and copy those pixels into the allocation's
    /// inner rectangle. Fails exactly when the source's format differs from
    /// the manager's, or when the allocation itself fails; the padding bytes
    /// around the allocation are left undisturbed.
    pub fn allocate_then_copy_surface(&mut self, source: &Surface, source_rect: Option<Rect>) -> (r:
        Result<TextureHandle, SdlError>)
        requires
            old(self).wf(),
            source.wf(),
            (source_rect matches Some(sr) ==> rect_in_bounds(sr, source.size)),
        ensures
            final(self).wf(),
            same_config(old(self)@, final(self)@),
            segments_preserved(old(self)@, final(self)@),
            source.format != old(self)@.pixel_format ==> (r matches Err(e) && (e
                matches SdlError::SdlError(_)) && final(self)@ == old(self)@),
            source.format == old(self)@.pixel_format ==> ({
                let pre = old(self)@;
                let post = final(self)@;
                let sr = (match source_rect {
                    Some(x) => x,
                    None => Rect { position: Point { x: 0, y: 0 }, size: source.size },
                });
                let bpp = spec_bpp_of(pre.pixel_format);
                &&& alloc_outcome(pre, post, sr.size, r)
                &&& (r matches Ok(h) ==> {
                    let t = h.index - 1;
                    let tex = post.segments[t].spec_texture();
                    &&& forall|i: int|
                        0 <= i < pre.segments.len() && i != t ==> (#[trigger] post.segments[
                            i
                        ]).spec_texture() == pre.segments[i].spec_texture()
                    &&& forall|y: int, k: int|
                        0 <= y < sr.size.height && 0 <= k < sr.size.width * bpp
                            ==> #[trigger] region_byte(
                            tex.pixels@,
                            h.rect.position.x as int,
                            h.rect.position.y as int,
                            y,
                            k,
                            tex.pitch as int,
                            bpp,
                        ) == region_byte(
                            source.pixels@,
                            sr.position.x as int,
                            sr.position.y as int,
                            y,
                            k,
                            source.pitch as int,
                            bpp,
                        )
                    &&& (t < pre.segments.len() ==> forall|i: int|
                        0 <= i < tex.pixels@.len() && !in_region(
                            i,
                            h.rect.position.x as int,
                            h.rect.position.y as int,
                            sr.size.width as int,
                            sr.size.height as int,
                            tex.pitch as int,
                            bpp,
                        ) ==> tex.pixels@[i] == #[trigger] pre.segments[t].spec_texture().pixels@[i])
                    &&& (t == pre.segments.len() ==> forall|i: int|
                        0 <= i < tex.pixels@.len() && !in_region(
                            i,
                            h.rect.position.x as int,
                            h.rect.position.y as int,
                            sr.size.width as int,
                            sr.size.height as int,
                            tex.pitch as int,
                            bpp,
                        ) ==> #[trigger] tex.pixels@[i] == 0u8)
                })
            }),
    {
        if !(source.format() == self.pixel_format()) {
            return Err(SdlError::sdl_err("source surface format mismatch with atlas pixel format"));
        }
        let sr = match source_rect {
            Some(r) => r,
            None => Rect { position: Point { x: 0, y: 0 }, size: source.size() },
        };
        let handle = match self.allocate(sr.size) {
            Ok(h) => h,
            Err(e) => {
                return Err(e);
            },
        };
        let idx = (handle.index - 1) as usize;
        proof {
            let pre = old(self)@;
            let cur = pre.segments[pre.current_index];
            let padded = spec_outset(sr.size, pre.padding);
            let tex = self@.segments[idx as int].spec_texture();
            let outer_count = self@.segments[idx as int].spec_allocs().len();
            let outer = self@.segments[idx as int].spec_allocs()[outer_count - 1];
            assert(rect_in_bounds(outer, tex.size));
            lemma_inner_rect_in_bounds(outer.position, sr.size, pre.padding, tex.size);
        }
        let ghost mid: AtlasView = self@;
        self.blit_into_segment(idx, source, sr, handle.rect.position);
        proof {
            let pre = old(self)@;
            let bpp = spec_bpp_of(pre.pixel_format);
            let t = handle.index - 1;
            let tex = self@.segments[t].spec_texture();
            // A freshly spawned segment was zero-filled, so outside the
            // blitted region its bytes are still zero.
            if t == pre.segments.len() {
                assert forall|i: int|
                    0 <= i < tex.pixels@.len() && !in_region(
                        i,
                        handle.rect.position.x as int,
                        handle.rect.position.y as int,
                        sr.size.width as int,
                        sr.size.height as int,
                        tex.pitch as int,
                        bpp,
                    ) implies #[trigger] tex.pixels@[i] == 0u8 by {
                    assert(tex.pixels@[i] == mid.segments[t].spec_texture().pixels@[i]);
                    assert(mid.segments[t].spec_texture().pixels@[i] == 0u8);
                }
            }
        }
        Ok(handle)
    }

    /// Upload a whole batch: allocate room for every source in order, then
    /// copy each successfully allocated source into its inner rectangle.
    /// Each source's outcome stands in its own result slot; one failure
    /// neither aborts the batch nor rolls anything back.
    pub fn allocate_then_copy_surfaces(&mut self, sources: &Vec<Surface>) -> (results: Vec<
        Result<TextureHandle, SdlError>,
    >)
        requires
            old(self).wf(),
            forall|j: int| 0 <= j < sources@.len() ==> (#[trigger] sources@[j]).wf(),
        ensures
            final(self).wf(),
            same_config(old(self)@, final(self)@),
            segments_preserved(old(self)@, final(self)@),
            results@.len() == sources@.len(),
            forall|j: int|
                0 <= j < sources@.len() ==> mismatch_err(
                    sources@[j],
                    old(self)@.pixel_format,
                    #[trigger] results@[j],
                ),
            forall|j: int|
                0 <= j < sources@.len() ==> ok_slot(final(self)@, sources@[j], #[trigger] results@[j]),
            forall|j: int|
                0 <= j < sources@.len() ==> slot_blitted(
                    final(self)@,
                    sources@[j],
                    #[trigger] results@[j],
                ),
            forall|j: int|
                0 <= j < sources@.len() && (#[trigger] sources@[j]).format == old(
                    self,
                )@.pixel_format && texture_creatable(
                    old(self)@.pixel_format,
                    spec_max_dimension(
                        old(self)@.default_size,
                        spec_outset(sources@[j].size, old(self)@.padding),
                    ),
                ) ==> (results@[j] is Ok || final(self)@.segments.len() == u32::MAX),
            // The batch spawns at most one segment per source, so the
            // completeness clause above is refutable for any real batch.
            final(self)@.segments.len() <= old(self)@.segments.len() + sources@.len(),
            // The batch is exactly the fold of single allocations over the
            // sources in source order: the final cursors, segment list and
            // current segment, and every slot's handle, are those of
            // `state_after_alloc` applied source by source (mismatched
            // sources skipped).
            alloc_state_of(final(self)@) == batch_state(
                alloc_state_of(old(self)@),
                sources@,
                sources@.len() as int,
            ),
            forall|j: int|
                #![trigger results@[j]]
                0 <= j < sources@.len() ==> (match batch_slot(
                    alloc_state_of(old(self)@),
                    sources@,
                    j,
                ) {
                    Some(h) => results@[j] == Result::<TextureHandle, SdlError>::Ok(h),
                    None => results@[j] is Err,
                }),
            forall|j: int|
                #![trigger results@[j]]
                0 <= j < sources@.len() && sources@[j].format == old(self)@.pixel_format
                    && batch_slot(alloc_state_of(old(self)@), sources@, j) is None ==> (results@[j]
                    matches Err(e) && ({
                    let prev = batch_state(alloc_state_of(old(self)@), sources@, j);
                    let grow = spec_max_dimension(
                        prev.default_size,
                        spec_outset(sources@[j].size, prev.padding),
                    );
                    &&& (!texture_creatable(prev.pixel_format, grow) ==> (e
                        matches SdlError::SdlError(_)))
                    &&& (texture_creatable(prev.pixel_format, grow) ==> e
                        == SdlError::TryFromIntError)
                })),
            // Two successful slots that share a segment never overlap: each
            // batch handle owns its own inner rectangle.
            forall|j1: int, j2: int|
                0 <= j1 < j2 < sources@.len() ==> ((#[trigger] results@[j1]) matches Ok(h1) ==> ((
                #[trigger] results@[j2]) matches Ok(h2) ==> (h1.index == h2.index
                    ==> !rects_overlap(h1.rect, h2.rect)))),
    {
        let ghost pre0: AtlasView = self@;
        let fmt = self.pixel_format();
        let n = sources.len();
        let mut results: Vec<Result<TextureHandle, SdlError>> = Vec::new();
        while results.len() < n
            invariant
                results@.len() <= n,
            decreases n - results@.len(),
        {
            results.push(Err(SdlError::sdl_err("pending")));
        }

        // Allocation pass: one allocation (or one error) per source, in
        // source order.
        let ghost mut spots: Seq<(int, int)> = Seq::empty();
        let mut i: usize = 0;
        while i < n
            invariant
                self.wf(),
                same_config(pre0, self@),
                segments_preserved(pre0, self@),
                fmt == pre0.pixel_format,
                n == sources@.len(),
                forall|j: int| 0 <= j < n ==> (#[trigger] sources@[j]).wf(),
                results@.len() == n,
                i <= n,
                spots.len() == i,
                forall|j: int|
                    0 <= j < i ==> mismatch_err(sources@[j], pre0.pixel_format, #[trigger] results@[j]),
                forall|j: int|
                    0 <= j < i ==> ok_spot(self@, sources@[j], #[trigger] results@[j], spots[j]),
                spots_unique(results@, spots, i as int),
                forall|j: int|
                    0 <= j < i && (#[trigger] sources@[j]).format == pre0.pixel_format
                        && texture_creatable(
                        pre0.pixel_format,
                        spec_max_dimension(
                            pre0.default_size,
                            spec_outset(sources@[j].size, pre0.padding),
                        ),
                    ) ==> (results@[j] is Ok || self@.segments.len() == u32::MAX),
                self@.segments.len() <= pre0.segments.len() + i,
                alloc_state_of(self@) == batch_state(alloc_state_of(pre0), sources@, i as int),
                forall|j: int|
                    #![trigger results@[j]]
                    0 <= j < i ==> (match batch_slot(alloc_state_of(pre0), sources@, j) {
                        Some(h) => results@[j] == Result::<TextureHandle, SdlError>::Ok(h),
                        None => results@[j] is Err,
                    }),
                forall|j: int|
                    #![trigger results@[j]]
                    0 <= j < i && sources@[j].format == pre0.pixel_format && batch_slot(
                        alloc_state_of(pre0),
                        sources@,
                        j,
                    ) is None ==> (results@[j] matches Err(e) && ({
                        let prev = batch_state(alloc_state_of(pre0), sources@, j);
                        let grow = spec_max_dimension(
                            prev.default_size,
                            spec_outset(sources@[j].size, prev.padding),
                        );
                        &&& (!texture_creatable(prev.pixel_format, grow) ==> (e
                            matches SdlError::SdlError(_)))
                        &&& (texture_creatable(prev.pixel_format, grow) ==> e
                            == SdlError::TryFromIntError)
                    })),
            decreases n - i,
        {
            let src_format = sources[i].format();
            let src_size = sources[i].size();
            if !(src_format == fmt) {
                results[i] = Err(
                    SdlError::sdl_err("source surface format mismatch with atlas pixel format"),
                );
                proof {
                    spots = spots.push((-1, -1));
                    assert(batch_state(alloc_state_of(pre0), sources@, i + 1) == batch_state(
                        alloc_state_of(pre0),
                        sources@,
                        i as int,
                    ));
                    assert(batch_slot(alloc_state_of(pre0), sources@, i as int) is None);
                }
            } else {
                let ghost before: AtlasView = self@;
                match self.allocate(src_size) {
                    Ok(h) => {
                        results[i] = Ok(h);
                        proof {
                            let t: int = h.index - 1;
                            let a: int = self@.segments[t].spec_allocs().len() - 1;
                            spots = spots.push((t, a));
                            assert(ok_spot(self@, sources@[i as int], results@[i as int], (t, a)));
                            assert forall|j: int| 0 <= j < i implies ok_spot(
                                self@,
                                sources@[j],
                                #[trigger] results@[j],
                                spots[j],
                            ) by {
                                assert(ok_spot(before, sources@[j], results@[j], spots[j]));
                            }
                            lemma_alloc_outcome_matches_state(
                                before,
                                self@,
                                src_size,
                                Result::Ok(h),
                            );
                            assert(alloc_state_of(self@) == batch_state(
                                alloc_state_of(pre0),
                                sources@,
                                i + 1,
                            ));
                            assert(batch_slot(alloc_state_of(pre0), sources@, i as int) == Some(h));
                        }
                    },
                    Err(e) => {
                        proof {
                            spots = spots.push((-1, -1));
                        }
                        let ghost ev: SdlError = e;
                        results[i] = Err(e);
                        proof {
                            lemma_alloc_outcome_matches_state(
                                before,
                                self@,
                                src_size,
                                Result::Err(ev),
                            );
                            assert(alloc_state_of(self@) == batch_state(
                                alloc_state_of(pre0),
                                sources@,
                                i + 1,
                            ));
                            assert(batch_slot(alloc_state_of(pre0), sources@, i as int) is None);
                        }
                    },
                }
            }
            i = i + 1;
        }

        // Copy pass: blit every successfully allocated source into its
        // inner rectangle. The recorded rectangles of one segment never
        // overlap, so later copies leave earlier ones intact.
        let mut i: usize = 0;
        while i < n
            invariant
                self.wf(),
                same_config(pre0, self@),
                segments_preserved(pre0, self@),
                n == sources@.len(),
                forall|j: int| 0 <= j < n ==> (#[trigger] sources@[j]).wf(),
                results@.len() == n,
                spots.len() == n,
                i <= n,
                forall|j: int|
                    0 <= j < n ==> mismatch_err(sources@[j], pre0.pixel_format, #[trigger] results@[j]),
                forall|j: int|
                    0 <= j < n ==> ok_spot(self@, sources@[j], #[trigger] results@[j], spots[j]),
                spots_unique(results@, spots, n as int),
                forall|j: int|
                    0 <= j < n && (#[trigger] sources@[j]).format == pre0.pixel_format
                        && texture_creatable(
                        pre0.pixel_format,
                        spec_max_dimension(
                            pre0.default_size,
                            spec_outset(sources@[j].size, pre0.padding),
                        ),
                    ) ==> (results@[j] is Ok || self@.segments.len() == u32::MAX),
                forall|j: int|
                    0 <= j < i ==> slot_blitted(self@, sources@[j], #[trigger] results@[j]),
                self@.segments.len() <= pre0.segments.len() + n,
                alloc_state_of(self@) == batch_state(alloc_state_of(pre0), sources@, n as int),
                forall|j: int|
                    #![trigger results@[j]]
                    0 <= j < n ==> (match batch_slot(alloc_state_of(pre0), sources@, j) {
                        Some(h) => results@[j] == Result::<TextureHandle, SdlError>::Ok(h),
                        None => results@[j] is Err,
                    }),
                forall|j: int|
                    #![trigger results@[j]]
                    0 <= j < n && sources@[j].format == pre0.pixel_format && batch_slot(
                        alloc_state_of(pre0),
                        sources@,
                        j,
                    ) is None ==> (results@[j] matches Err(e) && ({
                        let prev = batch_state(alloc_state_of(pre0), sources@, j);
                        let grow = spec_max_dimension(
                            prev.default_size,
                            spec_outset(sources@[j].size, prev.padding),
                        );
                        &&& (!texture_creatable(prev.pixel_format, grow) ==> (e
                            matches SdlError::SdlError(_)))
                        &&& (texture_creatable(prev.pixel_format, grow) ==> e
                            == SdlError::TryFromIntError)
                    })),
            decreases n - i,
        {
            let is_ok = match &results[i] {
                Ok(_) => true,
                Err(_) => false,
            };
            if is_ok {
                let h = match &results[i] {
                    Ok(h) => *h,
                    Err(_) => {
                        proof {
                            assert(false);
                        }
                        TextureHandle { index: 1, rect: Rect { position: Point { x: 0, y: 0 }, size: Size { width: 0, height: 0 } } }
                    },
                };
                let idx = (h.index - 1) as usize;
                let sr = Rect { position: Point { x: 0, y: 0 }, size: sources[i].size() };
                proof {
                    let t: int = spots[i as int].0;
                    let a: int = spots[i as int].1;
                    let tex = self@.segments[t].spec_texture();
                    let outer = self@.segments[t].spec_allocs()[a];
                    assert(rect_in_bounds(outer, tex.size));
                    lemma_inner_rect_in_bounds(
                        outer.position,
                        sources@[i as int].size,
                        self@.padding,
                        tex.size,
                    );
                }
                let ghost mid: AtlasView = self@;
                self.blit_into_segment(idx, &sources[i], sr, h.rect.position);
                proof {
                    assert forall|t2: int| 0 <= t2 < pre0.segments.len() implies {
                        &&& (#[trigger] self@.segments[t2]).spec_texture().size
                            == pre0.segments[t2].spec_texture().size
                        &&& self@.segments[t2].spec_texture().format
                            == pre0.segments[t2].spec_texture().format
                        &&& self@.segments[t2].is_dynamic() == pre0.segments[t2].is_dynamic()
                        &&& pre0.segments[t2].spec_allocs().is_prefix_of(
                            self@.segments[t2].spec_allocs(),
                        )
                    } by {
                        assert(pre0.segments[t2].spec_allocs().is_prefix_of(
                            mid.segments[t2].spec_allocs(),
                        ));
                        if t2 != idx {
                            assert(self@.segments[t2] == mid.segments[t2]);
                        } else {
                            assert(self@.segments[t2].spec_allocs() == mid.segments[
                                t2
                            ].spec_allocs());
                        }
                    }
                    // The blit changed pixel bytes only, so the allocation
                    // state stands where the allocation pass left it.
                    assert forall|t2: int| 0 <= t2 < self@.segments.len() implies seg_state_of(
                        #[trigger] self@.segments[t2],
                    ) == seg_state_of(mid.segments[t2]) by {
                        if t2 != idx {
                            assert(self@.segments[t2] == mid.segments[t2]);
                        }
                    }
                    assert(alloc_state_of(self@).segments =~= alloc_state_of(mid).segments);
                    assert(alloc_state_of(self@) == alloc_state_of(mid));
                    let bpp = spec_bpp_of(pre0.pixel_format);
                    let ti: int = spots[i as int].0;
                    let ai: int = spots[i as int].1;
                    assert forall|j: int| 0 <= j < i && (#[trigger] results@[j])
                        is Ok implies slot_blitted(self@, sources@[j], results@[j]) by {
                        let hj = results@[j]->Ok_0;
                        let tj: int = spots[j].0;
                        let aj: int = spots[j].1;
                        if tj != ti {
                            assert(self@.segments[tj] == mid.segments[tj]);
                            assert(slot_blitted(mid, sources@[j], results@[j]));
                        } else {
                            let tex = self@.segments[tj].spec_texture();
                            let outer_j = self@.segments[tj].spec_allocs()[aj];
                            let outer_i = self@.segments[tj].spec_allocs()[ai];
                            assert(aj != ai);
                            assert(!rects_overlap(outer_j, outer_i));
                            lemma_inner_rect_in_bounds(
                                outer_j.position,
                                sources@[j].size,
                                self@.padding,
                                tex.size,
                            );
                            lemma_inner_rect_in_bounds(
                                outer_i.position,
                                sources@[i as int].size,
                                self@.padding,
                                tex.size,
                            );
                            lemma_within_preserves_disjoint(hj.rect, outer_j, h.rect, outer_i);
                            lemma_texture_region_in_bounds(tex, hj.rect);
                            assert forall|y: int, k: int|
                                0 <= y < sources@[j].size.height && 0 <= k < sources@[j].size.width
                                    * bpp implies #[trigger] region_byte(
                                tex.pixels@,
                                hj.rect.position.x as int,
                                hj.rect.position.y as int,
                                y,
                                k,
                                tex.pitch as int,
                                bpp,
                            ) == region_byte(
                                sources@[j].pixels@,
                                0,
                                0,
                                y,
                                k,
                                sources@[j].pitch as int,
                                bpp,
                            ) by {
                                let rs = crate::blit::row_start(
                                    hj.rect.position.x as int,
                                    hj.rect.position.y as int,
                                    y,
                                    tex.pitch as int,
                                    bpp,
                                );
                                let ib = rs + k;
                                assert(rs >= 0) by (nonlinear_arith)
                                    requires
                                        hj.rect.position.x >= 0,
                                        hj.rect.position.y >= 0,
                                        y >= 0,
                                        tex.pitch >= 0,
                                        bpp >= 0,
                                        rs == (hj.rect.position.y + y) * (tex.pitch as int)
                                            + hj.rect.position.x * bpp,
                                ;
                                assert(hj.rect.size == sources@[j].size);
                                assert(in_region(
                                    ib,
                                    hj.rect.position.x as int,
                                    hj.rect.position.y as int,
                                    hj.rect.size.width as int,
                                    hj.rect.size.height as int,
                                    tex.pitch as int,
                                    bpp,
                                ));
                                assert(ib < tex.pixels@.len());
                                crate::blit::lemma_disjoint_rects_disjoint_regions(
                                    hj.rect,
                                    h.rect,
                                    tex.size,
                                    tex.pitch as int,
                                    bpp,
                                    ib,
                                );
                                assert(tex.pixels@[ib] == mid.segments[tj].spec_texture().pixels@[ib]);
                                assert(region_byte(
                                    mid.segments[tj].spec_texture().pixels@,
                                    hj.rect.position.x as int,
                                    hj.rect.position.y as int,
                                    y,
                                    k,
                                    tex.pitch as int,
                                    bpp,
                                ) == region_byte(
                                    sources@[j].pixels@,
                                    0,
                                    0,
                                    y,
                                    k,
                                    sources@[j].pitch as int,
                                    bpp,
                                ));
                            }
                        }
                    }
                    assert(slot_blitted(self@, sources@[i as int], results@[i as int]));
                }
            }
            i = i + 1;
        }
        proof {
            assert forall|j: int| 0 <= j < n implies ok_slot(
                self@,
                sources@[j],
                #[trigger] results@[j],
            ) by {
                if results@[j] is Ok {
                    assert(ok_spot(self@, sources@[j], results@[j], spots[j]));
                    let t: int = spots[j].0;
                    let a: int = spots[j].1;
                    assert(0 <= a < self@.segments[t].spec_allocs().len() && (
                    #[trigger] self@.segments[t].spec_allocs()[a]).size == spec_outset(
                        sources@[j].size,
                        self@.padding,
                    ) && (results@[j]->Ok_0).rect.position == inner_origin(
                        self@.segments[t].spec_allocs()[a].position,
                        self@.padding,
                    ));
                }
            }
            // Successful slots sharing a segment name distinct recorded
            // rectangles, and those never overlap; nor do the inner
            // rectangles inside them.
            assert forall|j1: int, j2: int| 0 <= j1 < j2 < n implies ((#[trigger] results@[j1])
                matches Ok(h1) ==> ((#[trigger] results@[j2]) matches Ok(h2) ==> (h1.index
                == h2.index ==> !rects_overlap(h1.rect, h2.rect)))) by {
                if results@[j1] is Ok && results@[j2] is Ok {
                    let h1 = results@[j1]->Ok_0;
                    let h2 = results@[j2]->Ok_0;
                    if h1.index == h2.index {
                        assert(ok_spot(self@, sources@[j1], results@[j1], spots[j1]));
                        assert(ok_spot(self@, sources@[j2], results@[j2], spots[j2]));
                        let t: int = spots[j1].0;
                        let a1: int = spots[j1].1;
                        let a2: int = spots[j2].1;
                        assert(spots[j2].0 == t);
                        assert(a1 != a2);
                        let tex = self@.segments[t].spec_texture();
                        let o1 = self@.segments[t].spec_allocs()[a1];
                        let o2 = self@.segments[t].spec_allocs()[a2];
                        if a1 < a2 {
                            assert(!rects_overlap(o1, o2));
                        } else {
                            assert(!rects_overlap(o2, o1));
                        }
                        lemma_inner_rect_in_bounds(
                            o1.position,
                            sources@[j1].size,
                            self@.padding,
                            tex.size,
                        );
                        lemma_inner_rect_in_bounds(
                            o2.position,
                            sources@[j2].size,
                            self@.padding,
                            tex.size,
                        );
                        lemma_within_preserves_disjoint(h1.rect, o1, h2.rect, o2);
                    }
                }
            }
        }
        results
    }

    /// Copy `source_rect` of `source` into the segment's texture at
    /// `dst_pos`, leaving everything but those pixel bytes as it was.
    fn blit_into_segment(&mut self, idx: usize, source: &Surface, source_rect: Rect, dst_pos: Point)
        requires
            old(self).wf(),
            idx < old(self)@.segments.len(),
            old(self)@.segments[idx as int].is_dynamic(),
            source.wf(),
            source.format == old(self)@.pixel_format,
            rect_in_bounds(source_rect, source.size),
            rect_in_bounds(
                Rect { position: dst_pos, size: source_rect.size },
                old(self)@.segments[idx as int].spec_texture().size,
            ),
        ensures
            final(self).wf(),
            same_config(old(self)@, final(self)@),
            final(self)@.current_index == old(self)@.current_index,
            final(self)@.segments.len() == old(self)@.segments.len(),
            forall|i: int|
                0 <= i < old(self)@.segments.len() && i != idx ==> final(self)@.segments[i]
                    == #[trigger] old(self)@.segments[i],
            final(self)@.segments[idx as int].is_dynamic(),
            final(self)@.segments[idx as int].spec_pen() == old(self)@.segments[
                idx as int
            ].spec_pen(),
            final(self)@.segments[idx as int].spec_line_height() == old(self)@.segments[
                idx as int
            ].spec_line_height(),
            final(self)@.segments[idx as int].spec_allocs() == old(self)@.segments[
                idx as int
            ].spec_allocs(),
            final(self)@.segments[idx as int].spec_texture().size == old(self)@.segments[
                idx as int
            ].spec_texture().size,
            final(self)@.segments[idx as int].spec_texture().format == old(self)@.segments[
                idx as int
            ].spec_texture().format,
            final(self)@.segments[idx as int].spec_texture().pitch == old(self)@.segments[
                idx as int
            ].spec_texture().pitch,
            blitted(
                source.pixels@,
                old(self)@.segments[idx as int].spec_texture().pixels@,
                final(self)@.segments[idx as int].spec_texture().pixels@,
                source_rect.position.x as int,
                source_rect.position.y as int,
                source_rect.size.width as int,
                source_rect.size.height as int,
                source.pitch as int,
                dst_pos.x as int,
                dst_pos.y as int,
                old(self)@.segments[idx as int].spec_texture().pitch as int,
                spec_bpp_of(old(self)@.pixel_format),
            ),
    {
        let fmt = self.pixel_format;
        let seg = &mut self.segments[idx];
        match seg {
            AtlasSegment::Static(_) => {
                proof {
                    assert(false);
                }
            },
            AtlasSegment::Dynamic { texture, .. } => {
                proof {
                    lemma_surface_region_in_bounds(*source, source_rect);
                    lemma_texture_region_in_bounds(
                        *texture,
                        Rect { position: dst_pos, size: source_rect.size },
                    );
                }
                let res = copy_pixels(
                    source.pixels.as_slice(),
                    source_rect,
                    source.pitch,
                    &mut texture.pixels,
                    dst_pos,
                    texture.pitch,
                    fmt,
                );
                match res {
                    Ok(()) => {},
                    Err(_) => {
                        // The manager's pixel format is supported, so the
                        // blitter cannot refuse it.
                        proof {
                            assert(false);
                        }
                    },
                }
            },
        }
        proof {
            assert(final(self)@.segments =~= old(self)@.segments.update(
                idx as int,
                final(self)@.segments[idx as int],
            ));
        }
    }

    /// The texture backing the segment at (zero-based) `idx`.
    pub fn get_texture_from_index(&self, idx: usize) -> (t: &Texture)
        requires
            idx < self@.segments.len(),
        ensures
            *t == self@.segments[idx as int].spec_texture(),
    {
        match &self.segments[idx] {
            AtlasSegment::Dynamic { texture, .. } => texture,
            AtlasSegment::Static(texture) => texture,
        }
    }

    /// The texture the handle's allocation lives in.
    pub fn get_texture(&self, handle: &TextureHandle) -> (t: &Texture)
        requires
            1 <= handle.index,
            handle.index as int <= self@.segments.len(),
        ensures
            *t == self@.segments[handle.index - 1].spec_texture(),
    {
        self.get_texture_from_index((handle.index - 1) as usize)
    }

    /// The segment the handle's allocation lives in.
    pub fn get_texture_segment(&self, handle: &TextureHandle) -> (s: &AtlasSegment)
        requires
            1 <= handle.index,
            handle.index as int <= self@.segments.len(),
        ensures
            *s == self@.segments[handle.index - 1],
    {
        let idx = (handle.index - 1) as usize;
        &self.segments[idx]
    }
}

} // verus!
