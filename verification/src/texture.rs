//! The growable RGBA canvas backing a paintable plane.
//!
//! A [`Texture`] starts empty and lazily allocates a pixel buffer covering
//! whatever rectangle callers paint into. Growth always extends the current
//! bounds to the smallest rectangle covering both the old bounds and the
//! request, copies the old content to its new position, clears the newly
//! added area to transparent black, and is refused (as a no-op, reported by
//! a flag) when the resulting width or height would pass [`MAX_SIZE`].

use vstd::prelude::*;

use crate::geom::{IVec2, Rect};

verus! {

/// Maximum width and height, in pixels, a canvas may grow to.
pub const MAX_SIZE: usize = 2048;

/// One RGBA pixel sample.
#[derive(Clone, Copy, PartialEq, Eq, Structural, Debug)]
pub struct Rgba8 {
    pub r: u8,
    pub g: u8,
    pub b: u8,
    pub a: u8,
}

/// The sample returned for any point a canvas has no content for.
pub open spec fn transparent() -> Rgba8 {
    Rgba8 { r: 0, g: 0, b: 0, a: 0 }
}

/// Exec counterpart of [`transparent`].
pub fn transparent_pixel() -> (c: Rgba8)
    ensures
        c == transparent(),
{
    Rgba8 { r: 0, g: 0, b: 0, a: 0 }
}

/// A concrete pixel rectangle: `width * height` samples, row-major.
pub struct PixelBuf {
    pub width: usize,
    pub height: usize,
    pub data: Vec<Rgba8>,
}

/// Row-major position of `(x, y)` within a buffer of width `w`.
pub open spec fn row_major(w: int, x: int, y: int) -> int {
    y * w + x
}

/// Row-major positions of distinct in-range points are in range and distinct.
pub proof fn lemma_row_major(w: int, h: int, x1: int, y1: int, x2: int, y2: int)
    requires
        0 <= x1 < w,
        0 <= y1 < h,
        0 <= x2 < w,
        0 <= y2 < h,
    ensures
        0 <= row_major(w, x1, y1) < w * h,
        (x1, y1) != (x2, y2) ==> row_major(w, x1, y1) != row_major(w, x2, y2),
{
    assert(0 <= y1 * w + x1 < w * h && ((x1 != x2 || y1 != y2) ==> y1 * w + x1 != y2 * w + x2))
        by (nonlinear_arith)
        requires
            0 <= x1 < w,
            0 <= y1 < h,
            0 <= x2 < w,
            0 <= y2 < h,
    ;
}

impl PixelBuf {
    pub open spec fn wf(self) -> bool {
        self.data@.len() == self.width * self.height && self.width <= i32::MAX && self.height
            <= i32::MAX
    }

    /// The sample at buffer-local coordinates.
    pub open spec fn pixel(self, x: int, y: int) -> Rgba8
        recommends
            0 <= x < self.width,
            0 <= y < self.height,
    {
        self.data@[row_major(self.width as int, x, y)]
    }

    /// An all-transparent buffer of the given dimensions.
    pub fn blank(width: usize, height: usize) -> (p: PixelBuf)
        requires
            width <= MAX_SIZE,
            height <= MAX_SIZE,
        ensures
            p.wf(),
            p.width == width,
            p.height == height,
            forall|x: int, y: int|
                0 <= x < width && 0 <= y < height ==> #[trigger] p.pixel(x, y) == transparent(),
    {
        proof {
            assert(width * height <= 2048 * 2048) by (nonlinear_arith)
                requires
                    width <= 2048,
                    height <= 2048,
            ;
        }
        let total: usize = width * height;
        let mut data: Vec<Rgba8> = Vec::new();
        let mut i: usize = 0;
        while i < total
            invariant
                i <= total,
                data@.len() == i,
                forall|k: int| 0 <= k < i ==> data@[k] == transparent(),
            decreases total - i,
        {
            data.push(transparent_pixel());
            i = i + 1;
        }
        let p = PixelBuf { width, height, data };
        assert forall|x: int, y: int|
            0 <= x < width && 0 <= y < height implies #[trigger] p.pixel(x, y)
            == transparent() by {
            lemma_row_major(width as int, height as int, x, y, x, y);
        }
        p
    }

    /// Read the sample at `(x, y)`.
    pub fn get_pixel(&self, x: usize, y: usize) -> (c: Rgba8)
        requires
            self.wf(),
            x < self.width,
            y < self.height,
        ensures
            c == self.pixel(x as int, y as int),
    {
        proof {
            assert(self.data.len() == self.data@.len());
            lemma_row_major(
                self.width as int,
                self.height as int,
                x as int,
                y as int,
                x as int,
                y as int,
            );
        }
        let i: usize = y * self.width + x;
        self.data[i]
    }

    /// Overwrite the sample at `(x, y)`, leaving every other sample as it was.
    pub fn set_pixel(&mut self, x: usize, y: usize, c: Rgba8)
        requires
            old(self).wf(),
            x < old(self).width,
            y < old(self).height,
        ensures
            final(self).wf(),
            final(self).width == old(self).width,
            final(self).height == old(self).height,
            final(self).pixel(x as int, y as int) == c,
            forall|x2: int, y2: int|
                0 <= x2 < old(self).width && 0 <= y2 < old(self).height && (x2, y2) != (
                x as int,
                y as int,
                ) ==> #[trigger] final(self).pixel(x2, y2) == old(self).pixel(x2, y2),
    {
        proof {
            assert(self.data.len() == self.data@.len());
            lemma_row_major(
                self.width as int,
                self.height as int,
                x as int,
                y as int,
                x as int,
                y as int,
            );
        }
        let i: usize = y * self.width + x;
        self.data[i] = c;
        assert forall|x2: int, y2: int|
            0 <= x2 < self.width && 0 <= y2 < self.height && (x2, y2) != (
            x as int,
            y as int,
            ) implies #[trigger] self.pixel(x2, y2) == old(self).pixel(x2, y2) by {
            lemma_row_major(self.width as int, self.height as int, x2, y2, x as int, y as int);
        }
    }
}

/// A growable RGBA canvas: an optional pixel buffer anchored at an integer
/// offset. `pixels` is `None` until the first accepted growth.
pub struct Texture {
    pub pixels: Option<PixelBuf>,
    pub offset: IVec2,
}

/// The bounds a growth request aims for: the request itself on an empty
/// canvas, else the union with the current bounds.
pub open spec fn grow_target(current: Option<Rect>, r: Rect) -> Rect {
    match current {
        None => r,
        Some(b) => b.union(r),
    }
}

/// Whether a rectangle's size is within the canvas cap.
pub open spec fn fits_cap(r: Rect) -> bool {
    r.width() <= MAX_SIZE && r.height() <= MAX_SIZE
}

/// The bounds a canvas holds after one growth request.
pub open spec fn grow_step(current: Option<Rect>, r: Rect) -> Option<Rect> {
    if fits_cap(grow_target(current, r)) {
        Some(grow_target(current, r))
    } else {
        current
    }
}

/// The bounds a canvas holds after a whole sequence of growth requests.
pub open spec fn grow_seq(current: Option<Rect>, rs: Seq<Rect>) -> Option<Rect>
    decreases rs.len(),
{
    if rs.len() == 0 {
        current
    } else {
        grow_seq(grow_step(current, rs[0]), rs.drop_first())
    }
}

/// The union of a base rectangle with a whole sequence of rectangles.
pub open spec fn union_seq(base: Rect, rs: Seq<Rect>) -> Rect
    decreases rs.len(),
{
    if rs.len() == 0 {
        base
    } else {
        union_seq(base.union(rs[0]), rs.drop_first())
    }
}

/// A union over more rectangles never moves `min` up nor `max` down.
pub proof fn lemma_union_seq_extends(base: Rect, rs: Seq<Rect>)
    ensures
        union_seq(base, rs).min.x <= base.min.x,
        union_seq(base, rs).min.y <= base.min.y,
        union_seq(base, rs).max.x >= base.max.x,
        union_seq(base, rs).max.y >= base.max.y,
    decreases rs.len(),
{
    if rs.len() > 0 {
        lemma_union_seq_extends(base.union(rs[0]), rs.drop_first());
    }
}

/// Growth requests whose total union stays within the cap are all accepted,
/// and the bounds they produce are exactly that union.
pub proof fn lemma_grow_seq_from(base: Rect, rs: Seq<Rect>)
    requires
        fits_cap(union_seq(base, rs)),
    ensures
        grow_seq(Some(base), rs) == Some(union_seq(base, rs)),
    decreases rs.len(),
{
    if rs.len() > 0 {
        lemma_union_seq_extends(base.union(rs[0]), rs.drop_first());
        lemma_grow_seq_from(base.union(rs[0]), rs.drop_first());
    }
}

/// Canvas growth is cumulative: starting from an empty canvas, after any
/// sequence of `ensure_bounds` requests whose overall union stays within the
/// cap, the bounds equal the union of every rectangle requested so far.
pub proof fn lemma_growth_is_union(rs: Seq<Rect>)
    requires
        rs.len() > 0,
        fits_cap(union_seq(rs[0], rs.drop_first())),
    ensures
        grow_seq(None, rs) == Some(union_seq(rs[0], rs.drop_first())),
{
    lemma_union_seq_extends(rs[0], rs.drop_first());
    lemma_grow_seq_from(rs[0], rs.drop_first());
}

impl Texture {
    pub open spec fn wf(self) -> bool {
        match self.pixels {
            None => true,
            Some(p) => p.wf() && self.offset.x + p.width <= i32::MAX && self.offset.y + p.height
                <= i32::MAX,
        }
    }

    /// The currently allocated bounds, `None` while nothing was painted.
    pub open spec fn spec_bounding_box(self) -> Option<Rect> {
        match self.pixels {
            None => None,
            Some(p) => Some(
                Rect {
                    min: self.offset,
                    max: IVec2 {
                        x: (self.offset.x + p.width) as i32,
                        y: (self.offset.y + p.height) as i32,
                    },
                },
            ),
        }
    }

    /// The sample visible at a world point: the stored pixel inside the
    /// bounds, transparent black everywhere else.
    pub open spec fn spec_color_at(self, x: int, y: int) -> Rgba8 {
        match self.spec_bounding_box() {
            None => transparent(),
            Some(bb) => if bb.contains(x, y) {
                self.pixels->0.pixel(x - self.offset.x, y - self.offset.y)
            } else {
                transparent()
            },
        }
    }

    /// An empty canvas.
    pub fn new() -> (t: Texture)
        ensures
            t.wf(),
            t.pixels is None,
            t.offset == (IVec2 { x: 0, y: 0 }),
            t.spec_bounding_box() is None,
    {
        Texture { pixels: None, offset: IVec2 { x: 0, y: 0 } }
    }

    /// A canvas adopting an existing buffer (for example one decoded from a
    /// scene file) at the given offset.
    pub fn from(pixels: Option<PixelBuf>, offset: IVec2) -> (t: Texture)
        requires
            (Texture { pixels, offset }).wf(),
        ensures
            t.wf(),
            t == (Texture { pixels, offset }),
    {
        Texture { pixels, offset }
    }

    pub fn bounding_box(&self) -> (r: Option<Rect>)
        requires
            self.wf(),
        ensures
            r == self.spec_bounding_box(),
            r matches Some(bb) ==> bb.wf(),
    {
        match &self.pixels {
            None => None,
            Some(p) => Some(
                Rect {
                    min: self.offset,
                    max: IVec2 {
                        x: (self.offset.x as i64 + p.width as i64) as i32,
                        y: (self.offset.y as i64 + p.height as i64) as i32,
                    },
                },
            ),
        }
    }

    /// Grow the canvas so its bounds cover `bb`, if the result stays within
    /// the cap; report whether they now do. Content is preserved: the visible
    /// sample at every world point is exactly what it was.
    pub fn ensure_bounds(&mut self, bb: Rect) -> (ok: bool)
        requires
            old(self).wf(),
            bb.wf(),
        ensures
            final(self).wf(),
            ok == fits_cap(grow_target(old(self).spec_bounding_box(), bb)),
            final(self).spec_bounding_box() == grow_step(old(self).spec_bounding_box(), bb),
            !ok ==> *final(self) == *old(self),
            forall|x: int, y: int| #[trigger]
                final(self).spec_color_at(x, y) == old(self).spec_color_at(x, y),
    {
        let current = self.bounding_box();
        let target: Rect = match current {
            None => bb,
            Some(b) => b.union_rect(&bb),
        };
        let w: i64 = target.max.x as i64 - target.min.x as i64;
        let h: i64 = target.max.y as i64 - target.min.y as i64;
        if w > MAX_SIZE as i64 || h > MAX_SIZE as i64 {
            return false;
        }
        if let Some(b) = current {
            if b == target {
                return true;
            }
        }
        let nw: usize = w as usize;
        let nh: usize = h as usize;
        let mut np = PixelBuf::blank(nw, nh);
        match &self.pixels {
            None => {},
            Some(p) => {
                proof {
                    assert(current == Some(
                        Rect {
                            min: self.offset,
                            max: IVec2 {
                                x: (self.offset.x + p.width) as i32,
                                y: (self.offset.y + p.height) as i32,
                            },
                        },
                    ));
                    assert(target.min.x <= self.offset.x && target.min.y <= self.offset.y);
                    assert(self.offset.x + p.width <= target.max.x);
                    assert(self.offset.y + p.height <= target.max.y);
                }
                let dx: usize = (self.offset.x as i64 - target.min.x as i64) as usize;
                let dy: usize = (self.offset.y as i64 - target.min.y as i64) as usize;
                let mut y: usize = 0;
                while y < p.height
                    invariant
                        p.wf(),
                        np.wf(),
                        np.width == nw,
                        np.height == nh,
                        y <= p.height,
                        dx + p.width <= nw,
                        dy + p.height <= nh,
                        forall|u: int, v: int|
                            0 <= u < nw && 0 <= v < nh ==> #[trigger] np.pixel(u, v) == (if dx <= u
                                < dx + p.width && dy <= v < dy + y {
                                p.pixel(u - dx, v - dy)
                            } else {
                                transparent()
                            }),
                    decreases p.height - y,
                {
                    let mut x: usize = 0;
                    while x < p.width
                        invariant
                            p.wf(),
                            np.wf(),
                            np.width == nw,
                            np.height == nh,
                            y < p.height,
                            x <= p.width,
                            dx + p.width <= nw,
                            dy + p.height <= nh,
                            forall|u: int, v: int|
                                0 <= u < nw && 0 <= v < nh ==> #[trigger] np.pixel(u, v) == (if dx
                                    <= u < dx + p.width && (dy <= v < dy + y || (v == dy + y && dx
                                    <= u < dx + x)) {
                                    p.pixel(u - dx, v - dy)
                                } else {
                                    transparent()
                                }),
                        decreases p.width - x,
                    {
                        let c = p.get_pixel(x, y);
                        np.set_pixel(x + dx, y + dy, c);
                        x = x + 1;
                    }
                    y = y + 1;
                }
            },
        }
        let ghost pre = *self;
        self.pixels = Some(np);
        self.offset = target.min;
        proof {
            assert forall|x: int, y: int| #[trigger]
                self.spec_color_at(x, y) == old(self).spec_color_at(x, y) by {
                let u = x - target.min.x;
                let v = y - target.min.y;
                match pre.spec_bounding_box() {
                    None => {},
                    Some(ob) => {
                        assert(ob.contains(x, y) <==> (pre.offset.x <= x < pre.offset.x
                            + pre.pixels->0.width && pre.offset.y <= y < pre.offset.y
                            + pre.pixels->0.height));
                    },
                }
            }
        }
        true
    }

    /// Overwrite the sample at a world point the bounds already cover.
    fn put_pixel_world(&mut self, x: i32, y: i32, color: Rgba8)
        requires
            old(self).wf(),
            old(self).spec_bounding_box() matches Some(b) && b.contains(x as int, y as int),
        ensures
            final(self).wf(),
            final(self).offset == old(self).offset,
            final(self).spec_bounding_box() == old(self).spec_bounding_box(),
            forall|px: int, py: int| #[trigger]
                final(self).spec_color_at(px, py) == (if px == x as int && py == y as int {
                    color
                } else {
                    old(self).spec_color_at(px, py)
                }),
    {
        let lx: usize = (x as i64 - self.offset.x as i64) as usize;
        let ly: usize = (y as i64 - self.offset.y as i64) as usize;
        match &mut self.pixels {
            None => {},
            Some(p) => {
                p.set_pixel(lx, ly, color);
            },
        }
        assert forall|px: int, py: int| #[trigger]
            self.spec_color_at(px, py) == (if px == x as int && py == y as int {
                color
            } else {
                old(self).spec_color_at(px, py)
            }) by {}
    }

    /// Paint every point of `area` that the (possibly grown) bounds cover
    /// with `color`; everything else keeps its sample. Returns whether the
    /// bounds now cover the whole of `area`.
    pub fn draw(&mut self, area: Rect, color: Rgba8) -> (ok: bool)
        requires
            old(self).wf(),
            area.wf(),
        ensures
            final(self).wf(),
            ok == fits_cap(grow_target(old(self).spec_bounding_box(), area)),
            final(self).spec_bounding_box() == grow_step(old(self).spec_bounding_box(), area),
            forall|x: int, y: int| #[trigger]
                final(self).spec_color_at(x, y) == (if area.contains(x, y) && (match grow_step(
                    old(self).spec_bounding_box(),
                    area,
                ) {
                    Some(b) => b.contains(x, y),
                    None => false,
                }) {
                    color
                } else {
                    old(self).spec_color_at(x, y)
                }),
    {
        let ok = self.ensure_bounds(area);
        let ghost mid = *self;
        let bb: Rect = match self.bounding_box() {
            None => {
                return ok;
            },
            Some(b) => b,
        };
        let cx0: i32 = if area.min.x >= bb.min.x {
            area.min.x
        } else {
            bb.min.x
        };
        let cy0: i32 = if area.min.y >= bb.min.y {
            area.min.y
        } else {
            bb.min.y
        };
        let cx1: i32 = if area.max.x <= bb.max.x {
            area.max.x
        } else {
            bb.max.x
        };
        let cy1: i32 = if area.max.y <= bb.max.y {
            area.max.y
        } else {
            bb.max.y
        };
        let mut y: i32 = cy0;
        while y < cy1
            invariant
                self.wf(),
                self.offset == mid.offset,
                self.spec_bounding_box() == mid.spec_bounding_box(),
                mid.spec_bounding_box() == Some(bb),
                cy0 <= y <= cy1 || (cy1 < cy0 && y == cy0),
                cx0 >= bb.min.x && cy0 >= bb.min.y && cx1 <= bb.max.x && cy1 <= bb.max.y,
                forall|px: int, py: int| #[trigger]
                    self.spec_color_at(px, py) == (if cx0 <= px < cx1 && cy0 <= py < y {
                        color
                    } else {
                        mid.spec_color_at(px, py)
                    }),
            decreases cy1 - y,
        {
            let mut x: i32 = cx0;
            while x < cx1
                invariant
                    self.wf(),
                    self.offset == mid.offset,
                    self.spec_bounding_box() == mid.spec_bounding_box(),
                    mid.spec_bounding_box() == Some(bb),
                    cy0 <= y < cy1,
                    cx0 <= x <= cx1 || (cx1 < cx0 && x == cx0),
                    cx0 >= bb.min.x && cy0 >= bb.min.y && cx1 <= bb.max.x && cy1 <= bb.max.y,
                    forall|px: int, py: int| #[trigger]
                        self.spec_color_at(px, py) == (if (cx0 <= px < cx1 && cy0 <= py < y) || (py
                            == y && cx0 <= px < x) {
                            color
                        } else {
                            mid.spec_color_at(px, py)
                        }),
                decreases cx1 - x,
            {
                self.put_pixel_world(x, y, color);
                x = x + 1;
            }
            y = y + 1;
        }
        proof {
            assert forall|x: int, y: int| #[trigger]
                self.spec_color_at(x, y) == (if area.contains(x, y) && bb.contains(x, y) {
                    color
                } else {
                    old(self).spec_color_at(x, y)
                }) by {}
        }
        ok
    }

    /// The sample at a world point: the stored pixel if the point lies in
    /// the bounds, transparent black otherwise.
    pub fn color_at(&self, p: IVec2) -> (c: Rgba8)
        requires
            self.wf(),
        ensures
            c == self.spec_color_at(p.x as int, p.y as int),
    {
        match self.bounding_box() {
            None => transparent_pixel(),
            Some(bb) => {
                if bb.contains_point(p) {
                    let lx: usize = (p.x as i64 - self.offset.x as i64) as usize;
                    let ly: usize = (p.y as i64 - self.offset.y as i64) as usize;
                    match &self.pixels {
                        None => transparent_pixel(),
                        Some(buf) => buf.get_pixel(lx, ly),
                    }
                } else {
                    transparent_pixel()
                }
            },
        }
    }
}

} // verus!
