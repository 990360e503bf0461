//! The growable scalar canvas holding a plane's height samples.
//!
//! Samples are `f32` height values kept as their raw bit patterns (`u32`),
//! so the canvas and the file format stay free of float arithmetic; the
//! renderer interprets the bits. Growth follows the same rules as the image
//! canvas: bounds only ever extend, content is preserved, new area is
//! cleared to the zero height, and growth past [`crate::texture::MAX_SIZE`]
//! is refused as a flagged no-op.

use vstd::prelude::*;

use crate::geom::{IVec2, Rect};
use crate::texture::{fits_cap, grow_step, grow_target, lemma_row_major, row_major, MAX_SIZE};

verus! {

/// A concrete rectangle of height samples, row-major.
pub struct HeightBuf {
    pub width: usize,
    pub height: usize,
    pub data: Vec<u32>,
}

impl HeightBuf {
    pub open spec fn wf(self) -> bool {
        self.data@.len() == self.width * self.height && self.width <= i32::MAX && self.height
            <= i32::MAX
    }

    /// The sample at buffer-local coordinates.
    pub open spec fn sample(self, x: int, y: int) -> u32
        recommends
            0 <= x < self.width,
            0 <= y < self.height,
    {
        self.data@[row_major(self.width as int, x, y)]
    }

    /// An all-zero buffer of the given dimensions.
    pub fn blank(width: usize, height: usize) -> (p: HeightBuf)
        requires
            width <= MAX_SIZE,
            height <= MAX_SIZE,
        ensures
            p.wf(),
            p.width == width,
            p.height == height,
            forall|x: int, y: int|
                0 <= x < width && 0 <= y < height ==> #[trigger] p.sample(x, y) == 0u32,
    {
        proof {
            assert(width * height <= 2048 * 2048) by (nonlinear_arith)
                requires
                    width <= 2048,
                    height <= 2048,
            ;
        }
        let total: usize = width * height;
        let mut data: Vec<u32> = Vec::new();
        let mut i: usize = 0;
        while i < total
            invariant
                i <= total,
                data@.len() == i,
                forall|k: int| 0 <= k < i ==> data@[k] == 0u32,
            decreases total - i,
        {
            data.push(0u32);
            i = i + 1;
        }
        let p = HeightBuf { width, height, data };
        assert forall|x: int, y: int|
            0 <= x < width && 0 <= y < height implies #[trigger] p.sample(x, y) == 0u32 by {
            lemma_row_major(width as int, height as int, x, y, x, y);
        }
        p
    }

    /// Read the sample at `(x, y)`.
    pub fn get_sample(&self, x: usize, y: usize) -> (v: u32)
        requires
            self.wf(),
            x < self.width,
            y < self.height,
        ensures
            v == self.sample(x as int, y as int),
    {
        proof {
            assert(self.data.len() == self.data@.len());
            lemma_row_major(
                self.width as int,
                self.height as int,
                x as int,
                y as int,
                x as int,
                y as int,
            );
        }
        let i: usize = y * self.width + x;
        self.data[i]
    }

    /// Overwrite the sample at `(x, y)`, leaving every other sample as it was.
    pub fn set_sample(&mut self, x: usize, y: usize, v: u32)
        requires
            old(self).wf(),
            x < old(self).width,
            y < old(self).height,
        ensures
            final(self).wf(),
            final(self).width == old(self).width,
            final(self).height == old(self).height,
            final(self).sample(x as int, y as int) == v,
            forall|x2: int, y2: int|
                0 <= x2 < old(self).width && 0 <= y2 < old(self).height && (x2, y2) != (
                x as int,
                y as int,
                ) ==> #[trigger] final(self).sample(x2, y2) == old(self).sample(x2, y2),
    {
        proof {
            assert(self.data.len() == self.data@.len());
            lemma_row_major(
                self.width as int,
                self.height as int,
                x as int,
                y as int,
                x as int,
                y as int,
            );
        }
        let i: usize = y * self.width + x;
        self.data[i] = v;
        assert forall|x2: int, y2: int|
            0 <= x2 < self.width && 0 <= y2 < self.height && (x2, y2) != (
            x as int,
            y as int,
            ) implies #[trigger] self.sample(x2, y2) == old(self).sample(x2, y2) by {
            lemma_row_major(self.width as int, self.height as int, x2, y2, x as int, y as int);
        }
    }
}

/// A growable height canvas: an optional sample buffer anchored at an
/// integer offset. `data` is `None` until the first accepted growth.
pub struct Heightmap {
    pub data: Option<HeightBuf>,
    pub offset: IVec2,
}

impl Heightmap {
    pub open spec fn wf(self) -> bool {
        match self.data {
            None => true,
            Some(p) => p.wf() && self.offset.x + p.width <= i32::MAX && self.offset.y + p.height
                <= i32::MAX,
        }
    }

    /// The currently allocated bounds, `None` while nothing was painted.
    pub open spec fn spec_bounding_box(self) -> Option<Rect> {
        match self.data {
            None => None,
            Some(p) => Some(
                Rect {
                    min: self.offset,
                    max: IVec2 {
                        x: (self.offset.x + p.width) as i32,
                        y: (self.offset.y + p.height) as i32,
                    },
                },
            ),
        }
    }

    /// The height bits at a world point, `None` outside the bounds.
    pub open spec fn spec_height_at(self, x: int, y: int) -> Option<u32> {
        match self.spec_bounding_box() {
            None => None,
            Some(bb) => if bb.contains(x, y) {
                Some(self.data->0.sample(x - self.offset.x, y - self.offset.y))
            } else {
                None
            },
        }
    }

    /// An empty height canvas.
    pub fn new() -> (t: Heightmap)
        ensures
            t.wf(),
            t.data is None,
            t.offset == (IVec2 { x: 0, y: 0 }),
            t.spec_bounding_box() is None,
    {
        Heightmap { data: None, offset: IVec2 { x: 0, y: 0 } }
    }

    /// A height canvas adopting an existing buffer (for example one decoded
    /// from a scene file) at the given offset.
    pub fn from(data: Option<HeightBuf>, offset: IVec2) -> (t: Heightmap)
        requires
            (Heightmap { data, offset }).wf(),
        ensures
            t.wf(),
            t == (Heightmap { data, offset }),
    {
        Heightmap { data, offset }
    }

    pub fn bounding_box(&self) -> (r: Option<Rect>)
        requires
            self.wf(),
        ensures
            r == self.spec_bounding_box(),
            r matches Some(bb) ==> bb.wf(),
    {
        match &self.data {
            None => None,
            Some(p) => Some(
                Rect {
                    min: self.offset,
                    max: IVec2 {
                        x: (self.offset.x as i64 + p.width as i64) as i32,
                        y: (self.offset.y as i64 + p.height as i64) as i32,
                    },
                },
            ),
        }
    }

    /// Grow the canvas so its bounds cover `bb`, if the result stays within
    /// the cap; report whether they now do. Existing samples are preserved;
    /// newly covered points read as the zero height.
    pub fn ensure_bounds(&mut self, bb: Rect) -> (ok: bool)
        requires
            old(self).wf(),
            bb.wf(),
        ensures
            final(self).wf(),
            ok == fits_cap(grow_target(old(self).spec_bounding_box(), bb)),
            final(self).spec_bounding_box() == grow_step(old(self).spec_bounding_box(), bb),
            !ok ==> *final(self) == *old(self),
            forall|x: int, y: int|
                old(self).spec_height_at(x, y) is Some ==> #[trigger] final(self).spec_height_at(
                    x,
                    y,
                ) == old(self).spec_height_at(x, y),
            forall|x: int, y: int|
                old(self).spec_height_at(x, y) is None ==> #[trigger] final(self).spec_height_at(
                    x,
                    y,
                ) == (match final(self).spec_bounding_box() {
                    Some(b) => if b.contains(x, y) {
                        Some(0u32)
                    } else {
                        None
                    },
                    None => None,
                }),
    {
        let current = self.bounding_box();
        let target: Rect = match current {
            None => bb,
            Some(b) => b.union_rect(&bb),
        };
        let w: i64 = target.max.x as i64 - target.min.x as i64;
        let h: i64 = target.max.y as i64 - target.min.y as i64;
        if w > MAX_SIZE as i64 || h > MAX_SIZE as i64 {
            return false;
        }
        if let Some(b) = current {
            if b == target {
                return true;
            }
        }
        let nw: usize = w as usize;
        let nh: usize = h as usize;
        let mut np = HeightBuf::blank(nw, nh);
        match &self.data {
            None => {},
            Some(p) => {
                proof {
                    assert(current == Some(
                        Rect {
                            min: self.offset,
                            max: IVec2 {
                                x: (self.offset.x + p.width) as i32,
                                y: (self.offset.y + p.height) as i32,
                            },
                        },
                    ));
                    assert(target.min.x <= self.offset.x && target.min.y <= self.offset.y);
                    assert(self.offset.x + p.width <= target.max.x);
                    assert(self.offset.y + p.height <= target.max.y);
                }
                let dx: usize = (self.offset.x as i64 - target.min.x as i64) as usize;
                let dy: usize = (self.offset.y as i64 - target.min.y as i64) as usize;
                let mut y: usize = 0;
                while y < p.height
                    invariant
                        p.wf(),
                        np.wf(),
                        np.width == nw,
                        np.height == nh,
                        y <= p.height,
                        dx + p.width <= nw,
                        dy + p.height <= nh,
                        forall|u: int, v: int|
                            0 <= u < nw && 0 <= v < nh ==> #[trigger] np.sample(u, v) == (if dx <= u
                                < dx + p.width && dy <= v < dy + y {
                                p.sample(u - dx, v - dy)
                            } else {
                                0u32
                            }),
                    decreases p.height - y,
                {
                    let mut x: usize = 0;
                    while x < p.width
                        invariant
                            p.wf(),
                            np.wf(),
                            np.width == nw,
                            np.height == nh,
                            y < p.height,
                            x <= p.width,
                            dx + p.width <= nw,
                            dy + p.height <= nh,
                            forall|u: int, v: int|
                                0 <= u < nw && 0 <= v < nh ==> #[trigger] np.sample(u, v) == (if dx
                                    <= u < dx + p.width && (dy <= v < dy + y || (v == dy + y && dx
                                    <= u < dx + x)) {
                                    p.sample(u - dx, v - dy)
                                } else {
                                    0u32
                                }),
                        decreases p.width - x,
                    {
                        let s = p.get_sample(x, y);
                        np.set_sample(x + dx, y + dy, s);
                        x = x + 1;
                    }
                    y = y + 1;
                }
            },
        }
        let ghost pre = *self;
        self.data = Some(np);
        self.offset = target.min;
        proof {
            assert forall|x: int, y: int|
                pre.spec_height_at(x, y) is Some implies #[trigger] self.spec_height_at(x, y)
                == pre.spec_height_at(x, y) by {
                match pre.spec_bounding_box() {
                    None => {},
                    Some(ob) => {
                        assert(ob.contains(x, y) <==> (pre.offset.x <= x < pre.offset.x
                            + pre.data->0.width && pre.offset.y <= y < pre.offset.y
                            + pre.data->0.height));
                    },
                }
            }
        }
        true
    }

    /// The height bits at a world point, `None` outside the bounds.
    pub fn get(&self, p: IVec2) -> (v: Option<u32>)
        requires
            self.wf(),
        ensures
            v == self.spec_height_at(p.x as int, p.y as int),
    {
        match self.bounding_box() {
            None => None,
            Some(bb) => {
                if bb.contains_point(p) {
                    let lx: usize = (p.x as i64 - self.offset.x as i64) as usize;
                    let ly: usize = (p.y as i64 - self.offset.y as i64) as usize;
                    match &self.data {
                        None => None,
                        Some(buf) => Some(buf.get_sample(lx, ly)),
                    }
                } else {
                    None
                }
            },
        }
    }

    /// Overwrite the height bits at a world point the bounds already cover;
    /// reports whether the point was covered (and so written).
    pub fn set(&mut self, p: IVec2, v: u32) -> (ok: bool)
        requires
            old(self).wf(),
        ensures
            final(self).wf(),
            ok == (old(self).spec_height_at(p.x as int, p.y as int) is Some),
            final(self).spec_bounding_box() == old(self).spec_bounding_box(),
            !ok ==> *final(self) == *old(self),
            forall|x: int, y: int| #[trigger]
                final(self).spec_height_at(x, y) == (if ok && x == p.x as int && y == p.y as int {
                    Some(v)
                } else {
                    old(self).spec_height_at(x, y)
                }),
    {
        match self.bounding_box() {
            None => false,
            Some(bb) => {
                if bb.contains_point(p) {
                    let lx: usize = (p.x as i64 - self.offset.x as i64) as usize;
                    let ly: usize = (p.y as i64 - self.offset.y as i64) as usize;
                    match &mut self.data {
                        None => false,
                        Some(buf) => {
                            buf.set_sample(lx, ly, v);
                            true
                        },
                    }
                } else {
                    false
                }
            },
        }
    }
}

impl Default for Heightmap {
    /// Same as [`Heightmap::new`]: an empty canvas.
    fn default() -> (t: Heightmap)
        ensures
            t.wf(),
            t.data is None,
            t.offset == (IVec2 { x: 0, y: 0 }),
    {
        Heightmap::new()
    }
}

} // verus!
