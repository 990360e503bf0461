//! Integer plane geometry: points and axis-aligned rectangles.
//!
//! Canvas bounds are rectangles over `i32` coordinates with an inclusive
//! `min` corner and an exclusive `max` corner, so `max - min` is the size in
//! pixels along each axis.

use vstd::prelude::*;

verus! {

/// A point (or offset) on the integer pixel grid.
#[derive(Clone, Copy, PartialEq, Eq, Structural, Debug)]
pub struct IVec2 {
    pub x: i32,
    pub y: i32,
}

/// An axis-aligned rectangle: `min` inclusive, `max` exclusive.
#[derive(Clone, Copy, PartialEq, Eq, Structural, Debug)]
pub struct Rect {
    pub min: IVec2,
    pub max: IVec2,
}

impl Rect {
    /// A rectangle never has a negative size.
    pub open spec fn wf(self) -> bool {
        self.min.x <= self.max.x && self.min.y <= self.max.y
    }

    pub open spec fn width(self) -> int {
        self.max.x - self.min.x
    }

    pub open spec fn height(self) -> int {
        self.max.y - self.min.y
    }

    pub open spec fn contains(self, x: int, y: int) -> bool {
        self.min.x <= x < self.max.x && self.min.y <= y < self.max.y
    }

    /// The smallest rectangle covering both `self` and `other`.
    pub open spec fn union(self, other: Rect) -> Rect {
        Rect {
            min: IVec2 {
                x: if self.min.x <= other.min.x {
                    self.min.x
                } else {
                    other.min.x
                },
                y: if self.min.y <= other.min.y {
                    self.min.y
                } else {
                    other.min.y
                },
            },
            max: IVec2 {
                x: if self.max.x >= other.max.x {
                    self.max.x
                } else {
                    other.max.x
                },
                y: if self.max.y >= other.max.y {
                    self.max.y
                } else {
                    other.max.y
                },
            },
        }
    }

    /// Union covers both arguments, and nothing outside them along each axis.
    pub proof fn lemma_union_covers(self, other: Rect)
        ensures
            forall|x: int, y: int|
                self.contains(x, y) || other.contains(x, y) ==> self.union(other).contains(x, y),
            self.wf() && other.wf() ==> self.union(other).wf(),
    {
    }

    /// Union is associative and commutative, so growing a canvas by a batch
    /// of requests covers the same area in any order.
    pub proof fn lemma_union_algebra(a: Rect, b: Rect, c: Rect)
        ensures
            a.union(b) == b.union(a),
            a.union(b).union(c) == a.union(b.union(c)),
            a.union(a) == a,
    {
    }

    /// Exec union of two rectangles.
    pub fn union_rect(&self, other: &Rect) -> (r: Rect)
        ensures
            r == self.union(*other),
    {
        Rect {
            min: IVec2 {
                x: if self.min.x <= other.min.x {
                    self.min.x
                } else {
                    other.min.x
                },
                y: if self.min.y <= other.min.y {
                    self.min.y
                } else {
                    other.min.y
                },
            },
            max: IVec2 {
                x: if self.max.x >= other.max.x {
                    self.max.x
                } else {
                    other.max.x
                },
                y: if self.max.y >= other.max.y {
                    self.max.y
                } else {
                    other.max.y
                },
            },
        }
    }

    /// Exec membership test.
    pub fn contains_point(&self, p: IVec2) -> (r: bool)
        ensures
            r == self.contains(p.x as int, p.y as int),
    {
        self.min.x <= p.x && p.x < self.max.x && self.min.y <= p.y && p.y < self.max.y
    }
}

/// A 4x4 `f32` transform, held as raw bit patterns so that the scene model
/// and the file format stay free of float arithmetic. `mRC` is row `R`,
/// column `C`; the renderer interprets the bits.
#[derive(Clone, Copy, PartialEq, Eq, Structural, Debug)]
pub struct Mat4 {
    pub m00: u32,
    pub m01: u32,
    pub m02: u32,
    pub m03: u32,
    pub m10: u32,
    pub m11: u32,
    pub m12: u32,
    pub m13: u32,
    pub m20: u32,
    pub m21: u32,
    pub m22: u32,
    pub m23: u32,
    pub m30: u32,
    pub m31: u32,
    pub m32: u32,
    pub m33: u32,
}

/// The bit pattern of `1.0_f32`.
pub const ONE_F32_BITS: u32 = 0x3F80_0000;

impl Mat4 {
    /// The identity transform: ones (as `f32` bits) on the diagonal.
    pub open spec fn spec_identity() -> Mat4 {
        Mat4 {
            m00: ONE_F32_BITS,
            m01: 0,
            m02: 0,
            m03: 0,
            m10: 0,
            m11: ONE_F32_BITS,
            m12: 0,
            m13: 0,
            m20: 0,
            m21: 0,
            m22: ONE_F32_BITS,
            m23: 0,
            m30: 0,
            m31: 0,
            m32: 0,
            m33: ONE_F32_BITS,
        }
    }

    pub fn identity() -> (m: Mat4)
        ensures
            m == Mat4::spec_identity(),
    {
        Mat4 {
            m00: ONE_F32_BITS,
            m01: 0,
            m02: 0,
            m03: 0,
            m10: 0,
            m11: ONE_F32_BITS,
            m12: 0,
            m13: 0,
            m20: 0,
            m21: 0,
            m22: ONE_F32_BITS,
            m23: 0,
            m30: 0,
            m31: 0,
            m32: 0,
            m33: ONE_F32_BITS,
        }
    }
}

} // verus!
