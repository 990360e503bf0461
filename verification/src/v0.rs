//! The first, unversioned scene document schema.
//!
//! Frozen: files written by the oldest tool generation decode into these
//! records, which then migrate forward through [`crate::v1`]. Nothing ever
//! writes this schema any more.
//!
//! Image paths are kept as raw bytes; the application interprets them as
//! file-system paths when it resolves externally referenced images.

use vstd::prelude::*;

use crate::geom::{IVec2, Mat4};

verus! {

/// An image payload: either a reference to an external file to load, or
/// embedded raw RGBA bytes with explicit pixel dimensions.
pub enum Image {
    Load(Vec<u8>),
    Embed { size_x: u64, size_y: u64, data: Vec<u8> },
}

pub struct Plane {
    pub image: Option<Image>,
    pub offset: IVec2,
    pub transform: Mat4,
}

pub struct Pp {
    pub planes: Vec<Plane>,
}

/// Mathematical value of an [`Image`].
pub enum ImageView {
    Load { path: Seq<u8> },
    Embed { size_x: u64, size_y: u64, data: Seq<u8> },
}

/// Mathematical value of a [`Plane`].
pub struct PlaneView {
    pub image: Option<ImageView>,
    pub offset: IVec2,
    pub transform: Mat4,
}

/// Mathematical value of a [`Pp`].
pub struct PpView {
    pub planes: Seq<PlaneView>,
}

impl View for Image {
    type V = ImageView;

    open spec fn view(&self) -> ImageView {
        match self {
            Image::Load(path) => ImageView::Load { path: path@ },
            Image::Embed { size_x, size_y, data } => ImageView::Embed {
                size_x: *size_x,
                size_y: *size_y,
                data: data@,
            },
        }
    }
}

impl View for Plane {
    type V = PlaneView;

    open spec fn view(&self) -> PlaneView {
        PlaneView {
            image: match &self.image {
                None => None,
                Some(i) => Some(i@),
            },
            offset: self.offset,
            transform: self.transform,
        }
    }
}

impl View for Pp {
    type V = PpView;

    open spec fn view(&self) -> PpView {
        PpView { planes: Seq::new(self.planes@.len(), |i: int| self.planes@[i]@) }
    }
}

impl ImageView {
    /// Lengths small enough for their 64-bit length prefixes on the wire.
    pub open spec fn wf(self) -> bool {
        match self {
            ImageView::Load { path } => path.len() <= u64::MAX,
            ImageView::Embed { size_x, size_y, data } => data.len() <= u64::MAX,
        }
    }
}

impl PlaneView {
    pub open spec fn wf(self) -> bool {
        match self.image {
            None => true,
            Some(i) => i.wf(),
        }
    }
}

impl PpView {
    pub open spec fn wf(self) -> bool {
        self.planes.len() <= u64::MAX && forall|i: int|
            0 <= i < self.planes.len() ==> #[trigger] self.planes[i].wf()
    }
}

} // verus!
