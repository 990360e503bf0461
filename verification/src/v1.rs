//! The current scene document schema, and the migration from [`crate::v0`].
//!
//! Compared with the first generation, every image carries its own offset
//! (instead of one per plane) and a plane may carry an embedded heightmap.
//! Height samples are `f32` bit patterns, kept as `u32`.
//!
//! The records are frozen: evolving the format means adding a new schema
//! module with its own migration, never editing this one.

use vstd::prelude::*;

use crate::geom::{IVec2, Mat4};
use crate::v0;

verus! {

/// The version byte written after the versioned header.
pub const VERSION: u8 = 1;

/// An image payload: either a reference to an external file to load, or
/// embedded raw RGBA bytes with explicit pixel dimensions.
pub enum ImageData {
    Load(Vec<u8>),
    Embed { size_x: u64, size_y: u64, data: Vec<u8> },
}

pub struct Image {
    pub data: ImageData,
    pub offset: IVec2,
}

/// A heightmap payload: embedded raw samples, `size_x * size_y` of them,
/// row-major.
pub enum HeightmapData {
    Embed { size_x: u64, size_y: u64, values: Vec<u32> },
}

pub struct Heightmap {
    pub data: HeightmapData,
    pub offset: IVec2,
}

pub struct Plane {
    pub image: Option<Image>,
    pub heightmap: Option<Heightmap>,
    pub transform: Mat4,
}

pub struct Pp {
    pub planes: Vec<Plane>,
}

/// Mathematical value of an [`ImageData`].
pub enum ImageDataView {
    Load { path: Seq<u8> },
    Embed { size_x: u64, size_y: u64, data: Seq<u8> },
}

/// Mathematical value of an [`Image`].
pub struct ImageView {
    pub data: ImageDataView,
    pub offset: IVec2,
}

/// Mathematical value of a [`HeightmapData`].
pub struct HeightmapDataView {
    pub size_x: u64,
    pub size_y: u64,
    pub values: Seq<u32>,
}

/// Mathematical value of a [`Heightmap`].
pub struct HeightmapView {
    pub data: HeightmapDataView,
    pub offset: IVec2,
}

/// Mathematical value of a [`Plane`].
pub struct PlaneView {
    pub image: Option<ImageView>,
    pub heightmap: Option<HeightmapView>,
    pub transform: Mat4,
}

/// Mathematical value of a [`Pp`].
pub struct PpView {
    pub planes: Seq<PlaneView>,
}

impl View for ImageData {
    type V = ImageDataView;

    open spec fn view(&self) -> ImageDataView {
        match self {
            ImageData::Load(path) => ImageDataView::Load { path: path@ },
            ImageData::Embed { size_x, size_y, data } => ImageDataView::Embed {
                size_x: *size_x,
                size_y: *size_y,
                data: data@,
            },
        }
    }
}

impl View for Image {
    type V = ImageView;

    open spec fn view(&self) -> ImageView {
        ImageView { data: self.data@, offset: self.offset }
    }
}

impl View for HeightmapData {
    type V = HeightmapDataView;

    open spec fn view(&self) -> HeightmapDataView {
        match self {
            HeightmapData::Embed { size_x, size_y, values } => HeightmapDataView {
                size_x: *size_x,
                size_y: *size_y,
                values: values@,
            },
        }
    }
}

impl View for Heightmap {
    type V = HeightmapView;

    open spec fn view(&self) -> HeightmapView {
        HeightmapView { data: self.data@, offset: self.offset }
    }
}

impl View for Plane {
    type V = PlaneView;

    open spec fn view(&self) -> PlaneView {
        PlaneView {
            image: match &self.image {
                None => None,
                Some(i) => Some(i@),
            },
            heightmap: match &self.heightmap {
                None => None,
                Some(h) => Some(h@),
            },
            transform: self.transform,
        }
    }
}

impl View for Pp {
    type V = PpView;

    open spec fn view(&self) -> PpView {
        PpView { planes: Seq::new(self.planes@.len(), |i: int| self.planes@[i]@) }
    }
}

impl ImageDataView {
    /// Lengths small enough for their 64-bit length prefixes on the wire.
    pub open spec fn wf(self) -> bool {
        match self {
            ImageDataView::Load { path } => path.len() <= u64::MAX,
            ImageDataView::Embed { size_x, size_y, data } => data.len() <= u64::MAX,
        }
    }
}

impl HeightmapDataView {
    /// The sample count matches the declared dimensions, whose product the
    /// wire format leaves implicit.
    pub open spec fn wf(self) -> bool {
        self.values.len() == self.size_x * self.size_y
    }
}

impl PlaneView {
    pub open spec fn wf(self) -> bool {
        (match self.image {
            None => true,
            Some(i) => i.data.wf(),
        }) && match self.heightmap {
            None => true,
            Some(h) => h.data.wf(),
        }
    }
}

impl PpView {
    pub open spec fn wf(self) -> bool {
        self.planes.len() <= u64::MAX && forall|i: int|
            0 <= i < self.planes.len() ==> #[trigger] self.planes[i].wf()
    }
}

/// What migration does to a v0 image payload: the variant carries over.
pub open spec fn migrate_image_data(old: v0::ImageView) -> ImageDataView {
    match old {
        v0::ImageView::Load { path } => ImageDataView::Load { path },
        v0::ImageView::Embed { size_x, size_y, data } => ImageDataView::Embed {
            size_x,
            size_y,
            data,
        },
    }
}

/// What migration does to a v0 plane: the plane's offset becomes the image's
/// own offset, the heightmap (which v0 could not store) is absent, and the
/// transform carries over unchanged.
pub open spec fn migrate_plane(old: v0::PlaneView) -> PlaneView {
    PlaneView {
        image: match old.image {
            None => None,
            Some(i) => Some(ImageView { data: migrate_image_data(i), offset: old.offset }),
        },
        heightmap: None,
        transform: old.transform,
    }
}

/// What migration does to a whole v0 document: each plane in order.
pub open spec fn migrate_pp(old: v0::PpView) -> PpView {
    PpView { planes: old.planes.map_values(|p: v0::PlaneView| migrate_plane(p)) }
}

/// Migration preserves well-formedness: lengths carry over and the migrated
/// planes hold no heightmap.
pub proof fn lemma_migrate_wf(old: v0::PpView)
    requires
        old.wf(),
    ensures
        migrate_pp(old).wf(),
{
    assert forall|i: int| 0 <= i < migrate_pp(old).planes.len() implies #[trigger] migrate_pp(
        old,
    ).planes[i].wf() by {
        assert(old.planes[i].wf());
    }
}

impl ImageData {
    /// Upgrade a v0 image payload.
    pub fn from(old: v0::Image) -> (r: ImageData)
        ensures
            r@ == migrate_image_data(old@),
    {
        match old {
            v0::Image::Load(path) => ImageData::Load(path),
            v0::Image::Embed { size_x, size_y, data } => ImageData::Embed { size_x, size_y, data },
        }
    }
}

impl Plane {
    /// Upgrade a v0 plane.
    pub fn from(old: v0::Plane) -> (r: Plane)
        ensures
            r@ == migrate_plane(old@),
    {
        let v0::Plane { image, offset, transform } = old;
        Plane {
            image: match image {
                None => None,
                Some(i) => Some(Image { data: ImageData::from(i), offset }),
            },
            heightmap: None,
            transform,
        }
    }
}

impl Pp {
    /// Upgrade a whole v0 document, plane by plane, keeping their order.
    pub fn from(old: v0::Pp) -> (r: Pp)
        ensures
            r@ == migrate_pp(old@),
    {
        let ghost old_view = old@;
        let v0::Pp { mut planes } = old;
        let ghost n = planes@.len();
        let mut rev: Vec<Plane> = Vec::new();
        while planes.len() > 0
            invariant
                planes@.len() + rev@.len() == n,
                forall|i: int| 0 <= i < planes@.len() ==> planes@[i]@ == old_view.planes[i],
                forall|j: int|
                    0 <= j < rev@.len() ==> #[trigger] rev@[j]@ == migrate_plane(
                        old_view.planes[n - 1 - j],
                    ),
            decreases planes@.len(),
        {
            let p = planes.pop().unwrap();
            rev.push(Plane::from(p));
        }
        let mut out: Vec<Plane> = Vec::new();
        while rev.len() > 0
            invariant
                rev@.len() + out@.len() == n,
                forall|j: int|
                    0 <= j < rev@.len() ==> #[trigger] rev@[j]@ == migrate_plane(
                        old_view.planes[n - 1 - j],
                    ),
                forall|i: int|
                    0 <= i < out@.len() ==> #[trigger] out@[i]@ == migrate_plane(
                        old_view.planes[i],
                    ),
            decreases rev@.len(),
        {
            let p = rev.pop().unwrap();
            out.push(p);
        }
        let r = Pp { planes: out };
        proof {
            assert(r@.planes =~= migrate_pp(old_view).planes);
        }
        r
    }
}

} // verus!
