//! Scene persistence and growable raster canvases for a 3D texture-painting
//! tool.
//!
//! The library has two halves:
//!
//! * growable canvases ([`texture::Texture`] for RGBA images,
//!   [`heightmap::Heightmap`] for scalar height samples) that extend their
//!   backing store on demand, preserve painted content across growth, and
//!   refuse growth past a maximum extent; and
//! * a versioned binary scene file format: frozen per-version document
//!   schemas ([`v0`], [`v1`]) with a pure migration chain, a byte-level
//!   codec ([`codec`]), and the on-disk envelope
//!   (header, version byte, gzip-compressed payload) in [`file_format`].
//!
//! Rendering, windowing and input belong to the surrounding application and
//! are not represented here; the canvases hold plain pixel data.

use vstd::prelude::*;

pub mod codec;
pub mod codec_v0;
pub mod codec_v1;
pub mod config;
pub mod file_format;
pub mod geom;
pub mod gzip;
pub mod heightmap;
pub mod keybind;
pub mod materialize;
pub mod plane;
pub mod texture;
pub mod v0;
pub mod v1;
pub mod wire;

verus! {

/// A live scene: the ordered planes being edited. Order is significant — it
/// is the draw and selection-cycle order — and every operation, including
/// save and load, preserves it.
pub struct Model {
    pub planes: Vec<plane::Plane>,
}

impl Model {
    pub open spec fn wf(self) -> bool {
        forall|i: int| 0 <= i < self.planes@.len() ==> #[trigger] self.planes@[i].wf()
    }

    /// An empty scene.
    pub fn new() -> (m: Model)
        ensures
            m.wf(),
            m.planes@.len() == 0,
    {
        Model { planes: Vec::new() }
    }
}

} // verus!
