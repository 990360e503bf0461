//! A paintable plane: an image canvas, an optional height canvas, and the
//! transform placing the unit square in world space.
//!
//! The original tool also intersects view rays with planes to pick them;
//! that is float geometry performed by the renderer and lives with the
//! application, not here.

use vstd::prelude::*;

use crate::geom::Mat4;
use crate::heightmap::Heightmap;
use crate::texture::Texture;

verus! {

pub struct Plane {
    pub texture: Texture,
    pub heightmap: Option<Heightmap>,
    pub transform: Mat4,
}

impl Plane {
    pub open spec fn wf(self) -> bool {
        self.texture.wf() && match self.heightmap {
            None => true,
            Some(h) => h.wf(),
        }
    }
}

} // verus!
