//! Between live scenes and scene documents.
//!
//! A save turns the live [`Model`] into a current-schema document — every
//! canvas becomes an embedded image, byte for byte. A load turns a decoded
//! document back into a live scene, validating that every embedded payload
//! fits its declared dimensions and placement. The two directions are
//! mutually inverse: the document a materialized scene presents is exactly
//! the document it was materialized from.

use vstd::prelude::*;

use crate::geom::IVec2;
use crate::heightmap::{HeightBuf, Heightmap};
use crate::plane::Plane;
use crate::texture::{PixelBuf, Rgba8, Texture};
use crate::v1;
use crate::Model;

verus! {

// ------------------------------------------------------- pixels <-> bytes
/// Byte `k` (0 to 3) of one RGBA sample.
pub open spec fn pix_byte(p: Rgba8, k: int) -> u8 {
    if k == 0 {
        p.r
    } else if k == 1 {
        p.g
    } else if k == 2 {
        p.b
    } else {
        p.a
    }
}

/// Samples flattened to raw RGBA bytes, four per pixel.
pub open spec fn pixels_to_bytes(ps: Seq<Rgba8>) -> Seq<u8> {
    Seq::new(4 * ps.len(), |i: int| pix_byte(ps[i / 4], i % 4))
}

/// Raw RGBA bytes grouped into samples, four bytes each.
pub open spec fn bytes_to_pixels(bs: Seq<u8>) -> Seq<Rgba8> {
    Seq::new(
        (bs.len() as int / 4) as nat,
        |k: int|
            Rgba8 { r: bs[4 * k], g: bs[4 * k + 1], b: bs[4 * k + 2], a: bs[4 * k + 3] },
    )
}

/// Grouping inverts flattening.
pub proof fn lemma_pixels_bytes_roundtrip(ps: Seq<Rgba8>)
    ensures
        bytes_to_pixels(pixels_to_bytes(ps)) == ps,
{
    let bs = pixels_to_bytes(ps);
    assert forall|k: int| 0 <= k < ps.len() implies bytes_to_pixels(bs)[k] == ps[k] by {
        assert(bs[4 * k] == pix_byte(ps[(4 * k) / 4], (4 * k) % 4));
        assert(bs[4 * k + 1] == pix_byte(ps[(4 * k + 1) / 4], (4 * k + 1) % 4));
        assert(bs[4 * k + 2] == pix_byte(ps[(4 * k + 2) / 4], (4 * k + 2) % 4));
        assert(bs[4 * k + 3] == pix_byte(ps[(4 * k + 3) / 4], (4 * k + 3) % 4));
    }
    assert(bytes_to_pixels(bs) =~= ps);
}

/// Flattening inverts grouping, on byte strings of whole samples.
pub proof fn lemma_bytes_pixels_roundtrip(bs: Seq<u8>)
    requires
        bs.len() % 4 == 0,
    ensures
        pixels_to_bytes(bytes_to_pixels(bs)) == bs,
{
    let ps = bytes_to_pixels(bs);
    assert forall|i: int| 0 <= i < bs.len() implies pixels_to_bytes(ps)[i] == bs[i] by {
        assert(4 * (i / 4) + i % 4 == i);
        assert(0 <= i / 4 < ps.len());
        assert(pixels_to_bytes(ps)[i] == pix_byte(ps[i / 4], i % 4));
    }
    assert(pixels_to_bytes(ps) =~= bs);
}

/// Exec flattening.
pub fn pixels_to_bytes_exec(ps: &Vec<Rgba8>) -> (r: Vec<u8>)
    ensures
        r@ == pixels_to_bytes(ps@),
{
    let n: usize = ps.len();
    proof {
        assert(4 * n <= 4 * usize::MAX);
    }
    let mut out: Vec<u8> = Vec::new();
    let mut k: usize = 0;
    while k < n
        invariant
            k <= n,
            n == ps@.len(),
            out@.len() == 4 * k,
            forall|i: int| 0 <= i < 4 * k ==> #[trigger] out@[i] == pix_byte(ps@[i / 4], i % 4),
        decreases n - k,
    {
        let p = ps[k];
        out.push(p.r);
        out.push(p.g);
        out.push(p.b);
        out.push(p.a);
        proof {
            assert forall|i: int| 0 <= i < 4 * (k + 1) implies #[trigger] out@[i] == pix_byte(
                ps@[i / 4],
                i % 4,
            ) by {
                if i >= 4 * k {
                    assert(i / 4 == k as int);
                }
            }
        }
        k = k + 1;
    }
    assert(out@ =~= pixels_to_bytes(ps@));
    out
}

/// Exec grouping.
pub fn bytes_to_pixels_exec(bs: &Vec<u8>) -> (r: Vec<Rgba8>)
    requires
        bs@.len() % 4 == 0,
    ensures
        r@ == bytes_to_pixels(bs@),
{
    let n: usize = bs.len();
    let count: usize = n / 4;
    let mut out: Vec<Rgba8> = Vec::new();
    let mut k: usize = 0;
    while k < count
        invariant
            k <= count,
            count == bs@.len() as int / 4,
            n == bs@.len(),
            out@.len() == k,
            forall|j: int| 0 <= j < k ==> #[trigger] out@[j] == bytes_to_pixels(bs@)[j],
        decreases count - k,
    {
        proof {
            assert(4 * (k as int) + 3 < n);
        }
        let p = Rgba8 { r: bs[4 * k], g: bs[4 * k + 1], b: bs[4 * k + 2], a: bs[4 * k + 3] };
        out.push(p);
        k = k + 1;
    }
    assert(out@ =~= bytes_to_pixels(bs@));
    out
}

/// Exec copy of a sample vector.
pub fn copy_u32s(vs: &Vec<u32>) -> (r: Vec<u32>)
    ensures
        r@ == vs@,
{
    let n: usize = vs.len();
    let mut out: Vec<u32> = Vec::new();
    let mut i: usize = 0;
    while i < n
        invariant
            i <= n,
            n == vs@.len(),
            out@ == vs@.take(i as int),
        decreases n - i,
    {
        out.push(vs[i]);
        assert(out@ =~= vs@.take(i + 1));
        i = i + 1;
    }
    assert(vs@.take(n as int) =~= vs@);
    out
}

// ------------------------------------------------------- scene -> document
/// The image record a canvas saves as: its pixels embedded, at its offset.
pub open spec fn doc_of_texture(t: Texture) -> Option<v1::ImageView> {
    match t.pixels {
        None => None,
        Some(buf) => Some(
            v1::ImageView {
                data: v1::ImageDataView::Embed {
                    size_x: buf.width as u64,
                    size_y: buf.height as u64,
                    data: pixels_to_bytes(buf.data@),
                },
                offset: t.offset,
            },
        ),
    }
}

/// The heightmap record a height canvas saves as. An empty canvas saves as
/// no heightmap at all.
pub open spec fn doc_of_heightmap(h: Heightmap) -> Option<v1::HeightmapView> {
    match h.data {
        None => None,
        Some(buf) => Some(
            v1::HeightmapView {
                data: v1::HeightmapDataView {
                    size_x: buf.width as u64,
                    size_y: buf.height as u64,
                    values: buf.data@,
                },
                offset: h.offset,
            },
        ),
    }
}

pub open spec fn doc_of_plane(p: Plane) -> v1::PlaneView {
    v1::PlaneView {
        image: doc_of_texture(p.texture),
        heightmap: match p.heightmap {
            None => None,
            Some(h) => doc_of_heightmap(h),
        },
        transform: p.transform,
    }
}

/// The document a scene saves as.
pub open spec fn doc_of_model(m: Model) -> v1::PpView {
    v1::PpView { planes: Seq::new(m.planes@.len(), |i: int| doc_of_plane(m.planes@[i])) }
}

/// A scene in the form a load produces: an empty canvas sits at the zero
/// offset, and a present heightmap holds a buffer. Exactly these scenes are
/// recovered bit-for-bit by a save and load.
pub open spec fn plane_normal(p: Plane) -> bool {
    (p.texture.pixels is None ==> p.texture.offset == (IVec2 { x: 0, y: 0 })) && (match p
        .heightmap {
        None => true,
        Some(h) => h.data is Some,
    })
}

pub open spec fn model_normal(m: Model) -> bool {
    forall|i: int| 0 <= i < m.planes@.len() ==> #[trigger] plane_normal(m.planes@[i])
}

/// The document of a well-formed scene is well-formed.
pub proof fn lemma_doc_of_wf(m: Model)
    requires
        m.wf(),
    ensures
        doc_of_model(m).wf(),
{
    let d = doc_of_model(m);
    assert(m.planes.len() == m.planes@.len());
    assert(d.planes.len() <= u64::MAX);
    assert forall|i: int| 0 <= i < d.planes.len() implies #[trigger] d.planes[i].wf() by {
        assert(m.planes@[i].wf());
        let p = m.planes@[i];
        match p.texture.pixels {
            None => {},
            Some(buf) => {
                assert(buf.data@.len() == buf.width * buf.height);
                assert(4 * (buf.width * buf.height) <= u64::MAX) by (nonlinear_arith)
                    requires
                        buf.width <= 0x7fff_ffff,
                        buf.height <= 0x7fff_ffff,
                ;
            },
        }
        match p.heightmap {
            None => {},
            Some(h) => {
                match h.data {
                    None => {},
                    Some(buf) => {
                        assert(buf.data@.len() == buf.width * buf.height);
                    },
                }
            },
        }
    }
}

// ------------------------------------------------------- document -> scene
/// What keeps a document record from becoming a live scene object.
pub enum DocIssue {
    /// The image is an external path reference; only the application's
    /// asset loader can resolve those.
    External,
    /// The embedded image contradicts its declared dimensions or placement.
    BadImage,
    /// The embedded heightmap contradicts its declared dimensions or
    /// placement.
    BadHeightmap,
}

pub open spec fn issue_error(e: DocIssue) -> crate::file_format::LoadError {
    match e {
        DocIssue::External => crate::file_format::LoadError::ExternalImage,
        DocIssue::BadImage => crate::file_format::LoadError::BadImage,
        DocIssue::BadHeightmap => crate::file_format::LoadError::BadHeightmap,
    }
}

/// Whether an image record can become a live canvas: embedded, dimensions
/// within the coordinate range, exactly four bytes per declared pixel, and
/// placement whose far corner stays representable.
pub open spec fn image_issue(o: Option<v1::ImageView>) -> Option<DocIssue> {
    match o {
        None => None,
        Some(i) => match i.data {
            v1::ImageDataView::Load { .. } => Some(DocIssue::External),
            v1::ImageDataView::Embed { size_x, size_y, data } => if size_x <= i32::MAX && size_y
                <= i32::MAX && data.len() == 4 * size_x * size_y && i.offset.x + size_x
                <= i32::MAX && i.offset.y + size_y <= i32::MAX {
                None
            } else {
                Some(DocIssue::BadImage)
            },
        },
    }
}

/// The heightmap counterpart: one sample per declared cell.
pub open spec fn hm_issue(o: Option<v1::HeightmapView>) -> Option<DocIssue> {
    match o {
        None => None,
        Some(h) => if h.data.size_x <= i32::MAX && h.data.size_y <= i32::MAX && h.data.values.len()
            == h.data.size_x * h.data.size_y && h.offset.x + h.data.size_x <= i32::MAX && h.offset.y
            + h.data.size_y <= i32::MAX {
            None
        } else {
            Some(DocIssue::BadHeightmap)
        },
    }
}

/// A plane's first obstacle: its image's, else its heightmap's.
pub open spec fn plane_issue(p: v1::PlaneView) -> Option<DocIssue> {
    if image_issue(p.image) is Some {
        image_issue(p.image)
    } else {
        hm_issue(p.heightmap)
    }
}

/// A document's first obstacle, scanning the planes in order.
pub open spec fn doc_issue(ps: Seq<v1::PlaneView>) -> Option<DocIssue>
    decreases ps.len(),
{
    if ps.len() == 0 {
        None
    } else if plane_issue(ps[0]) is Some {
        plane_issue(ps[0])
    } else {
        doc_issue(ps.drop_first())
    }
}

pub proof fn lemma_doc_issue_none(ps: Seq<v1::PlaneView>)
    requires
        forall|i: int| 0 <= i < ps.len() ==> #[trigger] plane_issue(ps[i]) is None,
    ensures
        doc_issue(ps) is None,
    decreases ps.len(),
{
    if ps.len() > 0 {
        assert forall|i: int| 0 <= i < ps.drop_first().len() implies #[trigger] plane_issue(
            ps.drop_first()[i],
        ) is None by {
            assert(ps.drop_first()[i] == ps[i + 1]);
        }
        lemma_doc_issue_none(ps.drop_first());
    }
}

pub proof fn lemma_doc_issue_first(ps: Seq<v1::PlaneView>, j: int)
    requires
        0 <= j < ps.len(),
        forall|k: int| 0 <= k < j ==> #[trigger] plane_issue(ps[k]) is None,
        plane_issue(ps[j]) is Some,
    ensures
        doc_issue(ps) == plane_issue(ps[j]),
    decreases j,
{
    if j > 0 {
        assert(plane_issue(ps[0]) is None);
        assert forall|k: int| 0 <= k < j - 1 implies #[trigger] plane_issue(
            ps.drop_first()[k],
        ) is None by {
            assert(ps.drop_first()[k] == ps[k + 1]);
        }
        assert(ps.drop_first()[j - 1] == ps[j]);
        lemma_doc_issue_first(ps.drop_first(), j - 1);
    }
}

/// Turn an image record into a live canvas, or report exactly what is
/// wrong with it.
fn materialize_image(img: &v1::Image) -> (r: Result<Texture, crate::file_format::LoadError>)
    ensures
        match image_issue(Some(img@)) {
            None => r matches Ok(t) && t.wf() && doc_of_texture(t) == Some(img@),
            Some(e) => r == Err::<Texture, crate::file_format::LoadError>(issue_error(e)),
        },
{
    match &img.data {
        v1::ImageData::Load(_) => Err(crate::file_format::LoadError::ExternalImage),
        v1::ImageData::Embed { size_x, size_y, data } => {
            let sx: u64 = *size_x;
            let sy: u64 = *size_y;
            if sx > 0x7fff_ffffu64 || sy > 0x7fff_ffffu64 {
                return Err(crate::file_format::LoadError::BadImage);
            }
            proof {
                assert((4 * (sx as int)) * (sy as int) == 4 * ((sx as int) * (sy as int)) && (4 * (
                sx as int)) * (sy as int) <= 4 * 0x7fff_ffff * 0x7fff_ffff) by (nonlinear_arith)
                    requires
                        0 <= sx <= 0x7fff_ffff,
                        0 <= sy <= 0x7fff_ffff,
                ;
            }
            if (data.len() as u128) != 4u128 * (sx as u128) * (sy as u128) {
                return Err(crate::file_format::LoadError::BadImage);
            }
            if (img.offset.x as i64) + (sx as i64) > 0x7fff_ffffi64 {
                return Err(crate::file_format::LoadError::BadImage);
            }
            if (img.offset.y as i64) + (sy as i64) > 0x7fff_ffffi64 {
                return Err(crate::file_format::LoadError::BadImage);
            }
            proof {
                let t = (sx as int) * (sy as int);
                assert(data@.len() == 4 * t);
                assert((4 * t) % 4 == 0 && (4 * t) / 4 == t) by (nonlinear_arith);
            }
            let pixels = bytes_to_pixels_exec(data);
            let buf = PixelBuf { width: sx as usize, height: sy as usize, data: pixels };
            proof {
                assert(buf.data@.len() == (buf.width as int) * (buf.height as int));
                assert(buf.wf());
            }
            let t = Texture::from(Some(buf), img.offset);
            proof {
                lemma_bytes_pixels_roundtrip(data@);
            }
            Ok(t)
        },
    }
}

/// Turn a heightmap record into a live canvas, or report exactly what is
/// wrong with it.
fn materialize_heightmap(hm: &v1::Heightmap) -> (r: Result<
    Heightmap,
    crate::file_format::LoadError,
>)
    ensures
        match hm_issue(Some(hm@)) {
            None => r matches Ok(h) && h.wf() && h.data is Some && doc_of_heightmap(h) == Some(
                hm@,
            ),
            Some(e) => r == Err::<Heightmap, crate::file_format::LoadError>(issue_error(e)),
        },
{
    match &hm.data {
        v1::HeightmapData::Embed { size_x, size_y, values } => {
            let sx: u64 = *size_x;
            let sy: u64 = *size_y;
            if sx > 0x7fff_ffffu64 || sy > 0x7fff_ffffu64 {
                return Err(crate::file_format::LoadError::BadHeightmap);
            }
            proof {
                assert((sx as int) * (sy as int) <= 0x7fff_ffff * 0x7fff_ffff) by (nonlinear_arith)
                    requires
                        sx <= 0x7fff_ffff,
                        sy <= 0x7fff_ffff,
                ;
            }
            if (values.len() as u128) != (sx as u128) * (sy as u128) {
                return Err(crate::file_format::LoadError::BadHeightmap);
            }
            if (hm.offset.x as i64) + (sx as i64) > 0x7fff_ffffi64 {
                return Err(crate::file_format::LoadError::BadHeightmap);
            }
            if (hm.offset.y as i64) + (sy as i64) > 0x7fff_ffffi64 {
                return Err(crate::file_format::LoadError::BadHeightmap);
            }
            let buf = HeightBuf {
                width: sx as usize,
                height: sy as usize,
                data: copy_u32s(values),
            };
            Ok(Heightmap::from(Some(buf), hm.offset))
        },
    }
}

impl Model {
    /// Materialize a decoded document into a live scene, plane by plane in
    /// order. Exactly the documents free of obstacles succeed, the first
    /// obstacle names the error, and the scene built presents exactly the
    /// document it came from.
    pub fn from_document(pp: &v1::Pp) -> (r: Result<Model, crate::file_format::LoadError>)
        ensures
            match doc_issue(pp@.planes) {
                None => r matches Ok(m) && m.wf() && model_normal(m) && doc_of_model(m) == pp@,
                Some(e) => r == Err::<Model, crate::file_format::LoadError>(issue_error(e)),
            },
    {
        let n: usize = pp.planes.len();
        let mut out: Vec<Plane> = Vec::new();
        let mut i: usize = 0;
        while i < n
            invariant
                i <= n,
                n == pp.planes@.len(),
                out@.len() == i,
                forall|k: int| 0 <= k < i ==> #[trigger] out@[k].wf(),
                forall|k: int| 0 <= k < i ==> #[trigger] plane_normal(out@[k]),
                forall|k: int| 0 <= k < i ==> #[trigger] doc_of_plane(out@[k]) == pp@.planes[k],
                forall|k: int| 0 <= k < i ==> #[trigger] plane_issue(pp@.planes[k]) is None,
            decreases n - i,
        {
            let texture: Texture = match &pp.planes[i].image {
                None => Texture::new(),
                Some(img) => {
                    match materialize_image(img) {
                        Ok(t) => t,
                        Err(e) => {
                            proof {
                                lemma_doc_issue_first(pp@.planes, i as int);
                            }
                            return Err(e);
                        },
                    }
                },
            };
            let heightmap: Option<Heightmap> = match &pp.planes[i].heightmap {
                None => None,
                Some(hm) => {
                    match materialize_heightmap(hm) {
                        Ok(h) => Some(h),
                        Err(e) => {
                            proof {
                                lemma_doc_issue_first(pp@.planes, i as int);
                            }
                            return Err(e);
                        },
                    }
                },
            };
            let transform = pp.planes[i].transform;
            out.push(Plane { texture, heightmap, transform });
            proof {
                let k = i as int;
                assert(pp@.planes[k] == pp.planes@[k]@);
                assert(out@[k].wf());
                assert(plane_normal(out@[k]));
                assert(doc_of_plane(out@[k]) == pp@.planes[k]);
                assert(plane_issue(pp@.planes[k]) is None);
            }
            i = i + 1;
        }
        proof {
            lemma_doc_issue_none(pp@.planes);
        }
        let m = Model { planes: out };
        proof {
            assert(doc_of_model(m).planes =~= pp@.planes);
        }
        Ok(m)
    }

    /// The document this scene saves as: every canvas embedded.
    pub fn to_document(&self) -> (pp: v1::Pp)
        requires
            self.wf(),
        ensures
            pp@ == doc_of_model(*self),
    {
        let n: usize = self.planes.len();
        let mut planes: Vec<v1::Plane> = Vec::new();
        let mut i: usize = 0;
        while i < n
            invariant
                i <= n,
                n == self.planes@.len(),
                self.wf(),
                planes@.len() == i,
                forall|k: int|
                    0 <= k < i ==> #[trigger] planes@[k]@ == doc_of_plane(self.planes@[k]),
            decreases n - i,
        {
            let p = &self.planes[i];
            let image: Option<v1::Image> = match &p.texture.pixels {
                None => None,
                Some(buf) => Some(
                    v1::Image {
                        data: v1::ImageData::Embed {
                            size_x: buf.width as u64,
                            size_y: buf.height as u64,
                            data: pixels_to_bytes_exec(&buf.data),
                        },
                        offset: p.texture.offset,
                    },
                ),
            };
            let heightmap: Option<v1::Heightmap> = match &p.heightmap {
                None => None,
                Some(h) => {
                    match &h.data {
                        None => None,
                        Some(buf) => Some(
                            v1::Heightmap {
                                data: v1::HeightmapData::Embed {
                                    size_x: buf.width as u64,
                                    size_y: buf.height as u64,
                                    values: copy_u32s(&buf.data),
                                },
                                offset: h.offset,
                            },
                        ),
                    }
                },
            };
            planes.push(v1::Plane { image, heightmap, transform: p.transform });
            i = i + 1;
        }
        let pp = v1::Pp { planes };
        proof {
            assert(pp@.planes =~= doc_of_model(*self).planes);
        }
        pp
    }
}

/// The document of a well-formed scene always materializes: a save never
/// writes a file its own load would refuse.
pub proof fn lemma_doc_of_materializable(m: Model)
    requires
        m.wf(),
    ensures
        doc_issue(doc_of_model(m).planes) is None,
{
    let d = doc_of_model(m);
    assert forall|i: int| 0 <= i < d.planes.len() implies #[trigger] plane_issue(
        d.planes[i],
    ) is None by {
        assert(m.planes@[i].wf());
        let p = m.planes@[i];
        match p.texture.pixels {
            None => {},
            Some(buf) => {
                assert(buf.data@.len() == buf.width * buf.height);
                assert(pixels_to_bytes(buf.data@).len() == 4 * (buf.width * buf.height));
                assert((4 * (buf.width as int)) * (buf.height as int) == 4 * ((buf.width as int) * (
                buf.height as int))) by (nonlinear_arith);
            },
        }
        match p.heightmap {
            None => {},
            Some(h) => {
                match h.data {
                    None => {},
                    Some(buf) => {
                        assert(buf.data@.len() == buf.width * buf.height);
                    },
                }
            },
        }
    }
    lemma_doc_issue_none(d.planes);
}

} // verus!
