//! Wire form of the current scene document.
//!
//! A document is a `u64` plane count followed by the planes. A plane is an
//! optional image, an optional heightmap (one presence byte each), then the
//! transform. An image is a `u32` variant tag — 0 for an external path,
//! 1 for embedded pixels — then that variant's fields, then the image's own
//! offset. A heightmap is its `u32` variant tag (0, embedded), its sample
//! dimensions, its `size_x * size_y` samples (their count left implicit),
//! then its offset.

use vstd::prelude::*;

use crate::codec::{
    dec_ivec2, dec_mat4, enc_ivec2, enc_mat4, lemma_dec_enc_ivec2, lemma_dec_enc_mat4, put_ivec2,
    put_mat4, read_ivec2, read_mat4,
};
use crate::v1::{
    Heightmap, HeightmapData, HeightmapDataView, HeightmapView, Image, ImageData, ImageDataView,
    ImageView, Plane, PlaneView, Pp, PpView,
};
use crate::wire::{
    dec_bytes, dec_u32, dec_u32s, dec_u64, dec_u8, enc_bytes, enc_u32, enc_u32s, enc_u64, enc_u8,
    lemma_assoc, lemma_dec_enc_bytes, lemma_dec_enc_u32, lemma_dec_enc_u32s, lemma_dec_enc_u64,
    lemma_dec_enc_u8, lemma_dec_u32s_len, put_bytes, put_u32, put_u32s, put_u64, put_u8,
    read_bytes, read_u32, read_u32s, read_u64, read_u8,
};

verus! {

// ---------------------------------------------------------------- spec
pub open spec fn enc_image_data(i: ImageDataView) -> Seq<u8> {
    match i {
        ImageDataView::Load { path } => enc_u32(0) + enc_bytes(path),
        ImageDataView::Embed { size_x, size_y, data } => enc_u32(1) + enc_u64(size_x) + enc_u64(
            size_y,
        ) + enc_bytes(data),
    }
}

pub open spec fn dec_image_data(s: Seq<u8>) -> Option<(ImageDataView, Seq<u8>)> {
    match dec_u32(s) {
        Some((tag, r)) => if tag == 0 {
            match dec_bytes(r) {
                Some((path, r2)) => Some((ImageDataView::Load { path }, r2)),
                None => None,
            }
        } else if tag == 1 {
            match dec_u64(r) {
                Some((size_x, r2)) => match dec_u64(r2) {
                    Some((size_y, r3)) => match dec_bytes(r3) {
                        Some((data, r4)) => Some(
                            (ImageDataView::Embed { size_x, size_y, data }, r4),
                        ),
                        None => None,
                    },
                    None => None,
                },
                None => None,
            }
        } else {
            None
        },
        None => None,
    }
}

pub open spec fn enc_image(i: ImageView) -> Seq<u8> {
    enc_image_data(i.data) + enc_ivec2(i.offset)
}

pub open spec fn dec_image(s: Seq<u8>) -> Option<(ImageView, Seq<u8>)> {
    match dec_image_data(s) {
        Some((data, r)) => match dec_ivec2(r) {
            Some((offset, r2)) => Some((ImageView { data, offset }, r2)),
            None => None,
        },
        None => None,
    }
}

pub open spec fn enc_hm_data(h: HeightmapDataView) -> Seq<u8>
    recommends
        h.wf(),
{
    enc_u32(0) + enc_u64(h.size_x) + enc_u64(h.size_y) + enc_u32s(h.values)
}

pub open spec fn dec_hm_data(s: Seq<u8>) -> Option<(HeightmapDataView, Seq<u8>)> {
    match dec_u32(s) {
        Some((tag, r)) => if tag == 0 {
            match dec_u64(r) {
                Some((size_x, r2)) => match dec_u64(r2) {
                    Some((size_y, r3)) => match dec_u32s(r3, (size_x * size_y) as nat) {
                        Some((values, r4)) => Some(
                            (HeightmapDataView { size_x, size_y, values }, r4),
                        ),
                        None => None,
                    },
                    None => None,
                },
                None => None,
            }
        } else {
            None
        },
        None => None,
    }
}

pub open spec fn enc_heightmap(h: HeightmapView) -> Seq<u8>
    recommends
        h.data.wf(),
{
    enc_hm_data(h.data) + enc_ivec2(h.offset)
}

pub open spec fn dec_heightmap(s: Seq<u8>) -> Option<(HeightmapView, Seq<u8>)> {
    match dec_hm_data(s) {
        Some((data, r)) => match dec_ivec2(r) {
            Some((offset, r2)) => Some((HeightmapView { data, offset }, r2)),
            None => None,
        },
        None => None,
    }
}

pub open spec fn enc_opt_image(o: Option<ImageView>) -> Seq<u8> {
    match o {
        None => enc_u8(0),
        Some(i) => enc_u8(1) + enc_image(i),
    }
}

pub open spec fn dec_opt_image(s: Seq<u8>) -> Option<(Option<ImageView>, Seq<u8>)> {
    match dec_u8(s) {
        Some((tag, r)) => if tag == 0 {
            Some((None, r))
        } else if tag == 1 {
            match dec_image(r) {
                Some((i, r2)) => Some((Some(i), r2)),
                None => None,
            }
        } else {
            None
        },
        None => None,
    }
}

pub open spec fn enc_opt_heightmap(o: Option<HeightmapView>) -> Seq<u8> {
    match o {
        None => enc_u8(0),
        Some(h) => enc_u8(1) + enc_heightmap(h),
    }
}

pub open spec fn dec_opt_heightmap(s: Seq<u8>) -> Option<(Option<HeightmapView>, Seq<u8>)> {
    match dec_u8(s) {
        Some((tag, r)) => if tag == 0 {
            Some((None, r))
        } else if tag == 1 {
            match dec_heightmap(r) {
                Some((h, r2)) => Some((Some(h), r2)),
                None => None,
            }
        } else {
            None
        },
        None => None,
    }
}

pub open spec fn enc_plane_v1(p: PlaneView) -> Seq<u8>
    recommends
        p.wf(),
{
    enc_opt_image(p.image) + enc_opt_heightmap(p.heightmap) + enc_mat4(p.transform)
}

pub open spec fn dec_plane_v1(s: Seq<u8>) -> Option<(PlaneView, Seq<u8>)> {
    match dec_opt_image(s) {
        Some((image, r)) => match dec_opt_heightmap(r) {
            Some((heightmap, r2)) => match dec_mat4(r2) {
                Some((transform, r3)) => Some((PlaneView { image, heightmap, transform }, r3)),
                None => None,
            },
            None => None,
        },
        None => None,
    }
}

pub open spec fn enc_planes_v1(ps: Seq<PlaneView>) -> Seq<u8>
    decreases ps.len(),
{
    if ps.len() == 0 {
        Seq::empty()
    } else {
        enc_plane_v1(ps[0]) + enc_planes_v1(ps.drop_first())
    }
}

pub open spec fn dec_planes_v1(s: Seq<u8>, n: nat) -> Option<(Seq<PlaneView>, Seq<u8>)>
    decreases n,
{
    if n == 0 {
        Some((Seq::empty(), s))
    } else {
        match dec_plane_v1(s) {
            Some((p, r)) => match dec_planes_v1(r, (n - 1) as nat) {
                Some((ps, r2)) => Some((seq![p] + ps, r2)),
                None => None,
            },
            None => None,
        }
    }
}

pub open spec fn enc_pp_v1(d: PpView) -> Seq<u8>
    recommends
        d.wf(),
{
    enc_u64(d.planes.len() as u64) + enc_planes_v1(d.planes)
}

/// The whole-payload decoder: a count, that many planes, and nothing after.
pub open spec fn dec_doc_v1(s: Seq<u8>) -> Option<PpView> {
    match dec_u64(s) {
        Some((n, r)) => match dec_planes_v1(r, n as nat) {
            Some((planes, r2)) => if r2.len() == 0 {
                Some(PpView { planes })
            } else {
                None
            },
            None => None,
        },
        None => None,
    }
}

// ---------------------------------------------------------------- roundtrips
pub proof fn lemma_dec_enc_image_data(i: ImageDataView, rest: Seq<u8>)
    requires
        i.wf(),
    ensures
        dec_image_data(enc_image_data(i) + rest) == Some((i, rest)),
{
    match i {
        ImageDataView::Load { path } => {
            lemma_assoc(enc_u32(0), enc_bytes(path), rest);
            lemma_dec_enc_u32(0, enc_bytes(path) + rest);
            lemma_dec_enc_bytes(path, rest);
        },
        ImageDataView::Embed { size_x, size_y, data } => {
            let a = enc_u32(1);
            let b = enc_u64(size_x);
            let c = enc_u64(size_y);
            let d = enc_bytes(data);
            lemma_assoc(a + b + c, d, rest);
            lemma_assoc(a + b, c, d + rest);
            lemma_assoc(a, b, c + (d + rest));
            lemma_dec_enc_u32(1, b + (c + (d + rest)));
            lemma_dec_enc_u64(size_x, c + (d + rest));
            lemma_dec_enc_u64(size_y, d + rest);
            lemma_dec_enc_bytes(data, rest);
        },
    }
}

pub proof fn lemma_dec_enc_image(i: ImageView, rest: Seq<u8>)
    requires
        i.data.wf(),
    ensures
        dec_image(enc_image(i) + rest) == Some((i, rest)),
{
    let a = enc_image_data(i.data);
    let b = enc_ivec2(i.offset);
    lemma_assoc(a, b, rest);
    lemma_dec_enc_image_data(i.data, b + rest);
    lemma_dec_enc_ivec2(i.offset, rest);
}

pub proof fn lemma_dec_enc_hm_data(h: HeightmapDataView, rest: Seq<u8>)
    requires
        h.wf(),
    ensures
        dec_hm_data(enc_hm_data(h) + rest) == Some((h, rest)),
{
    let a = enc_u32(0);
    let b = enc_u64(h.size_x);
    let c = enc_u64(h.size_y);
    let d = enc_u32s(h.values);
    lemma_assoc(a + b + c, d, rest);
    lemma_assoc(a + b, c, d + rest);
    lemma_assoc(a, b, c + (d + rest));
    lemma_dec_enc_u32(0, b + (c + (d + rest)));
    lemma_dec_enc_u64(h.size_x, c + (d + rest));
    lemma_dec_enc_u64(h.size_y, d + rest);
    lemma_dec_enc_u32s(h.values, rest);
}

pub proof fn lemma_dec_enc_heightmap(h: HeightmapView, rest: Seq<u8>)
    requires
        h.data.wf(),
    ensures
        dec_heightmap(enc_heightmap(h) + rest) == Some((h, rest)),
{
    let a = enc_hm_data(h.data);
    let b = enc_ivec2(h.offset);
    lemma_assoc(a, b, rest);
    lemma_dec_enc_hm_data(h.data, b + rest);
    lemma_dec_enc_ivec2(h.offset, rest);
}

pub proof fn lemma_dec_enc_opt_image(o: Option<ImageView>, rest: Seq<u8>)
    requires
        o matches Some(i) ==> i.data.wf(),
    ensures
        dec_opt_image(enc_opt_image(o) + rest) == Some((o, rest)),
{
    match o {
        None => {
            lemma_dec_enc_u8(0, rest);
        },
        Some(i) => {
            assert(enc_opt_image(o) + rest =~= enc_u8(1) + (enc_image(i) + rest));
            lemma_dec_enc_u8(1, enc_image(i) + rest);
            lemma_dec_enc_image(i, rest);
        },
    }
}

pub proof fn lemma_dec_enc_opt_heightmap(o: Option<HeightmapView>, rest: Seq<u8>)
    requires
        o matches Some(h) ==> h.data.wf(),
    ensures
        dec_opt_heightmap(enc_opt_heightmap(o) + rest) == Some((o, rest)),
{
    match o {
        None => {
            lemma_dec_enc_u8(0, rest);
        },
        Some(h) => {
            assert(enc_opt_heightmap(o) + rest =~= enc_u8(1) + (enc_heightmap(h) + rest));
            lemma_dec_enc_u8(1, enc_heightmap(h) + rest);
            lemma_dec_enc_heightmap(h, rest);
        },
    }
}

pub proof fn lemma_dec_enc_plane_v1(p: PlaneView, rest: Seq<u8>)
    requires
        p.wf(),
    ensures
        dec_plane_v1(enc_plane_v1(p) + rest) == Some((p, rest)),
{
    let a = enc_opt_image(p.image);
    let b = enc_opt_heightmap(p.heightmap);
    let c = enc_mat4(p.transform);
    lemma_assoc(a + b, c, rest);
    lemma_assoc(a, b, c + rest);
    lemma_dec_enc_opt_image(p.image, b + (c + rest));
    lemma_dec_enc_opt_heightmap(p.heightmap, c + rest);
    lemma_dec_enc_mat4(p.transform, rest);
}

#[verifier::rlimit(100)]
pub proof fn lemma_dec_enc_planes_v1(ps: Seq<PlaneView>, rest: Seq<u8>)
    requires
        forall|i: int| 0 <= i < ps.len() ==> #[trigger] ps[i].wf(),
    ensures
        dec_planes_v1(enc_planes_v1(ps) + rest, ps.len()) == Some((ps, rest)),
    decreases ps.len(),
{
    if ps.len() == 0 {
        assert(enc_planes_v1(ps) == Seq::<u8>::empty());
        assert(Seq::<u8>::empty() + rest =~= rest);
        assert(Seq::<PlaneView>::empty() =~= ps);
    } else {
        let tail = ps.drop_first();
        let a = enc_plane_v1(ps[0]);
        let b = enc_planes_v1(tail);
        assert(enc_planes_v1(ps) == a + b);
        lemma_assoc(a, b, rest);
        lemma_dec_enc_plane_v1(ps[0], b + rest);
        lemma_dec_enc_planes_v1(tail, rest);
        assert(seq![ps[0]] + tail =~= ps);
    }
}

/// Decoding inverts encoding for every well-formed current-schema document.
pub proof fn lemma_doc_v1_roundtrip(d: PpView)
    requires
        d.wf(),
    ensures
        dec_doc_v1(enc_pp_v1(d)) == Some(d),
{
    let n = d.planes.len() as u64;
    lemma_dec_enc_u64(n, enc_planes_v1(d.planes));
    assert(enc_planes_v1(d.planes) =~= enc_planes_v1(d.planes) + Seq::<u8>::empty());
    lemma_dec_enc_planes_v1(d.planes, Seq::empty());
}

// ---------------------------------------------------------------- exec encode
pub fn put_image_data(out: &mut Vec<u8>, i: &ImageData)
    ensures
        final(out)@ == old(out)@ + enc_image_data(i@),
{
    match i {
        ImageData::Load(path) => {
            put_u32(out, 0);
            put_bytes(out, path);
            assert(out@ =~= old(out)@ + enc_image_data(i@));
        },
        ImageData::Embed { size_x, size_y, data } => {
            put_u32(out, 1);
            put_u64(out, *size_x);
            put_u64(out, *size_y);
            put_bytes(out, data);
            assert(out@ =~= old(out)@ + enc_image_data(i@));
        },
    }
}

pub fn put_image(out: &mut Vec<u8>, i: &Image)
    ensures
        final(out)@ == old(out)@ + enc_image(i@),
{
    put_image_data(out, &i.data);
    put_ivec2(out, i.offset);
    assert(out@ =~= old(out)@ + enc_image(i@));
}

pub fn put_hm_data(out: &mut Vec<u8>, h: &HeightmapData)
    ensures
        final(out)@ == old(out)@ + enc_hm_data(h@),
{
    match h {
        HeightmapData::Embed { size_x, size_y, values } => {
            put_u32(out, 0);
            put_u64(out, *size_x);
            put_u64(out, *size_y);
            put_u32s(out, values);
            assert(out@ =~= old(out)@ + enc_hm_data(h@));
        },
    }
}

pub fn put_heightmap(out: &mut Vec<u8>, h: &Heightmap)
    ensures
        final(out)@ == old(out)@ + enc_heightmap(h@),
{
    put_hm_data(out, &h.data);
    put_ivec2(out, h.offset);
    assert(out@ =~= old(out)@ + enc_heightmap(h@));
}

pub fn put_plane_v1(out: &mut Vec<u8>, p: &Plane)
    ensures
        final(out)@ == old(out)@ + enc_plane_v1(p@),
{
    match &p.image {
        None => {
            put_u8(out, 0);
        },
        Some(i) => {
            put_u8(out, 1);
            put_image(out, i);
        },
    }
    match &p.heightmap {
        None => {
            put_u8(out, 0);
        },
        Some(h) => {
            put_u8(out, 1);
            put_heightmap(out, h);
        },
    }
    put_mat4(out, &p.transform);
    assert(out@ =~= old(out)@ + enc_plane_v1(p@));
}

/// Appending one more plane extends the encoded run by that plane's bytes.
pub proof fn lemma_enc_planes_v1_snoc(ps: Seq<PlaneView>, p: PlaneView)
    ensures
        enc_planes_v1(ps.push(p)) == enc_planes_v1(ps) + enc_plane_v1(p),
    decreases ps.len(),
{
    if ps.len() == 0 {
        assert(ps.push(p)[0] == p);
        assert(ps.push(p).drop_first() =~= ps);
        assert(enc_planes_v1(ps) == Seq::<u8>::empty());
        assert(enc_planes_v1(ps.push(p)) =~= enc_planes_v1(ps) + enc_plane_v1(p));
    } else {
        assert(ps.push(p)[0] == ps[0]);
        assert(ps.push(p).drop_first() =~= ps.drop_first().push(p));
        lemma_enc_planes_v1_snoc(ps.drop_first(), p);
        assert(enc_planes_v1(ps.push(p)) == enc_plane_v1(ps[0]) + enc_planes_v1(
            ps.drop_first().push(p),
        ));
        lemma_assoc(enc_plane_v1(ps[0]), enc_planes_v1(ps.drop_first()), enc_plane_v1(p));
    }
}

/// Encode a complete current-schema payload.
pub fn encode_doc_v1(pp: &Pp) -> (out: Vec<u8>)
    ensures
        out@ == enc_pp_v1(pp@),
{
    let mut out: Vec<u8> = Vec::new();
    let n: usize = pp.planes.len();
    put_u64(&mut out, n as u64);
    let mut i: usize = 0;
    while i < n
        invariant
            i <= n,
            n == pp.planes@.len(),
            out@ == enc_u64(n as u64) + enc_planes_v1(pp@.planes.take(i as int)),
        decreases n - i,
    {
        proof {
            assert(pp@.planes.take(i as int).push(pp@.planes[i as int]) =~= pp@.planes.take(i + 1));
            lemma_enc_planes_v1_snoc(pp@.planes.take(i as int), pp@.planes[i as int]);
            lemma_assoc(
                enc_u64(n as u64),
                enc_planes_v1(pp@.planes.take(i as int)),
                enc_plane_v1(pp@.planes[i as int]),
            );
        }
        put_plane_v1(&mut out, &pp.planes[i]);
        i = i + 1;
    }
    proof {
        assert(pp@.planes.take(n as int) =~= pp@.planes);
    }
    out
}

// ---------------------------------------------------------------- exec decode
pub fn read_image_data(s: &Vec<u8>, pos: &mut usize) -> (r: Option<ImageData>)
    requires
        *old(pos) <= s@.len(),
    ensures
        *old(pos) <= *final(pos) <= s@.len(),
        match r {
            Some(i) => dec_image_data(s@.skip(*old(pos) as int)) == Some(
                (i@, s@.skip(*final(pos) as int)),
            ),
            None => dec_image_data(s@.skip(*old(pos) as int)) is None,
        },
{
    let tag = match read_u32(s, pos) {
        Some(t) => t,
        None => {
            return None;
        },
    };
    if tag == 0 {
        match read_bytes(s, pos) {
            Some(path) => Some(ImageData::Load(path)),
            None => None,
        }
    } else if tag == 1 {
        let size_x = match read_u64(s, pos) {
            Some(v) => v,
            None => {
                return None;
            },
        };
        let size_y = match read_u64(s, pos) {
            Some(v) => v,
            None => {
                return None;
            },
        };
        match read_bytes(s, pos) {
            Some(data) => Some(ImageData::Embed { size_x, size_y, data }),
            None => None,
        }
    } else {
        None
    }
}

pub fn read_image(s: &Vec<u8>, pos: &mut usize) -> (r: Option<Image>)
    requires
        *old(pos) <= s@.len(),
    ensures
        *old(pos) <= *final(pos) <= s@.len(),
        match r {
            Some(i) => dec_image(s@.skip(*old(pos) as int)) == Some(
                (i@, s@.skip(*final(pos) as int)),
            ),
            None => dec_image(s@.skip(*old(pos) as int)) is None,
        },
{
    let data = match read_image_data(s, pos) {
        Some(d) => d,
        None => {
            return None;
        },
    };
    let offset = match read_ivec2(s, pos) {
        Some(v) => v,
        None => {
            return None;
        },
    };
    Some(Image { data, offset })
}

pub fn read_hm_data(s: &Vec<u8>, pos: &mut usize) -> (r: Option<HeightmapData>)
    requires
        *old(pos) <= s@.len(),
    ensures
        *old(pos) <= *final(pos) <= s@.len(),
        match r {
            Some(h) => dec_hm_data(s@.skip(*old(pos) as int)) == Some(
                (h@, s@.skip(*final(pos) as int)),
            ) && h@.wf(),
            None => dec_hm_data(s@.skip(*old(pos) as int)) is None,
        },
{
    let tag = match read_u32(s, pos) {
        Some(t) => t,
        None => {
            return None;
        },
    };
    if tag != 0 {
        return None;
    }
    let size_x = match read_u64(s, pos) {
        Some(v) => v,
        None => {
            return None;
        },
    };
    let size_y = match read_u64(s, pos) {
        Some(v) => v,
        None => {
            return None;
        },
    };
    let remaining: usize = s.len() - *pos;
    proof {
        assert((size_x as int) * (size_y as int) <= u128::MAX) by (nonlinear_arith)
            requires
                size_x <= u64::MAX,
                size_y <= u64::MAX,
        ;
    }
    let count128: u128 = (size_x as u128) * (size_y as u128);
    if count128 > (remaining as u128) / 4 {
        proof {
            lemma_dec_u32s_len(s@.skip(*pos as int), (size_x * size_y) as nat);
        }
        return None;
    }
    let count: usize = count128 as usize;
    match read_u32s(s, pos, count) {
        Some(values) => Some(HeightmapData::Embed { size_x, size_y, values }),
        None => None,
    }
}

pub fn read_heightmap(s: &Vec<u8>, pos: &mut usize) -> (r: Option<Heightmap>)
    requires
        *old(pos) <= s@.len(),
    ensures
        *old(pos) <= *final(pos) <= s@.len(),
        match r {
            Some(h) => dec_heightmap(s@.skip(*old(pos) as int)) == Some(
                (h@, s@.skip(*final(pos) as int)),
            ) && h@.data.wf(),
            None => dec_heightmap(s@.skip(*old(pos) as int)) is None,
        },
{
    let data = match read_hm_data(s, pos) {
        Some(d) => d,
        None => {
            return None;
        },
    };
    let offset = match read_ivec2(s, pos) {
        Some(v) => v,
        None => {
            return None;
        },
    };
    Some(Heightmap { data, offset })
}

#[verifier::rlimit(100)]
pub fn read_plane_v1(s: &Vec<u8>, pos: &mut usize) -> (r: Option<Plane>)
    requires
        *old(pos) <= s@.len(),
    ensures
        *old(pos) <= *final(pos) <= s@.len(),
        match r {
            Some(p) => dec_plane_v1(s@.skip(*old(pos) as int)) == Some(
                (p@, s@.skip(*final(pos) as int)),
            ) && p@.wf(),
            None => dec_plane_v1(s@.skip(*old(pos) as int)) is None,
        },
{
    let tag = match read_u8(s, pos) {
        Some(t) => t,
        None => {
            return None;
        },
    };
    let image: Option<Image> = if tag == 0 {
        None
    } else if tag == 1 {
        match read_image(s, pos) {
            Some(i) => Some(i),
            None => {
                return None;
            },
        }
    } else {
        return None;
    };
    let tag2 = match read_u8(s, pos) {
        Some(t) => t,
        None => {
            return None;
        },
    };
    let heightmap: Option<Heightmap> = if tag2 == 0 {
        None
    } else if tag2 == 1 {
        match read_heightmap(s, pos) {
            Some(h) => Some(h),
            None => {
                return None;
            },
        }
    } else {
        return None;
    };
    let transform = match read_mat4(s, pos) {
        Some(m) => m,
        None => {
            return None;
        },
    };
    Some(Plane { image, heightmap, transform })
}

/// Decode a complete current-schema payload; `None` is exactly a malformed
/// payload. A decoded document is always well-formed.
#[verifier::rlimit(100)]
pub fn decode_doc_v1(s: &Vec<u8>) -> (r: Option<Pp>)
    ensures
        match r {
            Some(pp) => dec_doc_v1(s@) == Some(pp@) && pp@.wf(),
            None => dec_doc_v1(s@) is None,
        },
{
    let mut pos: usize = 0;
    let n: u64 = match read_u64(s, &mut pos) {
        Some(n) => n,
        None => {
            return None;
        },
    };
    let mut planes: Vec<Plane> = Vec::new();
    let mut i: u64 = 0;
    while i < n
        invariant
            i <= n,
            pos <= s@.len(),
            planes@.len() == i,
            forall|k: int| 0 <= k < planes@.len() ==> #[trigger] planes@[k]@.wf(),
            dec_u64(s@) matches Some((n2, r2)) && n2 == n && dec_planes_v1(r2, n as nat) == (
            match dec_planes_v1(s@.skip(pos as int), (n - i) as nat) {
                Some((tail_ps, tail_rest)) => Some::<(Seq<PlaneView>, Seq<u8>)>(
                    (Seq::new(planes@.len(), |k: int| planes@[k]@) + tail_ps, tail_rest),
                ),
                None => None::<(Seq<PlaneView>, Seq<u8>)>,
            }),
        decreases n - i,
    {
        let ghost pre_views = Seq::new(planes@.len(), |k: int| planes@[k]@);
        match read_plane_v1(s, &mut pos) {
            Some(p) => {
                planes.push(p);
                proof {
                    let views = Seq::new(planes@.len(), |k: int| planes@[k]@);
                    assert(views =~= pre_views.push(planes@[planes@.len() - 1]@));
                    if let Some((tail_ps, tail_rest)) = dec_planes_v1(
                        s@.skip(pos as int),
                        (n - i - 1) as nat,
                    ) {
                        assert(pre_views + (seq![views[views.len() - 1]] + tail_ps) =~= views
                            + tail_ps);
                    }
                }
                i = i + 1;
            },
            None => {
                return None;
            },
        }
    }
    if pos != s.len() {
        return None;
    }
    let pp = Pp { planes };
    proof {
        assert(s@.skip(pos as int).len() == 0);
        assert(Seq::new(pp.planes@.len(), |k: int| pp.planes@[k]@) + Seq::<PlaneView>::empty()
            =~= pp@.planes);
    }
    Some(pp)
}

} // verus!
