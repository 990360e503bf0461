//! Wire form of the first-generation scene document.
//!
//! A document is a `u64` plane count followed by the planes; a plane is an
//! optional image (one presence byte, then the image), the plane offset and
//! the transform; an image is a `u32` variant tag — 0 for an external path,
//! 1 for embedded pixels — followed by that variant's fields. Nothing ever
//! writes this schema any more, so only the decoder has an exec form; the
//! spec encoder remains the reference the decoder is proved against.

use vstd::prelude::*;

use crate::codec::{
    dec_ivec2, dec_mat4, enc_ivec2, enc_mat4, lemma_dec_enc_ivec2, lemma_dec_enc_mat4, read_ivec2,
    read_mat4,
};
use crate::v0::{Image, ImageView, Plane, PlaneView, Pp, PpView};
use crate::wire::{
    dec_bytes, dec_u32, dec_u64, dec_u8, enc_bytes, enc_u32, enc_u64, enc_u8, lemma_dec_enc_bytes,
    lemma_dec_enc_u32, lemma_dec_enc_u64, lemma_dec_enc_u8, read_bytes, read_u32, read_u64,
    read_u8,
};

verus! {

// ---------------------------------------------------------------- spec
pub open spec fn enc_image_v0(i: ImageView) -> Seq<u8> {
    match i {
        ImageView::Load { path } => enc_u32(0) + enc_bytes(path),
        ImageView::Embed { size_x, size_y, data } => enc_u32(1) + enc_u64(size_x) + enc_u64(size_y)
            + enc_bytes(data),
    }
}

pub open spec fn dec_image_v0(s: Seq<u8>) -> Option<(ImageView, Seq<u8>)> {
    match dec_u32(s) {
        Some((tag, r)) => if tag == 0 {
            match dec_bytes(r) {
                Some((path, r2)) => Some((ImageView::Load { path }, r2)),
                None => None,
            }
        } else if tag == 1 {
            match dec_u64(r) {
                Some((size_x, r2)) => match dec_u64(r2) {
                    Some((size_y, r3)) => match dec_bytes(r3) {
                        Some((data, r4)) => Some((ImageView::Embed { size_x, size_y, data }, r4)),
                        None => None,
                    },
                    None => None,
                },
                None => None,
            }
        } else {
            None
        },
        None => None,
    }
}

pub open spec fn enc_opt_image_v0(o: Option<ImageView>) -> Seq<u8> {
    match o {
        None => enc_u8(0),
        Some(i) => enc_u8(1) + enc_image_v0(i),
    }
}

pub open spec fn dec_opt_image_v0(s: Seq<u8>) -> Option<(Option<ImageView>, Seq<u8>)> {
    match dec_u8(s) {
        Some((tag, r)) => if tag == 0 {
            Some((None, r))
        } else if tag == 1 {
            match dec_image_v0(r) {
                Some((i, r2)) => Some((Some(i), r2)),
                None => None,
            }
        } else {
            None
        },
        None => None,
    }
}

pub open spec fn enc_plane_v0(p: PlaneView) -> Seq<u8> {
    enc_opt_image_v0(p.image) + enc_ivec2(p.offset) + enc_mat4(p.transform)
}

pub open spec fn dec_plane_v0(s: Seq<u8>) -> Option<(PlaneView, Seq<u8>)> {
    match dec_opt_image_v0(s) {
        Some((image, r)) => match dec_ivec2(r) {
            Some((offset, r2)) => match dec_mat4(r2) {
                Some((transform, r3)) => Some((PlaneView { image, offset, transform }, r3)),
                None => None,
            },
            None => None,
        },
        None => None,
    }
}

pub open spec fn enc_planes_v0(ps: Seq<PlaneView>) -> Seq<u8>
    decreases ps.len(),
{
    if ps.len() == 0 {
        Seq::empty()
    } else {
        enc_plane_v0(ps[0]) + enc_planes_v0(ps.drop_first())
    }
}

pub open spec fn dec_planes_v0(s: Seq<u8>, n: nat) -> Option<(Seq<PlaneView>, Seq<u8>)>
    decreases n,
{
    if n == 0 {
        Some((Seq::empty(), s))
    } else {
        match dec_plane_v0(s) {
            Some((p, r)) => match dec_planes_v0(r, (n - 1) as nat) {
                Some((ps, r2)) => Some((seq![p] + ps, r2)),
                None => None,
            },
            None => None,
        }
    }
}

pub open spec fn enc_pp_v0(d: PpView) -> Seq<u8>
    recommends
        d.wf(),
{
    enc_u64(d.planes.len() as u64) + enc_planes_v0(d.planes)
}

/// The whole-payload decoder: a count, that many planes, and nothing after.
pub open spec fn dec_doc_v0(s: Seq<u8>) -> Option<PpView> {
    match dec_u64(s) {
        Some((n, r)) => match dec_planes_v0(r, n as nat) {
            Some((planes, r2)) => if r2.len() == 0 {
                Some(PpView { planes })
            } else {
                None
            },
            None => None,
        },
        None => None,
    }
}

// ---------------------------------------------------------------- roundtrips
pub proof fn lemma_dec_enc_image_v0(i: ImageView, rest: Seq<u8>)
    requires
        i.wf(),
    ensures
        dec_image_v0(enc_image_v0(i) + rest) == Some((i, rest)),
{
    match i {
        ImageView::Load { path } => {
            assert(enc_image_v0(i) + rest =~= enc_u32(0) + (enc_bytes(path) + rest));
            lemma_dec_enc_u32(0, enc_bytes(path) + rest);
            lemma_dec_enc_bytes(path, rest);
        },
        ImageView::Embed { size_x, size_y, data } => {
            assert(enc_image_v0(i) + rest =~= enc_u32(1) + (enc_u64(size_x) + (enc_u64(size_y) + (
            enc_bytes(data) + rest))));
            lemma_dec_enc_u32(1, enc_u64(size_x) + (enc_u64(size_y) + (enc_bytes(data) + rest)));
            lemma_dec_enc_u64(size_x, enc_u64(size_y) + (enc_bytes(data) + rest));
            lemma_dec_enc_u64(size_y, enc_bytes(data) + rest);
            lemma_dec_enc_bytes(data, rest);
        },
    }
}

pub proof fn lemma_dec_enc_opt_image_v0(o: Option<ImageView>, rest: Seq<u8>)
    requires
        o matches Some(i) ==> i.wf(),
    ensures
        dec_opt_image_v0(enc_opt_image_v0(o) + rest) == Some((o, rest)),
{
    match o {
        None => {
            lemma_dec_enc_u8(0, rest);
        },
        Some(i) => {
            assert(enc_opt_image_v0(o) + rest =~= enc_u8(1) + (enc_image_v0(i) + rest));
            lemma_dec_enc_u8(1, enc_image_v0(i) + rest);
            lemma_dec_enc_image_v0(i, rest);
        },
    }
}

pub proof fn lemma_dec_enc_plane_v0(p: PlaneView, rest: Seq<u8>)
    requires
        p.wf(),
    ensures
        dec_plane_v0(enc_plane_v0(p) + rest) == Some((p, rest)),
{
    assert(enc_plane_v0(p) + rest =~= enc_opt_image_v0(p.image) + (enc_ivec2(p.offset) + (enc_mat4(
        p.transform,
    ) + rest)));
    lemma_dec_enc_opt_image_v0(p.image, enc_ivec2(p.offset) + (enc_mat4(p.transform) + rest));
    lemma_dec_enc_ivec2(p.offset, enc_mat4(p.transform) + rest);
    lemma_dec_enc_mat4(p.transform, rest);
}

#[verifier::rlimit(100)]
pub proof fn lemma_dec_enc_planes_v0(ps: Seq<PlaneView>, rest: Seq<u8>)
    requires
        forall|i: int| 0 <= i < ps.len() ==> #[trigger] ps[i].wf(),
    ensures
        dec_planes_v0(enc_planes_v0(ps) + rest, ps.len()) == Some((ps, rest)),
    decreases ps.len(),
{
    if ps.len() == 0 {
        assert(enc_planes_v0(ps) == Seq::<u8>::empty());
        assert(Seq::<u8>::empty() + rest =~= rest);
        assert(Seq::<PlaneView>::empty() =~= ps);
    } else {
        let tail = ps.drop_first();
        let a = enc_plane_v0(ps[0]);
        let b = enc_planes_v0(tail);
        assert(enc_planes_v0(ps) == a + b);
        crate::wire::lemma_assoc(a, b, rest);
        lemma_dec_enc_plane_v0(ps[0], b + rest);
        lemma_dec_enc_planes_v0(tail, rest);
        assert(seq![ps[0]] + tail =~= ps);
    }
}

/// Decoding inverts encoding for every well-formed v0 document.
pub proof fn lemma_doc_v0_roundtrip(d: PpView)
    requires
        d.wf(),
    ensures
        dec_doc_v0(enc_pp_v0(d)) == Some(d),
{
    let n = d.planes.len() as u64;
    lemma_dec_enc_u64(n, enc_planes_v0(d.planes));
    assert(enc_planes_v0(d.planes) =~= enc_planes_v0(d.planes) + Seq::<u8>::empty());
    lemma_dec_enc_planes_v0(d.planes, Seq::empty());
}

// ---------------------------------------------------------------- exec decode
pub fn read_image_v0(s: &Vec<u8>, pos: &mut usize) -> (r: Option<Image>)
    requires
        *old(pos) <= s@.len(),
    ensures
        *old(pos) <= *final(pos) <= s@.len(),
        match r {
            Some(i) => dec_image_v0(s@.skip(*old(pos) as int)) == Some(
                (i@, s@.skip(*final(pos) as int)),
            ) && i@.wf(),
            None => dec_image_v0(s@.skip(*old(pos) as int)) is None,
        },
{
    let tag = match read_u32(s, pos) {
        Some(t) => t,
        None => {
            return None;
        },
    };
    if tag == 0 {
        match read_bytes(s, pos) {
            Some(path) => Some(Image::Load(path)),
            None => None,
        }
    } else if tag == 1 {
        let size_x = match read_u64(s, pos) {
            Some(v) => v,
            None => {
                return None;
            },
        };
        let size_y = match read_u64(s, pos) {
            Some(v) => v,
            None => {
                return None;
            },
        };
        match read_bytes(s, pos) {
            Some(data) => Some(Image::Embed { size_x, size_y, data }),
            None => None,
        }
    } else {
        None
    }
}

pub fn read_plane_v0(s: &Vec<u8>, pos: &mut usize) -> (r: Option<Plane>)
    requires
        *old(pos) <= s@.len(),
    ensures
        *old(pos) <= *final(pos) <= s@.len(),
        match r {
            Some(p) => dec_plane_v0(s@.skip(*old(pos) as int)) == Some(
                (p@, s@.skip(*final(pos) as int)),
            ) && p@.wf(),
            None => dec_plane_v0(s@.skip(*old(pos) as int)) is None,
        },
{
    let tag = match read_u8(s, pos) {
        Some(t) => t,
        None => {
            return None;
        },
    };
    let image: Option<Image> = if tag == 0 {
        None
    } else if tag == 1 {
        match read_image_v0(s, pos) {
            Some(i) => Some(i),
            None => {
                return None;
            },
        }
    } else {
        return None;
    };
    let offset = match read_ivec2(s, pos) {
        Some(v) => v,
        None => {
            return None;
        },
    };
    let transform = match read_mat4(s, pos) {
        Some(m) => m,
        None => {
            return None;
        },
    };
    Some(Plane { image, offset, transform })
}

/// Decode a complete v0 payload; `None` is exactly a malformed payload.
pub fn decode_doc_v0(s: &Vec<u8>) -> (r: Option<Pp>)
    ensures
        match r {
            Some(pp) => dec_doc_v0(s@) == Some(pp@) && pp@.wf(),
            None => dec_doc_v0(s@) is None,
        },
{
    let mut pos: usize = 0;
    let n: u64 = match read_u64(s, &mut pos) {
        Some(n) => n,
        None => {
            return None;
        },
    };
    let mut planes: Vec<Plane> = Vec::new();
    let mut i: u64 = 0;
    while i < n
        invariant
            i <= n,
            pos <= s@.len(),
            planes@.len() == i,
            forall|k: int| 0 <= k < planes@.len() ==> #[trigger] planes@[k]@.wf(),
            dec_u64(s@) matches Some((n2, r2)) && n2 == n && dec_planes_v0(r2, n as nat) == (
            match dec_planes_v0(s@.skip(pos as int), (n - i) as nat) {
                Some((tail_ps, tail_rest)) => Some::<(Seq<PlaneView>, Seq<u8>)>(
                    (Seq::new(planes@.len(), |k: int| planes@[k]@) + tail_ps, tail_rest),
                ),
                None => None::<(Seq<PlaneView>, Seq<u8>)>,
            }),
        decreases n - i,
    {
        let ghost pre_views = Seq::new(planes@.len(), |k: int| planes@[k]@);
        match read_plane_v0(s, &mut pos) {
            Some(p) => {
                planes.push(p);
                proof {
                    let views = Seq::new(planes@.len(), |k: int| planes@[k]@);
                    assert(views =~= pre_views.push(planes@[planes@.len() - 1]@));
                    if let Some((tail_ps, tail_rest)) = dec_planes_v0(
                        s@.skip(pos as int),
                        (n - i - 1) as nat,
                    ) {
                        assert(pre_views + (seq![views[views.len() - 1]] + tail_ps) =~= views
                            + tail_ps);
                    }
                }
                i = i + 1;
            },
            None => {
                return None;
            },
        }
    }
    if pos != s.len() {
        return None;
    }
    let pp = Pp { planes };
    proof {
        assert(s@.skip(pos as int).len() == 0);
        assert(Seq::new(pp.planes@.len(), |k: int| pp.planes@[k]@) + Seq::<PlaneView>::empty()
            =~= pp@.planes);
    }
    Some(pp)
}

} // verus!
