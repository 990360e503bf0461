//! Wire form of the geometry types shared by every schema version.
//!
//! An offset is its two `i32` coordinates; a transform is its sixteen `f32`
//! bit patterns, row-major. Layout follows [`crate::wire`].

use vstd::prelude::*;

use crate::geom::{IVec2, Mat4};
use crate::wire::{
    dec_i32, dec_u32s, enc_i32, enc_u32s, lemma_dec_enc_i32, lemma_dec_enc_u32s, put_i32, put_u32s,
    read_i32, read_u32s,
};

verus! {

// ---------------------------------------------------------------- offsets
pub open spec fn enc_ivec2(v: IVec2) -> Seq<u8> {
    enc_i32(v.x) + enc_i32(v.y)
}

pub open spec fn dec_ivec2(s: Seq<u8>) -> Option<(IVec2, Seq<u8>)> {
    match dec_i32(s) {
        Some((x, r)) => match dec_i32(r) {
            Some((y, r2)) => Some((IVec2 { x, y }, r2)),
            None => None,
        },
        None => None,
    }
}

pub proof fn lemma_dec_enc_ivec2(v: IVec2, rest: Seq<u8>)
    ensures
        dec_ivec2(enc_ivec2(v) + rest) == Some((v, rest)),
{
    assert(enc_ivec2(v) + rest =~= enc_i32(v.x) + (enc_i32(v.y) + rest));
    lemma_dec_enc_i32(v.x, enc_i32(v.y) + rest);
    lemma_dec_enc_i32(v.y, rest);
}

pub fn put_ivec2(out: &mut Vec<u8>, v: IVec2)
    ensures
        final(out)@ == old(out)@ + enc_ivec2(v),
{
    put_i32(out, v.x);
    put_i32(out, v.y);
    assert(out@ =~= old(out)@ + enc_ivec2(v));
}

pub fn read_ivec2(s: &Vec<u8>, pos: &mut usize) -> (r: Option<IVec2>)
    requires
        *old(pos) <= s@.len(),
    ensures
        *old(pos) <= *final(pos) <= s@.len(),
        match r {
            Some(v) => dec_ivec2(s@.skip(*old(pos) as int)) == Some(
                (v, s@.skip(*final(pos) as int)),
            ),
            None => dec_ivec2(s@.skip(*old(pos) as int)) is None,
        },
{
    let x = match read_i32(s, pos) {
        Some(x) => x,
        None => {
            return None;
        },
    };
    let y = match read_i32(s, pos) {
        Some(y) => y,
        None => {
            return None;
        },
    };
    Some(IVec2 { x, y })
}

// ---------------------------------------------------------------- transforms
pub open spec fn mat4_to_seq(m: Mat4) -> Seq<u32> {
    seq![
        m.m00,
        m.m01,
        m.m02,
        m.m03,
        m.m10,
        m.m11,
        m.m12,
        m.m13,
        m.m20,
        m.m21,
        m.m22,
        m.m23,
        m.m30,
        m.m31,
        m.m32,
        m.m33,
    ]
}

pub open spec fn mat4_from_seq(vs: Seq<u32>) -> Mat4
    recommends
        vs.len() == 16,
{
    Mat4 {
        m00: vs[0],
        m01: vs[1],
        m02: vs[2],
        m03: vs[3],
        m10: vs[4],
        m11: vs[5],
        m12: vs[6],
        m13: vs[7],
        m20: vs[8],
        m21: vs[9],
        m22: vs[10],
        m23: vs[11],
        m30: vs[12],
        m31: vs[13],
        m32: vs[14],
        m33: vs[15],
    }
}

pub open spec fn enc_mat4(m: Mat4) -> Seq<u8> {
    enc_u32s(mat4_to_seq(m))
}

pub open spec fn dec_mat4(s: Seq<u8>) -> Option<(Mat4, Seq<u8>)> {
    match dec_u32s(s, 16) {
        Some((vs, r)) => Some((mat4_from_seq(vs), r)),
        None => None,
    }
}

pub proof fn lemma_dec_enc_mat4(m: Mat4, rest: Seq<u8>)
    ensures
        dec_mat4(enc_mat4(m) + rest) == Some((m, rest)),
{
    lemma_dec_enc_u32s(mat4_to_seq(m), rest);
    assert(mat4_from_seq(mat4_to_seq(m)) == m);
}

pub fn put_mat4(out: &mut Vec<u8>, m: &Mat4)
    ensures
        final(out)@ == old(out)@ + enc_mat4(*m),
{
    let mut vs: Vec<u32> = Vec::new();
    vs.push(m.m00);
    vs.push(m.m01);
    vs.push(m.m02);
    vs.push(m.m03);
    vs.push(m.m10);
    vs.push(m.m11);
    vs.push(m.m12);
    vs.push(m.m13);
    vs.push(m.m20);
    vs.push(m.m21);
    vs.push(m.m22);
    vs.push(m.m23);
    vs.push(m.m30);
    vs.push(m.m31);
    vs.push(m.m32);
    vs.push(m.m33);
    proof {
        assert(vs@ =~= mat4_to_seq(*m));
    }
    put_u32s(out, &vs);
}

pub fn read_mat4(s: &Vec<u8>, pos: &mut usize) -> (r: Option<Mat4>)
    requires
        *old(pos) <= s@.len(),
    ensures
        *old(pos) <= *final(pos) <= s@.len(),
        match r {
            Some(m) => dec_mat4(s@.skip(*old(pos) as int)) == Some((m, s@.skip(*final(pos) as int))),
            None => dec_mat4(s@.skip(*old(pos) as int)) is None,
        },
{
    match read_u32s(s, pos, 16) {
        None => None,
        Some(vs) => {
            let m = Mat4 {
                m00: vs[0],
                m01: vs[1],
                m02: vs[2],
                m03: vs[3],
                m10: vs[4],
                m11: vs[5],
                m12: vs[6],
                m13: vs[7],
                m20: vs[8],
                m21: vs[9],
                m22: vs[10],
                m23: vs[11],
                m30: vs[12],
                m31: vs[13],
                m32: vs[14],
                m33: vs[15],
            };
            proof {
                assert(m == mat4_from_seq(vs@));
            }
            Some(m)
        },
    }
}

} // verus!
