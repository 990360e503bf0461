//! Wire primitives of the scene file payload.
//!
//! The payload is a fixed-layout little-endian binary format:
//!
//! * `u8`: one byte; `u32` / `u64`: little-endian; `i32`: its two's
//!   complement bits as a `u32`;
//! * a byte string: a `u64` length, then the bytes;
//! * a raw run of `u32` values: the values back to back, their count known
//!   from context.
//!
//! Every primitive exists four times: a spec encoder (`enc_*`) giving the
//! exact bytes, a spec decoder (`dec_*`) mapping a byte suffix to a value
//! and the remaining suffix, a proof that decoding inverts encoding
//! (`lemma_dec_enc_*`), and exec functions (`put_*` / `read_*`) proved
//! against the spec pair.

use vstd::prelude::*;

verus! {

// ---------------------------------------------------------------- spec: encode
pub open spec fn enc_u8(v: u8) -> Seq<u8> {
    seq![v]
}

pub open spec fn enc_u32(v: u32) -> Seq<u8> {
    seq![
        (v & 0xff) as u8,
        ((v >> 8) & 0xff) as u8,
        ((v >> 16) & 0xff) as u8,
        ((v >> 24) & 0xff) as u8,
    ]
}

pub open spec fn enc_u64(v: u64) -> Seq<u8> {
    seq![
        (v & 0xff) as u8,
        ((v >> 8) & 0xff) as u8,
        ((v >> 16) & 0xff) as u8,
        ((v >> 24) & 0xff) as u8,
        ((v >> 32) & 0xff) as u8,
        ((v >> 40) & 0xff) as u8,
        ((v >> 48) & 0xff) as u8,
        ((v >> 56) & 0xff) as u8,
    ]
}

pub open spec fn enc_i32(v: i32) -> Seq<u8> {
    enc_u32(v as u32)
}

pub open spec fn enc_bytes(b: Seq<u8>) -> Seq<u8>
    recommends
        b.len() <= u64::MAX,
{
    enc_u64(b.len() as u64) + b
}

pub open spec fn enc_u32s(vs: Seq<u32>) -> Seq<u8>
    decreases vs.len(),
{
    if vs.len() == 0 {
        Seq::empty()
    } else {
        enc_u32(vs[0]) + enc_u32s(vs.drop_first())
    }
}

// ---------------------------------------------------------------- spec: decode
pub open spec fn le32(b0: u8, b1: u8, b2: u8, b3: u8) -> u32 {
    (b0 as u32) | ((b1 as u32) << 8) | ((b2 as u32) << 16) | ((b3 as u32) << 24)
}

pub open spec fn le64(b0: u8, b1: u8, b2: u8, b3: u8, b4: u8, b5: u8, b6: u8, b7: u8) -> u64 {
    (b0 as u64) | ((b1 as u64) << 8) | ((b2 as u64) << 16) | ((b3 as u64) << 24) | ((b4 as u64)
        << 32) | ((b5 as u64) << 40) | ((b6 as u64) << 48) | ((b7 as u64) << 56)
}

pub open spec fn dec_u8(s: Seq<u8>) -> Option<(u8, Seq<u8>)> {
    if s.len() >= 1 {
        Some((s[0], s.skip(1)))
    } else {
        None
    }
}

pub open spec fn dec_u32(s: Seq<u8>) -> Option<(u32, Seq<u8>)> {
    if s.len() >= 4 {
        Some((le32(s[0], s[1], s[2], s[3]), s.skip(4)))
    } else {
        None
    }
}

pub open spec fn dec_u64(s: Seq<u8>) -> Option<(u64, Seq<u8>)> {
    if s.len() >= 8 {
        Some((le64(s[0], s[1], s[2], s[3], s[4], s[5], s[6], s[7]), s.skip(8)))
    } else {
        None
    }
}

pub open spec fn dec_i32(s: Seq<u8>) -> Option<(i32, Seq<u8>)> {
    match dec_u32(s) {
        Some((v, r)) => Some((v as i32, r)),
        None => None,
    }
}

pub open spec fn dec_bytes(s: Seq<u8>) -> Option<(Seq<u8>, Seq<u8>)> {
    match dec_u64(s) {
        Some((n, r)) => if n <= r.len() {
            Some((r.take(n as int), r.skip(n as int)))
        } else {
            None
        },
        None => None,
    }
}

pub open spec fn dec_u32s(s: Seq<u8>, n: nat) -> Option<(Seq<u32>, Seq<u8>)>
    decreases n,
{
    if n == 0 {
        Some((Seq::empty(), s))
    } else {
        match dec_u32(s) {
            Some((v, r)) => match dec_u32s(r, (n - 1) as nat) {
                Some((vs, r2)) => Some((seq![v] + vs, r2)),
                None => None,
            },
            None => None,
        }
    }
}

// ---------------------------------------------------------------- roundtrips
pub proof fn lemma_dec_enc_u8(v: u8, rest: Seq<u8>)
    ensures
        dec_u8(enc_u8(v) + rest) == Some((v, rest)),
{
    let s = enc_u8(v) + rest;
    assert(s.skip(1) =~= rest);
}

pub proof fn lemma_dec_enc_u32(v: u32, rest: Seq<u8>)
    ensures
        dec_u32(enc_u32(v) + rest) == Some((v, rest)),
{
    let s = enc_u32(v) + rest;
    assert(s.skip(4) =~= rest);
    assert(((v & 0xff) as u8 as u32) | (((v >> 8) & 0xff) as u8 as u32) << 8 | (((v >> 16)
        & 0xff) as u8 as u32) << 16 | (((v >> 24) & 0xff) as u8 as u32) << 24 == v)
        by (bit_vector);
}

pub proof fn lemma_dec_enc_u64(v: u64, rest: Seq<u8>)
    ensures
        dec_u64(enc_u64(v) + rest) == Some((v, rest)),
{
    let s = enc_u64(v) + rest;
    assert(s.skip(8) =~= rest);
    assert(((v & 0xff) as u8 as u64) | (((v >> 8) & 0xff) as u8 as u64) << 8 | (((v >> 16)
        & 0xff) as u8 as u64) << 16 | (((v >> 24) & 0xff) as u8 as u64) << 24 | (((v >> 32)
        & 0xff) as u8 as u64) << 32 | (((v >> 40) & 0xff) as u8 as u64) << 40 | (((v >> 48)
        & 0xff) as u8 as u64) << 48 | (((v >> 56) & 0xff) as u8 as u64) << 56 == v)
        by (bit_vector);
}

pub proof fn lemma_dec_enc_i32(v: i32, rest: Seq<u8>)
    ensures
        dec_i32(enc_i32(v) + rest) == Some((v, rest)),
{
    lemma_dec_enc_u32(v as u32, rest);
    assert((v as u32) as i32 == v) by (bit_vector);
}

pub proof fn lemma_dec_enc_bytes(b: Seq<u8>, rest: Seq<u8>)
    requires
        b.len() <= u64::MAX,
    ensures
        dec_bytes(enc_bytes(b) + rest) == Some((b, rest)),
{
    let n = b.len() as u64;
    assert(enc_bytes(b) + rest =~= enc_u64(n) + (b + rest));
    lemma_dec_enc_u64(n, b + rest);
    assert((b + rest).take(n as int) =~= b);
    assert((b + rest).skip(n as int) =~= rest);
}

pub proof fn lemma_dec_enc_u32s(vs: Seq<u32>, rest: Seq<u8>)
    ensures
        dec_u32s(enc_u32s(vs) + rest, vs.len()) == Some((vs, rest)),
    decreases vs.len(),
{
    if vs.len() == 0 {
        assert(enc_u32s(vs) + rest =~= rest);
        assert(dec_u32s(rest, 0) == Some((Seq::<u32>::empty(), rest)));
        assert(vs =~= Seq::<u32>::empty());
    } else {
        let tail = vs.drop_first();
        assert(enc_u32s(vs) + rest =~= enc_u32(vs[0]) + (enc_u32s(tail) + rest));
        lemma_dec_enc_u32(vs[0], enc_u32s(tail) + rest);
        lemma_dec_enc_u32s(tail, rest);
        assert(seq![vs[0]] + tail =~= vs);
    }
}

/// A raw `u32` run decodes exactly when four bytes per value are there, and
/// consumes exactly those bytes.
pub proof fn lemma_dec_u32s_len(s: Seq<u8>, n: nat)
    ensures
        (dec_u32s(s, n) is Some) == (s.len() >= 4 * n),
        dec_u32s(s, n) matches Some((vs, r)) ==> vs.len() == n && r.len() == s.len() - 4 * n,
    decreases n,
{
    if n > 0 && s.len() >= 4 {
        lemma_dec_u32s_len(s.skip(4), (n - 1) as nat);
    }
}

/// Concatenation is associative.
pub proof fn lemma_assoc<T>(a: Seq<T>, b: Seq<T>, c: Seq<T>)
    ensures
        (a + b) + c == a + (b + c),
{
    assert((a + b) + c =~= a + (b + c));
}

/// Chaining two skips is one longer skip.
pub proof fn lemma_skip_skip<T>(s: Seq<T>, a: int, b: int)
    requires
        0 <= a,
        0 <= b,
        a + b <= s.len(),
    ensures
        s.skip(a).skip(b) == s.skip(a + b),
{
    assert(s.skip(a).skip(b) =~= s.skip(a + b));
}

// ---------------------------------------------------------------- exec: encode
pub fn put_u8(out: &mut Vec<u8>, v: u8)
    ensures
        final(out)@ == old(out)@ + enc_u8(v),
{
    out.push(v);
    assert(out@ =~= old(out)@ + enc_u8(v));
}

pub fn put_u32(out: &mut Vec<u8>, v: u32)
    ensures
        final(out)@ == old(out)@ + enc_u32(v),
{
    out.push((v & 0xff) as u8);
    out.push(((v >> 8) & 0xff) as u8);
    out.push(((v >> 16) & 0xff) as u8);
    out.push(((v >> 24) & 0xff) as u8);
    assert(out@ =~= old(out)@ + enc_u32(v));
}

pub fn put_u64(out: &mut Vec<u8>, v: u64)
    ensures
        final(out)@ == old(out)@ + enc_u64(v),
{
    out.push((v & 0xff) as u8);
    out.push(((v >> 8) & 0xff) as u8);
    out.push(((v >> 16) & 0xff) as u8);
    out.push(((v >> 24) & 0xff) as u8);
    out.push(((v >> 32) & 0xff) as u8);
    out.push(((v >> 40) & 0xff) as u8);
    out.push(((v >> 48) & 0xff) as u8);
    out.push(((v >> 56) & 0xff) as u8);
    assert(out@ =~= old(out)@ + enc_u64(v));
}

pub fn put_i32(out: &mut Vec<u8>, v: i32)
    ensures
        final(out)@ == old(out)@ + enc_i32(v),
{
    put_u32(out, v as u32);
}

pub fn put_bytes(out: &mut Vec<u8>, b: &Vec<u8>)
    ensures
        final(out)@ == old(out)@ + enc_bytes(b@),
{
    let n: usize = b.len();
    put_u64(out, n as u64);
    let ghost mid = out@;
    let mut i: usize = 0;
    while i < n
        invariant
            i <= n,
            n == b@.len(),
            out@ == mid + b@.take(i as int),
        decreases n - i,
    {
        out.push(b[i]);
        assert(out@ =~= mid + b@.take(i + 1));
        i = i + 1;
    }
    assert(b@.take(n as int) =~= b@);
    assert(out@ =~= old(out)@ + enc_bytes(b@));
}

/// Appending one more value extends the raw run by its four bytes.
pub proof fn lemma_enc_u32s_snoc(vs: Seq<u32>, v: u32)
    ensures
        enc_u32s(vs.push(v)) == enc_u32s(vs) + enc_u32(v),
    decreases vs.len(),
{
    if vs.len() == 0 {
        assert(vs.push(v)[0] == v);
        assert(vs.push(v).drop_first() =~= vs);
        assert(enc_u32s(vs) == Seq::<u8>::empty());
        assert(enc_u32s(vs.push(v)) =~= enc_u32s(vs) + enc_u32(v));
    } else {
        assert(vs.push(v)[0] == vs[0]);
        assert(vs.push(v).drop_first() =~= vs.drop_first().push(v));
        lemma_enc_u32s_snoc(vs.drop_first(), v);
        assert(enc_u32s(vs.push(v)) == enc_u32(vs[0]) + enc_u32s(vs.drop_first().push(v)));
        assert(enc_u32(vs[0]) + (enc_u32s(vs.drop_first()) + enc_u32(v)) =~= (enc_u32(vs[0])
            + enc_u32s(vs.drop_first())) + enc_u32(v));
    }
}

pub fn put_u32s(out: &mut Vec<u8>, vs: &Vec<u32>)
    ensures
        final(out)@ == old(out)@ + enc_u32s(vs@),
{
    let n: usize = vs.len();
    let mut i: usize = 0;
    while i < n
        invariant
            i <= n,
            n == vs@.len(),
            out@ == old(out)@ + enc_u32s(vs@.take(i as int)),
        decreases n - i,
    {
        proof {
            assert(vs@.take(i as int).push(vs@[i as int]) =~= vs@.take(i + 1));
            lemma_enc_u32s_snoc(vs@.take(i as int), vs@[i as int]);
        }
        put_u32(out, vs[i]);
        i = i + 1;
    }
    assert(vs@.take(n as int) =~= vs@);
}

// ---------------------------------------------------------------- exec: decode
pub fn read_u8(s: &Vec<u8>, pos: &mut usize) -> (r: Option<u8>)
    requires
        *old(pos) <= s@.len(),
    ensures
        *old(pos) <= *final(pos) <= s@.len(),
        match r {
            Some(v) => dec_u8(s@.skip(*old(pos) as int)) == Some((v, s@.skip(*final(pos) as int))),
            None => dec_u8(s@.skip(*old(pos) as int)) is None,
        },
{
    if s.len() - *pos >= 1 {
        let b = s[*pos];
        *pos = *pos + 1;
        proof {
            lemma_skip_skip(s@, *old(pos) as int, 1);
        }
        Some(b)
    } else {
        None
    }
}

pub fn read_u32(s: &Vec<u8>, pos: &mut usize) -> (r: Option<u32>)
    requires
        *old(pos) <= s@.len(),
    ensures
        *old(pos) <= *final(pos) <= s@.len(),
        match r {
            Some(v) => dec_u32(s@.skip(*old(pos) as int)) == Some((v, s@.skip(*final(pos) as int))),
            None => dec_u32(s@.skip(*old(pos) as int)) is None,
        },
{
    if s.len() - *pos >= 4 {
        let b0 = s[*pos];
        let b1 = s[*pos + 1];
        let b2 = s[*pos + 2];
        let b3 = s[*pos + 3];
        *pos = *pos + 4;
        proof {
            lemma_skip_skip(s@, *old(pos) as int, 4);
        }
        Some((b0 as u32) | ((b1 as u32) << 8) | ((b2 as u32) << 16) | ((b3 as u32) << 24))
    } else {
        None
    }
}

pub fn read_u64(s: &Vec<u8>, pos: &mut usize) -> (r: Option<u64>)
    requires
        *old(pos) <= s@.len(),
    ensures
        *old(pos) <= *final(pos) <= s@.len(),
        match r {
            Some(v) => dec_u64(s@.skip(*old(pos) as int)) == Some((v, s@.skip(*final(pos) as int))),
            None => dec_u64(s@.skip(*old(pos) as int)) is None,
        },
{
    if s.len() - *pos >= 8 {
        let b0 = s[*pos];
        let b1 = s[*pos + 1];
        let b2 = s[*pos + 2];
        let b3 = s[*pos + 3];
        let b4 = s[*pos + 4];
        let b5 = s[*pos + 5];
        let b6 = s[*pos + 6];
        let b7 = s[*pos + 7];
        *pos = *pos + 8;
        proof {
            lemma_skip_skip(s@, *old(pos) as int, 8);
        }
        Some(
            (b0 as u64) | ((b1 as u64) << 8) | ((b2 as u64) << 16) | ((b3 as u64) << 24) | ((
            b4 as u64) << 32) | ((b5 as u64) << 40) | ((b6 as u64) << 48) | ((b7 as u64) << 56),
        )
    } else {
        None
    }
}

pub fn read_i32(s: &Vec<u8>, pos: &mut usize) -> (r: Option<i32>)
    requires
        *old(pos) <= s@.len(),
    ensures
        *old(pos) <= *final(pos) <= s@.len(),
        match r {
            Some(v) => dec_i32(s@.skip(*old(pos) as int)) == Some((v, s@.skip(*final(pos) as int))),
            None => dec_i32(s@.skip(*old(pos) as int)) is None,
        },
{
    match read_u32(s, pos) {
        Some(v) => Some(v as i32),
        None => None,
    }
}

pub fn read_bytes(s: &Vec<u8>, pos: &mut usize) -> (r: Option<Vec<u8>>)
    requires
        *old(pos) <= s@.len(),
    ensures
        *old(pos) <= *final(pos) <= s@.len(),
        match r {
            Some(b) => dec_bytes(s@.skip(*old(pos) as int)) == Some(
                (b@, s@.skip(*final(pos) as int)),
            ),
            None => dec_bytes(s@.skip(*old(pos) as int)) is None,
        },
{
    let n: u64 = match read_u64(s, pos) {
        Some(n) => n,
        None => {
            return None;
        },
    };
    let remaining: usize = s.len() - *pos;
    if n > remaining as u64 {
        return None;
    }
    let count: usize = n as usize;
    let start: usize = *pos;
    let mut b: Vec<u8> = Vec::new();
    let mut i: usize = 0;
    while i < count
        invariant
            i <= count,
            start + count <= s@.len(),
            s@.len() <= usize::MAX,
            b@ == s@.subrange(start as int, start + i),
        decreases count - i,
    {
        b.push(s[start + i]);
        assert(b@ =~= s@.subrange(start as int, start + i + 1));
        i = i + 1;
    }
    *pos = start + count;
    proof {
        let suffix = s@.skip(start as int);
        assert(b@ =~= suffix.take(n as int));
        lemma_skip_skip(s@, start as int, n as int);
    }
    Some(b)
}

pub fn read_u32s(s: &Vec<u8>, pos: &mut usize, count: usize) -> (r: Option<Vec<u32>>)
    requires
        *old(pos) <= s@.len(),
    ensures
        *old(pos) <= *final(pos) <= s@.len(),
        match r {
            Some(vs) => dec_u32s(s@.skip(*old(pos) as int), count as nat) == Some(
                (vs@, s@.skip(*final(pos) as int)),
            ) && vs@.len() == count,
            None => dec_u32s(s@.skip(*old(pos) as int), count as nat) is None,
        },
{
    let mut vs: Vec<u32> = Vec::new();
    let mut i: usize = 0;
    while i < count
        invariant
            i <= count,
            *old(pos) <= *pos <= s@.len(),
            vs@.len() == i,
            dec_u32s(s@.skip(*old(pos) as int), count as nat) == (match dec_u32s(
                s@.skip(*pos as int),
                (count - i) as nat,
            ) {
                Some((tail_vs, tail_rest)) => Some::<(Seq<u32>, Seq<u8>)>(
                    (vs@ + tail_vs, tail_rest),
                ),
                None => None::<(Seq<u32>, Seq<u8>)>,
            }),
        decreases count - i,
    {
        let ghost pre_vs = vs@;
        match read_u32(s, pos) {
            Some(v) => {
                vs.push(v);
                proof {
                    if let Some((tail_vs, tail_rest)) = dec_u32s(
                        s@.skip(*pos as int),
                        (count - i - 1) as nat,
                    ) {
                        assert(pre_vs + (seq![v] + tail_vs) =~= vs@ + tail_vs);
                    }
                }
                i = i + 1;
            },
            None => {
                return None;
            },
        }
    }
    proof {
        assert(vs@ + Seq::<u32>::empty() =~= vs@);
    }
    Some(vs)
}

} // verus!
