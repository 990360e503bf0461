//! Compression of the scene payload, through flate2's gzip codec.
//!
//! These are the library's only trusted calls. `gzip_of` names the byte
//! stream the encoder produces: flate2 writes a fixed header (zero
//! timestamp, fixed operating-system byte — chosen by that crate for
//! reproducible streams) followed by the deflate stream its compressor
//! derives from the input alone, so the result is a function of the input
//! bytes.

use std::io::{Read, Write};

use vstd::prelude::*;

verus! {

/// The byte stream flate2's gzip encoder produces, at the highest
/// compression level, for the given input.
pub uninterp spec fn gzip_of(data: Seq<u8>) -> Seq<u8>;

/// Relies on flate2::write::GzEncoder at Compression::best. Writing into a
/// `Vec` sink cannot fail, so `write_all` and `finish` return `Ok` on every
/// input.
#[verifier::external_body]
pub(crate) fn gzip_compress(data: &Vec<u8>) -> (r: Vec<u8>)
    ensures
        r@ == gzip_of(data@),
{
    let mut enc = flate2::write::GzEncoder::new(Vec::new(), flate2::Compression::best());
    enc.write_all(data).unwrap();
    enc.finish().unwrap()
}

/// Relies on flate2::read::GzDecoder: gzip is lossless, so a stream the
/// encoder produced for some input decompresses back to exactly that input;
/// a malformed stream makes `read_to_end` report an error instead of
/// panicking.
#[verifier::external_body]
pub(crate) fn gzip_decompress(data: &Vec<u8>) -> (r: Option<Vec<u8>>)
    ensures
        match r {
            Some(out) => forall|b: Seq<u8>| data@ == gzip_of(b) ==> out@ == b,
            None => forall|b: Seq<u8>| data@ != gzip_of(b),
        },
{
    let mut dec = flate2::read::GzDecoder::new(data.as_slice());
    let mut out = Vec::new();
    match dec.read_to_end(&mut out) {
        Ok(_) => Some(out),
        Err(_) => None,
    }
}

} // verus!
