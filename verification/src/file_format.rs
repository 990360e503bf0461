//! The on-disk envelope of a scene file, and the versioned decode pipeline.
//!
//! A file is one of:
//!
//! * the legacy form: the eight ASCII bytes `PogPaint`, then the
//!   gzip-compressed first-generation payload (no version byte — the legacy
//!   format predates the convention; it is payload version 0);
//! * the versioned form: the seventeen ASCII bytes `VersionedPogPaint`,
//!   one version byte, then the gzip-compressed payload of that version.
//!
//! The two header strings differ in their first byte (`P` against `V`), so
//! one byte settles which form a file is in. Decoding always produces a
//! current-schema document: historical payloads are migrated forward.

use vstd::prelude::*;

use crate::codec_v0::{decode_doc_v0, enc_pp_v0};
use crate::codec_v1::{decode_doc_v1, enc_pp_v1, encode_doc_v1, lemma_doc_v1_roundtrip};
use crate::gzip::{gzip_compress, gzip_decompress, gzip_of};
use crate::v0;
use crate::v1;

verus! {

/// The eight bytes of the legacy header, `PogPaint` in ASCII.
pub open spec fn legacy_header() -> Seq<u8> {
    seq![0x50u8, 0x6Fu8, 0x67u8, 0x50u8, 0x61u8, 0x69u8, 0x6Eu8, 0x74u8]
}

/// The seventeen bytes of the versioned header, `VersionedPogPaint` in
/// ASCII.
pub open spec fn versioned_header() -> Seq<u8> {
    seq![
        0x56u8,
        0x65u8,
        0x72u8,
        0x73u8,
        0x69u8,
        0x6Fu8,
        0x6Eu8,
        0x65u8,
        0x64u8,
        0x50u8,
        0x6Fu8,
        0x67u8,
        0x50u8,
        0x61u8,
        0x69u8,
        0x6Eu8,
        0x74u8,
    ]
}

pub fn legacy_header_bytes() -> (v: Vec<u8>)
    ensures
        v@ == legacy_header(),
{
    let mut v: Vec<u8> = Vec::new();
    v.push(0x50u8);
    v.push(0x6Fu8);
    v.push(0x67u8);
    v.push(0x50u8);
    v.push(0x61u8);
    v.push(0x69u8);
    v.push(0x6Eu8);
    v.push(0x74u8);
    assert(v@ =~= legacy_header());
    v
}

pub fn versioned_header_bytes() -> (v: Vec<u8>)
    ensures
        v@ == versioned_header(),
{
    let mut v: Vec<u8> = Vec::new();
    v.push(0x56u8);
    v.push(0x65u8);
    v.push(0x72u8);
    v.push(0x73u8);
    v.push(0x69u8);
    v.push(0x6Fu8);
    v.push(0x6Eu8);
    v.push(0x65u8);
    v.push(0x64u8);
    v.push(0x50u8);
    v.push(0x6Fu8);
    v.push(0x67u8);
    v.push(0x50u8);
    v.push(0x61u8);
    v.push(0x69u8);
    v.push(0x6Eu8);
    v.push(0x74u8);
    assert(v@ =~= versioned_header());
    v
}

/// Why a load failed. Decompression, deserialization and header problems
/// are reported, never crashed on; I/O failures happen outside the library
/// and never reach it.
#[derive(Clone, Copy, PartialEq, Eq, Structural, Debug)]
pub enum LoadError {
    /// The file starts with neither known header (or is too short for one).
    HeaderMismatch,
    /// The versioned header announced a payload version outside the known
    /// migration chain.
    UnsupportedVersion(u8),
    /// The compressed payload is not a well-formed gzip stream.
    Decompression,
    /// The decompressed payload does not follow its version's schema.
    Deserialize,
    /// The document references an image by external path, which only the
    /// application's asset loader can resolve.
    ExternalImage,
    /// An embedded image's byte count or placement contradicts its declared
    /// dimensions.
    BadImage,
    /// An embedded heightmap's sample count or placement contradicts its
    /// declared dimensions.
    BadHeightmap,
}

/// What the envelope of a byte string holds.
pub enum EnvelopeView {
    Legacy { payload: Seq<u8> },
    Versioned { version: u8, payload: Seq<u8> },
    Bad,
}

/// Envelope classification: the first byte picks the header to expect, as
/// the two headers never share one.
pub open spec fn spec_envelope(bytes: Seq<u8>) -> EnvelopeView {
    if bytes.len() >= 1 && bytes[0] == legacy_header()[0] {
        if bytes.len() >= 8 && bytes.take(8) == legacy_header() {
            EnvelopeView::Legacy { payload: bytes.skip(8) }
        } else {
            EnvelopeView::Bad
        }
    } else if bytes.len() >= 18 && bytes.take(17) == versioned_header() {
        EnvelopeView::Versioned { version: bytes[17], payload: bytes.skip(18) }
    } else {
        EnvelopeView::Bad
    }
}

/// A file starting with the legacy header's exact bytes is always read as
/// the legacy (version 0) form, whatever follows; one starting with the
/// versioned header's bytes is always read through the version byte after
/// it.
pub proof fn lemma_header_disambiguation(bytes: Seq<u8>)
    ensures
        bytes.len() >= 8 && bytes.take(8) == legacy_header() ==> spec_envelope(bytes)
            == (EnvelopeView::Legacy { payload: bytes.skip(8) }),
        bytes.len() >= 18 && bytes.take(17) == versioned_header() ==> spec_envelope(bytes)
            == (EnvelopeView::Versioned { version: bytes[17], payload: bytes.skip(18) }),
{
    if bytes.len() >= 8 && bytes.take(8) == legacy_header() {
        assert(bytes[0] == bytes.take(8)[0]);
    }
    if bytes.len() >= 18 && bytes.take(17) == versioned_header() {
        assert(bytes[0] == bytes.take(17)[0]);
    }
}

/// The envelope of a header plus payload recovers exactly that payload.
pub proof fn lemma_envelope_legacy(payload: Seq<u8>)
    ensures
        spec_envelope(legacy_header() + payload) == (EnvelopeView::Legacy { payload }),
{
    let bytes = legacy_header() + payload;
    assert(bytes.take(8) =~= legacy_header());
    assert(bytes.skip(8) =~= payload);
    lemma_header_disambiguation(bytes);
}

pub proof fn lemma_envelope_versioned(version: u8, payload: Seq<u8>)
    ensures
        spec_envelope(versioned_header() + seq![version] + payload) == (EnvelopeView::Versioned {
            version,
            payload,
        }),
{
    let bytes = versioned_header() + seq![version] + payload;
    assert(bytes.take(17) =~= versioned_header());
    assert(bytes[17] == version);
    assert(bytes.skip(18) =~= payload);
    lemma_header_disambiguation(bytes);
}

/// The bytes a save of the current-schema document `d` writes.
pub open spec fn spec_saved_v1(d: v1::PpView) -> Seq<u8> {
    versioned_header() + seq![v1::VERSION] + gzip_of(enc_pp_v1(d))
}

/// The bytes of a legacy file holding the first-generation document `d`.
pub open spec fn spec_saved_legacy(d: v0::PpView) -> Seq<u8> {
    legacy_header() + gzip_of(enc_pp_v0(d))
}

/// The bytes of a versioned file holding a version-0 payload.
pub open spec fn spec_saved_versioned_v0(d: v0::PpView) -> Seq<u8> {
    versioned_header() + seq![0u8] + gzip_of(enc_pp_v0(d))
}

/// Wrap an encoded current-schema document in the versioned envelope.
pub fn encode_document(pp: &v1::Pp) -> (r: Vec<u8>)
    ensures
        r@ == spec_saved_v1(pp@),
{
    let mut out = versioned_header_bytes();
    out.push(v1::VERSION);
    let payload = encode_doc_v1(pp);
    let compressed = gzip_compress(&payload);
    let n: usize = compressed.len();
    let mut i: usize = 0;
    while i < n
        invariant
            i <= n,
            n == compressed@.len(),
            out@ == versioned_header() + seq![v1::VERSION] + compressed@.take(i as int),
        decreases n - i,
    {
        out.push(compressed[i]);
        assert(out@ =~= versioned_header() + seq![v1::VERSION] + compressed@.take(i + 1));
        i = i + 1;
    }
    assert(compressed@.take(n as int) =~= compressed@);
    assert(out@ =~= spec_saved_v1(pp@));
    out
}

/// Decompress and decode a version-1 payload. Exactly the streams gzip made
/// from an encoded well-formed document succeed, and recover that document.
pub fn decode_payload_v1(payload: &Vec<u8>) -> (r: Result<v1::Pp, LoadError>)
    ensures
        forall|d: v1::PpView|
            d.wf() && payload@ == gzip_of(enc_pp_v1(d)) ==> (r matches Ok(pp) && pp@ == d),
        r matches Ok(pp) ==> pp@.wf(),
        r matches Err(e) ==> (e == LoadError::Decompression || e == LoadError::Deserialize),
{
    let inner = match gzip_decompress(payload) {
        Some(b) => b,
        None => {
            return Err(LoadError::Decompression);
        },
    };
    match decode_doc_v1(&inner) {
        Some(pp) => {
            proof {
                assert forall|d: v1::PpView|
                    d.wf() && payload@ == gzip_of(enc_pp_v1(d)) implies pp@ == d by {
                    lemma_doc_v1_roundtrip(d);
                }
            }
            Ok(pp)
        },
        None => {
            proof {
                assert forall|d: v1::PpView|
                    d.wf() && payload@ == gzip_of(enc_pp_v1(d)) implies false by {
                    lemma_doc_v1_roundtrip(d);
                }
            }
            Err(LoadError::Deserialize)
        },
    }
}

/// Decompress and decode a version-0 payload, then migrate it forward.
pub fn decode_payload_v0(payload: &Vec<u8>) -> (r: Result<v1::Pp, LoadError>)
    ensures
        forall|d: v0::PpView|
            d.wf() && payload@ == gzip_of(enc_pp_v0(d)) ==> (r matches Ok(pp) && pp@ == v1::migrate_pp(d)),
        r matches Ok(pp) ==> pp@.wf(),
        r matches Err(e) ==> (e == LoadError::Decompression || e == LoadError::Deserialize),
{
    let inner = match gzip_decompress(payload) {
        Some(b) => b,
        None => {
            return Err(LoadError::Decompression);
        },
    };
    match decode_doc_v0(&inner) {
        Some(pp0) => {
            let ghost d0 = pp0@;
            proof {
                assert forall|d: v0::PpView|
                    d.wf() && payload@ == gzip_of(enc_pp_v0(d)) implies pp0@ == d by {
                    crate::codec_v0::lemma_doc_v0_roundtrip(d);
                }
                v1::lemma_migrate_wf(d0);
            }
            Ok(v1::Pp::from(pp0))
        },
        None => {
            proof {
                assert forall|d: v0::PpView|
                    d.wf() && payload@ == gzip_of(enc_pp_v0(d)) implies false by {
                    crate::codec_v0::lemma_doc_v0_roundtrip(d);
                }
            }
            Err(LoadError::Deserialize)
        },
    }
}

/// Check `bytes` for the given header; when it is there, hand back the rest.
fn strip_header(bytes: &Vec<u8>, header: &Vec<u8>) -> (r: Option<Vec<u8>>)
    ensures
        match r {
            Some(rest) => bytes@.len() >= header@.len() && bytes@.take(header@.len() as int)
                == header@ && rest@ == bytes@.skip(header@.len() as int),
            None => !(bytes@.len() >= header@.len() && bytes@.take(header@.len() as int)
                == header@),
        },
{
    let h: usize = header.len();
    if bytes.len() < h {
        proof {
            assert(bytes@.len() < header@.len());
        }
        return None;
    }
    let mut i: usize = 0;
    while i < h
        invariant
            i <= h,
            h == header@.len(),
            h <= bytes@.len(),
            forall|k: int| 0 <= k < i ==> bytes@[k] == header@[k],
        decreases h - i,
    {
        if bytes[i] != header[i] {
            proof {
                assert(bytes@.take(h as int)[i as int] != header@[i as int]);
            }
            return None;
        }
        i = i + 1;
    }
    proof {
        assert(bytes@.take(h as int) =~= header@);
    }
    let n: usize = bytes.len();
    let mut rest: Vec<u8> = Vec::new();
    let mut j: usize = h;
    while j < n
        invariant
            h <= j <= n,
            n == bytes@.len(),
            rest@ == bytes@.subrange(h as int, j as int),
        decreases n - j,
    {
        rest.push(bytes[j]);
        assert(rest@ =~= bytes@.subrange(h as int, j + 1));
        j = j + 1;
    }
    proof {
        assert(rest@ =~= bytes@.skip(h as int));
    }
    Some(rest)
}

/// Decode a whole scene file into a current-schema document: recognise the
/// header, read the version byte where there is one, decompress, decode the
/// matching historical schema and migrate it forward. Every failure is a
/// reported error, never a crash.
pub fn decode_document(bytes: &Vec<u8>) -> (r: Result<v1::Pp, LoadError>)
    ensures
        (r == Err::<v1::Pp, LoadError>(LoadError::HeaderMismatch)) == (spec_envelope(bytes@)
            is Bad),
        (match spec_envelope(bytes@) {
            EnvelopeView::Versioned { version, .. } => version != 0 && version != v1::VERSION,
            _ => false,
        }) <==> (match r {
            Err(LoadError::UnsupportedVersion(v)) => spec_envelope(bytes@) matches
                EnvelopeView::Versioned { version, .. } && version == v,
            _ => false,
        }),
        r matches Ok(pp) ==> pp@.wf(),
        forall|d: v1::PpView|
            d.wf() && bytes@ == spec_saved_v1(d) ==> (r matches Ok(pp) && pp@ == d),
        forall|d: v0::PpView|
            d.wf() && bytes@ == spec_saved_legacy(d) ==> (r matches Ok(pp) && pp@ == v1::migrate_pp(d)),
        forall|d: v0::PpView|
            d.wf() && bytes@ == spec_saved_versioned_v0(d) ==> (r matches Ok(pp) && pp@ == v1::migrate_pp(d)),
{
    proof {
        assert forall|d: v1::PpView| d.wf() && bytes@ == spec_saved_v1(d) implies spec_envelope(
            bytes@,
        ) == (EnvelopeView::Versioned {
            version: v1::VERSION,
            payload: gzip_of(enc_pp_v1(d)),
        }) by {
            lemma_envelope_versioned(v1::VERSION, gzip_of(enc_pp_v1(d)));
        }
        assert forall|d: v0::PpView|
            d.wf() && bytes@ == spec_saved_legacy(d) implies spec_envelope(bytes@)
            == (EnvelopeView::Legacy { payload: gzip_of(enc_pp_v0(d)) }) by {
            lemma_envelope_legacy(gzip_of(enc_pp_v0(d)));
        }
        assert forall|d: v0::PpView|
            d.wf() && bytes@ == spec_saved_versioned_v0(d) implies spec_envelope(bytes@)
            == (EnvelopeView::Versioned { version: 0u8, payload: gzip_of(enc_pp_v0(d)) }) by {
            lemma_envelope_versioned(0u8, gzip_of(enc_pp_v0(d)));
        }
    }
    let legacy = legacy_header_bytes();
    let first_is_legacy: bool = bytes.len() >= 1 && bytes[0] == 0x50u8;
    if first_is_legacy {
        match strip_header(bytes, &legacy) {
            Some(payload) => {
                proof {
                    assert(spec_envelope(bytes@) == (EnvelopeView::Legacy {
                        payload: bytes@.skip(8),
                    }));
                }
                decode_payload_v0(&payload)
            },
            None => {
                proof {
                    assert(spec_envelope(bytes@) is Bad);
                }
                Err(LoadError::HeaderMismatch)
            },
        }
    } else {
        let versioned = versioned_header_bytes();
        match strip_header(bytes, &versioned) {
            Some(tail) => {
                if tail.len() < 1 {
                    proof {
                        assert(bytes@.len() < 18);
                        assert(spec_envelope(bytes@) is Bad);
                    }
                    return Err(LoadError::HeaderMismatch);
                }
                let version: u8 = tail[0];
                let mut payload: Vec<u8> = Vec::new();
                let n: usize = tail.len();
                let mut j: usize = 1;
                while j < n
                    invariant
                        1 <= j <= n,
                        n == tail@.len(),
                        payload@ == tail@.subrange(1, j as int),
                    decreases n - j,
                {
                    payload.push(tail[j]);
                    assert(payload@ =~= tail@.subrange(1, j + 1));
                    j = j + 1;
                }
                proof {
                    assert(payload@ =~= tail@.skip(1));
                    assert(tail@.skip(1) =~= bytes@.skip(18));
                    assert(bytes@[17] == tail@[0]);
                    assert(spec_envelope(bytes@) == (EnvelopeView::Versioned {
                        version: bytes@[17],
                        payload: bytes@.skip(18),
                    }));
                }
                if version == 0 {
                    decode_payload_v0(&payload)
                } else if version == v1::VERSION {
                    decode_payload_v1(&payload)
                } else {
                    Err(LoadError::UnsupportedVersion(version))
                }
            },
            None => {
                proof {
                    assert(spec_envelope(bytes@) is Bad);
                }
                Err(LoadError::HeaderMismatch)
            },
        }
    }
}

impl crate::Model {
    /// Serialize this scene: every canvas embedded in a current-schema
    /// document, wrapped in the versioned envelope.
    pub fn save(&self) -> (r: Vec<u8>)
        requires
            self.wf(),
        ensures
            r@ == spec_saved_v1(crate::materialize::doc_of_model(*self)),
    {
        let pp = self.to_document();
        encode_document(&pp)
    }

    /// Load a scene file: recognise the header, decompress, decode the
    /// payload's schema, migrate it to the current schema and materialize a
    /// live scene. In particular, the bytes [`Model::save`] wrote for a
    /// well-formed scene always load, to a scene presenting the same
    /// document — planes in the same order, transforms equal, pixel content
    /// byte-identical.
    pub fn load(bytes: &Vec<u8>) -> (r: Result<crate::Model, LoadError>)
        ensures
            r matches Ok(m) ==> m.wf() && crate::materialize::model_normal(m),
            (r == Err::<crate::Model, LoadError>(LoadError::HeaderMismatch)) == (spec_envelope(
                bytes@,
            ) is Bad),
            (match spec_envelope(bytes@) {
                EnvelopeView::Versioned { version, .. } => version != 0 && version != v1::VERSION,
                _ => false,
            }) <==> (match r {
                Err(LoadError::UnsupportedVersion(v)) => spec_envelope(bytes@) matches
                    EnvelopeView::Versioned { version, .. } && version == v,
                _ => false,
            }),
            forall|d: v1::PpView|
                d.wf() && crate::materialize::doc_issue(d.planes) is None && bytes@
                    == spec_saved_v1(d) ==> (r matches Ok(m) && crate::materialize::doc_of_model(m)
                    == d),
            forall|m0: crate::Model|
                m0.wf() && bytes@ == spec_saved_v1(crate::materialize::doc_of_model(m0)) ==> (
                r matches Ok(m) && crate::materialize::doc_of_model(m)
                    == crate::materialize::doc_of_model(m0)),
            forall|d0: v0::PpView|
                d0.wf() && crate::materialize::doc_issue(v1::migrate_pp(d0).planes) is None
                    && bytes@ == spec_saved_legacy(d0) ==> (r matches Ok(m)
                    && crate::materialize::doc_of_model(m) == v1::migrate_pp(d0)),
    {
        let pp = match decode_document(bytes) {
            Ok(pp) => pp,
            Err(e) => {
                proof {
                    assert forall|m0: crate::Model|
                        m0.wf() && bytes@ == spec_saved_v1(
                            crate::materialize::doc_of_model(m0),
                        ) implies false by {
                        crate::materialize::lemma_doc_of_wf(m0);
                    }
                }
                return Err(e);
            },
        };
        let r = crate::Model::from_document(&pp);
        proof {
            match crate::materialize::doc_issue(pp@.planes) {
                None => {},
                Some(issue) => {
                    assert(r == Err::<crate::Model, LoadError>(
                        crate::materialize::issue_error(issue),
                    ));
                    assert(crate::materialize::issue_error(issue) != LoadError::HeaderMismatch);
                    assert(!(crate::materialize::issue_error(issue) matches
                        LoadError::UnsupportedVersion(_)));
                },
            }
            assert forall|m0: crate::Model|
                m0.wf() && bytes@ == spec_saved_v1(crate::materialize::doc_of_model(m0)) implies (
            r matches Ok(m) && crate::materialize::doc_of_model(m)
                == crate::materialize::doc_of_model(m0)) by {
                crate::materialize::lemma_doc_of_wf(m0);
                crate::materialize::lemma_doc_of_materializable(m0);
            }
        }
        r
    }
}

} // verus!
