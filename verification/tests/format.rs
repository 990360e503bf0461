//! Scene file format: envelope, versioning, migration and round-trips.

use std::io::{Read, Write};

use pog_paint::file_format::{
    decode_document, encode_document, legacy_header_bytes, versioned_header_bytes, LoadError,
};
use pog_paint::geom::{IVec2, Mat4, Rect, ONE_F32_BITS};
use pog_paint::heightmap::{HeightBuf, Heightmap};
use pog_paint::plane::Plane;
use pog_paint::texture::{PixelBuf, Rgba8, Texture};
use pog_paint::{v0, v1, Model};

fn checkerboard_4x4() -> Vec<Rgba8> {
    let mut pixels = Vec::new();
    for y in 0..4u8 {
        for x in 0..4u8 {
            if (x + y) % 2 == 0 {
                pixels.push(Rgba8 { r: 255, g: 255, b: 255, a: 255 });
            } else {
                pixels.push(Rgba8 { r: 0, g: 0, b: 0, a: 255 });
            }
        }
    }
    pixels
}

fn one_plane_model() -> Model {
    let buf = PixelBuf { width: 4, height: 4, data: checkerboard_4x4() };
    let texture = Texture::from(Some(buf), IVec2 { x: 0, y: 0 });
    let plane = Plane { texture, heightmap: None, transform: Mat4::identity() };
    Model { planes: vec![plane] }
}

#[test]
fn empty_scene_roundtrip() {
    let m = Model::new();
    let bytes = m.save();
    let loaded = Model::load(&bytes).expect("empty scene must load");
    assert_eq!(loaded.planes.len(), 0);
}

#[test]
fn single_embedded_plane_roundtrip() {
    let m = one_plane_model();
    let bytes = m.save();
    let loaded = Model::load(&bytes).expect("scene must load");
    assert_eq!(loaded.planes.len(), 1);
    let plane = &loaded.planes[0];
    assert_eq!(plane.transform, Mat4::identity());
    assert!(plane.heightmap.is_none());
    for y in 0..4i32 {
        for x in 0..4i32 {
            let expect = if (x + y) % 2 == 0 {
                Rgba8 { r: 255, g: 255, b: 255, a: 255 }
            } else {
                Rgba8 { r: 0, g: 0, b: 0, a: 255 }
            };
            assert_eq!(plane.texture.color_at(IVec2 { x, y }), expect);
        }
    }
    // The embedded pixel payload is byte-identical: 64 bytes, 4 per pixel.
    let doc = loaded.to_document();
    match &doc.planes[0].image {
        Some(img) => match &img.data {
            v1::ImageData::Embed { size_x, size_y, data } => {
                assert_eq!((*size_x, *size_y), (4, 4));
                assert_eq!(data.len(), 64);
                let mut expected = Vec::new();
                for p in checkerboard_4x4() {
                    expected.extend_from_slice(&[p.r, p.g, p.b, p.a]);
                }
                assert_eq!(data, &expected);
            }
            v1::ImageData::Load(_) => panic!("saved image must be embedded"),
        },
        None => panic!("plane must keep its image"),
    }
}

#[test]
fn heightmap_roundtrip() {
    let h1 = 1.5f32.to_bits();
    let h2 = (-0.25f32).to_bits();
    let buf = HeightBuf { width: 2, height: 1, data: vec![h1, h2] };
    let heightmap = Heightmap::from(Some(buf), IVec2 { x: -1, y: 2 });
    let plane =
        Plane { texture: Texture::new(), heightmap: Some(heightmap), transform: Mat4::identity() };
    let m = Model { planes: vec![plane] };
    let bytes = m.save();
    let loaded = Model::load(&bytes).expect("scene must load");
    let hm = loaded.planes[0].heightmap.as_ref().expect("heightmap kept");
    assert_eq!(hm.get(IVec2 { x: -1, y: 2 }), Some(h1));
    assert_eq!(hm.get(IVec2 { x: 0, y: 2 }), Some(h2));
    assert_eq!(hm.get(IVec2 { x: 1, y: 2 }), None);
    assert_eq!(f32::from_bits(hm.get(IVec2 { x: -1, y: 2 }).unwrap()), 1.5);
}

#[test]
fn unknown_version_255() {
    let mut bytes = versioned_header_bytes();
    bytes.push(255);
    bytes.extend_from_slice(b"whatever follows");
    assert_eq!(decode_document(&bytes).err(), Some(LoadError::UnsupportedVersion(255)));
    assert_eq!(Model::load(&bytes).err(), Some(LoadError::UnsupportedVersion(255)));
}

#[test]
fn header_mismatch() {
    let bytes = b"Hello, not a scene".to_vec();
    assert_eq!(decode_document(&bytes).err(), Some(LoadError::HeaderMismatch));
    // Starts like the legacy header but is cut short.
    let bytes = b"Pog".to_vec();
    assert_eq!(decode_document(&bytes).err(), Some(LoadError::HeaderMismatch));
    // Empty input.
    assert_eq!(decode_document(&Vec::new()).err(), Some(LoadError::HeaderMismatch));
}

#[test]
fn corrupt_gzip_stream() {
    let mut bytes = versioned_header_bytes();
    bytes.push(1);
    bytes.extend_from_slice(b"this is not gzip");
    assert_eq!(decode_document(&bytes).err(), Some(LoadError::Decompression));
}

#[test]
fn corrupt_payload() {
    let mut bytes = versioned_header_bytes();
    bytes.push(1);
    let mut enc = flate2::write::GzEncoder::new(Vec::new(), flate2::Compression::best());
    enc.write_all(b"garbage that is no document").unwrap();
    bytes.extend_from_slice(&enc.finish().unwrap());
    assert_eq!(decode_document(&bytes).err(), Some(LoadError::Deserialize));
}

#[test]
fn legacy_empty_scene() {
    // A legacy file: "PogPaint", then gzip of a zero plane count.
    let mut bytes = legacy_header_bytes();
    let payload = [0u8; 8];
    let mut enc = flate2::write::GzEncoder::new(Vec::new(), flate2::Compression::best());
    enc.write_all(&payload).unwrap();
    bytes.extend_from_slice(&enc.finish().unwrap());
    let pp = decode_document(&bytes).expect("legacy empty scene must decode");
    assert_eq!(pp.planes.len(), 0);
    let m = Model::load(&bytes).expect("legacy empty scene must load");
    assert_eq!(m.planes.len(), 0);
}

fn put_i32(out: &mut Vec<u8>, v: i32) {
    out.extend_from_slice(&(v as u32).to_le_bytes());
}

fn identity_matrix_bytes(out: &mut Vec<u8>) {
    for i in 0..16u32 {
        let bits = if i % 5 == 0 { ONE_F32_BITS } else { 0 };
        out.extend_from_slice(&bits.to_le_bytes());
    }
}

#[test]
fn legacy_plane_migrates() {
    // One legacy plane without an image: presence byte, offset, transform.
    let mut payload = Vec::new();
    payload.extend_from_slice(&1u64.to_le_bytes());
    payload.push(0);
    put_i32(&mut payload, 3);
    put_i32(&mut payload, -2);
    identity_matrix_bytes(&mut payload);
    let mut bytes = legacy_header_bytes();
    let mut enc = flate2::write::GzEncoder::new(Vec::new(), flate2::Compression::best());
    enc.write_all(&payload).unwrap();
    bytes.extend_from_slice(&enc.finish().unwrap());
    let pp = decode_document(&bytes).expect("legacy plane must decode");
    assert_eq!(pp.planes.len(), 1);
    assert!(pp.planes[0].image.is_none());
    assert!(pp.planes[0].heightmap.is_none());
    assert_eq!(pp.planes[0].transform, Mat4::identity());
    let m = Model::load(&bytes).expect("legacy plane must load");
    assert_eq!(m.planes.len(), 1);
    assert!(m.planes[0].texture.bounding_box().is_none());
}

#[test]
fn legacy_embedded_image_loads() {
    // One legacy plane with an embedded 2x1 image at offset (3, -2): the
    // migrated plane must carry the plane offset into the image.
    let mut payload = Vec::new();
    payload.extend_from_slice(&1u64.to_le_bytes());
    payload.push(1); // image present
    payload.extend_from_slice(&1u32.to_le_bytes()); // embedded variant
    payload.extend_from_slice(&2u64.to_le_bytes()); // width
    payload.extend_from_slice(&1u64.to_le_bytes()); // height
    payload.extend_from_slice(&8u64.to_le_bytes()); // byte count
    payload.extend_from_slice(&[10, 20, 30, 40, 50, 60, 70, 80]);
    put_i32(&mut payload, 3);
    put_i32(&mut payload, -2);
    identity_matrix_bytes(&mut payload);
    let mut bytes = legacy_header_bytes();
    let mut enc = flate2::write::GzEncoder::new(Vec::new(), flate2::Compression::best());
    enc.write_all(&payload).unwrap();
    bytes.extend_from_slice(&enc.finish().unwrap());
    let m = Model::load(&bytes).expect("legacy embedded image must load");
    assert_eq!(m.planes.len(), 1);
    let bb = m.planes[0].texture.bounding_box().expect("canvas allocated");
    assert_eq!(bb, Rect { min: IVec2 { x: 3, y: -2 }, max: IVec2 { x: 5, y: -1 } });
    assert_eq!(
        m.planes[0].texture.color_at(IVec2 { x: 3, y: -2 }),
        Rgba8 { r: 10, g: 20, b: 30, a: 40 }
    );
    assert_eq!(
        m.planes[0].texture.color_at(IVec2 { x: 4, y: -2 }),
        Rgba8 { r: 50, g: 60, b: 70, a: 80 }
    );
}

#[test]
fn migration_moves_offset_into_image() {
    let old = v0::Pp {
        planes: vec![v0::Plane {
            image: Some(v0::Image::Embed {
                size_x: 2,
                size_y: 1,
                data: vec![1, 2, 3, 4, 5, 6, 7, 8],
            }),
            offset: IVec2 { x: 5, y: 7 },
            transform: Mat4::identity(),
        }],
    };
    let new = v1::Pp::from(old);
    assert_eq!(new.planes.len(), 1);
    let img = new.planes[0].image.as_ref().expect("image carried over");
    assert_eq!(img.offset, IVec2 { x: 5, y: 7 });
    match &img.data {
        v1::ImageData::Embed { size_x, size_y, data } => {
            assert_eq!((*size_x, *size_y), (2, 1));
            assert_eq!(data, &vec![1, 2, 3, 4, 5, 6, 7, 8]);
        }
        v1::ImageData::Load(_) => panic!("embed must stay embed"),
    }
    assert!(new.planes[0].heightmap.is_none());
    assert_eq!(new.planes[0].transform, Mat4::identity());
}

#[test]
fn migration_keeps_load_paths() {
    let old = v0::Pp {
        planes: vec![v0::Plane {
            image: Some(v0::Image::Load(b"textures/wall.png".to_vec())),
            offset: IVec2 { x: 0, y: 0 },
            transform: Mat4::identity(),
        }],
    };
    let new = v1::Pp::from(old);
    match &new.planes[0].image.as_ref().unwrap().data {
        v1::ImageData::Load(path) => assert_eq!(path, &b"textures/wall.png".to_vec()),
        v1::ImageData::Embed { .. } => panic!("load must stay load"),
    }
}

#[test]
fn external_image_reference_is_reported() {
    let pp = v1::Pp {
        planes: vec![v1::Plane {
            image: Some(v1::Image {
                data: v1::ImageData::Load(b"missing.png".to_vec()),
                offset: IVec2 { x: 0, y: 0 },
            }),
            heightmap: None,
            transform: Mat4::identity(),
        }],
    };
    let bytes = encode_document(&pp);
    // The document itself decodes fine; only materialization needs the
    // application's asset loader.
    let decoded = decode_document(&bytes).expect("document must decode");
    assert_eq!(decoded.planes.len(), 1);
    assert_eq!(Model::load(&bytes).err(), Some(LoadError::ExternalImage));
}

#[test]
fn bad_embedded_image_is_reported() {
    let pp = v1::Pp {
        planes: vec![v1::Plane {
            image: Some(v1::Image {
                data: v1::ImageData::Embed { size_x: 2, size_y: 2, data: vec![1, 2, 3] },
                offset: IVec2 { x: 0, y: 0 },
            }),
            heightmap: None,
            transform: Mat4::identity(),
        }],
    };
    let bytes = encode_document(&pp);
    assert_eq!(Model::load(&bytes).err(), Some(LoadError::BadImage));
}

#[test]
fn bad_embedded_heightmap_is_reported() {
    // A 1x1 heightmap whose placement would push its far corner past the
    // coordinate range.
    let pp = v1::Pp {
        planes: vec![v1::Plane {
            image: None,
            heightmap: Some(v1::Heightmap {
                data: v1::HeightmapData::Embed { size_x: 1, size_y: 1, values: vec![0] },
                offset: IVec2 { x: i32::MAX, y: 0 },
            }),
            transform: Mat4::identity(),
        }],
    };
    let bytes = encode_document(&pp);
    assert_eq!(Model::load(&bytes).err(), Some(LoadError::BadHeightmap));
}

#[test]
fn saved_payload_is_really_compressed() {
    // The bytes after header and version byte must be a gzip stream whose
    // decompression is the encoded document, not the document itself.
    let m = one_plane_model();
    let bytes = m.save();
    let header = versioned_header_bytes();
    assert_eq!(&bytes[..header.len()], header.as_slice());
    assert_eq!(bytes[header.len()], 1);
    let compressed = &bytes[header.len() + 1..];
    let expected_payload = pog_paint::codec_v1::encode_doc_v1(&m.to_document());
    assert_ne!(compressed, expected_payload.as_slice());
    let mut dec = flate2::read::GzDecoder::new(compressed);
    let mut inflated = Vec::new();
    dec.read_to_end(&mut inflated).unwrap();
    assert_eq!(inflated, expected_payload);
}

#[test]
fn saved_bytes_use_versioned_envelope() {
    let m = Model::new();
    let bytes = m.save();
    assert_eq!(&bytes[..17], b"VersionedPogPaint");
    assert_eq!(bytes[17], 1);
    let legacy = legacy_header_bytes();
    assert_eq!(legacy, b"PogPaint".to_vec());
}

#[test]
fn plane_order_is_preserved() {
    let mut planes = Vec::new();
    for i in 0..3i32 {
        let buf = PixelBuf {
            width: 1,
            height: 1,
            data: vec![Rgba8 { r: i as u8, g: 0, b: 0, a: 255 }],
        };
        planes.push(Plane {
            texture: Texture::from(Some(buf), IVec2 { x: i, y: 0 }),
            heightmap: None,
            transform: Mat4::identity(),
        });
    }
    let m = Model { planes };
    let loaded = Model::load(&m.save()).expect("scene must load");
    assert_eq!(loaded.planes.len(), 3);
    for i in 0..3i32 {
        let bb = loaded.planes[i as usize].texture.bounding_box().unwrap();
        assert_eq!(bb, Rect { min: IVec2 { x: i, y: 0 }, max: IVec2 { x: i + 1, y: 1 } });
        assert_eq!(
            loaded.planes[i as usize].texture.color_at(IVec2 { x: i, y: 0 }),
            Rgba8 { r: i as u8, g: 0, b: 0, a: 255 }
        );
    }
}
