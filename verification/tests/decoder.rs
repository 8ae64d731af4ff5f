use stl_slicer::coord::{Coord, COORD_SCALE};
use stl_slicer::geometry::mesh::Mesh;
use stl_slicer::geometry::triangle::Triangle;
use stl_slicer::geometry::vertex::Vertex;
use stl_slicer::stl::{DecodeError, STLFile, STLType, TriangleReadCause};

/// A record from twelve wire values (normal, then three vertices) and
/// an attribute.
fn record(coords: [f32; 12], attr: u16) -> Vec<u8> {
    let mut out = Vec::new();
    for c in coords.iter() {
        out.extend_from_slice(&c.to_bits().to_le_bytes());
    }
    out.extend_from_slice(&attr.to_le_bytes());
    out
}

/// A whole stream: a zero header, the count, the given records.
fn stream(records: &[Vec<u8>]) -> Vec<u8> {
    let mut out = vec![0u8; 80];
    out.extend_from_slice(&(records.len() as u32).to_le_bytes());
    for r in records {
        out.extend_from_slice(r);
    }
    out
}

fn unit(units: i64) -> Coord {
    Coord::from_units(units)
}

#[test]
fn decode_one_triangle() {
    let bytes = stream(&[record(
        [0.0, 0.0, 1.0, 0.0, 0.0, 0.0, 1.0, 0.0, 0.0, 0.0, 1.0, 1.0],
        0x1234,
    )]);
    let f = STLFile::new(String::from("probe"), &bytes).unwrap();
    assert_eq!(f.triangle_count, 1);
    assert_eq!(f.file, "probe");
    assert!(matches!(f.filetype, STLType::Binary));
    let t = &f.triangles[0];
    assert_eq!(t.normal, Vertex::new(unit(0), unit(0), unit(1)));
    assert_eq!(t.vertices[0], Vertex::new(unit(0), unit(0), unit(0)));
    assert_eq!(t.vertices[1], Vertex::new(unit(1), unit(0), unit(0)));
    assert_eq!(t.vertices[2], Vertex::new(unit(0), unit(1), unit(1)));
    assert_eq!(t.attr_byte_count, 0x1234);
}

#[test]
fn decode_reads_wire_values_little_endian() {
    // 1.0f32 is the bytes 00 00 80 3F; misread in the wrong order it
    // would not be one coordinate unit.
    let mut bytes = stream(&[record([0.0; 12], 0)]);
    bytes[84 + 12..84 + 16].copy_from_slice(&[0x00, 0x00, 0x80, 0x3F]);
    let f = STLFile::new(String::new(), &bytes).unwrap();
    assert_eq!(f.triangles[0].vertices[0].x.raw, COORD_SCALE);
}

#[test]
fn decode_fractional_and_negative_values_exactly() {
    let bytes = stream(&[record(
        [0.5, -2.25, 0.0, -0.0, 1.5, 0.0, 0.0, 0.0, 0.0, 0.0, 0.0, 0.0],
        0,
    )]);
    let f = STLFile::new(String::new(), &bytes).unwrap();
    let n = f.triangles[0].normal;
    assert_eq!(n.x.raw, COORD_SCALE / 2);
    assert_eq!(n.y.raw, -9 * COORD_SCALE / 4);
    assert_eq!(n.z.raw, 0);
    // Negative zero decodes to the coordinate zero.
    assert_eq!(f.triangles[0].vertices[0].x.raw, 0);
    assert_eq!(f.triangles[0].vertices[0].y.raw, 3 * COORD_SCALE / 2);
}

#[test]
fn decode_rejects_text_signature() {
    let mut bytes = stream(&[]);
    bytes[0..5].copy_from_slice(b"solid");
    let e = STLFile::new(String::new(), &bytes).unwrap_err();
    assert_eq!(e, DecodeError::UnsupportedFormat);
}

#[test]
fn decode_rejects_short_prelude() {
    let bytes = vec![0u8; 83];
    let e = STLFile::new(String::new(), &bytes).unwrap_err();
    assert_eq!(e, DecodeError::TruncatedHeader);
}

#[test]
fn decode_truncated_records_yield_read_error_not_partial_mesh() {
    // Two declared, one present: the failure names record 1 and no
    // triangles escape.
    let mut bytes = stream(&[record([0.0; 12], 0)]);
    bytes[80..84].copy_from_slice(&2u32.to_le_bytes());
    let e = STLFile::new(String::new(), &bytes).unwrap_err();
    assert_eq!(
        e,
        DecodeError::TriangleRead {
            index: 1,
            cause: TriangleReadCause::Truncated,
        }
    );
}

#[test]
fn decode_partial_record_is_truncated() {
    let mut bytes = stream(&[record([0.0; 12], 0)]);
    bytes.truncate(84 + 49);
    let e = STLFile::new(String::new(), &bytes).unwrap_err();
    assert_eq!(
        e,
        DecodeError::TriangleRead {
            index: 0,
            cause: TriangleReadCause::Truncated,
        }
    );
}

#[test]
fn decode_rejects_nan_coordinate() {
    let mut coords = [0.0f32; 12];
    coords[5] = f32::NAN;
    let e = STLFile::new(String::new(), &stream(&[record(coords, 0)])).unwrap_err();
    assert_eq!(
        e,
        DecodeError::TriangleRead {
            index: 0,
            cause: TriangleReadCause::InvalidCoordinate,
        }
    );
}

#[test]
fn decode_rejects_infinite_and_out_of_range_coordinates() {
    let mut coords = [0.0f32; 12];
    coords[3] = f32::INFINITY;
    let e = STLFile::new(String::new(), &stream(&[record(coords, 0)])).unwrap_err();
    assert_eq!(
        e,
        DecodeError::TriangleRead {
            index: 0,
            cause: TriangleReadCause::InvalidCoordinate,
        }
    );
    // Four billion units overflows the coordinate range.
    let mut coords = [0.0f32; 12];
    coords[11] = 4.0e9;
    let e = STLFile::new(String::new(), &stream(&[record(coords, 0)])).unwrap_err();
    assert_eq!(
        e,
        DecodeError::TriangleRead {
            index: 0,
            cause: TriangleReadCause::InvalidCoordinate,
        }
    );
}

#[test]
fn decode_rounds_off_grid_values_to_nearest_grid_point() {
    // 1.3f32 is 1.29999995...; times 65536 that is 85196.79..., so the
    // nearest grid point is 85197. 0.1f32 lands at 6553.6, hence 6554.
    let bytes = stream(&[record(
        [1.3, 0.1, -1.3, 0.0, 0.0, 0.0, 0.0, 0.0, 0.0, 0.0, 0.0, 0.0],
        0,
    )]);
    let f = STLFile::new(String::new(), &bytes).unwrap();
    let n = f.triangles[0].normal;
    assert_eq!(n.x.raw, 85197);
    assert_eq!(n.y.raw, 6554);
    assert_eq!(n.z.raw, -85197);
}

#[test]
fn decode_rounds_tiny_values_toward_zero_with_half_step_tie_up() {
    // Half a grid step (2^-17) ties away from zero; under half a step
    // (2^-18 and every subnormal) becomes zero.
    let half_step = f32::powi(2.0, -17);
    let bytes = stream(&[record(
        [half_step, -half_step, f32::powi(2.0, -18), 1.0e-40, 0.0, 0.0, 0.0, 0.0, 0.0, 0.0, 0.0,
            0.0],
        0,
    )]);
    let f = STLFile::new(String::new(), &bytes).unwrap();
    let t = &f.triangles[0];
    assert_eq!(t.normal.x.raw, 1);
    assert_eq!(t.normal.y.raw, -1);
    assert_eq!(t.normal.z.raw, 0);
    assert_eq!(t.vertices[0].x.raw, 0);
}

#[test]
fn decode_ignores_trailing_bytes() {
    let mut bytes = stream(&[record([0.0; 12], 9)]);
    bytes.extend_from_slice(&[1, 2, 3, 4, 5]);
    let f = STLFile::new(String::new(), &bytes).unwrap();
    assert_eq!(f.triangle_count, 1);
}

#[test]
fn decode_empty_stream_yields_empty_file() {
    let f = STLFile::new(String::new(), &stream(&[])).unwrap();
    assert_eq!(f.triangle_count, 0);
    assert!(f.triangles.is_empty());
}

#[test]
fn decode_reencode_decode_reproduces_triangles() {
    // The round trip through the wire format loses nothing, at full
    // binary32 precision.
    let bytes = stream(&[
        record(
            [0.0, 0.5, 1.0, -1.0, 2.25, 0.1, 1.5, -0.5, 1.3, 0.0, 100.0, -0.25],
            7,
        ),
        record(
            [1.0, 0.0, 0.0, 8.0, -16.5, 0.125, 0.0, 2.0, 4.0, 6.0, 0.0, 1.0],
            0xFFFF,
        ),
    ]);
    let first = STLFile::new(String::new(), &bytes).unwrap();
    let reencoded = first.encode().unwrap();
    let second = STLFile::new(String::new(), &reencoded).unwrap();
    assert_eq!(first.triangles, second.triangles);
    assert_eq!(first.triangle_count, second.triangle_count);
}

#[test]
fn encode_refuses_unrepresentable_coordinate() {
    // 2^24 + 1 raw steps needs 25 significant bits: no binary32 value
    // holds it exactly.
    let mut f = STLFile::default();
    let mut t = Triangle::default();
    t.vertices[0].x = Coord::from_raw((1 << 24) + 1);
    f.triangles.push(t);
    f.triangle_count = 1;
    assert!(f.encode().is_none());
}

#[test]
fn encode_then_decode_of_synthetic_file_is_stable() {
    let bytes = stream(&[record([0.0; 12], 3)]);
    let f = STLFile::new(String::new(), &bytes).unwrap();
    let out = f.encode().unwrap();
    assert_eq!(out, bytes);
}

#[test]
fn mesh_from_file_derives_extents() {
    let bytes = stream(&[record(
        [0.0, 0.0, 0.0, -1.0, 0.0, 2.0, 3.0, -4.0, 0.0, 0.0, 5.0, 1.0],
        0,
    )]);
    let f = STLFile::new(String::new(), &bytes).unwrap();
    let m = Mesh::from(f);
    assert_eq!(m.minimum, Vertex::new(unit(-1), unit(-4), unit(0)));
    assert_eq!(m.maximum, Vertex::new(unit(3), unit(5), unit(2)));
    assert_eq!(m.triangle_count, 1);
}

#[test]
fn default_file_is_empty_binary() {
    let f = STLFile::default();
    assert_eq!(f.file, "");
    assert!(matches!(f.filetype, STLType::Binary));
    assert_eq!(f.triangle_count, 0);
    assert!(f.triangles.is_empty());
}
