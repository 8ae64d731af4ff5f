//! The binary mesh decoder and encoder.
//!
//! Wire layout: an 80-byte header whose first five bytes must not spell
//! the ASCII text signature, a little-endian unsigned 32-bit triangle
//! count, then one 50-byte record per triangle: three binary32 values
//! for the normal, nine for the three vertices, and a 16-bit attribute
//! carried through opaquely. Decoding is all-or-nothing: any failure
//! aborts with an error and no partial mesh.

use crate::binary32::{bits_of_coord_raw, coord_from_bits, coord_raw_of_bits};
use crate::coord::Coord;
use crate::geometry::mesh::{extents_max, extents_min, Mesh};
use crate::geometry::triangle::Triangle;
use crate::geometry::vertex::Vertex;
use vstd::bytes::{
    spec_u16_from_le_bytes, spec_u16_to_le_bytes, spec_u32_from_le_bytes, spec_u32_to_le_bytes,
};
use vstd::prelude::*;
use vstd::slice::slice_subrange;

verus! {

/// The two mesh stream dialects.
#[derive(Clone, Copy, Debug, PartialEq, Eq, Structural)]
pub enum STLType {
    /// The fixed-layout binary dialect this decoder reads.
    Binary,
    /// The "solid ..." text dialect, recognized and refused.
    ASCII,
}

/// Why one triangle record could not be decoded.
#[derive(Clone, Copy, Debug, PartialEq, Eq, Structural)]
pub enum TriangleReadCause {
    /// The stream ended before the record's 50 bytes.
    Truncated,
    /// A coordinate is a NaN, an infinity, or beyond the coordinate
    /// range.
    InvalidCoordinate,
}

/// Why a byte stream is not a mesh.
#[derive(Clone, Copy, Debug, PartialEq, Eq, Structural)]
pub enum DecodeError {
    /// Fewer than the 84 fixed prelude bytes (header plus count).
    TruncatedHeader,
    /// The stream carries the text dialect's signature.
    UnsupportedFormat,
    /// The records read do not match the declared count.
    TriangleCountMismatch,
    /// Record `index` could not be decoded.
    TriangleRead { index: u32, cause: TriangleReadCause },
}

/// A decoded mesh stream: its name, dialect, and triangle data.
#[derive(Debug)]
pub struct STLFile {
    pub file: String,
    pub filetype: STLType,
    pub triangle_count: u32,
    pub triangles: Vec<Triangle>,
}

/// The stream opens with the text dialect's signature, the five ASCII
/// bytes of "solid".
pub open spec fn is_text_signature(s: Seq<u8>) -> bool {
    s.len() >= 5 && s[0] == 115u8 && s[1] == 111u8 && s[2] == 108u8 && s[3] == 105u8 && s[4]
        == 100u8
}

/// Coordinate `i` (0..12) of a 50-byte record: four little-endian bytes
/// read as a binary32 wire value, mapped onto the nearest point of the
/// coordinate grid (exactly, where the value lies on the grid).
pub open spec fn coord_of_record(r: Seq<u8>, i: int) -> Option<i64> {
    coord_raw_of_bits(spec_u32_from_le_bytes(r.subrange(4 * i, 4 * i + 4)))
}

/// Every one of the record's twelve coordinates is admissible: finite
/// and within the coordinate range.
pub open spec fn record_ok(r: Seq<u8>) -> bool {
    forall|i: int| 0 <= i < 12 ==> coord_of_record(r, i) is Some
}

/// The vertex held in coordinates `c`, `c + 1`, `c + 2` of a record.
pub open spec fn record_vertex(r: Seq<u8>, c: int) -> Vertex {
    Vertex {
        x: Coord { raw: coord_of_record(r, c)->Some_0 },
        y: Coord { raw: coord_of_record(r, c + 1)->Some_0 },
        z: Coord { raw: coord_of_record(r, c + 2)->Some_0 },
    }
}

/// The triangle held in a 50-byte record.
pub open spec fn record_triangle(r: Seq<u8>) -> Triangle {
    Triangle {
        normal: record_vertex(r, 0),
        vertices: [record_vertex(r, 3), record_vertex(r, 6), record_vertex(r, 9)],
        attr_byte_count: spec_u16_from_le_bytes(r.subrange(48, 50)),
    }
}

/// The 50 bytes of record `i`, which follow the 84-byte prelude.
pub open spec fn record_at(s: Seq<u8>, i: int) -> Seq<u8> {
    s.subrange(84 + 50 * i, 84 + 50 * i + 50)
}

/// Records `idx..n` of the stream, or the first failure: a record cut
/// short by the end of the stream, or one holding a NaN, infinite or
/// out-of-range coordinate, reported with its index.
pub open spec fn decode_records(s: Seq<u8>, n: int, idx: int) -> Result<Seq<Triangle>, DecodeError>
    decreases n - idx,
{
    if idx >= n {
        Ok(Seq::empty())
    } else if 84 + 50 * idx + 50 > s.len() {
        Err(
            DecodeError::TriangleRead {
                index: idx as u32,
                cause: TriangleReadCause::Truncated,
            },
        )
    } else if !record_ok(record_at(s, idx)) {
        Err(
            DecodeError::TriangleRead {
                index: idx as u32,
                cause: TriangleReadCause::InvalidCoordinate,
            },
        )
    } else {
        match decode_records(s, n, idx + 1) {
            Result::Ok(ts) => Ok(seq![record_triangle(record_at(s, idx))] + ts),
            Result::Err(e) => Err(e),
        }
    }
}

/// What decoding a byte stream yields: the triangle list declared and
/// held by the stream, or the first error in decode order.
pub open spec fn decode_spec(s: Seq<u8>) -> Result<Seq<Triangle>, DecodeError> {
    if is_text_signature(s) {
        Err(DecodeError::UnsupportedFormat)
    } else if s.len() < 84 {
        Err(DecodeError::TruncatedHeader)
    } else {
        decode_records(s, spec_u32_from_le_bytes(s.subrange(80, 84)) as int, 0)
    }
}

/// Relies on byteorder's `LittleEndian::read_u32`: the little-endian
/// unsigned 32-bit integer held in the slice's first four bytes. It
/// panics only on a slice shorter than four bytes, which the
/// precondition excludes.
#[verifier::external_body]
fn le_read_u32(b: &[u8]) -> (r: u32)
    requires
        b@.len() >= 4,
    ensures
        r == spec_u32_from_le_bytes(b@.subrange(0, 4)),
{
    <byteorder::LittleEndian as byteorder::ByteOrder>::read_u32(b)
}

/// Relies on byteorder's `LittleEndian::read_u16`: the little-endian
/// unsigned 16-bit integer held in the slice's first two bytes. It
/// panics only on a slice shorter than two bytes, which the
/// precondition excludes.
#[verifier::external_body]
fn le_read_u16(b: &[u8]) -> (r: u16)
    requires
        b@.len() >= 2,
    ensures
        r == spec_u16_from_le_bytes(b@.subrange(0, 2)),
{
    <byteorder::LittleEndian as byteorder::ByteOrder>::read_u16(b)
}

/// One wire coordinate: the four little-endian bytes at `off`, mapped
/// onto the coordinate grid.
fn read_coord(bytes: &[u8], off: usize) -> (r: Option<i64>)
    requires
        off + 4 <= bytes@.len(),
        off + 4 <= usize::MAX,
    ensures
        r == coord_raw_of_bits(
            spec_u32_from_le_bytes(bytes@.subrange(off as int, off as int + 4)),
        ),
{
    let sub = slice_subrange(bytes, off, off + 4);
    proof {
        assert(sub@.subrange(0, 4) =~= bytes@.subrange(off as int, off as int + 4));
    }
    let bits = le_read_u32(sub);
    coord_from_bits(bits)
}

impl STLFile {
    /// Check the fixed 84-byte prelude: refuse the text dialect, demand
    /// the full header and count, and return the declared triangle count.
    fn read_header(bytes: &[u8]) -> (r: Result<u32, DecodeError>)
        ensures
            match r {
                Result::Ok(n) => {
                    &&& !is_text_signature(bytes@)
                    &&& bytes@.len() >= 84
                    &&& n == spec_u32_from_le_bytes(bytes@.subrange(80, 84))
                },
                Result::Err(e) => {
                    &&& (e == DecodeError::UnsupportedFormat <==> is_text_signature(bytes@))
                    &&& (e == DecodeError::TruncatedHeader <==> (!is_text_signature(bytes@)
                        && bytes@.len() < 84))
                    &&& (e == DecodeError::UnsupportedFormat || e == DecodeError::TruncatedHeader)
                },
            },
    {
        if bytes.len() >= 5 && bytes[0] == 115u8 && bytes[1] == 111u8 && bytes[2] == 108u8
            && bytes[3] == 105u8 && bytes[4] == 100u8 {
            return Err(DecodeError::UnsupportedFormat);
        }
        if bytes.len() < 84 {
            return Err(DecodeError::TruncatedHeader);
        }
        let sub = slice_subrange(bytes, 80, 84);
        proof {
            assert(sub@.subrange(0, 4) =~= bytes@.subrange(80, 84));
        }
        Ok(le_read_u32(sub))
    }

    /// Decode the 50-byte record at `off`: `None` exactly when one of
    /// its coordinates is inadmissible.
    fn read_triangle(bytes: &[u8], off: usize) -> (r: Option<Triangle>)
        requires
            off + 50 <= bytes@.len(),
            off + 50 <= usize::MAX,
        ensures
            r is Some <==> record_ok(bytes@.subrange(off as int, off as int + 50)),
            r is Some ==> r->Some_0 == record_triangle(
                bytes@.subrange(off as int, off as int + 50),
            ),
    {
        let ghost rec = bytes@.subrange(off as int, off as int + 50);
        let mut raws: Vec<i64> = Vec::new();
        let mut i: usize = 0;
        while i < 12
            invariant
                i <= 12,
                off + 50 <= bytes@.len(),
                off + 50 <= usize::MAX,
                raws@.len() == i,
                forall|j: int|
                    #![trigger coord_of_record(bytes@.subrange(off as int, off as int + 50), j)]
                    0 <= j < i ==> {
                        &&& coord_of_record(bytes@.subrange(off as int, off as int + 50), j)
                            is Some
                        &&& raws@[j] == coord_of_record(
                            bytes@.subrange(off as int, off as int + 50),
                            j,
                        )->Some_0
                    },
            decreases 12 - i,
        {
            let c = read_coord(bytes, off + 4 * i);
            proof {
                assert(bytes@.subrange(off as int, off as int + 50).subrange(
                    4 * (i as int),
                    4 * (i as int) + 4,
                ) =~= bytes@.subrange(off as int + 4 * (i as int), off as int + 4 * (i as int) + 4));
            }
            proof {
                assert(coord_of_record(bytes@.subrange(off as int, off as int + 50), i as int)
                    == c);
            }
            match c {
                Option::Some(raw) => {
                    raws.push(raw);
                },
                Option::None => {
                    return None;
                },
            }
            i = i + 1;
        }
        let sub = slice_subrange(bytes, off + 48, off + 50);
        proof {
            assert(sub@.subrange(0, 2) =~= bytes@.subrange(off as int + 48, off as int + 50));
            assert(bytes@.subrange(off as int, off as int + 50).subrange(48, 50) =~= bytes@
                .subrange(off as int + 48, off as int + 50));
        }
        let attr = le_read_u16(sub);
        let t = Triangle {
            normal: Vertex {
                x: Coord { raw: raws[0] },
                y: Coord { raw: raws[1] },
                z: Coord { raw: raws[2] },
            },
            vertices: [
                Vertex {
                    x: Coord { raw: raws[3] },
                    y: Coord { raw: raws[4] },
                    z: Coord { raw: raws[5] },
                },
                Vertex {
                    x: Coord { raw: raws[6] },
                    y: Coord { raw: raws[7] },
                    z: Coord { raw: raws[8] },
                },
                Vertex {
                    x: Coord { raw: raws[9] },
                    y: Coord { raw: raws[10] },
                    z: Coord { raw: raws[11] },
                },
            ],
            attr_byte_count: attr,
        };
        proof {
            assert(t.vertices =~= record_triangle(rec).vertices);
        }
        Some(t)
    }

    /// Decode the declared number of 50-byte records following the
    /// prelude, all-or-nothing.
    #[verifier::rlimit(50)]
    fn read_binary_stl(bytes: &[u8], n: u32) -> (r: Result<Vec<Triangle>, DecodeError>)
        requires
            bytes@.len() >= 84,
            n == spec_u32_from_le_bytes(bytes@.subrange(80, 84)),
        ensures
            match r {
                Result::Ok(ts) => decode_records(bytes@, n as int, 0) == Ok::<_, DecodeError>(ts@)
                    && ts@.len() == n,
                Result::Err(e) => decode_records(bytes@, n as int, 0) == Err::<Seq<Triangle>, _>(
                    e,
                ),
            },
    {
        let mut triangles: Vec<Triangle> = Vec::new();
        let mut i: u32 = 0;
        let mut off: usize = 84;
        while i < n
            invariant
                i <= n,
                bytes@.len() >= 84,
                off == 84 + 50 * (i as int),
                off <= bytes@.len(),
                triangles@.len() == i,
                decode_records(bytes@, n as int, 0) == (match decode_records(
                    bytes@,
                    n as int,
                    i as int,
                ) {
                    Result::Ok(ts) => Ok::<_, DecodeError>(triangles@ + ts),
                    Result::Err(e) => Err::<Seq<Triangle>, _>(e),
                }),
            decreases n - i,
        {
            if bytes.len() - off < 50 {
                return Err(
                    DecodeError::TriangleRead {
                        index: i,
                        cause: TriangleReadCause::Truncated,
                    },
                );
            }
            match STLFile::read_triangle(bytes, off) {
                Option::Some(t) => {
                    let ghost tr0 = triangles@;
                    triangles.push(t);
                    proof {
                        let s = bytes@;
                        let ni = i as int;
                        assert(record_at(s, ni) =~= s.subrange(off as int, off as int + 50));
                        assert(record_ok(record_at(s, ni)));
                        assert(decode_records(s, n as int, ni) == (match decode_records(
                            s,
                            n as int,
                            ni + 1,
                        ) {
                            Result::Ok(ts) => Ok::<_, DecodeError>(seq![
                                record_triangle(record_at(s, ni)),
                            ] + ts),
                            Result::Err(e) => Err::<Seq<Triangle>, _>(e),
                        }));
                        if let Result::Ok(ts) = decode_records(s, n as int, ni + 1) {
                            assert(triangles@ + ts =~= tr0 + (seq![
                                record_triangle(record_at(s, ni)),
                            ] + ts));
                        }
                    }
                },
                Option::None => {
                    return Err(
                        DecodeError::TriangleRead {
                            index: i,
                            cause: TriangleReadCause::InvalidCoordinate,
                        },
                    );
                },
            }
            i = i + 1;
            off = off + 50;
        }
        proof {
            assert(triangles@ + Seq::<Triangle>::empty() =~= triangles@);
        }
        if triangles.len() as u32 == n {
            Ok(triangles)
        } else {
            // Unreachable by construction: the loop read exactly `n`
            // records; the verification step stays as the format asks.
            Err(DecodeError::TriangleCountMismatch)
        }
    }

    /// Decode a binary mesh stream into a triangle file.
    ///
    /// `file` is a caller-chosen name carried along unread. The decode
    /// is all-or-nothing: the error says exactly what was wrong, and no
    /// partial result ever escapes.
    pub fn new(file: String, bytes: &[u8]) -> (r: Result<STLFile, DecodeError>)
        ensures
            match r {
                Result::Ok(f) => {
                    &&& decode_spec(bytes@) == Ok::<_, DecodeError>(f.triangles@)
                    &&& f.triangles@.len() == spec_u32_from_le_bytes(bytes@.subrange(80, 84))
                    &&& f.triangle_count == f.triangles@.len()
                    &&& f.filetype == STLType::Binary
                    &&& f.file == file
                },
                Result::Err(e) => decode_spec(bytes@) == Err::<Seq<Triangle>, _>(e),
            },
    {
        let n = match STLFile::read_header(bytes) {
            Result::Ok(n) => n,
            Result::Err(e) => {
                return Err(e);
            },
        };
        match STLFile::read_binary_stl(bytes, n) {
            Result::Ok(triangles) => {
                let count = triangles.len() as u32;
                Ok(STLFile { file, filetype: STLType::Binary, triangle_count: count, triangles })
            },
            Result::Err(e) => Err(e),
        }
    }
}

/// Coordinate `i` (0..12) of a triangle, in wire order: the normal's
/// X, Y, Z, then each vertex's X, Y, Z.
pub open spec fn tri_coord(t: Triangle, i: int) -> i64 {
    let v = if i < 3 {
        t.normal
    } else if i < 6 {
        t.vertices[0]
    } else if i < 9 {
        t.vertices[1]
    } else {
        t.vertices[2]
    };
    if i % 3 == 0 {
        v.x.raw
    } else if i % 3 == 1 {
        v.y.raw
    } else {
        v.z.raw
    }
}

/// Every coordinate of the triangle has an exact binary32 form.
pub open spec fn triangle_encodable(t: Triangle) -> bool {
    forall|i: int| 0 <= i < 12 ==> bits_of_coord_raw(tri_coord(t, i)) is Some
}

/// Every coordinate of every triangle has an exact binary32 form.
pub open spec fn encodable(ts: Seq<Triangle>) -> bool {
    forall|k: int| 0 <= k < ts.len() ==> triangle_encodable(#[trigger] ts[k])
}

/// The first `k` wire coordinates of a triangle's record.
pub open spec fn coords_bytes(t: Triangle, k: int) -> Seq<u8>
    decreases k,
{
    if k <= 0 {
        Seq::empty()
    } else {
        coords_bytes(t, k - 1) + spec_u32_to_le_bytes(
            bits_of_coord_raw(tri_coord(t, k - 1))->Some_0,
        )
    }
}

/// The 50-byte wire record of a triangle.
pub open spec fn record_bytes(t: Triangle) -> Seq<u8> {
    coords_bytes(t, 12) + spec_u16_to_le_bytes(t.attr_byte_count)
}

/// The wire records of a triangle list, in order.
pub open spec fn records_bytes(ts: Seq<Triangle>) -> Seq<u8>
    decreases ts.len(),
{
    if ts.len() == 0 {
        Seq::empty()
    } else {
        records_bytes(ts.drop_last()) + record_bytes(ts.last())
    }
}

/// The full wire stream of a triangle list: an all-zero 80-byte header,
/// the little-endian count, then the records.
pub open spec fn encode_spec(ts: Seq<Triangle>) -> Seq<u8> {
    Seq::new(80, |i: int| 0u8) + spec_u32_to_le_bytes(ts.len() as u32) + records_bytes(ts)
}

/// Coordinate `i` of a triangle, in wire order.
fn get_tri_coord(t: &Triangle, i: usize) -> (r: i64)
    requires
        i < 12,
    ensures
        r == tri_coord(*t, i as int),
{
    let v = if i < 3 {
        t.normal
    } else if i < 6 {
        t.vertices[0]
    } else if i < 9 {
        t.vertices[1]
    } else {
        t.vertices[2]
    };
    if i % 3 == 0 {
        v.x.raw
    } else if i % 3 == 1 {
        v.y.raw
    } else {
        v.z.raw
    }
}

impl STLFile {
    /// Encode the triangle list back into a binary mesh stream.
    ///
    /// Succeeds exactly when every coordinate has an exact binary32
    /// form; a list fresh from the decoder always does.
    pub fn encode(&self) -> (r: Option<Vec<u8>>)
        requires
            self.triangles@.len() <= u32::MAX,
        ensures
            r is Some <==> encodable(self.triangles@),
            r is Some ==> r->Some_0@ == encode_spec(self.triangles@),
    {
        let ghost ts = self.triangles@;
        let mut out: Vec<u8> = Vec::new();
        let mut i: usize = 0;
        while i < 80
            invariant
                i <= 80,
                out@ =~= Seq::new(i as nat, |j: int| 0u8),
            decreases 80 - i,
        {
            out.push(0u8);
            i = i + 1;
        }
        let mut countv = vstd::bytes::u32_to_le_bytes(self.triangles.len() as u32);
        out.append(&mut countv);
        let ghost prelude = Seq::new(80, |j: int| 0u8) + spec_u32_to_le_bytes(ts.len() as u32);
        proof {
            assert(out@ =~= prelude);
        }
        let mut k: usize = 0;
        while k < self.triangles.len()
            invariant
                k <= ts.len(),
                self.triangles@ == ts,
                ts.len() <= u32::MAX,
                prelude == Seq::new(80, |j: int| 0u8) + spec_u32_to_le_bytes(ts.len() as u32),
                out@ == prelude + records_bytes(ts.take(k as int)),
                forall|j: int| 0 <= j < k ==> triangle_encodable(#[trigger] ts[j]),
            decreases ts.len() - k,
        {
            let ghost base = out@;
            let mut j: usize = 0;
            while j < 12
                invariant
                    j <= 12,
                    k < ts.len(),
                    self.triangles@ == ts,
                    out@ == base + coords_bytes(ts[k as int], j as int),
                    forall|c: int|
                        0 <= c < j ==> bits_of_coord_raw(
                            #[trigger] tri_coord(ts[k as int], c),
                        ) is Some,
                decreases 12 - j,
            {
                let cv = get_tri_coord(&self.triangles[k], j);
                match crate::binary32::coord_to_bits(cv) {
                    Option::Some(bits) => {
                        let mut bs = vstd::bytes::u32_to_le_bytes(bits);
                        out.append(&mut bs);
                        proof {
                            assert(out@ =~= base + coords_bytes(ts[k as int], j as int + 1));
                        }
                    },
                    Option::None => {
                        proof {
                            assert(!triangle_encodable(ts[k as int]));
                        }
                        return None;
                    },
                }
                j = j + 1;
            }
            let mut ab = vstd::bytes::u16_to_le_bytes(self.triangles[k].attr_byte_count);
            out.append(&mut ab);
            proof {
                assert(out@ =~= base + record_bytes(ts[k as int]));
                assert(ts.take(k as int + 1).drop_last() =~= ts.take(k as int));
                assert(ts.take(k as int + 1).last() == ts[k as int]);
                assert(out@ =~= prelude + records_bytes(ts.take(k as int + 1)));
            }
            k = k + 1;
        }
        proof {
            assert(ts.take(ts.len() as int) == ts);
            assert(out@ =~= encode_spec(ts));
        }
        Some(out)
    }
}


/// Wire sizes: `k` coordinates take `4 * k` bytes.
proof fn lemma_coords_bytes_len(t: Triangle, k: int)
    requires
        k >= 0,
    ensures
        coords_bytes(t, k).len() == 4 * k,
    decreases k,
{
    vstd::bytes::lemma_auto_spec_u32_to_from_le_bytes();
    if k > 0 {
        lemma_coords_bytes_len(t, k - 1);
    }
}

/// A record is exactly 50 bytes.
proof fn lemma_record_bytes_len(t: Triangle)
    ensures
        record_bytes(t).len() == 50,
{
    lemma_coords_bytes_len(t, 12);
    vstd::bytes::lemma_auto_spec_u16_to_from_le_bytes();
}

/// The records of `n` triangles take `50 * n` bytes.
proof fn lemma_records_bytes_len(ts: Seq<Triangle>)
    ensures
        records_bytes(ts).len() == 50 * ts.len(),
    decreases ts.len(),
{
    if ts.len() > 0 {
        lemma_records_bytes_len(ts.drop_last());
        lemma_record_bytes_len(ts.last());
    }
}

/// Coordinate `i` of an encoded record sits at bytes `4i .. 4i + 4`.
proof fn lemma_coords_bytes_at(t: Triangle, k: int, i: int)
    requires
        0 <= i < k,
    ensures
        coords_bytes(t, k).subrange(4 * i, 4 * i + 4) == spec_u32_to_le_bytes(
            bits_of_coord_raw(tri_coord(t, i))->Some_0,
        ),
    decreases k,
{
    lemma_coords_bytes_len(t, k - 1);
    vstd::bytes::lemma_auto_spec_u32_to_from_le_bytes();
    if i == k - 1 {
        assert(coords_bytes(t, k).subrange(4 * i, 4 * i + 4) =~= spec_u32_to_le_bytes(
            bits_of_coord_raw(tri_coord(t, i))->Some_0,
        ));
    } else {
        lemma_coords_bytes_at(t, k - 1, i);
        assert(coords_bytes(t, k).subrange(4 * i, 4 * i + 4) =~= coords_bytes(t, k - 1).subrange(
            4 * i,
            4 * i + 4,
        ));
    }
}

/// Decoding the encoded record of a triangle whose coordinates are all
/// representable gives back exactly that triangle.
proof fn lemma_record_round_trip(t: Triangle)
    requires
        triangle_encodable(t),
    ensures
        record_ok(record_bytes(t)),
        record_triangle(record_bytes(t)) == t,
{
    let rb = record_bytes(t);
    lemma_coords_bytes_len(t, 12);
    lemma_record_bytes_len(t);
    vstd::bytes::lemma_auto_spec_u32_to_from_le_bytes();
    vstd::bytes::lemma_auto_spec_u16_to_from_le_bytes();
    assert forall|i: int| 0 <= i < 12 implies coord_of_record(rb, i) == Some(tri_coord(t, i)) by {
        lemma_coords_bytes_at(t, 12, i);
        assert(rb.subrange(4 * i, 4 * i + 4) =~= coords_bytes(t, 12).subrange(4 * i, 4 * i + 4));
        crate::binary32::lemma_bits_round_trip(tri_coord(t, i));
    }
    assert(rb.subrange(48, 50) =~= spec_u16_to_le_bytes(t.attr_byte_count));
    assert(record_triangle(rb).vertices =~= t.vertices);
}

/// Each triangle's own coordinates, as the decoder leaves them, can be
/// encoded again.
proof fn lemma_record_triangle_encodable(r: Seq<u8>)
    requires
        record_ok(r),
    ensures
        triangle_encodable(record_triangle(r)),
{
    let t = record_triangle(r);
    assert forall|i: int| 0 <= i < 12 implies bits_of_coord_raw(tri_coord(t, i)) is Some by {
        assert(coord_of_record(r, i) is Some);
        assert(tri_coord(t, i) == coord_of_record(r, i)->Some_0);
        crate::binary32::lemma_decoded_is_encodable(
            spec_u32_from_le_bytes(r.subrange(4 * i, 4 * i + 4)),
        );
    }
}

/// Record `i` of an encoded stream sits where the decoder looks for it.
proof fn lemma_records_bytes_at(ts: Seq<Triangle>, i: int)
    requires
        0 <= i < ts.len(),
    ensures
        records_bytes(ts).subrange(50 * i, 50 * i + 50) == record_bytes(ts[i]),
    decreases ts.len(),
{
    lemma_records_bytes_len(ts.drop_last());
    lemma_record_bytes_len(ts.last());
    if i == ts.len() - 1 {
        assert(records_bytes(ts).subrange(50 * i, 50 * i + 50) =~= record_bytes(ts[i]));
    } else {
        lemma_records_bytes_at(ts.drop_last(), i);
        lemma_record_bytes_len(ts.drop_last()[i]);
        assert(ts.drop_last()[i] == ts[i]);
        assert(records_bytes(ts).subrange(50 * i, 50 * i + 50) =~= records_bytes(
            ts.drop_last(),
        ).subrange(50 * i, 50 * i + 50));
    }
}

/// The record decode loop, run on an encoded stream, yields the
/// remaining triangles unchanged.
proof fn lemma_decode_encoded_records(ts: Seq<Triangle>, idx: int)
    requires
        encodable(ts),
        ts.len() <= u32::MAX,
        0 <= idx <= ts.len(),
    ensures
        decode_records(encode_spec(ts), ts.len() as int, idx) == Ok::<_, DecodeError>(
            ts.skip(idx),
        ),
    decreases ts.len() - idx,
{
    let s = encode_spec(ts);
    lemma_records_bytes_len(ts);
    vstd::bytes::lemma_auto_spec_u32_to_from_le_bytes();
    assert(s.len() == 84 + 50 * ts.len());
    if idx == ts.len() {
        assert(ts.skip(idx) =~= Seq::<Triangle>::empty());
    } else {
        lemma_records_bytes_at(ts, idx);
        lemma_record_bytes_len(ts[idx]);
        assert(record_at(s, idx) =~= records_bytes(ts).subrange(50 * idx, 50 * idx + 50));
        assert(record_at(s, idx) == record_bytes(ts[idx]));
        lemma_record_round_trip(ts[idx]);
        lemma_decode_encoded_records(ts, idx + 1);
        assert(seq![record_triangle(record_at(s, idx))] + ts.skip(idx + 1) =~= ts.skip(idx));
    }
}

/// Decoding an encoded triangle list gives back exactly that list: the
/// encoder writes the layout the decoder reads, and no coordinate is
/// disturbed on the way through the wire format.
pub proof fn lemma_encode_decode_round_trip(ts: Seq<Triangle>)
    requires
        encodable(ts),
        ts.len() <= u32::MAX,
    ensures
        decode_spec(encode_spec(ts)) == Ok::<_, DecodeError>(ts),
{
    let s = encode_spec(ts);
    lemma_records_bytes_len(ts);
    vstd::bytes::lemma_auto_spec_u32_to_from_le_bytes();
    assert(s.len() == 84 + 50 * ts.len());
    assert(s[0] == 0u8);
    assert(!is_text_signature(s));
    assert(s.subrange(80, 84) =~= spec_u32_to_le_bytes(ts.len() as u32));
    assert(spec_u32_from_le_bytes(s.subrange(80, 84)) == ts.len());
    lemma_decode_encoded_records(ts, 0);
    assert(ts.skip(0) =~= ts);
}

/// Whatever the decoder accepted can be re-encoded, and decoding that
/// encoding reproduces the same triangle list exactly: a full
/// decode, re-encode, decode cycle is lossless.
pub proof fn lemma_decode_reencode_round_trip(s: Seq<u8>)
    requires
        decode_spec(s) is Ok,
    ensures
        encodable(decode_spec(s)->Ok_0),
        decode_spec(s)->Ok_0.len() <= u32::MAX,
        decode_spec(encode_spec(decode_spec(s)->Ok_0)) == decode_spec(s),
{
    let n = spec_u32_from_le_bytes(s.subrange(80, 84)) as int;
    lemma_decoded_records_shape(s, n, 0);
    lemma_encode_decode_round_trip(decode_spec(s)->Ok_0);
}

/// Each triangle an accepting decode run yields comes from its own
/// well-formed record, so the whole list can be encoded again.
proof fn lemma_decoded_records_shape(s: Seq<u8>, n: int, idx: int)
    requires
        decode_records(s, n, idx) is Ok,
        n <= u32::MAX,
    ensures
        decode_records(s, n, idx)->Ok_0.len() == if n >= idx {
            n - idx
        } else {
            0
        },
        encodable(decode_records(s, n, idx)->Ok_0),
    decreases n - idx,
{
    if idx < n {
        lemma_record_triangle_encodable(record_at(s, idx));
        lemma_decoded_records_shape(s, n, idx + 1);
        let rest = decode_records(s, n, idx + 1)->Ok_0;
        let whole = decode_records(s, n, idx)->Ok_0;
        assert(whole == seq![record_triangle(record_at(s, idx))] + rest);
        assert forall|k: int| 0 <= k < whole.len() implies triangle_encodable(
            #[trigger] whole[k],
        ) by {
            if k > 0 {
                assert(whole[k] == rest[k - 1]);
            }
        }
    }
}

impl Default for STLFile {
    /// An empty, unnamed binary file.
    fn default() -> (r: STLFile)
        ensures
            r.file@ == Seq::<char>::empty(),
            r.filetype == STLType::Binary,
            r.triangle_count == 0,
            r.triangles@ == Seq::<Triangle>::empty(),
    {
        STLFile {
            file: String::new(),
            filetype: STLType::Binary,
            triangle_count: 0u32,
            triangles: Vec::new(),
        }
    }
}

impl From<STLFile> for Mesh {
    /// A mesh owning the file's triangles, extents derived on
    /// construction.
    fn from(input: STLFile) -> (r: Mesh) {
        Mesh::from(input.triangles)
    }
}

impl vstd::std_specs::convert::FromSpecImpl<STLFile> for Mesh {
    open spec fn obeys_from_spec() -> bool {
        true
    }

    open spec fn from_spec(input: STLFile) -> Mesh {
        Mesh {
            triangles: input.triangles,
            triangle_count: input.triangles@.len() as u32,
            minimum: extents_min(input.triangles@),
            maximum: extents_max(input.triangles@),
        }
    }
}

} // verus!
