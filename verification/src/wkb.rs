//! Geometry blobs: well-known binary (WKB), bare or behind a GeoPackage header.

use crate::bytes::{read_u32, read_u64, value_at};
use crate::coord::{Coord, Point};
use crate::geometry::{ring_views, Geometry, GeometryView};
use crate::text::{decimal, push_decimal};
use vstd::prelude::*;

verus! {

/// Why a blob is not a geometry.
#[derive(Clone, Copy, Debug, PartialEq, Eq, Structural)]
pub enum GeometryError {
    BlobTooShort,
    InvalidGpb,
    WkbTooShort,
    UnsupportedType(u32),
    PointTooShort,
    LineStringTooShort,
    LineStringTruncated,
    PolygonTooShort,
    RingCountTruncated,
    PolygonTruncated,
}

impl GeometryError {
    /// The text of the error.
    pub open spec fn text(self) -> Seq<char> {
        match self {
            GeometryError::BlobTooShort => "Geometry blob too short"@,
            GeometryError::InvalidGpb => "Invalid GPB geometry"@,
            GeometryError::WkbTooShort => "WKB data too short"@,
            GeometryError::UnsupportedType(kind) => "Unsupported WKB geometry type: "@ + decimal(
                kind as nat,
            ),
            GeometryError::PointTooShort => "WKB Point data too short"@,
            GeometryError::LineStringTooShort => "WKB LineString data too short"@,
            GeometryError::LineStringTruncated => "WKB LineString point data truncated"@,
            GeometryError::PolygonTooShort => "WKB Polygon data too short"@,
            GeometryError::RingCountTruncated => "WKB Polygon ring count truncated"@,
            GeometryError::PolygonTruncated => "WKB Polygon point data truncated"@,
        }
    }

    /// Says what is wrong with the blob.
    pub fn message(&self) -> (r: String)
        ensures
            r@ == self.text(),
    {
        match self {
            GeometryError::BlobTooShort => String::from_str("Geometry blob too short"),
            GeometryError::InvalidGpb => String::from_str("Invalid GPB geometry"),
            GeometryError::WkbTooShort => String::from_str("WKB data too short"),
            GeometryError::UnsupportedType(kind) => {
                let mut text = String::from_str("Unsupported WKB geometry type: ");
                push_decimal(&mut text, *kind as u64);
                text
            },
            GeometryError::PointTooShort => String::from_str("WKB Point data too short"),
            GeometryError::LineStringTooShort => String::from_str("WKB LineString data too short"),
            GeometryError::LineStringTruncated => String::from_str(
                "WKB LineString point data truncated",
            ),
            GeometryError::PolygonTooShort => String::from_str("WKB Polygon data too short"),
            GeometryError::RingCountTruncated => String::from_str(
                "WKB Polygon ring count truncated",
            ),
            GeometryError::PolygonTruncated => String::from_str(
                "WKB Polygon point data truncated",
            ),
        }
    }
}

/// The coordinate in eight bytes of `data`.
pub open spec fn coord_at(data: Seq<u8>, at: int, little_endian: bool) -> Coord {
    Coord { bits: value_at(data, at, 8, little_endian) as u64 }
}

/// The vertex in sixteen bytes of `data`: longitude, then latitude.
pub open spec fn point_at(data: Seq<u8>, at: int, little_endian: bool) -> Point {
    Point {
        lat: coord_at(data, at + 8, little_endian),
        lon: coord_at(data, at, little_endian),
    }
}

/// The `n` vertices that follow each other in `data` from `at` on.
pub open spec fn points_at(data: Seq<u8>, at: int, n: nat, little_endian: bool) -> Seq<Point> {
    Seq::new(n, |i: int| point_at(data, at + 16 * i, little_endian))
}

/// What the body of a WKB point holds.
pub open spec fn wkb_point(data: Seq<u8>, little_endian: bool) -> Result<
    GeometryView,
    GeometryError,
> {
    if data.len() < 16 {
        Err(GeometryError::PointTooShort)
    } else {
        Ok(GeometryView::Point(point_at(data, 0, little_endian)))
    }
}

/// What the body of a WKB line string holds: a count, then that many vertices.
pub open spec fn wkb_linestring(data: Seq<u8>, little_endian: bool) -> Result<
    GeometryView,
    GeometryError,
> {
    if data.len() < 4 {
        Err(GeometryError::LineStringTooShort)
    } else {
        let n = value_at(data, 0, 4, little_endian);
        if data.len() < 4 + 16 * n {
            Err(GeometryError::LineStringTruncated)
        } else {
            Ok(GeometryView::LineString(points_at(data, 4, n, little_endian)))
        }
    }
}

/// The `n` rings that follow each other in `data` from `at` on, each a count and that many
/// vertices.
pub open spec fn wkb_rings(data: Seq<u8>, at: int, n: nat, little_endian: bool) -> Result<
    Seq<Seq<Point>>,
    GeometryError,
>
    decreases n,
{
    if n == 0 {
        Ok(Seq::empty())
    } else if data.len() < at + 4 {
        Err(GeometryError::RingCountTruncated)
    } else {
        let k = value_at(data, at, 4, little_endian);
        if data.len() < at + 4 + 16 * k {
            Err(GeometryError::PolygonTruncated)
        } else {
            match wkb_rings(data, at + 4 + 16 * k, (n - 1) as nat, little_endian) {
                Ok(rest) => Ok(seq![points_at(data, at + 4, k, little_endian)] + rest),
                Err(e) => Err(e),
            }
        }
    }
}

/// What the body of a WKB polygon holds: a count, then that many rings.
pub open spec fn wkb_polygon(data: Seq<u8>, little_endian: bool) -> Result<
    GeometryView,
    GeometryError,
> {
    if data.len() < 4 {
        Err(GeometryError::PolygonTooShort)
    } else {
        match wkb_rings(data, 4, value_at(data, 0, 4, little_endian), little_endian) {
            Ok(rings) => Ok(GeometryView::Polygon(rings)),
            Err(e) => Err(e),
        }
    }
}

/// What a WKB blob holds: a byte that is 1 for little endian, a type, then the body.
pub open spec fn wkb(data: Seq<u8>) -> Result<GeometryView, GeometryError> {
    if data.len() < 5 {
        Err(GeometryError::WkbTooShort)
    } else {
        let little_endian = data[0] == 1;
        let kind = value_at(data, 1, 4, little_endian);
        let body = data.skip(5);
        if kind == 1 {
            wkb_point(body, little_endian)
        } else if kind == 2 {
            wkb_linestring(body, little_endian)
        } else if kind == 3 {
            wkb_polygon(body, little_endian)
        } else {
            Err(GeometryError::UnsupportedType(kind as u32))
        }
    }
}

/// Whether a blob starts with the letters `GPB`.
pub open spec fn has_gpb_magic(blob: Seq<u8>) -> bool {
    blob.len() >= 3 && blob[0] == 0x47 && blob[1] == 0x50 && blob[2] == 0x42
}

/// The size of the envelope that the header's flags announce: nothing, or sixteen bytes for each of
/// two (XY), three (XYZ or XYM) or four (XYZM) axes.
pub open spec fn envelope_size(flags: u8) -> int {
    if flags & 0b0000_0010 == 0 {
        0
    } else if flags & 0b0000_1100 == 4 {
        32
    } else if flags & 0b0000_1100 == 8 {
        48
    } else if flags & 0b0000_1100 == 12 {
        64
    } else {
        0
    }
}

/// A blob that passes for one with a header but ends inside its last header field.
pub open spec fn header_cut_short(blob: Seq<u8>) -> bool {
    has_gpb_magic(blob) && blob.len() == 8
}

/// What a geometry blob holds. Behind the magic stand a version, the flags, four bytes for the
/// reference system and the envelope; a blob without the magic is WKB as it stands.
pub open spec fn gpb(blob: Seq<u8>) -> Result<GeometryView, GeometryError> {
    if blob.len() < 8 {
        Err(GeometryError::BlobTooShort)
    } else if !has_gpb_magic(blob) {
        wkb(blob)
    } else {
        let offset = 9 + envelope_size(blob[4]);
        if blob.len() <= offset {
            Err(GeometryError::InvalidGpb)
        } else {
            wkb(blob.skip(offset))
        }
    }
}

/// The view of a parse result.
pub open spec fn parsed(r: Result<Geometry, GeometryError>) -> Result<GeometryView, GeometryError> {
    match r {
        Ok(g) => Ok(g@),
        Err(e) => Err(e),
    }
}

/// Reads a double from the first eight of `bytes`.
pub fn read_f64(bytes: &[u8], little_endian: bool) -> (r: Coord)
    requires
        bytes.len() >= 8,
    ensures
        r == coord_at(bytes@, 0, little_endian),
{
    Coord { bits: read_u64(bytes, 0, little_endian) }
}

/// Reads a vertex from sixteen bytes of `data` from `at` on.
fn read_point(data: &[u8], at: usize, little_endian: bool) -> (r: Point)
    requires
        at + 16 <= data.len(),
    ensures
        r == point_at(data@, at as int, little_endian),
{
    let lon = read_f64(&data[at..at + 8], little_endian);
    let lat = read_f64(&data[at + 8..at + 16], little_endian);
    proof {
        let first = data@.subrange(at as int, at + 8);
        let second = data@.subrange(at + 8, at + 16);
        assert(first.subrange(0, 8) =~= first);
        assert(second.subrange(0, 8) =~= second);
    }
    Point { lat, lon }
}

/// Reads `n` vertices, or gives `None` where the bytes run out.
fn read_points(data: &[u8], at: usize, n: u32, little_endian: bool) -> (r: Option<Vec<Point>>)
    requires
        at <= data@.len(),
    ensures
        r is Some <==> at + 16 * n <= data@.len(),
        r matches Some(points) ==> points@ == points_at(data@, at as int, n as nat, little_endian),
{
    let mut points: Vec<Point> = Vec::new();
    let mut offset: usize = at;
    let mut i: u32 = 0;
    while i < n
        invariant
            i <= n,
            at <= offset <= data@.len(),
            offset == at + 16 * i,
            points@ =~= points_at(data@, at as int, i as nat, little_endian),
        decreases n - i,
    {
        if data.len() - offset < 16 {
            return None;
        }
        points.push(read_point(data, offset, little_endian));
        offset += 16;
        i += 1;
    }
    Some(points)
}

/// Parses the body of a WKB point.
pub fn parse_wkb_point(data: &[u8], little_endian: bool) -> (r: Result<Geometry, GeometryError>)
    ensures
        parsed(r) == wkb_point(data@, little_endian),
{
    if data.len() < 16 {
        return Err(GeometryError::PointTooShort);
    }
    Ok(Geometry::Point(read_point(data, 0, little_endian)))
}

/// Parses the body of a WKB line string.
pub fn parse_wkb_linestring(data: &[u8], little_endian: bool) -> (r: Result<
    Geometry,
    GeometryError,
>)
    ensures
        parsed(r) == wkb_linestring(data@, little_endian),
{
    if data.len() < 4 {
        return Err(GeometryError::LineStringTooShort);
    }
    let num_points = read_u32(data, 0, little_endian);
    match read_points(data, 4, num_points, little_endian) {
        Some(points) => Ok(Geometry::LineString(points)),
        None => Err(GeometryError::LineStringTruncated),
    }
}

/// Parses the body of a WKB polygon.
pub fn parse_wkb_polygon(data: &[u8], little_endian: bool) -> (r: Result<Geometry, GeometryError>)
    ensures
        parsed(r) == wkb_polygon(data@, little_endian),
{
    if data.len() < 4 {
        return Err(GeometryError::PolygonTooShort);
    }
    let num_rings = read_u32(data, 0, little_endian);
    let mut rings: Vec<Vec<Point>> = Vec::new();
    let mut offset: usize = 4;
    let mut i: u32 = 0;
    let ghost whole = wkb_rings(data@, 4, num_rings as nat, little_endian);
    proof {
        if whole is Ok {
            assert(ring_views(rings@) + whole->Ok_0 =~= whole->Ok_0);
        }
    }
    while i < num_rings
        invariant
            i <= num_rings,
            4 <= offset <= data@.len(),
            whole == match wkb_rings(
                data@,
                offset as int,
                (num_rings - i) as nat,
                little_endian,
            ) {
                Ok(rest) => Ok(ring_views(rings@) + rest),
                Err(e) => Err(e),
            },
            wkb_polygon(data@, little_endian) == match whole {
                Ok(rs) => Ok(GeometryView::Polygon(rs)),
                Err(e) => Err(e),
            },
        decreases num_rings - i,
    {
        if data.len() - offset < 4 {
            return Err(GeometryError::RingCountTruncated);
        }
        let num_points = read_u32(data, offset, little_endian);
        match read_points(data, offset + 4, num_points, little_endian) {
            Some(points) => {
                let ghost before = ring_views(rings@);
                let ghost ring = points@;
                let ghost rest = wkb_rings(
                    data@,
                    offset + 4 + 16 * num_points,
                    (num_rings - i - 1) as nat,
                    little_endian,
                );
                rings.push(points);
                proof {
                    assert(ring_views(rings@) =~= before.push(ring));
                    if rest is Ok {
                        assert(before + (seq![ring] + rest->Ok_0) =~= before.push(ring)
                            + rest->Ok_0);
                    }
                }
                offset = offset + 4 + 16 * num_points as usize;
                i += 1;
            },
            None => {
                return Err(GeometryError::PolygonTruncated);
            },
        }
    }
    proof {
        assert(ring_views(rings@) + Seq::<Seq<Point>>::empty() =~= ring_views(rings@));
    }
    Ok(Geometry::Polygon(rings))
}

/// Parses a WKB blob.
pub fn parse_wkb(data: &[u8]) -> (r: Result<Geometry, GeometryError>)
    ensures
        parsed(r) == wkb(data@),
{
    if data.len() < 5 {
        return Err(GeometryError::WkbTooShort);
    }
    let little_endian = data[0] == 1;
    let geom_type = read_u32(data, 1, little_endian);
    let body = &data[5..data.len()];
    match geom_type {
        1 => parse_wkb_point(body, little_endian),
        2 => parse_wkb_linestring(body, little_endian),
        3 => parse_wkb_polygon(body, little_endian),
        _ => Err(GeometryError::UnsupportedType(geom_type)),
    }
}

/// Whether a blob starts with the magic and is cut off inside the header.
pub fn is_header_cut_short(blob: &[u8]) -> (r: bool)
    ensures
        r == header_cut_short(blob@),
{
    blob.len() == 8 && blob[0] == 0x47 && blob[1] == 0x50 && blob[2] == 0x42
}

/// Parses a geometry blob of a GeoPackage.
pub fn parse_gpb_geometry(blob: &[u8]) -> (r: Result<Geometry, GeometryError>)
    requires
        !header_cut_short(blob@),
    ensures
        parsed(r) == gpb(blob@),
{
    if blob.len() < 8 {
        return Err(GeometryError::BlobTooShort);
    }
    if blob[0] != 0x47 || blob[1] != 0x50 || blob[2] != 0x42 {
        return parse_wkb(blob);
    }
    let flags = blob[4];
    let envelope: usize = if flags & 0b0000_0010 == 0 {
        0
    } else {
        match flags & 0b0000_1100 {
            4 => 32,
            8 => 48,
            12 => 64,
            _ => 0,
        }
    };
    let wkb_offset: usize = 9 + envelope;
    if blob.len() <= wkb_offset {
        return Err(GeometryError::InvalidGpb);
    }
    parse_wkb(&blob[wkb_offset..blob.len()])
}

} // verus!
