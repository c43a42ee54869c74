//! What holds of the geometry format as a whole.

use crate::bytes::{le_value, value, value_at};
use crate::coord::Point;
use crate::geometry::GeometryView;
use crate::text::decimal;
use crate::wkb::{
    coord_at, envelope_size, gpb, has_gpb_magic, header_cut_short, point_at, points_at, wkb,
    wkb_linestring, wkb_point, wkb_polygon, wkb_rings, GeometryError,
};
use vstd::prelude::*;

verus! {

/// The `width` low bytes of `n`, least significant first.
pub open spec fn le_bytes(n: nat, width: nat) -> Seq<u8>
    decreases width,
{
    if width == 0 {
        Seq::empty()
    } else {
        seq![(n % 256) as u8] + le_bytes(n / 256, (width - 1) as nat)
    }
}

/// Whether `n` fits in `width` bytes.
pub open spec fn fits(n: nat, width: nat) -> bool
    decreases width,
{
    if width == 0 {
        n == 0
    } else {
        fits(n / 256, (width - 1) as nat)
    }
}

/// The `width` low bytes of `n` in the given byte order.
pub open spec fn bytes_of(n: nat, width: nat, little_endian: bool) -> Seq<u8> {
    if little_endian {
        le_bytes(n, width)
    } else {
        le_bytes(n, width).reverse()
    }
}

/// A vertex: longitude, then latitude.
pub open spec fn point_bytes(p: Point, little_endian: bool) -> Seq<u8> {
    bytes_of(p.lon.bits as nat, 8, little_endian) + bytes_of(p.lat.bits as nat, 8, little_endian)
}

/// The vertices one after another.
pub open spec fn points_bytes(points: Seq<Point>, little_endian: bool) -> Seq<u8>
    decreases points.len(),
{
    if points.len() == 0 {
        Seq::empty()
    } else {
        points_bytes(points.drop_last(), little_endian) + point_bytes(points.last(), little_endian)
    }
}

/// A count, then the vertices.
pub open spec fn ring_bytes(points: Seq<Point>, little_endian: bool) -> Seq<u8> {
    bytes_of(points.len(), 4, little_endian) + points_bytes(points, little_endian)
}

/// The rings one after another.
pub open spec fn rings_bytes(rings: Seq<Seq<Point>>, little_endian: bool) -> Seq<u8>
    decreases rings.len(),
{
    if rings.len() == 0 {
        Seq::empty()
    } else {
        ring_bytes(rings[0], little_endian) + rings_bytes(rings.drop_first(), little_endian)
    }
}

/// The type number of a geometry.
pub open spec fn kind_of(g: GeometryView) -> nat {
    match g {
        GeometryView::Point(_) => 1,
        GeometryView::LineString(_) => 2,
        GeometryView::Polygon(_) => 3,
    }
}

/// A geometry behind its type number.
pub open spec fn body_bytes(g: GeometryView, little_endian: bool) -> Seq<u8> {
    match g {
        GeometryView::Point(p) => point_bytes(p, little_endian),
        GeometryView::LineString(points) => ring_bytes(points, little_endian),
        GeometryView::Polygon(rings) => bytes_of(rings.len(), 4, little_endian) + rings_bytes(
            rings,
            little_endian,
        ),
    }
}

/// The WKB encoding of `g` that starts with `order`, which is 1 for little endian.
pub open spec fn wkb_bytes(g: GeometryView, order: u8) -> Seq<u8> {
    seq![order] + bytes_of(kind_of(g), 4, order == 1) + body_bytes(g, order == 1)
}

/// Whether the counts of a geometry fit in the four bytes that the format has for them.
pub open spec fn encodable(g: GeometryView) -> bool {
    match g {
        GeometryView::Point(_) => true,
        GeometryView::LineString(points) => points.len() <= u32::MAX,
        GeometryView::Polygon(rings) => rings.len() <= u32::MAX && rings_encodable(rings),
    }
}

/// Whether the vertex count of every ring fits.
pub open spec fn rings_encodable(rings: Seq<Seq<Point>>) -> bool {
    forall|i: int| 0 <= i < rings.len() ==> (#[trigger] rings[i]).len() <= u32::MAX
}

proof fn lemma_le_bytes_len(n: nat, width: nat)
    ensures
        le_bytes(n, width).len() == width,
    decreases width,
{
    if width > 0 {
        lemma_le_bytes_len(n / 256, (width - 1) as nat);
    }
}

proof fn lemma_le_value_of_bytes(n: nat, width: nat)
    requires
        fits(n, width),
    ensures
        le_value(le_bytes(n, width)) == n,
    decreases width,
{
    if width > 0 {
        let rest = le_bytes(n / 256, (width - 1) as nat);
        lemma_le_value_of_bytes(n / 256, (width - 1) as nat);
        assert(le_bytes(n, width).drop_first() =~= rest);
    }
}

proof fn lemma_le_bytes_of_value(b: Seq<u8>)
    ensures
        le_bytes(le_value(b), b.len()) == b,
        fits(le_value(b), b.len()),
    decreases b.len(),
{
    if b.len() > 0 {
        lemma_le_bytes_of_value(b.drop_first());
        let n = le_value(b);
        assert(n % 256 == b[0] as nat && n / 256 == le_value(b.drop_first()));
        assert(le_bytes(n, b.len()) =~= b);
    }
}

proof fn lemma_fits_4(n: nat)
    ensures
        fits(n, 4) <==> n <= u32::MAX,
{
    reveal_with_fuel(fits, 5);
}

proof fn lemma_fits_8(n: nat)
    ensures
        fits(n, 8) <==> n <= u64::MAX,
{
    reveal_with_fuel(fits, 9);
}

/// Numbers survive being written and read, in either byte order.
proof fn lemma_value_of_bytes(n: nat, width: nat, little_endian: bool)
    requires
        fits(n, width),
    ensures
        value(bytes_of(n, width, little_endian), little_endian) == n,
        bytes_of(n, width, little_endian).len() == width,
{
    lemma_le_bytes_len(n, width);
    lemma_le_value_of_bytes(n, width);
    assert(le_bytes(n, width).reverse().reverse() =~= le_bytes(n, width));
}

/// Bytes survive being read and written, in either byte order.
proof fn lemma_bytes_of_value(b: Seq<u8>, little_endian: bool)
    ensures
        bytes_of(value(b, little_endian), b.len(), little_endian) == b,
        fits(value(b, little_endian), b.len()),
{
    if little_endian {
        lemma_le_bytes_of_value(b);
    } else {
        lemma_le_bytes_of_value(b.reverse());
        assert(b.reverse().reverse() =~= b);
    }
}

/// Whether `part` stands in `data` at `at`.
pub open spec fn holds_at(data: Seq<u8>, at: int, part: Seq<u8>) -> bool {
    0 <= at && at + part.len() <= data.len() && data.subrange(at, at + part.len()) == part
}

/// Two adjacent parts stand where their concatenation stands.
proof fn lemma_holds_split(data: Seq<u8>, at: int, a: Seq<u8>, b: Seq<u8>)
    ensures
        holds_at(data, at, a + b) <==> holds_at(data, at, a) && holds_at(
            data,
            at + a.len(),
            b,
        ),
{
    if holds_at(data, at, a + b) {
        let w = data.subrange(at, at + (a + b).len());
        assert(data.subrange(at, at + a.len()) =~= w.subrange(0, a.len() as int));
        assert(a =~= (a + b).subrange(0, a.len() as int));
        assert(data.subrange(at + a.len(), at + a.len() + b.len()) =~= w.subrange(
            a.len() as int,
            (a.len() + b.len()) as int,
        ));
        assert(b =~= (a + b).subrange(a.len() as int, (a.len() + b.len()) as int));
    }
    if holds_at(data, at, a) && holds_at(data, at + a.len(), b) {
        assert(data.subrange(at, at + (a + b).len()) =~= data.subrange(at, at + a.len())
            + data.subrange(at + a.len(), at + a.len() + b.len()));
    }
}

/// A number of `width` bytes stands at `at` exactly where reading those bytes gives it.
proof fn lemma_number_at(data: Seq<u8>, at: int, n: nat, width: nat, little_endian: bool)
    requires
        fits(n, width),
        0 <= at,
    ensures
        holds_at(data, at, bytes_of(n, width, little_endian)) <==> at + width <= data.len()
            && value_at(data, at, width as int, little_endian) == n,
        bytes_of(n, width, little_endian).len() == width,
{
    lemma_value_of_bytes(n, width, little_endian);
    if at + width <= data.len() {
        let b = data.subrange(at, at + width);
        lemma_bytes_of_value(b, little_endian);
    }
}

proof fn lemma_point_at(data: Seq<u8>, at: int, p: Point, little_endian: bool)
    requires
        0 <= at,
    ensures
        holds_at(data, at, point_bytes(p, little_endian)) <==> at + 16 <= data.len() && point_at(
            data,
            at,
            little_endian,
        ) == p,
        point_bytes(p, little_endian).len() == 16,
{
    let lon = bytes_of(p.lon.bits as nat, 8, little_endian);
    let lat = bytes_of(p.lat.bits as nat, 8, little_endian);
    lemma_fits_8(p.lon.bits as nat);
    lemma_fits_8(p.lat.bits as nat);
    lemma_number_at(data, at, p.lon.bits as nat, 8, little_endian);
    lemma_number_at(data, at + 8, p.lat.bits as nat, 8, little_endian);
    lemma_holds_split(data, at, lon, lat);
    if at + 16 <= data.len() {
        lemma_bytes_of_value(data.subrange(at, at + 8), little_endian);
        lemma_bytes_of_value(data.subrange(at + 8, at + 16), little_endian);
        lemma_fits_8(value_at(data, at, 8, little_endian));
        lemma_fits_8(value_at(data, at + 8, 8, little_endian));
    }
}

proof fn lemma_points_at(data: Seq<u8>, at: int, points: Seq<Point>, little_endian: bool)
    requires
        0 <= at,
    ensures
        holds_at(data, at, points_bytes(points, little_endian)) <==> at + 16 * points.len()
            <= data.len() && points_at(data, at, points.len(), little_endian) == points,
        points_bytes(points, little_endian).len() == 16 * points.len(),
    decreases points.len(),
{
    let n = points.len();
    if n == 0 {
        assert(points_at(data, at, 0, little_endian) =~= points);
        assert(holds_at(data, at, Seq::<u8>::empty()) <==> at <= data.len()) by {
            if at <= data.len() {
                assert(data.subrange(at, at) =~= Seq::<u8>::empty());
            }
        }
    } else {
        let front = points.drop_last();
        let last = points.last();
        lemma_points_at(data, at, front, little_endian);
        lemma_point_at(data, at + 16 * (n - 1), last, little_endian);
        lemma_holds_split(
            data,
            at,
            points_bytes(front, little_endian),
            point_bytes(last, little_endian),
        );
        let read = points_at(data, at, n, little_endian);
        assert(points_at(data, at, (n - 1) as nat, little_endian) =~= read.drop_last());
        if read.drop_last() == front && read.last() == last {
            assert(read =~= read.drop_last().push(read.last()));
            assert(points =~= front.push(last));
        }
    }
}

proof fn lemma_ring_at(data: Seq<u8>, at: int, points: Seq<Point>, little_endian: bool)
    requires
        0 <= at,
        points.len() <= u32::MAX,
    ensures
        holds_at(data, at, ring_bytes(points, little_endian)) <==> at + 4 + 16 * points.len()
            <= data.len() && value_at(data, at, 4, little_endian) == points.len() && points_at(
            data,
            at + 4,
            points.len(),
            little_endian,
        ) == points,
        ring_bytes(points, little_endian).len() == 4 + 16 * points.len(),
{
    lemma_fits_4(points.len());
    lemma_number_at(data, at, points.len(), 4, little_endian);
    lemma_points_at(data, at + 4, points, little_endian);
    lemma_holds_split(
        data,
        at,
        bytes_of(points.len(), 4, little_endian),
        points_bytes(points, little_endian),
    );
}

proof fn lemma_rings_at(data: Seq<u8>, at: int, rings: Seq<Seq<Point>>, little_endian: bool)
    requires
        0 <= at <= data.len(),
    ensures
        rings_encodable(rings) && holds_at(data, at, rings_bytes(rings, little_endian))
            <==> wkb_rings(data, at, rings.len(), little_endian) == Ok::<
            Seq<Seq<Point>>,
            GeometryError,
        >(rings),
    decreases rings.len(),
{
    if rings.len() == 0 {
        assert(rings =~= Seq::empty());
        assert(data.subrange(at, at) =~= Seq::<u8>::empty());
    } else {
        let first = rings[0];
        let rest = rings.drop_first();
        let n = rings.len();
        assert(rings =~= seq![first] + rest);
        assert(rings_encodable(rings) <==> first.len() <= u32::MAX && rings_encodable(rest)) by {
            if first.len() <= u32::MAX && rings_encodable(rest) {
                assert forall|i: int| 0 <= i < rings.len() implies (#[trigger] rings[i]).len()
                    <= u32::MAX by {
                    if i > 0 {
                        assert(rings[i] == rest[i - 1]);
                    }
                }
            }
            if rings_encodable(rings) {
                assert forall|i: int| 0 <= i < rest.len() implies (#[trigger] rest[i]).len()
                    <= u32::MAX by {
                    assert(rest[i] == rings[i + 1]);
                }
            }
        }
        if first.len() <= u32::MAX {
            lemma_ring_at(data, at, first, little_endian);
            lemma_holds_split(
                data,
                at,
                ring_bytes(first, little_endian),
                rings_bytes(rest, little_endian),
            );
            if at + 4 + 16 * first.len() <= data.len() {
                lemma_rings_at(data, at + 4 + 16 * first.len(), rest, little_endian);
            }
        }
        let parsed = wkb_rings(data, at, n, little_endian);
        if parsed is Ok {
            let k = value_at(data, at, 4, little_endian);
            lemma_bytes_of_value(data.subrange(at, at + 4), little_endian);
            lemma_fits_4(k);
            let tail = wkb_rings(data, at + 4 + 16 * k, (n - 1) as nat, little_endian)->Ok_0;
            let head = points_at(data, at + 4, k, little_endian);
            assert(parsed->Ok_0 == seq![head] + tail);
            assert((seq![head] + tail)[0] == head);
            assert((seq![head] + tail).drop_first() =~= tail);
        }
    }
}

/// A part stands in the body of a blob where it stands in the blob behind the type number.
proof fn lemma_holds_in_body(data: Seq<u8>, part: Seq<u8>)
    requires
        data.len() >= 5,
    ensures
        holds_at(data, 5, part) <==> holds_at(data.skip(5), 0, part),
{
    if 5 + part.len() <= data.len() {
        assert(data.subrange(5, 5int + part.len()) =~= data.skip(5).subrange(0, part.len() as int));
    }
}

/// What the body of a blob of type `kind_of(g)` holds.
spec fn body_parsed(body: Seq<u8>, kind: nat, little_endian: bool) -> Result<
    GeometryView,
    GeometryError,
> {
    if kind == 1 {
        wkb_point(body, little_endian)
    } else if kind == 2 {
        wkb_linestring(body, little_endian)
    } else {
        wkb_polygon(body, little_endian)
    }
}

proof fn lemma_body(body: Seq<u8>, g: GeometryView, little_endian: bool)
    ensures
        encodable(g) && holds_at(body, 0, body_bytes(g, little_endian)) <==> body_parsed(
            body,
            kind_of(g),
            little_endian,
        ) == Ok::<GeometryView, GeometryError>(g),
{
    if body.len() >= 4 {
        lemma_bytes_of_value(body.subrange(0, 4), little_endian);
        lemma_fits_4(value_at(body, 0, 4, little_endian));
    }
    match g {
        GeometryView::Point(p) => {
            lemma_point_at(body, 0, p, little_endian);
        },
        GeometryView::LineString(points) => {
            if points.len() <= u32::MAX {
                lemma_ring_at(body, 0, points, little_endian);
            }
        },
        GeometryView::Polygon(rings) => {
            if rings.len() <= u32::MAX {
                lemma_fits_4(rings.len());
                lemma_number_at(body, 0, rings.len(), 4, little_endian);
                lemma_holds_split(
                    body,
                    0,
                    bytes_of(rings.len(), 4, little_endian),
                    rings_bytes(rings, little_endian),
                );
            }
            if body.len() >= 4 {
                lemma_rings_at(body, 4, rings, little_endian);
                let n = value_at(body, 0, 4, little_endian);
                if wkb_rings(body, 4, n, little_endian) is Ok {
                    lemma_rings_len(body, 4, n, little_endian);
                }
            }
        },
    }
}

proof fn lemma_rings_len(data: Seq<u8>, at: int, n: nat, little_endian: bool)
    ensures
        wkb_rings(data, at, n, little_endian) matches Ok(rings) ==> rings.len() == n,
    decreases n,
{
    if n > 0 {
        let k = value_at(data, at, 4, little_endian);
        lemma_rings_len(data, at + 4 + 16 * k, (n - 1) as nat, little_endian);
    }
}

/// A blob parses as `g` exactly where it starts with an encoding of `g`. So every geometry whose
/// counts fit has an encoding in either byte order, no blob stands for two geometries, and what
/// follows the encoding plays no part.
pub proof fn law_wkb_reads_encodings(data: Seq<u8>, g: GeometryView)
    ensures
        wkb(data) == Ok::<GeometryView, GeometryError>(g) <==> data.len() > 0 && encodable(g)
            && holds_at(data, 0, wkb_bytes(g, data[0])),
{
    if data.len() >= 5 {
        let order = data[0];
        let little_endian = order == 1;
        let kind = kind_of(g);
        let body = data.skip(5);
        let kind_bytes = bytes_of(kind, 4, little_endian);
        lemma_fits_4(kind);
        lemma_number_at(data, 1, kind, 4, little_endian);
        lemma_holds_split(data, 0, seq![order] + kind_bytes, body_bytes(g, little_endian));
        lemma_holds_split(data, 0, seq![order], kind_bytes);
        assert(data.subrange(0, 1) =~= seq![order]);
        lemma_holds_in_body(data, body_bytes(g, little_endian));
        lemma_body(body, g, little_endian);
        lemma_bytes_of_value(data.subrange(1, 5), little_endian);
        lemma_fits_4(value_at(data, 1, 4, little_endian));
    } else {
        if data.len() > 0 {
            lemma_le_bytes_len(kind_of(g), 4);
        }
    }
}

/// The encoding of a geometry parses as that geometry, in either byte order and whatever bytes
/// come after it.
pub proof fn law_wkb_round_trip(g: GeometryView, order: u8, trailing: Seq<u8>)
    requires
        encodable(g),
    ensures
        wkb(wkb_bytes(g, order) + trailing) == Ok::<GeometryView, GeometryError>(g),
{
    let encoded = wkb_bytes(g, order);
    let data = encoded + trailing;
    assert(data[0] == order);
    assert(data.subrange(0, encoded.len() as int) =~= encoded);
    law_wkb_reads_encodings(data, g);
}

/// Bytes appended to a blob that parses change nothing.
pub proof fn law_wkb_ignores_trailing_bytes(data: Seq<u8>, trailing: Seq<u8>)
    requires
        wkb(data) is Ok,
    ensures
        wkb(data + trailing) == wkb(data),
{
    let g = wkb(data)->Ok_0;
    let longer = data + trailing;
    law_wkb_reads_encodings(data, g);
    let encoded = wkb_bytes(g, data[0]);
    assert(longer[0] == data[0]);
    assert(longer.subrange(0, encoded.len() as int) =~= data.subrange(0, encoded.len() as int));
    law_wkb_reads_encodings(longer, g);
}

/// Behind a whole header a blob parses as its WKB part does. The version and the reference system
/// play no part.
pub proof fn law_gpb_header_is_transparent(header: Seq<u8>, body: Seq<u8>)
    requires
        has_gpb_magic(header),
        header.len() >= 5,
        header.len() == 9 + envelope_size(header[4]),
        body.len() > 0,
    ensures
        gpb(header + body) == wkb(body),
{
    let blob = header + body;
    assert(blob[4] == header[4]);
    assert(blob.skip(header.len() as int) =~= body);
}

/// The number of vertices of a geometry.
pub open spec fn vertex_count(g: GeometryView) -> nat {
    match g {
        GeometryView::Point(_) => 1,
        GeometryView::LineString(points) => points.len(),
        GeometryView::Polygon(rings) => rings.flatten().len(),
    }
}

/// A parsed geometry has at most one vertex for every sixteen bytes of its blob.
pub proof fn law_vertices_are_bounded_by_the_blob(data: Seq<u8>)
    ensures
        wkb(data) matches Ok(g) ==> 16 * vertex_count(g) <= data.len(),
        gpb(data) matches Ok(g) ==> 16 * vertex_count(g) <= data.len(),
{
    lemma_wkb_bound(data);
    if has_gpb_magic(data) && data.len() > 9 + envelope_size(data[4]) {
        lemma_wkb_bound(data.skip(9 + envelope_size(data[4])));
    }
}

proof fn lemma_wkb_bound(data: Seq<u8>)
    ensures
        wkb(data) matches Ok(g) ==> 16 * vertex_count(g) <= data.len(),
{
    if data.len() >= 5 {
        let little_endian = data[0] == 1;
        let body = data.skip(5);
        if body.len() >= 4 {
            lemma_rings_bound(body, 4, value_at(body, 0, 4, little_endian), little_endian);
        }
    }
}

proof fn lemma_rings_bound(data: Seq<u8>, at: int, n: nat, little_endian: bool)
    requires
        0 <= at <= data.len(),
    ensures
        wkb_rings(data, at, n, little_endian) matches Ok(rings) ==> at + 16
            * rings.flatten().len() <= data.len(),
    decreases n,
{
    if n > 0 && at + 4 <= data.len() {
        let k = value_at(data, at, 4, little_endian);
        if at + 4 + 16 * k <= data.len() {
            lemma_rings_bound(data, at + 4 + 16 * k, (n - 1) as nat, little_endian);
            if let Ok(rest) = wkb_rings(data, at + 4 + 16 * k, (n - 1) as nat, little_endian) {
                let head = points_at(data, at + 4, k, little_endian);
                let all = seq![head] + rest;
                assert(all.drop_first() =~= rest);
                assert(all.flatten() == head + rest.flatten());
            }
        }
    }
}

/// Numbers in the body of a blob stand five bytes further on in the blob.
proof fn lemma_value_in_body(data: Seq<u8>, at: int, width: int, little_endian: bool)
    requires
        data.len() >= 5,
        0 <= at,
        0 <= width,
        5 + at + width <= data.len(),
    ensures
        value_at(data.skip(5), at, width, little_endian) == value_at(
            data,
            5 + at,
            width,
            little_endian,
        ),
{
    assert(data.skip(5).subrange(at, at + width) =~= data.subrange(5 + at, 5 + at + width));
}

/// Eight bytes are worth no more than 64 bits hold, and four no more than 32.
proof fn lemma_value_fits(data: Seq<u8>, at: int, little_endian: bool)
    requires
        0 <= at,
    ensures
        at + 8 <= data.len() ==> value_at(data, at, 8, little_endian) <= u64::MAX,
        at + 4 <= data.len() ==> value_at(data, at, 4, little_endian) <= u32::MAX,
{
    if at + 8 <= data.len() {
        lemma_bytes_of_value(data.subrange(at, at + 8), little_endian);
        lemma_fits_8(value_at(data, at, 8, little_endian));
    }
    if at + 4 <= data.len() {
        lemma_bytes_of_value(data.subrange(at, at + 4), little_endian);
        lemma_fits_4(value_at(data, at, 4, little_endian));
    }
}

/// A vertex in the body of a blob has the bits that stand in the blob.
proof fn lemma_point_in_body(data: Seq<u8>, at: int, little_endian: bool)
    requires
        0 <= at,
        5 + at + 16 <= data.len(),
    ensures
        point_at(data.skip(5), at, little_endian).lon.bits == value_at(
            data,
            5 + at,
            8,
            little_endian,
        ),
        point_at(data.skip(5), at, little_endian).lat.bits == value_at(
            data,
            13 + at,
            8,
            little_endian,
        ),
{
    lemma_value_in_body(data, at, 8, little_endian);
    lemma_value_in_body(data, at + 8, 8, little_endian);
    lemma_value_fits(data, 5 + at, little_endian);
    lemma_value_fits(data, 13 + at, little_endian);
}

/// A blob without room for its byte order and its type, or of a type that is none of the three, is
/// refused for just that.
pub proof fn law_wkb_start(data: Seq<u8>)
    ensures
        data.len() < 5 <==> wkb(data) == Err::<GeometryView, GeometryError>(
            GeometryError::WkbTooShort,
        ),
        data.len() >= 5 ==> {
            let kind = value_at(data, 1, 4, data[0] == 1);
            wkb(data) == Err::<GeometryView, GeometryError>(
                GeometryError::UnsupportedType(kind as u32),
            ) <==> kind != 1 && kind != 2 && kind != 3
        },
{
    if data.len() >= 5 {
        let little_endian = data[0] == 1;
        lemma_value_fits(data, 1, little_endian);
        let body = data.skip(5);
        if body.len() >= 4 {
            lemma_rings_errors(body, 4, value_at(body, 0, 4, little_endian), little_endian);
        }
    }
}

/// Rings are refused for want of bytes alone.
proof fn lemma_rings_errors(data: Seq<u8>, at: int, n: nat, little_endian: bool)
    ensures
        wkb_rings(data, at, n, little_endian) matches Err(e) ==> e
            == GeometryError::RingCountTruncated || e == GeometryError::PolygonTruncated,
    decreases n,
{
    if n > 0 {
        let k = value_at(data, at, 4, little_endian);
        lemma_rings_errors(data, at + 4 + 16 * k, (n - 1) as nat, little_endian);
    }
}

/// A point blob of 21 bytes or more gives the point whose longitude stands behind the type and
/// whose latitude follows.
pub proof fn law_wkb_point_by_position(data: Seq<u8>)
    requires
        data.len() >= 5,
        value_at(data, 1, 4, data[0] == 1) == 1,
    ensures
        data.len() < 21 ==> wkb(data) == Err::<GeometryView, GeometryError>(
            GeometryError::PointTooShort,
        ),
        data.len() >= 21 ==> (wkb(data) matches Ok(g) && g matches GeometryView::Point(p)
            && p.lon.bits == value_at(data, 5, 8, data[0] == 1) && p.lat.bits == value_at(
            data,
            13,
            8,
            data[0] == 1,
        )),
{
    if data.len() >= 21 {
        lemma_point_in_body(data, 0, data[0] == 1);
    }
}

/// A line blob gives as many vertices as its count says, each from the sixteen bytes behind those
/// of the one before, and is refused exactly where the bytes do not suffice.
pub proof fn law_wkb_line_by_position(data: Seq<u8>)
    requires
        data.len() >= 5,
        value_at(data, 1, 4, data[0] == 1) == 2,
    ensures
        data.len() < 9 ==> wkb(data) == Err::<GeometryView, GeometryError>(
            GeometryError::LineStringTooShort,
        ),
        data.len() >= 9 ==> {
            let little_endian = data[0] == 1;
            let n = value_at(data, 5, 4, little_endian);
            &&& data.len() < 9 + 16 * n ==> wkb(data) == Err::<GeometryView, GeometryError>(
                GeometryError::LineStringTruncated,
            )
            &&& data.len() >= 9 + 16 * n ==> (wkb(data) matches Ok(g)
                && g matches GeometryView::LineString(points) && points.len() == n && forall|i: int|
                0 <= i < n ==> (#[trigger] points[i]).lon.bits == value_at(
                    data,
                    9 + 16 * i,
                    8,
                    little_endian,
                ) && points[i].lat.bits == value_at(data, 17 + 16 * i, 8, little_endian))
        },
{
    let little_endian = data[0] == 1;
    let body = data.skip(5);
    if data.len() >= 9 {
        lemma_value_in_body(data, 0, 4, little_endian);
        let n = value_at(data, 5, 4, little_endian);
        if data.len() >= 9 + 16 * n {
            let points = points_at(body, 4, n, little_endian);
            assert forall|i: int| 0 <= i < n implies (#[trigger] points[i]).lon.bits == value_at(
                data,
                9 + 16 * i,
                8,
                little_endian,
            ) && points[i].lat.bits == value_at(data, 17 + 16 * i, 8, little_endian) by {
                lemma_point_in_body(data, 4 + 16 * i, little_endian);
            }
        }
    }
}

/// Rings are read alike wherever their bytes stand.
proof fn lemma_rings_move(a: Seq<u8>, at: int, b: Seq<u8>, bt: int, n: nat, little_endian: bool)
    requires
        0 <= at <= a.len(),
        0 <= bt <= b.len(),
        a.skip(at) == b.skip(bt),
    ensures
        wkb_rings(a, at, n, little_endian) == wkb_rings(b, bt, n, little_endian),
    decreases n,
{
    assert(a.skip(at).len() == a.len() - at && b.skip(bt).len() == b.len() - bt);
    assert(a.len() - at == b.len() - bt);
    if n > 0 && a.len() >= at + 4 {
        assert(a.subrange(at, at + 4) =~= a.skip(at).subrange(0, 4));
        assert(b.subrange(bt, bt + 4) =~= b.skip(bt).subrange(0, 4));
        let k = value_at(a, at, 4, little_endian);
        assert(value_at(b, bt, 4, little_endian) == k);
        if a.len() >= at + 4 + 16 * k {
            let p = points_at(a, at + 4, k, little_endian);
            let q = points_at(b, bt + 4, k, little_endian);
            assert forall|i: int| 0 <= i < k implies p[i] == q[i] by {
                let x = 4 + 16 * i;
                assert(a.subrange(at + x, at + x + 8) =~= a.skip(at).subrange(x, x + 8));
                assert(b.subrange(bt + x, bt + x + 8) =~= b.skip(bt).subrange(x, x + 8));
                assert(a.subrange(at + x + 8, at + x + 16) =~= a.skip(at).subrange(x + 8, x + 16));
                assert(b.subrange(bt + x + 8, bt + x + 16) =~= b.skip(bt).subrange(x + 8, x + 16));
            }
            assert(p =~= q);
            assert(a.skip(at + 4 + 16 * k) =~= a.skip(at).skip(4 + 16 * k as int));
            assert(b.skip(bt + 4 + 16 * k) =~= b.skip(bt).skip(4 + 16 * k as int));
            lemma_rings_move(
                a,
                at + 4 + 16 * k,
                b,
                bt + 4 + 16 * k,
                (n - 1) as nat,
                little_endian,
            );
        }
    }
}

/// A polygon blob without rings gives none, one whose first ring does not fit is refused for it.
pub proof fn law_wkb_polygon_start(data: Seq<u8>)
    requires
        data.len() >= 5,
        value_at(data, 1, 4, data[0] == 1) == 3,
    ensures
        data.len() < 9 ==> wkb(data) == Err::<GeometryView, GeometryError>(
            GeometryError::PolygonTooShort,
        ),
        data.len() >= 9 ==> {
            let n = value_at(data, 5, 4, data[0] == 1);
            let k = value_at(data, 9, 4, data[0] == 1);
            &&& n == 0 ==> wkb(data) == Ok::<GeometryView, GeometryError>(
                GeometryView::Polygon(Seq::empty()),
            )
            &&& n > 0 && data.len() < 13 ==> wkb(data) == Err::<GeometryView, GeometryError>(
                GeometryError::RingCountTruncated,
            )
            &&& n > 0 && data.len() >= 13 && data.len() < 13 + 16 * k ==> wkb(data) == Err::<
                GeometryView,
                GeometryError,
            >(GeometryError::PolygonTruncated)
        },
{
    let little_endian = data[0] == 1;
    if data.len() >= 9 {
        lemma_value_in_body(data, 0, 4, little_endian);
    }
    if data.len() >= 13 {
        lemma_value_in_body(data, 4, 4, little_endian);
    }
}

/// A polygon blob gives its first ring, from the bytes behind the ring's count, and then what the
/// blob gives from which that ring has been cut out.
pub proof fn law_wkb_polygon_ring_by_ring(data: Seq<u8>, without: Seq<u8>)
    requires
        data.len() >= 13,
        value_at(data, 1, 4, data[0] == 1) == 3,
        value_at(data, 5, 4, data[0] == 1) > 0,
        data.len() >= 13 + 16 * value_at(data, 9, 4, data[0] == 1),
        without.len() >= 9,
        without.take(5) == data.take(5),
        value_at(without, 5, 4, data[0] == 1) == value_at(data, 5, 4, data[0] == 1) - 1,
        without.skip(9) == data.skip(13 + 16 * value_at(data, 9, 4, data[0] == 1) as int),
    ensures
        wkb(without) matches Err(e) ==> wkb(data) == Err::<GeometryView, GeometryError>(e),
        wkb(without) matches Ok(rest) ==> (rest matches GeometryView::Polygon(others) && wkb(
            data,
        ) matches Ok(g) && g matches GeometryView::Polygon(rings) && rings.len() == others.len() + 1
            && rings[0].len() == value_at(data, 9, 4, data[0] == 1) && (forall|i: int|
            0 <= i < rings[0].len() ==> (#[trigger] rings[0][i]).lon.bits == value_at(
                data,
                13 + 16 * i,
                8,
                data[0] == 1,
            ) && rings[0][i].lat.bits == value_at(data, 21 + 16 * i, 8, data[0] == 1)) && (forall|
            r: int,
        |
            0 <= r < others.len() ==> rings[r + 1] == #[trigger] others[r])),
{
    let little_endian = data[0] == 1;
    let body = data.skip(5);
    let rest = without.skip(5);
    assert(without[0] == without.take(5)[0]);
    assert(data[0] == data.take(5)[0]);
    assert(without.subrange(1, 5) =~= without.take(5).subrange(1, 5));
    assert(data.subrange(1, 5) =~= data.take(5).subrange(1, 5));
    lemma_value_in_body(data, 0, 4, little_endian);
    lemma_value_in_body(data, 4, 4, little_endian);
    lemma_value_in_body(without, 0, 4, little_endian);
    let n = value_at(data, 5, 4, little_endian);
    let k = value_at(data, 9, 4, little_endian);
    assert(body.skip(8 + 16 * k as int) =~= data.skip(13 + 16 * k as int));
    assert(rest.skip(4) =~= without.skip(9));
    lemma_rings_move(body, 8 + 16 * k as int, rest, 4, (n - 1) as nat, little_endian);
    let first = points_at(body, 8, k, little_endian);
    assert forall|i: int| 0 <= i < k implies (#[trigger] first[i]).lon.bits == value_at(
        data,
        13 + 16 * i,
        8,
        little_endian,
    ) && first[i].lat.bits == value_at(data, 21 + 16 * i, 8, little_endian) by {
        lemma_point_in_body(data, 8 + 16 * i, little_endian);
    }
}

/// A blob of eight bytes or more that does not start with `GPB` is WKB as it stands, however long
/// it is; a shorter one is refused.
pub proof fn law_bare_blob_is_wkb(blob: Seq<u8>)
    ensures
        blob.len() < 8 <==> gpb(blob) == Err::<GeometryView, GeometryError>(
            GeometryError::BlobTooShort,
        ),
        blob.len() >= 8 && !(blob[0] == 0x47 && blob[1] == 0x50 && blob[2] == 0x42) ==> gpb(blob)
            == wkb(blob),
{
    lemma_wkb_never_too_short_for_a_blob(blob);
    if blob.len() >= 9 + envelope_size(blob[4]) {
        lemma_wkb_never_too_short_for_a_blob(blob.skip(9 + envelope_size(blob[4])));
    }
}

proof fn lemma_wkb_never_too_short_for_a_blob(data: Seq<u8>)
    ensures
        wkb(data) != Err::<GeometryView, GeometryError>(GeometryError::BlobTooShort),
        wkb(data) != Err::<GeometryView, GeometryError>(GeometryError::InvalidGpb),
{
    if data.len() >= 9 {
        let little_endian = data[0] == 1;
        let body = data.skip(5);
        lemma_rings_errors(body, 4, value_at(body, 0, 4, little_endian), little_endian);
    }
}

/// Behind `GPB` stand a version, the flags, a reference system of four bytes and, where the second
/// bit of the flags is set, an envelope whose size the next two bits give. What follows is WKB, and
/// where nothing follows the blob is refused.
pub proof fn law_blob_with_header(blob: Seq<u8>)
    requires
        blob.len() >= 8,
        blob[0] == 0x47,
        blob[1] == 0x50,
        blob[2] == 0x42,
    ensures
        ({
            let code = blob[4] as int / 4 % 4;
            let envelope: int = if blob[4] as int / 2 % 2 == 0 || code == 0 {
                0
            } else {
                16 + 16 * code
            };
            &&& blob.len() <= 9 + envelope <==> gpb(blob) == Err::<GeometryView, GeometryError>(
                GeometryError::InvalidGpb,
            )
            &&& blob.len() > 9 + envelope ==> gpb(blob) == wkb(blob.skip(9 + envelope))
        }),
{
    let flags = blob[4];
    assert((flags & 0b0000_0010 == 0) == (flags / 2 % 2 == 0)) by (bit_vector);
    assert(flags & 0b0000_1100 == 4 * (flags / 4 % 4)) by (bit_vector);
    lemma_wkb_never_too_short_for_a_blob(blob.skip(9 + envelope_size(flags)));
}

/// An encoded geometry of eight bytes or more reads back as a blob, bare in either byte order or
/// behind a header without an envelope.
pub proof fn law_gpb_round_trip(g: GeometryView, order: u8, header: Seq<u8>, trailing: Seq<u8>)
    requires
        encodable(g),
        header.len() == 9,
        header[0] == 0x47,
        header[1] == 0x50,
        header[2] == 0x42,
        header[4] == 0,
    ensures
        order != 0x47 && (wkb_bytes(g, order) + trailing).len() >= 8 ==> gpb(
            wkb_bytes(g, order) + trailing,
        ) == Ok::<GeometryView, GeometryError>(g),
        gpb(header + (wkb_bytes(g, order) + trailing)) == Ok::<GeometryView, GeometryError>(g),
{
    let encoded = wkb_bytes(g, order) + trailing;
    assert(encoded[0] == order);
    law_wkb_round_trip(g, order, trailing);
    law_bare_blob_is_wkb(encoded);
    let blob = header + encoded;
    law_blob_with_header(blob);
    assert(blob.skip(9) =~= encoded);
}

/// Counts of up to 32 bits can be encoded, whatever the vertices are.
pub proof fn law_encodable_by_counts(g: GeometryView)
    ensures
        g is Point ==> encodable(g),
        g matches GeometryView::LineString(points) ==> (encodable(g) <==> points.len()
            <= 0xffff_ffff),
        g matches GeometryView::Polygon(rings) ==> (encodable(g) <==> rings.len() <= 0xffff_ffff
            && forall|i: int| 0 <= i < rings.len() ==> (#[trigger] rings[i]).len() <= 0xffff_ffff),
{
}

/// The one kind of blob that cannot be parsed is `GPB` with five bytes behind it.
pub proof fn law_only_cut_headers_are_left_out(blob: Seq<u8>)
    ensures
        header_cut_short(blob) <==> blob.len() == 8 && blob[0] == 0x47 && blob[1] == 0x50 && blob[2]
            == 0x42,
{
}

/// The message about an unknown type ends in its number.
pub proof fn law_message_names_the_type(kind: u32)
    ensures
        GeometryError::UnsupportedType(kind).text() == "Unsupported WKB geometry type: "@ + decimal(
            kind as nat,
        ),
{
}

/// A coordinate has the bits that stand in its eight bytes.
pub proof fn law_coordinate_bits(data: Seq<u8>, at: int, little_endian: bool)
    requires
        0 <= at,
        at + 8 <= data.len(),
    ensures
        coord_at(data, at, little_endian).bits == value_at(data, at, 8, little_endian),
{
    lemma_value_fits(data, at, little_endian);
}

} // verus!
