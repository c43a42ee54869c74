use arnis_tiles::geometry::Geometry;
use arnis_tiles::wkb::{
    is_header_cut_short, parse_gpb_geometry, parse_wkb, parse_wkb_linestring, parse_wkb_point,
    parse_wkb_polygon, read_f64, GeometryError,
};

fn number(value: u32, little: bool) -> Vec<u8> {
    if little {
        value.to_le_bytes().to_vec()
    } else {
        value.to_be_bytes().to_vec()
    }
}

fn points(coords: &[(f64, f64)], little: bool) -> Vec<u8> {
    let mut out = Vec::new();
    for (lon, lat) in coords {
        for value in [lon, lat] {
            if little {
                out.extend(value.to_le_bytes());
            } else {
                out.extend(value.to_be_bytes());
            }
        }
    }
    out
}

fn wkb(kind: u32, body: &[u8], little: bool) -> Vec<u8> {
    let mut out = vec![if little { 1 } else { 0 }];
    out.extend(number(kind, little));
    out.extend(body);
    out
}

fn ring(coords: &[(f64, f64)], little: bool) -> Vec<u8> {
    let mut out = number(coords.len() as u32, little);
    out.extend(points(coords, little));
    out
}

fn header(flags: u8, envelope: usize) -> Vec<u8> {
    let mut out = b"GPB".to_vec();
    out.extend([0, flags, 0xe6, 0x10, 0, 0]);
    out.extend(vec![0xaa; envelope]);
    out
}

fn error(r: Result<Geometry, GeometryError>) -> GeometryError {
    match r {
        Ok(g) => panic!("parsed as {g:?}"),
        Err(e) => e,
    }
}

fn lonlats(list: &[arnis_tiles::coord::Point]) -> Vec<(f64, f64)> {
    list.iter()
        .map(|p| (f64::from_bits(p.lon.bits), f64::from_bits(p.lat.bits)))
        .collect()
}

#[test]
fn point_in_both_byte_orders() {
    for little in [true, false] {
        let blob = wkb(1, &points(&[(11.5, -48.25)], little), little);
        match parse_wkb(&blob).unwrap() {
            Geometry::Point(p) => assert_eq!(lonlats(&[p]), vec![(11.5, -48.25)]),
            other => panic!("{other:?}"),
        }
    }
}

#[test]
fn any_order_byte_but_one_means_big_endian() {
    let mut blob = wkb(1, &points(&[(1.0, 2.0)], false), false);
    blob[0] = 7;
    assert!(matches!(parse_wkb(&blob), Ok(Geometry::Point(_))));
}

#[test]
fn linestring_in_both_byte_orders() {
    let coords = [(1.0, 2.0), (3.0, 4.0), (-5.5, 6.25)];
    for little in [true, false] {
        let blob = wkb(2, &ring(&coords, little), little);
        match parse_wkb(&blob).unwrap() {
            Geometry::LineString(list) => assert_eq!(lonlats(&list), coords.to_vec()),
            other => panic!("{other:?}"),
        }
    }
}

#[test]
fn polygon_in_both_byte_orders() {
    let outer = [(0.0, 0.0), (10.0, 0.0), (10.0, 10.0), (0.0, 0.0)];
    let hole = [(1.0, 1.0), (2.0, 1.0)];
    for little in [true, false] {
        let mut body = number(3, little);
        body.extend(ring(&outer, little));
        body.extend(ring(&[], little));
        body.extend(ring(&hole, little));
        match parse_wkb(&wkb(3, &body, little)).unwrap() {
            Geometry::Polygon(rings) => {
                assert_eq!(rings.len(), 3);
                assert_eq!(lonlats(&rings[0]), outer.to_vec());
                assert!(rings[1].is_empty());
                assert_eq!(lonlats(&rings[2]), hole.to_vec());
            }
            other => panic!("{other:?}"),
        }
    }
}

#[test]
fn empty_linestring_and_polygon() {
    assert!(matches!(parse_wkb(&wkb(2, &number(0, true), true)), Ok(Geometry::LineString(l)) if l.is_empty()));
    assert!(matches!(parse_wkb(&wkb(3, &number(0, true), true)), Ok(Geometry::Polygon(r)) if r.is_empty()));
}

#[test]
fn trailing_bytes_are_ignored() {
    let mut blob = wkb(2, &ring(&[(1.0, 2.0)], true), true);
    blob.extend([9, 9, 9]);
    match parse_wkb(&blob).unwrap() {
        Geometry::LineString(list) => assert_eq!(lonlats(&list), vec![(1.0, 2.0)]),
        other => panic!("{other:?}"),
    }
}

#[test]
fn every_error_has_an_input() {
    assert_eq!(error(parse_gpb_geometry(&[1; 7])), GeometryError::BlobTooShort);
    assert_eq!(error(parse_gpb_geometry(&header(0, 0))), GeometryError::InvalidGpb);
    assert_eq!(error(parse_gpb_geometry(&header(0b110, 32))), GeometryError::InvalidGpb);
    assert_eq!(error(parse_wkb(&[1, 1, 0, 0])), GeometryError::WkbTooShort);
    assert_eq!(
        error(parse_wkb(&wkb(4, &[], true))),
        GeometryError::UnsupportedType(4)
    );
    assert_eq!(error(parse_wkb_point(&[0; 15], true)), GeometryError::PointTooShort);
    assert_eq!(error(parse_wkb_linestring(&[0; 3], true)), GeometryError::LineStringTooShort);
    let mut short = number(2, true);
    short.extend([0; 31]);
    assert_eq!(error(parse_wkb_linestring(&short, true)), GeometryError::LineStringTruncated);
    assert_eq!(error(parse_wkb_polygon(&[0; 3], true)), GeometryError::PolygonTooShort);
    let mut rings = number(2, true);
    rings.extend(ring(&[], true));
    rings.extend([0; 3]);
    assert_eq!(error(parse_wkb_polygon(&rings, true)), GeometryError::RingCountTruncated);
    let mut cut = number(1, true);
    cut.extend(number(1, true));
    cut.extend([0; 15]);
    assert_eq!(error(parse_wkb_polygon(&cut, true)), GeometryError::PolygonTruncated);
}

#[test]
fn huge_counts_are_truncation_errors() {
    let line = wkb(2, &number(u32::MAX, false), false);
    assert_eq!(error(parse_wkb(&line)), GeometryError::LineStringTruncated);
    let polygon = wkb(3, &number(u32::MAX, true), true);
    assert_eq!(error(parse_wkb(&polygon)), GeometryError::RingCountTruncated);
}

#[test]
fn messages() {
    let cases: [(GeometryError, &str); 10] = [
        (GeometryError::BlobTooShort, "Geometry blob too short"),
        (GeometryError::InvalidGpb, "Invalid GPB geometry"),
        (GeometryError::WkbTooShort, "WKB data too short"),
        (GeometryError::UnsupportedType(1007), "Unsupported WKB geometry type: 1007"),
        (GeometryError::PointTooShort, "WKB Point data too short"),
        (GeometryError::LineStringTooShort, "WKB LineString data too short"),
        (GeometryError::LineStringTruncated, "WKB LineString point data truncated"),
        (GeometryError::PolygonTooShort, "WKB Polygon data too short"),
        (GeometryError::RingCountTruncated, "WKB Polygon ring count truncated"),
        (GeometryError::PolygonTruncated, "WKB Polygon point data truncated"),
    ];
    for (e, text) in cases {
        assert_eq!(e.message(), text);
    }
    assert_eq!(
        GeometryError::UnsupportedType(u32::MAX).message(),
        "Unsupported WKB geometry type: 4294967295"
    );
    assert_eq!(GeometryError::UnsupportedType(0).message(), "Unsupported WKB geometry type: 0");
}

#[test]
fn header_is_skipped() {
    let inner = wkb(1, &points(&[(7.0, 8.0)], true), true);
    // The envelope is there only where its flag is set; two more bits give its size.
    for (flags, envelope) in [
        (0u8, 0usize),
        (0b0010, 0),
        (0b0100, 0),
        (0b1000, 0),
        (0b1101, 0),
        (0b0110, 32),
        (0b1010, 48),
        (0b1110, 64),
        (0b1111_1111, 64),
    ] {
        let mut blob = header(flags, envelope);
        blob.extend(&inner);
        match parse_gpb_geometry(&blob).unwrap() {
            Geometry::Point(p) => assert_eq!(lonlats(&[p]), vec![(7.0, 8.0)]),
            other => panic!("{other:?}"),
        }
    }
}

#[test]
fn blob_that_ends_with_its_envelope_is_invalid() {
    for (flags, envelope) in [(0b0110u8, 32usize), (0b1010, 48), (0b1110, 64)] {
        assert_eq!(error(parse_gpb_geometry(&header(flags, envelope))), GeometryError::InvalidGpb);
        let mut longer = header(flags, envelope);
        longer.push(1);
        assert_eq!(error(parse_gpb_geometry(&longer)), GeometryError::WkbTooShort);
    }
}

#[test]
fn bare_wkb_passes_through() {
    let blob = wkb(1, &points(&[(7.0, 8.0)], false), false);
    assert!(matches!(parse_gpb_geometry(&blob), Ok(Geometry::Point(_))));
    // Eight bytes or more without the magic, but no point.
    assert_eq!(error(parse_gpb_geometry(&[1, 1, 0, 0, 0, 0, 0, 0])), GeometryError::PointTooShort);
}

#[test]
fn header_cut_short_is_recognised() {
    assert!(is_header_cut_short(b"GPB\x00\x00\xe6\x10\x00"));
    assert!(!is_header_cut_short(b"GPB\x00\x00\xe6\x10\x00\x00"));
    assert!(!is_header_cut_short(b"GPX\x00\x00\xe6\x10\x00"));
    assert!(!is_header_cut_short(b"GPB"));
}

#[test]
fn doubles_are_read_by_their_bits() {
    for value in [0.0, -0.0, 1.5, -273.15, f64::MAX, f64::INFINITY] {
        assert_eq!(read_f64(&value.to_le_bytes(), true).bits, value.to_bits());
        assert_eq!(read_f64(&value.to_be_bytes(), false).bits, value.to_bits());
    }
}

#[test]
fn vertices_are_bounded_by_the_blob() {
    let mut body = number(2, true);
    body.extend(ring(&[(0.0, 0.0), (1.0, 0.0)], true));
    body.extend(ring(&[(2.0, 2.0)], true));
    let blob = wkb(3, &body, true);
    match parse_wkb(&blob).unwrap() {
        Geometry::Polygon(rings) => {
            let vertices: usize = rings.iter().map(|r| r.len()).sum();
            assert_eq!(vertices, 3);
            assert!(16 * vertices <= blob.len());
        }
        other => panic!("{other:?}"),
    }
    assert_eq!(error(parse_wkb(&blob[..blob.len() - 1])), GeometryError::PolygonTruncated);
}
