use arnis_tiles::coord::{Coord, LLBBox, LLPoint, Point};
use arnis_tiles::geometry::Geometry;

fn c(value: f64) -> Coord {
    Coord { bits: value.to_bits() }
}

fn p(lat: f64, lon: f64) -> Point {
    Point { lat: c(lat), lon: c(lon) }
}

fn bbox(min_lat: f64, min_lng: f64, max_lat: f64, max_lng: f64) -> LLBBox {
    LLBBox {
        min: LLPoint { lat: c(min_lat), lng: c(min_lng) },
        max: LLPoint { lat: c(max_lat), lng: c(max_lng) },
    }
}

const SAMPLES: [f64; 17] = [
    0.0,
    -0.0,
    1.0,
    -1.0,
    0.5,
    -0.5,
    90.0,
    -90.0,
    179.999,
    -180.0,
    f64::MIN_POSITIVE,
    -f64::MIN_POSITIVE,
    f64::MAX,
    f64::MIN,
    f64::INFINITY,
    f64::NEG_INFINITY,
    f64::NAN,
];

#[test]
fn comparison_agrees_with_floating_point() {
    for a in SAMPLES {
        for b in SAMPLES {
            assert_eq!(c(a).at_most(c(b)), a <= b, "{a} <= {b}");
        }
    }
    let negative_nan = Coord { bits: f64::NAN.to_bits() | (1 << 63) };
    assert!(!negative_nan.at_most(c(0.0)));
    assert!(!c(0.0).at_most(negative_nan));
}

#[test]
fn minimum_and_maximum_agree_with_floating_point() {
    for a in SAMPLES {
        for b in SAMPLES {
            let low = f64::from_bits(c(a).lesser(c(b)).bits);
            let high = f64::from_bits(c(a).greater(c(b)).bits);
            assert!(low == a.min(b) || low.is_nan() && a.min(b).is_nan(), "min {a} {b}");
            assert!(high == a.max(b) || high.is_nan() && a.max(b).is_nan(), "max {a} {b}");
        }
    }
}

#[test]
fn equal_numbers_keep_the_first() {
    assert_eq!(c(-0.0).lesser(c(0.0)), c(-0.0));
    assert_eq!(c(0.0).greater(c(-0.0)), c(0.0));
}

#[test]
fn point_is_tested_with_its_edges() {
    let area = bbox(10.0, 20.0, 11.0, 21.0);
    assert!(Geometry::Point(p(10.0, 20.0)).intersects_bbox(&area));
    assert!(Geometry::Point(p(11.0, 21.0)).intersects_bbox(&area));
    assert!(Geometry::Point(p(10.5, 20.5)).intersects_bbox(&area));
    assert!(!Geometry::Point(p(9.999, 20.5)).intersects_bbox(&area));
    assert!(!Geometry::Point(p(10.5, 21.001)).intersects_bbox(&area));
    assert!(!Geometry::Point(p(f64::NAN, 20.5)).intersects_bbox(&area));
}

#[test]
fn line_is_tested_by_its_bounding_box() {
    let area = bbox(10.0, 20.0, 11.0, 21.0);
    // No vertex inside, but the bounding box of the line covers the area.
    let across = Geometry::LineString(vec![p(9.0, 19.0), p(12.0, 22.0)]);
    assert!(across.intersects_bbox(&area));
    let beside = Geometry::LineString(vec![p(9.0, 19.0), p(12.0, 19.5)]);
    assert!(!beside.intersects_bbox(&area));
}

#[test]
fn empty_and_nan_lines_meet_no_finite_box() {
    let area = bbox(-90.0, -180.0, 90.0, 180.0);
    assert!(!Geometry::LineString(vec![]).intersects_bbox(&area));
    assert!(!Geometry::LineString(vec![p(f64::NAN, 0.0)]).intersects_bbox(&area));
    assert!(Geometry::LineString(vec![p(f64::NAN, 0.0), p(1.0, f64::NAN)]).intersects_bbox(&area));
    assert!(!Geometry::Polygon(vec![]).intersects_bbox(&area));
    let all = bbox(f64::NEG_INFINITY, f64::NEG_INFINITY, f64::INFINITY, f64::INFINITY);
    assert!(Geometry::LineString(vec![]).intersects_bbox(&all));
}

#[test]
fn polygon_is_tested_by_all_of_its_rings() {
    let area = bbox(10.0, 20.0, 11.0, 21.0);
    let outer = vec![p(0.0, 0.0), p(0.0, 1.0), p(1.0, 1.0)];
    let far = vec![p(30.0, 40.0)];
    assert!(!Geometry::Polygon(vec![outer.clone()]).intersects_bbox(&area));
    assert!(Geometry::Polygon(vec![outer, far]).intersects_bbox(&area));
}

#[test]
fn vertex_inside_means_intersection() {
    let area = bbox(10.0, 20.0, 11.0, 21.0);
    let line = Geometry::LineString(vec![p(50.0, 50.0), p(10.25, 20.75)]);
    assert!(line.intersects_bbox(&area));
}

#[test]
fn larger_box_keeps_more() {
    let line = Geometry::LineString(vec![p(9.0, 19.0), p(12.0, 19.5)]);
    assert!(!line.intersects_bbox(&bbox(10.0, 20.0, 11.0, 21.0)));
    assert!(line.intersects_bbox(&bbox(10.0, 19.0, 11.0, 21.0)));
    assert!(line.intersects_bbox(&bbox(0.0, 0.0, 30.0, 30.0)));
}

#[test]
fn filtered_out_exactly_beyond_an_edge() {
    let area = bbox(10.0, 20.0, 11.0, 21.0);
    for (from, to) in [
        ((8.0, 20.5), (9.9, 20.5)),
        ((11.1, 20.5), (12.0, 20.5)),
        ((10.5, 18.0), (10.5, 19.9)),
        ((10.5, 21.1), (10.5, 22.0)),
    ] {
        let line = Geometry::LineString(vec![p(from.0, from.1), p(to.0, to.1)]);
        assert!(!line.intersects_bbox(&area), "{line:?}");
    }
    // A point with a NaN is outside even where the box is unbounded, a line is not.
    let unbounded = bbox(f64::NEG_INFINITY, 20.0, f64::INFINITY, 21.0);
    assert!(!Geometry::Point(p(f64::NAN, 20.5)).intersects_bbox(&unbounded));
    assert!(Geometry::LineString(vec![p(f64::NAN, 20.5)]).intersects_bbox(&unbounded));
}
