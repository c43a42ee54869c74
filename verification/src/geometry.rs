//! Parsed geometries and the test of a geometry against a bounding box.

use crate::coord::{Coord, LLBBox, Point, INFINITY_BITS, NEG_INFINITY_BITS};
use vstd::prelude::*;

verus! {

/// The geometries that a table row can hold.
#[derive(Debug)]
pub enum Geometry {
    Point(Point),
    LineString(Vec<Point>),
    Polygon(Vec<Vec<Point>>),
}

/// What a [`Geometry`] holds, over sequences.
#[verifier::ext_equal]
pub enum GeometryView {
    Point(Point),
    LineString(Seq<Point>),
    Polygon(Seq<Seq<Point>>),
}

/// The rings of a polygon, each as a sequence of vertices.
pub open spec fn ring_views(rings: Seq<Vec<Point>>) -> Seq<Seq<Point>> {
    Seq::new(rings.len(), |i: int| rings[i]@)
}

impl View for Geometry {
    type V = GeometryView;

    open spec fn view(&self) -> GeometryView {
        match *self {
            Geometry::Point(p) => GeometryView::Point(p),
            Geometry::LineString(points) => GeometryView::LineString(points@),
            Geometry::Polygon(rings) => GeometryView::Polygon(ring_views(rings@)),
        }
    }
}

impl GeometryView {
    /// The vertices of the geometry.
    pub open spec fn vertices(self) -> Set<Point> {
        match self {
            GeometryView::Point(p) => set![p],
            GeometryView::LineString(points) => points.to_set(),
            GeometryView::Polygon(rings) => ring_vertices(rings),
        }
    }

    /// Whether the bounding box of the geometry meets `bbox`.
    ///
    /// A point is compared as it is. For the other geometries the bounding box starts out empty
    /// (from plus to minus infinity) and takes in every vertex coordinate that is not a NaN.
    pub open spec fn intersects(self, bbox: LLBBox) -> bool {
        match self {
            GeometryView::Point(p) => inside(p, bbox),
            _ => extent_meets(self.vertices(), bbox),
        }
    }
}

/// Whether a vertex lies in a box, edges included.
pub open spec fn inside(p: Point, bbox: LLBBox) -> bool {
    &&& bbox.min.lat.le(p.lat)
    &&& p.lat.le(bbox.max.lat)
    &&& bbox.min.lng.le(p.lon)
    &&& p.lon.le(bbox.max.lng)
}

/// The vertices of all rings.
pub open spec fn ring_vertices(rings: Seq<Seq<Point>>) -> Set<Point> {
    Set::new(|p: Point| exists|r: int| 0 <= r < rings.len() && (#[trigger] rings[r]).contains(p))
}

/// Whether some vertex lies at or north of the south edge, some at or south of the north edge,
/// some at or east of the west edge and some at or west of the east edge. An edge at infinity is
/// met by the empty extent.
pub open spec fn extent_meets(vertices: Set<Point>, bbox: LLBBox) -> bool {
    &&& bbox.min.lat.le(Coord::neg_inf()) || exists|p: Point| #[trigger]
        vertices.contains(p) && bbox.min.lat.le(p.lat)
    &&& Coord::pos_inf().le(bbox.max.lat) || exists|p: Point| #[trigger]
        vertices.contains(p) && p.lat.le(bbox.max.lat)
    &&& bbox.min.lng.le(Coord::neg_inf()) || exists|p: Point| #[trigger]
        vertices.contains(p) && bbox.min.lng.le(p.lon)
    &&& Coord::pos_inf().le(bbox.max.lng) || exists|p: Point| #[trigger]
        vertices.contains(p) && p.lon.le(bbox.max.lng)
}

/// The running bounding box of the vertices seen so far.
struct Extent {
    min_lat: Coord,
    min_lon: Coord,
    max_lat: Coord,
    max_lon: Coord,
}

impl Extent {
    /// The box is the smallest one around the coordinates of `seen` that are not NaN.
    spec fn spans(self, seen: Set<Point>) -> bool {
        &&& !self.min_lat.is_nan()
        &&& !self.min_lon.is_nan()
        &&& !self.max_lat.is_nan()
        &&& !self.max_lon.is_nan()
        &&& self.min_lat == Coord::pos_inf() || exists|p: Point| #[trigger]
            seen.contains(p) && p.lat == self.min_lat
        &&& self.min_lon == Coord::pos_inf() || exists|p: Point| #[trigger]
            seen.contains(p) && p.lon == self.min_lon
        &&& self.max_lat == Coord::neg_inf() || exists|p: Point| #[trigger]
            seen.contains(p) && p.lat == self.max_lat
        &&& self.max_lon == Coord::neg_inf() || exists|p: Point| #[trigger]
            seen.contains(p) && p.lon == self.max_lon
        &&& self.min_lat.le(Coord::pos_inf())
        &&& self.min_lon.le(Coord::pos_inf())
        &&& Coord::neg_inf().le(self.max_lat)
        &&& Coord::neg_inf().le(self.max_lon)
        &&& forall|p: Point| #[trigger]
            seen.contains(p) ==> {
                &&& !p.lat.is_nan() ==> self.min_lat.le(p.lat) && p.lat.le(self.max_lat)
                &&& !p.lon.is_nan() ==> self.min_lon.le(p.lon) && p.lon.le(self.max_lon)
            }
    }

    fn empty() -> (r: Extent)
        ensures
            r.spans(Set::empty()),
    {
        let inf = Coord { bits: INFINITY_BITS };
        let neg_inf = Coord { bits: NEG_INFINITY_BITS };
        Extent { min_lat: inf, min_lon: inf, max_lat: neg_inf, max_lon: neg_inf }
    }

    fn cover(self, p: Point, Ghost(seen): Ghost<Set<Point>>) -> (r: Extent)
        requires
            self.spans(seen),
        ensures
            r.spans(seen.insert(p)),
    {
        let r = Extent {
            min_lat: self.min_lat.lesser(p.lat),
            min_lon: self.min_lon.lesser(p.lon),
            max_lat: self.max_lat.greater(p.lat),
            max_lon: self.max_lon.greater(p.lon),
        };
        proof {
            let now = seen.insert(p);
            assert(now.contains(p));
            assert(forall|q: Point| #[trigger] seen.contains(q) ==> now.contains(q));
            assert(forall|q: Point| #[trigger] now.contains(q) ==> q == p || seen.contains(q));
        }
        r
    }

    /// Takes in the vertices of one ring.
    fn cover_all(self, points: &Vec<Point>, Ghost(seen): Ghost<Set<Point>>) -> (r: Extent)
        requires
            self.spans(seen),
        ensures
            r.spans(seen.union(points@.to_set())),
    {
        let mut ext = self;
        let mut i: usize = 0;
        proof {
            assert(points@.take(0).to_set() =~= Set::empty());
            assert(seen.union(points@.take(0).to_set()) =~= seen);
        }
        while i < points.len()
            invariant
                i <= points.len(),
                ext.spans(seen.union(points@.take(i as int).to_set())),
            decreases points.len() - i,
        {
            let ghost before = seen.union(points@.take(i as int).to_set());
            ext = ext.cover(points[i], Ghost(before));
            proof {
                assert(points@.take(i + 1) =~= points@.take(i as int).push(points@[i as int]));
                points@.take(i as int).lemma_push_to_set_commute(points@[i as int]);
                assert(before.insert(points@[i as int]) =~= seen.union(
                    points@.take(i + 1).to_set(),
                ));
            }
            i += 1;
        }
        proof {
            assert(points@.take(points@.len() as int) =~= points@);
        }
        ext
    }

    fn meets(&self, bbox: &LLBBox, Ghost(seen): Ghost<Set<Point>>) -> (r: bool)
        requires
            self.spans(seen),
        ensures
            r == extent_meets(seen, *bbox),
    {
        bbox.min.lat.at_most(self.max_lat) && self.min_lat.at_most(bbox.max.lat)
            && bbox.min.lng.at_most(self.max_lon) && self.min_lon.at_most(bbox.max.lng)
    }
}

impl Geometry {
    /// Whether the bounding box of the geometry and `bbox` have a point in common.
    pub fn intersects_bbox(&self, bbox: &LLBBox) -> (r: bool)
        ensures
            r == self@.intersects(*bbox),
    {
        match self {
            Geometry::Point(p) => {
                bbox.min.lat.at_most(p.lat) && p.lat.at_most(bbox.max.lat) && bbox.min.lng.at_most(
                    p.lon,
                ) && p.lon.at_most(bbox.max.lng)
            },
            Geometry::LineString(points) => {
                let none = Extent::empty();
                let ext = none.cover_all(points, Ghost(Set::empty()));
                proof {
                    assert(Set::empty().union(points@.to_set()) =~= points@.to_set());
                }
                ext.meets(bbox, Ghost(points@.to_set()))
            },
            Geometry::Polygon(rings) => {
                let ghost views = ring_views(rings@);
                let mut ext = Extent::empty();
                let mut i: usize = 0;
                proof {
                    assert(ring_vertices(views.take(0)) =~= Set::empty());
                }
                while i < rings.len()
                    invariant
                        i <= rings.len(),
                        views == ring_views(rings@),
                        ext.spans(ring_vertices(views.take(i as int))),
                    decreases rings.len() - i,
                {
                    let ghost before = ring_vertices(views.take(i as int));
                    ext = ext.cover_all(&rings[i], Ghost(before));
                    proof {
                        lemma_ring_vertices_step(views, i as int);
                    }
                    i += 1;
                }
                proof {
                    assert(views.take(views.len() as int) =~= views);
                }
                ext.meets(bbox, Ghost(ring_vertices(views)))
            },
        }
    }
}

proof fn lemma_ring_vertices_step(rings: Seq<Seq<Point>>, i: int)
    requires
        0 <= i < rings.len(),
    ensures
        ring_vertices(rings.take(i)).union(rings[i].to_set()) == ring_vertices(rings.take(i + 1)),
{
    let old_set = ring_vertices(rings.take(i));
    let new_set = ring_vertices(rings.take(i + 1));
    assert forall|p: Point| old_set.union(rings[i].to_set()).contains(p) == new_set.contains(p) by {
        if old_set.contains(p) {
            let r = choose|r: int|
                0 <= r < rings.take(i).len() && (#[trigger] rings.take(i)[r]).contains(p);
            assert(rings.take(i + 1)[r].contains(p));
        }
        if rings[i].to_set().contains(p) {
            assert(rings.take(i + 1)[i].contains(p));
        }
        if new_set.contains(p) {
            let r = choose|r: int|
                0 <= r < rings.take(i + 1).len() && (#[trigger] rings.take(i + 1)[r]).contains(p);
            if r < i {
                assert(rings.take(i)[r].contains(p));
            } else {
                assert(rings[i].contains(p));
            }
        }
    }
    assert(old_set.union(rings[i].to_set()) =~= new_set);
}

/// A geometry with a vertex in the box is never filtered out.
pub proof fn law_vertex_inside_means_intersection(g: GeometryView, p: Point, bbox: LLBBox)
    requires
        g.vertices().contains(p),
        inside(p, bbox),
    ensures
        g.intersects(bbox),
{
}

/// What meets a box meets every box around it.
pub proof fn law_larger_box_keeps_more(g: GeometryView, bbox: LLBBox, larger: LLBBox)
    requires
        larger.min.lat.le(bbox.min.lat),
        larger.min.lng.le(bbox.min.lng),
        bbox.max.lat.le(larger.max.lat),
        bbox.max.lng.le(larger.max.lng),
        g.intersects(bbox),
    ensures
        g.intersects(larger),
{
}

/// Whether no vertex of `g` reaches the south edge of the box. Only a point can fail to reach an
/// edge at infinity: the empty extent of another geometry meets it.
pub open spec fn all_south_of(g: GeometryView, bbox: LLBBox) -> bool {
    &&& g is Point || !bbox.min.lat.le(Coord::neg_inf())
    &&& forall|p: Point| #[trigger] g.vertices().contains(p) ==> !bbox.min.lat.le(p.lat)
}

/// Whether no vertex of `g` reaches the north edge of the box, as in [`all_south_of`].
pub open spec fn all_north_of(g: GeometryView, bbox: LLBBox) -> bool {
    &&& g is Point || !Coord::pos_inf().le(bbox.max.lat)
    &&& forall|p: Point| #[trigger] g.vertices().contains(p) ==> !p.lat.le(bbox.max.lat)
}

/// Whether no vertex of `g` reaches the west edge of the box, as in [`all_south_of`].
pub open spec fn all_west_of(g: GeometryView, bbox: LLBBox) -> bool {
    &&& g is Point || !bbox.min.lng.le(Coord::neg_inf())
    &&& forall|p: Point| #[trigger] g.vertices().contains(p) ==> !bbox.min.lng.le(p.lon)
}

/// Whether no vertex of `g` reaches the east edge of the box, as in [`all_south_of`].
pub open spec fn all_east_of(g: GeometryView, bbox: LLBBox) -> bool {
    &&& g is Point || !Coord::pos_inf().le(bbox.max.lng)
    &&& forall|p: Point| #[trigger] g.vertices().contains(p) ==> !p.lon.le(bbox.max.lng)
}

/// A geometry is filtered out exactly where it lies wholly beyond one edge of the box.
pub proof fn law_filtered_out_exactly_beyond_an_edge(g: GeometryView, bbox: LLBBox)
    ensures
        !g.intersects(bbox) <==> all_south_of(g, bbox) || all_north_of(g, bbox) || all_west_of(
            g,
            bbox,
        ) || all_east_of(g, bbox),
{
    if let GeometryView::Point(p) = g {
        assert(g.vertices().contains(p));
    }
}

/// A point meets a box exactly where it lies in it, edges included.
pub proof fn law_point_meets_box(p: Point, bbox: LLBBox)
    ensures
        GeometryView::Point(p).intersects(bbox) <==> bbox.min.lat.le(p.lat) && p.lat.le(
            bbox.max.lat,
        ) && bbox.min.lng.le(p.lon) && p.lon.le(bbox.max.lng),
{
}

/// A line with any of its vertices in a box meets the box.
pub proof fn law_line_vertex_inside(points: Seq<Point>, i: int, bbox: LLBBox)
    requires
        0 <= i < points.len(),
        bbox.min.lat.le(points[i].lat),
        points[i].lat.le(bbox.max.lat),
        bbox.min.lng.le(points[i].lon),
        points[i].lon.le(bbox.max.lng),
    ensures
        GeometryView::LineString(points).intersects(bbox),
{
    assert(points.to_set().contains(points[i]));
}

/// A polygon with any vertex of any of its rings in a box meets the box.
pub proof fn law_polygon_vertex_inside(rings: Seq<Seq<Point>>, r: int, i: int, bbox: LLBBox)
    requires
        0 <= r < rings.len(),
        0 <= i < rings[r].len(),
        bbox.min.lat.le(rings[r][i].lat),
        rings[r][i].lat.le(bbox.max.lat),
        bbox.min.lng.le(rings[r][i].lon),
        rings[r][i].lon.le(bbox.max.lng),
    ensures
        GeometryView::Polygon(rings).intersects(bbox),
{
    assert(rings[r].contains(rings[r][i]));
    assert(ring_vertices(rings).contains(rings[r][i]));
}

/// A line misses a box exactly where all of its vertices lie beyond the same edge. A vertex whose
/// coordinate is a NaN reaches no edge, and an edge at infinity is missed by none.
pub proof fn law_line_misses_box(points: Seq<Point>, bbox: LLBBox)
    ensures
        !GeometryView::LineString(points).intersects(bbox) <==> {
            ||| !bbox.min.lat.le((Coord { bits: 0xfff0_0000_0000_0000 })) && forall|i: int|
                0 <= i < points.len() ==> !bbox.min.lat.le((#[trigger] points[i]).lat)
            ||| !(Coord { bits: 0x7ff0_0000_0000_0000 }).le(bbox.max.lat) && forall|i: int|
                0 <= i < points.len() ==> !(#[trigger] points[i]).lat.le(bbox.max.lat)
            ||| !bbox.min.lng.le((Coord { bits: 0xfff0_0000_0000_0000 })) && forall|i: int|
                0 <= i < points.len() ==> !bbox.min.lng.le((#[trigger] points[i]).lon)
            ||| !(Coord { bits: 0x7ff0_0000_0000_0000 }).le(bbox.max.lng) && forall|i: int|
                0 <= i < points.len() ==> !(#[trigger] points[i]).lon.le(bbox.max.lng)
        },
{
    let all = points.to_set();
    assert forall|i: int| 0 <= i < points.len() implies all.contains(#[trigger] points[i]) by {}
    assert forall|p: Point| #[trigger] all.contains(p) implies exists|i: int|
        0 <= i < points.len() && #[trigger] points[i] == p by {}
}

/// A polygon meets a box exactly where the line through all the vertices of its rings does.
pub proof fn law_polygon_meets_box_as_its_vertices_do(rings: Seq<Seq<Point>>, bbox: LLBBox)
    ensures
        GeometryView::Polygon(rings).intersects(bbox) <==> GeometryView::LineString(
            rings.flatten(),
        ).intersects(bbox),
{
    lemma_flatten_vertices(rings);
}

proof fn lemma_flatten_vertices(rings: Seq<Seq<Point>>)
    ensures
        ring_vertices(rings) =~= rings.flatten().to_set(),
    decreases rings.len(),
{
    if rings.len() > 0 {
        let rest = rings.drop_first();
        lemma_flatten_vertices(rest);
        assert(rings.flatten() == rings[0] + rest.flatten());
        assert forall|p: Point| ring_vertices(rings).contains(p) == rings.flatten().to_set().contains(
            p,
        ) by {
            if ring_vertices(rings).contains(p) {
                let r = choose|r: int|
                    0 <= r < rings.len() && (#[trigger] rings[r]).contains(p);
                if r == 0 {
                    let k = choose|k: int| 0 <= k < rings[0].len() && rings[0][k] == p;
                    assert(rings.flatten()[k] == p);
                } else {
                    assert(rest[r - 1].contains(p));
                    assert(ring_vertices(rest).contains(p));
                    let k = choose|k: int|
                        0 <= k < rest.flatten().len() && rest.flatten()[k] == p;
                    assert(rings.flatten()[rings[0].len() + k] == p);
                }
            }
            if rings.flatten().contains(p) {
                let k = choose|k: int| 0 <= k < rings.flatten().len() && rings.flatten()[k] == p;
                if k < rings[0].len() {
                    assert(rings[0][k] == p);
                    assert(rings[0].contains(p));
                } else {
                    assert(rest.flatten()[k - rings[0].len()] == p);
                    assert(rest.flatten().to_set().contains(p));
                    assert(ring_vertices(rest).contains(p));
                    let r = choose|r: int|
                        0 <= r < rest.len() && (#[trigger] rest[r]).contains(p);
                    assert(rings[r + 1].contains(p));
                }
            }
        }
    }
}

/// What a geometry holds is all there is to it, vertex by vertex.
pub proof fn law_geometry_view_is_faithful(g: Geometry)
    ensures
        g matches Geometry::Point(p) ==> g@ == GeometryView::Point(p),
        g matches Geometry::LineString(points) ==> g@ == GeometryView::LineString(points@),
        g matches Geometry::Polygon(rings) ==> (g@ matches GeometryView::Polygon(views)
            && views.len() == rings@.len() && forall|i: int|
            0 <= i < views.len() ==> #[trigger] views[i] == rings@[i]@),
{
}

} // verus!
