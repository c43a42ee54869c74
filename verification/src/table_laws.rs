//! What holds of the elements of a table as a whole.

use crate::coord::{LLBBox, Point};
use crate::geometry::{
    law_line_vertex_inside, law_point_meets_box, law_polygon_vertex_inside, GeometryView,
};
use crate::table::{
    cell_fails, columns_of, element_views, first_failure, is_data_column, row_elements, row_fails,
    row_feature, row_geometry, row_properties, row_readable, row_reached, row_views,
    rows_readable, table_elements, Cell, CellView, Columns, ElementView, OsmElement,
};
use crate::wkb::{gpb, GeometryError};
use vstd::prelude::*;

verus! {

/// Elements are numbered in their order, from `first` on.
spec fn counts_up(elements: Seq<ElementView>, first: int) -> bool {
    forall|k: int| 0 <= k < elements.len() ==> (#[trigger] elements[k]).id() == (first + k) as u64
}

/// Whether an element is a node with the given number and without tags.
pub open spec fn is_bare_node(element: ElementView, id: u64) -> bool {
    element matches ElementView::Node { id: own, tags, .. } && own == id && tags == Map::<
        Seq<char>,
        Seq<char>,
    >::empty()
}

/// The element at `k`, where it is a way, runs through the nodes that stand right before it, and
/// these carry no tags.
pub open spec fn way_follows_its_nodes(elements: Seq<ElementView>, k: int) -> bool {
    elements[k] matches ElementView::Way { nodes, .. } ==> {
        &&& nodes.len() <= k
        &&& forall|j: int|
            0 <= j < nodes.len() ==> is_bare_node(
                elements[k - nodes.len() + j],
                #[trigger] nodes[j],
            )
    }
}

/// A way follows its nodes wherever the list that both are in is put.
proof fn lemma_way_moves(
    front: Seq<ElementView>,
    part: Seq<ElementView>,
    back: Seq<ElementView>,
    k: int,
)
    requires
        0 <= k < part.len(),
        way_follows_its_nodes(part, k),
    ensures
        way_follows_its_nodes(front + part + back, front.len() + k),
{
    let all = front + part + back;
    let at = front.len() + k;
    assert(all[at] == part[k]);
    if let ElementView::Way { nodes, .. } = part[k] {
        assert forall|j: int| 0 <= j < nodes.len() implies is_bare_node(
            all[at - nodes.len() + j],
            #[trigger] nodes[j],
        ) by {
            assert(is_bare_node(part[k - nodes.len() + j], nodes[j]));
            assert(all[at - nodes.len() + j] == part[k - nodes.len() + j]);
        }
    }
}

proof fn lemma_row(
    columns: Columns,
    cells: Seq<CellView>,
    filter: Option<&LLBBox>,
    first: int,
)
    ensures
        counts_up(row_elements(columns, cells, filter, first), first),
        forall|k: int|
            0 <= k < row_elements(columns, cells, filter, first).len() ==> #[trigger]
            way_follows_its_nodes(row_elements(columns, cells, filter, first), k),
{
    let elements = row_elements(columns, cells, filter, first);
    assert forall|k: int| 0 <= k < elements.len() implies #[trigger] way_follows_its_nodes(
        elements,
        k,
    ) by {
        if let ElementView::Way { nodes, .. } = elements[k] {
            assert(k == elements.len() - 1);
            assert(nodes.len() == k);
            assert forall|j: int| 0 <= j < nodes.len() implies is_bare_node(
                elements[k - nodes.len() + j],
                #[trigger] nodes[j],
            ) by {
                assert(elements[j] is Node);
            }
        }
    }
}

/// The elements of a table are numbered 1, 2, 3 and so on, without a gap.
pub proof fn law_ids_count_up(
    columns: Columns,
    rows: Seq<Seq<CellView>>,
    filter: Option<&LLBBox>,
    k: int,
)
    requires
        k < u64::MAX,
        0 <= k < table_elements(columns, rows, filter).len(),
    ensures
        table_elements(columns, rows, filter)[k].id() == k + 1,
    decreases rows.len(),
{
    let before = table_elements(columns, rows.drop_last(), filter);
    if k < before.len() {
        law_ids_count_up(columns, rows.drop_last(), filter, k);
    } else {
        lemma_row(columns, rows.last(), filter, 1int + before.len());
        let added = row_elements(columns, rows.last(), filter, 1int + before.len());
        assert(table_elements(columns, rows, filter)[k] == added[k - before.len()]);
    }
}

/// Every way of a table runs through nodes of the same table, namely those that stand right
/// before it, in their order.
pub proof fn law_ways_follow_their_nodes(
    columns: Columns,
    rows: Seq<Seq<CellView>>,
    filter: Option<&LLBBox>,
    k: int,
)
    requires
        0 <= k < table_elements(columns, rows, filter).len(),
    ensures
        way_follows_its_nodes(table_elements(columns, rows, filter), k),
    decreases rows.len(),
{
    let before = table_elements(columns, rows.drop_last(), filter);
    let added = row_elements(columns, rows.last(), filter, 1int + before.len());
    let all = table_elements(columns, rows, filter);
    if k < before.len() {
        law_ways_follow_their_nodes(columns, rows.drop_last(), filter, k);
        lemma_way_moves(Seq::empty(), before, added, k);
        assert(Seq::empty() + before + added =~= all);
    } else {
        lemma_row(columns, rows.last(), filter, 1int + before.len());
        lemma_way_moves(before, added, Seq::empty(), k - before.len());
        assert(before + added + Seq::empty() =~= all);
    }
}

/// A table fails in one place at most: the first failing cell of the first failing row.
pub proof fn law_failure_has_one_place(
    columns: Columns,
    rows: Seq<Seq<CellView>>,
    one: (int, int),
    other: (int, int),
)
    requires
        first_failure(columns, rows, one.0, one.1),
        first_failure(columns, rows, other.0, other.1),
    ensures
        one == other,
{
    assert(row_fails(columns, rows[one.0]));
    assert(row_fails(columns, rows[other.0]));
}

/// A table gives what its drawn rows alone give without a filter: rows without a geometry, with
/// one that does not parse, or with one outside the filter leave no trace.
pub proof fn law_filter_drops_whole_rows(
    columns: Columns,
    rows: Seq<Seq<CellView>>,
    filter: Option<&LLBBox>,
)
    ensures
        table_elements(columns, rows, filter) == table_elements(
            columns,
            rows.filter(|cells: Seq<CellView>| row_feature(columns, cells, filter) is Some),
            None,
        ),
    decreases rows.len(),
{
    let drawn = |cells: Seq<CellView>| row_feature(columns, cells, filter) is Some;
    reveal_with_fuel(Seq::filter, 1);
    if rows.len() > 0 {
        let before = rows.drop_last();
        let last = rows.last();
        law_filter_drops_whole_rows(columns, before, filter);
        let kept = before.filter(drawn);
        let done = table_elements(columns, before, filter);
        if drawn(last) {
            assert(rows.filter(drawn) =~= kept.push(last));
            assert(kept.push(last).drop_last() =~= kept);
            assert(row_feature(columns, last, None) == row_feature(columns, last, filter));
        } else {
            assert(rows.filter(drawn) =~= kept);
            assert(done + Seq::<ElementView>::empty() =~= done);
        }
    }
}

/// The geometry of a row is what stands in the last column with the name of the geometry column.
pub proof fn law_geometry_by_column(columns: Columns, cells: Seq<CellView>, k: int)
    requires
        0 <= k < cells.len(),
        columns.names[k] == columns.geometry,
        forall|j: int| k < j < cells.len() ==> #[trigger] columns.names[j] != columns.geometry,
    ensures
        cells[k] matches CellView::Geometry(blob) ==> row_geometry(columns, cells) == blob,
    decreases cells.len(),
{
    if k < cells.len() - 1 {
        assert(columns.names[cells.len() - 1] != columns.geometry);
        law_geometry_by_column(columns, cells.drop_last(), k);
    }
}

/// A row without a geometry column has no geometry.
pub proof fn law_no_geometry_column(columns: Columns, cells: Seq<CellView>)
    requires
        forall|j: int| 0 <= j < cells.len() ==> #[trigger] columns.names[j] != columns.geometry,
    ensures
        row_geometry(columns, cells) is None,
    decreases cells.len(),
{
    if cells.len() > 0 {
        assert(columns.names[cells.len() - 1] != columns.geometry);
        law_no_geometry_column(columns, cells.drop_last());
    }
}

/// A row has a tag for every name under which a column other than the geometry column has a text,
/// and no other tags.
pub proof fn law_tags_by_column(columns: Columns, cells: Seq<CellView>, name: Seq<char>)
    ensures
        row_properties(columns, cells).contains_key(name) <==> name != columns.geometry && exists|
            i: int,
        |
            0 <= i < cells.len() && #[trigger] columns.names[i] == name && (
            cells[i] matches CellView::Text(text) && text is Some),
    decreases cells.len(),
{
    if cells.len() > 0 {
        let front = cells.drop_last();
        let n = cells.len() - 1;
        law_tags_by_column(columns, front, name);
        if cells[n] matches CellView::Text(text) && text is Some && columns.names[n] == name {
            assert(columns.names[n] == name);
        }
        if exists|i: int|
            0 <= i < front.len() && #[trigger] columns.names[i] == name && (
            front[i] matches CellView::Text(text) && text is Some) {
            let i = choose|i: int|
                0 <= i < front.len() && #[trigger] columns.names[i] == name && (
                front[i] matches CellView::Text(text) && text is Some);
            assert(cells[i] == front[i]);
        }
        if exists|i: int|
            0 <= i < cells.len() && #[trigger] columns.names[i] == name && (
            cells[i] matches CellView::Text(text) && text is Some) {
            let i = choose|i: int|
                0 <= i < cells.len() && #[trigger] columns.names[i] == name && (
                cells[i] matches CellView::Text(text) && text is Some);
            if i < n {
                assert(cells[i] == front[i]);
            }
        }
    }
}

/// A tag has the text of the last column of its name that has one.
pub proof fn law_tag_value(columns: Columns, cells: Seq<CellView>, i: int)
    requires
        0 <= i < cells.len(),
        columns.names[i] != columns.geometry,
        forall|j: int|
            i < j < cells.len() && #[trigger] columns.names[j] == columns.names[i] ==> !(
            cells[j] matches CellView::Text(text) && text is Some),
    ensures
        cells[i] matches CellView::Text(Some(text)) ==> row_properties(columns, cells).contains_key(
            columns.names[i],
        ) && row_properties(columns, cells)[columns.names[i]] == text,
    decreases cells.len(),
{
    let n = cells.len() - 1;
    if i < n {
        let front = cells.drop_last();
        assert forall|j: int|
            i < j < front.len() && #[trigger] columns.names[j] == columns.names[i] implies !(
        front[j] matches CellView::Text(text) && text is Some) by {
            assert(cells[j] == front[j]);
        }
        law_tag_value(columns, front, i);
        if columns.names[n] == columns.names[i] {
            assert(!(cells[n] matches CellView::Text(text) && text is Some));
        }
    }
}

/// With a filter a row is drawn exactly where its geometry parses and meets the box, of whatever
/// kind the geometry is; without a filter, exactly where it parses.
pub proof fn law_drawn_exactly_where_it_meets_the_box(
    columns: Columns,
    cells: Seq<CellView>,
    bbox: LLBBox,
    g: GeometryView,
)
    ensures
        row_feature(columns, cells, None) == Some(g) <==> (row_geometry(columns, cells) matches Some(
            blob,
        ) && gpb(blob) == Ok::<GeometryView, GeometryError>(g)),
        row_feature(columns, cells, Some(&bbox)) == Some(g) <==> row_feature(columns, cells, None)
            == Some(g) && g.intersects(bbox),
{
}

/// A row whose point, or any vertex of whose line or polygon, lies in the box is drawn.
pub proof fn law_vertex_in_the_box_is_drawn(
    columns: Columns,
    cells: Seq<CellView>,
    bbox: LLBBox,
    g: GeometryView,
    p: Point,
)
    requires
        row_feature(columns, cells, None) == Some(g),
        match g {
            GeometryView::Point(q) => p == q,
            GeometryView::LineString(points) => exists|i: int|
                0 <= i < points.len() && #[trigger] points[i] == p,
            GeometryView::Polygon(rings) => exists|r: int, i: int|
                0 <= r < rings.len() && 0 <= i < rings[r].len() && #[trigger] rings[r][i] == p,
        },
        bbox.min.lat.le(p.lat),
        p.lat.le(bbox.max.lat),
        bbox.min.lng.le(p.lon),
        p.lon.le(bbox.max.lng),
    ensures
        row_feature(columns, cells, Some(&bbox)) == Some(g),
{
    match g {
        GeometryView::Point(q) => {
            law_point_meets_box(q, bbox);
        },
        GeometryView::LineString(points) => {
            let i = choose|i: int| 0 <= i < points.len() && #[trigger] points[i] == p;
            law_line_vertex_inside(points, i, bbox);
        },
        GeometryView::Polygon(rings) => {
            let (r, i) = choose|r: int, i: int|
                0 <= r < rings.len() && 0 <= i < rings[r].len() && #[trigger] rings[r][i] == p;
            law_polygon_vertex_inside(rings, r, i, bbox);
        },
    }
}

/// A row that is not drawn gives nothing, nor does a polygon without rings.
pub proof fn law_nothing_drawn(
    columns: Columns,
    cells: Seq<CellView>,
    filter: Option<&LLBBox>,
    first: int,
)
    requires
        row_feature(columns, cells, filter) is None || row_feature(columns, cells, filter) == Some(
            GeometryView::Polygon(Seq::empty()),
        ),
    ensures
        row_elements(columns, cells, filter, first).len() == 0,
{
}

/// A point gives one node, at the place of the point and with the tags of the row.
pub proof fn law_point_becomes_a_node(
    columns: Columns,
    cells: Seq<CellView>,
    filter: Option<&LLBBox>,
    first: int,
    p: Point,
)
    requires
        row_feature(columns, cells, filter) == Some(GeometryView::Point(p)),
        0 <= first <= u64::MAX,
    ensures
        row_elements(columns, cells, filter, first).len() == 1,
        row_elements(columns, cells, filter, first)[0] matches ElementView::Node {
            id,
            lat,
            lon,
            tags,
        } && id == first && lat == p.lat && lon == p.lon && tags == row_properties(columns, cells),
{
}

/// A line, and the outer ring of a polygon, gives a node without tags at the place of each vertex,
/// in their order, and then a way through these nodes with the tags of the row. The numbers of the
/// elements follow each other.
pub proof fn law_vertices_become_nodes(
    columns: Columns,
    cells: Seq<CellView>,
    filter: Option<&LLBBox>,
    first: int,
    points: Seq<Point>,
)
    requires
        row_feature(columns, cells, filter) == Some(GeometryView::LineString(points)) || (
        row_feature(columns, cells, filter) matches Some(GeometryView::Polygon(rings))
            && rings.len() > 0 && rings[0] == points),
        0 <= first,
        first + points.len() <= u64::MAX,
    ensures
        row_elements(columns, cells, filter, first).len() == points.len() + 1,
        forall|i: int|
            0 <= i < points.len() ==> (#[trigger] row_elements(
                columns,
                cells,
                filter,
                first,
            )[i] matches ElementView::Node { id, lat, lon, tags } && id == first + i && lat
                == points[i].lat && lon == points[i].lon && tags == Map::<
                Seq<char>,
                Seq<char>,
            >::empty()),
        row_elements(columns, cells, filter, first)[points.len() as int] matches ElementView::Way {
            id,
            nodes,
            tags,
        } && id == first + points.len() && tags == row_properties(columns, cells) && nodes.len()
            == points.len() && forall|i: int|
            0 <= i < points.len() ==> #[trigger] nodes[i] == first + i,
{
}

/// A row more adds its own elements behind those of the rows before, numbered on from there, and
/// changes none of them.
pub proof fn law_table_grows_row_by_row(
    columns: Columns,
    rows: Seq<Seq<CellView>>,
    row: Seq<CellView>,
    filter: Option<&LLBBox>,
)
    ensures
        table_elements(columns, Seq::empty(), filter).len() == 0,
        ({
            let before = table_elements(columns, rows, filter);
            table_elements(columns, rows.push(row), filter) == before + row_elements(
                columns,
                row,
                filter,
                1 + before.len() as int,
            )
        }),
{
    assert(rows.push(row).drop_last() =~= rows);
}

/// A row fails exactly where a column with the name of the geometry column holds something else
/// than a geometry, and the failure that is reported is the first one, row by row and in each row
/// from the left.
pub proof fn law_which_cell_fails(
    columns: Columns,
    rows: Seq<Seq<CellView>>,
    row: int,
    column: int,
)
    requires
        0 <= row < rows.len(),
        0 <= column < rows[row].len(),
    ensures
        columns.names[column] == columns.geometry && !(rows[row][column] is Geometry) ==> row_fails(
            columns,
            rows[row],
        ) && !row_reached(columns, rows, rows.len() as int),
        first_failure(columns, rows, row, column) ==> {
            &&& columns.names[column] == columns.geometry
            &&& !(rows[row][column] is Geometry)
            &&& forall|r: int, i: int|
                0 <= r < rows.len() && 0 <= i < rows[r].len() && columns.names[i] == columns.geometry
                    && !(#[trigger] rows[r][i] is Geometry) ==> r > row || r == row && i >= column
        },
        (forall|i: int|
            0 <= i < rows[row].len() && #[trigger] columns.names[i] == columns.geometry
                ==> rows[row][i] is Geometry) ==> !row_fails(columns, rows[row]),
{
    if columns.names[column] == columns.geometry && !(rows[row][column] is Geometry) {
        assert(cell_fails(columns, rows[row], column));
        assert(row_fails(columns, rows[row]));
    }
    if first_failure(columns, rows, row, column) {
        assert forall|r: int, i: int|
            0 <= r < rows.len() && 0 <= i < rows[r].len() && columns.names[i] == columns.geometry
                && !(#[trigger] rows[r][i] is Geometry) implies r > row || r == row && i >= column by {
            assert(cell_fails(columns, rows[r], i));
            assert(row_fails(columns, rows[r]));
        }
    }
}

/// The rows that are left out are those that are wider than the table, and those whose geometry is
/// `GPB` with five bytes behind it, as far as the rows are reached.
pub proof fn law_which_rows_are_left_out(columns: Columns, rows: Seq<Seq<CellView>>)
    ensures
        (forall|i: int|
            0 <= i < rows.len() ==> (#[trigger] rows[i]).len() <= columns.names.len() && (
            row_geometry(columns, rows[i]) matches Some(blob) ==> !(blob.len() == 8 && blob[0]
                == 0x47 && blob[1] == 0x50 && blob[2] == 0x42))) ==> rows_readable(columns, rows),
        rows_readable(columns, rows) ==> forall|i: int|
            0 <= i < rows.len() && row_reached(columns, rows, i) ==> (#[trigger] rows[i]).len()
                <= columns.names.len(),
{
}

/// The columns that hold data are all but the geometry column and the key.
pub proof fn law_data_columns(name: Seq<char>, geometry_column: Seq<char>)
    ensures
        is_data_column(name, geometry_column) <==> name != geometry_column && name != "id"@,
{
}

/// What the lists hold is what their items hold, one by one.
pub proof fn law_list_views_are_faithful(
    column_names: &Vec<String>,
    geometry_column: &str,
    rows: Seq<Vec<Cell>>,
    elements: Seq<OsmElement>,
    i: int,
    j: int,
)
    ensures
        columns_of(column_names, geometry_column).geometry == geometry_column@,
        columns_of(column_names, geometry_column).names.len() == column_names@.len(),
        0 <= i < column_names@.len() ==> columns_of(column_names, geometry_column).names[i]
            == column_names@[i]@,
        row_views(rows).len() == rows.len(),
        0 <= i < rows.len() ==> row_views(rows)[i].len() == rows[i]@.len(),
        0 <= i < rows.len() && 0 <= j < rows[i]@.len() ==> row_views(rows)[i][j] == rows[i]@[j]@,
        element_views(elements).len() == elements.len(),
        0 <= i < elements.len() ==> element_views(elements)[i] == elements[i]@,
{
}

/// What a cell or an element holds is all there is to it.
pub proof fn law_views_are_faithful(cell: Cell, element: OsmElement)
    ensures
        match cell {
            Cell::Geometry(Some(blob)) => cell@ == CellView::Geometry(Some(blob@)),
            Cell::Geometry(None) => cell@ == CellView::Geometry(None),
            Cell::Text(Some(text)) => cell@ == CellView::Text(Some(text@)),
            Cell::Text(None) => cell@ == CellView::Text(None),
            Cell::Unreadable => cell@ == CellView::Unreadable,
        },
        match element {
            OsmElement::Node { id, lat, lon, tags } => element@ == (ElementView::Node {
                id,
                lat,
                lon,
                tags: tags@,
            }),
            OsmElement::Way { id, nodes, tags } => element@ == (ElementView::Way {
                id,
                nodes: nodes@,
                tags: tags@,
            }),
        },
{
}

/// A row can be processed exactly where it is no wider than the table and its geometry, unless the
/// row fails, is not `GPB` with five bytes behind it.
pub proof fn law_which_row_is_readable(columns: Columns, cells: Seq<CellView>)
    ensures
        row_readable(columns, cells) <==> cells.len() <= columns.names.len() && (row_fails(
            columns,
            cells,
        ) || !(row_geometry(columns, cells) matches Some(blob) && blob.len() == 8 && blob[0] == 0x47
            && blob[1] == 0x50 && blob[2] == 0x42)),
{
}

} // verus!
