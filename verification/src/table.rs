//! Feature tables: from the rows of a table to map elements.

use crate::coord::{Coord, LLBBox, Point};
use crate::geometry::{Geometry, GeometryView};
use crate::tags::Tags;
use crate::text::same_text;
use crate::wkb::{gpb, header_cut_short, is_header_cut_short, parse_gpb_geometry};
use vstd::prelude::*;

verus! {

/// What was read from a column of a row.
#[derive(Debug)]
pub enum Cell {
    /// The geometry column: its bytes, or nothing where it is null.
    Geometry(Option<Vec<u8>>),
    /// Another column, read as text: the text, or nothing where it is null.
    Text(Option<String>),
    /// The geometry column where it holds something else than bytes, or another column that cannot
    /// be read as text.
    Unreadable,
}

/// What a [`Cell`] holds.
pub enum CellView {
    Geometry(Option<Seq<u8>>),
    Text(Option<Seq<char>>),
    Unreadable,
}

impl View for Cell {
    type V = CellView;

    open spec fn view(&self) -> CellView {
        match *self {
            Cell::Geometry(Some(blob)) => CellView::Geometry(Some(blob@)),
            Cell::Geometry(None) => CellView::Geometry(None),
            Cell::Text(Some(text)) => CellView::Text(Some(text@)),
            Cell::Text(None) => CellView::Text(None),
            Cell::Unreadable => CellView::Unreadable,
        }
    }
}

/// A map element.
#[derive(Debug)]
pub enum OsmElement {
    Node { id: u64, lat: Coord, lon: Coord, tags: Tags },
    Way { id: u64, nodes: Vec<u64>, tags: Tags },
}

/// What an [`OsmElement`] holds.
#[verifier::ext_equal]
pub enum ElementView {
    Node { id: u64, lat: Coord, lon: Coord, tags: Map<Seq<char>, Seq<char>> },
    Way { id: u64, nodes: Seq<u64>, tags: Map<Seq<char>, Seq<char>> },
}

impl ElementView {
    pub open spec fn id(self) -> u64 {
        match self {
            ElementView::Node { id, .. } => id,
            ElementView::Way { id, .. } => id,
        }
    }
}

impl View for OsmElement {
    type V = ElementView;

    open spec fn view(&self) -> ElementView {
        match *self {
            OsmElement::Node { id, lat, lon, tags } => ElementView::Node {
                id,
                lat,
                lon,
                tags: tags@,
            },
            OsmElement::Way { id, nodes, tags } => ElementView::Way {
                id,
                nodes: nodes@,
                tags: tags@,
            },
        }
    }
}

impl OsmElement {
    /// The tags have each key once.
    pub open spec fn wf(self) -> bool {
        match self {
            OsmElement::Node { tags, .. } => tags.wf(),
            OsmElement::Way { tags, .. } => tags.wf(),
        }
    }
}

/// What the elements of a list hold.
pub open spec fn element_views(elements: Seq<OsmElement>) -> Seq<ElementView> {
    Seq::new(elements.len(), |i: int| elements[i]@)
}

/// Whether all elements of a list have well-formed tags.
pub open spec fn elements_wf(elements: Seq<OsmElement>) -> bool {
    forall|i: int| 0 <= i < elements.len() ==> (#[trigger] elements[i]).wf()
}

/// What the texts of a list hold.
pub open spec fn text_views(texts: Seq<String>) -> Seq<Seq<char>> {
    Seq::new(texts.len(), |i: int| texts[i]@)
}

/// What the cells of a row hold.
pub open spec fn cell_views(cells: Seq<Cell>) -> Seq<CellView> {
    Seq::new(cells.len(), |i: int| cells[i]@)
}

/// What the rows of a table hold.
pub open spec fn row_views(rows: Seq<Vec<Cell>>) -> Seq<Seq<CellView>> {
    Seq::new(rows.len(), |i: int| cell_views(rows[i]@))
}

/// The columns of a table: their names, and the name of the one that holds the geometry.
pub struct Columns {
    pub names: Seq<Seq<char>>,
    pub geometry: Seq<char>,
}

/// The columns with the given names.
pub open spec fn columns_of(column_names: &Vec<String>, geometry_column: &str) -> Columns {
    Columns { names: text_views(column_names@), geometry: geometry_column@ }
}

/// Whether the cell at `i` makes the row fail: it is in the geometry column, and was not read as a
/// geometry.
pub open spec fn cell_fails(columns: Columns, cells: Seq<CellView>, i: int) -> bool {
    &&& 0 <= i < cells.len()
    &&& columns.names[i] == columns.geometry
    &&& !(cells[i] is Geometry)
}

/// Whether some cell makes the row fail.
pub open spec fn row_fails(columns: Columns, cells: Seq<CellView>) -> bool {
    exists|i: int| cell_fails(columns, cells, i)
}

/// Whether no row before the one at `row` fails, so that the rows are processed up to it.
pub open spec fn row_reached(columns: Columns, rows: Seq<Seq<CellView>>, row: int) -> bool {
    forall|k: int| 0 <= k < row ==> !row_fails(columns, #[trigger] rows[k])
}

/// Whether the first failing row is the one at `row`, with its first failing cell at `column`.
pub open spec fn first_failure(
    columns: Columns,
    rows: Seq<Seq<CellView>>,
    row: int,
    column: int,
) -> bool {
    &&& 0 <= row < rows.len()
    &&& row_reached(columns, rows, row)
    &&& cell_fails(columns, rows[row], column)
    &&& forall|i: int| 0 <= i < column ==> !cell_fails(columns, rows[row], i)
}

/// The geometry of a row: the bytes in the geometry column, in the last one where several columns
/// have its name.
pub open spec fn row_geometry(columns: Columns, cells: Seq<CellView>) -> Option<Seq<u8>>
    decreases cells.len(),
{
    if cells.len() == 0 {
        None
    } else if columns.names[cells.len() - 1] == columns.geometry {
        match cells.last() {
            CellView::Geometry(blob) => blob,
            _ => None,
        }
    } else {
        row_geometry(columns, cells.drop_last())
    }
}

/// The tags of a row: every column with a text but the geometry column. Of columns with the same
/// name the last one with a text counts.
pub open spec fn row_properties(columns: Columns, cells: Seq<CellView>) -> Map<
    Seq<char>,
    Seq<char>,
>
    decreases cells.len(),
{
    if cells.len() == 0 {
        Map::empty()
    } else {
        let before = row_properties(columns, cells.drop_last());
        let name = columns.names[cells.len() - 1];
        match cells.last() {
            CellView::Text(Some(text)) => if name == columns.geometry {
                before
            } else {
                before.insert(name, text)
            },
            _ => before,
        }
    }
}

/// The numbers from `first` on.
pub open spec fn id_run(first: int, n: nat) -> Seq<u64> {
    Seq::new(n, |i: int| (first + i) as u64)
}

/// A node without tags for every vertex.
pub open spec fn vertex_nodes(points: Seq<Point>, first: int) -> Seq<ElementView> {
    Seq::new(
        points.len(),
        |i: int|
            ElementView::Node {
                id: (first + i) as u64,
                lat: points[i].lat,
                lon: points[i].lon,
                tags: Map::empty(),
            },
    )
}

/// The nodes of a line and then the way through them, which has the tags.
pub open spec fn line_elements(
    points: Seq<Point>,
    tags: Map<Seq<char>, Seq<char>>,
    first: int,
) -> Seq<ElementView> {
    vertex_nodes(points, first).push(
        ElementView::Way {
            id: (first + points.len()) as u64,
            nodes: id_run(first, points.len()),
            tags,
        },
    )
}

/// The elements of a feature, numbered from `first` on. A polygon is drawn by its outer ring.
pub open spec fn feature_elements(
    g: GeometryView,
    tags: Map<Seq<char>, Seq<char>>,
    first: int,
) -> Seq<ElementView> {
    match g {
        GeometryView::Point(p) => seq![
            ElementView::Node { id: first as u64, lat: p.lat, lon: p.lon, tags },
        ],
        GeometryView::LineString(points) => line_elements(points, tags, first),
        GeometryView::Polygon(rings) => if rings.len() > 0 {
            line_elements(rings[0], tags, first)
        } else {
            Seq::empty()
        },
    }
}

/// The geometry of a row that is drawn: one that parses and that the filter does not drop.
pub open spec fn row_feature(
    columns: Columns,
    cells: Seq<CellView>,
    filter: Option<&LLBBox>,
) -> Option<GeometryView> {
    match row_geometry(columns, cells) {
        Some(blob) => match gpb(blob) {
            Ok(g) => match filter {
                Some(bbox) => if g.intersects(*bbox) {
                    Some(g)
                } else {
                    None
                },
                None => Some(g),
            },
            Err(_) => None,
        },
        None => None,
    }
}

/// The elements of a row, numbered from `first` on.
pub open spec fn row_elements(
    columns: Columns,
    cells: Seq<CellView>,
    filter: Option<&LLBBox>,
    first: int,
) -> Seq<ElementView> {
    match row_feature(columns, cells, filter) {
        Some(g) => feature_elements(g, row_properties(columns, cells), first),
        None => Seq::empty(),
    }
}

/// The elements of a table, numbered from 1 on.
pub open spec fn table_elements(
    columns: Columns,
    rows: Seq<Seq<CellView>>,
    filter: Option<&LLBBox>,
) -> Seq<ElementView>
    decreases rows.len(),
{
    if rows.len() == 0 {
        Seq::empty()
    } else {
        let before = table_elements(columns, rows.drop_last(), filter);
        before + row_elements(columns, rows.last(), filter, 1int + before.len())
    }
}

/// Whether a row can be processed: every cell has a column, and the geometry, unless the row
/// fails, does not end inside the header.
pub open spec fn row_readable(columns: Columns, cells: Seq<CellView>) -> bool {
    &&& cells.len() <= columns.names.len()
    &&& row_fails(columns, cells) || (row_geometry(columns, cells) matches Some(blob)
        ==> !header_cut_short(blob))
}

/// Why a table cannot be processed to its end.
#[derive(Clone, Copy, Debug, PartialEq, Eq, Structural)]
pub enum TableError {
    /// The table has no geometry column.
    NoGeometryColumn,
    /// The geometry column of a row, at the given place, holds something else than bytes.
    UnreadableGeometry { row: usize, column: usize },
}

/// The statement that reads a table.
pub fn table_query(table_name: &str) -> (r: String)
    ensures
        r@ == "SELECT * FROM "@ + table_name@,
{
    let mut query = String::from_str("SELECT * FROM ");
    query.append(table_name);
    query
}

/// The statement that lists the columns of a table.
pub fn table_info_query(table_name: &str) -> (r: String)
    ensures
        r@ == "PRAGMA table_info("@ + table_name@ + ")"@,
{
    let mut query = String::from_str("PRAGMA table_info(");
    query.append(table_name);
    query.append(")");
    query
}

/// Whether a column holds data: it is neither the geometry column nor the key.
pub open spec fn is_data_column(name: Seq<char>, geometry_column: Seq<char>) -> bool {
    name != geometry_column && name != "id"@
}

/// Picks the data columns out of all columns of a table, in their order.
pub fn get_data_columns(columns: &Vec<String>, geometry_column: &str) -> (r: Vec<String>)
    ensures
        text_views(r@) == text_views(columns@).filter(
            |name: Seq<char>| is_data_column(name, geometry_column@),
        ),
{
    let ghost names = text_views(columns@);
    let ghost keep = |name: Seq<char>| is_data_column(name, geometry_column@);
    let mut picked: Vec<String> = Vec::new();
    let mut i: usize = 0;
    proof {
        reveal_with_fuel(Seq::filter, 1);
        assert(text_views(picked@) =~= names.take(0).filter(keep));
    }
    while i < columns.len()
        invariant
            i <= columns.len(),
            names == text_views(columns@),
            keep == (|name: Seq<char>| is_data_column(name, geometry_column@)),
            text_views(picked@) == names.take(i as int).filter(keep),
        decreases columns.len() - i,
    {
        let ghost before = picked@;
        proof {
            reveal_with_fuel(Seq::filter, 1);
            assert(names.take(i + 1).drop_last() =~= names.take(i as int));
            assert(names.take(i + 1).last() == columns@[i as int]@);
        }
        let name: &str = columns[i].as_str();
        if !same_text(name, geometry_column) && !same_text(name, "id") {
            picked.push(columns[i].clone());
            proof {
                assert(text_views(picked@) =~= text_views(before).push(columns@[i as int]@));
            }
        }
        i += 1;
    }
    proof {
        assert(names.take(names.len() as int) =~= names);
    }
    picked
}

/// Whether a column is the geometry column.
pub fn is_geometry_column(col_name: &str, geometry_column: &str) -> (r: bool)
    ensures
        r == (col_name@ == geometry_column@),
{
    same_text(col_name, geometry_column)
}

/// The bytes in the geometry column of a row.
fn find_geometry<'a>(
    column_names: &Vec<String>,
    geometry_column: &str,
    cells: &'a Vec<Cell>,
) -> (r: Option<&'a Vec<u8>>)
    requires
        cells@.len() <= column_names@.len(),
    ensures
        row_geometry(columns_of(column_names, geometry_column), cell_views(cells@)) == match r {
            Some(blob) => Some(blob@),
            None => None,
        },
{
    let ghost columns = columns_of(column_names, geometry_column);
    let ghost views = cell_views(cells@);
    let mut i: usize = cells.len();
    proof {
        assert(views.take(i as int) =~= views);
    }
    while i > 0
        invariant
            i <= cells.len() <= column_names.len(),
            columns == columns_of(column_names, geometry_column),
            views == cell_views(cells@),
            row_geometry(columns, views.take(i as int)) == row_geometry(columns, views),
        decreases i,
    {
        proof {
            assert(views.take(i as int).drop_last() =~= views.take(i - 1));
            assert(views.take(i as int).last() == cells@[i - 1]@);
        }
        if same_text(column_names[i - 1].as_str(), geometry_column) {
            return match &cells[i - 1] {
                Cell::Geometry(Some(blob)) => Some(blob),
                _ => None,
            };
        }
        i -= 1;
    }
    None
}

/// The place of the first cell that makes a row fail.
fn find_failing_cell(
    column_names: &Vec<String>,
    geometry_column: &str,
    cells: &Vec<Cell>,
) -> (r: Option<usize>)
    requires
        cells@.len() <= column_names@.len(),
    ensures
        match r {
            Some(k) => {
                &&& cell_fails(
                    columns_of(column_names, geometry_column),
                    cell_views(cells@),
                    k as int,
                )
                &&& forall|i: int|
                    0 <= i < k ==> !cell_fails(
                        columns_of(column_names, geometry_column),
                        cell_views(cells@),
                        i,
                    )
            },
            None => !row_fails(columns_of(column_names, geometry_column), cell_views(cells@)),
        },
{
    let ghost columns = columns_of(column_names, geometry_column);
    let ghost views = cell_views(cells@);
    let mut i: usize = 0;
    while i < cells.len()
        invariant
            i <= cells.len() <= column_names.len(),
            columns == columns_of(column_names, geometry_column),
            views == cell_views(cells@),
            forall|j: int| 0 <= j < i ==> !cell_fails(columns, views, j),
        decreases cells.len() - i,
    {
        let is_geometry = matches!(&cells[i], Cell::Geometry(_));
        assert(views[i as int] is Geometry == is_geometry);
        if !is_geometry && same_text(column_names[i].as_str(), geometry_column) {
            return Some(i);
        }
        i += 1;
    }
    None
}

/// Whether [`process_table`] can take a row.
pub fn is_row_readable(
    column_names: &Vec<String>,
    geometry_column: &str,
    cells: &Vec<Cell>,
) -> (r: bool)
    ensures
        r == row_readable(columns_of(column_names, geometry_column), cell_views(cells@)),
{
    if cells.len() > column_names.len() {
        return false;
    }
    if let Some(_) = find_failing_cell(column_names, geometry_column, cells) {
        return true;
    }
    match find_geometry(column_names, geometry_column, cells) {
        Some(blob) => !is_header_cut_short(blob.as_slice()),
        None => true,
    }
}

/// Collects the tags of a row.
fn collect_properties(
    column_names: &Vec<String>,
    geometry_column: &str,
    cells: &Vec<Cell>,
) -> (r: Tags)
    requires
        cells@.len() <= column_names@.len(),
    ensures
        r.wf(),
        r@ == row_properties(columns_of(column_names, geometry_column), cell_views(cells@)),
{
    let mut properties = Tags::new();
    let ghost columns = columns_of(column_names, geometry_column);
    let ghost views = cell_views(cells@);
    let mut i: usize = 0;
    while i < cells.len()
        invariant
            i <= cells.len() <= column_names.len(),
            columns == columns_of(column_names, geometry_column),
            views == cell_views(cells@),
            properties.wf(),
            properties@ == row_properties(columns, views.take(i as int)),
        decreases cells.len() - i,
    {
        proof {
            assert(views.take(i + 1).drop_last() =~= views.take(i as int));
            assert(views.take(i + 1).last() == cells@[i as int]@);
        }
        if let Cell::Text(Some(text)) = &cells[i] {
            if !same_text(column_names[i].as_str(), geometry_column) {
                properties.insert(column_names[i].clone(), text.clone());
            }
        }
        i += 1;
    }
    proof {
        assert(views.take(views.len() as int) =~= views);
    }
    properties
}

/// Appends an element with the number behind `last_id`, and gives that number back. As many
/// elements as `last_id` says are in the list already, so the number does not wrap around: the
/// length of the list would have done so first.
fn push_element(element: OsmElement, last_id: u64, elements: &mut Vec<OsmElement>) -> (r: u64)
    requires
        element.wf(),
        elements_wf(old(elements)@),
        last_id <= old(elements)@.len(),
    ensures
        r == last_id + 1,
        r <= final(elements)@.len(),
        elements_wf(final(elements)@),
        element_views(final(elements)@) == element_views(old(elements)@).push(element@),
{
    proof {
        lemma_push_element(elements@, element);
    }
    elements.push(element);
    assert(elements.len() == elements@.len());
    last_id + 1
}

/// Appends the nodes of a line and the way through them, numbered behind `last_id`. Gives back the
/// last number used.
fn push_line(
    points: &Vec<Point>,
    properties: Tags,
    last_id: u64,
    elements: &mut Vec<OsmElement>,
) -> (r: u64)
    requires
        properties.wf(),
        elements_wf(old(elements)@),
        last_id <= old(elements)@.len(),
    ensures
        r == last_id + points@.len() + 1,
        r <= final(elements)@.len(),
        elements_wf(final(elements)@),
        element_views(final(elements)@) == element_views(old(elements)@) + line_elements(
            points@,
            properties@,
            last_id + 1,
        ),
{
    let ghost before = element_views(elements@);
    let ghost nodes = vertex_nodes(points@, last_id + 1);
    let mut node_ids: Vec<u64> = Vec::new();
    let mut id: u64 = last_id;
    let mut i: usize = 0;
    proof {
        assert(before + nodes.take(0) =~= before);
    }
    while i < points.len()
        invariant
            i <= points.len(),
            id == last_id + i,
            id <= elements@.len(),
            nodes == vertex_nodes(points@, last_id + 1),
            elements_wf(elements@),
            element_views(elements@) =~= before + nodes.take(i as int),
            node_ids@ =~= id_run(last_id + 1, i as nat),
        decreases points.len() - i,
    {
        let node = OsmElement::Node {
            id: id.wrapping_add(1),
            lat: points[i].lat,
            lon: points[i].lon,
            tags: Tags::new(),
        };
        id = push_element(node, id, elements);
        proof {
            assert(node@ == nodes[i as int]);
            assert(nodes.take(i + 1) =~= nodes.take(i as int).push(nodes[i as int]));
        }
        node_ids.push(id);
        i += 1;
    }
    let way = OsmElement::Way { id: id.wrapping_add(1), nodes: node_ids, tags: properties };
    id = push_element(way, id, elements);
    proof {
        assert(nodes.take(nodes.len() as int) =~= nodes);
        assert(before + line_elements(points@, properties@, last_id + 1) =~= (before
            + nodes).push(way@));
    }
    id
}

/// Appending an element appends what it holds.
proof fn lemma_push_element(elements: Seq<OsmElement>, element: OsmElement)
    requires
        elements_wf(elements),
        element.wf(),
    ensures
        elements_wf(elements.push(element)),
        element_views(elements.push(element)) == element_views(elements).push(element@),
{
    let longer = elements.push(element);
    assert forall|i: int| 0 <= i < longer.len() implies (#[trigger] longer[i]).wf() by {
        if i < elements.len() {
            assert(longer[i] == elements[i]);
        }
    }
    assert(element_views(longer) =~= element_views(elements).push(element@));
}

/// Appends the elements of one row, numbered behind `last_id`. Gives back the last number used.
fn process_row(
    column_names: &Vec<String>,
    geometry_column: &str,
    cells: &Vec<Cell>,
    filter_bbox: Option<&LLBBox>,
    last_id: u64,
    elements: &mut Vec<OsmElement>,
) -> (r: u64)
    requires
        row_readable(columns_of(column_names, geometry_column), cell_views(cells@)),
        !row_fails(columns_of(column_names, geometry_column), cell_views(cells@)),
        elements_wf(old(elements)@),
        last_id <= old(elements)@.len(),
    ensures
        r == last_id + row_elements(
            columns_of(column_names, geometry_column),
            cell_views(cells@),
            filter_bbox,
            last_id + 1,
        ).len(),
        r <= final(elements)@.len(),
        elements_wf(final(elements)@),
        element_views(final(elements)@) == element_views(old(elements)@) + row_elements(
            columns_of(column_names, geometry_column),
            cell_views(cells@),
            filter_bbox,
            last_id + 1,
        ),
{
    let ghost before = element_views(elements@);
    let ghost added = row_elements(
        columns_of(column_names, geometry_column),
        cell_views(cells@),
        filter_bbox,
        last_id + 1,
    );
    proof {
        assert(before + Seq::<ElementView>::empty() =~= before);
    }
    let blob: &Vec<u8> = match find_geometry(column_names, geometry_column, cells) {
        Some(blob) => blob,
        None => {
            return last_id;
        },
    };
    let geometry = match parse_gpb_geometry(blob.as_slice()) {
        Ok(g) => g,
        Err(_) => {
            return last_id;
        },
    };
    if let Some(bbox) = filter_bbox {
        if !geometry.intersects_bbox(bbox) {
            return last_id;
        }
    }
    let properties = collect_properties(column_names, geometry_column, cells);
    match &geometry {
        Geometry::Point(p) => {
            let node = OsmElement::Node {
                id: last_id.wrapping_add(1),
                lat: p.lat,
                lon: p.lon,
                tags: properties,
            };
            let id = push_element(node, last_id, elements);
            proof {
                assert(added =~= seq![node@]);
                assert(before + added =~= before.push(node@));
            }
            id
        },
        Geometry::LineString(points) => push_line(points, properties, last_id, elements),
        Geometry::Polygon(rings) => {
            if rings.len() > 0 {
                push_line(&rings[0], properties, last_id, elements)
            } else {
                last_id
            }
        },
    }
}

/// Whether every row that is reached can be processed.
pub open spec fn rows_readable(columns: Columns, rows: Seq<Seq<CellView>>) -> bool {
    forall|i: int|
        0 <= i < rows.len() && row_reached(columns, rows, i) ==> row_readable(
            columns,
            #[trigger] rows[i],
        )
}

/// Appends the elements of the rows of a table. The numbering starts at 1 in every table.
///
/// The first row that fails ends the work; the elements of the rows before it stay.
pub fn process_table(
    column_names: &Vec<String>,
    geometry_column: Option<&str>,
    rows: &Vec<Vec<Cell>>,
    elements: &mut Vec<OsmElement>,
    filter_bbox: Option<&LLBBox>,
) -> (r: Result<(), TableError>)
    requires
        geometry_column matches Some(name) ==> rows_readable(
            columns_of(column_names, name),
            row_views(rows@),
        ),
        elements_wf(old(elements)@),
    ensures
        elements_wf(final(elements)@),
        match geometry_column {
            None => r == Err::<(), TableError>(TableError::NoGeometryColumn) && final(elements)@
                == old(elements)@,
            Some(name) => {
                let columns = columns_of(column_names, name);
                let views = row_views(rows@);
                match r {
                    Ok(_) => {
                        &&& row_reached(columns, views, views.len() as int)
                        &&& element_views(final(elements)@) == element_views(old(elements)@)
                            + table_elements(columns, views, filter_bbox)
                    },
                    Err(TableError::UnreadableGeometry { row, column }) => {
                        &&& first_failure(columns, views, row as int, column as int)
                        &&& element_views(final(elements)@) == element_views(old(elements)@)
                            + table_elements(columns, views.take(row as int), filter_bbox)
                    },
                    Err(TableError::NoGeometryColumn) => false,
                }
            },
        },
{
    let name: &str = match geometry_column {
        Some(name) => name,
        None => {
            return Err(TableError::NoGeometryColumn);
        },
    };
    let ghost columns = columns_of(column_names, name);
    let ghost views = row_views(rows@);
    let ghost before = element_views(elements@);
    let mut last_id: u64 = 0;
    let mut i: usize = 0;
    proof {
        assert(before + table_elements(columns, views.take(0), filter_bbox) =~= before);
    }
    while i < rows.len()
        invariant
            i <= rows.len(),
            geometry_column == Some(name),
            columns == columns_of(column_names, name),
            views == row_views(rows@),
            rows_readable(columns, views),
            row_reached(columns, views, i as int),
            elements_wf(elements@),
            last_id == table_elements(columns, views.take(i as int), filter_bbox).len(),
            last_id <= elements@.len(),
            before == element_views(old(elements)@),
            element_views(elements@) == before + table_elements(
                columns,
                views.take(i as int),
                filter_bbox,
            ),
        decreases rows.len() - i,
    {
        let ghost done = table_elements(columns, views.take(i as int), filter_bbox);
        proof {
            assert(views[i as int] == cell_views(rows@[i as int]@));
            assert(row_readable(columns, views[i as int]));
            assert(views.take(i + 1).drop_last() =~= views.take(i as int));
            assert(views.take(i + 1).last() == views[i as int]);
        }
        if let Some(column) = find_failing_cell(column_names, name, &rows[i]) {
            return Err(TableError::UnreadableGeometry { row: i, column });
        }
        let ghost added = row_elements(columns, views[i as int], filter_bbox, last_id + 1);
        last_id = process_row(
            column_names,
            name,
            &rows[i],
            filter_bbox,
            last_id,
            elements,
        );
        proof {
            assert(before + (done + added) =~= (before + done) + added);
        }
        i += 1;
    }
    proof {
        assert(views.take(views.len() as int) =~= views);
    }
    Ok(())
}

} // verus!
