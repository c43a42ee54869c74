use arnis_tiles::coord::{Coord, LLBBox, LLPoint};
use arnis_tiles::table::{
    get_data_columns, is_geometry_column, is_row_readable, process_table,
    table_info_query, table_query, Cell, OsmElement, TableError,
};
use arnis_tiles::tags::Tags;

fn texts(list: &[&str]) -> Vec<String> {
    list.iter().map(|s| s.to_string()).collect()
}

fn text(s: &str) -> Cell {
    Cell::Text(Some(s.to_string()))
}

fn coords(list: &[(f64, f64)]) -> Vec<u8> {
    list.iter()
        .flat_map(|(lon, lat)| [lon.to_le_bytes(), lat.to_le_bytes()].concat())
        .collect()
}

fn blob(kind: u8, body: &[u8]) -> Cell {
    let mut out = vec![1, kind, 0, 0, 0];
    out.extend(body);
    Cell::Geometry(Some(out))
}

fn point(lon: f64, lat: f64) -> Cell {
    blob(1, &coords(&[(lon, lat)]))
}

fn ring(list: &[(f64, f64)]) -> Vec<u8> {
    let mut out = (list.len() as u32).to_le_bytes().to_vec();
    out.extend(coords(list));
    out
}

fn line(list: &[(f64, f64)]) -> Cell {
    blob(2, &ring(list))
}

fn polygon(rings: &[&[(f64, f64)]]) -> Cell {
    let mut body = (rings.len() as u32).to_le_bytes().to_vec();
    for r in rings {
        body.extend(ring(r));
    }
    blob(3, &body)
}

fn area(min_lat: f64, min_lng: f64, max_lat: f64, max_lng: f64) -> LLBBox {
    let c = |v: f64| Coord { bits: v.to_bits() };
    LLBBox {
        min: LLPoint { lat: c(min_lat), lng: c(min_lng) },
        max: LLPoint { lat: c(max_lat), lng: c(max_lng) },
    }
}

fn sorted(tags: &Tags) -> Vec<(String, String)> {
    let mut list = tags.entries().clone();
    list.sort();
    list
}

/// Writes an element as `n id lon lat tags` or `w id nodes tags`.
fn show(element: &OsmElement) -> String {
    let tags = |t: &Tags| {
        sorted(t)
            .iter()
            .map(|(k, v)| format!("{k}={v}"))
            .collect::<Vec<_>>()
            .join(",")
    };
    match element {
        OsmElement::Node { id, lat, lon, tags: t } => format!(
            "n {id} {} {} [{}]",
            f64::from_bits(lon.bits),
            f64::from_bits(lat.bits),
            tags(t)
        ),
        OsmElement::Way { id, nodes, tags: t } => format!("w {id} {nodes:?} [{}]", tags(t)),
    }
}

fn process(names: &[&str], rows: Vec<Vec<Cell>>, filter: Option<&LLBBox>) -> Vec<String> {
    let mut elements = Vec::new();
    assert_eq!(process_table(&texts(names), Some("geom"), &rows, &mut elements, filter), Ok(()));
    elements.iter().map(show).collect()
}

#[test]
fn features_become_elements_with_running_numbers() {
    let rows = vec![
        vec![point(1.0, 2.0), text("tower")],
        vec![line(&[(3.0, 4.0), (5.0, 6.0)]), text("road")],
        vec![polygon(&[&[(0.0, 0.0), (0.0, 1.0), (0.0, 0.0)], &[(0.5, 0.5)]]), text("park")],
        vec![point(7.0, 8.0), Cell::Text(None)],
    ];
    assert_eq!(
        process(&["geom", "name"], rows, None),
        vec![
            "n 1 1 2 [name=tower]",
            "n 2 3 4 []",
            "n 3 5 6 []",
            "w 4 [2, 3] [name=road]",
            "n 5 0 0 []",
            "n 6 0 1 []",
            "n 7 0 0 []",
            "w 8 [5, 6, 7] [name=park]",
            "n 9 7 8 []",
        ]
    );
}

#[test]
fn rows_that_are_not_drawn_leave_no_trace() {
    let rows = vec![
        vec![Cell::Geometry(None), text("null")],
        vec![Cell::Geometry(Some(vec![1, 2, 3])), text("broken")],
        vec![polygon(&[]), text("no ring")],
        vec![point(1.0, 2.0), text("kept")],
    ];
    assert_eq!(process(&["geom", "name"], rows, None), vec!["n 1 1 2 [name=kept]"]);
}

#[test]
fn empty_line_gives_a_way_without_nodes() {
    assert_eq!(process(&["geom"], vec![vec![line(&[])]], None), vec!["w 1 [] []"]);
}

#[test]
fn empty_outer_ring_gives_a_way_without_nodes() {
    let rows = vec![vec![polygon(&[&[], &[(1.0, 1.0)]])]];
    assert_eq!(process(&["geom"], rows, None), vec!["w 1 [] []"]);
}

#[test]
fn filter_drops_whole_rows() {
    let filter = area(0.0, 0.0, 10.0, 10.0);
    let make = || {
        vec![
            vec![point(5.0, 50.0), text("north")],
            vec![point(5.0, 5.0), text("inside")],
            vec![line(&[(-5.0, 5.0), (50.0, 5.0)]), text("across")],
            vec![line(&[(20.0, 5.0), (50.0, 5.0)]), text("east")],
        ]
    };
    let filtered = process(&["geom", "name"], make(), Some(&filter));
    assert_eq!(
        filtered,
        vec![
            "n 1 5 5 [name=inside]",
            "n 2 -5 5 []",
            "n 3 50 5 []",
            "w 4 [2, 3] [name=across]",
        ]
    );
    let mut drawn = make();
    drawn.remove(3);
    drawn.remove(0);
    assert_eq!(process(&["geom", "name"], drawn, None), filtered);
}

#[test]
fn unreadable_and_null_columns_give_no_tags() {
    let rows = vec![vec![Cell::Unreadable, point(1.0, 2.0), Cell::Text(None), text("")]];
    assert_eq!(process(&["fid", "geom", "a", "b"], rows, None), vec!["n 1 1 2 [b=]"]);
}

#[test]
fn of_equal_column_names_the_last_counts() {
    let rows = vec![vec![text("one"), point(1.0, 2.0), text("two"), Cell::Text(None)]];
    assert_eq!(process(&["a", "geom", "a", "a"], rows, None), vec!["n 1 1 2 [a=two]"]);
    let twice = vec![vec![point(1.0, 2.0), point(3.0, 4.0)]];
    assert_eq!(process(&["geom", "geom"], twice, None), vec!["n 1 3 4 []"]);
    let erased = vec![vec![point(1.0, 2.0), Cell::Geometry(None)]];
    assert!(process(&["geom", "geom"], erased, None).is_empty());
}

#[test]
fn every_table_starts_numbering_anew() {
    let names = texts(&["geom"]);
    let mut elements = Vec::new();
    for rows in [vec![vec![line(&[(1.0, 2.0)])]], vec![vec![point(3.0, 4.0)]]] {
        assert_eq!(process_table(&names, Some("geom"), &rows, &mut elements, None), Ok(()));
    }
    let shown: Vec<String> = elements.iter().map(show).collect();
    assert_eq!(shown, vec!["n 1 1 2 []", "w 2 [1] []", "n 1 3 4 []"]);
}

#[test]
fn geometry_column_goes_by_its_name() {
    let rows = || vec![vec![text("here"), point(1.0, 2.0), point(3.0, 4.0)]];
    let names = texts(&["shape", "geom", "other"]);
    for (geometry_column, expected) in [
        ("geom", vec!["n 1 1 2 [shape=here]"]),
        ("other", vec!["n 1 3 4 [shape=here]"]),
        ("missing", vec![]),
    ] {
        let mut elements = Vec::new();
        let result = process_table(&names, Some(geometry_column), &rows(), &mut elements, None);
        assert_eq!(result, Ok(()));
        let shown: Vec<String> = elements.iter().map(show).collect();
        assert_eq!(shown, expected, "{geometry_column}");
    }
}

#[test]
fn failing_row_ends_the_table_and_keeps_the_rows_before_it() {
    let names = texts(&["name", "geom", "geom"]);
    for bad in [|| text("POINT (1 2)"), || Cell::Text(None), || Cell::Unreadable] {
        let rows = vec![
            vec![text("a"), point(9.0, 9.0), point(1.0, 2.0)],
            vec![text("b"), Cell::Geometry(None), line(&[(3.0, 4.0)])],
            vec![text("c"), bad(), bad()],
            vec![text("d"), bad(), point(5.0, 6.0)],
            vec![text("e"), point(7.0, 8.0), point(7.0, 8.0)],
        ];
        let mut elements = Vec::new();
        let first = vec![vec![text("z"), point(0.0, 0.0), point(0.0, 0.0)]];
        assert_eq!(process_table(&names, Some("geom"), &first, &mut elements, None), Ok(()));
        assert_eq!(
            process_table(&names, Some("geom"), &rows, &mut elements, None),
            Err(TableError::UnreadableGeometry { row: 2, column: 1 })
        );
        let shown: Vec<String> = elements.iter().map(show).collect();
        assert_eq!(
            shown,
            vec!["n 1 0 0 [name=z]", "n 1 1 2 [name=a]", "n 2 3 4 []", "w 3 [2] [name=b]"]
        );
    }
}

#[test]
fn failing_cell_that_is_not_the_last_geometry_still_fails() {
    let rows = vec![vec![Cell::Unreadable, point(1.0, 2.0)]];
    let mut elements = Vec::new();
    assert_eq!(
        process_table(&texts(&["geom", "geom"]), Some("geom"), &rows, &mut elements, None),
        Err(TableError::UnreadableGeometry { row: 0, column: 0 })
    );
    assert!(elements.is_empty());
}

#[test]
fn rows_behind_a_failing_one_are_not_looked_at() {
    let cut = Cell::Geometry(Some(b"GPB\x00\x00\xe6\x10\x00".to_vec()));
    let rows = vec![vec![Cell::Unreadable], vec![cut]];
    let mut elements = Vec::new();
    assert_eq!(
        process_table(&texts(&["geom"]), Some("geom"), &rows, &mut elements, None),
        Err(TableError::UnreadableGeometry { row: 0, column: 0 })
    );
}

#[test]
fn table_without_a_geometry_column_changes_nothing() {
    let names = texts(&["geom"]);
    let mut elements = Vec::new();
    let rows = vec![vec![point(1.0, 2.0)]];
    assert_eq!(process_table(&names, Some("geom"), &rows, &mut elements, None), Ok(()));
    assert_eq!(
        process_table(&names, None, &rows, &mut elements, None),
        Err(TableError::NoGeometryColumn)
    );
    let shown: Vec<String> = elements.iter().map(show).collect();
    assert_eq!(shown, vec!["n 1 1 2 []"]);
}

#[test]
fn readable_rows() {
    let cut = || Cell::Geometry(Some(b"GPB\x00\x00\xe6\x10\x00".to_vec()));
    let readable = |names: &[&str], cells: Vec<Cell>| is_row_readable(&texts(names), "geom", &cells);
    assert!(!readable(&["geom"], vec![cut()]));
    assert!(readable(&["other"], vec![cut()]));
    assert!(readable(&["geom", "geom"], vec![cut(), point(0.0, 0.0)]));
    assert!(readable(&["geom", "geom"], vec![cut(), Cell::Geometry(None)]));
    assert!(readable(&["name", "geom"], vec![text("x")]));
    assert!(readable(&["geom", "geom"], vec![Cell::Unreadable, cut()]));
    assert!(!readable(&["name"], vec![text("x"), text("y")]));
}

#[test]
fn data_columns_leave_out_geometry_and_key() {
    let columns = texts(&["id", "name", "geom", "fid", "ID", "name"]);
    assert_eq!(get_data_columns(&columns, "geom"), texts(&["name", "fid", "ID", "name"]));
    assert!(get_data_columns(&vec![], "geom").is_empty());
}

#[test]
fn geometry_column_is_found_by_its_name() {
    assert!(is_geometry_column("geom", "geom"));
    assert!(!is_geometry_column("geom2", "geom"));
    assert!(!is_geometry_column("Geom", "geom"));
    assert!(is_geometry_column("几何", "几何"));
}

#[test]
fn statements() {
    assert_eq!(table_query("roads"), "SELECT * FROM roads");
    assert_eq!(table_info_query("roads"), "PRAGMA table_info(roads)");
}

#[test]
fn tags_hold_each_key_once() {
    let mut tags = Tags::new();
    assert!(tags.entries().is_empty());
    tags.insert("a".to_string(), "1".to_string());
    tags.insert("b".to_string(), "2".to_string());
    tags.insert("a".to_string(), "3".to_string());
    let expected = vec![("a".to_string(), "3".to_string()), ("b".to_string(), "2".to_string())];
    assert_eq!(sorted(&tags), expected);
}
