# arnis_tiles

A verified library for turning GeoPackage map data into large worlds.

- Geometry: `wkb` parses geometry blobs (WKB, bare or behind a GeoPackage header), `geometry` tests
  a geometry against a bounding box, and `coord` compares coordinates by their bit patterns as
  IEEE 754 does.
- Tables: `table` turns the rows of a feature table into numbered nodes and ways; `tags` holds the
  tags of an element.
- Chunked runs: `tiles` lists the grid, `run` decides what a run does next and what an outcome leads
  to, `progress` is what it remembers, `region` reads region file names and picks the files of a
  tile, `skeleton` and `paths` name the other files.
- Laws: `wkb_laws`, `table_laws` and `run_laws` state and prove what holds across functions, such as
  that an encoded geometry reads back, that every way follows its nodes, and that an interrupted run
  loses at most one tile.

`app/` is the unverified code around the library: files, the SQLite database, the progress file in
JSON, the floating-point arithmetic that places the tiles, and the generator that a run drives.

The one thing assumed about code outside the library is that what `std::path::Path::join` returns
depends on its arguments alone (`paths`).
