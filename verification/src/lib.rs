//! Reading map geometry out of GeoPackage tables and generating large worlds tile by tile.

pub mod bytes;
pub mod coord;
pub mod geometry;
pub mod paths;
pub mod progress;
pub mod region;
pub mod region_laws;
pub mod run;
pub mod run_laws;
pub mod skeleton;
pub mod step_laws;
pub mod table;
pub mod table_laws;
pub mod tags;
pub mod text;
pub mod tiles;
pub mod wkb;
pub mod wkb_laws;
