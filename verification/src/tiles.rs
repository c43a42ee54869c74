//! The grid of tiles that a large area is cut into.

use crate::coord::{Coord, LLBBox, LLPoint};
use vstd::arithmetic::div_mod::{
    lemma_div_is_ordered, lemma_fundamental_div_mod, lemma_fundamental_div_mod_converse,
    lemma_mod_bound,
};
use vstd::prelude::*;

verus! {

/// The bit pattern of -90, the southern edge of the world.
pub const SOUTH_BITS: u64 = 0xc056_8000_0000_0000;

/// The bit pattern of 90, the northern edge of the world.
pub const NORTH_BITS: u64 = 0x4056_8000_0000_0000;

/// The bit pattern of -180, the western edge of the world.
pub const WEST_BITS: u64 = 0xc066_8000_0000_0000;

/// The bit pattern of 180, the eastern edge of the world.
pub const EAST_BITS: u64 = 0x4066_8000_0000_0000;

/// The tiles row by row: all of the first row from west to east, then the next row.
pub open spec fn tile_grid(tiles_x: nat, tiles_z: nat) -> Seq<(usize, usize)> {
    Seq::new(
        tiles_x * tiles_z,
        |k: int| ((k % tiles_x as int) as usize, (k / tiles_x as int) as usize),
    )
}

/// Lists the tiles of a grid, each with its column and its row.
pub fn split_bbox(tiles_x: usize, tiles_z: usize) -> (r: Vec<(usize, usize)>)
    ensures
        r@ == tile_grid(tiles_x as nat, tiles_z as nat),
{
    let mut result: Vec<(usize, usize)> = Vec::new();
    let mut tz: usize = 0;
    while tz < tiles_z
        invariant
            tz <= tiles_z,
            result@ == tile_grid(tiles_x as nat, tz as nat),
        decreases tiles_z - tz,
    {
        let mut tx: usize = 0;
        proof {
            assert(tiles_x * tz == tz * tiles_x) by (nonlinear_arith);
        }
        while tx < tiles_x
            invariant
                tz < tiles_z,
                tx <= tiles_x,
                result@.len() == tz * tiles_x + tx,
                forall|k: int|
                    0 <= k < result@.len() ==> #[trigger] result@[k] == (
                        (k % tiles_x as int) as usize,
                        (k / tiles_x as int) as usize,
                    ),
            decreases tiles_x - tx,
        {
            proof {
                lemma_fundamental_div_mod_converse(
                    tz * tiles_x + tx,
                    tiles_x as int,
                    tz as int,
                    tx as int,
                );
            }
            result.push((tx, tz));
            tx += 1;
        }
        proof {
            assert(tiles_x * (tz + 1) == tz * tiles_x + tiles_x) by (nonlinear_arith);
            assert(result@ =~= tile_grid(tiles_x as nat, (tz + 1) as nat));
        }
        tz += 1;
    }
    result
}

/// The grid holds every tile of every row exactly once.
pub proof fn law_grid_covers_every_tile_once(tiles_x: usize, tiles_z: usize)
    ensures
        tile_grid(tiles_x as nat, tiles_z as nat).no_duplicates(),
        forall|tile: (usize, usize)| #[trigger]
            tile_grid(tiles_x as nat, tiles_z as nat).contains(tile) <==> tile.0 < tiles_x && tile.1
                < tiles_z,
{
    let grid = tile_grid(tiles_x as nat, tiles_z as nat);
    let n = tiles_x as int;
    let m = tiles_z as int;
    assert forall|i: int, j: int| 0 <= i < j < grid.len() implies grid[i] != grid[j] by {
        lemma_cell(n, m, i);
        lemma_cell(n, m, j);
        if grid[i] == grid[j] {
            assert(i % n == j % n && i / n == j / n);
        }
    }
    assert forall|tile: (usize, usize)| #[trigger] grid.contains(tile) <==> tile.0 < tiles_x
        && tile.1 < tiles_z by {
        if grid.contains(tile) {
            let k = choose|k: int| 0 <= k < grid.len() && grid[k] == tile;
            lemma_cell(n, m, k);
        }
        if tile.0 < tiles_x && tile.1 < tiles_z {
            let k = tile.1 * n + tile.0;
            assert(0 <= k < n * m) by (nonlinear_arith)
                requires
                    k == tile.1 * n + tile.0,
                    tile.0 < n,
                    tile.1 < m,
            ;
            lemma_fundamental_div_mod_converse(k, n, tile.1 as int, tile.0 as int);
            assert(grid[k] == tile);
        }
    }
}

/// Whether `a` stands in an earlier row than `b`, or further west in the same row.
pub open spec fn precedes(a: (usize, usize), b: (usize, usize)) -> bool {
    a.1 < b.1 || a.1 == b.1 && a.0 < b.0
}

/// Of two tiles of the grid the one that comes first precedes the other.
pub proof fn law_grid_goes_row_by_row(tiles_x: usize, tiles_z: usize, i: int, j: int)
    requires
        0 <= i < j < tile_grid(tiles_x as nat, tiles_z as nat).len(),
    ensures
        precedes(
            tile_grid(tiles_x as nat, tiles_z as nat)[i],
            tile_grid(tiles_x as nat, tiles_z as nat)[j],
        ),
{
    let n = tiles_x as int;
    lemma_cell(n, tiles_z as int, i);
    lemma_cell(n, tiles_z as int, j);
    lemma_div_is_ordered(i, j, n);
}

/// The column and the row of the cell `k`.
proof fn lemma_cell(n: int, m: int, k: int)
    requires
        0 <= n,
        0 <= m,
        0 <= k < n * m,
    ensures
        n > 0,
        0 <= k % n < n,
        0 <= k / n < m,
        k == n * (k / n) + k % n,
{
    assert(n > 0) by (nonlinear_arith)
        requires
            0 <= n,
            k < n * m,
            0 <= k,
    ;
    lemma_mod_bound(k, n);
    lemma_fundamental_div_mod(k, n);
    assert(0 <= k / n < m) by (nonlinear_arith)
        requires
            n > 0,
            0 <= k < n * m,
            k == n * (k / n) + k % n,
            0 <= k % n < n,
    ;
}

/// The southern edge of the world.
pub open spec fn south() -> Coord {
    Coord { bits: SOUTH_BITS }
}

/// The northern edge of the world.
pub open spec fn north() -> Coord {
    Coord { bits: NORTH_BITS }
}

/// The western edge of the world.
pub open spec fn west() -> Coord {
    Coord { bits: WEST_BITS }
}

/// The eastern edge of the world.
pub open spec fn east() -> Coord {
    Coord { bits: EAST_BITS }
}

/// The box from which a tile takes its data: the widened tile, cut off at the edges of the world.
/// An edge that is a NaN moves to the edge of the world.
pub fn data_bbox(widened: &LLBBox) -> (r: LLBBox)
    ensures
        Coord::is_greater(r.min.lat, widened.min.lat, south()),
        Coord::is_greater(r.min.lng, widened.min.lng, west()),
        Coord::is_lesser(r.max.lat, widened.max.lat, north()),
        Coord::is_lesser(r.max.lng, widened.max.lng, east()),
        south().le(r.min.lat),
        west().le(r.min.lng),
        r.max.lat.le(north()),
        r.max.lng.le(east()),
{
    LLBBox {
        min: LLPoint {
            lat: widened.min.lat.greater(Coord { bits: SOUTH_BITS }),
            lng: widened.min.lng.greater(Coord { bits: WEST_BITS }),
        },
        max: LLPoint {
            lat: widened.max.lat.lesser(Coord { bits: NORTH_BITS }),
            lng: widened.max.lng.lesser(Coord { bits: EAST_BITS }),
        },
    }
}

/// The tile in column `x` of row `z` stands behind all whole rows before it and the tiles to its
/// west.
pub proof fn law_place_of_a_tile(tiles_x: usize, tiles_z: usize, x: usize, z: usize)
    requires
        x < tiles_x,
        z < tiles_z,
    ensures
        tile_grid(tiles_x as nat, tiles_z as nat).len() == tiles_x * tiles_z,
        0 <= z * tiles_x + x < tiles_x * tiles_z,
        tile_grid(tiles_x as nat, tiles_z as nat)[z * tiles_x + x] == (x, z),
{
    let k = z * tiles_x + x;
    assert(0 <= k < tiles_x * tiles_z) by (nonlinear_arith)
        requires
            k == z * tiles_x + x,
            x < tiles_x,
            z < tiles_z,
    ;
    lemma_fundamental_div_mod_converse(k, tiles_x as int, z as int, x as int);
}

/// The edges of the world are those at 90 degrees north and south and 180 degrees east and west.
/// Of a widened box the data box holds exactly what lies in the world.
pub proof fn law_data_box_is_the_part_in_the_world(widened: LLBBox, data: LLBBox, p: LLPoint)
    requires
        !widened.min.lat.is_nan(),
        !widened.min.lng.is_nan(),
        !widened.max.lat.is_nan(),
        !widened.max.lng.is_nan(),
        Coord::is_greater(data.min.lat, widened.min.lat, south()),
        Coord::is_greater(data.min.lng, widened.min.lng, west()),
        Coord::is_lesser(data.max.lat, widened.max.lat, north()),
        Coord::is_lesser(data.max.lng, widened.max.lng, east()),
    ensures
        south().bits == 0xc056_8000_0000_0000,
        north().bits == 0x4056_8000_0000_0000,
        west().bits == 0xc066_8000_0000_0000,
        east().bits == 0x4066_8000_0000_0000,
        data.min.lat.le(p.lat) <==> widened.min.lat.le(p.lat) && south().le(p.lat),
        data.min.lng.le(p.lng) <==> widened.min.lng.le(p.lng) && west().le(p.lng),
        p.lat.le(data.max.lat) <==> p.lat.le(widened.max.lat) && p.lat.le(north()),
        p.lng.le(data.max.lng) <==> p.lng.le(widened.max.lng) && p.lng.le(east()),
{
}

} // verus!
