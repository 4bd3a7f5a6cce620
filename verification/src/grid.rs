//! Grid generation and adjacency.
//!
//! The generator produces a row-major tile array for a given number of
//! columns and rows; wall flags come either from independent random draws or
//! from a parsed fixed layout. The adjacency pass then links each non-wall
//! tile to its traversable neighbors, leaving walls fully isolated: a wall
//! tile neither receives nor exposes an edge.

use vstd::prelude::*;
use vstd::arithmetic::div_mod::{
    lemma_fundamental_div_mod,
    lemma_fundamental_div_mod_converse,
    lemma_mod_division_less_than_divisor,
};

use crate::tile::{Color, Tile, NO_NODE};

verus! {

/// Largest number of columns or rows a grid may have. Keeps node ids within
/// `i32` and path costs within the score fields.
pub const MAX_GRID_DIM: usize = 10_000;

/// Identity and geometry of the tile at row-major index `i` in a grid with
/// `cols` columns and the given tile size.
pub open spec fn grid_tile_ok(t: Tile, i: int, cols: int, tile_size: int) -> bool {
    &&& t.node_id == i
    &&& t.x_id == i % cols
    &&& t.y_id == i / cols
    &&& t.transform.pos_x == (i % cols) * tile_size
    &&& t.transform.pos_y == (i / cols) * tile_size
    &&& t.transform.scale_x == tile_size
    &&& t.transform.scale_y == tile_size
}

/// All four search scratch fields at their defaults.
pub open spec fn scratch_cleared(t: Tile) -> bool {
    t.parent_id == NO_NODE && t.g == 0 && t.h == 0 && t.f == 0
}

/// All four neighbor fields unset.
pub open spec fn sides_unset(t: Tile) -> bool {
    t.top == NO_NODE && t.bottom == NO_NODE && t.left == NO_NODE && t.right == NO_NODE
}

/// The neighbor id the linking pass gives tile `i` upward: the cell one row
/// up, provided neither end of the edge is a wall.
pub open spec fn expected_top(tiles: Seq<Tile>, i: int, cols: int, rows: int) -> i32 {
    if !tiles[i].is_wall && i / cols >= 1 && !tiles[i - cols].is_wall {
        (i - cols) as i32
    } else {
        NO_NODE
    }
}

/// The neighbor id the linking pass gives tile `i` downward.
pub open spec fn expected_bottom(tiles: Seq<Tile>, i: int, cols: int, rows: int) -> i32 {
    if !tiles[i].is_wall && i / cols + 1 < rows && !tiles[i + cols].is_wall {
        (i + cols) as i32
    } else {
        NO_NODE
    }
}

/// The neighbor id the linking pass gives tile `i` to the left.
pub open spec fn expected_left(tiles: Seq<Tile>, i: int, cols: int, rows: int) -> i32 {
    if !tiles[i].is_wall && i % cols >= 1 && !tiles[i - 1].is_wall {
        (i - 1) as i32
    } else {
        NO_NODE
    }
}

/// The neighbor id the linking pass gives tile `i` to the right.
pub open spec fn expected_right(tiles: Seq<Tile>, i: int, cols: int, rows: int) -> i32 {
    if !tiles[i].is_wall && i % cols + 1 < cols && !tiles[i + 1].is_wall {
        (i + 1) as i32
    } else {
        NO_NODE
    }
}

/// Every tile's four neighbor fields are exactly what the linking pass
/// computes: in-bounds non-wall neighbors of non-wall tiles, and `NO_NODE`
/// everywhere else. Walls are fully isolated.
pub open spec fn adjacency_ok(tiles: Seq<Tile>, cols: int, rows: int) -> bool {
    forall|i: int|
        #![trigger expected_top(tiles, i, cols, rows)]
        0 <= i < tiles.len() ==> {
            &&& tiles[i].top == expected_top(tiles, i, cols, rows)
            &&& tiles[i].bottom == expected_bottom(tiles, i, cols, rows)
            &&& tiles[i].left == expected_left(tiles, i, cols, rows)
            &&& tiles[i].right == expected_right(tiles, i, cols, rows)
        }
}

/// `t` with its four neighbor fields replaced and all other fields kept.
pub open spec fn sides_set(t: Tile, top: i32, bottom: i32, left: i32, right: i32) -> Tile {
    Tile {
        transform: t.transform,
        color: t.color,
        x_id: t.x_id,
        y_id: t.y_id,
        node_id: t.node_id,
        parent_id: t.parent_id,
        top: top,
        bottom: bottom,
        left: left,
        right: right,
        is_wall: t.is_wall,
        h: t.h,
        g: t.g,
        f: t.f,
    }
}

/// What `link_sides` leaves at index `i`: the old tile with its neighbor
/// fields set to the expected links.
pub open spec fn sides_linked(tiles: Seq<Tile>, i: int, cols: int, rows: int) -> Tile {
    sides_set(
        tiles[i],
        expected_top(tiles, i, cols, rows),
        expected_bottom(tiles, i, cols, rows),
        expected_left(tiles, i, cols, rows),
        expected_right(tiles, i, cols, rows),
    )
}

/// Build the tile at grid position `(x, y)`: row-major id, grid coordinates,
/// pixel geometry, wall flag and color; neighbors and scratch left unset.
fn make_tile(x: usize, y: usize, cols: usize, tile_size: u32, wall: bool) -> (t: Tile)
    requires
        x < cols,
        cols <= MAX_GRID_DIM,
        y < MAX_GRID_DIM,
        1 <= tile_size <= 100_000,
    ensures
        t.node_id == y * cols + x,
        t.x_id == x,
        t.y_id == y,
        t.transform.pos_x == x * tile_size,
        t.transform.pos_y == y * tile_size,
        t.transform.scale_x == tile_size,
        t.transform.scale_y == tile_size,
        t.color == crate::tile::tile_color(wall),
        t.is_wall == wall,
        sides_unset(t),
        scratch_cleared(t),
{
    proof {
        assert((x as int) * (tile_size as int) <= 10_000 * 100_000 && (y as int) * (tile_size
            as int) <= 10_000 * 100_000 && (y as int) * (cols as int) <= 10_000 * 10_000)
            by (nonlinear_arith)
            requires
                x < 10_000 && y < 10_000 && cols <= 10_000 && tile_size <= 100_000 && 1
                    <= tile_size && 0 <= x && 0 <= y && 0 <= cols,
        ;
    }
    let px: i64 = (x as i64) * (tile_size as i64);
    let py: i64 = (y as i64) * (tile_size as i64);
    let mut t = Tile::new(px, py, tile_size as i64);
    t.x_id = x as i32;
    t.y_id = y as i32;
    t.node_id = y * cols + x;
    t.is_wall = wall;
    t.color = Color::new(0, 0, if wall { 20 } else { 30 });
    t
}

/// Row-major index arithmetic: `i == y * cols + x` with `x < cols` means
/// `x == i % cols` and `y == i / cols`.
pub(crate) proof fn lemma_row_major(i: int, x: int, y: int, cols: int)
    requires
        cols >= 1,
        0 <= x < cols,
        0 <= y,
        i == y * cols + x,
    ensures
        i % cols == x,
        i / cols == y,
{
    lemma_fundamental_div_mod_converse(i, cols, y, x);
}

/// A row-major index below `cols * rows` lands in a valid row and column.
pub(crate) proof fn lemma_index_in_grid(i: int, cols: int, rows: int)
    requires
        cols >= 1,
        rows >= 1,
        0 <= i < cols * rows,
    ensures
        0 <= i % cols < cols,
        0 <= i / cols < rows,
        i == (i / cols) * cols + (i % cols),
{
    lemma_fundamental_div_mod(i, cols);
    lemma_mod_division_less_than_divisor(i, cols);
    assert((i / cols) * cols == cols * (i / cols)) by (nonlinear_arith);
    assert(i / cols < rows) by (nonlinear_arith)
        requires
            cols >= 1,
            rows >= 1,
            0 <= i < cols * rows,
            i == cols * (i / cols) + (i % cols),
            0 <= i % cols < cols,
    ;
    assert(0 <= i / cols) by (nonlinear_arith)
        requires
            cols >= 1,
            0 <= i,
            i == cols * (i / cols) + (i % cols),
            0 <= i % cols < cols,
    ;
}

/// Generate a `cols` x `rows` grid of tiles with randomized walls: each
/// tile's wall flag is an independent draw, a wall with probability
/// `wall_permille` in 1000. Every draw and the final generator state are
/// pinned to the generator's starting state, so generation is reproducible
/// from the seed.
pub fn generate_tiles(
    cols: usize,
    rows: usize,
    tile_size: u32,
    rng: &mut crate::rng::Lcg,
    wall_permille: u16,
) -> (tiles: Vec<Tile>)
    requires
        1 <= cols <= MAX_GRID_DIM,
        1 <= rows <= MAX_GRID_DIM,
        1 <= tile_size <= 100_000,
        wall_permille <= 1000,
    ensures
        tiles@.len() == cols * rows,
        forall|i: int| 0 <= i < tiles@.len() ==> {
            &&& grid_tile_ok(#[trigger] tiles@[i], i, cols as int, tile_size as int)
            &&& scratch_cleared(tiles@[i])
            &&& sides_unset(tiles@[i])
            &&& tiles@[i].color == crate::tile::tile_color(tiles@[i].is_wall)
            &&& tiles@[i].is_wall == (crate::rng::lcg_below(
                crate::rng::lcg_nth(old(rng).state, i as nat),
                1000,
            ) >= 1000 - wall_permille)
        },
        final(rng).state == crate::rng::lcg_nth(old(rng).state, (cols * rows) as nat),
{
    proof {
        assert((cols as int) * (rows as int) <= 10_000 * 10_000) by (nonlinear_arith)
            requires
                1 <= cols <= 10_000 && 1 <= rows <= 10_000,
        ;
        assert((cols as int) * (rows as int) >= 1) by (nonlinear_arith)
            requires
                1 <= cols && 1 <= rows,
        ;
    }
    let n: usize = cols * rows;
    let ghost s0: u64 = rng.state;
    let mut tiles: Vec<Tile> = Vec::new();
    let mut i: usize = 0;
    while i < n
        invariant
            i <= n,
            n == cols * rows,
            1 <= cols <= MAX_GRID_DIM,
            1 <= rows <= MAX_GRID_DIM,
            1 <= tile_size <= 100_000,
            wall_permille <= 1000,
            tiles@.len() == i,
            rng.state == crate::rng::lcg_nth(s0, i as nat),
            forall|j: int| 0 <= j < i ==> {
                &&& grid_tile_ok(#[trigger] tiles@[j], j, cols as int, tile_size as int)
                &&& scratch_cleared(tiles@[j])
                &&& sides_unset(tiles@[j])
                &&& tiles@[j].color == crate::tile::tile_color(tiles@[j].is_wall)
                &&& tiles@[j].is_wall == (crate::rng::lcg_below(
                    crate::rng::lcg_nth(s0, j as nat),
                    1000,
                ) >= 1000 - wall_permille)
            },
        decreases n - i,
    {
        let x: usize = i % cols;
        let y: usize = i / cols;
        proof {
            lemma_index_in_grid(i as int, cols as int, rows as int);
        }
        let draw: u64 = rng.next_below(1000);
        let wall: bool = draw >= 1000 - (wall_permille as u64);
        let t = make_tile(x, y, cols, tile_size, wall);
        proof {
            crate::rng::lemma_lcg_nth_step(s0, i as nat);
        }
        tiles.push(t);
        i = i + 1;
    }
    tiles
}

/// Build the tiles of a fixed layout: wall flags come from the parsed rows
/// instead of random draws; everything else matches random generation.
pub fn tiles_from_flags(flags: &Vec<Vec<bool>>, tile_size: u32) -> (tiles: Vec<Tile>)
    requires
        1 <= flags@.len() <= MAX_GRID_DIM,
        1 <= flags@[0]@.len() <= MAX_GRID_DIM,
        forall|r: int| 0 <= r < flags@.len() ==> (#[trigger] flags@[r])@.len() == flags@[0]@.len(),
        1 <= tile_size <= 100_000,
    ensures
        tiles@.len() == flags@[0]@.len() * flags@.len(),
        forall|i: int| 0 <= i < tiles@.len() ==> {
            &&& grid_tile_ok(
                #[trigger] tiles@[i],
                i,
                flags@[0]@.len() as int,
                tile_size as int,
            )
            &&& scratch_cleared(tiles@[i])
            &&& sides_unset(tiles@[i])
            &&& tiles@[i].color == crate::tile::tile_color(tiles@[i].is_wall)
            &&& tiles@[i].is_wall == flags@[i / flags@[0]@.len() as int]@[i % flags@[0]@.len() as int]
        },
{
    let rows: usize = flags.len();
    let cols: usize = flags[0].len();
    proof {
        assert((cols as int) * (rows as int) <= 10_000 * 10_000 && (cols as int) * (rows as int)
            >= 1) by (nonlinear_arith)
            requires
                1 <= cols <= 10_000 && 1 <= rows <= 10_000,
        ;
    }
    let n: usize = cols * rows;
    let mut tiles: Vec<Tile> = Vec::new();
    let mut i: usize = 0;
    while i < n
        invariant
            i <= n,
            n == cols * rows,
            rows == flags@.len(),
            cols == flags@[0]@.len(),
            1 <= cols <= MAX_GRID_DIM,
            1 <= rows <= MAX_GRID_DIM,
            forall|r: int| 0 <= r < flags@.len() ==> (#[trigger] flags@[r])@.len() == cols,
            1 <= tile_size <= 100_000,
            tiles@.len() == i,
            forall|j: int| 0 <= j < i ==> {
                &&& grid_tile_ok(#[trigger] tiles@[j], j, cols as int, tile_size as int)
                &&& scratch_cleared(tiles@[j])
                &&& sides_unset(tiles@[j])
                &&& tiles@[j].color == crate::tile::tile_color(tiles@[j].is_wall)
                &&& tiles@[j].is_wall == flags@[j / cols as int]@[j % cols as int]
            },
        decreases n - i,
    {
        let x: usize = i % cols;
        let y: usize = i / cols;
        proof {
            lemma_index_in_grid(i as int, cols as int, rows as int);
        }
        let wall: bool = flags[y][x];
        let t = make_tile(x, y, cols, tile_size, wall);
        tiles.push(t);
        i = i + 1;
    }
    tiles
}

/// Index arithmetic for the four neighbors of the row-major cell `i` in a
/// `cols` x `rows` grid: which of them exist, and their row and column.
pub(crate) proof fn lemma_neighbor_bounds(i: int, cols: int, rows: int, n: int)
    requires
        cols >= 1,
        rows >= 1,
        n == cols * rows,
        0 <= i < n,
    ensures
        0 <= i % cols < cols,
        0 <= i / cols < rows,
        i % cols >= 1 ==> 0 <= i - 1 && (i - 1) / cols == i / cols && (i - 1) % cols == i % cols
            - 1,
        i % cols + 1 < cols ==> i + 1 < n && (i + 1) / cols == i / cols && (i + 1) % cols == i
            % cols + 1,
        i / cols >= 1 ==> 0 <= i - cols && (i - cols) / cols == i / cols - 1 && (i - cols) % cols
            == i % cols,
        i / cols + 1 < rows ==> i + cols < n && (i + cols) / cols == i / cols + 1 && (i + cols)
            % cols == i % cols,
{
    lemma_index_in_grid(i, cols, rows);
    let q = i / cols;
    let r = i % cols;
    assert(q * cols >= 0 && (q - 1) * cols == q * cols - cols && (q + 1) * cols == q * cols + cols
        && (q + 1 < rows ==> (q + 1) * cols + r < cols * rows) && (q >= 1 ==> q * cols >= cols)
        && q * cols + cols <= cols * rows) by (nonlinear_arith)
        requires
            cols >= 1,
            rows >= 1,
            0 <= q < rows,
            0 <= r < cols,
    ;
    if r >= 1 {
        lemma_row_major(i - 1, r - 1, q, cols);
    }
    if r + 1 < cols {
        lemma_row_major(i + 1, r + 1, q, cols);
    }
    if q >= 1 {
        lemma_row_major(i - cols, r, q - 1, cols);
    }
    if q + 1 < rows {
        lemma_row_major(i + cols, r, q + 1, cols);
    }
}

/// Link every tile to its traversable neighbors, in place. A neighbor field
/// is set to the adjacent cell's id exactly when that cell exists within the
/// grid and neither the tile nor the cell is a wall; otherwise it is set to
/// `NO_NODE`. Wall tiles are thereby fully isolated: no incoming and no
/// outgoing edges.
pub fn link_sides(tiles: &mut Vec<Tile>, cols: usize, rows: usize)
    requires
        old(tiles)@.len() == cols * rows,
        1 <= cols <= MAX_GRID_DIM,
        1 <= rows <= MAX_GRID_DIM,
    ensures
        final(tiles)@.len() == old(tiles)@.len(),
        forall|i: int| 0 <= i < old(tiles)@.len() ==> #[trigger] final(tiles)@[i] == sides_linked(
            old(tiles)@,
            i,
            cols as int,
            rows as int,
        ),
        adjacency_ok(final(tiles)@, cols as int, rows as int),
{
    let n: usize = tiles.len();
    proof {
        assert((cols as int) * (rows as int) <= 10_000 * 10_000 && (cols as int) * (rows as int)
            >= 1) by (nonlinear_arith)
            requires
                1 <= cols <= 10_000 && 1 <= rows <= 10_000,
        ;
    }
    let mut t_id: usize = 0;
    while t_id < n
        invariant
            t_id <= n,
            n == cols * rows,
            1 <= cols <= MAX_GRID_DIM,
            1 <= rows <= MAX_GRID_DIM,
            n <= 100_000_000,
            tiles@.len() == n,
            old(tiles)@.len() == n,
            forall|j: int| 0 <= j < t_id ==> #[trigger] tiles@[j] == sides_linked(
                old(tiles)@,
                j,
                cols as int,
                rows as int,
            ),
            forall|j: int| t_id <= j < n ==> #[trigger] tiles@[j] == old(tiles)@[j],
        decreases n - t_id,
    {
        let x: usize = t_id % cols;
        let y: usize = t_id / cols;
        proof {
            lemma_neighbor_bounds(t_id as int, cols as int, rows as int, n as int);
            assert(forall|j: int|
                0 <= j < n ==> (#[trigger] tiles@[j]).is_wall == old(tiles)@[j].is_wall);
        }
        let mut t = tiles[t_id];
        if t.is_wall {
            t.top = NO_NODE;
            t.bottom = NO_NODE;
            t.left = NO_NODE;
            t.right = NO_NODE;
        } else {
            t.right = if x + 1 < cols {
                if tiles[t_id + 1].is_wall {
                    NO_NODE
                } else {
                    (t_id + 1) as i32
                }
            } else {
                NO_NODE
            };
            t.left = if x >= 1 {
                if tiles[t_id - 1].is_wall {
                    NO_NODE
                } else {
                    (t_id - 1) as i32
                }
            } else {
                NO_NODE
            };
            t.top = if y >= 1 {
                if tiles[t_id - cols].is_wall {
                    NO_NODE
                } else {
                    (t_id - cols) as i32
                }
            } else {
                NO_NODE
            };
            t.bottom = if y + 1 < rows {
                if tiles[t_id + cols].is_wall {
                    NO_NODE
                } else {
                    (t_id + cols) as i32
                }
            } else {
                NO_NODE
            };
        }
        tiles.set(t_id, t);
        proof {
            assert(tiles@[t_id as int] == sides_linked(
                old(tiles)@,
                t_id as int,
                cols as int,
                rows as int,
            ));
        }
        t_id = t_id + 1;
    }
    proof {
        assert forall|i: int|
            0 <= i < tiles@.len() implies {
            &&& (#[trigger] tiles@[i]).top == expected_top(tiles@, i, cols as int, rows as int)
            &&& tiles@[i].bottom == expected_bottom(tiles@, i, cols as int, rows as int)
            &&& tiles@[i].left == expected_left(tiles@, i, cols as int, rows as int)
            &&& tiles@[i].right == expected_right(tiles@, i, cols as int, rows as int)
        } by {
            lemma_neighbor_bounds(i, cols as int, rows as int, n as int);
            assert(tiles@[i] == sides_linked(old(tiles)@, i, cols as int, rows as int));
            if i / (cols as int) >= 1 {
                assert(tiles@[i - cols] == sides_linked(
                    old(tiles)@,
                    i - cols,
                    cols as int,
                    rows as int,
                ));
            }
            if i / (cols as int) + 1 < rows {
                assert(tiles@[i + cols] == sides_linked(
                    old(tiles)@,
                    i + cols,
                    cols as int,
                    rows as int,
                ));
            }
            if i % (cols as int) >= 1 {
                assert(tiles@[i - 1] == sides_linked(old(tiles)@, i - 1, cols as int, rows as int));
            }
            if i % (cols as int) + 1 < cols {
                assert(tiles@[i + 1] == sides_linked(old(tiles)@, i + 1, cols as int, rows as int));
            }
        }
    }
}
/// A neighbor field of tile `i`, when not the sentinel, names an in-bounds,
/// non-wall tile whose grid coordinates are exactly one step away in the
/// corresponding direction, and tile `i` is itself not a wall.
pub open spec fn neighbor_sound(tiles: Seq<Tile>, i: int) -> bool {
    &&& tiles[i].top != NO_NODE ==> {
        &&& 0 <= tiles[i].top < tiles.len()
        &&& !tiles[i].is_wall
        &&& !tiles[tiles[i].top as int].is_wall
        &&& tiles[tiles[i].top as int].x_id == tiles[i].x_id
        &&& tiles[tiles[i].top as int].y_id == tiles[i].y_id - 1
    }
    &&& tiles[i].bottom != NO_NODE ==> {
        &&& 0 <= tiles[i].bottom < tiles.len()
        &&& !tiles[i].is_wall
        &&& !tiles[tiles[i].bottom as int].is_wall
        &&& tiles[tiles[i].bottom as int].x_id == tiles[i].x_id
        &&& tiles[tiles[i].bottom as int].y_id == tiles[i].y_id + 1
    }
    &&& tiles[i].left != NO_NODE ==> {
        &&& 0 <= tiles[i].left < tiles.len()
        &&& !tiles[i].is_wall
        &&& !tiles[tiles[i].left as int].is_wall
        &&& tiles[tiles[i].left as int].x_id == tiles[i].x_id - 1
        &&& tiles[tiles[i].left as int].y_id == tiles[i].y_id
    }
    &&& tiles[i].right != NO_NODE ==> {
        &&& 0 <= tiles[i].right < tiles.len()
        &&& !tiles[i].is_wall
        &&& !tiles[tiles[i].right as int].is_wall
        &&& tiles[tiles[i].right as int].x_id == tiles[i].x_id + 1
        &&& tiles[tiles[i].right as int].y_id == tiles[i].y_id
    }
}

/// Soundness of the links of one tile, from the adjacency the linking pass
/// establishes and the row-major consistency of the grid coordinates.
proof fn lemma_neighbor_sound_at(tiles: Seq<Tile>, cols: int, rows: int, i: int)
    requires
        1 <= cols <= MAX_GRID_DIM as int,
        1 <= rows <= MAX_GRID_DIM as int,
        tiles.len() == cols * rows,
        forall|j: int| 0 <= j < tiles.len() ==> (#[trigger] tiles[j]).x_id == j % cols && tiles[
            j
        ].y_id == j / cols,
        adjacency_ok(tiles, cols, rows),
        0 <= i < tiles.len(),
    ensures
        neighbor_sound(tiles, i),
{
    lemma_neighbor_bounds(i, cols, rows, tiles.len() as int);
    assert(cols * rows <= 100_000_000) by (nonlinear_arith)
        requires
            1 <= cols <= 10_000,
            1 <= rows <= 10_000,
    ;
    assert(tiles[i].top == expected_top(tiles, i, cols, rows));
    assert(tiles[i].bottom == expected_bottom(tiles, i, cols, rows));
    assert(tiles[i].left == expected_left(tiles, i, cols, rows));
    assert(tiles[i].right == expected_right(tiles, i, cols, rows));
    if tiles[i].top != NO_NODE {
        assert(tiles[i].top as int == i - cols);
        assert(tiles[i - cols].x_id == (i - cols) % cols && tiles[i - cols].y_id == (i - cols)
            / cols);
    }
    if tiles[i].bottom != NO_NODE {
        assert(tiles[i].bottom as int == i + cols);
        assert(tiles[i + cols].x_id == (i + cols) % cols && tiles[i + cols].y_id == (i + cols)
            / cols);
    }
    if tiles[i].left != NO_NODE {
        assert(tiles[i].left as int == i - 1);
        assert(tiles[i - 1].x_id == (i - 1) % cols && tiles[i - 1].y_id == (i - 1) / cols);
    }
    if tiles[i].right != NO_NODE {
        assert(tiles[i].right as int == i + 1);
        assert(tiles[i + 1].x_id == (i + 1) % cols && tiles[i + 1].y_id == (i + 1) / cols);
    }
}

/// Soundness of the adjacency links, for every tile of the grid: a neighbor
/// field that is not the sentinel names an in-bounds, non-wall tile exactly
/// one step away in its direction, and the tile itself is not a wall. Walls
/// have no incoming and no outgoing edges.
pub proof fn lemma_neighbors_sound(tiles: Seq<Tile>, cols: int, rows: int)
    requires
        1 <= cols <= MAX_GRID_DIM as int,
        1 <= rows <= MAX_GRID_DIM as int,
        tiles.len() == cols * rows,
        forall|i: int| 0 <= i < tiles.len() ==> (#[trigger] tiles[i]).x_id == i % cols && tiles[
            i
        ].y_id == i / cols,
        adjacency_ok(tiles, cols, rows),
    ensures
        forall|i: int| 0 <= i < tiles.len() ==> #[trigger] neighbor_sound(tiles, i),
{
    assert forall|i: int| 0 <= i < tiles.len() implies #[trigger] neighbor_sound(tiles, i) by {
        lemma_neighbor_sound_at(tiles, cols, rows, i);
    }
}

} // verus!
