//! The world: the tile grid, the tracked agent, the chosen start and end
//! nodes, and the sequencing of regeneration and search.
//!
//! The world owns the tile array exclusively; regeneration replaces it
//! wholesale. The agent's continuous pixel position is clamped to the
//! playable area; every step projects it to the nearest tile, re-rooting the
//! search there, while the end node stays fixed until the next regeneration.
//! Randomness comes from the world's own seedable generator, so every run is
//! reproducible from the seed.

use vstd::prelude::*;
use vstd::string::StringSliceAdditionalSpecFns;
use vstd::arithmetic::div_mod::{
    lemma_fundamental_div_mod,
    lemma_fundamental_div_mod_converse,
    lemma_mod_division_less_than_divisor,
};

use crate::grid;
use crate::grid::{adjacency_ok, grid_tile_ok, MAX_GRID_DIM};
use crate::rng::Lcg;
use crate::tile::{manhattan_h, same_shape, Tile, Transform, MOVE_COST, NO_NODE};

verus! {

/// How often a failed (unsolvable) random map is regenerated before the
/// world reports failure instead.
pub const MAX_REGEN_ATTEMPTS: u32 = 50;

/// The scratch fields of tile `i` as the world keeps them between calls:
/// walls carry no search state at all, a set parent is an in-bounds,
/// non-wall node exactly one move cheaper, and all scores are within the
/// bounds the grid size allows.
pub open spec fn world_scratch_ok(tiles: Seq<Tile>, i: int) -> bool {
    &&& (tiles[i].is_wall ==> tiles[i].parent_id == NO_NODE && tiles[i].g == 0 && tiles[i].f == 0
        && tiles[i].h == 0)
    &&& (tiles[i].parent_id != NO_NODE ==> {
        let p = tiles[i].parent_id as int;
        &&& 0 <= p < tiles.len()
        &&& tiles[i].g == tiles[p].g + MOVE_COST
        &&& !tiles[i].is_wall
        &&& !tiles[p].is_wall
    })
    &&& 0 <= tiles[i].g <= 10 * tiles.len()
    &&& 0 <= tiles[i].h <= 400_000
}

/// The grid-based pathfinding world.
pub struct WorldState {
    pub debug: bool,
    pub window_width: u32,
    pub window_height: u32,
    pub width: u32,
    pub height: u32,
    pub quality: u32,
    pub tile_size: u32,
    pub start_id: i32,
    pub end_id: i32,
    pub player: Transform,
    pub tiles: Vec<Tile>,
    pub recent_regen: bool,
    pub rng: Lcg,
    pub wall_permille: u16,
}

impl WorldState {
    /// Number of grid columns the current tile size yields.
    pub open spec fn cols(&self) -> int {
        self.width as int / self.tile_size as int
    }

    /// Number of grid rows the current tile size yields.
    pub open spec fn rows(&self) -> int {
        self.height as int / self.tile_size as int
    }

    /// The playable pixel area: fixed bounds, and divisible by every tile
    /// size candidate (all candidates divide 100).
    pub open spec fn dims_ok(&self) -> bool {
        &&& self.quality == 2
        &&& 100 <= self.width <= 100_000
        &&& 100 <= self.height <= 100_000
        &&& self.width % 100 == 0
        &&& self.height % 100 == 0
        &&& self.wall_permille <= 1000
    }

    /// The tile size divides the playable area into a supported number of
    /// columns and rows.
    pub open spec fn grid_geom_ok(&self) -> bool {
        &&& 1 <= self.tile_size <= 100_000
        &&& self.width as int % self.tile_size as int == 0
        &&& self.height as int % self.tile_size as int == 0
        &&& 1 <= self.cols() <= MAX_GRID_DIM
        &&& 1 <= self.rows() <= MAX_GRID_DIM
    }

    /// The agent's tile-sized footprint stays within the playable area.
    pub open spec fn player_ok(&self) -> bool {
        &&& 0 <= self.player.pos_x
        &&& self.player.pos_x + self.tile_size <= self.width
        &&& 0 <= self.player.pos_y
        &&& self.player.pos_y + self.tile_size <= self.height
    }

    /// The tile array matches the grid geometry: row-major identity and
    /// pixel placement per tile, sound adjacency, and sound scratch fields.
    pub open spec fn tiles_ok(&self) -> bool {
        &&& self.tiles@.len() == self.cols() * self.rows()
        &&& forall|i: int| 0 <= i < self.tiles@.len() ==> grid_tile_ok(
            #[trigger] self.tiles@[i],
            i,
            self.cols(),
            self.tile_size as int,
        )
        &&& adjacency_ok(self.tiles@, self.cols(), self.rows())
        &&& forall|i: int| 0 <= i < self.tiles@.len() ==> #[trigger] world_scratch_ok(
            self.tiles@,
            i,
        )
    }

    /// Start and end ids are the sentinel or valid tile indices.
    pub open spec fn ids_ok(&self) -> bool {
        &&& (self.start_id == NO_NODE || 0 <= self.start_id < self.tiles@.len())
        &&& (self.end_id == NO_NODE || 0 <= self.end_id < self.tiles@.len())
    }

    /// Well-formedness of the whole world: every constructor establishes it
    /// and every entry point preserves it. Before the first regeneration the
    /// tile array is empty and both ids are the sentinel.
    pub open spec fn wf(&self) -> bool {
        &&& self.dims_ok()
        &&& self.grid_geom_ok()
        &&& self.player_ok()
        &&& (self.tiles@.len() == 0 ==> self.start_id == NO_NODE && self.end_id == NO_NODE)
        &&& (self.tiles@.len() > 0 ==> self.tiles_ok() && self.ids_ok())
    }

    /// A fresh world over the default 1800 x 1200 pixel playfield, with no
    /// map yet: call `reset` to generate one. `seed` drives every random
    /// draw the world will make, so identical seeds give identical worlds.
    pub fn new(seed: u64) -> (w: WorldState)
        ensures
            w.wf(),
            w.width == 1800,
            w.height == 1200,
            w.quality == 2,
            w.tile_size == 50,
            w.start_id == NO_NODE,
            w.end_id == NO_NODE,
            w.tiles@.len() == 0,
            w.player.pos_x == 0 && w.player.pos_y == 0,
            w.rng.state == seed,
            w.wall_permille == 300,
            !w.recent_regen,
            !w.debug,
            w.window_width == 0 && w.window_height == 0,
    {
        let quality: u32 = 2;  // canvas quality multiplier
        let width: u32 = 900 * quality;
        let height: u32 = 600 * quality;
        let tile_size: u32 = 50;
        WorldState {
            debug: false,
            window_width: 0,
            window_height: 0,
            width,
            height,
            quality,
            tile_size,
            start_id: NO_NODE,
            end_id: NO_NODE,
            player: Transform::default(),
            tiles: Vec::new(),
            recent_regen: false,
            rng: Lcg::new(seed),
            wall_permille: 300,
        }
    }

    /// A fresh world over a caller-chosen playfield, for reproducible
    /// scenarios. The dimensions are accepted exactly when they lie within
    /// the supported range and are multiples of 100 (so that every tile size
    /// candidate divides them).
    pub fn with_dims(width: u32, height: u32, seed: u64) -> (r: Option<WorldState>)
        ensures
            r is Some <==> (100 <= width <= 100_000 && width % 100 == 0 && 100 <= height
                <= 100_000 && height % 100 == 0),
            r matches Some(w) ==> {
                &&& w.wf()
                &&& w.width == width
                &&& w.height == height
                &&& w.quality == 2
                &&& w.tile_size == 50
                &&& w.start_id == NO_NODE
                &&& w.end_id == NO_NODE
                &&& w.tiles@.len() == 0
                &&& w.player.pos_x == 0 && w.player.pos_y == 0
                &&& w.rng.state == seed
                &&& w.wall_permille == 300
            },
    {
        if 100 <= width && width <= 100_000 && width % 100 == 0 && 100 <= height && height
            <= 100_000 && height % 100 == 0 {
            proof {
                lemma_size_candidate(width as int, 50);
                lemma_size_candidate(height as int, 50);
            }
            let mut w = WorldState::new(seed);
            w.width = width;
            w.height = height;
            Some(w)
        } else {
            None
        }
    }

    /// Choose the start and end nodes directly, for reproducible scenarios.
    pub fn set_target_ids(&mut self, start: usize, end: usize)
        requires
            old(self).wf(),
            old(self).tiles@.len() > 0,
            start < old(self).tiles@.len(),
            end < old(self).tiles@.len(),
        ensures
            final(self).wf(),
            *final(self) == (WorldState {
                start_id: start as i32,
                end_id: end as i32,
                ..*old(self)
            }),
    {
        proof {
            assert(self.tiles@.len() <= 100_000_000) by (nonlinear_arith)
                requires
                    self.tiles@.len() == self.cols() * self.rows(),
                    1 <= self.cols() <= 10_000,
                    1 <= self.rows() <= 10_000,
            ;
        }
        self.start_id = start as i32;
        self.end_id = end as i32;
    }

    /// Record the host window size (display-only; no invariant depends on it).
    pub fn set_window_size(&mut self, w: u32, h: u32)
        requires
            old(self).wf(),
        ensures
            final(self).wf(),
            *final(self) == (WorldState { window_width: w, window_height: h, ..*old(self) }),
    {
        self.window_width = w;
        self.window_height = h;
    }

    /// Set the wall probability for randomized generation, in thousandths.
    pub fn set_wall_permille(&mut self, p: u16)
        requires
            old(self).wf(),
            p <= 1000,
        ensures
            final(self).wf(),
            *final(self) == (WorldState { wall_permille: p, ..*old(self) }),
    {
        self.wall_permille = p;
    }

    /// Move the agent by one input step: 7 pixels in each requested
    /// direction, applied per axis only when the agent's footprint would
    /// stay strictly inside the playable area (otherwise that axis does not
    /// move).
    pub fn update_player(&mut self, x_dir: i32, y_dir: i32)
        requires
            old(self).wf(),
        ensures
            final(self).wf(),
            ({
                let nx = old(self).player.pos_x + 7 * x_dir;
                final(self).player.pos_x == if nx + old(self).tile_size < old(self).width && nx > 0 {
                    nx as i64
                } else {
                    old(self).player.pos_x
                }
            }),
            ({
                let ny = old(self).player.pos_y + 7 * y_dir;
                final(self).player.pos_y == if ny + old(self).tile_size < old(self).height && ny > 0 {
                    ny as i64
                } else {
                    old(self).player.pos_y
                }
            }),
            *final(self) == (WorldState { player: final(self).player, ..*old(self) }),
            final(self).player.scale_x == old(self).player.scale_x,
            final(self).player.scale_y == old(self).player.scale_y,
    {
        let new_x: i64 = self.player.pos_x + 7 * (x_dir as i64);
        let new_y: i64 = self.player.pos_y + 7 * (y_dir as i64);
        if new_x + (self.tile_size as i64) < self.width as i64 && new_x > 0 {
            self.player.pos_x = new_x;
        }
        if new_y + (self.tile_size as i64) < self.height as i64 && new_y > 0 {
            self.player.pos_y = new_y;
        }
    }

    /// Place the agent from an absolute pointer position: the pointer's
    /// window coordinates are scaled by the canvas quality and centered on
    /// the agent's footprint, with the same per-axis clamping as movement.
    pub fn set_player_pos(&mut self, x: i32, y: i32)
        requires
            old(self).wf(),
        ensures
            final(self).wf(),
            ({
                let nx = x * old(self).quality - (old(self).tile_size / 2) as int;
                final(self).player.pos_x == if nx + old(self).tile_size < old(self).width && nx > 0 {
                    nx as i64
                } else {
                    old(self).player.pos_x
                }
            }),
            ({
                let ny = y * old(self).quality - (old(self).tile_size / 2) as int;
                final(self).player.pos_y == if ny + old(self).tile_size < old(self).height && ny > 0 {
                    ny as i64
                } else {
                    old(self).player.pos_y
                }
            }),
            *final(self) == (WorldState { player: final(self).player, ..*old(self) }),
    {
        let half_tile: i64 = (self.tile_size / 2) as i64;
        proof {
            assert(self.quality == 2 && self.tile_size <= 100_000);
        }
        let new_x: i64 = (x as i64) * (self.quality as i64) - half_tile;
        let new_y: i64 = (y as i64) * (self.quality as i64) - half_tile;
        if new_x + (self.tile_size as i64) < self.width as i64 && new_x > 0 {
            self.player.pos_x = new_x;
        }
        if new_y + (self.tile_size as i64) < self.height as i64 && new_y > 0 {
            self.player.pos_y = new_y;
        }
    }
}

/// Ceiling division for a positive divisor, over mathematical integers
/// (`/` and `%` are Euclidean here).
pub open spec fn ceil_div(a: int, b: int) -> int {
    if a % b == 0 {
        a / b
    } else {
        a / b + 1
    }
}

/// Executable ceiling division: `a` may dip slightly negative (the agent's
/// centering offset), in which case the ceiling is zero.
fn ceil_div_i64(a: i64, b: i64) -> (q: i64)
    requires
        1 <= b <= 100_000,
        -b < a <= 1_000_000_000,
    ensures
        q == ceil_div(a as int, b as int),
        0 <= q,
{
    if a <= 0 {
        proof {
            if a < 0 {
                lemma_fundamental_div_mod_converse(a as int, b as int, -1, a + b);
            }
        }
        0
    } else {
        let q0: u64 = (a as u64) / (b as u64);
        let r: u64 = (a as u64) % (b as u64);
        proof {
            lemma_mod_division_less_than_divisor(a as int, b as int);
            lemma_fundamental_div_mod(a as int, b as int);
        }
        if r == 0 {
            q0 as i64
        } else {
            (q0 + 1) as i64
        }
    }
}

impl WorldState {
    /// The row-major node id of the tile in column `x` of row `y`.
    pub fn get_tile_id_at(&self, x: u32, y: u32) -> (id: usize)
        requires
            self.wf(),
            x < self.cols(),
            y < self.rows(),
        ensures
            id == y * self.cols() + x,
            id < self.cols() * self.rows(),
    {
        let num_tiles: u32 = self.width / self.tile_size;
        proof {
            assert((y as int) * (num_tiles as int) + x < self.cols() * self.rows()
                && (y as int) * (num_tiles as int) <= 100_000_000) by (nonlinear_arith)
                requires
                    num_tiles == self.cols(),
                    1 <= self.cols() <= 10_000,
                    1 <= self.rows() <= 10_000,
                    0 <= x < self.cols(),
                    0 <= y < self.rows(),
            ;
        }
        (y as usize) * (num_tiles as usize) + (x as usize)
    }

    /// The node id of the tile the point `(x, y)` falls closest to:
    /// `ceil(y / tile_size)` rows down and `ceil(x / tile_size)` columns
    /// across, in row-major order. The point may dip up to half a tile
    /// negative (the agent-centering offset); the playable-area clamp keeps
    /// the result a valid tile id.
    pub fn get_tile_id_closest_to(&self, x: i64, y: i64) -> (id: usize)
        requires
            self.wf(),
            -(self.tile_size as int) < x,
            x + self.tile_size <= self.width,
            -(self.tile_size as int) < y,
            y + self.tile_size <= self.height,
        ensures
            id == ceil_div(y as int, self.tile_size as int) * self.cols() + ceil_div(
                x as int,
                self.tile_size as int,
            ),
            id < self.cols() * self.rows(),
    {
        let size: i64 = self.tile_size as i64;
        let cx: i64 = ceil_div_i64(x, size);
        let cy: i64 = ceil_div_i64(y, size);
        let cols: u32 = self.width / self.tile_size;
        proof {
            let t = self.tile_size as int;
            lemma_fundamental_div_mod(self.width as int, t);
            lemma_fundamental_div_mod(self.height as int, t);
            // x <= width - t == (cols - 1) * t, so its ceiling is a valid column.
            assert(x <= (self.cols() - 1) * t && y <= (self.rows() - 1) * t) by (nonlinear_arith)
                requires
                    t >= 1,
                    x + t <= self.width,
                    y + t <= self.height,
                    self.width == t * self.cols() + self.width as int % t,
                    self.height == t * self.rows() + self.height as int % t,
                    self.width as int % t == 0,
                    self.height as int % t == 0,
            ;
            lemma_ceil_div_le(x as int, t, self.cols() - 1);
            lemma_ceil_div_le(y as int, t, self.rows() - 1);
            assert((cy as int) * (cols as int) + cx < self.cols() * self.rows() && (cy as int) * (
            cols as int) <= 100_000_000) by (nonlinear_arith)
                requires
                    cols == self.cols(),
                    1 <= self.cols() <= 10_000,
                    1 <= self.rows() <= 10_000,
                    0 <= cx <= self.cols() - 1,
                    0 <= cy <= self.rows() - 1,
            ;
        }
        (cy as usize) * (cols as usize) + (cx as usize)
    }

    /// Re-root the search at the agent: project the agent's position,
    /// centered on its footprint, to the nearest tile and make that tile
    /// the start node. Called every step, so the path follows the agent.
    pub fn set_start_node(&mut self)
        requires
            old(self).wf(),
            old(self).tiles@.len() > 0,
        ensures
            final(self).wf(),
            *final(self) == (WorldState { start_id: final(self).start_id, ..*old(self) }),
            0 <= final(self).start_id < old(self).tiles@.len(),
            final(self).start_id == ceil_div(
                old(self).player.pos_y - (old(self).tile_size / 2) as int,
                old(self).tile_size as int,
            ) * old(self).cols() + ceil_div(
                old(self).player.pos_x - (old(self).tile_size / 2) as int,
                old(self).tile_size as int,
            ),
    {
        let half_tile: i64 = (self.tile_size / 2) as i64;
        let sx: i64 = self.player.pos_x - half_tile;
        let sy: i64 = self.player.pos_y - half_tile;
        let id: usize = self.get_tile_id_closest_to(sx, sy);
        proof {
            assert(id < 100_000_000) by (nonlinear_arith)
                requires
                    id < self.cols() * self.rows(),
                    1 <= self.cols() <= 10_000,
                    1 <= self.rows() <= 10_000,
            ;
        }
        self.start_id = id as i32;
    }
}

impl WorldState {
    /// Recompute the shortest-cost spanning structure from the current
    /// start node toward the current end node, in place.
    ///
    /// The first tiles clause pins the outcome completely: the tile array
    /// afterward is `astar_spec` of the array before — a function of the
    /// walls, the links, the coordinates and the two chosen nodes, so the
    /// search is deterministic. The later clauses surface the heuristic
    /// formula and the parent/cost relation. Success is signalled solely by
    /// the end tile's `parent_id`: it stays the sentinel exactly when no
    /// path exists.
    pub fn calc_astar(&mut self)
        requires
            old(self).wf(),
            old(self).tiles@.len() > 0,
            old(self).start_id >= 0,
            old(self).end_id >= 0,
        ensures
            final(self).wf(),
            *final(self) == (WorldState { tiles: final(self).tiles, ..*old(self) }),
            final(self).tiles@ == crate::search::astar_spec(
                old(self).tiles@,
                old(self).start_id as int,
                old(self).end_id as int,
            ),
            final(self).tiles@.len() == old(self).tiles@.len(),
            forall|i: int| 0 <= i < old(self).tiles@.len() ==> same_shape(
                #[trigger] final(self).tiles@[i],
                old(self).tiles@[i],
            ),
            forall|i: int| 0 <= i < old(self).tiles@.len() && !old(self).tiles@[i].is_wall ==> (
            #[trigger] final(self).tiles@[i]).h == manhattan_h(
                old(self).tiles@[i],
                old(self).tiles@[old(self).end_id as int].x_id as int,
                old(self).tiles@[old(self).end_id as int].y_id as int,
            ),
            forall|i: int|
                0 <= i < old(self).tiles@.len() && (#[trigger] final(self).tiles@[i]).parent_id
                    != NO_NODE ==> {
                    let p = final(self).tiles@[i].parent_id as int;
                    &&& 0 <= p < old(self).tiles@.len()
                    &&& final(self).tiles@[i].g == final(self).tiles@[p].g + MOVE_COST
                    &&& !final(self).tiles@[i].is_wall
                    &&& !final(self).tiles@[p].is_wall
                },
            final(self).tiles@[old(self).start_id as int].parent_id == NO_NODE,
            forall|j: int|
                0 <= j < old(self).tiles@.len() && (#[trigger] final(self).tiles@[j]).parent_id
                    != NO_NODE ==> (final(self).tiles@[j].parent_id == old(self).start_id
                    || final(self).tiles@[final(self).tiles@[j].parent_id as int].parent_id
                    != NO_NODE),
    {
        let ghost cols = self.cols();
        let ghost rows = self.rows();
        let ghost oldt = self.tiles@;
        proof {
            crate::search::lemma_grid_search_pre(self.tiles@, cols, rows);
            assert(cols * rows <= 100_000_000) by (nonlinear_arith)
                requires
                    1 <= cols <= 10_000,
                    1 <= rows <= 10_000,
            ;
        }
        let s: usize = self.start_id as usize;
        let e: usize = self.end_id as usize;
        crate::search::astar(&mut self.tiles, s, e);
        proof {
            let newt = self.tiles@;
            let ts = self.tile_size as int;
            assert forall|i: int| 0 <= i < newt.len() implies grid_tile_ok(
                #[trigger] newt[i],
                i,
                cols,
                ts,
            ) by {
                assert(same_shape(newt[i], oldt[i]));
                assert(grid_tile_ok(oldt[i], i, cols, ts));
            }
            assert forall|i: int|
                #![trigger grid::expected_top(newt, i, cols, rows)]
                0 <= i < newt.len() implies {
                &&& newt[i].top == grid::expected_top(newt, i, cols, rows)
                &&& newt[i].bottom == grid::expected_bottom(newt, i, cols, rows)
                &&& newt[i].left == grid::expected_left(newt, i, cols, rows)
                &&& newt[i].right == grid::expected_right(newt, i, cols, rows)
            } by {
                grid::lemma_neighbor_bounds(i, cols, rows, newt.len() as int);
                assert(oldt[i].top == grid::expected_top(oldt, i, cols, rows));
                assert(oldt[i].bottom == grid::expected_bottom(oldt, i, cols, rows));
                assert(oldt[i].left == grid::expected_left(oldt, i, cols, rows));
                assert(oldt[i].right == grid::expected_right(oldt, i, cols, rows));
                assert(same_shape(newt[i], oldt[i]));
                if i / cols >= 1 {
                    assert(same_shape(newt[i - cols], oldt[i - cols]));
                }
                if i / cols + 1 < rows {
                    assert(same_shape(newt[i + cols], oldt[i + cols]));
                }
                if i % cols >= 1 {
                    assert(same_shape(newt[i - 1], oldt[i - 1]));
                }
                if i % cols + 1 < cols {
                    assert(same_shape(newt[i + 1], oldt[i + 1]));
                }
            }
            assert(adjacency_ok(newt, cols, rows));
            assert forall|i: int| 0 <= i < newt.len() implies #[trigger] world_scratch_ok(
                newt,
                i,
            ) by {
                assert(world_scratch_ok(oldt, i));
                assert(same_shape(newt[i], oldt[i]));
                grid::lemma_index_in_grid(i, cols, rows);
                assert(grid_tile_ok(oldt[i], i, cols, ts));
                assert(grid_tile_ok(oldt[self.end_id as int], self.end_id as int, cols, ts));
                if !oldt[i].is_wall {
                    assert(newt[i].h == manhattan_h(
                        oldt[i],
                        oldt[self.end_id as int].x_id as int,
                        oldt[self.end_id as int].y_id as int,
                    ));
                    grid::lemma_index_in_grid(self.end_id as int, cols, rows);
                    assert(0 <= newt[i].h <= 400_000);
                }
            }
        }
    }
}

/// A playfield dimension that is a multiple of 100 is divisible by each of
/// the tile size candidates, into a supported number of cells.
proof fn lemma_size_candidate(w: int, t: int)
    requires
        100 <= w <= 100_000,
        w % 100 == 0,
        t == 10 || t == 20 || t == 50,
    ensures
        w % t == 0,
        2 <= w / t <= 10_000,
{
    lemma_fundamental_div_mod(w, 100);
    let k = w / 100;
    assert(1 <= k <= 1000);
    if t == 10 {
        lemma_fundamental_div_mod_converse(w, 10, 10 * k, 0);
    } else if t == 20 {
        lemma_fundamental_div_mod_converse(w, 20, 5 * k, 0);
    } else {
        lemma_fundamental_div_mod_converse(w, 50, 2 * k, 0);
    }
}

/// The tile size a candidate draw selects: 10, 20 or 50.
pub open spec fn size_candidate(k: int) -> u32 {
    if k == 0 {
        10
    } else if k == 1 {
        20
    } else {
        50
    }
}

/// The node id two consecutive coordinate draws from state `s` select: a
/// column in `0..cols`, then a row in `0..rows`, combined in row-major
/// order. No wall filter is applied; an unreachable pick is absorbed by the
/// bounded retry in `reset`.
pub open spec fn target_draw(s: u64, cols: int, rows: int) -> int {
    let x = crate::rng::lcg_range(s, 0, cols - 1);
    let y = crate::rng::lcg_range(crate::rng::lcg_nth(s, 1), 0, rows - 1);
    y * cols + x
}

/// What one regeneration leaves behind, relative to the generator state `s0`
/// it started from: the tile size is the candidate the first draw selects,
/// every wall flag is one subsequent independent draw, the start and end
/// nodes come from the four coordinate draws after that, and the generator
/// has advanced past every draw made. (The agent's placement on the start
/// tile is stated separately, since later movement steps change it.)
pub open spec fn regen_marks(w: WorldState, s0: u64) -> bool {
    let n = w.tiles@.len() as int;
    let st = crate::rng::lcg_nth(s0, (n + 1) as nat);
    &&& w.tile_size == size_candidate(crate::rng::lcg_range(s0, 0, 2))
    &&& n == w.cols() * w.rows()
    &&& forall|i: int| 0 <= i < n ==> (#[trigger] w.tiles@[i]).is_wall == (crate::rng::lcg_below(
        crate::rng::lcg_nth(s0, (i + 1) as nat),
        1000,
    ) >= 1000 - w.wall_permille)
    &&& w.start_id == target_draw(st, w.cols(), w.rows())
    &&& w.end_id == target_draw(crate::rng::lcg_nth(st, 2), w.cols(), w.rows())
    &&& w.rng.state == crate::rng::lcg_nth(st, 4)
    &&& 0 <= w.start_id < n
    &&& 0 <= w.end_id < n
}

/// Projecting the point centered on a tile's footprint back to the grid
/// recovers that tile's coordinate: the ceiling of `(v*t - t/2) / t` is `v`.
proof fn lemma_center_projection(v: int, t: int)
    requires
        t >= 2,
        0 <= v,
    ensures
        ceil_div(v * t - t / 2, t) == v,
{
    lemma_fundamental_div_mod(t, 2);
    let h = t / 2;
    assert(1 <= h && 1 <= t - h < t);
    if v == 0 {
        lemma_fundamental_div_mod_converse(0 * t - h, t, -1, t - h);
    } else {
        assert((v - 1) * t == v * t - t) by (nonlinear_arith);
        lemma_fundamental_div_mod_converse(v * t - h, t, v - 1, t - h);
    }
}

impl WorldState {
    /// Put the agent exactly on tile `id`.
    fn place_player_at(&mut self, id: usize)
        requires
            old(self).wf(),
            old(self).tiles@.len() > 0,
            id < old(self).tiles@.len(),
        ensures
            final(self).wf(),
            *final(self) == (WorldState { player: final(self).player, ..*old(self) }),
            final(self).player.pos_x == old(self).tiles@[id as int].transform.pos_x,
            final(self).player.pos_y == old(self).tiles@[id as int].transform.pos_y,
            final(self).player.scale_x == old(self).player.scale_x,
            final(self).player.scale_y == old(self).player.scale_y,
    {
        proof {
            let cols = self.cols();
            let rows = self.rows();
            let t = self.tile_size as int;
            grid::lemma_index_in_grid(id as int, cols, rows);
            assert(grid_tile_ok(self.tiles@[id as int], id as int, cols, t));
            lemma_fundamental_div_mod(self.width as int, t);
            lemma_fundamental_div_mod(self.height as int, t);
            assert(0 <= ((id as int) % cols) * t && ((id as int) % cols) * t + t <= self.width
                && 0 <= ((id as int) / cols) * t && ((id as int) / cols) * t + t <= self.height)
                by (nonlinear_arith)
                requires
                    t >= 1,
                    0 <= (id as int) % cols < cols,
                    0 <= (id as int) / cols < rows,
                    self.width == t * cols,
                    self.height == t * rows,
            ;
        }
        self.player.pos_x = self.tiles[id].transform.pos_x;
        self.player.pos_y = self.tiles[id].transform.pos_y;
    }

    /// Pick a random start tile and a random end tile (either may land on a
    /// wall; an unsolvable pick is absorbed by the bounded retry in
    /// `reset`), and put the agent on the start tile.
    #[verifier::rlimit(50)]
    fn set_target_tiles(&mut self)
        requires
            old(self).wf(),
            old(self).tiles@.len() > 0,
        ensures
            final(self).wf(),
            *final(self) == (WorldState {
                start_id: final(self).start_id,
                end_id: final(self).end_id,
                player: final(self).player,
                rng: final(self).rng,
                ..*old(self)
            }),
            0 <= final(self).start_id < old(self).tiles@.len(),
            0 <= final(self).end_id < old(self).tiles@.len(),
            final(self).start_id == target_draw(
                old(self).rng.state,
                old(self).cols(),
                old(self).rows(),
            ),
            final(self).end_id == target_draw(
                crate::rng::lcg_nth(old(self).rng.state, 2),
                old(self).cols(),
                old(self).rows(),
            ),
            final(self).rng.state == crate::rng::lcg_nth(old(self).rng.state, 4),
            final(self).player.pos_x == old(self).tiles@[final(self).start_id as int].transform.pos_x,
            final(self).player.pos_y == old(self).tiles@[final(self).start_id as int].transform.pos_y,
    {
        let ghost s0 = self.rng.state;
        let cols_e: u32 = self.width / self.tile_size;
        let rows_e: u32 = self.height / self.tile_size;
        let sx: i32 = self.rng.random_range(0, cols_e as i32 - 1);
        let sy: i32 = self.rng.random_range(0, rows_e as i32 - 1);
        let s: usize = self.get_tile_id_at(sx as u32, sy as u32);
        let ex: i32 = self.rng.random_range(0, cols_e as i32 - 1);
        let ey: i32 = self.rng.random_range(0, rows_e as i32 - 1);
        let e: usize = self.get_tile_id_at(ex as u32, ey as u32);
        proof {
            assert(self.cols() * self.rows() <= 100_000_000) by (nonlinear_arith)
                requires
                    1 <= self.cols() <= 10_000,
                    1 <= self.rows() <= 10_000,
            ;
            crate::rng::lemma_lcg_nth_step(s0, 0);
            crate::rng::lemma_lcg_nth_step(s0, 1);
            crate::rng::lemma_lcg_nth_step(s0, 2);
            crate::rng::lemma_lcg_nth_step(s0, 3);
            crate::rng::lemma_lcg_nth_add(s0, 2, 1);
        }
        self.start_id = s as i32;
        self.end_id = e as i32;
        self.place_player_at(s);
    }

    /// One regeneration: pick a tile size from the candidate set, generate
    /// a fresh randomized map, link its adjacency, pick random start and end
    /// tiles, re-root at the agent, and run one search.
    fn regenerate(&mut self)
        requires
            old(self).wf(),
        ensures
            final(self).wf(),
            final(self).tiles@.len() > 0,
            0 <= final(self).start_id < final(self).tiles@.len(),
            0 <= final(self).end_id < final(self).tiles@.len(),
            final(self).debug == old(self).debug,
            final(self).window_width == old(self).window_width,
            final(self).window_height == old(self).window_height,
            final(self).width == old(self).width,
            final(self).height == old(self).height,
            final(self).quality == old(self).quality,
            final(self).recent_regen == old(self).recent_regen,
            final(self).wall_permille == old(self).wall_permille,
            final(self).tile_size == 10 || final(self).tile_size == 20 || final(self).tile_size
                == 50,
            regen_marks(*final(self), old(self).rng.state),
            final(self).player.pos_x == final(self).tiles@[final(self).start_id as int].transform.pos_x,
            final(self).player.pos_y == final(self).tiles@[final(self).start_id as int].transform.pos_y,
    {
        let ghost s0 = self.rng.state;
        let pick: i32 = self.rng.random_range(0, 2);
        let ts: u32 = if pick == 0 {
            10
        } else if pick == 1 {
            20
        } else {
            50
        };
        proof {
            lemma_size_candidate(self.width as int, ts as int);
            lemma_size_candidate(self.height as int, ts as int);
        }
        self.tile_size = ts;
        // The agent is re-placed on the new start tile below; parking it at
        // the origin keeps its footprint inside the playfield meanwhile.
        self.player.pos_x = 0;
        self.player.pos_y = 0;
        self.start_id = NO_NODE;
        self.end_id = NO_NODE;
        let ghost s1 = self.rng.state;
        let cols_e: usize = (self.width / ts) as usize;
        let rows_e: usize = (self.height / ts) as usize;
        let new_tiles = grid::generate_tiles(cols_e, rows_e, ts, &mut self.rng, self.wall_permille);
        self.tiles = new_tiles;
        let ghost gen = self.tiles@;
        grid::link_sides(&mut self.tiles, cols_e, rows_e);
        proof {
            let cols = self.cols();
            let rows = self.rows();
            let newt = self.tiles@;
            assert(newt.len() >= 1 && cols * rows <= 100_000_000) by (nonlinear_arith)
                requires
                    newt.len() == cols * rows,
                    1 <= cols <= 10_000,
                    1 <= rows <= 10_000,
            ;
            assert forall|i: int| 0 <= i < newt.len() implies grid_tile_ok(
                #[trigger] newt[i],
                i,
                cols,
                ts as int,
            ) && world_scratch_ok(newt, i) by {
                grid::lemma_index_in_grid(i, cols, rows);
            }
            // The wall draws count from the state after the size pick.
            crate::rng::lemma_lcg_nth_step(s0, 0);
            crate::rng::lemma_lcg_nth_add(s0, 1, newt.len() as nat);
            assert forall|i: int| 0 <= i < newt.len() implies (#[trigger] newt[i]).is_wall == (
            crate::rng::lcg_below(crate::rng::lcg_nth(s0, (i + 1) as nat), 1000) >= 1000
                - self.wall_permille) by {
                assert(newt[i] == grid::sides_linked(gen, i, cols, rows));
                crate::rng::lemma_lcg_nth_add(s0, 1, i as nat);
            }
        }
        let ghost st = self.rng.state;
        self.set_target_tiles();
        let ghost drawn_start = self.start_id as int;
        let ghost mid = *self;
        self.set_start_node();
        proof {
            // Re-projecting the agent, centered on the start tile's
            // footprint, recovers the drawn start node.
            let cols = self.cols();
            let rows = self.rows();
            grid::lemma_index_in_grid(drawn_start, cols, rows);
            assert(grid_tile_ok(mid.tiles@[drawn_start], drawn_start, cols, ts as int));
            lemma_center_projection(drawn_start % cols, ts as int);
            lemma_center_projection(drawn_start / cols, ts as int);
            assert(self.start_id == drawn_start);
        }
        self.calc_astar();
        proof {
            assert forall|i: int| 0 <= i < self.tiles@.len() implies (
            #[trigger] self.tiles@[i]).is_wall == mid.tiles@[i].is_wall
                && self.tiles@[i].transform == mid.tiles@[i].transform by {
                assert(same_shape(self.tiles@[i], mid.tiles@[i]));
            }
            assert(regen_marks(*self, s0));
        }
    }

    /// Regenerate until the chosen end tile is reachable from the chosen
    /// start tile, up to `MAX_REGEN_ATTEMPTS` times. Returns whether a
    /// solvable map was produced: on `true` the end tile's parent chain is
    /// set; on `false` the last generated map is kept and the end tile's
    /// `parent_id` is the sentinel.
    pub fn reset(&mut self) -> (found: bool)
        requires
            old(self).wf(),
        ensures
            final(self).wf(),
            final(self).tiles@.len() > 0,
            0 <= final(self).start_id < final(self).tiles@.len(),
            0 <= final(self).end_id < final(self).tiles@.len(),
            found == (final(self).tiles@[final(self).end_id as int].parent_id != NO_NODE),
            final(self).tile_size == 10 || final(self).tile_size == 20 || final(self).tile_size
                == 50,
            exists|s0: u64| #[trigger] regen_marks(*final(self), s0),
            final(self).player.pos_x == final(self).tiles@[final(self).start_id as int].transform.pos_x,
            final(self).player.pos_y == final(self).tiles@[final(self).start_id as int].transform.pos_y,
            final(self).debug == old(self).debug,
            final(self).window_width == old(self).window_width,
            final(self).window_height == old(self).window_height,
            final(self).width == old(self).width,
            final(self).height == old(self).height,
            final(self).quality == old(self).quality,
            final(self).recent_regen == old(self).recent_regen,
            final(self).wall_permille == old(self).wall_permille,
    {
        let mut found: bool = false;
        let mut attempt: u32 = 0;
        while attempt < MAX_REGEN_ATTEMPTS && !found
            invariant
                self.wf(),
                attempt <= MAX_REGEN_ATTEMPTS,
                attempt == 0 ==> !found,
                attempt >= 1 ==> {
                    &&& self.tiles@.len() > 0
                    &&& 0 <= self.start_id < self.tiles@.len()
                    &&& 0 <= self.end_id < self.tiles@.len()
                    &&& found == (self.tiles@[self.end_id as int].parent_id != NO_NODE)
                    &&& (self.tile_size == 10 || self.tile_size == 20 || self.tile_size == 50)
                    &&& exists|s0: u64| #[trigger] regen_marks(*self, s0)
                    &&& self.player.pos_x == self.tiles@[self.start_id as int].transform.pos_x
                    &&& self.player.pos_y == self.tiles@[self.start_id as int].transform.pos_y
                },
                self.debug == old(self).debug,
                self.window_width == old(self).window_width,
                self.window_height == old(self).window_height,
                self.width == old(self).width,
                self.height == old(self).height,
                self.quality == old(self).quality,
                self.recent_regen == old(self).recent_regen,
                self.wall_permille == old(self).wall_permille,
            decreases MAX_REGEN_ATTEMPTS - attempt,
        {
            let ghost s_att = self.rng.state;
            self.regenerate();
            proof {
                assert(regen_marks(*self, s_att));
            }
            found = self.tiles[self.end_id as usize].parent_id != NO_NODE;
            attempt = attempt + 1;
        }
        found
    }

    /// One simulation step: re-root the search at the agent's current tile
    /// and recompute the path toward the fixed end tile.
    pub fn step(&mut self)
        requires
            old(self).wf(),
            old(self).tiles@.len() > 0,
            old(self).end_id >= 0,
        ensures
            final(self).wf(),
            *final(self) == (WorldState {
                start_id: final(self).start_id,
                tiles: final(self).tiles,
                ..*old(self)
            }),
            0 <= final(self).start_id < old(self).tiles@.len(),
            final(self).start_id == ceil_div(
                old(self).player.pos_y - (old(self).tile_size / 2) as int,
                old(self).tile_size as int,
            ) * old(self).cols() + ceil_div(
                old(self).player.pos_x - (old(self).tile_size / 2) as int,
                old(self).tile_size as int,
            ),
            final(self).tiles@ == crate::search::astar_spec(
                old(self).tiles@,
                final(self).start_id as int,
                old(self).end_id as int,
            ),
    {
        self.set_start_node();
        self.calc_astar();
    }
}

/// Whether a parsed layout fits the world: at least one row and one column,
/// within the supported grid size, uniform row lengths, and cell counts that
/// tile the playfield exactly at the given tile size.
pub open spec fn layout_accepted(flags: Seq<Seq<bool>>, t: int, w: int, h: int) -> bool {
    &&& 1 <= flags.len() <= MAX_GRID_DIM
    &&& 1 <= flags[0].len() <= MAX_GRID_DIM
    &&& forall|r: int| 0 <= r < flags.len() ==> (#[trigger] flags[r]).len() == flags[0].len()
    &&& 1 <= t
    &&& flags[0].len() * t == w
    &&& flags.len() * t == h
}

/// The built-in demonstration layout: 36 columns by 24 rows of cells,
/// separated by commas, one row per line.
pub const DEMO_MAP: &'static str = "0,0,1,1,1,0,0,0,0,0,0,0,0,0,1,1,1,1,1,0,1,0,1,0,0,1,0,0,0,1,1,0,1,0,0,0,
            0,0,1,1,0,0,0,0,0,0,0,0,0,1,0,0,0,1,1,0,0,0,0,0,0,1,0,0,0,1,0,1,0,1,1,1,
            0,1,0,0,1,0,1,0,1,1,0,0,0,0,1,0,0,0,0,1,0,1,0,1,1,0,0,0,1,0,0,1,0,0,1,1,
            0,0,0,0,1,0,1,1,0,0,1,0,1,0,0,0,0,0,1,0,0,0,0,1,1,0,0,0,0,0,0,1,0,0,0,1,
            1,0,1,0,1,1,0,0,0,0,0,0,1,0,0,0,0,0,0,0,0,0,0,0,1,0,1,0,1,0,0,0,1,0,0,0,
            0,0,0,0,1,1,0,0,0,1,0,0,1,1,1,0,1,0,0,0,0,0,1,0,1,0,0,0,0,1,0,0,1,0,0,0,
            1,0,0,0,1,0,1,0,0,0,0,1,0,0,0,0,1,0,0,0,0,1,0,0,0,0,0,1,0,0,0,1,0,0,0,0,
            0,0,1,1,1,1,0,1,0,0,1,0,0,0,1,0,0,1,1,0,0,0,0,1,0,0,0,0,1,1,1,0,1,1,1,0,
            0,0,0,0,0,1,0,0,0,0,1,1,1,1,1,0,0,1,0,0,0,0,0,1,1,0,0,0,0,0,1,0,1,1,0,1,
            0,1,0,1,0,0,0,0,0,0,0,0,1,0,1,0,1,0,0,0,0,0,0,1,0,1,0,0,0,1,0,0,0,0,0,0,
            0,1,0,1,0,1,1,0,1,0,0,0,0,0,0,0,1,0,0,0,0,1,0,0,1,0,0,0,1,1,0,0,0,1,1,0,
            1,0,1,0,1,0,0,0,1,0,1,0,1,1,0,0,1,1,0,1,0,1,0,0,0,1,0,1,0,0,0,0,0,1,0,0,
            0,0,0,0,1,0,0,0,1,0,0,1,0,0,1,1,0,0,0,1,1,1,0,0,0,1,0,0,0,0,1,0,1,0,1,0,
            0,0,0,0,0,0,1,1,0,0,1,1,0,0,1,0,0,0,1,0,1,1,0,0,0,0,1,1,1,0,0,1,0,0,0,0,
            1,0,0,1,0,1,0,0,1,0,0,0,0,0,0,1,1,1,1,0,0,0,0,0,0,0,0,0,1,0,0,0,0,0,1,0,
            0,0,0,0,0,0,0,0,0,0,0,0,1,1,0,0,0,1,1,1,0,0,0,0,0,1,0,0,1,0,1,0,0,0,1,0,
            0,1,0,0,0,0,0,0,0,0,0,0,0,0,1,0,0,0,1,0,0,0,0,0,0,0,0,0,0,0,1,0,1,0,0,0,
            0,0,0,1,0,0,0,0,0,0,0,1,0,0,1,0,1,1,0,0,0,0,0,0,1,0,0,0,0,0,1,0,0,1,0,0,
            0,0,0,0,0,0,0,0,1,0,0,0,0,0,0,1,0,0,1,0,0,0,0,0,0,0,1,0,0,0,1,0,0,1,1,0,
            1,0,0,0,0,1,0,0,1,1,0,1,0,0,1,0,1,0,0,0,0,0,0,1,1,1,0,1,0,0,0,0,1,1,0,1,
            0,1,1,1,0,0,0,0,0,1,0,0,0,0,0,0,0,0,0,0,1,0,1,1,0,0,0,0,0,0,0,0,0,0,0,0,
            1,0,0,0,1,0,1,0,0,1,0,0,1,1,1,0,1,0,0,0,1,1,1,0,0,0,1,1,0,0,0,1,0,0,0,0,
            0,0,0,0,0,0,0,0,0,0,0,1,0,0,1,1,0,1,0,0,0,1,0,0,1,0,0,0,0,0,0,0,0,1,1,0,
            0,0,0,0,0,0,1,1,0,0,0,1,1,1,0,0,0,0,0,0,0,0,1,1,1,0,1,0,1,0,1,0,1,0,0,0,";

/// Every tile's parent link, when set, points into the array at a node
/// exactly one move cheaper; costs are non-negative. This is what makes
/// walking a parent chain terminate.
pub open spec fn parent_links_ok(tiles: Seq<Tile>) -> bool {
    forall|j: int| 0 <= j < tiles.len() ==> #[trigger] parent_link_ok_at(tiles, j)
}

/// The parent link of one tile (see `parent_links_ok`).
pub open spec fn parent_link_ok_at(tiles: Seq<Tile>, j: int) -> bool {
    &&& 0 <= tiles[j].g
    &&& (tiles[j].parent_id != NO_NODE ==> 0 <= tiles[j].parent_id < tiles.len() && tiles[j].g
        == tiles[tiles[j].parent_id as int].g + MOVE_COST)
}

/// The number of edges on the parent chain from tile `i` back to its root
/// (the first tile with an unset parent). Well-defined because each parent
/// is exactly one move cheaper, so the cost strictly decreases along the
/// chain.
pub open spec fn path_len(tiles: Seq<Tile>, i: int) -> nat
    decreases tiles[i].g
        when parent_links_ok(tiles) && 0 <= i < tiles.len()
        via path_len_decreases
{
    if parent_links_ok(tiles) && 0 <= i < tiles.len() && tiles[i].parent_id != NO_NODE {
        (1 + path_len(tiles, tiles[i].parent_id as int)) as nat
    } else {
        0
    }
}

#[via_fn]
proof fn path_len_decreases(tiles: Seq<Tile>, i: int) {
    if parent_links_ok(tiles) && 0 <= i < tiles.len() && tiles[i].parent_id != NO_NODE {
        assert(parent_link_ok_at(tiles, i));
        assert(parent_link_ok_at(tiles, tiles[i].parent_id as int));
    }
}

/// The tile a parent chain from tile `i` ends at: the first tile reached
/// whose parent is unset.
pub open spec fn path_root(tiles: Seq<Tile>, i: int) -> int
    decreases tiles[i].g
        when parent_links_ok(tiles) && 0 <= i < tiles.len()
        via path_root_decreases
{
    if parent_links_ok(tiles) && 0 <= i < tiles.len() && tiles[i].parent_id != NO_NODE {
        path_root(tiles, tiles[i].parent_id as int)
    } else {
        i
    }
}

#[via_fn]
proof fn path_root_decreases(tiles: Seq<Tile>, i: int) {
    if parent_links_ok(tiles) && 0 <= i < tiles.len() && tiles[i].parent_id != NO_NODE {
        assert(parent_link_ok_at(tiles, i));
        assert(parent_link_ok_at(tiles, tiles[i].parent_id as int));
    }
}

/// The parent links form a tree rooted at the start node: from any reached
/// tile (one with a set parent), following parents ends at `start`, whose
/// own parent is the sentinel. The hypotheses are exactly what `calc_astar`
/// ensures of the tile array it leaves behind.
pub proof fn lemma_parent_tree_rooted(tiles: Seq<Tile>, start: int, i: int)
    requires
        parent_links_ok(tiles),
        0 <= start < tiles.len(),
        tiles[start].parent_id == NO_NODE,
        forall|j: int| 0 <= j < tiles.len() && (#[trigger] tiles[j]).parent_id != NO_NODE ==> (
        tiles[j].parent_id == start || tiles[tiles[j].parent_id as int].parent_id != NO_NODE),
        0 <= i < tiles.len(),
        tiles[i].parent_id != NO_NODE || i == start,
    ensures
        path_root(tiles, i) == start,
    decreases tiles[i].g,
{
    assert(parent_link_ok_at(tiles, i));
    if tiles[i].parent_id != NO_NODE {
        let p = tiles[i].parent_id as int;
        assert(parent_link_ok_at(tiles, p));
        lemma_parent_tree_rooted(tiles, start, p);
    }
}

impl WorldState {
    /// Replace the map with a fixed layout parsed from `text` (see the
    /// layout grammar in the parsing module), using the given tile size.
    /// The layout is accepted exactly when it is non-empty, rectangular,
    /// within the supported grid size, and tiles the playfield exactly;
    /// otherwise the world is left unchanged and `false` is returned. On
    /// success the start and end nodes are unset and the agent is parked at
    /// the origin.
    pub fn load_layout(&mut self, tile_size: u32, text: &[u8]) -> (ok: bool)
        requires
            old(self).wf(),
        ensures
            final(self).wf(),
            ok == layout_accepted(
                crate::layout::parse_layout_spec(text@),
                tile_size as int,
                old(self).width as int,
                old(self).height as int,
            ),
            !ok ==> *final(self) == *old(self),
            ok ==> {
                let flags = crate::layout::parse_layout_spec(text@);
                let cols = flags[0].len() as int;
                &&& *final(self) == (WorldState {
                    tile_size: tile_size,
                    start_id: NO_NODE,
                    end_id: NO_NODE,
                    player: final(self).player,
                    tiles: final(self).tiles,
                    ..*old(self)
                })
                &&& final(self).player.pos_x == 0 && final(self).player.pos_y == 0
                &&& final(self).player.scale_x == old(self).player.scale_x
                &&& final(self).player.scale_y == old(self).player.scale_y
                &&& final(self).tiles@.len() == cols * flags.len()
                &&& forall|i: int| 0 <= i < final(self).tiles@.len() ==> (
                #[trigger] final(self).tiles@[i]).is_wall == flags[i / cols][i % cols]
            },
    {
        let ghost spec_flags = crate::layout::parse_layout_spec(text@);
        let flags: Vec<Vec<bool>> = crate::layout::parse_layout(text);
        proof {
            assert(spec_flags.len() == flags@.len());
            assert(forall|r: int| 0 <= r < flags@.len() ==> spec_flags[r] == (
            #[trigger] flags@[r])@);
        }
        let rows_n: usize = flags.len();
        if rows_n == 0 || rows_n > 10_000 {
            return false;
        }
        let cols_n: usize = flags[0].len();
        if cols_n == 0 || cols_n > 10_000 {
            return false;
        }
        let mut r: usize = 1;
        #[verifier::loop_isolation(false)]
        while r < rows_n
            invariant
                1 <= r <= rows_n,
                forall|k: int| 0 <= k < r ==> (#[trigger] flags@[k])@.len() == cols_n,
            decreases rows_n - r,
        {
            if flags[r].len() != cols_n {
                return false;
            }
            r = r + 1;
        }
        if tile_size == 0 {
            return false;
        }
        proof {
            assert((cols_n as int) * (tile_size as int) <= 10_000 * 0x1_0000_0000 && (rows_n
                as int) * (tile_size as int) <= 10_000 * 0x1_0000_0000) by (nonlinear_arith)
                requires
                    0 <= cols_n <= 10_000,
                    0 <= rows_n <= 10_000,
                    0 <= tile_size <= 0x1_0000_0000,
            ;
        }
        if (cols_n as u64) * (tile_size as u64) != self.width as u64 {
            return false;
        }
        if (rows_n as u64) * (tile_size as u64) != self.height as u64 {
            return false;
        }
        proof {
            assert(layout_accepted(
                spec_flags,
                tile_size as int,
                self.width as int,
                self.height as int,
            ));
            // The dimension checks pin the tile size and cell counts.
            assert(1 <= tile_size <= 100_000 && tile_size <= self.width && tile_size
                <= self.height) by (nonlinear_arith)
                requires
                    1 <= cols_n,
                    1 <= rows_n,
                    1 <= tile_size,
                    (cols_n as int) * (tile_size as int) == self.width,
                    (rows_n as int) * (tile_size as int) == self.height,
                    self.width <= 100_000,
            ;
            lemma_fundamental_div_mod_converse(
                self.width as int,
                tile_size as int,
                cols_n as int,
                0,
            );
            lemma_fundamental_div_mod_converse(
                self.height as int,
                tile_size as int,
                rows_n as int,
                0,
            );
        }
        self.tile_size = tile_size;
        self.start_id = NO_NODE;
        self.end_id = NO_NODE;
        self.player.pos_x = 0;
        self.player.pos_y = 0;
        let new_tiles = grid::tiles_from_flags(&flags, tile_size);
        self.tiles = new_tiles;
        grid::link_sides(&mut self.tiles, cols_n, rows_n);
        proof {
            let cols = self.cols();
            let rows = self.rows();
            let newt = self.tiles@;
            assert(newt.len() >= 1 && cols * rows <= 100_000_000) by (nonlinear_arith)
                requires
                    newt.len() == cols * rows,
                    1 <= cols <= 10_000,
                    1 <= rows <= 10_000,
            ;
            assert forall|i: int| 0 <= i < newt.len() implies grid_tile_ok(
                #[trigger] newt[i],
                i,
                cols,
                tile_size as int,
            ) && world_scratch_ok(newt, i) && newt[i].is_wall == spec_flags[i / cols][i % cols] by {
                grid::lemma_index_in_grid(i, cols, rows);
            }
        }
        true
    }

    /// Load the built-in fixed demonstration map `DEMO_MAP` (36 x 24 cells
    /// at tile size 50, designed for the default 1800 x 1200 playfield),
    /// with its fixed start and end nodes, and put the agent on the start
    /// tile. The map is accepted exactly when the parsed layout tiles the
    /// current playfield at size 50 and yields enough cells for the fixed
    /// node ids; otherwise the world is left unchanged.
    pub fn load_test_map(&mut self) -> (ok: bool)
        requires
            old(self).wf(),
        ensures
            final(self).wf(),
            ok == ({
                let flags = crate::layout::parse_layout_spec(DEMO_MAP.spec_bytes());
                layout_accepted(flags, 50, old(self).width as int, old(self).height as int) && (
                old(self).width as int / 50) * (old(self).height as int / 50) > 418
            }),
            !ok ==> *final(self) == *old(self),
            ok ==> ({
                let flags = crate::layout::parse_layout_spec(DEMO_MAP.spec_bytes());
                let cols = flags[0].len() as int;
                &&& *final(self) == (WorldState {
                    tile_size: 50,
                    start_id: 418,
                    end_id: 316,
                    player: final(self).player,
                    tiles: final(self).tiles,
                    ..*old(self)
                })
                &&& final(self).tiles@.len() == cols * flags.len()
                &&& final(self).tiles@.len() > 418
                &&& forall|i: int| 0 <= i < final(self).tiles@.len() ==> (
                #[trigger] final(self).tiles@[i]).is_wall == flags[i / cols][i % cols]
                &&& final(self).player.pos_x == final(self).tiles@[418].transform.pos_x
                &&& final(self).player.pos_y == final(self).tiles@[418].transform.pos_y
            }),
    {
        let cw: u64 = (self.width / 50) as u64;
        let ch: u64 = (self.height / 50) as u64;
        proof {
            assert(cw * ch <= 2000 * 2000) by (nonlinear_arith)
                requires
                    0 <= cw <= 2000,
                    0 <= ch <= 2000,
            ;
        }
        let cells: u64 = cw * ch;
        if cells <= 418 {
            return false;
        }
        let ghost flags = crate::layout::parse_layout_spec(DEMO_MAP.spec_bytes());
        let loaded: bool = self.load_layout(50, DEMO_MAP.as_bytes());
        if loaded {
            proof {
                // Acceptance pins the cell counts to the playfield, so the
                // fixed node ids are in range.
                lemma_fundamental_div_mod_converse(
                    self.width as int,
                    50,
                    flags[0].len() as int,
                    0,
                );
                lemma_fundamental_div_mod_converse(self.height as int, 50, flags.len() as int, 0);
            }
            self.start_id = 418;
            self.end_id = 316;
            self.place_player_at(418);
            true
        } else {
            false
        }
    }

    /// The number of tiles on the path from tile `from` back along the
    /// parent chain to its root. After a successful search with `from` the
    /// end node, this is the length of the found path in moves.
    pub fn get_path_count(&self, from: usize) -> (count: usize)
        requires
            self.wf(),
            self.tiles@.len() > 0,
            from < self.tiles@.len(),
        ensures
            count == path_len(self.tiles@, from as int),
    {
        proof {
            assert forall|j: int| 0 <= j < self.tiles@.len() implies #[trigger] parent_link_ok_at(
                self.tiles@,
                j,
            ) by {
                assert(world_scratch_ok(self.tiles@, j));
            }
            lemma_path_len_bound(self.tiles@, from as int);
            assert(world_scratch_ok(self.tiles@, from as int));
            assert(self.tiles@.len() <= 100_000_000) by (nonlinear_arith)
                requires
                    self.tiles@.len() == self.cols() * self.rows(),
                    1 <= self.cols() <= 10_000,
                    1 <= self.rows() <= 10_000,
            ;
        }
        let mut cur: usize = from;
        let mut count: usize = 0;
        while self.tiles[cur].parent_id != NO_NODE
            invariant
                self.wf(),
                self.tiles@.len() > 0,
                from < self.tiles@.len(),
                parent_links_ok(self.tiles@),
                cur < self.tiles@.len(),
                count + path_len(self.tiles@, cur as int) == path_len(self.tiles@, from as int),
                10 * path_len(self.tiles@, from as int) <= self.tiles@[from as int].g,
                self.tiles@[from as int].g <= 10 * self.tiles@.len(),
                self.tiles@.len() <= 100_000_000,
            decreases self.tiles@[cur as int].g,
        {
            proof {
                assert(parent_link_ok_at(self.tiles@, cur as int));
                assert(parent_link_ok_at(
                    self.tiles@,
                    self.tiles@[cur as int].parent_id as int,
                ));
            }
            cur = self.tiles[cur].parent_id as usize;
            count = count + 1;
        }
        count
    }
}

/// A parent chain from tile `i` has at most `g / MOVE_COST` edges: each
/// step toward the root is exactly one move cheaper and costs never go
/// negative.
proof fn lemma_path_len_bound(tiles: Seq<Tile>, i: int)
    requires
        parent_links_ok(tiles),
        0 <= i < tiles.len(),
    ensures
        10 * path_len(tiles, i) <= tiles[i].g,
    decreases tiles[i].g,
{
    assert(parent_link_ok_at(tiles, i));
    if tiles[i].parent_id != NO_NODE {
        let p = tiles[i].parent_id as int;
        assert(parent_link_ok_at(tiles, p));
        lemma_path_len_bound(tiles, p);
    }
}

/// The ceiling of `a / b` never exceeds `m` when `a <= m * b`.
proof fn lemma_ceil_div_le(a: int, b: int, m: int)
    requires
        b >= 1,
        m >= 0,
        a <= m * b,
    ensures
        ceil_div(a, b) <= m,
{
    lemma_fundamental_div_mod(a, b);
    lemma_mod_division_less_than_divisor(a, b);
    let q = a / b;
    let r = a % b;
    if r == 0 {
        assert(q <= m) by (nonlinear_arith)
            requires
                b >= 1,
                m >= 0,
                a <= m * b,
                a == b * q,
        ;
    } else {
        assert(q < m) by (nonlinear_arith)
            requires
                b >= 1,
                m >= 0,
                a <= m * b,
                a == b * q + r,
                0 < r < b,
        ;
    }
}

} // verus!
