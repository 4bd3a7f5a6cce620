//! Tiles: the nodes of the grid graph, with their geometry, terrain flag,
//! neighbor links and A* scratch fields.

use vstd::prelude::*;

verus! {

/// Fixed cost of moving between two adjacent tiles.
pub const MOVE_COST: i32 = 10;

/// Sentinel node id: an absent neighbor or an unset parent.
pub const NO_NODE: i32 = -1;

/// Pixel-space position and extent of a tile or of the agent.
///
/// All coordinates in this engine are integer pixel counts, so positions are
/// held as `i64` (intermediate values may briefly go negative before they are
/// clamped back into the playable area).
#[derive(Clone, Copy)]
pub struct Transform {
    pub pos_x: i64,
    pub pos_y: i64,
    pub scale_x: i64,
    pub scale_y: i64,
}

impl Transform {
    pub fn new(px: i64, py: i64, sx: i64, sy: i64) -> (t: Transform)
        ensures
            t.pos_x == px,
            t.pos_y == py,
            t.scale_x == sx,
            t.scale_y == sy,
    {
        Transform { pos_x: px, pos_y: py, scale_x: sx, scale_y: sy }
    }

    pub fn default() -> (t: Transform)
        ensures
            t.pos_x == 0,
            t.pos_y == 0,
            t.scale_x == 0,
            t.scale_y == 0,
    {
        Transform::new(0, 0, 0, 0)
    }
}

/// Hue/saturation/lightness color of a tile, consumed by the renderer.
#[derive(Clone, Copy)]
pub struct Color {
    pub h: u16,
    pub s: u16,
    pub l: u16,
}

/// The color `Color::default` returns.
pub open spec fn default_color() -> Color {
    Color { h: 0, s: 100, l: 80 }
}

/// The color a tile is given on creation: walls are darker.
pub open spec fn tile_color(is_wall: bool) -> Color {
    if is_wall {
        Color { h: 0, s: 0, l: 20 }
    } else {
        Color { h: 0, s: 0, l: 30 }
    }
}

impl Color {
    pub fn new(h: u16, s: u16, l: u16) -> (c: Color)
        ensures
            c.h == h,
            c.s == s,
            c.l == l,
    {
        Color { h, s, l }
    }

    pub fn default() -> (c: Color)
        ensures
            c == default_color(),
    {
        Color { h: 0, s: 100, l: 80 }
    }
}

/// One node of the grid graph.
///
/// `node_id` is the row-major index of the tile; `x_id`/`y_id` are its column
/// and row. The four neighbor fields hold the node id of the traversable
/// neighbor in that direction, or `NO_NODE` when the cell is absent or is a
/// wall. `parent_id`, `g`, `h` and `f` are the search scratch fields: the
/// best-known predecessor on a path from the start, the accumulated cost from
/// the start, the heuristic estimate to the end, and their sum.
#[derive(Clone, Copy)]
pub struct Tile {
    pub transform: Transform,
    pub color: Color,
    pub x_id: i32,
    pub y_id: i32,
    pub node_id: usize,
    pub parent_id: i32,
    pub top: i32,
    pub bottom: i32,
    pub left: i32,
    pub right: i32,
    pub is_wall: bool,
    pub h: i32,
    pub g: i32,
    pub f: i32,
}

/// |a - b| over mathematical integers.
pub open spec fn abs_diff(a: int, b: int) -> int {
    if a >= b {
        a - b
    } else {
        b - a
    }
}

/// The heuristic of a tile: Manhattan distance to the end tile in grid
/// units, scaled by the move cost.
pub open spec fn manhattan_h(t: Tile, end_x: int, end_y: int) -> int {
    (abs_diff(t.x_id as int, end_x) + abs_diff(t.y_id as int, end_y)) * MOVE_COST
}

/// `t` with its four search scratch fields replaced and all other fields kept.
pub open spec fn scratch_set(t: Tile, parent_id: i32, g: i32, h: i32, f: i32) -> Tile {
    Tile {
        transform: t.transform,
        color: t.color,
        x_id: t.x_id,
        y_id: t.y_id,
        node_id: t.node_id,
        parent_id: parent_id,
        top: t.top,
        bottom: t.bottom,
        left: t.left,
        right: t.right,
        is_wall: t.is_wall,
        h: h,
        g: g,
        f: f,
    }
}

/// True when the two tiles agree on everything except the four search
/// scratch fields (`parent_id`, `g`, `h`, `f`).
pub open spec fn same_shape(a: Tile, b: Tile) -> bool {
    &&& a.transform == b.transform
    &&& a.color == b.color
    &&& a.x_id == b.x_id
    &&& a.y_id == b.y_id
    &&& a.node_id == b.node_id
    &&& a.top == b.top
    &&& a.bottom == b.bottom
    &&& a.left == b.left
    &&& a.right == b.right
    &&& a.is_wall == b.is_wall
}

/// What `Tile::reset` leaves behind: scratch cleared, and the heuristic
/// recomputed for non-wall tiles (walls keep their old `h`; they are
/// unreachable by construction, so their heuristic is never read).
pub open spec fn reset_tile(t: Tile, end_x: int, end_y: int) -> Tile {
    scratch_set(
        t,
        NO_NODE,
        0,
        if t.is_wall {
            t.h
        } else {
            manhattan_h(t, end_x, end_y) as i32
        },
        0,
    )
}

impl Tile {
    /// A fresh tile at pixel position `(x, y)` with the given pixel size:
    /// no identity yet, no neighbors, no wall, cleared search scratch.
    pub fn new(x: i64, y: i64, size: i64) -> (t: Tile)
        ensures
            t.transform.pos_x == x,
            t.transform.pos_y == y,
            t.transform.scale_x == size,
            t.transform.scale_y == size,
            t.color == default_color(),
            t.x_id == 0,
            t.y_id == 0,
            t.node_id == 0,
            t.parent_id == NO_NODE,
            t.top == NO_NODE,
            t.bottom == NO_NODE,
            t.left == NO_NODE,
            t.right == NO_NODE,
            !t.is_wall,
            t.h == 0,
            t.g == 0,
            t.f == 0,
    {
        Tile {
            transform: Transform::new(x, y, size, size),
            color: Color::default(),
            x_id: 0,
            y_id: 0,
            node_id: 0,
            parent_id: NO_NODE,
            top: NO_NODE,
            bottom: NO_NODE,
            left: NO_NODE,
            right: NO_NODE,
            is_wall: false,
            h: 0,
            g: 0,
            f: 0,
        }
    }

    pub fn default() -> (t: Tile)
        ensures
            t.transform.pos_x == 0,
            t.transform.pos_y == 0,
            t.transform.scale_x == 1,
            t.transform.scale_y == 1,
            t.color == default_color(),
            t.x_id == 0,
            t.y_id == 0,
            t.node_id == 0,
            t.parent_id == NO_NODE,
            t.top == NO_NODE,
            t.bottom == NO_NODE,
            t.left == NO_NODE,
            t.right == NO_NODE,
            !t.is_wall,
            t.h == 0,
            t.g == 0,
            t.f == 0,
    {
        Tile::new(0, 0, 1)
    }

    /// Clear the search scratch of this tile for a fresh search toward
    /// `end_node`: parent unset, `g` and `f` zeroed, and `h` recomputed as
    /// the Manhattan distance heuristic (wall tiles skip the heuristic; it
    /// is never read for them).
    pub fn reset(&mut self, end_node: &Tile)
        requires
            -20_000 <= old(self).x_id <= 20_000,
            -20_000 <= old(self).y_id <= 20_000,
            -20_000 <= end_node.x_id <= 20_000,
            -20_000 <= end_node.y_id <= 20_000,
        ensures
            *final(self) == reset_tile(*old(self), end_node.x_id as int, end_node.y_id as int),
    {
        self.parent_id = NO_NODE;
        self.g = 0;
        self.f = 0;
        self.calc_h(end_node);
    }

    /// Recompute the heuristic toward `end_node`.
    /// Walls are skipped: they are unreachable by construction.
    fn calc_h(&mut self, end_node: &Tile)
        requires
            -20_000 <= old(self).x_id <= 20_000,
            -20_000 <= old(self).y_id <= 20_000,
            -20_000 <= end_node.x_id <= 20_000,
            -20_000 <= end_node.y_id <= 20_000,
        ensures
            old(self).is_wall ==> *final(self) == *old(self),
            !old(self).is_wall ==> *final(self) == scratch_set(
                *old(self),
                old(self).parent_id,
                old(self).g,
                manhattan_h(*old(self), end_node.x_id as int, end_node.y_id as int) as i32,
                old(self).f,
            ),
    {
        if self.is_wall {
            return;
        }
        // The heuristic works on grid coordinates, not pixel positions:
        // grid-unit differences keep h on the same scale as MOVE_COST.
        let x_diff: i32 = if self.x_id >= end_node.x_id {
            self.x_id - end_node.x_id
        } else {
            end_node.x_id - self.x_id
        };
        let y_diff: i32 = if self.y_id >= end_node.y_id {
            self.y_id - end_node.y_id
        } else {
            end_node.y_id - self.y_id
        };
        self.h = (x_diff + y_diff) * MOVE_COST;
    }

    /// Adopt a path through a parent whose accumulated cost is `parent_g`:
    /// `g` becomes `parent_g + MOVE_COST` and `f` is refreshed as `g + h`.
    pub fn calc_f_g(&mut self, parent_g: i32)
        requires
            0 <= parent_g,
            0 <= old(self).h,
            parent_g + MOVE_COST + old(self).h <= i32::MAX,
        ensures
            *final(self) == scratch_set(
                *old(self),
                old(self).parent_id,
                (parent_g + MOVE_COST) as i32,
                old(self).h,
                (parent_g + MOVE_COST + old(self).h) as i32,
            ),
    {
        self.g = parent_g + MOVE_COST;
        self.f = self.g + self.h;
    }
}

} // verus!
