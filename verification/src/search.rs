//! The A*-style path finder.
//!
//! One search invocation resets every tile's scratch fields, then repeatedly
//! closes the open node with the lowest `f` score and relaxes its neighbors,
//! until the end node is closed or the open list runs out. The entire run is
//! mirrored by a specification-level interpreter (`astar_spec`), so the
//! contract of `astar` pins the resulting tile array down exactly: the result
//! is a function of the wall layout, the adjacency links, the grid
//! coordinates and the chosen start and end nodes, and of nothing else. That
//! is what makes the search deterministic (see
//! `lemma_search_deterministic`).
//!
//! Tie-break: the open node closed next is the first entry of the open list
//! with minimal `f`; the open list's order is insertion order perturbed by
//! `swap_remove`. Neighbors are visited in the order top, bottom, right,
//! left on even iterations and reversed on odd iterations; this zig-zag
//! avoids purely L-shaped paths.

use vstd::prelude::*;

use crate::tile::{manhattan_h, reset_tile, same_shape, scratch_set, Tile, MOVE_COST, NO_NODE};

verus! {

/// The state of a running search: tile scratch, the open list, one closed
/// flag per tile, and the parity of the neighbor scan order.
pub ghost struct SearchState {
    pub tiles: Seq<Tile>,
    pub open: Seq<usize>,
    pub closed: Seq<bool>,
    pub flip: bool,
}

/// How many flags in `s` are set.
pub open spec fn count_true(s: Seq<bool>) -> int
    decreases s.len(),
{
    if s.len() == 0 {
        0
    } else {
        count_true(s.drop_last()) + if s.last() {
            1int
        } else {
            0int
        }
    }
}

proof fn lemma_count_true_bounds(s: Seq<bool>)
    ensures
        0 <= count_true(s) <= s.len(),
    decreases s.len(),
{
    if s.len() > 0 {
        lemma_count_true_bounds(s.drop_last());
    }
}

proof fn lemma_count_true_all_false(s: Seq<bool>)
    requires
        forall|i: int| 0 <= i < s.len() ==> !s[i],
    ensures
        count_true(s) == 0,
    decreases s.len(),
{
    if s.len() > 0 {
        lemma_count_true_all_false(s.drop_last());
    }
}

proof fn lemma_count_true_update(s: Seq<bool>, i: int)
    requires
        0 <= i < s.len(),
        !s[i],
    ensures
        count_true(s.update(i, true)) == count_true(s) + 1,
    decreases s.len(),
{
    if i == s.len() - 1 {
        assert(s.update(i, true).drop_last() =~= s.drop_last());
    } else {
        assert(s.update(i, true).drop_last() =~= s.drop_last().update(i, true));
        lemma_count_true_update(s.drop_last(), i);
    }
}

proof fn lemma_count_true_missing(s: Seq<bool>, i: int)
    requires
        0 <= i < s.len(),
        !s[i],
    ensures
        count_true(s) <= s.len() - 1,
    decreases s.len(),
{
    if i == s.len() - 1 {
        lemma_count_true_bounds(s.drop_last());
    } else {
        lemma_count_true_missing(s.drop_last(), i);
    }
}

/// The index into `open` of the first entry with minimal `f`, scanning from
/// position `i` with `best` the best index seen so far.
pub open spec fn min_f_from(tiles: Seq<Tile>, open: Seq<usize>, i: int, best: int) -> int
    decreases open.len() - i,
{
    if i >= open.len() {
        best
    } else {
        let b2 = if tiles[open[i] as int].f < tiles[open[best] as int].f {
            i
        } else {
            best
        };
        min_f_from(tiles, open, i + 1, b2)
    }
}

/// What `Vec::swap_remove` leaves of a sequence.
pub open spec fn swap_removed<T>(s: Seq<T>, i: int) -> Seq<T> {
    s.update(i, s.last()).drop_last()
}

/// The neighbor of `t` visited at position `k` of the scan: top, bottom,
/// right, left on even iterations, and the reverse on odd ones.
pub open spec fn side_at(t: Tile, flip: bool, k: int) -> i32 {
    if !flip {
        if k == 0 {
            t.top
        } else if k == 1 {
            t.bottom
        } else if k == 2 {
            t.right
        } else {
            t.left
        }
    } else {
        if k == 0 {
            t.left
        } else if k == 1 {
            t.right
        } else if k == 2 {
            t.bottom
        } else {
            t.top
        }
    }
}

/// Tile `id` adopts `cur` as its parent: `g` becomes `cur`'s cost plus the
/// move cost, and `f` is refreshed.
pub open spec fn relax_tile(tiles: Seq<Tile>, id: int, cur: int) -> Seq<Tile> {
    tiles.update(
        id,
        scratch_set(
            tiles[id],
            cur as i32,
            (tiles[cur].g + MOVE_COST) as i32,
            tiles[id].h,
            (tiles[cur].g + MOVE_COST + tiles[id].h) as i32,
        ),
    )
}

/// Relaxation of the not-closed neighbor `id` of `cur`: a node not yet on
/// the open list joins it and adopts `cur`; a node already on the open list
/// adopts `cur` only when that strictly lowers its `g`.
pub open spec fn relax_inner(tiles: Seq<Tile>, open: Seq<usize>, cur: int, id: int) -> (
    Seq<Tile>,
    Seq<usize>,
) {
    if !open.contains(id as usize) {
        (relax_tile(tiles, id, cur), open.push(id as usize))
    } else if tiles[id].g > tiles[cur].g + MOVE_COST {
        (relax_tile(tiles, id, cur), open)
    } else {
        (tiles, open)
    }
}

/// One neighbor visit: absent neighbors and closed nodes are skipped.
pub open spec fn relax_side(
    tiles: Seq<Tile>,
    open: Seq<usize>,
    closed: Seq<bool>,
    cur: int,
    sid: i32,
) -> (Seq<Tile>, Seq<usize>) {
    if sid >= 0 && (sid as int) < closed.len() && !closed[sid as int] {
        relax_inner(tiles, open, cur, sid as int)
    } else {
        (tiles, open)
    }
}

/// One iteration of the main loop: close the first minimal-`f` open node,
/// then visit its four neighbor slots in the parity's order.
pub open spec fn astar_step(s: SearchState) -> SearchState {
    let bi = min_f_from(s.tiles, s.open, 1, 0);
    let cur = s.open[bi] as int;
    let open1 = swap_removed(s.open, bi);
    let closed1 = s.closed.update(cur, true);
    let t0 = s.tiles[cur];
    let (ta, oa) = relax_side(s.tiles, open1, closed1, cur, side_at(t0, s.flip, 0));
    let (tb, ob) = relax_side(ta, oa, closed1, cur, side_at(t0, s.flip, 1));
    let (tc, oc) = relax_side(tb, ob, closed1, cur, side_at(t0, s.flip, 2));
    let (td, od) = relax_side(tc, oc, closed1, cur, side_at(t0, s.flip, 3));
    SearchState { tiles: td, open: od, closed: closed1, flip: !s.flip }
}

/// The search stops when the end node is closed (success) or the open list
/// is exhausted (no path).
pub open spec fn search_done(s: SearchState, end: int) -> bool {
    s.open.len() == 0 || (0 <= end < s.closed.len() && s.closed[end])
}

/// The main loop, bounded by `fuel`; each iteration closes one more node, so
/// a fuel of the number of tiles is always enough.
pub open spec fn astar_loop(s: SearchState, end: int, fuel: nat) -> SearchState
    decreases fuel,
{
    if fuel == 0 || search_done(s, end) {
        s
    } else {
        astar_loop(astar_step(s), end, (fuel - 1) as nat)
    }
}

/// The reset phase: every tile's scratch is cleared and its heuristic
/// recomputed toward the end tile's coordinates.
pub open spec fn reset_all(tiles: Seq<Tile>, end: int) -> Seq<Tile> {
    Seq::new(
        tiles.len(),
        |i: int| reset_tile(tiles[i], tiles[end].x_id as int, tiles[end].y_id as int),
    )
}

/// The state a search starts from: scratch reset, the start node alone on
/// the open list, nothing closed, forward scan order.
pub open spec fn astar_init(tiles: Seq<Tile>, start: int, end: int) -> SearchState {
    SearchState {
        tiles: reset_all(tiles, end),
        open: seq![start as usize],
        closed: Seq::new(tiles.len(), |i: int| false),
        flip: false,
    }
}

/// The tile array a full search leaves behind. The reset phase wipes every
/// scratch field, so this depends only on the tiles' walls, links and
/// coordinates (and on the walls' stale `h`, which the search never touches)
/// — not on any earlier search.
pub open spec fn astar_spec(tiles: Seq<Tile>, start: int, end: int) -> Seq<Tile> {
    astar_loop(astar_init(tiles, start, end), end, tiles.len()).tiles
}

/// A neighbor field usable by the search: the sentinel, or an in-bounds,
/// non-wall node.
pub open spec fn side_ok(tiles: Seq<Tile>, s: i32) -> bool {
    s != NO_NODE ==> 0 <= s < tiles.len() && !tiles[s as int].is_wall
}

/// All four neighbor fields of tile `i` usable by the search.
pub open spec fn tile_sides_ok(tiles: Seq<Tile>, i: int) -> bool {
    &&& side_ok(tiles, tiles[i].top)
    &&& side_ok(tiles, tiles[i].bottom)
    &&& side_ok(tiles, tiles[i].left)
    &&& side_ok(tiles, tiles[i].right)
}

/// What the search requires of tile `i`: grid coordinates within the
/// supported range, usable neighbor fields, and isolation of walls (a wall
/// exposes no outgoing edges).
pub open spec fn search_pre_at(tiles: Seq<Tile>, i: int) -> bool {
    &&& 0 <= tiles[i].x_id <= 10_000
    &&& 0 <= tiles[i].y_id <= 10_000
    &&& tile_sides_ok(tiles, i)
    &&& tiles[i].is_wall ==> crate::grid::sides_unset(tiles[i])
}

/// The per-tile invariant that holds throughout a search over the entry-time
/// array `orig` with closed flags `closed`: shape fields are untouched, `h`
/// is the reset-phase heuristic, walls keep cleared scratch, and a set
/// parent is a closed, cheaper, non-wall node exactly one move away in cost.
pub open spec fn search_live_at(orig: Seq<Tile>, tiles: Seq<Tile>, closed: Seq<bool>, i: int, end: int) -> bool {
    &&& same_shape(tiles[i], orig[i])
    &&& tiles[i].h == (if orig[i].is_wall {
        orig[i].h as int
    } else {
        manhattan_h(orig[i], orig[end].x_id as int, orig[end].y_id as int)
    })
    &&& (tiles[i].is_wall ==> tiles[i].parent_id == NO_NODE && tiles[i].g == 0 && tiles[i].f == 0)
    &&& (tiles[i].parent_id != NO_NODE ==> {
        let p = tiles[i].parent_id as int;
        &&& 0 <= p < tiles.len()
        &&& closed[p]
        &&& tiles[i].g == tiles[p].g + MOVE_COST
        &&& !tiles[i].is_wall
        &&& !tiles[p].is_wall
    })
    &&& 0 <= tiles[i].g
}

/// Whether `open` holds `id`.
fn contains_id(open: &Vec<usize>, id: usize) -> (b: bool)
    ensures
        b == open@.contains(id),
{
    let n: usize = open.len();
    let mut i: usize = 0;
    while i < n
        invariant
            i <= n,
            n == open@.len(),
            forall|k: int| 0 <= k < i ==> open@[k] != id,
        decreases n - i,
    {
        if open[i] == id {
            assert(open@[i as int] == id);
            return true;
        }
        i = i + 1;
    }
    assert(!open@.contains(id));
    false
}

/// Relax the not-closed node `id` as a neighbor of the just-closed node
/// `cur`: exactly `relax_inner` of the specification model.
fn check_node(tiles: &mut Vec<Tile>, open: &mut Vec<usize>, cur: usize, id: usize)
    requires
        cur < old(tiles)@.len(),
        id < old(tiles)@.len(),
        old(tiles)@.len() <= 100_000_000,
        0 <= old(tiles)@[cur as int].g <= 1_000_000_000,
        0 <= old(tiles)@[id as int].h <= 400_000,
    ensures
        final(tiles)@ == relax_inner(old(tiles)@, old(open)@, cur as int, id as int).0,
        final(open)@ == relax_inner(old(tiles)@, old(open)@, cur as int, id as int).1,
{
    let on_open: bool = contains_id(open, id);
    if !on_open {
        open.push(id);
        let parent_g: i32 = tiles[cur].g;
        let mut t = tiles[id];
        t.parent_id = cur as i32;
        t.calc_f_g(parent_g);
        tiles.set(id, t);
    } else if tiles[id].g > tiles[cur].g + MOVE_COST {
        let parent_g: i32 = tiles[cur].g;
        let mut t = tiles[id];
        t.parent_id = cur as i32;
        t.calc_f_g(parent_g);
        tiles.set(id, t);
    }
}

/// A grid whose tiles carry consistent row-major coordinates and whose
/// adjacency is as the linking pass leaves it satisfies everything the
/// search requires of each tile.
pub proof fn lemma_grid_search_pre(tiles: Seq<Tile>, cols: int, rows: int)
    requires
        1 <= cols <= crate::grid::MAX_GRID_DIM as int,
        1 <= rows <= crate::grid::MAX_GRID_DIM as int,
        tiles.len() == cols * rows,
        forall|i: int| 0 <= i < tiles.len() ==> (#[trigger] tiles[i]).x_id == i % cols && tiles[
            i
        ].y_id == i / cols,
        crate::grid::adjacency_ok(tiles, cols, rows),
    ensures
        forall|i: int| 0 <= i < tiles.len() ==> #[trigger] search_pre_at(tiles, i),
{
    assert forall|i: int| 0 <= i < tiles.len() implies #[trigger] search_pre_at(tiles, i) by {
        crate::grid::lemma_neighbor_bounds(i, cols, rows, tiles.len() as int);
        assert(cols * rows <= 100_000_000) by (nonlinear_arith)
            requires
                1 <= cols <= 10_000,
                1 <= rows <= 10_000,
        ;
        assert(tiles[i].top == crate::grid::expected_top(tiles, i, cols, rows));
        assert(tiles[i].bottom == crate::grid::expected_bottom(tiles, i, cols, rows));
        assert(tiles[i].left == crate::grid::expected_left(tiles, i, cols, rows));
        assert(tiles[i].right == crate::grid::expected_right(tiles, i, cols, rows));
    }
}

/// Determinism of the search: two tile arrays that agree on everything the
/// search reads — length, the shape fields (walls, neighbor links, grid
/// coordinates, geometry) and the stale `h` of wall tiles — yield exactly
/// the same result for the same start and end, parent tree included. Since
/// `astar` changes only the four scratch fields and leaves walls' `h`
/// untouched, running the search twice in a row with unchanged start, end
/// and wall layout leaves the tile array exactly as after the first run.
pub proof fn lemma_search_deterministic(t0: Seq<Tile>, t1: Seq<Tile>, start: int, end: int)
    requires
        t0.len() == t1.len(),
        0 <= end < t0.len(),
        forall|i: int| 0 <= i < t0.len() ==> same_shape(#[trigger] t0[i], t1[i]),
        forall|i: int| 0 <= i < t0.len() && (#[trigger] t0[i]).is_wall ==> t0[i].h == t1[i].h,
    ensures
        astar_spec(t0, start, end) == astar_spec(t1, start, end),
{
    assert forall|i: int| 0 <= i < t0.len() implies reset_all(t0, end)[i] == reset_all(t1, end)[i] by {
        assert(same_shape(t0[i], t1[i]));
        assert(same_shape(t0[end], t1[end]));
    }
    assert(reset_all(t0, end) =~= reset_all(t1, end));
    assert(Seq::new(t0.len(), |i: int| false) =~= Seq::new(t1.len(), |i: int| false));
    assert(astar_init(t0, start, end) == astar_init(t1, start, end));
}

/// Visit one neighbor slot of the just-closed node `cur`: exactly
/// `relax_side` of the specification model, preserving the search
/// invariants.
fn visit_side(
    tiles: &mut Vec<Tile>,
    open: &mut Vec<usize>,
    closed: &Vec<bool>,
    cur: usize,
    sid: i32,
    Ghost(orig): Ghost<Seq<Tile>>,
    Ghost(end): Ghost<int>,
    Ghost(cc): Ghost<int>,
)
    requires
        old(tiles)@.len() == orig.len(),
        closed@.len() == orig.len(),
        1 <= orig.len() <= 100_000_000,
        cur < orig.len(),
        0 <= end < orig.len(),
        closed@[cur as int],
        side_ok(orig, sid),
        sid != NO_NODE ==> !orig[cur as int].is_wall,
        1 <= cc <= orig.len(),
        cc == count_true(closed@),
        forall|j: int| 0 <= j < orig.len() ==> #[trigger] search_pre_at(orig, j),
        forall|j: int| 0 <= j < orig.len() ==> #[trigger] search_live_at(
            orig,
            old(tiles)@,
            closed@,
            j,
            end,
        ),
        forall|j: int| 0 <= j < orig.len() ==> 0 <= (#[trigger] old(tiles)@[j]).g <= 10 * cc,
        old(tiles)@[cur as int].g <= 10 * (cc - 1),
        forall|a: int| 0 <= a < old(open)@.len() ==> (#[trigger] old(open)@[a]) < orig.len()
            && !closed@[old(open)@[a] as int],
        forall|a: int, b: int| 0 <= a < b < old(open)@.len() ==> old(open)@[a] != old(open)@[b],
        forall|a: int| 0 <= a < old(open)@.len() ==> old(tiles)@[(#[trigger] old(open)@[a]) as int].parent_id
            != NO_NODE,
    ensures
        final(tiles)@ == relax_side(old(tiles)@, old(open)@, closed@, cur as int, sid).0,
        final(open)@ == relax_side(old(tiles)@, old(open)@, closed@, cur as int, sid).1,
        final(tiles)@.len() == orig.len(),
        final(tiles)@[cur as int] == old(tiles)@[cur as int],
        forall|j: int| 0 <= j < orig.len() ==> #[trigger] search_live_at(
            orig,
            final(tiles)@,
            closed@,
            j,
            end,
        ),
        forall|j: int| 0 <= j < orig.len() ==> 0 <= (#[trigger] final(tiles)@[j]).g <= 10 * cc,
        forall|a: int| 0 <= a < final(open)@.len() ==> (#[trigger] final(open)@[a]) < orig.len()
            && !closed@[final(open)@[a] as int],
        forall|a: int, b: int| 0 <= a < b < final(open)@.len() ==> final(open)@[a]
            != final(open)@[b],
        forall|a: int| 0 <= a < final(open)@.len() ==> final(tiles)@[(
        #[trigger] final(open)@[a]) as int].parent_id != NO_NODE,
        forall|j: int| 0 <= j < orig.len() && closed@[j] ==> #[trigger] final(tiles)@[j] == old(
            tiles,
        )@[j],
{
    if sid >= 0 {
        let id: usize = sid as usize;
        assert(id < orig.len());
        if !closed[id] {
            proof {
                assert(search_live_at(orig, tiles@, closed@, id as int, end));
                assert(search_live_at(orig, tiles@, closed@, cur as int, end));
                assert(search_pre_at(orig, id as int));
                assert(search_pre_at(orig, end));
                assert(!orig[id as int].is_wall);
                assert(!tiles@[id as int].is_wall);
                assert(0 <= tiles@[id as int].h <= 400_000);
            }
            let ghost tiles_in = tiles@;
            let ghost open_in = open@;
            check_node(tiles, open, cur, id);
            proof {
                let r = relax_inner(tiles_in, open_in, cur as int, id as int);
                assert(tiles@ == r.0 && open@ == r.1);
                if !open_in.contains(id) || tiles_in[id as int].g > tiles_in[cur as int].g
                    + MOVE_COST {
                    // the relaxing branches: tile `id` adopted `cur`
                    assert(tiles@ == relax_tile(tiles_in, id as int, cur as int));
                    let t2 = tiles@[id as int];
                    assert(t2 == scratch_set(
                        tiles_in[id as int],
                        cur as i32,
                        (tiles_in[cur as int].g + MOVE_COST) as i32,
                        tiles_in[id as int].h,
                        (tiles_in[cur as int].g + MOVE_COST + tiles_in[id as int].h) as i32,
                    ));
                    assert forall|j: int| 0 <= j < orig.len() implies #[trigger] search_live_at(
                        orig,
                        tiles@,
                        closed@,
                        j,
                        end,
                    ) by {
                        assert(search_live_at(orig, tiles_in, closed@, j, end));
                        if j == id as int {
                            assert(tiles@[j].parent_id == cur as i32);
                            assert(tiles@[j].parent_id != NO_NODE);
                            assert(tiles@[j].parent_id as int == cur as int);
                            assert(closed@[cur as int]);
                            assert(tiles@[cur as int] == tiles_in[cur as int]);
                        } else {
                            assert(tiles@[j] == tiles_in[j]);
                            if tiles_in[j].parent_id != NO_NODE {
                                let p = tiles_in[j].parent_id as int;
                                assert(closed@[p]);
                                assert(!closed@[id as int]);
                                assert(p != id as int);
                                assert(tiles@[p] == tiles_in[p]);
                            }
                        }
                    }
                    assert forall|j: int| 0 <= j < orig.len() implies 0 <= (
                    #[trigger] tiles@[j]).g <= 10 * cc by {
                        if j == id as int {
                            assert(tiles_in[cur as int].g <= 10 * (cc - 1));
                        } else {
                            assert(tiles@[j] == tiles_in[j]);
                        }
                    }
                    assert(tiles@[cur as int] == tiles_in[cur as int]);
                    if !open_in.contains(id) {
                        assert(open@ == open_in.push(id));
                        assert forall|a: int| 0 <= a < open@.len() implies (#[trigger] open@[a])
                            < orig.len() && !closed@[open@[a] as int] by {
                            if a < open_in.len() {
                                assert(open@[a] == open_in[a]);
                            } else {
                                assert(open@[a] == id);
                            }
                        }
                        assert forall|a: int, b: int| 0 <= a < b < open@.len() implies open@[a]
                            != open@[b] by {
                            if b < open_in.len() {
                            } else {
                                assert(open@[b] == id);
                                assert(open@[a] == open_in[a]);
                                assert(!open_in.contains(id));
                            }
                        }
                    } else {
                        assert(open@ == open_in);
                    }
                } else {
                    assert(tiles@ == tiles_in && open@ == open_in);
                }
            }
        }
    }
}

/// Run one full search from `start` toward `end` over `tiles`, in place.
///
/// The first clause pins the result completely: the tile array afterward is
/// `astar_spec` of the array before, a function of the walls, links and
/// coordinates alone. The remaining clauses surface the key facts: shape
/// fields are untouched; every non-wall tile's `h` is the Manhattan
/// heuristic toward the end tile; walls keep cleared scratch; every tile
/// with a set parent costs exactly one move more than its parent (so parent
/// chains strictly decrease in cost and form a tree); and all costs stay
/// within bounds. Success is signalled by `end`'s parent: it is set exactly
/// when the search closed the end node via some neighbor.
pub fn astar(tiles: &mut Vec<Tile>, start: usize, end: usize)
    requires
        1 <= old(tiles)@.len() <= 100_000_000,
        start < old(tiles)@.len(),
        end < old(tiles)@.len(),
        forall|i: int| 0 <= i < old(tiles)@.len() ==> #[trigger] search_pre_at(old(tiles)@, i),
    ensures
        final(tiles)@ == astar_spec(old(tiles)@, start as int, end as int),
        final(tiles)@.len() == old(tiles)@.len(),
        forall|i: int| 0 <= i < old(tiles)@.len() ==> same_shape(
            #[trigger] final(tiles)@[i],
            old(tiles)@[i],
        ),
        forall|i: int| 0 <= i < old(tiles)@.len() && !old(tiles)@[i].is_wall ==> (
        #[trigger] final(tiles)@[i]).h == manhattan_h(
            old(tiles)@[i],
            old(tiles)@[end as int].x_id as int,
            old(tiles)@[end as int].y_id as int,
        ),
        forall|i: int| 0 <= i < old(tiles)@.len() && old(tiles)@[i].is_wall ==> (
        #[trigger] final(tiles)@[i]).parent_id == NO_NODE && final(tiles)@[i].g == 0
            && final(tiles)@[i].f == 0 && final(tiles)@[i].h == old(tiles)@[i].h,
        forall|i: int|
            0 <= i < old(tiles)@.len() && (#[trigger] final(tiles)@[i]).parent_id != NO_NODE ==> {
                let p = final(tiles)@[i].parent_id as int;
                &&& 0 <= p < old(tiles)@.len()
                &&& final(tiles)@[i].g == final(tiles)@[p].g + MOVE_COST
                &&& !final(tiles)@[i].is_wall
                &&& !final(tiles)@[p].is_wall
            },
        forall|i: int| 0 <= i < old(tiles)@.len() ==> 0 <= (#[trigger] final(tiles)@[i]).g <= 10
            * old(tiles)@.len(),
        final(tiles)@[start as int].parent_id == NO_NODE,
        forall|j: int|
            0 <= j < old(tiles)@.len() && (#[trigger] final(tiles)@[j]).parent_id != NO_NODE ==> (
            final(tiles)@[j].parent_id == start || final(tiles)@[final(tiles)@[j].parent_id as int].parent_id
                != NO_NODE),
{
    let ghost orig = tiles@;
    let n: usize = tiles.len();

    // Reset phase: clear scratch and recompute heuristics toward the end
    // tile, whose coordinates are read before anything changes.
    let end_tile: Tile = tiles[end];
    let mut i: usize = 0;
    while i < n
        invariant
            i <= n,
            n == tiles@.len(),
            orig.len() == n,
            end < n,
            end_tile == orig[end as int],
            forall|j: int| 0 <= j < orig.len() ==> #[trigger] search_pre_at(orig, j),
            forall|j: int| 0 <= j < i ==> #[trigger] tiles@[j] == reset_tile(
                orig[j],
                orig[end as int].x_id as int,
                orig[end as int].y_id as int,
            ),
            forall|j: int| i <= j < n ==> #[trigger] tiles@[j] == orig[j],
        decreases n - i,
    {
        proof {
            assert(search_pre_at(orig, i as int));
            assert(search_pre_at(orig, end as int));
        }
        let mut t = tiles[i];
        t.reset(&end_tile);
        tiles.set(i, t);
        i = i + 1;
    }
    proof {
        assert(tiles@ =~= reset_all(orig, end as int));
    }

    // The start node opens the search; nothing is closed yet.
    let mut open: Vec<usize> = Vec::new();
    open.push(start);
    let mut closed: Vec<bool> = Vec::new();
    let mut k: usize = 0;
    while k < n
        invariant
            k <= n,
            closed@.len() == k,
            forall|j: int| 0 <= j < k ==> !(#[trigger] closed@[j]),
        decreases n - k,
    {
        closed.push(false);
        k = k + 1;
    }
    let ghost init_s = astar_init(orig, start as int, end as int);
    proof {
        assert(open@ =~= seq![start]);
        assert(closed@ =~= Seq::new(orig.len(), |j: int| false));
        assert(init_s == (SearchState { tiles: tiles@, open: open@, closed: closed@, flip: false }));
        lemma_count_true_all_false(closed@);
        assert forall|j: int| 0 <= j < n implies #[trigger] search_live_at(
            orig,
            tiles@,
            closed@,
            j,
            end as int,
        ) by {
            assert(search_pre_at(orig, j));
            assert(search_pre_at(orig, end as int));
            assert(tiles@[j] == reset_tile(
                orig[j],
                orig[end as int].x_id as int,
                orig[end as int].y_id as int,
            ));
            assert(0 <= manhattan_h(
                orig[j],
                orig[end as int].x_id as int,
                orig[end as int].y_id as int,
            ) <= 400_000);
        }
    }
    let mut flip: bool = false;

    while !closed[end] && open.len() > 0
        invariant
            n == tiles@.len(),
            orig.len() == n,
            1 <= n <= 100_000_000,
            closed@.len() == n,
            start < n,
            end < n,
            0 <= count_true(closed@) <= n,
            astar_loop(
                SearchState { tiles: tiles@, open: open@, closed: closed@, flip },
                end as int,
                (n - count_true(closed@)) as nat,
            ) == astar_loop(init_s, end as int, n as nat),
            forall|j: int| 0 <= j < orig.len() ==> #[trigger] search_pre_at(orig, j),
            forall|j: int| 0 <= j < n ==> #[trigger] search_live_at(
                orig,
                tiles@,
                closed@,
                j,
                end as int,
            ),
            forall|j: int| 0 <= j < n ==> 0 <= (#[trigger] tiles@[j]).g <= 10 * count_true(
                closed@,
            ),
            forall|a: int| 0 <= a < open@.len() ==> (#[trigger] open@[a]) < n
                && !closed@[open@[a] as int],
            forall|a: int, b: int| 0 <= a < b < open@.len() ==> open@[a] != open@[b],
            tiles@[start as int].parent_id == NO_NODE,
            !closed@[start as int] ==> open@ == seq![start],
            forall|j: int| 0 <= j < n && closed@[j] && j != start ==> (#[trigger] tiles@[j]).parent_id
                != NO_NODE,
            forall|a: int| 0 <= a < open@.len() && open@[a] != start ==> tiles@[(
            #[trigger] open@[a]) as int].parent_id != NO_NODE,
        decreases n - count_true(closed@),
    {
        let ghost s_before = SearchState { tiles: tiles@, open: open@, closed: closed@, flip };
        let ghost cc0 = count_true(closed@);

        // Select the first open entry with minimal f.
        let mut best: usize = 0;
        let mut j: usize = 1;
        while j < open.len()
            invariant
                open@ == s_before.open,
                tiles@ == s_before.tiles,
                n == tiles@.len(),
                1 <= open@.len(),
                1 <= j <= open@.len(),
                best < j,
                forall|a: int| 0 <= a < open@.len() ==> (#[trigger] open@[a]) < n,
                min_f_from(tiles@, open@, j as int, best as int) == min_f_from(
                    tiles@,
                    open@,
                    1,
                    0,
                ),
            decreases open@.len() - j,
        {
            if tiles[open[j]].f < tiles[open[best]].f {
                best = j;
            }
            j = j + 1;
        }
        proof {
            assert(best as int == min_f_from(s_before.tiles, s_before.open, 1, 0));
        }

        // Close it.
        let current: usize = open.swap_remove(best);
        proof {
            assert(current == s_before.open[best as int]);
            assert(current < n && !s_before.closed[current as int]);
            assert(open@ == swap_removed(s_before.open, best as int));
        }
        closed.set(current, true);
        proof {
            lemma_count_true_update(s_before.closed, current as int);
            assert(count_true(closed@) == cc0 + 1);
            lemma_count_true_missing(s_before.closed, end as int);
            assert(cc0 + 1 <= n);
            // Open entries other than the removed one stay valid and unclosed.
            assert forall|a: int| 0 <= a < open@.len() implies (#[trigger] open@[a]) < n
                && !closed@[open@[a] as int] by {
                if a == best as int {
                    assert(open@[a] == s_before.open[s_before.open.len() - 1]);
                    assert(a < s_before.open.len() - 1);
                    assert(s_before.open[s_before.open.len() - 1] != s_before.open[best as int]);
                } else {
                    assert(open@[a] == s_before.open[a]);
                    assert(s_before.open[a] != s_before.open[best as int]);
                }
            }
            assert forall|a: int, b: int| 0 <= a < b < open@.len() implies open@[a] != open@[b] by {
                if a == best as int {
                    assert(open@[a] == s_before.open[s_before.open.len() - 1]);
                    assert(open@[b] == s_before.open[b]);
                } else if b == best as int {
                    assert(open@[b] == s_before.open[s_before.open.len() - 1]);
                    assert(open@[a] == s_before.open[a]);
                } else {
                    assert(open@[a] == s_before.open[a] && open@[b] == s_before.open[b]);
                }
            }
            // Tiles are unchanged so far; the live invariant survives the
            // monotone growth of the closed set.
            assert forall|j2: int| 0 <= j2 < n implies #[trigger] search_live_at(
                orig,
                tiles@,
                closed@,
                j2,
                end as int,
            ) by {
                assert(search_live_at(orig, tiles@, s_before.closed, j2, end as int));
            }
            // The start node is closed from the first iteration on: while it
            // is not, it is the only open entry, so it is what gets closed.
            if !s_before.closed[start as int] {
                assert(s_before.open == seq![start]);
                assert(current == s_before.open[best as int]);
                assert(current == start);
            }
            assert(closed@[start as int]);
            // Every remaining open entry was discovered by relaxation, so
            // its parent is set.
            assert forall|a: int| 0 <= a < open@.len() implies tiles@[(#[trigger] open@[a]) as int].parent_id
                != NO_NODE by {
                assert(open@[a] < n && !closed@[open@[a] as int]);
                assert(open@[a] != start);
                if a == best as int {
                    assert(open@[a] == s_before.open[s_before.open.len() - 1]);
                } else {
                    assert(open@[a] == s_before.open[a]);
                }
            }
            // Every closed node but the start has a parent: the one just
            // closed came off the open list.
            assert forall|j2: int| 0 <= j2 < n && closed@[j2] && j2 != start implies (
            #[trigger] tiles@[j2]).parent_id != NO_NODE by {
                if j2 == current as int {
                    assert(s_before.open[best as int] == current);
                }
            }
        }
        let ghost closed1 = closed@;

        // Read the four neighbor slots in this iteration's order.
        let cur_tile: Tile = tiles[current];
        let (sa, sb, sc, sd): (i32, i32, i32, i32) = if !flip {
            (cur_tile.top, cur_tile.bottom, cur_tile.right, cur_tile.left)
        } else {
            (cur_tile.left, cur_tile.right, cur_tile.bottom, cur_tile.top)
        };
        proof {
            assert(search_pre_at(orig, current as int));
            assert(search_live_at(orig, tiles@, closed@, current as int, end as int));
            assert(same_shape(tiles@[current as int], orig[current as int]));
            assert(sa == side_at(s_before.tiles[current as int], flip, 0));
            assert(sb == side_at(s_before.tiles[current as int], flip, 1));
            assert(sc == side_at(s_before.tiles[current as int], flip, 2));
            assert(sd == side_at(s_before.tiles[current as int], flip, 3));
            assert(side_ok(orig, sa) && side_ok(orig, sb) && side_ok(orig, sc) && side_ok(
                orig,
                sd,
            ));
            assert(tiles@[current as int].g <= 10 * cc0);
        }
        let ghost t0 = tiles@;
        let ghost o0 = open@;
        visit_side(
            tiles,
            &mut open,
            &closed,
            current,
            sa,
            Ghost(orig),
            Ghost(end as int),
            Ghost(cc0 + 1),
        );
        let ghost t1 = tiles@;
        let ghost o1 = open@;
        visit_side(
            tiles,
            &mut open,
            &closed,
            current,
            sb,
            Ghost(orig),
            Ghost(end as int),
            Ghost(cc0 + 1),
        );
        let ghost t2 = tiles@;
        let ghost o2 = open@;
        visit_side(
            tiles,
            &mut open,
            &closed,
            current,
            sc,
            Ghost(orig),
            Ghost(end as int),
            Ghost(cc0 + 1),
        );
        let ghost t3 = tiles@;
        let ghost o3 = open@;
        visit_side(
            tiles,
            &mut open,
            &closed,
            current,
            sd,
            Ghost(orig),
            Ghost(end as int),
            Ghost(cc0 + 1),
        );
        flip = !flip;
        proof {
            let s_after = SearchState { tiles: tiles@, open: open@, closed: closed@, flip };
            assert((t1, o1) == relax_side(t0, o0, closed1, current as int, sa));
            assert((t2, o2) == relax_side(t1, o1, closed1, current as int, sb));
            assert((t3, o3) == relax_side(t2, o2, closed1, current as int, sc));
            assert((tiles@, open@) == relax_side(t3, o3, closed1, current as int, sd));
            assert(s_after == astar_step(s_before));
            assert(!search_done(s_before, end as int));
            assert((n - cc0) as nat >= 1);
            assert(astar_loop(s_before, end as int, (n - cc0) as nat) == astar_loop(
                s_after,
                end as int,
                (n - (cc0 + 1)) as nat,
            ));
            // Closed nodes were untouched by the four visits; the root and
            // reached-node facts carry over.
            assert(closed@[start as int]);
            assert forall|j2: int| 0 <= j2 < n && closed@[j2] implies #[trigger] tiles@[j2] == t0[
                j2
            ] by {
                assert(t1[j2] == t0[j2]);
                assert(t2[j2] == t1[j2]);
                assert(t3[j2] == t2[j2]);
            }
            assert(tiles@[start as int].parent_id == NO_NODE);
            assert forall|j2: int| 0 <= j2 < n && closed@[j2] && j2 != start implies (
            #[trigger] tiles@[j2]).parent_id != NO_NODE by {
                assert(tiles@[j2] == t0[j2]);
            }
        }
    }

    proof {
        let s_fin = SearchState { tiles: tiles@, open: open@, closed: closed@, flip };
        assert(search_done(s_fin, end as int));
        assert(astar_loop(s_fin, end as int, (n - count_true(closed@)) as nat) == s_fin);
        assert(tiles@ == astar_loop(init_s, end as int, n as nat).tiles);
        assert(tiles@ == astar_spec(orig, start as int, end as int));
        lemma_count_true_bounds(closed@);
        assert forall|i2: int| 0 <= i2 < orig.len() implies same_shape(
            #[trigger] tiles@[i2],
            orig[i2],
        ) by {
            assert(search_live_at(orig, tiles@, closed@, i2, end as int));
        }
        assert forall|i2: int|
            0 <= i2 < orig.len() && !orig[i2].is_wall implies (#[trigger] tiles@[i2]).h
            == manhattan_h(
            orig[i2],
            orig[end as int].x_id as int,
            orig[end as int].y_id as int,
        ) by {
            assert(search_live_at(orig, tiles@, closed@, i2, end as int));
        }
        assert forall|i2: int|
            0 <= i2 < orig.len() && orig[i2].is_wall implies (#[trigger] tiles@[i2]).parent_id
            == NO_NODE && tiles@[i2].g == 0 && tiles@[i2].f == 0 && tiles@[i2].h == orig[i2].h by {
            assert(search_live_at(orig, tiles@, closed@, i2, end as int));
        }
        assert forall|i2: int|
            0 <= i2 < orig.len() && (#[trigger] tiles@[i2]).parent_id != NO_NODE implies {
            let p = tiles@[i2].parent_id as int;
            &&& 0 <= p < orig.len()
            &&& tiles@[i2].g == tiles@[p].g + MOVE_COST
            &&& !tiles@[i2].is_wall
            &&& !tiles@[p].is_wall
        } by {
            assert(search_live_at(orig, tiles@, closed@, i2, end as int));
        }
        assert forall|i2: int| 0 <= i2 < orig.len() implies 0 <= (#[trigger] tiles@[i2]).g <= 10
            * orig.len() by {
            assert(0 <= tiles@[i2].g <= 10 * count_true(closed@));
        }
        assert forall|j2: int|
            0 <= j2 < orig.len() && (#[trigger] tiles@[j2]).parent_id != NO_NODE implies (
        tiles@[j2].parent_id == start || tiles@[tiles@[j2].parent_id as int].parent_id
            != NO_NODE) by {
            assert(search_live_at(orig, tiles@, closed@, j2, end as int));
            let p = tiles@[j2].parent_id as int;
            assert(closed@[p]);
        }
    }
}

} // verus!
