//! Search scenarios on fixed layouts: costs, heuristics, parent trees,
//! failure signalling, and determinism.

use astar_grid::tile::NO_NODE;
use astar_grid::world::WorldState;

fn three_by_three(layout: &[u8]) -> WorldState {
    let mut w = WorldState::with_dims(300, 300, 1).expect("dimensions are accepted");
    assert!(w.load_layout(100, layout));
    w
}

/// A wall-free 3x3 grid, start top-left, end bottom-right: a path exists
/// and costs four moves.
#[test]
fn open_grid_costs_four_moves() {
    let mut w = three_by_three(b"0,0,0,\n0,0,0,\n0,0,0,");
    assert_eq!(w.tiles.len(), 9);
    w.set_target_ids(0, 8);
    w.calc_astar();
    assert_ne!(w.tiles[8].parent_id, NO_NODE);
    assert_eq!(w.tiles[8].g, 40);
    assert_eq!(w.get_path_count(8), 4);
}

/// A solid one-tile-thick wall between start and end: the search exhausts
/// the open list and leaves the end tile's parent at the sentinel.
#[test]
fn separating_wall_leaves_no_path() {
    let mut w = three_by_three(b"0,1,0,\n0,1,0,\n0,1,0,");
    w.set_target_ids(0, 2);
    w.calc_astar();
    assert_eq!(w.tiles[2].parent_id, NO_NODE);
    assert_eq!(w.get_path_count(2), 0);
}

/// The heuristic after a reset phase is the Manhattan distance to the end
/// tile in grid units, times the move cost.
#[test]
fn heuristic_is_scaled_manhattan_distance() {
    let mut w = three_by_three(b"0,0,0,\n0,0,0,\n0,0,0,");
    w.set_target_ids(0, 8);
    w.calc_astar();
    for i in 0..9usize {
        let t = &w.tiles[i];
        let dx = (t.x_id - 2).abs();
        let dy = (t.y_id - 2).abs();
        assert_eq!(t.h, (dx + dy) * 10);
    }
}

/// Every node the search reached costs exactly one move more than its
/// parent.
#[test]
fn reached_nodes_cost_one_move_more_than_parent() {
    let mut w = WorldState::new(31);
    assert!(w.reset());
    for i in 0..w.tiles.len() {
        let p = w.tiles[i].parent_id;
        if p != NO_NODE {
            assert!(p >= 0 && (p as usize) < w.tiles.len());
            assert_eq!(w.tiles[i].g, w.tiles[p as usize].g + 10);
        }
    }
}

/// Running the search twice with unchanged start, end and walls yields an
/// identical parent tree (and identical scores).
#[test]
fn repeated_search_is_identical() {
    let mut w = WorldState::new(8);
    assert!(w.reset());
    let before: Vec<(i32, i32, i32, i32)> =
        w.tiles.iter().map(|t| (t.parent_id, t.g, t.h, t.f)).collect();
    w.calc_astar();
    let after: Vec<(i32, i32, i32, i32)> =
        w.tiles.iter().map(|t| (t.parent_id, t.g, t.h, t.f)).collect();
    assert_eq!(before, after);
}

/// Walls carry no search scratch at all.
#[test]
fn walls_keep_cleared_scratch() {
    let mut w = three_by_three(b"0,1,0,\n0,1,0,\n0,0,0,");
    w.set_target_ids(0, 2);
    w.calc_astar();
    for t in w.tiles.iter() {
        if t.is_wall {
            assert_eq!(t.parent_id, NO_NODE);
            assert_eq!(t.g, 0);
            assert_eq!(t.h, 0);
            assert_eq!(t.f, 0);
        }
    }
}

/// With the separating wall opened at the bottom, the path goes around:
/// start to end now costs four moves instead of two.
#[test]
fn detour_around_wall() {
    let mut w = three_by_three(b"0,1,0,\n0,1,0,\n0,0,0,");
    w.set_target_ids(0, 2);
    w.calc_astar();
    assert_ne!(w.tiles[2].parent_id, NO_NODE);
    assert_eq!(w.tiles[2].g, 60);
    assert_eq!(w.get_path_count(2), 6);
}

/// The parent chain from the end walks back to the start, whose own parent
/// is the sentinel.
#[test]
fn parent_chain_reaches_start() {
    let mut w = three_by_three(b"0,0,0,\n0,0,0,\n0,0,0,");
    w.set_target_ids(0, 8);
    w.calc_astar();
    let mut cur = 8usize;
    let mut hops = 0usize;
    while w.tiles[cur].parent_id != NO_NODE {
        cur = w.tiles[cur].parent_id as usize;
        hops += 1;
        assert!(hops <= 9);
    }
    assert_eq!(cur, 0);
    assert_eq!(hops, 4);
}

/// An unreachable end tile that is itself a wall is reported as no path.
#[test]
fn wall_end_is_unreachable() {
    let mut w = three_by_three(b"0,0,0,\n0,0,0,\n0,0,1,");
    w.set_target_ids(0, 8);
    w.calc_astar();
    assert_eq!(w.tiles[8].parent_id, NO_NODE);
}
