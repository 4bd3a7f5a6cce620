//! World orchestration: agent movement and clamping, the agent-to-tile
//! projection, bounded regeneration, input debouncing, and the fixed map.

use astar_grid::input::{handle_input, initial_draw, key_code_from, key_code_value, KeyCode};
use astar_grid::tile::NO_NODE;
use astar_grid::world::WorldState;

/// The continuous position `(px, py)` maps to the tile
/// `ceil(py / t) * columns + ceil(px / t)` in row-major order.
#[test]
fn position_maps_to_ceiling_tile() {
    let mut w = WorldState::with_dims(300, 300, 3).expect("dimensions are accepted");
    assert!(w.load_layout(100, b"0,0,0,\n0,0,0,\n0,0,0,"));
    assert_eq!(w.get_tile_id_closest_to(150, 50), 1 * 3 + 2);
    assert_eq!(w.get_tile_id_closest_to(200, 100), 1 * 3 + 2);
    assert_eq!(w.get_tile_id_closest_to(0, 0), 0);
    assert_eq!(w.get_tile_id_closest_to(-30, -30), 0);
    assert_eq!(w.get_tile_id_closest_to(101, 101), 2 * 3 + 2);
}

#[test]
fn start_node_follows_agent() {
    let mut w = WorldState::with_dims(300, 300, 3).expect("dimensions are accepted");
    assert!(w.load_layout(100, b"0,0,0,\n0,0,0,\n0,0,0,"));
    // Agent at the top-left tile's corner: centering maps it to tile 0.
    w.set_start_node();
    assert_eq!(w.start_id, 0);
    // Move the agent into the middle tile.
    w.set_player_pos(60, 60);
    assert_eq!(w.player.pos_x, 70);
    assert_eq!(w.player.pos_y, 70);
    w.set_start_node();
    // (70 - 50) / 100 rounds up to column 1 in both axes.
    assert_eq!(w.start_id, 4);
}

#[test]
fn agent_movement_is_clamped() {
    let mut w = WorldState::new(0);
    assert_eq!(w.player.pos_x, 0);
    // Moving left from the edge is rejected; moving right works.
    w.update_player(-1, 0);
    assert_eq!(w.player.pos_x, 0);
    w.update_player(1, 1);
    assert_eq!(w.player.pos_x, 7);
    assert_eq!(w.player.pos_y, 7);
    // Moving back toward the edge stops at the clamp.
    w.update_player(-1, 0);
    assert_eq!(w.player.pos_x, 7);
}

#[test]
fn pointer_position_is_scaled_and_clamped() {
    let mut w = WorldState::new(0);
    w.set_player_pos(100, 50);
    assert_eq!(w.player.pos_x, 175);
    assert_eq!(w.player.pos_y, 75);
    // Far outside the playfield: rejected, position unchanged.
    w.set_player_pos(5000, 50);
    assert_eq!(w.player.pos_x, 175);
}

/// A seeded world produces a solvable random map well within the retry
/// bound.
#[test]
fn reset_finds_solvable_map() {
    let mut w = WorldState::new(42);
    assert!(w.reset());
    let end = w.end_id as usize;
    assert_ne!(w.tiles[end].parent_id, NO_NODE);
    assert!(w.tiles.len() >= 100);
    // A fresh map was generated: tile size from the candidate set, the
    // agent parked on the start tile.
    assert!(w.tile_size == 10 || w.tile_size == 20 || w.tile_size == 50);
    let start = w.start_id as usize;
    assert_eq!(w.player.pos_x, w.tiles[start].transform.pos_x);
    assert_eq!(w.player.pos_y, w.tiles[start].transform.pos_y);
}

/// With every tile a wall no map is solvable: the bounded retry reports
/// failure instead of recursing forever.
#[test]
fn reset_reports_failure_when_walls_everywhere() {
    let mut w = WorldState::with_dims(300, 300, 9).expect("dimensions are accepted");
    w.set_wall_permille(1000);
    assert!(!w.reset());
    let end = w.end_id as usize;
    assert_eq!(w.tiles[end].parent_id, NO_NODE);
}

#[test]
fn regenerate_trigger_is_edge_detected() {
    let mut w = WorldState::new(77);
    // Fresh press: regenerates once.
    let r1 = handle_input(&mut w, false, true, false, false, false, false);
    assert!(matches!(r1, Some(true)));
    assert!(w.recent_regen);
    // Held across frames: no further regeneration.
    let r2 = handle_input(&mut w, true, true, false, false, false, false);
    assert!(r2.is_none());
    assert!(w.recent_regen);
    // Released: debounce clears.
    let r3 = handle_input(&mut w, true, false, false, false, false, false);
    assert!(r3.is_none());
    assert!(!w.recent_regen);
    // Pressed again: regenerates again.
    let r4 = handle_input(&mut w, false, true, false, false, false, false);
    assert!(r4.is_some());
}

#[test]
fn arrow_keys_move_agent() {
    let mut w = WorldState::new(3);
    assert!(w.reset());
    let x0 = w.player.pos_x;
    let y0 = w.player.pos_y;
    handle_input(&mut w, false, false, false, true, false, true);
    // Down and right, unless the clamp held an axis back at a border.
    assert!(w.player.pos_x == x0 + 7 || w.player.pos_x == x0);
    assert!(w.player.pos_y == y0 + 7 || w.player.pos_y == y0);
}

#[test]
fn narrow_window_shrinks_playfield() {
    let mut w = WorldState::new(11);
    w.set_window_size(500, 800);
    let r = initial_draw(&mut w);
    assert!(r.is_some());
    assert_eq!(w.width, 700);
    assert_eq!(w.height, 900);
    assert!(w.tiles.len() > 0);

    let mut wide = WorldState::new(11);
    wide.set_window_size(1024, 768);
    let r2 = initial_draw(&mut wide);
    assert!(r2.is_none());
    assert_eq!(wide.width, 1800);
}

#[test]
fn fixed_map_loads_with_fixed_targets() {
    let mut w = WorldState::new(0);
    assert!(w.load_test_map());
    assert_eq!(w.tiles.len(), 36 * 24);
    assert_eq!(w.tile_size, 50);
    assert_eq!(w.start_id, 418);
    assert_eq!(w.end_id, 316);
    assert_eq!(w.tiles[418].x_id, 22);
    assert_eq!(w.tiles[418].y_id, 11);
    // The agent sits on the start tile.
    assert_eq!(w.player.pos_x, w.tiles[418].transform.pos_x);
    // The fixed map is solvable from its fixed start to its fixed end.
    w.set_start_node();
    assert_eq!(w.start_id, 418);
    w.calc_astar();
    assert_ne!(w.tiles[316].parent_id, NO_NODE);
}

#[test]
fn layout_must_tile_playfield_exactly() {
    let mut w = WorldState::new(0);
    // 3 columns of 100 pixels do not cover an 1800-pixel playfield.
    assert!(!w.load_layout(100, b"0,0,0,\n0,0,0,\n0,0,0,"));
    assert_eq!(w.tiles.len(), 0);
    // Ragged rows are rejected.
    let mut v = WorldState::with_dims(300, 200, 0).expect("dimensions are accepted");
    assert!(!v.load_layout(100, b"0,0,0,\n0,0,\n"));
    // A matching layout is accepted.
    assert!(v.load_layout(100, b"0,0,0,\n0,0,0,\n"));
    assert_eq!(v.tiles.len(), 6);
}

#[test]
fn key_codes_round_trip() {
    assert_eq!(key_code_value(KeyCode::Spacebar), 32);
    assert_eq!(key_code_value(KeyCode::ArrowUp), 38);
    assert_eq!(key_code_from(38), Some(KeyCode::ArrowUp));
    assert_eq!(key_code_from(40), Some(KeyCode::ArrowDown));
    assert_eq!(key_code_from(37), Some(KeyCode::ArrowLeft));
    assert_eq!(key_code_from(39), Some(KeyCode::ArrowRight));
    assert_eq!(key_code_from(32), Some(KeyCode::Spacebar));
    assert_eq!(key_code_from(65), None);
}

#[test]
fn fresh_map_has_no_path_counts() {
    let mut w = WorldState::with_dims(300, 300, 5).expect("dimensions are accepted");
    assert!(w.load_layout(100, b"0,0,0,\n0,0,0,\n0,0,0,"));
    for i in 0..w.tiles.len() {
        assert_eq!(w.get_path_count(i), 0);
    }
}

/// One simulation step re-roots the path at the agent and recomputes it.
#[test]
fn step_reroots_at_agent() {
    let mut w = WorldState::with_dims(300, 300, 5).expect("dimensions are accepted");
    assert!(w.load_layout(100, b"0,0,0,\n0,0,0,\n0,0,0,"));
    w.set_target_ids(0, 8);
    w.set_player_pos(60, 60);
    w.step();
    assert_eq!(w.start_id, 4);
    assert_ne!(w.tiles[8].parent_id, NO_NODE);
    assert_eq!(w.tiles[8].g, 20);
}
