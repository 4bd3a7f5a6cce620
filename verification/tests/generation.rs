//! Layout parsing, random generation and adjacency linking.

use astar_grid::layout::parse_layout;
use astar_grid::rng::Lcg;
use astar_grid::tile::NO_NODE;
use astar_grid::world::WorldState;

#[test]
fn parse_simple_layout() {
    let flags = parse_layout(b"0,0,1,\n1,0,0,");
    assert_eq!(flags.len(), 2);
    assert_eq!(flags[0], vec![false, false, true]);
    assert_eq!(flags[1], vec![true, false, false]);
}

#[test]
fn parse_skips_whitespace_and_blank_lines() {
    let flags = parse_layout(b" 0 , 1 \n\n  0,0");
    assert_eq!(flags.len(), 2);
    assert_eq!(flags[0], vec![false, true]);
    assert_eq!(flags[1], vec![false, false]);
}

#[test]
fn parse_empty_text() {
    let flags = parse_layout(b"");
    assert_eq!(flags.len(), 0);
}

#[test]
fn parse_non_one_tokens_are_floor() {
    let flags = parse_layout(b"2,x,,11,1");
    assert_eq!(flags, vec![vec![false, false, false, false, true]]);
}

#[test]
fn parse_row_without_trailing_comma() {
    let flags = parse_layout(b"1,0\n0,1");
    assert_eq!(flags, vec![vec![true, false], vec![false, true]]);
}

#[test]
fn random_range_stays_in_bounds() {
    let mut rng = Lcg::new(42);
    for _ in 0..200 {
        let v = rng.random_range(5, 9);
        assert!(5 <= v && v <= 9);
    }
    let mut rng2 = Lcg::new(7);
    for _ in 0..200 {
        assert!(rng2.next_below(3) < 3);
    }
}

#[test]
fn rng_is_reproducible_from_seed() {
    let mut a = Lcg::new(1234);
    let mut b = Lcg::new(1234);
    for _ in 0..50 {
        assert_eq!(a.random_range(-10, 10), b.random_range(-10, 10));
    }
}

#[test]
fn generation_is_reproducible_from_seed() {
    let mut w1 = WorldState::new(99);
    let mut w2 = WorldState::new(99);
    assert!(w1.reset());
    assert!(w2.reset());
    assert_eq!(w1.tile_size, w2.tile_size);
    assert_eq!(w1.tiles.len(), w2.tiles.len());
    assert_eq!(w1.start_id, w2.start_id);
    assert_eq!(w1.end_id, w2.end_id);
    for i in 0..w1.tiles.len() {
        assert_eq!(w1.tiles[i].is_wall, w2.tiles[i].is_wall);
    }
}

#[test]
fn generated_tiles_have_row_major_identity() {
    let mut w = WorldState::new(5);
    w.reset();
    let cols = (w.width / w.tile_size) as usize;
    let rows = (w.height / w.tile_size) as usize;
    assert_eq!(w.tiles.len(), cols * rows);
    for i in 0..w.tiles.len() {
        let t = &w.tiles[i];
        assert_eq!(t.node_id, i);
        assert_eq!(t.x_id as usize, i % cols);
        assert_eq!(t.y_id as usize, i / cols);
        assert_eq!(t.transform.pos_x, (i % cols) as i64 * w.tile_size as i64);
        assert_eq!(t.transform.pos_y, (i / cols) as i64 * w.tile_size as i64);
        assert_eq!(t.transform.scale_x, w.tile_size as i64);
    }
}

/// Every neighbor field of every tile, when set, names an in-bounds,
/// non-wall tile exactly one step away, and walls expose no edges at all.
#[test]
fn neighbor_links_are_sound() {
    let mut w = WorldState::new(2024);
    w.reset();
    let n = w.tiles.len();
    for i in 0..n {
        let t = &w.tiles[i];
        if t.is_wall {
            assert_eq!(t.top, NO_NODE);
            assert_eq!(t.bottom, NO_NODE);
            assert_eq!(t.left, NO_NODE);
            assert_eq!(t.right, NO_NODE);
        }
        for (side, dx, dy) in [
            (t.top, 0i32, -1i32),
            (t.bottom, 0, 1),
            (t.left, -1, 0),
            (t.right, 1, 0),
        ] {
            if side != NO_NODE {
                assert!(!t.is_wall);
                assert!(side >= 0 && (side as usize) < n);
                let nb = &w.tiles[side as usize];
                assert!(!nb.is_wall);
                assert_eq!(nb.x_id, t.x_id + dx);
                assert_eq!(nb.y_id, t.y_id + dy);
            }
        }
    }
}

#[test]
fn wall_tiles_are_darker() {
    let mut w = WorldState::new(17);
    w.reset();
    for t in w.tiles.iter() {
        if t.is_wall {
            assert_eq!(t.color.l, 20);
        } else {
            assert_eq!(t.color.l, 30);
        }
    }
}
