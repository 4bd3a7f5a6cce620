//! Input-driven entry points: key codes, the debounced regenerate trigger,
//! directional movement, and the initial window-size adjustment.
//!
//! The host's event layer polls raw key state and hands plain booleans in;
//! everything decided here — debouncing, direction resolution, when to
//! regenerate — is verified.

use vstd::prelude::*;

use crate::tile::NO_NODE;
use crate::world::WorldState;

verus! {

/// The keys the engine reacts to.
#[derive(Clone, Copy, PartialEq, Eq, Structural, Debug)]
pub enum KeyCode {
    ArrowUp,
    ArrowDown,
    ArrowLeft,
    ArrowRight,
    Spacebar,
}

/// The raw browser key code of each key.
pub open spec fn key_code_value_spec(k: KeyCode) -> u32 {
    match k {
        KeyCode::ArrowUp => 38,
        KeyCode::ArrowDown => 40,
        KeyCode::ArrowLeft => 37,
        KeyCode::ArrowRight => 39,
        KeyCode::Spacebar => 32,
    }
}

/// The raw key code a key maps to.
pub fn key_code_value(k: KeyCode) -> (v: u32)
    ensures
        v == key_code_value_spec(k),
{
    match k {
        KeyCode::ArrowUp => 38,
        KeyCode::ArrowDown => 40,
        KeyCode::ArrowLeft => 37,
        KeyCode::ArrowRight => 39,
        KeyCode::Spacebar => 32,
    }
}

/// The key a raw code maps to, if any.
pub fn key_code_from(raw: u32) -> (k: Option<KeyCode>)
    ensures
        k == (if raw == 38 {
            Some(KeyCode::ArrowUp)
        } else if raw == 40 {
            Some(KeyCode::ArrowDown)
        } else if raw == 37 {
            Some(KeyCode::ArrowLeft)
        } else if raw == 39 {
            Some(KeyCode::ArrowRight)
        } else if raw == 32 {
            Some(KeyCode::Spacebar)
        } else {
            None::<KeyCode>
        }),
{
    if raw == 38 {
        Some(KeyCode::ArrowUp)
    } else if raw == 40 {
        Some(KeyCode::ArrowDown)
    } else if raw == 37 {
        Some(KeyCode::ArrowLeft)
    } else if raw == 39 {
        Some(KeyCode::ArrowRight)
    } else if raw == 32 {
        Some(KeyCode::Spacebar)
    } else {
        None
    }
}

/// React to one frame of input.
///
/// A regenerate trigger (the spacebar) is edge-detected: it fires only on a
/// fresh press — not while held from the previous frame, and not until the
/// `recent_regen` debounce has been released — and each fire regenerates the
/// map once (`Some` of whether a solvable map was found). The arrow keys
/// move the agent one step, up/left taking precedence over down/right.
pub fn handle_input(
    world: &mut WorldState,
    space_was_down: bool,
    space_is_down: bool,
    up: bool,
    down: bool,
    left: bool,
    right: bool,
) -> (regen: Option<bool>)
    requires
        old(world).wf(),
    ensures
        final(world).wf(),
        regen is Some <==> (!space_was_down && space_is_down && !old(world).recent_regen),
        regen is Some ==> {
            &&& final(world).recent_regen
            &&& final(world).tiles@.len() > 0
            &&& 0 <= final(world).start_id < final(world).tiles@.len()
            &&& 0 <= final(world).end_id < final(world).tiles@.len()
            &&& regen == Some(
                final(world).tiles@[final(world).end_id as int].parent_id != NO_NODE,
            )
            &&& (final(world).tile_size == 10 || final(world).tile_size == 20 || final(world).tile_size == 50)
            &&& exists|s0: u64| #[trigger] crate::world::regen_marks(*final(world), s0)
            // The regeneration parks the agent on the new start tile; the
            // directional step is then applied from there.
            &&& ({
                let base_x =
                    final(world).tiles@[final(world).start_id as int].transform.pos_x;
                let xd: int = if left {
                    -1
                } else if right {
                    1
                } else {
                    0
                };
                let nx = base_x + 7 * xd;
                final(world).player.pos_x == if nx + final(world).tile_size < final(world).width
                    && nx > 0 {
                    nx
                } else {
                    base_x as int
                }
            })
            &&& ({
                let base_y =
                    final(world).tiles@[final(world).start_id as int].transform.pos_y;
                let yd: int = if up {
                    -1
                } else if down {
                    1
                } else {
                    0
                };
                let ny = base_y + 7 * yd;
                final(world).player.pos_y == if ny + final(world).tile_size < final(world).height
                    && ny > 0 {
                    ny
                } else {
                    base_y as int
                }
            })
        },
        regen is None ==> {
            &&& final(world).recent_regen == (space_is_down && old(world).recent_regen)
            &&& final(world).tiles@ == old(world).tiles@
            &&& final(world).start_id == old(world).start_id
            &&& final(world).end_id == old(world).end_id
            &&& final(world).rng == old(world).rng
            &&& ({
                let xd: int = if left {
                    -1
                } else if right {
                    1
                } else {
                    0
                };
                let nx = old(world).player.pos_x + 7 * xd;
                final(world).player.pos_x == if nx + old(world).tile_size < old(world).width && nx
                    > 0 {
                    nx
                } else {
                    old(world).player.pos_x as int
                }
            })
            &&& ({
                let yd: int = if up {
                    -1
                } else if down {
                    1
                } else {
                    0
                };
                let ny = old(world).player.pos_y + 7 * yd;
                final(world).player.pos_y == if ny + old(world).tile_size < old(world).height && ny
                    > 0 {
                    ny
                } else {
                    old(world).player.pos_y as int
                }
            })
        },
{
    let mut regen: Option<bool> = None;
    let ghost mut post_regen = *old(world);
    if !space_was_down && space_is_down && !world.recent_regen {
        let found: bool = world.reset();
        proof {
            post_regen = *world;
        }
        regen = Some(found);
        world.recent_regen = true;
    } else if !space_is_down {
        world.recent_regen = false;
    }
    let x_dir: i32 = if left {
        -1
    } else if right {
        1
    } else {
        0
    };
    let y_dir: i32 = if up {
        -1
    } else if down {
        1
    } else {
        0
    };
    world.update_player(x_dir, y_dir);
    proof {
        if regen is Some {
            let s0 = choose|s0: u64| crate::world::regen_marks(post_regen, s0);
            assert(crate::world::regen_marks(post_regen, s0));
            assert(crate::world::regen_marks(*world, s0));
        }
    }
    regen
}

/// Adjust the world to the host window before the first frame: a narrow
/// window shrinks the playfield and regenerates the map (`Some` of whether a
/// solvable map was found); otherwise nothing changes.
pub fn initial_draw(world: &mut WorldState) -> (regen: Option<bool>)
    requires
        old(world).wf(),
    ensures
        final(world).wf(),
        regen is Some <==> old(world).window_width < 600,
        regen is None ==> *final(world) == *old(world),
        regen is Some ==> {
            &&& final(world).width == 350 * old(world).quality
            &&& final(world).height == 450 * old(world).quality
            &&& final(world).tiles@.len() > 0
            &&& 0 <= final(world).start_id < final(world).tiles@.len()
            &&& 0 <= final(world).end_id < final(world).tiles@.len()
            &&& regen == Some(
                final(world).tiles@[final(world).end_id as int].parent_id != NO_NODE,
            )
            &&& (final(world).tile_size == 10 || final(world).tile_size == 20 || final(world).tile_size == 50)
            &&& exists|s0: u64| #[trigger] crate::world::regen_marks(*final(world), s0)
            // The regeneration leaves the agent parked on the new start tile.
            &&& final(world).player.pos_x == final(world).tiles@[final(world).start_id as int].transform.pos_x
            &&& final(world).player.pos_y == final(world).tiles@[final(world).start_id as int].transform.pos_y
        },
{
    if world.window_width < 600 {
        world.width = 350 * world.quality;
        world.height = 450 * world.quality;
        // The old map belongs to the old playfield: drop it and regenerate.
        world.tiles = Vec::new();
        world.tile_size = 50;
        world.start_id = NO_NODE;
        world.end_id = NO_NODE;
        world.player.pos_x = 0;
        world.player.pos_y = 0;
        let found: bool = world.reset();
        Some(found)
    } else {
        None
    }
}

} // verus!
