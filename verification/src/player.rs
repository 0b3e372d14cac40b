//! What stops the player: the cells a collision box may not enter. The box
//! itself moves in floating point beside the renderer, which hands over the
//! range of cells the box overlaps.

use vstd::prelude::*;
use crate::world::{World, PLAY_MARGIN, WORLD_X, WORLD_Z};

verus! {

/// Whether the cell `(x, y, z)` stops the player: it lies past the invisible
/// walls `PLAY_MARGIN` in from the edge of the map, or it holds a block that
/// blocks movement.
pub open spec fn stops_player(w: World, x: int, y: int, z: int) -> bool {
    x < PLAY_MARGIN || x >= WORLD_X - PLAY_MARGIN || z < PLAY_MARGIN || z >= WORLD_Z - PLAY_MARGIN
        || w.block_at(x, y, z).spec_blocks_movement()
}

/// Whether any cell of the box `[x0, x1] × [y0, y1] × [z0, z1]` stops the
/// player. Scans layer by layer, row by row, and stops at the first such cell.
pub fn cells_stop_player(world: &World, x0: i32, x1: i32, y0: i32, y1: i32, z0: i32, z1: i32) -> (r: bool)
    requires
        world.wf(),
    ensures
        r == exists|x: int, y: int, z: int|
            x0 <= x <= x1 && y0 <= y <= y1 && z0 <= z <= z1 && #[trigger] stops_player(*world, x, y, z),
        // The invisible walls stand on all four sides: a box reaching past
        // any of them is stopped, whatever it holds.
        x0 <= x1 && y0 <= y1 && z0 <= z1 && (x0 < PLAY_MARGIN || x1 >= WORLD_X - PLAY_MARGIN || z0 < PLAY_MARGIN || z1
            >= WORLD_Z - PLAY_MARGIN) ==> r,
        // Inside the walls, a box of air is free.
        (PLAY_MARGIN <= x0 && x1 < WORLD_X - PLAY_MARGIN && PLAY_MARGIN <= z0 && z1 < WORLD_Z - PLAY_MARGIN && forall|x: int, y: int, z: int|
            x0 <= x <= x1 && y0 <= y <= y1 && z0 <= z <= z1 ==> #[trigger] world.block_at(x, y, z) is Air) ==> !r,
{
    let mut y: i64 = y0 as i64;
    while y <= y1 as i64
        invariant
            world.wf(),
            y0 <= y <= y1 + 1 || y == y0,
            forall|a: int, b: int, c: int|
                x0 <= a <= x1 && y0 <= b < y && z0 <= c <= z1 ==> !#[trigger] stops_player(*world, a, b, c),
        decreases y1 - y + 1,
    {
        let mut z: i64 = z0 as i64;
        while z <= z1 as i64
            invariant
                world.wf(),
                y0 <= y <= y1,
                z0 <= z <= z1 + 1 || z == z0,
                forall|a: int, b: int, c: int|
                    x0 <= a <= x1 && (y0 <= b < y || (b == y && z0 <= c < z)) && z0 <= c <= z1 ==> !#[trigger] stops_player(
                        *world,
                        a,
                        b,
                        c,
                    ),
            decreases z1 - z + 1,
        {
            let mut x: i64 = x0 as i64;
            while x <= x1 as i64
                invariant
                    world.wf(),
                    y0 <= y <= y1,
                    z0 <= z <= z1,
                    x0 <= x <= x1 + 1 || x == x0,
                    forall|a: int, b: int, c: int|
                        x0 <= a <= x1 && (y0 <= b < y || (b == y && (z0 <= c < z || (c == z && a < x)))) && z0 <= c <= z1
                            ==> !#[trigger] stops_player(*world, a, b, c),
                decreases x1 - x + 1,
            {
                let (xi, yi, zi) = (x as i32, y as i32, z as i32);
                if xi < PLAY_MARGIN || xi >= WORLD_X - PLAY_MARGIN || zi < PLAY_MARGIN || zi >= WORLD_Z - PLAY_MARGIN {
                    assert(stops_player(*world, x as int, y as int, z as int));
                    return true;
                }
                if world.get(xi, yi, zi).blocks_movement() {
                    assert(stops_player(*world, x as int, y as int, z as int));
                    return true;
                }
                x = x + 1;
            }
            z = z + 1;
        }
        y = y + 1;
    }
    proof {
        if x0 <= x1 && y0 <= y1 && z0 <= z1 {
            if x0 < PLAY_MARGIN || z0 < PLAY_MARGIN {
                lemma_walls_stop(*world, x0 as int, y0 as int, z0 as int);
            } else if x1 >= WORLD_X - PLAY_MARGIN {
                lemma_walls_stop(*world, x1 as int, y0 as int, z0 as int);
            } else if z1 >= WORLD_Z - PLAY_MARGIN {
                lemma_walls_stop(*world, x0 as int, y0 as int, z1 as int);
            }
        }
    }
    false
}

/// The invisible walls stand `PLAY_MARGIN` in from every edge of the map, on
/// all four sides alike: any cell past one of them stops the player, whatever
/// it holds, air included.
pub proof fn lemma_walls_stop(w: World, x: int, y: int, z: int)
    requires
        x < PLAY_MARGIN || x >= WORLD_X - PLAY_MARGIN || z < PLAY_MARGIN || z >= WORLD_Z - PLAY_MARGIN,
    ensures
        stops_player(w, x, y, z),
{
}

/// Between the walls, a cell stops the player exactly when its block blocks
/// movement: air, water and plants let the player through.
pub proof fn lemma_inside_walls(w: World, x: int, y: int, z: int)
    requires
        PLAY_MARGIN <= x < WORLD_X - PLAY_MARGIN,
        PLAY_MARGIN <= z < WORLD_Z - PLAY_MARGIN,
    ensures
        stops_player(w, x, y, z) <==> !(w.block_at(x, y, z) is Air || w.block_at(x, y, z) is Water || w.block_at(x, y, z).spec_is_plant()),
{
}

} // verus!
