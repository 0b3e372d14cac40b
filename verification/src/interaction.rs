//! Breaking and placing blocks: which cell an edit lands in, whether it is
//! allowed, and what it changes — the block itself, a plant left without
//! ground, the water woken around it and the chunk columns to redraw.

use vstd::prelude::*;
use crate::block::Block;
use crate::chunk::{dirty_columns, stale_columns};
use crate::water::{disturb, inner, woken, Cell};
use crate::world::{World, in_world, placed_level};

verus! {

/// Whether a press of the place button places anything: only with a block
/// in hand.
pub open spec fn places(place_pressed: bool, held: Option<Block>) -> bool {
    place_pressed && held is Some
}

/// The cell an edit lands in, given the solid (or plant) cell the ray hit and
/// the empty cell in front of it: breaking takes the hit cell; placing goes in
/// front of it, except that plants are replaceable, so aiming at one places
/// into its cell.
pub open spec fn target_of(w: World, hit: Cell, prev: Cell, break_pressed: bool, place_pressed: bool, held: Option<Block>) -> Cell {
    if break_pressed || (places(place_pressed, held) && w.block_at(hit.0 as int, hit.1 as int, hit.2 as int).is_plant()) {
        hit
    } else {
        prev
    }
}

/// The cell an edit lands in (see [`target_of`]).
pub fn edit_target(world: &World, hit: Cell, prev: Cell, break_pressed: bool, place_pressed: bool, held: Option<Block>) -> (t: Cell)
    requires
        world.wf(),
    ensures
        t == target_of(*world, hit, prev, break_pressed, place_pressed, held),
{
    let aimed_at_plant = world.get(hit.0, hit.1, hit.2).is_plant();
    if break_pressed || (place_pressed && held.is_some() && aimed_at_plant) {
        hit
    } else {
        prev
    }
}

/// Whether an edit at `t` goes ahead. Nothing happens without a press. A
/// placement is refused when the block would wall the player in (plants do
/// not collide, so they are exempt), or when a plant would have no earth under
/// it or no free cell (air, or another plant) to go in.
pub open spec fn edit_allowed(w: World, t: Cell, break_pressed: bool, place_pressed: bool, held: Option<Block>, player_in_target: bool) -> bool {
    let place = places(place_pressed, held);
    let b = match held { Some(b) => b, None => Block::Air };
    let below = w.block_at(t.0 as int, t.1 - 1, t.2 as int);
    let cell = w.block_at(t.0 as int, t.1 as int, t.2 as int);
    let free = cell is Air || cell.is_plant();
    &&& break_pressed || place
    &&& !(place && !b.is_plant() && player_in_target)
    &&& !(place && b.is_plant() && (!below.supports_plants() || !free))
}

/// Placing a plant needs a free cell: into a cell holding anything but air
/// or another plant (water, or a solid block), a plant placement is never
/// allowed, whatever is below it and wherever the player stands.
pub proof fn lemma_plant_needs_free_cell(w: World, t: Cell, place_pressed: bool, p: Block, player_in_target: bool)
    requires
        p.is_plant(),
        !(w.block_at(t.0 as int, t.1 as int, t.2 as int) is Air),
        !w.block_at(t.0 as int, t.1 as int, t.2 as int).is_plant(),
    ensures
        !edit_allowed(w, t, false, place_pressed, Some(p), player_in_target),
{
}

/// Placing a plant needs earth under it: over anything but grass, dirt or
/// sand, a plant placement is never allowed.
pub proof fn lemma_plant_needs_earth(w: World, t: Cell, place_pressed: bool, p: Block, player_in_target: bool)
    requires
        p.is_plant(),
        !(w.block_at(t.0 as int, t.1 - 1, t.2 as int) is Grass),
        !(w.block_at(t.0 as int, t.1 - 1, t.2 as int) is Dirt),
        !(w.block_at(t.0 as int, t.1 - 1, t.2 as int) is Sand),
    ensures
        !edit_allowed(w, t, false, place_pressed, Some(p), player_in_target),
{
}

/// A plant in hand, pressed into air over grass, is always planted: the
/// player's body does not stand in its way.
pub proof fn lemma_plant_on_grass(w: World, t: Cell, p: Block, player_in_target: bool)
    requires
        p.is_plant(),
        w.block_at(t.0 as int, t.1 as int, t.2 as int) is Air,
        w.block_at(t.0 as int, t.1 - 1, t.2 as int) is Grass,
    ensures
        edit_allowed(w, t, false, true, Some(p), player_in_target),
{
}

/// The block an allowed edit writes: air when breaking, else the held block.
pub open spec fn edit_block(break_pressed: bool, held: Option<Block>) -> Block {
    if break_pressed {
        Block::Air
    } else {
        match held { Some(b) => b, None => Block::Air }
    }
}

/// Remove the plant directly above `p` if `p` can no longer support it.
/// Plants are one block tall, so there is no chain of dependents to walk.
/// Returns whether the world changed.
pub fn prune_plant_above(world: &mut World, p: Cell) -> (pruned: bool)
    requires
        old(world).wf(),
        inner(p),
    ensures
        final(world).wf(),
        ({
            let above = old(world).block_at(p.0 as int, p.1 + 1, p.2 as int);
            let ground = old(world).block_at(p.0 as int, p.1 as int, p.2 as int);
            if above.is_plant() && !ground.supports_plants() {
                &&& World::replaced(*old(world), *final(world), p.0 as int, p.1 + 1, p.2 as int, Block::Air, 0)
                &&& pruned
            } else {
                &&& World::same(*old(world), *final(world))
                &&& !pruned
            }
        }),
{
    let (x, y, z) = p;
    if !world.get(x, y + 1, z).is_plant() {
        return false;
    }
    if world.get(x, y, z).supports_plants() {
        return false;
    }
    proof {
        // A plant is only ever found inside the world.
        old(world).lemma_cell(x as int, y + 1, z as int);
    }
    world.set(x, y + 1, z, Block::Air)
}

/// Whether a plant placed at `t` would have earth under it and a free cell
/// (air, or another plant) to go in.
fn plant_fits(world: &World, t: Cell) -> (r: bool)
    requires
        world.wf(),
        inner(t),
    ensures
        r == ({
            let below = world.block_at(t.0 as int, t.1 - 1, t.2 as int);
            let cell = world.block_at(t.0 as int, t.1 as int, t.2 as int);
            below.supports_plants() && (cell is Air || cell.is_plant())
        }),
{
    let (x, y, z) = t;
    let below = world.get(x, y - 1, z);
    let cell = world.get(x, y, z);
    below.supports_plants() && (cell == Block::Air || cell.is_plant())
}

/// Break or place a block at `target` (see [`edit_target`]) with the break
/// and place buttons as pressed, `held` in hand, and `player_in_target`
/// saying whether the player's body overlaps that cell.
///
/// When the edit is allowed and changes the cell, the water around it is
/// woken (added to `active`), a plant it leaves without ground is removed,
/// and the chunk columns to redraw are returned — the target's, then the
/// pruned plant's — with the block that was broken when it was a solid one
/// broken by the break button. Otherwise nothing changes and nothing is
/// returned.
pub fn edit_blocks(
    world: &mut World,
    active: &mut Vec<Cell>,
    target: Cell,
    break_pressed: bool,
    place_pressed: bool,
    held: Option<Block>,
    player_in_target: bool,
) -> (r: (Vec<(i32, i32)>, Option<Block>))
    requires
        old(world).wf(),
        inner(target),
    ensures
        final(world).wf(),
        ({
            let (x, y, z) = (target.0 as int, target.1 as int, target.2 as int);
            let b = edit_block(break_pressed, held);
            let before = old(world).block_at(x, y, z);
            let changed = edit_allowed(*old(world), target, break_pressed, place_pressed, held, player_in_target)
                && in_world(x, y, z) && (before != b || old(world).level_at(x, y, z) != placed_level(b));
            let prunes = changed && old(world).block_at(x, y + 1, z).is_plant() && !b.supports_plants();
            if changed {
                &&& forall|a: int, c: int, e: int|
                    !(a == x && c == y && e == z) && !(prunes && a == x && c == y + 1 && e == z)
                        ==> #[trigger] final(world).block_at(a, c, e) == old(world).block_at(a, c, e)
                        && final(world).level_at(a, c, e) == old(world).level_at(a, c, e)
                &&& final(world).block_at(x, y, z) == b && final(world).level_at(x, y, z) == placed_level(b)
                &&& prunes ==> final(world).block_at(x, y + 1, z) == Block::Air && final(world).level_at(x, y + 1, z) == 0
                &&& final(active)@ == old(active)@ + woken(target)
                &&& r.0@ == (if prunes { stale_columns(x, z) + stale_columns(x, z) } else { stale_columns(x, z) })
                &&& r.1 == (if break_pressed && before.is_solid() { Some(before) } else { None })
            } else {
                &&& World::same(*old(world), *final(world))
                &&& final(active)@ == old(active)@
                &&& r.0@.len() == 0
                &&& r.1 is None
            }
        }),
        // A plant goes only into a free cell (air or another plant) over
        // earth: anywhere else the placement changes nothing.
        ({
            let (x, y, z) = (target.0 as int, target.1 as int, target.2 as int);
            let cell = old(world).block_at(x, y, z);
            let below = old(world).block_at(x, y - 1, z);
            (!break_pressed && held is Some && held->0.is_plant() && (!(cell is Air || cell.is_plant()) || !below.supports_plants()))
                ==> World::same(*old(world), *final(world)) && final(active)@ == old(active)@ && r.0@.len() == 0
        }),
{
    let (x, y, z) = target;
    let place = place_pressed && held.is_some();
    let b = match held {
        Some(b) => b,
        None => Block::Air,
    };
    // Don't let the player wall themselves in (plants don't collide), and a
    // plant needs earth under it and a cell that's free to take it.
    let fits = plant_fits(world, target);
    let allowed = (break_pressed || place) && !(place && !b.is_plant() && player_in_target) && !(place
        && b.is_plant() && !fits);
    let mut dirty: Vec<(i32, i32)> = Vec::new();
    let mut shattered: Option<Block> = None;
    if allowed {
        let broken = world.get(x, y, z);
        let new_block = if break_pressed {
            Block::Air
        } else {
            b
        };
        let ghost pre = *world;
        let hit = world.set(x, y, z, new_block);
        proof {
            pre.lemma_cell(x as int, y as int, z as int);
            world.lemma_cell(x as int, y as int, z as int);
        }
        if hit {
            let ghost placed = *world;
            dirty = dirty_columns(x, z);
            disturb(active, target);
            // Whatever was done to this cell may have pulled the ground out
            // from under a plant sitting on it.
            if prune_plant_above(world, target) {
                let mut more = dirty_columns(x, z);
                dirty.append(&mut more);
            }
            proof {
                placed.lemma_cell(x as int, y as int, z as int);
            }
            if break_pressed && broken.is_solid() {
                shattered = Some(broken);
            }
        }
    }
    (dirty, shattered)
}

} // verus!
