//! Flowing water: a small cellular automaton that makes water fall and
//! cascade toward drops — waterfalls, filling pits, draining when a lakebed is
//! broken.
//!
//! Only cells that might still move are visited: those an edit woke, and the
//! neighbours of those the last step changed. A step reads the world as it was
//! and writes every change after, so water spreads one ring per step: a cell's
//! level becomes one less than its strongest water neighbour, or one less than
//! a source when it is fed from directly above. Sources never change.

use vstd::prelude::*;
use crate::block::Block;
use crate::chunk::{dirty_columns, stale_columns};
use crate::world::{World, WATER_SOURCE, in_world};

verus! {

/// A block position.
pub type Cell = (i32, i32, i32);

/// A cell whose six neighbours all have coordinates that fit in an `i32`.
pub open spec fn inner(c: Cell) -> bool {
    &&& i32::MIN < c.0 < i32::MAX
    &&& i32::MIN < c.1 < i32::MAX
    &&& i32::MIN < c.2 < i32::MAX
}

/// The larger of two levels.
pub open spec fn max_level(a: u8, b: u8) -> u8 {
    if a < b { b } else { a }
}

/// The strongest water feeding `(x, y, z)`: a full source's worth when there
/// is any water directly above, and otherwise the level of its strongest
/// horizontal neighbour.
pub open spec fn supply(w: World, x: int, y: int, z: int) -> u8 {
    let above: u8 = if w.level_at(x, y + 1, z) > 0 { WATER_SOURCE } else { 0u8 };
    max_level(
        max_level(max_level(max_level(above, w.level_at(x + 1, y, z)), w.level_at(x - 1, y, z)), w.level_at(x, y, z + 1)),
        w.level_at(x, y, z - 1),
    )
}

/// The level the flow rule gives `(x, y, z)`: one less than its supply, and
/// dry when the supply is a trickle of 1 or nothing.
pub open spec fn flowed_level(w: World, x: int, y: int, z: int) -> u8 {
    let s = supply(w, x, y, z);
    if s >= 2 { (s - 1) as u8 } else { 0u8 }
}

/// The new level a step gives cell `c` of `w`, if it changes: air, water
/// and plants flow (water washes a plant away, rather than treating it as a
/// wall), sources are fixed, and a cell already at its flowed level is left
/// alone — so a plant stays until water reaches it.
pub open spec fn flow_at(w: World, c: Cell) -> Option<u8> {
    let (x, y, z) = (c.0 as int, c.1 as int, c.2 as int);
    let here = w.block_at(x, y, z);
    if !floodable(here) || w.level_at(x, y, z) == WATER_SOURCE {
        None
    } else if flowed_level(w, x, y, z) != w.level_at(x, y, z) {
        Some(flowed_level(w, x, y, z))
    } else {
        None
    }
}

/// The updates a step computes for `cells` of `w`, in order: each cell with
/// its new level, for the cells whose level changes.
pub open spec fn flow_updates(w: World, cells: Seq<Cell>) -> Seq<(Cell, u8)>
    decreases cells.len(),
{
    if cells.len() == 0 {
        seq![]
    } else {
        let rest = flow_updates(w, cells.drop_last());
        match flow_at(w, cells.last()) {
            Some(l) => rest.push((cells.last(), l)),
            None => rest,
        }
    }
}

/// What a step leaves at `(x, y, z)` when the cells it visits are `cells`:
/// the flowed level (water, or air when it dries) if the cell is in the world,
/// among them, and changes; otherwise what was there.
pub open spec fn flows_into(w: World, cells: Seq<Cell>, x: int, y: int, z: int) -> Option<u8> {
    if in_world(x, y, z) && exists|i: int| 0 <= i < cells.len() && #[trigger] cells[i] == (x as i32, y as i32, z as i32) {
        flow_at(w, (x as i32, y as i32, z as i32))
    } else {
        None
    }
}

/// A cell water may be written into: water, air or a plant (which the water
/// washes away).
pub open spec fn floodable(b: Block) -> bool {
    b is Water || b is Air || b.is_plant()
}

/// The block a cell holds at water level `l`.
pub open spec fn flooded(l: u8) -> Block {
    if l > 0 { Block::Water } else { Block::Air }
}

/// The block and level at `(x, y, z)` after writing the updates `ups` into `w`
/// one after another, each as [`World::set_water_level`] writes it.
pub open spec fn cell_after(w: World, ups: Seq<(Cell, u8)>, x: int, y: int, z: int) -> (Block, u8)
    decreases ups.len(),
{
    if ups.len() == 0 {
        (w.block_at(x, y, z), w.level_at(x, y, z))
    } else {
        let prev = cell_after(w, ups.drop_last(), x, y, z);
        let (c, l) = ups.last();
        if c.0 == x && c.1 == y && c.2 == z && in_world(x, y, z) && floodable(prev.0) {
            (flooded(l), l)
        } else {
            prev
        }
    }
}

/// The cells that writing `ups` into `w` one after another actually changed,
/// in the order they changed.
pub open spec fn changed_cells(w: World, ups: Seq<(Cell, u8)>) -> Seq<Cell>
    decreases ups.len(),
{
    if ups.len() == 0 {
        seq![]
    } else {
        let rest = changed_cells(w, ups.drop_last());
        let (c, l) = ups.last();
        let before = cell_after(w, ups.drop_last(), c.0 as int, c.1 as int, c.2 as int);
        if in_world(c.0 as int, c.1 as int, c.2 as int) && floodable(before.0) && (before.1 != l
            || before.0 != flooded(l)) {
            rest.push(c)
        } else {
            rest
        }
    }
}

/// The six neighbours of a cell: east, west, south, north, above, below.
pub open spec fn neighbours(c: Cell) -> Seq<Cell> {
    seq![
        ((c.0 + 1) as i32, c.1, c.2),
        ((c.0 - 1) as i32, c.1, c.2),
        (c.0, c.1, (c.2 + 1) as i32),
        (c.0, c.1, (c.2 - 1) as i32),
        (c.0, (c.1 + 1) as i32, c.2),
        (c.0, (c.1 - 1) as i32, c.2),
    ]
}

/// The neighbours of every cell of `cells`, in order.
pub open spec fn all_neighbours(cells: Seq<Cell>) -> Seq<Cell>
    decreases cells.len(),
{
    if cells.len() == 0 {
        seq![]
    } else {
        all_neighbours(cells.drop_last()) + neighbours(cells.last())
    }
}

/// The chunk columns made stale by changes at `cells`, in order.
pub open spec fn all_stale(cells: Seq<Cell>) -> Seq<(i32, i32)>
    decreases cells.len(),
{
    if cells.len() == 0 {
        seq![]
    } else {
        all_stale(cells.drop_last()) + stale_columns(cells.last().0 as int, cells.last().2 as int)
    }
}

/// What a disturbance at `p` wakes: `p`, its four horizontal neighbours, and
/// the cells above and below it.
pub open spec fn woken(p: Cell) -> Seq<Cell> {
    seq![
        p,
        ((p.0 + 1) as i32, p.1, p.2),
        ((p.0 - 1) as i32, p.1, p.2),
        (p.0, p.1, (p.2 + 1) as i32),
        (p.0, p.1, (p.2 - 1) as i32),
        (p.0, (p.1 + 1) as i32, p.2),
        (p.0, (p.1 - 1) as i32, p.2),
    ]
}

/// Wake up water at and around `p` (called whenever a block is edited): `p`
/// and its six neighbours join the cells the next step visits.
pub fn disturb(active: &mut Vec<Cell>, p: Cell)
    requires
        inner(p),
    ensures
        final(active)@ == old(active)@ + woken(p),
{
    let (x, y, z) = p;
    active.push(p);
    active.push((x + 1, y, z));
    active.push((x - 1, y, z));
    active.push((x, y, z + 1));
    active.push((x, y, z - 1));
    active.push((x, y + 1, z));
    active.push((x, y - 1, z));
    assert(final(active)@ =~= old(active)@ + woken(p));
}

/// The new level a step gives cell `c`, if it changes (see [`flow_at`]).
pub fn flow(world: &World, c: Cell) -> (r: Option<u8>)
    requires
        world.wf(),
        inner(c),
    ensures
        r == flow_at(*world, c),
{
    let (x, y, z) = c;
    let here = world.get(x, y, z);
    if here != Block::Air && here != Block::Water && !here.is_plant() {
        return None;  // solid cell
    }
    let cur = world.water_level(x, y, z);
    if cur == WATER_SOURCE {
        return None;  // sources are fixed
    }
    let mut supply: u8 = 0;
    if world.water_level(x, y + 1, z) > 0 {
        supply = WATER_SOURCE;  // fed from above: falls at full strength
    }
    let east = world.water_level(x + 1, y, z);
    if supply < east {
        supply = east;
    }
    let west = world.water_level(x - 1, y, z);
    if supply < west {
        supply = west;
    }
    let south = world.water_level(x, y, z + 1);
    if supply < south {
        supply = south;
    }
    let north = world.water_level(x, y, z - 1);
    if supply < north {
        supply = north;
    }
    let new = if supply >= 2 {
        supply - 1
    } else {
        0
    };
    if new != cur {
        Some(new)
    } else {
        None
    }
}

/// The updates a step makes to `cells`, each computed from the world as it
/// stands: every cell whose level changes, with its new level.
pub fn water_updates(world: &World, cells: &Vec<Cell>) -> (ups: Vec<(Cell, u8)>)
    requires
        world.wf(),
        forall|i: int| 0 <= i < cells@.len() ==> inner(#[trigger] cells@[i]),
    ensures
        ups@ == flow_updates(*world, cells@),
{
    let mut ups: Vec<(Cell, u8)> = Vec::new();
    let mut i: usize = 0;
    while i < cells.len()
        invariant
            world.wf(),
            0 <= i <= cells@.len(),
            forall|j: int| 0 <= j < cells@.len() ==> inner(#[trigger] cells@[j]),
            ups@ == flow_updates(*world, cells@.take(i as int)),
        decreases cells@.len() - i,
    {
        let c = cells[i];
        assert(cells@.take(i + 1).drop_last() =~= cells@.take(i as int));
        if let Some(l) = flow(world, c) {
            ups.push((c, l));
        }
        i = i + 1;
    }
    assert(cells@.take(cells@.len() as int) =~= cells@);
    ups
}

/// Write the updates into the world one after another, each through
/// [`World::set_water_level`], and return the cells that actually changed.
pub fn apply_water(world: &mut World, ups: &Vec<(Cell, u8)>) -> (changed: Vec<Cell>)
    requires
        old(world).wf(),
    ensures
        final(world).wf(),
        forall|x: int, y: int, z: int|
            (#[trigger] final(world).block_at(x, y, z), final(world).level_at(x, y, z)) == cell_after(*old(world), ups@, x, y, z),
        changed@ == changed_cells(*old(world), ups@),
{
    let ghost w0 = *world;
    let mut changed: Vec<Cell> = Vec::new();
    let mut i: usize = 0;
    while i < ups.len()
        invariant
            world.wf(),
            0 <= i <= ups@.len(),
            forall|x: int, y: int, z: int|
                (#[trigger] world.block_at(x, y, z), world.level_at(x, y, z)) == cell_after(w0, ups@.take(i as int), x, y, z),
            changed@ == changed_cells(w0, ups@.take(i as int)),
        decreases ups@.len() - i,
    {
        let ((x, y, z), l) = ups[i];
        let ghost prev = *world;
        let ghost pre = ups@.take(i as int);
        assert(ups@.take(i + 1).drop_last() =~= pre);
        assert(ups@.take(i + 1).last() == ups@[i as int]);
        let hit = world.set_water_level(x, y, z, l);
        proof {
            assert((prev.block_at(x as int, y as int, z as int), prev.level_at(x as int, y as int, z as int)) == cell_after(w0, pre, x as int, y as int, z as int));
            assert forall|a: int, b: int, c: int|
                (#[trigger] world.block_at(a, b, c), world.level_at(a, b, c)) == cell_after(w0, ups@.take(i + 1), a, b, c) by {
                assert((prev.block_at(a, b, c), prev.level_at(a, b, c)) == cell_after(w0, pre, a, b, c));
            }
        }
        if hit {
            changed.push((x, y, z));
        }
        i = i + 1;
    }
    assert(ups@.take(ups@.len() as int) =~= ups@);
    changed
}

/// Applying a step's updates one after another leaves each visited cell at
/// the level it was computed to flow to from the world as it was before the
/// step, and every other cell as it was: the step is simultaneous, however the
/// visited cells are ordered and even if one is listed twice.
pub proof fn lemma_flow_simultaneous(w: World, cells: Seq<Cell>, x: int, y: int, z: int)
    ensures
        cell_after(w, flow_updates(w, cells), x, y, z) == (match flows_into(w, cells, x, y, z) {
            Some(l) => (flooded(l), l),
            None => (w.block_at(x, y, z), w.level_at(x, y, z)),
        }),
    decreases cells.len(),
{
    if cells.len() == 0 {
    } else {
        let rest = cells.drop_last();
        let c = cells.last();
        lemma_flow_simultaneous(w, rest, x, y, z);
        let here = in_world(x, y, z) && c == (x as i32, y as i32, z as i32);
        // Membership in `cells` is membership in `rest`, or being its last cell.
        assert forall|i: int| 0 <= i < rest.len() implies #[trigger] rest[i] == cells[i] by {}
        if in_world(x, y, z) && exists|i: int| 0 <= i < cells.len() && #[trigger] cells[i] == (x as i32, y as i32, z as i32) {
            let i = choose|i: int| 0 <= i < cells.len() && #[trigger] cells[i] == (x as i32, y as i32, z as i32);
            if i < rest.len() {
                assert(rest[i] == cells[i]);
            }
        }
        if in_world(x, y, z) && exists|i: int| 0 <= i < rest.len() && #[trigger] rest[i] == (x as i32, y as i32, z as i32) {
            let i = choose|i: int| 0 <= i < rest.len() && #[trigger] rest[i] == (x as i32, y as i32, z as i32);
            assert(cells[i] == rest[i]);
        }
        if here {
            assert(cells[cells.len() - 1] == c);
        }
        match flow_at(w, c) {
            Some(l) => {
                assert(flow_updates(w, cells).drop_last() =~= flow_updates(w, rest));
            },
            None => {},
        }
    }
}

/// What a step can never do: change a source, or change anything that is not
/// air, water or a plant.
pub proof fn lemma_sources_and_solids_stay(w: World, cells: Seq<Cell>, x: int, y: int, z: int)
    requires
        w.level_at(x, y, z) == WATER_SOURCE || !floodable(w.block_at(x, y, z)),
    ensures
        flows_into(w, cells, x, y, z) is None,
{
}

/// Flowing water never reaches a source's level: in a world whose levels are
/// at most a source's, every level a step writes is at least one lower, so
/// water spreads at most `WATER_SOURCE - 1` blocks from a source.
pub proof fn lemma_flow_stays_below_source(w: World, cells: Seq<Cell>, x: int, y: int, z: int)
    requires
        forall|a: int, b: int, c: int| #[trigger] w.level_at(a, b, c) <= WATER_SOURCE,
    ensures
        flows_into(w, cells, x, y, z) matches Some(l) ==> l < WATER_SOURCE,
{
    assert(w.level_at(x + 1, y, z) <= WATER_SOURCE);
    assert(w.level_at(x - 1, y, z) <= WATER_SOURCE);
    assert(w.level_at(x, y, z + 1) <= WATER_SOURCE);
    assert(w.level_at(x, y, z - 1) <= WATER_SOURCE);
}

/// The neighbours of every cell of `cells`, in order.
fn neighbours_of(cells: &Vec<Cell>) -> (r: Vec<Cell>)
    requires
        forall|i: int| 0 <= i < cells@.len() ==> inner(#[trigger] cells@[i]),
    ensures
        r@ == all_neighbours(cells@),
{
    let mut r: Vec<Cell> = Vec::new();
    let mut i: usize = 0;
    while i < cells.len()
        invariant
            0 <= i <= cells@.len(),
            forall|j: int| 0 <= j < cells@.len() ==> inner(#[trigger] cells@[j]),
            r@ == all_neighbours(cells@.take(i as int)),
        decreases cells@.len() - i,
    {
        let (x, y, z) = cells[i];
        assert(cells@.take(i + 1).drop_last() =~= cells@.take(i as int));
        assert(inner(cells@[i as int]));
        let ghost before = r@;
        r.push((x + 1, y, z));
        r.push((x - 1, y, z));
        r.push((x, y, z + 1));
        r.push((x, y, z - 1));
        r.push((x, y + 1, z));
        r.push((x, y - 1, z));
        assert(r@ =~= before + neighbours(cells@[i as int]));
        i = i + 1;
    }
    assert(cells@.take(cells@.len() as int) =~= cells@);
    r
}

/// The chunk columns made stale by changes at `cells`, in order.
fn stale_of(cells: &Vec<Cell>) -> (r: Vec<(i32, i32)>)
    requires
        forall|i: int| 0 <= i < cells@.len() ==> inner(#[trigger] cells@[i]),
    ensures
        r@ == all_stale(cells@),
{
    let mut r: Vec<(i32, i32)> = Vec::new();
    let mut i: usize = 0;
    while i < cells.len()
        invariant
            0 <= i <= cells@.len(),
            forall|j: int| 0 <= j < cells@.len() ==> inner(#[trigger] cells@[j]),
            r@ == all_stale(cells@.take(i as int)),
        decreases cells@.len() - i,
    {
        let (x, _, z) = cells[i];
        assert(cells@.take(i + 1).drop_last() =~= cells@.take(i as int));
        assert(inner(cells@[i as int]));
        let mut cols = dirty_columns(x, z);
        r.append(&mut cols);
        i = i + 1;
    }
    assert(cells@.take(cells@.len() as int) =~= cells@);
    r
}

/// The cells a step changes are in the world.
proof fn lemma_changed_in_world(w: World, ups: Seq<(Cell, u8)>)
    ensures
        forall|i: int| 0 <= i < changed_cells(w, ups).len() ==> {
            let c = #[trigger] changed_cells(w, ups)[i];
            in_world(c.0 as int, c.1 as int, c.2 as int)
        },
    decreases ups.len(),
{
    if ups.len() > 0 {
        lemma_changed_in_world(w, ups.drop_last());
        let rest = changed_cells(w, ups.drop_last());
        let all = changed_cells(w, ups);
        assert forall|i: int| 0 <= i < all.len() implies {
            let c = #[trigger] all[i];
            in_world(c.0 as int, c.1 as int, c.2 as int)
        } by {
            if i < rest.len() {
                assert(all[i] == rest[i]);
            }
        }
    }
}

/// One step of the flow: compute the updates for every visited cell from the
/// world as it stands, write them all, and return the cells the next step
/// visits — the six neighbours of every cell that changed — with the chunk
/// columns those changes made stale (each changed cell's and its four
/// neighbours').
///
/// Every cell ends at the level it flows to from the world before the step
/// (see [`flows_into`]); nothing else changes.
pub fn simulate_water(world: &mut World, active: Vec<Cell>) -> (r: (Vec<Cell>, Vec<(i32, i32)>))
    requires
        old(world).wf(),
        forall|i: int| 0 <= i < active@.len() ==> inner(#[trigger] active@[i]),
    ensures
        final(world).wf(),
        forall|x: int, y: int, z: int|
            (#[trigger] final(world).block_at(x, y, z), final(world).level_at(x, y, z)) == (match flows_into(*old(world), active@, x, y, z) {
                Some(l) => (flooded(l), l),
                None => (old(world).block_at(x, y, z), old(world).level_at(x, y, z)),
            }),
        r.0@ == all_neighbours(changed_cells(*old(world), flow_updates(*old(world), active@))),
        r.1@ == all_stale(changed_cells(*old(world), flow_updates(*old(world), active@))),
        forall|i: int| 0 <= i < r.0@.len() ==> inner(#[trigger] r.0@[i]),
{
    let ghost w0 = *world;
    let updates = water_updates(world, &active);
    let changed = apply_water(world, &updates);
    proof {
        lemma_changed_in_world(w0, updates@);
        assert forall|i: int| 0 <= i < changed@.len() implies inner(#[trigger] changed@[i]) by {
            assert(changed@[i] == changed_cells(w0, updates@)[i]);
        }
        assert forall|x: int, y: int, z: int|
            (#[trigger] world.block_at(x, y, z), world.level_at(x, y, z)) == (match flows_into(w0, active@, x, y, z) {
                Some(l) => (flooded(l), l),
                None => (w0.block_at(x, y, z), w0.level_at(x, y, z)),
            }) by {
            lemma_flow_simultaneous(w0, active@, x, y, z);
        }
    }
    let next = neighbours_of(&changed);
    let dirty = stale_of(&changed);
    proof {
        lemma_neighbours_inner(changed@);
    }
    (next, dirty)
}

/// The neighbours of cells in the world are themselves well inside `i32`.
proof fn lemma_neighbours_inner(cells: Seq<Cell>)
    requires
        forall|i: int| 0 <= i < cells.len() ==> {
            let c = #[trigger] cells[i];
            in_world(c.0 as int, c.1 as int, c.2 as int)
        },
    ensures
        forall|i: int| 0 <= i < all_neighbours(cells).len() ==> inner(#[trigger] all_neighbours(cells)[i]),
    decreases cells.len(),
{
    if cells.len() > 0 {
        let rest = cells.drop_last();
        assert forall|i: int| 0 <= i < rest.len() implies {
            let c = #[trigger] rest[i];
            in_world(c.0 as int, c.1 as int, c.2 as int)
        } by {
            assert(rest[i] == cells[i]);
        }
        lemma_neighbours_inner(rest);
        let c = cells.last();
        assert(in_world(c.0 as int, c.1 as int, c.2 as int));
        let a = all_neighbours(rest);
        assert forall|i: int| 0 <= i < all_neighbours(cells).len() implies inner(#[trigger] all_neighbours(cells)[i]) by {
            if i < a.len() {
                assert(all_neighbours(cells)[i] == a[i]);
            } else {
                assert(all_neighbours(cells)[i] == neighbours(c)[i - a.len()]);
            }
        }
    }
}

} // verus!
