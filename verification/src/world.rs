//! The voxel world: a flat 3D grid of blocks, with a water level per cell.
//!
//! The whole map is one contiguous array, indexed `x + z * WORLD_X + y *
//! WORLD_X * WORLD_Z`. Contracts speak of it through [`World::block_at`] and
//! [`World::level_at`], which read every coordinate outside the grid as empty.

use vstd::prelude::*;
use crate::block::Block;
use crate::save::{push_run, rle_expand, runs_bytes, runs_of, save_header, lemma_rle_append, lemma_rle_pair, pair_bytes, run_length};

verus! {

/// Width/depth of a mesh chunk in blocks.
pub const CHUNK_SIZE: i32 = 16;

/// World size in blocks.
pub const WORLD_X: i32 = 768;
pub const WORLD_Z: i32 = 768;
/// Vertical extent.
pub const WORLD_Y: i32 = 128;

/// Number of cells in the grid, `WORLD_X * WORLD_Y * WORLD_Z`.
pub const WORLD_CELLS: usize = 75497472;

/// Sea level in blocks.
pub const SEA_LEVEL: i32 = 24;

/// How far in from the world edge the player is walled off.
pub const PLAY_MARGIN: i32 = 32;

/// Water level of a full "source" block. Flowing water decreases one step per
/// block away from a source; 0 means no water.
pub const WATER_SOURCE: u8 = 5;

/// Ground level of the [`MapKind::Flat`] map, above `SEA_LEVEL` so the plain is
/// dry land.
pub const FLAT_LEVEL: i32 = SEA_LEVEL + 8;

/// The block at height `y` of a plain whose top course is at `level`: grass
/// on top, three courses of dirt, stone below.
pub open spec fn flat_block(level: int, y: int) -> Block {
    if y == level {
        Block::Grass
    } else if y >= level - 3 {
        Block::Dirt
    } else {
        Block::Stone
    }
}

/// The terrain block at height `y` of a meadow column whose surface is at
/// `h`: sand on a surface at or just above the sea, grass above that, three
/// courses of dirt under it, stone below.
pub open spec fn meadow_block(h: int, y: int) -> Block {
    if y == h {
        if h <= SEA_LEVEL + 1 { Block::Sand } else { Block::Grass }
    } else if y >= h - 3 {
        Block::Dirt
    } else {
        Block::Stone
    }
}

/// The surface height of the meadow column `(x, z)` given a height field
/// laid out row by row (`x + z * WORLD_X`), clamped into the world.
pub open spec fn meadow_height(heights: Seq<i32>, x: int, z: int) -> int {
    let h = heights[x + z * WORLD_X] as int;
    if h < 1 {
        1
    } else if h > WORLD_Y - 1 {
        WORLD_Y - 1
    } else {
        h
    }
}

/// Whether the meadow over `heights` grows a tree on the column `(a, c)`: a
/// roll of two in a hundred on each column whose grass stands clear of the
/// beach.
pub open spec fn meadow_tree(heights: Seq<i32>, seed: u32, a: int, c: int) -> bool {
    &&& 0 <= a < WORLD_X
    &&& 0 <= c < WORLD_Z
    &&& meadow_height(heights, a, c) > SEA_LEVEL + 1
    &&& spec_pseudo_random(a as i32, c as i32, seed) < 200
}

/// Whether the crown of a tree growing on the column `(tx, tz)` takes in the
/// cell `(a, b, c)`.
pub open spec fn meadow_leaf(heights: Seq<i32>, seed: u32, tx: int, tz: int, a: int, b: int, c: int) -> bool {
    meadow_tree(heights, seed, tx, tz) && World::in_crown(tx, meadow_height(heights, tx, tz) + 1, tz, a, b, c)
}

/// What the trees on the columns before `(x, z)` (row by row, each row from
/// the west) put at `(a, b, c)`: wood in a trunk, leaves where a crown
/// reaches, air elsewhere.
pub open spec fn meadow_canopy_upto(heights: Seq<i32>, seed: u32, x: int, z: int, a: int, b: int, c: int) -> Block {
    if (c < z || (c == z && a < x)) && meadow_tree(heights, seed, a, c) && World::in_trunk(
        a,
        meadow_height(heights, a, c) + 1,
        c,
        a,
        b,
        c,
    ) {
        Block::Wood
    } else if exists|tx: int, tz: int| (tz < z || (tz == z && tx < x)) && #[trigger] meadow_leaf(heights, seed, tx, tz, a, b, c) {
        Block::Leaves
    } else {
        Block::Air
    }
}

/// What all the meadow's trees put at `(a, b, c)`: wood in a trunk, leaves
/// where any crown reaches, air elsewhere.
pub open spec fn meadow_canopy(heights: Seq<i32>, seed: u32, a: int, b: int, c: int) -> Block {
    meadow_canopy_upto(heights, seed, 0, WORLD_Z as int, a, b, c)
}

/// The plant the two rolls of the column `(x, z)` choose: three in a hundred
/// columns get a flower (red or yellow, evenly), a further quarter a tuft of
/// grass, the rest nothing.
pub open spec fn plant_roll(x: int, z: int, seed: u32) -> Option<Block> {
    let r = spec_pseudo_random(x as i32, z as i32, seed.wrapping_add(101));
    if r < 300 {
        Some(
            if spec_pseudo_random(x as i32, z as i32, seed.wrapping_add(202)) < 5000 {
                Block::RedFlower
            } else {
                Block::YellowFlower
            },
        )
    } else if r < 2800 {
        Some(Block::TallGrass)
    } else {
        None
    }
}

/// The plant the meadow grows just above the surface of the column `(a, c)`,
/// if any: only on grass clear of the beach, under open sky (no trunk or
/// leaves anywhere above it) and below the world's ceiling, as its rolls
/// choose.
pub open spec fn meadow_plant(heights: Seq<i32>, seed: u32, a: int, c: int) -> Option<Block> {
    let h = meadow_height(heights, a, c);
    if 0 <= a < WORLD_X && 0 <= c < WORLD_Z && SEA_LEVEL + 1 < h < WORLD_Y - 1 && forall|b: int|
        h < b < WORLD_Y ==> #[trigger] meadow_canopy(heights, seed, a, b, c) is Air {
        plant_roll(a, c, seed)
    } else {
        None
    }
}

/// The block the meadow over `heights` holds at the in-grid cell `(a, b,
/// c)`: its column's ground up to the surface, water from there up to sea
/// level, the column's plant just above the surface, and the trees' wood and
/// leaves, or air, everywhere else.
pub open spec fn meadow_cell(heights: Seq<i32>, seed: u32, a: int, b: int, c: int) -> Block {
    let h = meadow_height(heights, a, c);
    if b <= h {
        meadow_block(h, b)
    } else if b <= SEA_LEVEL {
        Block::Water
    } else if b == h + 1 && meadow_plant(heights, seed, a, c) is Some {
        meadow_plant(heights, seed, a, c)->0
    } else {
        meadow_canopy(heights, seed, a, b, c)
    }
}

/// Number of columns in the map, `WORLD_X * WORLD_Z`.
pub const WORLD_COLUMNS: usize = 589824;

/// Which map to generate. Each is a whole landscape recipe.
#[derive(Clone, Copy, PartialEq, Eq, Debug, Structural)]
pub enum MapKind {
    /// Rolling hills, lakes, oaks and wildflowers.
    Meadow,
    /// The Joseon map: the palace on a level plain.
    Joseon,
    /// A bare level plain with nothing generated on it at all.
    Flat,
}

impl MapKind {
    /// The name shown for the map in the menu.
    pub fn label(self) -> (r: &'static str)
        ensures
            self is Meadow ==> r@ == "초원"@,
            self is Joseon ==> r@ == "조선"@,
            self is Flat ==> r@ == "빈 터"@,
    {
        match self {
            MapKind::Meadow => "초원",
            MapKind::Joseon => "조선",
            MapKind::Flat => "빈 터",
        }
    }
}

/// Whether a coordinate lies inside the grid.
pub open spec fn in_world(x: int, y: int, z: int) -> bool {
    0 <= x < WORLD_X && 0 <= y < WORLD_Y && 0 <= z < WORLD_Z
}

/// Position of an in-grid coordinate in the backing arrays.
pub open spec fn cell_index(x: int, y: int, z: int) -> int {
    x + z * WORLD_X + y * (WORLD_X * WORLD_Z)
}

/// The water level a freshly placed block carries: a full source for water,
/// nothing for anything else.
pub open spec fn placed_level(b: Block) -> u8 {
    if b is Water { WATER_SOURCE } else { 0 }
}

/// In-grid coordinates land inside the arrays, and distinct coordinates land on
/// distinct cells.
pub proof fn lemma_cell_index(x: int, y: int, z: int, a: int, b: int, c: int)
    requires
        in_world(x, y, z),
        in_world(a, b, c),
    ensures
        0 <= cell_index(x, y, z) < WORLD_CELLS,
        cell_index(x, y, z) == cell_index(a, b, c) ==> x == a && y == b && z == c,
{
    assert(0 <= cell_index(x, y, z) < WORLD_CELLS) by (nonlinear_arith)
        requires
            0 <= x < 768,
            0 <= y < 128,
            0 <= z < 768,
            cell_index(x, y, z) == x + z * 768 + y * (768 * 768),
    ;
    if cell_index(x, y, z) == cell_index(a, b, c) {
        assert(x == a && y == b && z == c) by (nonlinear_arith)
            requires
                0 <= x < 768,
                0 <= y < 128,
                0 <= z < 768,
                0 <= a < 768,
                0 <= b < 128,
                0 <= c < 768,
                x + z * 768 + y * (768 * 768) == a + c * 768 + b * (768 * 768),
        ;
    }
}

/// The cheap deterministic hash that scatters trees and plants without an
/// RNG, as a roll in ten-thousandths: each coordinate is multiplied by its own
/// large odd constant and the result avalanched, so the axes decorrelate.
pub open spec fn spec_pseudo_random(x: i32, z: i32, seed: u32) -> u32 {
    let h0 = (x as u32).wrapping_mul(374761393u32) ^ (z as u32).wrapping_mul(668265263u32)
        ^ seed.wrapping_mul(2654435761u32);
    let h1 = (h0 ^ (h0 >> 13u32)).wrapping_mul(1274126177u32);
    let h2 = h1 ^ (h1 >> 16u32);
    h2 % 10000
}

/// Cheap deterministic hash of a column and a seed, as a roll in
/// ten-thousandths: `pseudo_random(..) < 200` is a two per cent chance.
pub fn pseudo_random(x: i32, z: i32, seed: u32) -> (r: u32)
    ensures
        r == spec_pseudo_random(x, z, seed),
        r < 10000,
{
    let mut h: u32 = (x as u32).wrapping_mul(374761393) ^ (z as u32).wrapping_mul(668265263)
        ^ seed.wrapping_mul(2654435761);
    h = (h ^ (h >> 13)).wrapping_mul(1274126177);
    h = h ^ (h >> 16);
    h % 10000
}

pub struct World {
    blocks: Vec<Block>,
    /// Per-cell water level, parallel to `blocks`. 0 for non-water.
    levels: Vec<u8>,
}

impl World {
    /// The block at a coordinate; everything outside the grid is `Air`.
    pub closed spec fn block_at(&self, x: int, y: int, z: int) -> Block {
        if in_world(x, y, z) {
            self.blocks@[cell_index(x, y, z)]
        } else {
            Block::Air
        }
    }

    /// The water level at a coordinate; 0 outside the grid.
    pub closed spec fn level_at(&self, x: int, y: int, z: int) -> u8 {
        if in_world(x, y, z) {
            self.levels@[cell_index(x, y, z)]
        } else {
            0
        }
    }

    /// The grid has its full size, and a cell holds water exactly when its
    /// water level is nonzero.
    pub closed spec fn wf(&self) -> bool {
        &&& self.blocks@.len() == WORLD_CELLS
        &&& self.levels@.len() == WORLD_CELLS
        &&& forall|i: int|
            0 <= i < WORLD_CELLS ==> (#[trigger] self.levels@[i] != 0) == (self.blocks@[i] is Water)
    }

    /// Outside the grid there is nothing; inside, a well-formed world holds
    /// water exactly where the level is nonzero.
    pub proof fn lemma_cell(&self, x: int, y: int, z: int)
        ensures
            !in_world(x, y, z) ==> self.block_at(x, y, z) == Block::Air && self.level_at(x, y, z)
                == 0,
            self.wf() ==> ((self.level_at(x, y, z) != 0) == (self.block_at(x, y, z) is Water)),
    {
        if in_world(x, y, z) {
            lemma_cell_index(x, y, z, x, y, z);
        }
    }

    /// `after` is `before` with the cell at `(x, y, z)` replaced by `block` and
    /// `level` when that cell is inside the grid, and `before` unchanged when it
    /// is not.
    pub open spec fn replaced(
        before: World,
        after: World,
        x: int,
        y: int,
        z: int,
        block: Block,
        level: u8,
    ) -> bool {
        &&& forall|a: int, b: int, c: int|
            !(a == x && b == y && c == z) ==> #[trigger] after.block_at(a, b, c)
                == before.block_at(a, b, c) && after.level_at(a, b, c) == before.level_at(a, b, c)
        &&& in_world(x, y, z) ==> after.block_at(x, y, z) == block && after.level_at(x, y, z)
            == level
        &&& !in_world(x, y, z) ==> after.block_at(x, y, z) == Block::Air && after.level_at(x, y, z)
            == 0
    }

    /// A read gives back what a write wrote: after `set` writes `block` at a
    /// cell of the grid, `get` there reads `block` and `water_level` reads a
    /// source's level for water and 0 for anything else; every other cell
    /// reads as before.
    pub proof fn lemma_read_back(before: World, after: World, x: int, y: int, z: int, block: Block, a: int, b: int, c: int)
        requires
            World::replaced(before, after, x, y, z, block, placed_level(block)),
            in_world(x, y, z),
        ensures
            after.block_at(x, y, z) == block,
            after.level_at(x, y, z) == (if block is Water { WATER_SOURCE } else { 0 }),
            !(a == x && b == y && c == z) ==> after.block_at(a, b, c) == before.block_at(a, b, c)
                && after.level_at(a, b, c) == before.level_at(a, b, c),
    {
    }

    /// Every cell of `a` and `b` holds the same block and water level.
    pub open spec fn same(a: World, b: World) -> bool {
        forall|x: int, y: int, z: int|
            #[trigger] b.block_at(x, y, z) == a.block_at(x, y, z) && b.level_at(x, y, z)
                == a.level_at(x, y, z)
    }

    /// An empty world of the standard dimensions: air everywhere, no water.
    pub fn empty() -> (w: World)
        ensures
            w.wf(),
            w.levels_placed(),
            forall|x: int, y: int, z: int|
                #[trigger] w.block_at(x, y, z) == Block::Air && w.level_at(x, y, z) == 0,
    {
        let blocks: Vec<Block> = vec![Block::Air; WORLD_CELLS];
        let levels: Vec<u8> = vec![0u8; WORLD_CELLS];
        let w = World { blocks, levels };
        assert forall|x: int, y: int, z: int|
            #[trigger] w.block_at(x, y, z) == Block::Air && w.level_at(x, y, z) == 0 by {
            w.lemma_cell(x, y, z);
            if in_world(x, y, z) {
                lemma_cell_index(x, y, z, x, y, z);
                let i = cell_index(x, y, z);
                assert(cloned(Block::Air, w.blocks@[i]));
                assert(cloned(0u8, w.levels@[i]));
            }
        }
        assert forall|x: int, y: int, z: int| #[trigger] w.level_at(x, y, z) == placed_level(w.block_at(x, y, z)) by {
            assert(w.block_at(x, y, z) == Block::Air && w.level_at(x, y, z) == 0);
        }
        w
    }

    /// Where a coordinate lives in the backing arrays, if it is in the grid.
    fn index(x: i32, y: i32, z: i32) -> (r: Option<usize>)
        ensures
            in_world(x as int, y as int, z as int) ==> (r matches Some(i) && i as int == cell_index(
                x as int,
                y as int,
                z as int,
            ) && i < WORLD_CELLS),
            !in_world(x as int, y as int, z as int) ==> r is None,
    {
        if x < 0 || y < 0 || z < 0 || x >= WORLD_X || y >= WORLD_Y || z >= WORLD_Z {
            return None;
        }
        proof {
            lemma_cell_index(x as int, y as int, z as int, x as int, y as int, z as int);
        }
        Some((x + z * WORLD_X + y * WORLD_X * WORLD_Z) as usize)
    }

    /// Read a block. Anything outside the world reads as `Air`.
    pub fn get(&self, x: i32, y: i32, z: i32) -> (b: Block)
        requires
            self.wf(),
        ensures
            b == self.block_at(x as int, y as int, z as int),
    {
        match Self::index(x, y, z) {
            Some(i) => self.blocks[i],
            None => Block::Air,
        }
    }

    /// Water level at a cell (0 outside the world and for non-water).
    pub fn water_level(&self, x: i32, y: i32, z: i32) -> (l: u8)
        requires
            self.wf(),
        ensures
            l == self.level_at(x as int, y as int, z as int),
            (l != 0) == (self.block_at(x as int, y as int, z as int) is Water),
    {
        proof {
            self.lemma_cell(x as int, y as int, z as int);
        }
        match Self::index(x, y, z) {
            Some(i) => self.levels[i],
            None => 0,
        }
    }

    /// Write a block. Out-of-bounds writes are ignored. Returns whether the
    /// world actually changed. Placing water makes a full source block; any
    /// other block clears the cell's water level.
    pub fn set(&mut self, x: i32, y: i32, z: i32, block: Block) -> (changed: bool)
        requires
            old(self).wf(),
        ensures
            final(self).wf(),
            World::replaced(
                *old(self),
                *final(self),
                x as int,
                y as int,
                z as int,
                block,
                placed_level(block),
            ),
            changed == (in_world(x as int, y as int, z as int) && (old(self).block_at(
                x as int,
                y as int,
                z as int,
            ) != block || old(self).level_at(x as int, y as int, z as int) != placed_level(
                block,
            ))),
    {
        match Self::index(x, y, z) {
            Some(i) => {
                let new_level = if block == Block::Water {
                    WATER_SOURCE
                } else {
                    0
                };
                let changed = self.blocks[i] != block || self.levels[i] != new_level;
                self.blocks.set(i, block);
                self.levels.set(i, new_level);
                proof {
                    self.lemma_write(old(self), x as int, y as int, z as int, block, new_level);
                }
                changed
            },
            None => false,
        }
    }

    /// Set a cell's water level directly (used by the flow simulation). Only
    /// affects water, air and plant cells; solids are left alone. `level == 0`
    /// clears the water back to air, and water washing over a plant destroys
    /// it. Returns whether the world changed.
    pub fn set_water_level(&mut self, x: i32, y: i32, z: i32, level: u8) -> (changed: bool)
        requires
            old(self).wf(),
        ensures
            final(self).wf(),
            ({
                let b = old(self).block_at(x as int, y as int, z as int);
                let new_block = if level > 0 { Block::Water } else { Block::Air };
                if in_world(x as int, y as int, z as int) && (b is Water || b is Air || b.is_plant()) {
                    &&& World::replaced(*old(self), *final(self), x as int, y as int, z as int, new_block, level)
                    &&& changed == (old(self).level_at(x as int, y as int, z as int) != level || b != new_block)
                } else {
                    &&& World::same(*old(self), *final(self))
                    &&& !changed
                }
            }),
    {
        match Self::index(x, y, z) {
            Some(i) => {
                let b = self.blocks[i];
                if b != Block::Water && b != Block::Air && !b.is_plant() {
                    return false;
                }
                let new_block = if level > 0 {
                    Block::Water
                } else {
                    Block::Air
                };
                let changed = self.levels[i] != level || self.blocks[i] != new_block;
                self.levels.set(i, level);
                self.blocks.set(i, new_block);
                proof {
                    self.lemma_write(old(self), x as int, y as int, z as int, new_block, level);
                }
                changed
            },
            None => false,
        }
    }

    /// Highest movement-blocking block in a column (its Y), or -1 if none.
    pub fn surface_y(&self, x: i32, z: i32) -> (sy: i32)
        requires
            self.wf(),
        ensures
            sy == self.surface(x as int, z as int),
            -1 <= sy < WORLD_Y,
    {
        let mut y: i32 = WORLD_Y;
        while y > 0
            invariant
                0 <= y <= WORLD_Y,
                self.wf(),
                self.surface(x as int, z as int) == self.surface_below(x as int, z as int, y as int),
            decreases y,
        {
            y = y - 1;
            if self.get(x, y, z).blocks_movement() {
                return y;
            }
        }
        -1
    }

    /// Highest movement-blocking block of the column strictly below `top`, or
    /// -1 if there is none.
    pub open spec fn surface_below(&self, x: int, z: int, top: int) -> int
        decreases top,
    {
        if top <= 0 {
            -1
        } else if self.block_at(x, top - 1, z).blocks_movement() {
            top - 1
        } else {
            self.surface_below(x, z, top - 1)
        }
    }

    /// Highest movement-blocking block in the column `(x, z)`, or -1.
    pub open spec fn surface(&self, x: int, z: int) -> int {
        self.surface_below(x, z, WORLD_Y as int)
    }

    /// Does the world contain any plants at all?
    pub fn has_plants(&self) -> (r: bool)
        requires
            self.wf(),
        ensures
            r == exists|x: int, y: int, z: int| #[trigger] self.block_at(x, y, z).is_plant(),
    {
        let mut y: i32 = 0;
        while y < WORLD_Y
            invariant
                0 <= y <= WORLD_Y,
                self.wf(),
                forall|a: int, b: int, c: int|
                    0 <= b < y ==> !#[trigger] self.block_at(a, b, c).is_plant(),
            decreases WORLD_Y - y,
        {
            let mut z: i32 = 0;
            while z < WORLD_Z
                invariant
                    0 <= y < WORLD_Y,
                    0 <= z <= WORLD_Z,
                    self.wf(),
                    forall|a: int, b: int, c: int|
                        (0 <= b < y || (b == y && c < z)) ==> !#[trigger] self.block_at(a, b, c).is_plant(),
                decreases WORLD_Z - z,
            {
                let mut x: i32 = 0;
                while x < WORLD_X
                    invariant
                        0 <= y < WORLD_Y,
                        0 <= z < WORLD_Z,
                        0 <= x <= WORLD_X,
                        self.wf(),
                        forall|a: int, b: int, c: int|
                            (0 <= b < y || (b == y && c < z) || (b == y && c == z && a < x))
                                ==> !#[trigger] self.block_at(a, b, c).is_plant(),
                    decreases WORLD_X - x,
                {
                    if self.get(x, y, z).is_plant() {
                        return true;
                    }
                    x = x + 1;
                }
                z = z + 1;
            }
            y = y + 1;
        }
        assert forall|a: int, b: int, c: int| !#[trigger] self.block_at(a, b, c).is_plant() by {
            self.lemma_cell(a, b, c);
        }
        false
    }

    /// `after` is `before` with every in-grid cell of the columns `(x, z)`
    /// chosen by `col`, at heights up to `level`, laid as the plain: grass on
    /// top, three courses of dirt, stone below. Everything else is untouched.
    pub open spec fn plain_laid(before: World, after: World, level: int, done: spec_fn(int, int, int) -> bool) -> bool {
        forall|x: int, y: int, z: int|
            #[trigger] after.block_at(x, y, z) == (if in_world(x, y, z) && y <= level && done(x, y, z) {
                flat_block(level, y)
            } else {
                before.block_at(x, y, z)
            }) && after.level_at(x, y, z) == (if in_world(x, y, z) && y <= level && done(x, y, z) {
                0
            } else {
                before.level_at(x, y, z)
            })
    }

    /// `after` is `before` with each in-grid cell for which `plan` names a
    /// block holding that block (with the water level placing it gives), and
    /// every other cell untouched.
    #[verifier::opaque]
    pub open spec fn lays(before: World, after: World, plan: spec_fn(int, int, int) -> Option<Block>) -> bool {
        forall|x: int, y: int, z: int|
            #[trigger] after.block_at(x, y, z) == (if in_world(x, y, z) && plan(x, y, z) is Some {
                plan(x, y, z)->0
            } else {
                before.block_at(x, y, z)
            }) && after.level_at(x, y, z) == (if in_world(x, y, z) && plan(x, y, z) is Some {
                placed_level(plan(x, y, z)->0)
            } else {
                before.level_at(x, y, z)
            })
    }

    /// The plan that lays `p` and then lays `q` over it.
    pub open spec fn overlay(
        p: spec_fn(int, int, int) -> Option<Block>,
        q: spec_fn(int, int, int) -> Option<Block>,
    ) -> spec_fn(int, int, int) -> Option<Block> {
        |x: int, y: int, z: int| if q(x, y, z) is Some { q(x, y, z) } else { p(x, y, z) }
    }

    /// The plan that lays a single block at one cell.
    pub open spec fn single(x: int, y: int, z: int, b: Block) -> spec_fn(int, int, int) -> Option<Block> {
        |a: int, c: int, e: int| if a == x && c == y && e == z { Some(b) } else { None }
    }

    /// The plan that lays nothing.
    pub open spec fn nothing() -> spec_fn(int, int, int) -> Option<Block> {
        |a: int, c: int, e: int| None
    }

    /// Every cell's water level is the one placing its block gives: a full
    /// source on water, nothing anywhere else.
    pub open spec fn levels_placed(&self) -> bool {
        forall|x: int, y: int, z: int| #[trigger] self.level_at(x, y, z) == placed_level(self.block_at(x, y, z))
    }

    /// Laying a plan keeps every level the one placing its block gives.
    pub proof fn lemma_lays_levels(before: World, after: World, plan: spec_fn(int, int, int) -> Option<Block>)
        requires
            before.levels_placed(),
            World::lays(before, after, plan),
        ensures
            after.levels_placed(),
    {
        reveal(World::lays);
        assert forall|x: int, y: int, z: int| #[trigger] after.level_at(x, y, z) == placed_level(after.block_at(x, y, z)) by {
            assert(before.level_at(x, y, z) == placed_level(before.block_at(x, y, z)));
        }
    }

    /// Laying the plain keeps every level the one placing its block gives.
    pub proof fn lemma_plain_levels(before: World, after: World, level: int, done: spec_fn(int, int, int) -> bool)
        requires
            before.levels_placed(),
            World::plain_laid(before, after, level, done),
        ensures
            after.levels_placed(),
    {
        assert forall|x: int, y: int, z: int| #[trigger] after.level_at(x, y, z) == placed_level(after.block_at(x, y, z)) by {
            assert(before.level_at(x, y, z) == placed_level(before.block_at(x, y, z)));
            assert(after.block_at(x, y, z) == (if in_world(x, y, z) && y <= level && done(x, y, z) {
                flat_block(level, y)
            } else {
                before.block_at(x, y, z)
            }));
        }
    }

    /// Laying nothing leaves a world as it is.
    pub proof fn lemma_lays_nothing(a: World)
        ensures
            World::lays(a, a, World::nothing()),
    {
        reveal(World::lays);
    }

    /// Laying one plan and then another lays the second over the first.
    pub proof fn lemma_lays_compose(
        a: World,
        b: World,
        c: World,
        p: spec_fn(int, int, int) -> Option<Block>,
        q: spec_fn(int, int, int) -> Option<Block>,
    )
        requires
            World::lays(a, b, p),
            World::lays(b, c, q),
        ensures
            World::lays(a, c, World::overlay(p, q)),
    {
        reveal(World::lays);
        assert forall|x: int, y: int, z: int|
            #[trigger] c.block_at(x, y, z) == (if in_world(x, y, z) && World::overlay(p, q)(x, y, z) is Some {
                World::overlay(p, q)(x, y, z)->0
            } else {
                a.block_at(x, y, z)
            }) && c.level_at(x, y, z) == (if in_world(x, y, z) && World::overlay(p, q)(x, y, z) is Some {
                placed_level(World::overlay(p, q)(x, y, z)->0)
            } else {
                a.level_at(x, y, z)
            }) by {
            assert(b.block_at(x, y, z) == b.block_at(x, y, z));
        }
    }

    /// Two plans that agree on every cell lay the same thing.
    pub proof fn lemma_lays_congr(
        a: World,
        b: World,
        p: spec_fn(int, int, int) -> Option<Block>,
        q: spec_fn(int, int, int) -> Option<Block>,
    )
        requires
            World::lays(a, b, p),
            forall|x: int, y: int, z: int| in_world(x, y, z) ==> #[trigger] p(x, y, z) == q(x, y, z),
        ensures
            World::lays(a, b, q),
    {
        reveal(World::lays);
        assert forall|x: int, y: int, z: int|
            #[trigger] b.block_at(x, y, z) == (if in_world(x, y, z) && q(x, y, z) is Some {
                q(x, y, z)->0
            } else {
                a.block_at(x, y, z)
            }) && b.level_at(x, y, z) == (if in_world(x, y, z) && q(x, y, z) is Some {
                placed_level(q(x, y, z)->0)
            } else {
                a.level_at(x, y, z)
            }) by {
            if in_world(x, y, z) {
                assert(p(x, y, z) == q(x, y, z));
            }
        }
    }

    /// A single `set` lays a single block.
    pub proof fn lemma_lays_single(a: World, b: World, x: int, y: int, z: int, blk: Block)
        requires
            World::replaced(a, b, x, y, z, blk, placed_level(blk)),
        ensures
            World::lays(a, b, World::single(x, y, z, blk)),
    {
        reveal(World::lays);
        assert forall|p: int, q: int, r: int|
            #[trigger] b.block_at(p, q, r) == (if in_world(p, q, r) && World::single(x, y, z, blk)(p, q, r) is Some {
                World::single(x, y, z, blk)(p, q, r)->0
            } else {
                a.block_at(p, q, r)
            }) && b.level_at(p, q, r) == (if in_world(p, q, r) && World::single(x, y, z, blk)(p, q, r) is Some {
                placed_level(World::single(x, y, z, blk)(p, q, r)->0)
            } else {
                a.level_at(p, q, r)
            }) by {
            if !(p == x && q == y && r == z) {
            } else if !in_world(p, q, r) {
                a.lemma_cell(p, q, r);
            }
        }
    }

    /// The part of `plan` in the layers `lo <= y < hi`.
    pub open spec fn layers(plan: spec_fn(int, int, int) -> Option<Block>, lo: int, hi: int) -> spec_fn(int, int, int) -> Option<Block> {
        |x: int, y: int, z: int| if lo <= y < hi { plan(x, y, z) } else { None }
    }

    /// The part of layer `y` of `plan` before the cursor `(dx, dz)`, scanning
    /// rows of increasing `z - cz`, each by increasing `x - cx`.
    pub open spec fn rows(
        plan: spec_fn(int, int, int) -> Option<Block>,
        y: int,
        cx: int,
        cz: int,
        dz: int,
        dx: int,
    ) -> spec_fn(int, int, int) -> Option<Block> {
        |x: int, yy: int, z: int|
            if yy == y && (z - cz < dz || (z - cz == dz && x - cx < dx)) {
                plan(x, yy, z)
            } else {
                None
            }
    }

    /// Writing the cursor cell of a row scan with what the plan names there
    /// advances the scan by one cell.
    pub proof fn lemma_row_set(
        base: World,
        prev: World,
        cur: World,
        plan: spec_fn(int, int, int) -> Option<Block>,
        y: int,
        cx: int,
        cz: int,
        dz: int,
        dx: int,
        b: Block,
    )
        requires
            World::lays(base, prev, World::rows(plan, y, cx, cz, dz, dx)),
            World::replaced(prev, cur, cx + dx, y, cz + dz, b, placed_level(b)),
            plan(cx + dx, y, cz + dz) == Some(b),
        ensures
            World::lays(base, cur, World::rows(plan, y, cx, cz, dz, dx + 1)),
    {
        let cell = World::single(cx + dx, y, cz + dz, b);
        World::lemma_lays_single(prev, cur, cx + dx, y, cz + dz, b);
        World::lemma_lays_compose(base, prev, cur, World::rows(plan, y, cx, cz, dz, dx), cell);
        assert forall|a: int, c: int, e: int|
            #[trigger] World::overlay(World::rows(plan, y, cx, cz, dz, dx), cell)(a, c, e)
                == World::rows(plan, y, cx, cz, dz, dx + 1)(a, c, e) by {
        }
        World::lemma_lays_congr(base, cur, World::overlay(World::rows(plan, y, cx, cz, dz, dx), cell), World::rows(plan, y, cx, cz, dz, dx + 1));
    }

    /// Passing over a cell the plan leaves alone advances the scan.
    pub proof fn lemma_row_skip(
        base: World,
        cur: World,
        plan: spec_fn(int, int, int) -> Option<Block>,
        y: int,
        cx: int,
        cz: int,
        dz: int,
        dx: int,
    )
        requires
            World::lays(base, cur, World::rows(plan, y, cx, cz, dz, dx)),
            plan(cx + dx, y, cz + dz) is None,
        ensures
            World::lays(base, cur, World::rows(plan, y, cx, cz, dz, dx + 1)),
    {
        assert forall|a: int, c: int, e: int|
            #[trigger] World::rows(plan, y, cx, cz, dz, dx)(a, c, e)
                == World::rows(plan, y, cx, cz, dz, dx + 1)(a, c, e) by {
        }
        World::lemma_lays_congr(base, cur, World::rows(plan, y, cx, cz, dz, dx), World::rows(plan, y, cx, cz, dz, dx + 1));
    }

    /// Moving the cursor over cells the plan leaves alone, within or between
    /// rows, changes nothing laid.
    pub proof fn lemma_row_move(
        base: World,
        cur: World,
        plan: spec_fn(int, int, int) -> Option<Block>,
        y: int,
        cx: int,
        cz: int,
        dz: int,
        dx: int,
        dz2: int,
        dx2: int,
    )
        requires
            World::lays(base, cur, World::rows(plan, y, cx, cz, dz, dx)),
            forall|x: int, z: int|
                #![trigger plan(x, y, z)]
                (World::rows(plan, y, cx, cz, dz, dx)(x, y, z) is None) != (World::rows(plan, y, cx, cz, dz2, dx2)(x, y, z) is None)
                    ==> plan(x, y, z) is None,
        ensures
            World::lays(base, cur, World::rows(plan, y, cx, cz, dz2, dx2)),
    {
        assert forall|a: int, c: int, e: int|
            #[trigger] World::rows(plan, y, cx, cz, dz, dx)(a, c, e)
                == World::rows(plan, y, cx, cz, dz2, dx2)(a, c, e) by {
            if c == y {
                assert(plan(a, y, e) == plan(a, y, e));
            }
        }
        World::lemma_lays_congr(base, cur, World::rows(plan, y, cx, cz, dz, dx), World::rows(plan, y, cx, cz, dz2, dx2));
    }

    /// The part of `plan` in the columns before the cursor `(dx, dz)`,
    /// scanning rows of increasing `z - cz`, each by increasing `x - cx`;
    /// every height of a column is taken with it.
    pub open spec fn columns(
        plan: spec_fn(int, int, int) -> Option<Block>,
        cx: int,
        cz: int,
        dz: int,
        dx: int,
    ) -> spec_fn(int, int, int) -> Option<Block> {
        |x: int, y: int, z: int|
            if z - cz < dz || (z - cz == dz && x - cx < dx) {
                plan(x, y, z)
            } else {
                None
            }
    }

    /// The column of `plan` through `(x, z)`.
    pub open spec fn column_of(plan: spec_fn(int, int, int) -> Option<Block>, x: int, z: int) -> spec_fn(int, int, int) -> Option<Block> {
        |a: int, b: int, c: int| if a == x && c == z { plan(a, b, c) } else { None }
    }

    /// Laying what the plan names in the cursor's column advances a column
    /// scan by one column.
    pub proof fn lemma_column_step(
        base: World,
        prev: World,
        cur: World,
        plan: spec_fn(int, int, int) -> Option<Block>,
        col: spec_fn(int, int, int) -> Option<Block>,
        cx: int,
        cz: int,
        dz: int,
        dx: int,
    )
        requires
            World::lays(base, prev, World::columns(plan, cx, cz, dz, dx)),
            World::lays(prev, cur, col),
            forall|a: int, b: int, c: int| #[trigger] col(a, b, c) == World::column_of(plan, cx + dx, cz + dz)(a, b, c),
        ensures
            World::lays(base, cur, World::columns(plan, cx, cz, dz, dx + 1)),
    {
        World::lemma_lays_compose(base, prev, cur, World::columns(plan, cx, cz, dz, dx), col);
        assert forall|a: int, b: int, c: int|
            #[trigger] World::overlay(World::columns(plan, cx, cz, dz, dx), col)(a, b, c)
                == World::columns(plan, cx, cz, dz, dx + 1)(a, b, c) by {
            assert(col(a, b, c) == World::column_of(plan, cx + dx, cz + dz)(a, b, c));
        }
        World::lemma_lays_congr(base, cur, World::overlay(World::columns(plan, cx, cz, dz, dx), col), World::columns(plan, cx, cz, dz, dx + 1));
    }

    /// Moving the cursor of a column scan over columns the plan leaves alone,
    /// within or between rows, changes nothing laid.
    pub proof fn lemma_column_move(
        base: World,
        cur: World,
        plan: spec_fn(int, int, int) -> Option<Block>,
        cx: int,
        cz: int,
        dz: int,
        dx: int,
        dz2: int,
        dx2: int,
    )
        requires
            World::lays(base, cur, World::columns(plan, cx, cz, dz, dx)),
            forall|x: int, y: int, z: int|
                #![trigger plan(x, y, z)]
                (World::columns(plan, cx, cz, dz, dx)(x, y, z) is None) != (World::columns(plan, cx, cz, dz2, dx2)(x, y, z) is None)
                    ==> plan(x, y, z) is None,
        ensures
            World::lays(base, cur, World::columns(plan, cx, cz, dz2, dx2)),
    {
        assert forall|a: int, b: int, c: int|
            #[trigger] World::columns(plan, cx, cz, dz, dx)(a, b, c)
                == World::columns(plan, cx, cz, dz2, dx2)(a, b, c) by {
            assert(plan(a, b, c) == plan(a, b, c));
        }
        World::lemma_lays_congr(base, cur, World::columns(plan, cx, cz, dz, dx), World::columns(plan, cx, cz, dz2, dx2));
    }

    /// The offset of `(x, z)` from `(cx, cz)` along a run lying along X
    /// (`along_x`) or along Z.
    pub open spec fn along(along_x: bool, cx: int, cz: int, x: int, z: int) -> int {
        if along_x { x - cx } else { z - cz }
    }

    /// The offset of `(x, z)` from `(cx, cz)` across such a run.
    pub open spec fn across(along_x: bool, cx: int, cz: int, x: int, z: int) -> int {
        if along_x { z - cz } else { x - cx }
    }

    /// The part of `plan` in the columns before the cursor `(dt, dw)` of a
    /// scan along a run: by increasing offset along it, each across it by
    /// increasing offset.
    pub open spec fn run_scan(
        plan: spec_fn(int, int, int) -> Option<Block>,
        along_x: bool,
        cx: int,
        cz: int,
        dt: int,
        dw: int,
    ) -> spec_fn(int, int, int) -> Option<Block> {
        |x: int, y: int, z: int|
            if World::along(along_x, cx, cz, x, z) < dt || (World::along(along_x, cx, cz, x, z) == dt
                && World::across(along_x, cx, cz, x, z) < dw) {
                plan(x, y, z)
            } else {
                None
            }
    }

    /// Laying what the plan names in the cursor's column advances a run scan
    /// by one column.
    pub proof fn lemma_run_step(
        base: World,
        prev: World,
        cur: World,
        plan: spec_fn(int, int, int) -> Option<Block>,
        col: spec_fn(int, int, int) -> Option<Block>,
        along_x: bool,
        cx: int,
        cz: int,
        dt: int,
        dw: int,
    )
        requires
            World::lays(base, prev, World::run_scan(plan, along_x, cx, cz, dt, dw)),
            World::lays(prev, cur, col),
            forall|a: int, b: int, c: int|
                #[trigger] col(a, b, c) == (if World::along(along_x, cx, cz, a, c) == dt && World::across(along_x, cx, cz, a, c)
                    == dw {
                    plan(a, b, c)
                } else {
                    None
                }),
        ensures
            World::lays(base, cur, World::run_scan(plan, along_x, cx, cz, dt, dw + 1)),
    {
        World::lemma_lays_compose(base, prev, cur, World::run_scan(plan, along_x, cx, cz, dt, dw), col);
        assert forall|a: int, b: int, c: int|
            #[trigger] World::overlay(World::run_scan(plan, along_x, cx, cz, dt, dw), col)(a, b, c)
                == World::run_scan(plan, along_x, cx, cz, dt, dw + 1)(a, b, c) by {
            assert(col(a, b, c) == col(a, b, c));
        }
        World::lemma_lays_congr(base, cur, World::overlay(World::run_scan(plan, along_x, cx, cz, dt, dw), col), World::run_scan(plan, along_x, cx, cz, dt, dw + 1));
    }

    /// Moving the cursor of a run scan over columns the plan leaves alone
    /// changes nothing laid.
    pub proof fn lemma_run_move(
        base: World,
        cur: World,
        plan: spec_fn(int, int, int) -> Option<Block>,
        along_x: bool,
        cx: int,
        cz: int,
        dt: int,
        dw: int,
        dt2: int,
        dw2: int,
    )
        requires
            World::lays(base, cur, World::run_scan(plan, along_x, cx, cz, dt, dw)),
            forall|x: int, y: int, z: int|
                #![trigger plan(x, y, z)]
                (World::run_scan(plan, along_x, cx, cz, dt, dw)(x, y, z) is None) != (World::run_scan(plan, along_x, cx, cz, dt2, dw2)(
                    x,
                    y,
                    z,
                ) is None) ==> plan(x, y, z) is None,
        ensures
            World::lays(base, cur, World::run_scan(plan, along_x, cx, cz, dt2, dw2)),
    {
        assert forall|a: int, b: int, c: int|
            #[trigger] World::run_scan(plan, along_x, cx, cz, dt, dw)(a, b, c)
                == World::run_scan(plan, along_x, cx, cz, dt2, dw2)(a, b, c) by {
            assert(plan(a, b, c) == plan(a, b, c));
        }
        World::lemma_lays_congr(base, cur, World::run_scan(plan, along_x, cx, cz, dt, dw), World::run_scan(plan, along_x, cx, cz, dt2, dw2));
    }

    /// A run scan starts from nothing laid when the plan names nothing in the
    /// columns before its cursor.
    pub proof fn lemma_run_start(w: World, plan: spec_fn(int, int, int) -> Option<Block>, along_x: bool, cx: int, cz: int, dt: int, dw: int)
        requires
            forall|x: int, y: int, z: int|
                #![trigger plan(x, y, z)]
                (World::along(along_x, cx, cz, x, z) < dt || (World::along(along_x, cx, cz, x, z) == dt && World::across(
                    along_x,
                    cx,
                    cz,
                    x,
                    z,
                ) < dw)) ==> plan(x, y, z) is None,
        ensures
            World::lays(w, w, World::run_scan(plan, along_x, cx, cz, dt, dw)),
    {
        World::lemma_lays_nothing(w);
        assert forall|a: int, b: int, c: int|
            #[trigger] World::nothing()(a, b, c) == World::run_scan(plan, along_x, cx, cz, dt, dw)(a, b, c) by {
            assert(plan(a, b, c) == plan(a, b, c));
        }
        World::lemma_lays_congr(w, w, World::nothing(), World::run_scan(plan, along_x, cx, cz, dt, dw));
    }

    /// A run scan has laid the whole plan once the plan names nothing in the
    /// columns from its cursor on.
    pub proof fn lemma_run_finish(
        base: World,
        cur: World,
        plan: spec_fn(int, int, int) -> Option<Block>,
        along_x: bool,
        cx: int,
        cz: int,
        dt: int,
        dw: int,
    )
        requires
            World::lays(base, cur, World::run_scan(plan, along_x, cx, cz, dt, dw)),
            forall|x: int, y: int, z: int|
                #![trigger plan(x, y, z)]
                !(World::along(along_x, cx, cz, x, z) < dt || (World::along(along_x, cx, cz, x, z) == dt && World::across(
                    along_x,
                    cx,
                    cz,
                    x,
                    z,
                ) < dw)) ==> plan(x, y, z) is None,
        ensures
            World::lays(base, cur, plan),
    {
        assert forall|a: int, b: int, c: int| #[trigger] World::run_scan(plan, along_x, cx, cz, dt, dw)(a, b, c) == plan(a, b, c) by {
            assert(plan(a, b, c) == plan(a, b, c));
        }
        World::lemma_lays_congr(base, cur, World::run_scan(plan, along_x, cx, cz, dt, dw), plan);
    }

    /// A column scan starts from nothing laid when the plan names nothing in
    /// the columns before its cursor.
    pub proof fn lemma_columns_start(w: World, plan: spec_fn(int, int, int) -> Option<Block>, cx: int, cz: int, dz: int, dx: int)
        requires
            forall|x: int, y: int, z: int|
                #![trigger plan(x, y, z)]
                (z - cz < dz || (z - cz == dz && x - cx < dx)) ==> plan(x, y, z) is None,
        ensures
            World::lays(w, w, World::columns(plan, cx, cz, dz, dx)),
    {
        World::lemma_lays_nothing(w);
        assert forall|a: int, b: int, c: int| #[trigger] World::nothing()(a, b, c) == World::columns(plan, cx, cz, dz, dx)(a, b, c) by {
            assert(plan(a, b, c) == plan(a, b, c));
        }
        World::lemma_lays_congr(w, w, World::nothing(), World::columns(plan, cx, cz, dz, dx));
    }

    /// A column scan has laid the whole plan once the plan names nothing in
    /// the columns from its cursor on.
    pub proof fn lemma_columns_finish(base: World, cur: World, plan: spec_fn(int, int, int) -> Option<Block>, cx: int, cz: int, dz: int, dx: int)
        requires
            World::lays(base, cur, World::columns(plan, cx, cz, dz, dx)),
            forall|x: int, y: int, z: int|
                #![trigger plan(x, y, z)]
                !(z - cz < dz || (z - cz == dz && x - cx < dx)) ==> plan(x, y, z) is None,
        ensures
            World::lays(base, cur, plan),
    {
        assert forall|a: int, b: int, c: int| #[trigger] World::columns(plan, cx, cz, dz, dx)(a, b, c) == plan(a, b, c) by {
            assert(plan(a, b, c) == plan(a, b, c));
        }
        World::lemma_lays_congr(base, cur, World::columns(plan, cx, cz, dz, dx), plan);
    }

    /// A finished layer scan, laid over the layers below it, extends them by
    /// one layer.
    pub proof fn lemma_layer_done(
        w0: World,
        base: World,
        cur: World,
        plan: spec_fn(int, int, int) -> Option<Block>,
        lo: int,
        y: int,
        cx: int,
        cz: int,
        dz: int,
        dx: int,
    )
        requires
            World::lays(w0, base, World::layers(plan, lo, y)),
            World::lays(base, cur, World::rows(plan, y, cx, cz, dz, dx)),
            lo <= y,
            forall|x: int, z: int|
                #![trigger plan(x, y, z)]
                World::rows(plan, y, cx, cz, dz, dx)(x, y, z) is None ==> plan(x, y, z) is None,
        ensures
            World::lays(w0, cur, World::layers(plan, lo, y + 1)),
    {
        World::lemma_lays_compose(w0, base, cur, World::layers(plan, lo, y), World::rows(plan, y, cx, cz, dz, dx));
        assert forall|a: int, c: int, e: int|
            #[trigger] World::overlay(World::layers(plan, lo, y), World::rows(plan, y, cx, cz, dz, dx))(a, c, e)
                == World::layers(plan, lo, y + 1)(a, c, e) by {
            if c == y {
                assert(plan(a, y, e) == plan(a, y, e));
            }
        }
        World::lemma_lays_congr(w0, cur, World::overlay(World::layers(plan, lo, y), World::rows(plan, y, cx, cz, dz, dx)), World::layers(plan, lo, y + 1));
    }

    /// Fill the whole map with a level plain topped out at `level`: grass at
    /// `level`, dirt for the three courses below it, stone underneath. Cells
    /// above `level` are left as they were.
    pub fn fill_flat(&mut self, level: i32)
        requires
            old(self).wf(),
        ensures
            final(self).wf(),
            World::plain_laid(*old(self), *final(self), level as int, |x: int, y: int, z: int| true),
    {
        let ghost w0 = *self;
        let top: i32 = if level < WORLD_Y - 1 {
            level
        } else {
            WORLD_Y - 1
        };
        let mut z: i32 = 0;
        while z < WORLD_Z
            invariant
                0 <= z <= WORLD_Z,
                top <= WORLD_Y - 1,
                top == level || (level >= WORLD_Y - 1 && top == WORLD_Y - 1),
                self.wf(),
                World::plain_laid(w0, *self, level as int, |a: int, b: int, c: int| c < z),
            decreases WORLD_Z - z,
        {
            let mut x: i32 = 0;
            while x < WORLD_X
                invariant
                    0 <= z < WORLD_Z,
                    0 <= x <= WORLD_X,
                    top <= WORLD_Y - 1,
                    top == level || (level >= WORLD_Y - 1 && top == WORLD_Y - 1),
                    self.wf(),
                    World::plain_laid(
                        w0,
                        *self,
                        level as int,
                        |a: int, b: int, c: int| c < z || (c == z && a < x),
                    ),
                decreases WORLD_X - x,
            {
                let mut y: i32 = 0;
                while y <= top
                    invariant
                        0 <= z < WORLD_Z,
                        0 <= x < WORLD_X,
                        0 <= y,
                        y <= top + 1 || top < 0,
                        top <= WORLD_Y - 1,
                        top == level || (level >= WORLD_Y - 1 && top == WORLD_Y - 1),
                        self.wf(),
                        World::plain_laid(
                            w0,
                            *self,
                            level as int,
                            |a: int, b: int, c: int|
                                c < z || (c == z && a < x) || (c == z && a == x && b < y),
                        ),
                    decreases top + 1 - y,
                {
                    let block = if y == level {
                        Block::Grass
                    } else if y >= level - 3 {
                        Block::Dirt
                    } else {
                        Block::Stone
                    };
                    self.set(x, y, z, block);
                    y = y + 1;
                }
                x = x + 1;
            }
            z = z + 1;
        }
    }

    /// Two worlds that agree on a column agree on its surface.
    pub proof fn lemma_column_surface(a: World, b: World, x: int, z: int, top: int)
        requires
            forall|y: int| #[trigger] a.block_at(x, y, z) == b.block_at(x, y, z),
        ensures
            a.surface_below(x, z, top) == b.surface_below(x, z, top),
        decreases top,
    {
        if top > 0 {
            assert(a.block_at(x, top - 1, z) == b.block_at(x, top - 1, z));
            World::lemma_column_surface(a, b, x, z, top - 1);
        }
    }

    /// Two worlds whose columns block movement at the same heights have the
    /// same surface there.
    pub proof fn lemma_surface_by_blocking(a: World, b: World, x: int, z: int, top: int)
        requires
            forall|y: int| #[trigger] a.block_at(x, y, z).spec_blocks_movement() == b.block_at(x, y, z).spec_blocks_movement(),
        ensures
            a.surface_below(x, z, top) == b.surface_below(x, z, top),
        decreases top,
    {
        if top > 0 {
            assert(a.block_at(x, top - 1, z).spec_blocks_movement() == b.block_at(x, top - 1, z).spec_blocks_movement());
            World::lemma_surface_by_blocking(a, b, x, z, top - 1);
        }
    }

    /// Decorating twice with one seed is decorating once: the plants the
    /// first pass laid stand on the grass the second pass would plant, and
    /// nothing else changed, so the second pass lays nothing.
    pub proof fn lemma_decorate_twice(w0: World, w1: World, w2: World, seed: u32)
        requires
            World::lays(w0, w1, World::decoration_plan(w0, seed)),
            World::lays(w1, w2, World::decoration_plan(w1, seed)),
        ensures
            forall|x: int, y: int, z: int|
                #[trigger] w2.block_at(x, y, z) == w1.block_at(x, y, z) && w2.level_at(x, y, z) == w1.level_at(x, y, z),
    {
        reveal(World::lays);
        let p0 = World::decoration_plan(w0, seed);
        assert forall|x: int, z: int| #[trigger] World::decoration(w1, x, z, seed) is None by {
            let s0 = w0.surface(x, z);
            if World::decoration(w0, x, z, seed) is Some {
                assert forall|y: int| #[trigger] w1.block_at(x, y, z).spec_blocks_movement() == w0.block_at(x, y, z).spec_blocks_movement() by {
                    if y == s0 + 1 {
                        assert(w0.block_at(x, y, z) is Air);
                        assert(w1.block_at(x, y, z) == World::decoration(w0, x, z, seed)->0);
                    } else {
                        assert(p0(x, y, z) is None);
                    }
                }
                World::lemma_surface_by_blocking(w1, w0, x, z, WORLD_Y as int);
                assert(w1.block_at(x, s0 + 1, z) == World::decoration(w0, x, z, seed)->0);
            } else {
                assert forall|y: int| #[trigger] w1.block_at(x, y, z) == w0.block_at(x, y, z) by {
                    assert(p0(x, y, z) is None);
                }
                World::lemma_column_surface(w1, w0, x, z, WORLD_Y as int);
                assert(w1.block_at(x, s0, z) == w0.block_at(x, s0, z));
                assert(w1.block_at(x, s0 + 1, z) == w0.block_at(x, s0 + 1, z));
            }
        }
        assert forall|x: int, y: int, z: int|
            #[trigger] w2.block_at(x, y, z) == w1.block_at(x, y, z) && w2.level_at(x, y, z) == w1.level_at(x, y, z) by {
            assert(World::decoration(w1, x, z, seed) is None);
            assert(World::decoration_plan(w1, seed)(x, y, z) is None);
        }
    }

    /// What `decorate` plants on the column `(x, z)` of `w`, if anything: on
    /// bare grass above the waterline, with air over it and room for the plant
    /// under the world's ceiling, the column's two independent rolls choose
    /// (see [`plant_roll`]).
    pub open spec fn decoration(w: World, x: int, z: int, seed: u32) -> Option<Block> {
        let y = w.surface(x, z);
        if 0 <= x < WORLD_X && 0 <= z < WORLD_Z && 0 <= y < WORLD_Y - 1 && w.block_at(x, y, z) is Grass
            && y > SEA_LEVEL && w.block_at(x, y + 1, z) is Air {
            plant_roll(x, z, seed)
        } else {
            None
        }
    }

    /// Everything `decorate` plants in `w`: each column's plant, on top of its
    /// surface.
    pub open spec fn decoration_plan(w: World, seed: u32) -> spec_fn(int, int, int) -> Option<Block> {
        |x: int, y: int, z: int| if y == w.surface(x, z) + 1 { World::decoration(w, x, z, seed) } else { None }
    }

    /// The decoration of the columns before the cursor `(x, z)`.
    pub open spec fn decoration_done(w: World, seed: u32, x: int, z: int) -> spec_fn(int, int, int) -> Option<Block> {
        |a: int, b: int, c: int|
            if c < z || (c == z && a < x) { World::decoration_plan(w, seed)(a, b, c) } else { None }
    }

    /// Scatter grass tufts and flowers over any bare grass. Only ever writes a
    /// plant into air directly above grass that stands above the waterline, so
    /// it can never carve into terrain, a tree, or anything built — which makes
    /// it safe to run on a world loaded from a save made before plants.
    pub fn decorate(&mut self, seed: u32)
        requires
            old(self).wf(),
        ensures
            final(self).wf(),
            World::lays(*old(self), *final(self), World::decoration_plan(*old(self), seed)),
            forall|x: int, y: int, z: int|
                #[trigger] final(self).block_at(x, y, z) != old(self).block_at(x, y, z) ==> {
                    &&& old(self).block_at(x, y, z) is Air
                    &&& final(self).block_at(x, y, z).is_plant()
                    &&& old(self).block_at(x, y - 1, z) is Grass
                    &&& y - 1 > SEA_LEVEL
                },
    {
        proof { reveal(World::lays); }
        let ghost w0 = *self;
        proof {
            World::lemma_lays_nothing(w0);
            World::lemma_lays_congr(w0, w0, World::nothing(), World::decoration_done(w0, seed, 0, 0));
        }
        let mut z: i32 = 0;
        while z < WORLD_Z
            invariant
                0 <= z <= WORLD_Z,
                self.wf(),
                World::lays(w0, *self, World::decoration_done(w0, seed, 0, z as int)),
            decreases WORLD_Z - z,
        {
            proof { reveal(World::lays); }
            let mut x: i32 = 0;
            while x < WORLD_X
                invariant
                    0 <= z < WORLD_Z,
                    0 <= x <= WORLD_X,
                    self.wf(),
                    World::lays(w0, *self, World::decoration_done(w0, seed, x as int, z as int)),
                decreases WORLD_X - x,
            {
                proof { reveal(World::lays); }
                let ghost done = World::decoration_done(w0, seed, x as int, z as int);
                let ghost next = World::decoration_done(w0, seed, x + 1, z as int);
                proof {
                    assert forall|y: int| #[trigger] self.block_at(x as int, y, z as int) == w0.block_at(x as int, y, z as int) by {
                        assert(done(x as int, y, z as int) is None);
                    }
                    World::lemma_column_surface(*self, w0, x as int, z as int, WORLD_Y as int);
                }
                let y = self.surface_y(x, z);
                let mut planted = false;
                if y >= 0 && y < WORLD_Y - 1 {
                    if self.get(x, y, z) == Block::Grass && y > SEA_LEVEL {
                        if self.get(x, y + 1, z) == Block::Air {
                            // Two independent rolls, so flowers thin out in
                            // patches of their own rather than being rare grass.
                            let r = pseudo_random(x, z, seed.wrapping_add(101));
                            if r < 2800 {
                                let block = if r < 300 {
                                    if pseudo_random(x, z, seed.wrapping_add(202)) < 5000 {
                                        Block::RedFlower
                                    } else {
                                        Block::YellowFlower
                                    }
                                } else {
                                    Block::TallGrass
                                };
                                let ghost prev = *self;
                                self.set(x, y + 1, z, block);
                                planted = true;
                                proof {
                                    let cell = World::single(x as int, y + 1, z as int, block);
                                    World::lemma_lays_single(prev, *self, x as int, y + 1, z as int, block);
                                    World::lemma_lays_compose(w0, prev, *self, done, cell);
                                    assert forall|a: int, b: int, c: int|
                                        #[trigger] World::overlay(done, cell)(a, b, c) == next(a, b, c) by {
                                    }
                                    World::lemma_lays_congr(w0, *self, World::overlay(done, cell), next);
                                }
                            }
                        }
                    }
                }
                if !planted {
                    proof {
                        assert forall|a: int, b: int, c: int| #[trigger] done(a, b, c) == next(a, b, c) by {
                        }
                        World::lemma_lays_congr(w0, *self, done, next);
                    }
                }
                x = x + 1;
            }
            proof {
                let d1 = World::decoration_done(w0, seed, x as int, z as int);
                let d2 = World::decoration_done(w0, seed, 0, z + 1);
                assert forall|a: int, b: int, c: int| #[trigger] d1(a, b, c) == d2(a, b, c) by {
                }
                World::lemma_lays_congr(w0, *self, d1, d2);
            }
            z = z + 1;
        }
        proof {
            let d1 = World::decoration_done(w0, seed, 0, z as int);
            let d2 = World::decoration_plan(w0, seed);
            assert forall|a: int, b: int, c: int| #[trigger] d1(a, b, c) == d2(a, b, c) by {
            }
            World::lemma_lays_congr(w0, *self, d1, d2);
            assert forall|x: int, y: int, z: int|
                #[trigger] self.block_at(x, y, z) != w0.block_at(x, y, z) implies {
                    &&& w0.block_at(x, y, z) is Air
                    &&& self.block_at(x, y, z).is_plant()
                    &&& w0.block_at(x, y - 1, z) is Grass
                    &&& y - 1 > SEA_LEVEL
                } by {
                assert(d2(x, y, z) is Some);
            }
        }
    }

    /// Whether `(a, b, c)` is in the trunk of a tree planted at `(x, base_y,
    /// z)`: four blocks of wood.
    pub open spec fn in_trunk(x: int, base_y: int, z: int, a: int, b: int, c: int) -> bool {
        a == x && c == z && base_y <= b < base_y + 4
    }

    /// Whether `(a, b, c)` is in the blob of leaves round the top of that
    /// trunk: within the 5×3×5 box about the top, no further than √5 from it.
    pub open spec fn in_crown(x: int, base_y: int, z: int, a: int, b: int, c: int) -> bool {
        let (dx, dy, dz) = (a - x, b - (base_y + 4), c - z);
        -2 <= dx <= 2 && -1 <= dy <= 1 && -2 <= dz <= 2 && dx * dx + dz * dz + dy * dy <= 5
    }

    /// The part of a tree laid before the leaf cursor `(dy, dz, dx)`: the
    /// trunk, and leaves in every crown cell already passed that was air.
    pub open spec fn tree_done(w: World, x: int, base_y: int, z: int, dy: int, dz: int, dx: int) -> spec_fn(int, int, int) -> Option<Block> {
        |a: int, b: int, c: int|
            if World::in_trunk(x, base_y, z, a, b, c) {
                Some(Block::Wood)
            } else if World::in_crown(x, base_y, z, a, b, c) && w.block_at(a, b, c) is Air && {
                let (ey, ez, ex) = (b - (base_y + 4), c - z, a - x);
                ey < dy || (ey == dy && (ez < dz || (ez == dz && ex < dx)))
            } {
                Some(Block::Leaves)
            } else {
                None
            }
    }

    /// Plant a tree: a trunk of four wood blocks standing on `(x, base_y, z)`
    /// and a blob of leaves round its top, the leaves only ever going into air.
    fn place_tree(&mut self, x: i32, base_y: i32, z: i32)
        requires
            old(self).wf(),
            -1_000_000 <= x <= 1_000_000,
            -1_000_000 <= base_y <= 1_000_000,
            -1_000_000 <= z <= 1_000_000,
        ensures
            final(self).wf(),
            World::lays(*old(self), *final(self), World::tree_done(*old(self), x as int, base_y as int, z as int, 2, 0, 0)),
    {
        let ghost w0 = *self;
        let trunk: i32 = 4;
        proof {
            reveal(World::lays);
            World::lemma_lays_nothing(w0);
        }
        let mut i: i32 = 0;
        while i < trunk
            invariant
                -1_000_000 <= x <= 1_000_000,
                -1_000_000 <= base_y <= 1_000_000,
                -1_000_000 <= z <= 1_000_000,
                0 <= i <= trunk,
                trunk == 4,
                self.wf(),
                World::lays(w0, *self, |a: int, b: int, c: int| if a == x && c == z && base_y <= b < base_y + i { Some(Block::Wood) } else { None }),
            decreases trunk - i,
        {
            proof { reveal(World::lays); }
            let ghost prev = *self;
            let ghost done = |a: int, b: int, c: int| if a == x && c == z && base_y <= b < base_y + i { Some(Block::Wood) } else { None };
            self.set(x, base_y + i, z, Block::Wood);
            proof {
                let cell = World::single(x as int, base_y + i, z as int, Block::Wood);
                World::lemma_lays_single(prev, *self, x as int, base_y + i, z as int, Block::Wood);
                World::lemma_lays_compose(w0, prev, *self, done, cell);
                World::lemma_lays_congr(w0, *self, World::overlay(done, cell), |a: int, b: int, c: int| if a == x && c == z && base_y <= b < base_y + i + 1 { Some(Block::Wood) } else { None });
            }
            i = i + 1;
        }
        let top = base_y + trunk;
        proof {
            World::lemma_lays_congr(
                w0,
                *self,
                |a: int, b: int, c: int| if a == x && c == z && base_y <= b < base_y + i { Some(Block::Wood) } else { None },
                World::tree_done(w0, x as int, base_y as int, z as int, -1, -2, -2),
            );
        }
        // A small blob of leaves around the top of the trunk.
        let mut dy: i32 = -1;
        while dy <= 1
            invariant
                -1_000_000 <= x <= 1_000_000,
                -1_000_000 <= base_y <= 1_000_000,
                -1_000_000 <= z <= 1_000_000,
                top == base_y + 4,
                -1 <= dy <= 2,
                self.wf(),
                World::lays(w0, *self, World::tree_done(w0, x as int, base_y as int, z as int, dy as int, -2, -2)),
            decreases 2 - dy,
        {
            proof { reveal(World::lays); }
            let mut dz: i32 = -2;
            while dz <= 2
                invariant
                    -1_000_000 <= x <= 1_000_000,
                    -1_000_000 <= base_y <= 1_000_000,
                    -1_000_000 <= z <= 1_000_000,
                    top == base_y + 4,
                    -1 <= dy <= 1,
                    -2 <= dz <= 3,
                    self.wf(),
                    World::lays(w0, *self, World::tree_done(w0, x as int, base_y as int, z as int, dy as int, dz as int, -2)),
                decreases 3 - dz,
            {
                proof { reveal(World::lays); }
                let mut dx: i32 = -2;
                while dx <= 2
                    invariant
                        -1_000_000 <= x <= 1_000_000,
                        -1_000_000 <= base_y <= 1_000_000,
                        -1_000_000 <= z <= 1_000_000,
                        top == base_y + 4,
                        -1 <= dy <= 1,
                        -2 <= dz <= 2,
                        -2 <= dx <= 3,
                        self.wf(),
                        World::lays(w0, *self, World::tree_done(w0, x as int, base_y as int, z as int, dy as int, dz as int, dx as int)),
                    decreases 3 - dx,
                {
                    proof { reveal(World::lays); }
                    let ghost done = World::tree_done(w0, x as int, base_y as int, z as int, dy as int, dz as int, dx as int);
                    let ghost next = World::tree_done(w0, x as int, base_y as int, z as int, dy as int, dz as int, dx + 1);
                    let (lx, ly, lz) = (x + dx, top + dy, z + dz);
                    assert(0 <= dx * dx <= 4 && 0 <= dz * dz <= 4 && 0 <= dy * dy <= 1) by (nonlinear_arith)
                        requires
                            -2 <= dx <= 2,
                            -2 <= dz <= 2,
                            -1 <= dy <= 1,
                    ;
                    let mut laid = false;
                    if dx * dx + dz * dz + dy * dy <= 5 {
                        if self.get(lx, ly, lz) == Block::Air {
                            let ghost prev = *self;
                            self.set(lx, ly, lz, Block::Leaves);
                            laid = true;
                            proof {
                                let cell = World::single(lx as int, ly as int, lz as int, Block::Leaves);
                                if in_world(lx as int, ly as int, lz as int) {
                                    assert(!World::in_trunk(x as int, base_y as int, z as int, lx as int, ly as int, lz as int));
                                    assert(prev.block_at(lx as int, ly as int, lz as int) == w0.block_at(lx as int, ly as int, lz as int));
                                }
                                World::lemma_lays_single(prev, *self, lx as int, ly as int, lz as int, Block::Leaves);
                                World::lemma_lays_compose(w0, prev, *self, done, cell);
                                World::lemma_lays_congr(w0, *self, World::overlay(done, cell), next);
                            }
                        }
                    }
                    if !laid {
                        proof {
                            if in_world(lx as int, ly as int, lz as int) && World::in_crown(x as int, base_y as int, z as int, lx as int, ly as int, lz as int)
                                && !World::in_trunk(x as int, base_y as int, z as int, lx as int, ly as int, lz as int) {
                                assert(self.block_at(lx as int, ly as int, lz as int) == w0.block_at(lx as int, ly as int, lz as int));
                            }
                            World::lemma_lays_congr(w0, *self, done, next);
                        }
                    }
                    dx = dx + 1;
                }
                proof {
                    World::lemma_lays_congr(
                        w0,
                        *self,
                        World::tree_done(w0, x as int, base_y as int, z as int, dy as int, dz as int, dx as int),
                        World::tree_done(w0, x as int, base_y as int, z as int, dy as int, dz + 1, -2),
                    );
                }
                dz = dz + 1;
            }
            proof {
                World::lemma_lays_congr(
                    w0,
                    *self,
                    World::tree_done(w0, x as int, base_y as int, z as int, dy as int, dz as int, -2),
                    World::tree_done(w0, x as int, base_y as int, z as int, dy + 1, -2, -2),
                );
            }
            dy = dy + 1;
        }
        proof {
            World::lemma_lays_congr(
                w0,
                *self,
                World::tree_done(w0, x as int, base_y as int, z as int, dy as int, -2, -2),
                World::tree_done(w0, x as int, base_y as int, z as int, 2, 0, 0),
            );
        }
    }

    /// A featureless level plain at `FLAT_LEVEL`: stone, three courses of
    /// dirt, grass on top, and nothing else at all.
    pub fn generate_flat() -> (w: World)
        ensures
            w.wf(),
            forall|x: int, y: int, z: int|
                #[trigger] w.block_at(x, y, z) == (if in_world(x, y, z) && y <= FLAT_LEVEL {
                    flat_block(FLAT_LEVEL as int, y)
                } else {
                    Block::Air
                }) && w.level_at(x, y, z) == 0,
    {
        let mut world = World::empty();
        world.fill_flat(FLAT_LEVEL);
        world
    }

    /// What laying a meadow column of surface height `h` at `(x, z)` lays: the
    /// terrain up to `h`, and open water from just above it up to sea level.
    pub open spec fn meadow_column(x: int, z: int, h: int) -> spec_fn(int, int, int) -> Option<Block> {
        |a: int, b: int, c: int|
            if a == x && c == z && 0 <= b <= h {
                Some(meadow_block(h, b))
            } else if a == x && c == z && h < b <= SEA_LEVEL {
                Some(Block::Water)
            } else {
                None
            }
    }

    /// Lay one meadow column: the terrain up to `h`, then open water up to sea
    /// level.
    fn lay_meadow_column(&mut self, x: i32, z: i32, h: i32)
        requires
            old(self).wf(),
            0 <= x < WORLD_X,
            0 <= z < WORLD_Z,
            1 <= h <= WORLD_Y - 1,
        ensures
            final(self).wf(),
            World::lays(*old(self), *final(self), World::meadow_column(x as int, z as int, h as int)),
    {
        let ghost w0 = *self;
        let ghost plan = World::meadow_column(x as int, z as int, h as int);
        proof {
            World::lemma_lays_nothing(w0);
            World::lemma_lays_congr(w0, w0, World::nothing(), World::layers(plan, 0, 0));
        }
        let mut y: i32 = 0;
        while y <= SEA_LEVEL || y <= h
            invariant
                0 <= x < WORLD_X,
                0 <= z < WORLD_Z,
                1 <= h <= WORLD_Y - 1,
                0 <= y <= WORLD_Y,
                y <= SEA_LEVEL + 1 || y <= h + 1,
                plan == World::meadow_column(x as int, z as int, h as int),
                self.wf(),
                World::lays(w0, *self, World::layers(plan, 0, y as int)),
            decreases WORLD_Y - y,
        {
            let block = if y > h {
                Block::Water
            } else if y == h {
                if h <= SEA_LEVEL + 1 {
                    Block::Sand
                } else {
                    Block::Grass
                }
            } else if y >= h - 3 {
                Block::Dirt
            } else {
                Block::Stone
            };
            let ghost prev = *self;
            self.set(x, y, z, block);
            proof {
                let cell = World::single(x as int, y as int, z as int, block);
                World::lemma_lays_single(prev, *self, x as int, y as int, z as int, block);
                World::lemma_lays_compose(w0, prev, *self, World::layers(plan, 0, y as int), cell);
                World::lemma_lays_congr(w0, *self, World::overlay(World::layers(plan, 0, y as int), cell), World::layers(plan, 0, y + 1));
            }
            y = y + 1;
        }
        proof {
            World::lemma_lays_congr(w0, *self, World::layers(plan, 0, y as int), plan);
        }
    }

    /// The meadow's terrain holds at column `(a, c)`: the layered ground up to
    /// its surface, open water from there up to sea level.
    pub open spec fn meadow_terrain(&self, heights: Seq<i32>, a: int, c: int) -> bool {
        let h = meadow_height(heights, a, c);
        forall|b: int|
            0 <= b < WORLD_Y ==> (b <= h ==> #[trigger] self.block_at(a, b, c) == meadow_block(h, b)) && (h < b
                <= SEA_LEVEL ==> self.block_at(a, b, c) == Block::Water)
    }

    /// Whether `(a, b, c)` is terrain or sea in the meadow: at or below the
    /// higher of its column's surface and sea level.
    pub open spec fn in_meadow_ground(heights: Seq<i32>, a: int, b: int, c: int) -> bool {
        b <= (if meadow_height(heights, a, c) > SEA_LEVEL { meadow_height(heights, a, c) } else { SEA_LEVEL as int })
    }

    /// Above the ground of the columns before `(gx, gz)`, every in-grid cell of
    /// `w` holds what the trees on the columns before `(tx, tz)` put there.
    spec fn canopy_holds(w: World, heights: Seq<i32>, seed: u32, gx: int, gz: int, tx: int, tz: int) -> bool {
        forall|a: int, b: int, c: int|
            in_world(a, b, c) && !((c < gz || (c == gz && a < gx)) && World::in_meadow_ground(heights, a, b, c))
                ==> #[trigger] w.block_at(a, b, c) == meadow_canopy_upto(heights, seed, tx, tz, a, b, c)
    }

    /// Two cursors that let through the same trees give the same canopy.
    proof fn lemma_canopy_upto_same(heights: Seq<i32>, seed: u32, x1: int, z1: int, x2: int, z2: int, a: int, b: int, c: int)
        requires
            forall|tx: int, tz: int|
                #[trigger] meadow_tree(heights, seed, tx, tz) ==> ((tz < z1 || (tz == z1 && tx < x1)) <==> (tz < z2 || (tz == z2
                    && tx < x2))),
        ensures
            meadow_canopy_upto(heights, seed, x1, z1, a, b, c) == meadow_canopy_upto(heights, seed, x2, z2, a, b, c),
    {
        assert(meadow_tree(heights, seed, a, c) ==> ((c < z1 || (c == z1 && a < x1)) <==> (c < z2 || (c == z2 && a < x2))));
        if exists|tx: int, tz: int| (tz < z1 || (tz == z1 && tx < x1)) && #[trigger] meadow_leaf(heights, seed, tx, tz, a, b, c) {
            let (tx, tz) = choose|tx: int, tz: int| (tz < z1 || (tz == z1 && tx < x1)) && #[trigger] meadow_leaf(heights, seed, tx, tz, a, b, c);
            assert(meadow_tree(heights, seed, tx, tz));
            assert((tz < z2 || (tz == z2 && tx < x2)) && meadow_leaf(heights, seed, tx, tz, a, b, c));
        }
        if exists|tx: int, tz: int| (tz < z2 || (tz == z2 && tx < x2)) && #[trigger] meadow_leaf(heights, seed, tx, tz, a, b, c) {
            let (tx, tz) = choose|tx: int, tz: int| (tz < z2 || (tz == z2 && tx < x2)) && #[trigger] meadow_leaf(heights, seed, tx, tz, a, b, c);
            assert(meadow_tree(heights, seed, tx, tz));
            assert((tz < z1 || (tz == z1 && tx < x1)) && meadow_leaf(heights, seed, tx, tz, a, b, c));
        }
    }

    /// Laying the ground of the column `(x, z)` leaves the canopy above every
    /// column's ground as it was.
    proof fn lemma_canopy_ground(heights: Seq<i32>, seed: u32, x: int, z: int, before: World, after: World)
        requires
            0 <= x < WORLD_X,
            0 <= z < WORLD_Z,
            World::canopy_holds(before, heights, seed, x, z, x, z),
            World::lays(before, after, World::meadow_column(x, z, meadow_height(heights, x, z))),
        ensures
            World::canopy_holds(after, heights, seed, x + 1, z, x, z),
    {
        reveal(World::lays);
        let plan = World::meadow_column(x, z, meadow_height(heights, x, z));
        assert forall|a: int, b: int, c: int|
            in_world(a, b, c) && !((c < z || (c == z && a < x + 1)) && World::in_meadow_ground(heights, a, b, c)) implies
                #[trigger] after.block_at(a, b, c) == meadow_canopy_upto(heights, seed, x, z, a, b, c) by {
            assert(plan(a, b, c) is None);
            assert(after.block_at(a, b, c) == before.block_at(a, b, c));
        }
    }

    /// A column with no tree adds nothing to the canopy.
    proof fn lemma_canopy_bare(heights: Seq<i32>, seed: u32, x: int, z: int, w: World)
        requires
            !meadow_tree(heights, seed, x, z),
            World::canopy_holds(w, heights, seed, x + 1, z, x, z),
        ensures
            World::canopy_holds(w, heights, seed, x + 1, z, x + 1, z),
    {
        assert forall|a: int, b: int, c: int|
            in_world(a, b, c) && !((c < z || (c == z && a < x + 1)) && World::in_meadow_ground(heights, a, b, c)) implies
                #[trigger] w.block_at(a, b, c) == meadow_canopy_upto(heights, seed, x + 1, z, a, b, c) by {
            World::lemma_canopy_upto_same(heights, seed, x, z, x + 1, z, a, b, c);
        }
    }

    /// The end of one row of columns is the start of the next.
    proof fn lemma_canopy_row(heights: Seq<i32>, seed: u32, z: int, w: World)
        requires
            World::canopy_holds(w, heights, seed, WORLD_X as int, z, WORLD_X as int, z),
        ensures
            World::canopy_holds(w, heights, seed, 0, z + 1, 0, z + 1),
    {
        assert forall|a: int, b: int, c: int|
            in_world(a, b, c) && !((c < z + 1 || (c == z + 1 && a < 0)) && World::in_meadow_ground(heights, a, b, c)) implies
                #[trigger] w.block_at(a, b, c) == meadow_canopy_upto(heights, seed, 0, z + 1, a, b, c) by {
            World::lemma_canopy_upto_same(heights, seed, WORLD_X as int, z, 0, z + 1, a, b, c);
        }
    }

    /// Planting the tree of the column `(x, z)` adds its trunk and crown to the
    /// canopy: a trunk over anything, leaves wherever the canopy was air.
    proof fn lemma_canopy_tree(heights: Seq<i32>, seed: u32, x: int, z: int, before: World, after: World)
        requires
            meadow_tree(heights, seed, x, z),
            World::canopy_holds(before, heights, seed, x + 1, z, x, z),
            World::lays(before, after, World::tree_done(before, x, meadow_height(heights, x, z) + 1, z, 2, 0, 0)),
        ensures
            World::canopy_holds(after, heights, seed, x + 1, z, x + 1, z),
    {
        reveal(World::lays);
        let h0 = meadow_height(heights, x, z);
        let plan = World::tree_done(before, x, h0 + 1, z, 2, 0, 0);
        assert forall|a: int, b: int, c: int|
            in_world(a, b, c) && !((c < z || (c == z && a < x + 1)) && World::in_meadow_ground(heights, a, b, c)) implies
                #[trigger] after.block_at(a, b, c) == meadow_canopy_upto(heights, seed, x + 1, z, a, b, c) by {
            let old_c = meadow_canopy_upto(heights, seed, x, z, a, b, c);
            let new_c = meadow_canopy_upto(heights, seed, x + 1, z, a, b, c);
            assert(before.block_at(a, b, c) == old_c);
            let wood_old = (c < z || (c == z && a < x)) && meadow_tree(heights, seed, a, c) && World::in_trunk(
                a,
                meadow_height(heights, a, c) + 1,
                c,
                a,
                b,
                c,
            );
            if World::in_trunk(x, h0 + 1, z, a, b, c) {
                assert(after.block_at(a, b, c) == Block::Wood);
            } else {
                // Leaves from the columns before `(x, z)` stay leaves.
                if exists|tx: int, tz: int| (tz < z || (tz == z && tx < x)) && #[trigger] meadow_leaf(heights, seed, tx, tz, a, b, c) {
                    let (tx, tz) = choose|tx: int, tz: int| (tz < z || (tz == z && tx < x)) && #[trigger] meadow_leaf(heights, seed, tx, tz, a, b, c);
                    assert((tz < z || (tz == z && tx < x + 1)) && meadow_leaf(heights, seed, tx, tz, a, b, c));
                }
                // Leaves in the new canopy come from before `(x, z)` or from its own crown.
                if exists|tx: int, tz: int| (tz < z || (tz == z && tx < x + 1)) && #[trigger] meadow_leaf(heights, seed, tx, tz, a, b, c) {
                    let (tx, tz) = choose|tx: int, tz: int| (tz < z || (tz == z && tx < x + 1)) && #[trigger] meadow_leaf(heights, seed, tx, tz, a, b, c);
                    if !(tx == x && tz == z) {
                        assert((tz < z || (tz == z && tx < x)) && meadow_leaf(heights, seed, tx, tz, a, b, c));
                    }
                }
                if World::in_crown(x, h0 + 1, z, a, b, c) {
                    assert(meadow_leaf(heights, seed, x, z, a, b, c));
                    if before.block_at(a, b, c) is Air {
                        assert(after.block_at(a, b, c) == Block::Leaves);
                    } else {
                        assert(after.block_at(a, b, c) == before.block_at(a, b, c));
                    }
                } else {
                    assert(!meadow_leaf(heights, seed, x, z, a, b, c));
                    assert(after.block_at(a, b, c) == before.block_at(a, b, c));
                }
            }
        }
    }

    /// The surface below `top` is -1 or a movement-blocking cell below `top`,
    /// with nothing blocking movement between it and `top`.
    proof fn lemma_surface_below_facts(w: World, x: int, z: int, top: int)
        ensures
            w.surface_below(x, z, top) == -1 || (0 <= w.surface_below(x, z, top) < top && w.block_at(
                x,
                w.surface_below(x, z, top),
                z,
            ).spec_blocks_movement()),
            forall|y: int|
                w.surface_below(x, z, top) < y < top ==> !(#[trigger] w.block_at(x, y, z)).spec_blocks_movement(),
        decreases top,
    {
        if top > 0 && !w.block_at(x, top - 1, z).spec_blocks_movement() {
            World::lemma_surface_below_facts(w, x, z, top - 1);
        }
    }

    /// Over a column laid as the meadow lays it, with the canopy above its
    /// ground, `decorate` plants the meadow's plant for that column, just
    /// above its surface.
    proof fn lemma_meadow_decoration(heights: Seq<i32>, seed: u32, w: World, a: int, c: int)
        requires
            heights.len() == WORLD_COLUMNS,
            0 <= a < WORLD_X,
            0 <= c < WORLD_Z,
            w.meadow_terrain(heights, a, c),
            forall|b: int|
                0 <= b < WORLD_Y && !World::in_meadow_ground(heights, a, b, c) ==> #[trigger] w.block_at(a, b, c)
                    == meadow_canopy(heights, seed, a, b, c),
        ensures
            World::decoration(w, a, c, seed) == meadow_plant(heights, seed, a, c),
            meadow_plant(heights, seed, a, c) is Some ==> w.surface(a, c) == meadow_height(heights, a, c),
    {
        let h = meadow_height(heights, a, c);
        let s = w.surface(a, c);
        World::lemma_surface_below_facts(w, a, c, WORLD_Y as int);
        let open_sky = forall|b: int| h < b < WORLD_Y ==> #[trigger] meadow_canopy(heights, seed, a, b, c) is Air;
        if SEA_LEVEL + 1 < h < WORLD_Y - 1 && open_sky {
            assert(w.block_at(a, h, c) == meadow_block(h, h));
            if s < h {
                assert(!w.block_at(a, h, c).spec_blocks_movement());
            }
            if s > h {
                assert(meadow_canopy(heights, seed, a, s, c) is Air);
            }
            assert(s == h);
            assert(meadow_canopy(heights, seed, a, h + 1, c) is Air);
            assert(w.block_at(a, h + 1, c) is Air);
        } else if 0 <= s < WORLD_Y - 1 && w.block_at(a, s, c) is Grass && s > SEA_LEVEL && w.block_at(a, s + 1, c) is Air {
            // The only grass in the column is its own surface, so `decorate`
            // looks at the surface; something blocks the sky above it.
            if s > h {
                assert(w.block_at(a, s, c) == meadow_canopy(heights, seed, a, s, c));
            }
            assert(s == h);
            assert(!open_sky);
            let b0 = choose|b: int| h < b < WORLD_Y && !(#[trigger] meadow_canopy(heights, seed, a, b, c) is Air);
            assert(w.block_at(a, b0, c) == meadow_canopy(heights, seed, a, b0, c));
            assert(!w.block_at(a, b0, c).spec_blocks_movement());
        }
    }

    /// Rolling hills, water and beaches, a few trees, and grass and flowers,
    /// over the height field `heights` (one surface height per column, row by
    /// row, clamped into the world).
    ///
    /// Every column is the layered ground up to its surface — sand at or just
    /// above the sea, grass higher up, three courses of dirt, stone — with
    /// open water above it up to sea level. Above that stand the trees: a
    /// trunk of four wood blocks on the grass of one column in fifty clear of
    /// the beach, with a crown of leaves round its top that fills any air it
    /// reaches; then the grass left under open sky gets its tuft or flower
    /// (see [`meadow_cell`]).
    pub fn generate_meadow(seed: u32, heights: &Vec<i32>) -> (w: World)
        requires
            heights@.len() == WORLD_COLUMNS,
        ensures
            w.wf(),
            forall|a: int, c: int|
                0 <= a < WORLD_X && 0 <= c < WORLD_Z ==> #[trigger] w.meadow_terrain(heights@, a, c),
            forall|a: int, b: int, c: int|
                in_world(a, b, c) ==> #[trigger] w.block_at(a, b, c) == meadow_cell(heights@, seed, a, b, c),
            w.levels_placed(),
    {
        let mut world = World::empty();
        assert(World::canopy_holds(world, heights@, seed, 0, 0, 0, 0));
        let mut z: i32 = 0;
        while z < WORLD_Z
            invariant
                0 <= z <= WORLD_Z,
                heights@.len() == WORLD_COLUMNS,
                world.wf(),
                forall|a: int, c: int|
                    0 <= a < WORLD_X && 0 <= c < z ==> #[trigger] world.meadow_terrain(heights@, a, c),
                World::canopy_holds(world, heights@, seed, 0, z as int, 0, z as int),
                world.levels_placed(),
            decreases WORLD_Z - z,
        {
            let mut x: i32 = 0;
            while x < WORLD_X
                invariant
                    0 <= z < WORLD_Z,
                    0 <= x <= WORLD_X,
                    heights@.len() == WORLD_COLUMNS,
                    world.wf(),
                    forall|a: int, c: int|
                        0 <= a < WORLD_X && 0 <= c < WORLD_Z && (c < z || (c == z && a < x)) ==> #[trigger] world.meadow_terrain(heights@, a, c),
                    World::canopy_holds(world, heights@, seed, x as int, z as int, x as int, z as int),
                    world.levels_placed(),
                decreases WORLD_X - x,
            {
                proof {
                    assert(0 <= x + z * WORLD_X < WORLD_COLUMNS) by (nonlinear_arith)
                        requires
                            0 <= x < 768,
                            0 <= z < 768,
                    ;
                }
                let raw = heights[(x + z * WORLD_X) as usize];
                let height: i32 = if raw < 1 {
                    1
                } else if raw > WORLD_Y - 1 {
                    WORLD_Y - 1
                } else {
                    raw
                };
                let ghost before = world;
                world.lay_meadow_column(x, z, height);
                proof {
                    reveal(World::lays);
                    assert(meadow_height(heights@, x as int, z as int) == height);
                    World::lemma_canopy_ground(heights@, seed, x as int, z as int, before, world);
                    World::lemma_lays_levels(before, world, World::meadow_column(x as int, z as int, height as int));
                    let plan = World::meadow_column(x as int, z as int, height as int);
                    assert forall|a: int, c: int|
                        0 <= a < WORLD_X && 0 <= c < WORLD_Z && (c < z || (c == z && a < x + 1)) implies #[trigger] world.meadow_terrain(heights@, a, c) by {
                        if a == x && c == z {
                            assert(meadow_height(heights@, a, c) == height);
                        } else {
                            assert(before.meadow_terrain(heights@, a, c));
                            assert forall|b: int| 0 <= b < WORLD_Y implies (b <= meadow_height(heights@, a, c) ==> #[trigger] world.block_at(a, b, c) == meadow_block(meadow_height(heights@, a, c), b)) && (meadow_height(heights@, a, c) < b
                                <= SEA_LEVEL ==> world.block_at(a, b, c) == Block::Water) by {
                                assert(before.block_at(a, b, c) == world.block_at(a, b, c));
                            }
                        }
                    }
                    assert(world.meadow_terrain(heights@, x as int, z as int));
                    assert(world.block_at(x as int, height as int, z as int) == meadow_block(height as int, height as int));
                }
                // Sparse trees on grass above the waterline.
                if height > SEA_LEVEL + 1 && world.get(x, height, z) == Block::Grass && pseudo_random(x, z, seed) < 200 {
                    let ghost before = world;
                    world.place_tree(x, height + 1, z);
                    proof {
                        reveal(World::lays);
                        World::lemma_canopy_tree(heights@, seed, x as int, z as int, before, world);
                        World::lemma_lays_levels(before, world, World::tree_done(before, x as int, height + 1, z as int, 2, 0, 0));
                        let plan = World::tree_done(before, x as int, height + 1, z as int, 2, 0, 0);
                        assert forall|a: int, c: int|
                            0 <= a < WORLD_X && 0 <= c < WORLD_Z && (c < z || (c == z && a < x + 1)) implies #[trigger] world.meadow_terrain(heights@, a, c) by {
                            assert(before.meadow_terrain(heights@, a, c));
                            let hh = meadow_height(heights@, a, c);
                            assert forall|b: int| 0 <= b < WORLD_Y implies (b <= hh ==> #[trigger] world.block_at(a, b, c) == meadow_block(hh, b)) && (hh < b
                                <= SEA_LEVEL ==> world.block_at(a, b, c) == Block::Water) by {
                                if b <= hh || (hh < b <= SEA_LEVEL) {
                                    assert(before.block_at(a, b, c) == meadow_block(hh, b) || before.block_at(a, b, c) == Block::Water);
                                    if a == x && c == z {
                                        assert(meadow_height(heights@, a, c) == height);
                                    }
                                    assert(plan(a, b, c) is None);
                                }
                            }
                        }
                    }
                } else {
                    proof {
                        World::lemma_canopy_bare(heights@, seed, x as int, z as int, world);
                    }
                }
                x = x + 1;
            }
            proof {
                World::lemma_canopy_row(heights@, seed, z as int, world);
            }
            z = z + 1;
        }
        let ghost before = world;
        world.decorate(seed);
        proof {
            World::lemma_lays_levels(before, world, World::decoration_plan(before, seed));
            reveal(World::lays);
            assert forall|a: int, c: int|
                0 <= a < WORLD_X && 0 <= c < WORLD_Z implies #[trigger] world.meadow_terrain(heights@, a, c) by {
                assert(before.meadow_terrain(heights@, a, c));
                let hh = meadow_height(heights@, a, c);
                assert forall|b: int| 0 <= b < WORLD_Y implies (b <= hh ==> #[trigger] world.block_at(a, b, c) == meadow_block(hh, b)) && (hh < b
                    <= SEA_LEVEL ==> world.block_at(a, b, c) == Block::Water) by {
                    if world.block_at(a, b, c) != before.block_at(a, b, c) {
                        assert(before.block_at(a, b, c) is Air);
                    }
                }
            }
            assert forall|a: int, b: int, c: int| in_world(a, b, c) implies #[trigger] world.block_at(a, b, c) == meadow_cell(heights@, seed, a, b, c) by {
                assert(before.meadow_terrain(heights@, a, c));
                assert(world.meadow_terrain(heights@, a, c));
                assert forall|bb: int|
                    0 <= bb < WORLD_Y && !World::in_meadow_ground(heights@, a, bb, c) implies #[trigger] before.block_at(a, bb, c)
                        == meadow_canopy(heights@, seed, a, bb, c) by {
                    assert(in_world(a, bb, c));
                }
                World::lemma_meadow_decoration(heights@, seed, before, a, c);
                if !World::in_meadow_ground(heights@, a, b, c) {
                    assert(before.block_at(a, b, c) == meadow_canopy(heights@, seed, a, b, c));
                    assert(world.block_at(a, b, c) == (if World::decoration_plan(before, seed)(a, b, c) is Some {
                        World::decoration_plan(before, seed)(a, b, c)->0
                    } else {
                        before.block_at(a, b, c)
                    }));
                }
            }
        }
        world
    }

    /// Generate a fresh world of the given kind. The meadow is built over the
    /// terrain height field `meadow_heights` (see [`World::generate_meadow`]);
    /// the other maps ignore it.
    pub fn generate(kind: MapKind, seed: u32, meadow_heights: &Vec<i32>) -> (w: World)
        requires
            kind is Meadow ==> meadow_heights@.len() == WORLD_COLUMNS,
        ensures
            w.wf(),
            kind is Flat ==> forall|x: int, y: int, z: int|
                #[trigger] w.block_at(x, y, z) == (if in_world(x, y, z) && y <= FLAT_LEVEL {
                    flat_block(FLAT_LEVEL as int, y)
                } else {
                    Block::Air
                }) && w.level_at(x, y, z) == 0,
            kind is Meadow ==> forall|a: int, b: int, c: int|
                in_world(a, b, c) ==> #[trigger] w.block_at(a, b, c) == meadow_cell(meadow_heights@, seed, a, b, c),
            kind is Joseon ==> forall|x: int, y: int, z: int| #[trigger] w.block_at(x, y, z) == crate::joseon::joseon_cell(x, y, z),
            w.levels_placed(),
    {
        match kind {
            MapKind::Meadow => World::generate_meadow(seed, meadow_heights),
            MapKind::Joseon => crate::joseon::generate(seed),
            MapKind::Flat => {
                let w = World::generate_flat();
                assert forall|x: int, y: int, z: int| #[trigger] w.level_at(x, y, z) == placed_level(w.block_at(x, y, z)) by {
                    assert(w.level_at(x, y, z) == 0);
                }
                w
            },
        }
    }

    /// Whether the column `(x, z)` is somewhere pleasant to arrive: a grass
    /// surface above the waterline.
    pub open spec fn spawnable(&self, x: int, z: int) -> bool {
        self.surface(x, z) > SEA_LEVEL && self.block_at(x, self.surface(x, z), z) is Grass
    }

    /// How far `(x, z)` is from the centre of the map, in rings: the larger of
    /// its distances along the two axes.
    pub open spec fn ring(x: int, z: int) -> int {
        let dx = if x < WORLD_X / 2 { WORLD_X / 2 - x } else { x - WORLD_X / 2 };
        let dz = if z < WORLD_Z / 2 { WORLD_Z / 2 - z } else { z - WORLD_Z / 2 };
        if dx < dz { dz } else { dx }
    }

    /// Find where to arrive: the nearest grass column to the map centre whose
    /// surface sits above the waterline, searching outward ring by ring, and
    /// within a ring row by row from the north, each row from the west.
    /// Returns the column and its surface height, or `None` when no column
    /// within half the map's width qualifies.
    pub fn spawn_column(&self) -> (r: Option<(i32, i32, i32)>)
        requires
            self.wf(),
        ensures
            r matches Some((x, sy, z)) ==> {
                &&& sy == self.surface(x as int, z as int)
                &&& self.spawnable(x as int, z as int)
                &&& World::ring(x as int, z as int) < WORLD_X / 2
                &&& forall|a: int, c: int|
                    World::ring(a, c) < World::ring(x as int, z as int) || (World::ring(a, c) == World::ring(
                        x as int,
                        z as int,
                    ) && (c < z || (c == z && a < x))) ==> !#[trigger] self.spawnable(a, c)
            },
            r is None ==> forall|a: int, c: int|
                World::ring(a, c) < WORLD_X / 2 ==> !#[trigger] self.spawnable(a, c),
    {
        let cx = WORLD_X / 2;
        let cz = WORLD_Z / 2;
        let mut r: i32 = 0;
        while r < WORLD_X / 2
            invariant
                cx == WORLD_X / 2,
                cz == WORLD_Z / 2,
                0 <= r <= WORLD_X / 2,
                self.wf(),
                forall|a: int, c: int| World::ring(a, c) < r ==> !#[trigger] self.spawnable(a, c),
            decreases WORLD_X / 2 - r,
        {
            let mut dz = -r;
            while dz <= r
                invariant
                    cx == WORLD_X / 2,
                    cz == WORLD_Z / 2,
                    0 <= r < WORLD_X / 2,
                    -r <= dz <= r + 1,
                    self.wf(),
                    forall|a: int, c: int|
                        World::ring(a, c) < r || (World::ring(a, c) == r && c - cz < dz) ==> !#[trigger] self.spawnable(a, c),
                decreases r + 1 - dz,
            {
                let mut dx = -r;
                while dx <= r
                    invariant
                        cx == WORLD_X / 2,
                        cz == WORLD_Z / 2,
                        0 <= r < WORLD_X / 2,
                        -r <= dz <= r,
                        -r <= dx <= r + 1,
                        self.wf(),
                        forall|a: int, c: int|
                            World::ring(a, c) < r || (World::ring(a, c) == r && (c - cz < dz || (c - cz == dz && a - cx < dx)))
                                ==> !#[trigger] self.spawnable(a, c),
                    decreases r + 1 - dx,
                {
                    // Only the outer ring at this radius.
                    if dx == r || dx == -r || dz == r || dz == -r {
                        let (x, z) = (cx + dx, cz + dz);
                        let sy = self.surface_y(x, z);
                        if sy > SEA_LEVEL && self.get(x, sy, z) == Block::Grass {
                            return Some((x, sy, z));
                        }
                    }
                    dx = dx + 1;
                }
                dz = dz + 1;
            }
            r = r + 1;
        }
        None
    }

    /// The id of every cell, in the order of the backing array.
    pub closed spec fn id_seq(&self) -> Seq<u8> {
        Seq::new(WORLD_CELLS as nat, |i: int| self.blocks@[i].to_id())
    }

    /// `bytes` is a save of this world: the header, then a run-length body
    /// that expands to the id of every cell in order.
    pub open spec fn is_save_of(&self, bytes: Seq<u8>) -> bool {
        &&& bytes.len() >= 16
        &&& bytes.subrange(0, 16) == save_header()
        &&& (bytes.len() - 16) % 3 == 0
        &&& rle_expand(bytes.subrange(16, bytes.len() as int)) == self.id_seq()
    }

    /// The run-length body of a save.
    pub open spec fn save_body(bytes: Seq<u8>) -> Seq<u8> {
        bytes.subrange(16, bytes.len() as int)
    }

    /// Whether `bytes` loads: it carries the header, whole pairs, and exactly
    /// one block for every cell of the grid.
    pub open spec fn save_valid(bytes: Seq<u8>) -> bool {
        &&& bytes.len() >= 16
        &&& bytes.subrange(0, 16) == save_header()
        &&& (bytes.len() - 16) % 3 == 0
        &&& rle_expand(World::save_body(bytes)).len() == WORLD_CELLS
    }

    /// `w` is what `bytes` loads as: each cell holds the block its id names,
    /// and every water block is a full source.
    pub open spec fn loads_as(bytes: Seq<u8>, w: World) -> bool {
        &&& w.wf()
        &&& forall|x: int, y: int, z: int|
            in_world(x, y, z) ==> #[trigger] w.block_at(x, y, z) == Block::from_id(
                rle_expand(World::save_body(bytes))[cell_index(x, y, z)],
            ) && w.level_at(x, y, z) == placed_level(w.block_at(x, y, z))
    }

    /// Serialise the world: the header, then the blocks in array order,
    /// run-length encoded one maximal run at a time.
    pub fn encode(&self) -> (bytes: Vec<u8>)
        requires
            self.wf(),
        ensures
            self.is_save_of(bytes@),
            bytes@ == save_header() + runs_bytes(runs_of(self.id_seq())),
            rle_expand(World::save_body(bytes@)).len() == WORLD_CELLS,
            forall|x: int, y: int, z: int|
                in_world(x, y, z) ==> #[trigger] rle_expand(World::save_body(bytes@))[cell_index(x, y, z)] == self.block_at(
                    x,
                    y,
                    z,
                ).spec_to_id(),
    {
        let mut buf: Vec<u8> = Vec::new();
        let header: [u8; 16] = [86, 79, 88, 50, 0, 3, 0, 0, 128, 0, 0, 0, 0, 3, 0, 0];
        let mut k: usize = 0;
        while k < 16
            invariant
                0 <= k <= 16,
                buf@.len() == k,
                forall|j: int| 0 <= j < k ==> buf@[j] == header@[j],
                header@ == save_header(),
            decreases 16 - k,
        {
            buf.push(header[k]);
            k = k + 1;
        }
        proof {
            assert(buf@ =~= save_header());
            assert(buf@.subrange(16, 16) =~= Seq::<u8>::empty());
        }
        let mut run_id: u8 = self.blocks[0].to_id();
        let mut run_len: u32 = 0;
        let mut i: usize = 0;
        while i < self.blocks.len()
            invariant
                self.wf(),
                0 <= i <= WORLD_CELLS,
                run_len <= i,
                buf@.len() >= 16,
                buf@.len() % 3 == 1,
                buf@.subrange(0, 16) == save_header(),
                rle_expand(buf@.subrange(16, buf@.len() as int)) + Seq::new(run_len as nat, |j: int| run_id)
                    =~= self.id_seq().subrange(0, i as int),
                i == 0 ==> run_len == 0 && buf@ == save_header() && run_id == self.id_seq()[0],
                i > 0 ==> {
                    let r = runs_of(self.id_seq().subrange(0, i as int));
                    &&& r.len() > 0
                    &&& r.last() == (run_id, run_len as nat)
                    &&& buf@ == save_header() + runs_bytes(r.drop_last())
                },
            decreases WORLD_CELLS - i,
        {
            let id = self.blocks[i].to_id();
            let ghost prefix = self.id_seq().subrange(0, i as int);
            let ghost r = runs_of(prefix);
            proof {
                assert(self.id_seq().subrange(0, i + 1).drop_last() =~= prefix);
                assert(self.id_seq().subrange(0, i + 1).last() == id);
            }
            if id == run_id {
                run_len = run_len + 1;
                proof {
                    assert(self.id_seq().subrange(0, i + 1) =~= self.id_seq().subrange(0, i as int).push(id));
                    if i == 0 {
                        assert(prefix =~= Seq::<u8>::empty());
                        assert(runs_of(self.id_seq().subrange(0, 1)) == Seq::<(u8, nat)>::empty().push((id, 1nat)));
                        assert(Seq::<(u8, nat)>::empty().push((id, 1nat)).drop_last() =~= Seq::<(u8, nat)>::empty());
                    } else {
                        let r2 = runs_of(self.id_seq().subrange(0, i + 1));
                        assert(r2 == r.update(r.len() - 1, (id, r.last().1 + 1)));
                        assert(r2.drop_last() =~= r.drop_last());
                    }
                }
            } else {
                let ghost before = buf@;
                push_run(&mut buf, run_id, run_len);
                proof {
                    assert(buf@.subrange(0, 16) =~= before.subrange(0, 16));
                    assert(self.id_seq().subrange(0, i + 1) =~= self.id_seq().subrange(0, i as int).push(id));
                    assert(Seq::new(1nat, |j: int| id) =~= Seq::<u8>::empty().push(id));
                    assert(i > 0);
                    let r2 = runs_of(self.id_seq().subrange(0, i + 1));
                    assert(r2 == r.push((id, 1nat)));
                    assert(r2.drop_last() =~= r);
                    assert(r.drop_last().push(r.last()) =~= r);
                    assert(runs_bytes(r) == runs_bytes(r.drop_last()) + crate::save::run_pairs(run_len as nat, run_id));
                    assert(buf@ =~= save_header() + runs_bytes(r2.drop_last()));
                }
                run_id = id;
                run_len = 1;
            }
            i = i + 1;
        }
        let ghost before = buf@;
        push_run(&mut buf, run_id, run_len);
        proof {
            assert(buf@.subrange(0, 16) =~= before.subrange(0, 16));
            assert(self.id_seq().subrange(0, WORLD_CELLS as int) =~= self.id_seq());
            let r = runs_of(self.id_seq());
            assert(runs_bytes(r) == runs_bytes(r.drop_last()) + crate::save::run_pairs(run_len as nat, run_id));
            assert(buf@ =~= save_header() + runs_bytes(r));
            assert forall|x: int, y: int, z: int|
                in_world(x, y, z) implies #[trigger] rle_expand(World::save_body(buf@))[cell_index(x, y, z)] == self.block_at(x, y, z).spec_to_id() by {
                lemma_cell_index(x, y, z, x, y, z);
            }
        }
        buf
    }

    /// Load a world from the bytes of a save. Returns `None` unless they carry
    /// the header, whole pairs, and exactly one block for every cell — a
    /// truncated or overlong save is refused, and a corrupt run cannot make
    /// this allocate past the size of the world. Every water block loads as a
    /// full source.
    pub fn decode(data: &[u8]) -> (r: Option<World>)
        ensures
            r is Some <==> World::save_valid(data@),
            r matches Some(w) ==> World::loads_as(data@, w),
    {
        if data.len() < 16 {
            return None;
        }
        let header: [u8; 16] = [86, 79, 88, 50, 0, 3, 0, 0, 128, 0, 0, 0, 0, 3, 0, 0];
        let mut k: usize = 0;
        while k < 16
            invariant
                0 <= k <= 16,
                data@.len() >= 16,
                header@ == save_header(),
                forall|j: int| 0 <= j < k ==> data@[j] == header@[j],
            decreases 16 - k,
        {
            if data[k] != header[k] {
                proof {
                    assert(data@.subrange(0, 16)[k as int] != save_header()[k as int]);
                }
                return None;
            }
            k = k + 1;
        }
        proof {
            assert(data@.subrange(0, 16) =~= save_header());
        }
        let body_len = data.len() - 16;
        if body_len % 3 != 0 {
            return None;
        }
        let ghost body = World::save_body(data@);
        let mut blocks: Vec<Block> = Vec::new();
        let mut p: usize = 0;
        while p < body_len / 3
            invariant
                data@.len() >= 16,
                data@.subrange(0, 16) == save_header(),
                body_len == data@.len() - 16,
                body_len + 16 == data.len(),
                body_len % 3 == 0,
                body == World::save_body(data@),
                0 <= p <= body_len / 3,
                blocks@.len() <= WORLD_CELLS,
                blocks@ =~= rle_expand(body.subrange(0, 3 * p)).map_values(|id: u8| Block::from_id(id)),
            decreases body_len / 3 - p,
        {
            proof {
                assert(3 * p + 3 <= body_len) by (nonlinear_arith)
                    requires
                        p < body_len / 3,
                        body_len % 3 == 0,
                ;
            }
            let at = 16 + 3 * p;
            let n: usize = data[at] as usize + 256 * (data[at + 1] as usize);
            let id = data[at + 2];
            let ghost pair = body.subrange(3 * p, 3 * p + 3);
            proof {
                assert(pair =~= pair_bytes(run_length(pair), id));
                assert(run_length(pair) == n);
                lemma_rle_append(body.subrange(0, 3 * p), pair);
                assert(body.subrange(0, 3 * p) + pair =~= body.subrange(0, 3 * p + 3));
                lemma_rle_pair(n as nat, id);
            }
            if blocks.len() + n > WORLD_CELLS {
                proof {
                    lemma_rle_append(body.subrange(0, 3 * p + 3), body.subrange(3 * p + 3, body.len() as int));
                    assert(body.subrange(0, 3 * p + 3) + body.subrange(3 * p + 3, body.len() as int) =~= body);
                }
                return None;
            }
            let b = Block::from_id(id);
            let mut j: usize = 0;
            let ghost start = blocks@;
            while j < n
                invariant
                    0 <= j <= n,
                    start.len() + n <= WORLD_CELLS,
                    blocks@ =~= start + Seq::new(j as nat, |q: int| b),
                decreases n - j,
            {
                blocks.push(b);
                j = j + 1;
            }
            proof {
                assert(rle_expand(body.subrange(0, 3 * p + 3)).map_values(|id: u8| Block::from_id(id))
                    =~= rle_expand(body.subrange(0, 3 * p)).map_values(|id: u8| Block::from_id(id)) + Seq::new(n as nat, |q: int| b));
            }
            p = p + 1;
        }
        proof {
            assert(body.subrange(0, 3 * p) =~= body);
        }
        if blocks.len() != WORLD_CELLS {
            return None;
        }
        // Treat all saved water as full source blocks.
        let mut levels: Vec<u8> = Vec::new();
        let mut i: usize = 0;
        while i < blocks.len()
            invariant
                blocks@.len() == WORLD_CELLS,
                0 <= i <= WORLD_CELLS,
                levels@.len() == i,
                forall|j: int| 0 <= j < i ==> #[trigger] levels@[j] == placed_level(blocks@[j]),
            decreases WORLD_CELLS - i,
        {
            let level = if blocks[i] == Block::Water {
                WATER_SOURCE
            } else {
                0
            };
            levels.push(level);
            i = i + 1;
        }
        let w = World { blocks, levels };
        proof {
            assert forall|x: int, y: int, z: int|
                in_world(x, y, z) implies #[trigger] w.block_at(x, y, z) == Block::from_id(
                    rle_expand(World::save_body(data@))[cell_index(x, y, z)],
                ) && w.level_at(x, y, z) == placed_level(w.block_at(x, y, z)) by {
                lemma_cell_index(x, y, z, x, y, z);
            }
        }
        Some(w)
    }

    /// A save reads back as the world it was made from: for every well-formed
    /// world, the bytes of its save load, and load as a world holding the same
    /// block in every cell, each water block a full source.
    pub proof fn lemma_save_round_trip(w: World, bytes: Seq<u8>, back: World)
        requires
            w.wf(),
            w.is_save_of(bytes),
        ensures
            World::save_valid(bytes),
            World::loads_as(bytes, back) ==> forall|x: int, y: int, z: int|
                #[trigger] back.block_at(x, y, z) == w.block_at(x, y, z) && back.level_at(x, y, z)
                    == placed_level(w.block_at(x, y, z)),
    {
        if World::loads_as(bytes, back) {
            assert forall|x: int, y: int, z: int|
                #[trigger] back.block_at(x, y, z) == w.block_at(x, y, z) && back.level_at(x, y, z)
                    == placed_level(w.block_at(x, y, z)) by {
                if in_world(x, y, z) {
                    lemma_cell_index(x, y, z, x, y, z);
                    crate::block::lemma_id_round_trip(w.blocks@[cell_index(x, y, z)]);
                } else {
                    back.lemma_cell(x, y, z);
                    w.lemma_cell(x, y, z);
                }
            }
        }
    }

    /// After one array slot is written, every other coordinate reads as
    /// before.
    proof fn lemma_write(&self, before: &World, x: int, y: int, z: int, bv: Block, lv: u8)
        requires
            in_world(x, y, z),
            before.blocks@.len() == WORLD_CELLS,
            before.levels@.len() == WORLD_CELLS,
            self.blocks@ == before.blocks@.update(cell_index(x, y, z), bv),
            self.levels@ == before.levels@.update(cell_index(x, y, z), lv),
        ensures
            forall|a: int, b: int, c: int|
                !(a == x && b == y && c == z) ==> #[trigger] self.block_at(a, b, c)
                    == before.block_at(a, b, c) && self.level_at(a, b, c) == before.level_at(a, b, c),
    {
        assert forall|a: int, b: int, c: int|
            !(a == x && b == y && c == z) implies #[trigger] self.block_at(a, b, c)
                == before.block_at(a, b, c) && self.level_at(a, b, c) == before.level_at(a, b, c) by {
            if in_world(a, b, c) {
                lemma_cell_index(a, b, c, x, y, z);
                lemma_cell_index(x, y, z, x, y, z);
                let i = cell_index(x, y, z);
                let j = cell_index(a, b, c);
                assert(j != i);
                assert(self.blocks@[j] == before.blocks@[j]);
                assert(self.levels@[j] == before.levels@[j]);
            }
        }
    }
}

} // verus!
