//! The block texture atlas's layout: which tile each block shows on each face.
//! The tiles themselves are painted in floating point beside the renderer.

use vstd::prelude::*;
use crate::block::Block;

verus! {

/// Pixels along each side of a tile.
pub const TILE: usize = 16;
/// Tiles per atlas row, and rows.
pub const COLS: usize = 4;
pub const ROWS: usize = 6;
/// How many tiles the atlas holds.
pub const NUM_TILES: u32 = 22;

// Tile indices within the atlas.
pub const T_GRASS_TOP: u32 = 0;
pub const T_GRASS_SIDE: u32 = 1;
pub const T_DIRT: u32 = 2;
pub const T_STONE: u32 = 3;
pub const T_SAND: u32 = 4;
pub const T_WATER: u32 = 5;
pub const T_WOOD_TOP: u32 = 6;
pub const T_WOOD_SIDE: u32 = 7;
pub const T_LEAVES: u32 = 8;
// Plant tiles, drawn on cross-shaped quads.
pub const T_TALL_GRASS: u32 = 9;
pub const T_FLOWER_RED: u32 = 10;
pub const T_FLOWER_YELLOW: u32 = 11;
// Hanok building materials.
pub const T_ROOF_TILE: u32 = 12;
pub const T_PLASTER: u32 = 13;
pub const T_PAPER: u32 = 14;
// Palace materials.
pub const T_DANCHEONG: u32 = 15;
pub const T_RED_PILLAR: u32 = 16;
pub const T_ROOF_RIDGE: u32 = 17;
pub const T_GRANITE: u32 = 18;
// Village materials.
pub const T_THATCH: u32 = 19;
pub const T_CLAY_WALL: u32 = 20;
pub const T_ROAD: u32 = 21;

/// The grain hash the tiles are painted with, as a value in thousandths:
/// each coordinate is multiplied by its own large odd constant, the sum
/// avalanched, so neighbouring pixels decorrelate.
pub open spec fn spec_texel_hash(x: i32, y: i32) -> u32 {
    let h0 = (x as u32).wrapping_mul(374761393u32).wrapping_add((y as u32).wrapping_mul(668265263u32));
    let h1 = (h0 ^ (h0 >> 13u32)).wrapping_mul(1274126177u32);
    let h2 = h1 ^ (h1 >> 16u32);
    h2 % 1000
}

/// Deterministic grain hash of a texel, in thousandths: the painter scales it
/// to `[0, 1)`.
pub fn texel_hash(x: i32, y: i32) -> (r: u32)
    ensures
        r == spec_texel_hash(x, y),
        r < 1000,
{
    let mut h: u32 = (x as u32).wrapping_mul(374761393).wrapping_add((y as u32).wrapping_mul(668265263));
    h = (h ^ (h >> 13)).wrapping_mul(1274126177);
    h = h ^ (h >> 16);
    h % 1000
}

/// Where a tile sits in the atlas: its column and its row.
pub fn atlas_cell(tile: u32) -> (cell: (usize, usize))
    ensures
        cell.0 == tile as int % COLS as int,
        cell.1 == tile as int / COLS as int,
{
    ((tile as usize) % COLS, (tile as usize) / COLS)
}

/// What [`block_tile`] returns, for contracts.
pub open spec fn tile_of(block: Block, face: int) -> u32 {
    let top = face == 3;
    let bottom = face == 2;
    match block {
        Block::Air => 0,
        Block::Grass => if top { T_GRASS_TOP } else if bottom { T_DIRT } else { T_GRASS_SIDE },
        Block::Dirt => T_DIRT,
        Block::Stone => T_STONE,
        Block::Sand => T_SAND,
        Block::Water => T_WATER,
        Block::Wood => if top || bottom { T_WOOD_TOP } else { T_WOOD_SIDE },
        Block::Leaves => T_LEAVES,
        Block::TallGrass => T_TALL_GRASS,
        Block::RedFlower => T_FLOWER_RED,
        Block::YellowFlower => T_FLOWER_YELLOW,
        Block::RoofTile => T_ROOF_TILE,
        Block::Plaster => T_PLASTER,
        Block::Paper => T_PAPER,
        Block::Dancheong => T_DANCHEONG,
        Block::RedPillar => T_RED_PILLAR,
        Block::RoofRidge => T_ROOF_RIDGE,
        Block::Granite => T_GRANITE,
        Block::Thatch => T_THATCH,
        Block::ClayWall => T_CLAY_WALL,
        Block::Road => T_ROAD,
        Block::Signpost => T_WOOD_SIDE,
    }
}

/// Whether the tile `b1` shows on face `f1` is, by design, the same picture
/// as `b2` shows on `f2`: a grass block's underside is bare earth, so it shows
/// the dirt tile; a name board is timber, so it shows the log's bark.
pub open spec fn same_material(b1: Block, f1: int, b2: Block, f2: int) -> bool {
    ||| (b1 is Grass && f1 == 2 && b2 is Dirt)
    ||| (b2 is Grass && f2 == 2 && b1 is Dirt)
    ||| (b1 is Wood && f1 != 2 && f1 != 3 && b2 is Signpost)
    ||| (b2 is Wood && f2 != 2 && f2 != 3 && b1 is Signpost)
}

/// Every block shows its own material: two different blocks never share a
/// tile on any faces, but for the grass underside and the board's bark
/// (see [`same_material`]). So sand, dirt, stone, plaster and the rest can
/// always be told apart on screen.
pub proof fn lemma_tiles_tell_blocks_apart(b1: Block, f1: int, b2: Block, f2: int)
    requires
        0 <= f1 < 6,
        0 <= f2 < 6,
        b1 != b2,
        !(b1 is Air),
        !(b2 is Air),
        !same_material(b1, f1, b2, f2),
    ensures
        tile_of(b1, f1) != tile_of(b2, f2),
{
}

/// A block made of one material shows the same tile on every face; only
/// grass (turf on top, earth below, an edge on the sides) and logs (rings at
/// the ends, bark round the sides) differ by face.
pub proof fn lemma_one_material_one_tile(b: Block, f1: int, f2: int)
    requires
        !(b is Grass),
        !(b is Wood),
    ensures
        tile_of(b, f1) == tile_of(b, f2),
{
}

/// Every tile a block shows is in the atlas.
pub proof fn lemma_tiles_in_atlas(b: Block, f: int)
    ensures
        tile_of(b, f) < NUM_TILES,
{
}

/// Which atlas tile a block shows on a face. `face` follows the mesh order:
/// 0 = -X, 1 = +X, 2 = -Y (bottom), 3 = +Y (top), 4 = -Z, 5 = +Z. Grass is
/// green on top, earth underneath and turf-edged on the sides; a log shows
/// its rings top and bottom and bark round the sides; plants show the same
/// tile whichever way they are seen.
pub fn block_tile(block: Block, face: usize) -> (t: u32)
    ensures
        t == tile_of(block, face as int),
        t < NUM_TILES,
{
    let top = face == 3;
    let bottom = face == 2;
    match block {
        Block::Air => 0,
        Block::Grass => {
            if top {
                T_GRASS_TOP
            } else if bottom {
                T_DIRT
            } else {
                T_GRASS_SIDE
            }
        },
        Block::Dirt => T_DIRT,
        Block::Stone => T_STONE,
        Block::Sand => T_SAND,
        Block::Water => T_WATER,
        Block::Wood => {
            if top || bottom {
                T_WOOD_TOP
            } else {
                T_WOOD_SIDE
            }
        },
        Block::Leaves => T_LEAVES,
        Block::TallGrass => T_TALL_GRASS,
        Block::RedFlower => T_FLOWER_RED,
        Block::YellowFlower => T_FLOWER_YELLOW,
        Block::RoofTile => T_ROOF_TILE,
        Block::Plaster => T_PLASTER,
        Block::Paper => T_PAPER,
        Block::Dancheong => T_DANCHEONG,
        Block::RedPillar => T_RED_PILLAR,
        Block::RoofRidge => T_ROOF_RIDGE,
        Block::Granite => T_GRANITE,
        Block::Thatch => T_THATCH,
        Block::ClayWall => T_CLAY_WALL,
        Block::Road => T_ROAD,
        Block::Signpost => T_WOOD_SIDE,
    }
}

} // verus!
