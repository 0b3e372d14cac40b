//! Block type definitions and their basic properties.

use vstd::prelude::*;

verus! {

/// A single voxel type. `Air` is empty space (not rendered).
#[derive(Clone, Copy, PartialEq, Eq, Hash, Debug, Structural)]
pub enum Block {
    Air,
    Grass,
    Dirt,
    Stone,
    Sand,
    Water,
    Wood,
    Leaves,
    TallGrass,
    RedFlower,
    YellowFlower,
    /// The dark clay roof tile of a hanok.
    RoofTile,
    /// The pale lime-plaster infill between a hanok's timber posts.
    Plaster,
    /// A paper-and-lattice door panel.
    Paper,
    /// The polychrome painted band on palace beams.
    Dancheong,
    /// The vermilion-lacquered column of a palace hall.
    RedPillar,
    /// The white lime-plastered ridge line that caps a palace roof.
    RoofRidge,
    /// Dressed granite ashlar, for terraces and palace walls.
    Granite,
    /// The straw thatch of a commoner's house.
    Thatch,
    /// A mud-and-straw wall.
    ClayWall,
    /// The beaten-earth surface of a street.
    Road,
    /// A board on a post, standing in front of a building.
    Signpost,
}

impl Block {
    /// What [`Block::is_solid`] returns, for contracts.
    pub open spec fn spec_is_solid(self) -> bool {
        !(self is Air)
    }

    /// Whether this block is solid for meshing/raycasting (culls faces, stops
    /// rays). Water counts as solid here so hidden underwater faces are not
    /// drawn.
    #[verifier::when_used_as_spec(spec_is_solid)]
    pub fn is_solid(self) -> (r: bool)
        ensures
            r == self.spec_is_solid(),
    {
        !matches!(self, Block::Air)
    }

    /// What [`Block::is_plant`] returns, for contracts.
    pub open spec fn spec_is_plant(self) -> bool {
        self is TallGrass || self is RedFlower || self is YellowFlower
    }

    /// Whether this is a flat cross-shaped decoration (grass tuft, flower)
    /// rather than a cube.
    #[verifier::when_used_as_spec(spec_is_plant)]
    pub fn is_plant(self) -> (r: bool)
        ensures
            r == self.spec_is_plant(),
    {
        matches!(self, Block::TallGrass | Block::RedFlower | Block::YellowFlower)
    }

    /// What [`Block::blocks_movement`] returns, for contracts.
    pub open spec fn spec_blocks_movement(self) -> bool {
        !(self is Air) && !(self is Water) && !self.is_plant()
    }

    /// Whether this block stops the player. Water is passable, and plants are
    /// decoration you walk straight through.
    #[verifier::when_used_as_spec(spec_blocks_movement)]
    pub fn blocks_movement(self) -> (r: bool)
        ensures
            r == self.spec_blocks_movement(),
    {
        !matches!(self, Block::Air | Block::Water) && !self.is_plant()
    }

    /// What [`Block::supports_plants`] returns, for contracts.
    pub open spec fn spec_supports_plants(self) -> bool {
        self is Grass || self is Dirt || self is Sand
    }

    /// Whether a plant can root on top of this block.
    #[verifier::when_used_as_spec(spec_supports_plants)]
    pub fn supports_plants(self) -> (r: bool)
        ensures
            r == self.spec_supports_plants(),
    {
        matches!(self, Block::Grass | Block::Dirt | Block::Sand)
    }

    /// What [`Block::to_id`] returns, for contracts.
    pub open spec fn spec_to_id(self) -> u8 {
        match self {
            Block::Air => 0u8,
            Block::Grass => 1u8,
            Block::Dirt => 2u8,
            Block::Stone => 3u8,
            Block::Sand => 4u8,
            Block::Water => 5u8,
            Block::Wood => 6u8,
            Block::Leaves => 7u8,
            Block::TallGrass => 8u8,
            Block::RedFlower => 9u8,
            Block::YellowFlower => 10u8,
            Block::RoofTile => 11u8,
            Block::Plaster => 12u8,
            Block::Paper => 13u8,
            Block::Dancheong => 14u8,
            Block::RedPillar => 15u8,
            Block::RoofRidge => 16u8,
            Block::Granite => 17u8,
            Block::Thatch => 18u8,
            Block::ClayWall => 19u8,
            Block::Road => 20u8,
            Block::Signpost => 21u8,
        }
    }

    /// Stable numeric id for saving to disk.
    #[verifier::when_used_as_spec(spec_to_id)]
    pub fn to_id(self) -> (r: u8)
        ensures
            r == self.spec_to_id(),
    {
        match self {
            Block::Air => 0,
            Block::Grass => 1,
            Block::Dirt => 2,
            Block::Stone => 3,
            Block::Sand => 4,
            Block::Water => 5,
            Block::Wood => 6,
            Block::Leaves => 7,
            Block::TallGrass => 8,
            Block::RedFlower => 9,
            Block::YellowFlower => 10,
            Block::RoofTile => 11,
            Block::Plaster => 12,
            Block::Paper => 13,
            Block::Dancheong => 14,
            Block::RedPillar => 15,
            Block::RoofRidge => 16,
            Block::Granite => 17,
            Block::Thatch => 18,
            Block::ClayWall => 19,
            Block::Road => 20,
            Block::Signpost => 21,
        }
    }

    /// What [`Block::from_id`] returns, for contracts.
    pub open spec fn spec_from_id(id: u8) -> Block {
        match id {
            1 => Block::Grass,
            2 => Block::Dirt,
            3 => Block::Stone,
            4 => Block::Sand,
            5 => Block::Water,
            6 => Block::Wood,
            7 => Block::Leaves,
            8 => Block::TallGrass,
            9 => Block::RedFlower,
            10 => Block::YellowFlower,
            11 => Block::RoofTile,
            12 => Block::Plaster,
            13 => Block::Paper,
            14 => Block::Dancheong,
            15 => Block::RedPillar,
            16 => Block::RoofRidge,
            17 => Block::Granite,
            18 => Block::Thatch,
            19 => Block::ClayWall,
            20 => Block::Road,
            21 => Block::Signpost,
            _ => Block::Air,
        }
    }

    /// Inverse of [`Block::to_id`]; unknown ids read as `Air`.
    #[verifier::when_used_as_spec(spec_from_id)]
    pub fn from_id(id: u8) -> (r: Block)
        ensures
            r == Block::spec_from_id(id),
    {
        match id {
            1 => Block::Grass,
            2 => Block::Dirt,
            3 => Block::Stone,
            4 => Block::Sand,
            5 => Block::Water,
            6 => Block::Wood,
            7 => Block::Leaves,
            8 => Block::TallGrass,
            9 => Block::RedFlower,
            10 => Block::YellowFlower,
            11 => Block::RoofTile,
            12 => Block::Plaster,
            13 => Block::Paper,
            14 => Block::Dancheong,
            15 => Block::RedPillar,
            16 => Block::RoofRidge,
            17 => Block::Granite,
            18 => Block::Thatch,
            19 => Block::ClayWall,
            20 => Block::Road,
            21 => Block::Signpost,
            _ => Block::Air,
        }
    }
}

/// What [`is_opaque`] returns, for contracts.
pub open spec fn opaque(block: Block) -> bool {
    block.is_solid() && !(block is Water)
}

/// Whether a block hides what is behind it when meshing: solid and not water.
/// Water is solid for culling but see-through, so the faces behind it are
/// still drawn.
pub fn is_opaque(block: Block) -> (r: bool)
    ensures
        r == opaque(block),
{
    block.is_solid() && block != Block::Water
}

/// Reading back an id gives back the block it was written for: `from_id` undoes
/// `to_id` for every block.
pub proof fn lemma_id_round_trip(b: Block)
    ensures
        Block::from_id(b.to_id()) == b,
        b.to_id() <= 21,
{
}

/// Every id in use names exactly one block, and ids past the last block read as
/// `Air`: `to_id` undoes `from_id` on the ids `0..=21`, and every other id
/// decodes to `Air`.
pub proof fn lemma_id_decode(id: u8)
    ensures
        id <= 21 ==> Block::from_id(id).to_id() == id,
        id > 21 ==> Block::from_id(id) == Block::Air,
{
}

} // verus!
