use vstd::prelude::*;
use crate::texture_bin::TextureBin;

verus! {

/// The kinds of block a chunk is made of.
#[derive(Clone, Copy, Debug, PartialEq, Eq, Structural)]
pub enum Block {
    Air,
    Stone,
    Dirt,
    Grass,
}

/// The six faces of a block, numbered 0 to 5 in this order.
#[derive(Clone, Copy, Debug, PartialEq, Eq, Structural)]
pub enum BlockFace {
    Front,
    Back,
    Right,
    Left,
    Top,
    Bottom,
}

/// The number of a face.
pub open spec fn face_number(face: BlockFace) -> u32 {
    match face {
        BlockFace::Front => 0,
        BlockFace::Back => 1,
        BlockFace::Right => 2,
        BlockFace::Left => 3,
        BlockFace::Top => 4,
        BlockFace::Bottom => 5,
    }
}

/// The face with number `n`, for `n < 6`.
pub open spec fn face_of_number(n: u32) -> BlockFace {
    if n == 0 {
        BlockFace::Front
    } else if n == 1 {
        BlockFace::Back
    } else if n == 2 {
        BlockFace::Right
    } else if n == 3 {
        BlockFace::Left
    } else if n == 4 {
        BlockFace::Top
    } else {
        BlockFace::Bottom
    }
}

impl BlockFace {
    /// The face numbered `value`, which must be below 6.
    pub fn from(value: u32) -> (face: BlockFace)
        requires
            value < 6,
        ensures
            face == face_of_number(value),
    {
        match value {
            0 => BlockFace::Front,
            1 => BlockFace::Back,
            2 => BlockFace::Right,
            3 => BlockFace::Left,
            4 => BlockFace::Top,
            _ => BlockFace::Bottom,
        }
    }

    /// The number of this face.
    pub fn into(self) -> (value: u32)
        ensures
            value == face_number(self),
    {
        match self {
            BlockFace::Front => 0,
            BlockFace::Back => 1,
            BlockFace::Right => 2,
            BlockFace::Left => 3,
            BlockFace::Top => 4,
            BlockFace::Bottom => 5,
        }
    }
}

/// Numbering a face and reading the number back gives the face; reading a
/// number below 6 and numbering the face gives the number.
pub proof fn lemma_face_number_roundtrip(face: BlockFace, n: u32)
    ensures
        face_of_number(face_number(face)) == face,
        face_number(face) < 6,
        n < 6 ==> face_number(face_of_number(n)) == n,
{
}

/// Only air lets light and sight through.
pub open spec fn transparent(block: Block) -> bool {
    block == Block::Air
}

/// Whether `block` is transparent, that is, air.
pub fn is_block_transparent(block: &Block) -> (t: bool)
    ensures
        t == transparent(*block),
{
    match block {
        Block::Air => true,
        _ => false,
    }
}

/// Name of the texture drawn on `face` of a solid block.
pub open spec fn texture_name(block: Block, face: BlockFace) -> Seq<char> {
    match block {
        Block::Stone => "stone"@,
        Block::Dirt => "dirt"@,
        Block::Grass => match face {
            BlockFace::Top => "grass-top"@,
            BlockFace::Bottom => "dirt"@,
            _ => "grass-side"@,
        },
        Block::Air => Seq::empty(),
    }
}

/// Layer of the texture drawn on `face` of the solid `block`; that texture
/// must be registered.
pub fn get_block_texture_index<F>(texture_bin: &TextureBin<F>, block: &Block, face: BlockFace) -> (layer: u32)
    requires
        !transparent(*block),
        texture_bin.layers().contains_key(texture_name(*block, face)),
    ensures
        layer == texture_bin.layers()[texture_name(*block, face)],
{
    match block {
        Block::Stone => texture_bin.get_texture_index_by_name_block("stone"),
        Block::Dirt => texture_bin.get_texture_index_by_name_block("dirt"),
        Block::Grass => match face {
            BlockFace::Top => texture_bin.get_texture_index_by_name_block("grass-top"),
            BlockFace::Bottom => texture_bin.get_texture_index_by_name_block("dirt"),
            _ => texture_bin.get_texture_index_by_name_block("grass-side"),
        },
        Block::Air => 0,
    }
}


/// The textures of the faces of each solid block: stone shows "stone" and
/// dirt shows "dirt" on every face; grass shows "grass-top" on its top,
/// "dirt" on its bottom and "grass-side" on each of its four sides, so all
/// four sides of a block show the same texture.
pub proof fn lemma_face_textures(face: BlockFace, side1: BlockFace, side2: BlockFace)
    requires
        side1 != BlockFace::Top && side1 != BlockFace::Bottom,
        side2 != BlockFace::Top && side2 != BlockFace::Bottom,
    ensures
        texture_name(Block::Stone, face) == "stone"@,
        texture_name(Block::Dirt, face) == "dirt"@,
        texture_name(Block::Grass, BlockFace::Top) == "grass-top"@,
        texture_name(Block::Grass, BlockFace::Bottom) == "dirt"@,
        texture_name(Block::Grass, side1) == "grass-side"@,
        texture_name(Block::Grass, BlockFace::Front) == "grass-side"@,
        texture_name(Block::Grass, BlockFace::Back) == "grass-side"@,
        texture_name(Block::Grass, BlockFace::Right) == "grass-side"@,
        texture_name(Block::Grass, BlockFace::Left) == "grass-side"@,
        forall|b: Block| texture_name(b, side1) == #[trigger] texture_name(b, side2),
{
}

} // verus!
