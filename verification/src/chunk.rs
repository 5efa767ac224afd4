use vstd::prelude::*;
use crate::block::Block;
use crate::coords::{local_index, local_xyz_to_index, lemma_index_then_xyz};

verus! {

/// The block that generated terrain holds at height `abs_y`: stone below
/// 30, then four layers of dirt, one layer of grass, and air above.
pub open spec fn terrain_block(abs_y: int) -> Block {
    if abs_y < 30 {
        Block::Stone
    } else if abs_y < 34 {
        Block::Dirt
    } else if abs_y < 35 {
        Block::Grass
    } else {
        Block::Air
    }
}

/// A column of 16 x 256 x 16 blocks, stored as 16 slices of 4096 blocks
/// each, at the chunk coordinates `position`.
pub struct Chunk {
    pub grid: Vec<Vec<Block>>,
    pub position: (i32, i32),
}

impl Chunk {
    /// The grid has 16 slices of 4096 blocks.
    pub open spec fn wf(&self) -> bool {
        &&& self.grid@.len() == 16
        &&& forall|s: int| 0 <= s < 16 ==> #[trigger] self.grid@[s]@.len() == 4096
    }

    /// The block at position `i` of slice `s`.
    pub open spec fn slice_block(&self, s: int, i: int) -> Block {
        self.grid@[s]@[i]
    }

    /// The block at local coordinates `(x, y, z)`, `y` counted from the
    /// bottom of the chunk.
    pub open spec fn block(&self, x: int, y: int, z: int) -> Block {
        self.slice_block(y / 16, local_index(x, y % 16, z))
    }

    /// Coordinates at which `get_block_local` can read a block.
    pub open spec fn readable(x: int, y: int, z: int) -> bool {
        &&& 0 <= y < 256
        &&& local_index(x, y % 16, z) < 4096
    }

    /// The chunk at `position` filled with generated terrain.
    pub fn generate_terrain(position: (i32, i32)) -> (chunk: Chunk)
        ensures
            chunk.wf(),
            chunk.position == position,
            forall|s: int, i: int|
                0 <= s < 16 && 0 <= i < 4096 ==> #[trigger] chunk.slice_block(s, i)
                    == terrain_block(s * 16 + i / 256),
    {
        let mut grid: Vec<Vec<Block>> = Vec::new();
        let mut y_slice: i32 = 0;
        while y_slice < 16
            invariant
                0 <= y_slice <= 16,
                grid@.len() == y_slice,
                forall|s: int| 0 <= s < y_slice ==> #[trigger] grid@[s]@.len() == 4096,
                forall|s: int, i: int|
                    0 <= s < y_slice && 0 <= i < 4096 ==> #[trigger] grid@[s]@[i] == terrain_block(
                        s * 16 + i / 256,
                    ),
            decreases 16 - y_slice,
        {
            let mut blocks: Vec<Block> = Vec::new();
            let mut i: usize = 0;
            while i < 4096
                invariant
                    0 <= i <= 4096,
                    0 <= y_slice < 16,
                    blocks@.len() == i,
                    forall|j: int|
                        0 <= j < i ==> #[trigger] blocks@[j] == terrain_block(
                            y_slice * 16 + j / 256,
                        ),
                decreases 4096 - i,
            {
                let abs_y: i32 = y_slice * 16 + (i / 256) as i32;
                let block = if abs_y < 30 {
                    Block::Stone
                } else if abs_y < 34 {
                    Block::Dirt
                } else if abs_y < 35 {
                    Block::Grass
                } else {
                    Block::Air
                };
                blocks.push(block);
                i = i + 1;
            }
            grid.push(blocks);
            y_slice = y_slice + 1;
        }
        Chunk { grid, position }
    }

    /// The block at local coordinates `(x, y, z)`.
    pub fn get_block_local(&self, x: u32, y: u32, z: u32) -> (block: &Block)
        requires
            self.wf(),
            Chunk::readable(x as int, y as int, z as int),
        ensures
            *block == self.block(x as int, y as int, z as int),
    {
        let index = local_xyz_to_index(x, y % 16, z);
        &self.grid[(y / 16) as usize][index as usize]
    }
}

/// In generated terrain every column is the same: the block at local
/// coordinates `(x, y, z)` depends on the height `y` alone.
pub proof fn lemma_generated_block(chunk: Chunk, x: int, y: int, z: int)
    requires
        chunk.wf(),
        forall|s: int, i: int|
            0 <= s < 16 && 0 <= i < 4096 ==> #[trigger] chunk.slice_block(s, i) == terrain_block(
                s * 16 + i / 256,
            ),
        0 <= x < 16,
        0 <= y < 256,
        0 <= z < 16,
    ensures
        chunk.block(x, y, z) == terrain_block(y),
{
    lemma_index_then_xyz(x, y % 16, z);
    let i = local_index(x, y % 16, z);
    assert(chunk.slice_block(y / 16, i) == terrain_block((y / 16) * 16 + i / 256));
    assert((y / 16) * 16 + y % 16 == y);
}

} // verus!
