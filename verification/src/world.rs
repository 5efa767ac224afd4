use vstd::prelude::*;
use std::collections::HashMap;
use crate::chunk::{Chunk, terrain_block};
use crate::coords::{cantor_pair, lemma_chunk_key_injective, xz_to_index, zigzag};
use crate::block::{Block, texture_name, transparent};
use crate::coords::chunk_coords_ok;
use crate::mesher::{
    face_visible, key_of, mesh_slice, mesh_slice_ready, neighbors_readable, slice_block_at,
    slice_mesh,
};
use crate::surface_vertex::SurfaceVertex;
use crate::texture_bin::TextureBin;

verus! {

broadcast use vstd::std_specs::hash::group_hash_axioms;

/// Chunk coordinates of the chunks of a new world: `-3 <= x, z < 3`.
pub open spec fn in_start_area(x: int, z: int) -> bool {
    -3 <= x < 3 && -3 <= z < 3
}

/// `chunk` is the terrain generated at chunk coordinates `(x, z)`.
pub open spec fn generated_at(chunk: Chunk, x: int, z: int) -> bool {
    &&& chunk.wf()
    &&& chunk.position == (x as i32, z as i32)
    &&& forall|s: int, i: int|
        0 <= s < 16 && 0 <= i < 4096 ==> #[trigger] chunk.slice_block(s, i) == terrain_block(
            s * 16 + i / 256,
        )
}

/// The loaded chunks of a world, stored under their chunk keys.
pub struct World {
    pub chunks: HashMap<u32, Chunk>,
}

/// The surface mesh of one slice of one chunk.
pub struct SliceMesh {
    pub chunk_x: i32,
    pub chunk_z: i32,
    pub slice: u32,
    pub vertices: Vec<SurfaceVertex>,
    pub indices: Vec<u32>,
    pub index_count: u32,
}

/// The four block textures that generated terrain shows are registered.
pub open spec fn has_terrain_textures(layers: Map<Seq<char>, u32>) -> bool {
    &&& layers.contains_key("stone"@)
    &&& layers.contains_key("dirt"@)
    &&& layers.contains_key("grass-top"@)
    &&& layers.contains_key("grass-side"@)
}

/// Chunk coordinates and slice of the `n`-th mesh of a new world: chunks
/// by `x`, then `z`, from -3, and the 16 slices of each from the bottom.
pub open spec fn start_mesh_coords(n: int) -> (int, int, int) {
    (n / 96 - 3, (n / 16) % 6 - 3, n % 16)
}

proof fn lemma_start_key_small(x: int, z: int)
    requires
        -4 <= x <= 3,
        -4 <= z <= 3,
    ensures
        cantor_pair(zigzag(x), zigzag(z)) <= 200,
        key_of(x, z) as int == cantor_pair(zigzag(x), zigzag(z)),
{
    let s = zigzag(x) + zigzag(z);
    assert(0 <= s <= 14);
    assert(s * (s + 1) <= 210) by (nonlinear_arith)
        requires
            0 <= s <= 14,
    ;
    assert(s * (s + 1) >= 0) by (nonlinear_arith)
        requires
            0 <= s <= 14,
    ;
}

proof fn lemma_start_coords_ok(x: int, z: int)
    requires
        -4 <= x <= 3,
        -4 <= z <= 3,
    ensures
        chunk_coords_ok(x, z),
{
}

/// The lookups around a solid block of a chunk of a new world succeed:
/// they stay within one chunk of the start area and below the sky.
proof fn lemma_start_neighbors(chunks: Map<u32, Chunk>, x: int, z: int, lx: int, ay: int, lz: int)
    requires
        in_start_area(x, z),
        0 <= lx < 16,
        0 <= lz < 16,
        0 <= ay < 35,
    ensures
        neighbors_readable(chunks, x * 16 + lx, ay, z * 16 + lz),
{
    let ax = x * 16 + lx;
    let az = z * 16 + lz;
    assert(ax / 16 == x);
    assert(az / 16 == z);
    assert((ax + 1) / 16 == x || (ax + 1) / 16 == x + 1);
    assert((ax - 1) / 16 == x || (ax - 1) / 16 == x - 1);
    assert((az + 1) / 16 == z || (az + 1) / 16 == z + 1);
    assert((az - 1) / 16 == z || (az - 1) / 16 == z - 1);
    lemma_start_coords_ok(x, z);
    lemma_start_coords_ok(x + 1, z);
    lemma_start_coords_ok(x - 1, z);
    lemma_start_coords_ok(x, z + 1);
    lemma_start_coords_ok(x, z - 1);
}

proof fn lemma_start_keys_distinct(a: int, b: int, c: int, d: int)
    requires
        -4 <= a <= 3,
        -4 <= b <= 3,
        -4 <= c <= 3,
        -4 <= d <= 3,
        (a, b) != (c, d),
    ensures
        key_of(a, b) != key_of(c, d),
{
    lemma_start_key_small(a, b);
    lemma_start_key_small(c, d);
    if key_of(a, b) == key_of(c, d) {
        lemma_chunk_key_injective(a, b, c, d);
    }
}

/// `mesh` is the mesh that `mesh_slices` puts at position `n`.
pub open spec fn mesh_entry_ok(
    mesh: SliceMesh,
    chunks: Map<u32, Chunk>,
    layers: Map<Seq<char>, u32>,
    n: int,
) -> bool {
    let c = start_mesh_coords(n);
    &&& mesh.chunk_x == c.0
    &&& mesh.chunk_z == c.1
    &&& mesh.slice == c.2
    &&& (mesh.vertices@, mesh.indices@) == slice_mesh(chunks, layers, c.0, c.1, c.2)
    &&& mesh.index_count == mesh.indices@.len()
}

impl World {
    /// The chunks are those of a new world (see `create_new`).
    pub open spec fn is_start_world(&self) -> bool {
        &&& forall|x: int, z: int|
            #![trigger key_of(x, z)]
            in_start_area(x, z) ==> self.chunks@.contains_key(key_of(x, z)) && generated_at(
                self.chunks@[key_of(x, z)],
                x,
                z,
            )
        &&& forall|k: u32|
            #[trigger] self.chunks@.contains_key(k) ==> exists|x: int, z: int|
                in_start_area(x, z) && k == key_of(x, z)
    }

    /// A new world: the 36 chunks with chunk coordinates `-3 <= x, z < 3`,
    /// each filled with generated terrain and stored under its chunk key.
    pub fn create_new() -> (world: World)
        ensures
            forall|x: int, z: int|
                #![trigger key_of(x, z)]
                in_start_area(x, z) ==> world.chunks@.contains_key(key_of(x, z)) && generated_at(
                    world.chunks@[key_of(x, z)],
                    x,
                    z,
                ),
            forall|k: u32|
                #[trigger] world.chunks@.contains_key(k) ==> exists|x: int, z: int|
                    in_start_area(x, z) && k == key_of(x, z),
    {
        let mut chunks: HashMap<u32, Chunk> = HashMap::new();
        let mut x: i32 = -3;
        while x < 3
            invariant
                -3 <= x <= 3,
                forall|a: int, b: int|
                    #![trigger key_of(a, b)]
                    in_start_area(a, b) && a < x ==> chunks@.contains_key(key_of(a, b))
                        && generated_at(chunks@[key_of(a, b)], a, b),
                forall|k: u32|
                    #[trigger] chunks@.contains_key(k) ==> exists|a: int, b: int|
                        in_start_area(a, b) && a < x && k == key_of(a, b),
            decreases 3 - x,
        {
            let mut z: i32 = -3;
            while z < 3
                invariant
                    -3 <= x < 3,
                    -3 <= z <= 3,
                    forall|a: int, b: int|
                        #![trigger key_of(a, b)]
                        in_start_area(a, b) && (a < x || (a == x && b < z)) ==> chunks@.contains_key(
                            key_of(a, b),
                        ) && generated_at(chunks@[key_of(a, b)], a, b),
                    forall|k: u32|
                        #[trigger] chunks@.contains_key(k) ==> exists|a: int, b: int|
                            in_start_area(a, b) && (a < x || (a == x && b < z)) && k == key_of(
                                a,
                                b,
                            ),
                decreases 3 - z,
            {
                let chunk = Chunk::generate_terrain((x, z));
                proof {
                    lemma_start_key_small(x as int, z as int);
                }
                let key = xz_to_index(x, z);
                let ghost before = chunks@;
                chunks.insert(key, chunk);
                proof {
                    assert forall|a: int, b: int|
                        #![trigger key_of(a, b)]
                        in_start_area(a, b) && (a < x || (a == x && b < z + 1)) implies chunks@.contains_key(
                            key_of(a, b),
                        ) && generated_at(chunks@[key_of(a, b)], a, b) by {
                        if (a, b) != (x as int, z as int) {
                            lemma_start_keys_distinct(a, b, x as int, z as int);
                        }
                    }
                    assert forall|k: u32| #[trigger]
                        chunks@.contains_key(k) implies exists|a: int, b: int|
                        in_start_area(a, b) && (a < x || (a == x && b < z + 1)) && k == key_of(
                            a,
                            b,
                        ) by {
                        if k == key {
                            assert(key == key_of(x as int, z as int));
                        } else {
                            assert(before.contains_key(k));
                        }
                    }
                }
                z = z + 1;
            }
            x = x + 1;
        }
        World { chunks }
    }

    /// The meshes of all 16 slices of every chunk of a new world, in the
    /// order of `start_mesh_coords`.
    #[verifier::rlimit(40)]
    pub fn mesh_slices<F>(&self, texture_bin: &TextureBin<F>) -> (meshes: Vec<SliceMesh>)
        requires
            self.is_start_world(),
            has_terrain_textures(texture_bin.layers()),
        ensures
            meshes@.len() == 576,
            forall|n: int| 0 <= n < 576 ==> #[trigger] mesh_entry_ok(meshes@[n], self.chunks@, texture_bin.layers(), n),
    {
        let mut meshes: Vec<SliceMesh> = Vec::new();
        let mut x: i32 = -3;
        while x < 3
            invariant
                -3 <= x <= 3,
                self.is_start_world(),
                has_terrain_textures(texture_bin.layers()),
                meshes@.len() == (x + 3) * 96,
                forall|n: int| 0 <= n < meshes@.len() ==> #[trigger] mesh_entry_ok(meshes@[n], self.chunks@, texture_bin.layers(), n),
            decreases 3 - x,
        {
            let mut z: i32 = -3;
            while z < 3
                invariant
                    -3 <= x < 3,
                    -3 <= z <= 3,
                    self.is_start_world(),
                    has_terrain_textures(texture_bin.layers()),
                    meshes@.len() == (x + 3) * 96 + (z + 3) * 16,
                    forall|n: int| 0 <= n < meshes@.len() ==> #[trigger] mesh_entry_ok(meshes@[n], self.chunks@, texture_bin.layers(), n),
                decreases 3 - z,
            {
                let mut slice: u32 = 0;
                while slice < 16
                    invariant
                        -3 <= x < 3,
                        -3 <= z < 3,
                        0 <= slice <= 16,
                        self.is_start_world(),
                        has_terrain_textures(texture_bin.layers()),
                        meshes@.len() == (x + 3) * 96 + (z + 3) * 16 + slice,
                        forall|n: int| 0 <= n < meshes@.len() ==> #[trigger] mesh_entry_ok(meshes@[n], self.chunks@, texture_bin.layers(), n),
                    decreases 16 - slice,
                {
                    proof {
                        self.lemma_start_slice_ready(texture_bin.layers(), x as int, z as int, slice as int);
                    }
                    let (vertices, indices, index_count) = mesh_slice(x, z, slice, &self.chunks, texture_bin);
                    let ghost n = meshes@.len() as int;
                    meshes.push(SliceMesh { chunk_x: x, chunk_z: z, slice, vertices, indices, index_count });
                    proof {
                        assert(start_mesh_coords(n) == (x as int, z as int, slice as int)) by {
                            assert(n == (x + 3) * 96 + (z + 3) * 16 + slice);
                        }
                    }
                    slice = slice + 1;
                }
                z = z + 1;
            }
            x = x + 1;
        }
        meshes
    }

    /// Every slice of every chunk of a new world can be meshed once the
    /// terrain textures are registered.
    proof fn lemma_start_slice_ready(&self, layers: Map<Seq<char>, u32>, x: int, z: int, slice: int)
        requires
            self.is_start_world(),
            has_terrain_textures(layers),
            in_start_area(x, z),
            0 <= slice < 16,
        ensures
            mesh_slice_ready(self.chunks@, layers, x, z, slice),
    {
        let m = self.chunks@;
        lemma_start_key_small(x, z);
        lemma_start_coords_ok(x, z);
        assert(m.contains_key(key_of(x, z)));
        assert forall|k: u32| #[trigger] m.contains_key(k) implies m[k].wf() by {
            let (a, b) = choose|a: int, b: int| in_start_area(a, b) && k == key_of(a, b);
            assert(m.contains_key(key_of(a, b)));
        }
        let center = m[key_of(x, z)];
        assert(generated_at(center, x, z));
        assert forall|lx: int, ly: int, lz: int|
            0 <= lx < 16 && 0 <= ly < 16 && 0 <= lz < 16 && !transparent(
                #[trigger] slice_block_at(m, x, z, slice, lx, ly, lz),
            ) implies neighbors_readable(m, x * 16 + lx, slice * 16 + ly, z * 16 + lz) by {
            crate::chunk::lemma_generated_block(center, lx, slice * 16 + ly, lz);
            lemma_start_neighbors(m, x, z, lx, slice * 16 + ly, lz);
        }
        assert forall|lx: int, ly: int, lz: int, i: int|
            0 <= lx < 16 && 0 <= ly < 16 && 0 <= lz < 16 && 0 <= i < 6 && #[trigger] face_visible(
                m,
                x,
                z,
                slice,
                lx,
                ly,
                lz,
                i,
            ) implies layers.contains_key(
            texture_name(
                slice_block_at(m, x, z, slice, lx, ly, lz),
                crate::block::face_of_number(i as u32),
            ),
        ) by {
            let b = slice_block_at(m, x, z, slice, lx, ly, lz);
            assert(b != Block::Air);
        }
    }
}

} // verus!
