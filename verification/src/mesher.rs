use vstd::prelude::*;
use std::collections::HashMap;
use crate::block::{
    Block, BlockFace, face_of_number, get_block_texture_index, is_block_transparent,
    texture_name, transparent,
};
use crate::chunk::Chunk;
use crate::coords::{chunk_coords_ok, chunk_key, xz_to_index};
use crate::surface_vertex::{SurfaceVertex, full_illumination, pack_position};
use crate::texture_bin::TextureBin;

verus! {

broadcast use vstd::std_specs::hash::group_hash_axioms;

/// Key under which the chunk at chunk coordinates `(cx, cz)` is stored.
pub open spec fn key_of(cx: int, cz: int) -> u32 {
    chunk_key(cx, cz) as u32
}

/// The block that a lookup at absolute coordinates `(ax, ay, az)` finds:
/// the chunk is chosen by the chunk coordinates `(ax / 16, az / 16)`, and
/// inside it the block at local `x` and `z` equal to those chunk
/// coordinates modulo 16; air where no chunk is stored.
pub open spec fn block_at_absolute(chunks: Map<u32, Chunk>, ax: int, ay: int, az: int) -> Block {
    let cx = ax / 16;
    let cz = az / 16;
    let key = key_of(cx, cz);
    if chunks.contains_key(key) {
        chunks[key].block(cx % 16, ay, cz % 16)
    } else {
        Block::Air
    }
}

/// Coordinates at which a lookup reads a block without failing.
pub open spec fn lookup_ok(chunks: Map<u32, Chunk>, ax: int, ay: int, az: int) -> bool {
    &&& chunk_coords_ok(ax / 16, az / 16)
    &&& chunks.contains_key(key_of(ax / 16, az / 16)) ==> 0 <= ay < 256
}

/// Every stored chunk has 16 slices of 4096 blocks.
pub open spec fn chunks_wf(chunks: Map<u32, Chunk>) -> bool {
    forall|k: u32| #[trigger] chunks.contains_key(k) ==> chunks[k].wf()
}

fn get_block_at_absolute(abs_x: i32, abs_y: u32, abs_z: i32, chunks: &HashMap<u32, Chunk>) -> (block: Block)
    requires
        chunks_wf(chunks@),
        lookup_ok(chunks@, abs_x as int, abs_y as int, abs_z as int),
    ensures
        block == block_at_absolute(chunks@, abs_x as int, abs_y as int, abs_z as int),
{
    let cx = abs_x.div_euclid(16);
    let cz = abs_z.div_euclid(16);
    let chunk_opt = chunks.get(&xz_to_index(cx, cz));
    match chunk_opt {
        Some(chunk) => {
            let lx = cx.rem_euclid(16) as u32;
            let lz = cz.rem_euclid(16) as u32;
            proof {
                crate::coords::lemma_index_then_xyz(lx as int, abs_y as int % 16, lz as int);
            }
            *chunk.get_block_local(lx, abs_y, lz)
        },
        None => Block::Air,
    }
}

/// Absolute coordinates of the neighbour of `(ax, ay, az)` across face `i`.
pub open spec fn neighbor_position(i: int, ax: int, ay: int, az: int) -> (int, int, int) {
    if i == 0 {
        (ax, ay, az + 1)
    } else if i == 1 {
        (ax, ay, az - 1)
    } else if i == 2 {
        (ax + 1, ay, az)
    } else if i == 3 {
        (ax - 1, ay, az)
    } else if i == 4 {
        (ax, ay + 1, az)
    } else {
        (ax, ay - 1, az)
    }
}

/// The block across face `i` of the block at `(ax, ay, az)`; below the
/// bottom of the world there is air.
pub open spec fn neighbor_block(chunks: Map<u32, Chunk>, i: int, ax: int, ay: int, az: int) -> Block {
    if i == 5 && ay == 0 {
        Block::Air
    } else {
        let p = neighbor_position(i, ax, ay, az);
        block_at_absolute(chunks, p.0, p.1, p.2)
    }
}

/// Offset of corner `j` of face `i` from the block's own corner.
pub open spec fn corner_offset(i: int, j: int) -> (int, int, int) {
    if i == 0 {
        (j % 2, j / 2, 1)
    } else if i == 1 {
        (j % 2, j / 2, 0)
    } else if i == 2 {
        (1, j / 2, j % 2)
    } else if i == 3 {
        (0, j / 2, j % 2)
    } else if i == 4 {
        (j / 2, 1, j % 2)
    } else {
        (j / 2, 0, j % 2)
    }
}

/// Corner numbers of the two triangles of face `i`, in drawing order.
pub open spec fn triangle_corners(i: int) -> Seq<int> {
    if i == 0 || i == 3 || i == 4 {
        seq![0, 1, 2, 1, 3, 2]
    } else {
        seq![2, 1, 0, 2, 3, 1]
    }
}

/// Vertex for corner `j` of face `i` of the block at local `(x, y, z)`.
pub open spec fn face_vertex(i: int, j: int, x: int, y: int, z: int, layer: u32) -> SurfaceVertex {
    let o = corner_offset(i, j);
    SurfaceVertex {
        d0: pack_position((x + o.0) as u32, (y + o.1) as u32, (z + o.2) as u32, i as u32, j as u32),
        d1: layer,
        illumination: full_illumination(),
    }
}

/// The four vertices of face `i` of the block at local `(x, y, z)`.
pub open spec fn face_vertices(i: int, x: int, y: int, z: int, layer: u32) -> Seq<SurfaceVertex> {
    Seq::new(4, |j: int| face_vertex(i, j, x, y, z, layer))
}

/// The six indices of face `i` whose first vertex is vertex `base`.
pub open spec fn face_indices(i: int, base: int) -> Seq<u32> {
    Seq::new(6, |t: int| (triangle_corners(i)[t] + base) as u32)
}

/// The chunk that a slice mesh is made of.
pub open spec fn center_chunk(chunks: Map<u32, Chunk>, chunk_x: int, chunk_z: int) -> Chunk {
    chunks[key_of(chunk_x, chunk_z)]
}

/// The block at local `(x, y, z)` of slice `slice` of the chunk.
pub open spec fn slice_block_at(
    chunks: Map<u32, Chunk>,
    chunk_x: int,
    chunk_z: int,
    slice: int,
    x: int,
    y: int,
    z: int,
) -> Block {
    center_chunk(chunks, chunk_x, chunk_z).block(x, slice * 16 + y, z)
}

/// Face `i` of the block at local `(x, y, z)` of the slice is drawn: the
/// block is solid and its neighbour across the face is transparent.
pub open spec fn face_visible(
    chunks: Map<u32, Chunk>,
    chunk_x: int,
    chunk_z: int,
    slice: int,
    x: int,
    y: int,
    z: int,
    i: int,
) -> bool {
    &&& !transparent(slice_block_at(chunks, chunk_x, chunk_z, slice, x, y, z))
    &&& transparent(
        neighbor_block(chunks, i, chunk_x * 16 + x, slice * 16 + y, chunk_z * 16 + z),
    )
}

/// Step `k` of the mesher stands for face `k % 6` of the block with
/// `z = (k / 6) % 16`, `x = (k / 96) % 16` and `y = k / 1536`.
pub open spec fn step_coords(k: int) -> (int, int, int, int) {
    let q = k / 6;
    (q / 256, (q / 16) % 16, q % 16, k % 6)
}

/// Vertices and indices after the first `k` steps of meshing a slice: the
/// blocks are visited by `y`, then `x`, then `z`, and for each block the
/// faces in order; each drawn face adds its four vertices and six indices
/// that point at them.
pub open spec fn mesh_prefix(
    chunks: Map<u32, Chunk>,
    layers: Map<Seq<char>, u32>,
    chunk_x: int,
    chunk_z: int,
    slice: int,
    k: nat,
) -> (Seq<SurfaceVertex>, Seq<u32>)
    decreases k,
{
    if k == 0 {
        (Seq::empty(), Seq::empty())
    } else {
        let prev = mesh_prefix(chunks, layers, chunk_x, chunk_z, slice, (k - 1) as nat);
        let c = step_coords(k - 1);
        let (y, x, z, i) = (c.0, c.1, c.2, c.3);
        if face_visible(chunks, chunk_x, chunk_z, slice, x, y, z, i) {
            let b = slice_block_at(chunks, chunk_x, chunk_z, slice, x, y, z);
            let layer = layers[texture_name(b, face_of_number(i as u32))];
            (prev.0 + face_vertices(i, x, y, z, layer), prev.1 + face_indices(i, prev.0.len() as int))
        } else {
            prev
        }
    }
}

/// The mesh of a whole slice: all 16 x 16 x 16 blocks, six faces each.
pub open spec fn slice_mesh(
    chunks: Map<u32, Chunk>,
    layers: Map<Seq<char>, u32>,
    chunk_x: int,
    chunk_z: int,
    slice: int,
) -> (Seq<SurfaceVertex>, Seq<u32>) {
    mesh_prefix(chunks, layers, chunk_x, chunk_z, slice, 24576)
}

/// The six lookups around the block at absolute `(ax, ay, az)` read
/// their blocks without failing, and its neighbours' coordinates fit in an
/// `i32`.
pub open spec fn neighbors_readable(chunks: Map<u32, Chunk>, ax: int, ay: int, az: int) -> bool {
    &&& i32::MIN < ax && ax < i32::MAX
    &&& i32::MIN < az && az < i32::MAX
    &&& lookup_ok(chunks, ax, ay, az + 1)
    &&& lookup_ok(chunks, ax, ay, az - 1)
    &&& lookup_ok(chunks, ax + 1, ay, az)
    &&& lookup_ok(chunks, ax - 1, ay, az)
    &&& lookup_ok(chunks, ax, ay + 1, az)
    &&& ay > 0 ==> lookup_ok(chunks, ax, ay - 1, az)
}

/// Inputs on which `mesh_slice` computes its mesh without failing: the
/// slice exists, the chunk's key and the absolute coordinates of its blocks
/// can be computed, the chunk is stored, every stored chunk is well formed,
/// the lookups around every solid block of the slice succeed, and every
/// drawn face has its texture.
pub open spec fn mesh_slice_ready(
    chunks: Map<u32, Chunk>,
    layers: Map<Seq<char>, u32>,
    chunk_x: int,
    chunk_z: int,
    slice: int,
) -> bool {
    &&& 0 <= slice < 16
    &&& chunk_coords_ok(chunk_x, chunk_z)
    &&& i32::MIN <= chunk_x * 16
    &&& chunk_x * 16 + 15 <= i32::MAX
    &&& i32::MIN <= chunk_z * 16
    &&& chunk_z * 16 + 15 <= i32::MAX
    &&& chunks.contains_key(key_of(chunk_x, chunk_z))
    &&& chunks_wf(chunks)
    &&& forall|x: int, y: int, z: int|
        0 <= x < 16 && 0 <= y < 16 && 0 <= z < 16 && !transparent(
            #[trigger] slice_block_at(chunks, chunk_x, chunk_z, slice, x, y, z),
        ) ==> neighbors_readable(chunks, chunk_x * 16 + x, slice * 16 + y, chunk_z * 16 + z)
    &&& forall|x: int, y: int, z: int, i: int|
        0 <= x < 16 && 0 <= y < 16 && 0 <= z < 16 && 0 <= i < 6 && #[trigger] face_visible(
            chunks,
            chunk_x,
            chunk_z,
            slice,
            x,
            y,
            z,
            i,
        ) ==> layers.contains_key(
            texture_name(
                slice_block_at(chunks, chunk_x, chunk_z, slice, x, y, z),
                face_of_number(i as u32),
            ),
        )
}

proof fn lemma_step_coords(y: int, x: int, z: int, i: int)
    requires
        0 <= y < 16,
        0 <= x < 16,
        0 <= z < 16,
        0 <= i < 6,
    ensures
        step_coords(((y * 16 + x) * 16 + z) * 6 + i) == (y, x, z, i),
        0 <= ((y * 16 + x) * 16 + z) * 6 + i < 24576,
{
    let q = (y * 16 + x) * 16 + z;
    let k = q * 6 + i;
    assert(k / 6 == q && k % 6 == i);
    assert(q % 16 == z && q / 16 == y * 16 + x);
    assert((y * 16 + x) % 16 == x && (y * 16 + x) / 16 == y);
    assert(q / 256 == y) by {
        vstd::arithmetic::div_mod::lemma_div_denominator(q, 16, 16);
    }
}

proof fn lemma_mesh_prefix_len(
    chunks: Map<u32, Chunk>,
    layers: Map<Seq<char>, u32>,
    chunk_x: int,
    chunk_z: int,
    slice: int,
    k: nat,
)
    ensures
        mesh_prefix(chunks, layers, chunk_x, chunk_z, slice, k).0.len() <= 4 * k,
        mesh_prefix(chunks, layers, chunk_x, chunk_z, slice, k).1.len() <= 6 * k,
    decreases k,
{
    if k > 0 {
        lemma_mesh_prefix_len(chunks, layers, chunk_x, chunk_z, slice, (k - 1) as nat);
    }
}

proof fn lemma_skip_transparent(
    chunks: Map<u32, Chunk>,
    layers: Map<Seq<char>, u32>,
    chunk_x: int,
    chunk_z: int,
    slice: int,
    y: int,
    x: int,
    z: int,
    t: int,
)
    requires
        0 <= y < 16,
        0 <= x < 16,
        0 <= z < 16,
        0 <= t <= 6,
        transparent(slice_block_at(chunks, chunk_x, chunk_z, slice, x, y, z)),
    ensures
        mesh_prefix(chunks, layers, chunk_x, chunk_z, slice, (((y * 16 + x) * 16 + z) * 6 + t) as nat)
            == mesh_prefix(chunks, layers, chunk_x, chunk_z, slice, (((y * 16 + x) * 16 + z) * 6) as nat),
    decreases t,
{
    if t > 0 {
        lemma_skip_transparent(chunks, layers, chunk_x, chunk_z, slice, y, x, z, t - 1);
        lemma_step_coords(y, x, z, t - 1);
    }
}

fn face_corner_offset(i: usize, j: usize) -> (o: (u32, u32, u32))
    requires
        i < 6,
        j < 4,
    ensures
        (o.0 as int, o.1 as int, o.2 as int) == corner_offset(i as int, j as int),
{
    let a = (j % 2) as u32;
    let b = (j / 2) as u32;
    if i == 0 {
        (a, b, 1)
    } else if i == 1 {
        (a, b, 0)
    } else if i == 2 {
        (1, b, a)
    } else if i == 3 {
        (0, b, a)
    } else if i == 4 {
        (b, 1, a)
    } else {
        (b, 0, a)
    }
}

fn face_triangle_corners(i: usize) -> (t: [usize; 6])
    requires
        i < 6,
    ensures
        forall|n: int| 0 <= n < 6 ==> t[n] as int == #[trigger] triangle_corners(i as int)[n],
{
    if i == 0 || i == 3 || i == 4 {
        [0, 1, 2, 1, 3, 2]
    } else {
        [2, 1, 0, 2, 3, 1]
    }
}

/// Appends face `i` of the block at local `(x, y, z)` to the mesh.
fn push_face(
    vertices: &mut Vec<SurfaceVertex>,
    indices: &mut Vec<u32>,
    i: usize,
    x: u32,
    y: u32,
    z: u32,
    layer: u32,
)
    requires
        i < 6,
        x < 16,
        y < 16,
        z < 16,
        old(vertices)@.len() + 4 <= u32::MAX,
        old(indices)@.len() + 6 <= usize::MAX,
    ensures
        final(vertices)@ == old(vertices)@ + face_vertices(
            i as int,
            x as int,
            y as int,
            z as int,
            layer,
        ),
        final(indices)@ == old(indices)@ + face_indices(i as int, old(vertices)@.len() as int),
{
    let current_l = vertices.len();
    let order = face_triangle_corners(i);
    let mut t: usize = 0;
    while t < 6
        invariant
            0 <= t <= 6,
            i < 6,
            current_l == vertices@.len(),
            current_l + 4 <= u32::MAX,
            forall|n: int| 0 <= n < 6 ==> order[n] as int == #[trigger] triangle_corners(i as int)[n],
            indices@ == old(indices)@ + face_indices(i as int, current_l as int).take(t as int),
            vertices@ == old(vertices)@,
        decreases 6 - t,
    {
        assert(order[t as int] < 4);
        indices.push((order[t] + current_l) as u32);
        assert(face_indices(i as int, current_l as int).take(t as int + 1) =~= face_indices(
            i as int,
            current_l as int,
        ).take(t as int).push(((triangle_corners(i as int)[t as int] + current_l) as u32)));
        t = t + 1;
    }
    assert(face_indices(i as int, current_l as int).take(6) =~= face_indices(
        i as int,
        current_l as int,
    ));
    let mut j: usize = 0;
    while j < 4
        invariant
            0 <= j <= 4,
            i < 6,
            x < 16,
            y < 16,
            z < 16,
            vertices@ == old(vertices)@ + face_vertices(
                i as int,
                x as int,
                y as int,
                z as int,
                layer,
            ).take(j as int),
        decreases 4 - j,
    {
        let o = face_corner_offset(i, j);
        let face = BlockFace::from(i as u32);
        let v = SurfaceVertex::new([x + o.0, y + o.1, z + o.2], layer, face, j as u32);
        vertices.push(v);
        assert(face_vertices(i as int, x as int, y as int, z as int, layer).take(j as int + 1)
            =~= face_vertices(i as int, x as int, y as int, z as int, layer).take(j as int).push(
            face_vertex(i as int, j as int, x as int, y as int, z as int, layer),
        ));
        j = j + 1;
    }
    assert(face_vertices(i as int, x as int, y as int, z as int, layer).take(4) =~= face_vertices(
        i as int,
        x as int,
        y as int,
        z as int,
        layer,
    ));
}

/// The six blocks around the block at absolute `(abs_x, abs_y, abs_z)`.
fn neighbor_blocks(abs_x: i32, abs_y: u32, abs_z: i32, chunks: &HashMap<u32, Chunk>) -> (n: [Block; 6])
    requires
        chunks_wf(chunks@),
        abs_y < 256,
        neighbors_readable(chunks@, abs_x as int, abs_y as int, abs_z as int),
    ensures
        forall|i: int|
            0 <= i < 6 ==> n[i] == #[trigger] neighbor_block(
                chunks@,
                i,
                abs_x as int,
                abs_y as int,
                abs_z as int,
            ),
{
    [
        get_block_at_absolute(abs_x, abs_y, abs_z + 1, chunks),
        get_block_at_absolute(abs_x, abs_y, abs_z - 1, chunks),
        get_block_at_absolute(abs_x + 1, abs_y, abs_z, chunks),
        get_block_at_absolute(abs_x - 1, abs_y, abs_z, chunks),
        get_block_at_absolute(abs_x, abs_y + 1, abs_z, chunks),
        if abs_y == 0 {
            Block::Air
        } else {
            get_block_at_absolute(abs_x, abs_y - 1, abs_z, chunks)
        },
    ]
}

/// Appends the faces of the solid block at local `(x, y, z)` of the slice.
fn mesh_solid_block<F>(
    vertices: &mut Vec<SurfaceVertex>,
    indices: &mut Vec<u32>,
    block: Block,
    chunks: &HashMap<u32, Chunk>,
    texture_bin: &TextureBin<F>,
    chunk_x: i32,
    chunk_z: i32,
    slice: u32,
    x: u32,
    y: u32,
    z: u32,
)
    requires
        x < 16,
        y < 16,
        z < 16,
        block == slice_block_at(
            chunks@,
            chunk_x as int,
            chunk_z as int,
            slice as int,
            x as int,
            y as int,
            z as int,
        ),
        !transparent(block),
        mesh_slice_ready(chunks@, texture_bin.layers(), chunk_x as int, chunk_z as int, slice as int),
        (old(vertices)@, old(indices)@) == mesh_prefix(
            chunks@,
            texture_bin.layers(),
            chunk_x as int,
            chunk_z as int,
            slice as int,
            (((y * 16 + x) * 16 + z) * 6) as nat,
        ),
    ensures
        (final(vertices)@, final(indices)@) == mesh_prefix(
            chunks@,
            texture_bin.layers(),
            chunk_x as int,
            chunk_z as int,
            slice as int,
            (((y * 16 + x) * 16 + z) * 6 + 6) as nat,
        ),
{
    let ghost m = chunks@;
    let ghost layers = texture_bin.layers();
    let ghost cx = chunk_x as int;
    let ghost cz = chunk_z as int;
    let ghost sl = slice as int;
    let ghost k0: int = ((y * 16 + x) * 16 + z) * 6;
    assert(neighbors_readable(m, cx * 16 + x, sl * 16 + y, cz * 16 + z));
    let abs_y = y + slice * 16;
    let abs_x = x as i32 + chunk_x * 16;
    let abs_z = z as i32 + chunk_z * 16;
    let neighbors = neighbor_blocks(abs_x, abs_y, abs_z, chunks);
    let mut i: usize = 0;
    while i < 6
        invariant
            0 <= i <= 6,
            0 <= z < 16,
            0 <= x < 16,
            0 <= y < 16,
            abs_y == y + slice * 16,
            abs_x == x + chunk_x * 16,
            abs_z == z + chunk_z * 16,
            k0 == ((y * 16 + x) * 16 + z) * 6,
            m == chunks@,
            layers == texture_bin.layers(),
            cx == chunk_x,
            cz == chunk_z,
            sl == slice,
            block == slice_block_at(m, cx, cz, sl, x as int, y as int, z as int),
            !transparent(block),
            mesh_slice_ready(m, layers, cx, cz, sl),
            forall|n: int|
                0 <= n < 6 ==> neighbors[n] == #[trigger] neighbor_block(
                    m,
                    n,
                    abs_x as int,
                    abs_y as int,
                    abs_z as int,
                ),
            (vertices@, indices@) == mesh_prefix(m, layers, cx, cz, sl, (k0 + i) as nat),
        decreases 6 - i,
    {
        proof {
            lemma_step_coords(y as int, x as int, z as int, i as int);
            lemma_mesh_prefix_len(m, layers, cx, cz, sl, (k0 + i) as nat);
        }
        if is_block_transparent(&neighbors[i]) {
            let face = BlockFace::from(i as u32);
            assert(face_visible(m, cx, cz, sl, x as int, y as int, z as int, i as int));
            let layer = get_block_texture_index(texture_bin, &block, face);
            push_face(vertices, indices, i, x, y, z, layer);
        }
        i = i + 1;
    }
}

/// Appends the faces of the block at local `(x, y, z)` of the slice.
fn mesh_block<F>(
    vertices: &mut Vec<SurfaceVertex>,
    indices: &mut Vec<u32>,
    chunk: &Chunk,
    chunks: &HashMap<u32, Chunk>,
    texture_bin: &TextureBin<F>,
    chunk_x: i32,
    chunk_z: i32,
    slice: u32,
    x: u32,
    y: u32,
    z: u32,
)
    requires
        x < 16,
        y < 16,
        z < 16,
        *chunk == center_chunk(chunks@, chunk_x as int, chunk_z as int),
        mesh_slice_ready(chunks@, texture_bin.layers(), chunk_x as int, chunk_z as int, slice as int),
        (old(vertices)@, old(indices)@) == mesh_prefix(
            chunks@,
            texture_bin.layers(),
            chunk_x as int,
            chunk_z as int,
            slice as int,
            (((y * 16 + x) * 16 + z) * 6) as nat,
        ),
    ensures
        (final(vertices)@, final(indices)@) == mesh_prefix(
            chunks@,
            texture_bin.layers(),
            chunk_x as int,
            chunk_z as int,
            slice as int,
            (((y * 16 + x) * 16 + z) * 6 + 6) as nat,
        ),
{
    let abs_y = y + slice * 16;
    proof {
        crate::coords::lemma_index_then_xyz(x as int, abs_y as int % 16, z as int);
        assert(chunks@.contains_key(key_of(chunk_x as int, chunk_z as int)));
    }
    let block = *chunk.get_block_local(x, abs_y, z);
    if is_block_transparent(&block) {
        proof {
            lemma_skip_transparent(
                chunks@,
                texture_bin.layers(),
                chunk_x as int,
                chunk_z as int,
                slice as int,
                y as int,
                x as int,
                z as int,
                6,
            );
        }
    } else {
        mesh_solid_block(vertices, indices, block, chunks, texture_bin, chunk_x, chunk_z, slice, x, y, z);
    }
}

/// Builds the surface mesh of slice `slice` of the chunk at chunk
/// coordinates `(chunk_x, chunk_z)`: for every solid block, each face whose
/// neighbour is transparent becomes two triangles textured after the block
/// and the face. Returns the vertices, the indices and the number of
/// indices.
pub fn mesh_slice<F>(
    chunk_x: i32,
    chunk_z: i32,
    slice: u32,
    chunks: &HashMap<u32, Chunk>,
    texture_bin: &TextureBin<F>,
) -> (mesh: (Vec<SurfaceVertex>, Vec<u32>, u32))
    requires
        mesh_slice_ready(
            chunks@,
            texture_bin.layers(),
            chunk_x as int,
            chunk_z as int,
            slice as int,
        ),
    ensures
        (mesh.0@, mesh.1@) == slice_mesh(
            chunks@,
            texture_bin.layers(),
            chunk_x as int,
            chunk_z as int,
            slice as int,
        ),
        mesh.2 as int == mesh.1@.len(),
{
    let ghost m = chunks@;
    let ghost layers = texture_bin.layers();
    let ghost cx = chunk_x as int;
    let ghost cz = chunk_z as int;
    let ghost sl = slice as int;
    let mut vertices: Vec<SurfaceVertex> = Vec::new();
    let mut indices: Vec<u32> = Vec::new();
    let chunk = match chunks.get(&xz_to_index(chunk_x, chunk_z)) {
        Some(c) => c,
        None => {
            return (vertices, indices, 0);
        },
    };
    let mut y: u32 = 0;
    while y < 16
        invariant
            0 <= y <= 16,
            slice < 16,
            m == chunks@,
            layers == texture_bin.layers(),
            cx == chunk_x,
            cz == chunk_z,
            sl == slice,
            *chunk == center_chunk(m, cx, cz),
            mesh_slice_ready(m, layers, cx, cz, sl),
            (vertices@, indices@) == mesh_prefix(m, layers, cx, cz, sl, (y * 1536) as nat),
        decreases 16 - y,
    {
        let abs_y = y + slice * 16;
        let mut x: u32 = 0;
        while x < 16
            invariant
                0 <= x <= 16,
                0 <= y < 16,
                slice < 16,
                abs_y == y + slice * 16,
                m == chunks@,
                layers == texture_bin.layers(),
                cx == chunk_x,
                cz == chunk_z,
                sl == slice,
                *chunk == center_chunk(m, cx, cz),
                mesh_slice_ready(m, layers, cx, cz, sl),
                (vertices@, indices@) == mesh_prefix(
                    m,
                    layers,
                    cx,
                    cz,
                    sl,
                    ((y * 16 + x) * 96) as nat,
                ),
            decreases 16 - x,
        {
            let abs_x = x as i32 + chunk_x * 16;
            let mut z: u32 = 0;
            while z < 16
                invariant
                    0 <= z <= 16,
                    0 <= x < 16,
                    0 <= y < 16,
                    slice < 16,
                    abs_y == y + slice * 16,
                    abs_x == x + chunk_x * 16,
                    m == chunks@,
                    layers == texture_bin.layers(),
                    cx == chunk_x,
                    cz == chunk_z,
                    sl == slice,
                    *chunk == center_chunk(m, cx, cz),
                    mesh_slice_ready(m, layers, cx, cz, sl),
                    (vertices@, indices@) == mesh_prefix(
                        m,
                        layers,
                        cx,
                        cz,
                        sl,
                        (((y * 16 + x) * 16 + z) * 6) as nat,
                    ),
                decreases 16 - z,
            {
                mesh_block(&mut vertices, &mut indices, chunk, chunks, texture_bin, chunk_x, chunk_z, slice, x, y, z);
                z = z + 1;
            }
            x = x + 1;
        }
        y = y + 1;
    }
    proof {
        lemma_mesh_prefix_len(m, layers, cx, cz, sl, 24576);
    }
    let l = indices.len();
    (vertices, indices, l as u32)
}

/// Every index of a slice mesh points at one of its vertices, and every
/// face adds four vertices and six indices.
pub proof fn lemma_mesh_indices_in_range(
    chunks: Map<u32, Chunk>,
    layers: Map<Seq<char>, u32>,
    chunk_x: int,
    chunk_z: int,
    slice: int,
    k: nat,
)
    ensures
        ({
            let mesh = mesh_prefix(chunks, layers, chunk_x, chunk_z, slice, k);
            &&& mesh.0.len() % 4 == 0
            &&& mesh.1.len() * 2 == mesh.0.len() * 3
            &&& forall|t: int| 0 <= t < mesh.1.len() ==> (#[trigger] mesh.1[t]) < mesh.0.len()
        }),
    decreases k,
{
    if k > 0 {
        lemma_mesh_indices_in_range(chunks, layers, chunk_x, chunk_z, slice, (k - 1) as nat);
        lemma_mesh_prefix_len(chunks, layers, chunk_x, chunk_z, slice, (k - 1) as nat);
        let prev = mesh_prefix(chunks, layers, chunk_x, chunk_z, slice, (k - 1) as nat);
        let mesh = mesh_prefix(chunks, layers, chunk_x, chunk_z, slice, k);
        let c = step_coords(k - 1);
        if face_visible(chunks, chunk_x, chunk_z, slice, c.1, c.0, c.2, c.3) {
            let base = prev.0.len() as int;
            assert(base <= 4 * (k - 1));
            assert forall|t: int| 0 <= t < mesh.1.len() implies (#[trigger] mesh.1[t]) < mesh.0.len() by {
                if t >= prev.1.len() {
                    let n = t - prev.1.len();
                    assert(mesh.1[t] == face_indices(c.3, base)[n]);
                    assert(0 <= triangle_corners(c.3)[n] < 4);
                }
            }
        }
    }
}


/// The local `x` that a packed vertex carries (bits 0-4).
pub open spec fn vertex_x(v: SurfaceVertex) -> u32 {
    v.d0 & 31
}

/// The local `y` that a packed vertex carries (bits 5-9).
pub open spec fn vertex_y(v: SurfaceVertex) -> u32 {
    (v.d0 >> 5u32) & 31
}

/// The local `z` that a packed vertex carries (bits 10-14).
pub open spec fn vertex_z(v: SurfaceVertex) -> u32 {
    (v.d0 >> 10u32) & 31
}

/// The face number that a packed vertex carries (bits 15-17).
pub open spec fn vertex_face(v: SurfaceVertex) -> u32 {
    (v.d0 >> 15u32) & 7
}

/// The point `(px, py, pz)` is a corner of face `i` of the unit block whose
/// lowest corner is `(x, y, z)`: the front face lies in the plane
/// `z + 1`, the back in `z`, the right in `x + 1`, the left in `x`, the top
/// in `y + 1` and the bottom in `y`, and along the other two axes the
/// corner is at the block's low or high side.
pub open spec fn corner_of_face(i: int, x: int, y: int, z: int, px: int, py: int, pz: int) -> bool {
    let ex = px == x || px == x + 1;
    let ey = py == y || py == y + 1;
    let ez = pz == z || pz == z + 1;
    if i == 0 {
        pz == z + 1 && ex && ey
    } else if i == 1 {
        pz == z && ex && ey
    } else if i == 2 {
        px == x + 1 && ey && ez
    } else if i == 3 {
        px == x && ey && ez
    } else if i == 4 {
        py == y + 1 && ex && ez
    } else {
        py == y && ex && ez
    }
}

/// The four vertices of face `i` of a block of a slice carry that face's
/// number and are the four distinct corners of that face, on the block's
/// side that the face looks out of: the top face at height `y + 1`, the
/// bottom at `y`, the front at `z + 1`, the back at `z`, the right at
/// `x + 1` and the left at `x`.
pub proof fn lemma_face_vertices_on_face(i: int, x: int, y: int, z: int, layer: u32)
    requires
        0 <= i < 6,
        0 <= x < 16,
        0 <= y < 16,
        0 <= z < 16,
    ensures
        forall|j: int|
            0 <= j < 4 ==> {
                let v = #[trigger] face_vertices(i, x, y, z, layer)[j];
                &&& vertex_face(v) == i
                &&& corner_of_face(i, x, y, z, vertex_x(v) as int, vertex_y(v) as int, vertex_z(v) as int)
                &&& v.d1 == layer
            },
        forall|j1: int, j2: int|
            0 <= j1 < j2 < 4 ==> {
                let v1 = #[trigger] face_vertices(i, x, y, z, layer)[j1];
                let v2 = #[trigger] face_vertices(i, x, y, z, layer)[j2];
                (vertex_x(v1), vertex_y(v1), vertex_z(v1)) != (vertex_x(v2), vertex_y(v2), vertex_z(v2))
            },
{
    assert forall|j: int| 0 <= j < 4 implies {
        let v = #[trigger] face_vertices(i, x, y, z, layer)[j];
        &&& vertex_x(v) == x + corner_offset(i, j).0
        &&& vertex_y(v) == y + corner_offset(i, j).1
        &&& vertex_z(v) == z + corner_offset(i, j).2
        &&& vertex_face(v) == i
        &&& v.d1 == layer
    } by {
        let o = corner_offset(i, j);
        assert(0 <= o.0 <= 1 && 0 <= o.1 <= 1 && 0 <= o.2 <= 1);
        crate::surface_vertex::lemma_unpack_position(
            (x + o.0) as u32,
            (y + o.1) as u32,
            (z + o.2) as u32,
            i as u32,
            j as u32,
        );
    }
}

/// A vertex `v` of a slice mesh stands at a corner of a drawn face of a
/// block `(x, y, z)` of the slice: the block is solid, its neighbour across
/// the face that `v` carries is transparent, `v` lies on that face's side
/// of the block, and `v` carries the texture of that face of the block.
pub open spec fn vertex_of_drawn_face(
    chunks: Map<u32, Chunk>,
    layers: Map<Seq<char>, u32>,
    chunk_x: int,
    chunk_z: int,
    slice: int,
    v: SurfaceVertex,
    x: int,
    y: int,
    z: int,
) -> bool {
    let i = vertex_face(v) as int;
    &&& 0 <= x < 16 && 0 <= y < 16 && 0 <= z < 16 && i < 6
    &&& face_visible(chunks, chunk_x, chunk_z, slice, x, y, z, i)
    &&& corner_of_face(i, x, y, z, vertex_x(v) as int, vertex_y(v) as int, vertex_z(v) as int)
    &&& v.d1 == layers[texture_name(
        slice_block_at(chunks, chunk_x, chunk_z, slice, x, y, z),
        face_of_number(i as u32),
    )]
}

proof fn lemma_step_coords_in_range(k: int)
    requires
        0 <= k < 24576,
    ensures
        0 <= step_coords(k).0 < 16,
        0 <= step_coords(k).1 < 16,
        0 <= step_coords(k).2 < 16,
        0 <= step_coords(k).3 < 6,
{
    let q = k / 6;
    assert(0 <= q < 4096);
    assert(q / 256 < 16);
}

proof fn lemma_appended_vertex_on_face(
    chunks: Map<u32, Chunk>,
    layers: Map<Seq<char>, u32>,
    chunk_x: int,
    chunk_z: int,
    slice: int,
    x: int,
    y: int,
    z: int,
    i: int,
    j: int,
)
    requires
        0 <= x < 16,
        0 <= y < 16,
        0 <= z < 16,
        0 <= i < 6,
        0 <= j < 4,
        face_visible(chunks, chunk_x, chunk_z, slice, x, y, z, i),
    ensures
        vertex_of_drawn_face(
            chunks,
            layers,
            chunk_x,
            chunk_z,
            slice,
            face_vertices(
                i,
                x,
                y,
                z,
                layers[texture_name(
                    slice_block_at(chunks, chunk_x, chunk_z, slice, x, y, z),
                    face_of_number(i as u32),
                )],
            )[j],
            x,
            y,
            z,
        ),
{
    let layer = layers[texture_name(
        slice_block_at(chunks, chunk_x, chunk_z, slice, x, y, z),
        face_of_number(i as u32),
    )];
    lemma_face_vertices_on_face(i, x, y, z, layer);
    let v = face_vertices(i, x, y, z, layer)[j];
    assert(vertex_face(v) == i);
}

/// A vertex stands at a corner of a drawn face of some block of the slice
/// (see `vertex_of_drawn_face`).
pub open spec fn on_some_drawn_face(
    chunks: Map<u32, Chunk>,
    layers: Map<Seq<char>, u32>,
    chunk_x: int,
    chunk_z: int,
    slice: int,
    v: SurfaceVertex,
) -> bool {
    exists|x: int, y: int, z: int|
        #[trigger] vertex_of_drawn_face(chunks, layers, chunk_x, chunk_z, slice, v, x, y, z)
}

/// Every vertex of the mesh of a slice is a corner of a drawn face: of a
/// solid block of the slice whose neighbour across that face is
/// transparent, on the side of the block that the face looks out of, with
/// the texture of that face.
pub proof fn lemma_mesh_vertices_on_drawn_faces(
    chunks: Map<u32, Chunk>,
    layers: Map<Seq<char>, u32>,
    chunk_x: int,
    chunk_z: int,
    slice: int,
    k: nat,
)
    requires
        k <= 24576,
    ensures
        forall|m: int|
            0 <= m < mesh_prefix(chunks, layers, chunk_x, chunk_z, slice, k).0.len()
                ==> on_some_drawn_face(
                chunks,
                layers,
                chunk_x,
                chunk_z,
                slice,
                #[trigger] mesh_prefix(chunks, layers, chunk_x, chunk_z, slice, k).0[m],
            ),
    decreases k,
{
    if k > 0 {
        lemma_mesh_vertices_on_drawn_faces(chunks, layers, chunk_x, chunk_z, slice, (k - 1) as nat);
        let prev = mesh_prefix(chunks, layers, chunk_x, chunk_z, slice, (k - 1) as nat);
        let mesh = mesh_prefix(chunks, layers, chunk_x, chunk_z, slice, k);
        let c = step_coords(k - 1);
        lemma_step_coords_in_range(k - 1);
        let (y, x, z, i) = (c.0, c.1, c.2, c.3);
        if face_visible(chunks, chunk_x, chunk_z, slice, x, y, z, i) {
            let b = slice_block_at(chunks, chunk_x, chunk_z, slice, x, y, z);
            let layer = layers[texture_name(b, face_of_number(i as u32))];
            let fv = face_vertices(i, x, y, z, layer);
            assert(mesh.0 == prev.0 + fv);
            assert forall|m: int| 0 <= m < mesh.0.len() implies on_some_drawn_face(
                chunks,
                layers,
                chunk_x,
                chunk_z,
                slice,
                #[trigger] mesh.0[m],
            ) by {
                if m < prev.0.len() {
                    assert(mesh.0[m] == prev.0[m]);
                    assert(on_some_drawn_face(chunks, layers, chunk_x, chunk_z, slice, prev.0[m]));
                } else {
                    lemma_appended_vertex_on_face(chunks, layers, chunk_x, chunk_z, slice, x, y, z, i, m - prev.0.len());
                    assert(mesh.0[m] == fv[m - prev.0.len()]);
                    assert(vertex_of_drawn_face(chunks, layers, chunk_x, chunk_z, slice, mesh.0[m], x, y, z));
                }
            }
        } else {
            assert(mesh == prev);
        }
    }
}


/// Every vertex of the mesh of a whole slice is a corner of a drawn face
/// of one of its blocks, on that face's side of the block.
pub proof fn lemma_slice_mesh_vertices_on_drawn_faces(
    chunks: Map<u32, Chunk>,
    layers: Map<Seq<char>, u32>,
    chunk_x: int,
    chunk_z: int,
    slice: int,
)
    ensures
        forall|m: int|
            0 <= m < slice_mesh(chunks, layers, chunk_x, chunk_z, slice).0.len() ==> on_some_drawn_face(
                chunks,
                layers,
                chunk_x,
                chunk_z,
                slice,
                #[trigger] slice_mesh(chunks, layers, chunk_x, chunk_z, slice).0[m],
            ),
{
    lemma_mesh_vertices_on_drawn_faces(chunks, layers, chunk_x, chunk_z, slice, 24576);
}

} // verus!
