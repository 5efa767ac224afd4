use vstd::prelude::*;

verus! {

/// Position of the block `(x, y, z)` of a slice in the slice's flat array:
/// `y` selects a layer of 256 blocks, `z` a row of 16, `x` the block.
pub open spec fn local_index(x: int, y: int, z: int) -> int {
    y * 256 + z * 16 + x
}

/// Flat index of the block `(x, y, z)` inside a slice.
pub fn local_xyz_to_index(x: u32, y: u32, z: u32) -> (index: u32)
    requires
        local_index(x as int, y as int, z as int) <= u32::MAX,
    ensures
        index == local_index(x as int, y as int, z as int),
{
    y * 16 * 16 + z * 16 + x
}

/// The coordinates `(x, y, z)` that a flat slice index stands for, each
/// taken modulo the slice's edge.
pub open spec fn local_xyz(index: int) -> (int, int, int) {
    (index % 16, (index / 256) % 16, (index / 16) % 16)
}

/// Splits a flat slice index into its `(x, y, z)` coordinates.
pub fn index_to_local_xyz(index: u32) -> (xyz: (u32, u32, u32))
    ensures
        (xyz.0 as int, xyz.1 as int, xyz.2 as int) == local_xyz(index as int),
        xyz.0 < 16,
        xyz.1 < 16,
        xyz.2 < 16,
{
    let x = index % 16;
    let z = (index / 16) % 16;
    let y = (index / 256) % 16;
    (x, y, z)
}

/// Splitting the index of a block of a slice gives back its coordinates.
pub proof fn lemma_index_then_xyz(x: int, y: int, z: int)
    requires
        0 <= x < 16,
        0 <= y < 16,
        0 <= z < 16,
    ensures
        local_xyz(local_index(x, y, z)) == (x, y, z),
        0 <= local_index(x, y, z) < 4096,
{
    let i = local_index(x, y, z);
    assert(i % 16 == x && i / 16 == y * 16 + z) by (nonlinear_arith)
        requires
            i == y * 256 + z * 16 + x,
            0 <= x < 16,
            0 <= z < 16,
            0 <= y < 16,
    ;
    assert((y * 16 + z) % 16 == z) by (nonlinear_arith)
        requires
            0 <= z < 16,
            0 <= y < 16,
    ;
    assert(i / 256 == y) by (nonlinear_arith)
        requires
            i == y * 256 + z * 16 + x,
            0 <= x < 16,
            0 <= z < 16,
            0 <= y < 16,
    ;
}

/// Joining the coordinates of a slice index gives back the index.
pub proof fn lemma_xyz_then_index(i: int)
    requires
        0 <= i < 4096,
    ensures
        local_index(local_xyz(i).0, local_xyz(i).1, local_xyz(i).2) == i,
{
    assert(i / 256 < 16 && (i / 256) % 16 == i / 256) by (nonlinear_arith)
        requires
            0 <= i < 4096,
    ;
    assert((i / 16) % 16 * 16 + i % 16 + (i / 256) * 256 == i) by (nonlinear_arith)
        requires
            0 <= i < 4096,
    ;
}

/// Maps an integer to a natural number: even numbers for the
/// non-negative integers, odd numbers for the negative ones.
pub open spec fn zigzag(v: int) -> int {
    if v >= 0 {
        2 * v
    } else {
        -2 * v - 1
    }
}

/// Triangular number `n (n + 1) / 2`.
pub open spec fn triangle(n: int) -> int {
    n * (n + 1) / 2
}

/// Cantor's pairing of two natural numbers.
pub open spec fn cantor_pair(a: int, b: int) -> int {
    triangle(a + b) + b
}

/// Key of the chunk at chunk coordinates `(x, z)`: the Cantor pairing of
/// the two coordinates mapped to natural numbers, or `u32::MAX` where that
/// pairing exceeds `u32::MAX`.
pub open spec fn chunk_key(x: int, z: int) -> int {
    let p = cantor_pair(zigzag(x), zigzag(z));
    if p <= u32::MAX {
        p
    } else {
        u32::MAX as int
    }
}

/// Chunk coordinates whose key can be computed: the two mapped coordinates
/// and their sum plus one fit in an `i32`.
pub open spec fn chunk_coords_ok(x: int, z: int) -> bool {
    &&& i32::MIN < 2 * x
    &&& 2 * x <= i32::MAX
    &&& i32::MIN < 2 * z
    &&& 2 * z <= i32::MAX
    &&& zigzag(x) + zigzag(z) + 1 <= i32::MAX
}

proof fn lemma_triangle_step(n: int)
    requires
        n >= 0,
    ensures
        triangle(n + 1) == triangle(n) + n + 1,
        triangle(n) >= 0,
{
    assert((n + 1) * (n + 2) == n * (n + 1) + 2 * (n + 1)) by (nonlinear_arith);
    assert(n * (n + 1) >= 0) by (nonlinear_arith)
        requires
            n >= 0,
    ;
}

proof fn lemma_triangle_monotone(m: int, n: int)
    requires
        0 <= m <= n,
    ensures
        triangle(m) + (n - m) <= triangle(n),
    decreases n - m,
{
    if m < n {
        lemma_triangle_monotone(m, n - 1);
        lemma_triangle_step(n - 1);
    }
}

/// The Cantor pairing is injective on natural numbers.
pub proof fn lemma_cantor_injective(a: int, b: int, c: int, d: int)
    requires
        a >= 0,
        b >= 0,
        c >= 0,
        d >= 0,
        cantor_pair(a, b) == cantor_pair(c, d),
    ensures
        a == c,
        b == d,
{
    let s = a + b;
    let t = c + d;
    if s < t {
        lemma_triangle_monotone(s + 1, t);
        lemma_triangle_step(s);
    } else if t < s {
        lemma_triangle_monotone(t + 1, s);
        lemma_triangle_step(t);
    }
}

/// Distinct chunk coordinates get distinct keys, wherever the pairing fits
/// in a `u32`.
pub proof fn lemma_chunk_key_injective(x1: int, z1: int, x2: int, z2: int)
    requires
        cantor_pair(zigzag(x1), zigzag(z1)) <= u32::MAX,
        cantor_pair(zigzag(x2), zigzag(z2)) <= u32::MAX,
        chunk_key(x1, z1) == chunk_key(x2, z2),
    ensures
        x1 == x2,
        z1 == z2,
{
    lemma_cantor_injective(zigzag(x1), zigzag(z1), zigzag(x2), zigzag(z2));
}

/// Key of the chunk at chunk coordinates `(x, z)` (see `chunk_key`).
pub fn xz_to_index(x: i32, z: i32) -> (key: u32)
    requires
        chunk_coords_ok(x as int, z as int),
    ensures
        key == chunk_key(x as int, z as int),
{
    let x0: i32 = if x >= 0 {
        2 * x
    } else {
        -2 * x - 1
    };
    let z0: i32 = if z >= 0 {
        2 * z
    } else {
        -2 * z - 1
    };
    let s: u64 = (x0 + z0) as u64;
    assert(s * (s + 1) <= 0x4000_0000_0000_0000) by (nonlinear_arith)
        requires
            s < 0x8000_0000,
    ;
    let pair: u64 = s * (s + 1) / 2 + z0 as u64;
    if pair <= 0xffff_ffff {
        pair as u32
    } else {
        0xffff_ffff
    }
}

} // verus!
