use vstd::prelude::*;
use crate::block::{BlockFace, face_number};

verus! {

/// A corner of a block face as the terrain shader reads it: `d0` packs the
/// corner's local position, the face and the corner's number, `d1` is the
/// texture layer, `illumination` the light level in its top byte.
#[derive(Clone, Copy, Debug, PartialEq, Eq, Structural)]
pub struct SurfaceVertex {
    pub d0: u32,
    pub d1: u32,
    pub illumination: u32,
}

/// The packed word: bits 0-4 hold `x`, 5-9 `y`, 10-14 `z`, 15-17 the face
/// and 18 upward the corner's number, each field or-ed in as it is.
pub open spec fn pack_position(x: u32, y: u32, z: u32, face: u32, nth: u32) -> u32 {
    x | (y << 5u32) | (z << 10u32) | (face << 15u32) | (nth << 18u32)
}

/// The light level of every vertex: 15 in the top byte.
pub open spec fn full_illumination() -> u32 {
    15u32 << 24u32
}

impl SurfaceVertex {
    /// The corner number `nth` of `face` at `local_position`, textured with
    /// layer `texture_index`.
    pub fn new(local_position: [u32; 3], texture_index: u32, face: BlockFace, nth: u32) -> (v: SurfaceVertex)
        ensures
            v.d0 == pack_position(
                local_position[0],
                local_position[1],
                local_position[2],
                face_number(face),
                nth,
            ),
            v.d1 == texture_index,
            v.illumination == full_illumination(),
    {
        let faceval: u32 = face.into();
        let mut d0 = local_position[0];
        d0 = d0 | (local_position[1] << 5u32);
        d0 = d0 | (local_position[2] << 10u32);
        d0 = d0 | (faceval << 15u32);
        d0 = d0 | (nth << 18u32);
        let d1 = texture_index;
        let illumination: u32 = 15u32 << 24u32;
        SurfaceVertex { d0, d1, illumination }
    }
}

/// Where every field fits its bits, each can be read back from the packed
/// word.
pub proof fn lemma_unpack_position(x: u32, y: u32, z: u32, face: u32, nth: u32)
    requires
        x < 32,
        y < 32,
        z < 32,
        face < 8,
        nth < 16384,
    ensures
        pack_position(x, y, z, face, nth) & 31 == x,
        (pack_position(x, y, z, face, nth) >> 5u32) & 31 == y,
        (pack_position(x, y, z, face, nth) >> 10u32) & 31 == z,
        (pack_position(x, y, z, face, nth) >> 15u32) & 7 == face,
        pack_position(x, y, z, face, nth) >> 18u32 == nth,
{
    let p = pack_position(x, y, z, face, nth);
    assert(p == x | (y << 5u32) | (z << 10u32) | (face << 15u32) | (nth << 18u32));
    assert(p & 31 == x && (p >> 5u32) & 31 == y && (p >> 10u32) & 31 == z && (p >> 15u32) & 7
        == face && p >> 18u32 == nth) by (bit_vector)
        requires
            p == x | (y << 5u32) | (z << 10u32) | (face << 15u32) | (nth << 18u32),
            x < 32,
            y < 32,
            z < 32,
            face < 8,
            nth < 16384,
    ;
}

} // verus!
