use vstd::prelude::*;

verus! {

/// A chunk column position, in chunk units.
#[derive(Clone, Debug, Copy, Hash, PartialEq, Eq, Structural)]
pub struct ChunkVec2 {
    pub x: i32,
    pub z: i32,
}

/// The chunk coordinate of block coordinate `v` (an arithmetic shift by 4:
/// division by 16 rounding down).
pub open spec fn chunk_of(v: i32) -> int {
    if v >= 0 {
        v / 16
    } else {
        -((-v + 15) / 16)
    }
}

fn chunk_coord(v: i32) -> (r: i32)
    ensures
        r == chunk_of(v),
        r * 16 <= v < r * 16 + 16,
{
    if v >= 0 {
        v / 16
    } else {
        let w: i64 = -(v as i64);
        (-((w + 15) / 16)) as i32
    }
}

impl ChunkVec2 {
    /// A position given in chunk units.
    pub fn new_local(x: i32, z: i32) -> (r: ChunkVec2)
        ensures
            r.x == x && r.z == z,
    {
        ChunkVec2 { x, z }
    }

    /// The column holding block `(x, z)`.
    pub fn new_global(x: i32, z: i32) -> (r: ChunkVec2)
        ensures
            r.x == chunk_of(x) && r.z == chunk_of(z),
            r.x * 16 <= x < r.x * 16 + 16,
            r.z * 16 <= z < r.z * 16 + 16,
    {
        ChunkVec2 { x: chunk_coord(x), z: chunk_coord(z) }
    }

    /// The position in chunk units.
    pub fn as_local(&self) -> (r: (i32, i32))
        ensures
            r == (self.x, self.z),
    {
        (self.x, self.z)
    }

    /// The block coordinates of the column's lowest corner.
    pub fn as_global(&self) -> (r: (i32, i32))
        requires
            i32::MIN <= self.x * 16 <= i32::MAX,
            i32::MIN <= self.z * 16 <= i32::MAX,
        ensures
            r.0 == self.x * 16 && r.1 == self.z * 16,
    {
        (self.x * 16, self.z * 16)
    }
}

} // verus!
