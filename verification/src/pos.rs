//! Integer positions in a world: blocks, world chunks and scheduling chunks.
//!
//! A world is named by a 128-bit id (the bits of its UUID).  A world chunk
//! covers `WCHUNK_SIZE` x `WCHUNK_SIZE` blocks, and a scheduling chunk covers
//! `SCHUNK_SIZE` x `SCHUNK_SIZE` world chunks.  Coordinates are divided with
//! floor (Euclidean) division, so negative coordinates fall into the chunk on
//! their lower side.
use vstd::prelude::*;
use vstd::arithmetic::div_mod::lemma_fundamental_div_mod;
use vstd::arithmetic::div_mod::lemma_fundamental_div_mod_converse;

verus! {

/// Floor division by a positive divisor, through `i64::checked_div_euclid`.
pub fn div_floor(x: i64, d: i64) -> (q: i64)
    requires
        d > 0,
    ensures
        q == x as int / d as int,
{
    proof {
        lemma_div_floor_in_range(x as int, d as int);
    }
    match x.checked_div_euclid(d) {
        Some(q) => q,
        None => vstd::pervasive::unreached(),
    }
}

/// The floor quotient of an `i64` by a positive divisor is again an `i64`.
proof fn lemma_div_floor_in_range(x: int, d: int)
    requires
        d > 0,
        i64::MIN <= x <= i64::MAX,
    ensures
        i64::MIN <= x / d <= i64::MAX,
        x >= 0 ==> 0 <= x / d <= x,
        x < 0 ==> x <= x / d < 0,
{
    lemma_fundamental_div_mod(x, d);
    let q = x / d;
    let r = x % d;
    assert(x == d * q + r);
    assert(0 <= r < d);
    if x >= 0 {
        if q < 0 {
            assert(d * q <= -d) by (nonlinear_arith)
                requires
                    q < 0,
                    d > 0,
            ;
        }
        assert(d * q >= q) by (nonlinear_arith)
            requires
                q >= 0,
                d > 0,
        ;
    } else {
        if q >= 0 {
            assert(d * q >= 0) by (nonlinear_arith)
                requires
                    q >= 0,
                    d > 0,
            ;
        }
        assert(q < 0);
        assert((d - 1) * q <= -(d - 1)) by (nonlinear_arith)
            requires
                q <= -1,
                d >= 1,
        ;
        assert(d * q == (d - 1) * q + q) by (nonlinear_arith);
        assert(x <= q);
    }
}

/// The position of a block in a world.
#[derive(Clone, Copy, Hash, PartialEq, Eq, Structural, Debug)]
pub struct BlockPos {
    pub world: u128,
    pub x: i64,
    pub z: i64,
}

/// The position of a world chunk in a world.
#[derive(Clone, Copy, Hash, PartialEq, Eq, Structural, Debug)]
pub struct WChunkPos {
    pub world: u128,
    pub x: i64,
    pub z: i64,
}

/// The position of a scheduling chunk in a world.
#[derive(Clone, Copy, Hash, PartialEq, Eq, Structural, Debug)]
pub struct SChunkPos {
    pub world: u128,
    pub x: i64,
    pub z: i64,
}

/// Number of blocks along one side of a scheduling chunk.
pub open spec fn schunk_blocks() -> int {
    crate::config::SCHUNK_SIZE as int * crate::config::WCHUNK_SIZE as int
}

impl BlockPos {
    /// The world chunk that holds this block.
    pub open spec fn wchunk_of(self) -> WChunkPos {
        WChunkPos {
            world: self.world,
            x: (self.x as int / crate::config::WCHUNK_SIZE as int) as i64,
            z: (self.z as int / crate::config::WCHUNK_SIZE as int) as i64,
        }
    }

    /// The scheduling chunk that holds this block.
    pub open spec fn schunk_of(self) -> SChunkPos {
        SChunkPos {
            world: self.world,
            x: (self.x as int / schunk_blocks()) as i64,
            z: (self.z as int / schunk_blocks()) as i64,
        }
    }

    pub fn to_wchunk_pos(&self) -> (p: WChunkPos)
        ensures
            p == self.wchunk_of(),
    {
        let wchunk_size = crate::config::WCHUNK_SIZE as i64;
        WChunkPos {
            world: self.world,
            x: div_floor(self.x, wchunk_size),
            z: div_floor(self.z, wchunk_size),
        }
    }

    pub fn to_schunk_pos(&self) -> (p: SChunkPos)
        ensures
            p == self.schunk_of(),
    {
        let i = (crate::config::SCHUNK_SIZE * crate::config::WCHUNK_SIZE) as i64;
        SChunkPos { world: self.world, x: div_floor(self.x, i), z: div_floor(self.z, i) }
    }
}

impl WChunkPos {
    /// The scheduling chunk that holds this world chunk.
    pub open spec fn schunk_of(self) -> SChunkPos {
        SChunkPos {
            world: self.world,
            x: (self.x as int / crate::config::SCHUNK_SIZE as int) as i64,
            z: (self.z as int / crate::config::SCHUNK_SIZE as int) as i64,
        }
    }

    /// Where this world chunk sits inside its scheduling chunk: a row and a
    /// column, each below `SCHUNK_SIZE`.
    pub open spec fn slot_of(self) -> (int, int) {
        (
            self.x as int % crate::config::SCHUNK_SIZE as int,
            self.z as int % crate::config::SCHUNK_SIZE as int,
        )
    }

    pub fn to_schunk_pos(&self) -> (p: SChunkPos)
        ensures
            p == self.schunk_of(),
    {
        let sc_size = crate::config::SCHUNK_SIZE as i64;
        SChunkPos { world: self.world, x: div_floor(self.x, sc_size), z: div_floor(self.z, sc_size) }
    }
}

/// Going from a block to its world chunk and then to that chunk's scheduling
/// chunk gives the scheduling chunk of the block.
pub proof fn lemma_schunk_of_block_through_wchunk(b: BlockPos)
    ensures
        b.wchunk_of().schunk_of() == b.schunk_of(),
{
    lemma_nested_floor_div(b.x as int);
    lemma_nested_floor_div(b.z as int);
    lemma_div_floor_in_range(b.x as int, 16);
    lemma_div_floor_in_range(b.z as int, 16);
}

/// `(x / 16) / 16 == x / 256` for floor division, negative `x` included.
proof fn lemma_nested_floor_div(x: int)
    ensures
        (x / 16) / 16 == x / 256,
{
    lemma_fundamental_div_mod(x, 16);
    lemma_fundamental_div_mod(x / 16, 16);
    let q1 = x / 16;
    let r1 = x % 16;
    let q2 = q1 / 16;
    let r2 = q1 % 16;
    assert(x == 256 * q2 + (16 * r2 + r1));
    lemma_fundamental_div_mod_converse(x, 256, q2, 16 * r2 + r1);
}

/// A block lies inside the world chunk that `wchunk_of` gives it.
pub proof fn lemma_block_inside_wchunk(b: BlockPos)
    ensures
        b.wchunk_of().world == b.world,
        16 * b.wchunk_of().x <= b.x < 16 * b.wchunk_of().x + 16,
        16 * b.wchunk_of().z <= b.z < 16 * b.wchunk_of().z + 16,
{
    lemma_fundamental_div_mod(b.x as int, 16);
    lemma_fundamental_div_mod(b.z as int, 16);
    lemma_div_floor_in_range(b.x as int, 16);
    lemma_div_floor_in_range(b.z as int, 16);
}

/// A world chunk is its scheduling chunk's origin plus its slot, and the slot
/// is inside the scheduling chunk.
pub proof fn lemma_wchunk_from_slot(w: WChunkPos)
    ensures
        0 <= w.slot_of().0 < 16,
        0 <= w.slot_of().1 < 16,
        w.x == 16 * w.schunk_of().x + w.slot_of().0,
        w.z == 16 * w.schunk_of().z + w.slot_of().1,
{
    lemma_fundamental_div_mod(w.x as int, 16);
    lemma_fundamental_div_mod(w.z as int, 16);
    lemma_div_floor_in_range(w.x as int, 16);
    lemma_div_floor_in_range(w.z as int, 16);
}

/// Two world chunks of the same scheduling chunk that sit in the same slot
/// are the same world chunk: the slots of a scheduling chunk never collide.
pub proof fn lemma_slot_identifies_wchunk(a: WChunkPos, b: WChunkPos)
    requires
        a.schunk_of() == b.schunk_of(),
        a.slot_of() == b.slot_of(),
    ensures
        a == b,
{
    lemma_wchunk_from_slot(a);
    lemma_wchunk_from_slot(b);
}

} // verus!
