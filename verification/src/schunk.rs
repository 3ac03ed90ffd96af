//! A scheduling chunk: a square of world chunks that is scheduled as one unit.
use vstd::prelude::*;
use crate::config::{MAX_SCHUNK_DECAY_RATE, SCHUNK_SIZE};
use crate::pos::{SChunkPos, WChunkPos};
use crate::world::WChunk;

verus! {

/// Number of slots that hold something.
pub open spec fn count_some<T>(s: Seq<Option<T>>) -> nat
    decreases s.len(),
{
    if s.len() == 0 {
        0
    } else {
        count_some(s.drop_last()) + if s.last() is Some {
            1nat
        } else {
            0nat
        }
    }
}

/// Overwriting one slot changes the count by what left and what came in.
pub proof fn lemma_count_some_update<T>(s: Seq<Option<T>>, i: int, v: Option<T>)
    requires
        0 <= i < s.len(),
    ensures
        count_some(s.update(i, v)) + (if s[i] is Some { 1int } else { 0int }) == count_some(s) + (
        if v is Some {
            1int
        } else {
            0int
        }),
    decreases s.len(),
{
    let t = s.update(i, v);
    if i == s.len() - 1 {
        assert(t.drop_last() =~= s.drop_last());
    } else {
        assert(t.drop_last() =~= s.drop_last().update(i, v));
        lemma_count_some_update(s.drop_last(), i, v);
    }
}

/// The count is at most the number of slots.
pub proof fn lemma_count_some_bound<T>(s: Seq<Option<T>>)
    ensures
        count_some(s) <= s.len(),
    decreases s.len(),
{
    if s.len() > 0 {
        lemma_count_some_bound(s.drop_last());
    }
}

/// Slots that are all empty count nothing.
pub proof fn lemma_count_some_none<T>(s: Seq<Option<T>>)
    requires
        forall|i: int| 0 <= i < s.len() ==> #[trigger] s[i] is None,
    ensures
        count_some(s) == 0,
    decreases s.len(),
{
    if s.len() > 0 {
        lemma_count_some_none(s.drop_last());
    }
}

/// A scheduling chunk.  `wchunks` holds `SCHUNK_SIZE * SCHUNK_SIZE` slots, row
/// by row; `wchunk_count` is the number of slots that hold a loaded chunk;
/// `dep_level` decays while the chunk is not used and is reset when it is.
pub struct SChunk {
    pub wchunk_count: u16,
    pub dep_level: u8,
    pub pos: SChunkPos,
    pub wchunks: Vec<Option<Box<WChunk>>>,
}

/// The slot number of a world chunk inside its scheduling chunk.
pub open spec fn slot_index(p: WChunkPos) -> int {
    p.slot_of().0 * SCHUNK_SIZE as int + p.slot_of().1
}

impl SChunk {
    /// The slots as a sequence of (possibly loaded) chunks.
    pub open spec fn slots(self) -> Seq<Option<Box<WChunk>>> {
        self.wchunks@
    }

    /// The slots have the right number, and the count matches them.
    pub open spec fn wf(self) -> bool {
        &&& self.wchunks@.len() == SCHUNK_SIZE * SCHUNK_SIZE
        &&& self.wchunk_count as nat == count_some(self.wchunks@)
    }

    /// A new scheduling chunk at `pos`: nothing loaded, decay level at its top.
    pub open spec fn is_fresh(self, pos: SChunkPos) -> bool {
        &&& self.wf()
        &&& self.pos == pos
        &&& self.wchunk_count == 0
        &&& self.dep_level == MAX_SCHUNK_DECAY_RATE
        &&& forall|i: int| 0 <= i < self.slots().len() ==> #[trigger] self.slots()[i] is None
    }

    /// The chunk loaded at the slot of `p`, if any.
    pub open spec fn slot(self, p: WChunkPos) -> Option<Box<WChunk>> {
        self.wchunks@[slot_index(p)]
    }

    /// How many world chunks are left once the one at `p` is taken out.
    pub open spec fn count_without(self, p: WChunkPos) -> int {
        self.wchunk_count - (if self.slot(p) is Some {
            1int
        } else {
            0int
        })
    }

    /// `after` is this scheduling chunk with the world chunk at `p` taken
    /// out, as `remove_wchunk` leaves it.
    pub open spec fn removed_to(self, p: WChunkPos, after: SChunk) -> bool {
        &&& after.wf()
        &&& after.slots() == self.slots().update(slot_index(p), None)
        &&& after.pos == self.pos
        &&& after.dep_level == MAX_SCHUNK_DECAY_RATE
        &&& after.wchunk_count == self.count_without(p)
    }

    pub fn new(pos: SChunkPos) -> (s: Self)
        ensures
            s.is_fresh(pos),
    {
        let mut wchunks: Vec<Option<Box<WChunk>>> = Vec::new();
        let n = SCHUNK_SIZE * SCHUNK_SIZE;
        while wchunks.len() < n
            invariant
                n == SCHUNK_SIZE * SCHUNK_SIZE,
                wchunks@.len() <= n,
                forall|i: int| 0 <= i < wchunks@.len() ==> #[trigger] wchunks@[i] is None,
            decreases n - wchunks@.len(),
        {
            wchunks.push(None);
        }
        proof {
            lemma_count_some_none(wchunks@);
        }
        SChunk { wchunk_count: 0, dep_level: MAX_SCHUNK_DECAY_RATE, pos, wchunks }
    }

    /// The slot of `pos`, as a row and a column; marks the chunk as used.
    fn get_index(&mut self, pos: &WChunkPos) -> (r: (usize, usize))
        ensures
            r.0 as int == pos.slot_of().0,
            r.1 as int == pos.slot_of().1,
            r.0 < SCHUNK_SIZE,
            r.1 < SCHUNK_SIZE,
            final(self).dep_level == MAX_SCHUNK_DECAY_RATE,
            final(self).wchunks == old(self).wchunks,
            final(self).wchunk_count == old(self).wchunk_count,
            final(self).pos == old(self).pos,
    {
        self.dep_level = MAX_SCHUNK_DECAY_RATE;
        let sc_size = SCHUNK_SIZE as i64;
        let x = rem_floor(pos.x, sc_size);
        let z = rem_floor(pos.z, sc_size);
        (x as usize, z as usize)
    }

    /// The loaded chunk at `pos`, loading an empty one first if the slot is empty.
    pub fn load_wchunk(&mut self, pos: WChunkPos) -> (c: &mut WChunk)
        requires
            old(self).wf(),
        ensures
            final(self).wf(),
            final(self).pos == old(self).pos,
            final(self).dep_level == MAX_SCHUNK_DECAY_RATE,
            old(self).slot(pos) matches Some(b) ==> *c == *b && final(self).wchunk_count
                == old(self).wchunk_count,
            old(self).slot(pos) is None ==> c.loaded_at(pos) && final(self).wchunk_count
                == old(self).wchunk_count + 1,
            final(self).slots() == old(self).slots().update(slot_index(pos), Some(Box::new(*final(c)))),
    {
        let (x, z) = self.get_index(&pos);
        let i = x * SCHUNK_SIZE + z;
        assert(i as int == slot_index(pos));
        if self.wchunks[i].is_none() {
            proof {
                lemma_count_some_bound(self.wchunks@);
            }
            let fresh = Box::new(WChunk::load(pos));
            proof {
                lemma_count_some_update(self.wchunks@, i as int, Some(fresh));
            }
            self.wchunk_count = self.wchunk_count + 1;
            self.wchunks.set(i, Some(fresh));
        }
        let ghost before = *self;
        proof {
            lemma_keep_count(before, i as int);
        }
        match &mut self.wchunks[i] {
            Some(c) => c,
            None => vstd::pervasive::unreached(),
        }
    }

    /// Unloads the chunk at `pos` and hands it back, if one was loaded.
    pub fn remove_wchunk(&mut self, pos: &WChunkPos) -> (r: Option<Box<WChunk>>)
        requires
            old(self).wf(),
        ensures
            r == old(self).slot(*pos),
            old(self).removed_to(*pos, *final(self)),
    {
        let (x, z) = self.get_index(pos);
        let i = x * SCHUNK_SIZE + z;
        assert(i as int == slot_index(*pos));
        let mut wchunk: Option<Box<WChunk>> = None;
        proof {
            lemma_count_some_update(self.wchunks@, i as int, None::<Box<WChunk>>);
        }
        std::mem::swap(&mut wchunk, &mut self.wchunks[i]);
        if wchunk.is_some() {
            self.wchunk_count = self.wchunk_count - 1;
        }
        wchunk
    }

    /// The loaded chunk at `pos`, if any, for changing in place.
    pub fn get_wchunk(&mut self, pos: &WChunkPos) -> (r: Option<&mut Box<WChunk>>)
        requires
            old(self).wf(),
        ensures
            final(self).wf(),
            final(self).pos == old(self).pos,
            final(self).dep_level == MAX_SCHUNK_DECAY_RATE,
            final(self).wchunk_count == old(self).wchunk_count,
            r is None ==> old(self).slot(*pos) is None && final(self).slots() == old(self).slots(),
            r matches Some(b) ==> old(self).slot(*pos) == Some(*b) && final(self).slots()
                == old(self).slots().update(slot_index(*pos), Some(*final(b))),
    {
        let (x, z) = self.get_index(pos);
        let i = x * SCHUNK_SIZE + z;
        assert(i as int == slot_index(*pos));
        let ghost before = *self;
        proof {
            lemma_keep_count(before, i as int);
        }
        match &mut self.wchunks[i] {
            Some(c) => Some(c),
            None => None,
        }
    }
}

/// Replacing a loaded chunk by another keeps the count.
proof fn lemma_keep_count(s: SChunk, i: int)
    requires
        s.wf(),
        0 <= i < s.slots().len(),
    ensures
        s.slots()[i] is Some ==> forall|b: Box<WChunk>|
            #[trigger] count_some(s.slots().update(i, Some(b))) == s.wchunk_count,
        count_some(s.slots().update(i, s.slots()[i])) == s.wchunk_count,
{
    assert(s.slots().update(i, s.slots()[i]) =~= s.slots());
    if s.slots()[i] is Some {
        assert forall|b: Box<WChunk>| #[trigger] count_some(s.slots().update(i, Some(b))) == s.wchunk_count by {
            lemma_count_some_update(s.slots(), i, Some(b));
        }
    }
}

/// Floor remainder by a positive divisor, through `i64::checked_rem_euclid`.
fn rem_floor(x: i64, d: i64) -> (r: i64)
    requires
        d > 0,
    ensures
        r as int == x as int % d as int,
        0 <= r < d,
{
    match x.checked_rem_euclid(d) {
        Some(r) => r,
        None => vstd::pervasive::unreached(),
    }
}

} // verus!
