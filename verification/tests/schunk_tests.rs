use messfunc::config::{MAX_SCHUNK_DECAY_RATE, SCHUNK_SIZE};
use messfunc::pos::{SChunkPos, WChunkPos};
use messfunc::schunk::SChunk;

fn origin() -> SChunkPos {
    SChunkPos { world: 5, x: 0, z: 0 }
}

#[test]
fn new_schunk_is_empty() {
    let s = SChunk::new(origin());
    assert_eq!(s.wchunk_count, 0);
    assert_eq!(s.dep_level, MAX_SCHUNK_DECAY_RATE);
    assert_eq!(s.wchunks.len(), SCHUNK_SIZE * SCHUNK_SIZE);
    assert!(s.wchunks.iter().all(|w| w.is_none()));
}

#[test]
fn load_then_get_then_remove() {
    let mut s = SChunk::new(origin());
    s.dep_level = 3;
    let pos = WChunkPos { world: 5, x: 2, z: 3 };
    let c = s.load_wchunk(pos);
    assert_eq!(c.pos, pos);
    assert!(c.entities.is_empty());
    assert_eq!(s.wchunk_count, 1);
    assert_eq!(s.dep_level, MAX_SCHUNK_DECAY_RATE);
    assert!(s.wchunks[2 * SCHUNK_SIZE + 3].is_some());
    // loading again does not count twice
    s.load_wchunk(pos);
    assert_eq!(s.wchunk_count, 1);
    assert!(s.get_wchunk(&pos).is_some());
    let removed = s.remove_wchunk(&pos).expect("loaded");
    assert_eq!(removed.pos, pos);
    assert_eq!(s.wchunk_count, 0);
    assert!(s.get_wchunk(&pos).is_none());
    assert!(s.remove_wchunk(&pos).is_none());
    assert_eq!(s.wchunk_count, 0);
}

#[test]
fn negative_positions_use_floor_slots() {
    let mut s = SChunk::new(SChunkPos { world: 5, x: -1, z: -1 });
    let pos = WChunkPos { world: 5, x: -1, z: -16 };
    s.load_wchunk(pos);
    assert!(s.wchunks[15 * SCHUNK_SIZE + 0].is_some());
    assert_eq!(s.wchunk_count, 1);
}

#[test]
fn distinct_chunks_distinct_slots() {
    let mut s = SChunk::new(origin());
    for x in 0..16i64 {
        for z in 0..16i64 {
            s.load_wchunk(WChunkPos { world: 5, x, z });
        }
    }
    assert_eq!(s.wchunk_count as usize, SCHUNK_SIZE * SCHUNK_SIZE);
    for x in 0..16i64 {
        for z in 0..16i64 {
            let p = WChunkPos { world: 5, x, z };
            assert_eq!(s.get_wchunk(&p).unwrap().pos, p);
        }
    }
}
