use messfunc::pos::{div_floor, BlockPos, SChunkPos, WChunkPos};

#[test]
fn block_to_wchunk_positive() {
    let b = BlockPos { world: 7, x: 17, z: 31 };
    assert_eq!(b.to_wchunk_pos(), WChunkPos { world: 7, x: 1, z: 1 });
}

#[test]
fn block_to_wchunk_negative_floors() {
    let b = BlockPos { world: 1, x: -1, z: -16 };
    assert_eq!(b.to_wchunk_pos(), WChunkPos { world: 1, x: -1, z: -1 });
    let b = BlockPos { world: 1, x: -17, z: 0 };
    assert_eq!(b.to_wchunk_pos(), WChunkPos { world: 1, x: -2, z: 0 });
}

#[test]
fn block_to_schunk() {
    let b = BlockPos { world: 3, x: 255, z: 256 };
    assert_eq!(b.to_schunk_pos(), SChunkPos { world: 3, x: 0, z: 1 });
    let b = BlockPos { world: 3, x: -1, z: -257 };
    assert_eq!(b.to_schunk_pos(), SChunkPos { world: 3, x: -1, z: -2 });
}

#[test]
fn wchunk_to_schunk() {
    let w = WChunkPos { world: 9, x: 15, z: -1 };
    assert_eq!(w.to_schunk_pos(), SChunkPos { world: 9, x: 0, z: -1 });
    let w = WChunkPos { world: 9, x: 16, z: -17 };
    assert_eq!(w.to_schunk_pos(), SChunkPos { world: 9, x: 1, z: -2 });
}

#[test]
fn block_schunk_through_wchunk_agrees() {
    for x in [-1000i64, -257, -256, -255, -17, -16, -1, 0, 1, 15, 16, 255, 256, 4097] {
        for z in [-300i64, -1, 0, 300] {
            let b = BlockPos { world: 42, x, z };
            assert_eq!(b.to_wchunk_pos().to_schunk_pos(), b.to_schunk_pos());
        }
    }
}

#[test]
fn extremes_do_not_overflow() {
    let b = BlockPos { world: u128::MAX, x: i64::MIN, z: i64::MAX };
    let w = b.to_wchunk_pos();
    assert_eq!(w.x, i64::MIN / 16);
    assert_eq!(w.z, i64::MAX / 16);
    assert_eq!(b.to_schunk_pos(), w.to_schunk_pos());
}

#[test]
fn div_floor_values() {
    assert_eq!(div_floor(7, 2), 3);
    assert_eq!(div_floor(-7, 2), -4);
    assert_eq!(div_floor(-8, 2), -4);
    assert_eq!(div_floor(0, 5), 0);
}
