use messfunc::pos::SChunkPos;
use messfunc::vec_map::VecMap;

#[test]
fn insert_get_remove() {
    let mut m: VecMap<u64, &str> = VecMap::new();
    assert!(m.is_empty());
    assert_eq!(m.insert(3, "a"), None);
    assert_eq!(m.insert(5, "b"), None);
    assert_eq!(m.len(), 2);
    assert_eq!(m.get(&3), Some(&"a"));
    assert_eq!(m.insert(3, "c"), Some("a"));
    assert_eq!(m.len(), 2);
    assert_eq!(m.get(&3), Some(&"c"));
    assert!(m.contains_key(&5));
    assert_eq!(m.remove(&5), Some("b"));
    assert_eq!(m.remove(&5), None);
    assert!(!m.contains_key(&5));
    assert_eq!(m.len(), 1);
}

#[test]
fn order_is_insertion_order() {
    let mut m: VecMap<u64, u64> = VecMap::new();
    for k in [9u64, 1, 4] {
        m.insert(k, k * 10);
    }
    assert_eq!(m.key_at(0), 9);
    assert_eq!(m.key_at(2), 4);
    assert_eq!(*m.value_at(1), 10);
    assert_eq!(m.pop(), Some((4, 40)));
    m.remove(&9);
    assert_eq!(m.key_at(0), 1);
    *m.get_mut(&1) += 1;
    assert_eq!(m.get(&1), Some(&11));
}

#[test]
fn position_keys() {
    let mut m: VecMap<SChunkPos, u64> = VecMap::new();
    let a = SChunkPos { world: 1, x: -1, z: 2 };
    let b = SChunkPos { world: 2, x: -1, z: 2 };
    m.insert(a, 1);
    m.insert(b, 2);
    assert_eq!(m.get(&a), Some(&1));
    assert_eq!(m.get(&b), Some(&2));
    assert_eq!(m.find(&b), Some(1));
}
