use yxorp::runtime::slab::{OpKey, OpSlab};

#[test]
fn key_never_zero_so_zero_is_a_free_sentinel() {
    let mut slab: OpSlab<u32> = OpSlab::new();
    let key = slab.insert(7);
    assert_ne!(key.as_u64(), 0, "index 0 gen 1 must not encode to the 0 sentinel");
}

#[test]
fn insert_get_remove_roundtrips() {
    let mut slab: OpSlab<&str> = OpSlab::new();
    let a = slab.insert("a");
    let b = slab.insert("b");
    assert_eq!(slab.len(), 2);
    assert_eq!(slab.get_mut(a).copied(), Some("a"));
    assert_eq!(slab.get_mut(b).copied(), Some("b"));
    assert_eq!(slab.remove(a), Some("a"));
    assert_eq!(slab.len(), 1);
    assert!(slab.get_mut(a).is_none(), "removed key must not resolve");
}

#[test]
fn generation_reuse_rejects_stale_cqe() {
    let mut slab: OpSlab<u64> = OpSlab::new();
    let stale = slab.insert(100);
    assert_eq!(slab.remove(stale), Some(100));

    // Reuses the same slot index, but with a bumped generation.
    let fresh = slab.insert(200);
    assert_eq!(fresh.as_u64() >> 32, stale.as_u64() >> 32, "same slot index reused");
    assert_ne!(fresh.as_u64(), stale.as_u64(), "generation must differ");

    // A completion for the stale key must not touch the fresh occupant.
    assert!(slab.get_mut(stale).is_none(), "stale key resolved to reused slot");
    assert!(slab.remove(stale).is_none(), "stale key removed the fresh op");
    assert_eq!(slab.get_mut(fresh).copied(), Some(200), "fresh key must still resolve");
}

#[test]
fn double_remove_is_rejected() {
    let mut slab: OpSlab<u8> = OpSlab::new();
    let k = slab.insert(1);
    assert_eq!(slab.remove(k), Some(1));
    assert!(slab.remove(k).is_none(), "second remove of the same key must be a no-op");
}

#[test]
fn out_of_range_key_is_rejected() {
    let mut slab: OpSlab<u8> = OpSlab::new();
    let bogus = OpKey::from_u64((999u64 << 32) | 1);
    assert!(slab.get_mut(bogus).is_none());
    assert!(slab.remove(bogus).is_none());
}

#[test]
fn slab_keys_encode_index_and_generation() {
    let mut slab: OpSlab<u8> = OpSlab::with_capacity(4);
    assert!(slab.is_empty());
    assert!(slab.has_room());
    let a = slab.insert(1);
    let b = slab.insert(2);
    assert_eq!(a.as_u64(), 1);
    assert_eq!(b.as_u64(), (1u64 << 32) | 1);
    assert_eq!(slab.remove(a), Some(1));
    let c = slab.insert(3);
    // Freeing moves the generation on, and reuse moves it on again.
    assert_eq!(c.as_u64(), 3);
    assert!(slab.contains(c));
    assert!(!slab.contains(a));
    *slab.get_mut(c).unwrap() = 9;
    assert_eq!(slab.remove(c), Some(9));
    assert_eq!(slab.live_keys(), vec![b]);
    assert_eq!(OpSlab::<u8>::default().len(), 0);
}

#[test]
fn slots_are_reused_before_the_slab_grows() {
    let mut slab: OpSlab<u32> = OpSlab::with_capacity(64);
    let mut plain: OpSlab<u32> = OpSlab::default();
    let mut live: Vec<OpKey> = Vec::new();
    let mut gone: Vec<OpKey> = Vec::new();
    let mut peak = 0;
    for i in 0..200u32 {
        if i % 3 == 2 {
            let key = live.remove(i as usize % live.len());
            assert!(slab.remove(key).is_some());
            assert!(plain.remove(key).is_some());
            gone.push(key);
        } else if live.len() < 5 {
            let key = slab.insert(i);
            assert_eq!(plain.insert(i), key);
            assert_ne!(key.as_u64() & 0xffff_ffff, 0);
            live.push(key);
        }
        peak = peak.max(slab.len());
        assert_eq!(slab.len(), live.len());
        assert!(live.iter().all(|k| (k.as_u64() >> 32) < peak as u64));
        assert!(gone.iter().all(|k| !slab.contains(*k) && slab.get_mut(*k).is_none()));
    }
    for key in live {
        assert!(slab.remove(key).is_some());
        assert!(slab.remove(key).is_none());
    }
    assert!(slab.is_empty());
}

#[test]
fn the_slot_freed_last_is_taken_first() {
    let mut slab: OpSlab<u32> = OpSlab::new();
    let a = slab.insert(1);
    let b = slab.insert(2);
    slab.remove(a);
    slab.remove(b);
    assert_eq!(slab.insert(3).as_u64(), (1 << 32) | 3);
    assert_eq!(slab.insert(4).as_u64(), 3);
    assert_eq!(slab.insert(5).as_u64(), (2 << 32) | 1);
}
