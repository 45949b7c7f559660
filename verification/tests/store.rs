use celyrion::memory::MemoryManager;
use celyrion::registry::{MemoryRegistry, Package, Registry, Revision};
use celyrion::state::{Bundle, BundleKey};
use celyrion::types::{Error, Quantity, Unit, VersionedId};

#[test]
fn reservations_are_bounded_by_capacity() {
    let mut mm = MemoryManager::new(10);
    assert!(mm.reserve(8).is_ok());
    assert!(mm.reserve(4).is_err());
    assert_eq!(mm.stats().reserved_bytes, 8);
}

#[test]
fn reservations_get_increasing_ids_and_exact_fit_succeeds() {
    let mut mm = MemoryManager::new(10);
    let a = mm.reserve(3).unwrap();
    let b = mm.reserve(7).unwrap();
    assert_eq!(a.id, 1);
    assert_eq!(b.id, 2);
    assert_eq!(b.amount, Quantity { value: 7, unit: Unit::Bytes });
    match mm.reserve(1) {
        Err(Error::CapacityExceeded(msg)) => assert_eq!(msg, "1 bytes requested, 0 available"),
        other => panic!("unexpected {other:?}"),
    }
    assert_eq!(mm.stats().reserved_bytes, 10);
    assert_eq!(mm.reserve(0).unwrap().id, 3);
}

#[test]
fn oversized_reservation_is_refused() {
    let mut mm = MemoryManager::new(10);
    mm.reserve(4).unwrap();
    match mm.reserve(7) {
        Err(Error::CapacityExceeded(msg)) => assert_eq!(msg, "7 bytes requested, 6 available"),
        other => panic!("unexpected {other:?}"),
    }
    assert_eq!(mm.stats().reserved_bytes, 4);
}

#[test]
fn commit_is_not_implemented() {
    let mut mm = MemoryManager::new(10);
    let r = mm.reserve(1).unwrap();
    match mm.commit(r, Bundle::new(VersionedId::new("kv", 1))) {
        Err(Error::NotImplemented(msg)) => assert_eq!(msg, "MemoryManager::commit"),
        other => panic!("unexpected {other:?}"),
    }
}

#[test]
fn revisions_are_immutable() {
    let mut registry = MemoryRegistry::default();
    let package = Package {
        id: VersionedId::new("llm", 1),
        artifacts: Vec::new(),
    };
    assert_eq!(registry.publish(package.clone()).unwrap(), Revision(1));
    assert!(registry.publish(package).is_err());
    assert!(registry.resolve("llm", Revision(1)).is_some());
}

#[test]
fn resolve_finds_by_name_and_revision() {
    let mut registry = MemoryRegistry::default();
    let p1 = Package { id: VersionedId::new("llm", 1), artifacts: Vec::new() };
    let p2 = Package { id: VersionedId::new("llm", 2), artifacts: Vec::new() };
    registry.publish(p1.clone()).unwrap();
    assert_eq!(registry.publish(p2.clone()).unwrap(), Revision(2));
    assert_eq!(registry.resolve("llm", Revision(2)), Some(&p2));
    assert_eq!(registry.resolve("llm", Revision(1)), Some(&p1));
    assert!(registry.resolve("llm", Revision(3)).is_none());
    assert!(registry.resolve("other", Revision(1)).is_none());
    match registry.publish(p1.clone()) {
        Err(Error::VersionMismatch { expected, found }) => {
            assert_eq!(expected, p1.id);
            assert_eq!(found, p1.id);
        }
        other => panic!("unexpected {other:?}"),
    }
    assert_eq!(p2.revision(), Revision(2));
}

#[test]
fn bundle_tracks_size() {
    let mut bundle = Bundle::new(VersionedId::new("kv", 1));
    bundle.insert(BundleKey("a".into()), vec![0; 4]);
    assert_eq!(
        bundle.size(),
        Quantity {
            value: 4,
            unit: Unit::Bytes
        }
    );
    assert_eq!(bundle.get(&BundleKey("a".into())), Some(&[0u8; 4][..]));
}

#[test]
fn bundle_insert_replaces_and_keeps_others() {
    let mut bundle = Bundle::new(VersionedId::new("kv", 1));
    bundle.insert(BundleKey("b".into()), vec![1, 2]);
    bundle.insert(BundleKey("a".into()), vec![3]);
    bundle.insert(BundleKey("b".into()), vec![9, 9, 9]);
    assert_eq!(bundle.get(&BundleKey("b".into())), Some(&[9u8, 9, 9][..]));
    assert_eq!(bundle.get(&BundleKey("a".into())), Some(&[3u8][..]));
    assert_eq!(bundle.get(&BundleKey("c".into())), None);
    assert_eq!(bundle.size().value, 4);
}

#[test]
fn bundles_with_the_same_entries_are_equal() {
    let mut x = Bundle::new(VersionedId::new("kv", 1));
    x.insert(BundleKey("b".into()), vec![2]);
    x.insert(BundleKey("a".into()), vec![1]);
    x.insert(BundleKey("ab".into()), vec![3]);
    let mut y = Bundle::new(VersionedId::new("kv", 1));
    y.insert(BundleKey("ab".into()), vec![3]);
    y.insert(BundleKey("a".into()), vec![1]);
    y.insert(BundleKey("b".into()), vec![2]);
    assert_eq!(x, y);
    assert_eq!(x.clone(), y);
    let d = Bundle::default();
    assert_eq!(d.schema, None);
    assert_eq!(d.size().value, 0);
}

#[test]
fn huge_reservation_is_refused_without_overflow() {
    let mut mm = MemoryManager::new(10);
    mm.reserve(4).unwrap();
    match mm.reserve(u64::MAX) {
        Err(Error::CapacityExceeded(msg)) => {
            assert_eq!(msg, "18446744073709551615 bytes requested, 6 available")
        }
        other => panic!("unexpected {other:?}"),
    }
    assert_eq!(mm.stats().reserved_bytes, 4);
    let mut small = MemoryManager::new(10);
    assert!(small.reserve(1).is_ok());
    assert!(small.reserve(u64::MAX).is_err());
    assert_eq!(small.stats().reserved_bytes, 1);
    assert_eq!(small.reserve(9).unwrap().id, 2);
}

#[test]
fn replacing_an_entry_counts_its_bytes_once() {
    let mut bundle = Bundle::new(VersionedId::new("kv", 1));
    bundle.insert(BundleKey("k".into()), vec![1, 2, 3, 4, 5]);
    bundle.insert(BundleKey("j".into()), vec![6]);
    assert_eq!(bundle.size().value, 6);
    bundle.insert(BundleKey("k".into()), vec![7, 8]);
    assert_eq!(bundle.size().value, 3);
    assert_eq!(bundle.get(&BundleKey("k".into())), Some(&[7u8, 8][..]));
    assert_eq!(bundle.get(&BundleKey("j".into())), Some(&[6u8][..]));
}
