use pagestore::epoch;
use pagestore::pagetable::{PageTable, L0_MAX, L1_MAX, L2_MAX};

#[test]
fn test_alloc() {
    let guard = epoch::pin();
    let mut table = PageTable::new();
    assert_eq!(table.alloc_id(&guard), Some(0));
    assert_eq!(table.alloc_id(&guard), Some(1));
    table.dealloc(0, &guard);
    table.dealloc(1, &guard);
    assert_eq!(table.alloc_id(&guard), Some(1));
    assert_eq!(table.alloc_id(&guard), Some(0));
}

#[test]
fn test_index() {
    let mut table = PageTable::new();
    for i in [0, L0_MAX - 1, L0_MAX, L1_MAX - 1, L1_MAX, L2_MAX - 1] {
        table.set(i, i);
        assert_eq!(table.get(i), i);
    }
}

#[test]
fn alloc_returns_distinct_live_ids() {
    let guard = epoch::pin();
    let mut table = PageTable::new();
    let a = table.alloc_id(&guard).unwrap();
    let b = table.alloc_id(&guard).unwrap();
    let c = table.alloc_id(&guard).unwrap();
    assert_ne!(a, b);
    assert_ne!(a, c);
    assert_ne!(b, c);
    assert!(a < L2_MAX && b < L2_MAX && c < L2_MAX);
    // Freeing one id must not hand out a still-live one.
    table.dealloc(b, &guard);
    let d = table.alloc_id(&guard).unwrap();
    assert_eq!(d, b);
    assert_ne!(d, a);
    assert_ne!(d, c);
}

#[test]
fn cas_publishes_and_reports_conflicts() {
    let guard = epoch::pin();
    let mut table = PageTable::new();
    let id = table.alloc_id(&guard).unwrap();
    table.set(id, 10);
    assert_eq!(table.cas(id, 10, 20), Ok(10));
    assert_eq!(table.get(id), 20);
    assert_eq!(table.cas(id, 10, 30), Err(20));
    assert_eq!(table.get(id), 20);
}

#[test]
fn epoch_pin_reports_pinned() {
    let _guard = epoch::pin();
    assert!(epoch::is_pinned());
}
