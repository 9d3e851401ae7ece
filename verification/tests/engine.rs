use pagestore::iter::{MergeIterBuilder, PageIter};
use pagestore::stats::{AtomicStats, Counter};

struct FixedIter {
    items: Vec<u64>,
    pos: usize,
}

impl PageIter for FixedIter {
    fn seek(&mut self, _key: &[u8]) {
        self.pos = 0;
    }
}

#[test]
fn merge_iter_builder_collects_children() {
    let mut builder: MergeIterBuilder<FixedIter> = MergeIterBuilder::default();
    builder.add(FixedIter { items: vec![1, 2], pos: 0 });
    builder.add(FixedIter { items: vec![3], pos: 0 });
    let merged = builder.build();
    assert_eq!(merged.children.len(), 2);
    assert_eq!(merged.children[0].items, vec![1, 2]);
    assert_eq!(merged.children[1].items, vec![3]);
}

#[test]
fn stats_snapshot_reads_counters() {
    let mut stats = AtomicStats::default();
    stats.success.get.inc();
    stats.success.get.inc();
    stats.failure.write.inc();
    let snapshot = stats.snapshot();
    assert_eq!(snapshot.success.get, 2);
    assert_eq!(snapshot.success.write, 0);
    assert_eq!(snapshot.failure.write, 1);
    assert_eq!(snapshot.failure.consolidate_page, 0);

    let mut counter = Counter::new();
    counter.inc();
    assert_eq!(counter.get(), 1);
}
