use std::collections::HashMap;

use pagestore::version::{BufferSet, DeltaVersion, FileInfo, LocalVersionCache, Version};
use pagestore::write_buffer::{ReleaseState, WriteBuffer};

#[test]
fn buffer_set_construct_and_drop() {
    drop(BufferSet::new(1 << 10));
}

#[test]
fn buffer_set_write_buffer_install() {
    let mut buffer_set = BufferSet::new(1 << 10);
    let file_id = buffer_set.current().next_file_id();
    let buf = WriteBuffer::with_capacity(file_id, buffer_set.write_buffer_capacity());
    buffer_set.install(buf);
}

#[test]
fn buffer_set_flush_handoff() {
    let mut buffer_set = BufferSet::new(1 << 10);
    // Nothing to flush yet: the worker's poll comes up empty.
    assert!(!buffer_set.try_wait_flushable());

    // 1. seal the previous buffer; the sealer sees it become flushable.
    assert!(matches!(buffer_set.seal_current(false), Ok(ReleaseState::Flush)));

    // 2. rotate in the successor buffer.
    let file_id = buffer_set.current().next_file_id();
    let buf = WriteBuffer::with_capacity(file_id, buffer_set.write_buffer_capacity());
    buffer_set.install(buf);

    // 3. hand over to the flush worker; the stored permit wakes one poll.
    buffer_set.notify_flush_job();
    assert!(buffer_set.try_wait_flushable());
    assert!(!buffer_set.try_wait_flushable());

    // 4. the worker retires the flushed buffer.
    assert_eq!(buffer_set.current().min_file_id(), 0);
    buffer_set.on_flushed(0);
    assert_eq!(buffer_set.current().min_file_id(), 1);
    assert_eq!(buffer_set.current().next_file_id(), 2);
}

#[test]
fn buffer_set_version_shape() {
    let mut buffer_set = BufferSet::new(1 << 10);
    for expected_id in 1u32..4 {
        buffer_set.seal_current(false).unwrap();
        let file_id = buffer_set.current().next_file_id();
        assert_eq!(file_id, expected_id);
        let buf = WriteBuffer::with_capacity(file_id, buffer_set.write_buffer_capacity());
        buffer_set.install(buf);
    }
    let current = buffer_set.current();
    assert_eq!(current.min_file_id(), 0);
    assert_eq!(current.next_file_id(), 4);
    // len(sealed) == (end - start) - 1, ids consecutive, current last.
    assert_eq!(current.sealed_buffers.len(), 3);
    for (i, sealed) in current.sealed_buffers.iter().enumerate() {
        assert_eq!(sealed.file_id(), i as u32);
    }
    assert_eq!(current.current_buffer.file_id(), 3);
}

#[test]
fn buffer_set_version_lookup_by_file_id() {
    let mut buffer_set = BufferSet::new(1 << 10);
    buffer_set.seal_current(false).unwrap();
    let buf = WriteBuffer::with_capacity(1, buffer_set.write_buffer_capacity());
    buffer_set.install(buf);
    let current = buffer_set.current();
    assert_eq!(current.write_buffer(0).map(|b| b.file_id()), Some(0));
    assert_eq!(current.write_buffer(1).map(|b| b.file_id()), Some(1));
    assert!(current.write_buffer(2).is_none());
    let snapshot = current.snapshot();
    assert_eq!(snapshot.len(), 2);
    assert_eq!(snapshot[0].file_id(), 0);
    assert_eq!(snapshot[1].file_id(), 1);
}

#[test]
fn version_chain_install_and_refresh() {
    let buffer_set = BufferSet::new(1 << 10);
    let mut version = Version::new(&buffer_set);
    assert!(version.refresh().is_none());

    let mut files = HashMap::new();
    files.insert(3u32, FileInfo { handle: 7 });
    version.install(&buffer_set, DeltaVersion { files, deleted_files: vec![9, 4] });

    let tail = version.refresh().unwrap();
    assert_eq!(tail.deleted_files(), vec![9, 4]);
    assert_eq!(tail.files().get(&3).map(|f| f.handle), Some(7));
    assert_eq!(tail.start_file_id, 0);
    assert_eq!(tail.end_file_id, 1);
    assert!(tail.refresh().is_none());
}

#[test]
fn version_local_cache_adopts_the_tail() {
    let buffer_set = BufferSet::new(1 << 10);
    let mut cache = LocalVersionCache::new();
    assert!(Version::from_local(&mut cache).is_none());

    let version = Version::new(&buffer_set);
    Version::set_local(&mut cache, version);
    {
        let cached = Version::get_local(&cache).unwrap();
        assert_eq!(cached.active_write_buffer_id(&buffer_set), 0);
    }

    // Install two successors through the cached version's chain.
    if let Some(slot) = cache.slot.as_mut() {
        slot.install(
            &buffer_set,
            DeltaVersion { files: HashMap::new(), deleted_files: vec![1] },
        );
        slot.install(
            &buffer_set,
            DeltaVersion { files: HashMap::new(), deleted_files: vec![2] },
        );
    }
    let adopted = Version::from_local(&mut cache).unwrap();
    assert_eq!(adopted.deleted_files(), vec![2]);
}
