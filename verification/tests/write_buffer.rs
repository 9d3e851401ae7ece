use pagestore::write_buffer::{
    is_power_of_two_u32, next_multiple_of_u32, record_size, BufferState, RecordHeader, RecordRef,
    ReleaseState, WriteBuffer, FLAG_NORMAL_PAGE,
};
use pagestore::Error;

#[test]
fn buffer_state_load_and_apply() {
    let mut state = BufferState::default();
    assert!(!state.sealed);
    assert_eq!(state.num_writer, 0);
    assert_eq!(state.allocated, 0);

    state.set_sealed();
    state.inc_writer();
    state.alloc_size(3, 1024).unwrap();
    let raw = state.apply();

    let state = BufferState::load(raw);
    assert!(state.sealed);
    assert_eq!(state.num_writer, 1);
    assert_eq!(state.allocated, 8);
}

#[test]
fn record_header_record_size() {
    let tests: Vec<(u32, u32)> = vec![(1, 8), (8, 8), (15, 16), (16, 16)];
    for (page_size, body_size) in tests {
        let header = RecordHeader { page_id: 0, flags: FLAG_NORMAL_PAGE, page_size };
        assert_eq!(header.record_size(), 16 + body_size);
    }
}

#[test]
fn rounding_and_power_of_two_checks() {
    assert_eq!(next_multiple_of_u32(3, 8), 8);
    assert_eq!(next_multiple_of_u32(8, 8), 8);
    assert_eq!(next_multiple_of_u32(0, 8), 0);
    assert_eq!(record_size(0), 16);
    assert!(is_power_of_two_u32(512));
    assert!(!is_power_of_two_u32(513));
    assert!(!is_power_of_two_u32(0));
}

#[test]
fn write_buffer_construct_and_drop() {
    let buf = WriteBuffer::with_capacity(1, 512);
    drop(buf);
}

#[test]
fn write_buffer_seal() {
    let mut buf = WriteBuffer::with_capacity(1, 512);
    assert!(matches!(buf.seal(false), Ok(ReleaseState::Flush)));
}

#[test]
fn write_buffer_sealed_seal() {
    let mut buf = WriteBuffer::with_capacity(1, 512);
    assert!(matches!(buf.seal(false), Ok(ReleaseState::Flush)));
    assert!(matches!(buf.seal(false), Err(Error::Again)));
}

#[test]
fn write_buffer_sealed_but_write_inflights_seal() {
    // Even if the buffer is sealed, release writer is still needed.
    let mut buf = WriteBuffer::with_capacity(1, 1024);
    buf.batch(&vec![], &vec![1]).unwrap();
    buf.seal(false).unwrap();
    assert!(matches!(buf.seal(true), Ok(ReleaseState::Flush)));
}

#[test]
fn write_buffer_iterate() {
    let mut buf = WriteBuffer::with_capacity(1, 1024);

    // 1. add pages
    buf.batch(
        &vec![(1, 2), (3, 4), (5, 6), (7, 8), (9, 10)],
        &vec![11, 12, 13, 14, 15],
    )
    .unwrap();
    buf.release_writer();

    // 2. add tombstones
    let (page_addrs, deleted_addr) = buf.batch(&vec![(16, 17)], &vec![1, 2]).unwrap();
    for addr in &page_addrs {
        buf.set_tombstone(*addr);
    }
    if let Some(addr) = deleted_addr {
        buf.set_tombstone(addr);
    }

    assert!(matches!(buf.seal(true), Ok(ReleaseState::Flush)));

    let expect_deleted_pages: Vec<u64> = vec![11, 12, 13, 14, 15];
    let mut page_ids: Vec<u64> = Vec::new();
    let mut deleted_records = 0;
    for (_, header, record_ref) in buf.iter() {
        match record_ref {
            RecordRef::Page(_page) => {
                page_ids.push(header.page_id());
            }
            RecordRef::DeletedPages(deleted_pages) => {
                assert_eq!(deleted_pages.as_slice(), &expect_deleted_pages[..]);
                deleted_records += 1;
            }
        }
    }
    assert_eq!(page_ids, vec![1, 3, 5, 7, 9]);
    assert_eq!(deleted_records, 1);
}

#[test]
fn write_buffer_pages_alloc() {
    let mut buf = WriteBuffer::with_capacity(1, 1 << 20);

    // 1. alloc normal pages
    buf.alloc_page(1, 123, true).unwrap();

    // 2. alloc deleted pages
    buf.save_deleted_pages(&vec![5, 6, 7], false).unwrap();

    // 3. alloc but set page as tombstone.
    let addr = buf.alloc_page(2, 222, false).unwrap();
    buf.set_tombstone(addr);

    let header_addr = buf.save_deleted_pages(&vec![1, 3, 4], false).unwrap();
    buf.set_tombstone(header_addr);

    buf.release_writer();
}

#[test]
fn page_addr_roundtrip() {
    let mut buf = WriteBuffer::with_capacity(7, 1024);
    let addr = buf.alloc_page(42, 5, true).unwrap();
    // A fresh page region reads as zeroes.
    assert_eq!(buf.page(addr), &vec![0u8; 5]);
    buf.write_page(addr, vec![1, 2, 3, 4, 5]);
    assert_eq!(buf.page(addr), &vec![1, 2, 3, 4, 5]);
    buf.release_writer();
}

#[test]
fn batch_addresses_are_consecutive_payload_offsets() {
    let mut buf = WriteBuffer::with_capacity(3, 1024);
    let (addrs, deleted) = buf.batch(&vec![(1, 8), (2, 9)], &vec![77]).unwrap();
    // file id 3 in the upper half; record sizes 24 and 32, so the
    // payloads sit at offsets 16, 40 and 72.
    assert_eq!(addrs, vec![(3u64 << 32) | 16, (3u64 << 32) | 40]);
    // The deleted-pages record follows the second page record.
    assert_eq!(deleted, Some((3u64 << 32) | 72));
    buf.release_writer();
}

#[test]
fn allocation_stays_aligned_and_within_capacity() {
    let mut buf = WriteBuffer::with_capacity(1, 256);
    buf.alloc_page(1, 3, true).unwrap();
    buf.save_deleted_pages(&vec![9], false).unwrap();
    let state = buf.buffer_state();
    assert_eq!(state.allocated % 8, 0);
    assert!(state.allocated <= 256);
    // A batch that cannot fit fails with Again and changes nothing.
    let before = buf.buffer_state();
    assert!(matches!(buf.batch(&vec![(2, 1024)], &vec![]), Err(Error::Again)));
    let after = buf.buffer_state();
    assert_eq!(before, after);
    buf.release_writer();
}

#[test]
fn flushable_is_a_fixed_point() {
    let mut buf = WriteBuffer::with_capacity(1, 512);
    assert!(matches!(buf.seal(false), Ok(ReleaseState::Flush)));
    assert!(buf.is_flushable());
    // No transition leaves the flushable state.
    assert!(matches!(buf.alloc_page(1, 8, true), Err(Error::Again)));
    assert!(matches!(buf.save_deleted_pages(&vec![1], false), Err(Error::Again)));
    assert!(matches!(buf.batch(&vec![(1, 8)], &vec![]), Err(Error::Again)));
    assert!(matches!(buf.seal(false), Err(Error::Again)));
    assert!(buf.is_flushable());
}

#[test]
fn release_writer_signals_only_the_last_writer() {
    let mut buf = WriteBuffer::with_capacity(1, 1024);
    buf.alloc_page(1, 8, true).unwrap();
    buf.alloc_page(2, 8, true).unwrap();
    assert!(matches!(buf.seal(false), Ok(ReleaseState::Pending)));
    assert!(matches!(buf.release_writer(), ReleaseState::Pending));
    assert!(matches!(buf.release_writer(), ReleaseState::Flush));
    assert!(buf.is_flushable());
}
