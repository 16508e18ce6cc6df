use iggy_core::error::IggyError;
use iggy_core::index::{IndexEntry, SegmentIndex};

fn entry(relative_offset: u32, position: u32, timestamp: u64) -> IndexEntry {
    IndexEntry { relative_offset, position, timestamp }
}

fn index() -> SegmentIndex {
    let mut index = SegmentIndex::new();
    index.push(entry(0, 0, 100)).unwrap();
    index.push(entry(10, 500, 200)).unwrap();
    index.push(entry(20, 1000, 200)).unwrap();
    index.push(entry(30, 1500, 300)).unwrap();
    index
}

#[test]
fn offset_lookup_takes_greatest_entry_not_after_target() {
    let index = index();
    assert_eq!(index.find_by_offset(0), Some(entry(0, 0, 100)));
    assert_eq!(index.find_by_offset(15), Some(entry(10, 500, 200)));
    assert_eq!(index.find_by_offset(20), Some(entry(20, 1000, 200)));
    assert_eq!(index.find_by_offset(99), Some(entry(30, 1500, 300)));
    let mut late = SegmentIndex::new();
    late.push(entry(5, 0, 1)).unwrap();
    assert_eq!(late.find_by_offset(4), None);
    assert_eq!(SegmentIndex::new().find_by_offset(4), None);
}

#[test]
fn timestamp_lookup_takes_first_entry_at_or_after() {
    let index = index();
    assert_eq!(index.find_by_timestamp(50), Some(entry(0, 0, 100)));
    assert_eq!(index.find_by_timestamp(150), Some(entry(10, 500, 200)));
    assert_eq!(index.find_by_timestamp(200), Some(entry(10, 500, 200)));
    assert_eq!(index.find_by_timestamp(300), Some(entry(30, 1500, 300)));
    assert_eq!(index.find_by_timestamp(301), None);
}

#[test]
fn out_of_order_entries_are_refused() {
    let mut index = index();
    assert_eq!(index.push(entry(30, 0, 400)), Err(IggyError::InvalidOffset));
    assert_eq!(index.push(entry(40, 0, 299)), Err(IggyError::InvalidOffset));
    assert_eq!(index.len(), 4);
}
