use iggy_core::error::IggyError;
use iggy_core::partition::{Message, Partition, PollingStrategy};

fn batch(count: usize, from: usize) -> Vec<Message> {
    (from..from + count)
        .map(|i| Message { id: i as u128, payload: format!("payload {i}").into_bytes() })
        .collect()
}

#[test]
fn append_then_poll_returns_the_batch_in_order() {
    let mut partition = Partition::new(1, 1 << 20);
    let messages = batch(25, 0);
    partition.append_messages(&messages, 1000).unwrap();
    let polled = partition.get_messages(1, PollingStrategy::Offset(0), 100);
    assert_eq!(polled.messages.len(), 25);
    assert_eq!(polled.current_offset, 25);
    for (i, m) in polled.messages.iter().enumerate() {
        assert_eq!(m.offset, i as u64);
        assert_eq!(m.id, messages[i].id);
        assert_eq!(m.payload, messages[i].payload);
        assert_eq!(m.timestamp, 1000);
    }
}

#[test]
fn offsets_are_contiguous_across_batches() {
    let mut partition = Partition::new(1, 1 << 20);
    partition.append_messages(&batch(3, 0), 10).unwrap();
    partition.append_messages(&batch(4, 3), 20).unwrap();
    let polled = partition.get_messages(1, PollingStrategy::First, 100);
    let offsets: Vec<u64> = polled.messages.iter().map(|m| m.offset).collect();
    assert_eq!(offsets, vec![0, 1, 2, 3, 4, 5, 6]);
    assert_eq!(partition.next_offset(), 7);
}

#[test]
fn polling_strategies() {
    let mut partition = Partition::new(1, 1 << 20);
    partition.append_messages(&batch(5, 0), 100).unwrap();
    partition.append_messages(&batch(5, 5), 200).unwrap();
    let offsets = |s: PollingStrategy, n: u32| -> Vec<u64> {
        partition.get_messages(9, s, n).messages.iter().map(|m| m.offset).collect()
    };
    assert_eq!(offsets(PollingStrategy::Offset(8), 10), vec![8, 9]);
    assert_eq!(offsets(PollingStrategy::Offset(10), 10), Vec::<u64>::new());
    assert_eq!(offsets(PollingStrategy::Offset(50), 10), Vec::<u64>::new());
    assert_eq!(offsets(PollingStrategy::Timestamp(150), 2), vec![5, 6]);
    assert_eq!(offsets(PollingStrategy::Timestamp(50), 1), vec![0]);
    assert_eq!(offsets(PollingStrategy::Timestamp(201), 1), Vec::<u64>::new());
    assert_eq!(offsets(PollingStrategy::Last(3), 10), vec![7, 8, 9]);
    assert_eq!(offsets(PollingStrategy::Last(30), 2), vec![0, 1]);
    assert_eq!(offsets(PollingStrategy::Next, 2), vec![0, 1]);
    let mut partition = partition;
    partition.store_consumer_offset(9, 4);
    assert_eq!(partition.get_consumer_offset(9), Some(4));
    let polled = partition.get_messages(9, PollingStrategy::Next, 2);
    assert_eq!(polled.messages[0].offset, 5);
}

#[test]
fn timestamps_never_go_back() {
    let mut partition = Partition::new(1, 1 << 20);
    partition.append_messages(&batch(1, 0), 500).unwrap();
    partition.append_messages(&batch(1, 1), 100).unwrap();
    let polled = partition.get_messages(1, PollingStrategy::First, 10);
    assert_eq!(polled.messages[1].timestamp, 500);
}

#[test]
fn empty_batch_is_refused() {
    let mut partition = Partition::new(1, 1 << 20);
    assert_eq!(partition.append_messages(&vec![], 1), Err(IggyError::InvalidMessagesCount));
    assert_eq!(partition.next_offset(), 0);
}

#[test]
fn segments_rotate_at_the_size_limit() {
    let mut partition = Partition::new(1, 100);
    assert_eq!(partition.segments_count(), 1);
    // 36 bytes of header plus 9 bytes of payload per message
    partition.append_messages(&batch(2, 0), 1).unwrap();
    assert_eq!(partition.segments_count(), 1);
    partition.append_messages(&batch(1, 2), 1).unwrap();
    assert_eq!(partition.segments_count(), 2);
    partition.append_messages(&batch(1, 3), 1).unwrap();
    assert_eq!(partition.segments_count(), 2);
}

#[test]
fn expired_segments_are_deleted() {
    let mut partition = Partition::new(1, 100);
    partition.append_messages(&batch(3, 0), 10).unwrap();
    partition.append_messages(&batch(2, 3), 50).unwrap();
    assert_eq!(partition.segments_count(), 2);
    partition.delete_expired_segments(30, 15);
    assert_eq!(partition.messages_count(), 2);
    let polled = partition.get_messages(1, PollingStrategy::First, 10);
    assert_eq!(polled.messages[0].offset, 3);
    partition.delete_expired_segments(100, 15);
    assert_eq!(partition.messages_count(), 0);
    assert_eq!(partition.next_offset(), 5);
    partition.append_messages(&batch(1, 5), 100).unwrap();
    let polled = partition.get_messages(1, PollingStrategy::First, 10);
    assert_eq!(polled.messages[0].offset, 5);
}
