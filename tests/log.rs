use iggy_core::error::IggyError;
use iggy_core::log::{decode_messages, encode_messages};
use iggy_core::partition::{Message, Partition, PolledMessage, PollingStrategy};

fn appended_partition() -> Partition {
    let mut partition = Partition::new(1, 1 << 20);
    let batch: Vec<Message> = (0..20u32)
        .map(|i| Message { id: i as u128 + 100, payload: format!("m{i}").into_bytes() })
        .collect();
    partition.append_messages(&batch, 42).unwrap();
    partition
}

#[test]
fn restart_reads_back_every_message() {
    let partition = appended_partition();
    let stored = partition.get_messages(0, PollingStrategy::First, 1000).messages;
    let log = encode_messages(&stored);
    let read_back = decode_messages(&log).unwrap();
    assert_eq!(read_back, stored);
    let restarted = Partition::load(1, 1 << 20, read_back).unwrap();
    assert_eq!(restarted.next_offset(), partition.next_offset());
    assert_eq!(restarted.next_offset(), 20);
    let polled = restarted.get_messages(0, PollingStrategy::Offset(0), 1000);
    assert_eq!(polled.messages, stored);
}

#[test]
fn record_layout() {
    let message = PolledMessage { id: 1, offset: 2, timestamp: 3, payload: vec![0xAB] };
    let log = encode_messages(&vec![message]);
    assert_eq!(log.len(), 37);
    assert_eq!(&log[0..8], &2u64.to_le_bytes());
    assert_eq!(&log[8..16], &3u64.to_le_bytes());
    assert_eq!(&log[16..32], &1u128.to_le_bytes());
    assert_eq!(&log[32..36], &1u32.to_le_bytes());
    assert_eq!(log[36], 0xAB);
}

#[test]
fn truncated_log_is_corrupted() {
    let stored = appended_partition().get_messages(0, PollingStrategy::First, 1000).messages;
    let log = encode_messages(&stored);
    assert_eq!(decode_messages(&log[..log.len() - 1]), Err(IggyError::FileCorrupted));
    assert_eq!(decode_messages(&log[..10]), Err(IggyError::FileCorrupted));
    assert_eq!(decode_messages(&[]), Ok(vec![]));
}

#[test]
fn gaps_in_offsets_are_corrupted() {
    let messages = vec![
        PolledMessage { id: 1, offset: 5, timestamp: 1, payload: vec![] },
        PolledMessage { id: 2, offset: 7, timestamp: 1, payload: vec![] },
    ];
    assert!(matches!(Partition::load(1, 100, messages), Err(IggyError::FileCorrupted)));
    let messages = vec![
        PolledMessage { id: 1, offset: 5, timestamp: 9, payload: vec![] },
        PolledMessage { id: 2, offset: 6, timestamp: 1, payload: vec![] },
    ];
    assert!(matches!(Partition::load(1, 100, messages), Err(IggyError::FileCorrupted)));
    let loaded = Partition::load(1, 100, vec![PolledMessage { id: 1, offset: 5, timestamp: 9, payload: vec![] }]).unwrap();
    assert_eq!(loaded.next_offset(), 6);
    assert!(Partition::load(1, 100, vec![]).unwrap().next_offset() == 0);
}
