use iggy_core::client::{encode_topics, handle_response, Topic};
use iggy_core::error::IggyError;

fn record(id: u32, partitions: u32, name: &str) -> Vec<u8> {
    let mut bytes = Vec::new();
    bytes.extend_from_slice(&id.to_le_bytes());
    bytes.extend_from_slice(&partitions.to_le_bytes());
    bytes.extend_from_slice(&(name.len() as u32).to_le_bytes());
    bytes.extend_from_slice(name.as_bytes());
    bytes
}

#[test]
fn empty_response_is_no_topics() {
    assert_eq!(handle_response(&[]), Ok(vec![]));
}

#[test]
fn topics_come_back_ordered_by_id() {
    let mut bytes = record(7, 2, "orders");
    bytes.extend(record(3, 1, "audit"));
    bytes.extend(record(5, 4, ""));
    let topics = handle_response(&bytes).unwrap();
    assert_eq!(
        topics,
        vec![
            Topic { id: 3, partitions: 1, name: b"audit".to_vec() },
            Topic { id: 5, partitions: 4, name: vec![] },
            Topic { id: 7, partitions: 2, name: b"orders".to_vec() },
        ]
    );
}

#[test]
fn truncated_record_is_invalid_format() {
    let bytes = record(1, 1, "abc");
    assert_eq!(handle_response(&bytes[..bytes.len() - 1]), Err(IggyError::InvalidFormat));
    assert_eq!(handle_response(&bytes[..5]), Err(IggyError::InvalidFormat));
}

#[test]
fn listing_written_by_server_reads_back() {
    let topics = vec![
        Topic { id: 9, partitions: 3, name: b"nine".to_vec() },
        Topic { id: 2, partitions: 1, name: b"two".to_vec() },
    ];
    let bytes = encode_topics(&topics);
    assert_eq!(&bytes[0..4], &9u32.to_le_bytes());
    assert_eq!(&bytes[8..12], &4u32.to_le_bytes());
    let read = handle_response(&bytes).unwrap();
    assert_eq!(read, vec![topics[1].clone(), topics[0].clone()]);
}
