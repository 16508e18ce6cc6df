use iggy_core::cli::{GetTopicsCmd, GetTopicsOutput};
use iggy_core::error::IggyError;
use iggy_core::identifier::Identifier;
use iggy_core::response::{error_response, ok_response, response_for};
use iggy_core::transport::{IggyBatchCachePhantom, IggyBatchFetchResult, IggyBatchSlice, IggyHeader};
use std::sync::Arc;

#[test]
fn ok_response_frames_payload() {
    assert_eq!(ok_response(&[7, 8]), vec![0, 0, 0, 0, 2, 0, 0, 0, 7, 8]);
    assert_eq!(response_for(&Ok(vec![1])), vec![0, 0, 0, 0, 1, 0, 0, 0, 1]);
}

#[test]
fn error_response_carries_code() {
    assert_eq!(error_response(IggyError::Unauthenticated), vec![40, 0, 0, 0, 0, 0, 0, 0]);
    assert_eq!(response_for(&Err(IggyError::InvalidCommand)), vec![3, 0, 0, 0, 0, 0, 0, 0]);
    assert_eq!(IggyError::StreamIdNotFound.as_code(), 1009);
}

#[test]
fn batch_header_bytes() {
    let header = IggyHeader {
        base_offset: 1,
        last_offset_delta: 2,
        base_timestamp: 3,
        messages_count: 4,
        batch_length: 5,
        attributes: 6,
    };
    let bytes = header.as_bytes();
    assert_eq!(bytes.len(), 32);
    assert_eq!(&bytes[0..8], &1u64.to_le_bytes());
    assert_eq!(&bytes[8..12], &2u32.to_le_bytes());
    assert_eq!(&bytes[12..20], &3u64.to_le_bytes());
    assert_eq!(&bytes[28..32], &6u32.to_le_bytes());
}

#[test]
fn batch_transport_values() {
    let bytes = Arc::new(vec![1u8, 2, 3]);
    let phantom = IggyBatchCachePhantom::new(IggyHeader::default(), bytes.clone());
    assert_eq!(phantom.get_size_bytes(), 35);
    let slice = IggyBatchSlice::new(0..2, bytes.clone());
    assert_eq!(slice.range, 0..2);
    let result = IggyBatchFetchResult::new(vec![slice], IggyHeader::default());
    assert_eq!(result.batch_slices.len(), 1);
}

#[test]
fn get_topics_command_keeps_stream() {
    let cmd = GetTopicsCmd::new(Identifier::numeric(3).unwrap(), GetTopicsOutput::List);
    assert_eq!(cmd.get_topics.stream_id, Identifier::numeric(3).unwrap());
    assert_eq!(cmd.output, GetTopicsOutput::List);
}
