use iggy_core::encryption::{apply_ciphertexts, decrypt_polled};
use iggy_core::error::IggyError;
use iggy_core::partition::{Message, PolledMessage, PolledMessages};

fn polled() -> PolledMessages {
    PolledMessages {
        partition_id: 1,
        current_offset: 2,
        messages: vec![
            PolledMessage { id: 1, offset: 0, timestamp: 5, payload: vec![9, 9] },
            PolledMessage { id: 2, offset: 1, timestamp: 6, payload: vec![8] },
        ],
    }
}

#[test]
fn ciphertexts_replace_payloads() {
    let messages = vec![Message { id: 1, payload: b"a".to_vec() }, Message { id: 2, payload: b"b".to_vec() }];
    let out = apply_ciphertexts(&messages, vec![Some(vec![0xAA, 1]), Some(vec![0xBB])]).unwrap();
    assert_eq!(out[0], Message { id: 1, payload: vec![0xAA, 1] });
    assert_eq!(out[1], Message { id: 2, payload: vec![0xBB] });
}

#[test]
fn one_failed_encryption_fails_the_batch() {
    let messages = vec![Message { id: 1, payload: b"a".to_vec() }, Message { id: 2, payload: b"b".to_vec() }];
    assert_eq!(apply_ciphertexts(&messages, vec![Some(vec![1]), None]), Err(IggyError::CannotEncryptData));
}

#[test]
fn plaintexts_replace_ciphertexts() {
    let out = decrypt_polled(polled(), vec![Some(b"x".to_vec()), Some(b"yz".to_vec())]).unwrap();
    assert_eq!(out.partition_id, 1);
    assert_eq!(out.current_offset, 2);
    assert_eq!(out.messages[0].payload, b"x".to_vec());
    assert_eq!(out.messages[1].payload, b"yz".to_vec());
    assert_eq!(out.messages[1].offset, 1);
    assert_eq!(out.messages[1].timestamp, 6);
}

#[test]
fn one_failed_decryption_fails_the_poll() {
    assert_eq!(decrypt_polled(polled(), vec![None, Some(vec![1])]), Err(IggyError::CannotDecryptData));
}
