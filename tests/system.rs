use iggy_core::client::{handle_response, Topic};
use iggy_core::command::{Command, GetTopics, Ping};
use iggy_core::encryption::decrypt_polled;
use iggy_core::error::IggyError;
use iggy_core::identifier::Identifier;
use iggy_core::partition::{Message, PollingStrategy};
use iggy_core::response::ok_response;
use iggy_core::system::{
    Permissions, PersonalAccessTokenConfig, PollingArgs, Scope, Session, System, SystemConfig,
};
use iggy_core::topic::{Consumer, Partitioning};

const SECOND: u64 = 1_000_000;
const NOW: u64 = 10;

fn system() -> System {
    System::new(
        SystemConfig { segment_size_limit: 1024 * 1024, cache_limit_bytes: 1024 * 1024, encryption_enabled: false },
        PersonalAccessTokenConfig { max_tokens_per_user: 100 },
    )
}

fn messages(count: u32) -> Vec<Message> {
    (0..count)
        .map(|i| Message { id: i as u128 + 1, payload: format!("message {i}").into_bytes() })
        .collect()
}

fn id(n: u32) -> Identifier {
    Identifier::numeric(n).unwrap()
}

fn setup(system: &mut System, session: &Session, partitions: u32, expiry: Option<u64>) {
    system.create_stream(session, 1, "test-stream").unwrap();
    system.create_topic(session, &id(1), 1, partitions, "test-topic", expiry).unwrap();
}

#[test]
fn happy_path() {
    let mut system = system();
    let session = Session::stateless(1, 1);

    let ping = Command::Ping(Ping::default()).as_bytes();
    assert!(matches!(Command::from_bytes(&ping), Ok(Command::Ping(_))));
    assert_eq!(ok_response(&[]), vec![0, 0, 0, 0, 0, 0, 0, 0]);

    assert!(system.get_streams(&session).unwrap().is_empty());
    system.create_stream(&session, 1, "test-stream").unwrap();
    let streams = system.get_streams(&session).unwrap();
    assert_eq!(streams.len(), 1);
    assert_eq!(streams[0].id, 1);
    assert_eq!(streams[0].name, b"test-stream".to_vec());

    system.create_topic(&session, &id(1), 1, 2, "test-topic", None).unwrap();
    let topics = system.get_topics(&session, &id(1)).unwrap();
    assert_eq!(topics.len(), 1);
    assert_eq!(topics[0].id, 1);
    assert_eq!(topics[0].partitions_count, 2);
    assert_eq!(topics[0].name, b"test-topic".to_vec());

    let batch = messages(1000);
    system
        .append_messages(&session, &id(1), &id(1), &Partitioning::PartitionId(1), &batch, 10, None)
        .unwrap();

    let args = PollingArgs::new(PollingStrategy::Offset(0), 1000, false);
    let polled = system
        .poll_messages(&session, &Consumer::Consumer(1), &id(1), &id(1), Some(1), args, NOW)
        .unwrap();
    assert_eq!(polled.messages.len(), 1000);
    assert_eq!(polled.partition_id, 1);
    for (i, m) in polled.messages.iter().enumerate() {
        assert_eq!(m.offset, i as u64);
        assert_eq!(m.payload, format!("message {i}").into_bytes());
    }

    let polled = system
        .poll_messages(&session, &Consumer::Consumer(1), &id(1), &id(1), Some(2), args, NOW)
        .unwrap();
    assert!(polled.messages.is_empty());

    system.delete_topic(&session, &id(1), &id(1)).unwrap();
    assert!(system.get_topics(&session, &id(1)).unwrap().is_empty());
    system.delete_stream(&session, &id(1)).unwrap();
    assert!(system.get_streams(&session).unwrap().is_empty());
}

#[test]
fn batching() {
    let mut system = system();
    let session = Session::stateless(1, 1);
    setup(&mut system, &session, 2, None);
    system
        .append_messages(&session, &id(1), &id(1), &Partitioning::PartitionId(1), &messages(1000), 10, None)
        .unwrap();
    for batch in 0..10u64 {
        let start = batch * 100;
        let args = PollingArgs::new(PollingStrategy::Offset(start), 100, false);
        let polled = system
            .poll_messages(&session, &Consumer::Consumer(1), &id(1), &id(1), Some(1), args, NOW)
            .unwrap();
        assert_eq!(polled.messages.len(), 100);
        for (i, m) in polled.messages.iter().enumerate() {
            assert_eq!(m.offset, start + i as u64);
        }
    }
}

#[test]
fn group_rebalance() {
    let mut system = system();
    let admin = Session::stateless(1, 1);
    setup(&mut system, &admin, 4, None);
    system.create_consumer_group(&admin, &id(1), &id(1), 1, "g").unwrap();
    let a = Session::stateless(1, 10);
    let b = Session::stateless(1, 20);
    system.join_consumer_group(&a, &id(1), &id(1), 1).unwrap();
    system.join_consumer_group(&b, &id(1), &id(1), 1).unwrap();
    assert_eq!(system.get_member_partitions(&a, &id(1), &id(1), 1).unwrap(), vec![0, 1]);
    assert_eq!(system.get_member_partitions(&b, &id(1), &id(1), 1).unwrap(), vec![2, 3]);
    system.leave_consumer_group(&b, &id(1), &id(1), 1).unwrap();
    assert_eq!(system.get_member_partitions(&a, &id(1), &id(1), 1).unwrap(), vec![0, 1, 2, 3]);
    assert!(system.get_member_partitions(&b, &id(1), &id(1), 1).unwrap().is_empty());
}

#[test]
fn expiry() {
    let mut system = system();
    let session = Session::stateless(1, 1);
    setup(&mut system, &session, 1, Some(SECOND));
    let t0 = 100 * SECOND;
    system
        .append_messages(&session, &id(1), &id(1), &Partitioning::PartitionId(1), &messages(10), t0, None)
        .unwrap();
    let args = PollingArgs::new(PollingStrategy::Offset(0), 10, false);
    let polled = system
        .poll_messages(&session, &Consumer::Consumer(1), &id(1), &id(1), Some(1), args, t0 + 2 * SECOND)
        .unwrap();
    assert!(polled.messages.is_empty());
    assert_eq!(polled.current_offset, 10);
    let topics = system.get_topics(&session, &id(1)).unwrap();
    assert_eq!(topics[0].messages_count, 0);
}

#[test]
fn messages_younger_than_expiry_stay() {
    let mut system = system();
    let session = Session::stateless(1, 1);
    setup(&mut system, &session, 1, Some(10 * SECOND));
    system
        .append_messages(&session, &id(1), &id(1), &Partitioning::PartitionId(1), &messages(10), SECOND, None)
        .unwrap();
    system.delete_expired_segments(2 * SECOND);
    let topics = system.get_topics(&session, &id(1)).unwrap();
    assert_eq!(topics[0].messages_count, 10);
}

#[test]
fn no_wait_persistence() {
    let mut system = system();
    let session = Session::stateless(1, 1);
    setup(&mut system, &session, 1, None);
    system
        .append_messages(&session, &id(1), &id(1), &Partitioning::Balanced, &messages(100), 10, None)
        .unwrap();
    system.flush_unsaved_buffer(&session, &id(1), &id(1), 1, true).unwrap();
    let args = PollingArgs::new(PollingStrategy::First, 1000, false);
    let polled = system
        .poll_messages(&session, &Consumer::Consumer(1), &id(1), &id(1), None, args, NOW)
        .unwrap();
    assert_eq!(polled.messages.len(), 100);
    assert_eq!(
        system.flush_unsaved_buffer(&session, &id(1), &id(1), 2, true),
        Err(IggyError::PartitionNotFound(2))
    );
}

#[test]
fn unauthenticated_session_is_refused() {
    let mut system = system();
    let session = Session::new(1);
    assert_eq!(system.ensure_authenticated(&session), Err(IggyError::Unauthenticated));
    assert_eq!(system.get_streams(&session), Err(IggyError::Unauthenticated));
    assert_eq!(system.create_stream(&session, 1, "s"), Err(IggyError::Unauthenticated));
    let mut session = session;
    session.login(7);
    assert_eq!(system.ensure_authenticated(&session), Ok(()));
    session.logout();
    assert_eq!(system.ensure_authenticated(&session), Err(IggyError::Unauthenticated));
}

#[test]
fn stream_and_topic_errors() {
    let mut system = system();
    let session = Session::stateless(1, 1);
    setup(&mut system, &session, 2, None);
    assert_eq!(system.create_stream(&session, 1, "other"), Err(IggyError::StreamIdAlreadyExists(1)));
    assert_eq!(system.create_stream(&session, 2, "test-stream"), Err(IggyError::StreamNameAlreadyExists));
    assert_eq!(system.create_stream(&session, 2, ""), Err(IggyError::InvalidStreamName));
    assert_eq!(
        system.create_topic(&session, &id(9), 1, 1, "t", None),
        Err(IggyError::StreamIdNotFound)
    );
    assert_eq!(
        system.create_topic(&session, &id(1), 1, 1, "t", None),
        Err(IggyError::TopicIdAlreadyExists(1, 1))
    );
    assert_eq!(
        system.create_topic(&session, &id(1), 2, 1, "test-topic", None),
        Err(IggyError::TopicNameAlreadyExists)
    );
    assert_eq!(
        system.create_topic(&session, &id(1), 2, 0, "t", None),
        Err(IggyError::InvalidTopicPartitions)
    );
    let named = Identifier::named(b"test-topic").unwrap();
    let stream = Identifier::named(b"test-stream").unwrap();
    assert_eq!(
        system.append_messages(&session, &stream, &named, &Partitioning::PartitionId(3), &messages(1), 1, None),
        Err(IggyError::PartitionNotFound(3))
    );
    assert_eq!(
        system.append_messages(&session, &stream, &id(5), &Partitioning::PartitionId(1), &messages(1), 1, None),
        Err(IggyError::TopicIdNotFound)
    );
    assert_eq!(
        system.append_messages(&session, &stream, &named, &Partitioning::MessagesKey(vec![]), &messages(1), 1, None),
        Err(IggyError::InvalidPartitioning)
    );
    assert_eq!(
        system.append_messages(&session, &stream, &named, &Partitioning::PartitionId(1), &vec![], 1, None),
        Err(IggyError::InvalidMessagesCount)
    );
    let args = PollingArgs::new(PollingStrategy::First, 0, false);
    assert_eq!(
        system.poll_messages(&session, &Consumer::Consumer(1), &stream, &named, Some(1), args, NOW),
        Err(IggyError::InvalidMessagesCount)
    );
    let args = PollingArgs::new(PollingStrategy::First, 5, false);
    assert_eq!(
        system.poll_messages(&session, &Consumer::Consumer(1), &stream, &named, None, args, NOW),
        Err(IggyError::PartitionNotFound(0))
    );
}

#[test]
fn balanced_and_keyed_partitioning() {
    let mut system = system();
    let session = Session::stateless(1, 1);
    setup(&mut system, &session, 3, None);
    for _ in 0..6 {
        system
            .append_messages(&session, &id(1), &id(1), &Partitioning::Balanced, &messages(1), 1, None)
            .unwrap();
    }
    let args = PollingArgs::new(PollingStrategy::First, 100, false);
    for p in 1..=3 {
        let polled = system
            .poll_messages(&session, &Consumer::Consumer(1), &id(1), &id(1), Some(p), args, NOW)
            .unwrap();
        assert_eq!(polled.messages.len(), 2);
    }
    let key = Partitioning::MessagesKey(b"user-42".to_vec());
    for _ in 0..4 {
        system.append_messages(&session, &id(1), &id(1), &key, &messages(1), 1, None).unwrap();
    }
    let counts: Vec<usize> = (1..=3)
        .map(|p| {
            system
                .poll_messages(&session, &Consumer::Consumer(1), &id(1), &id(1), Some(p), args, NOW)
                .unwrap()
                .messages
                .len()
        })
        .collect();
    assert_eq!(counts.iter().sum::<usize>(), 10);
    assert!(counts.contains(&6));
}

#[test]
fn auto_commit_and_next() {
    let mut system = system();
    let session = Session::stateless(1, 1);
    setup(&mut system, &session, 1, None);
    system
        .append_messages(&session, &id(1), &id(1), &Partitioning::PartitionId(1), &messages(10), 1, None)
        .unwrap();
    let consumer = Consumer::Consumer(5);
    let next = PollingArgs::new(PollingStrategy::Next, 4, true);
    let first = system.poll_messages(&session, &consumer, &id(1), &id(1), Some(1), next, NOW).unwrap();
    assert_eq!(first.messages.iter().map(|m| m.offset).collect::<Vec<_>>(), vec![0, 1, 2, 3]);
    let second = system.poll_messages(&session, &consumer, &id(1), &id(1), Some(1), next, NOW).unwrap();
    assert_eq!(second.messages.iter().map(|m| m.offset).collect::<Vec<_>>(), vec![4, 5, 6, 7]);
    system.store_consumer_offset(&session, &consumer, &id(1), &id(1), Some(1), 1).unwrap();
    let third = system.poll_messages(&session, &consumer, &id(1), &id(1), Some(1), next, NOW).unwrap();
    assert_eq!(third.messages[0].offset, 2);
    assert_eq!(
        system.store_consumer_offset(&session, &consumer, &id(1), &id(1), Some(1), 10),
        Err(IggyError::InvalidOffset)
    );
}

#[test]
fn group_member_without_share_polls_nothing() {
    let mut system = system();
    let admin = Session::stateless(1, 1);
    setup(&mut system, &admin, 1, None);
    system.create_consumer_group(&admin, &id(1), &id(1), 7, "g").unwrap();
    let a = Session::stateless(1, 10);
    let b = Session::stateless(1, 20);
    system.join_consumer_group(&a, &id(1), &id(1), 7).unwrap();
    system.join_consumer_group(&b, &id(1), &id(1), 7).unwrap();
    system
        .append_messages(&admin, &id(1), &id(1), &Partitioning::PartitionId(1), &messages(3), 1, None)
        .unwrap();
    let args = PollingArgs::new(PollingStrategy::First, 10, false);
    let group = Consumer::ConsumerGroup(7);
    let polled_a = system.poll_messages(&a, &group, &id(1), &id(1), None, args, NOW).unwrap();
    assert_eq!(polled_a.messages.len(), 3);
    assert_eq!(polled_a.partition_id, 1);
    let polled_b = system.poll_messages(&b, &group, &id(1), &id(1), None, args, NOW).unwrap();
    assert!(polled_b.messages.is_empty());
    assert_eq!(polled_b.partition_id, 0);
    let stranger = Session::stateless(1, 30);
    assert_eq!(
        system.poll_messages(&stranger, &group, &id(1), &id(1), None, args, NOW),
        Err(IggyError::ConsumerGroupMemberNotFound)
    );
}

#[test]
fn encryption_status_text() {
    let system = System::create(
        SystemConfig { segment_size_limit: 1, cache_limit_bytes: 1, encryption_enabled: true },
        PersonalAccessTokenConfig { max_tokens_per_user: 1 },
    );
    assert_eq!(system.encryption_status(), "enabled");
    assert_eq!(self::system().encryption_status(), "disabled");
}

#[test]
fn purge_keeps_topic_and_empties_partitions() {
    let mut system = system();
    let session = Session::stateless(1, 1);
    setup(&mut system, &session, 2, None);
    system
        .append_messages(&session, &id(1), &id(1), &Partitioning::PartitionId(2), &messages(5), 1, None)
        .unwrap();
    system.purge_topic(&session, &id(1), &id(1)).unwrap();
    let topics = system.get_topics(&session, &id(1)).unwrap();
    assert_eq!(topics[0].messages_count, 0);
    assert_eq!(topics[0].partitions_count, 2);
    system
        .append_messages(&session, &id(1), &id(1), &Partitioning::PartitionId(2), &messages(1), 1, None)
        .unwrap();
    let args = PollingArgs::new(PollingStrategy::First, 10, false);
    let polled = system
        .poll_messages(&session, &Consumer::Consumer(1), &id(1), &id(1), Some(2), args, NOW)
        .unwrap();
    assert_eq!(polled.messages[0].offset, 0);
}

#[test]
fn permissions_gate_commands() {
    let mut system = system();
    let root = Session::stateless(1, 1);
    setup(&mut system, &root, 1, None);
    let reader = Session::stateless(2, 2);
    assert_eq!(system.check_permission(&reader, Scope::ReadStreams), Err(IggyError::PermissionDenied));
    assert_eq!(system.get_streams(&reader), Err(IggyError::PermissionDenied));
    let grant = Permissions { manage_streams: false, read_streams: true, poll_messages: true, send_messages: false };
    assert_eq!(system.update_permissions(&reader, 2, grant), Err(IggyError::PermissionDenied));
    system.update_permissions(&root, 2, grant).unwrap();
    assert_eq!(system.get_streams(&reader).unwrap().len(), 1);
    assert_eq!(
        system.append_messages(&reader, &id(1), &id(1), &Partitioning::PartitionId(1), &messages(1), 1, None),
        Err(IggyError::PermissionDenied)
    );
    assert_eq!(system.create_stream(&reader, 2, "mine"), Err(IggyError::PermissionDenied));
    let args = PollingArgs::new(PollingStrategy::First, 10, false);
    assert!(system.poll_messages(&reader, &Consumer::Consumer(2), &id(1), &id(1), Some(1), args, NOW).is_ok());
    assert_eq!(system.check_permission(&Session::new(3), Scope::ReadStreams), Err(IggyError::Unauthenticated));
}

#[test]
fn get_topics_request_is_answered_with_a_listing() {
    let mut system = system();
    let session = Session::stateless(1, 1);
    setup(&mut system, &session, 3, None);
    let request = GetTopics { stream_id: id(1) };
    let response = system.handle_get_topics(&session, &request);
    assert_eq!(&response[0..4], &0u32.to_le_bytes());
    let length = u32::from_le_bytes(response[4..8].try_into().unwrap()) as usize;
    assert_eq!(response.len(), 8 + length);
    let topics = handle_response(&response[8..]).unwrap();
    assert_eq!(topics, vec![Topic { id: 1, partitions: 3, name: b"test-topic".to_vec() }]);
    let missing = system.handle_get_topics(&session, &GetTopics { stream_id: id(4) });
    assert_eq!(missing, vec![0xF1, 0x03, 0, 0, 0, 0, 0, 0]);
}

#[test]
fn expired_messages_stay_until_expiry_time() {
    let mut system = system();
    let session = Session::stateless(1, 1);
    setup(&mut system, &session, 1, Some(SECOND));
    system
        .append_messages(&session, &id(1), &id(1), &Partitioning::PartitionId(1), &messages(3), 5 * SECOND, None)
        .unwrap();
    let args = PollingArgs::new(PollingStrategy::First, 10, false);
    let early = system
        .poll_messages(&session, &Consumer::Consumer(1), &id(1), &id(1), Some(1), args, 5 * SECOND + 10)
        .unwrap();
    assert_eq!(early.messages.len(), 3);
}

#[test]
fn lone_group_member_rotates_through_its_share() {
    let mut system = system();
    let admin = Session::stateless(1, 1);
    setup(&mut system, &admin, 2, None);
    system.create_consumer_group(&admin, &id(1), &id(1), 3, "g").unwrap();
    system.append_messages(&admin, &id(1), &id(1), &Partitioning::PartitionId(1), &messages(1), 1, None).unwrap();
    system.append_messages(&admin, &id(1), &id(1), &Partitioning::PartitionId(2), &messages(1), 1, None).unwrap();
    let member = Session::stateless(1, 42);
    system.join_consumer_group(&member, &id(1), &id(1), 3).unwrap();
    let args = PollingArgs::new(PollingStrategy::First, 10, false);
    let group = Consumer::ConsumerGroup(3);
    let seen: Vec<u32> = (0..4)
        .map(|_| {
            system
                .poll_messages(&member, &group, &id(1), &id(1), None, args, NOW)
                .unwrap()
                .partition_id
        })
        .collect();
    assert_eq!(seen, vec![1, 2, 1, 2]);
}

#[test]
fn errors_come_in_order_login_count_topic_permission() {
    let mut system = system();
    let root = Session::stateless(1, 1);
    setup(&mut system, &root, 1, None);
    let stranger = Session::stateless(9, 9);
    let zero = PollingArgs::new(PollingStrategy::First, 0, false);
    assert_eq!(
        system.poll_messages(&stranger, &Consumer::Consumer(1), &id(1), &id(1), Some(1), zero, NOW),
        Err(IggyError::InvalidMessagesCount)
    );
    let args = PollingArgs::new(PollingStrategy::First, 5, false);
    assert_eq!(
        system.poll_messages(&stranger, &Consumer::Consumer(1), &id(7), &id(1), Some(1), args, NOW),
        Err(IggyError::StreamIdNotFound)
    );
    assert_eq!(
        system.poll_messages(&stranger, &Consumer::Consumer(1), &id(1), &id(1), Some(1), args, NOW),
        Err(IggyError::PermissionDenied)
    );
    assert_eq!(
        system.append_messages(&stranger, &id(7), &id(1), &Partitioning::PartitionId(1), &messages(1), 1, None),
        Err(IggyError::StreamIdNotFound)
    );
    assert_eq!(
        system.flush_unsaved_buffer(&stranger, &id(1), &id(2), 1, true),
        Err(IggyError::TopicIdNotFound)
    );
    assert_eq!(
        system.flush_unsaved_buffer(&stranger, &id(1), &id(1), 1, true),
        Err(IggyError::PermissionDenied)
    );
}


fn shift(data: &[u8]) -> Vec<u8> {
    data.iter().map(|b| b.wrapping_add(1)).collect()
}

fn unshift(data: &[u8]) -> Vec<u8> {
    data.iter().map(|b| b.wrapping_sub(1)).collect()
}

fn encrypted_system() -> System {
    System::new(
        SystemConfig { segment_size_limit: 1 << 20, cache_limit_bytes: 1 << 20, encryption_enabled: true },
        PersonalAccessTokenConfig { max_tokens_per_user: 1 },
    )
}

#[test]
fn encryption_round_trip() {
    let mut system = encrypted_system();
    let session = Session::stateless(1, 1);
    setup(&mut system, &session, 1, None);
    let batch = messages(5);
    let ciphertexts: Vec<Option<Vec<u8>>> = batch.iter().map(|m| Some(shift(&m.payload))).collect();
    system
        .append_messages(&session, &id(1), &id(1), &Partitioning::PartitionId(1), &batch, 1, Some(ciphertexts))
        .unwrap();
    let args = PollingArgs::new(PollingStrategy::First, 10, false);
    let stored = system
        .poll_messages(&session, &Consumer::Consumer(1), &id(1), &id(1), Some(1), args, NOW)
        .unwrap();
    for (m, input) in stored.messages.iter().zip(batch.iter()) {
        assert_ne!(m.payload, input.payload);
    }
    let plaintexts: Vec<Option<Vec<u8>>> = stored.messages.iter().map(|m| Some(unshift(&m.payload))).collect();
    let polled = decrypt_polled(stored, plaintexts).unwrap();
    assert_eq!(polled.messages.len(), 5);
    for (i, (m, input)) in polled.messages.iter().zip(batch.iter()).enumerate() {
        assert_eq!(m.payload, input.payload);
        assert_eq!(m.offset, i as u64);
    }
}

#[test]
fn failed_encryption_or_decryption_fails_everything() {
    let mut system = encrypted_system();
    let session = Session::stateless(1, 1);
    setup(&mut system, &session, 1, None);
    let batch = messages(2);
    assert_eq!(
        system.append_messages(
            &session,
            &id(1),
            &id(1),
            &Partitioning::PartitionId(1),
            &batch,
            1,
            Some(vec![Some(vec![1]), None])
        ),
        Err(IggyError::CannotEncryptData)
    );
    let args = PollingArgs::new(PollingStrategy::First, 10, false);
    let stored = system
        .poll_messages(&session, &Consumer::Consumer(1), &id(1), &id(1), Some(1), args, NOW)
        .unwrap();
    assert!(stored.messages.is_empty());
    system
        .append_messages(&session, &id(1), &id(1), &Partitioning::PartitionId(1), &batch, 1, Some(vec![Some(vec![7]), Some(vec![8])]))
        .unwrap();
    let stored = system
        .poll_messages(&session, &Consumer::Consumer(1), &id(1), &id(1), Some(1), args, NOW)
        .unwrap();
    assert_eq!(stored.messages[1].payload, vec![8]);
    assert_eq!(decrypt_polled(stored, vec![Some(vec![1]), None]), Err(IggyError::CannotDecryptData));
}
