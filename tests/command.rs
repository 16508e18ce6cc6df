use iggy_core::command::{
    CHANGE_PASSWORD_CODE, CREATE_CONSUMER_GROUP_CODE, CREATE_PARTITIONS_CODE, CREATE_PERSONAL_ACCESS_TOKEN_CODE, CREATE_STREAM_CODE, CREATE_TOPIC_CODE, CREATE_USER_CODE, ChangePassword, Command, CommandPayload, CreateConsumerGroup, CreatePartitions, CreatePersonalAccessToken, CreateStream, CreateTopic, CreateUser, DELETE_CONSUMER_GROUP_CODE, DELETE_PARTITIONS_CODE, DELETE_PERSONAL_ACCESS_TOKEN_CODE, DELETE_STREAM_CODE, DELETE_TOPIC_CODE, DELETE_USER_CODE, DeleteConsumerGroup, DeletePartitions, DeletePersonalAccessToken, DeleteStream, DeleteTopic, DeleteUser, GET_CLIENTS_CODE, GET_CLIENT_CODE, GET_CONSUMER_GROUPS_CODE, GET_CONSUMER_GROUP_CODE, GET_CONSUMER_OFFSET_CODE, GET_ME_CODE, GET_PERSONAL_ACCESS_TOKENS_CODE, GET_STATS_CODE, GET_STREAMS_CODE, GET_STREAM_CODE, GET_TOPICS_CODE, GET_TOPIC_CODE, GET_USERS_CODE, GET_USER_CODE, GetClient, GetClients, GetConsumerGroup, GetConsumerGroups, GetConsumerOffset, GetMe, GetPersonalAccessTokens, GetStats, GetStream, GetStreams, GetTopic, GetTopics, GetUser, GetUsers, JOIN_CONSUMER_GROUP_CODE, JoinConsumerGroup, LEAVE_CONSUMER_GROUP_CODE, LOGIN_USER_CODE, LOGIN_WITH_PERSONAL_ACCESS_TOKEN_CODE, LOGOUT_USER_CODE, LeaveConsumerGroup, LoginUser, LoginWithPersonalAccessToken, LogoutUser, PING_CODE, POLL_MESSAGES_CODE, PURGE_STREAM_CODE, PURGE_TOPIC_CODE, Ping, PollMessages, PurgeStream, PurgeTopic, SEND_MESSAGES_CODE, STORE_CONSUMER_OFFSET_CODE, SendMessages, StoreConsumerOffset, UPDATE_PERMISSIONS_CODE, UPDATE_STREAM_CODE, UPDATE_TOPIC_CODE, UPDATE_USER_CODE, UpdatePermissions, UpdateStream, UpdateTopic, UpdateUser, get_name_from_code,
};
use iggy_core::error::IggyError;
use iggy_core::identifier::Identifier;
use iggy_core::response::error_response;

#[test]
fn should_be_serialized_as_bytes_and_deserialized_from_bytes() {
    assert_serialized_as_bytes_and_deserialized_from_bytes(
        &Command::Ping(Ping::default()),
        PING_CODE,
        &Ping::default(),
    );
    assert_serialized_as_bytes_and_deserialized_from_bytes(
        &Command::GetStats(GetStats::default()),
        GET_STATS_CODE,
        &GetStats::default(),
    );
    assert_serialized_as_bytes_and_deserialized_from_bytes(
        &Command::GetMe(GetMe::default()),
        GET_ME_CODE,
        &GetMe::default(),
    );
    assert_serialized_as_bytes_and_deserialized_from_bytes(
        &Command::GetClient(GetClient::default()),
        GET_CLIENT_CODE,
        &GetClient::default(),
    );
    assert_serialized_as_bytes_and_deserialized_from_bytes(
        &Command::GetClients(GetClients::default()),
        GET_CLIENTS_CODE,
        &GetClients::default(),
    );
    assert_serialized_as_bytes_and_deserialized_from_bytes(
        &Command::GetUser(GetUser::default()),
        GET_USER_CODE,
        &GetUser::default(),
    );
    assert_serialized_as_bytes_and_deserialized_from_bytes(
        &Command::GetUsers(GetUsers::default()),
        GET_USERS_CODE,
        &GetUsers::default(),
    );
    assert_serialized_as_bytes_and_deserialized_from_bytes(
        &Command::CreateUser(CreateUser::default()),
        CREATE_USER_CODE,
        &CreateUser::default(),
    );
    assert_serialized_as_bytes_and_deserialized_from_bytes(
        &Command::DeleteUser(DeleteUser::default()),
        DELETE_USER_CODE,
        &DeleteUser::default(),
    );
    assert_serialized_as_bytes_and_deserialized_from_bytes(
        &Command::UpdateUser(UpdateUser::default()),
        UPDATE_USER_CODE,
        &UpdateUser::default(),
    );
    assert_serialized_as_bytes_and_deserialized_from_bytes(
        &Command::UpdatePermissions(UpdatePermissions::default()),
        UPDATE_PERMISSIONS_CODE,
        &UpdatePermissions::default(),
    );
    assert_serialized_as_bytes_and_deserialized_from_bytes(
        &Command::ChangePassword(ChangePassword::default()),
        CHANGE_PASSWORD_CODE,
        &ChangePassword::default(),
    );
    assert_serialized_as_bytes_and_deserialized_from_bytes(
        &Command::LoginUser(LoginUser::default()),
        LOGIN_USER_CODE,
        &LoginUser::default(),
    );
    assert_serialized_as_bytes_and_deserialized_from_bytes(
        &Command::LogoutUser(LogoutUser::default()),
        LOGOUT_USER_CODE,
        &LogoutUser::default(),
    );
    assert_serialized_as_bytes_and_deserialized_from_bytes(
        &Command::GetPersonalAccessTokens(GetPersonalAccessTokens::default()),
        GET_PERSONAL_ACCESS_TOKENS_CODE,
        &GetPersonalAccessTokens::default(),
    );
    assert_serialized_as_bytes_and_deserialized_from_bytes(
        &Command::CreatePersonalAccessToken(CreatePersonalAccessToken::default()),
        CREATE_PERSONAL_ACCESS_TOKEN_CODE,
        &CreatePersonalAccessToken::default(),
    );
    assert_serialized_as_bytes_and_deserialized_from_bytes(
        &Command::DeletePersonalAccessToken(DeletePersonalAccessToken::default()),
        DELETE_PERSONAL_ACCESS_TOKEN_CODE,
        &DeletePersonalAccessToken::default(),
    );
    assert_serialized_as_bytes_and_deserialized_from_bytes(
        &Command::LoginWithPersonalAccessToken(LoginWithPersonalAccessToken::default()),
        LOGIN_WITH_PERSONAL_ACCESS_TOKEN_CODE,
        &LoginWithPersonalAccessToken::default(),
    );
    assert_serialized_as_bytes_and_deserialized_from_bytes(
        &Command::SendMessages(SendMessages::default()),
        SEND_MESSAGES_CODE,
        &SendMessages::default(),
    );
    assert_serialized_as_bytes_and_deserialized_from_bytes(
        &Command::PollMessages(PollMessages::default()),
        POLL_MESSAGES_CODE,
        &PollMessages::default(),
    );
    assert_serialized_as_bytes_and_deserialized_from_bytes(
        &Command::StoreConsumerOffset(StoreConsumerOffset::default()),
        STORE_CONSUMER_OFFSET_CODE,
        &StoreConsumerOffset::default(),
    );
    assert_serialized_as_bytes_and_deserialized_from_bytes(
        &Command::GetConsumerOffset(GetConsumerOffset::default()),
        GET_CONSUMER_OFFSET_CODE,
        &GetConsumerOffset::default(),
    );
    assert_serialized_as_bytes_and_deserialized_from_bytes(
        &Command::GetStream(GetStream::default()),
        GET_STREAM_CODE,
        &GetStream::default(),
    );
    assert_serialized_as_bytes_and_deserialized_from_bytes(
        &Command::GetStreams(GetStreams::default()),
        GET_STREAMS_CODE,
        &GetStreams::default(),
    );
    assert_serialized_as_bytes_and_deserialized_from_bytes(
        &Command::CreateStream(CreateStream::default()),
        CREATE_STREAM_CODE,
        &CreateStream::default(),
    );
    assert_serialized_as_bytes_and_deserialized_from_bytes(
        &Command::DeleteStream(DeleteStream::default()),
        DELETE_STREAM_CODE,
        &DeleteStream::default(),
    );
    assert_serialized_as_bytes_and_deserialized_from_bytes(
        &Command::UpdateStream(UpdateStream::default()),
        UPDATE_STREAM_CODE,
        &UpdateStream::default(),
    );
    assert_serialized_as_bytes_and_deserialized_from_bytes(
        &Command::PurgeStream(PurgeStream::default()),
        PURGE_STREAM_CODE,
        &PurgeStream::default(),
    );
    assert_serialized_as_bytes_and_deserialized_from_bytes(
        &Command::GetTopic(GetTopic::default()),
        GET_TOPIC_CODE,
        &GetTopic::default(),
    );
    assert_serialized_as_bytes_and_deserialized_from_bytes(
        &Command::GetTopics(GetTopics::default()),
        GET_TOPICS_CODE,
        &GetTopics::default(),
    );
    assert_serialized_as_bytes_and_deserialized_from_bytes(
        &Command::CreateTopic(CreateTopic::default()),
        CREATE_TOPIC_CODE,
        &CreateTopic::default(),
    );
    assert_serialized_as_bytes_and_deserialized_from_bytes(
        &Command::DeleteTopic(DeleteTopic::default()),
        DELETE_TOPIC_CODE,
        &DeleteTopic::default(),
    );
    assert_serialized_as_bytes_and_deserialized_from_bytes(
        &Command::UpdateTopic(UpdateTopic::default()),
        UPDATE_TOPIC_CODE,
        &UpdateTopic::default(),
    );
    assert_serialized_as_bytes_and_deserialized_from_bytes(
        &Command::PurgeTopic(PurgeTopic::default()),
        PURGE_TOPIC_CODE,
        &PurgeTopic::default(),
    );
    assert_serialized_as_bytes_and_deserialized_from_bytes(
        &Command::CreatePartitions(CreatePartitions::default()),
        CREATE_PARTITIONS_CODE,
        &CreatePartitions::default(),
    );
    assert_serialized_as_bytes_and_deserialized_from_bytes(
        &Command::DeletePartitions(DeletePartitions::default()),
        DELETE_PARTITIONS_CODE,
        &DeletePartitions::default(),
    );
    assert_serialized_as_bytes_and_deserialized_from_bytes(
        &Command::GetConsumerGroup(GetConsumerGroup::default()),
        GET_CONSUMER_GROUP_CODE,
        &GetConsumerGroup::default(),
    );
    assert_serialized_as_bytes_and_deserialized_from_bytes(
        &Command::GetConsumerGroups(GetConsumerGroups::default()),
        GET_CONSUMER_GROUPS_CODE,
        &GetConsumerGroups::default(),
    );
    assert_serialized_as_bytes_and_deserialized_from_bytes(
        &Command::CreateConsumerGroup(CreateConsumerGroup::default()),
        CREATE_CONSUMER_GROUP_CODE,
        &CreateConsumerGroup::default(),
    );
    assert_serialized_as_bytes_and_deserialized_from_bytes(
        &Command::DeleteConsumerGroup(DeleteConsumerGroup::default()),
        DELETE_CONSUMER_GROUP_CODE,
        &DeleteConsumerGroup::default(),
    );
    assert_serialized_as_bytes_and_deserialized_from_bytes(
        &Command::JoinConsumerGroup(JoinConsumerGroup::default()),
        JOIN_CONSUMER_GROUP_CODE,
        &JoinConsumerGroup::default(),
    );
    assert_serialized_as_bytes_and_deserialized_from_bytes(
        &Command::LeaveConsumerGroup(LeaveConsumerGroup::default()),
        LEAVE_CONSUMER_GROUP_CODE,
        &LeaveConsumerGroup::default(),
    );
}

fn assert_serialized_as_bytes_and_deserialized_from_bytes(
    command: &Command,
    command_id: u32,
    payload: &dyn CommandPayload,
) {
    assert_serialized_as_bytes(command, command_id, payload);
    assert_deserialized_from_bytes(command, command_id, payload);
}

fn frame(command_id: u32, payload: &dyn CommandPayload) -> Vec<u8> {
    let payload = payload.as_bytes();
    let mut bytes = Vec::with_capacity(4 + payload.len());
    bytes.extend_from_slice(&command_id.to_le_bytes());
    bytes.extend_from_slice(&payload);
    bytes
}

fn assert_serialized_as_bytes(command: &Command, command_id: u32, payload: &dyn CommandPayload) {
    let bytes = frame(command_id, payload);
    assert_eq!(command.as_bytes(), bytes);
}

fn assert_deserialized_from_bytes(command: &Command, command_id: u32, payload: &dyn CommandPayload) {
    let bytes = frame(command_id, payload);
    assert_eq!(&Command::from_bytes(&bytes).unwrap(), command);
}

#[test]
fn unknown_code_is_invalid_command() {
    let bytes = [0xFFu8, 0xFF, 0xFF, 0xFF];
    let result = Command::from_bytes(&bytes);
    assert_eq!(result, Err(IggyError::InvalidCommand));
    let response = error_response(result.unwrap_err());
    assert_eq!(&response[0..4], &3u32.to_le_bytes());
    assert_eq!(&response[4..8], &0u32.to_le_bytes());
    assert_eq!(response.len(), 8);
}

#[test]
fn too_short_frame_is_invalid_command() {
    assert_eq!(Command::from_bytes(&[1, 0, 0]), Err(IggyError::InvalidCommand));
    assert_eq!(Command::from_bytes(&[]), Err(IggyError::InvalidCommand));
}

#[test]
fn names_follow_the_command_table() {
    assert_eq!(get_name_from_code(PING_CODE), Ok("ping"));
    assert_eq!(get_name_from_code(SEND_MESSAGES_CODE), Ok("message.send"));
    assert_eq!(get_name_from_code(LEAVE_CONSUMER_GROUP_CODE), Ok("consumer_group.leave"));
    assert_eq!(get_name_from_code(7), Err(IggyError::InvalidCommand));
    assert_eq!(Command::Ping(Ping::default()).name(), "ping");
    assert_eq!(Command::GetTopics(GetTopics::default()).code(), 301);
}

#[test]
fn codes_are_stable() {
    assert_eq!(PING_CODE, 1);
    assert_eq!(GET_STATS_CODE, 10);
    assert_eq!(GET_ME_CODE, 20);
    assert_eq!(LOGIN_USER_CODE, 38);
    assert_eq!(POLL_MESSAGES_CODE, 100);
    assert_eq!(SEND_MESSAGES_CODE, 101);
    assert_eq!(GET_CONSUMER_OFFSET_CODE, 120);
    assert_eq!(STORE_CONSUMER_OFFSET_CODE, 121);
    assert_eq!(CREATE_STREAM_CODE, 202);
    assert_eq!(CREATE_TOPIC_CODE, 302);
    assert_eq!(CREATE_PARTITIONS_CODE, 402);
    assert_eq!(JOIN_CONSUMER_GROUP_CODE, 604);
}

#[test]
fn frame_round_trip_keeps_payload_bytes() {
    let command = Command::SendMessages(SendMessages { bytes: vec![9, 8, 7, 6, 5] });
    let bytes = command.as_bytes();
    assert_eq!(bytes, vec![101, 0, 0, 0, 9, 8, 7, 6, 5]);
    assert_eq!(Command::from_bytes(&bytes).unwrap(), command);
}

#[test]
fn frame_round_trip_with_named_identifier() {
    let command = Command::GetTopics(GetTopics { stream_id: Identifier::named(b"orders").unwrap() });
    let bytes = command.as_bytes();
    assert_eq!(&bytes[0..4], &301u32.to_le_bytes());
    assert_eq!(&bytes[4..], &[2, 6, b'o', b'r', b'd', b'e', b'r', b's']);
    assert_eq!(Command::from_bytes(&bytes).unwrap(), command);
}

#[test]
fn get_user_with_short_payload_is_invalid_command() {
    let bytes = [31u8, 0, 0, 0, 1, 4];
    assert_eq!(Command::from_bytes(&bytes), Err(IggyError::InvalidCommand));
    let bytes = [31u8, 0, 0, 0, 9, 4, 1, 0, 0, 0];
    assert_eq!(Command::from_bytes(&bytes), Err(IggyError::InvalidIdentifier));
}
