use crate::codec::{append_bytes, copy_range};
use crate::error::IggyError;
use crate::identifier::{spec_identifier_bytes, spec_identifier_decode, lemma_identifier_round_trip, Identifier};
use vstd::prelude::*;
use vstd::bytes::{spec_u32_from_le_bytes, spec_u32_to_le_bytes, u32_from_le_bytes, u32_to_le_bytes};

verus! {

pub const PING: &'static str = "ping";
pub const PING_CODE: u32 = 1;
pub const GET_STATS: &'static str = "stats";
pub const GET_STATS_CODE: u32 = 10;
pub const GET_ME: &'static str = "me";
pub const GET_ME_CODE: u32 = 20;
pub const GET_CLIENT: &'static str = "client.get";
pub const GET_CLIENT_CODE: u32 = 21;
pub const GET_CLIENTS: &'static str = "client.list";
pub const GET_CLIENTS_CODE: u32 = 22;
pub const GET_USER: &'static str = "user.get";
pub const GET_USER_CODE: u32 = 31;
pub const GET_USERS: &'static str = "user.list";
pub const GET_USERS_CODE: u32 = 32;
pub const CREATE_USER: &'static str = "user.create";
pub const CREATE_USER_CODE: u32 = 33;
pub const DELETE_USER: &'static str = "user.delete";
pub const DELETE_USER_CODE: u32 = 34;
pub const UPDATE_USER: &'static str = "user.update";
pub const UPDATE_USER_CODE: u32 = 35;
pub const UPDATE_PERMISSIONS: &'static str = "user.permissions";
pub const UPDATE_PERMISSIONS_CODE: u32 = 36;
pub const CHANGE_PASSWORD: &'static str = "user.password";
pub const CHANGE_PASSWORD_CODE: u32 = 37;
pub const LOGIN_USER: &'static str = "user.login";
pub const LOGIN_USER_CODE: u32 = 38;
pub const LOGOUT_USER: &'static str = "user.logout";
pub const LOGOUT_USER_CODE: u32 = 39;
pub const GET_PERSONAL_ACCESS_TOKENS: &'static str = "personal_access_token.list";
pub const GET_PERSONAL_ACCESS_TOKENS_CODE: u32 = 41;
pub const CREATE_PERSONAL_ACCESS_TOKEN: &'static str = "personal_access_token.create";
pub const CREATE_PERSONAL_ACCESS_TOKEN_CODE: u32 = 42;
pub const DELETE_PERSONAL_ACCESS_TOKEN: &'static str = "personal_access_token.delete";
pub const DELETE_PERSONAL_ACCESS_TOKEN_CODE: u32 = 43;
pub const LOGIN_WITH_PERSONAL_ACCESS_TOKEN: &'static str = "personal_access_token.login";
pub const LOGIN_WITH_PERSONAL_ACCESS_TOKEN_CODE: u32 = 44;
pub const POLL_MESSAGES: &'static str = "message.poll";
pub const POLL_MESSAGES_CODE: u32 = 100;
pub const SEND_MESSAGES: &'static str = "message.send";
pub const SEND_MESSAGES_CODE: u32 = 101;
pub const GET_CONSUMER_OFFSET: &'static str = "consumer_offset.get";
pub const GET_CONSUMER_OFFSET_CODE: u32 = 120;
pub const STORE_CONSUMER_OFFSET: &'static str = "consumer_offset.store";
pub const STORE_CONSUMER_OFFSET_CODE: u32 = 121;
pub const GET_STREAM: &'static str = "stream.get";
pub const GET_STREAM_CODE: u32 = 200;
pub const GET_STREAMS: &'static str = "stream.list";
pub const GET_STREAMS_CODE: u32 = 201;
pub const CREATE_STREAM: &'static str = "stream.create";
pub const CREATE_STREAM_CODE: u32 = 202;
pub const DELETE_STREAM: &'static str = "stream.delete";
pub const DELETE_STREAM_CODE: u32 = 203;
pub const UPDATE_STREAM: &'static str = "stream.update";
pub const UPDATE_STREAM_CODE: u32 = 204;
pub const PURGE_STREAM: &'static str = "stream.purge";
pub const PURGE_STREAM_CODE: u32 = 205;
pub const GET_TOPIC: &'static str = "topic.get";
pub const GET_TOPIC_CODE: u32 = 300;
pub const GET_TOPICS: &'static str = "topic.list";
pub const GET_TOPICS_CODE: u32 = 301;
pub const CREATE_TOPIC: &'static str = "topic.create";
pub const CREATE_TOPIC_CODE: u32 = 302;
pub const DELETE_TOPIC: &'static str = "topic.delete";
pub const DELETE_TOPIC_CODE: u32 = 303;
pub const UPDATE_TOPIC: &'static str = "topic.update";
pub const UPDATE_TOPIC_CODE: u32 = 304;
pub const PURGE_TOPIC: &'static str = "topic.purge";
pub const PURGE_TOPIC_CODE: u32 = 305;
pub const CREATE_PARTITIONS: &'static str = "partition.create";
pub const CREATE_PARTITIONS_CODE: u32 = 402;
pub const DELETE_PARTITIONS: &'static str = "partition.delete";
pub const DELETE_PARTITIONS_CODE: u32 = 403;
pub const GET_CONSUMER_GROUP: &'static str = "consumer_group.get";
pub const GET_CONSUMER_GROUP_CODE: u32 = 600;
pub const GET_CONSUMER_GROUPS: &'static str = "consumer_group.list";
pub const GET_CONSUMER_GROUPS_CODE: u32 = 601;
pub const CREATE_CONSUMER_GROUP: &'static str = "consumer_group.create";
pub const CREATE_CONSUMER_GROUP_CODE: u32 = 602;
pub const DELETE_CONSUMER_GROUP: &'static str = "consumer_group.delete";
pub const DELETE_CONSUMER_GROUP_CODE: u32 = 603;
pub const JOIN_CONSUMER_GROUP: &'static str = "consumer_group.join";
pub const JOIN_CONSUMER_GROUP_CODE: u32 = 604;
pub const LEAVE_CONSUMER_GROUP: &'static str = "consumer_group.leave";
pub const LEAVE_CONSUMER_GROUP_CODE: u32 = 605;

/// The payload of a command whose fields this library carries as raw bytes.
#[derive(Debug, Clone, PartialEq, Eq, Default)]
pub struct RawPayload {
    pub bytes: Vec<u8>,
}

impl RawPayload {
    /// The payload bytes.
    pub fn as_bytes(&self) -> (r: Vec<u8>)
        ensures
            r@ == self.bytes@,
    {
        let r = copy_range(self.bytes.as_slice(), 0, self.bytes.len());
        assert(self.bytes@.subrange(0, self.bytes@.len() as int) =~= self.bytes@);
        r
    }
}

/// What follows the code in a request frame.
pub trait CommandPayload {
    fn as_bytes(&self) -> Vec<u8>;
}

impl CommandPayload for RawPayload {
    fn as_bytes(&self) -> Vec<u8> {
        RawPayload::as_bytes(self)
    }
}

pub type Ping = RawPayload;
pub type GetStats = RawPayload;
pub type GetMe = RawPayload;
pub type GetClient = RawPayload;
pub type GetClients = RawPayload;
pub type GetUsers = RawPayload;
pub type CreateUser = RawPayload;
pub type DeleteUser = RawPayload;
pub type UpdateUser = RawPayload;
pub type UpdatePermissions = RawPayload;
pub type ChangePassword = RawPayload;
pub type LoginUser = RawPayload;
pub type LogoutUser = RawPayload;
pub type GetPersonalAccessTokens = RawPayload;
pub type CreatePersonalAccessToken = RawPayload;
pub type DeletePersonalAccessToken = RawPayload;
pub type LoginWithPersonalAccessToken = RawPayload;
pub type SendMessages = RawPayload;
pub type PollMessages = RawPayload;
pub type GetConsumerOffset = RawPayload;
pub type StoreConsumerOffset = RawPayload;
pub type GetStream = RawPayload;
pub type GetStreams = RawPayload;
pub type CreateStream = RawPayload;
pub type DeleteStream = RawPayload;
pub type UpdateStream = RawPayload;
pub type PurgeStream = RawPayload;
pub type GetTopic = RawPayload;
pub type CreateTopic = RawPayload;
pub type DeleteTopic = RawPayload;
pub type UpdateTopic = RawPayload;
pub type PurgeTopic = RawPayload;
pub type CreatePartitions = RawPayload;
pub type DeletePartitions = RawPayload;
pub type GetConsumerGroup = RawPayload;
pub type GetConsumerGroups = RawPayload;
pub type CreateConsumerGroup = RawPayload;
pub type DeleteConsumerGroup = RawPayload;
pub type JoinConsumerGroup = RawPayload;
pub type LeaveConsumerGroup = RawPayload;

/// `GetUser` retrieves a user by its identifier (numeric or name).
#[derive(Debug, Clone, PartialEq, Eq, Default)]
pub struct GetUser {
    pub user_id: Identifier,
}

impl GetUser {
    /// The payload is the wire form of the identifier.
    pub fn as_bytes(&self) -> (r: Vec<u8>)
        ensures
            self.user_id.wf() ==> r@ == spec_identifier_bytes(self.user_id@),
    {
        self.user_id.as_bytes()
    }

    /// A payload shorter than three bytes is refused as `InvalidCommand`;
    /// otherwise the identifier is read from its front.
    pub fn from_bytes(bytes: &[u8]) -> (r: Result<GetUser, IggyError>)
        ensures
            spec_identifier_payload_decode(bytes@) matches Ok(v) ==> r is Ok && r->Ok_0.user_id.wf()
                && r->Ok_0.user_id@ == v,
            spec_identifier_payload_decode(bytes@) matches Err(e) ==> r == Err::<GetUser, IggyError>(e),
    {
        if bytes.len() < 3 {
            return Err(IggyError::InvalidCommand);
        }
        let user_id = Identifier::from_bytes(bytes)?;
        Ok(GetUser { user_id })
    }
}

impl CommandPayload for GetUser {
    fn as_bytes(&self) -> Vec<u8> {
        GetUser::as_bytes(self)
    }
}


/// `GetTopics` lists the topics of the stream with this identifier (numeric or name).
#[derive(Debug, Clone, PartialEq, Eq, Default)]
pub struct GetTopics {
    pub stream_id: Identifier,
}

impl GetTopics {
    /// The payload is the wire form of the identifier.
    pub fn as_bytes(&self) -> (r: Vec<u8>)
        ensures
            self.stream_id.wf() ==> r@ == spec_identifier_bytes(self.stream_id@),
    {
        self.stream_id.as_bytes()
    }

    /// A payload shorter than three bytes is refused as `InvalidCommand`;
    /// otherwise the identifier is read from its front.
    pub fn from_bytes(bytes: &[u8]) -> (r: Result<GetTopics, IggyError>)
        ensures
            spec_identifier_payload_decode(bytes@) matches Ok(v) ==> r is Ok && r->Ok_0.stream_id.wf()
                && r->Ok_0.stream_id@ == v,
            spec_identifier_payload_decode(bytes@) matches Err(e) ==> r == Err::<GetTopics, IggyError>(e),
    {
        if bytes.len() < 3 {
            return Err(IggyError::InvalidCommand);
        }
        let stream_id = Identifier::from_bytes(bytes)?;
        Ok(GetTopics { stream_id })
    }
}

impl CommandPayload for GetTopics {
    fn as_bytes(&self) -> Vec<u8> {
        GetTopics::as_bytes(self)
    }
}


pub open spec fn spec_identifier_payload_decode(b: Seq<u8>) -> Result<crate::identifier::IdentifierView, IggyError> {
    if b.len() < 3 {
        Err(IggyError::InvalidCommand)
    } else {
        match spec_identifier_decode(b) {
            Some(v) => Ok(v),
            None => Err(IggyError::InvalidIdentifier),
        }
    }
}

/// A command on the wire: its code and the bytes of its payload.
pub struct CommandFrame {
    pub code: u32,
    pub payload: Seq<u8>,
}

/// The wire form of a frame: code as four little-endian bytes, then the payload.
pub open spec fn spec_frame_bytes(f: CommandFrame) -> Seq<u8> {
    spec_u32_to_le_bytes(f.code) + f.payload
}

/// The codes of the command table.
pub open spec fn is_command_code(code: u32) -> bool {
    code == PING_CODE
        || code == GET_STATS_CODE
        || code == GET_ME_CODE
        || code == GET_CLIENT_CODE
        || code == GET_CLIENTS_CODE
        || code == GET_USER_CODE
        || code == GET_USERS_CODE
        || code == CREATE_USER_CODE
        || code == DELETE_USER_CODE
        || code == UPDATE_USER_CODE
        || code == UPDATE_PERMISSIONS_CODE
        || code == CHANGE_PASSWORD_CODE
        || code == LOGIN_USER_CODE
        || code == LOGOUT_USER_CODE
        || code == GET_PERSONAL_ACCESS_TOKENS_CODE
        || code == CREATE_PERSONAL_ACCESS_TOKEN_CODE
        || code == DELETE_PERSONAL_ACCESS_TOKEN_CODE
        || code == LOGIN_WITH_PERSONAL_ACCESS_TOKEN_CODE
        || code == POLL_MESSAGES_CODE
        || code == SEND_MESSAGES_CODE
        || code == GET_CONSUMER_OFFSET_CODE
        || code == STORE_CONSUMER_OFFSET_CODE
        || code == GET_STREAM_CODE
        || code == GET_STREAMS_CODE
        || code == CREATE_STREAM_CODE
        || code == DELETE_STREAM_CODE
        || code == UPDATE_STREAM_CODE
        || code == PURGE_STREAM_CODE
        || code == GET_TOPIC_CODE
        || code == GET_TOPICS_CODE
        || code == CREATE_TOPIC_CODE
        || code == DELETE_TOPIC_CODE
        || code == UPDATE_TOPIC_CODE
        || code == PURGE_TOPIC_CODE
        || code == CREATE_PARTITIONS_CODE
        || code == DELETE_PARTITIONS_CODE
        || code == GET_CONSUMER_GROUP_CODE
        || code == GET_CONSUMER_GROUPS_CODE
        || code == CREATE_CONSUMER_GROUP_CODE
        || code == DELETE_CONSUMER_GROUP_CODE
        || code == JOIN_CONSUMER_GROUP_CODE
        || code == LEAVE_CONSUMER_GROUP_CODE
}

/// The name of each code of the command table.
pub open spec fn command_name(code: u32) -> Seq<char> {
    if code == PING_CODE {
        PING@
    } else if code == GET_STATS_CODE {
        GET_STATS@
    } else if code == GET_ME_CODE {
        GET_ME@
    } else if code == GET_CLIENT_CODE {
        GET_CLIENT@
    } else if code == GET_CLIENTS_CODE {
        GET_CLIENTS@
    } else if code == GET_USER_CODE {
        GET_USER@
    } else if code == GET_USERS_CODE {
        GET_USERS@
    } else if code == CREATE_USER_CODE {
        CREATE_USER@
    } else if code == DELETE_USER_CODE {
        DELETE_USER@
    } else if code == UPDATE_USER_CODE {
        UPDATE_USER@
    } else if code == UPDATE_PERMISSIONS_CODE {
        UPDATE_PERMISSIONS@
    } else if code == CHANGE_PASSWORD_CODE {
        CHANGE_PASSWORD@
    } else if code == LOGIN_USER_CODE {
        LOGIN_USER@
    } else if code == LOGOUT_USER_CODE {
        LOGOUT_USER@
    } else if code == GET_PERSONAL_ACCESS_TOKENS_CODE {
        GET_PERSONAL_ACCESS_TOKENS@
    } else if code == CREATE_PERSONAL_ACCESS_TOKEN_CODE {
        CREATE_PERSONAL_ACCESS_TOKEN@
    } else if code == DELETE_PERSONAL_ACCESS_TOKEN_CODE {
        DELETE_PERSONAL_ACCESS_TOKEN@
    } else if code == LOGIN_WITH_PERSONAL_ACCESS_TOKEN_CODE {
        LOGIN_WITH_PERSONAL_ACCESS_TOKEN@
    } else if code == POLL_MESSAGES_CODE {
        POLL_MESSAGES@
    } else if code == SEND_MESSAGES_CODE {
        SEND_MESSAGES@
    } else if code == GET_CONSUMER_OFFSET_CODE {
        GET_CONSUMER_OFFSET@
    } else if code == STORE_CONSUMER_OFFSET_CODE {
        STORE_CONSUMER_OFFSET@
    } else if code == GET_STREAM_CODE {
        GET_STREAM@
    } else if code == GET_STREAMS_CODE {
        GET_STREAMS@
    } else if code == CREATE_STREAM_CODE {
        CREATE_STREAM@
    } else if code == DELETE_STREAM_CODE {
        DELETE_STREAM@
    } else if code == UPDATE_STREAM_CODE {
        UPDATE_STREAM@
    } else if code == PURGE_STREAM_CODE {
        PURGE_STREAM@
    } else if code == GET_TOPIC_CODE {
        GET_TOPIC@
    } else if code == GET_TOPICS_CODE {
        GET_TOPICS@
    } else if code == CREATE_TOPIC_CODE {
        CREATE_TOPIC@
    } else if code == DELETE_TOPIC_CODE {
        DELETE_TOPIC@
    } else if code == UPDATE_TOPIC_CODE {
        UPDATE_TOPIC@
    } else if code == PURGE_TOPIC_CODE {
        PURGE_TOPIC@
    } else if code == CREATE_PARTITIONS_CODE {
        CREATE_PARTITIONS@
    } else if code == DELETE_PARTITIONS_CODE {
        DELETE_PARTITIONS@
    } else if code == GET_CONSUMER_GROUP_CODE {
        GET_CONSUMER_GROUP@
    } else if code == GET_CONSUMER_GROUPS_CODE {
        GET_CONSUMER_GROUPS@
    } else if code == CREATE_CONSUMER_GROUP_CODE {
        CREATE_CONSUMER_GROUP@
    } else if code == DELETE_CONSUMER_GROUP_CODE {
        DELETE_CONSUMER_GROUP@
    } else if code == JOIN_CONSUMER_GROUP_CODE {
        JOIN_CONSUMER_GROUP@
    } else if code == LEAVE_CONSUMER_GROUP_CODE {
        LEAVE_CONSUMER_GROUP@
    } else {
        Seq::empty()
    }
}

/// Decoding of a request frame. Bytes that are too few for a code, or an
/// unknown code, give `InvalidCommand`.
pub open spec fn spec_command_decode(b: Seq<u8>) -> Result<CommandFrame, IggyError> {
    if b.len() < 4 {
        Err(IggyError::InvalidCommand)
    } else {
        let code = spec_u32_from_le_bytes(b.subrange(0, 4));
        let p = b.subrange(4, b.len() as int);
        if !is_command_code(code) {
            Err(IggyError::InvalidCommand)
        } else if code == GET_USER_CODE || code == GET_TOPICS_CODE {
            match spec_identifier_payload_decode(p) {
                Ok(v) => Ok(CommandFrame { code, payload: spec_identifier_bytes(v) }),
                Err(e) => Err(e),
            }
        } else {
            Ok(CommandFrame { code, payload: p })
        }
    }
}

/// A request of the binary protocol: one variant for each code of the command table.
#[derive(Debug, Clone, PartialEq, Eq)]
pub enum Command {
    Ping(Ping),
    GetStats(GetStats),
    GetMe(GetMe),
    GetClient(GetClient),
    GetClients(GetClients),
    GetUser(GetUser),
    GetUsers(GetUsers),
    CreateUser(CreateUser),
    DeleteUser(DeleteUser),
    UpdateUser(UpdateUser),
    UpdatePermissions(UpdatePermissions),
    ChangePassword(ChangePassword),
    LoginUser(LoginUser),
    LogoutUser(LogoutUser),
    GetPersonalAccessTokens(GetPersonalAccessTokens),
    CreatePersonalAccessToken(CreatePersonalAccessToken),
    DeletePersonalAccessToken(DeletePersonalAccessToken),
    LoginWithPersonalAccessToken(LoginWithPersonalAccessToken),
    SendMessages(SendMessages),
    PollMessages(PollMessages),
    GetConsumerOffset(GetConsumerOffset),
    StoreConsumerOffset(StoreConsumerOffset),
    GetStream(GetStream),
    GetStreams(GetStreams),
    CreateStream(CreateStream),
    DeleteStream(DeleteStream),
    UpdateStream(UpdateStream),
    PurgeStream(PurgeStream),
    GetTopic(GetTopic),
    GetTopics(GetTopics),
    CreateTopic(CreateTopic),
    DeleteTopic(DeleteTopic),
    UpdateTopic(UpdateTopic),
    PurgeTopic(PurgeTopic),
    CreatePartitions(CreatePartitions),
    DeletePartitions(DeletePartitions),
    GetConsumerGroup(GetConsumerGroup),
    GetConsumerGroups(GetConsumerGroups),
    CreateConsumerGroup(CreateConsumerGroup),
    DeleteConsumerGroup(DeleteConsumerGroup),
    JoinConsumerGroup(JoinConsumerGroup),
    LeaveConsumerGroup(LeaveConsumerGroup),
}

impl Command {
    pub open spec fn spec_code(&self) -> u32 {
        match self {
            Command::Ping(_) => PING_CODE,
            Command::GetStats(_) => GET_STATS_CODE,
            Command::GetMe(_) => GET_ME_CODE,
            Command::GetClient(_) => GET_CLIENT_CODE,
            Command::GetClients(_) => GET_CLIENTS_CODE,
            Command::GetUser(_) => GET_USER_CODE,
            Command::GetUsers(_) => GET_USERS_CODE,
            Command::CreateUser(_) => CREATE_USER_CODE,
            Command::DeleteUser(_) => DELETE_USER_CODE,
            Command::UpdateUser(_) => UPDATE_USER_CODE,
            Command::UpdatePermissions(_) => UPDATE_PERMISSIONS_CODE,
            Command::ChangePassword(_) => CHANGE_PASSWORD_CODE,
            Command::LoginUser(_) => LOGIN_USER_CODE,
            Command::LogoutUser(_) => LOGOUT_USER_CODE,
            Command::GetPersonalAccessTokens(_) => GET_PERSONAL_ACCESS_TOKENS_CODE,
            Command::CreatePersonalAccessToken(_) => CREATE_PERSONAL_ACCESS_TOKEN_CODE,
            Command::DeletePersonalAccessToken(_) => DELETE_PERSONAL_ACCESS_TOKEN_CODE,
            Command::LoginWithPersonalAccessToken(_) => LOGIN_WITH_PERSONAL_ACCESS_TOKEN_CODE,
            Command::SendMessages(_) => SEND_MESSAGES_CODE,
            Command::PollMessages(_) => POLL_MESSAGES_CODE,
            Command::GetConsumerOffset(_) => GET_CONSUMER_OFFSET_CODE,
            Command::StoreConsumerOffset(_) => STORE_CONSUMER_OFFSET_CODE,
            Command::GetStream(_) => GET_STREAM_CODE,
            Command::GetStreams(_) => GET_STREAMS_CODE,
            Command::CreateStream(_) => CREATE_STREAM_CODE,
            Command::DeleteStream(_) => DELETE_STREAM_CODE,
            Command::UpdateStream(_) => UPDATE_STREAM_CODE,
            Command::PurgeStream(_) => PURGE_STREAM_CODE,
            Command::GetTopic(_) => GET_TOPIC_CODE,
            Command::GetTopics(_) => GET_TOPICS_CODE,
            Command::CreateTopic(_) => CREATE_TOPIC_CODE,
            Command::DeleteTopic(_) => DELETE_TOPIC_CODE,
            Command::UpdateTopic(_) => UPDATE_TOPIC_CODE,
            Command::PurgeTopic(_) => PURGE_TOPIC_CODE,
            Command::CreatePartitions(_) => CREATE_PARTITIONS_CODE,
            Command::DeletePartitions(_) => DELETE_PARTITIONS_CODE,
            Command::GetConsumerGroup(_) => GET_CONSUMER_GROUP_CODE,
            Command::GetConsumerGroups(_) => GET_CONSUMER_GROUPS_CODE,
            Command::CreateConsumerGroup(_) => CREATE_CONSUMER_GROUP_CODE,
            Command::DeleteConsumerGroup(_) => DELETE_CONSUMER_GROUP_CODE,
            Command::JoinConsumerGroup(_) => JOIN_CONSUMER_GROUP_CODE,
            Command::LeaveConsumerGroup(_) => LEAVE_CONSUMER_GROUP_CODE,
        }
    }

    pub open spec fn spec_payload(&self) -> Seq<u8> {
        match self {
            Command::Ping(p) => p.bytes@,
            Command::GetStats(p) => p.bytes@,
            Command::GetMe(p) => p.bytes@,
            Command::GetClient(p) => p.bytes@,
            Command::GetClients(p) => p.bytes@,
            Command::GetUser(p) => spec_identifier_bytes(p.user_id@),
            Command::GetUsers(p) => p.bytes@,
            Command::CreateUser(p) => p.bytes@,
            Command::DeleteUser(p) => p.bytes@,
            Command::UpdateUser(p) => p.bytes@,
            Command::UpdatePermissions(p) => p.bytes@,
            Command::ChangePassword(p) => p.bytes@,
            Command::LoginUser(p) => p.bytes@,
            Command::LogoutUser(p) => p.bytes@,
            Command::GetPersonalAccessTokens(p) => p.bytes@,
            Command::CreatePersonalAccessToken(p) => p.bytes@,
            Command::DeletePersonalAccessToken(p) => p.bytes@,
            Command::LoginWithPersonalAccessToken(p) => p.bytes@,
            Command::SendMessages(p) => p.bytes@,
            Command::PollMessages(p) => p.bytes@,
            Command::GetConsumerOffset(p) => p.bytes@,
            Command::StoreConsumerOffset(p) => p.bytes@,
            Command::GetStream(p) => p.bytes@,
            Command::GetStreams(p) => p.bytes@,
            Command::CreateStream(p) => p.bytes@,
            Command::DeleteStream(p) => p.bytes@,
            Command::UpdateStream(p) => p.bytes@,
            Command::PurgeStream(p) => p.bytes@,
            Command::GetTopic(p) => p.bytes@,
            Command::GetTopics(p) => spec_identifier_bytes(p.stream_id@),
            Command::CreateTopic(p) => p.bytes@,
            Command::DeleteTopic(p) => p.bytes@,
            Command::UpdateTopic(p) => p.bytes@,
            Command::PurgeTopic(p) => p.bytes@,
            Command::CreatePartitions(p) => p.bytes@,
            Command::DeletePartitions(p) => p.bytes@,
            Command::GetConsumerGroup(p) => p.bytes@,
            Command::GetConsumerGroups(p) => p.bytes@,
            Command::CreateConsumerGroup(p) => p.bytes@,
            Command::DeleteConsumerGroup(p) => p.bytes@,
            Command::JoinConsumerGroup(p) => p.bytes@,
            Command::LeaveConsumerGroup(p) => p.bytes@,
        }
    }

    pub open spec fn wf(&self) -> bool {
        match self {
            Command::GetUser(p) => p.user_id.wf(),
            Command::GetTopics(p) => p.stream_id.wf(),
            _ => true,
        }
    }

    /// The code of this command in the command table.
    pub fn code(&self) -> (r: u32)
        ensures
            r == self.spec_code(),
            is_command_code(r),
    {
        match self {
            Command::Ping(_) => PING_CODE,
            Command::GetStats(_) => GET_STATS_CODE,
            Command::GetMe(_) => GET_ME_CODE,
            Command::GetClient(_) => GET_CLIENT_CODE,
            Command::GetClients(_) => GET_CLIENTS_CODE,
            Command::GetUser(_) => GET_USER_CODE,
            Command::GetUsers(_) => GET_USERS_CODE,
            Command::CreateUser(_) => CREATE_USER_CODE,
            Command::DeleteUser(_) => DELETE_USER_CODE,
            Command::UpdateUser(_) => UPDATE_USER_CODE,
            Command::UpdatePermissions(_) => UPDATE_PERMISSIONS_CODE,
            Command::ChangePassword(_) => CHANGE_PASSWORD_CODE,
            Command::LoginUser(_) => LOGIN_USER_CODE,
            Command::LogoutUser(_) => LOGOUT_USER_CODE,
            Command::GetPersonalAccessTokens(_) => GET_PERSONAL_ACCESS_TOKENS_CODE,
            Command::CreatePersonalAccessToken(_) => CREATE_PERSONAL_ACCESS_TOKEN_CODE,
            Command::DeletePersonalAccessToken(_) => DELETE_PERSONAL_ACCESS_TOKEN_CODE,
            Command::LoginWithPersonalAccessToken(_) => LOGIN_WITH_PERSONAL_ACCESS_TOKEN_CODE,
            Command::SendMessages(_) => SEND_MESSAGES_CODE,
            Command::PollMessages(_) => POLL_MESSAGES_CODE,
            Command::GetConsumerOffset(_) => GET_CONSUMER_OFFSET_CODE,
            Command::StoreConsumerOffset(_) => STORE_CONSUMER_OFFSET_CODE,
            Command::GetStream(_) => GET_STREAM_CODE,
            Command::GetStreams(_) => GET_STREAMS_CODE,
            Command::CreateStream(_) => CREATE_STREAM_CODE,
            Command::DeleteStream(_) => DELETE_STREAM_CODE,
            Command::UpdateStream(_) => UPDATE_STREAM_CODE,
            Command::PurgeStream(_) => PURGE_STREAM_CODE,
            Command::GetTopic(_) => GET_TOPIC_CODE,
            Command::GetTopics(_) => GET_TOPICS_CODE,
            Command::CreateTopic(_) => CREATE_TOPIC_CODE,
            Command::DeleteTopic(_) => DELETE_TOPIC_CODE,
            Command::UpdateTopic(_) => UPDATE_TOPIC_CODE,
            Command::PurgeTopic(_) => PURGE_TOPIC_CODE,
            Command::CreatePartitions(_) => CREATE_PARTITIONS_CODE,
            Command::DeletePartitions(_) => DELETE_PARTITIONS_CODE,
            Command::GetConsumerGroup(_) => GET_CONSUMER_GROUP_CODE,
            Command::GetConsumerGroups(_) => GET_CONSUMER_GROUPS_CODE,
            Command::CreateConsumerGroup(_) => CREATE_CONSUMER_GROUP_CODE,
            Command::DeleteConsumerGroup(_) => DELETE_CONSUMER_GROUP_CODE,
            Command::JoinConsumerGroup(_) => JOIN_CONSUMER_GROUP_CODE,
            Command::LeaveConsumerGroup(_) => LEAVE_CONSUMER_GROUP_CODE,
        }
    }

    /// The name of this command in the command table.
    pub fn name(&self) -> (r: &'static str)
        ensures
            r@ == command_name(self.spec_code()),
    {
        match self {
            Command::Ping(_) => PING,
            Command::GetStats(_) => GET_STATS,
            Command::GetMe(_) => GET_ME,
            Command::GetClient(_) => GET_CLIENT,
            Command::GetClients(_) => GET_CLIENTS,
            Command::GetUser(_) => GET_USER,
            Command::GetUsers(_) => GET_USERS,
            Command::CreateUser(_) => CREATE_USER,
            Command::DeleteUser(_) => DELETE_USER,
            Command::UpdateUser(_) => UPDATE_USER,
            Command::UpdatePermissions(_) => UPDATE_PERMISSIONS,
            Command::ChangePassword(_) => CHANGE_PASSWORD,
            Command::LoginUser(_) => LOGIN_USER,
            Command::LogoutUser(_) => LOGOUT_USER,
            Command::GetPersonalAccessTokens(_) => GET_PERSONAL_ACCESS_TOKENS,
            Command::CreatePersonalAccessToken(_) => CREATE_PERSONAL_ACCESS_TOKEN,
            Command::DeletePersonalAccessToken(_) => DELETE_PERSONAL_ACCESS_TOKEN,
            Command::LoginWithPersonalAccessToken(_) => LOGIN_WITH_PERSONAL_ACCESS_TOKEN,
            Command::SendMessages(_) => SEND_MESSAGES,
            Command::PollMessages(_) => POLL_MESSAGES,
            Command::GetConsumerOffset(_) => GET_CONSUMER_OFFSET,
            Command::StoreConsumerOffset(_) => STORE_CONSUMER_OFFSET,
            Command::GetStream(_) => GET_STREAM,
            Command::GetStreams(_) => GET_STREAMS,
            Command::CreateStream(_) => CREATE_STREAM,
            Command::DeleteStream(_) => DELETE_STREAM,
            Command::UpdateStream(_) => UPDATE_STREAM,
            Command::PurgeStream(_) => PURGE_STREAM,
            Command::GetTopic(_) => GET_TOPIC,
            Command::GetTopics(_) => GET_TOPICS,
            Command::CreateTopic(_) => CREATE_TOPIC,
            Command::DeleteTopic(_) => DELETE_TOPIC,
            Command::UpdateTopic(_) => UPDATE_TOPIC,
            Command::PurgeTopic(_) => PURGE_TOPIC,
            Command::CreatePartitions(_) => CREATE_PARTITIONS,
            Command::DeletePartitions(_) => DELETE_PARTITIONS,
            Command::GetConsumerGroup(_) => GET_CONSUMER_GROUP,
            Command::GetConsumerGroups(_) => GET_CONSUMER_GROUPS,
            Command::CreateConsumerGroup(_) => CREATE_CONSUMER_GROUP,
            Command::DeleteConsumerGroup(_) => DELETE_CONSUMER_GROUP,
            Command::JoinConsumerGroup(_) => JOIN_CONSUMER_GROUP,
            Command::LeaveConsumerGroup(_) => LEAVE_CONSUMER_GROUP,
        }
    }

    /// The request frame: code as four little-endian bytes, then the payload.
    pub fn as_bytes(&self) -> (r: Vec<u8>)
        requires
            self.wf(),
        ensures
            r@ == spec_frame_bytes(self@),
    {
        let mut out = u32_to_le_bytes(self.code());
        match self {
            Command::GetUser(p) => {
                let payload = p.as_bytes();
                append_bytes(&mut out, payload.as_slice());
            },
            Command::GetTopics(p) => {
                let payload = p.as_bytes();
                append_bytes(&mut out, payload.as_slice());
            },
            Command::Ping(p) => append_bytes(&mut out, p.bytes.as_slice()),
            Command::GetStats(p) => append_bytes(&mut out, p.bytes.as_slice()),
            Command::GetMe(p) => append_bytes(&mut out, p.bytes.as_slice()),
            Command::GetClient(p) => append_bytes(&mut out, p.bytes.as_slice()),
            Command::GetClients(p) => append_bytes(&mut out, p.bytes.as_slice()),
            Command::GetUsers(p) => append_bytes(&mut out, p.bytes.as_slice()),
            Command::CreateUser(p) => append_bytes(&mut out, p.bytes.as_slice()),
            Command::DeleteUser(p) => append_bytes(&mut out, p.bytes.as_slice()),
            Command::UpdateUser(p) => append_bytes(&mut out, p.bytes.as_slice()),
            Command::UpdatePermissions(p) => append_bytes(&mut out, p.bytes.as_slice()),
            Command::ChangePassword(p) => append_bytes(&mut out, p.bytes.as_slice()),
            Command::LoginUser(p) => append_bytes(&mut out, p.bytes.as_slice()),
            Command::LogoutUser(p) => append_bytes(&mut out, p.bytes.as_slice()),
            Command::GetPersonalAccessTokens(p) => append_bytes(&mut out, p.bytes.as_slice()),
            Command::CreatePersonalAccessToken(p) => append_bytes(&mut out, p.bytes.as_slice()),
            Command::DeletePersonalAccessToken(p) => append_bytes(&mut out, p.bytes.as_slice()),
            Command::LoginWithPersonalAccessToken(p) => append_bytes(&mut out, p.bytes.as_slice()),
            Command::SendMessages(p) => append_bytes(&mut out, p.bytes.as_slice()),
            Command::PollMessages(p) => append_bytes(&mut out, p.bytes.as_slice()),
            Command::GetConsumerOffset(p) => append_bytes(&mut out, p.bytes.as_slice()),
            Command::StoreConsumerOffset(p) => append_bytes(&mut out, p.bytes.as_slice()),
            Command::GetStream(p) => append_bytes(&mut out, p.bytes.as_slice()),
            Command::GetStreams(p) => append_bytes(&mut out, p.bytes.as_slice()),
            Command::CreateStream(p) => append_bytes(&mut out, p.bytes.as_slice()),
            Command::DeleteStream(p) => append_bytes(&mut out, p.bytes.as_slice()),
            Command::UpdateStream(p) => append_bytes(&mut out, p.bytes.as_slice()),
            Command::PurgeStream(p) => append_bytes(&mut out, p.bytes.as_slice()),
            Command::GetTopic(p) => append_bytes(&mut out, p.bytes.as_slice()),
            Command::CreateTopic(p) => append_bytes(&mut out, p.bytes.as_slice()),
            Command::DeleteTopic(p) => append_bytes(&mut out, p.bytes.as_slice()),
            Command::UpdateTopic(p) => append_bytes(&mut out, p.bytes.as_slice()),
            Command::PurgeTopic(p) => append_bytes(&mut out, p.bytes.as_slice()),
            Command::CreatePartitions(p) => append_bytes(&mut out, p.bytes.as_slice()),
            Command::DeletePartitions(p) => append_bytes(&mut out, p.bytes.as_slice()),
            Command::GetConsumerGroup(p) => append_bytes(&mut out, p.bytes.as_slice()),
            Command::GetConsumerGroups(p) => append_bytes(&mut out, p.bytes.as_slice()),
            Command::CreateConsumerGroup(p) => append_bytes(&mut out, p.bytes.as_slice()),
            Command::DeleteConsumerGroup(p) => append_bytes(&mut out, p.bytes.as_slice()),
            Command::JoinConsumerGroup(p) => append_bytes(&mut out, p.bytes.as_slice()),
            Command::LeaveConsumerGroup(p) => append_bytes(&mut out, p.bytes.as_slice()),
        }
        out
    }

    /// Decodes a request frame; see `spec_command_decode`.
    pub fn from_bytes(bytes: &[u8]) -> (r: Result<Command, IggyError>)
        ensures
            spec_command_decode(bytes@) matches Ok(f) ==> r is Ok && r->Ok_0.wf() && r->Ok_0@
                == f,
            spec_command_decode(bytes@) matches Err(e) ==> r == Err::<Command, IggyError>(e),
    {
        if bytes.len() < 4 {
            return Err(IggyError::InvalidCommand);
        }
        let head = copy_range(bytes, 0, 4);
        let code = u32_from_le_bytes(head.as_slice());
        let payload = copy_range(bytes, 4, bytes.len());
        if code == GET_USER_CODE {
            let get_user = GetUser::from_bytes(payload.as_slice())?;
            return Ok(Command::GetUser(get_user));
        }
        if code == GET_TOPICS_CODE {
            let get_topics = GetTopics::from_bytes(payload.as_slice())?;
            return Ok(Command::GetTopics(get_topics));
        }
        let p = RawPayload { bytes: payload };
        if code == PING_CODE {
            Ok(Command::Ping(p))
        } else if code == GET_STATS_CODE {
            Ok(Command::GetStats(p))
        } else if code == GET_ME_CODE {
            Ok(Command::GetMe(p))
        } else if code == GET_CLIENT_CODE {
            Ok(Command::GetClient(p))
        } else if code == GET_CLIENTS_CODE {
            Ok(Command::GetClients(p))
        } else if code == GET_USERS_CODE {
            Ok(Command::GetUsers(p))
        } else if code == CREATE_USER_CODE {
            Ok(Command::CreateUser(p))
        } else if code == DELETE_USER_CODE {
            Ok(Command::DeleteUser(p))
        } else if code == UPDATE_USER_CODE {
            Ok(Command::UpdateUser(p))
        } else if code == UPDATE_PERMISSIONS_CODE {
            Ok(Command::UpdatePermissions(p))
        } else if code == CHANGE_PASSWORD_CODE {
            Ok(Command::ChangePassword(p))
        } else if code == LOGIN_USER_CODE {
            Ok(Command::LoginUser(p))
        } else if code == LOGOUT_USER_CODE {
            Ok(Command::LogoutUser(p))
        } else if code == GET_PERSONAL_ACCESS_TOKENS_CODE {
            Ok(Command::GetPersonalAccessTokens(p))
        } else if code == CREATE_PERSONAL_ACCESS_TOKEN_CODE {
            Ok(Command::CreatePersonalAccessToken(p))
        } else if code == DELETE_PERSONAL_ACCESS_TOKEN_CODE {
            Ok(Command::DeletePersonalAccessToken(p))
        } else if code == LOGIN_WITH_PERSONAL_ACCESS_TOKEN_CODE {
            Ok(Command::LoginWithPersonalAccessToken(p))
        } else if code == SEND_MESSAGES_CODE {
            Ok(Command::SendMessages(p))
        } else if code == POLL_MESSAGES_CODE {
            Ok(Command::PollMessages(p))
        } else if code == GET_CONSUMER_OFFSET_CODE {
            Ok(Command::GetConsumerOffset(p))
        } else if code == STORE_CONSUMER_OFFSET_CODE {
            Ok(Command::StoreConsumerOffset(p))
        } else if code == GET_STREAM_CODE {
            Ok(Command::GetStream(p))
        } else if code == GET_STREAMS_CODE {
            Ok(Command::GetStreams(p))
        } else if code == CREATE_STREAM_CODE {
            Ok(Command::CreateStream(p))
        } else if code == DELETE_STREAM_CODE {
            Ok(Command::DeleteStream(p))
        } else if code == UPDATE_STREAM_CODE {
            Ok(Command::UpdateStream(p))
        } else if code == PURGE_STREAM_CODE {
            Ok(Command::PurgeStream(p))
        } else if code == GET_TOPIC_CODE {
            Ok(Command::GetTopic(p))
        } else if code == CREATE_TOPIC_CODE {
            Ok(Command::CreateTopic(p))
        } else if code == DELETE_TOPIC_CODE {
            Ok(Command::DeleteTopic(p))
        } else if code == UPDATE_TOPIC_CODE {
            Ok(Command::UpdateTopic(p))
        } else if code == PURGE_TOPIC_CODE {
            Ok(Command::PurgeTopic(p))
        } else if code == CREATE_PARTITIONS_CODE {
            Ok(Command::CreatePartitions(p))
        } else if code == DELETE_PARTITIONS_CODE {
            Ok(Command::DeletePartitions(p))
        } else if code == GET_CONSUMER_GROUP_CODE {
            Ok(Command::GetConsumerGroup(p))
        } else if code == GET_CONSUMER_GROUPS_CODE {
            Ok(Command::GetConsumerGroups(p))
        } else if code == CREATE_CONSUMER_GROUP_CODE {
            Ok(Command::CreateConsumerGroup(p))
        } else if code == DELETE_CONSUMER_GROUP_CODE {
            Ok(Command::DeleteConsumerGroup(p))
        } else if code == JOIN_CONSUMER_GROUP_CODE {
            Ok(Command::JoinConsumerGroup(p))
        } else if code == LEAVE_CONSUMER_GROUP_CODE {
            Ok(Command::LeaveConsumerGroup(p))
        } else {
            Err(IggyError::InvalidCommand)
        }
    }
}

impl View for Command {
    type V = CommandFrame;

    open spec fn view(&self) -> CommandFrame {
        CommandFrame { code: self.spec_code(), payload: self.spec_payload() }
    }
}

/// The name of a code of the command table; any other code is `InvalidCommand`.
pub fn get_name_from_code(code: u32) -> (r: Result<&'static str, IggyError>)
    ensures
        is_command_code(code) ==> r is Ok && r->Ok_0@ == command_name(code),
        !is_command_code(code) ==> r == Err::<&'static str, IggyError>(IggyError::InvalidCommand),
{
    if code == PING_CODE {
        Ok(PING)
    } else if code == GET_STATS_CODE {
        Ok(GET_STATS)
    } else if code == GET_ME_CODE {
        Ok(GET_ME)
    } else if code == GET_CLIENT_CODE {
        Ok(GET_CLIENT)
    } else if code == GET_CLIENTS_CODE {
        Ok(GET_CLIENTS)
    } else if code == GET_USER_CODE {
        Ok(GET_USER)
    } else if code == GET_USERS_CODE {
        Ok(GET_USERS)
    } else if code == CREATE_USER_CODE {
        Ok(CREATE_USER)
    } else if code == DELETE_USER_CODE {
        Ok(DELETE_USER)
    } else if code == UPDATE_USER_CODE {
        Ok(UPDATE_USER)
    } else if code == UPDATE_PERMISSIONS_CODE {
        Ok(UPDATE_PERMISSIONS)
    } else if code == CHANGE_PASSWORD_CODE {
        Ok(CHANGE_PASSWORD)
    } else if code == LOGIN_USER_CODE {
        Ok(LOGIN_USER)
    } else if code == LOGOUT_USER_CODE {
        Ok(LOGOUT_USER)
    } else if code == GET_PERSONAL_ACCESS_TOKENS_CODE {
        Ok(GET_PERSONAL_ACCESS_TOKENS)
    } else if code == CREATE_PERSONAL_ACCESS_TOKEN_CODE {
        Ok(CREATE_PERSONAL_ACCESS_TOKEN)
    } else if code == DELETE_PERSONAL_ACCESS_TOKEN_CODE {
        Ok(DELETE_PERSONAL_ACCESS_TOKEN)
    } else if code == LOGIN_WITH_PERSONAL_ACCESS_TOKEN_CODE {
        Ok(LOGIN_WITH_PERSONAL_ACCESS_TOKEN)
    } else if code == POLL_MESSAGES_CODE {
        Ok(POLL_MESSAGES)
    } else if code == SEND_MESSAGES_CODE {
        Ok(SEND_MESSAGES)
    } else if code == GET_CONSUMER_OFFSET_CODE {
        Ok(GET_CONSUMER_OFFSET)
    } else if code == STORE_CONSUMER_OFFSET_CODE {
        Ok(STORE_CONSUMER_OFFSET)
    } else if code == GET_STREAM_CODE {
        Ok(GET_STREAM)
    } else if code == GET_STREAMS_CODE {
        Ok(GET_STREAMS)
    } else if code == CREATE_STREAM_CODE {
        Ok(CREATE_STREAM)
    } else if code == DELETE_STREAM_CODE {
        Ok(DELETE_STREAM)
    } else if code == UPDATE_STREAM_CODE {
        Ok(UPDATE_STREAM)
    } else if code == PURGE_STREAM_CODE {
        Ok(PURGE_STREAM)
    } else if code == GET_TOPIC_CODE {
        Ok(GET_TOPIC)
    } else if code == GET_TOPICS_CODE {
        Ok(GET_TOPICS)
    } else if code == CREATE_TOPIC_CODE {
        Ok(CREATE_TOPIC)
    } else if code == DELETE_TOPIC_CODE {
        Ok(DELETE_TOPIC)
    } else if code == UPDATE_TOPIC_CODE {
        Ok(UPDATE_TOPIC)
    } else if code == PURGE_TOPIC_CODE {
        Ok(PURGE_TOPIC)
    } else if code == CREATE_PARTITIONS_CODE {
        Ok(CREATE_PARTITIONS)
    } else if code == DELETE_PARTITIONS_CODE {
        Ok(DELETE_PARTITIONS)
    } else if code == GET_CONSUMER_GROUP_CODE {
        Ok(GET_CONSUMER_GROUP)
    } else if code == GET_CONSUMER_GROUPS_CODE {
        Ok(GET_CONSUMER_GROUPS)
    } else if code == CREATE_CONSUMER_GROUP_CODE {
        Ok(CREATE_CONSUMER_GROUP)
    } else if code == DELETE_CONSUMER_GROUP_CODE {
        Ok(DELETE_CONSUMER_GROUP)
    } else if code == JOIN_CONSUMER_GROUP_CODE {
        Ok(JOIN_CONSUMER_GROUP)
    } else if code == LEAVE_CONSUMER_GROUP_CODE {
        Ok(LEAVE_CONSUMER_GROUP)
    } else {
        Err(IggyError::InvalidCommand)
    }
}

/// Framing round trip: decoding the wire form of a well-formed command gives
/// back the same command, code and payload.
pub proof fn lemma_command_round_trip(c: Command)
    requires
        c.wf(),
    ensures
        spec_command_decode(spec_frame_bytes(c@)) == Ok::<CommandFrame, IggyError>(c@),
{
    let b = spec_frame_bytes(c@);
    vstd::bytes::lemma_auto_spec_u32_to_from_le_bytes();
    assert(b.subrange(0, 4) =~= spec_u32_to_le_bytes(c@.code));
    assert(b.subrange(4, b.len() as int) =~= c@.payload);
    if let Command::GetUser(p) = c {
        lemma_identifier_round_trip(p.user_id@, Seq::empty());
        assert(spec_identifier_bytes(p.user_id@) + Seq::<u8>::empty() =~= spec_identifier_bytes(
            p.user_id@,
        ));
    }
    if let Command::GetTopics(p) = c {
        lemma_identifier_round_trip(p.stream_id@, Seq::empty());
        assert(spec_identifier_bytes(p.stream_id@) + Seq::<u8>::empty() =~= spec_identifier_bytes(
            p.stream_id@,
        ));
    }
}

} // verus!
