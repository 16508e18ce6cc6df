use vstd::prelude::*;

verus! {

/// Error kinds of the broker. Each kind has a stable numeric code that is sent
/// as the status of a response frame.
#[derive(Debug, Clone, Copy, PartialEq, Eq)]
pub enum IggyError {
    InvalidCommand,
    InvalidFormat,
    InvalidIdentifier,
    Unauthenticated,
    Unauthorized,
    PermissionDenied,
    StreamIdNotFound,
    StreamNameAlreadyExists,
    InvalidStreamName,
    InvalidTopicName,
    InvalidTopicPartitions,
    StreamIdAlreadyExists(u32),
    TopicIdNotFound,
    TopicIdAlreadyExists(u32, u32),
    TopicNameAlreadyExists,
    PartitionNotFound(u32),
    NoPartitions(u32, u32),
    InvalidPartitioning,
    InvalidMessagesCount,
    InvalidOffset,
    ConsumerGroupNotFound,
    ConsumerGroupIdAlreadyExists,
    ConsumerGroupMemberNotFound,
    CannotReadFile,
    CannotReadFileMetadata,
    CannotWriteToFile,
    CannotCreateBaseDirectory,
    CannotCreateStateDirectory,
    CannotCreateStreamsDirectory,
    CannotCreateRuntimeDirectory,
    CannotRemoveRuntimeDirectory,
    CannotEncryptData,
    CannotDecryptData,
    FileCorrupted,
}

/// The numeric code of each error kind.
pub open spec fn error_code(e: IggyError) -> u32 {
    match e {
        IggyError::InvalidCommand => 3,
        IggyError::InvalidFormat => 4,
        IggyError::InvalidIdentifier => 6,
        IggyError::Unauthenticated => 40,
        IggyError::Unauthorized => 41,
        IggyError::PermissionDenied => 42,
        IggyError::CannotCreateBaseDirectory => 100,
        IggyError::CannotCreateRuntimeDirectory => 101,
        IggyError::CannotRemoveRuntimeDirectory => 102,
        IggyError::CannotCreateStateDirectory => 103,
        IggyError::CannotCreateStreamsDirectory => 104,
        IggyError::CannotReadFile => 200,
        IggyError::CannotReadFileMetadata => 201,
        IggyError::CannotWriteToFile => 202,
        IggyError::FileCorrupted => 203,
        IggyError::CannotEncryptData => 300,
        IggyError::CannotDecryptData => 301,
        IggyError::StreamIdNotFound => 1009,
        IggyError::StreamIdAlreadyExists(_) => 1011,
        IggyError::StreamNameAlreadyExists => 1012,
        IggyError::InvalidStreamName => 1013,
        IggyError::InvalidTopicName => 2015,
        IggyError::InvalidTopicPartitions => 2016,
        IggyError::TopicIdNotFound => 2010,
        IggyError::TopicIdAlreadyExists(_, _) => 2012,
        IggyError::TopicNameAlreadyExists => 2013,
        IggyError::NoPartitions(_, _) => 2014,
        IggyError::PartitionNotFound(_) => 3007,
        IggyError::InvalidPartitioning => 4000,
        IggyError::InvalidMessagesCount => 4009,
        IggyError::InvalidOffset => 4010,
        IggyError::ConsumerGroupNotFound => 5000,
        IggyError::ConsumerGroupIdAlreadyExists => 5001,
        IggyError::ConsumerGroupMemberNotFound => 5002,
    }
}

impl IggyError {
    /// The stable numeric code of this error kind; never 0, which means success.
    pub fn as_code(&self) -> (r: u32)
        ensures
            r == error_code(*self),
            r != 0,
    {
        match self {
            IggyError::InvalidCommand => 3,
            IggyError::InvalidFormat => 4,
            IggyError::InvalidIdentifier => 6,
            IggyError::Unauthenticated => 40,
            IggyError::Unauthorized => 41,
            IggyError::PermissionDenied => 42,
            IggyError::CannotCreateBaseDirectory => 100,
            IggyError::CannotCreateRuntimeDirectory => 101,
            IggyError::CannotRemoveRuntimeDirectory => 102,
            IggyError::CannotCreateStateDirectory => 103,
            IggyError::CannotCreateStreamsDirectory => 104,
            IggyError::CannotReadFile => 200,
            IggyError::CannotReadFileMetadata => 201,
            IggyError::CannotWriteToFile => 202,
            IggyError::FileCorrupted => 203,
            IggyError::CannotEncryptData => 300,
            IggyError::CannotDecryptData => 301,
            IggyError::StreamIdNotFound => 1009,
            IggyError::StreamIdAlreadyExists(_) => 1011,
            IggyError::StreamNameAlreadyExists => 1012,
            IggyError::InvalidStreamName => 1013,
            IggyError::InvalidTopicName => 2015,
            IggyError::InvalidTopicPartitions => 2016,
            IggyError::TopicIdNotFound => 2010,
            IggyError::TopicIdAlreadyExists(_, _) => 2012,
            IggyError::TopicNameAlreadyExists => 2013,
            IggyError::NoPartitions(_, _) => 2014,
            IggyError::PartitionNotFound(_) => 3007,
            IggyError::InvalidPartitioning => 4000,
            IggyError::InvalidMessagesCount => 4009,
            IggyError::InvalidOffset => 4010,
            IggyError::ConsumerGroupNotFound => 5000,
            IggyError::ConsumerGroupIdAlreadyExists => 5001,
            IggyError::ConsumerGroupMemberNotFound => 5002,
        }
    }
}

} // verus!
