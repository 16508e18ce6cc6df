use iggy_core::command::GetUser;
use iggy_core::error::IggyError;
use iggy_core::identifier::Identifier;

#[test]
fn should_be_serialized_as_bytes() {
    let command = GetUser {
        user_id: Identifier::numeric(1).unwrap(),
    };

    let bytes = command.as_bytes();
    let user_id = Identifier::from_bytes(&bytes).unwrap();

    assert!(!bytes.is_empty());
    assert_eq!(user_id, command.user_id);
}

#[test]
fn should_be_deserialized_from_bytes() {
    let user_id = Identifier::numeric(1).unwrap();
    let bytes = user_id.as_bytes();
    let command = GetUser::from_bytes(&bytes);
    assert!(command.is_ok());

    let command = command.unwrap();
    assert_eq!(command.user_id, user_id);
}

#[test]
fn get_user_payload_shorter_than_three_bytes_is_refused() {
    assert_eq!(GetUser::from_bytes(&[1, 4]), Err(IggyError::InvalidCommand));
}
