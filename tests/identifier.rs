use iggy_core::error::IggyError;
use iggy_core::identifier::{IdKind, Identifier};

#[test]
fn numeric_identifier_wire_form() {
    let id = Identifier::numeric(258).unwrap();
    assert_eq!(id.as_bytes(), vec![1, 4, 2, 1, 0, 0]);
    assert_eq!(id.get_u32_value(), Ok(258));
    assert_eq!(id.get_size_bytes(), 6);
}

#[test]
fn zero_is_not_a_numeric_identifier() {
    assert_eq!(Identifier::numeric(0), Err(IggyError::InvalidIdentifier));
}

#[test]
fn named_identifier_wire_form() {
    let id = Identifier::named(b"test-stream").unwrap();
    let bytes = id.as_bytes();
    assert_eq!(bytes[0], 2);
    assert_eq!(bytes[1], 11);
    assert_eq!(&bytes[2..], b"test-stream");
    assert_eq!(id.get_u32_value(), Err(IggyError::InvalidIdentifier));
}

#[test]
fn name_lengths_are_bounded() {
    assert_eq!(Identifier::named(b""), Err(IggyError::InvalidIdentifier));
    let long = vec![b'a'; 256];
    assert_eq!(Identifier::named(&long), Err(IggyError::InvalidIdentifier));
    let longest = vec![b'a'; 255];
    assert_eq!(Identifier::named(&longest).unwrap().length, 255);
}

#[test]
fn identifier_round_trip_ignores_trailing_bytes() {
    let id = Identifier::named(b"orders").unwrap();
    let mut bytes = id.as_bytes();
    bytes.extend_from_slice(&[7, 7, 7]);
    assert_eq!(Identifier::from_bytes(&bytes).unwrap(), id);
}

#[test]
fn malformed_identifiers_are_refused() {
    assert_eq!(Identifier::from_bytes(&[3, 1, 1]), Err(IggyError::InvalidIdentifier));
    assert_eq!(Identifier::from_bytes(&[1, 3, 1, 2, 3]), Err(IggyError::InvalidIdentifier));
    assert_eq!(Identifier::from_bytes(&[2, 5, 1, 2]), Err(IggyError::InvalidIdentifier));
    assert_eq!(Identifier::from_bytes(&[2, 0, 1]), Err(IggyError::InvalidIdentifier));
}

#[test]
fn default_identifier_is_numeric_one() {
    let id = Identifier::default();
    assert_eq!(id.kind, IdKind::Numeric);
    assert_eq!(id.get_u32_value(), Ok(1));
}

#[test]
fn validate_accepts_exactly_well_formed_identifiers() {
    assert_eq!(Identifier::numeric(5).unwrap().validate(), Ok(()));
    let broken = Identifier { kind: IdKind::Numeric, length: 4, value: vec![1, 2] };
    assert_eq!(broken.validate(), Err(IggyError::InvalidIdentifier));
    let wrong_length = Identifier { kind: IdKind::String, length: 3, value: b"ab".to_vec() };
    assert_eq!(wrong_length.validate(), Err(IggyError::InvalidIdentifier));
}
