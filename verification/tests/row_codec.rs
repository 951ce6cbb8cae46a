//! Tests of the row codec: construction, field accessors, and the
//! fixed-width encode/decode pair.

use lildb::row::{Row, EMAIL_SIZE, ROW_SIZE, USERNAME_SIZE};
use lildb::DbError;

#[test]
fn new_valid_row() {
    let row = Row::new("1", "alice", "a@example.com").unwrap();
    assert_eq!(row.id(), 1);
    assert_eq!(row.username(), "alice");
    assert_eq!(row.email(), "a@example.com");
}

#[test]
fn new_pads_fields_to_capacity() {
    let row = Row::new("7", "bob", "b@example.com").unwrap();
    assert_eq!(row.username.len(), USERNAME_SIZE);
    assert_eq!(row.email.len(), EMAIL_SIZE);
    assert_eq!(&row.username[..3], b"bob");
    assert!(row.username[3..].iter().all(|&b| b == 0));
}

#[test]
fn username_at_capacity_succeeds() {
    let name: String = "a".repeat(32);
    let row = Row::new("1", &name, "x@y.z").unwrap();
    assert_eq!(row.username(), name);
}

#[test]
fn username_over_capacity_fails() {
    let name: String = "a".repeat(33);
    let err = Row::new("1", &name, "x@y.z").unwrap_err();
    assert_eq!(err, DbError::FieldTooLong);
}

#[test]
fn email_over_capacity_fails() {
    let email: String = "e".repeat(256);
    let err = Row::new("1", "alice", &email).unwrap_err();
    assert_eq!(err, DbError::FieldTooLong);
}

#[test]
fn email_at_capacity_succeeds() {
    let email: String = "e".repeat(255);
    let row = Row::new("1", "alice", &email).unwrap();
    assert_eq!(row.email(), email);
}

#[test]
fn invalid_ids_are_rejected() {
    assert_eq!(Row::new("abc", "u", "e").unwrap_err(), DbError::InvalidId);
    assert_eq!(Row::new("", "u", "e").unwrap_err(), DbError::InvalidId);
    assert_eq!(Row::new("-1", "u", "e").unwrap_err(), DbError::InvalidId);
    assert_eq!(Row::new("1.5", "u", "e").unwrap_err(), DbError::InvalidId);
    assert_eq!(Row::new("4294967296", "u", "e").unwrap_err(), DbError::InvalidId);
    assert_eq!(Row::new("+", "u", "e").unwrap_err(), DbError::InvalidId);
}

#[test]
fn id_boundary_values_parse() {
    assert_eq!(Row::new("0", "u", "e").unwrap().id(), 0);
    assert_eq!(Row::new("4294967295", "u", "e").unwrap().id(), u32::MAX);
    assert_eq!(Row::new("+7", "u", "e").unwrap().id(), 7);
    assert_eq!(Row::new("007", "u", "e").unwrap().id(), 7);
}

#[test]
fn empty_row_is_all_zero() {
    let row = Row::empty();
    assert_eq!(row.id(), 0);
    assert_eq!(row.username(), "");
    assert_eq!(row.email(), "");
    assert!(row.encode().iter().all(|&b| b == 0));
}

#[test]
fn encode_is_row_size_wide() {
    assert_eq!(ROW_SIZE, 291);
    let row = Row::new("1", "alice", "a@example.com").unwrap();
    assert_eq!(row.encode().len(), 291);
    let widest = Row::new("4294967295", &"u".repeat(32), &"e".repeat(255)).unwrap();
    assert_eq!(widest.encode().len(), 291);
}

#[test]
fn encode_layout_is_exact() {
    let row = Row::new("258", "ab", "c@d").unwrap();
    let bytes = row.encode();
    // 258 = 0x0102, little endian.
    assert_eq!(&bytes[0..4], &[2, 1, 0, 0]);
    assert_eq!(&bytes[4..6], b"ab");
    assert!(bytes[6..36].iter().all(|&b| b == 0));
    assert_eq!(&bytes[36..39], b"c@d");
    assert!(bytes[39..291].iter().all(|&b| b == 0));
}

#[test]
fn decode_round_trips_encode() {
    let row = Row::new("123456789", "alice", "a@example.com").unwrap();
    let back = Row::decode(&row.encode()).unwrap();
    assert_eq!(back.id(), row.id());
    assert_eq!(back.username, row.username);
    assert_eq!(back.email, row.email);
    assert_eq!(back.username(), "alice");
    assert_eq!(back.email(), "a@example.com");
}

#[test]
fn decode_short_buffer_fails() {
    let err = Row::decode(&[0u8; 290]).unwrap_err();
    assert_eq!(err, DbError::DecodeError);
}

#[test]
fn decode_ignores_trailing_bytes() {
    let row = Row::new("5", "u", "e").unwrap();
    let mut bytes = row.encode();
    bytes.push(0xFF);
    let back = Row::decode(&bytes).unwrap();
    assert_eq!(back.id(), 5);
    assert_eq!(back.username(), "u");
}

#[test]
fn text_stops_at_first_zero_byte() {
    let mut username = b"ab".to_vec();
    username.push(0);
    username.push(b'c');
    let row = Row::from_parts(9, &username, b"e");
    assert_eq!(row.username(), "ab");
}
