use resp_store::message::Message;

fn create_vec(input: &str) -> Vec<u8> {
    input.into()
}

#[test]
fn test_simple_string() {
    let m = Message::SimpleString("hello".to_string());
    let expected = create_vec("+hello\r\n");

    assert_eq!(expected, m.to_data());
}

#[test]
fn message_test_bulk_string() {
    let m = Message::BulkString(b"hell\no".to_vec());
    let expected = create_vec("$6\r\nhell\no\r\n");

    assert_eq!(expected, m.to_data());
}

#[test]
fn test_array() {
    let m = Message::Array(vec![
        Message::SimpleString("hello".to_string()),
        Message::SimpleString("trello".to_string()),
    ]);
    let expected = create_vec("*2\r\n+hello\r\n+trello\r\n");

    assert_eq!(expected, m.to_data());
}

#[test]
fn message_test_integer() {
    let m = Message::Integer(-293);
    let expected = create_vec(":-293\r\n");

    assert_eq!(expected, m.to_data());
}

#[test]
fn encodes_null_bulk_string() {
    assert_eq!(create_vec("$-1\r\n"), Message::NullBulkString.to_data());
}

#[test]
fn encodes_snapshot_without_terminator() {
    let m = Message::RdbFile(b"REDIS0011".to_vec());
    assert_eq!(create_vec("$9\r\nREDIS0011"), m.to_data());
}

#[test]
fn encodes_extreme_integers() {
    assert_eq!(create_vec(":0\r\n"), Message::Integer(0).to_data());
    assert_eq!(
        create_vec(":9223372036854775807\r\n"),
        Message::Integer(i64::MAX).to_data()
    );
    assert_eq!(
        create_vec(":-9223372036854775808\r\n"),
        Message::Integer(i64::MIN).to_data()
    );
}

#[test]
fn encodes_empty_bulk_string_and_array() {
    assert_eq!(create_vec("$0\r\n\r\n"), Message::BulkString(vec![]).to_data());
    assert_eq!(create_vec("*0\r\n"), Message::Array(vec![]).to_data());
}

#[test]
fn equality_is_structural() {
    let a = Message::Array(vec![Message::Integer(1), Message::BulkString(b"x".to_vec())]);
    let b = Message::Array(vec![Message::Integer(1), Message::BulkString(b"x".to_vec())]);
    let c = Message::Array(vec![Message::Integer(1), Message::BulkString(b"y".to_vec())]);
    assert_eq!(a, b);
    assert_ne!(a, c);
    assert_ne!(
        Message::SimpleString("x".to_string()),
        Message::BulkString(b"x".to_vec())
    );
    assert_eq!(a.clone(), a);
    assert_eq!(a.duplicate(), b);
}

#[test]
fn rdb_file_from_hex_decodes_pairs() {
    let m = Message::rdb_file_from_hex("52454449530aFF");
    assert_eq!(Message::RdbFile(vec![0x52, 0x45, 0x44, 0x49, 0x53, 0x0a, 0xff]), m);
}
