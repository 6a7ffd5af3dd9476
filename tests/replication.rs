use resp_store::command_parser::Command;
use resp_store::db::Db;
use resp_store::handler::HandleError;
use resp_store::message::Message;
use resp_store::replication::{
    handshake_step, start_handshake, HandshakeState, ReplicationError, ReplicationHandler,
};

fn bulk(s: &str) -> Message {
    Message::BulkString(s.as_bytes().to_vec())
}

fn get_set_command(key: &str, value: &str) -> Message {
    Message::Array(vec![bulk("SET"), bulk(key), bulk(value)])
}

fn assert_ack_with_bytes(handler: &mut ReplicationHandler, db: &mut Db, count: i64) {
    let replmessage = Command::get_replconf_command(b"GETACK", b"*");
    let expected_return = Some(Command::get_replconf_command(b"ACK", count.to_string().as_bytes()));

    assert_eq!(expected_return, handler.handle_at(db, &replmessage, 0).unwrap().reply);
}

#[test]
fn test_set_does_broadcast() {
    let mut handler = ReplicationHandler::new();
    let mut db = Db::new();
    let message_set = get_set_command("key", "value");
    let applied = handler.handle_at(&mut db, &message_set, 0).unwrap();
    assert_eq!(Some(message_set), applied.event);
    assert_eq!(None, applied.reply);
    assert_eq!(Some(bulk("value")), db.get_at(&bulk("key"), 0));
}

#[test]
fn test_getack_returns_message_zero_bytes() {
    let mut handler = ReplicationHandler::new();
    let mut db = Db::new();

    assert_ack_with_bytes(&mut handler, &mut db, 0);
}

#[test]
fn test_getack_after_ping_sends_bytes() {
    let mut handler = ReplicationHandler::new();
    let mut db = Db::new();

    let applied = handler.handle_at(&mut db, &Command::get_ping_command(), 0).unwrap();
    assert_eq!(None, applied.reply);

    assert_ack_with_bytes(&mut handler, &mut db, 14);

    assert_ack_with_bytes(&mut handler, &mut db, 51);
    assert_eq!(88, handler.bytes_applied());
}

#[test]
fn other_commands_are_refused_but_counted() {
    let mut handler = ReplicationHandler::new();
    let mut db = Db::new();
    let echo = Message::Array(vec![bulk("ECHO"), bulk("x")]);
    assert!(matches!(
        handler.handle_at(&mut db, &echo, 0),
        Err(HandleError::WrongCommand)
    ));
    assert_eq!(echo.to_data().len() as i64, handler.bytes_applied());
    let wrong_value = Command::get_replconf_command(b"GETACK", b"0");
    assert!(matches!(
        handler.handle_at(&mut db, &wrong_value, 0),
        Err(HandleError::WrongCommand)
    ));
    let other = Command::get_replconf_command(b"capa", b"psync2");
    assert!(matches!(
        handler.handle_at(&mut db, &other, 0),
        Err(HandleError::WrongCommand)
    ));
}

#[test]
fn reply_checks() {
    assert_eq!(Ok(()), ReplicationHandler::check_ping_reply(&Message::SimpleString("pong".to_string())));
    assert_eq!(Ok(()), ReplicationHandler::check_ping_reply(&bulk("PONG")));
    assert_eq!(
        Err(ReplicationError::WrongPingReply),
        ReplicationHandler::check_ping_reply(&bulk("PONGS"))
    );
    assert_eq!(Ok(()), ReplicationHandler::check_replconf_reply(&Message::SimpleString("ok".to_string())));
    assert_eq!(
        Err(ReplicationError::WrongReplconfReply),
        ReplicationHandler::check_replconf_reply(&Message::Integer(0))
    );
    assert_eq!(
        Ok(()),
        ReplicationHandler::check_psync_reply(&Message::SimpleString("FullResync abc 0".to_string()))
    );
    assert_eq!(
        Err(ReplicationError::WrongPsyncReply),
        ReplicationHandler::check_psync_reply(&bulk("FULLRESYNC abc 0"))
    );
}

#[test]
fn handshake_rejects_wrong_replies() {
    let (state, _) = start_handshake();
    assert!(matches!(
        handshake_step(state, vec![], 6380),
        Err(ReplicationError::WrongReplyCount)
    ));
    assert!(matches!(
        handshake_step(state, vec![bulk("nope")], 6380),
        Err(ReplicationError::WrongPingReply)
    ));
    assert!(matches!(
        handshake_step(
            HandshakeState::AwaitingFullResync,
            vec![Message::SimpleString("FULLRESYNC x 0".to_string()), Message::Integer(3)],
            6380
        ),
        Err(ReplicationError::MissingSnapshot)
    ));
}
