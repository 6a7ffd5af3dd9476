use resp_store::command_parser::Command;
use resp_store::config::{ServerConfig, ServerRole};
use resp_store::db::Db;
use resp_store::handler::{HandleError, MessageHandler, Reply};
use resp_store::message::Message;

fn bulk(s: &str) -> Message {
    Message::BulkString(s.as_bytes().to_vec())
}

fn get_set_command(key: &str, value: &str) -> (Message, Message, Message) {
    let key = bulk(key);
    let value = bulk(value);
    let message_set = Message::Array(vec![bulk("SET"), key.clone(), value.clone()]);
    (key, value, message_set)
}

struct Fixture {
    handler: MessageHandler,
    db: Db,
    config: ServerConfig,
}

fn create_handler() -> Fixture {
    let mut config = ServerConfig::new(ServerRole::Leader, 1234);
    config.master_replid = "2310921903".to_string();
    Fixture { handler: MessageHandler::new(), db: Db::new(), config }
}

impl Fixture {
    fn handle(&mut self, message: Message) -> Result<Reply, HandleError> {
        self.handler.handle_at(&mut self.db, &mut self.config, message, 1_000)
    }
}

fn handle_test(message: Message) -> Message {
    let mut f = create_handler();
    f.handle(message).unwrap().messages[0].clone()
}

#[test]
fn test_ping() {
    let message = Message::Array(vec![bulk("ping")]);

    assert_eq!(Message::SimpleString("PONG".to_string()), handle_test(message));
}

#[test]
fn test_echo() {
    let message = Message::Array(vec![bulk("Echo"), bulk("some data")]);

    assert_eq!(bulk("some data"), handle_test(message));
}

#[test]
fn test_get_no_value() {
    let message = Message::Array(vec![bulk("GET"), bulk("key1")]);

    assert_eq!(Message::NullBulkString, handle_test(message));
}

#[test]
fn test_set_and_get_value() {
    let mut f = create_handler();
    let (key, value, message_set) = get_set_command("key1", "value1");

    let result_set = f.handle(message_set).unwrap();

    assert_eq!(Message::SimpleString("OK".to_string()), result_set.messages[0]);

    let message_get = Message::Array(vec![bulk("GET"), key]);

    let result_get = f.handle(message_get).unwrap();

    assert_eq!(value, result_get.messages[0]);
}

#[test]
fn test_info_replication() {
    let mut f = create_handler();
    let messages = vec![bulk("INFO"), bulk("replication")];

    if let Message::BulkString(result) = f.handle(Message::Array(messages)).unwrap().messages[0].clone() {
        let text = String::from_utf8(result).unwrap();
        assert!(text.contains("master_replid"));
        assert_eq!(text, "role:master\nmaster_replid:2310921903\nmaster_repl_offset:0");
    } else {
        panic!("Info command should return a bulk string");
    }
}

#[test]
fn test_handle_psync() {
    let mut f = create_handler();
    let result = f.handle(Command::get_psync_command("id", 123)).unwrap();
    assert_eq!(2, result.messages.len());
    assert_eq!(
        Message::SimpleString("FULLRESYNC 2310921903 0".to_string()),
        result.messages[0]
    );
    assert!(f.handler.replication_client_acknowleged());
    assert_eq!(1, f.config.active_replication_clients());
}

#[test]
fn test_broadcast_without_receiver_does_not_fail() {
    let mut f = create_handler();
    let (_, _, set_command) = get_set_command("keyyyy", "val");

    let result = f.handle(set_command).unwrap();
    assert_eq!(Message::SimpleString("OK".to_string()), result.messages[0]);
}

#[test]
fn test_broadcast_receive_message() {
    let mut f = create_handler();
    let (_, _, set_command) = get_set_command("keyyyy", "val");

    let result = f.handle(set_command.clone()).unwrap();
    assert_eq!(Message::SimpleString("OK".to_string()), result.messages[0]);
    assert_eq!(Some(set_command), result.event);
}

#[test]
fn only_writes_produce_events() {
    let mut f = create_handler();
    let r = f.handle(Message::Array(vec![bulk("PING")])).unwrap();
    assert_eq!(None, r.event);
    let r = f.handle(Message::Array(vec![bulk("GET"), bulk("k")])).unwrap();
    assert_eq!(None, r.event);
}

#[test]
fn engine_errors() {
    let mut f = create_handler();
    assert!(matches!(
        f.handle(Message::Array(vec![bulk("INFO"), bulk("server")])),
        Err(HandleError::UnknownSection)
    ));
    assert!(matches!(
        f.handle(Message::Array(vec![bulk("WAIT"), bulk("1"), bulk("10")])),
        Err(HandleError::Unsupported)
    ));
    assert!(matches!(
        f.handle(Message::Array(vec![bulk("NOPE")])),
        Err(HandleError::Parse(_))
    ));
    assert!(matches!(
        f.handle(Message::Array(vec![bulk("SET"), bulk("k"), bulk("v"), bulk("PX"), bulk("9223372036854775807")])),
        Err(HandleError::Storage(_))
    ));
    assert!(!f.handler.replication_client_acknowleged());
}

#[test]
fn replconf_is_acknowledged() {
    let r = handle_test(Command::get_replconf_command(b"listening-port", b"6380"));
    assert_eq!(Message::SimpleString("OK".to_string()), r);
}

#[test]
fn clock_based_handle() {
    let mut f = create_handler();
    let (key, value, set) = get_set_command("k", "v");
    f.handler.handle(&mut f.db, &mut f.config, set).unwrap();
    let r = f
        .handler
        .handle(&mut f.db, &mut f.config, Message::Array(vec![bulk("GET"), key]))
        .unwrap();
    assert_eq!(value, r.messages[0]);
}
