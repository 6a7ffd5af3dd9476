use resp_store::command_parser::{get_expire_time, parse_command, Command, CommandError};
use resp_store::message::Message;

fn bulk(s: &str) -> Message {
    Message::BulkString(s.as_bytes().to_vec())
}

fn get_set_message(key: &str, value: &str, expire_time: Option<i64>) -> (Message, Message, Message) {
    let key = bulk(key);
    let value = bulk(value);

    let message_set = if let Some(time) = expire_time {
        Message::Array(vec![
            bulk("SET"),
            key.clone(),
            value.clone(),
            bulk("PX"),
            bulk(&time.to_string()),
        ])
    } else {
        Message::Array(vec![bulk("SET"), key.clone(), value.clone()])
    };

    (key, value, message_set)
}

fn assert_command(expected_command: Command, message: Message) {
    assert_eq!(expected_command, parse_command(message).unwrap())
}

#[test]
fn test_get_expire_time() {
    let expire_time = 100;
    if let (_, _, Message::Array(vec_messages)) = get_set_message("key", "val", Some(expire_time)) {
        assert_eq!(Some(expire_time), get_expire_time(&vec_messages).unwrap());
    } else {
        unreachable!();
    }
}

#[test]
fn test_ping_command() {
    let message = Message::Array(vec![bulk("ping")]);

    assert_command(Command::Ping, message);
}

#[test]
fn test_echo_command() {
    let data = bulk("some data");
    let message = Message::Array(vec![bulk("Echo"), data.clone()]);

    assert_command(Command::Echo(data), message);
}

#[test]
fn test_set_command() {
    let (key, value, message_set) = get_set_message("the_key", "the_value", None);

    assert_command(
        Command::SetValue {
            key,
            value,
            expire_time: None,
        },
        message_set,
    );

    let (key, value, message_set) = get_set_message("the_key", "the_value", Some(123));

    assert_command(
        Command::SetValue {
            key,
            value,
            expire_time: Some(123),
        },
        message_set,
    );
}

#[test]
fn test_get_command() {
    let key = bulk("key1");
    let message_get = Message::Array(vec![bulk("GET"), key.clone()]);

    assert_command(Command::Get { key }, message_get);
}

#[test]
fn parse_errors_are_classified() {
    assert_eq!(parse_command(bulk("PING")), Err(CommandError::NotACommand));
    assert_eq!(parse_command(Message::Array(vec![])), Err(CommandError::NotACommand));
    assert_eq!(
        parse_command(Message::Array(vec![Message::Integer(1)])),
        Err(CommandError::NotACommand)
    );
    assert_eq!(
        parse_command(Message::Array(vec![bulk("FLUSHALL")])),
        Err(CommandError::UnknownCommand)
    );
    assert_eq!(
        parse_command(Message::Array(vec![bulk("GET")])),
        Err(CommandError::WrongArity)
    );
    assert_eq!(
        parse_command(Message::Array(vec![bulk("SET"), bulk("k"), bulk("v"), bulk("EX"), bulk("5")])),
        Err(CommandError::InvalidArgument)
    );
    assert_eq!(
        parse_command(Message::Array(vec![bulk("SET"), bulk("k"), bulk("v"), bulk("px"), bulk("x")])),
        Err(CommandError::InvalidArgument)
    );
}

#[test]
fn parses_the_other_commands() {
    assert_eq!(
        parse_command(Message::Array(vec![bulk("info"), bulk("replication")])),
        Ok(Command::Info { sections: vec![bulk("replication")] })
    );
    assert_eq!(
        parse_command(Message::Array(vec![bulk("INFO")])),
        Ok(Command::Info { sections: vec![] })
    );
    assert_eq!(
        parse_command(Message::Array(vec![bulk("REPLCONF"), bulk("capa"), bulk("psync2")])),
        Ok(Command::Replconf { name: bulk("capa"), value: bulk("psync2") })
    );
    assert_eq!(
        parse_command(Message::Array(vec![bulk("PSYNC"), bulk("?"), bulk("-1")])),
        Ok(Command::Psync { replid: bulk("?"), offset: -1 })
    );
    assert_eq!(
        parse_command(Message::Array(vec![bulk("wait"), bulk("1"), bulk("500")])),
        Ok(Command::Wait { numreplicas: 1, timeout: 500 })
    );
}

#[test]
fn to_message_round_trips_through_the_parser() {
    let commands = vec![
        Command::Ping,
        Command::Echo(bulk("hi")),
        Command::Get { key: bulk("k") },
        Command::SetValue { key: bulk("k"), value: bulk("v"), expire_time: None },
        Command::SetValue { key: bulk("k"), value: bulk("v"), expire_time: Some(-5) },
        Command::Info { sections: vec![bulk("replication")] },
        Command::Replconf { name: bulk("GETACK"), value: bulk("*") },
        Command::Psync { replid: bulk("?"), offset: -1 },
        Command::Wait { numreplicas: 2, timeout: 100 },
    ];
    for c in commands {
        assert_eq!(parse_command(c.to_message()), Ok(c.clone()));
    }
    assert_eq!(
        Command::SetValue { key: bulk("k"), value: bulk("v"), expire_time: Some(50) }.to_message(),
        Message::Array(vec![bulk("SET"), bulk("k"), bulk("v"), bulk("PX"), bulk("50")])
    );
}

#[test]
fn builders_produce_the_handshake_commands() {
    assert_eq!(Command::get_ping_command().to_data(), b"*1\r\n$4\r\nPING\r\n".to_vec());
    assert_eq!(
        Command::get_replconf_command(b"capa", b"psync2"),
        Message::Array(vec![bulk("REPLCONF"), bulk("capa"), bulk("psync2")])
    );
    assert_eq!(
        Command::get_psync_command("?", -1),
        Message::Array(vec![bulk("PSYNC"), bulk("?"), bulk("-1")])
    );
}
