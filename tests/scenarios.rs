use resp_store::config::{parse_leader_addr, AddrError, ServerConfig, ServerRole};
use resp_store::db::Db;
use resp_store::handler::{get_rdb_file, MessageHandler};
use resp_store::message::Message;
use resp_store::parser::decode_frames;
use resp_store::replication::{handshake_step, start_handshake, HandshakeState, ReplicationHandler};

struct Leader {
    handler: MessageHandler,
    db: Db,
    config: ServerConfig,
}

impl Leader {
    fn new(role: ServerRole) -> Leader {
        Leader {
            handler: MessageHandler::new(),
            db: Db::new(),
            config: ServerConfig::new(role, 6379),
        }
    }

    // bytes in, bytes out, as a connection would see them
    fn exchange(&mut self, input: &[u8], now: i64) -> Vec<u8> {
        let mut out = Vec::new();
        for m in decode_frames(input).unwrap() {
            let reply = self.handler.handle_at(&mut self.db, &mut self.config, m, now).unwrap();
            for r in reply.messages {
                out.extend(r.to_data());
            }
        }
        out
    }
}

#[test]
fn ping_round_trip() {
    let mut leader = Leader::new(ServerRole::Leader);
    assert_eq!(leader.exchange(b"*1\r\n$4\r\nPING\r\n", 0), b"+PONG\r\n".to_vec());
}

#[test]
fn set_then_get_on_the_wire() {
    let mut leader = Leader::new(ServerRole::Leader);
    assert_eq!(
        leader.exchange(b"*3\r\n$3\r\nSET\r\n$1\r\nk\r\n$1\r\nv\r\n", 0),
        b"+OK\r\n".to_vec()
    );
    assert_eq!(
        leader.exchange(b"*2\r\n$3\r\nGET\r\n$1\r\nk\r\n", 0),
        b"$1\r\nv\r\n".to_vec()
    );
}

#[test]
fn expiry_on_the_wire() {
    let mut leader = Leader::new(ServerRole::Leader);
    let t0 = 1_700_000_000_000;
    assert_eq!(
        leader.exchange(b"*5\r\n$3\r\nSET\r\n$1\r\nk\r\n$1\r\nv\r\n$2\r\nPX\r\n$2\r\n50\r\n", t0),
        b"+OK\r\n".to_vec()
    );
    let get = b"*2\r\n$3\r\nGET\r\n$1\r\nk\r\n";
    assert_eq!(leader.exchange(get, t0 + 10), b"$1\r\nv\r\n".to_vec());
    assert_eq!(leader.exchange(get, t0 + 200), b"$-1\r\n".to_vec());
}

#[test]
fn non_positive_ttl_reads_null_at_once() {
    let mut leader = Leader::new(ServerRole::Leader);
    for ttl in ["0", "-5"] {
        let set = format!(
            "*5\r\n$3\r\nSET\r\n$1\r\nk\r\n$1\r\nv\r\n$2\r\npx\r\n${}\r\n{}\r\n",
            ttl.len(),
            ttl
        );
        assert_eq!(leader.exchange(set.as_bytes(), 100), b"+OK\r\n".to_vec());
        assert_eq!(
            leader.exchange(b"*2\r\n$3\r\nGET\r\n$1\r\nk\r\n", 100),
            b"$-1\r\n".to_vec()
        );
    }
}

#[test]
fn info_role() {
    let info = b"*2\r\n$4\r\nINFO\r\n$11\r\nreplication\r\n";
    let out = Leader::new(ServerRole::Leader).exchange(info, 0);
    let text = String::from_utf8(out).unwrap();
    assert!(text.contains("role:master"));
    assert!(text.contains("master_replid:"));
    assert!(text.contains("master_repl_offset:"));
    let out = Leader::new(ServerRole::Follower).exchange(info, 0);
    let text = String::from_utf8(out).unwrap();
    assert!(text.contains("role:slave"));
}

#[test]
fn handshake_against_a_leader() {
    let mut leader = Leader::new(ServerRole::Leader);
    let (mut state, first) = start_handshake();
    let mut request = Some(first);
    let mut sent = Vec::new();
    let mut last_reply = Vec::new();
    while let Some(req) = request.take() {
        sent.push(req.clone());
        let reply = leader.exchange(&req.to_data(), 0);
        last_reply = reply.clone();
        let step = handshake_step(state, decode_frames(&reply).unwrap(), 6380).unwrap();
        state = step.next;
        request = step.send;
        assert!(step.apply.is_empty());
    }
    assert_eq!(HandshakeState::Streaming, state);
    assert_eq!(sent[0].to_data(), b"*1\r\n$4\r\nPING\r\n".to_vec());
    assert_eq!(
        sent[1].to_data(),
        b"*3\r\n$8\r\nREPLCONF\r\n$14\r\nlistening-port\r\n$4\r\n6380\r\n".to_vec()
    );
    assert_eq!(
        sent[2].to_data(),
        b"*3\r\n$8\r\nREPLCONF\r\n$4\r\ncapa\r\n$6\r\npsync2\r\n".to_vec()
    );
    assert_eq!(sent[3].to_data(), b"*3\r\n$5\r\nPSYNC\r\n$1\r\n?\r\n$2\r\n-1\r\n".to_vec());
    let mut expected = b"+FULLRESYNC 8371b4fb1155b71f4a04d3e1bc3e18c4a990aeeb 0\r\n".to_vec();
    let snapshot = get_rdb_file().to_data();
    assert!(snapshot.starts_with(b"$88\r\nREDIS0011"));
    assert!(!snapshot.ends_with(b"\r\n"));
    expected.extend(snapshot);
    assert_eq!(expected, last_reply);
    assert_eq!(1, leader.config.active_replication_clients());
}

#[test]
fn snapshot_arriving_alone_or_with_commands() {
    let fullresync = Message::SimpleString("FULLRESYNC abc 0".to_string());
    let step = handshake_step(HandshakeState::AwaitingFullResync, vec![fullresync.clone()], 1).unwrap();
    assert_eq!(HandshakeState::AwaitingSnapshot, step.next);
    let set = Message::Array(vec![
        Message::BulkString(b"SET".to_vec()),
        Message::BulkString(b"a".to_vec()),
        Message::BulkString(b"b".to_vec()),
    ]);
    let step = handshake_step(HandshakeState::AwaitingSnapshot, vec![get_rdb_file(), set.clone()], 1).unwrap();
    assert_eq!(HandshakeState::Streaming, step.next);
    assert_eq!(vec![set.clone()], step.apply);
    let step = handshake_step(
        HandshakeState::AwaitingFullResync,
        vec![fullresync, get_rdb_file(), set.clone()],
        1,
    )
    .unwrap();
    assert_eq!(HandshakeState::Streaming, step.next);
    assert_eq!(vec![set], step.apply);
}

#[test]
fn ack_counting() {
    let mut follower = ReplicationHandler::new();
    let mut db = Db::new();
    let set = b"*3\r\n$3\r\nSET\r\n$1\r\nk\r\n$1\r\nv\r\n";
    let getack = b"*3\r\n$8\r\nREPLCONF\r\n$6\r\nGETACK\r\n$1\r\n*\r\n";
    let mut stream = set.to_vec();
    stream.extend_from_slice(getack);
    let mut replies = Vec::new();
    for m in decode_frames(&stream).unwrap() {
        if let Some(r) = follower.handle_at(&mut db, &m, 0).unwrap().reply {
            replies.extend(r.to_data());
        }
    }
    let l1 = set.len().to_string();
    let expected = format!("*3\r\n$8\r\nREPLCONF\r\n$3\r\nACK\r\n${}\r\n{}\r\n", l1.len(), l1);
    assert_eq!(expected.into_bytes(), replies);
}

#[test]
fn leader_address() {
    assert_eq!(Ok(("localhost".to_string(), 6379)), parse_leader_addr("localhost 6379"));
    assert_eq!(Ok(("127.0.0.1".to_string(), 1)), parse_leader_addr("  127.0.0.1\t+1 "));
    assert_eq!(Err(AddrError::WrongTokenCount), parse_leader_addr("localhost"));
    assert_eq!(Err(AddrError::WrongTokenCount), parse_leader_addr("a 1 b"));
    assert_eq!(Err(AddrError::WrongTokenCount), parse_leader_addr(""));
    assert_eq!(Err(AddrError::InvalidPort), parse_leader_addr("localhost 65536"));
    assert_eq!(Err(AddrError::InvalidPort), parse_leader_addr("localhost port"));
}

#[test]
fn follower_counter_saturates() {
    let mut config = ServerConfig::new(ServerRole::Leader, 1);
    config.remove_replication_client();
    assert_eq!(0, config.active_replication_clients());
    config.add_replication_client();
    config.add_replication_client();
    config.remove_replication_client();
    assert_eq!(1, config.active_replication_clients());
    config.remove_replication_client();
    assert_eq!(0, config.active_replication_clients());
    config.replication_clients = u16::MAX;
    config.add_replication_client();
    assert_eq!(u16::MAX, config.active_replication_clients());
}
