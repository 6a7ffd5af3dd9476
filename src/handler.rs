use vstd::prelude::*;
use vstd::string::{StringExecFns, StringSliceAdditionalSpecFns};
use vstd::utf8::encode_utf8;

use crate::command_parser::{parse_command, parse_request, Command, CommandError, Request};
use crate::config::{ServerConfig, ServerRole};
use crate::db::{clock_millis, expiry_of, read_at, Db, StorageError, Stored};
use crate::message::{
    decimal, lemma_views_of, push_bytes, push_decimal, views, Frame, Message,
};

verus! {

/// Why a frame could not be handled.
#[derive(Debug, Clone, Copy, PartialEq, Eq, Structural)]
pub enum HandleError {
    /// The frame is not a command.
    Parse(CommandError),
    /// The store refused a write.
    Storage(StorageError),
    /// INFO asked for something other than the replication section.
    UnknownSection,
    /// A command that this server reserves and does not carry out.
    Unsupported,
    /// A command that must not arrive on the replication stream.
    WrongCommand,
    /// The count of applied bytes would no longer fit an `i64`.
    CounterOverflow,
}

/// The fixed snapshot that a leader sends after a full resynchronization.
pub open spec fn snapshot_blob() -> Seq<u8> {
    seq![
        82u8, 69u8, 68u8, 73u8, 83u8, 48u8, 48u8, 49u8, 49u8, 250u8, 9u8, 114u8, 101u8, 100u8,
        105u8, 115u8, 45u8, 118u8, 101u8, 114u8, 5u8, 55u8, 46u8, 50u8, 46u8, 48u8, 250u8, 10u8,
        114u8, 101u8, 100u8, 105u8, 115u8, 45u8, 98u8, 105u8, 116u8, 115u8, 192u8, 64u8, 250u8,
        5u8, 99u8, 116u8, 105u8, 109u8, 101u8, 194u8, 109u8, 8u8, 188u8, 101u8, 250u8, 8u8,
        117u8, 115u8, 101u8, 100u8, 45u8, 109u8, 101u8, 109u8, 194u8, 176u8, 196u8, 16u8, 0u8,
        250u8, 8u8, 97u8, 111u8, 102u8, 45u8, 98u8, 97u8, 115u8, 101u8, 192u8, 0u8, 255u8, 240u8,
        110u8, 59u8, 254u8, 192u8, 255u8, 90u8, 162u8,
    ]
}

/// The name of a role in the replication section.
pub open spec fn role_text(role: ServerRole) -> Seq<u8> {
    match role {
        ServerRole::Leader => "master".spec_bytes(),
        ServerRole::Follower => "slave".spec_bytes(),
    }
}

/// The text of the replication section: three `key:value` lines joined by line feeds.
pub open spec fn info_text(role: ServerRole, replid: Seq<u8>, offset: nat) -> Seq<u8> {
    "role:".spec_bytes() + role_text(role) + "\n".spec_bytes() + "master_replid:".spec_bytes()
        + replid + "\n".spec_bytes() + "master_repl_offset:".spec_bytes() + decimal(offset)
}

/// The replication section of a configuration.
pub open spec fn config_info(cfg: ServerConfig) -> Seq<u8> {
    info_text(cfg.role, encode_utf8(cfg.master_replid@), cfg.master_repl_offset as nat)
}

/// The status line that starts a full resynchronization.
pub open spec fn fullresync_text(replid: Seq<char>) -> Seq<char> {
    "FULLRESYNC "@ + replid + " 0"@
}

/// Whether INFO's sections are exactly the replication section.
pub open spec fn is_replication_section(s: Seq<Frame>) -> bool {
    s.len() == 1 && s[0] == Frame::Bulk("replication".spec_bytes())
}

/// The replies of the leader to a command.
pub open spec fn leader_replies(
    req: Request,
    store: Map<Frame, Stored>,
    cfg: ServerConfig,
    now: int,
) -> Result<Seq<Frame>, HandleError> {
    match req {
        Request::Ping => Ok(seq![Frame::Simple("PONG"@)]),
        Request::Echo(x) => Ok(seq![x]),
        Request::Get(k) => Ok(
            seq![
                match read_at(store, k, now) {
                    Some(v) => v,
                    None => Frame::NullBulk,
                },
            ],
        ),
        Request::SetValue(_, _, px) => match expiry_of(now, px) {
            Some(_) => Ok(seq![Frame::Simple("OK"@)]),
            None => Err(HandleError::Storage(StorageError::ExpiryOutOfRange)),
        },
        Request::Info(s) => if is_replication_section(s) {
            Ok(seq![Frame::Bulk(config_info(cfg))])
        } else {
            Err(HandleError::UnknownSection)
        },
        Request::Replconf(_, _) => Ok(seq![Frame::Simple("OK"@)]),
        Request::Psync(_, _) => Ok(
            seq![
                Frame::Simple(fullresync_text(cfg.master_replid@)),
                Frame::Snapshot(snapshot_blob()),
            ],
        ),
        Request::Wait(_, _) => Err(HandleError::Unsupported),
    }
}

/// The store after a command that succeeded.
pub open spec fn store_after(req: Request, store: Map<Frame, Stored>, now: int) -> Map<
    Frame,
    Stored,
> {
    match req {
        Request::SetValue(k, v, px) => match expiry_of(now, px) {
            Some(exp) => store.insert(k, Stored { value: v, expires_at: exp }),
            None => store,
        },
        _ => store,
    }
}

/// The settings of two configurations agree, whatever their follower counts.
pub open spec fn same_settings(a: ServerConfig, b: ServerConfig) -> bool {
    a.role == b.role && a.master_replid@ == b.master_replid@ && a.master_repl_offset
        == b.master_repl_offset && a.listener_port == b.listener_port
}

/// The follower count after one more follower attached.
pub open spec fn one_more(n: u16) -> u16 {
    if n < u16::MAX {
        (n + 1) as u16
    } else {
        n
    }
}

/// What handling one frame produced: the replies to write back, in order, and
/// the write event to publish to the followers, if any.
pub struct Reply {
    pub messages: Vec<Message>,
    pub event: Option<Message>,
}

pub open spec fn opt_view(o: Option<Message>) -> Option<Frame> {
    match o {
        Some(m) => Some(m@),
        None => None,
    }
}

/// One step of a client connection on the leader: from the connection's
/// upgrade flag, the store and the configuration before, a frame and the
/// instant, to the result and the flag, store and configuration after.
pub open spec fn leader_step(
    ack: bool,
    store: Map<Frame, Stored>,
    cfg: ServerConfig,
    message: Frame,
    now: int,
    r: Result<Reply, HandleError>,
    ack2: bool,
    store2: Map<Frame, Stored>,
    cfg2: ServerConfig,
) -> bool {
    &&& same_settings(cfg2, cfg)
    &&& match parse_request(message) {
        Err(e) => r == Err::<Reply, HandleError>(HandleError::Parse(e)) && store2 == store
            && cfg2.replication_clients == cfg.replication_clients && ack2 == ack,
        Ok(req) => match leader_replies(req, store, cfg, now) {
            Err(e) => r == Err::<Reply, HandleError>(e) && store2 == store
                && cfg2.replication_clients == cfg.replication_clients && ack2 == ack,
            Ok(replies) => {
                &&& r is Ok
                &&& views(r->Ok_0.messages@) == replies
                &&& store2 == store_after(req, store, now)
                &&& opt_view(r->Ok_0.event) == if req is SetValue {
                    Some(message)
                } else {
                    None
                }
                &&& cfg2.replication_clients == if req is Psync {
                    one_more(cfg.replication_clients)
                } else {
                    cfg.replication_clients
                }
                &&& ack2 == (ack || req is Psync)
            },
        },
    }
}

/// The snapshot that a leader sends after a full resynchronization.
pub fn get_rdb_file() -> (r: Message)
    ensures
        r@ == Frame::Snapshot(snapshot_blob()),
{
    let bytes = vec![
        82u8, 69u8, 68u8, 73u8, 83u8, 48u8, 48u8, 49u8, 49u8, 250u8, 9u8, 114u8, 101u8, 100u8,
        105u8, 115u8, 45u8, 118u8, 101u8, 114u8, 5u8, 55u8, 46u8, 50u8, 46u8, 48u8, 250u8, 10u8,
        114u8, 101u8, 100u8, 105u8, 115u8, 45u8, 98u8, 105u8, 116u8, 115u8, 192u8, 64u8, 250u8,
        5u8, 99u8, 116u8, 105u8, 109u8, 101u8, 194u8, 109u8, 8u8, 188u8, 101u8, 250u8, 8u8,
        117u8, 115u8, 101u8, 100u8, 45u8, 109u8, 101u8, 109u8, 194u8, 176u8, 196u8, 16u8, 0u8,
        250u8, 8u8, 97u8, 111u8, 102u8, 45u8, 98u8, 97u8, 115u8, 101u8, 192u8, 0u8, 255u8, 240u8,
        110u8, 59u8, 254u8, 192u8, 255u8, 90u8, 162u8,
    ];
    assert(bytes@ =~= snapshot_blob());
    Message::RdbFile(bytes)
}

/// The replication section of a configuration, as a bulk string.
pub fn build_replication_info(config: &ServerConfig) -> (r: Message)
    ensures
        r@ == Frame::Bulk(config_info(*config)),
{
    let mut data: Vec<u8> = Vec::new();
    push_bytes(&mut data, "role:".as_bytes());
    match config.role {
        ServerRole::Leader => push_bytes(&mut data, "master".as_bytes()),
        ServerRole::Follower => push_bytes(&mut data, "slave".as_bytes()),
    }
    push_bytes(&mut data, "\n".as_bytes());
    push_bytes(&mut data, "master_replid:".as_bytes());
    push_bytes(&mut data, config.master_replid.as_str().as_bytes());
    push_bytes(&mut data, "\n".as_bytes());
    push_bytes(&mut data, "master_repl_offset:".as_bytes());
    push_decimal(&mut data, config.master_repl_offset as u64);
    Message::BulkString(data)
}

/// Whether INFO's sections are exactly the replication section.
fn is_replication(sections: &Vec<Message>) -> (r: bool)
    ensures
        r == is_replication_section(views(sections@)),
{
    proof {
        crate::message::lemma_views(sections@);
    }
    if sections.len() != 1 {
        return false;
    }
    let expected = Message::BulkString(crate::parser::copy_bytes("replication".as_bytes()));
    sections[0] == expected
}

/// One reply and no event.
fn single(m: Message) -> (r: Reply)
    ensures
        views(r.messages@) == seq![m@],
        r.event is None,
{
    let messages = vec![m];
    proof {
        lemma_views_of(messages@, seq![messages@[0]@]);
    }
    Reply { messages, event: None }
}

/// Handles the commands of a client connection on the leader.
pub struct MessageHandler {
    pub replication_client_ack: bool,
}

impl MessageHandler {
    /// A handler for a fresh connection, not upgraded to replication.
    pub fn new() -> (r: MessageHandler)
        ensures
            !r.replication_client_ack,
    {
        MessageHandler { replication_client_ack: false }
    }

    /// Whether this connection completed PSYNC and now belongs to a follower.
    pub fn replication_client_acknowleged(&self) -> (r: bool)
        ensures
            r == self.replication_client_ack,
    {
        self.replication_client_ack
    }

    /// Handles one frame at instant `now` (milliseconds since the Unix epoch).
    pub fn handle_at(
        &mut self,
        db: &mut Db,
        config: &mut ServerConfig,
        message: Message,
        now: i64,
    ) -> (r: Result<Reply, HandleError>)
        requires
            old(db).wf(),
        ensures
            final(db).wf(),
            leader_step(
                old(self).replication_client_ack,
                old(db)@,
                *old(config),
                message@,
                now as int,
                r,
                final(self).replication_client_ack,
                final(db)@,
                *final(config),
            ),
    {
        let original = message.duplicate();
        let command = match parse_command(message) {
            Ok(c) => c,
            Err(e) => {
                return Err(HandleError::Parse(e));
            },
        };
        match command {
            Command::Ping => Ok(single(Message::SimpleString(String::from_str("PONG")))),
            Command::Echo(m) => Ok(single(m)),
            Command::Get { key } => {
                let v = match db.get_at(&key, now) {
                    Some(v) => v,
                    None => Message::NullBulkString,
                };
                Ok(single(v))
            },
            Command::SetValue { key, value, expire_time } => {
                match db.set_at(key, value, expire_time, now) {
                    Ok(()) => {
                        let reply = single(Message::SimpleString(String::from_str("OK")));
                        Ok(Reply { messages: reply.messages, event: Some(original) })
                    },
                    Err(e) => Err(HandleError::Storage(e)),
                }
            },
            Command::Info { sections } => {
                if is_replication(&sections) {
                    Ok(single(build_replication_info(config)))
                } else {
                    Err(HandleError::UnknownSection)
                }
            },
            Command::Replconf { .. } => Ok(single(Message::SimpleString(String::from_str("OK")))),
            Command::Psync { .. } => {
                self.replication_client_ack = true;
                config.add_replication_client();
                let mut text = String::from_str("FULLRESYNC ");
                text.append(config.master_replid.as_str());
                text.append(" 0");
                let messages = vec![Message::SimpleString(text), get_rdb_file()];
                proof {
                    lemma_views_of(messages@, seq![messages@[0]@, messages@[1]@]);
                }
                Ok(Reply { messages, event: None })
            },
            Command::Wait { .. } => Err(HandleError::Unsupported),
        }
    }

    /// Handles one frame at the current time.
    pub fn handle(&mut self, db: &mut Db, config: &mut ServerConfig, message: Message) -> (r: Result<
        Reply,
        HandleError,
    >)
        requires
            old(db).wf(),
        ensures
            final(db).wf(),
            exists|now: i64|
                leader_step(
                    old(self).replication_client_ack,
                    old(db)@,
                    *old(config),
                    message@,
                    now as int,
                    r,
                    final(self).replication_client_ack,
                    final(db)@,
                    *final(config),
                ),
    {
        let now = clock_millis();
        self.handle_at(db, config, message, now)
    }
}


/// Whether `w` occurs in `t` as a contiguous run.
pub open spec fn contains_run(t: Seq<u8>, w: Seq<u8>) -> bool {
    exists|i: int| 0 <= i && i + w.len() <= t.len() && #[trigger] t.subrange(i, i + w.len()) == w
}

proof fn lemma_run_at(t: Seq<u8>, pre: Seq<u8>, w: Seq<u8>, post: Seq<u8>)
    requires
        t == pre + w + post,
    ensures
        contains_run(t, w),
{
    assert(t.subrange(pre.len() as int, pre.len() + w.len() as int) =~= w);
}

/// The replication section names the role, the replication id and the
/// replication offset, whatever the configuration.
pub proof fn lemma_info_fields(role: ServerRole, replid: Seq<u8>, offset: nat)
    ensures
        contains_run(info_text(role, replid, offset), "role:".spec_bytes()),
        contains_run(info_text(role, replid, offset), "master_replid:".spec_bytes()),
        contains_run(info_text(role, replid, offset), "master_repl_offset:".spec_bytes()),
{
    let nl = "\n".spec_bytes();
    let a = "role:".spec_bytes();
    let b = "master_replid:".spec_bytes();
    let c = "master_repl_offset:".spec_bytes();
    let t = info_text(role, replid, offset);
    let rest = role_text(role) + nl + b + replid + nl + c + decimal(offset);
    assert(t =~= Seq::<u8>::empty() + a + rest);
    lemma_run_at(t, Seq::empty(), a, rest);
    assert(t =~= (a + role_text(role) + nl) + b + (replid + nl + c + decimal(offset)));
    lemma_run_at(t, a + role_text(role) + nl, b, replid + nl + c + decimal(offset));
    assert(t =~= (a + role_text(role) + nl + b + replid + nl) + c + decimal(offset));
    lemma_run_at(t, a + role_text(role) + nl + b + replid + nl, c, decimal(offset));
}

/// After a write of `v` under `k` at `t0` is accepted, a read of `k` at `t1`
/// returns `v` when no expiry was asked for, or when a positive time to live
/// `t` was asked for and `t1` is at most `t0 + t`; it returns the null bulk
/// string once that instant has passed.
pub proof fn lemma_set_then_get(
    store: Map<Frame, Stored>,
    cfg: ServerConfig,
    k: Frame,
    v: Frame,
    px: Option<int>,
    t0: int,
    t1: int,
)
    requires
        expiry_of(t0, px) is Some,
    ensures
        leader_replies(
            Request::Get(k),
            store_after(Request::SetValue(k, v, px), store, t0),
            cfg,
            t1,
        ) == Ok::<Seq<Frame>, HandleError>(
            seq![
                if px is None || (px->Some_0 > 0 && t1 <= t0 + px->Some_0) || (px->Some_0 <= 0 && t1
                    < t0 + px->Some_0) {
                    v
                } else {
                    Frame::NullBulk
                },
            ],
        ),
{
    let s2 = store_after(Request::SetValue(k, v, px), store, t0);
    assert(s2.contains_key(k));
}

/// A write with a time to live of zero or less reads as the null bulk string
/// from the instant it was accepted on.
pub proof fn lemma_set_expired(
    store: Map<Frame, Stored>,
    cfg: ServerConfig,
    k: Frame,
    v: Frame,
    t: int,
    t0: int,
    t1: int,
)
    requires
        t <= 0,
        t0 <= t1,
        expiry_of(t0, Some(t)) is Some,
    ensures
        leader_replies(
            Request::Get(k),
            store_after(Request::SetValue(k, v, Some(t)), store, t0),
            cfg,
            t1,
        ) == Ok::<Seq<Frame>, HandleError>(seq![Frame::NullBulk]),
{
    lemma_set_then_get(store, cfg, k, v, Some(t), t0, t1);
}

/// An accepted SET on the leader publishes exactly one write event, the
/// command's own frame unchanged, and the store then holds the new value.
pub proof fn lemma_set_publishes_once(
    ack: bool,
    store: Map<Frame, Stored>,
    cfg: ServerConfig,
    message: Frame,
    now: int,
    r: Result<Reply, HandleError>,
    ack2: bool,
    store2: Map<Frame, Stored>,
    cfg2: ServerConfig,
    k: Frame,
    v: Frame,
    px: Option<int>,
)
    requires
        leader_step(ack, store, cfg, message, now, r, ack2, store2, cfg2),
        parse_request(message) == Ok::<Request, CommandError>(Request::SetValue(k, v, px)),
        expiry_of(now, px) is Some,
    ensures
        r is Ok,
        opt_view(r->Ok_0.event) == Some(message),
        views(r->Ok_0.messages@) == seq![Frame::Simple("OK"@)],
        store2 == store.insert(k, Stored { value: v, expires_at: expiry_of(now, px)->Some_0 }),
{
}

/// PSYNC on the leader answers with the full-resynchronization line and an
/// 88-byte snapshot that starts with the magic, marks the connection as a
/// follower's, and counts one more follower.
pub proof fn lemma_psync_reply(
    ack: bool,
    store: Map<Frame, Stored>,
    cfg: ServerConfig,
    message: Frame,
    now: int,
    r: Result<Reply, HandleError>,
    ack2: bool,
    store2: Map<Frame, Stored>,
    cfg2: ServerConfig,
    id: Frame,
    offset: int,
)
    requires
        leader_step(ack, store, cfg, message, now, r, ack2, store2, cfg2),
        parse_request(message) == Ok::<Request, CommandError>(Request::Psync(id, offset)),
        cfg.replication_clients < u16::MAX,
    ensures
        r is Ok,
        views(r->Ok_0.messages@) == seq![
            Frame::Simple(fullresync_text(cfg.master_replid@)),
            Frame::Snapshot(snapshot_blob()),
        ],
        snapshot_blob().len() == 88,
        snapshot_blob().subrange(0, 5) == crate::parser::snapshot_magic(),
        ack2,
        cfg2.replication_clients == cfg.replication_clients + 1,
        store2 == store,
{
    assert(snapshot_blob().subrange(0, 5) =~= crate::parser::snapshot_magic());
}

} // verus!
