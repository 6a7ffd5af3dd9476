use vstd::prelude::*;
use vstd::slice::slice_subrange;
use vstd::string::StringSliceAdditionalSpecFns;
use vstd::utf8::encode_utf8;

use crate::command_parser::{
    copy_tail, parse_command, parse_request, request_frame, upper, upper_bytes, Command, Request,
};
use crate::db::{expiry_of, Db, Stored};
use crate::handler::{opt_view, store_after, HandleError};
use crate::message::{
    bytes_equal, decimal, encode, lemma_views, lemma_views_of, push_decimal, signed_decimal,
    views, Frame, Message,
};

verus! {

/// The total length of the encodings of a sequence of frames.
pub open spec fn total_len(fs: Seq<Frame>) -> int
    decreases fs.len(),
{
    if fs.len() == 0 {
        0
    } else {
        total_len(fs.drop_last()) + encode(fs.last()).len()
    }
}

/// The acknowledgement that reports `n` applied bytes.
pub open spec fn ack_frame(n: int) -> Frame {
    request_frame(
        Request::Replconf(Frame::Bulk("ACK".spec_bytes()), Frame::Bulk(signed_decimal(n))),
    )
}

/// Whether a frame is a bulk string that spells GETACK, in any case.
pub open spec fn is_getack(f: Frame) -> bool {
    f is Bulk && upper(f->Bulk_0) == "GETACK".spec_bytes()
}

/// What a follower answers to a command from its leader, given the bytes it
/// had applied before that command.
pub open spec fn follower_reply(req: Request, before: int, now: int) -> Result<
    Option<Frame>,
    HandleError,
> {
    match req {
        Request::Ping => Ok(None),
        Request::SetValue(_, _, px) => if expiry_of(now, px) is Some {
            Ok(None)
        } else {
            Err(HandleError::Storage(crate::db::StorageError::ExpiryOutOfRange))
        },
        Request::Replconf(name, value) => if is_getack(name) && value == Frame::Bulk(
            "*".spec_bytes(),
        ) {
            Ok(Some(ack_frame(before)))
        } else {
            Err(HandleError::WrongCommand)
        },
        _ => Err(HandleError::WrongCommand),
    }
}

/// What applying one frame from the leader produced: the reply to send back,
/// and the write event to publish to this process's own followers.
pub struct Applied {
    pub reply: Option<Message>,
    pub event: Option<Message>,
}

/// One step of the follower's apply path: from the frames received and the
/// store before, a frame and the instant, to the result, the frames received
/// and the store after.
pub open spec fn follower_step(
    received: Seq<Frame>,
    store: Map<Frame, Stored>,
    message: Frame,
    now: int,
    r: Result<Applied, HandleError>,
    received2: Seq<Frame>,
    store2: Map<Frame, Stored>,
) -> bool {
    if total_len(received) + encode(message).len() > i64::MAX {
        r == Err::<Applied, HandleError>(HandleError::CounterOverflow) && received2 == received
            && store2 == store
    } else {
        &&& received2 == received.push(message)
        &&& match parse_request(message) {
            Err(e) => r == Err::<Applied, HandleError>(HandleError::Parse(e)) && store2 == store,
            Ok(req) => match follower_reply(req, total_len(received), now) {
                Err(e) => r == Err::<Applied, HandleError>(e) && store2 == store,
                Ok(reply) => {
                    &&& r is Ok
                    &&& opt_view(r->Ok_0.reply) == reply
                    &&& opt_view(r->Ok_0.event) == if req is SetValue {
                        Some(message)
                    } else {
                        None
                    }
                    &&& store2 == store_after(req, store, now)
                },
            },
        }
    }
}

/// Applies the replication stream on a follower.
pub struct ReplicationHandler {
    bytes_acknowledged: i64,
    received: Ghost<Seq<Frame>>,
}

impl ReplicationHandler {
    /// The frames received from the leader so far.
    pub closed spec fn received(&self) -> Seq<Frame> {
        self.received@
    }

    /// The handler's invariant: the counter is the length of all that was received.
    pub closed spec fn wf(&self) -> bool {
        self.bytes_acknowledged == total_len(self.received@)
    }

    /// A handler that has received nothing.
    pub fn new() -> (r: ReplicationHandler)
        ensures
            r.wf(),
            r.received() == Seq::<Frame>::empty(),
    {
        ReplicationHandler { bytes_acknowledged: 0, received: Ghost(Seq::empty()) }
    }

    /// The number of bytes applied so far.
    pub fn bytes_applied(&self) -> (r: i64)
        requires
            self.wf(),
        ensures
            r == total_len(self.received()),
    {
        self.bytes_acknowledged
    }

    /// Applies one frame from the leader at instant `now` (milliseconds since
    /// the Unix epoch). Its length counts before it is carried out, so an
    /// acknowledgement reports what came before it.
    pub fn handle_at(&mut self, db: &mut Db, message: &Message, now: i64) -> (r: Result<
        Applied,
        HandleError,
    >)
        requires
            old(self).wf(),
            old(db).wf(),
        ensures
            final(self).wf(),
            final(db).wf(),
            follower_step(
                old(self).received(),
                old(db)@,
                message@,
                now as int,
                r,
                final(self).received(),
                final(db)@,
            ),
    {
        let len = message.to_data().len();
        let before = self.bytes_acknowledged;
        proof {
            lemma_total_len_nonneg(self.received@);
        }
        if len as u64 > (i64::MAX - before) as u64 {
            return Err(HandleError::CounterOverflow);
        }
        self.bytes_acknowledged = before + len as i64;
        proof {
            let s = self.received@.push(message@);
            assert(s.drop_last() =~= self.received@);
            self.received = Ghost(s);
        }
        let command = match parse_command(message.duplicate()) {
            Ok(c) => c,
            Err(e) => {
                return Err(HandleError::Parse(e));
            },
        };
        match command {
            Command::Ping => Ok(Applied { reply: None, event: None }),
            Command::SetValue { key, value, expire_time } => {
                match db.set_at(key, value, expire_time, now) {
                    Ok(()) => Ok(Applied { reply: None, event: Some(message.duplicate()) }),
                    Err(e) => Err(HandleError::Storage(e)),
                }
            },
            Command::Replconf { name, value } => {
                if is_getack_message(&name) && value == Message::BulkString(
                    crate::parser::copy_bytes("*".as_bytes()),
                ) {
                    Ok(Applied { reply: Some(ack_message(before)), event: None })
                } else {
                    Err(HandleError::WrongCommand)
                }
            },
            _ => Err(HandleError::WrongCommand),
        }
    }

    /// Applies one frame from the leader at the current time.
    pub fn handle(&mut self, db: &mut Db, message: &Message) -> (r: Result<Applied, HandleError>)
        requires
            old(self).wf(),
            old(db).wf(),
        ensures
            final(self).wf(),
            final(db).wf(),
            exists|now: i64|
                follower_step(
                    old(self).received(),
                    old(db)@,
                    message@,
                    now as int,
                    r,
                    final(self).received(),
                    final(db)@,
                ),
    {
        let now = crate::db::clock_millis();
        self.handle_at(db, message, now)
    }
}

proof fn lemma_total_len_nonneg(fs: Seq<Frame>)
    ensures
        total_len(fs) >= 0,
    decreases fs.len(),
{
    if fs.len() > 0 {
        lemma_total_len_nonneg(fs.drop_last());
    }
}

/// Whether a message is a bulk string that spells GETACK, in any case.
fn is_getack_message(m: &Message) -> (r: bool)
    ensures
        r == is_getack(m@),
{
    match m {
        Message::BulkString(b) => {
            let u = upper_bytes(b.as_slice());
            bytes_equal(u.as_slice(), "GETACK".as_bytes())
        },
        _ => false,
    }
}

/// The acknowledgement that reports `n` applied bytes.
pub fn ack_message(n: i64) -> (r: Message)
    ensures
        r@ == ack_frame(n as int),
{
    let mut digits: Vec<u8> = Vec::new();
    crate::message::push_signed_decimal(&mut digits, n);
    assert(digits@ =~= signed_decimal(n as int));
    Command::get_replconf_command("ACK".as_bytes(), digits.as_slice())
}


/// Why the replication handshake was aborted.
#[derive(Debug, Clone, Copy, PartialEq, Eq, Structural)]
pub enum ReplicationError {
    /// A handshake step got other than exactly one reply.
    WrongReplyCount,
    /// The reply to PING was not PONG.
    WrongPingReply,
    /// The reply to REPLCONF was not OK.
    WrongReplconfReply,
    /// The reply to PSYNC did not start a full resynchronization.
    WrongPsyncReply,
    /// What followed the full resynchronization was not a snapshot.
    MissingSnapshot,
}

/// The text of a simple or bulk string reply, as bytes.
pub open spec fn reply_text(f: Frame) -> Option<Seq<u8>> {
    match f {
        Frame::Simple(s) => Some(encode_utf8(s)),
        Frame::Bulk(b) => Some(b),
        _ => None,
    }
}

/// A simple or bulk string reply that reads `word` in any case.
pub open spec fn reply_is(f: Frame, word: Seq<u8>) -> bool {
    reply_text(f) is Some && upper(reply_text(f)->Some_0) == word
}

/// A simple string reply that starts with FULLRESYNC, in any case.
pub open spec fn is_fullresync(f: Frame) -> bool {
    f is Simple && {
        let t = upper(encode_utf8(f->Simple_0));
        let p = "FULLRESYNC".spec_bytes();
        t.len() >= p.len() && t.subrange(0, p.len() as int) == p
    }
}

/// The text of a simple or bulk string reply, in upper case.
fn upper_reply(m: &Message) -> (r: Option<Vec<u8>>)
    ensures
        match r {
            Some(t) => reply_text(m@) is Some && t@ == upper(reply_text(m@)->Some_0),
            None => reply_text(m@) is None,
        },
{
    match m {
        Message::SimpleString(s) => Some(upper_bytes(s.as_str().as_bytes())),
        Message::BulkString(b) => Some(upper_bytes(b.as_slice())),
        _ => None,
    }
}

impl ReplicationHandler {
    /// Checks the leader's reply to PING.
    pub fn check_ping_reply(message: &Message) -> (r: Result<(), ReplicationError>)
        ensures
            r is Ok <==> reply_is(message@, "PONG".spec_bytes()),
            r is Err ==> r == Err::<(), ReplicationError>(ReplicationError::WrongPingReply),
    {
        match upper_reply(message) {
            Some(t) => if bytes_equal(t.as_slice(), "PONG".as_bytes()) {
                Ok(())
            } else {
                Err(ReplicationError::WrongPingReply)
            },
            None => Err(ReplicationError::WrongPingReply),
        }
    }

    /// Checks the leader's reply to REPLCONF.
    pub fn check_replconf_reply(message: &Message) -> (r: Result<(), ReplicationError>)
        ensures
            r is Ok <==> reply_is(message@, "OK".spec_bytes()),
            r is Err ==> r == Err::<(), ReplicationError>(ReplicationError::WrongReplconfReply),
    {
        match upper_reply(message) {
            Some(t) => if bytes_equal(t.as_slice(), "OK".as_bytes()) {
                Ok(())
            } else {
                Err(ReplicationError::WrongReplconfReply)
            },
            None => Err(ReplicationError::WrongReplconfReply),
        }
    }

    /// Checks the leader's reply to PSYNC.
    pub fn check_psync_reply(message: &Message) -> (r: Result<(), ReplicationError>)
        ensures
            r is Ok <==> is_fullresync(message@),
            r is Err ==> r == Err::<(), ReplicationError>(ReplicationError::WrongPsyncReply),
    {
        match message {
            Message::SimpleString(s) => {
                let t = upper_bytes(s.as_str().as_bytes());
                let p = "FULLRESYNC".as_bytes();
                if t.len() >= p.len() && bytes_equal(slice_subrange(t.as_slice(), 0, p.len()), p) {
                    Ok(())
                } else {
                    Err(ReplicationError::WrongPsyncReply)
                }
            },
            _ => Err(ReplicationError::WrongPsyncReply),
        }
    }
}

/// Where a follower stands in its handshake with the leader.
#[derive(Debug, Clone, Copy, PartialEq, Eq, Structural)]
pub enum HandshakeState {
    AwaitingPong,
    AwaitingPortOk,
    AwaitingCapaOk,
    AwaitingFullResync,
    AwaitingSnapshot,
    Streaming,
}

/// A frame that can carry the snapshot: a short or unmarked one decodes as a bulk string.
pub open spec fn is_snapshot_like(f: Frame) -> bool {
    f is Snapshot || f is Bulk
}

/// The REPLCONF command with a name and value.
pub open spec fn replconf_frame(name: Seq<u8>, value: Seq<u8>) -> Frame {
    request_frame(Request::Replconf(Frame::Bulk(name), Frame::Bulk(value)))
}

/// The request that a follower sends first.
pub open spec fn ping_frame() -> Frame {
    request_frame(Request::Ping)
}

/// The PSYNC command that asks for a full resynchronization.
pub open spec fn full_psync_frame() -> Frame {
    request_frame(Request::Psync(Frame::Bulk("?".spec_bytes()), -1))
}

/// The handshake's next state, the request to send next, and the frames to
/// apply, after the frames that one read from the leader decoded into.
pub open spec fn handshake_next(state: HandshakeState, rs: Seq<Frame>, port: u16) -> Result<
    (HandshakeState, Option<Frame>, Seq<Frame>),
    ReplicationError,
> {
    match state {
        HandshakeState::AwaitingPong => if rs.len() != 1 {
            Err(ReplicationError::WrongReplyCount)
        } else if reply_is(rs[0], "PONG".spec_bytes()) {
            Ok(
                (
                    HandshakeState::AwaitingPortOk,
                    Some(replconf_frame("listening-port".spec_bytes(), decimal(port as nat))),
                    seq![],
                ),
            )
        } else {
            Err(ReplicationError::WrongPingReply)
        },
        HandshakeState::AwaitingPortOk => if rs.len() != 1 {
            Err(ReplicationError::WrongReplyCount)
        } else if reply_is(rs[0], "OK".spec_bytes()) {
            Ok(
                (
                    HandshakeState::AwaitingCapaOk,
                    Some(replconf_frame("capa".spec_bytes(), "psync2".spec_bytes())),
                    seq![],
                ),
            )
        } else {
            Err(ReplicationError::WrongReplconfReply)
        },
        HandshakeState::AwaitingCapaOk => if rs.len() != 1 {
            Err(ReplicationError::WrongReplyCount)
        } else if reply_is(rs[0], "OK".spec_bytes()) {
            Ok((HandshakeState::AwaitingFullResync, Some(full_psync_frame()), seq![]))
        } else {
            Err(ReplicationError::WrongReplconfReply)
        },
        HandshakeState::AwaitingFullResync => if rs.len() == 0 {
            Err(ReplicationError::WrongReplyCount)
        } else if !is_fullresync(rs[0]) {
            Err(ReplicationError::WrongPsyncReply)
        } else if rs.len() == 1 {
            Ok((HandshakeState::AwaitingSnapshot, None, seq![]))
        } else if is_snapshot_like(rs[1]) {
            Ok((HandshakeState::Streaming, None, rs.subrange(2, rs.len() as int)))
        } else {
            Err(ReplicationError::MissingSnapshot)
        },
        HandshakeState::AwaitingSnapshot => if rs.len() == 0 {
            Ok((HandshakeState::AwaitingSnapshot, None, seq![]))
        } else if is_snapshot_like(rs[0]) {
            Ok((HandshakeState::Streaming, None, rs.subrange(1, rs.len() as int)))
        } else {
            Err(ReplicationError::MissingSnapshot)
        },
        HandshakeState::Streaming => Ok((HandshakeState::Streaming, None, rs)),
    }
}

/// What the follower does after one read from the leader.
pub struct HandshakeStep {
    pub next: HandshakeState,
    pub send: Option<Message>,
    pub apply: Vec<Message>,
}

/// The first state of a handshake and the request that opens it.
pub fn start_handshake() -> (r: (HandshakeState, Message))
    ensures
        r.0 == HandshakeState::AwaitingPong,
        r.1@ == ping_frame(),
{
    (HandshakeState::AwaitingPong, Command::get_ping_command())
}

/// Advances the handshake by the frames that one read from the leader decoded into.
pub fn handshake_step(state: HandshakeState, replies: Vec<Message>, listener_port: u16) -> (r:
    Result<HandshakeStep, ReplicationError>)
    ensures
        match handshake_next(state, views(replies@), listener_port) {
            Ok((next, send, apply)) => r is Ok && r->Ok_0.next == next && opt_view(r->Ok_0.send)
                == send && views(r->Ok_0.apply@) == apply,
            Err(e) => r == Err::<HandshakeStep, ReplicationError>(e),
        },
{
    proof {
        lemma_views(replies@);
        lemma_views_of(Seq::<Message>::empty(), Seq::<Frame>::empty());
        assert(views(replies@).subrange(0, replies@.len() as int) =~= views(replies@));
    }
    let n = replies.len();
    match state {
        HandshakeState::AwaitingPong => {
            if n != 1 {
                return Err(ReplicationError::WrongReplyCount);
            }
            ReplicationHandler::check_ping_reply(&replies[0])?;
            let mut port: Vec<u8> = Vec::new();
            push_decimal(&mut port, listener_port as u64);
            assert(port@ =~= decimal(listener_port as nat));
            let send = Command::get_replconf_command("listening-port".as_bytes(), port.as_slice());
            Ok(HandshakeStep {
                next: HandshakeState::AwaitingPortOk,
                send: Some(send),
                apply: Vec::new(),
            })
        },
        HandshakeState::AwaitingPortOk => {
            if n != 1 {
                return Err(ReplicationError::WrongReplyCount);
            }
            ReplicationHandler::check_replconf_reply(&replies[0])?;
            let send = Command::get_replconf_command("capa".as_bytes(), "psync2".as_bytes());
            Ok(HandshakeStep {
                next: HandshakeState::AwaitingCapaOk,
                send: Some(send),
                apply: Vec::new(),
            })
        },
        HandshakeState::AwaitingCapaOk => {
            if n != 1 {
                return Err(ReplicationError::WrongReplyCount);
            }
            ReplicationHandler::check_replconf_reply(&replies[0])?;
            let send = Command::get_psync_command("?", -1);
            Ok(HandshakeStep {
                next: HandshakeState::AwaitingFullResync,
                send: Some(send),
                apply: Vec::new(),
            })
        },
        HandshakeState::AwaitingFullResync => {
            if n == 0 {
                return Err(ReplicationError::WrongReplyCount);
            }
            ReplicationHandler::check_psync_reply(&replies[0])?;
            if n == 1 {
                return Ok(HandshakeStep {
                    next: HandshakeState::AwaitingSnapshot,
                    send: None,
                    apply: Vec::new(),
                });
            }
            match &replies[1] {
                Message::RdbFile(_) | Message::BulkString(_) => Ok(HandshakeStep {
                    next: HandshakeState::Streaming,
                    send: None,
                    apply: copy_tail(&replies, 2),
                }),
                _ => Err(ReplicationError::MissingSnapshot),
            }
        },
        HandshakeState::AwaitingSnapshot => {
            if n == 0 {
                return Ok(HandshakeStep {
                    next: HandshakeState::AwaitingSnapshot,
                    send: None,
                    apply: Vec::new(),
                });
            }
            match &replies[0] {
                Message::RdbFile(_) | Message::BulkString(_) => Ok(HandshakeStep {
                    next: HandshakeState::Streaming,
                    send: None,
                    apply: copy_tail(&replies, 1),
                }),
                _ => Err(ReplicationError::MissingSnapshot),
            }
        },
        HandshakeState::Streaming => Ok(HandshakeStep {
            next: HandshakeState::Streaming,
            send: None,
            apply: copy_tail(&replies, 0),
        }),
    }
}

/// A GETACK on the follower is answered with the total length of every frame
/// received from the leader before it; its own length counts from then on.
pub proof fn lemma_ack_reports_received(
    received: Seq<Frame>,
    store: Map<Frame, Stored>,
    message: Frame,
    now: int,
    r: Result<Applied, HandleError>,
    received2: Seq<Frame>,
    store2: Map<Frame, Stored>,
    name: Frame,
)
    requires
        follower_step(received, store, message, now, r, received2, store2),
        parse_request(message) == Ok::<Request, crate::command_parser::CommandError>(
            Request::Replconf(name, Frame::Bulk("*".spec_bytes())),
        ),
        is_getack(name),
        total_len(received) + encode(message).len() <= i64::MAX,
    ensures
        r is Ok,
        opt_view(r->Ok_0.reply) == Some(ack_frame(total_len(received))),
        total_len(received2) == total_len(received) + encode(message).len(),
        store2 == store,
{
    assert(received2.drop_last() =~= received);
}

} // verus!
