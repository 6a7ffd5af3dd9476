use vstd::prelude::*;
use vstd::slice::slice_to_vec;
use vstd::string::StringSliceAdditionalSpecFns;

use crate::message::{
    bytes_equal, lemma_views, lemma_views_of, push_signed_decimal, signed_decimal, views, Frame,
    Message,
};
use crate::parser::{integer_field, read_integer};

verus! {

/// The words of the protocol's commands and options.
#[derive(Clone, Copy, Debug, PartialEq, Eq, Structural)]
pub enum Keyword {
    Ping,
    Echo,
    Get,
    SetWord,
    Info,
    Replconf,
    Psync,
    Wait,
    Px,
}

/// The upper-case ASCII spelling of a keyword.
pub open spec fn keyword_text(k: Keyword) -> Seq<u8> {
    match k {
        Keyword::Ping => seq![80u8, 73u8, 78u8, 71u8],
        Keyword::Echo => seq![69u8, 67u8, 72u8, 79u8],
        Keyword::Get => seq![71u8, 69u8, 84u8],
        Keyword::SetWord => seq![83u8, 69u8, 84u8],
        Keyword::Info => seq![73u8, 78u8, 70u8, 79u8],
        Keyword::Replconf => seq![82u8, 69u8, 80u8, 76u8, 67u8, 79u8, 78u8, 70u8],
        Keyword::Psync => seq![80u8, 83u8, 89u8, 78u8, 67u8],
        Keyword::Wait => seq![87u8, 65u8, 73u8, 84u8],
        Keyword::Px => seq![80u8, 88u8],
    }
}

/// The upper-case ASCII spelling of a keyword.
pub fn keyword_bytes(k: Keyword) -> (r: Vec<u8>)
    ensures
        r@ == keyword_text(k),
{
    let r = match k {
        Keyword::Ping => vec![80u8, 73u8, 78u8, 71u8],
        Keyword::Echo => vec![69u8, 67u8, 72u8, 79u8],
        Keyword::Get => vec![71u8, 69u8, 84u8],
        Keyword::SetWord => vec![83u8, 69u8, 84u8],
        Keyword::Info => vec![73u8, 78u8, 70u8, 79u8],
        Keyword::Replconf => vec![82u8, 69u8, 80u8, 76u8, 67u8, 79u8, 78u8, 70u8],
        Keyword::Psync => vec![80u8, 83u8, 89u8, 78u8, 67u8],
        Keyword::Wait => vec![87u8, 65u8, 73u8, 84u8],
        Keyword::Px => vec![80u8, 88u8],
    };
    assert(r@ =~= keyword_text(k));
    r
}

/// ASCII letters in upper case; every other byte unchanged.
pub open spec fn upper(w: Seq<u8>) -> Seq<u8> {
    Seq::new(w.len(), |i: int| if 97 <= w[i] <= 122 { (w[i] - 32) as u8 } else { w[i] })
}

/// ASCII letters in upper case; every other byte unchanged.
pub fn upper_bytes(w: &[u8]) -> (r: Vec<u8>)
    ensures
        r@ == upper(w@),
{
    let mut out: Vec<u8> = Vec::new();
    let mut i: usize = 0;
    while i < w.len()
        invariant
            0 <= i <= w@.len(),
            out@ == upper(w@).subrange(0, i as int),
        decreases w@.len() - i,
    {
        let c = w[i];
        if c >= 97u8 && c <= 122u8 {
            out.push(c - 32u8);
        } else {
            out.push(c);
        }
        i = i + 1;
        assert(out@ =~= upper(w@).subrange(0, i as int));
    }
    assert(upper(w@).subrange(0, w@.len() as int) =~= upper(w@));
    out
}

/// Why a decoded frame is not a command.
#[derive(Debug, Clone, Copy, PartialEq, Eq, Structural)]
pub enum CommandError {
    /// Not a non-empty array whose first item is a bulk string.
    NotACommand,
    /// A command word that is not known.
    UnknownCommand,
    /// A known command with the wrong number of arguments.
    WrongArity,
    /// An option or a number argument that is not understood.
    InvalidArgument,
}

/// The mathematical model of a command.
pub enum Request {
    Ping,
    Echo(Frame),
    SetValue(Frame, Frame, Option<int>),
    Get(Frame),
    Info(Seq<Frame>),
    Replconf(Frame, Frame),
    Psync(Frame, int),
    Wait(int, int),
}

/// The integer that a bulk string argument spells.
pub open spec fn bulk_integer(f: Frame) -> Option<int> {
    match f {
        Frame::Bulk(b) => integer_field(b),
        _ => None,
    }
}

/// Whether a frame is a bulk string that spells a keyword, in any case.
pub open spec fn is_keyword(f: Frame, k: Keyword) -> bool {
    f is Bulk && upper(f->Bulk_0) == keyword_text(k)
}

/// The expiry option of the items of a SET command.
pub open spec fn expire_option(xs: Seq<Frame>) -> Result<Option<int>, CommandError> {
    if xs.len() == 3 {
        Ok(None)
    } else if xs.len() == 5 {
        if is_keyword(xs[3], Keyword::Px) && bulk_integer(xs[4]) is Some {
            Ok(Some(bulk_integer(xs[4])->Some_0))
        } else {
            Err(CommandError::InvalidArgument)
        }
    } else {
        Err(CommandError::WrongArity)
    }
}

/// The command that the items of an array name, given its upper-cased command word.
pub open spec fn request_of(w: Seq<u8>, xs: Seq<Frame>) -> Result<Request, CommandError> {
    if w == keyword_text(Keyword::Ping) {
        if xs.len() == 1 {
            Ok(Request::Ping)
        } else {
            Err(CommandError::WrongArity)
        }
    } else if w == keyword_text(Keyword::Echo) {
        if xs.len() == 2 {
            Ok(Request::Echo(xs[1]))
        } else {
            Err(CommandError::WrongArity)
        }
    } else if w == keyword_text(Keyword::Get) {
        if xs.len() == 2 {
            Ok(Request::Get(xs[1]))
        } else {
            Err(CommandError::WrongArity)
        }
    } else if w == keyword_text(Keyword::SetWord) {
        match expire_option(xs) {
            Ok(e) => Ok(Request::SetValue(xs[1], xs[2], e)),
            Err(err) => Err(err),
        }
    } else if w == keyword_text(Keyword::Info) {
        Ok(Request::Info(xs.subrange(1, xs.len() as int)))
    } else if w == keyword_text(Keyword::Replconf) {
        if xs.len() == 3 {
            Ok(Request::Replconf(xs[1], xs[2]))
        } else {
            Err(CommandError::WrongArity)
        }
    } else if w == keyword_text(Keyword::Psync) {
        if xs.len() != 3 {
            Err(CommandError::WrongArity)
        } else if bulk_integer(xs[2]) is Some {
            Ok(Request::Psync(xs[1], bulk_integer(xs[2])->Some_0))
        } else {
            Err(CommandError::InvalidArgument)
        }
    } else if w == keyword_text(Keyword::Wait) {
        if xs.len() != 3 {
            Err(CommandError::WrongArity)
        } else if bulk_integer(xs[1]) is Some && bulk_integer(xs[2]) is Some {
            Ok(Request::Wait(bulk_integer(xs[1])->Some_0, bulk_integer(xs[2])->Some_0))
        } else {
            Err(CommandError::InvalidArgument)
        }
    } else {
        Err(CommandError::UnknownCommand)
    }
}

/// The command that a decoded frame stands for.
pub open spec fn parse_request(f: Frame) -> Result<Request, CommandError> {
    match f {
        Frame::Array(xs) => if xs.len() > 0 && xs[0] is Bulk {
            request_of(upper(xs[0]->Bulk_0), xs)
        } else {
            Err(CommandError::NotACommand)
        },
        _ => Err(CommandError::NotACommand),
    }
}

/// A command of the protocol.
#[derive(Clone, Debug, PartialEq)]
pub enum Command {
    Ping,
    Echo(Message),
    SetValue { key: Message, value: Message, expire_time: Option<i64> },
    Get { key: Message },
    Info { sections: Vec<Message> },
    Replconf { name: Message, value: Message },
    Psync { replid: Message, offset: i64 },
    Wait { numreplicas: i64, timeout: i64 },
}

pub open spec fn opt_int(o: Option<i64>) -> Option<int> {
    match o {
        Some(t) => Some(t as int),
        None => None,
    }
}

impl View for Command {
    type V = Request;

    open spec fn view(&self) -> Request {
        match self {
            Command::Ping => Request::Ping,
            Command::Echo(m) => Request::Echo(m@),
            Command::SetValue { key, value, expire_time } => Request::SetValue(
                key@,
                value@,
                opt_int(*expire_time),
            ),
            Command::Get { key } => Request::Get(key@),
            Command::Info { sections } => Request::Info(views(sections@)),
            Command::Replconf { name, value } => Request::Replconf(name@, value@),
            Command::Psync { replid, offset } => Request::Psync(replid@, *offset as int),
            Command::Wait { numreplicas, timeout } => Request::Wait(
                *numreplicas as int,
                *timeout as int,
            ),
        }
    }
}

/// The integer that a bulk string argument spells.
fn bulk_integer_of(m: &Message) -> (r: Option<i64>)
    ensures
        match r {
            Some(n) => bulk_integer(m@) == Some(n as int),
            None => bulk_integer(m@) is None,
        },
{
    match m {
        Message::BulkString(b) => {
            proof {
                assert(b@.subrange(0, b@.len() as int) =~= b@);
            }
            read_integer(b.as_slice(), 0, b.len())
        },
        _ => None,
    }
}

/// Whether a message is a bulk string that spells a keyword, in any case.
fn is_keyword_of(m: &Message, k: Keyword) -> (r: bool)
    ensures
        r == is_keyword(m@, k),
{
    match m {
        Message::BulkString(b) => {
            let u = upper_bytes(b.as_slice());
            let w = keyword_bytes(k);
            bytes_equal(u.as_slice(), w.as_slice())
        },
        _ => false,
    }
}

/// The expiry option of the items of a SET command, in milliseconds.
pub fn get_expire_time(messages: &Vec<Message>) -> (r: Result<Option<i64>, CommandError>)
    ensures
        match r {
            Ok(e) => expire_option(views(messages@)) == Ok::<Option<int>, CommandError>(opt_int(e)),
            Err(err) => expire_option(views(messages@)) == Err::<Option<int>, CommandError>(err),
        },
{
    proof {
        lemma_views(messages@);
    }
    if messages.len() == 3 {
        Ok(None)
    } else if messages.len() == 5 {
        if is_keyword_of(&messages[3], Keyword::Px) {
            match bulk_integer_of(&messages[4]) {
                Some(t) => Ok(Some(t)),
                None => Err(CommandError::InvalidArgument),
            }
        } else {
            Err(CommandError::InvalidArgument)
        }
    } else {
        Err(CommandError::WrongArity)
    }
}

/// Copies of the items of `v` from index `from` on.
pub(crate) fn copy_tail(v: &Vec<Message>, from: usize) -> (r: Vec<Message>)
    requires
        from <= v@.len(),
    ensures
        views(r@) == views(v@).subrange(from as int, v@.len() as int),
{
    proof {
        lemma_views(v@);
    }
    let mut out: Vec<Message> = Vec::new();
    let mut i: usize = from;
    while i < v.len()
        invariant
            from <= i <= v@.len(),
            views(v@).len() == v@.len(),
            forall|j: int| 0 <= j < v@.len() ==> #[trigger] views(v@)[j] == v@[j]@,
            views(out@) == views(v@).subrange(from as int, i as int),
        decreases v@.len() - i,
    {
        let m = v[i].duplicate();
        proof {
            crate::message::lemma_views_push(out@, m);
            assert(views(v@).subrange(from as int, i + 1) =~= views(v@).subrange(
                from as int,
                i as int,
            ).push(m@));
        }
        out.push(m);
        i = i + 1;
    }
    out
}

/// The command that the items of a non-empty array name.
fn handle_array(vec: Vec<Message>) -> (r: Result<Command, CommandError>)
    requires
        vec@.len() > 0,
    ensures
        match r {
            Ok(c) => parse_request(Frame::Array(views(vec@))) == Ok::<Request, CommandError>(c@),
            Err(e) => parse_request(Frame::Array(views(vec@))) == Err::<Request, CommandError>(e),
        },
{
    proof {
        lemma_views(vec@);
    }
    let ghost xs = views(vec@);
    let word = match &vec[0] {
        Message::BulkString(b) => upper_bytes(b.as_slice()),
        _ => {
            return Err(CommandError::NotACommand);
        },
    };
    let n = vec.len();
    let k = keyword_bytes(Keyword::Ping);
    if bytes_equal(word.as_slice(), k.as_slice()) {
        return if n == 1 {
            Ok(Command::Ping)
        } else {
            Err(CommandError::WrongArity)
        };
    }
    let k = keyword_bytes(Keyword::Echo);
    if bytes_equal(word.as_slice(), k.as_slice()) {
        return if n == 2 {
            Ok(Command::Echo(vec[1].duplicate()))
        } else {
            Err(CommandError::WrongArity)
        };
    }
    let k = keyword_bytes(Keyword::Get);
    if bytes_equal(word.as_slice(), k.as_slice()) {
        return if n == 2 {
            Ok(Command::Get { key: vec[1].duplicate() })
        } else {
            Err(CommandError::WrongArity)
        };
    }
    let k = keyword_bytes(Keyword::SetWord);
    if bytes_equal(word.as_slice(), k.as_slice()) {
        return match get_expire_time(&vec) {
            Ok(expire_time) => Ok(Command::SetValue {
                key: vec[1].duplicate(),
                value: vec[2].duplicate(),
                expire_time,
            }),
            Err(err) => Err(err),
        };
    }
    let k = keyword_bytes(Keyword::Info);
    if bytes_equal(word.as_slice(), k.as_slice()) {
        return Ok(Command::Info { sections: copy_tail(&vec, 1) });
    }
    let k = keyword_bytes(Keyword::Replconf);
    if bytes_equal(word.as_slice(), k.as_slice()) {
        return if n == 3 {
            Ok(Command::Replconf { name: vec[1].duplicate(), value: vec[2].duplicate() })
        } else {
            Err(CommandError::WrongArity)
        };
    }
    let k = keyword_bytes(Keyword::Psync);
    if bytes_equal(word.as_slice(), k.as_slice()) {
        if n != 3 {
            return Err(CommandError::WrongArity);
        }
        return match bulk_integer_of(&vec[2]) {
            Some(offset) => Ok(Command::Psync { replid: vec[1].duplicate(), offset }),
            None => Err(CommandError::InvalidArgument),
        };
    }
    let k = keyword_bytes(Keyword::Wait);
    if bytes_equal(word.as_slice(), k.as_slice()) {
        if n != 3 {
            return Err(CommandError::WrongArity);
        }
        return match (bulk_integer_of(&vec[1]), bulk_integer_of(&vec[2])) {
            (Some(numreplicas), Some(timeout)) => Ok(Command::Wait { numreplicas, timeout }),
            _ => Err(CommandError::InvalidArgument),
        };
    }
    Err(CommandError::UnknownCommand)
}

/// The command that a decoded message stands for.
pub fn parse_command(message: Message) -> (r: Result<Command, CommandError>)
    ensures
        match r {
            Ok(c) => parse_request(message@) == Ok::<Request, CommandError>(c@),
            Err(e) => parse_request(message@) == Err::<Request, CommandError>(e),
        },
{
    match message {
        Message::Array(vec) => if vec.len() > 0 {
            handle_array(vec)
        } else {
            Err(CommandError::NotACommand)
        },
        _ => Err(CommandError::NotACommand),
    }
}


/// The frame of a bulk string that spells a keyword.
pub open spec fn keyword_frame(k: Keyword) -> Frame {
    Frame::Bulk(keyword_text(k))
}

/// The frame of a bulk string that spells an integer in decimal.
pub open spec fn integer_frame(n: int) -> Frame {
    Frame::Bulk(signed_decimal(n))
}

/// The array frame that sends a command, with its words in upper case.
pub open spec fn request_frame(c: Request) -> Frame {
    match c {
        Request::Ping => Frame::Array(seq![keyword_frame(Keyword::Ping)]),
        Request::Echo(x) => Frame::Array(seq![keyword_frame(Keyword::Echo), x]),
        Request::Get(k) => Frame::Array(seq![keyword_frame(Keyword::Get), k]),
        Request::SetValue(k, v, None) => Frame::Array(seq![keyword_frame(Keyword::SetWord), k, v]),
        Request::SetValue(k, v, Some(t)) => Frame::Array(
            seq![
                keyword_frame(Keyword::SetWord),
                k,
                v,
                keyword_frame(Keyword::Px),
                integer_frame(t),
            ],
        ),
        Request::Info(s) => Frame::Array(seq![keyword_frame(Keyword::Info)] + s),
        Request::Replconf(n, v) => Frame::Array(seq![keyword_frame(Keyword::Replconf), n, v]),
        Request::Psync(id, off) => Frame::Array(
            seq![keyword_frame(Keyword::Psync), id, integer_frame(off)],
        ),
        Request::Wait(a, b) => Frame::Array(
            seq![keyword_frame(Keyword::Wait), integer_frame(a), integer_frame(b)],
        ),
    }
}

/// A bulk string that spells a keyword.
fn keyword_message(k: Keyword) -> (r: Message)
    ensures
        r@ == keyword_frame(k),
{
    Message::BulkString(keyword_bytes(k))
}

/// A bulk string that spells an integer in decimal.
pub fn integer_message(n: i64) -> (r: Message)
    ensures
        r@ == integer_frame(n as int),
{
    let mut data: Vec<u8> = Vec::new();
    push_signed_decimal(&mut data, n);
    assert(data@ =~= signed_decimal(n as int));
    Message::BulkString(data)
}

impl Command {
    /// The array message that sends this command.
    pub fn to_message(&self) -> (r: Message)
        ensures
            r@ == request_frame(self@),
    {
        match self {
            Command::Ping => {
                let items = vec![keyword_message(Keyword::Ping)];
                proof {
                    lemma_views_of(items@, seq![keyword_frame(Keyword::Ping)]);
                }
                Message::Array(items)
            },
            Command::Echo(m) => {
                let items = vec![keyword_message(Keyword::Echo), m.duplicate()];
                proof {
                    lemma_views_of(items@, seq![keyword_frame(Keyword::Echo), m@]);
                }
                Message::Array(items)
            },
            Command::Get { key } => {
                let items = vec![keyword_message(Keyword::Get), key.duplicate()];
                proof {
                    lemma_views_of(items@, seq![keyword_frame(Keyword::Get), key@]);
                }
                Message::Array(items)
            },
            Command::SetValue { key, value, expire_time: None } => {
                let items = vec![
                    keyword_message(Keyword::SetWord),
                    key.duplicate(),
                    value.duplicate(),
                ];
                proof {
                    lemma_views_of(items@, seq![keyword_frame(Keyword::SetWord), key@, value@]);
                }
                Message::Array(items)
            },
            Command::SetValue { key, value, expire_time: Some(t) } => {
                let items = vec![
                    keyword_message(Keyword::SetWord),
                    key.duplicate(),
                    value.duplicate(),
                    keyword_message(Keyword::Px),
                    integer_message(*t),
                ];
                proof {
                    lemma_views_of(
                        items@,
                        seq![
                            keyword_frame(Keyword::SetWord),
                            key@,
                            value@,
                            keyword_frame(Keyword::Px),
                            integer_frame(*t as int),
                        ],
                    );
                }
                Message::Array(items)
            },
            Command::Info { sections } => {
                let mut items = vec![keyword_message(Keyword::Info)];
                let mut tail = copy_tail(sections, 0);
                proof {
                    lemma_views(items@);
                    lemma_views(tail@);
                    lemma_views(sections@);
                    assert(views(sections@).subrange(0, sections@.len() as int) =~= views(
                        sections@,
                    ));
                }
                let ghost front = items@;
                let ghost back = tail@;
                items.append(&mut tail);
                proof {
                    lemma_views(items@);
                    assert(items@ == front + back);
                    assert(views(items@) =~= seq![keyword_frame(Keyword::Info)] + views(
                        sections@,
                    ));
                }
                Message::Array(items)
            },
            Command::Replconf { name, value } => {
                let items = vec![
                    keyword_message(Keyword::Replconf),
                    name.duplicate(),
                    value.duplicate(),
                ];
                proof {
                    lemma_views_of(items@, seq![keyword_frame(Keyword::Replconf), name@, value@]);
                }
                Message::Array(items)
            },
            Command::Psync { replid, offset } => {
                let items = vec![
                    keyword_message(Keyword::Psync),
                    replid.duplicate(),
                    integer_message(*offset),
                ];
                proof {
                    lemma_views_of(
                        items@,
                        seq![keyword_frame(Keyword::Psync), replid@, integer_frame(*offset as int)],
                    );
                }
                Message::Array(items)
            },
            Command::Wait { numreplicas, timeout } => {
                let items = vec![
                    keyword_message(Keyword::Wait),
                    integer_message(*numreplicas),
                    integer_message(*timeout),
                ];
                proof {
                    lemma_views_of(
                        items@,
                        seq![
                            keyword_frame(Keyword::Wait),
                            integer_frame(*numreplicas as int),
                            integer_frame(*timeout as int),
                        ],
                    );
                }
                Message::Array(items)
            },
        }
    }

    /// The PING command as a message.
    pub fn get_ping_command() -> (r: Message)
        ensures
            r@ == request_frame(Request::Ping),
    {
        Command::Ping.to_message()
    }

    /// A REPLCONF command with the given name and value.
    pub fn get_replconf_command(name: &[u8], value: &[u8]) -> (r: Message)
        ensures
            r@ == request_frame(Request::Replconf(Frame::Bulk(name@), Frame::Bulk(value@))),
    {
        let items = vec![
            keyword_message(Keyword::Replconf),
            Message::BulkString(slice_to_vec(name)),
            Message::BulkString(slice_to_vec(value)),
        ];
        proof {
            lemma_views_of(
                items@,
                seq![keyword_frame(Keyword::Replconf), Frame::Bulk(name@), Frame::Bulk(value@)],
            );
        }
        Message::Array(items)
    }

    /// A PSYNC command with the given replication id and offset.
    pub fn get_psync_command(master_replid: &str, master_offset: i64) -> (r: Message)
        ensures
            r@ == request_frame(
                Request::Psync(Frame::Bulk(master_replid.spec_bytes()), master_offset as int),
            ),
    {
        let items = vec![
            keyword_message(Keyword::Psync),
            Message::BulkString(slice_to_vec(master_replid.as_bytes())),
            integer_message(master_offset),
        ];
        proof {
            lemma_views_of(
                items@,
                seq![
                    keyword_frame(Keyword::Psync),
                    Frame::Bulk(master_replid.spec_bytes()),
                    integer_frame(master_offset as int),
                ],
            );
        }
        Message::Array(items)
    }
}

} // verus!
