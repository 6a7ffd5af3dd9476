use vstd::prelude::*;
use vstd::slice::slice_to_vec;
use vstd::string::StringSliceAdditionalSpecFns;
use vstd::utf8::encode_utf8;

verus! {

/// The mathematical model of one unit of the wire protocol.
pub enum Frame {
    Simple(Seq<char>),
    Bulk(Seq<u8>),
    NullBulk,
    Integer(int),
    Array(Seq<Frame>),
    Snapshot(Seq<u8>),
}

pub open spec fn crlf() -> Seq<u8> {
    seq![13u8, 10u8]
}

/// The decimal digits of `n`, most significant first, without leading zeros.
pub open spec fn decimal(n: nat) -> Seq<u8>
    decreases n,
{
    if n < 10 {
        seq![(48 + n) as u8]
    } else {
        decimal(n / 10).push((48 + n % 10) as u8)
    }
}

/// The decimal text of a signed integer: a minus sign for negative values.
pub open spec fn signed_decimal(n: int) -> Seq<u8> {
    if n < 0 {
        seq![45u8] + decimal((-n) as nat)
    } else {
        decimal(n as nat)
    }
}

/// The byte encoding of a frame.
pub open spec fn encode(f: Frame) -> Seq<u8>
    decreases f,
{
    match f {
        Frame::Simple(s) => seq![43u8] + encode_utf8(s) + crlf(),
        Frame::Bulk(b) => seq![36u8] + decimal(b.len()) + crlf() + b + crlf(),
        Frame::NullBulk => seq![36u8, 45u8, 49u8, 13u8, 10u8],
        Frame::Integer(n) => seq![58u8] + signed_decimal(n) + crlf(),
        Frame::Array(xs) => seq![42u8] + decimal(xs.len()) + crlf() + encode_all(xs),
        Frame::Snapshot(b) => seq![36u8] + decimal(b.len()) + crlf() + b,
    }
}

/// The concatenated encodings of a sequence of frames.
pub open spec fn encode_all(xs: Seq<Frame>) -> Seq<u8>
    decreases xs,
{
    if xs.len() == 0 {
        seq![]
    } else {
        encode(xs[0]) + encode_all(xs.subrange(1, xs.len() as int))
    }
}

/// A value of the wire protocol.
#[derive(Debug, Eq, Hash)]
pub enum Message {
    SimpleString(String),
    BulkString(Vec<u8>),
    NullBulkString,
    Integer(i64),
    Array(Vec<Message>),
    RdbFile(Vec<u8>),
}

pub open spec fn views(s: Seq<Message>) -> Seq<Frame>
    decreases s,
{
    if s.len() == 0 {
        seq![]
    } else {
        views(s.subrange(0, s.len() - 1)).push(s.last().view_frame())
    }
}

impl Message {
    pub open spec fn view_frame(&self) -> Frame
        decreases self,
    {
        match self {
            Message::SimpleString(s) => Frame::Simple(s@),
            Message::BulkString(b) => Frame::Bulk(b@),
            Message::NullBulkString => Frame::NullBulk,
            Message::Integer(n) => Frame::Integer(*n as int),
            Message::Array(v) => Frame::Array(views(v@)),
            Message::RdbFile(b) => Frame::Snapshot(b@),
        }
    }
}

impl View for Message {
    type V = Frame;

    open spec fn view(&self) -> Frame {
        self.view_frame()
    }
}


pub proof fn lemma_views(s: Seq<Message>)
    ensures
        views(s).len() == s.len(),
        forall|i: int| 0 <= i < s.len() ==> #[trigger] views(s)[i] == s[i]@,
    decreases s.len(),
{
    if s.len() > 0 {
        lemma_views(s.subrange(0, s.len() - 1));
    }
}

pub proof fn lemma_views_of(s: Seq<Message>, fs: Seq<Frame>)
    requires
        s.len() == fs.len(),
        forall|i: int| 0 <= i < s.len() ==> #[trigger] s[i]@ == fs[i],
    ensures
        views(s) == fs,
{
    lemma_views(s);
    assert(views(s) =~= fs);
}

pub proof fn lemma_views_push(s: Seq<Message>, m: Message)
    ensures
        views(s.push(m)) == views(s).push(m@),
{
    assert(s.push(m).subrange(0, s.len() as int) =~= s);
}

pub proof fn lemma_encode_all_push(xs: Seq<Frame>, x: Frame)
    ensures
        encode_all(xs.push(x)) == encode_all(xs) + encode(x),
    decreases xs.len(),
{
    if xs.len() == 0 {
        let e = xs.push(x).subrange(1, 1);
        assert(e =~= Seq::<Frame>::empty());
        assert(encode_all(e) =~= Seq::<u8>::empty());
        assert(encode_all(xs.push(x)) =~= encode(x));
    } else {
        let t = xs.subrange(1, xs.len() as int);
        lemma_encode_all_push(t, x);
        assert(xs.push(x).subrange(1, xs.len() as int + 1) =~= t.push(x));
        assert(encode_all(xs.push(x)) =~= encode_all(xs) + encode(x));
    }
}

/// Appends the two bytes of a line terminator.
fn add_cr_nl(data: &mut Vec<u8>)
    ensures
        final(data)@ == old(data)@ + crlf(),
{
    data.push(13u8);
    data.push(10u8);
    assert(final(data)@ =~= old(data)@ + crlf());
}

/// Appends the decimal digits of `n`.
pub(crate) fn push_decimal(data: &mut Vec<u8>, n: u64)
    ensures
        final(data)@ == old(data)@ + decimal(n as nat),
    decreases n,
{
    if n >= 10 {
        push_decimal(data, n / 10);
    }
    let d: u8 = (n % 10) as u8;
    data.push(48u8 + d);
    assert(final(data)@ =~= old(data)@ + decimal(n as nat));
}

/// Appends the decimal text of a signed integer.
pub(crate) fn push_signed_decimal(data: &mut Vec<u8>, n: i64)
    ensures
        final(data)@ == old(data)@ + signed_decimal(n as int),
{
    if n < 0 {
        data.push(45u8);
        let m: u64 = ((-(n + 1)) as u64) + 1;
        push_decimal(data, m);
    } else {
        push_decimal(data, n as u64);
    }
    assert(final(data)@ =~= old(data)@ + signed_decimal(n as int));
}

/// Appends a length followed by a line terminator.
fn add_len(len: usize, data: &mut Vec<u8>)
    ensures
        final(data)@ == old(data)@ + decimal(len as nat) + crlf(),
{
    push_decimal(data, len as u64);
    add_cr_nl(data);
}

/// Appends all bytes of `src`.
pub(crate) fn push_bytes(data: &mut Vec<u8>, src: &[u8])
    ensures
        final(data)@ == old(data)@ + src@,
{
    let mut i: usize = 0;
    while i < src.len()
        invariant
            0 <= i <= src@.len(),
            data@ == old(data)@ + src@.subrange(0, i as int),
        decreases src@.len() - i,
    {
        data.push(src[i]);
        i = i + 1;
        assert(data@ =~= old(data)@ + src@.subrange(0, i as int));
    }
    assert(src@.subrange(0, src@.len() as int) =~= src@);
}

impl Message {
    /// The byte encoding of this message on the wire.
    pub fn to_data(&self) -> (r: Vec<u8>)
        ensures
            r@ == encode(self@),
        decreases self,
    {
        match self {
            Message::SimpleString(the_str) => {
                let mut data = vec![43u8];
                push_bytes(&mut data, the_str.as_str().as_bytes());
                add_cr_nl(&mut data);
                data
            },
            Message::BulkString(bytes) => {
                let mut data = vec![36u8];
                add_len(bytes.len(), &mut data);
                push_bytes(&mut data, bytes.as_slice());
                add_cr_nl(&mut data);
                data
            },
            Message::NullBulkString => {
                let data = vec![36u8, 45u8, 49u8, 13u8, 10u8];
                assert(data@ =~= encode(self@));
                data
            },
            Message::Integer(the_int) => {
                let mut data = vec![58u8];
                push_signed_decimal(&mut data, *the_int);
                add_cr_nl(&mut data);
                assert(data@ =~= encode(self@));
                data
            },
            Message::Array(arr) => {
                let mut data = vec![42u8];
                add_len(arr.len(), &mut data);
                let ghost header = data@;
                proof {
                    lemma_views(arr@);
                }
                let mut i: usize = 0;
                while i < arr.len()
                    invariant
                        0 <= i <= arr@.len(),
                        self is Array && self->Array_0 == *arr,
                        views(arr@).len() == arr@.len(),
                        forall|j: int| 0 <= j < arr@.len() ==> #[trigger] views(arr@)[j] == arr@[j]@,
                        data@ == header + encode_all(views(arr@).subrange(0, i as int)),
                    decreases arr@.len() - i,
                {
                    proof {
                        assert(decreases_to!(arr => arr@));
                        assert(decreases_to!(arr@ => arr@[i as int]));
                        assert(decreases_to!(*self => arr@[i as int]));
                    }
                    let item = arr[i].to_data();
                    let ghost before = data@;
                    push_bytes(&mut data, item.as_slice());
                    proof {
                        let xs = views(arr@);
                        assert(xs.subrange(0, i + 1) =~= xs.subrange(0, i as int).push(xs[i as int]));
                        lemma_encode_all_push(xs.subrange(0, i as int), xs[i as int]);
                    }
                    i = i + 1;
                }
                assert(views(arr@).subrange(0, arr@.len() as int) =~= views(arr@));
                data
            },
            Message::RdbFile(content) => {
                let mut data = vec![36u8];
                add_len(content.len(), &mut data);
                push_bytes(&mut data, content.as_slice());
                data
            },
        }
    }
}


/// Whether two byte sequences are equal.
pub(crate) fn bytes_equal(a: &[u8], b: &[u8]) -> (r: bool)
    ensures
        r == (a@ == b@),
{
    if a.len() != b.len() {
        return false;
    }
    let mut i: usize = 0;
    while i < a.len()
        invariant
            a@.len() == b@.len(),
            0 <= i <= a@.len(),
            a@.subrange(0, i as int) == b@.subrange(0, i as int),
        decreases a@.len() - i,
    {
        if a[i] != b[i] {
            assert(a@[i as int] != b@[i as int]);
            return false;
        }
        assert(a@.subrange(0, i + 1) =~= a@.subrange(0, i as int).push(a@[i as int]));
        assert(b@.subrange(0, i + 1) =~= b@.subrange(0, i as int).push(b@[i as int]));
        i = i + 1;
    }
    assert(a@.subrange(0, a@.len() as int) =~= a@);
    assert(b@.subrange(0, b@.len() as int) =~= b@);
    true
}

/// Whether two messages stand for the same frame.
fn messages_equal(a: &Message, b: &Message) -> (r: bool)
    ensures
        r == (a@ == b@),
    decreases a,
{
    match (a, b) {
        (Message::SimpleString(x), Message::SimpleString(y)) => {
            x.eq(y)
        },
        (Message::BulkString(x), Message::BulkString(y)) => bytes_equal(x.as_slice(), y.as_slice()),
        (Message::NullBulkString, Message::NullBulkString) => true,
        (Message::Integer(x), Message::Integer(y)) => *x == *y,
        (Message::RdbFile(x), Message::RdbFile(y)) => bytes_equal(x.as_slice(), y.as_slice()),
        (Message::Array(x), Message::Array(y)) => {
            proof {
                lemma_views(x@);
                lemma_views(y@);
            }
            assert(a@ == Frame::Array(views(x@)));
            assert(b@ == Frame::Array(views(y@)));
            if x.len() != y.len() {
                return false;
            }
            let mut i: usize = 0;
            while i < x.len()
                invariant
                    a is Array && a->Array_0 == *x,
                    a@ == Frame::Array(views(x@)),
                    b@ == Frame::Array(views(y@)),
                    x@.len() == y@.len(),
                    0 <= i <= x@.len(),
                    views(x@).len() == x@.len(),
                    views(y@).len() == y@.len(),
                    forall|j: int| 0 <= j < x@.len() ==> #[trigger] views(x@)[j] == x@[j]@,
                    forall|j: int| 0 <= j < y@.len() ==> #[trigger] views(y@)[j] == y@[j]@,
                    forall|j: int| 0 <= j < i ==> #[trigger] x@[j]@ == y@[j]@,
                decreases x@.len() - i,
            {
                proof {
                    assert(decreases_to!(*a => x@[i as int]));
                }
                if !messages_equal(&x[i], &y[i]) {
                    assert(views(x@)[i as int] != views(y@)[i as int]);
                    return false;
                }
                i = i + 1;
            }
            assert(views(x@) =~= views(y@));
            true
        },
        _ => false,
    }
}

impl PartialEq for Message {
    fn eq(&self, other: &Message) -> (r: bool) {
        messages_equal(self, other)
    }
}

impl Clone for Message {
    fn clone(&self) -> (r: Message)
        ensures
            r@ == self@,
    {
        self.duplicate()
    }
}

impl vstd::std_specs::cmp::PartialEqSpecImpl for Message {
    open spec fn obeys_eq_spec() -> bool {
        true
    }

    open spec fn eq_spec(&self, other: &Message) -> bool {
        self@ == other@
    }
}

impl Message {
    /// A copy of this message that stands for the same frame.
    pub fn duplicate(&self) -> (r: Message)
        ensures
            r@ == self@,
        decreases self,
    {
        match self {
            Message::SimpleString(s) => Message::SimpleString(s.clone()),
            Message::BulkString(b) => Message::BulkString(slice_to_vec(b.as_slice())),
            Message::NullBulkString => Message::NullBulkString,
            Message::Integer(n) => Message::Integer(*n),
            Message::RdbFile(b) => Message::RdbFile(slice_to_vec(b.as_slice())),
            Message::Array(v) => {
                proof {
                    lemma_views(v@);
                }
                let mut out: Vec<Message> = Vec::new();
                let mut i: usize = 0;
                while i < v.len()
                    invariant
                        self is Array && self->Array_0 == *v,
                        0 <= i <= v@.len(),
                        views(v@).len() == v@.len(),
                        forall|j: int| 0 <= j < v@.len() ==> #[trigger] views(v@)[j] == v@[j]@,
                        views(out@) == views(v@).subrange(0, i as int),
                    decreases v@.len() - i,
                {
                    proof {
                        assert(decreases_to!(*self => v@[i as int]));
                    }
                    let m = v[i].duplicate();
                    proof {
                        lemma_views_push(out@, m);
                        assert(views(v@).subrange(0, i + 1) =~= views(v@).subrange(0, i as int).push(
                            m@,
                        ));
                    }
                    out.push(m);
                    i = i + 1;
                }
                assert(views(v@).subrange(0, v@.len() as int) =~= views(v@));
                Message::Array(out)
            },
        }
    }
}


pub open spec fn is_hex_digit(c: u8) -> bool {
    (48 <= c <= 57) || (97 <= c <= 102) || (65 <= c <= 70)
}

/// The value of one hexadecimal digit, in either case.
pub open spec fn hex_value(c: u8) -> nat {
    if 48 <= c <= 57 {
        (c - 48) as nat
    } else if 97 <= c <= 102 {
        (c - 87) as nat
    } else {
        (c - 55) as nat
    }
}

/// Text of an even number of hexadecimal digits.
pub open spec fn is_hex_text(s: Seq<u8>) -> bool {
    s.len() % 2 == 0 && forall|i: int| 0 <= i < s.len() ==> is_hex_digit(#[trigger] s[i])
}

/// The bytes that hexadecimal text spells, two digits to a byte, high digit first.
pub open spec fn hex_decode(s: Seq<u8>) -> Seq<u8> {
    Seq::new((s.len() / 2) as nat, |i: int| (hex_value(s[2 * i]) * 16 + hex_value(s[2 * i + 1])) as u8)
}

fn hex_digit(c: u8) -> (r: u8)
    requires
        is_hex_digit(c),
    ensures
        r as nat == hex_value(c),
        r < 16,
{
    if c >= 48u8 && c <= 57u8 {
        c - 48u8
    } else if c >= 97u8 && c <= 102u8 {
        c - 87u8
    } else {
        c - 55u8
    }
}

impl Message {
    /// A snapshot whose bytes are spelled by hexadecimal text.
    pub fn rdb_file_from_hex(hex_string: &str) -> (r: Message)
        requires
            is_hex_text(hex_string.spec_bytes()),
        ensures
            r@ == Frame::Snapshot(hex_decode(hex_string.spec_bytes())),
    {
        let text = hex_string.as_bytes();
        let ghost s = text@;
        let len: usize = text.len();
        let n: usize = len / 2;
        let mut bytes: Vec<u8> = Vec::new();
        let mut i: usize = 0;
        while i < n
            invariant
                s == text@,
                is_hex_text(s),
                n == s.len() / 2,
                len == s.len(),
                0 <= i <= n,
                bytes@ =~= hex_decode(s).subrange(0, i as int),
            decreases n - i,
        {
            assert(2 * i + 1 < len) by (nonlinear_arith)
                requires
                    i < n,
                    n == len / 2,
            ;
            let hi = hex_digit(text[2 * i]);
            let lo = hex_digit(text[2 * i + 1]);
            bytes.push(hi * 16 + lo);
            i = i + 1;
        }
        assert(hex_decode(s).subrange(0, n as int) =~= hex_decode(s));
        Message::RdbFile(bytes)
    }
}

} // verus!
