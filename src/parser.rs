use bytes::BytesMut;
use vstd::prelude::*;
use vstd::slice::{slice_subrange, slice_to_vec};
use vstd::utf8::{decode_utf8, valid_utf8};

use crate::message::{lemma_views_push, views, Frame, Message};

verus! {

/// Why a byte buffer could not be decoded into frames.
#[derive(Debug, Clone, Copy, PartialEq, Eq, Structural)]
pub enum ParseError {
    /// A simple string whose payload holds a line break or is not valid UTF-8.
    InvalidStringContent,
    /// A simple string without a line terminator.
    InvalidString,
    /// A length or integer field that is missing, empty or not a number.
    InvalidSizeContent,
    /// A frame that starts with an unknown type byte.
    UnknownMessage(u8),
    /// The buffer ends before the frame does.
    NoData,
    /// A bulk string payload that is not followed by a line terminator.
    MissingTerminator,
}

pub open spec fn crlf_at(b: Seq<u8>, i: int) -> bool {
    0 <= i && i + 1 < b.len() && b[i] == 13 && b[i + 1] == 10
}

/// The position of the first line terminator at or after `from`.
pub open spec fn line_end(b: Seq<u8>, from: int) -> Option<int>
    decreases b.len() - from,
{
    if from < 0 || from + 1 >= b.len() {
        None
    } else if crlf_at(b, from) {
        Some(from)
    } else {
        line_end(b, from + 1)
    }
}

pub open spec fn is_digit(c: u8) -> bool {
    48 <= c <= 57
}

pub open spec fn all_digits(s: Seq<u8>) -> bool {
    forall|i: int| 0 <= i < s.len() ==> is_digit(#[trigger] s[i])
}

/// The number written by a sequence of decimal digits.
pub open spec fn digits_value(s: Seq<u8>) -> nat
    decreases s.len(),
{
    if s.len() == 0 {
        0
    } else {
        digits_value(s.drop_last()) * 10 + (s.last() - 48) as nat
    }
}

/// A length or count field: one or more digits whose value fits a `usize`.
pub open spec fn length_field(f: Seq<u8>) -> Option<nat> {
    if f.len() > 0 && all_digits(f) && digits_value(f) <= usize::MAX {
        Some(digits_value(f))
    } else {
        None
    }
}

/// An integer field: an optional sign, then one or more digits, in the range of `i64`.
pub open spec fn integer_field(f: Seq<u8>) -> Option<int> {
    if f.len() > 0 && (f[0] == 45 || f[0] == 43) {
        let d = f.drop_first();
        if d.len() > 0 && all_digits(d) {
            if f[0] == 45 && digits_value(d) <= 0x8000_0000_0000_0000 {
                Some(-(digits_value(d) as int))
            } else if f[0] == 43 && digits_value(d) <= i64::MAX {
                Some(digits_value(d) as int)
            } else {
                None
            }
        } else {
            None
        }
    } else if f.len() > 0 && all_digits(f) && digits_value(f) <= i64::MAX {
        Some(digits_value(f) as int)
    } else {
        None
    }
}

pub open spec fn snapshot_magic() -> Seq<u8> {
    seq![82u8, 69u8, 68u8, 73u8, 83u8]
}

/// Bytes with no carriage return and no line feed.
pub open spec fn line_free(p: Seq<u8>) -> bool {
    forall|i: int| 0 <= i < p.len() ==> #[trigger] p[i] != 13 && p[i] != 10
}

/// A simple string whose payload starts at `s`.
pub open spec fn parse_simple(b: Seq<u8>, s: int) -> Result<(Frame, int), ParseError> {
    match line_end(b, s) {
        None => Err(ParseError::InvalidString),
        Some(e) => {
            let payload = b.subrange(s, e);
            if !line_free(payload) {
                Err(ParseError::InvalidStringContent)
            } else if valid_utf8(payload) {
                Ok((Frame::Simple(decode_utf8(payload)), e + 2))
            } else {
                Err(ParseError::InvalidStringContent)
            }
        },
    }
}

/// An integer whose field starts at `s`.
pub open spec fn parse_int(b: Seq<u8>, s: int) -> Result<(Frame, int), ParseError> {
    match line_end(b, s) {
        None => Err(ParseError::InvalidSizeContent),
        Some(e) => match integer_field(b.subrange(s, e)) {
            Some(n) => Ok((Frame::Integer(n), e + 2)),
            None => Err(ParseError::InvalidSizeContent),
        },
    }
}

/// A bulk string, null bulk string or snapshot whose length field starts at `s`.
pub open spec fn parse_bulk(b: Seq<u8>, s: int) -> Result<(Frame, int), ParseError> {
    match line_end(b, s) {
        None => Err(ParseError::InvalidSizeContent),
        Some(e) => {
            let field = b.subrange(s, e);
            if field == seq![45u8, 49u8] {
                Ok((Frame::NullBulk, e + 2))
            } else {
                match length_field(field) {
                    None => Err(ParseError::InvalidSizeContent),
                    Some(n) => {
                        let start = e + 2;
                        if start + n > b.len() {
                            Err(ParseError::NoData)
                        } else {
                            let payload = b.subrange(start, start + n);
                            if n > 5 && payload.subrange(0, 5) == snapshot_magic() && !crlf_at(
                                b,
                                start + n,
                            ) {
                                Ok((Frame::Snapshot(payload), start + n))
                            } else if crlf_at(b, start + n) {
                                Ok((Frame::Bulk(payload), start + n + 2))
                            } else {
                                Err(ParseError::MissingTerminator)
                            }
                        }
                    },
                }
            }
        },
    }
}

/// The frame that starts at position `p`, and the position just after it.
pub open spec fn parse_frame(b: Seq<u8>, p: int) -> Result<(Frame, int), ParseError>
    decreases b.len() - p, 0int,
{
    if p < 0 || p >= b.len() {
        Err(ParseError::NoData)
    } else if b[p] == 43 {
        parse_simple(b, p + 1)
    } else if b[p] == 58 {
        parse_int(b, p + 1)
    } else if b[p] == 36 {
        parse_bulk(b, p + 1)
    } else if b[p] == 42 {
        parse_array_at(b, p + 1)
    } else {
        Err(ParseError::UnknownMessage(b[p]))
    }
}

/// An array whose count field starts at `s`.
pub open spec fn parse_array_at(b: Seq<u8>, s: int) -> Result<(Frame, int), ParseError>
    decreases b.len() - s, 2int,
{
    match line_end(b, s) {
        None => Err(ParseError::InvalidSizeContent),
        Some(e) => match length_field(b.subrange(s, e)) {
            None => Err(ParseError::InvalidSizeContent),
            Some(n) => if e + 2 <= s || e + 2 > b.len() {
                Err(ParseError::NoData)
            } else {
                match parse_items(b, e + 2, n) {
                    Ok((xs, q)) => Ok((Frame::Array(xs), q)),
                    Err(err) => Err(err),
                }
            },
        },
    }
}

/// `n` frames one after the other from position `p`.
pub open spec fn parse_items(b: Seq<u8>, p: int, n: nat) -> Result<(Seq<Frame>, int), ParseError>
    decreases b.len() - p, 1int, n,
{
    if n == 0 {
        Ok((seq![], p))
    } else {
        match parse_frame(b, p) {
            Err(err) => Err(err),
            Ok((f, q)) => if q <= p || q > b.len() {
                Err(ParseError::NoData)
            } else {
                match parse_items(b, q, (n - 1) as nat) {
                    Ok((xs, r)) => Ok((seq![f] + xs, r)),
                    Err(err) => Err(err),
                }
            },
        }
    }
}

/// Every frame from position `p` to the end of the buffer.
pub open spec fn decode_from(b: Seq<u8>, p: int) -> Result<Seq<Frame>, ParseError>
    decreases b.len() - p,
{
    if p < 0 || p >= b.len() {
        Ok(seq![])
    } else {
        match parse_frame(b, p) {
            Err(err) => Err(err),
            Ok((f, q)) => if q <= p || q > b.len() {
                Err(ParseError::NoData)
            } else {
                match decode_from(b, q) {
                    Ok(xs) => Ok(seq![f] + xs),
                    Err(err) => Err(err),
                }
            },
        }
    }
}

/// The frames that a whole buffer holds.
pub open spec fn decode(b: Seq<u8>) -> Result<Seq<Frame>, ParseError> {
    decode_from(b, 0)
}

/// An executable parse result agrees with the grammar's result.
pub open spec fn agrees(
    r: Result<(Message, usize), ParseError>,
    s: Result<(Frame, int), ParseError>,
) -> bool {
    match r {
        Ok((m, q)) => s is Ok && s->Ok_0.0 == m@ && s->Ok_0.1 == q as int,
        Err(e) => s is Err && s->Err_0 == e,
    }
}


/// Prepends decoded frames to a parse result of the frames that follow them.
pub open spec fn prepend(xs: Seq<Frame>, r: Result<(Seq<Frame>, int), ParseError>) -> Result<
    (Seq<Frame>, int),
    ParseError,
> {
    match r {
        Ok((ys, q)) => Ok((xs + ys, q)),
        Err(e) => Err(e),
    }
}

proof fn lemma_digits_prefix(s: Seq<u8>, i: int)
    requires
        0 <= i <= s.len(),
        all_digits(s),
    ensures
        digits_value(s.subrange(0, i)) <= digits_value(s),
    decreases s.len() - i,
{
    if i < s.len() {
        lemma_digits_prefix(s, i + 1);
        assert(s.subrange(0, i + 1).drop_last() =~= s.subrange(0, i));
    } else {
        assert(s.subrange(0, i) =~= s);
    }
}

/// Relies on `String::from_utf8`: it succeeds exactly on valid UTF-8, and the
/// string then holds the characters that the bytes encode.
#[verifier::external_body]
pub(crate) fn string_from_utf8(bytes: Vec<u8>) -> (r: Option<String>)
    ensures
        r is Some <==> valid_utf8(bytes@),
        r is Some ==> r->Some_0@ == decode_utf8(bytes@),
{
    String::from_utf8(bytes).ok()
}

/// The position of the first line terminator at or after `from`.
fn find_crlf(data: &[u8], from: usize) -> (r: Option<usize>)
    ensures
        match r {
            Some(i) => line_end(data@, from as int) == Some(i as int),
            None => line_end(data@, from as int) is None,
        },
        r is Some ==> from <= r->Some_0 && r->Some_0 + 1 < data@.len(),
{
    if data.len() < 2 {
        return None;
    }
    let mut i: usize = from;
    while i < data.len() - 1
        invariant
            data@.len() >= 2,
            from <= i,
            line_end(data@, from as int) == line_end(data@, i as int),
        decreases data@.len() - i,
    {
        if data[i] == 13u8 && data[i + 1] == 10u8 {
            return Some(i);
        }
        i = i + 1;
    }
    None
}

/// The position of the first line terminator (its carriage return).
pub fn find_linebreak(data: &[u8]) -> (r: Option<usize>)
    ensures
        match r {
            Some(i) => line_end(data@, 0) == Some(i as int),
            None => line_end(data@, 0) is None,
        },
{
    find_crlf(data, 0)
}

/// The value of the decimal digits in `data[from..to]`, if it fits a `u64`.
pub(crate) fn read_digits(data: &[u8], from: usize, to: usize) -> (r: Option<u64>)
    requires
        from <= to <= data@.len(),
    ensures
        ({
            let f = data@.subrange(from as int, to as int);
            r == if all_digits(f) && digits_value(f) <= u64::MAX {
                Some(digits_value(f) as u64)
            } else {
                None::<u64>
            }
        }),
{
    let ghost f = data@.subrange(from as int, to as int);
    let mut result: u64 = 0;
    let mut i: usize = from;
    while i < to
        invariant
            from <= i <= to <= data@.len(),
            f == data@.subrange(from as int, to as int),
            all_digits(f.subrange(0, i - from)),
            result as nat == digits_value(f.subrange(0, i - from)),
        decreases to - i,
    {
        let c = data[i];
        if c < 48u8 || c > 57u8 {
            assert(!is_digit(f[i - from]));
            return None;
        }
        let d: u64 = (c - 48u8) as u64;
        proof {
            assert(f.subrange(0, i - from + 1).drop_last() =~= f.subrange(0, i - from));
        }
        let next = match result.checked_mul(10) {
            Some(m) => m.checked_add(d),
            None => None,
        };
        match next {
            Some(v) => {
                result = v;
                i = i + 1;
                assert(all_digits(f.subrange(0, i - from)));
            },
            None => {
                proof {
                    if all_digits(f) {
                        lemma_digits_prefix(f, i - from + 1);
                    }
                }
                return None;
            },
        }
    }
    assert(f.subrange(0, to - from) =~= f);
    Some(result)
}

/// The value of a sequence of decimal digits.
pub fn convert_to_number(data: &[u8]) -> (r: Result<usize, ParseError>)
    ensures
        r == if all_digits(data@) && digits_value(data@) <= usize::MAX {
            Ok::<usize, ParseError>(digits_value(data@) as usize)
        } else {
            Err(ParseError::InvalidSizeContent)
        },
{
    proof {
        assert(data@.subrange(0, data@.len() as int) =~= data@);
    }
    match read_digits(data, 0, data.len()) {
        Some(v) => if v <= usize::MAX as u64 {
            Ok(v as usize)
        } else {
            Err(ParseError::InvalidSizeContent)
        },
        None => Err(ParseError::InvalidSizeContent),
    }
}

/// A length or count field in `data[from..to]`.
fn read_length(data: &[u8], from: usize, to: usize) -> (r: Option<usize>)
    requires
        from <= to <= data@.len(),
    ensures
        match r {
            Some(n) => length_field(data@.subrange(from as int, to as int)) == Some(n as nat),
            None => length_field(data@.subrange(from as int, to as int)) is None,
        },
{
    if from == to {
        return None;
    }
    match read_digits(data, from, to) {
        Some(v) => if v <= usize::MAX as u64 {
            Some(v as usize)
        } else {
            None
        },
        None => None,
    }
}

/// An integer field in `data[from..to]`.
pub(crate) fn read_integer(data: &[u8], from: usize, to: usize) -> (r: Option<i64>)
    requires
        from <= to <= data@.len(),
    ensures
        match r {
            Some(n) => integer_field(data@.subrange(from as int, to as int)) == Some(n as int),
            None => integer_field(data@.subrange(from as int, to as int)) is None,
        },
{
    let ghost f = data@.subrange(from as int, to as int);
    if from == to {
        return None;
    }
    let c = data[from];
    if c == 45u8 || c == 43u8 {
        proof {
            assert(f.drop_first() =~= data@.subrange(from + 1, to as int));
        }
        if from + 1 == to {
            return None;
        }
        match read_digits(data, from + 1, to) {
            Some(v) => if c == 45u8 {
                if v <= 0x8000_0000_0000_0000u64 {
                    if v == 0x8000_0000_0000_0000u64 {
                        Some(i64::MIN)
                    } else {
                        Some(-(v as i64))
                    }
                } else {
                    None
                }
            } else {
                if v <= i64::MAX as u64 {
                    Some(v as i64)
                } else {
                    None
                }
            },
            None => None,
        }
    } else {
        match read_digits(data, from, to) {
            Some(v) => if v <= i64::MAX as u64 {
                Some(v as i64)
            } else {
                None
            },
            None => None,
        }
    }
}

/// A copy of `data`.
pub(crate) fn copy_bytes(data: &[u8]) -> (r: Vec<u8>)
    ensures
        r@ == data@,
{
    slice_to_vec(data)
}

/// A copy of `data[from..to]`.
fn copy_range(data: &[u8], from: usize, to: usize) -> (r: Vec<u8>)
    requires
        from <= to <= data@.len(),
    ensures
        r@ == data@.subrange(from as int, to as int),
{
    slice_to_vec(slice_subrange(data, from, to))
}

/// Whether `data[from..to]` holds no carriage return and no line feed.
fn no_line_bytes(data: &[u8], from: usize, to: usize) -> (r: bool)
    requires
        from <= to <= data@.len(),
    ensures
        r == line_free(data@.subrange(from as int, to as int)),
{
    let ghost p = data@.subrange(from as int, to as int);
    let mut i: usize = from;
    while i < to
        invariant
            from <= i <= to <= data@.len(),
            p == data@.subrange(from as int, to as int),
            forall|j: int| 0 <= j < i - from ==> #[trigger] p[j] != 13 && p[j] != 10,
        decreases to - i,
    {
        if data[i] == 13u8 || data[i] == 10u8 {
            assert(p[i - from] == data@[i as int]);
            return false;
        }
        i = i + 1;
    }
    true
}

/// A simple string whose payload starts at `start`.
pub fn parse_simple_string(data: &[u8], start: usize) -> (r: Result<(Message, usize), ParseError>)
    ensures
        agrees(r, parse_simple(data@, start as int)),
        r is Ok ==> start < r->Ok_0.1 <= data@.len(),
{
    let _len = data.len();
    match find_crlf(data, start) {
        None => Err(ParseError::InvalidString),
        Some(e) => {
            if !no_line_bytes(data, start, e) {
                return Err(ParseError::InvalidStringContent);
            }
            let payload = copy_range(data, start, e);
            match string_from_utf8(payload) {
                Some(text) => Ok((Message::SimpleString(text), e + 2)),
                None => Err(ParseError::InvalidStringContent),
            }
        },
    }
}

/// An integer whose field starts at `start`.
pub fn parse_integer(data: &[u8], start: usize) -> (r: Result<(Message, usize), ParseError>)
    ensures
        agrees(r, parse_int(data@, start as int)),
        r is Ok ==> start < r->Ok_0.1 <= data@.len(),
{
    let _len = data.len();
    match find_crlf(data, start) {
        None => Err(ParseError::InvalidSizeContent),
        Some(e) => match read_integer(data, start, e) {
            Some(n) => Ok((Message::Integer(n), e + 2)),
            None => Err(ParseError::InvalidSizeContent),
        },
    }
}

/// A bulk string, null bulk string or snapshot whose length field starts at `start`.
pub fn parse_bulk_string(data: &[u8], start: usize) -> (r: Result<(Message, usize), ParseError>)
    ensures
        agrees(r, parse_bulk(data@, start as int)),
        r is Ok ==> start < r->Ok_0.1 <= data@.len(),
{
    let ghost b = data@;
    let _len = data.len();
    match find_crlf(data, start) {
        None => Err(ParseError::InvalidSizeContent),
        Some(e) => {
            if e - start == 2 && data[start] == 45u8 && data[start + 1] == 49u8 {
                assert(b.subrange(start as int, e as int) =~= seq![45u8, 49u8]);
                return Ok((Message::NullBulkString, e + 2));
            }
            assert(b.subrange(start as int, e as int) != seq![45u8, 49u8]) by {
                if b.subrange(start as int, e as int) == seq![45u8, 49u8] {
                    assert(b.subrange(start as int, e as int).len() == 2);
                    assert(b.subrange(start as int, e as int)[0] == 45u8);
                    assert(b.subrange(start as int, e as int)[1] == 49u8);
                }
            }
            match read_length(data, start, e) {
                None => Err(ParseError::InvalidSizeContent),
                Some(n) => {
                    let s = e + 2;
                    if n > data.len() - s {
                        return Err(ParseError::NoData);
                    }
                    let end = s + n;
                    let terminated = data.len() - end >= 2 && data[end] == 13u8 && data[end + 1]
                        == 10u8;
                    let magic = n > 5 && data[s] == 82u8 && data[s + 1] == 69u8 && data[s + 2]
                        == 68u8 && data[s + 3] == 73u8 && data[s + 4] == 83u8;
                    let ghost payload = b.subrange(s as int, end as int);
                    assert(magic <==> (n > 5 && payload.subrange(0, 5) == snapshot_magic())) by {
                        if n > 5 {
                            if payload.subrange(0, 5) == snapshot_magic() {
                                assert(payload.subrange(0, 5)[0] == 82u8);
                                assert(payload.subrange(0, 5)[1] == 69u8);
                                assert(payload.subrange(0, 5)[2] == 68u8);
                                assert(payload.subrange(0, 5)[3] == 73u8);
                                assert(payload.subrange(0, 5)[4] == 83u8);
                            }
                            if magic {
                                assert(payload.subrange(0, 5) =~= snapshot_magic());
                            }
                        }
                    }
                    if magic && !terminated {
                        Ok((Message::RdbFile(copy_range(data, s, end)), end))
                    } else if terminated {
                        Ok((Message::BulkString(copy_range(data, s, end)), end + 2))
                    } else {
                        Err(ParseError::MissingTerminator)
                    }
                },
            }
        },
    }
}


/// The frame that starts at position `pos`, and the position just after it.
pub fn parse(data: &[u8], pos: usize) -> (r: Result<(Message, usize), ParseError>)
    ensures
        agrees(r, parse_frame(data@, pos as int)),
        r is Ok ==> pos < r->Ok_0.1 <= data@.len(),
    decreases data@.len() - pos, 1int,
{
    if pos >= data.len() {
        return Err(ParseError::NoData);
    }
    let t = data[pos];
    if t == 43u8 {
        parse_simple_string(data, pos + 1)
    } else if t == 58u8 {
        parse_integer(data, pos + 1)
    } else if t == 36u8 {
        parse_bulk_string(data, pos + 1)
    } else if t == 42u8 {
        parse_array(data, pos + 1)
    } else {
        Err(ParseError::UnknownMessage(t))
    }
}

/// An array whose count field starts at `start`.
pub fn parse_array(data: &[u8], start: usize) -> (r: Result<(Message, usize), ParseError>)
    ensures
        agrees(r, parse_array_at(data@, start as int)),
        r is Ok ==> start < r->Ok_0.1 <= data@.len(),
    decreases data@.len() - start, 2int,
{
    let ghost b = data@;
    let _len = data.len();
    match find_crlf(data, start) {
        None => Err(ParseError::InvalidSizeContent),
        Some(e) => match read_length(data, start, e) {
            None => Err(ParseError::InvalidSizeContent),
            Some(n) => {
                let first = e + 2;
                let mut items: Vec<Message> = Vec::new();
                let mut pos: usize = first;
                let mut k: usize = 0;
                proof {
                    let start_items = parse_items(b, pos as int, n as nat);
                    assert(prepend(views(items@), start_items) =~= start_items) by {
                        assert(views(items@) =~= Seq::<Frame>::empty());
                        match parse_items(b, pos as int, n as nat) {
                            Ok((ys, q)) => { assert(Seq::<Frame>::empty() + ys =~= ys); },
                            Err(_) => {},
                        }
                    }
                }
                while k < n
                    invariant
                        b == data@,
                        start < first <= pos <= data@.len(),
                        first == e + 2,
                        line_end(b, start as int) == Some(e as int),
                        length_field(b.subrange(start as int, e as int)) == Some(n as nat),
                        k <= n,
                        parse_items(b, first as int, n as nat) == prepend(
                            views(items@),
                            parse_items(b, pos as int, (n - k) as nat),
                        ),
                    decreases n - k,
                {
                    match parse(data, pos) {
                        Err(err) => {
                            assert(parse_items(b, pos as int, (n - k) as nat) == Err::<
                                (Seq<Frame>, int),
                                ParseError,
                            >(err));
                            assert(parse_items(b, first as int, n as nat) == Err::<
                                (Seq<Frame>, int),
                                ParseError,
                            >(err));
                            return Err(err);
                        },
                        Ok((m, q)) => {
                            let ghost rest = parse_items(b, q as int, (n - k - 1) as nat);
                            proof {
                                lemma_views_push(items@, m);
                                let xs = views(items@);
                                match rest {
                                    Ok((ys, r2)) => {
                                        assert(xs + (seq![m@] + ys) =~= xs.push(m@) + ys);
                                    },
                                    Err(_) => {},
                                }
                            }
                            items.push(m);
                            pos = q;
                            k = k + 1;
                        },
                    }
                }
                Ok((Message::Array(items), pos))
            },
        },
    }
}

/// Every frame in `data`, in order.
pub fn decode_frames(data: &[u8]) -> (r: Result<Vec<Message>, ParseError>)
    ensures
        match r {
            Ok(v) => decode(data@) == Ok::<Seq<Frame>, ParseError>(views(v@)),
            Err(e) => decode(data@) == Err::<Seq<Frame>, ParseError>(e),
        },
{
    let ghost b = data@;
    let mut result: Vec<Message> = Vec::new();
    let mut pos: usize = 0;
    proof {
        assert(views(result@) =~= Seq::<Frame>::empty());
        match decode_from(b, 0) {
            Ok(ys) => { assert(Seq::<Frame>::empty() + ys =~= ys); },
            Err(_) => {},
        }
    }
    while pos < data.len()
        invariant
            b == data@,
            pos <= data@.len(),
            decode(b) == match decode_from(b, pos as int) {
                Ok(ys) => Ok::<Seq<Frame>, ParseError>(views(result@) + ys),
                Err(e) => Err(e),
            },
        decreases data@.len() - pos,
    {
        match parse(data, pos) {
            Err(err) => {
                return Err(err);
            },
            Ok((m, q)) => {
                proof {
                    lemma_views_push(result@, m);
                    let xs = views(result@);
                    match decode_from(b, q as int) {
                        Ok(ys) => {
                            assert(xs + (seq![m@] + ys) =~= xs.push(m@) + ys);
                        },
                        Err(_) => {},
                    }
                }
                result.push(m);
                pos = q;
            },
        }
    }
    proof {
        assert(views(result@) + Seq::<Frame>::empty() =~= views(result@));
    }
    Ok(result)
}


#[verifier::external_type_specification]
#[verifier::external_body]
pub struct ExBytesMut(bytes::BytesMut);

/// The bytes that a buffer holds.
pub uninterp spec fn buffer_bytes(b: BytesMut) -> Seq<u8>;

/// Relies on `BytesMut` dereferencing to its initialized bytes, and on
/// `<[u8]>::to_vec`: a copy of exactly those bytes, in order.
#[verifier::external_body]
fn buffer_to_vec(data: &BytesMut) -> (r: Vec<u8>)
    ensures
        r@ == buffer_bytes(*data),
{
    data.to_vec()
}

/// Every frame in a received buffer, in order.
pub fn parse_data(data: BytesMut) -> (r: Result<Vec<Message>, ParseError>)
    ensures
        match r {
            Ok(v) => decode(buffer_bytes(data)) == Ok::<Seq<Frame>, ParseError>(views(v@)),
            Err(e) => decode(buffer_bytes(data)) == Err::<Seq<Frame>, ParseError>(e),
        },
{
    let bytes = buffer_to_vec(&data);
    decode_frames(bytes.as_slice())
}

} // verus!
