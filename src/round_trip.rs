use vstd::prelude::*;
use vstd::utf8::*;

use crate::message::{crlf, decimal, encode, encode_all, signed_decimal, Frame};
use crate::parser::{
    decode, decode_from,
    all_digits, crlf_at, digits_value, is_digit, line_end, parse_frame, parse_items, snapshot_magic,
    ParseError,
};

verus! {

/// Text that a simple string can carry: no carriage return and no line feed.
pub open spec fn valid_text(s: Seq<char>) -> bool {
    forall|i: int| 0 <= i < s.len() ==> #[trigger] s[i] != '\r' && s[i] != '\n'
}

/// A frame that a value of `Message` can stand for, with line-free simple strings.
pub open spec fn valid_frame(f: Frame) -> bool
    decreases f,
{
    match f {
        Frame::Simple(s) => valid_text(s),
        Frame::Bulk(b) => b.len() <= usize::MAX,
        Frame::NullBulk => true,
        Frame::Integer(n) => i64::MIN <= n <= i64::MAX,
        Frame::Array(xs) => xs.len() <= usize::MAX && forall|i: int|
            0 <= i < xs.len() ==> valid_frame(#[trigger] xs[i]),
        Frame::Snapshot(b) => b.len() <= usize::MAX,
    }
}

/// Every snapshot inside the frame is longer than five bytes and starts with the magic.
pub open spec fn snapshots_marked(f: Frame) -> bool
    decreases f,
{
    match f {
        Frame::Array(xs) => forall|i: int| 0 <= i < xs.len() ==> snapshots_marked(#[trigger] xs[i]),
        Frame::Snapshot(b) => b.len() > 5 && b.subrange(0, 5) == snapshot_magic(),
        _ => true,
    }
}

/// The frame is or holds a snapshot.
pub open spec fn has_snapshot(f: Frame) -> bool
    decreases f,
{
    match f {
        Frame::Array(xs) => exists|i: int| 0 <= i < xs.len() && has_snapshot(#[trigger] xs[i]),
        Frame::Snapshot(_) => true,
        _ => false,
    }
}

/// Nothing, or a byte other than a carriage return, stands at position `q`.
pub open spec fn no_cr_at(b: Seq<u8>, q: int) -> bool {
    q == b.len() || (q < b.len() && b[q] != 13)
}

proof fn lemma_no_snapshot_marked(f: Frame)
    requires
        !has_snapshot(f),
    ensures
        snapshots_marked(f),
    decreases f,
{
    if let Frame::Array(xs) = f {
        assert forall|i: int| 0 <= i < xs.len() implies snapshots_marked(#[trigger] xs[i]) by {
            lemma_no_snapshot_marked(xs[i]);
        }
    }
}

proof fn lemma_decimal(n: nat)
    ensures
        decimal(n).len() >= 1,
        all_digits(decimal(n)),
        digits_value(decimal(n)) == n,
    decreases n,
{
    let d = decimal(n);
    if n >= 10 {
        lemma_decimal(n / 10);
        assert(d.drop_last() =~= decimal(n / 10));
        assert(d.last() - 48 == n % 10);
        assert((n / 10) * 10 + n % 10 == n) by (nonlinear_arith);
        assert(digits_value(d) == digits_value(decimal(n / 10)) * 10 + (d.last() - 48) as nat);
    } else {
        assert(d.drop_last() =~= Seq::<u8>::empty());
        assert(digits_value(Seq::<u8>::empty()) == 0);
        assert(digits_value(d) == digits_value(d.drop_last()) * 10 + (d.last() - 48) as nat);
    }
}

proof fn lemma_line_end_at(b: Seq<u8>, from: int, e: int)
    requires
        0 <= from <= e,
        crlf_at(b, e),
        forall|j: int| from <= j < e ==> #[trigger] b[j] != 13,
    ensures
        line_end(b, from) == Some(e),
    decreases e - from,
{
    if from < e {
        lemma_line_end_at(b, from + 1, e);
    }
}

proof fn lemma_scalar_no_newline(c: char)
    requires
        c != '\r' && c != '\n',
    ensures
        forall|i: int|
            0 <= i < encode_scalar(c as u32).len() ==> #[trigger] encode_scalar(c as u32)[i] != 13
                && encode_scalar(c as u32)[i] != 10,
{
    let v = c as u32;
    assert(v != 13 && v != 10);
    if has_width_1_encoding(v) {
        assert(leading_byte_width_1(v) != 13 && leading_byte_width_1(v) != 10) by (bit_vector)
            requires
                v <= 0x7F && v != 13 && v != 10,
        ;
    } else {
        assert(last_continuation_byte(v) >= 0x80) by (bit_vector);
        assert(second_last_continuation_byte(v) >= 0x80) by (bit_vector);
        assert(third_last_continuation_byte(v) >= 0x80) by (bit_vector);
        assert(leading_byte_width_2(v) >= 0x80) by (bit_vector);
        assert(leading_byte_width_3(v) >= 0x80) by (bit_vector);
        assert(leading_byte_width_4(v) >= 0x80) by (bit_vector);
    }
}

proof fn lemma_text_no_newline(s: Seq<char>)
    requires
        valid_text(s),
    ensures
        forall|i: int| 0 <= i < encode_utf8(s).len() ==> #[trigger] encode_utf8(s)[i] != 13
            && encode_utf8(s)[i] != 10,
    decreases s.len(),
{
    if s.len() > 0 {
        lemma_scalar_no_newline(s[0]);
        let rest = s.drop_first();
        assert(valid_text(rest)) by {
            assert forall|i: int| 0 <= i < rest.len() implies #[trigger] rest[i] != '\r' && rest[i]
                != '\n' by {
                assert(rest[i] == s[i + 1]);
            }
        }
        lemma_text_no_newline(rest);
        let a = encode_scalar(s[0] as u32);
        let r = encode_utf8(rest);
        assert(encode_utf8(s) == a + r);
        assert forall|i: int| 0 <= i < encode_utf8(s).len() implies #[trigger] encode_utf8(s)[i]
            != 13 && encode_utf8(s)[i] != 10 by {
            if i < a.len() {
                assert(encode_utf8(s)[i] == a[i]);
            } else {
                assert(encode_utf8(s)[i] == r[i - a.len()]);
            }
        }
    }
}

proof fn lemma_sub(b: Seq<u8>, p: int, enc: Seq<u8>, i: int, j: int)
    requires
        0 <= p,
        p + enc.len() as int <= b.len(),
        b.subrange(p, p + enc.len() as int) == enc,
        0 <= i <= j <= enc.len() as int,
    ensures
        b.subrange(p + i, p + j) == enc.subrange(i, j),
{
    assert forall|k: int| 0 <= k < j - i implies #[trigger] b.subrange(p + i, p + j)[k]
        == enc.subrange(i, j)[k] by {
        assert(b.subrange(p, p + enc.len() as int)[i + k] == b[p + i + k]);
    }
    assert(b.subrange(p + i, p + j) =~= enc.subrange(i, j));
}

proof fn lemma_at(b: Seq<u8>, p: int, enc: Seq<u8>, i: int)
    requires
        0 <= p,
        p + enc.len() as int <= b.len(),
        b.subrange(p, p + enc.len() as int) == enc,
        0 <= i < enc.len() as int,
    ensures
        b[p + i] == enc[i],
{
    assert(b.subrange(p, p + enc.len() as int)[i] == b[p + i]);
}

proof fn lemma_encode_first(f: Frame)
    ensures
        encode(f).len() >= 1,
        encode(f)[0] != 13,
{
}

/// A header `t`, digits `d`, then a line terminator: the field ends at the terminator.
proof fn lemma_header(b: Seq<u8>, p: int, enc: Seq<u8>, d: Seq<u8>)
    requires
        0 <= p,
        p + enc.len() as int <= b.len(),
        b.subrange(p, p + enc.len() as int) == enc,
        enc.len() as int >= d.len() as int + 3,
        enc.subrange(1, d.len() as int + 3) == d + crlf(),
        forall|i: int| 0 <= i < d.len() as int ==> #[trigger] d[i] != 13,
    ensures
        line_end(b, p + 1) == Some(p + 1 + d.len() as int),
        b.subrange(p + 1, p + 1 + d.len() as int) == d,
{
    lemma_sub(b, p, enc, 1, d.len() as int + 3);
    let w = b.subrange(p + 1, p + 1 + d.len() as int + 2);
    assert(w == d + crlf());
    assert forall|j: int| p + 1 <= j < p + 1 + d.len() as int implies #[trigger] b[j] != 13 by {
        assert(w[j - p - 1] == b[j]);
        assert(w[j - p - 1] == d[j - p - 1]);
    }
    assert(w[d.len() as int] == b[p + 1 + d.len() as int]);
    assert(w[d.len() as int + 1] == b[p + 1 + d.len() as int + 1]);
    lemma_line_end_at(b, p + 1, p + 1 + d.len() as int);
    assert(b.subrange(p + 1, p + 1 + d.len() as int) =~= w.subrange(0, d.len() as int));
    assert(w.subrange(0, d.len() as int) =~= d);
}

proof fn lemma_digits_no_cr(d: Seq<u8>)
    requires
        all_digits(d),
    ensures
        forall|i: int| 0 <= i < d.len() as int ==> #[trigger] d[i] != 13,
{
    assert forall|i: int| 0 <= i < d.len() as int implies #[trigger] d[i] != 13 by {
        assert(is_digit(d[i]));
    }
}

/// A valid frame, encoded at `p` and followed by no carriage return, parses back.
pub proof fn lemma_parse_encoded(b: Seq<u8>, p: int, f: Frame)
    requires
        valid_frame(f),
        snapshots_marked(f),
        0 <= p,
        p + encode(f).len() <= b.len(),
        b.subrange(p, p + encode(f).len()) == encode(f),
        no_cr_at(b, p + encode(f).len()),
    ensures
        parse_frame(b, p) == Ok::<(Frame, int), ParseError>((f, p + encode(f).len())),
    decreases f, 1int,
{
    let enc = encode(f);
    lemma_at(b, p, enc, 0);
    match f {
        Frame::Simple(s) => {
            let u = encode_utf8(s);
            lemma_text_no_newline(s);
            assert(enc.subrange(1, u.len() as int + 3) =~= u + crlf());
            lemma_header(b, p, enc, u);
            broadcast use encode_utf8_valid_utf8, encode_utf8_decode_utf8;

        },
        Frame::Integer(n) => {
            let sd = signed_decimal(n);
            if n < 0 {
                lemma_decimal((-n) as nat);
                assert(sd.drop_first() =~= decimal((-n) as nat));
                assert forall|i: int| 0 <= i < sd.len() as int implies #[trigger] sd[i] != 13 by {
                    if i > 0 {
                        assert(sd[i] == decimal((-n) as nat)[i - 1]);
                        assert(is_digit(decimal((-n) as nat)[i - 1]));
                    }
                }
            } else {
                lemma_decimal(n as nat);
                lemma_digits_no_cr(sd);
                assert(is_digit(sd[0]));
            }
            assert(enc.subrange(1, sd.len() as int + 3) =~= sd + crlf());
            lemma_header(b, p, enc, sd);
        },
        Frame::NullBulk => {
            assert(enc.subrange(1, 5) =~= seq![45u8, 49u8] + crlf());
            lemma_header(b, p, enc, seq![45u8, 49u8]);
            assert(b.subrange(p + 1, p + 3) =~= seq![45u8, 49u8]);
        },
        Frame::Bulk(x) => {
            let d = decimal(x.len());
            lemma_decimal(x.len());
            lemma_digits_no_cr(d);
            assert(enc.subrange(1, d.len() as int + 3) =~= d + crlf());
            lemma_header(b, p, enc, d);
            assert(is_digit(d[0]));
            assert(d != seq![45u8, 49u8]) by {
                if d == seq![45u8, 49u8] {
                    assert(d[0] == 45u8);
                }
            }
            let start = p + 1 + d.len() as int + 2;
            assert(enc.subrange(d.len() as int + 3, d.len() as int + 3 + x.len() as int) =~= x);
            lemma_sub(b, p, enc, d.len() as int + 3, d.len() as int + 3 + x.len() as int);
            lemma_at(b, p, enc, d.len() as int + 3 + x.len() as int);
            lemma_at(b, p, enc, d.len() as int + 4 + x.len() as int);
        },
        Frame::Snapshot(x) => {
            let d = decimal(x.len());
            lemma_decimal(x.len());
            lemma_digits_no_cr(d);
            assert(enc.subrange(1, d.len() as int + 3) =~= d + crlf());
            lemma_header(b, p, enc, d);
            assert(is_digit(d[0]));
            assert(d != seq![45u8, 49u8]) by {
                if d == seq![45u8, 49u8] {
                    assert(d[0] == 45u8);
                }
            }
            assert(enc.subrange(d.len() as int + 3, d.len() as int + 3 + x.len() as int) =~= x);
            lemma_sub(b, p, enc, d.len() as int + 3, d.len() as int + 3 + x.len() as int);
        },
        Frame::Array(xs) => {
            let d = decimal(xs.len());
            lemma_decimal(xs.len());
            lemma_digits_no_cr(d);
            assert(enc.subrange(1, d.len() as int + 3) =~= d + crlf());
            lemma_header(b, p, enc, d);
            let start = p + 1 + d.len() as int + 2;
            let items = encode_all(xs);
            assert(enc.subrange(d.len() as int + 3, enc.len() as int) =~= items);
            lemma_sub(b, p, enc, d.len() as int + 3, enc.len() as int);
            lemma_parse_items_encoded(b, start, xs);
        },
    }
}

/// Valid frames, encoded one after the other at `p` and followed by no
/// carriage return, parse back as the items of an array.
pub proof fn lemma_parse_items_encoded(b: Seq<u8>, p: int, xs: Seq<Frame>)
    requires
        forall|i: int| 0 <= i < xs.len() ==> valid_frame(#[trigger] xs[i]),
        forall|i: int| 0 <= i < xs.len() ==> snapshots_marked(#[trigger] xs[i]),
        0 <= p,
        p + encode_all(xs).len() <= b.len(),
        b.subrange(p, p + encode_all(xs).len()) == encode_all(xs),
        no_cr_at(b, p + encode_all(xs).len()),
    ensures
        parse_items(b, p, xs.len()) == Ok::<(Seq<Frame>, int), ParseError>(
            (xs, p + encode_all(xs).len()),
        ),
    decreases xs, 0int,
{
    if xs.len() > 0 {
        let all = encode_all(xs);
        let e0 = encode(xs[0]);
        let rest = xs.subrange(1, xs.len() as int);
        let er = encode_all(rest);
        assert(all == e0 + er);
        lemma_sub(b, p, all, 0, e0.len() as int);
        assert(all.subrange(0, e0.len() as int) =~= e0);
        lemma_sub(b, p, all, e0.len() as int, all.len() as int);
        assert(all.subrange(e0.len() as int, all.len() as int) =~= er);
        if rest.len() as int > 0 {
            lemma_encode_first(rest[0]);
            assert(er == encode(rest[0]) + encode_all(rest.subrange(1, rest.len() as int)));
            lemma_at(b, p, all, e0.len() as int);
        }
        lemma_parse_encoded(b, p, xs[0]);
        lemma_encode_first(xs[0]);
        lemma_parse_items_encoded(b, p + e0.len() as int, rest);
        assert(seq![xs[0]] + rest =~= xs);
        let q = p + e0.len() as int;
        assert(parse_frame(b, p) == Ok::<(Frame, int), ParseError>((xs[0], q)));
        assert(parse_items(b, q, (xs.len() - 1) as nat) == Ok::<(Seq<Frame>, int), ParseError>(
            (rest, q + er.len() as int),
        ));
        assert(all.len() == e0.len() + er.len());
        assert(parse_items(b, p, xs.len()) == Ok::<(Seq<Frame>, int), ParseError>(
            (seq![xs[0]] + rest, q + er.len() as int),
        ));
    } else {
        assert(encode_all(xs).len() == 0);
        assert(xs =~= Seq::<Frame>::empty());
    }
}


proof fn lemma_decode_from_encoded(b: Seq<u8>, p: int, fs: Seq<Frame>)
    requires
        forall|i: int| 0 <= i < fs.len() ==> valid_frame(#[trigger] fs[i]),
        forall|i: int| 0 <= i < fs.len() ==> snapshots_marked(#[trigger] fs[i]),
        0 <= p <= b.len(),
        b.subrange(p, b.len() as int) == encode_all(fs),
    ensures
        decode_from(b, p) == Ok::<Seq<Frame>, ParseError>(fs),
    decreases fs.len(),
{
    let all = encode_all(fs);
    if fs.len() == 0 {
        assert(fs =~= Seq::<Frame>::empty());
    } else {
        let e0 = encode(fs[0]);
        let rest = fs.subrange(1, fs.len() as int);
        let er = encode_all(rest);
        assert(all == e0 + er);
        assert(b.subrange(p, p + all.len()) == all);
        lemma_sub(b, p, all, 0, e0.len() as int);
        assert(all.subrange(0, e0.len() as int) =~= e0);
        let q = p + e0.len();
        if rest.len() > 0 {
            lemma_encode_first(rest[0]);
            assert(er == encode(rest[0]) + encode_all(rest.subrange(1, rest.len() as int)));
            lemma_at(b, p, all, e0.len() as int);
        }
        lemma_parse_encoded(b, p, fs[0]);
        lemma_encode_first(fs[0]);
        lemma_sub(b, p, all, e0.len() as int, all.len() as int);
        assert(all.subrange(e0.len() as int, all.len() as int) =~= er);
        lemma_decode_from_encoded(b, q, rest);
        assert(seq![fs[0]] + rest =~= fs);
    }
}

/// Decoding the concatenated encodings of valid frames, whose snapshots carry
/// the magic and more than five bytes, gives back exactly those frames.
pub proof fn lemma_decode_concat(fs: Seq<Frame>)
    requires
        forall|i: int| 0 <= i < fs.len() ==> valid_frame(#[trigger] fs[i]),
        forall|i: int| 0 <= i < fs.len() ==> snapshots_marked(#[trigger] fs[i]),
    ensures
        decode(encode_all(fs)) == Ok::<Seq<Frame>, ParseError>(fs),
{
    let b = encode_all(fs);
    assert(b.subrange(0, b.len() as int) =~= b);
    lemma_decode_from_encoded(b, 0, fs);
}

/// Decoding the encoding of a valid frame that holds no snapshot gives back
/// that frame alone.
pub proof fn lemma_decode_encode(f: Frame)
    requires
        valid_frame(f),
        !has_snapshot(f),
    ensures
        decode(encode(f)) == Ok::<Seq<Frame>, ParseError>(seq![f]),
{
    lemma_no_snapshot_marked(f);
    let fs = seq![f];
    let e = fs.subrange(1, 1);
    assert(e =~= Seq::<Frame>::empty());
    assert(encode_all(e) =~= Seq::<u8>::empty());
    assert(fs[0] == f);
    assert(encode_all(fs) =~= encode(f));
    lemma_decode_concat(fs);
}

} // verus!
