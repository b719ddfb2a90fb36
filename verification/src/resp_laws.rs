//! What decoding gives back of what encoding wrote.
use vstd::prelude::*;
use vstd::utf8::*;

use crate::decimal::{all_digits, int_text, lemma_nat_digits, lemma_parse_int_text, nat_digits};
use crate::resp::{
    crlf, header_line, line_end, lossy_text, prepend_items, spec_decode_items, spec_decode_one,
    spec_encode, spec_encode_items, Decoded, DecodedItems, ValueModel,
};

verus! {

/// A value that RESP2 can carry unchanged: the text of simple strings and
/// errors holds no carriage return (it ends their line).
pub open spec fn encodable(v: ValueModel) -> bool
    decreases v,
{
    match v {
        ValueModel::SimpleString(s) => !s.contains('\r'),
        ValueModel::Error(s) => !s.contains('\r'),
        ValueModel::BulkString(b) => b.len() <= i64::MAX,
        ValueModel::Array(items) => items.len() <= i64::MAX && forall|i: int|
            0 <= i < items.len() ==> encodable(#[trigger] items[i]),
        _ => true,
    }
}

pub open spec fn no_cr(s: Seq<u8>) -> bool {
    forall|j: int| 0 <= j < s.len() ==> #[trigger] s[j] != 13
}

proof fn lemma_line_end_at(data: Seq<u8>, from: int, k: int)
    requires
        0 <= from <= k < data.len(),
        data[k] == 13,
        forall|j: int| from <= j < k ==> data[j] != 13,
    ensures
        line_end(data, from) == k,
    decreases k - from,
{
    if from < k {
        lemma_line_end_at(data, from + 1, k);
    }
}

proof fn lemma_int_text_no_cr(n: int)
    ensures
        no_cr(int_text(n)),
        int_text(n).len() > 0,
{
    if n < 0 {
        let m = (0 - n) as nat;
        lemma_nat_digits(m);
        let t = int_text(n);
        assert forall|j: int| 0 <= j < t.len() implies #[trigger] t[j] != 13 by {
            if j > 0 {
                assert(t[j] == nat_digits(m)[j - 1]);
            }
        }
    } else {
        lemma_nat_digits(n as nat);
    }
}

proof fn lemma_scalar_no_cr(c: char)
    requires
        c != '\r',
    ensures
        no_cr(encode_scalar(c as u32)),
{
    broadcast use char_is_scalar;

    let v = c as u32;
    let e = encode_scalar(v);
    if has_width_1_encoding(v) {
        assert(v <= 0x7f ==> v & 0x7f == v) by (bit_vector);
        assert(v != 13);
    } else {
        assert(forall|x: u32| #![auto] (0xC0u8 | ((x >> 6) & 0x1F) as u8) != 13u8) by (bit_vector);
        assert(forall|x: u32| #![auto] (0xE0u8 | ((x >> 12) & 0x0F) as u8) != 13u8) by (bit_vector);
        assert(forall|x: u32| #![auto] (0xF0u8 | ((x >> 18) & 0x7) as u8) != 13u8) by (bit_vector);
        assert(forall|x: u32| #![auto] (0x80u8 | (x & 0x3F) as u8) != 13u8) by (bit_vector);
        assert(forall|x: u32| #![auto] (0x80u8 | ((x >> 6) & 0x3F) as u8) != 13u8) by (bit_vector);
        assert(forall|x: u32| #![auto] (0x80u8 | ((x >> 12) & 0x3F) as u8) != 13u8) by (bit_vector);
    }
}

proof fn lemma_utf8_no_cr(s: Seq<char>)
    requires
        !s.contains('\r'),
    ensures
        no_cr(encode_utf8(s)),
    decreases s.len(),
{
    if s.len() > 0 {
        assert(s[0] != '\r') by {
            if s[0] == '\r' {
                assert(s.contains('\r'));
            }
        }
        lemma_scalar_no_cr(s[0]);
        let rest = s.drop_first();
        assert(!rest.contains('\r')) by {
            if rest.contains('\r') {
                let k = choose|k: int| 0 <= k < rest.len() && rest[k] == '\r';
                assert(s[k + 1] == '\r');
            }
        }
        lemma_utf8_no_cr(rest);
        let a = encode_scalar(s[0] as u32);
        let b = encode_utf8(rest);
        assert(encode_utf8(s) == a + b);
        assert forall|j: int| 0 <= j < (a + b).len() implies #[trigger] (a + b)[j] != 13 by {
            if j < a.len() {
                assert((a + b)[j] == a[j]);
            } else {
                assert((a + b)[j] == b[j - a.len()]);
            }
        }
    }
}

/// The header line of `tag` + `text` + CRLF + anything: its text and length.
proof fn lemma_header_line(tag: u8, text: Seq<u8>, rest: Seq<u8>)
    requires
        no_cr(text),
    ensures
        header_line(seq![tag] + text + crlf() + rest) == Some((text, text.len() + 3int)),
{
    let data = seq![tag] + text + crlf() + rest;
    let k = text.len() + 1int;
    assert(data[k] == 13);
    assert forall|j: int| 1 <= j < k implies data[j] != 13 by {
        assert(data[j] == text[j - 1]);
    }
    lemma_line_end_at(data, 1, k);
    assert(data.subrange(1, k) =~= text);
}

proof fn lemma_utf8_round_trip(s: Seq<char>)
    ensures
        lossy_text(encode_utf8(s)) == s,
{
    broadcast use encode_utf8_valid_utf8, encode_utf8_decode_utf8;

}

/// Decoding the encoding of an encodable value, followed by anything, gives
/// the value back and takes exactly its encoding.
pub proof fn lemma_decode_encode(v: ValueModel, rest: Seq<u8>)
    requires
        encodable(v),
    ensures
        spec_decode_one(spec_encode(v) + rest) == Decoded::Done(v, spec_encode(v).len() as int),
    decreases v, 1int,
{
    let data = spec_encode(v) + rest;
    match v {
        ValueModel::SimpleString(s) => {
            lemma_utf8_no_cr(s);
            lemma_utf8_round_trip(s);
            assert(data =~= seq![43u8] + encode_utf8(s) + crlf() + rest);
            lemma_header_line(43u8, encode_utf8(s), rest);
            assert(lossy_text(encode_utf8(s)) == s);
            assert(spec_decode_one(data) == Decoded::Done(v, spec_encode(v).len() as int));
        },
        ValueModel::Error(s) => {
            lemma_utf8_no_cr(s);
            lemma_utf8_round_trip(s);
            assert(data =~= seq![45u8] + encode_utf8(s) + crlf() + rest);
            lemma_header_line(45u8, encode_utf8(s), rest);
            assert(lossy_text(encode_utf8(s)) == s);
            assert(spec_decode_one(data) == Decoded::Done(v, spec_encode(v).len() as int));
        },
        ValueModel::Integer(n) => {
            lemma_int_text_no_cr(n as int);
            lemma_parse_int_text(n);
            assert(data =~= seq![58u8] + int_text(n as int) + crlf() + rest);
            lemma_header_line(58u8, int_text(n as int), rest);
            assert(spec_decode_one(data) == Decoded::Done(v, spec_encode(v).len() as int));
        },
        ValueModel::BulkString(b) => {
            let t = int_text(b.len() as int);
            lemma_int_text_no_cr(b.len() as int);
            lemma_parse_int_text(b.len() as i64);
            let tail = b + crlf() + rest;
            assert(data =~= seq![36u8] + t + crlf() + tail);
            lemma_header_line(36u8, t, tail);
            let n = t.len() + 3int;
            assert(data[n - 1] == 10);
            assert(data[n + b.len()] == 13);
            assert(data[n + b.len() + 1] == 10);
            assert(data.subrange(n, n + b.len()) =~= b);
            assert(spec_decode_one(data) == Decoded::Done(v, spec_encode(v).len() as int));
        },
        ValueModel::Array(items) => {
            let t = int_text(items.len() as int);
            lemma_int_text_no_cr(items.len() as int);
            lemma_parse_int_text(items.len() as i64);
            let tail = spec_encode_items(items) + rest;
            assert(data =~= seq![42u8] + t + crlf() + tail);
            lemma_header_line(42u8, t, tail);
            let head = seq![42u8] + t + crlf();
            assert(data =~= head + spec_encode_items(items) + rest);
            lemma_decode_encode_items(items, head, rest);
            assert(spec_decode_one(data) == Decoded::Done(v, spec_encode(v).len() as int));
        },
        ValueModel::Null => {
            let t = seq![45u8, 49u8];
            assert(data =~= seq![36u8] + t + crlf() + rest);
            lemma_header_line(36u8, t, rest);
            assert(t.drop_first() =~= seq![49u8]);
            assert(all_digits(t.drop_first()));
            assert(seq![49u8].drop_last() =~= Seq::<u8>::empty());
            assert(seq![49u8].last() == 49u8);
            assert(crate::decimal::digits_value(Seq::<u8>::empty()) == 0);
            assert(crate::decimal::digits_value(seq![49u8]) == 1);
            assert(spec_decode_one(data) == Decoded::Done(v, spec_encode(v).len() as int));
        },
    }
}

/// Decoding the encodings of a run of encodable values, after some prefix
/// and followed by anything, gives the values back.
pub proof fn lemma_decode_encode_items(items: Seq<ValueModel>, prefix: Seq<u8>, rest: Seq<u8>)
    requires
        forall|i: int| 0 <= i < items.len() ==> encodable(#[trigger] items[i]),
    ensures
        spec_decode_items(
            prefix + spec_encode_items(items) + rest,
            prefix.len() as int,
            items.len() as int,
        ) == DecodedItems::Done(items, prefix.len() + spec_encode_items(items).len() as int),
    decreases items, 0int,
{
    let data = prefix + spec_encode_items(items) + rest;
    if items.len() == 0 {
        assert(items =~= Seq::<ValueModel>::empty());
    } else {
        let first = items[0];
        let others = items.subrange(1, items.len() as int);
        let e = spec_encode(first);
        let after = spec_encode_items(others) + rest;
        assert(data.subrange(prefix.len() as int, data.len() as int) =~= e + after);
        lemma_decode_encode(first, after);
        assert forall|i: int| 0 <= i < others.len() implies encodable(#[trigger] others[i]) by {
            assert(others[i] == items[i + 1]);
        }
        lemma_decode_encode_items(others, prefix + e, rest);
        assert(prefix + e + spec_encode_items(others) + rest =~= data);
        assert(seq![first] + others =~= items);
    }
}

} // verus!
