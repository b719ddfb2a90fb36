//! RESP2 values: their wire encoding and a decoder for one value.
use vstd::prelude::*;
use vstd::utf8::*;

use crate::decimal::{int_text, parse_i64, parse_i64_spec, push_int_text, push_nat_digits};
use crate::platform::{io_error, lossy_string, utf8_lossy, IoErrorKind};

verus! {

/// A RESP2 protocol value.
#[derive(Debug, PartialEq)]
pub enum Value {
    SimpleString(String),
    Error(String),
    Integer(i64),
    BulkString(Vec<u8>),
    Array(Vec<Value>),
    Null,
}

/// Mathematical model of a RESP value.
pub enum ValueModel {
    SimpleString(Seq<char>),
    Error(Seq<char>),
    Integer(i64),
    BulkString(Seq<u8>),
    Array(Seq<ValueModel>),
    Null,
}

/// The model of a value: strings by their characters, byte strings by their bytes.
pub open spec fn value_model(v: Value) -> ValueModel
    decreases v,
{
    match v {
        Value::SimpleString(s) => ValueModel::SimpleString(s@),
        Value::Error(s) => ValueModel::Error(s@),
        Value::Integer(n) => ValueModel::Integer(n),
        Value::BulkString(b) => ValueModel::BulkString(b@),
        Value::Array(items) => ValueModel::Array(
            Seq::new(
                items.len() as nat,
                |i: int|
                    if 0 <= i < items.len() {
                        value_model(items@[i])
                    } else {
                        ValueModel::Null
                    },
            ),
        ),
        Value::Null => ValueModel::Null,
    }
}

impl View for Value {
    type V = ValueModel;

    open spec fn view(&self) -> ValueModel {
        value_model(*self)
    }
}

pub open spec fn crlf() -> Seq<u8> {
    seq![13u8, 10u8]
}

/// The RESP2 bytes of a value.
pub open spec fn spec_encode(v: ValueModel) -> Seq<u8>
    decreases v,
{
    match v {
        ValueModel::SimpleString(s) => seq![43u8] + encode_utf8(s) + crlf(),
        ValueModel::Error(s) => seq![45u8] + encode_utf8(s) + crlf(),
        ValueModel::Integer(n) => seq![58u8] + int_text(n as int) + crlf(),
        ValueModel::BulkString(b) => seq![36u8] + int_text(b.len() as int) + crlf() + b + crlf(),
        ValueModel::Array(items) => seq![42u8] + int_text(items.len() as int) + crlf()
            + spec_encode_items(items),
        ValueModel::Null => seq![36u8, 45u8, 49u8] + crlf(),
    }
}

/// The RESP2 bytes of a sequence of values, one after another.
pub open spec fn spec_encode_items(items: Seq<ValueModel>) -> Seq<u8>
    decreases items,
{
    if items.len() == 0 {
        seq![]
    } else {
        spec_encode(items[0]) + spec_encode_items(items.subrange(1, items.len() as int))
    }
}

pub proof fn lemma_encode_items_push(items: Seq<ValueModel>, v: ValueModel)
    ensures
        spec_encode_items(items.push(v)) == spec_encode_items(items) + spec_encode(v),
    decreases items.len(),
{
    if items.len() == 0 {
        assert(items.push(v).subrange(1, 1) =~= Seq::<ValueModel>::empty());
        assert(spec_encode_items(Seq::<ValueModel>::empty()) == Seq::<u8>::empty());
        assert(spec_encode(v) + Seq::<u8>::empty() =~= spec_encode(v));
    } else {
        let rest = items.subrange(1, items.len() as int);
        lemma_encode_items_push(rest, v);
        assert(items.push(v).subrange(1, items.len() + 1int) =~= rest.push(v));
        assert(spec_encode(items[0]) + (spec_encode_items(rest) + spec_encode(v)) =~= (
        spec_encode(items[0]) + spec_encode_items(rest)) + spec_encode(v));
    }
}

/// Appends `bytes` to `out`.
pub fn append_bytes(out: &mut Vec<u8>, bytes: &[u8])
    ensures
        final(out)@ == old(out)@ + bytes@,
{
    let mut i: usize = 0;
    while i < bytes.len()
        invariant
            i <= bytes@.len(),
            out@ == old(out)@ + bytes@.subrange(0, i as int),
        decreases bytes@.len() - i,
    {
        out.push(bytes[i]);
        i = i + 1;
        assert(out@ =~= old(out)@ + bytes@.subrange(0, i as int));
    }
    assert(bytes@.subrange(0, bytes@.len() as int) =~= bytes@);
}

fn push_crlf(out: &mut Vec<u8>)
    ensures
        final(out)@ == old(out)@ + crlf(),
{
    out.push(13u8);
    out.push(10u8);
    assert(out@ =~= old(out)@ + crlf());
}

/// Appends the RESP2 bytes of `value` to `out`.
pub fn encode_into(value: &Value, out: &mut Vec<u8>)
    ensures
        final(out)@ == old(out)@ + spec_encode(value@),
    decreases value,
{
    broadcast use vstd::std_specs::vec::axiom_vec_index_decreases;

    match value {
        Value::SimpleString(s) => {
            out.push(43u8);
            append_bytes(out, s.as_str().as_bytes());
            push_crlf(out);
            assert(out@ =~= old(out)@ + spec_encode(value@));
        },
        Value::Error(s) => {
            out.push(45u8);
            append_bytes(out, s.as_str().as_bytes());
            push_crlf(out);
            assert(out@ =~= old(out)@ + spec_encode(value@));
        },
        Value::Integer(n) => {
            out.push(58u8);
            push_int_text(*n, out);
            push_crlf(out);
            assert(out@ =~= old(out)@ + spec_encode(value@));
        },
        Value::BulkString(b) => {
            out.push(36u8);
            push_nat_digits(b.len() as u64, out);
            push_crlf(out);
            append_bytes(out, b.as_slice());
            push_crlf(out);
            assert(out@ =~= old(out)@ + spec_encode(value@));
        },
        Value::Array(items) => {
            out.push(42u8);
            push_nat_digits(items.len() as u64, out);
            push_crlf(out);
            let ghost views = Seq::new(
                items.len() as nat,
                |i: int|
                    if 0 <= i < items.len() {
                        items@[i]@
                    } else {
                        ValueModel::Null
                    },
            );
            assert(value@ == ValueModel::Array(views)) by {
                assert(value@ is Array);
                let s = value@->Array_0;
                assert(s.len() == views.len());
                assert(forall|j: int| 0 <= j < s.len() ==> s[j] == views[j]);
                assert(s =~= views);
            }
            let ghost head = out@;
            let mut i: usize = 0;
            while i < items.len()
                invariant
                    *value == Value::Array(*items),
                    i <= items@.len(),
                    views.len() == items@.len(),
                    forall|j: int| 0 <= j < items@.len() ==> views[j] == #[trigger] items@[j]@,
                    out@ == head + spec_encode_items(views.subrange(0, i as int)),
                decreases items@.len() - i,
            {
                proof {
                    assert(decreases_to!(*items => items@[i as int]));
                    assert(decreases_to!(*value => (*value)->Array_0));
                    assert(decreases_to!(*value => items@[i as int]));
                }
                encode_into(&items[i], out);
                proof {
                    lemma_encode_items_push(views.subrange(0, i as int), views[i as int]);
                    assert(views.subrange(0, i as int).push(views[i as int]) =~= views.subrange(
                        0,
                        i + 1,
                    ));
                }
                i = i + 1;
                assert(out@ =~= head + spec_encode_items(views.subrange(0, i as int)));
            }
            assert(views.subrange(0, items@.len() as int) =~= views);
            assert(out@ =~= old(out)@ + spec_encode(value@));
        },
        Value::Null => {
            out.push(36u8);
            out.push(45u8);
            out.push(49u8);
            push_crlf(out);
            assert(out@ =~= old(out)@ + spec_encode(value@));
        },
    }
}

/// The RESP2 bytes of `value`.
pub fn encode(value: &Value) -> (r: Vec<u8>)
    ensures
        r@ == spec_encode(value@),
{
    let mut out: Vec<u8> = Vec::new();
    encode_into(value, &mut out);
    assert(out@ =~= spec_encode(value@));
    out
}


/// Index of the first carriage return at or after `from`, or the length of
/// `data` when there is none.
pub open spec fn line_end(data: Seq<u8>, from: int) -> int
    decreases data.len() - from,
{
    if from < 0 || from >= data.len() {
        data.len() as int
    } else if data[from] == 13 {
        from
    } else {
        line_end(data, from + 1)
    }
}

pub proof fn lemma_line_end(data: Seq<u8>, from: int)
    requires
        0 <= from <= data.len(),
    ensures
        from <= line_end(data, from) <= data.len(),
        line_end(data, from) < data.len() ==> data[line_end(data, from)] == 13,
        forall|j: int| from <= j < line_end(data, from) ==> data[j] != 13,
    decreases data.len() - from,
{
    if from < data.len() && data[from] != 13 {
        lemma_line_end(data, from + 1);
    }
}

/// The text of the first line after the type byte, and how many bytes the
/// line takes with its two-byte terminator. `None` when no carriage return
/// follows the type byte.
pub open spec fn header_line(data: Seq<u8>) -> Option<(Seq<u8>, int)> {
    let p = line_end(data, 1);
    if p >= data.len() {
        None
    } else {
        Some((data.subrange(1, p), p + 2))
    }
}

/// What decoding one value from the front of some bytes gives: the value and
/// how many bytes it took, a refusal, or an integer line whose text is no
/// `i64` (on which this decoder is not defined).
pub enum Decoded {
    Done(ValueModel, int),
    Invalid,
    BadInteger,
}

/// What decoding a given number of values one after another gives.
pub enum DecodedItems {
    Done(Seq<ValueModel>, int),
    Invalid,
    BadInteger,
}

pub open spec fn prepend_items(front: Seq<ValueModel>, r: DecodedItems) -> DecodedItems {
    match r {
        DecodedItems::Done(items, end) => DecodedItems::Done(front + items, end),
        other => other,
    }
}

/// The text that lossy UTF-8 decoding gives: the decoded characters of valid
/// UTF-8, and otherwise what `String::from_utf8_lossy` makes of the bytes.
pub open spec fn lossy_text(bytes: Seq<u8>) -> Seq<char> {
    if valid_utf8(bytes) {
        decode_utf8(bytes)
    } else {
        utf8_lossy(bytes)
    }
}

pub open spec fn spec_decode_simple_string(data: Seq<u8>) -> Decoded {
    match header_line(data) {
        Some((text, n)) => Decoded::Done(ValueModel::SimpleString(lossy_text(text)), n),
        None => Decoded::Invalid,
    }
}

pub open spec fn spec_decode_error(data: Seq<u8>) -> Decoded {
    match header_line(data) {
        Some((text, n)) => Decoded::Done(ValueModel::Error(lossy_text(text)), n),
        None => Decoded::Invalid,
    }
}

pub open spec fn spec_decode_integer(data: Seq<u8>) -> Decoded {
    match header_line(data) {
        Some((text, n)) => match parse_i64_spec(text) {
            Some(v) => Decoded::Done(ValueModel::Integer(v), n),
            None => Decoded::BadInteger,
        },
        None => Decoded::Invalid,
    }
}

pub open spec fn spec_decode_bulk_string(data: Seq<u8>) -> Decoded {
    match header_line(data) {
        Some((text, n)) => match parse_i64_spec(text) {
            Some(len) => if len == -1 {
                Decoded::Done(ValueModel::Null, n)
            } else if len < 0 {
                Decoded::Invalid
            } else if n + len + 2 <= data.len() && data[n - 1] == 10 && data[n + len] == 13 && data[n
                + len + 1] == 10 {
                Decoded::Done(ValueModel::BulkString(data.subrange(n, n + len)), n + len + 2)
            } else {
                Decoded::Invalid
            },
            None => Decoded::Invalid,
        },
        None => Decoded::Invalid,
    }
}

pub open spec fn array_of(r: DecodedItems) -> Decoded {
    match r {
        DecodedItems::Done(items, end) => Decoded::Done(ValueModel::Array(items), end),
        DecodedItems::Invalid => Decoded::Invalid,
        DecodedItems::BadInteger => Decoded::BadInteger,
    }
}

pub open spec fn spec_decode_array(data: Seq<u8>) -> Decoded
    decreases data.len(), 1int, 0int,
{
    match header_line(data) {
        Some((text, n)) => match parse_i64_spec(text) {
            Some(count) => if count == -1 {
                Decoded::Done(ValueModel::Null, n)
            } else if count < 0 || n <= 0 || n > data.len() {
                Decoded::Invalid
            } else {
                array_of(spec_decode_items(data, n, count as int))
            },
            None => Decoded::Invalid,
        },
        None => Decoded::Invalid,
    }
}

/// Decodes `count` values one after another, starting at `off`.
pub open spec fn spec_decode_items(data: Seq<u8>, off: int, count: int) -> DecodedItems
    decreases data.len() - off, 3int, count,
{
    if count <= 0 {
        DecodedItems::Done(seq![], off)
    } else if off < 0 || off > data.len() {
        DecodedItems::Invalid
    } else {
        match spec_decode_one(data.subrange(off, data.len() as int)) {
            Decoded::Done(v, m) => if m < 0 || off + m > data.len() {
                DecodedItems::Invalid
            } else {
                prepend_items(seq![v], spec_decode_items(data, off + m, count - 1))
            },
            Decoded::Invalid => DecodedItems::Invalid,
            Decoded::BadInteger => DecodedItems::BadInteger,
        }
    }
}

/// Decodes the value at the front of `data` by its type byte.
pub open spec fn spec_decode_one(data: Seq<u8>) -> Decoded
    decreases data.len(), 2int, 0int,
{
    if data.len() == 0 {
        Decoded::Invalid
    } else if data[0] == 43 {
        spec_decode_simple_string(data)
    } else if data[0] == 45 {
        spec_decode_error(data)
    } else if data[0] == 58 {
        spec_decode_integer(data)
    } else if data[0] == 36 {
        spec_decode_bulk_string(data)
    } else if data[0] == 42 {
        spec_decode_array(data)
    } else {
        Decoded::Invalid
    }
}

/// The decoder's result agrees with the model of decoding.
pub open spec fn decode_agrees(r: Result<(Value, usize), std::io::Error>, d: Decoded) -> bool {
    match d {
        Decoded::Done(v, n) => r matches Ok((value, used)) && value@ == v && used == n,
        _ => r is Err,
    }
}

fn invalid_data() -> std::io::Error {
    io_error(IoErrorKind::InvalidData, "Invalid data")
}

/// Finds the first carriage return after the type byte.
fn find_line_end(data: &[u8]) -> (p: usize)
    ensures
        p == line_end(data@, 1),
        p <= data@.len(),
        data@.len() > 0 ==> 1 <= p,
{
    proof {
        if data@.len() > 0 {
            lemma_line_end(data@, 1);
        }
    }
    let mut pos: usize = 1;
    if data.len() == 0 {
        return 0;
    }
    while pos < data.len() && data[pos] != 13u8
        invariant
            1 <= pos <= data@.len(),
            line_end(data@, 1) == line_end(data@, pos as int),
        decreases data@.len() - pos,
    {
        pos = pos + 1;
    }
    pos
}

pub fn decode_simple_string(data: &[u8]) -> (r: Result<(Value, usize), std::io::Error>)
    requires
        data@.len() < usize::MAX,
    ensures
        decode_agrees(r, spec_decode_simple_string(data@)),
{
    let pos = find_line_end(data);
    if pos >= data.len() {
        return Err(invalid_data());
    }
    Ok((Value::SimpleString(lossy_string(&data[1..pos])), pos + 2))
}

pub fn decode_error(data: &[u8]) -> (r: Result<(Value, usize), std::io::Error>)
    requires
        data@.len() < usize::MAX,
    ensures
        decode_agrees(r, spec_decode_error(data@)),
{
    let pos = find_line_end(data);
    if pos >= data.len() {
        return Err(invalid_data());
    }
    Ok((Value::Error(lossy_string(&data[1..pos])), pos + 2))
}

pub fn decode_integer(data: &[u8]) -> (r: Result<(Value, usize), std::io::Error>)
    requires
        data@.len() < usize::MAX,
        !(spec_decode_integer(data@) is BadInteger),
    ensures
        decode_agrees(r, spec_decode_integer(data@)),
{
    let pos = find_line_end(data);
    if pos >= data.len() {
        return Err(invalid_data());
    }
    match parse_i64(&data[1..pos]) {
        Some(v) => Ok((Value::Integer(v), pos + 2)),
        None => Err(invalid_data()),
    }
}

pub fn decode_bulk_string(data: &[u8]) -> (r: Result<(Value, usize), std::io::Error>)
    requires
        data@.len() < usize::MAX,
    ensures
        decode_agrees(r, spec_decode_bulk_string(data@)),
{
    let pos = find_line_end(data);
    if pos >= data.len() {
        return Err(invalid_data());
    }
    let len = match parse_i64(&data[1..pos]) {
        Some(v) => v,
        None => {
            return Err(invalid_data());
        },
    };
    let n = pos + 2;
    if len == -1 {
        return Ok((Value::Null, n));
    }
    if len < 0 || n > data.len() {
        return Err(invalid_data());
    }
    let rest = data.len() - n;
    if (len as u64) > (rest as u64) || rest - (len as usize) < 2 {
        return Err(invalid_data());
    }
    let end = n + len as usize;
    if data[n - 1] != 10u8 || data[end] != 13u8 || data[end + 1] != 10u8 {
        return Err(invalid_data());
    }
    let mut body: Vec<u8> = Vec::new();
    append_bytes(&mut body, &data[n..end]);
    Ok((Value::BulkString(body), end + 2))
}

pub fn decode_array(data: &[u8]) -> (r: Result<(Value, usize), std::io::Error>)
    requires
        data@.len() < usize::MAX,
        !(spec_decode_array(data@) is BadInteger),
    ensures
        decode_agrees(r, spec_decode_array(data@)),
    decreases data@.len(), 0int,
{
    let pos = find_line_end(data);
    if pos >= data.len() {
        return Err(invalid_data());
    }
    let count = match parse_i64(&data[1..pos]) {
        Some(v) => v,
        None => {
            return Err(invalid_data());
        },
    };
    let n = pos + 2;
    if count == -1 {
        return Ok((Value::Null, n));
    }
    if count < 0 || n > data.len() {
        return Err(invalid_data());
    }
    let total = count as u64;
    proof {
        assert(prepend_items(seq![], spec_decode_items(data@, n as int, count as int))
            == spec_decode_items(data@, n as int, count as int)) by {
            match spec_decode_items(data@, n as int, count as int) {
                DecodedItems::Done(s, e) => {
                    assert(Seq::<ValueModel>::empty() + s =~= s);
                },
                _ => {},
            }
        }
    }
    let mut items: Vec<Value> = Vec::new();
    let ghost mut acc: Seq<ValueModel> = seq![];
    let mut off: usize = n;
    let mut i: u64 = 0;
    while i < total
        invariant
            data@.len() < usize::MAX,
            3 <= n <= off,
            i <= total,
            total == count,
            count >= 0,
            n == line_end(data@, 1) + 2,
            acc.len() == items@.len(),
            forall|j: int| 0 <= j < acc.len() ==> acc[j] == #[trigger] items@[j]@,
            spec_decode_items(data@, n as int, count as int) == prepend_items(
                acc,
                spec_decode_items(data@, off as int, count - i),
            ),
            !(spec_decode_items(data@, n as int, count as int) is BadInteger),
            spec_decode_array(data@) == array_of(spec_decode_items(data@, n as int, count as int)),
        decreases total - i,
    {
        if off > data.len() {
            return Err(invalid_data());
        }
        let rest = &data[off..data.len()];
        proof {
            assert(rest@ == data@.subrange(off as int, data@.len() as int));
        }
        let (v, m) = match decode_one(rest) {
            Ok(x) => x,
            Err(e) => {
                return Err(e);
            },
        };
        if m > data.len() - off {
            return Err(invalid_data());
        }
        proof {
            assert(prepend_items(acc, prepend_items(seq![v@], spec_decode_items(data@, off + m, count - i - 1)))
                == prepend_items(acc.push(v@), spec_decode_items(data@, off + m, count - i - 1)))
                by {
                match spec_decode_items(data@, off + m, count - i - 1) {
                    DecodedItems::Done(s, e) => {
                        assert(acc + (seq![v@] + s) =~= acc.push(v@) + s);
                    },
                    _ => {},
                }
            }
            acc = acc.push(v@);
        }
        items.push(v);
        off = off + m;
        i = i + 1;
    }
    let ghost item_vals = items;
    let result = Value::Array(items);
    proof {
        assert(result@ == ValueModel::Array(acc)) by {
            let s = result@->Array_0;
            assert(s.len() == acc.len());
            assert forall|j: int| 0 <= j < s.len() implies s[j] == acc[j] by {
                assert(acc[j] == item_vals@[j]@);
            }
            assert(s =~= acc);
        }
    }
    Ok((result, off))
}

/// Decodes the value at the front of `data`, with how many bytes it took.
pub fn decode_one(data: &[u8]) -> (r: Result<(Value, usize), std::io::Error>)
    requires
        data@.len() < usize::MAX,
        !(spec_decode_one(data@) is BadInteger),
    ensures
        decode_agrees(r, spec_decode_one(data@)),
    decreases data@.len(), 1int,
{
    if data.len() == 0 {
        return Err(io_error(IoErrorKind::InvalidData, "Empty data"));
    }
    let tag = data[0];
    if tag == 43u8 {
        decode_simple_string(data)
    } else if tag == 45u8 {
        decode_error(data)
    } else if tag == 58u8 {
        decode_integer(data)
    } else if tag == 36u8 {
        decode_bulk_string(data)
    } else if tag == 42u8 {
        decode_array(data)
    } else {
        Err(invalid_data())
    }
}

/// Decodes the value at the front of `data`.
pub fn decode(data: &[u8]) -> (r: Result<Value, std::io::Error>)
    requires
        data@.len() < usize::MAX,
        !(spec_decode_one(data@) is BadInteger),
    ensures
        match spec_decode_one(data@) {
            Decoded::Done(v, _) => r matches Ok(value) && value@ == v,
            _ => r is Err,
        },
{
    if data.len() == 0 {
        return Err(io_error(IoErrorKind::InvalidData, "Empty data"));
    }
    match decode_one(data) {
        Ok((value, _)) => Ok(value),
        Err(e) => Err(e),
    }
}

} // verus!
