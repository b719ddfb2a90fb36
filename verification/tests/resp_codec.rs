//! RESP2 encoding and decoding of single values.

use fast_kv::resp::{
    decode, decode_array, decode_bulk_string, decode_error, decode_integer, decode_one,
    decode_simple_string, encode, Value,
};

#[test]
fn encode_writes_each_type() {
    assert_eq!(encode(&Value::SimpleString("OK".to_string())), b"+OK\r\n".to_vec());
    assert_eq!(encode(&Value::Error("ERR x".to_string())), b"-ERR x\r\n".to_vec());
    assert_eq!(encode(&Value::Integer(-42)), b":-42\r\n".to_vec());
    assert_eq!(encode(&Value::Integer(i64::MIN)), b":-9223372036854775808\r\n".to_vec());
    assert_eq!(encode(&Value::BulkString(b"foo".to_vec())), b"$3\r\nfoo\r\n".to_vec());
    assert_eq!(encode(&Value::BulkString(Vec::new())), b"$0\r\n\r\n".to_vec());
    assert_eq!(encode(&Value::Null), b"$-1\r\n".to_vec());
    assert_eq!(
        encode(&Value::Array(vec![Value::Integer(1), Value::BulkString(b"a".to_vec())])),
        b"*2\r\n:1\r\n$1\r\na\r\n".to_vec()
    );
}

#[test]
fn decode_reads_each_type() {
    assert_eq!(decode(b"+PONG\r\n").unwrap(), Value::SimpleString("PONG".to_string()));
    assert_eq!(decode(b"-ERR bad\r\n").unwrap(), Value::Error("ERR bad".to_string()));
    assert_eq!(decode(b":+7\r\n").unwrap(), Value::Integer(7));
    assert_eq!(decode(b"$5\r\nhello\r\n").unwrap(), Value::BulkString(b"hello".to_vec()));
    assert_eq!(decode(b"$-1\r\n").unwrap(), Value::Null);
    assert_eq!(decode(b"*-1\r\n").unwrap(), Value::Null);
    assert_eq!(
        decode(b"*2\r\n+a\r\n:2\r\n").unwrap(),
        Value::Array(vec![Value::SimpleString("a".to_string()), Value::Integer(2)])
    );
}

#[test]
fn decode_one_reports_bytes_taken() {
    let (v, n) = decode_one(b"+OK\r\n+next\r\n").unwrap();
    assert_eq!(v, Value::SimpleString("OK".to_string()));
    assert_eq!(n, 5);
    let (v, n) = decode_bulk_string(b"$2\r\nab\r\nzz").unwrap();
    assert_eq!(v, Value::BulkString(b"ab".to_vec()));
    assert_eq!(n, 8);
    let (v, n) = decode_integer(b":12\r\n").unwrap();
    assert_eq!(v, Value::Integer(12));
    assert_eq!(n, 5);
    let (v, n) = decode_error(b"-E\r\n").unwrap();
    assert_eq!(v, Value::Error("E".to_string()));
    assert_eq!(n, 4);
    let (v, n) = decode_simple_string(b"+\r\n").unwrap();
    assert_eq!(v, Value::SimpleString(String::new()));
    assert_eq!(n, 3);
    let (v, n) = decode_array(b"*0\r\n").unwrap();
    assert_eq!(v, Value::Array(Vec::new()));
    assert_eq!(n, 4);
}

#[test]
fn decode_refuses_malformed_input() {
    assert!(decode(b"").is_err());
    assert!(decode(b"?x\r\n").is_err());
    assert!(decode(b"+no end").is_err());
    assert!(decode(b"$3\r\nab\r\n").is_err());
    assert!(decode(b"$3\r\nabcd\r\n").is_err());
    assert!(decode(b"$x\r\nab\r\n").is_err());
    assert!(decode(b"$-2\r\n").is_err());
    assert!(decode(b"*2\r\n+a\r\n").is_err());
}

#[test]
fn decode_of_lossy_text_replaces_bad_bytes() {
    assert_eq!(
        decode(b"+a\xffb\r\n").unwrap(),
        Value::SimpleString("a\u{fffd}b".to_string())
    );
}

#[test]
fn decode_gives_back_what_encode_wrote() {
    let values = vec![
        Value::SimpleString("hello world".to_string()),
        Value::Error("ERR wrong number of arguments for 'get' command".to_string()),
        Value::Integer(i64::MAX),
        Value::Integer(0),
        Value::BulkString(b"bin\r\nary".to_vec()),
        Value::Null,
        Value::Array(vec![
            Value::Array(vec![Value::Integer(-1)]),
            Value::BulkString(Vec::new()),
            Value::SimpleString("\u{e9}t\u{e9}".to_string()),
        ]),
    ];
    for v in values {
        let bytes = encode(&v);
        assert_eq!(decode(&bytes).unwrap(), v);
        let (again, used) = decode_one(&bytes).unwrap();
        assert_eq!(again, v);
        assert_eq!(used, bytes.len());
    }
}
