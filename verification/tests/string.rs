//! SET / GET compatibility tests.
//!
//! Cases after Redis `tests/unit/type/string.tcl`:
//! - "SET and GET an item"
//! - "SET and GET an empty item"
//! - "Zero length value in key. SET/GET/EXISTS" (keyspace.tcl, GET portion)
//! - "Extended SET EX option"
//! - "Extended SET PX option"

use fast_kv::processor::RespCommandProcessor;
use fast_kv::resp::{decode, Value};

/// Drives a processor with RESP requests on a clock that the test moves.
struct RedisTestClient {
    processor: RespCommandProcessor,
    now: i64,
}

#[allow(dead_code)]
impl RedisTestClient {
    fn new() -> Self {
        RedisTestClient {
            processor: RespCommandProcessor::new(1000, None),
            now: 1_700_000_000_000,
        }
    }

    fn cmd(&mut self, parts: &[&str]) -> Value {
        let request = encode_cmd(parts);
        let mut out = Vec::new();
        let used = self
            .processor
            .process_at(&request, self.now, &mut out)
            .expect("command should not close connection");
        assert_eq!(used, request.len());
        decode(&out).expect("failed to decode response")
    }

    fn cmd_ok(&mut self, parts: &[&str]) {
        assert_eq!(self.cmd(parts), Value::SimpleString("OK".to_string()));
    }

    fn cmd_bulk(&mut self, parts: &[&str], expected: &str) {
        assert_eq!(
            self.cmd(parts),
            Value::BulkString(expected.as_bytes().to_vec())
        );
    }

    fn cmd_null(&mut self, parts: &[&str]) {
        assert_eq!(self.cmd(parts), Value::Null);
    }

    fn cmd_integer(&mut self, parts: &[&str], expected: i64) {
        assert_eq!(self.cmd(parts), Value::Integer(expected));
    }

    fn cmd_error_contains(&mut self, parts: &[&str], needle: &str) {
        match self.cmd(parts) {
            Value::Error(msg) => assert!(
                msg.contains(needle),
                "expected error containing '{needle}', got '{msg}'"
            ),
            other => panic!("expected error containing '{needle}', got {other:?}"),
        }
    }

    fn sleep(&mut self, ms: u64) {
        self.now += ms as i64;
    }
}

fn encode_cmd(parts: &[&str]) -> Vec<u8> {
    let mut out = format!("*{}\r\n", parts.len());
    for part in parts {
        out.push_str(&format!("${}\r\n{}\r\n", part.len(), part));
    }
    out.into_bytes()
}

#[test]
fn set_and_get_an_item() {
    let mut r = RedisTestClient::new();
    r.cmd_ok(&["SET", "x", "foobar"]);
    r.cmd_bulk(&["GET", "x"], "foobar");
}

#[test]
fn set_and_get_an_empty_item() {
    let mut r = RedisTestClient::new();
    r.cmd_ok(&["SET", "x", ""]);
    r.cmd_bulk(&["GET", "x"], "");
}

#[test]
fn get_missing_key_returns_null() {
    let mut r = RedisTestClient::new();
    r.cmd_null(&["GET", "missing"]);
}

#[test]
fn get_wrong_number_of_arguments() {
    let mut r = RedisTestClient::new();
    r.cmd_error_contains(&["GET"], "wrong number of arguments");
}

#[test]
fn set_wrong_number_of_arguments() {
    let mut r = RedisTestClient::new();
    r.cmd_error_contains(&["SET", "k"], "wrong number of arguments");
    r.cmd_error_contains(&["SET", "k", "v", "EX"], "wrong number of arguments");
}

#[test]
fn set_ex_sets_ttl_in_seconds() {
    let mut r = RedisTestClient::new();
    r.cmd_ok(&["SET", "foo", "bar", "EX", "10"]);
    let ttl = match r.cmd(&["TTL", "foo"]) {
        Value::Integer(n) => n,
        other => panic!("expected integer TTL, got {other:?}"),
    };
    assert!(ttl > 5 && ttl <= 10, "ttl was {ttl}");
}

#[test]
fn set_px_sets_ttl_in_seconds() {
    let mut r = RedisTestClient::new();
    r.cmd_ok(&["SET", "foo", "bar", "PX", "10000"]);
    let ttl = match r.cmd(&["TTL", "foo"]) {
        Value::Integer(n) => n,
        other => panic!("expected integer TTL, got {other:?}"),
    };
    assert!(ttl > 5 && ttl <= 10, "ttl was {ttl}");
}

#[test]
fn set_ex_rejects_invalid_expire_time() {
    let mut r = RedisTestClient::new();
    r.cmd_error_contains(&["SET", "z", "foo", "EX", "-10"], "invalid expire");
}

#[test]
fn set_ex_rejects_non_integer_expire() {
    let mut r = RedisTestClient::new();
    r.cmd_error_contains(&["SET", "z", "foo", "EX", "abc"], "not an integer");
}

#[test]
fn set_rejects_unknown_expiry_unit() {
    let mut r = RedisTestClient::new();
    r.cmd_error_contains(&["SET", "k", "v", "NX", "10"], "syntax error");
}

#[test]
fn overwrite_existing_key() {
    let mut r = RedisTestClient::new();
    r.cmd_ok(&["SET", "k", "old"]);
    r.cmd_ok(&["SET", "k", "new"]);
    r.cmd_bulk(&["GET", "k"], "new");
}

#[test]
fn set_ex_key_expires() {
    let mut r = RedisTestClient::new();
    r.cmd_ok(&["SET", "y", "foo", "EX", "1"]);
    r.cmd_bulk(&["GET", "y"], "foo");
    r.sleep(1100);
    r.cmd_null(&["GET", "y"]);
}
