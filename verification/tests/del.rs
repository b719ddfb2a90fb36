//! DEL compatibility tests.
//!
//! Cases after Redis `tests/unit/keyspace.tcl`:
//! - "DEL against a single item"
//! - "Vararg DEL"
//! - "Zero length value in key. SET/GET/EXISTS" (DEL portion)

use fast_kv::processor::RespCommandProcessor;
use fast_kv::resp::{decode, Value};

/// Drives a processor with RESP requests on a clock that the test moves.
struct RedisTestClient {
    processor: RespCommandProcessor,
    now: i64,
}

#[allow(dead_code)]
impl RedisTestClient {
    fn new() -> Self {
        RedisTestClient {
            processor: RespCommandProcessor::new(1000, None),
            now: 1_700_000_000_000,
        }
    }

    fn cmd(&mut self, parts: &[&str]) -> Value {
        let request = encode_cmd(parts);
        let mut out = Vec::new();
        let used = self
            .processor
            .process_at(&request, self.now, &mut out)
            .expect("command should not close connection");
        assert_eq!(used, request.len());
        decode(&out).expect("failed to decode response")
    }

    fn cmd_ok(&mut self, parts: &[&str]) {
        assert_eq!(self.cmd(parts), Value::SimpleString("OK".to_string()));
    }

    fn cmd_bulk(&mut self, parts: &[&str], expected: &str) {
        assert_eq!(
            self.cmd(parts),
            Value::BulkString(expected.as_bytes().to_vec())
        );
    }

    fn cmd_null(&mut self, parts: &[&str]) {
        assert_eq!(self.cmd(parts), Value::Null);
    }

    fn cmd_integer(&mut self, parts: &[&str], expected: i64) {
        assert_eq!(self.cmd(parts), Value::Integer(expected));
    }

    fn cmd_error_contains(&mut self, parts: &[&str], needle: &str) {
        match self.cmd(parts) {
            Value::Error(msg) => assert!(
                msg.contains(needle),
                "expected error containing '{needle}', got '{msg}'"
            ),
            other => panic!("expected error containing '{needle}', got {other:?}"),
        }
    }

    fn sleep(&mut self, ms: u64) {
        self.now += ms as i64;
    }
}

fn encode_cmd(parts: &[&str]) -> Vec<u8> {
    let mut out = format!("*{}\r\n", parts.len());
    for part in parts {
        out.push_str(&format!("${}\r\n{}\r\n", part.len(), part));
    }
    out.into_bytes()
}

#[test]
fn del_against_a_single_item() {
    let mut r = RedisTestClient::new();
    r.cmd_ok(&["SET", "x", "foo"]);
    r.cmd_bulk(&["GET", "x"], "foo");
    r.cmd_integer(&["DEL", "x"], 1);
    r.cmd_null(&["GET", "x"]);
}

#[test]
fn vararg_del() {
    let mut r = RedisTestClient::new();
    r.cmd_ok(&["SET", "foo1", "a"]);
    r.cmd_ok(&["SET", "foo2", "b"]);
    r.cmd_ok(&["SET", "foo3", "c"]);
    r.cmd_integer(&["DEL", "foo1", "foo2", "foo3", "foo4"], 3);
    r.cmd_null(&["GET", "foo1"]);
    r.cmd_null(&["GET", "foo2"]);
    r.cmd_null(&["GET", "foo3"]);
}

#[test]
fn del_against_missing_key_returns_zero() {
    let mut r = RedisTestClient::new();
    r.cmd_integer(&["DEL", "nokey"], 0);
}

#[test]
fn del_without_arguments_returns_error() {
    let mut r = RedisTestClient::new();
    r.cmd_error_contains(&["DEL"], "wrong number of arguments");
}

#[test]
fn del_zero_length_value() {
    let mut r = RedisTestClient::new();
    r.cmd_ok(&["SET", "emptykey", ""]);
    r.cmd_bulk(&["GET", "emptykey"], "");
    r.cmd_integer(&["DEL", "emptykey"], 1);
    r.cmd_null(&["GET", "emptykey"]);
}

#[test]
fn del_against_expired_key() {
    let mut r = RedisTestClient::new();
    r.cmd_ok(&["SET", "keyExpire", "valExpire", "EX", "1"]);
    r.sleep(1100);
    r.cmd_integer(&["DEL", "keyExpire"], 0);
}
