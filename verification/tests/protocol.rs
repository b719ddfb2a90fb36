//! RESP protocol compatibility tests.
//!
//! Cases after Redis `tests/unit/protocol.tcl`:
//! - "Generic wrong number of args"
//! - "bulk reply protocol" (SET/GET integer and string encodings)

use fast_kv::processor::RespCommandProcessor;
use fast_kv::resp::{decode, Value};

/// Drives a processor with RESP requests on a clock that the test moves.
struct RedisTestClient {
    processor: RespCommandProcessor,
    now: i64,
}

#[allow(dead_code)]
impl RedisTestClient {
    fn new() -> Self {
        RedisTestClient {
            processor: RespCommandProcessor::new(1000, None),
            now: 1_700_000_000_000,
        }
    }

    fn cmd(&mut self, parts: &[&str]) -> Value {
        let request = encode_cmd(parts);
        let mut out = Vec::new();
        let used = self
            .processor
            .process_at(&request, self.now, &mut out)
            .expect("command should not close connection");
        assert_eq!(used, request.len());
        decode(&out).expect("failed to decode response")
    }

    fn cmd_ok(&mut self, parts: &[&str]) {
        assert_eq!(self.cmd(parts), Value::SimpleString("OK".to_string()));
    }

    fn cmd_bulk(&mut self, parts: &[&str], expected: &str) {
        assert_eq!(
            self.cmd(parts),
            Value::BulkString(expected.as_bytes().to_vec())
        );
    }

    fn cmd_null(&mut self, parts: &[&str]) {
        assert_eq!(self.cmd(parts), Value::Null);
    }

    fn cmd_integer(&mut self, parts: &[&str], expected: i64) {
        assert_eq!(self.cmd(parts), Value::Integer(expected));
    }

    fn cmd_error_contains(&mut self, parts: &[&str], needle: &str) {
        match self.cmd(parts) {
            Value::Error(msg) => assert!(
                msg.contains(needle),
                "expected error containing '{needle}', got '{msg}'"
            ),
            other => panic!("expected error containing '{needle}', got {other:?}"),
        }
    }

    fn sleep(&mut self, ms: u64) {
        self.now += ms as i64;
    }
}

fn encode_cmd(parts: &[&str]) -> Vec<u8> {
    let mut out = format!("*{}\r\n", parts.len());
    for part in parts {
        out.push_str(&format!("${}\r\n{}\r\n", part.len(), part));
    }
    out.into_bytes()
}

#[test]
fn bulk_reply_protocol_for_set_and_get() {
    let mut r = RedisTestClient::new();

    r.cmd_ok(&["SET", "crlf", "2"]);
    r.cmd_bulk(&["GET", "crlf"], "2");

    r.cmd_ok(&["SET", "crlf", "2147483647"]);
    r.cmd_bulk(&["GET", "crlf"], "2147483647");

    r.cmd_ok(&["SET", "crlf", "-2147483648"]);
    r.cmd_bulk(&["GET", "crlf"], "-2147483648");

    r.cmd_ok(&["SET", "crlf", "aaaaaaaaaaaaaaaa"]);
    r.cmd_bulk(&["GET", "crlf"], "aaaaaaaaaaaaaaaa");

    let long = "a".repeat(45);
    r.cmd_ok(&["SET", "crlf", &long]);
    r.cmd_bulk(&["GET", "crlf"], &long);

    r.cmd_integer(&["DEL", "crlf"], 1);
}

#[test]
fn commands_pipelining_style_sequence() {
    // keyspace.tcl "Commands pipelining" — SET k1, GET k1, PING in one session
    let mut r = RedisTestClient::new();
    r.cmd_ok(&["SET", "k1", "xyzk"]);
    r.cmd_bulk(&["GET", "k1"], "xyzk");
    assert_eq!(r.cmd(&["PING"]), Value::SimpleString("PONG".to_string()));
}

#[test]
fn set_then_get_preserves_binary_safe_values() {
    let mut r = RedisTestClient::new();
    let value = "Hello World";
    r.cmd_ok(&["SET", "msg", value]);
    r.cmd_bulk(&["GET", "msg"], value);
}
