//! The request pipeline.

use fast_kv::processor::RespCommandProcessor;
use fast_kv::protocol::CommandProcessor;

#[test]
fn pipelined_commands_answer_in_order() {
    let mut p = RespCommandProcessor::new(1000, None);
    let data = b"*3\r\n$3\r\nset\r\n$1\r\nk\r\n$1\r\nv\r\n*2\r\n$3\r\nget\r\n$1\r\nk\r\nPING\r\n";
    let mut out = Vec::new();
    let used = p.process_at(data, 5, &mut out).unwrap();
    assert_eq!(used, data.len());
    assert_eq!(out, b"+OK\r\n$1\r\nv\r\n+PONG\r\n".to_vec());
}

#[test]
fn partial_command_waits_for_more_bytes() {
    let mut p = RespCommandProcessor::new(1000, None);
    let first = b"*1\r\n$4\r\nPING\r\n*2\r\n$4\r\nECHO";
    let mut out = Vec::new();
    let used = p.process_at(first, 5, &mut out).unwrap();
    assert_eq!(used, 14);
    assert_eq!(out, b"+PONG\r\n".to_vec());
    let mut rest = first[used..].to_vec();
    rest.extend_from_slice(b"\r\n$2\r\nhi\r\n");
    let mut out = Vec::new();
    let used = p.process_at(&rest, 5, &mut out).unwrap();
    assert_eq!(used, rest.len());
    assert_eq!(out, b"$2\r\nhi\r\n".to_vec());
}

#[test]
fn malformed_input_is_an_error_and_runs_nothing() {
    let mut p = RespCommandProcessor::new(1000, None);
    let mut out = Vec::new();
    assert!(p.process_at(b"*1\r\n:1\r\n", 5, &mut out).is_err());
    assert!(out.is_empty());
}

#[test]
fn unknown_command_is_answered_as_ping() {
    let mut p = RespCommandProcessor::new(1000, None);
    let mut out = Vec::new();
    p.process_at(b"HELLO there\r\n", 5, &mut out).unwrap();
    assert_eq!(out, b"$5\r\nthere\r\n".to_vec());
}

#[test]
fn process_uses_the_system_clock() {
    let mut p = RespCommandProcessor::new(1000, None);
    let mut out = Vec::new();
    let data = b"SET k v EX 100\r\nTTL k\r\n";
    assert_eq!(p.process(data, &mut out).unwrap(), data.len());
    assert_eq!(out, b"+OK\r\n:100\r\n".to_vec());
    assert!(p.cleanup_expired_keys().is_ok());
}
