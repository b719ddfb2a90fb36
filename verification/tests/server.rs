//! The decisions of the server loop.

use fast_kv::processor::RespCommandProcessor;
use fast_kv::server::{cleanup_due, client_step, MAX_INPUT_BUFFER};

#[test]
fn cleanup_due_after_the_interval() {
    assert!(cleanup_due(2_000, 1_000, 1_000));
    assert!(cleanup_due(2_500, 1_000, 1_000));
    assert!(!cleanup_due(1_999, 1_000, 1_000));
    // A clock behind the last sweep makes none due.
    assert!(!cleanup_due(500, 1_000, 0));
}

#[test]
fn client_step_runs_complete_commands_and_keeps_the_rest() {
    let mut p = RespCommandProcessor::new(1000, None);
    let mut input = b"PING\r\n*1\r\n$4\r\nPI".to_vec();
    let mut out = Vec::new();
    let close = client_step(&mut p, &mut input, false, 5, &mut out);
    assert!(!close);
    assert_eq!(out, b"+PONG\r\n".to_vec());
    assert_eq!(input, b"*1\r\n$4\r\nPI".to_vec());
}

#[test]
fn client_step_closes_on_bad_input_or_failed_read() {
    let mut p = RespCommandProcessor::new(1000, None);
    let mut input = b"*1\r\n:1\r\n".to_vec();
    let mut out = Vec::new();
    assert!(client_step(&mut p, &mut input, false, 5, &mut out));
    assert!(out.is_empty());
    assert_eq!(input, b"*1\r\n:1\r\n".to_vec());

    let mut input = b"PING\r\n".to_vec();
    assert!(client_step(&mut p, &mut input, true, 5, &mut out));
    assert!(out.is_empty());
    assert_eq!(input, b"PING\r\n".to_vec());
}

#[test]
fn client_step_closes_when_too_much_is_left() {
    let mut p = RespCommandProcessor::new(1000, None);
    let mut input = vec![b'a'; MAX_INPUT_BUFFER + 1];
    let mut out = Vec::new();
    assert!(client_step(&mut p, &mut input, false, 5, &mut out));
    assert_eq!(input.len(), MAX_INPUT_BUFFER + 1);
}
