//! Splitting client input into commands.

use fast_kv::request::decode_commands;

fn words(parts: &[&str]) -> Vec<String> {
    parts.iter().map(|s| s.to_string()).collect()
}

#[test]
fn decode_commands_reads_arrays_and_inline_lines() {
    let data = b"*2\r\n$3\r\nGET\r\n$1\r\nk\r\nping\r\n  set  a   b \r\n\r\n";
    let (cmds, used) = decode_commands(data).unwrap();
    assert_eq!(
        cmds,
        vec![words(&["GET", "k"]), words(&["ping"]), words(&["set", "a", "b"])]
    );
    assert_eq!(used, data.len());
}

#[test]
fn decode_commands_leaves_a_partial_command() {
    let whole = b"*1\r\n$4\r\nPING\r\n".to_vec();
    let mut data = whole.clone();
    data.extend_from_slice(b"*2\r\n$3\r\nGET\r\n$1\r");
    let (cmds, used) = decode_commands(&data).unwrap();
    assert_eq!(cmds, vec![words(&["PING"])]);
    assert_eq!(used, whole.len());

    let (cmds, used) = decode_commands(b"PING").unwrap();
    assert!(cmds.is_empty());
    assert_eq!(used, 0);
}

#[test]
fn decode_commands_refuses_what_is_no_command() {
    assert!(decode_commands(b"*0\r\n").is_err());
    assert!(decode_commands(b"*1\r\n:5\r\n").is_err());
    assert!(decode_commands(b"*1\r\n$2\r\nabc\r\n").is_err());
    assert!(decode_commands(b"*x\r\n").is_err());
    assert!(decode_commands(b"*1\r\n$1\r\n\xff\r\n").is_err());
    assert!(decode_commands(b"*1\rX").is_err());
}

#[test]
fn decode_commands_of_nothing_is_nothing() {
    let (cmds, used) = decode_commands(b"").unwrap();
    assert!(cmds.is_empty());
    assert_eq!(used, 0);
}
