//! The decisions of the server loop: when the expiry sweep is due, and what
//! becomes of a client's input once it has been read.
use vstd::prelude::*;

use crate::processor::{ran, RespCommandProcessor};
use crate::protocol::CommandProcessor;
use crate::request::{spec_commands, Commands};
use crate::request_laws::lemma_commands_used;
use crate::resp::append_bytes;

verus! {

/// A client whose unparsed input grows past this many bytes is closed.
pub const MAX_INPUT_BUFFER: usize = 67108864;

/// The sweep is due once `interval_ms` have passed since the last one; a
/// clock that stands before the last sweep makes none due.
pub fn cleanup_due(now_ms: u128, last_cleanup_ms: u128, interval_ms: u128) -> (due: bool)
    ensures
        due == (now_ms >= last_cleanup_ms && now_ms - last_cleanup_ms >= interval_ms),
{
    now_ms >= last_cleanup_ms && now_ms - last_cleanup_ms >= interval_ms
}

/// One turn of serving a client whose bytes have been read into `input`:
/// unless the read failed or there is no input, runs the complete commands
/// at `now`, appends their replies to `out` and keeps only the bytes after
/// them. Says whether to close the client: after a failed read, on input
/// that holds something that is no command, or when more than
/// `MAX_INPUT_BUFFER` bytes are left.
pub fn client_step(
    p: &mut RespCommandProcessor,
    input: &mut Vec<u8>,
    read_failed: bool,
    now: i64,
    out: &mut Vec<u8>,
) -> (close: bool)
    requires
        old(p).ready(),
        old(input)@.len() < usize::MAX,
    ensures
        final(p).ready(),
        final(p).max_keys() == old(p).max_keys(),
        final(p).policy() == old(p).policy(),
        read_failed || old(input)@.len() == 0 ==> {
            &&& final(p).entries() == old(p).entries()
            &&& final(p).expiries() == old(p).expiries()
            &&& final(p).usage() == old(p).usage()
            &&& final(input)@ == old(input)@
            &&& final(out)@ == old(out)@
            &&& close == (read_failed || old(input)@.len() > MAX_INPUT_BUFFER)
        },
        !read_failed && old(input)@.len() > 0 ==> match spec_commands(old(input)@, 0) {
            Commands::Invalid => {
                &&& close
                &&& final(p).entries() == old(p).entries()
                &&& final(input)@ == old(input)@
                &&& final(out)@ == old(out)@
            },
            Commands::Done(cmds, used) => {
                &&& final(input)@ == old(input)@.subrange(used, old(input)@.len() as int)
                &&& close == (final(input)@.len() > MAX_INPUT_BUFFER)
                &&& ran(
                    cmds,
                    now,
                    old(p).max_keys(),
                    old(p).policy(),
                    (old(p).entries(), old(p).expiries(), old(p).usage()),
                    (final(p).entries(), final(p).expiries(), final(p).usage()),
                    old(out)@,
                    final(out)@,
                )
            },
        },
{
    if read_failed || input.len() == 0 {
        return read_failed || input.len() > MAX_INPUT_BUFFER;
    }
    proof {
        lemma_commands_used(input@, 0);
    }
    match p.process_at(input.as_slice(), now, out) {
        Ok(consumed) => {
            let mut rest: Vec<u8> = Vec::new();
            append_bytes(&mut rest, &input.as_slice()[consumed..input.len()]);
            *input = rest;
            input.len() > MAX_INPUT_BUFFER
        },
        Err(_) => true,
    }
}

} // verus!
