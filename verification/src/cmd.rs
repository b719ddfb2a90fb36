//! A parsed command: its name and its arguments.
use vstd::prelude::*;

verus! {

pub struct RedisCommand {
    pub cmd: String,
    pub args: Vec<String>,
}

impl RedisCommand {
    pub fn new(cmd: String, args: Vec<String>) -> (r: Self)
        ensures
            r.cmd == cmd,
            r.args == args,
    {
        RedisCommand { cmd, args }
    }
}

} // verus!
