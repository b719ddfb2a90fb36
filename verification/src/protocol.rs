//! What the server asks of a command processor.
use vstd::prelude::*;

verus! {

pub trait CommandProcessor {
    /// The processor is ready to take input.
    spec fn ready(&self) -> bool;

    /// Parses and executes the complete commands in `data`, appending RESP
    /// responses to `out`. Returns how many bytes of `data` were consumed;
    /// a trailing partial command is left for the caller to retry with more
    /// bytes.
    fn process(&mut self, data: &[u8], out: &mut Vec<u8>) -> (r: Result<usize, std::io::Error>)
        requires
            old(self).ready(),
            data@.len() < usize::MAX,
        ensures
            final(self).ready(),
    ;

    /// Removes keys whose expiry time has come.
    fn cleanup_expired_keys(&mut self) -> (r: Result<(), std::io::Error>)
        requires
            old(self).ready(),
        ensures
            final(self).ready(),
    ;
}

} // verus!
