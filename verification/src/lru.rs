//! The LRU eviction strategy; the store itself picks LRU victims, so this
//! strategy has nothing to do.
use vstd::prelude::*;

use crate::evict::Evict;

verus! {

pub struct LRUEvict;

impl Evict for LRUEvict {
    fn evict(&self, key: &str) -> (r: Result<(), std::io::Error>)
        ensures
            r is Ok,
    {
        Ok(())
    }
}

} // verus!
