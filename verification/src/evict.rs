//! Eviction of one key, as a trait for eviction strategies.
use vstd::prelude::*;

verus! {

pub trait Evict {
    fn evict(&self, key: &str) -> Result<(), std::io::Error>;
}

} // verus!
