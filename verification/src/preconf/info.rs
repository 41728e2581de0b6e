//! What the builder tells of a slot that it builds for.
use vstd::prelude::*;

verus! {

/// A slot that a block is built for.
#[derive(Debug, Clone, Copy, PartialEq, Eq)]
pub struct PreconfInfo {
    pub block_number: u64,
    pub slot: u64,
    pub timestamp: Option<u64>,
}

} // verus!
