//! The chain: the blocks mined so far, the difficulty asked of the next
//! one, and the pool of transactions that wait for a block.

use vstd::prelude::*;
use crate::block::Block;
use crate::mempool::MemPool;

verus! {

/// A chain of blocks with the pool of transactions that wait for a block.
#[derive(Debug, Clone)]
pub struct BlockChain {
    pub blocks: Vec<Block>,
    pub difficulty: u32,
    pub mempool: MemPool,
}

} // verus!
