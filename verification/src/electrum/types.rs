//! Electrum types.
use vstd::prelude::*;

use crate::chain::Header;
use crate::hash::{Hash256, Txid};

verus! {

/// Block header with height.
#[derive(Debug, Clone, Copy, PartialEq, Eq, PartialOrd, Ord, Hash)]
pub struct BlockHeader {
    /// Block header.
    pub header: Header,
    /// The height of the block in the header.
    pub height: u32,
}

/// Block headers.
#[derive(Debug, PartialEq, Eq)]
pub struct BlockHeaders {
    /// The number of headers returned.
    pub count: usize,
    /// The deserialized headers returned by the server.
    pub headers: Vec<Header>,
    /// The server's maximum allowed headers per request.
    pub max: usize,
}

/// A transaction in the history of a script.
#[derive(Debug, Clone, Copy, PartialEq, Eq, PartialOrd, Ord, Hash)]
pub struct Tx {
    /// Transaction id.
    pub txid: Txid,
    /// The height of the block that confirms it; `0` or `-1` while no block does.
    pub height: i64,
}

impl Tx {
    /// Transaction id.
    pub fn txid(&self) -> (r: Txid)
        ensures
            r == self.txid,
    {
        self.txid
    }

    /// The height in Electrum's encoding: above zero once confirmed, `0` or `-1` before.
    pub fn electrum_height(&self) -> (r: i64)
        ensures
            r == self.height,
    {
        self.height
    }
}

/// Transaction Merkle.
#[derive(Debug, PartialEq, Eq)]
pub struct TransactionMerkel {
    /// The height of the block containing the transaction.
    pub block_height: u32,
    /// The Merkle branch connecting the transaction to the block root.
    pub merkle: Vec<Hash256>,
    /// The transaction's position in the block's Merkle tree.
    pub pos: usize,
}

} // verus!
