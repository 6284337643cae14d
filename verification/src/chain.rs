//! Blocks, headers and the sparse chain of checkpoints.
use vstd::prelude::*;

use bdk_core::CheckPoint;

use crate::hash::{BlockHash, Hash256};
use crate::ordered::{Key, Value};

verus! {

/// A block, by its height and its hash.
#[derive(Debug, Clone, Copy, PartialEq, Eq, PartialOrd, Ord, Hash)]
pub struct BlockId {
    /// The height of the block.
    pub height: u32,
    /// The hash of the block.
    pub hash: BlockHash,
}

impl View for BlockId {
    type V = BlockId;

    open spec fn view(&self) -> BlockId {
        *self
    }
}

/// The block and the time of a confirmation.
#[derive(Debug, Clone, Copy, PartialEq, Eq, PartialOrd, Ord, Hash)]
pub struct ConfirmationBlockTime {
    /// The block that confirms.
    pub block_id: BlockId,
    /// The time of that block.
    pub confirmation_time: u64,
}

impl View for ConfirmationBlockTime {
    type V = ConfirmationBlockTime;

    open spec fn view(&self) -> ConfirmationBlockTime {
        *self
    }
}

impl Value for ConfirmationBlockTime {
    fn replica(&self) -> (r: Self) {
        *self
    }

    fn same(&self, other: &Self) -> (r: bool) {
        self.block_id.height == other.block_id.height && self.block_id.hash.same(
            &other.block_id.hash,
        ) && self.confirmation_time == other.confirmation_time
    }
}

/// Confirmations stand in the order of their height, then hash, then time.
impl Key for ConfirmationBlockTime {
    open spec fn before(a: ConfirmationBlockTime, b: ConfirmationBlockTime) -> bool {
        <((u32, Hash256), u64)>::before(
            ((a.block_id.height, a.block_id.hash), a.confirmation_time),
            ((b.block_id.height, b.block_id.hash), b.confirmation_time),
        )
    }

    proof fn before_irreflexive(a: ConfirmationBlockTime) {
        <((u32, Hash256), u64)>::before_irreflexive(
            ((a.block_id.height, a.block_id.hash), a.confirmation_time),
        );
    }

    proof fn before_transitive(
        a: ConfirmationBlockTime,
        b: ConfirmationBlockTime,
        c: ConfirmationBlockTime,
    ) {
        <((u32, Hash256), u64)>::before_transitive(
            ((a.block_id.height, a.block_id.hash), a.confirmation_time),
            ((b.block_id.height, b.block_id.hash), b.confirmation_time),
            ((c.block_id.height, c.block_id.hash), c.confirmation_time),
        );
    }

    proof fn before_total(a: ConfirmationBlockTime, b: ConfirmationBlockTime) {
        <((u32, Hash256), u64)>::before_total(
            ((a.block_id.height, a.block_id.hash), a.confirmation_time),
            ((b.block_id.height, b.block_id.hash), b.confirmation_time),
        );
    }

    fn precedes(&self, other: &Self) -> (r: bool) {
        let a = ((self.block_id.height, self.block_id.hash), self.confirmation_time);
        let b = ((other.block_id.height, other.block_id.hash), other.confirmation_time);
        a.precedes(&b)
    }
}

/// A block header.
#[derive(Debug, Clone, Copy, PartialEq, Eq, PartialOrd, Ord, Hash)]
pub struct Header {
    /// Block version.
    pub version: i32,
    /// Hash of the previous block.
    pub prev_blockhash: BlockHash,
    /// Root of the Merkle tree of the transactions.
    pub merkle_root: Hash256,
    /// Time of the block, in seconds.
    pub time: u32,
    /// Target, in compact form.
    pub bits: u32,
    /// Nonce.
    pub nonce: u32,
}

impl View for Header {
    type V = Header;

    open spec fn view(&self) -> Header {
        *self
    }
}

impl Value for Header {
    fn replica(&self) -> (r: Self) {
        *self
    }

    fn same(&self, other: &Self) -> (r: bool) {
        self.version == other.version && self.prev_blockhash.same(&other.prev_blockhash)
            && self.merkle_root.same(&other.merkle_root) && self.time == other.time && self.bits
            == other.bits && self.nonce == other.nonce
    }
}

/// The hash of the header with the given fields.
pub uninterp spec fn header_hash(
    version: i32,
    prev_blockhash: Hash256,
    merkle_root: Hash256,
    time: u32,
    bits: u32,
    nonce: u32,
) -> Hash256;

/// The block hash of a header.
pub open spec fn block_hash_of(h: Header) -> BlockHash {
    header_hash(h.version, h.prev_blockhash, h.merkle_root, h.time, h.bits, h.nonce)
}

impl Header {
    /// Calls `bitcoin::block::Header::block_hash`, which hashes the six fields of the header. The
    /// result is named by [`header_hash`]; nothing is said of its bytes.
    #[verifier::external_body]
    pub(crate) fn block_hash(&self) -> (r: BlockHash)
        ensures
            r@ == header_hash(
                self.version,
                self.prev_blockhash@,
                self.merkle_root@,
                self.time,
                self.bits,
                self.nonce,
            ),
    {
        let header = bitcoin::block::Header {
            version: bitcoin::block::Version::from_consensus(self.version),
            prev_blockhash: bitcoin::hashes::Hash::from_byte_array(self.prev_blockhash.bytes),
            merkle_root: bitcoin::hashes::Hash::from_byte_array(self.merkle_root.bytes),
            time: self.time,
            bits: bitcoin::CompactTarget::from_consensus(self.bits),
            nonce: self.nonce,
        };
        Hash256 { bytes: *bitcoin::hashes::Hash::as_byte_array(&header.block_hash()) }
    }
}

/// A chain of checkpoints, as `bdk_core` keeps it.
#[verifier::external_type_specification]
#[verifier::external_body]
pub struct ExCheckPoint(CheckPoint);

/// The blocks of a chain of checkpoints: the hash at each height that it has a block for.
pub uninterp spec fn checkpoint_blocks(cp: CheckPoint) -> Map<u32, Hash256>;

/// The blocks of a chain that may not be there.
pub open spec fn tip_blocks(tip: Option<CheckPoint>) -> Option<Map<u32, Hash256>> {
    match tip {
        Some(cp) => Some(checkpoint_blocks(cp)),
        None => None,
    }
}

/// The greatest height of a chain.
pub open spec fn is_top(blocks: Map<u32, Hash256>, height: u32) -> bool {
    blocks.contains_key(height) && forall|h: u32| #[trigger] blocks.contains_key(h) ==> h <= height
}

/// Whether a block can be put into a chain: it is in there already, or there is a lower block that
/// it can be linked to.
pub open spec fn insertable(blocks: Map<u32, Hash256>, block: BlockId) -> bool {
    (blocks.contains_key(block.height) && blocks[block.height] == block.hash) || (exists|h: u32|
        h < block.height && #[trigger] blocks.contains_key(h))
}

/// The chain once a block is put into it: where it holds another block at that height, that block
/// and all that follow it are gone.
pub open spec fn with_block(blocks: Map<u32, Hash256>, block: BlockId) -> Map<u32, Hash256> {
    if blocks.contains_key(block.height) && blocks[block.height] != block.hash {
        blocks.restrict(Set::new(|h: u32| h < block.height)).insert(block.height, block.hash)
    } else {
        blocks.insert(block.height, block.hash)
    }
}

/// The part of a chain that goes up to a height.
pub open spec fn up_to(blocks: Map<u32, Hash256>, height: u32) -> Map<u32, Hash256> {
    blocks.restrict(Set::new(|h: u32| h <= height))
}

/// The greatest height of a chain that has one.
pub open spec fn top_height(blocks: Map<u32, Hash256>) -> u32 {
    choose|height: u32| is_top(blocks, height)
}

/// A chain has one greatest height.
pub proof fn top_is_unique(blocks: Map<u32, Hash256>, height: u32)
    requires
        is_top(blocks, height),
    ensures
        height == top_height(blocks),
{
    let top = top_height(blocks);
    assert(is_top(blocks, top));
    assert(blocks.contains_key(top) && blocks.contains_key(height));
}

/// A chain of one block.
pub open spec fn one_block(block: BlockId) -> Map<u32, Hash256> {
    Map::<u32, Hash256>::empty().insert(block.height, block.hash)
}

/// Calls `bdk_core::CheckPoint::new`: a chain of one block.
#[verifier::external_body]
pub(crate) fn checkpoint_new(block: BlockId) -> (r: CheckPoint)
    ensures
        checkpoint_blocks(r) == one_block(block),
{
    let hash = bitcoin::hashes::Hash::from_byte_array(block.hash.bytes);
    CheckPoint::new(bdk_core::BlockId { height: block.height, hash })
}

/// Calls `bdk_core::CheckPoint::height`: the height of the block at the tip, which is the greatest
/// height in the chain.
#[verifier::external_body]
pub(crate) fn checkpoint_height(cp: &CheckPoint) -> (r: u32)
    ensures
        is_top(checkpoint_blocks(*cp), r),
{
    cp.height()
}

/// Calls `bdk_core::CheckPoint::get`: where the chain has a block at a height, the part of the chain
/// that ends with it.
#[verifier::external_body]
pub(crate) fn checkpoint_get(cp: &CheckPoint, height: u32) -> (r: Option<CheckPoint>)
    ensures
        match r {
            Some(found) => checkpoint_blocks(*cp).contains_key(height) && checkpoint_blocks(found)
                == up_to(checkpoint_blocks(*cp), height),
            None => !checkpoint_blocks(*cp).contains_key(height),
        },
{
    cp.get(height)
}

/// Calls `bdk_core::CheckPoint::iter`, and takes the block of each item: the blocks of the chain from
/// the tip downwards, each once.
#[verifier::external_body]
pub(crate) fn checkpoint_iter(cp: &CheckPoint) -> (r: Vec<BlockId>)
    ensures
        r.len() > 0,
        forall|i: int, j: int| 0 <= i < j < r.len() ==> (#[trigger] r[i]).height > (
        #[trigger] r[j]).height,
        forall|i: int|
            0 <= i < r.len() ==> checkpoint_blocks(*cp).contains_key((#[trigger] r[i]).height)
                && checkpoint_blocks(*cp)[r[i].height] == r[i].hash@,
        forall|h: u32| #[trigger]
            checkpoint_blocks(*cp).contains_key(h) ==> exists|i: int|
                0 <= i < r.len() && (#[trigger] r[i]).height == h,
{
    cp.iter().map(
        |c| BlockId {
            height: c.height(),
            hash: Hash256 { bytes: *bitcoin::hashes::Hash::as_byte_array(&c.hash()) },
        },
    ).collect()
}

/// Calls `bdk_core::CheckPoint::insert`, which panics unless the block is already in the chain or can
/// be linked to a lower one.
#[verifier::external_body]
pub(crate) fn checkpoint_insert(cp: CheckPoint, block: BlockId) -> (r: CheckPoint)
    requires
        insertable(checkpoint_blocks(cp), block),
    ensures
        checkpoint_blocks(r) == with_block(checkpoint_blocks(cp), block),
{
    let hash = bitcoin::hashes::Hash::from_byte_array(block.hash.bytes);
    cp.insert(bdk_core::BlockId { height: block.height, hash })
}

/// Calls `bdk_core::CheckPoint::clone`: a chain of the same blocks.
#[verifier::external_body]
pub(crate) fn checkpoint_clone(cp: &CheckPoint) -> (r: CheckPoint)
    ensures
        checkpoint_blocks(r) == checkpoint_blocks(*cp),
{
    cp.clone()
}

/// Calls `==` of `bdk_core::CheckPoint`: two chains are equal when they hold the same blocks.
#[verifier::external_body]
pub(crate) fn checkpoint_same(a: &CheckPoint, b: &CheckPoint) -> (r: bool)
    ensures
        r == (checkpoint_blocks(*a) == checkpoint_blocks(*b)),
{
    *a == *b
}

/// Whether two chains, either of which may not be there, are the same.
pub fn same_tip(a: &Option<CheckPoint>, b: &Option<CheckPoint>) -> (r: bool)
    ensures
        r == (tip_blocks(*a) == tip_blocks(*b)),
{
    match (a, b) {
        (Some(x), Some(y)) => checkpoint_same(x, y),
        (None, None) => true,
        _ => false,
    }
}

/// A copy of a chain that may not be there.
pub fn copy_tip(tip: &Option<CheckPoint>) -> (r: Option<CheckPoint>)
    ensures
        tip_blocks(r) == tip_blocks(*tip),
{
    match tip {
        Some(cp) => Some(checkpoint_clone(cp)),
        None => None,
    }
}

/// Whether a block can be put into a chain.
pub fn can_insert(cp: &CheckPoint, block: &BlockId) -> (r: bool)
    ensures
        r == insertable(checkpoint_blocks(*cp), *block),
{
    let blocks = checkpoint_iter(cp);
    let last = blocks[blocks.len() - 1];
    proof {
        let all = checkpoint_blocks(*cp);
        assert forall|h: u32| #[trigger] all.contains_key(h) implies h >= last.height by {
            let i = choose|i: int| 0 <= i < blocks.len() && (#[trigger] blocks[i]).height == h;
            if i < blocks.len() - 1 {
                assert(blocks[i].height > blocks[blocks.len() - 1].height);
            }
        }
        assert(all.contains_key(last.height));
    }
    if last.height < block.height {
        return true;
    }
    let mut i: usize = 0;
    while i < blocks.len()
        invariant
            i <= blocks.len(),
            forall|j: int| 0 <= j < i ==> (#[trigger] blocks[j]).height != block.height,
            forall|j: int|
                0 <= j < blocks.len() ==> checkpoint_blocks(*cp).contains_key(
                    (#[trigger] blocks[j]).height,
                ) && checkpoint_blocks(*cp)[blocks[j].height] == blocks[j].hash@,
            forall|h: u32| #[trigger]
                checkpoint_blocks(*cp).contains_key(h) ==> h >= last.height && exists|j: int|
                    0 <= j < blocks.len() && (#[trigger] blocks[j]).height == h,
            last.height >= block.height,
        decreases blocks.len() - i,
    {
        if blocks[i].height == block.height {
            return blocks[i].hash.same(&block.hash);
        }
        i = i + 1;
    }
    false
}

/// A chain with a block above its tip has it as its new tip, and is otherwise as it was.
pub proof fn a_block_above_the_tip_is_the_tip(
    blocks: Map<u32, Hash256>,
    top: u32,
    block: BlockId,
    other: u32,
)
    requires
        is_top(blocks, top),
        block.height > top,
    ensures
        insertable(blocks, block),
        with_block(blocks, block).get(block.height) == Some(block.hash),
        is_top(with_block(blocks, block), block.height),
        other != block.height ==> with_block(blocks, block).get(other) == blocks.get(other),
{
    assert(blocks.contains_key(top));
}

/// A chain with another block in the place of one of its own ends with it: what was below stays, and what
/// was above is gone. With a block that it has a chain is as it was.
pub proof fn another_block_cuts_the_chain(
    blocks: Map<u32, Hash256>,
    block: BlockId,
    other: u32,
)
    requires
        blocks.contains_key(block.height),
    ensures
        blocks[block.height] == block.hash ==> with_block(blocks, block) == blocks,
        blocks[block.height] != block.hash ==> {
            let after = with_block(blocks, block);
            &&& after.get(block.height) == Some(block.hash)
            &&& is_top(after, block.height)
            &&& other < block.height ==> after.get(other) == blocks.get(other)
            &&& other > block.height ==> !after.contains_key(other)
        },
{
    if blocks[block.height] == block.hash {
        assert(with_block(blocks, block) =~= blocks);
    }
}

/// A block can be put into a chain where the chain has it, or has a block below it.
pub proof fn a_block_needs_one_below(blocks: Map<u32, Hash256>, block: BlockId, below: u32)
    ensures
        blocks.contains_key(below) && below < block.height ==> insertable(blocks, block),
        blocks.get(block.height) == Some(block.hash) ==> insertable(blocks, block),
        (forall|h: u32| #[trigger] blocks.contains_key(h) ==> h > block.height) ==> !insertable(
            blocks,
            block,
        ),
{
}

} // verus!
