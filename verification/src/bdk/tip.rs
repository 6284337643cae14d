//! The chain of checkpoints: the latest tip of the server, joined to the tip that is known.
use bdk_core::CheckPoint;
use vstd::prelude::*;

use crate::bdk::constant::CHAIN_SUFFIX_LENGTH;
use crate::chain::{
    block_hash_of, can_insert, checkpoint_blocks, checkpoint_clone, checkpoint_get,
    checkpoint_height, checkpoint_insert, checkpoint_iter, checkpoint_new, insertable, is_top,
    top_height, top_is_unique, up_to, BlockId, ConfirmationBlockTime, Header,
};
use crate::hash::{BlockHash, Hash256, Txid};
use crate::ordered::{
    ascending, map_of, map_of_at, map_of_index, Key, OrderedMap, OrderedSet, Value,
};

verus! {

/// The hashes of consecutive headers, by height.
pub open spec fn header_hashes(start: u32, headers: Seq<Header>) -> Map<u32, Hash256> {
    Map::new(
        |height: u32| start <= height < start + headers.len(),
        |height: u32| block_hash_of(headers[height - start]),
    )
}

/// Whether the latest blocks hold, for each block of a chain above a height, another block.
pub open spec fn differs_above(
    chain: Map<u32, Hash256>,
    latest: Map<u32, Hash256>,
    height: int,
) -> bool {
    forall|h: u32| #[trigger]
        chain.contains_key(h) && h > height ==> latest.contains_key(h) && latest[h] != chain[h]
}

/// Whether a height is the point of agreement of a chain with the latest blocks: the highest block
/// of the chain that they hold too. Without one, they hold another block for each of the chain.
pub open spec fn is_agreement(
    chain: Map<u32, Hash256>,
    latest: Map<u32, Hash256>,
    agreement: Option<u32>,
) -> bool {
    match agreement {
        Some(height) => chain.contains_key(height) && latest.contains_key(height) && latest[height]
            == chain[height] && differs_above(chain, latest, height as int),
        None => differs_above(chain, latest, -1),
    }
}

/// A chain up to a point of agreement with the latest blocks, and the latest blocks from there on.
pub open spec fn joined_chain(
    chain: Map<u32, Hash256>,
    latest: Map<u32, Hash256>,
    agreement: Option<u32>,
) -> Map<u32, Hash256> {
    match agreement {
        Some(height) => up_to(chain, height).union_prefer_right(
            latest.restrict(Set::new(|h: u32| h > height)),
        ),
        None => if latest == Map::<u32, Hash256>::empty() {
            chain
        } else {
            latest
        },
    }
}

/// There is one point of agreement.
pub proof fn agreement_is_unique(
    chain: Map<u32, Hash256>,
    latest: Map<u32, Hash256>,
    a: Option<u32>,
    b: Option<u32>,
)
    requires
        is_agreement(chain, latest, a),
        is_agreement(chain, latest, b),
    ensures
        a == b,
{
    if a is Some {
        assert(chain.contains_key(a->0));
    }
    if b is Some {
        assert(chain.contains_key(b->0));
    }
}

/// The joined chain holds the known chain up to the point of agreement, the latest blocks above it,
/// and nothing else.
pub proof fn joined_chain_is_exact(
    chain: Map<u32, Hash256>,
    latest: Map<u32, Hash256>,
    agreement: u32,
    height: u32,
)
    requires
        is_agreement(chain, latest, Some(agreement)),
    ensures
        height <= agreement ==> joined_chain(chain, latest, Some(agreement)).get(height)
            == chain.get(height),
        height > agreement ==> joined_chain(chain, latest, Some(agreement)).get(height)
            == latest.get(height),
{
}

/// What is known of the chain of the server, and what it is compared with.
pub struct TipFetch {
    prev_tip: CheckPoint,
    tip_height: Option<u32>,
    latest_blocks: Option<OrderedMap<u32, BlockHash>>,
}

/// What has to be fetched next, or the outcome.
pub enum TipStep {
    /// The height of the tip of the server.
    Tip,
    /// Some consecutive block headers.
    Headers {
        /// Height of the first one.
        start_height: u32,
        /// How many.
        count: u32,
    },
    /// A block header.
    Header {
        /// Its height.
        height: u32,
    },
    /// Nothing.
    Done {
        /// The latest tip.
        tip: CheckPoint,
        /// The latest blocks that were fetched.
        latest_blocks: OrderedMap<u32, BlockHash>,
    },
}

/// What the comparison of tips waits for.
pub enum TipWait {
    /// The height of the tip of the server.
    Tip,
    /// The block headers from a height on.
    Headers(u32),
    /// The block header at a height.
    Header(u32),
    /// Nothing.
    Done,
}

/// The height from which on the latest blocks are fetched.
pub open spec fn suffix_start(tip: u32) -> u32 {
    if tip >= CHAIN_SUFFIX_LENGTH - 1 {
        (tip - (CHAIN_SUFFIX_LENGTH - 1)) as u32
    } else {
        0
    }
}

/// Whether a height is that of the highest block of a chain that cannot be held against the latest
/// blocks, while all above it differ from them.
pub open spec fn is_unknown_below(
    chain: Map<u32, Hash256>,
    latest: Map<u32, Hash256>,
    height: u32,
) -> bool {
    chain.contains_key(height) && !latest.contains_key(height) && differs_above(
        chain,
        latest,
        height as int,
    )
}

/// What the comparison of tips waits for, once the latest blocks are known.
pub open spec fn header_wait(chain: Map<u32, Hash256>, latest: Map<u32, Hash256>) -> TipWait {
    if exists|h: u32| is_unknown_below(chain, latest, h) {
        TipWait::Header(choose|h: u32| is_unknown_below(chain, latest, h))
    } else {
        TipWait::Done
    }
}

/// What the comparison of tips waits for, by what is known of the server.
pub open spec fn tip_wait(
    chain: Map<u32, Hash256>,
    tip: Option<u32>,
    latest: Option<Map<u32, Hash256>>,
) -> TipWait {
    match (tip, latest) {
        (None, _) => TipWait::Tip,
        (Some(height), _) if height < top_height(chain) => TipWait::Done,
        (Some(height), None) => TipWait::Headers(suffix_start(height)),
        (Some(height), Some(latest)) => header_wait(chain, latest),
    }
}

/// The chain that comes out of the comparison of tips, and the latest blocks.
pub open spec fn tip_outcome(
    chain: Map<u32, Hash256>,
    tip: Option<u32>,
    latest: Option<Map<u32, Hash256>>,
) -> (Map<u32, Hash256>, Map<u32, Hash256>) {
    match (tip, latest) {
        (Some(height), Some(latest)) if height >= top_height(chain) => (
            joined_chain(
                chain,
                latest,
                choose|agreement: Option<u32>| is_agreement(chain, latest, agreement),
            ),
            latest,
        ),
        _ => (chain, Map::empty()),
    }
}

/// A server whose tip is lower than the known one changes nothing: no block is fetched, and the chain stays
/// as it is.
pub proof fn lower_tip_changes_nothing(
    chain: Map<u32, Hash256>,
    tip: u32,
    latest: Option<Map<u32, Hash256>>,
)
    requires
        tip < top_height(chain),
    ensures
        tip_wait(chain, Some(tip), latest) is Done,
        tip_outcome(chain, Some(tip), latest) == (chain, Map::<u32, Hash256>::empty()),
{
}

/// There is at most one block to be fetched next, and none once the chains agree.
proof fn wait_is_determined(
    chain: Map<u32, Hash256>,
    latest: Map<u32, Hash256>,
    height: u32,
    other: u32,
    agreement: Option<u32>,
)
    requires
        is_unknown_below(chain, latest, height),
    ensures
        is_unknown_below(chain, latest, other) ==> other == height,
        !is_agreement(chain, latest, agreement),
{
    assert(chain.contains_key(height));
    assert(chain.contains_key(other) ==> chain.contains_key(other));
    if agreement is Some {
        assert(chain.contains_key(agreement->0) ==> chain.contains_key(agreement->0));
    }
}

impl TipFetch {
    /// The blocks of the tip that is known.
    pub closed spec fn prev(&self) -> Map<u32, Hash256> {
        checkpoint_blocks(self.prev_tip)
    }

    /// The height of the tip of the server, once it is known.
    pub closed spec fn tip(&self) -> Option<u32> {
        self.tip_height
    }

    /// The latest blocks, once they are known.
    pub closed spec fn latest(&self) -> Option<Map<u32, Hash256>> {
        match self.latest_blocks {
            Some(blocks) => Some(blocks@),
            None => None,
        }
    }

    /// What is waited for.
    pub open spec fn wait(&self) -> TipWait {
        tip_wait(self.prev(), self.tip(), self.latest())
    }

    /// Nothing is known of the server.
    pub fn new(prev_tip: CheckPoint) -> (r: Self)
        ensures
            r.prev() == checkpoint_blocks(prev_tip),
            r.tip() is None,
            r.latest() is None,
    {
        TipFetch { prev_tip, tip_height: None, latest_blocks: None }
    }

    /// Takes the height of the tip of the server.
    pub fn on_tip(&mut self, height: u32)
        ensures
            final(self).prev() == old(self).prev(),
            final(self).tip() == Some(height),
            final(self).latest() == old(self).latest(),
    {
        self.tip_height = Some(height);
    }

    /// Takes consecutive headers. Those past the greatest height that a block can have are left out.
    pub fn on_headers(&mut self, start_height: u32, headers: &Vec<Header>)
        ensures
            final(self).prev() == old(self).prev(),
            final(self).tip() == old(self).tip(),
            final(self).latest() == Some(header_hashes(start_height, headers@)),
    {
        let mut blocks: OrderedMap<u32, BlockHash> = OrderedMap::new();
        let mut i: usize = 0;
        proof {
            assert(blocks@ =~= header_hashes(start_height, headers@.take(0)));
        }
        while i < headers.len() && i as u64 <= (u32::MAX - start_height) as u64
            invariant
                i <= headers.len(),
                i as int <= u32::MAX - start_height + 1,
                blocks@ == header_hashes(start_height, headers@.take(i as int)),
            decreases headers.len() - i,
        {
            let height = start_height + i as u32;
            blocks.insert(height, headers[i].block_hash());
            proof {
                assert(blocks@ =~= header_hashes(start_height, headers@.take(i + 1)));
            }
            i = i + 1;
        }
        proof {
            assert(blocks@ =~= header_hashes(start_height, headers@));
        }
        self.latest_blocks = Some(blocks);
    }

    /// Takes a header.
    pub fn on_header(&mut self, height: u32, header: &Header)
        ensures
            final(self).prev() == old(self).prev(),
            final(self).tip() == old(self).tip(),
            final(self).latest() == match old(self).latest() {
                Some(blocks) => Some(blocks.insert(height, block_hash_of(*header))),
                None => None,
            },
    {
        if let Some(blocks) = &mut self.latest_blocks {
            blocks.insert(height, header.block_hash());
        }
    }

    /// A [`CheckPoint`] of the latest tip, that connects with the tip that is known, or what has to
    /// be fetched first. The latest blocks are fetched to construct checkpoint updates with the
    /// proper hash in case of re-org.
    ///
    /// If the server has a tip that is lower than the tip that is known, checkpoints do not need
    /// updating, and the known tip is returned. Otherwise the known blocks are held against the
    /// latest blocks from the tip downwards, until they agree.
    pub fn fetch_tip_and_latest_blocks(&self) -> (r: TipStep)
        ensures
            match r {
                TipStep::Tip => self.wait() is Tip,
                TipStep::Headers { start_height, count } => self.wait() == TipWait::Headers(
                    start_height,
                ) && count == CHAIN_SUFFIX_LENGTH,
                TipStep::Header { height } => self.wait() == TipWait::Header(height),
                TipStep::Done { tip, latest_blocks } => self.wait() is Done && (
                    checkpoint_blocks(tip),
                    latest_blocks@,
                ) == tip_outcome(self.prev(), self.tip(), self.latest()),
            },
    {
        let Some(new_tip_height) = self.tip_height else {
            return TipStep::Tip;
        };
        let prev_height = checkpoint_height(&self.prev_tip);
        proof {
            top_is_unique(self.prev(), prev_height);
        }
        if new_tip_height < prev_height {
            return TipStep::Done {
                tip: checkpoint_clone(&self.prev_tip),
                latest_blocks: OrderedMap::new(),
            };
        }
        let Some(latest_blocks) = &self.latest_blocks else {
            return TipStep::Headers {
                start_height: new_tip_height.saturating_sub(CHAIN_SUFFIX_LENGTH - 1),
                count: CHAIN_SUFFIX_LENGTH,
            };
        };
        let blocks = checkpoint_iter(&self.prev_tip);
        let mut agreement: Option<u32> = None;
        let mut i: usize = 0;
        while i < blocks.len() && agreement.is_none()
            invariant
                i <= blocks.len(),
                self.latest_blocks == Some(*latest_blocks),
                new_tip_height >= top_height(self.prev()),
                self.tip() == Some(new_tip_height),
                forall|a: int, b: int|
                    0 <= a < b < blocks.len() ==> (#[trigger] blocks[a]).height > (
                    #[trigger] blocks[b]).height,
                forall|a: int|
                    0 <= a < blocks.len() ==> self.prev().contains_key((#[trigger] blocks[a]).height)
                        && self.prev()[blocks[a].height] == blocks[a].hash@,
                forall|h: u32| #[trigger]
                    self.prev().contains_key(h) ==> exists|a: int|
                        0 <= a < blocks.len() && (#[trigger] blocks[a]).height == h,
                agreement is None ==> forall|a: int|
                    0 <= a < i ==> latest_blocks@.contains_key((#[trigger] blocks[a]).height)
                        && latest_blocks@[blocks[a].height] != blocks[a].hash@,
                agreement is Some ==> is_agreement(self.prev(), latest_blocks@, agreement),
            decreases blocks.len() - i,
        {
            let block = blocks[i];
            proof {
                assert forall|h: u32| #[trigger]
                    self.prev().contains_key(h) && h > block.height implies latest_blocks@.contains_key(
                h) && latest_blocks@[h] != self.prev()[h] by {
                    let a = choose|a: int| 0 <= a < blocks.len() && (#[trigger] blocks[a]).height == h;
                    if a > i {
                        assert(blocks[i as int].height > blocks[a].height);
                    }
                    assert(a < i);
                }
            }
            match latest_blocks.get(&block.height) {
                Some(hash) => {
                    if hash.same(&block.hash) {
                        agreement = Some(block.height);
                    }
                },
                None => {
                    proof {
                        assert(is_unknown_below(self.prev(), latest_blocks@, block.height));
                        let chosen = choose|h: u32|
                            is_unknown_below(self.prev(), latest_blocks@, h);
                        wait_is_determined(
                            self.prev(),
                            latest_blocks@,
                            block.height,
                            chosen,
                            None,
                        );
                        assert(self.latest() == Some(latest_blocks@));
                        assert(header_wait(self.prev(), latest_blocks@) == TipWait::Header(
                            block.height,
                        ));
                    }
                    return TipStep::Header { height: block.height };
                },
            }
            i = i + 1;
        }
        proof {
            if agreement is None {
                assert forall|h: u32| #[trigger]
                    self.prev().contains_key(h) && h > -1 implies latest_blocks@.contains_key(h)
                    && latest_blocks@[h] != self.prev()[h] by {
                    let a = choose|a: int| 0 <= a < blocks.len() && (#[trigger] blocks[a]).height == h;
                }
            }
        }
        let tip = join_latest(&self.prev_tip, latest_blocks, agreement);
        let latest_blocks = latest_blocks.replica();
        proof {
            let chosen = choose|agreement: Option<u32>|
                is_agreement(self.prev(), latest_blocks@, agreement);
            assert(is_agreement(self.prev(), latest_blocks@, agreement));
            agreement_is_unique(self.prev(), latest_blocks@, agreement, chosen);
            if exists|h: u32| is_unknown_below(self.prev(), latest_blocks@, h) {
                let h = choose|h: u32| is_unknown_below(self.prev(), latest_blocks@, h);
                wait_is_determined(self.prev(), latest_blocks@, h, h, agreement);
            }
        }
        TipStep::Done { tip, latest_blocks }
    }
}

/// Puts the latest blocks above the point of agreement on the part of the chain up to it.
fn join_latest(
    prev_tip: &CheckPoint,
    latest_blocks: &OrderedMap<u32, BlockHash>,
    agreement: Option<u32>,
) -> (r: CheckPoint)
    requires
        is_agreement(checkpoint_blocks(*prev_tip), latest_blocks@, agreement),
    ensures
        checkpoint_blocks(r) == joined_chain(
            checkpoint_blocks(*prev_tip),
            latest_blocks@,
            agreement,
        ),
{
    let ghost chain = checkpoint_blocks(*prev_tip);
    let n = latest_blocks.len();
    let ghost pairs = latest_blocks.pairs();
    let mut tip: Option<CheckPoint> = match agreement {
        Some(height) => checkpoint_get(prev_tip, height),
        None => None,
    };
    let ghost base = match agreement {
        Some(height) => up_to(chain, height),
        None => Map::<u32, Hash256>::empty(),
    };
    let mut i: usize = 0;
    while i < n
        invariant
            i <= n,
            n == latest_blocks.pairs().len(),
            pairs == latest_blocks.pairs(),
            latest_blocks@ == map_of(pairs),
            ascending::<u32, Hash256>(pairs),
            agreement is Some ==> tip is Some && base.contains_key(agreement->0),
            agreement is None ==> (tip is None <==> i == 0) && base == Map::<u32, Hash256>::empty(),
            forall|h: u32| #[trigger]
                base.contains_key(h) ==> agreement is Some && h <= agreement->0,
            tip is Some ==> forall|h: u32|
                #![trigger checkpoint_blocks(tip->0).contains_key(h)]
                checkpoint_blocks(tip->0).contains_key(h) <==> base.contains_key(h) || ((agreement
                    is None || h > agreement->0) && exists|j: int|
                    0 <= j < i && (#[trigger] pairs[j]).0 == h),
            tip is Some ==> forall|h: u32|
                #![trigger checkpoint_blocks(tip->0)[h]]
                checkpoint_blocks(tip->0).contains_key(h) ==> checkpoint_blocks(tip->0)[h] == (
                if base.contains_key(h) {
                    base[h]
                } else {
                    latest_blocks@[h]
                }),
        decreases n - i,
    {
        let height = *latest_blocks.key_at(i);
        let hash = *latest_blocks.value_at(i);
        proof {
            map_of_at::<u32, Hash256>(pairs, i as int);
            assert(pairs[i as int].0 == height);
            assert forall|j: int| 0 <= j < i implies (#[trigger] pairs[j]).0 < height by {
                assert(u32::before(pairs[j].0, pairs[i as int].0));
            }
        }
        let is_new = match agreement {
            Some(agreed) => height > agreed,
            None => true,
        };
        if is_new {
            let block = BlockId { height, hash };
            tip = match tip {
                Some(cp) => {
                    let ghost held = checkpoint_blocks(cp);
                    proof {
                        assert(!held.contains_key(height));
                        if agreement is Some {
                            assert(held.contains_key(agreement->0));
                        } else {
                            assert(held.contains_key(pairs[0].0));
                        }
                        assert(insertable(held, block));
                    }
                    let next = checkpoint_insert(cp, block);
                    proof {
                        assert(checkpoint_blocks(next) == held.insert(height, hash));
                        assert forall|h: u32|
                            #![trigger checkpoint_blocks(next).contains_key(h)]
                            checkpoint_blocks(next).contains_key(h) <==> base.contains_key(h) || ((
                            agreement is None || h > agreement->0) && exists|j: int|
                                0 <= j < i + 1 && (#[trigger] pairs[j]).0 == h) by {
                            if held.contains_key(h) && !base.contains_key(h) {
                                let j = choose|j: int| 0 <= j < i && (#[trigger] pairs[j]).0 == h;
                                assert(pairs[j].0 == h);
                            }
                            if exists|j: int| 0 <= j < i + 1 && (#[trigger] pairs[j]).0 == h {
                                let j = choose|j: int|
                                    0 <= j < i + 1 && (#[trigger] pairs[j]).0 == h;
                                if j < i {
                                    assert(pairs[j].0 == h);
                                }
                            }
                        }
                    }
                    Some(next)
                },
                None => {
                    let first = checkpoint_new(block);
                    proof {
                        assert(i == 0);
                        assert forall|h: u32|
                            #![trigger checkpoint_blocks(first).contains_key(h)]
                            checkpoint_blocks(first).contains_key(h) <==> base.contains_key(h) || ((
                            agreement is None || h > agreement->0) && exists|j: int|
                                0 <= j < i + 1 && (#[trigger] pairs[j]).0 == h) by {
                            if h == height {
                                assert(pairs[0].0 == h);
                            }
                        }
                    }
                    Some(first)
                },
            };
        }
        i = i + 1;
    }
    match tip {
        Some(cp) => {
            proof {
                let held = checkpoint_blocks(cp);
                let expected = joined_chain(chain, latest_blocks@, agreement);
                assert forall|h: u32| held.contains_key(h) <==> expected.contains_key(h) by {
                    if latest_blocks@.contains_key(h) {
                        let j = map_of_index::<u32, Hash256>(pairs, h);
                        assert(pairs[j].0 == h);
                    }
                    if exists|j: int| 0 <= j < n && (#[trigger] pairs[j]).0 == h {
                        let j = choose|j: int| 0 <= j < n && (#[trigger] pairs[j]).0 == h;
                        map_of_at::<u32, Hash256>(pairs, j);
                    }
                    if agreement is None {
                        map_of_at::<u32, Hash256>(pairs, 0);
                    }
                }
                assert forall|h: u32| held.contains_key(h) implies held[h] == expected[h] by {
                }
                if agreement is None {
                    map_of_at::<u32, Hash256>(pairs, 0);
                    assert(latest_blocks@.contains_key(pairs[0].0));
                }
                assert(held =~= expected);
            }
            cp
        },
        None => {
            proof {
                assert(n == 0);
                assert(latest_blocks@ =~= Map::<u32, Hash256>::empty()) by {
                    assert forall|h: u32| latest_blocks@.contains_key(h) implies false by {
                        let j = map_of_index::<u32, Hash256>(pairs, h);
                    }
                }
            }
            checkpoint_clone(prev_tip)
        },
    }
}

/// A chain with a checkpoint at the height of an anchor: where it has none there, and the height is
/// neither above its tip nor below all of it. The hash is that of the latest blocks, where they have
/// one, so that it will be consistent in case of a re-org.
pub open spec fn with_anchor(
    blocks: Map<u32, Hash256>,
    latest: Map<u32, Hash256>,
    anchor: ConfirmationBlockTime,
) -> Map<u32, Hash256> {
    let height = anchor.block_id.height;
    let hash = if latest.contains_key(height) {
        latest[height]
    } else {
        anchor.block_id.hash
    };
    if !blocks.contains_key(height) && height <= top_height(blocks) && insertable(
        blocks,
        BlockId { height, hash },
    ) {
        blocks.insert(height, hash)
    } else {
        blocks
    }
}

/// A chain with a checkpoint at the height of each of some anchors.
pub open spec fn with_anchors(
    blocks: Map<u32, Hash256>,
    latest: Map<u32, Hash256>,
    anchors: Seq<(ConfirmationBlockTime, Txid)>,
) -> Map<u32, Hash256>
    decreases anchors.len(),
{
    if anchors.len() == 0 {
        blocks
    } else {
        with_anchor(
            with_anchors(blocks, latest, anchors.drop_last()),
            latest,
            anchors.last().0,
        )
    }
}

/// Checkpoints for anchors take nothing away: each block that the chain had is still there, and its
/// tip is the same. A block that is new stands at the height of an anchor, below the tip.
pub proof fn anchors_keep_the_chain(
    blocks: Map<u32, Hash256>,
    latest: Map<u32, Hash256>,
    anchors: Seq<(ConfirmationBlockTime, Txid)>,
    top: u32,
)
    requires
        is_top(blocks, top),
    ensures
        forall|h: u32| #[trigger]
            blocks.contains_key(h) ==> with_anchors(blocks, latest, anchors).contains_key(h)
                && with_anchors(blocks, latest, anchors)[h] == blocks[h],
        is_top(with_anchors(blocks, latest, anchors), top),
        forall|h: u32| #[trigger]
            with_anchors(blocks, latest, anchors).contains_key(h) && !blocks.contains_key(h) ==> h
                < top && exists|i: int|
                0 <= i < anchors.len() && (#[trigger] anchors[i]).0.block_id.height == h,
    decreases anchors.len(),
{
    if anchors.len() > 0 {
        let before = with_anchors(blocks, latest, anchors.drop_last());
        let after = with_anchors(blocks, latest, anchors);
        anchors_keep_the_chain(blocks, latest, anchors.drop_last(), top);
        top_is_unique(before, top);
        assert forall|h: u32| #[trigger] after.contains_key(h) && !blocks.contains_key(h) implies h
            < top && exists|i: int|
            0 <= i < anchors.len() && (#[trigger] anchors[i]).0.block_id.height == h by {
            if before.contains_key(h) {
                let i = choose|i: int|
                    0 <= i < anchors.len() - 1 && (#[trigger] anchors.drop_last()[i]).0.block_id.height
                        == h;
                assert(anchors[i].0.block_id.height == h);
            } else {
                assert(anchors[anchors.len() - 1].0.block_id.height == h);
                assert(blocks.contains_key(top));
            }
        }
    }
}

/// Add a corresponding checkpoint per anchor height if it does not yet exist. Checkpoints should not
/// surpass `latest_blocks`. An anchor below the whole chain has nothing to be linked to, and gets
/// none.
pub fn chain_update(
    tip: CheckPoint,
    latest_blocks: &OrderedMap<u32, BlockHash>,
    anchors: &OrderedSet<(ConfirmationBlockTime, Txid)>,
) -> (r: CheckPoint)
    ensures
        checkpoint_blocks(r) == with_anchors(
            checkpoint_blocks(tip),
            latest_blocks@,
            anchors.list(),
        ),
{
    let ghost blocks = checkpoint_blocks(tip);
    let ghost list = anchors.list();
    let mut tip = tip;
    let n = anchors.len();
    let mut i: usize = 0;
    while i < n
        invariant
            i <= n,
            n == anchors.list().len(),
            list == anchors.list(),
            checkpoint_blocks(tip) == with_anchors(blocks, latest_blocks@, list.take(i as int)),
        decreases n - i,
    {
        let anchor = anchors.at(i).0;
        proof {
            assert(list.take(i + 1).drop_last() =~= list.take(i as int));
        }
        let height = anchor.block_id.height;
        let top = checkpoint_height(&tip);
        proof {
            top_is_unique(checkpoint_blocks(tip), top);
        }
        let hash = match latest_blocks.get(&height) {
            Some(hash) => *hash,
            None => anchor.block_id.hash,
        };
        let block = BlockId { height, hash };
        if checkpoint_get(&tip, height).is_none() && height <= top && can_insert(&tip, &block) {
            tip = checkpoint_insert(tip, block);
        }
        i = i + 1;
    }
    proof {
        assert(list.take(n as int) =~= list);
    }
    tip
}

/// Each anchor between the lowest block and the tip of a chain has a block at its height in the updated
/// chain. Where there was one before it stays. Else it is the latest block at that height, where there is
/// one, and else that of the first anchor at that height.
pub proof fn anchors_get_their_checkpoints(
    blocks: Map<u32, Hash256>,
    latest: Map<u32, Hash256>,
    anchors: Seq<(ConfirmationBlockTime, Txid)>,
    top: u32,
    low: u32,
    i: int,
)
    requires
        is_top(blocks, top),
        blocks.contains_key(low),
        0 <= i < anchors.len(),
        low <= anchors[i].0.block_id.height <= top,
        forall|j: int|
            0 <= j < i ==> (#[trigger] anchors[j]).0.block_id.height
                != anchors[i].0.block_id.height,
    ensures
        ({
            let height = anchors[i].0.block_id.height;
            with_anchors(blocks, latest, anchors).get(height) == Some(
                if blocks.contains_key(height) {
                    blocks[height]
                } else if latest.contains_key(height) {
                    latest[height]
                } else {
                    anchors[i].0.block_id.hash
                },
            )
        }),
    decreases anchors.len(),
{
    let height = anchors[i].0.block_id.height;
    let init = anchors.drop_last();
    let before = with_anchors(blocks, latest, init);
    anchors_keep_the_chain(blocks, latest, init, top);
    anchors_keep_the_chain(blocks, latest, anchors, top);
    top_is_unique(before, top);
    if i < init.len() {
        assert forall|j: int| 0 <= j < i implies (#[trigger] init[j]).0.block_id.height
            != init[i].0.block_id.height by {
            assert(init[j] == anchors[j]);
        }
        anchors_get_their_checkpoints(blocks, latest, init, top, low, i);
        assert(before.contains_key(height));
    } else if !blocks.contains_key(height) {
        assert(blocks.contains_key(low));
        assert(before.contains_key(low));
        if before.contains_key(height) {
            let j = choose|j: int|
                0 <= j < init.len() && (#[trigger] init[j]).0.block_id.height == height;
            assert(anchors[j].0.block_id.height == height);
        }
    }
}

/// Consecutive headers count for the heights from the first one on, and for no others.
pub proof fn headers_count_from_the_first(start: u32, headers: Seq<Header>, i: int, other: u32)
    ensures
        0 <= i < headers.len() && start + i <= u32::MAX ==> header_hashes(start, headers).get(
            (start + i) as u32,
        ) == Some(block_hash_of(headers[i])),
        other < start || other >= start + headers.len() ==> !header_hashes(
            start,
            headers,
        ).contains_key(other),
{
}

/// The latest blocks are the last eight of the server, or all where there are fewer.
pub proof fn the_latest_blocks_are_the_last_eight(tip: u32)
    ensures
        suffix_start(tip) <= tip,
        tip >= 7 ==> tip - suffix_start(tip) + 1 == 8,
        tip < 7 ==> suffix_start(tip) == 0,
        CHAIN_SUFFIX_LENGTH == 8,
{
}

/// The server is first asked for its tip, and for its latest blocks where the tip is not lower than the
/// known one.
pub proof fn the_tip_comes_before_the_blocks(
    chain: Map<u32, Hash256>,
    top: u32,
    tip: u32,
    latest: Option<Map<u32, Hash256>>,
)
    requires
        is_top(chain, top),
    ensures
        tip_wait(chain, None, latest) is Tip,
        tip < top ==> tip_wait(chain, Some(tip), latest) is Done,
        tip >= top ==> tip_wait(chain, Some(tip), None) == TipWait::Headers(suffix_start(tip)),
{
    top_is_unique(chain, top);
}

/// A single block that is asked for is one of the known chain that the server has not named yet, while it
/// has another block for each one above. Where nothing more is asked for there is no such block.
pub proof fn known_blocks_are_compared_downwards(
    chain: Map<u32, Hash256>,
    latest: Map<u32, Hash256>,
    top: u32,
    tip: u32,
    height: u32,
)
    requires
        is_top(chain, top),
        tip >= top,
    ensures
        tip_wait(chain, Some(tip), Some(latest)) == TipWait::Header(height) ==> {
            &&& chain.contains_key(height)
            &&& !latest.contains_key(height)
            &&& forall|h: u32| #[trigger]
                chain.contains_key(h) && h > height ==> latest.contains_key(h) && latest[h]
                    != chain[h]
        },
        tip_wait(chain, Some(tip), Some(latest)) is Done && chain.contains_key(height)
            && !latest.contains_key(height) ==> exists|h: u32| #[trigger]
            chain.contains_key(h) && h > height && (latest.contains_key(h) ==> latest[h]
                == chain[h]),
        tip_wait(chain, Some(tip), Some(latest)) is Done || tip_wait(
            chain,
            Some(tip),
            Some(latest),
        ) is Header,
{
    top_is_unique(chain, top);
    if tip_wait(chain, Some(tip), Some(latest)) is Done && chain.contains_key(height)
        && !latest.contains_key(height) {
        assert(!is_unknown_below(chain, latest, height));
    }
}

/// The chain that comes out of a comparison is the known one up to the highest block that the server has
/// too, and the latest blocks above it. Where the server has another block for each, it is the latest
/// blocks.
pub proof fn the_chain_is_joined_at_the_highest_common_block(
    chain: Map<u32, Hash256>,
    latest: Map<u32, Hash256>,
    top: u32,
    tip: u32,
    common: u32,
    height: u32,
)
    requires
        is_top(chain, top),
        tip >= top,
        forall|h: u32| #[trigger]
            chain.contains_key(h) && h > common ==> latest.contains_key(h) && latest[h] != chain[h],
    ensures
        tip_outcome(chain, Some(tip), Some(latest)).1 == latest,
        chain.contains_key(common) && latest.get(common) == Some(chain[common]) ==> tip_outcome(
            chain,
            Some(tip),
            Some(latest),
        ).0.get(height) == if height <= common {
            chain.get(height)
        } else {
            latest.get(height)
        },
        (forall|h: u32| #[trigger]
            chain.contains_key(h) ==> latest.contains_key(h) && latest[h] != chain[h])
            ==> tip_outcome(chain, Some(tip), Some(latest)).0 == latest,
{
    top_is_unique(chain, top);
    let chosen = choose|agreement: Option<u32>| is_agreement(chain, latest, agreement);
    if chain.contains_key(common) && latest.get(common) == Some(chain[common]) {
        assert(is_agreement(chain, latest, Some(common)));
        agreement_is_unique(chain, latest, Some(common), chosen);
        joined_chain_is_exact(chain, latest, common, height);
    }
    if forall|h: u32| #[trigger]
        chain.contains_key(h) ==> latest.contains_key(h) && latest[h] != chain[h] {
        assert(is_agreement(chain, latest, None));
        agreement_is_unique(chain, latest, None, chosen);
        assert(chain.contains_key(top));
        assert(latest.contains_key(top));
    }
}

} // verus!
