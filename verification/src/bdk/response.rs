//! What comes out of a sync and of a full scan.
use bdk_core::CheckPoint;
use vstd::prelude::*;

use crate::bdk::tip::{chain_update, with_anchors};
use crate::chain::{checkpoint_blocks, tip_blocks, ConfirmationBlockTime};
use crate::hash::{BlockHash, Hash256, Txid};
use crate::ordered::{Key, OrderedMap, OrderedSet, Value};
use crate::tx::{TxUpdate, TxUpdateView};

verus! {

/// Data returned from a sync.
#[derive(Debug, PartialEq)]
pub struct SyncResponse {
    /// Relevant transaction data.
    pub tx_update: TxUpdate,
    /// Changes to the chain.
    pub chain_update: Option<CheckPoint>,
}

/// Data returned from a full scan.
#[derive(Debug, PartialEq)]
pub struct FullScanResponse<K: Key> {
    /// Relevant transaction data.
    pub tx_update: TxUpdate,
    /// Changes to the chain.
    pub chain_update: Option<CheckPoint>,
    /// Last active index for each keychain.
    pub last_active_indices: OrderedMap<K, u32>,
}

/// Anchors with their transactions, the other way round.
pub open spec fn swapped(
    anchors: Seq<(Txid, ConfirmationBlockTime)>,
) -> Set<(ConfirmationBlockTime, Txid)> {
    anchors.map_values(|anchor: (Txid, ConfirmationBlockTime)| (anchor.1, anchor.0)).to_set()
}

/// Adds anchors to an update.
pub fn add_anchors(tx_update: &mut TxUpdate, anchors: &Vec<(Txid, ConfirmationBlockTime)>)
    ensures
        final(tx_update)@ == (TxUpdateView {
            anchors: old(tx_update)@.anchors.union(swapped(anchors@)),
            ..old(tx_update)@
        }),
{
    let ghost pairs = anchors@.map_values(
        |anchor: (Txid, ConfirmationBlockTime)| (anchor.1, anchor.0),
    );
    let mut i: usize = 0;
    proof {
        assert(tx_update@.anchors =~= tx_update@.anchors.union(pairs.take(0).to_set()));
    }
    while i < anchors.len()
        invariant
            i <= anchors.len(),
            pairs == anchors@.map_values(
                |anchor: (Txid, ConfirmationBlockTime)| (anchor.1, anchor.0),
            ),
            tx_update@ == (TxUpdateView {
                anchors: old(tx_update)@.anchors.union(pairs.take(i as int).to_set()),
                ..old(tx_update)@
            }),
        decreases anchors.len() - i,
    {
        let (txid, anchor) = anchors[i];
        tx_update.anchors.insert((anchor, txid));
        proof {
            let a = pairs.take(i as int);
            let b = pairs.take(i + 1);
            assert forall|pair: (ConfirmationBlockTime, Txid)|
                #[trigger] b.contains(pair) == (a.contains(pair) || pair == (anchor, txid)) by {
                if b.contains(pair) {
                    let j = choose|j: int| 0 <= j < b.len() && b[j] == pair;
                    if j < i {
                        assert(a[j] == pair);
                    }
                }
                if a.contains(pair) {
                    let j = choose|j: int| 0 <= j < a.len() && a[j] == pair;
                    assert(b[j] == pair);
                }
                assert(b[i as int] == (anchor, txid));
            }
            assert(tx_update@.anchors =~= old(tx_update)@.anchors.union(b.to_set()));
        }
        i = i + 1;
    }
    proof {
        assert(pairs.take(pairs.len() as int) =~= pairs);
    }
}

/// The chain that a response carries: with a checkpoint for each anchor, where tips were compared.
pub open spec fn chain_of(
    chain: Option<(Map<u32, Hash256>, Map<u32, Hash256>)>,
    anchors: OrderedSet<(ConfirmationBlockTime, Txid)>,
) -> Option<Map<u32, Hash256>> {
    match chain {
        Some((blocks, latest)) => Some(with_anchors(blocks, latest, anchors.list())),
        None => None,
    }
}

/// The blocks of a chain with the latest blocks, where tips were compared.
pub open spec fn compared_chain(
    chain: Option<(CheckPoint, OrderedMap<u32, BlockHash>)>,
) -> Option<(Map<u32, Hash256>, Map<u32, Hash256>)> {
    match chain {
        Some((tip, latest_blocks)) => Some((checkpoint_blocks(tip), latest_blocks@)),
        None => None,
    }
}

/// The chain update of a response.
fn update_chain(
    chain: Option<(CheckPoint, OrderedMap<u32, BlockHash>)>,
    anchors: &OrderedSet<(ConfirmationBlockTime, Txid)>,
) -> (r: Option<CheckPoint>)
    ensures
        tip_blocks(r) == chain_of(compared_chain(chain), *anchors),
{
    match chain {
        Some((tip, latest_blocks)) => Some(chain_update(tip, &latest_blocks, anchors)),
        None => None,
    }
}

impl SyncResponse {
    /// The response of a sync: what it found out about transactions, and the chain that goes with it.
    pub fn finish(
        tx_update: TxUpdate,
        chain: Option<(CheckPoint, OrderedMap<u32, BlockHash>)>,
    ) -> (r: SyncResponse)
        ensures
            r.tx_update == tx_update,
            tip_blocks(r.chain_update) == chain_of(compared_chain(chain), tx_update.anchors),
    {
        let chain_update = update_chain(chain, &tx_update.anchors);
        SyncResponse { tx_update, chain_update }
    }
}

/// Last active indices with that of a keychain, if it has one.
pub open spec fn with_last_active<KV>(
    indices: Map<KV, u32>,
    keychain: KV,
    last_active_index: Option<u32>,
) -> Map<KV, u32> {
    match last_active_index {
        Some(index) => indices.insert(keychain, index),
        None => indices,
    }
}

/// Takes note of the last active index of a keychain, if it has one.
pub fn note_last_active<K: Key>(
    last_active_indices: &mut OrderedMap<K, u32>,
    keychain: &K,
    last_active_index: Option<u32>,
)
    ensures
        final(last_active_indices)@ == with_last_active(
            old(last_active_indices)@,
            keychain@,
            last_active_index,
        ),
{
    if let Some(index) = last_active_index {
        last_active_indices.insert(keychain.replica(), index);
    }
}

impl<K: Key> FullScanResponse<K> {
    /// The response of a full scan: what it found out about transactions, the chain that goes with it,
    /// and how far each keychain is used.
    pub fn finish(
        tx_update: TxUpdate,
        chain: Option<(CheckPoint, OrderedMap<u32, BlockHash>)>,
        last_active_indices: OrderedMap<K, u32>,
    ) -> (r: FullScanResponse<K>)
        ensures
            r.tx_update == tx_update,
            tip_blocks(r.chain_update) == chain_of(compared_chain(chain), tx_update.anchors),
            r.last_active_indices == last_active_indices,
    {
        let chain_update = update_chain(chain, &tx_update.anchors);
        FullScanResponse { tx_update, chain_update, last_active_indices }
    }
}

/// Each anchor goes into the update with its transaction, and no other does.
pub proof fn anchors_go_with_their_transactions(
    anchors: Seq<(Txid, ConfirmationBlockTime)>,
    txid: Txid,
    anchor: ConfirmationBlockTime,
)
    ensures
        swapped(anchors).contains((anchor, txid)) <==> anchors.contains((txid, anchor)),
{
    let pairs = anchors.map_values(|anchor: (Txid, ConfirmationBlockTime)| (anchor.1, anchor.0));
    if anchors.contains((txid, anchor)) {
        let i = choose|i: int| 0 <= i < anchors.len() && anchors[i] == (txid, anchor);
        assert(pairs[i] == (anchor, txid));
    }
    if pairs.contains((anchor, txid)) {
        let i = choose|i: int| 0 <= i < pairs.len() && pairs[i] == (anchor, txid);
        assert(anchors[i] == (txid, anchor));
    }
}

/// The last active index of a keychain is noted where there is one, and stays where there is none; those of
/// other keychains stay.
pub proof fn last_active_indices_are_noted<KV>(
    indices: Map<KV, u32>,
    keychain: KV,
    last_active: Option<u32>,
    other: KV,
)
    ensures
        last_active is Some ==> with_last_active(indices, keychain, last_active).get(keychain)
            == last_active,
        last_active is None ==> with_last_active(indices, keychain, last_active).get(keychain)
            == indices.get(keychain),
        other != keychain ==> with_last_active(indices, keychain, last_active).get(other)
            == indices.get(other),
{
}

/// A response has a chain exactly where the tips were compared.
pub proof fn a_compared_chain_is_in_the_response(
    chain: Option<(Map<u32, Hash256>, Map<u32, Hash256>)>,
    anchors: OrderedSet<(ConfirmationBlockTime, Txid)>,
)
    ensures
        chain_of(chain, anchors) is Some <==> chain is Some,
{
}

} // verus!
