//! The client with its caches, and what it does with the transactions of a wallet.
use std::sync::Arc;

use vstd::prelude::*;

use crate::chain::{ConfirmationBlockTime, Header};
use crate::electrum::error::Error;
use crate::hash::{BlockHash, Txid};
use crate::ordered::OrderedMap;
use crate::tx::{share_tx, tx_views, txid_of, Transaction, TransactionView};

verus! {

/// Wrapper around an Electrum client with an internal in-memory cache.
#[derive(Debug)]
pub struct BdkElectrumClient<C> {
    inner: C,
    tx_cache: OrderedMap<Txid, Arc<Transaction>>,
    block_header_cache: OrderedMap<u32, Header>,
    anchor_cache: OrderedMap<(Txid, BlockHash), ConfirmationBlockTime>,
}

/// How the fetch of a transaction goes on.
#[derive(Debug, PartialEq)]
pub enum TxFetch {
    /// Here it is.
    Found(Arc<Transaction>),
    /// The server has to be asked for it.
    Request,
    /// It cannot be had.
    Failed(Error),
}

/// A cache of transactions with some more.
pub open spec fn with_txs(
    cache: Map<Txid, TransactionView>,
    txs: Seq<TransactionView>,
) -> Map<Txid, TransactionView>
    decreases txs.len(),
{
    if txs.len() == 0 {
        cache
    } else {
        with_txs(cache, txs.drop_last()).insert(txid_of(txs.last()), txs.last())
    }
}

/// A cache of anchors with those of a transaction.
pub open spec fn with_tx_anchors(
    cache: Map<(Txid, BlockHash), ConfirmationBlockTime>,
    txid: Txid,
    anchors: Seq<ConfirmationBlockTime>,
) -> Map<(Txid, BlockHash), ConfirmationBlockTime>
    decreases anchors.len(),
{
    if anchors.len() == 0 {
        cache
    } else {
        with_tx_anchors(cache, txid, anchors.drop_last()).insert(
            (txid, anchors.last().block_id.hash),
            anchors.last(),
        )
    }
}

/// A cache of anchors with those of some transactions.
pub open spec fn with_all_anchors(
    cache: Map<(Txid, BlockHash), ConfirmationBlockTime>,
    tx_anchors: Seq<(Txid, Vec<ConfirmationBlockTime>)>,
) -> Map<(Txid, BlockHash), ConfirmationBlockTime>
    decreases tx_anchors.len(),
{
    if tx_anchors.len() == 0 {
        cache
    } else {
        with_tx_anchors(
            with_all_anchors(cache, tx_anchors.drop_last()),
            tx_anchors.last().0,
            tx_anchors.last().1@,
        )
    }
}

impl<C> BdkElectrumClient<C> {
    /// The client that is wrapped.
    pub closed spec fn handle(&self) -> C {
        self.inner
    }

    /// The transactions in the cache.
    pub closed spec fn txs(&self) -> Map<Txid, TransactionView> {
        self.tx_cache@
    }

    /// The block headers in the cache.
    pub closed spec fn headers(&self) -> Map<u32, Header> {
        self.block_header_cache@
    }

    /// The anchors in the cache.
    pub closed spec fn anchors(&self) -> Map<(Txid, BlockHash), ConfirmationBlockTime> {
        self.anchor_cache@
    }

    /// Creates a new BDK electrum client.
    pub fn new(client: C) -> (r: Self)
        ensures
            r.handle() == client,
            r.txs() == Map::<Txid, TransactionView>::empty(),
            r.headers() == Map::<u32, Header>::empty(),
            r.anchors() == Map::<(Txid, BlockHash), ConfirmationBlockTime>::empty(),
    {
        BdkElectrumClient {
            inner: client,
            tx_cache: OrderedMap::new(),
            block_header_cache: OrderedMap::new(),
            anchor_cache: OrderedMap::new(),
        }
    }

    /// The client that is wrapped.
    pub fn deref(&self) -> (r: &C)
        ensures
            *r == self.handle(),
    {
        &self.inner
    }

    /// Insert anchors into the anchor cache so that the client will not re-fetch them.
    ///
    /// Typically used to pre-populate the cache from an existing graph of transactions.
    pub fn populate_anchor_cache(&mut self, tx_anchors: &Vec<(Txid, Vec<ConfirmationBlockTime>)>)
        ensures
            final(self).handle() == old(self).handle(),
            final(self).txs() == old(self).txs(),
            final(self).headers() == old(self).headers(),
            final(self).anchors() == with_all_anchors(old(self).anchors(), tx_anchors@),
    {
        let mut i: usize = 0;
        while i < tx_anchors.len()
            invariant
                i <= tx_anchors.len(),
                self.handle() == old(self).handle(),
                self.txs() == old(self).txs(),
                self.headers() == old(self).headers(),
                self.anchors() == with_all_anchors(
                    old(self).anchors(),
                    tx_anchors@.take(i as int),
                ),
            decreases tx_anchors.len() - i,
        {
            let txid = tx_anchors[i].0;
            let anchors = &tx_anchors[i].1;
            let ghost before = self.anchors();
            let mut j: usize = 0;
            while j < anchors.len()
                invariant
                    j <= anchors.len(),
                    self.handle() == old(self).handle(),
                    self.txs() == old(self).txs(),
                    self.headers() == old(self).headers(),
                    self.anchors() == with_tx_anchors(before, txid, anchors@.take(j as int)),
                decreases anchors.len() - j,
            {
                let anchor = anchors[j];
                self.cache_anchor(txid, anchor);
                proof {
                    assert(anchors@.take(j + 1).drop_last() =~= anchors@.take(j as int));
                }
                j = j + 1;
            }
            proof {
                assert(anchors@.take(anchors@.len() as int) =~= anchors@);
                assert(tx_anchors@.take(i + 1).drop_last() =~= tx_anchors@.take(i as int));
            }
            i = i + 1;
        }
        proof {
            assert(tx_anchors@.take(tx_anchors@.len() as int) =~= tx_anchors@);
        }
    }

    /// Inserts transactions into the cache so they do not need to be fetched again.
    pub fn populate_tx_cache(&mut self, txs: &Vec<Arc<Transaction>>)
        ensures
            final(self).handle() == old(self).handle(),
            final(self).txs() == with_txs(old(self).txs(), tx_views(txs@)),
            final(self).headers() == old(self).headers(),
            final(self).anchors() == old(self).anchors(),
    {
        let ghost views = tx_views(txs@);
        let mut i: usize = 0;
        while i < txs.len()
            invariant
                i <= txs.len(),
                views == tx_views(txs@),
                self.handle() == old(self).handle(),
                self.txs() == with_txs(old(self).txs(), views.take(i as int)),
                self.headers() == old(self).headers(),
                self.anchors() == old(self).anchors(),
            decreases txs.len() - i,
        {
            let tx = &txs[i];
            self.tx_cache.insert(tx.compute_txid(), share_tx(tx));
            proof {
                assert(views.take(i + 1).drop_last() =~= views.take(i as int));
            }
            i = i + 1;
        }
        proof {
            assert(views.take(views.len() as int) =~= views);
        }
    }

    /// The transaction in the cache, if it is there.
    pub fn cached_tx(&self, txid: &Txid) -> (r: Option<Arc<Transaction>>)
        ensures
            match r {
                Some(tx) => self.txs().contains_key(*txid) && tx@ == self.txs()[*txid],
                None => !self.txs().contains_key(*txid),
            },
    {
        match self.tx_cache.get(txid) {
            Some(tx) => Some(share_tx(tx)),
            None => None,
        }
    }

    /// Puts a transaction into the cache.
    pub fn cache_tx(&mut self, txid: Txid, tx: Transaction) -> (r: Arc<Transaction>)
        ensures
            r@ == tx@,
            final(self).handle() == old(self).handle(),
            final(self).txs() == old(self).txs().insert(txid, tx@),
            final(self).headers() == old(self).headers(),
            final(self).anchors() == old(self).anchors(),
    {
        let tx = Arc::new(tx);
        self.tx_cache.insert(txid, share_tx(&tx));
        tx
    }

    /// The block header in the cache, if it is there.
    pub fn cached_header(&self, height: u32) -> (r: Option<Header>)
        ensures
            r == self.headers().get(height),
    {
        match self.block_header_cache.get(&height) {
            Some(header) => Some(*header),
            None => None,
        }
    }

    /// Puts a block header into the cache.
    pub fn cache_header(&mut self, height: u32, header: Header)
        ensures
            final(self).handle() == old(self).handle(),
            final(self).txs() == old(self).txs(),
            final(self).headers() == old(self).headers().insert(height, header),
            final(self).anchors() == old(self).anchors(),
    {
        self.block_header_cache.insert(height, header);
    }

    /// The anchor in the cache, if it is there.
    pub fn cached_anchor(&self, txid: Txid, hash: BlockHash) -> (r: Option<ConfirmationBlockTime>)
        ensures
            r == self.anchors().get((txid, hash)),
    {
        match self.anchor_cache.get(&(txid, hash)) {
            Some(anchor) => Some(*anchor),
            None => None,
        }
    }

    /// Puts an anchor into the cache.
    pub fn cache_anchor(&mut self, txid: Txid, anchor: ConfirmationBlockTime)
        ensures
            final(self).handle() == old(self).handle(),
            final(self).txs() == old(self).txs(),
            final(self).headers() == old(self).headers(),
            final(self).anchors() == old(self).anchors().insert(
                (txid, anchor.block_id.hash),
                anchor,
            ),
    {
        self.anchor_cache.insert((txid, anchor.block_id.hash), anchor);
    }

    /// Fetches a transaction by id, using the local cache first. What the server answered, once it
    /// was asked, goes into the cache.
    pub fn fetch_tx(&mut self, txid: Txid, reply: Option<Result<Transaction, Error>>) -> (r: TxFetch)
        ensures
            final(self).handle() == old(self).handle(),
            final(self).headers() == old(self).headers(),
            final(self).anchors() == old(self).anchors(),
            match r {
                TxFetch::Found(tx) => if old(self).txs().contains_key(txid) {
                    tx@ == old(self).txs()[txid] && final(self).txs() == old(self).txs()
                } else {
                    reply is Some && reply->0 is Ok && tx@ == reply->0->Ok_0@ && final(self).txs()
                        == old(self).txs().insert(txid, tx@)
                },
                TxFetch::Request => {
                    &&& !old(self).txs().contains_key(txid)
                    &&& reply is None
                    &&& final(self).txs() == old(self).txs()
                },
                TxFetch::Failed(e) => !old(self).txs().contains_key(txid) && reply == Some(
                    Err::<Transaction, Error>(e),
                ) && final(self).txs() == old(self).txs(),
            },
    {
        if let Some(tx) = self.cached_tx(&txid) {
            return TxFetch::Found(tx);
        }
        match reply {
            Some(Ok(tx)) => TxFetch::Found(self.cache_tx(txid, tx)),
            Some(Err(e)) => TxFetch::Failed(e),
            None => TxFetch::Request,
        }
    }
}

/// Each transaction is in the cache under its own id, and nothing else in the cache changes.
pub proof fn transactions_are_cached_by_their_ids(
    cache: Map<Txid, TransactionView>,
    txs: Seq<TransactionView>,
    i: int,
    other: Txid,
)
    ensures
        0 <= i < txs.len() ==> with_txs(cache, txs).contains_key(txid_of(txs[i])),
        0 <= i < txs.len() && (forall|j: int|
            i < j < txs.len() ==> txid_of(#[trigger] txs[j]) != txid_of(txs[i])) ==> with_txs(
            cache,
            txs,
        )[txid_of(txs[i])] == txs[i],
        (forall|j: int| 0 <= j < txs.len() ==> txid_of(#[trigger] txs[j]) != other) ==> with_txs(
            cache,
            txs,
        ).get(other) == cache.get(other),
    decreases txs.len(),
{
    if txs.len() > 0 {
        let init = txs.drop_last();
        transactions_are_cached_by_their_ids(cache, init, i, other);
        assert forall|j: int| 0 <= j < init.len() implies #[trigger] init[j] == txs[j] by {}
        assert(txs[txs.len() - 1] == txs.last());
        if 0 <= i < init.len() && (forall|j: int|
            i < j < txs.len() ==> txid_of(#[trigger] txs[j]) != txid_of(txs[i])) {
            assert forall|j: int| i < j < init.len() implies txid_of(#[trigger] init[j])
                != txid_of(init[i]) by {
                assert(txid_of(txs[j]) != txid_of(txs[i]));
            }
        }
        if forall|j: int| 0 <= j < txs.len() ==> txid_of(#[trigger] txs[j]) != other {
            assert forall|j: int| 0 <= j < init.len() implies txid_of(#[trigger] init[j])
                != other by {
                assert(txid_of(txs[j]) != other);
            }
        }
    }
}

/// Each anchor of a transaction is in the cache for that transaction and the hash of its block; what the
/// cache has of other transactions stays.
pub proof fn anchors_of_a_transaction_are_cached(
    cache: Map<(Txid, BlockHash), ConfirmationBlockTime>,
    txid: Txid,
    anchors: Seq<ConfirmationBlockTime>,
    i: int,
    other: (Txid, BlockHash),
)
    ensures
        0 <= i < anchors.len() ==> with_tx_anchors(cache, txid, anchors).contains_key(
            (txid, anchors[i].block_id.hash),
        ),
        0 <= i < anchors.len() && (forall|j: int|
            i < j < anchors.len() ==> (#[trigger] anchors[j]).block_id.hash
                != anchors[i].block_id.hash) ==> with_tx_anchors(cache, txid, anchors)[(
            txid,
            anchors[i].block_id.hash,
        )] == anchors[i],
        other.0 != txid || (forall|j: int|
            0 <= j < anchors.len() ==> (#[trigger] anchors[j]).block_id.hash != other.1)
            ==> with_tx_anchors(cache, txid, anchors).get(other) == cache.get(other),
        cache.contains_key(other) ==> with_tx_anchors(cache, txid, anchors).contains_key(other),
    decreases anchors.len(),
{
    if anchors.len() > 0 {
        let init = anchors.drop_last();
        anchors_of_a_transaction_are_cached(cache, txid, init, i, other);
        assert forall|j: int| 0 <= j < init.len() implies #[trigger] init[j] == anchors[j] by {}
        assert(anchors[anchors.len() - 1] == anchors.last());
        if 0 <= i < init.len() && (forall|j: int|
            i < j < anchors.len() ==> (#[trigger] anchors[j]).block_id.hash
                != anchors[i].block_id.hash) {
            assert forall|j: int| i < j < init.len() implies (#[trigger] init[j]).block_id.hash
                != init[i].block_id.hash by {
                assert(anchors[j].block_id.hash != anchors[i].block_id.hash);
            }
        }
        if forall|j: int|
            0 <= j < anchors.len() ==> (#[trigger] anchors[j]).block_id.hash != other.1 {
            assert forall|j: int| 0 <= j < init.len() implies (#[trigger] init[j]).block_id.hash
                != other.1 by {
                assert(anchors[j].block_id.hash != other.1);
            }
        }
    }
}

/// Every anchor that a cache is filled with is in it afterwards, for its transaction and the hash of its
/// block, and what the cache has of transactions without one stays.
pub proof fn populated_anchors_are_cached(
    cache: Map<(Txid, BlockHash), ConfirmationBlockTime>,
    tx_anchors: Seq<(Txid, Vec<ConfirmationBlockTime>)>,
    i: int,
    j: int,
    other: (Txid, BlockHash),
)
    ensures
        0 <= i < tx_anchors.len() && 0 <= j < tx_anchors[i].1@.len() ==> with_all_anchors(
            cache,
            tx_anchors,
        ).contains_key((tx_anchors[i].0, tx_anchors[i].1@[j].block_id.hash)),
        0 <= i < tx_anchors.len() && 0 <= j < tx_anchors[i].1@.len() && (forall|k: int|
            i < k < tx_anchors.len() ==> (#[trigger] tx_anchors[k]).0 != tx_anchors[i].0) && (
        forall|k: int|
            j < k < tx_anchors[i].1@.len() ==> (#[trigger] tx_anchors[i].1@[k]).block_id.hash
                != tx_anchors[i].1@[j].block_id.hash) ==> with_all_anchors(cache, tx_anchors)[(
            tx_anchors[i].0,
            tx_anchors[i].1@[j].block_id.hash,
        )] == tx_anchors[i].1@[j],
        (forall|k: int| 0 <= k < tx_anchors.len() ==> (#[trigger] tx_anchors[k]).0 != other.0)
            ==> with_all_anchors(cache, tx_anchors).get(other) == cache.get(other),
    decreases tx_anchors.len(),
{
    if tx_anchors.len() > 0 {
        let init = tx_anchors.drop_last();
        let before = with_all_anchors(cache, init);
        let (txid, anchors) = tx_anchors.last();
        populated_anchors_are_cached(cache, init, i, j, other);
        assert forall|k: int| 0 <= k < init.len() implies #[trigger] init[k] == tx_anchors[k] by {}
        assert(tx_anchors[tx_anchors.len() - 1] == tx_anchors.last());
        anchors_of_a_transaction_are_cached(before, txid, anchors@, j, other);
        if 0 <= i < init.len() && 0 <= j < tx_anchors[i].1@.len() {
            let key = (tx_anchors[i].0, tx_anchors[i].1@[j].block_id.hash);
            anchors_of_a_transaction_are_cached(before, txid, anchors@, 0, key);
            if forall|k: int|
                i < k < tx_anchors.len() ==> (#[trigger] tx_anchors[k]).0 != tx_anchors[i].0 {
                assert forall|k: int| i < k < init.len() implies (#[trigger] init[k]).0
                    != init[i].0 by {
                    assert(tx_anchors[k].0 != tx_anchors[i].0);
                }
            }
        }
        if forall|k: int| 0 <= k < tx_anchors.len() ==> (#[trigger] tx_anchors[k]).0 != other.0 {
            assert forall|k: int| 0 <= k < init.len() implies (#[trigger] init[k]).0 != other.0 by {
                assert(tx_anchors[k].0 != other.0);
            }
        }
    }
}

} // verus!
