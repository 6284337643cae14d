//! Confirmation anchors: which block headers and Merkle proofs are fetched, and what they prove.
use vstd::prelude::*;

use crate::bdk::client::BdkElectrumClient;
use crate::bdk::util::{branch_end, validate_merkle_proof};
use crate::chain::{block_hash_of, BlockId, ConfirmationBlockTime, Header};
use crate::electrum::error::Error;
use crate::electrum::types::TransactionMerkel;
use crate::hash::{BlockHash, Hash256, Txid};
use crate::ordered::{OrderedMap, OrderedSet};

verus! {

/// A Merkle proof, as contracts speak of it.
pub struct MerkleView {
    /// The height of the block containing the transaction.
    pub block_height: u32,
    /// The Merkle branch connecting the transaction to the block root.
    pub merkle: Seq<Hash256>,
    /// The transaction's position in the block's Merkle tree.
    pub pos: usize,
}

impl View for TransactionMerkel {
    type V = MerkleView;

    open spec fn view(&self) -> MerkleView {
        MerkleView { block_height: self.block_height, merkle: self.merkle@, pos: self.pos }
    }
}

/// The view of a proof that may not be there.
pub open spec fn maybe_proof(merkle: Option<TransactionMerkel>) -> Option<MerkleView> {
    match merkle {
        Some(merkle) => Some(merkle@),
        None => None,
    }
}

/// The views of proofs that may not be there.
pub open spec fn proof_views(proofs: Seq<Option<TransactionMerkel>>) -> Seq<Option<MerkleView>> {
    proofs.map_values(|merkle: Option<TransactionMerkel>| maybe_proof(merkle))
}

/// Whether a proof shows that a transaction is in the block with a header.
pub open spec fn proves(txid: Txid, header: Header, merkle: MerkleView) -> bool {
    branch_end(txid, merkle.pos as nat, merkle.merkle) == header.merkle_root
}

/// The anchor of a transaction in the block with a header.
pub open spec fn anchor_in(height: u32, header: Header) -> ConfirmationBlockTime {
    ConfirmationBlockTime {
        block_id: BlockId { height, hash: block_hash_of(header) },
        confirmation_time: header.time as u64,
    }
}

/// The headers and anchors that are known.
pub struct AnchorCaches {
    /// Block headers by height.
    pub headers: Map<u32, Header>,
    /// Anchors by transaction and block.
    pub anchors: Map<(Txid, BlockHash), ConfirmationBlockTime>,
}

/// What the fetch of anchors waits for.
#[allow(inconsistent_fields)]
pub enum AnchorWaitView {
    /// A batch of headers.
    Headers,
    /// One header after the other, since the batch failed.
    Header {
        /// The headers that came, or did not.
        got: Seq<Option<Header>>,
    },
    /// A batch of proofs.
    Proofs,
    /// One proof after the other, since the batch failed.
    Proof {
        /// The proofs that came, or did not.
        got: Seq<Option<MerkleView>>,
    },
    /// A header in place of one that is stale.
    Fresh,
    /// Nothing.
    Done,
}

/// How far the fetch of anchors is.
pub struct AnchorView {
    /// How much is asked for at once.
    pub batch_size: nat,
    /// The transactions, with the heights at which they are said to be confirmed.
    pub txs: Seq<(Txid, u32)>,
    /// The block hashes at these heights, as far as known.
    pub known: Map<u32, Hash256>,
    /// Heights whose headers are still to be fetched.
    pub missing: Seq<u32>,
    /// The anchors that were found.
    pub results: Seq<(Txid, ConfirmationBlockTime)>,
    /// Transactions whose proofs are still to be fetched.
    pub to_fetch: Seq<(Txid, u32)>,
    /// Proofs that are still to be checked.
    pub checks: Seq<(Txid, u32, Option<MerkleView>)>,
    /// What is waited for.
    pub wait: AnchorWaitView,
}

/// How many items a batch has.
pub open spec fn batch_len(len: nat, batch_size: nat) -> nat {
    if batch_size < len {
        batch_size
    } else {
        len
    }
}

/// Whether one of some transactions is said to be confirmed at a height.
pub open spec fn is_needed(txs: Seq<(Txid, u32)>, height: u32) -> bool {
    exists|i: int| 0 <= i < txs.len() && (#[trigger] txs[i]).1 == height
}

/// The block hashes at the heights of some transactions, as far as their headers are in a cache.
pub open spec fn known_hashes(
    txs: Seq<(Txid, u32)>,
    headers: Map<u32, Header>,
) -> Map<u32, Hash256> {
    Map::new(
        |height: u32| is_needed(txs, height) && headers.contains_key(height),
        |height: u32| block_hash_of(headers[height]),
    )
}

/// Whether a list holds, in ascending order, the heights of some transactions whose headers are not
/// in a cache.
pub open spec fn are_missing_heights(
    txs: Seq<(Txid, u32)>,
    headers: Map<u32, Header>,
    heights: Seq<u32>,
) -> bool {
    &&& forall|i: int, j: int| 0 <= i < j < heights.len() ==> heights[i] < heights[j]
    &&& forall|height: u32| #[trigger]
        heights.contains(height) <==> is_needed(txs, height) && !headers.contains_key(height)
}

/// There is one such list.
pub proof fn missing_heights_are_unique(
    txs: Seq<(Txid, u32)>,
    headers: Map<u32, Header>,
    a: Seq<u32>,
    b: Seq<u32>,
)
    requires
        are_missing_heights(txs, headers, a),
        are_missing_heights(txs, headers, b),
    ensures
        a == b,
{
    assert forall|height: u32| a.contains(height) == b.contains(height) by {}
    ascending_are_equal(a, b);
}

proof fn ascending_are_equal(a: Seq<u32>, b: Seq<u32>)
    requires
        forall|i: int, j: int| 0 <= i < j < a.len() ==> a[i] < a[j],
        forall|i: int, j: int| 0 <= i < j < b.len() ==> b[i] < b[j],
        forall|height: u32| #[trigger] a.contains(height) == b.contains(height),
    ensures
        a == b,
    decreases a.len(),
{
    if a.len() == 0 {
        if b.len() > 0 {
            assert(b.contains(b[0]));
            assert(a.contains(b[0]));
        }
    } else {
        assert(a.contains(a.last()));
        let j = choose|j: int| 0 <= j < b.len() && b[j] == a.last();
        assert(b.contains(b.last()));
        assert(a.contains(b.last()));
        let i = choose|i: int| 0 <= i < a.len() && a[i] == b.last();
        assert(a.last() == b.last());
        assert forall|height: u32| #[trigger]
            a.drop_last().contains(height) == b.drop_last().contains(height) by {
            if a.drop_last().contains(height) {
                let k = choose|k: int| 0 <= k < a.len() - 1 && a.drop_last()[k] == height;
                assert(a[k] == height);
                assert(a.contains(height));
                let l = choose|l: int| 0 <= l < b.len() && b[l] == height;
                assert(b.drop_last()[l] == height);
            }
            if b.drop_last().contains(height) {
                let k = choose|k: int| 0 <= k < b.len() - 1 && b.drop_last()[k] == height;
                assert(b[k] == height);
                assert(b.contains(height));
                assert(a.contains(height));
                let l = choose|l: int| 0 <= l < a.len() && a[l] == height;
                assert(a.drop_last()[l] == height);
            }
        }
        ascending_are_equal(a.drop_last(), b.drop_last());
        assert(a =~= a.drop_last().push(a.last()));
        assert(b =~= b.drop_last().push(b.last()));
    }
}

/// The transactions whose anchors are in a cache.
pub open spec fn anchored(
    txs: Seq<(Txid, u32)>,
    known: Map<u32, Hash256>,
    anchors: Map<(Txid, BlockHash), ConfirmationBlockTime>,
) -> Seq<(Txid, ConfirmationBlockTime)>
    decreases txs.len(),
{
    if txs.len() == 0 {
        Seq::empty()
    } else {
        let before = anchored(txs.drop_last(), known, anchors);
        let (txid, height) = txs.last();
        if known.contains_key(height) && anchors.contains_key((txid, known[height])) {
            before.push((txid, anchors[(txid, known[height])]))
        } else {
            before
        }
    }
}

/// The transactions whose block is known and whose anchors are not in a cache.
pub open spec fn unproven(
    txs: Seq<(Txid, u32)>,
    known: Map<u32, Hash256>,
    anchors: Map<(Txid, BlockHash), ConfirmationBlockTime>,
) -> Seq<(Txid, u32)>
    decreases txs.len(),
{
    if txs.len() == 0 {
        Seq::empty()
    } else {
        let before = unproven(txs.drop_last(), known, anchors);
        let (txid, height) = txs.last();
        if known.contains_key(height) && !anchors.contains_key((txid, known[height])) {
            before.push((txid, height))
        } else {
            before
        }
    }
}

/// An anchor that is in the cache is taken from there, and no proof of it is fetched.
pub proof fn cached_anchors_are_not_fetched(
    txs: Seq<(Txid, u32)>,
    known: Map<u32, Hash256>,
    anchors: Map<(Txid, BlockHash), ConfirmationBlockTime>,
    tx: (Txid, u32),
)
    requires
        txs.contains(tx),
        known.contains_key(tx.1),
        anchors.contains_key((tx.0, known[tx.1])),
    ensures
        anchored(txs, known, anchors).contains((tx.0, anchors[(tx.0, known[tx.1])])),
        !unproven(txs, known, anchors).contains(tx),
{
    let i = choose|i: int| 0 <= i < txs.len() && txs[i] == tx;
    anchor_is_taken(txs, known, anchors, i);
    anchor_is_not_unproven(txs, known, anchors, tx);
}

proof fn anchor_is_taken(
    txs: Seq<(Txid, u32)>,
    known: Map<u32, Hash256>,
    anchors: Map<(Txid, BlockHash), ConfirmationBlockTime>,
    i: int,
)
    requires
        0 <= i < txs.len(),
        known.contains_key(txs[i].1),
        anchors.contains_key((txs[i].0, known[txs[i].1])),
    ensures
        anchored(txs, known, anchors).contains((txs[i].0, anchors[(txs[i].0, known[txs[i].1])])),
    decreases txs.len(),
{
    let found = (txs[i].0, anchors[(txs[i].0, known[txs[i].1])]);
    let after = anchored(txs, known, anchors);
    if i == txs.len() - 1 {
        assert(after[after.len() - 1] == found);
    } else {
        let init = txs.drop_last();
        let before = anchored(init, known, anchors);
        assert(init[i] == txs[i]);
        anchor_is_taken(init, known, anchors, i);
        let j = choose|j: int| 0 <= j < before.len() && before[j] == found;
        assert(after[j] == found);
    }
}

proof fn anchor_is_not_unproven(
    txs: Seq<(Txid, u32)>,
    known: Map<u32, Hash256>,
    anchors: Map<(Txid, BlockHash), ConfirmationBlockTime>,
    tx: (Txid, u32),
)
    requires
        known.contains_key(tx.1),
        anchors.contains_key((tx.0, known[tx.1])),
    ensures
        !unproven(txs, known, anchors).contains(tx),
    decreases txs.len(),
{
    if txs.len() > 0 {
        let before = unproven(txs.drop_last(), known, anchors);
        let after = unproven(txs, known, anchors);
        anchor_is_not_unproven(txs.drop_last(), known, anchors, tx);
        if after.contains(tx) {
            let j = choose|j: int| 0 <= j < after.len() && after[j] == tx;
            if j < before.len() {
                assert(before[j] == tx);
            }
        }
    }
}

/// Headers of which each is there.
pub open spec fn all_there(headers: Seq<Header>) -> Seq<Option<Header>> {
    headers.map_values(|header: Header| Some(header))
}

/// The hashes of headers, each put down for its own height. A height whose header did not come is
/// left out.
pub open spec fn with_hashes(
    known: Map<u32, Hash256>,
    heights: Seq<u32>,
    headers: Seq<Option<Header>>,
    n: int,
) -> Map<u32, Hash256>
    decreases n,
{
    if n <= 0 {
        known
    } else {
        let before = with_hashes(known, heights, headers, n - 1);
        match headers[n - 1] {
            Some(header) => before.insert(heights[n - 1], block_hash_of(header)),
            None => before,
        }
    }
}

/// Headers, each put down for its own height. A height whose header did not come is left out.
pub open spec fn with_headers(
    cache: Map<u32, Header>,
    heights: Seq<u32>,
    headers: Seq<Option<Header>>,
    n: int,
) -> Map<u32, Header>
    decreases n,
{
    if n <= 0 {
        cache
    } else {
        let before = with_headers(cache, heights, headers, n - 1);
        match headers[n - 1] {
            Some(header) => before.insert(heights[n - 1], header),
            None => before,
        }
    }
}

/// The lesser of two lengths.
pub open spec fn lesser(a: nat, b: nat) -> int {
    if a < b {
        a as int
    } else {
        b as int
    }
}

/// Goes on to the proofs, if there are any to be fetched.
pub open spec fn to_proofs(state: AnchorView) -> AnchorView {
    AnchorView {
        wait: if state.to_fetch.len() > 0 {
            AnchorWaitView::Proofs
        } else {
            AnchorWaitView::Done
        },
        ..state
    }
}

/// Goes on to the next headers, and once there are none to the proofs of what has no anchor yet.
pub open spec fn to_headers(state: AnchorView, caches: AnchorCaches) -> AnchorView {
    if state.missing.len() > 0 {
        AnchorView { wait: AnchorWaitView::Headers, ..state }
    } else {
        to_proofs(
            AnchorView {
                results: state.results + anchored(state.txs, state.known, caches.anchors),
                to_fetch: unproven(state.txs, state.known, caches.anchors),
                ..state
            },
        )
    }
}

/// Takes in the headers of a batch, or those of them that came.
pub open spec fn take_headers(
    state: AnchorView,
    caches: AnchorCaches,
    headers: Seq<Option<Header>>,
) -> (AnchorView, AnchorCaches) {
    let size = batch_len(state.missing.len(), state.batch_size);
    let n = lesser(size, headers.len());
    let caches = AnchorCaches {
        headers: with_headers(caches.headers, state.missing, headers, n),
        ..caches
    };
    let state = AnchorView {
        known: with_hashes(state.known, state.missing, headers, n),
        missing: state.missing.skip(size as int),
        ..state
    };
    (to_headers(state, caches), caches)
}

/// The state with the first check done with, and an anchor for it.
pub open spec fn with_anchor_found(
    state: AnchorView,
    caches: AnchorCaches,
    header: Header,
) -> (AnchorView, AnchorCaches) {
    let (txid, height, merkle) = state.checks[0];
    let anchor = anchor_in(height, header);
    (
        AnchorView {
            checks: state.checks.drop_first(),
            results: state.results.push((txid, anchor)),
            ..state
        },
        AnchorCaches {
            anchors: caches.anchors.insert((txid, anchor.block_id.hash), anchor),
            ..caches
        },
    )
}

/// Checks proofs against the headers in the cache, until one does not hold: then its header may be
/// stale. Once all are checked, goes on to the next batch.
pub open spec fn run_checks(state: AnchorView, caches: AnchorCaches) -> (AnchorView, AnchorCaches)
    decreases state.checks.len(),
{
    if state.checks.len() == 0 {
        let size = batch_len(state.to_fetch.len(), state.batch_size);
        (to_proofs(AnchorView { to_fetch: state.to_fetch.skip(size as int), ..state }), caches)
    } else {
        let (txid, height, merkle) = state.checks[0];
        match merkle {
            None => run_checks(AnchorView { checks: state.checks.drop_first(), ..state }, caches),
            Some(merkle) => if caches.headers.contains_key(height) && proves(
                txid,
                caches.headers[height],
                merkle,
            ) {
                let (state, caches) = with_anchor_found(state, caches, caches.headers[height]);
                run_checks(state, caches)
            } else {
                (AnchorView { wait: AnchorWaitView::Fresh, ..state }, caches)
            },
        }
    }
}

/// Takes in the proofs of a batch.
pub open spec fn take_proofs(
    state: AnchorView,
    caches: AnchorCaches,
    proofs: Seq<Option<MerkleView>>,
) -> (AnchorView, AnchorCaches) {
    let size = batch_len(state.to_fetch.len(), state.batch_size);
    let checks = Seq::new(
        lesser(size, proofs.len()) as nat,
        |i: int| (state.to_fetch[i].0, state.to_fetch[i].1, proofs[i]),
    );
    run_checks(AnchorView { checks, ..state }, caches)
}

/// Takes in a header in place of one that may be stale: a proof that does not hold against it either
/// is given up, and so is one for which no header came.
pub open spec fn take_fresh(
    state: AnchorView,
    caches: AnchorCaches,
    fresh: Option<Header>,
) -> (AnchorView, AnchorCaches) {
    let (txid, height, merkle) = state.checks[0];
    let dropped = AnchorView { checks: state.checks.drop_first(), ..state };
    match fresh {
        None => run_checks(dropped, caches),
        Some(header) => {
            let caches = AnchorCaches {
                headers: caches.headers.insert(height, header),
                ..caches
            };
            if merkle is Some && proves(txid, header, merkle->0) {
                let (state, caches) = with_anchor_found(state, caches, header);
                run_checks(state, caches)
            } else {
                run_checks(dropped, caches)
            }
        },
    }
}

/// What the server answered.
pub enum AnchorEvent {
    /// To the request for a batch of headers.
    Headers(Result<Vec<Header>, Error>),
    /// To the request for a header.
    Header(Result<Header, Error>),
    /// To the request for a batch of proofs; a proof that could not be had is missing.
    Proofs(Result<Vec<Option<TransactionMerkel>>, Error>),
    /// To the request for a proof.
    Proof(Result<TransactionMerkel, Error>),
}

/// What is asked of the server.
#[derive(Debug, PartialEq, Eq)]
pub enum AnchorAsk {
    /// The headers at some heights.
    Headers(Vec<u32>),
    /// The header at a height.
    Header(u32),
    /// The proofs of some transactions.
    Proofs(Vec<(Txid, u32)>),
    /// The proof of a transaction.
    Proof(Txid, u32),
    /// Nothing more.
    Done,
}

/// How an answer changes the fetch of anchors. A batch that failed is asked for again one by one. An
/// answer to something that was not asked changes nothing.
pub open spec fn anchor_step(
    state: AnchorView,
    caches: AnchorCaches,
    event: AnchorEvent,
) -> (AnchorView, AnchorCaches) {
    match (state.wait, event) {
        (AnchorWaitView::Headers, AnchorEvent::Headers(Ok(headers))) => take_headers(
            state,
            caches,
            all_there(headers@),
        ),
        (AnchorWaitView::Headers, AnchorEvent::Headers(Err(e))) => (
            AnchorView { wait: AnchorWaitView::Header { got: Seq::empty() }, ..state },
            caches,
        ),
        (AnchorWaitView::Header { got }, AnchorEvent::Header(reply)) => {
            let got = match reply {
                Ok(header) => got.push(Some(header)),
                Err(e) => got.push(None),
            };
            if got.len() < batch_len(state.missing.len(), state.batch_size) {
                (AnchorView { wait: AnchorWaitView::Header { got }, ..state }, caches)
            } else {
                take_headers(state, caches, got)
            }
        },
        (AnchorWaitView::Proofs, AnchorEvent::Proofs(Ok(proofs))) => take_proofs(
            state,
            caches,
            proof_views(proofs@),
        ),
        (AnchorWaitView::Proofs, AnchorEvent::Proofs(Err(e))) => (
            AnchorView { wait: AnchorWaitView::Proof { got: Seq::empty() }, ..state },
            caches,
        ),
        (AnchorWaitView::Proof { got }, AnchorEvent::Proof(reply)) => {
            let got = match reply {
                Ok(merkle) => got.push(Some(merkle@)),
                Err(e) => got.push(None),
            };
            if got.len() < batch_len(state.to_fetch.len(), state.batch_size) {
                (AnchorView { wait: AnchorWaitView::Proof { got }, ..state }, caches)
            } else {
                take_proofs(state, caches, got)
            }
        },
        (AnchorWaitView::Fresh, AnchorEvent::Header(reply)) => take_fresh(
            state,
            caches,
            match reply {
                Ok(header) => Some(header),
                Err(e) => None,
            },
        ),
        _ => (state, caches),
    }
}

/// Whether this is what has to be asked next.
pub open spec fn is_asked(state: AnchorView, ask: AnchorAsk) -> bool {
    match ask {
        AnchorAsk::Headers(heights) => state.wait is Headers && heights@ == state.missing.take(
            batch_len(state.missing.len(), state.batch_size) as int,
        ),
        AnchorAsk::Header(height) => match state.wait {
            AnchorWaitView::Header { got } => got.len() < state.missing.len() && height
                == state.missing[got.len() as int],
            AnchorWaitView::Fresh => state.checks.len() > 0 && height == state.checks[0].1,
            _ => false,
        },
        AnchorAsk::Proofs(txs) => state.wait is Proofs && txs@ == state.to_fetch.take(
            batch_len(state.to_fetch.len(), state.batch_size) as int,
        ),
        AnchorAsk::Proof(txid, height) => match state.wait {
            AnchorWaitView::Proof { got } => got.len() < state.to_fetch.len() && (txid, height)
                == state.to_fetch[got.len() as int],
            _ => false,
        },
        AnchorAsk::Done => state.wait is Done,
    }
}

/// What the fetch of anchors waits for.
#[allow(inconsistent_fields)]
enum AnchorWait {
    Headers,
    Header { got: Vec<Option<Header>> },
    Proofs,
    Proof { got: Vec<Option<TransactionMerkel>> },
    Fresh,
    Done,
}

/// The fetch of the anchors of some transactions. It is asked what the server is to be asked, and
/// told what the server answers.
pub struct AnchorFetch {
    batch_size: usize,
    txs: Vec<(Txid, u32)>,
    known: OrderedMap<u32, BlockHash>,
    missing: Vec<u32>,
    missing_next: usize,
    results: Vec<(Txid, ConfirmationBlockTime)>,
    to_fetch: Vec<(Txid, u32)>,
    fetch_next: usize,
    // the next check is the last one of the list
    checks: Vec<(Txid, u32, Option<TransactionMerkel>)>,
    wait: AnchorWait,
}

/// The views of proofs to be checked.
spec fn check_views(
    checks: Seq<(Txid, u32, Option<TransactionMerkel>)>,
) -> Seq<(Txid, u32, Option<MerkleView>)> {
    checks.map_values(
        |check: (Txid, u32, Option<TransactionMerkel>)| (check.0, check.1, maybe_proof(check.2)),
    )
}

spec fn wait_view(wait: AnchorWait) -> AnchorWaitView {
    match wait {
        AnchorWait::Headers => AnchorWaitView::Headers,
        AnchorWait::Header { got } => AnchorWaitView::Header { got: got@ },
        AnchorWait::Proofs => AnchorWaitView::Proofs,
        AnchorWait::Proof { got } => AnchorWaitView::Proof { got: proof_views(got@) },
        AnchorWait::Fresh => AnchorWaitView::Fresh,
        AnchorWait::Done => AnchorWaitView::Done,
    }
}

/// Whether there is something that is waited for.
pub open spec fn is_consistent(state: AnchorView) -> bool {
    &&& state.batch_size > 0
    &&& match state.wait {
        AnchorWaitView::Headers => state.missing.len() > 0,
        AnchorWaitView::Header { got } => got.len() < batch_len(
            state.missing.len(),
            state.batch_size,
        ),
        AnchorWaitView::Proofs => state.to_fetch.len() > 0,
        AnchorWaitView::Proof { got } => got.len() < batch_len(
            state.to_fetch.len(),
            state.batch_size,
        ),
        AnchorWaitView::Fresh => state.checks.len() > 0 && state.checks[0].2 is Some,
        AnchorWaitView::Done => true,
    }
}

impl View for AnchorFetch {
    type V = AnchorView;

    closed spec fn view(&self) -> AnchorView {
        AnchorView {
            batch_size: self.batch_size as nat,
            txs: self.txs@,
            known: self.known@,
            missing: self.missing@.skip(self.missing_next as int),
            results: self.results@,
            to_fetch: self.to_fetch@.skip(self.fetch_next as int),
            checks: check_views(self.checks@).reverse(),
            wait: wait_view(self.wait),
        }
    }
}

/// What the fetch of the anchors of some transactions begins with, at most `batch_size` things at
/// once: first the headers that are not in the cache, in the order of their heights, and then the
/// proofs of what has no anchor in the cache.
pub open spec fn anchor_start(
    txs: Seq<(Txid, u32)>,
    batch_size: nat,
    caches: AnchorCaches,
) -> AnchorView {
    to_headers(
        AnchorView {
            batch_size,
            txs,
            known: known_hashes(txs, caches.headers),
            missing: choose|missing: Seq<u32>| are_missing_heights(txs, caches.headers, missing),
            results: Seq::empty(),
            to_fetch: Seq::empty(),
            checks: Seq::empty(),
            wait: AnchorWaitView::Done,
        },
        caches,
    )
}

/// The headers and anchors that a client has in its caches.
pub open spec fn anchor_caches<C>(client: BdkElectrumClient<C>) -> AnchorCaches {
    AnchorCaches { headers: client.headers(), anchors: client.anchors() }
}

/// Whether a client still has what it had besides headers and anchors.
pub open spec fn keeps_rest<C>(before: BdkElectrumClient<C>, after: BdkElectrumClient<C>) -> bool {
    after.handle() == before.handle() && after.txs() == before.txs()
}

/// The lesser of two lengths.
fn min_len(a: usize, b: usize) -> (r: usize)
    ensures
        r == lesser(a as nat, b as nat),
        r == batch_len(a as nat, b as nat),
{
    if a < b {
        a
    } else {
        b
    }
}

impl AnchorFetch {
    /// Whether the positions in the lists are positions in them.
    closed spec fn in_bounds(&self) -> bool {
        &&& self.missing_next <= self.missing.len()
        &&& self.fetch_next <= self.to_fetch.len()
    }

    /// Whether the fetch is one that was begun with [`AnchorFetch::new`].
    pub closed spec fn wf(&self) -> bool {
        self.in_bounds() && is_consistent(self@)
    }

    /// The size of the batch of headers.
    fn header_batch(&self) -> (r: usize)
        requires
            self.in_bounds(),
        ensures
            r == batch_len(self@.missing.len(), self@.batch_size),
            r <= self.missing.len() - self.missing_next,
    {
        min_len(self.missing.len() - self.missing_next, self.batch_size)
    }

    /// The size of the batch of proofs.
    fn proof_batch(&self) -> (r: usize)
        requires
            self.in_bounds(),
        ensures
            r == batch_len(self@.to_fetch.len(), self@.batch_size),
            r <= self.to_fetch.len() - self.fetch_next,
    {
        min_len(self.to_fetch.len() - self.fetch_next, self.batch_size)
    }

    /// Goes on to the proofs.
    fn enter_proofs(&mut self)
        requires
            old(self).in_bounds(),
        ensures
            final(self).in_bounds(),
            final(self)@ == to_proofs(old(self)@),
    {
        if self.fetch_next < self.to_fetch.len() {
            self.wait = AnchorWait::Proofs;
        } else {
            self.wait = AnchorWait::Done;
        }
    }

    /// Goes on to the next headers, and once there are none to the proofs.
    fn enter_headers<C>(&mut self, client: &BdkElectrumClient<C>)
        requires
            old(self).in_bounds(),
        ensures
            final(self).in_bounds(),
            final(self)@ == to_headers(old(self)@, anchor_caches(*client)),
    {
        if self.missing_next < self.missing.len() {
            self.wait = AnchorWait::Headers;
            return;
        }
        let ghost caches = anchor_caches(*client);
        let ghost before = self@;
        let ghost known = self@.known;
        let ghost txs = self@.txs;
        let mut to_fetch: Vec<(Txid, u32)> = Vec::new();
        let mut i: usize = 0;
        proof {
            assert(self.results@ =~= before.results + anchored(txs.take(0), known, caches.anchors));
            assert(to_fetch@ =~= unproven(txs.take(0), known, caches.anchors));
        }
        while i < self.txs.len()
            invariant
                i <= self.txs.len(),
                self.in_bounds(),
                caches == anchor_caches(*client),
                known == self@.known,
                txs == self.txs@,
                self@ == (AnchorView {
                    results: before.results + anchored(txs.take(i as int), known, caches.anchors),
                    ..before
                }),
                to_fetch@ == unproven(txs.take(i as int), known, caches.anchors),
            decreases self.txs.len() - i,
        {
            let (txid, height) = self.txs[i];
            let ghost results = self.results@;
            proof {
                assert(txs.take(i + 1).drop_last() =~= txs.take(i as int));
                assert(txs.take(i + 1).last() == (txid, height));
            }
            if let Some(hash) = self.known.get(&height) {
                match client.cached_anchor(txid, *hash) {
                    Some(anchor) => {
                        self.results.push((txid, anchor));
                        proof {
                            assert(self.results@ =~= before.results + anchored(
                                txs.take(i + 1),
                                known,
                                caches.anchors,
                            ));
                        }
                    },
                    None => {
                        to_fetch.push((txid, height));
                    },
                }
            }
            i = i + 1;
        }
        proof {
            assert(txs.take(txs.len() as int) =~= txs);
        }
        self.fetch_next = 0;
        self.to_fetch = to_fetch;
        proof {
            assert(self@.to_fetch =~= unproven(txs, known, caches.anchors));
        }
        self.enter_proofs();
    }

    /// Takes in the headers of a batch, or those of them that came.
    fn take_headers<C>(&mut self, client: &mut BdkElectrumClient<C>, headers: &Vec<Option<Header>>)
        requires
            old(self).in_bounds(),
        ensures
            final(self).in_bounds(),
            keeps_rest(*old(client), *final(client)),
            (final(self)@, anchor_caches(*final(client))) == take_headers(
                old(self)@,
                anchor_caches(*old(client)),
                headers@,
            ),
    {
        let size = self.header_batch();
        let n = min_len(size, headers.len());
        let ghost before = self@;
        let ghost cached = client.headers();
        let ghost heights = before.missing;
        let mut i: usize = 0;
        while i < n
            invariant
                i <= n,
                n <= size,
                n <= headers.len(),
                self.in_bounds(),
                size <= self.missing.len() - self.missing_next,
                heights == self.missing@.skip(self.missing_next as int),
                keeps_rest(*old(client), *client),
                client.anchors() == old(client).anchors(),
                client.headers() == with_headers(cached, heights, headers@, i as int),
                self@ == (AnchorView {
                    known: with_hashes(before.known, heights, headers@, i as int),
                    ..before
                }),
            decreases n - i,
        {
            let height = self.missing[self.missing_next + i];
            proof {
                assert(heights[i as int] == height);
            }
            if let Some(header) = &headers[i] {
                self.known.insert(height, header.block_hash());
                client.cache_header(height, *header);
            }
            i = i + 1;
        }
        self.missing_next = self.missing_next + size;
        proof {
            assert(self@.missing =~= before.missing.skip(size as int));
        }
        self.enter_headers(client);
    }

    /// Takes the next check away.
    fn drop_check(&mut self)
        requires
            old(self).in_bounds(),
            old(self)@.checks.len() > 0,
        ensures
            final(self).in_bounds(),
            final(self)@ == (AnchorView { checks: old(self)@.checks.drop_first(), ..old(self)@ }),
    {
        self.checks.pop();
        proof {
            assert(self@.checks =~= old(self)@.checks.drop_first());
        }
    }

    /// Puts an anchor down for the next check, and takes the check away.
    fn found_anchor<C>(&mut self, client: &mut BdkElectrumClient<C>, header: &Header)
        requires
            old(self).in_bounds(),
            old(self)@.checks.len() > 0,
        ensures
            final(self).in_bounds(),
            keeps_rest(*old(client), *final(client)),
            (final(self)@, anchor_caches(*final(client))) == with_anchor_found(
                old(self)@,
                anchor_caches(*old(client)),
                *header,
            ),
    {
        let last = self.checks.len() - 1;
        let (txid, height) = (self.checks[last].0, self.checks[last].1);
        let hash = header.block_hash();
        let anchor = ConfirmationBlockTime {
            block_id: BlockId { height, hash },
            confirmation_time: header.time as u64,
        };
        client.cache_anchor(txid, anchor);
        self.results.push((txid, anchor));
        self.drop_check();
    }

    /// Checks proofs, until one does not hold against the header in the cache.
    fn run_checks<C>(&mut self, client: &mut BdkElectrumClient<C>)
        requires
            old(self).in_bounds(),
        ensures
            final(self).in_bounds(),
            keeps_rest(*old(client), *final(client)),
            (final(self)@, anchor_caches(*final(client))) == run_checks(
                old(self)@,
                anchor_caches(*old(client)),
            ),
    {
        let mut is_stale = false;
        while !is_stale && self.checks.len() > 0
            invariant
                self.in_bounds(),
                keeps_rest(*old(client), *client),
                is_stale ==> (self@, anchor_caches(*client)) == run_checks(
                    old(self)@,
                    anchor_caches(*old(client)),
                ),
                !is_stale ==> run_checks(self@, anchor_caches(*client)) == run_checks(
                    old(self)@,
                    anchor_caches(*old(client)),
                ),
            decreases self@.checks.len() + if is_stale {
                0int
            } else {
                1int
            },
        {
            let last = self.checks.len() - 1;
            let (txid, height) = (self.checks[last].0, self.checks[last].1);
            let ghost check = self@.checks[0];
            proof {
                assert(check == check_views(self.checks@)[last as int]);
            }
            if let Some(merkle) = &self.checks[last].2 {
                let header = client.cached_header(height);
                let holds = match &header {
                    Some(header) => validate_merkle_proof(&txid, &header.merkle_root, merkle),
                    None => false,
                };
                match header {
                    Some(header) if holds => {
                        self.found_anchor(client, &header);
                    },
                    _ => {
                        self.wait = AnchorWait::Fresh;
                        is_stale = true;
                    },
                }
            } else {
                self.drop_check();
            }
        }
        if is_stale {
            return;
        }
        let size = self.proof_batch();
        let ghost before = self@;
        self.fetch_next = self.fetch_next + size;
        proof {
            assert(self@.to_fetch =~= before.to_fetch.skip(size as int));
        }
        self.enter_proofs();
    }

    /// Takes in the proofs of a batch.
    fn take_proofs<C>(
        &mut self,
        client: &mut BdkElectrumClient<C>,
        proofs: Vec<Option<TransactionMerkel>>,
    )
        requires
            old(self).in_bounds(),
        ensures
            final(self).in_bounds(),
            keeps_rest(*old(client), *final(client)),
            (final(self)@, anchor_caches(*final(client))) == take_proofs(
                old(self)@,
                anchor_caches(*old(client)),
                proof_views(proofs@),
            ),
    {
        let ghost views = proof_views(proofs@);
        let ghost before = self@;
        let size = self.proof_batch();
        let n = min_len(size, proofs.len());
        let mut rest = proofs;
        while rest.len() > n
            invariant
                rest.len() >= n,
                rest@ == proofs@.take(rest@.len() as int),
                rest.len() <= proofs.len(),
            decreases rest.len(),
        {
            rest.pop();
        }
        let mut checks: Vec<(Txid, u32, Option<TransactionMerkel>)> = Vec::new();
        while rest.len() > 0
            invariant
                self.in_bounds(),
                self@ == before,
                n <= size,
                n <= proofs.len(),
                size <= self.to_fetch.len() - self.fetch_next,
                rest.len() <= n,
                rest@ == proofs@.take(rest@.len() as int),
                checks.len() == n - rest.len(),
                views == proof_views(proofs@),
                forall|j: int|
                    0 <= j < checks.len() ==> #[trigger] check_views(checks@)[j] == (
                        before.to_fetch[n - 1 - j].0,
                        before.to_fetch[n - 1 - j].1,
                        views[n - 1 - j],
                    ),
            decreases rest.len(),
        {
            let at = rest.len() - 1;
            let (txid, height) = self.to_fetch[self.fetch_next + at];
            let ghost held = checks@;
            if let Some(merkle) = rest.pop() {
                proof {
                    assert(before.to_fetch[at as int] == (txid, height));
                    assert(merkle == proofs@[at as int]);
                    assert(views[at as int] == maybe_proof(merkle));
                }
                checks.push((txid, height, merkle));
                proof {
                    assert(check_views(checks@) =~= check_views(held).push(
                        (txid, height, maybe_proof(merkle)),
                    ));
                }
            }
        }
        self.checks = checks;
        proof {
            let expected = Seq::new(
                n as nat,
                |i: int| (before.to_fetch[i].0, before.to_fetch[i].1, views[i]),
            );
            assert forall|i: int| 0 <= i < n implies #[trigger] self@.checks[i] == expected[i] by {
                assert(self@.checks[i] == check_views(checks@)[n - 1 - i]);
            }
            assert(self@.checks =~= expected);
        }
        self.run_checks(client);
    }

    /// Takes in a header in place of one that may be stale.
    fn take_fresh<C>(&mut self, client: &mut BdkElectrumClient<C>, fresh: Option<Header>)
        requires
            old(self).in_bounds(),
            old(self)@.checks.len() > 0,
        ensures
            final(self).in_bounds(),
            keeps_rest(*old(client), *final(client)),
            (final(self)@, anchor_caches(*final(client))) == take_fresh(
                old(self)@,
                anchor_caches(*old(client)),
                fresh,
            ),
    {
        let last = self.checks.len() - 1;
        let (txid, height) = (self.checks[last].0, self.checks[last].1);
        proof {
            assert(self@.checks[0] == check_views(self.checks@)[last as int]);
        }
        match fresh {
            Some(header) => {
                client.cache_header(height, header);
                let holds = match &self.checks[last].2 {
                    Some(merkle) => validate_merkle_proof(&txid, &header.merkle_root, merkle),
                    None => false,
                };
                if holds {
                    self.found_anchor(client, &header);
                } else {
                    self.drop_check();
                }
            },
            None => {
                self.drop_check();
            },
        }
        self.run_checks(client);
    }
}

/// Headers of which each is there.
fn each_there(headers: &Vec<Header>) -> (r: Vec<Option<Header>>)
    ensures
        r@ == all_there(headers@),
{
    let mut r: Vec<Option<Header>> = Vec::new();
    let mut i: usize = 0;
    while i < headers.len()
        invariant
            i <= headers.len(),
            r@ == all_there(headers@.take(i as int)),
        decreases headers.len() - i,
    {
        r.push(Some(headers[i]));
        proof {
            assert(all_there(headers@.take(i + 1)) =~= all_there(headers@.take(i as int)).push(
                Some(headers@[i as int]),
            ));
        }
        i = i + 1;
    }
    proof {
        assert(headers@.take(headers@.len() as int) =~= headers@);
    }
    r
}

/// The heights of some transactions.
fn needed_heights(txs: &Vec<(Txid, u32)>) -> (r: OrderedSet<u32>)
    ensures
        forall|height: u32| #[trigger] r@.contains(height) <==> is_needed(txs@, height),
{
    let mut r: OrderedSet<u32> = OrderedSet::new();
    let mut i: usize = 0;
    while i < txs.len()
        invariant
            i <= txs.len(),
            forall|height: u32| #[trigger]
                r@.contains(height) <==> exists|j: int|
                    0 <= j < i && (#[trigger] txs@[j]).1 == height,
        decreases txs.len() - i,
    {
        let ghost before = r@;
        r.insert(txs[i].1);
        proof {
            assert forall|height: u32| #[trigger] r@.contains(height) <==> exists|j: int|
                0 <= j < i + 1 && (#[trigger] txs@[j]).1 == height by {
                if before.contains(height) {
                    let j = choose|j: int| 0 <= j < i && (#[trigger] txs@[j]).1 == height;
                    assert(txs@[j].1 == height);
                }
                if exists|j: int| 0 <= j < i + 1 && (#[trigger] txs@[j]).1 == height {
                    let j = choose|j: int| 0 <= j < i + 1 && (#[trigger] txs@[j]).1 == height;
                    if j < i {
                        assert(before.contains(height));
                    }
                }
                assert(txs@[i as int].1 == txs@[i as int].1);
            }
        }
        i = i + 1;
    }
    r
}

/// The part of a list from a position on.
fn part<T: Copy>(list: &Vec<T>, start: usize, count: usize) -> (r: Vec<T>)
    requires
        start + count <= list.len(),
    ensures
        r@ == list@.skip(start as int).take(count as int),
{
    let ghost expected = list@.skip(start as int).take(count as int);
    let mut r: Vec<T> = Vec::new();
    let mut i: usize = 0;
    while i < count
        invariant
            i <= count,
            start + count <= list.len(),
            expected == list@.skip(start as int).take(count as int),
            r@ == expected.take(i as int),
        decreases count - i,
    {
        r.push(list[start + i]);
        proof {
            assert(expected.take(i + 1) =~= expected.take(i as int).push(expected[i as int]));
        }
        i = i + 1;
    }
    proof {
        assert(expected.take(count as int) =~= expected);
    }
    r
}

/// Whether a height is among the first `n` of a list.
spec fn is_among(list: Seq<u32>, n: int, height: u32) -> bool {
    exists|j: int| 0 <= j < n && #[trigger] list[j] == height
}

/// Checking proofs leaves a fetch that waits for something.
proof fn checks_are_consistent(state: AnchorView, caches: AnchorCaches)
    requires
        state.batch_size > 0,
    ensures
        is_consistent(run_checks(state, caches).0),
    decreases state.checks.len(),
{
    if state.checks.len() > 0 {
        let (txid, height, merkle) = state.checks[0];
        match merkle {
            None => {
                checks_are_consistent(
                    AnchorView { checks: state.checks.drop_first(), ..state },
                    caches,
                );
            },
            Some(found) => {
                if caches.headers.contains_key(height) && proves(
                    txid,
                    caches.headers[height],
                    found,
                ) {
                    let (next, known) = with_anchor_found(state, caches, caches.headers[height]);
                    checks_are_consistent(next, known);
                }
            },
        }
    }
}

/// What was waited for before makes no difference to the checks.
proof fn checks_set_the_wait(state: AnchorView, caches: AnchorCaches, wait: AnchorWaitView)
    ensures
        run_checks(AnchorView { wait, ..state }, caches) == run_checks(state, caches),
    decreases state.checks.len(),
{
    if state.checks.len() > 0 {
        let (txid, height, merkle) = state.checks[0];
        match merkle {
            None => {
                checks_set_the_wait(
                    AnchorView { checks: state.checks.drop_first(), ..state },
                    caches,
                    wait,
                );
            },
            Some(found) => {
                if caches.headers.contains_key(height) && proves(
                    txid,
                    caches.headers[height],
                    found,
                ) {
                    let (next, known) = with_anchor_found(state, caches, caches.headers[height]);
                    checks_set_the_wait(next, known, wait);
                }
            },
        }
    }
}

/// What was waited for before makes no difference to proofs that came.
proof fn proofs_set_the_wait(
    state: AnchorView,
    caches: AnchorCaches,
    proofs: Seq<Option<MerkleView>>,
    wait: AnchorWaitView,
)
    ensures
        take_proofs(AnchorView { wait, ..state }, caches, proofs) == take_proofs(
            state,
            caches,
            proofs,
        ),
{
    let size = batch_len(state.to_fetch.len(), state.batch_size);
    let checks = Seq::new(
        lesser(size, proofs.len()) as nat,
        |i: int| (state.to_fetch[i].0, state.to_fetch[i].1, proofs[i]),
    );
    checks_set_the_wait(AnchorView { checks, ..state }, caches, wait);
}

/// What was waited for before makes no difference to a header that came.
proof fn fresh_sets_the_wait(
    state: AnchorView,
    caches: AnchorCaches,
    fresh: Option<Header>,
    wait: AnchorWaitView,
)
    ensures
        take_fresh(AnchorView { wait, ..state }, caches, fresh) == take_fresh(
            state,
            caches,
            fresh,
        ),
{
    let (txid, height, merkle) = state.checks[0];
    let dropped = AnchorView { checks: state.checks.drop_first(), ..state };
    checks_set_the_wait(dropped, caches, wait);
    if let Some(header) = fresh {
        let known = AnchorCaches { headers: caches.headers.insert(height, header), ..caches };
        checks_set_the_wait(dropped, known, wait);
        let (next, found) = with_anchor_found(state, known, header);
        checks_set_the_wait(next, found, wait);
    }
}

/// An answer leaves a fetch that waits for something.
proof fn step_is_consistent(state: AnchorView, caches: AnchorCaches, event: AnchorEvent)
    requires
        is_consistent(state),
    ensures
        is_consistent(anchor_step(state, caches, event).0),
{
    match (state.wait, event) {
        (AnchorWaitView::Proofs, AnchorEvent::Proofs(Ok(proofs))) => {
            let views = proof_views(proofs@);
            let size = batch_len(state.to_fetch.len(), state.batch_size);
            let checks = Seq::new(
                lesser(size, views.len()) as nat,
                |i: int| (state.to_fetch[i].0, state.to_fetch[i].1, views[i]),
            );
            checks_are_consistent(AnchorView { checks, ..state }, caches);
        },
        (AnchorWaitView::Proof { got }, AnchorEvent::Proof(reply)) => {
            let got = match reply {
                Ok(merkle) => got.push(Some(merkle@)),
                Err(e) => got.push(None),
            };
            let size = batch_len(state.to_fetch.len(), state.batch_size);
            let checks = Seq::new(
                lesser(size, got.len()) as nat,
                |i: int| (state.to_fetch[i].0, state.to_fetch[i].1, got[i]),
            );
            checks_are_consistent(AnchorView { checks, ..state }, caches);
        },
        (AnchorWaitView::Fresh, AnchorEvent::Header(reply)) => {
            let (txid, height, merkle) = state.checks[0];
            let dropped = AnchorView { checks: state.checks.drop_first(), ..state };
            checks_are_consistent(dropped, caches);
            if let Ok(header) = reply {
                let fresh = AnchorCaches {
                    headers: caches.headers.insert(height, header),
                    ..caches
                };
                checks_are_consistent(dropped, fresh);
                let (next, known) = with_anchor_found(state, fresh, header);
                checks_are_consistent(next, known);
            }
        },
        _ => {},
    }
}

impl AnchorFetch {
    /// Begins to fetch the anchors of some transactions, at most `batch_size` things at once.
    pub fn new<C>(
        client: &BdkElectrumClient<C>,
        txs: Vec<(Txid, u32)>,
        batch_size: usize,
    ) -> (r: Self)
        requires
            batch_size > 0,
        ensures
            r.wf(),
            r@ == anchor_start(txs@, batch_size as nat, anchor_caches(*client)),
    {
        let needed = needed_heights(&txs);
        let n = needed.len();
        let ghost list = needed.list();
        let ghost headers = client.headers();
        let mut known: OrderedMap<u32, BlockHash> = OrderedMap::new();
        let mut missing: Vec<u32> = Vec::new();
        let mut i: usize = 0;
        while i < n
            invariant
                i <= n,
                n == needed.list().len(),
                list == needed.list(),
                headers == client.headers(),
                forall|a: int, b: int| 0 <= a < b < list.len() ==> list[a] < list[b],
                forall|height: u32| #[trigger]
                    known@.contains_key(height) <==> headers.contains_key(height) && is_among(
                        list,
                        i as int,
                        height,
                    ),
                forall|height: u32| #[trigger]
                    known@.contains_key(height) ==> known@[height] == block_hash_of(
                        headers[height],
                    ),
                forall|height: u32| #[trigger]
                    missing@.contains(height) <==> !headers.contains_key(height) && is_among(
                        list,
                        i as int,
                        height,
                    ),
                forall|a: int, b: int|
                    0 <= a < b < missing.len() ==> missing@[a] < missing@[b],
            decreases n - i,
        {
            let height = *needed.at(i);
            let ghost known_before = known@;
            let ghost missing_before = missing@;
            match client.cached_header(height) {
                Some(header) => {
                    known.insert(height, header.block_hash());
                },
                None => {
                    missing.push(height);
                },
            }
            proof {
                assert(list[i as int] == height);
                assert forall|h: u32| #[trigger]
                    is_among(list, i + 1, h) == (is_among(list, i as int, h) || h == height) by {
                    if is_among(list, i + 1, h) {
                        let j = choose|j: int| 0 <= j < i + 1 && #[trigger] list[j] == h;
                        if j < i {
                            assert(list[j] == h);
                        }
                    }
                    if is_among(list, i as int, h) {
                        let j = choose|j: int| 0 <= j < i && #[trigger] list[j] == h;
                        assert(list[j] == h);
                    }
                }
                assert forall|h: u32| #[trigger] missing@.contains(h) == (missing_before.contains(h)
                    || (h == height && !headers.contains_key(height))) by {
                    if missing@.contains(h) {
                        let j = choose|j: int| 0 <= j < missing@.len() && missing@[j] == h;
                        if j < missing_before.len() {
                            assert(missing_before[j] == h);
                        }
                    }
                    if missing_before.contains(h) {
                        let j = choose|j: int|
                            0 <= j < missing_before.len() && missing_before[j] == h;
                        assert(missing@[j] == h);
                    }
                    if h == height && !headers.contains_key(height) {
                        assert(missing@[missing_before.len() as int] == h);
                    }
                }
                assert forall|a: int, b: int| 0 <= a < b < missing.len() implies missing@[a]
                    < missing@[b] by {
                    assert(missing@[a] == missing_before[a]);
                    if b == missing_before.len() {
                        assert(missing_before.contains(missing_before[a]));
                        let j = choose|j: int|
                            0 <= j < i && #[trigger] list[j] == missing_before[a];
                        assert(list[j] < list[i as int]);
                    }
                }
            }
            i = i + 1;
        }
        proof {
            assert forall|height: u32| #[trigger] is_among(list, n as int, height) == is_needed(
                txs@,
                height,
            ) by {
                if is_among(list, n as int, height) {
                    let j = choose|j: int| 0 <= j < n && #[trigger] list[j] == height;
                    assert(needed@.contains(needed.list()[j]));
                }
                if is_needed(txs@, height) {
                    assert(needed@.contains(height));
                    let j = choose|j: int|
                        0 <= j < needed.list().len() && #[trigger] needed.list()[j] == height;
                    assert(list[j] == height);
                }
            }
            assert(known@ =~= known_hashes(txs@, headers));
            assert(are_missing_heights(txs@, headers, missing@));
            let chosen = choose|heights: Seq<u32>| are_missing_heights(txs@, headers, heights);
            missing_heights_are_unique(txs@, headers, missing@, chosen);
        }
        let mut r = AnchorFetch {
            batch_size,
            txs,
            known,
            missing,
            missing_next: 0,
            results: Vec::new(),
            to_fetch: Vec::new(),
            fetch_next: 0,
            checks: Vec::new(),
            wait: AnchorWait::Done,
        };
        proof {
            assert(r@.missing =~= missing@);
            assert(r@.to_fetch =~= Seq::<(Txid, u32)>::empty());
            assert(r@.checks =~= Seq::<(Txid, u32, Option<MerkleView>)>::empty());
        }
        r.enter_headers(client);
        r
    }

    /// What the server is to be asked next.
    pub fn ask(&self) -> (r: AnchorAsk)
        requires
            self.wf(),
        ensures
            is_asked(self@, r),
    {
        match &self.wait {
            AnchorWait::Headers => {
                AnchorAsk::Headers(part(&self.missing, self.missing_next, self.header_batch()))
            },
            AnchorWait::Header { got } => {
                AnchorAsk::Header(self.missing[self.missing_next + got.len()])
            },
            AnchorWait::Proofs => {
                AnchorAsk::Proofs(part(&self.to_fetch, self.fetch_next, self.proof_batch()))
            },
            AnchorWait::Proof { got } => {
                let (txid, height) = self.to_fetch[self.fetch_next + got.len()];
                AnchorAsk::Proof(txid, height)
            },
            AnchorWait::Fresh => {
                let last = self.checks.len() - 1;
                proof {
                    assert(self@.checks[0] == check_views(self.checks@)[last as int]);
                }
                AnchorAsk::Header(self.checks[last].1)
            },
            AnchorWait::Done => AnchorAsk::Done,
        }
    }

    /// Takes in what the server answered.
    pub fn step<C>(&mut self, client: &mut BdkElectrumClient<C>, event: AnchorEvent)
        requires
            old(self).wf(),
        ensures
            final(self).wf(),
            keeps_rest(*old(client), *final(client)),
            (final(self)@, anchor_caches(*final(client))) == anchor_step(
                old(self)@,
                anchor_caches(*old(client)),
                event,
            ),
    {
        proof {
            step_is_consistent(self@, anchor_caches(*client), event);
        }
        let mut wait = AnchorWait::Done;
        let ghost before = self@;
        std::mem::swap(&mut wait, &mut self.wait);
        match (wait, event) {
            (AnchorWait::Headers, AnchorEvent::Headers(Ok(headers))) => {
                self.take_headers(client, &each_there(&headers));
            },
            (AnchorWait::Headers, AnchorEvent::Headers(Err(e))) => {
                self.wait = AnchorWait::Header { got: Vec::new() };
            },
            (AnchorWait::Header { mut got }, AnchorEvent::Header(reply)) => {
                let header = match reply {
                    Ok(header) => Some(header),
                    Err(e) => None,
                };
                got.push(header);
                if got.len() < self.header_batch() {
                    self.wait = AnchorWait::Header { got };
                } else {
                    self.take_headers(client, &got);
                }
            },
            (AnchorWait::Proofs, AnchorEvent::Proofs(Ok(proofs))) => {
                proof {
                    proofs_set_the_wait(
                        before,
                        anchor_caches(*client),
                        proof_views(proofs@),
                        self@.wait,
                    );
                }
                self.take_proofs(client, proofs);
            },
            (AnchorWait::Proofs, AnchorEvent::Proofs(Err(e))) => {
                self.wait = AnchorWait::Proof { got: Vec::new() };
                proof {
                    assert(proof_views(Seq::<Option<TransactionMerkel>>::empty()) =~= Seq::empty());
                }
            },
            (AnchorWait::Proof { mut got }, AnchorEvent::Proof(reply)) => {
                let ghost held = got@;
                let merkle = match reply {
                    Ok(merkle) => Some(merkle),
                    Err(e) => None,
                };
                got.push(merkle);
                proof {
                    assert(proof_views(got@) =~= proof_views(held).push(maybe_proof(merkle)));
                }
                if got.len() < self.proof_batch() {
                    self.wait = AnchorWait::Proof { got };
                } else {
                    proof {
                        proofs_set_the_wait(
                            before,
                            anchor_caches(*client),
                            proof_views(got@),
                            self@.wait,
                        );
                    }
                    self.take_proofs(client, got);
                }
            },
            (AnchorWait::Fresh, AnchorEvent::Header(reply)) => {
                let fresh = match reply {
                    Ok(header) => Some(header),
                    Err(e) => None,
                };
                proof {
                    fresh_sets_the_wait(before, anchor_caches(*client), fresh, self@.wait);
                }
                self.take_fresh(client, fresh);
            },
            (wait, _) => {
                self.wait = wait;
            },
        }
    }

    /// The anchors that were found.
    pub fn into_results(self) -> (r: Vec<(Txid, ConfirmationBlockTime)>)
        ensures
            r@ == self@.results,
    {
        self.results
    }
}

/// Whether a result is the anchor of a transaction in a block whose header a proof of a list holds
/// against.
pub open spec fn is_proven(
    result: (Txid, ConfirmationBlockTime),
    checks: Seq<(Txid, u32, Option<MerkleView>)>,
    headers: Map<u32, Header>,
) -> bool {
    exists|i: int|
        0 <= i < checks.len() && (#[trigger] checks[i]).2 is Some && headers.contains_key(
            checks[i].1,
        ) && proves(checks[i].0, headers[checks[i].1], checks[i].2->0) && result == (
            checks[i].0,
            anchor_in(checks[i].1, headers[checks[i].1]),
        )
}

/// Checking proofs keeps the anchors that were found, and each anchor that it adds is one whose
/// Merkle proof holds against the header of the block.
pub proof fn added_anchors_are_proven(state: AnchorView, caches: AnchorCaches, i: int)
    ensures
        state.results.len() <= run_checks(state, caches).0.results.len(),
        0 <= i < state.results.len() ==> run_checks(state, caches).0.results[i]
            == state.results[i],
        state.results.len() <= i < run_checks(state, caches).0.results.len() ==> is_proven(
            run_checks(state, caches).0.results[i],
            state.checks,
            caches.headers,
        ),
    decreases state.checks.len(),
{
    if state.checks.len() > 0 {
        let (txid, height, merkle) = state.checks[0];
        let end = run_checks(state, caches).0;
        let rest = state.checks.drop_first();
        match merkle {
            None => {
                let next = AnchorView { checks: rest, ..state };
                added_anchors_are_proven(next, caches, i);
                if state.results.len() <= i < end.results.len() {
                    proven_in_longer(end.results[i], state.checks, caches.headers);
                }
            },
            Some(found) => {
                if caches.headers.contains_key(height) && proves(
                    txid,
                    caches.headers[height],
                    found,
                ) {
                    let (next, known) = with_anchor_found(state, caches, caches.headers[height]);
                    added_anchors_are_proven(next, known, i);
                    if state.results.len() < i < end.results.len() {
                        proven_in_longer(end.results[i], state.checks, caches.headers);
                    }
                    if i == state.results.len() {
                        assert(next.results[i] == (txid, anchor_in(height, caches.headers[height])));
                        assert(state.checks[0].2 is Some);
                    }
                }
            },
        }
    }
}

/// What is proven by the later proofs of a list is proven by the list.
proof fn proven_in_longer(
    result: (Txid, ConfirmationBlockTime),
    checks: Seq<(Txid, u32, Option<MerkleView>)>,
    headers: Map<u32, Header>,
)
    requires
        checks.len() > 0,
        is_proven(result, checks.drop_first(), headers),
    ensures
        is_proven(result, checks, headers),
{
    let rest = checks.drop_first();
    let i = choose|i: int|
        0 <= i < rest.len() && (#[trigger] rest[i]).2 is Some && headers.contains_key(rest[i].1)
            && proves(rest[i].0, headers[rest[i].1], rest[i].2->0) && result == (
            rest[i].0,
            anchor_in(rest[i].1, headers[rest[i].1]),
        );
    assert(checks[i + 1] == rest[i]);
}

/// A header in place of one that was stale brings an anchor only where the proof holds against it.
pub proof fn fresh_anchor_is_proven(state: AnchorView, caches: AnchorCaches, fresh: Header)
    requires
        state.checks.len() > 0,
        state.checks[0].2 is Some,
    ensures
        ({
            let (txid, height, merkle) = state.checks[0];
            let after = take_fresh(state, caches, Some(fresh)).0;
            let found = proves(txid, fresh, merkle->0);
            &&& found ==> after.results.len() > state.results.len()
                && after.results[state.results.len() as int] == (txid, anchor_in(height, fresh))
            &&& !found ==> after == run_checks(
                AnchorView { checks: state.checks.drop_first(), ..state },
                AnchorCaches { headers: caches.headers.insert(height, fresh), ..caches },
            ).0
        }),
{
    let (txid, height, merkle) = state.checks[0];
    let known = AnchorCaches { headers: caches.headers.insert(height, fresh), ..caches };
    if proves(txid, fresh, merkle->0) {
        let (next, found) = with_anchor_found(state, known, fresh);
        added_anchors_are_proven(next, found, state.results.len() as int);
    }
}

/// Of the headers at the heights of transactions, those in the cache are known by their hashes, and no
/// others are.
pub proof fn cached_headers_are_known(
    txs: Seq<(Txid, u32)>,
    headers: Map<u32, Header>,
    i: int,
    height: u32,
)
    ensures
        0 <= i < txs.len() && headers.contains_key(txs[i].1) ==> known_hashes(txs, headers).get(
            txs[i].1,
        ) == Some(block_hash_of(headers[txs[i].1])),
        !headers.contains_key(height) ==> !known_hashes(txs, headers).contains_key(height),
        (forall|k: int| 0 <= k < txs.len() ==> (#[trigger] txs[k]).1 != height) ==> !known_hashes(
            txs,
            headers,
        ).contains_key(height),
{
}

/// A fetch begins with the headers that are missing, in ascending order. Where none is, the anchors that are
/// in the cache are found at once, and the proofs of all other transactions are fetched.
pub proof fn a_fetch_begins_with_what_is_missing(
    txs: Seq<(Txid, u32)>,
    batch_size: nat,
    caches: AnchorCaches,
    missing: Seq<u32>,
    i: int,
)
    requires
        are_missing_heights(txs, caches.headers, missing),
    ensures
        ({
            let start = anchor_start(txs, batch_size, caches);
            &&& start.txs == txs
            &&& start.batch_size == batch_size
            &&& start.missing == missing
            &&& 0 <= i < txs.len() ==> (missing.contains(txs[i].1)
                <==> !caches.headers.contains_key(txs[i].1))
            &&& missing.len() > 0 ==> start.wait is Headers && start.results.len() == 0
            &&& missing.len() == 0 && 0 <= i < txs.len() ==> {
                let key = (txs[i].0, block_hash_of(caches.headers[txs[i].1]));
                &&& caches.anchors.contains_key(key) ==> start.results.contains(
                    (txs[i].0, caches.anchors[key]),
                )
                &&& !caches.anchors.contains_key(key) ==> start.to_fetch.contains(txs[i])
                    && start.wait is Proofs
            }
            &&& missing.len() == 0 && start.to_fetch.len() == 0 ==> start.wait is Done
        }),
{
    let start = anchor_start(txs, batch_size, caches);
    let chosen = choose|heights: Seq<u32>| are_missing_heights(txs, caches.headers, heights);
    missing_heights_are_unique(txs, caches.headers, missing, chosen);
    if 0 <= i < txs.len() {
        let height = txs[i].1;
        assert(is_needed(txs, height));
        assert(missing.contains(height) <==> !caches.headers.contains_key(height));
        if missing.len() == 0 {
            assert(caches.headers.contains_key(height));
            let known = known_hashes(txs, caches.headers);
            known_transactions_are_anchored_or_proven(txs, known, caches.anchors, i);
            let results = anchored(txs, known, caches.anchors);
            assert(Seq::<(Txid, ConfirmationBlockTime)>::empty() + results =~= results);
        }
    }
}

/// Of each transaction with a known header there is an anchor in the cache, which is taken, or its proof is
/// fetched. Of a transaction without one there is neither.
pub proof fn known_transactions_are_anchored_or_proven(
    txs: Seq<(Txid, u32)>,
    known: Map<u32, Hash256>,
    anchors: Map<(Txid, BlockHash), ConfirmationBlockTime>,
    i: int,
)
    requires
        0 <= i < txs.len(),
    ensures
        known.contains_key(txs[i].1) && anchors.contains_key((txs[i].0, known[txs[i].1]))
            ==> anchored(txs, known, anchors).contains(
            (txs[i].0, anchors[(txs[i].0, known[txs[i].1])]),
        ),
        known.contains_key(txs[i].1) && !anchors.contains_key((txs[i].0, known[txs[i].1]))
            ==> unproven(txs, known, anchors).contains(txs[i]),
        !known.contains_key(txs[i].1) ==> !unproven(txs, known, anchors).contains(txs[i]),
        anchored(txs, known, anchors).len() + unproven(txs, known, anchors).len() <= txs.len(),
    decreases txs.len(),
{
    let init = txs.drop_last();
    let taken = anchored(txs, known, anchors);
    let taken_before = anchored(init, known, anchors);
    let left = unproven(txs, known, anchors);
    let left_before = unproven(init, known, anchors);
    lengths_add_up(txs, known, anchors);
    if i < init.len() {
        known_transactions_are_anchored_or_proven(init, known, anchors, i);
        assert(init[i] == txs[i]);
        if taken_before.contains((txs[i].0, anchors[(txs[i].0, known[txs[i].1])])) {
            let at = choose|at: int|
                0 <= at < taken_before.len() && taken_before[at] == (
                    txs[i].0,
                    anchors[(txs[i].0, known[txs[i].1])],
                );
            assert(taken[at] == taken_before[at]);
        }
        if left_before.contains(txs[i]) {
            let at = choose|at: int| 0 <= at < left_before.len() && left_before[at] == txs[i];
            assert(left[at] == txs[i]);
        }
    } else {
        if taken.len() > taken_before.len() {
            assert(taken[taken_before.len() as int] == (
                txs[i].0,
                anchors[(txs[i].0, known[txs[i].1])],
            ));
        }
        if left.len() > left_before.len() {
            assert(left[left_before.len() as int] == txs[i]);
        }
    }
    if !known.contains_key(txs[i].1) {
        unknown_is_not_unproven(txs, known, anchors, txs[i]);
    }
}

proof fn lengths_add_up(
    txs: Seq<(Txid, u32)>,
    known: Map<u32, Hash256>,
    anchors: Map<(Txid, BlockHash), ConfirmationBlockTime>,
)
    ensures
        anchored(txs, known, anchors).len() + unproven(txs, known, anchors).len() <= txs.len(),
    decreases txs.len(),
{
    if txs.len() > 0 {
        lengths_add_up(txs.drop_last(), known, anchors);
    }
}

proof fn unknown_is_not_unproven(
    txs: Seq<(Txid, u32)>,
    known: Map<u32, Hash256>,
    anchors: Map<(Txid, BlockHash), ConfirmationBlockTime>,
    tx: (Txid, u32),
)
    requires
        !known.contains_key(tx.1),
    ensures
        !unproven(txs, known, anchors).contains(tx),
    decreases txs.len(),
{
    if txs.len() > 0 {
        let before = unproven(txs.drop_last(), known, anchors);
        let after = unproven(txs, known, anchors);
        unknown_is_not_unproven(txs.drop_last(), known, anchors, tx);
        if after.contains(tx) {
            let at = choose|at: int| 0 <= at < after.len() && after[at] == tx;
            if at < before.len() {
                assert(before[at] == tx);
            }
        }
    }
}

/// Each header of a batch is cached at the height that it was asked for at, and known there by its hash; a
/// height whose header did not come stays as it was.
pub proof fn headers_come_to_their_heights(
    cache: Map<u32, Header>,
    known: Map<u32, Hash256>,
    heights: Seq<u32>,
    headers: Seq<Option<Header>>,
    n: int,
    i: int,
    other: u32,
)
    requires
        0 <= n <= heights.len(),
        n <= headers.len(),
        forall|a: int, b: int| 0 <= a < b < heights.len() ==> heights[a] < heights[b],
    ensures
        0 <= i < n && headers[i] is Some ==> with_headers(cache, heights, headers, n).get(
            heights[i],
        ) == headers[i] && with_hashes(known, heights, headers, n).get(heights[i]) == Some(
            block_hash_of(headers[i]->0),
        ),
        0 <= i < n && headers[i] is None ==> with_headers(cache, heights, headers, n).get(
            heights[i],
        ) == cache.get(heights[i]) && with_hashes(known, heights, headers, n).get(heights[i])
            == known.get(heights[i]),
        (forall|k: int| 0 <= k < n ==> #[trigger] heights[k] != other) ==> with_headers(
            cache,
            heights,
            headers,
            n,
        ).get(other) == cache.get(other) && with_hashes(known, heights, headers, n).get(other)
            == known.get(other),
    decreases n,
{
    if n > 0 {
        headers_come_to_their_heights(cache, known, heights, headers, n - 1, i, other);
        if 0 <= i < n - 1 {
            assert(heights[i] < heights[n - 1]);
        }
        if i == n - 1 {
            headers_come_to_their_heights(
                cache,
                known,
                heights,
                headers,
                n - 1,
                0,
                heights[n - 1],
            );
            assert forall|k: int| 0 <= k < n - 1 implies #[trigger] heights[k] != heights[n
                - 1] by {
                assert(heights[k] < heights[n - 1]);
            }
        }
    }
}

/// A batch of headers is dealt with as a whole: each header that came is cached at its height, and the
/// heights of the batch are missing no more.
pub proof fn a_batch_of_headers_is_dealt_with(
    state: AnchorView,
    caches: AnchorCaches,
    headers: Vec<Header>,
    i: int,
)
    requires
        state.wait is Headers,
        forall|a: int, b: int|
            0 <= a < b < state.missing.len() ==> state.missing[a] < state.missing[b],
        headers@.len() == (if state.batch_size < state.missing.len() {
            state.batch_size
        } else {
            state.missing.len()
        }),
        0 <= i < headers@.len(),
    ensures
        ({
            let (after, then) = anchor_step(state, caches, AnchorEvent::Headers(Ok(headers)));
            &&& then.headers.get(state.missing[i]) == Some(headers@[i])
            &&& then.anchors == caches.anchors
            &&& after.known.get(state.missing[i]) == Some(block_hash_of(headers@[i]))
            &&& after.missing == state.missing.skip(headers@.len() as int)
            &&& after.missing.len() > 0 ==> after.wait is Headers
            &&& after.txs == state.txs
            &&& after.batch_size == state.batch_size
        }),
{
    headers_come_to_their_heights(
        caches.headers,
        state.known,
        state.missing,
        all_there(headers@),
        headers@.len() as int,
        i,
        0,
    );
    assert(all_there(headers@)[i] == Some(headers@[i]));
}

/// A batch that fails is asked for item by item, from its first one, and an item that fails is left out.
pub proof fn a_failed_batch_is_asked_for_item_by_item(
    state: AnchorView,
    caches: AnchorCaches,
    e: Error,
    got: Seq<Option<Header>>,
    proven: Seq<Option<MerkleView>>,
    header: Header,
    merkle: TransactionMerkel,
)
    ensures
        state.wait is Headers ==> anchor_step(state, caches, AnchorEvent::Headers(Err(e))) == (
            AnchorView {
                wait: AnchorWaitView::Header { got: Seq::<Option<Header>>::empty() },
                ..state
            },
            caches,
        ),
        state.wait is Proofs ==> anchor_step(state, caches, AnchorEvent::Proofs(Err(e))) == (
            AnchorView {
                wait: AnchorWaitView::Proof { got: Seq::<Option<MerkleView>>::empty() },
                ..state
            },
            caches,
        ),
        state.wait == (AnchorWaitView::Header { got }) && got.len() + 1 < state.missing.len()
            && got.len() + 1 < state.batch_size ==> anchor_step(
            state,
            caches,
            AnchorEvent::Header(Ok(header)),
        ) == (
            AnchorView { wait: AnchorWaitView::Header { got: got.push(Some(header)) }, ..state },
            caches,
        ) && anchor_step(state, caches, AnchorEvent::Header(Err(e))) == (
            AnchorView { wait: AnchorWaitView::Header { got: got.push(None) }, ..state },
            caches,
        ),
        state.wait == (AnchorWaitView::Proof { got: proven }) && proven.len() + 1
            < state.to_fetch.len() && proven.len() + 1 < state.batch_size ==> anchor_step(
            state,
            caches,
            AnchorEvent::Proof(Ok(merkle)),
        ) == (
            AnchorView {
                wait: AnchorWaitView::Proof { got: proven.push(Some(merkle@)) },
                ..state
            },
            caches,
        ) && anchor_step(state, caches, AnchorEvent::Proof(Err(e))) == (
            AnchorView { wait: AnchorWaitView::Proof { got: proven.push(None) }, ..state },
            caches,
        ),
{
}

/// Whether a check can be done with what is in the cache: there is no proof, or it holds against the cached
/// header at the height.
pub open spec fn is_settled_check(
    headers: Map<u32, Header>,
    check: (Txid, u32, Option<MerkleView>),
) -> bool {
    check.2 is Some ==> headers.contains_key(check.1) && proves(
        check.0,
        headers[check.1],
        check.2->0,
    )
}

/// Every proof that holds against the cached header at its height gives the anchor of its transaction, which
/// is found and cached. The first one that does not is held against a fresh header; after the last one the
/// proofs of the batch are done.
pub proof fn proofs_that_hold_give_anchors(
    state: AnchorView,
    caches: AnchorCaches,
    n: int,
    i: int,
)
    requires
        0 <= n <= state.checks.len(),
        forall|k: int| 0 <= k < n ==> is_settled_check(caches.headers, #[trigger] state.checks[k]),
        n < state.checks.len() ==> !is_settled_check(caches.headers, state.checks[n]),
    ensures
        ({
            let (after, then) = run_checks(state, caches);
            let check = state.checks[i];
            let anchor = ConfirmationBlockTime {
                block_id: BlockId {
                    height: check.1,
                    hash: block_hash_of(caches.headers[check.1]),
                },
                confirmation_time: caches.headers[check.1].time as u64,
            };
            &&& 0 <= i < n && check.2 is Some ==> after.results.contains((check.0, anchor))
            &&& 0 <= i < n && check.2 is Some ==> then.anchors.contains_key(
                (check.0, anchor.block_id.hash),
            )
            &&& state.results.is_prefix_of(after.results)
            &&& then.headers == caches.headers
            &&& n < state.checks.len() ==> after.wait is Fresh && after.checks
                == state.checks.skip(n) && after.to_fetch == state.to_fetch
            &&& n == state.checks.len() ==> after.checks.len() == 0 && after.to_fetch
                == state.to_fetch.skip(
                if state.batch_size < state.to_fetch.len() {
                    state.batch_size as int
                } else {
                    state.to_fetch.len() as int
                },
            )
            &&& n == state.checks.len() && after.to_fetch.len() > 0 ==> after.wait is Proofs
            &&& n == state.checks.len() && after.to_fetch.len() == 0 ==> after.wait is Done
        }),
    decreases n,
{
    assert(state.checks.skip(0) =~= state.checks);
    let (after, then) = run_checks(state, caches);
    if n > 0 {
        let first = state.checks[0];
        assert(is_settled_check(caches.headers, first));
        let dropped = AnchorView { checks: state.checks.drop_first(), ..state };
        let (next, known) = if first.2 is Some {
            with_anchor_found(state, caches, caches.headers[first.1])
        } else {
            (dropped, caches)
        };
        assert forall|k: int| 0 <= k < n - 1 implies is_settled_check(
            known.headers,
            #[trigger] next.checks[k],
        ) by {
            assert(is_settled_check(caches.headers, state.checks[k + 1]));
        }
        proofs_that_hold_give_anchors(next, known, n - 1, i - 1);
        assert(run_checks(state, caches) == run_checks(next, known));
        assert(next.checks.skip(n - 1) =~= state.checks.skip(n));
        if 0 < i < n {
            assert(next.checks[i - 1] == state.checks[i]);
        }
        assert(next.results.is_prefix_of(after.results));
        if first.2 is Some {
            let at = state.results.len() as int;
            assert(after.results.take(next.results.len() as int) =~= next.results);
            assert(after.results[at] == next.results[at]);
            anchors_are_kept(next, known, (first.0, block_hash_of(caches.headers[first.1])));
            assert(after.results.take(at) =~= state.results);
        }
    }
}

proof fn anchors_are_kept(state: AnchorView, caches: AnchorCaches, key: (Txid, BlockHash))
    requires
        caches.anchors.contains_key(key),
    ensures
        run_checks(state, caches).1.anchors.contains_key(key),
    decreases state.checks.len(),
{
    if state.checks.len() > 0 {
        let check = state.checks[0];
        anchors_are_kept(
            AnchorView { checks: state.checks.drop_first(), ..state },
            caches,
            key,
        );
        let (next, known) = with_anchor_found(state, caches, caches.headers[check.1]);
        anchors_are_kept(next, known, key);
    }
}

/// Each proof of a batch is checked for the transaction that it was asked for, at its height.
pub proof fn each_proof_is_for_its_transaction(
    state: AnchorView,
    caches: AnchorCaches,
    proofs: Vec<Option<TransactionMerkel>>,
    i: int,
)
    requires
        state.wait is Proofs,
        0 <= i < proofs@.len(),
        i < state.to_fetch.len(),
        i < state.batch_size,
        forall|k: int|
            0 <= k < proofs@.len() && k < state.to_fetch.len() && k < state.batch_size
                ==> is_settled_check(
                caches.headers,
                (
                    (#[trigger] state.to_fetch[k]).0,
                    state.to_fetch[k].1,
                    maybe_proof(proofs@[k]),
                ),
            ),
        proofs@[i] is Some,
    ensures
        ({
            let (after, then) = anchor_step(state, caches, AnchorEvent::Proofs(Ok(proofs)));
            let (txid, height) = state.to_fetch[i];
            after.results.contains((txid, anchor_in(height, caches.headers[height])))
        }),
{
    let size = batch_len(state.to_fetch.len(), state.batch_size);
    let views = proof_views(proofs@);
    let checks = Seq::new(
        lesser(size, views.len()) as nat,
        |k: int| (state.to_fetch[k].0, state.to_fetch[k].1, views[k]),
    );
    assert forall|k: int| 0 <= k < checks.len() implies is_settled_check(
        caches.headers,
        #[trigger] checks[k],
    ) by {
        assert(views[k] == maybe_proof(proofs@[k]));
        let tx = state.to_fetch[k];
    }
    proofs_that_hold_give_anchors(
        AnchorView { checks, ..state },
        caches,
        checks.len() as int,
        i,
    );
    assert(checks[i] == (state.to_fetch[i].0, state.to_fetch[i].1, views[i]));
}

/// A fresh header takes the place of the cached one at its height. A proof that holds against it gives the
/// anchor; one that does not, or whose header did not come, is left out.
pub proof fn a_fresh_header_decides(
    state: AnchorView,
    caches: AnchorCaches,
    txid: Txid,
    height: u32,
    merkle: MerkleView,
    header: Header,
    e: Error,
)
    requires
        state.wait is Fresh,
        state.checks.len() > 0,
        state.checks[0] == (txid, height, Some(merkle)),
    ensures
        ({
            let (after, then) = anchor_step(state, caches, AnchorEvent::Header(Ok(header)));
            &&& then.headers.get(height) == Some(header)
            &&& proves(txid, header, merkle) ==> after.results.contains(
                (txid, anchor_in(height, header)),
            )
            &&& state.checks.len() == 1 && !proves(txid, header, merkle) ==> after.results
                == state.results
            &&& after.checks.len() < state.checks.len()
        }),
        ({
            let (after, then) = anchor_step(state, caches, AnchorEvent::Header(Err(e)));
            &&& then.headers == caches.headers
            &&& state.checks.len() == 1 ==> after.results == state.results
            &&& after.checks.len() < state.checks.len()
        }),
{
    let dropped = AnchorView { checks: state.checks.drop_first(), ..state };
    let fresh = AnchorCaches { headers: caches.headers.insert(height, header), ..caches };
    let (next, known) = with_anchor_found(state, fresh, header);
    checks_go_on(dropped, caches);
    checks_go_on(dropped, fresh);
    checks_go_on(next, known);
    assert(next.results[state.results.len() as int] == (txid, anchor_in(height, header)));
    let after = run_checks(next, known).0;
    assert(after.results[state.results.len() as int] == next.results[state.results.len() as int]);
}

proof fn checks_go_on(state: AnchorView, caches: AnchorCaches)
    ensures
        run_checks(state, caches).1.headers == caches.headers,
        run_checks(state, caches).0.checks.len() <= state.checks.len(),
        state.checks.len() == 0 ==> run_checks(state, caches).0.results == state.results,
        state.results.len() <= run_checks(state, caches).0.results.len(),
        forall|k: int|
            0 <= k < state.results.len() ==> run_checks(state, caches).0.results[k]
                == #[trigger] state.results[k],
    decreases state.checks.len(),
{
    if state.checks.len() > 0 {
        let check = state.checks[0];
        let dropped = AnchorView { checks: state.checks.drop_first(), ..state };
        checks_go_on(dropped, caches);
        let (next, known) = with_anchor_found(state, caches, caches.headers[check.1]);
        checks_go_on(next, known);
        assert forall|k: int| 0 <= k < state.results.len() implies run_checks(
            state,
            caches,
        ).0.results[k] == #[trigger] state.results[k] by {
            assert(next.results[k] == state.results[k]);
            assert(dropped.results[k] == state.results[k]);
        }
    }
}

/// What is asked for next is what is missing: the first heights, or proofs of the first transactions, as many
/// as a batch has, or the one after those that came.
pub proof fn the_next_batch_is_asked_for(
    state: AnchorView,
    heights: Vec<u32>,
    txs: Vec<(Txid, u32)>,
    i: int,
)
    ensures
        is_asked(state, AnchorAsk::Headers(heights)) ==> {
            &&& state.wait is Headers
            &&& state.batch_size < state.missing.len() ==> heights@.len() == state.batch_size
            &&& state.batch_size >= state.missing.len() ==> heights@.len() == state.missing.len()
            &&& 0 <= i < heights@.len() ==> heights@[i] == state.missing[i]
        },
        is_asked(state, AnchorAsk::Proofs(txs)) ==> {
            &&& state.wait is Proofs
            &&& state.batch_size < state.to_fetch.len() ==> txs@.len() == state.batch_size
            &&& state.batch_size >= state.to_fetch.len() ==> txs@.len() == state.to_fetch.len()
            &&& 0 <= i < txs@.len() ==> txs@[i] == state.to_fetch[i]
        },
{
}

} // verus!
