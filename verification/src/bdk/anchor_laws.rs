//! What holds of a whole fetch of anchors, whatever the server answers.
use vstd::prelude::*;

use crate::bdk::anchors::{
    all_there, anchor_in, anchor_start, anchor_step, anchored, are_missing_heights, batch_len,
    is_asked, is_consistent, known_hashes, lesser, maybe_proof, proof_views, proves, run_checks,
    take_headers, take_proofs, to_headers, unproven, with_anchor_found, with_hashes, with_headers,
    AnchorAsk, AnchorCaches, AnchorEvent, AnchorView, AnchorWaitView, MerkleView,
};
use crate::bdk::client::{with_all_anchors, with_tx_anchors};
use crate::chain::{block_hash_of, ConfirmationBlockTime, Header};
use crate::electrum::error::Error;
use crate::electrum::types::TransactionMerkel;
use crate::hash::{BlockHash, Hash256, Txid};

verus! {

/// How far a fetch of anchors is after some answers, and what is in the caches then.
pub open spec fn fetched(
    start: AnchorView,
    caches: AnchorCaches,
    events: Seq<AnchorEvent>,
) -> (AnchorView, AnchorCaches)
    decreases events.len(),
{
    if events.len() == 0 {
        (start, caches)
    } else {
        let (state, known) = fetched(start, caches, events.drop_last());
        anchor_step(state, known, events.last())
    }
}

/// The answers where a batch of headers fails, and each of its headers is asked for alone.
pub open spec fn retried(e: Error, replies: Seq<Result<Header, Error>>) -> Seq<AnchorEvent> {
    seq![AnchorEvent::Headers(Err(e))] + replies.map_values(
        |reply: Result<Header, Error>| AnchorEvent::Header(reply),
    )
}

/// The headers that came, or did not.
pub open spec fn reply_headers(replies: Seq<Result<Header, Error>>) -> Seq<Option<Header>> {
    replies.map_values(
        |reply: Result<Header, Error>|
            match reply {
                Ok(header) => Some(header),
                Err(e) => None::<Header>,
            },
    )
}

/// A header that is asked for alone, since its batch failed, is cached under the height that it was
/// asked for, and under no other. Where it cannot be had, only what is cached under its own height
/// stays as it is.
pub proof fn retried_headers_keep_their_heights(
    state: AnchorView,
    caches: AnchorCaches,
    e: Error,
    replies: Seq<Result<Header, Error>>,
    i: int,
    other: u32,
)
    requires
        is_consistent(state),
        state.wait is Headers,
        forall|a: int, b: int|
            0 <= a < b < state.missing.len() ==> state.missing[a] < state.missing[b],
        replies.len() == batch_len(state.missing.len(), state.batch_size),
        0 <= i < replies.len(),
        !state.missing.take(replies.len() as int).contains(other),
    ensures
        is_asked(
            fetched(state, caches, retried(e, replies.take(i))).0,
            AnchorAsk::Header(state.missing[i]),
        ),
        ({
            let after = fetched(state, caches, retried(e, replies)).1;
            &&& after.headers.get(state.missing[i]) == match replies[i] {
                Ok(header) => Some(header),
                Err(e) => caches.headers.get(state.missing[i]),
            }
            &&& after.headers.get(other) == caches.headers.get(other)
        }),
{
    retry_is_under_way(state, caches, e, replies, i);
    let n = replies.len() as int;
    retry_is_under_way(state, caches, e, replies, n - 1);
    let events = retried(e, replies);
    assert(events.drop_last() =~= retried(e, replies.take(n - 1)));
    assert(events.last() == AnchorEvent::Header(replies[n - 1]));
    let got = reply_headers(replies);
    assert(got =~= reply_headers(replies.take(n - 1)).push(got[n - 1]));
    let heights = state.missing;
    headers_at_their_heights(caches.headers, heights, got, n, i);
    assert forall|j: int| 0 <= j < n implies heights[j] != other by {
        assert(heights.take(n)[j] == heights[j]);
    }
    headers_nowhere_else(caches.headers, heights, got, n, other);
}

/// After some of the single answers, the next header is waited for.
proof fn retry_is_under_way(
    state: AnchorView,
    caches: AnchorCaches,
    e: Error,
    replies: Seq<Result<Header, Error>>,
    k: int,
)
    requires
        is_consistent(state),
        state.wait is Headers,
        replies.len() == batch_len(state.missing.len(), state.batch_size),
        0 <= k < replies.len(),
    ensures
        fetched(state, caches, retried(e, replies.take(k))) == (
            AnchorView {
                wait: AnchorWaitView::Header { got: reply_headers(replies.take(k)) },
                ..state
            },
            caches,
        ),
    decreases k,
{
    let events = retried(e, replies.take(k));
    let got = reply_headers(replies.take(k));
    if k == 0 {
        assert(events.drop_last() =~= Seq::<AnchorEvent>::empty());
        assert(got =~= Seq::<Option<Header>>::empty());
        assert(fetched(state, caches, events.drop_last()) == (state, caches));
    } else {
        retry_is_under_way(state, caches, e, replies, k - 1);
        assert(events.drop_last() =~= retried(e, replies.take(k - 1)));
        assert(events.last() == AnchorEvent::Header(replies[k - 1]));
        assert(got =~= reply_headers(replies.take(k - 1)).push(got[k - 1]));
    }
}

proof fn headers_at_their_heights(
    cache: Map<u32, Header>,
    heights: Seq<u32>,
    headers: Seq<Option<Header>>,
    n: int,
    i: int,
)
    requires
        0 <= i < n <= heights.len(),
        forall|a: int, b: int| 0 <= a < b < n ==> heights[a] < heights[b],
    ensures
        with_headers(cache, heights, headers, n).get(heights[i]) == match headers[i] {
            Some(header) => Some(header),
            None => cache.get(heights[i]),
        },
    decreases n,
{
    if i < n - 1 {
        headers_at_their_heights(cache, heights, headers, n - 1, i);
        assert(heights[i] < heights[n - 1]);
    } else {
        headers_nowhere_else(cache, heights, headers, n - 1, heights[i]);
    }
}

proof fn headers_nowhere_else(
    cache: Map<u32, Header>,
    heights: Seq<u32>,
    headers: Seq<Option<Header>>,
    n: int,
    other: u32,
)
    requires
        n <= heights.len(),
        forall|j: int| 0 <= j < n ==> #[trigger] heights[j] != other,
    ensures
        with_headers(cache, heights, headers, n).get(other) == cache.get(other),
    decreases n,
{
    if n > 0 {
        headers_nowhere_else(cache, heights, headers, n - 1, other);
        assert(heights[n - 1] != other);
    }
}

/// Whether an answer brings the header at a height.
pub open spec fn answers_header(
    before: AnchorView,
    event: AnchorEvent,
    height: u32,
    header: Header,
) -> bool {
    match (before.wait, event) {
        (AnchorWaitView::Headers, AnchorEvent::Headers(Ok(headers))) => exists|i: int|
            0 <= i < lesser(batch_len(before.missing.len(), before.batch_size), headers@.len())
                && #[trigger] before.missing[i] == height && headers@[i] == header,
        (AnchorWaitView::Header { got }, AnchorEvent::Header(Ok(came))) => got.len()
            < before.missing.len() && before.missing[got.len() as int] == height && came == header,
        (AnchorWaitView::Fresh, AnchorEvent::Header(Ok(came))) => before.checks.len() > 0
            && before.checks[0].1 == height && came == header,
        _ => false,
    }
}

/// Whether an answer brings a proof of a transaction at a height.
pub open spec fn answers_proof(
    before: AnchorView,
    event: AnchorEvent,
    tx: (Txid, u32),
    merkle: MerkleView,
) -> bool {
    match (before.wait, event) {
        (AnchorWaitView::Proofs, AnchorEvent::Proofs(Ok(proofs))) => exists|i: int|
            0 <= i < lesser(batch_len(before.to_fetch.len(), before.batch_size), proofs@.len())
                && #[trigger] before.to_fetch[i] == tx && maybe_proof(proofs@[i]) == Some(merkle),
        (AnchorWaitView::Proof { got }, AnchorEvent::Proof(Ok(came))) => got.len()
            < before.to_fetch.len() && before.to_fetch[got.len() as int] == tx && came@ == merkle,
        _ => false,
    }
}

/// Whether the header at a height was in the cache, or came in answer to the question for it.
pub open spec fn is_known_header(
    start: AnchorView,
    caches: AnchorCaches,
    events: Seq<AnchorEvent>,
    height: u32,
    header: Header,
) -> bool {
    ||| caches.headers.get(height) == Some(header)
    ||| exists|k: int|
        0 <= k < events.len() && #[trigger] answers_header(
            fetched(start, caches, events.take(k)).0,
            events[k],
            height,
            header,
        )
}

/// Whether a proof came in answer to the question for that of a transaction at a height.
pub open spec fn is_known_proof(
    start: AnchorView,
    caches: AnchorCaches,
    events: Seq<AnchorEvent>,
    tx: (Txid, u32),
    merkle: MerkleView,
) -> bool {
    exists|k: int|
        0 <= k < events.len() && #[trigger] answers_proof(
            fetched(start, caches, events.take(k)).0,
            events[k],
            tx,
            merkle,
        )
}

/// Whether an anchor was in the cache, for the transaction and the block with a header.
pub open spec fn was_cached(
    start: AnchorView,
    caches: AnchorCaches,
    events: Seq<AnchorEvent>,
    result: (Txid, ConfirmationBlockTime),
    height: u32,
    header: Header,
) -> bool {
    &&& is_known_header(start, caches, events, height, header)
    &&& caches.anchors.get((result.0, block_hash_of(header))) == Some(result.1)
}

/// Whether an anchor is that of the block with a header, against which a proof holds.
pub open spec fn was_proven(
    start: AnchorView,
    caches: AnchorCaches,
    events: Seq<AnchorEvent>,
    result: (Txid, ConfirmationBlockTime),
    height: u32,
    header: Header,
    merkle: MerkleView,
) -> bool {
    &&& is_known_header(start, caches, events, height, header)
    &&& is_known_proof(start, caches, events, (result.0, height), merkle)
    &&& proves(result.0, header, merkle)
    &&& result.1 == anchor_in(height, header)
}

/// Whether an anchor is one for a transaction at a height, and was in the cache or is proven.
pub open spec fn is_backed_at(
    start: AnchorView,
    caches: AnchorCaches,
    events: Seq<AnchorEvent>,
    result: (Txid, ConfirmationBlockTime),
    height: u32,
) -> bool {
    &&& start.txs.contains((result.0, height))
    &&& {
        ||| exists|header: Header| was_cached(start, caches, events, result, height, header)
        ||| exists|header: Header, merkle: MerkleView|
            was_proven(start, caches, events, result, height, header, merkle)
    }
}

/// Whether an anchor is one for a transaction that was asked for, and was in the cache or is proven.
pub open spec fn is_backed(
    start: AnchorView,
    caches: AnchorCaches,
    events: Seq<AnchorEvent>,
    result: (Txid, ConfirmationBlockTime),
) -> bool {
    exists|height: u32| is_backed_at(start, caches, events, result, height)
}

/// Of a whole fetch of anchors, whatever the server answers: there are at most as many anchors as
/// transactions, and each is for a transaction that was asked for, and was in the cache for the block at
/// its height or is that of the block at its height against whose header a proof of it holds.
pub proof fn fetched_anchors_are_backed(
    txs: Seq<(Txid, u32)>,
    batch_size: nat,
    caches: AnchorCaches,
    events: Seq<AnchorEvent>,
    i: int,
)
    requires
        batch_size > 0,
    ensures
        ({
            let start = anchor_start(txs, batch_size, caches);
            let results = fetched(start, caches, events).0.results;
            &&& results.len() <= txs.len()
            &&& 0 <= i < results.len() ==> is_backed(start, caches, events, results[i])
        }),
{
    fetch_is_sound(txs, batch_size, caches, events);
}

/// What is so of the data of a fetch at all times.
spec fn is_sound_data(
    start: AnchorView,
    caches: AnchorCaches,
    events: Seq<AnchorEvent>,
    state: AnchorView,
    known: AnchorCaches,
) -> bool {
    &&& state.txs == start.txs
    &&& state.batch_size > 0
    &&& forall|height: u32| #[trigger]
        known.headers.contains_key(height) ==> is_known_header(
            start,
            caches,
            events,
            height,
            known.headers[height],
        )
    &&& forall|j: int|
        0 <= j < state.to_fetch.len() ==> start.txs.contains(#[trigger] state.to_fetch[j])
    &&& forall|j: int|
        0 <= j < state.checks.len() ==> is_sound_check(
            start,
            caches,
            events,
            #[trigger] state.checks[j],
        )
    &&& forall|j: int|
        0 <= j < state.results.len() ==> is_backed(
            start,
            caches,
            events,
            #[trigger] state.results[j],
        )
}

spec fn is_sound_check(
    start: AnchorView,
    caches: AnchorCaches,
    events: Seq<AnchorEvent>,
    check: (Txid, u32, Option<MerkleView>),
) -> bool {
    &&& start.txs.contains((check.0, check.1))
    &&& check.2 is Some ==> is_known_proof(
        start,
        caches,
        events,
        (check.0, check.1),
        check.2->0,
    )
}

/// Whether no proof is fetched yet, and the hashes that are known are those of the cached headers.
spec fn is_at_headers(caches: AnchorCaches, state: AnchorView, known: AnchorCaches) -> bool {
    &&& state.results.len() == 0
    &&& state.to_fetch.len() == 0
    &&& state.checks.len() == 0
    &&& known.anchors == caches.anchors
    &&& are_hashes(state.known, known.headers)
}

spec fn are_hashes(hashes: Map<u32, Hash256>, headers: Map<u32, Header>) -> bool {
    forall|height: u32| #[trigger]
        hashes.contains_key(height) ==> headers.contains_key(height) && hashes[height]
            == block_hash_of(headers[height])
}

/// How many anchors there can be at the end.
spec fn is_bounded(state: AnchorView) -> bool {
    state.results.len() + state.checks.len() + state.to_fetch.len() - batch_len(
        state.to_fetch.len(),
        state.batch_size,
    ) <= state.txs.len()
}

spec fn is_sound_stage(
    start: AnchorView,
    caches: AnchorCaches,
    events: Seq<AnchorEvent>,
    state: AnchorView,
    known: AnchorCaches,
) -> bool {
    match state.wait {
        AnchorWaitView::Headers => is_at_headers(caches, state, known),
        AnchorWaitView::Header { got } => {
            &&& is_at_headers(caches, state, known)
            &&& are_known_headers(start, caches, events, state.missing, got)
        },
        AnchorWaitView::Proof { got } => {
            &&& state.checks.len() == 0
            &&& state.results.len() + state.to_fetch.len() <= state.txs.len()
            &&& are_known_proofs(start, caches, events, state.to_fetch, got)
        },
        AnchorWaitView::Fresh => is_bounded(state),
        _ => {
            &&& state.checks.len() == 0
            &&& state.results.len() + state.to_fetch.len() <= state.txs.len()
        },
    }
}

spec fn are_known_headers(
    start: AnchorView,
    caches: AnchorCaches,
    events: Seq<AnchorEvent>,
    heights: Seq<u32>,
    got: Seq<Option<Header>>,
) -> bool {
    forall|j: int|
        0 <= j < got.len() && j < heights.len() && (#[trigger] got[j]) is Some ==> is_known_header(
            start,
            caches,
            events,
            heights[j],
            got[j]->0,
        )
}

spec fn are_known_proofs(
    start: AnchorView,
    caches: AnchorCaches,
    events: Seq<AnchorEvent>,
    txs: Seq<(Txid, u32)>,
    got: Seq<Option<MerkleView>>,
) -> bool {
    forall|j: int|
        0 <= j < got.len() && j < txs.len() && (#[trigger] got[j]) is Some ==> is_known_proof(
            start,
            caches,
            events,
            txs[j],
            got[j]->0,
        )
}

spec fn is_sound(
    start: AnchorView,
    caches: AnchorCaches,
    events: Seq<AnchorEvent>,
    state: AnchorView,
    known: AnchorCaches,
) -> bool {
    &&& is_sound_data(start, caches, events, state, known)
    &&& is_sound_stage(start, caches, events, state, known)
    &&& is_consistent(state)
}

/// What came before the last answer is still there after it.
proof fn knowledge_grows(start: AnchorView, caches: AnchorCaches, events: Seq<AnchorEvent>)
    requires
        events.len() > 0,
    ensures
        forall|height: u32, header: Header| #[trigger]
            is_known_header(start, caches, events.drop_last(), height, header) ==> is_known_header(
                start,
                caches,
                events,
                height,
                header,
            ),
        forall|tx: (Txid, u32), merkle: MerkleView| #[trigger]
            is_known_proof(start, caches, events.drop_last(), tx, merkle) ==> is_known_proof(
                start,
                caches,
                events,
                tx,
                merkle,
            ),
        forall|result: (Txid, ConfirmationBlockTime)| #[trigger]
            is_backed(start, caches, events.drop_last(), result) ==> is_backed(
                start,
                caches,
                events,
                result,
            ),
{
    let before = events.drop_last();
    assert forall|height: u32, header: Header| #[trigger]
        is_known_header(start, caches, before, height, header) implies is_known_header(
        start,
        caches,
        events,
        height,
        header,
    ) by {
        if caches.headers.get(height) != Some(header) {
            let k = choose|k: int|
                0 <= k < before.len() && #[trigger] answers_header(
                    fetched(start, caches, before.take(k)).0,
                    before[k],
                    height,
                    header,
                );
            assert(before.take(k) =~= events.take(k));
            assert(answers_header(
                fetched(start, caches, events.take(k)).0,
                events[k],
                height,
                header,
            ));
        }
    }
    assert forall|tx: (Txid, u32), merkle: MerkleView| #[trigger]
        is_known_proof(start, caches, before, tx, merkle) implies is_known_proof(
        start,
        caches,
        events,
        tx,
        merkle,
    ) by {
        let k = choose|k: int|
            0 <= k < before.len() && #[trigger] answers_proof(
                fetched(start, caches, before.take(k)).0,
                before[k],
                tx,
                merkle,
            );
        assert(before.take(k) =~= events.take(k));
        assert(answers_proof(fetched(start, caches, events.take(k)).0, events[k], tx, merkle));
    }
    assert forall|result: (Txid, ConfirmationBlockTime)| #[trigger]
        is_backed(start, caches, before, result) implies is_backed(
        start,
        caches,
        events,
        result,
    ) by {
        let height = choose|height: u32| is_backed_at(start, caches, before, result, height);
        if exists|header: Header| was_cached(start, caches, before, result, height, header) {
            let header = choose|header: Header|
                was_cached(start, caches, before, result, height, header);
            assert(was_cached(start, caches, events, result, height, header));
        } else {
            let (header, merkle) = choose|header: Header, merkle: MerkleView|
                was_proven(start, caches, before, result, height, header, merkle);
            assert(was_proven(start, caches, events, result, height, header, merkle));
        }
        assert(is_backed_at(start, caches, events, result, height));
    }
}

/// What is in the cache for some transactions are anchors of theirs, and there are no more of them
/// together with those that are not than transactions.
proof fn split_is_exact(
    txs: Seq<(Txid, u32)>,
    known: Map<u32, Hash256>,
    anchors: Map<(Txid, BlockHash), ConfirmationBlockTime>,
)
    ensures
        anchored(txs, known, anchors).len() + unproven(txs, known, anchors).len() <= txs.len(),
        forall|j: int|
            0 <= j < unproven(txs, known, anchors).len() ==> is_left(
                txs,
                known,
                anchors,
                #[trigger] unproven(txs, known, anchors)[j],
            ),
        forall|j: int|
            0 <= j < anchored(txs, known, anchors).len() ==> is_taken(
                txs,
                known,
                anchors,
                #[trigger] anchored(txs, known, anchors)[j],
            ),
    decreases txs.len(),
{
    if txs.len() > 0 {
        let init = txs.drop_last();
        split_is_exact(init, known, anchors);
        let tx = txs.last();
        assert(txs[txs.len() - 1] == tx);
        assert forall|t: (Txid, u32)| #[trigger] init.contains(t) implies txs.contains(t) by {
            let k = choose|k: int| 0 <= k < init.len() && init[k] == t;
            assert(txs[k] == t);
        }
        let taken = anchored(txs, known, anchors);
        let before = anchored(init, known, anchors);
        assert forall|j: int| 0 <= j < taken.len() implies is_taken(
            txs,
            known,
            anchors,
            #[trigger] taken[j],
        ) by {
            if j < before.len() {
                assert(taken[j] == before[j]);
                let height = choose|height: u32|
                    is_taken_at(init, known, anchors, before[j], height);
                assert(is_taken_at(txs, known, anchors, taken[j], height));
            } else {
                assert(is_taken_at(txs, known, anchors, taken[j], tx.1));
            }
        }
        let left = unproven(txs, known, anchors);
        let left_before = unproven(init, known, anchors);
        assert forall|j: int| 0 <= j < left.len() implies is_left(
            txs,
            known,
            anchors,
            #[trigger] left[j],
        ) by {
            if j < left_before.len() {
                assert(left[j] == left_before[j]);
            }
        }
    }
}

spec fn is_left(
    txs: Seq<(Txid, u32)>,
    known: Map<u32, Hash256>,
    anchors: Map<(Txid, BlockHash), ConfirmationBlockTime>,
    tx: (Txid, u32),
) -> bool {
    &&& txs.contains(tx)
    &&& !anchors.contains_key((tx.0, known[tx.1]))
}

spec fn is_taken_at(
    txs: Seq<(Txid, u32)>,
    known: Map<u32, Hash256>,
    anchors: Map<(Txid, BlockHash), ConfirmationBlockTime>,
    result: (Txid, ConfirmationBlockTime),
    height: u32,
) -> bool {
    &&& txs.contains((result.0, height))
    &&& known.contains_key(height)
    &&& anchors.get((result.0, known[height])) == Some(result.1)
}

spec fn is_taken(
    txs: Seq<(Txid, u32)>,
    known: Map<u32, Hash256>,
    anchors: Map<(Txid, BlockHash), ConfirmationBlockTime>,
    result: (Txid, ConfirmationBlockTime),
) -> bool {
    exists|height: u32| is_taken_at(txs, known, anchors, result, height)
}

/// From the headers on, soundness is kept.
proof fn headers_are_sound(
    start: AnchorView,
    caches: AnchorCaches,
    events: Seq<AnchorEvent>,
    state: AnchorView,
    known: AnchorCaches,
)
    requires
        is_sound_data(start, caches, events, state, known),
        is_at_headers(caches, state, known),
    ensures
        is_sound(start, caches, events, to_headers(state, known), known),
{
    let after = to_headers(state, known);
    if state.missing.len() == 0 {
        split_is_exact(state.txs, state.known, known.anchors);
        let taken = anchored(state.txs, state.known, known.anchors);
        assert(after.results =~= taken);
        assert forall|j: int| 0 <= j < after.results.len() implies is_backed(
            start,
            caches,
            events,
            #[trigger] after.results[j],
        ) by {
            let result = taken[j];
            let height = choose|height: u32|
                is_taken_at(state.txs, state.known, known.anchors, result, height);
            assert(state.known.contains_key(height));
            let header = known.headers[height];
            assert(was_cached(start, caches, events, result, height, header));
            assert(is_backed_at(start, caches, events, result, height));
        }
    }
}

/// Headers that came are sound to take in.
proof fn taken_headers_are_sound(
    start: AnchorView,
    caches: AnchorCaches,
    events: Seq<AnchorEvent>,
    state: AnchorView,
    known: AnchorCaches,
    headers: Seq<Option<Header>>,
)
    requires
        is_sound_data(start, caches, events, state, known),
        is_at_headers(caches, state, known),
        are_known_headers(start, caches, events, state.missing, headers),
    ensures
        is_sound(
            start,
            caches,
            events,
            take_headers(state, known, headers).0,
            take_headers(state, known, headers).1,
        ),
{
    let size = batch_len(state.missing.len(), state.batch_size);
    let n = lesser(size, headers.len());
    put_down_is_sound(start, caches, events, state, known, headers, n);
    let after = AnchorCaches {
        headers: with_headers(known.headers, state.missing, headers, n),
        ..known
    };
    let next = AnchorView {
        known: with_hashes(state.known, state.missing, headers, n),
        missing: state.missing.skip(size as int),
        ..state
    };
    headers_are_sound(start, caches, events, next, after);
}

proof fn put_down_is_sound(
    start: AnchorView,
    caches: AnchorCaches,
    events: Seq<AnchorEvent>,
    state: AnchorView,
    known: AnchorCaches,
    headers: Seq<Option<Header>>,
    n: int,
)
    requires
        is_sound_data(start, caches, events, state, known),
        are_hashes(state.known, known.headers),
        are_known_headers(start, caches, events, state.missing, headers),
        n <= headers.len(),
        n <= state.missing.len(),
    ensures
        ({
            let cache = with_headers(known.headers, state.missing, headers, n);
            &&& are_hashes(with_hashes(state.known, state.missing, headers, n), cache)
            &&& forall|height: u32| #[trigger]
                cache.contains_key(height) ==> is_known_header(
                    start,
                    caches,
                    events,
                    height,
                    cache[height],
                )
        }),
    decreases n,
{
    if n > 0 {
        put_down_is_sound(start, caches, events, state, known, headers, n - 1);
        let before = with_headers(known.headers, state.missing, headers, n - 1);
        let cache = with_headers(known.headers, state.missing, headers, n);
        let came = headers[n - 1];
        assert forall|height: u32| #[trigger] cache.contains_key(height) implies is_known_header(
            start,
            caches,
            events,
            height,
            cache[height],
        ) by {
            if !(came is Some && height == state.missing[n - 1]) {
                assert(before.contains_key(height));
            }
        }
        let hashes = with_hashes(state.known, state.missing, headers, n);
        let hashes_before = with_hashes(state.known, state.missing, headers, n - 1);
        assert forall|height: u32| #[trigger] hashes.contains_key(height) implies
            cache.contains_key(height) && hashes[height] == block_hash_of(cache[height]) by {
            if !(came is Some && height == state.missing[n - 1]) {
                assert(hashes_before.contains_key(height));
            }
        }
    }
}

/// Checking proofs keeps soundness.
proof fn checks_are_sound(
    start: AnchorView,
    caches: AnchorCaches,
    events: Seq<AnchorEvent>,
    state: AnchorView,
    known: AnchorCaches,
)
    requires
        is_sound_data(start, caches, events, state, known),
        is_bounded(state),
    ensures
        is_sound(
            start,
            caches,
            events,
            run_checks(state, known).0,
            run_checks(state, known).1,
        ),
    decreases state.checks.len(),
{
    if state.checks.len() == 0 {
        let size = batch_len(state.to_fetch.len(), state.batch_size);
        let after = run_checks(state, known).0;
        assert forall|j: int| 0 <= j < after.to_fetch.len() implies start.txs.contains(
            #[trigger] after.to_fetch[j],
        ) by {
            assert(after.to_fetch[j] == state.to_fetch[j + size]);
        }
    } else {
        let (txid, height, merkle) = state.checks[0];
        let dropped = AnchorView { checks: state.checks.drop_first(), ..state };
        match merkle {
            None => {
                checks_are_sound(start, caches, events, dropped, known);
            },
            Some(found) => {
                if known.headers.contains_key(height) && proves(
                    txid,
                    known.headers[height],
                    found,
                ) {
                    anchor_is_sound(start, caches, events, state, known, known.headers[height]);
                    let (next, now) = with_anchor_found(state, known, known.headers[height]);
                    checks_are_sound(start, caches, events, next, now);
                }
            },
        }
    }
}

/// The anchor of a proof that holds is sound.
proof fn anchor_is_sound(
    start: AnchorView,
    caches: AnchorCaches,
    events: Seq<AnchorEvent>,
    state: AnchorView,
    known: AnchorCaches,
    header: Header,
)
    requires
        is_sound_data(start, caches, events, state, known),
        is_bounded(state),
        state.checks.len() > 0,
        state.checks[0].2 is Some,
        is_known_header(start, caches, events, state.checks[0].1, header),
        proves(state.checks[0].0, header, state.checks[0].2->0),
    ensures
        is_sound_data(
            start,
            caches,
            events,
            with_anchor_found(state, known, header).0,
            with_anchor_found(state, known, header).1,
        ),
        is_bounded(with_anchor_found(state, known, header).0),
{
    let (txid, height, merkle) = state.checks[0];
    let (next, now) = with_anchor_found(state, known, header);
    let result = (txid, anchor_in(height, header));
    assert(is_sound_check(start, caches, events, state.checks[0]));
    assert(was_proven(start, caches, events, result, height, header, merkle->0));
    assert(is_backed_at(start, caches, events, result, height));
    assert forall|j: int| 0 <= j < next.results.len() implies is_backed(
        start,
        caches,
        events,
        #[trigger] next.results[j],
    ) by {
        if j < state.results.len() {
            assert(next.results[j] == state.results[j]);
        }
    }
}

/// Proofs that came are sound to take in.
proof fn taken_proofs_are_sound(
    start: AnchorView,
    caches: AnchorCaches,
    events: Seq<AnchorEvent>,
    state: AnchorView,
    known: AnchorCaches,
    proofs: Seq<Option<MerkleView>>,
)
    requires
        is_sound_data(start, caches, events, state, known),
        state.checks.len() == 0,
        state.results.len() + state.to_fetch.len() <= state.txs.len(),
        are_known_proofs(start, caches, events, state.to_fetch, proofs),
    ensures
        is_sound(
            start,
            caches,
            events,
            take_proofs(state, known, proofs).0,
            take_proofs(state, known, proofs).1,
        ),
{
    let size = batch_len(state.to_fetch.len(), state.batch_size);
    let checks = Seq::new(
        lesser(size, proofs.len()) as nat,
        |i: int| (state.to_fetch[i].0, state.to_fetch[i].1, proofs[i]),
    );
    let next = AnchorView { checks, ..state };
    assert forall|j: int| 0 <= j < next.checks.len() implies is_sound_check(
        start,
        caches,
        events,
        #[trigger] next.checks[j],
    ) by {
        assert(start.txs.contains(state.to_fetch[j]));
        assert(proofs[j] is Some ==> is_known_proof(
            start,
            caches,
            events,
            state.to_fetch[j],
            proofs[j]->0,
        ));
    }
    checks_are_sound(start, caches, events, next, known);
}

/// What an answer brings is known with it.
proof fn last_answer_is_known(start: AnchorView, caches: AnchorCaches, events: Seq<AnchorEvent>)
    requires
        events.len() > 0,
    ensures
        ({
            let before = fetched(start, caches, events.drop_last()).0;
            &&& forall|height: u32, header: Header| #[trigger]
                answers_header(before, events.last(), height, header) ==> is_known_header(
                    start,
                    caches,
                    events,
                    height,
                    header,
                )
            &&& forall|tx: (Txid, u32), merkle: MerkleView| #[trigger]
                answers_proof(before, events.last(), tx, merkle) ==> is_known_proof(
                    start,
                    caches,
                    events,
                    tx,
                    merkle,
                )
        }),
{
    let k = events.len() - 1;
    assert(events.take(k) =~= events.drop_last());
    assert(events[k] == events.last());
    let before = fetched(start, caches, events.drop_last()).0;
    assert forall|height: u32, header: Header| #[trigger]
        answers_header(before, events.last(), height, header) implies is_known_header(
        start,
        caches,
        events,
        height,
        header,
    ) by {
        assert(answers_header(
            fetched(start, caches, events.take(k)).0,
            events[k],
            height,
            header,
        ));
    }
    assert forall|tx: (Txid, u32), merkle: MerkleView| #[trigger]
        answers_proof(before, events.last(), tx, merkle) implies is_known_proof(
        start,
        caches,
        events,
        tx,
        merkle,
    ) by {
        assert(answers_proof(fetched(start, caches, events.take(k)).0, events[k], tx, merkle));
    }
}

/// A fetch is sound after any answers.
proof fn fetch_is_sound(
    txs: Seq<(Txid, u32)>,
    batch_size: nat,
    caches: AnchorCaches,
    events: Seq<AnchorEvent>,
)
    requires
        batch_size > 0,
    ensures
        ({
            let start = anchor_start(txs, batch_size, caches);
            let (state, known) = fetched(start, caches, events);
            start.txs == txs && is_sound(start, caches, events, state, known)
        }),
    decreases events.len(),
{
    let start = anchor_start(txs, batch_size, caches);
    if events.len() == 0 {
        let first = AnchorView {
            batch_size,
            txs,
            known: known_hashes(txs, caches.headers),
            missing: choose|missing: Seq<u32>| are_missing_heights(txs, caches.headers, missing),
            results: Seq::empty(),
            to_fetch: Seq::empty(),
            checks: Seq::empty(),
            wait: AnchorWaitView::Done,
        };
        headers_are_sound(start, caches, events, first, caches);
    } else {
        fetch_is_sound(txs, batch_size, caches, events.drop_last());
        let (state, known) = fetched(start, caches, events.drop_last());
        knowledge_grows(start, caches, events);
        last_answer_is_known(start, caches, events);
        step_is_sound(start, caches, events, state, known);
    }
}

proof fn step_is_sound(
    start: AnchorView,
    caches: AnchorCaches,
    events: Seq<AnchorEvent>,
    state: AnchorView,
    known: AnchorCaches,
)
    requires
        events.len() > 0,
        is_sound(start, caches, events, state, known),
        forall|height: u32, header: Header| #[trigger]
            answers_header(state, events.last(), height, header) ==> is_known_header(
                start,
                caches,
                events,
                height,
                header,
            ),
        forall|tx: (Txid, u32), merkle: MerkleView| #[trigger]
            answers_proof(state, events.last(), tx, merkle) ==> is_known_proof(
                start,
                caches,
                events,
                tx,
                merkle,
            ),
    ensures
        is_sound(
            start,
            caches,
            events,
            anchor_step(state, known, events.last()).0,
            anchor_step(state, known, events.last()).1,
        ),
{
    let event = events.last();
    match (state.wait, event) {
        (AnchorWaitView::Headers, AnchorEvent::Headers(Ok(headers))) => {
            let size = batch_len(state.missing.len(), state.batch_size);
            let n = lesser(size, headers@.len());
            let there = all_there(headers@);
            let first = there.take(n);
            assert forall|j: int|
                0 <= j < first.len() && j < state.missing.len() && (
                #[trigger] first[j]) is Some implies is_known_header(
                start,
                caches,
                events,
                state.missing[j],
                first[j]->0,
            ) by {
                assert(answers_header(state, event, state.missing[j], first[j]->0));
            }
            taken_headers_are_sound(start, caches, events, state, known, first);
            only_the_first_count(state, known, there, n);
        },
        (AnchorWaitView::Header { got }, AnchorEvent::Header(reply)) => {
            let came = match reply {
                Ok(header) => Some(header),
                Err(e) => None::<Header>,
            };
            let all = got.push(came);
            if let Ok(header) = reply {
                assert(answers_header(state, event, state.missing[got.len() as int], header));
            }
            assert forall|j: int|
                0 <= j < all.len() && j < state.missing.len() && (
                #[trigger] all[j]) is Some implies is_known_header(
                start,
                caches,
                events,
                state.missing[j],
                all[j]->0,
            ) by {
                if j < got.len() {
                    assert(got[j] == all[j]);
                }
            }
            if all.len() >= batch_len(state.missing.len(), state.batch_size) {
                taken_headers_are_sound(start, caches, events, state, known, all);
            }
        },
        (AnchorWaitView::Proofs, AnchorEvent::Proofs(Ok(proofs))) => {
            let size = batch_len(state.to_fetch.len(), state.batch_size);
            let n = lesser(size, proofs@.len());
            let views = proof_views(proofs@);
            let first = views.take(n);
            assert forall|j: int|
                0 <= j < first.len() && j < state.to_fetch.len() && (
                #[trigger] first[j]) is Some implies is_known_proof(
                start,
                caches,
                events,
                state.to_fetch[j],
                first[j]->0,
            ) by {
                assert(answers_proof(state, event, state.to_fetch[j], first[j]->0));
            }
            taken_proofs_are_sound(start, caches, events, state, known, first);
            assert(take_proofs(state, known, first) == take_proofs(state, known, views)) by {
                let a = Seq::new(
                    lesser(size, first.len()) as nat,
                    |i: int| (state.to_fetch[i].0, state.to_fetch[i].1, first[i]),
                );
                let b = Seq::new(
                    lesser(size, views.len()) as nat,
                    |i: int| (state.to_fetch[i].0, state.to_fetch[i].1, views[i]),
                );
                assert(a =~= b);
            }
        },
        (AnchorWaitView::Proof { got }, AnchorEvent::Proof(reply)) => {
            let came = match reply {
                Ok(merkle) => Some(merkle@),
                Err(e) => None::<MerkleView>,
            };
            let all = got.push(came);
            if let Ok(merkle) = reply {
                assert(answers_proof(state, event, state.to_fetch[got.len() as int], merkle@));
            }
            assert forall|j: int|
                0 <= j < all.len() && j < state.to_fetch.len() && (
                #[trigger] all[j]) is Some implies is_known_proof(
                start,
                caches,
                events,
                state.to_fetch[j],
                all[j]->0,
            ) by {
                if j < got.len() {
                    assert(got[j] == all[j]);
                }
            }
            if all.len() >= batch_len(state.to_fetch.len(), state.batch_size) {
                taken_proofs_are_sound(start, caches, events, state, known, all);
            }
        },
        (AnchorWaitView::Fresh, AnchorEvent::Header(reply)) => {
            let (txid, height, merkle) = state.checks[0];
            let dropped = AnchorView { checks: state.checks.drop_first(), ..state };
            checks_are_sound(start, caches, events, dropped, known);
            if let Ok(header) = reply {
                assert(answers_header(state, event, height, header));
                let now = AnchorCaches {
                    headers: known.headers.insert(height, header),
                    ..known
                };
                assert(is_sound_data(start, caches, events, state, now));
                checks_are_sound(start, caches, events, dropped, now);
                if proves(txid, header, merkle->0) {
                    anchor_is_sound(start, caches, events, state, now, header);
                    let (next, found) = with_anchor_found(state, now, header);
                    checks_are_sound(start, caches, events, next, found);
                }
            }
        },
        _ => {},
    }
}

/// Of headers that came, only those count that were asked for.
proof fn only_the_first_count(
    state: AnchorView,
    known: AnchorCaches,
    headers: Seq<Option<Header>>,
    n: int,
)
    requires
        n == lesser(batch_len(state.missing.len(), state.batch_size), headers.len()),
    ensures
        take_headers(state, known, headers) == take_headers(state, known, headers.take(n)),
{
    same_put_down(state, known, headers, headers.take(n), n);
}

proof fn same_put_down(
    state: AnchorView,
    known: AnchorCaches,
    a: Seq<Option<Header>>,
    b: Seq<Option<Header>>,
    n: int,
)
    requires
        forall|j: int| 0 <= j < n ==> a[j] == #[trigger] b[j],
    ensures
        with_headers(known.headers, state.missing, a, n) == with_headers(
            known.headers,
            state.missing,
            b,
            n,
        ),
        with_hashes(state.known, state.missing, a, n) == with_hashes(
            state.known,
            state.missing,
            b,
            n,
        ),
    decreases n,
{
    if n > 0 {
        same_put_down(state, known, a, b, n - 1);
        assert(a[n - 1] == b[n - 1]);
    }
}

/// Whether each anchor in a cache goes by the hash of its own block.
pub open spec fn is_keyed(anchors: Map<(Txid, BlockHash), ConfirmationBlockTime>) -> bool {
    forall|key: (Txid, BlockHash)| #[trigger]
        anchors.contains_key(key) ==> anchors[key].block_id.hash == key.1
}

/// What an anchor goes by in a cache.
pub open spec fn cache_key(result: (Txid, ConfirmationBlockTime)) -> (Txid, BlockHash) {
    (result.0, result.1.block_id.hash)
}

/// Anchors that are put into the cache go by the hashes of their own blocks.
pub proof fn populated_anchors_are_keyed(
    cache: Map<(Txid, BlockHash), ConfirmationBlockTime>,
    tx_anchors: Seq<(Txid, Vec<ConfirmationBlockTime>)>,
)
    requires
        is_keyed(cache),
    ensures
        is_keyed(with_all_anchors(cache, tx_anchors)),
    decreases tx_anchors.len(),
{
    if tx_anchors.len() > 0 {
        let (txid, anchors) = tx_anchors.last();
        populated_anchors_are_keyed(cache, tx_anchors.drop_last());
        tx_anchors_are_keyed(with_all_anchors(cache, tx_anchors.drop_last()), txid, anchors@);
    }
}

proof fn tx_anchors_are_keyed(
    cache: Map<(Txid, BlockHash), ConfirmationBlockTime>,
    txid: Txid,
    anchors: Seq<ConfirmationBlockTime>,
)
    requires
        is_keyed(cache),
    ensures
        is_keyed(with_tx_anchors(cache, txid, anchors)),
    decreases anchors.len(),
{
    if anchors.len() > 0 {
        tx_anchors_are_keyed(cache, txid, anchors.drop_last());
    }
}

/// Of a whole fetch of anchors, whatever the server answers: each anchor that is returned is in the
/// cache, for its transaction and its block, and what is in the cache still goes by the hash of its own
/// block.
pub proof fn fetched_anchors_are_cached(
    txs: Seq<(Txid, u32)>,
    batch_size: nat,
    caches: AnchorCaches,
    events: Seq<AnchorEvent>,
    i: int,
)
    requires
        batch_size > 0,
        is_keyed(caches.anchors),
    ensures
        ({
            let (state, after) = fetched(anchor_start(txs, batch_size, caches), caches, events);
            &&& is_keyed(after.anchors)
            &&& 0 <= i < state.results.len() ==> after.anchors.contains_key(
                cache_key(state.results[i]),
            )
        }),
{
    fetch_holds(txs, batch_size, caches, events);
}

/// Whether the blocks at which a transaction is listed are told apart by their hashes: of headers at its
/// heights that were in the cache or came, two with one hash are the same header at the same height.
pub open spec fn are_told_apart(
    start: AnchorView,
    caches: AnchorCaches,
    events: Seq<AnchorEvent>,
) -> bool {
    forall|txid: Txid, a: u32, b: u32, one: Header, other: Header|
        #![trigger
            start.txs.contains((txid, a)),
            start.txs.contains((txid, b)),
            is_known_header(start, caches, events, a, one),
            is_known_header(start, caches, events, b, other)
        ]
        start.txs.contains((txid, a)) && start.txs.contains((txid, b)) && is_known_header(
            start,
            caches,
            events,
            a,
            one,
        ) && is_known_header(start, caches, events, b, other) && block_hash_of(one)
            == block_hash_of(other) ==> a == b && one == other
}

/// Of a whole fetch of anchors for transactions whose blocks are told apart: each anchor that is returned
/// is the one that is in the cache for its transaction and its block.
pub proof fn fetched_anchors_are_those_in_the_cache(
    txs: Seq<(Txid, u32)>,
    batch_size: nat,
    caches: AnchorCaches,
    events: Seq<AnchorEvent>,
    i: int,
)
    requires
        batch_size > 0,
        is_keyed(caches.anchors),
        are_told_apart(anchor_start(txs, batch_size, caches), caches, events),
    ensures
        ({
            let (state, after) = fetched(anchor_start(txs, batch_size, caches), caches, events);
            0 <= i < state.results.len() ==> after.anchors.get(cache_key(state.results[i])) == Some(
                state.results[i].1,
            )
        }),
{
    fetch_is_exact(txs, batch_size, caches, events);
}

/// Whether each anchor is in a cache.
spec fn are_held(
    anchors: Map<(Txid, BlockHash), ConfirmationBlockTime>,
    results: Seq<(Txid, ConfirmationBlockTime)>,
) -> bool {
    &&& is_keyed(anchors)
    &&& forall|j: int|
        0 <= j < results.len() ==> anchors.contains_key(cache_key(#[trigger] results[j]))
}

/// Whether some anchors are those in a cache.
spec fn are_values(
    anchors: Map<(Txid, BlockHash), ConfirmationBlockTime>,
    results: Seq<(Txid, ConfirmationBlockTime)>,
) -> bool {
    forall|j: int|
        0 <= j < results.len() ==> anchors.get(cache_key(#[trigger] results[j])) == Some(
            results[j].1,
        )
}

/// Anchors that are taken from a cache are those in it.
proof fn taken_anchors_are_values(
    txs: Seq<(Txid, u32)>,
    known: Map<u32, Hash256>,
    anchors: Map<(Txid, BlockHash), ConfirmationBlockTime>,
)
    requires
        is_keyed(anchors),
    ensures
        are_values(anchors, anchored(txs, known, anchors)),
{
    split_is_exact(txs, known, anchors);
    let taken = anchored(txs, known, anchors);
    assert forall|j: int| 0 <= j < taken.len() implies anchors.get(cache_key(#[trigger] taken[j]))
        == Some(taken[j].1) by {
        let height = choose|height: u32| is_taken_at(txs, known, anchors, taken[j], height);
        assert(anchors.contains_key((taken[j].0, known[height])));
    }
}

/// From the headers on, what is returned is in the cache.
proof fn headers_hold(state: AnchorView, known: AnchorCaches)
    requires
        is_keyed(known.anchors),
        state.results.len() == 0,
    ensures
        are_held(known.anchors, to_headers(state, known).results),
        are_values(known.anchors, to_headers(state, known).results),
{
    if state.missing.len() == 0 {
        taken_anchors_are_values(state.txs, state.known, known.anchors);
        let taken = anchored(state.txs, state.known, known.anchors);
        assert(to_headers(state, known).results =~= taken);
        assert forall|j: int| 0 <= j < taken.len() implies known.anchors.contains_key(
            cache_key(#[trigger] taken[j]),
        ) by {
            assert(known.anchors.get(cache_key(taken[j])) == Some(taken[j].1));
        }
    }
}

/// An anchor that is found is in the cache.
proof fn found_anchor_holds(state: AnchorView, known: AnchorCaches, header: Header)
    requires
        are_held(known.anchors, state.results),
        state.checks.len() > 0,
    ensures
        are_held(
            with_anchor_found(state, known, header).1.anchors,
            with_anchor_found(state, known, header).0.results,
        ),
{
    let (next, now) = with_anchor_found(state, known, header);
    assert forall|j: int| 0 <= j < next.results.len() implies now.anchors.contains_key(
        cache_key(#[trigger] next.results[j]),
    ) by {
        if j < state.results.len() {
            assert(next.results[j] == state.results[j]);
        }
    }
}

/// Whatever proofs are checked, what is returned is in the cache.
proof fn checks_hold(state: AnchorView, known: AnchorCaches)
    requires
        are_held(known.anchors, state.results),
    ensures
        are_held(run_checks(state, known).1.anchors, run_checks(state, known).0.results),
    decreases state.checks.len(),
{
    if state.checks.len() > 0 {
        let (txid, height, merkle) = state.checks[0];
        match merkle {
            None => {
                checks_hold(AnchorView { checks: state.checks.drop_first(), ..state }, known);
            },
            Some(found) => {
                if known.headers.contains_key(height) && proves(
                    txid,
                    known.headers[height],
                    found,
                ) {
                    found_anchor_holds(state, known, known.headers[height]);
                    let (next, now) = with_anchor_found(state, known, known.headers[height]);
                    checks_hold(next, now);
                }
            },
        }
    }
}

/// The state in which the proofs of a batch are checked.
spec fn with_checks(state: AnchorView, proofs: Seq<Option<MerkleView>>) -> AnchorView {
    let size = batch_len(state.to_fetch.len(), state.batch_size);
    AnchorView {
        checks: Seq::new(
            lesser(size, proofs.len()) as nat,
            |i: int| (state.to_fetch[i].0, state.to_fetch[i].1, proofs[i]),
        ),
        ..state
    }
}

/// Whatever the server answers, what is returned is in the cache.
proof fn step_holds(state: AnchorView, known: AnchorCaches, event: AnchorEvent)
    requires
        are_held(known.anchors, state.results),
        state.wait is Headers || state.wait is Header ==> state.results.len() == 0,
        state.wait is Fresh ==> state.checks.len() > 0,
    ensures
        are_held(
            anchor_step(state, known, event).1.anchors,
            anchor_step(state, known, event).0.results,
        ),
{
    match (state.wait, event) {
        (AnchorWaitView::Headers, AnchorEvent::Headers(Ok(headers))) => {
            taken_headers_hold(state, known, all_there(headers@));
        },
        (AnchorWaitView::Header { got }, AnchorEvent::Header(reply)) => {
            taken_headers_hold(state, known, with_reply(got, reply));
        },
        (AnchorWaitView::Proofs, AnchorEvent::Proofs(Ok(proofs))) => {
            checks_hold(with_checks(state, proof_views(proofs@)), known);
        },
        (AnchorWaitView::Proof { got }, AnchorEvent::Proof(reply)) => {
            checks_hold(with_checks(state, with_proof(got, reply)), known);
        },
        (AnchorWaitView::Fresh, AnchorEvent::Header(reply)) => {
            let dropped = AnchorView { checks: state.checks.drop_first(), ..state };
            checks_hold(dropped, known);
            if let Ok(header) = reply {
                let now = AnchorCaches {
                    headers: known.headers.insert(state.checks[0].1, header),
                    ..known
                };
                checks_hold(dropped, now);
                found_anchor_holds(state, now, header);
                let (next, found) = with_anchor_found(state, now, header);
                checks_hold(next, found);
            }
        },
        _ => {},
    }
}

/// The headers that came one by one, with another answer.
spec fn with_reply(got: Seq<Option<Header>>, reply: Result<Header, Error>) -> Seq<Option<Header>> {
    match reply {
        Ok(header) => got.push(Some(header)),
        Err(e) => got.push(None),
    }
}

/// The proofs that came one by one, with another answer.
spec fn with_proof(
    got: Seq<Option<MerkleView>>,
    reply: Result<TransactionMerkel, Error>,
) -> Seq<Option<MerkleView>> {
    match reply {
        Ok(merkle) => got.push(Some(merkle@)),
        Err(e) => got.push(None),
    }
}

/// The state in which the headers of a batch are taken in.
spec fn with_taken(
    state: AnchorView,
    known: AnchorCaches,
    headers: Seq<Option<Header>>,
) -> (AnchorView, AnchorCaches) {
    let size = batch_len(state.missing.len(), state.batch_size);
    let n = lesser(size, headers.len());
    (
        AnchorView {
            known: with_hashes(state.known, state.missing, headers, n),
            missing: state.missing.skip(size as int),
            ..state
        },
        AnchorCaches { headers: with_headers(known.headers, state.missing, headers, n), ..known },
    )
}

proof fn taken_headers_hold(
    state: AnchorView,
    known: AnchorCaches,
    headers: Seq<Option<Header>>,
)
    requires
        is_keyed(known.anchors),
        state.results.len() == 0,
    ensures
        take_headers(state, known, headers).1.anchors == known.anchors,
        are_held(known.anchors, take_headers(state, known, headers).0.results),
        are_values(known.anchors, take_headers(state, known, headers).0.results),
{
    let (next, now) = with_taken(state, known, headers);
    headers_hold(next, now);
}

/// The state from which a fetch sets out.
spec fn at_the_beginning(
    txs: Seq<(Txid, u32)>,
    batch_size: nat,
    caches: AnchorCaches,
) -> AnchorView {
    AnchorView {
        batch_size,
        txs,
        known: known_hashes(txs, caches.headers),
        missing: choose|missing: Seq<u32>| are_missing_heights(txs, caches.headers, missing),
        results: Seq::empty(),
        to_fetch: Seq::empty(),
        checks: Seq::empty(),
        wait: AnchorWaitView::Done,
    }
}

/// After any answers, what is returned is in the cache.
proof fn fetch_holds(
    txs: Seq<(Txid, u32)>,
    batch_size: nat,
    caches: AnchorCaches,
    events: Seq<AnchorEvent>,
)
    requires
        batch_size > 0,
        is_keyed(caches.anchors),
    ensures
        ({
            let (state, after) = fetched(anchor_start(txs, batch_size, caches), caches, events);
            are_held(after.anchors, state.results)
        }),
    decreases events.len(),
{
    if events.len() == 0 {
        headers_hold(at_the_beginning(txs, batch_size, caches), caches);
    } else {
        fetch_holds(txs, batch_size, caches, events.drop_last());
        fetch_is_sound(txs, batch_size, caches, events.drop_last());
        let start = anchor_start(txs, batch_size, caches);
        let (state, known) = fetched(start, caches, events.drop_last());
        step_holds(state, known, events.last());
    }
}

/// Whether nothing more is fetched for a transaction at a height.
spec fn is_spent(state: AnchorView, tx: (Txid, u32)) -> bool {
    &&& forall|j: int| 0 <= j < state.to_fetch.len() ==> #[trigger] state.to_fetch[j] != tx
    &&& forall|j: int|
        0 <= j < state.checks.len() ==> ((#[trigger] state.checks[j]).0, state.checks[j].1) != tx
}

/// Whether an anchor is for the block with a header, and is that of the header or nothing more is fetched
/// for its transaction there.
spec fn is_settled_at(
    start: AnchorView,
    caches: AnchorCaches,
    events: Seq<AnchorEvent>,
    state: AnchorView,
    result: (Txid, ConfirmationBlockTime),
    height: u32,
    header: Header,
) -> bool {
    &&& start.txs.contains((result.0, height))
    &&& is_known_header(start, caches, events, height, header)
    &&& result.1.block_id.hash == block_hash_of(header)
    &&& result.1 == anchor_in(height, header) || is_spent(state, (result.0, height))
}

/// Whether an anchor stays as it is in the cache.
spec fn is_settled(
    start: AnchorView,
    caches: AnchorCaches,
    events: Seq<AnchorEvent>,
    state: AnchorView,
    result: (Txid, ConfirmationBlockTime),
) -> bool {
    exists|height: u32, header: Header|
        is_settled_at(start, caches, events, state, result, height, header)
}

spec fn are_settled(
    start: AnchorView,
    caches: AnchorCaches,
    events: Seq<AnchorEvent>,
    state: AnchorView,
) -> bool {
    forall|j: int|
        0 <= j < state.results.len() ==> is_settled(
            start,
            caches,
            events,
            state,
            #[trigger] state.results[j],
        )
}

/// Whether the headers in the cache are known, and what is checked was asked for.
spec fn is_at_checks(
    start: AnchorView,
    caches: AnchorCaches,
    events: Seq<AnchorEvent>,
    state: AnchorView,
    known: AnchorCaches,
) -> bool {
    &&& forall|height: u32| #[trigger]
        known.headers.contains_key(height) ==> is_known_header(
            start,
            caches,
            events,
            height,
            known.headers[height],
        )
    &&& forall|j: int|
        0 <= j < state.checks.len() ==> start.txs.contains(
            ((#[trigger] state.checks[j]).0, state.checks[j].1),
        )
}

/// An anchor that is found is the one in the cache, and so are those before it.
proof fn found_anchor_is_exact(
    start: AnchorView,
    caches: AnchorCaches,
    events: Seq<AnchorEvent>,
    state: AnchorView,
    known: AnchorCaches,
    header: Header,
)
    requires
        are_told_apart(start, caches, events),
        is_at_checks(start, caches, events, state, known),
        are_values(known.anchors, state.results),
        are_settled(start, caches, events, state),
        state.checks.len() > 0,
        is_known_header(start, caches, events, state.checks[0].1, header),
    ensures
        ({
            let (next, now) = with_anchor_found(state, known, header);
            &&& is_at_checks(start, caches, events, next, now)
            &&& are_values(now.anchors, next.results)
            &&& are_settled(start, caches, events, next)
        }),
{
    let (txid, height, merkle) = state.checks[0];
    let (next, now) = with_anchor_found(state, known, header);
    let result = (txid, anchor_in(height, header));
    assert(start.txs.contains((state.checks[0].0, state.checks[0].1)));
    assert(is_settled_at(start, caches, events, next, result, height, header));
    assert forall|j: int| 0 <= j < next.results.len() implies now.anchors.get(
        cache_key(#[trigger] next.results[j]),
    ) == Some(next.results[j].1) && is_settled(
        start,
        caches,
        events,
        next,
        next.results[j],
    ) by {
        if j < state.results.len() {
            let other = state.results[j];
            assert(next.results[j] == other);
            assert(is_settled(start, caches, events, state, other));
            let (at, its) = choose|at: u32, its: Header|
                is_settled_at(start, caches, events, state, other, at, its);
            if is_spent(state, (other.0, at)) {
                assert((state.checks[0].0, state.checks[0].1) != (other.0, at));
                assert forall|k: int| 0 <= k < next.checks.len() implies state.checks.contains(
                    #[trigger] next.checks[k],
                ) by {
                    assert(next.checks[k] == state.checks[k + 1]);
                }
                less_is_spent(state, next, (other.0, at));
            }
            assert(is_settled_at(start, caches, events, next, other, at, its));
            if cache_key(other) == cache_key(result) {
                assert(start.txs.contains((txid, at)));
                assert(start.txs.contains((txid, height)));
                assert(at == height && its == header);
            }
        }
    }
    assert forall|j: int| 0 <= j < next.checks.len() implies start.txs.contains(
        ((#[trigger] next.checks[j]).0, next.checks[j].1),
    ) by {
        assert(next.checks[j] == state.checks[j + 1]);
    }
}

/// Where less is fetched, nothing more is fetched for the same transactions.
proof fn less_is_spent(state: AnchorView, next: AnchorView, tx: (Txid, u32))
    requires
        is_spent(state, tx),
        forall|j: int|
            0 <= j < next.to_fetch.len() ==> state.to_fetch.contains(#[trigger] next.to_fetch[j]),
        forall|j: int|
            0 <= j < next.checks.len() ==> state.checks.contains(#[trigger] next.checks[j])
                || state.to_fetch.contains((next.checks[j].0, next.checks[j].1)),
    ensures
        is_spent(next, tx),
{
    assert forall|j: int| 0 <= j < next.to_fetch.len() implies #[trigger] next.to_fetch[j] != tx by {
        let k = choose|k: int|
            0 <= k < state.to_fetch.len() && state.to_fetch[k] == next.to_fetch[j];
        assert(state.to_fetch[k] != tx);
    }
    assert forall|j: int| 0 <= j < next.checks.len() implies (
        (#[trigger] next.checks[j]).0,
        next.checks[j].1,
    ) != tx by {
        if state.checks.contains(next.checks[j]) {
            let k = choose|k: int|
                0 <= k < state.checks.len() && state.checks[k] == next.checks[j];
            assert((state.checks[k].0, state.checks[k].1) != tx);
        } else {
            let checked = (next.checks[j].0, next.checks[j].1);
            let k = choose|k: int| 0 <= k < state.to_fetch.len() && state.to_fetch[k] == checked;
            assert(state.to_fetch[k] != tx);
        }
    }
}

/// Where less is fetched, anchors stay as they are in the cache.
proof fn less_is_settled(
    start: AnchorView,
    caches: AnchorCaches,
    events: Seq<AnchorEvent>,
    state: AnchorView,
    next: AnchorView,
)
    requires
        are_settled(start, caches, events, state),
        next.results == state.results,
        forall|j: int|
            0 <= j < next.to_fetch.len() ==> state.to_fetch.contains(#[trigger] next.to_fetch[j]),
        forall|j: int|
            0 <= j < next.checks.len() ==> state.checks.contains(#[trigger] next.checks[j])
                || state.to_fetch.contains((next.checks[j].0, next.checks[j].1)),
    ensures
        are_settled(start, caches, events, next),
{
    assert forall|j: int| 0 <= j < next.results.len() implies is_settled(
        start,
        caches,
        events,
        next,
        #[trigger] next.results[j],
    ) by {
        let result = state.results[j];
        assert(is_settled(start, caches, events, state, result));
        let (height, header) = choose|height: u32, header: Header|
            is_settled_at(start, caches, events, state, result, height, header);
        if is_spent(state, (result.0, height)) {
            less_is_spent(state, next, (result.0, height));
        }
        assert(is_settled_at(start, caches, events, next, result, height, header));
    }
}

/// Whatever proofs are checked, what is returned is what is in the cache.
proof fn checks_are_exact(
    start: AnchorView,
    caches: AnchorCaches,
    events: Seq<AnchorEvent>,
    state: AnchorView,
    known: AnchorCaches,
)
    requires
        are_told_apart(start, caches, events),
        is_at_checks(start, caches, events, state, known),
        are_values(known.anchors, state.results),
        are_settled(start, caches, events, state),
    ensures
        are_values(run_checks(state, known).1.anchors, run_checks(state, known).0.results),
        are_settled(start, caches, events, run_checks(state, known).0),
    decreases state.checks.len(),
{
    if state.checks.len() == 0 {
        let size = batch_len(state.to_fetch.len(), state.batch_size) as int;
        let next = run_checks(state, known).0;
        assert forall|j: int| 0 <= j < next.to_fetch.len() implies state.to_fetch.contains(
            #[trigger] next.to_fetch[j],
        ) by {
            assert(next.to_fetch[j] == state.to_fetch[j + size]);
        }
        less_is_settled(start, caches, events, state, next);
    } else {
        let (txid, height, merkle) = state.checks[0];
        match merkle {
            None => {
                let dropped = AnchorView { checks: state.checks.drop_first(), ..state };
                dropped_is_exact(start, caches, events, state, known);
                checks_are_exact(start, caches, events, dropped, known);
            },
            Some(found) => {
                if known.headers.contains_key(height) && proves(
                    txid,
                    known.headers[height],
                    found,
                ) {
                    let header = known.headers[height];
                    found_anchor_is_exact(start, caches, events, state, known, header);
                    let (next, now) = with_anchor_found(state, known, header);
                    checks_are_exact(start, caches, events, next, now);
                } else {
                    let next = run_checks(state, known).0;
                    less_is_settled(start, caches, events, state, next);
                }
            },
        }
    }
}

/// A check that is given up changes nothing.
proof fn dropped_is_exact(
    start: AnchorView,
    caches: AnchorCaches,
    events: Seq<AnchorEvent>,
    state: AnchorView,
    known: AnchorCaches,
)
    requires
        is_at_checks(start, caches, events, state, known),
        are_settled(start, caches, events, state),
        state.checks.len() > 0,
    ensures
        ({
            let dropped = AnchorView { checks: state.checks.drop_first(), ..state };
            &&& is_at_checks(start, caches, events, dropped, known)
            &&& are_settled(start, caches, events, dropped)
        }),
{
    let dropped = AnchorView { checks: state.checks.drop_first(), ..state };
    assert forall|j: int| 0 <= j < dropped.checks.len() implies start.txs.contains(
        ((#[trigger] dropped.checks[j]).0, dropped.checks[j].1),
    ) && state.checks.contains(dropped.checks[j]) by {
        assert(dropped.checks[j] == state.checks[j + 1]);
    }
    less_is_settled(start, caches, events, state, dropped);
}

/// From the headers on, anchors stay as they are in the cache.
proof fn headers_are_settled(
    start: AnchorView,
    caches: AnchorCaches,
    events: Seq<AnchorEvent>,
    state: AnchorView,
    known: AnchorCaches,
)
    requires
        is_sound_data(start, caches, events, state, known),
        is_at_headers(caches, state, known),
        is_keyed(known.anchors),
    ensures
        are_settled(start, caches, events, to_headers(state, known)),
{
    let next = to_headers(state, known);
    if state.missing.len() == 0 {
        split_is_exact(state.txs, state.known, known.anchors);
        let taken = anchored(state.txs, state.known, known.anchors);
        assert(next.results =~= taken);
        assert forall|j: int| 0 <= j < next.results.len() implies is_settled(
            start,
            caches,
            events,
            next,
            #[trigger] next.results[j],
        ) by {
            let result = taken[j];
            let height = choose|height: u32|
                is_taken_at(state.txs, state.known, known.anchors, result, height);
            let tx = (result.0, height);
            assert(known.anchors.contains_key((result.0, state.known[height])));
            assert forall|k: int| 0 <= k < next.to_fetch.len() implies #[trigger] next.to_fetch[k]
                != tx by {
                assert(is_left(state.txs, state.known, known.anchors, next.to_fetch[k]));
            }
            assert(is_spent(next, tx));
            assert(state.known.contains_key(height));
            let header = known.headers[height];
            assert(is_settled_at(start, caches, events, next, result, height, header));
        }
    }
}

/// Headers that came are exact to take in.
proof fn taken_headers_are_settled(
    start: AnchorView,
    caches: AnchorCaches,
    events: Seq<AnchorEvent>,
    state: AnchorView,
    known: AnchorCaches,
    headers: Seq<Option<Header>>,
)
    requires
        is_sound_data(start, caches, events, state, known),
        is_at_headers(caches, state, known),
        is_keyed(known.anchors),
        are_known_headers(start, caches, events, state.missing, headers),
    ensures
        are_settled(start, caches, events, take_headers(state, known, headers).0),
{
    let size = batch_len(state.missing.len(), state.batch_size);
    put_down_is_sound(
        start,
        caches,
        events,
        state,
        known,
        headers,
        lesser(size, headers.len()),
    );
    let (next, now) = with_taken(state, known, headers);
    headers_are_settled(start, caches, events, next, now);
}

/// Proofs that came are exact to take in.
proof fn taken_proofs_are_exact(
    start: AnchorView,
    caches: AnchorCaches,
    events: Seq<AnchorEvent>,
    state: AnchorView,
    known: AnchorCaches,
    proofs: Seq<Option<MerkleView>>,
)
    requires
        are_told_apart(start, caches, events),
        is_sound_data(start, caches, events, state, known),
        are_values(known.anchors, state.results),
        are_settled(start, caches, events, state),
    ensures
        ({
            let (next, now) = take_proofs(state, known, proofs);
            &&& are_values(now.anchors, next.results)
            &&& are_settled(start, caches, events, next)
        }),
{
    let next = with_checks(state, proofs);
    assert forall|j: int| 0 <= j < next.checks.len() implies state.to_fetch.contains(
        ((#[trigger] next.checks[j]).0, next.checks[j].1),
    ) && start.txs.contains((next.checks[j].0, next.checks[j].1)) by {
        let tx = state.to_fetch[j];
        assert(start.txs.contains(tx));
        assert((next.checks[j].0, next.checks[j].1) == tx);
    }
    assert forall|j: int| 0 <= j < next.to_fetch.len() implies state.to_fetch.contains(
        #[trigger] next.to_fetch[j],
    ) by {}
    less_is_settled(start, caches, events, state, next);
    checks_are_exact(start, caches, events, next, known);
}

/// Whatever the server answers, what is returned is what is in the cache.
proof fn step_is_exact(
    start: AnchorView,
    caches: AnchorCaches,
    events: Seq<AnchorEvent>,
    state: AnchorView,
    known: AnchorCaches,
    event: AnchorEvent,
)
    requires
        are_told_apart(start, caches, events),
        is_keyed(known.anchors),
        is_sound(start, caches, events, state, known),
        are_values(known.anchors, state.results),
        are_settled(start, caches, events, state),
        forall|height: u32, header: Header| #[trigger]
            answers_header(state, event, height, header) ==> is_known_header(
                start,
                caches,
                events,
                height,
                header,
            ),
    ensures
        ({
            let (next, now) = anchor_step(state, known, event);
            &&& are_values(now.anchors, next.results)
            &&& are_settled(start, caches, events, next)
        }),
{
    match (state.wait, event) {
        (AnchorWaitView::Headers, AnchorEvent::Headers(Ok(headers))) => {
            let size = batch_len(state.missing.len(), state.batch_size);
            let n = lesser(size, headers@.len());
            let there = all_there(headers@);
            let first = there.take(n);
            assert forall|j: int|
                0 <= j < first.len() && j < state.missing.len() && (
                #[trigger] first[j]) is Some implies is_known_header(
                start,
                caches,
                events,
                state.missing[j],
                first[j]->0,
            ) by {
                assert(answers_header(state, event, state.missing[j], first[j]->0));
            }
            only_the_first_count(state, known, there, n);
            taken_headers_hold(state, known, first);
            taken_headers_are_settled(start, caches, events, state, known, first);
        },
        (AnchorWaitView::Header { got }, AnchorEvent::Header(reply)) => {
            let all = with_reply(got, reply);
            if let Ok(header) = reply {
                assert(answers_header(state, event, state.missing[got.len() as int], header));
            }
            assert forall|j: int|
                0 <= j < all.len() && j < state.missing.len() && (
                #[trigger] all[j]) is Some implies is_known_header(
                start,
                caches,
                events,
                state.missing[j],
                all[j]->0,
            ) by {
                if j < got.len() {
                    assert(got[j] == all[j]);
                }
            }
            taken_headers_hold(state, known, all);
            taken_headers_are_settled(start, caches, events, state, known, all);
        },
        (AnchorWaitView::Proofs, AnchorEvent::Proofs(Ok(proofs))) => {
            taken_proofs_are_exact(start, caches, events, state, known, proof_views(proofs@));
        },
        (AnchorWaitView::Proofs, AnchorEvent::Proofs(Err(e))) => {
            less_is_settled(
                start,
                caches,
                events,
                state,
                anchor_step(state, known, event).0,
            );
        },
        (AnchorWaitView::Proof { got }, AnchorEvent::Proof(reply)) => {
            let all = with_proof(got, reply);
            taken_proofs_are_exact(start, caches, events, state, known, all);
            less_is_settled(
                start,
                caches,
                events,
                state,
                AnchorView { wait: AnchorWaitView::Proof { got: all }, ..state },
            );
        },
        (AnchorWaitView::Fresh, AnchorEvent::Header(reply)) => {
            let (txid, height, merkle) = state.checks[0];
            let dropped = AnchorView { checks: state.checks.drop_first(), ..state };
            assert forall|j: int| 0 <= j < state.checks.len() implies start.txs.contains(
                ((#[trigger] state.checks[j]).0, state.checks[j].1),
            ) by {
                assert(is_sound_check(start, caches, events, state.checks[j]));
            }
            dropped_is_exact(start, caches, events, state, known);
            checks_are_exact(start, caches, events, dropped, known);
            if let Ok(header) = reply {
                assert(answers_header(state, event, height, header));
                let now = AnchorCaches {
                    headers: known.headers.insert(height, header),
                    ..known
                };
                assert(is_at_checks(start, caches, events, state, now));
                dropped_is_exact(start, caches, events, state, now);
                checks_are_exact(start, caches, events, dropped, now);
                found_anchor_is_exact(start, caches, events, state, now, header);
                let (next, found) = with_anchor_found(state, now, header);
                checks_are_exact(start, caches, events, next, found);
            }
        },
        _ => {},
    }
}

/// After any answers, what is returned is what is in the cache.
proof fn fetch_is_exact(
    txs: Seq<(Txid, u32)>,
    batch_size: nat,
    caches: AnchorCaches,
    events: Seq<AnchorEvent>,
)
    requires
        batch_size > 0,
        is_keyed(caches.anchors),
        are_told_apart(anchor_start(txs, batch_size, caches), caches, events),
    ensures
        ({
            let start = anchor_start(txs, batch_size, caches);
            let (state, after) = fetched(start, caches, events);
            &&& are_values(after.anchors, state.results)
            &&& are_settled(start, caches, events, state)
        }),
    decreases events.len(),
{
    let start = anchor_start(txs, batch_size, caches);
    if events.len() == 0 {
        let first = at_the_beginning(txs, batch_size, caches);
        fetch_is_sound(txs, batch_size, caches, events);
        headers_hold(first, caches);
        headers_are_settled(start, caches, events, first, caches);
    } else {
        let before = events.drop_last();
        let (state, known) = fetched(start, caches, before);
        knowledge_grows(start, caches, events);
        fetch_is_exact(txs, batch_size, caches, before);
        fetch_holds(txs, batch_size, caches, before);
        fetch_is_sound(txs, batch_size, caches, before);
        last_answer_is_known(start, caches, events);
        assert forall|j: int| 0 <= j < state.results.len() implies is_settled(
            start,
            caches,
            events,
            state,
            #[trigger] state.results[j],
        ) by {
            let result = state.results[j];
            assert(is_settled(start, caches, before, state, result));
            let (height, header) = choose|height: u32, header: Header|
                is_settled_at(start, caches, before, state, result, height, header);
            assert(is_settled_at(start, caches, events, state, result, height, header));
        }
        step_is_exact(start, caches, events, state, known, events.last());
    }
}

} // verus!
