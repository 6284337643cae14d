//! Laws on the batches in which the scripts of a keychain are scanned.
use vstd::prelude::*;

use crate::bdk::populate::{all_cached, from_cache};
use crate::bdk::scan::{
    all_entries, batches_join, end_is_not_passed, ends_at, evicted_of, extent_is_unique,
    goes_through, histories_of, last_active_of, pending_of, seen_of, txids_of, unused_before,
    SpkScan, SpkWithExpectedTxids,
};
use crate::bdk::spk_run::{
    extent_of, spk_start, with_cached_txs, with_histories, with_spks, SpkRunView, SpkState,
    SpkWaitView,
};
use crate::electrum::types::Tx;
use crate::hash::Txid;
use crate::tx::{TransactionView, TxUpdateView};

verus! {

/// A batch of scripts, as it was answered.
pub struct SpkRound {
    /// The scripts.
    pub spks: Seq<(u32, SpkWithExpectedTxids)>,
    /// Their histories.
    pub histories: Seq<Vec<Tx>>,
    /// The transactions in the cache, once all that were needed were fetched.
    pub cache: Map<Txid, TransactionView>,
}

/// What a server answers.
pub struct Answers {
    /// The history of a script.
    pub history: spec_fn(Seq<u8>) -> Seq<Tx>,
    /// The transactions.
    pub txs: Map<Txid, TransactionView>,
}

/// What a scan asks for, and when.
pub struct ScanParams {
    /// The time at which transactions are seen or found to be gone.
    pub start_time: u64,
    /// How many scripts in a row are without history at the end.
    pub stop_gap: usize,
}

/// A scan with the histories of a batch of scripts.
pub open spec fn with_round_histories(
    state: SpkState,
    params: ScanParams,
    round: SpkRound,
) -> SpkState {
    with_histories(
        SpkState { run: with_spks(state.run, round.spks), ..state },
        round.histories,
        params.start_time,
        params.stop_gap as nat,
    )
}

/// A scan after a batch of scripts.
pub open spec fn with_round(state: SpkState, params: ScanParams, round: SpkRound) -> SpkState {
    let told = with_round_histories(state, params, round);
    let (run, update) = with_cached_txs(told.run, told.update, round.cache);
    SpkState { run, update, ..told }
}

/// A scan after some batches of scripts, one after the other. One at its end stays as it is.
pub open spec fn with_rounds(
    state: SpkState,
    params: ScanParams,
    rounds: Seq<SpkRound>,
) -> SpkState
    decreases rounds.len(),
{
    if rounds.len() == 0 {
        state
    } else {
        with_round(with_rounds(state, params, rounds.drop_last()), params, rounds.last())
    }
}

/// A scan with what was found out before.
pub open spec fn scan_start(update: TxUpdateView, pending: Seq<(Txid, u32)>) -> SpkState {
    SpkState { run: spk_start(), update, pending }
}

/// A scan once there are no more scripts.
pub open spec fn without_more(state: SpkState) -> SpkState {
    SpkState { run: with_spks(state.run, Seq::empty()), ..state }
}

/// The scripts of some batches.
pub open spec fn joined(rounds: Seq<SpkRound>) -> Seq<(u32, SpkWithExpectedTxids)>
    decreases rounds.len(),
{
    if rounds.len() == 0 {
        Seq::empty()
    } else {
        joined(rounds.drop_last()) + rounds.last().spks
    }
}

/// The histories of some scripts.
pub open spec fn answered(
    answers: Answers,
    spks: Seq<(u32, SpkWithExpectedTxids)>,
) -> Seq<Seq<Tx>> {
    spks.map_values(|spk: (u32, SpkWithExpectedTxids)| (answers.history)(spk.1.spk@))
}

/// Whether a batch got its histories and the transactions in them.
pub open spec fn is_answered_round(
    state: SpkState,
    params: ScanParams,
    answers: Answers,
    round: SpkRound,
) -> bool {
    &&& round.spks.len() > 0
    &&& histories_of(round.histories) == answered(answers, round.spks)
    &&& with_round_histories(state, params, round).run.wait matches SpkWaitView::Txs(txids) ==> {
        &&& all_cached(round.cache, txids)
        &&& from_cache(round.cache, txids) == from_cache(answers.txs, txids)
    }
}

/// Whether some batches got their histories and the transactions in them, one after the other.
pub open spec fn are_answered(
    state: SpkState,
    params: ScanParams,
    answers: Answers,
    rounds: Seq<SpkRound>,
) -> bool
    decreases rounds.len(),
{
    rounds.len() > 0 ==> {
        &&& are_answered(state, params, answers, rounds.drop_last())
        &&& is_answered_round(
            with_rounds(state, params, rounds.drop_last()),
            params,
            answers,
            rounds.last(),
        )
    }
}

/// Whether some batches are a whole scan of the scripts of a keychain: each got its answers, and the
/// scan is at its end after them, or there are no more scripts.
pub open spec fn is_whole_scan(
    state: SpkState,
    params: ScanParams,
    answers: Answers,
    spks: Seq<(u32, SpkWithExpectedTxids)>,
    rounds: Seq<SpkRound>,
) -> bool {
    &&& are_answered(state, params, answers, rounds)
    &&& joined(rounds).is_prefix_of(spks)
    &&& with_rounds(state, params, rounds).run.wait is Done || joined(rounds) == spks
}

/// The scripts of a keychain in batches of a size.
pub open spec fn in_batches(
    spks: Seq<(u32, SpkWithExpectedTxids)>,
    batch_size: nat,
) -> Seq<Seq<(u32, SpkWithExpectedTxids)>>
    decreases spks.len(),
{
    if spks.len() == 0 || batch_size == 0 {
        Seq::empty()
    } else if spks.len() <= batch_size {
        seq![spks]
    } else {
        seq![spks.take(batch_size as int)] + in_batches(spks.skip(batch_size as int), batch_size)
    }
}

/// Whether some batches are a whole scan of the scripts of a keychain in batches of a size.
pub open spec fn is_scan_in_batches(
    state: SpkState,
    params: ScanParams,
    answers: Answers,
    spks: Seq<(u32, SpkWithExpectedTxids)>,
    batch_size: nat,
    rounds: Seq<SpkRound>,
) -> bool {
    let batches = in_batches(spks, batch_size);
    &&& are_answered(state, params, answers, rounds)
    &&& rounds.len() <= batches.len()
    &&& forall|k: int| 0 <= k < rounds.len() ==> (#[trigger] rounds[k]).spks == batches[k]
    &&& with_rounds(state, params, rounds).run.wait is Done || rounds.len() == batches.len()
}

/// What a scan of some scripts finds out, whatever batches they come in: as far as it goes until
/// `stop_gap` scripts in a row are without history.
pub open spec fn scan_outcome(
    update: TxUpdateView,
    pending: Seq<(Txid, u32)>,
    params: ScanParams,
    answers: Answers,
    spks: Seq<(u32, SpkWithExpectedTxids)>,
) -> SpkState {
    let histories = answered(answers, spks);
    let n = extent_of(histories, spks.len() as int, 0, params.stop_gap as nat);
    let entries = all_entries(histories.take(n));
    SpkState {
        run: SpkRunView {
            scan: SpkScan {
                last_active_index: last_active_of(spks, histories, n, None),
                unused_spk_count: unused_before(histories, n, 0) as usize,
                stopped: n < spks.len(),
            },
            wait: if n < spks.len() {
                SpkWaitView::Done
            } else {
                SpkWaitView::Spks
            },
        },
        update: TxUpdateView {
            txs: update.txs + from_cache(answers.txs, txids_of(entries)),
            evicted_ats: update.evicted_ats.union(
                evicted_of(spks, histories, n, params.start_time),
            ),
            seen_ats: update.seen_ats.union(seen_of(entries, params.start_time)),
            ..update
        },
        pending: pending + pending_of(entries),
    }
}

/// It makes no difference how the scripts of a keychain are divided into batches: whatever the
/// division, a scan finds out the same, in the same order.
pub proof fn division_makes_no_difference(
    update: TxUpdateView,
    pending: Seq<(Txid, u32)>,
    params: ScanParams,
    answers: Answers,
    spks: Seq<(u32, SpkWithExpectedTxids)>,
    rounds: Seq<SpkRound>,
)
    requires
        is_whole_scan(scan_start(update, pending), params, answers, spks, rounds),
    ensures
        without_more(with_rounds(scan_start(update, pending), params, rounds)) == without_more(
            scan_outcome(update, pending, params, answers, spks),
        ),
{
    let gone = joined(rounds);
    rounds_add_up(update, pending, params, answers, rounds);
    let rest = spks.skip(gone.len() as int);
    assert(spks =~= gone + rest);
    if gone != spks {
        scan_is_over(update, pending, params, answers, gone, rest);
    }
}

/// The batch size changes only how requests are grouped: with any two sizes a scan of the same scripts,
/// which gets the same answers, ends with the same last active index, the same update, with the
/// transactions in the same order, and the same transactions whose anchors are pending.
pub proof fn batch_size_makes_no_difference(
    update: TxUpdateView,
    pending: Seq<(Txid, u32)>,
    params: ScanParams,
    answers: Answers,
    spks: Seq<(u32, SpkWithExpectedTxids)>,
    one_size: nat,
    one: Seq<SpkRound>,
    other_size: nat,
    other: Seq<SpkRound>,
)
    requires
        one_size > 0,
        other_size > 0,
        is_scan_in_batches(scan_start(update, pending), params, answers, spks, one_size, one),
        is_scan_in_batches(scan_start(update, pending), params, answers, spks, other_size, other),
    ensures
        without_more(with_rounds(scan_start(update, pending), params, one)) == without_more(
            with_rounds(scan_start(update, pending), params, other),
        ),
{
    batches_are_a_division(spks, one_size, one);
    division_makes_no_difference(update, pending, params, answers, spks, one);
    batches_are_a_division(spks, other_size, other);
    division_makes_no_difference(update, pending, params, answers, spks, other);
}

/// The scripts in batches are the scripts.
proof fn batches_are_a_division(
    spks: Seq<(u32, SpkWithExpectedTxids)>,
    batch_size: nat,
    rounds: Seq<SpkRound>,
)
    requires
        batch_size > 0,
        rounds.len() <= in_batches(spks, batch_size).len(),
        forall|k: int|
            0 <= k < rounds.len() ==> (#[trigger] rounds[k]).spks == in_batches(
                spks,
                batch_size,
            )[k],
    ensures
        joined(rounds).is_prefix_of(spks),
        rounds.len() == in_batches(spks, batch_size).len() ==> joined(rounds) == spks,
    decreases spks.len(),
{
    if rounds.len() == 0 {
        if spks.len() == 0 {
            assert(joined(rounds) =~= spks);
        }
    } else {
        let size = if spks.len() <= batch_size {
            spks.len() as int
        } else {
            batch_size as int
        };
        let first = spks.take(size);
        let left = spks.skip(size);
        let after = rounds.drop_first();
        let batches = in_batches(spks, batch_size);
        if spks.len() <= batch_size {
            assert(first =~= spks);
            assert(in_batches(left, batch_size) =~= Seq::empty());
        }
        assert(batches =~= seq![first] + in_batches(left, batch_size));
        assert forall|k: int| 0 <= k < after.len() implies (#[trigger] after[k]).spks
            == in_batches(left, batch_size)[k] by {
            assert(rounds[k + 1].spks == batches[k + 1]);
        }
        batches_are_a_division(left, batch_size, after);
        joined_from_the_front(rounds);
        assert(rounds[0].spks == batches[0]);
        assert(joined(rounds) =~= first + joined(after));
        assert(spks =~= first + left);
    }
}

proof fn joined_from_the_front(rounds: Seq<SpkRound>)
    requires
        rounds.len() > 0,
    ensures
        joined(rounds) == rounds[0].spks + joined(rounds.drop_first()),
    decreases rounds.len(),
{
    let after = rounds.drop_first();
    if rounds.len() == 1 {
        assert(rounds.drop_last() =~= Seq::empty());
        assert(after =~= Seq::empty());
        assert(joined(rounds) =~= rounds[0].spks + joined(after));
    } else {
        joined_from_the_front(rounds.drop_last());
        assert(rounds.drop_last().drop_first() =~= after.drop_last());
        assert(joined(rounds) =~= rounds[0].spks + joined(after));
    }
}

/// There is a number of scripts that a scan goes through.
proof fn scan_has_an_extent(
    histories: Seq<Seq<Tx>>,
    total: int,
    k: int,
    unused: nat,
    stop_gap: nat,
) -> (n: int)
    requires
        0 <= k <= total,
        forall|i: int| 0 <= i < k ==> !#[trigger] ends_at(histories, i, unused, stop_gap),
    ensures
        goes_through(histories, total, n, unused, stop_gap),
    decreases total - k,
{
    if k == total || ends_at(histories, k, unused, stop_gap) {
        k
    } else {
        scan_has_an_extent(histories, total, k + 1, unused, stop_gap)
    }
}

/// The number of scripts that a scan goes through is what it should be.
proof fn extent_holds(histories: Seq<Seq<Tx>>, total: int, unused: nat, stop_gap: nat)
    requires
        0 <= total,
    ensures
        goes_through(
            histories,
            total,
            extent_of(histories, total, unused, stop_gap),
            unused,
            stop_gap,
        ),
{
    let n = scan_has_an_extent(histories, total, 0, unused, stop_gap);
    assert(goes_through(histories, total, n, unused, stop_gap));
}

/// As long as a scan goes on, fewer scripts in a row than the gap are without history.
proof fn unused_is_bounded(
    histories: Seq<Seq<Tx>>,
    total: int,
    n: int,
    unused: nat,
    stop_gap: nat,
)
    requires
        goes_through(histories, total, n, unused, stop_gap),
    ensures
        unused_before(histories, n, unused) <= unused || unused_before(histories, n, unused)
            < stop_gap,
{
    if n > 0 && histories[n - 1].len() == 0 {
        assert(!ends_at(histories, n - 1, unused, stop_gap));
    }
}

/// A scan at its end finds out the same if there are more scripts.
proof fn scan_is_over(
    update: TxUpdateView,
    pending: Seq<(Txid, u32)>,
    params: ScanParams,
    answers: Answers,
    spks: Seq<(u32, SpkWithExpectedTxids)>,
    more: Seq<(u32, SpkWithExpectedTxids)>,
)
    requires
        scan_outcome(update, pending, params, answers, spks).run.wait is Done,
    ensures
        scan_outcome(update, pending, params, answers, spks + more) == scan_outcome(
            update,
            pending,
            params,
            answers,
            spks,
        ),
{
    let gap = params.stop_gap as nat;
    let first = answered(answers, spks);
    let second = answered(answers, more);
    let both = answered(answers, spks + more);
    assert(both =~= first + second);
    let n = extent_of(first, spks.len() as int, 0, gap);
    extent_holds(first, spks.len() as int, 0, gap);
    end_is_not_passed(spks, first, more, second, n, 0, None, params.start_time, gap);
    let all = extent_of(both, both.len() as int, 0, gap);
    extent_holds(both, both.len() as int, 0, gap);
    extent_is_unique(both, both.len() as int, all, n, 0, gap);
}

/// After any batches a scan has found out what it finds out of their scripts.
proof fn rounds_add_up(
    update: TxUpdateView,
    pending: Seq<(Txid, u32)>,
    params: ScanParams,
    answers: Answers,
    rounds: Seq<SpkRound>,
)
    requires
        are_answered(scan_start(update, pending), params, answers, rounds),
    ensures
        with_rounds(scan_start(update, pending), params, rounds) == scan_outcome(
            update,
            pending,
            params,
            answers,
            joined(rounds),
        ),
    decreases rounds.len(),
{
    let start = scan_start(update, pending);
    let gap = params.stop_gap as nat;
    if rounds.len() == 0 {
        let spks = joined(rounds);
        let histories = answered(answers, spks);
        extent_holds(histories, 0, 0, gap);
        let outcome = scan_outcome(update, pending, params, answers, spks);
        let entries = all_entries(histories.take(0));
        assert(entries =~= Seq::empty());
        assert(outcome.update.txs =~= update.txs);
        assert(outcome.update.evicted_ats =~= update.evicted_ats);
        assert(outcome.update.seen_ats =~= update.seen_ats);
        assert(outcome.pending =~= pending);
    } else {
        let before = rounds.drop_last();
        let round = rounds.last();
        rounds_add_up(update, pending, params, answers, before);
        let state = with_rounds(start, params, before);
        if state.run.wait is Done {
            scan_is_over(update, pending, params, answers, joined(before), round.spks);
        } else {
            round_adds_up(update, pending, params, answers, joined(before), state, round);
        }
    }
}

/// A batch adds what is found out of its scripts.
proof fn round_adds_up(
    update: TxUpdateView,
    pending: Seq<(Txid, u32)>,
    params: ScanParams,
    answers: Answers,
    spks: Seq<(u32, SpkWithExpectedTxids)>,
    state: SpkState,
    round: SpkRound,
)
    requires
        state == scan_outcome(update, pending, params, answers, spks),
        state.run.wait is Spks,
        is_answered_round(state, params, answers, round),
    ensures
        with_round(state, params, round) == scan_outcome(
            update,
            pending,
            params,
            answers,
            spks + round.spks,
        ),
{
    let gap = params.stop_gap as nat;
    let time = params.start_time;
    let first = answered(answers, spks);
    let second = answered(answers, round.spks);
    let both = answered(answers, spks + round.spks);
    assert(both =~= first + second);
    let len = spks.len() as int;
    extent_holds(first, len, 0, gap);
    unused_is_bounded(first, len, len, 0, gap);
    assert(first.take(len) =~= first);
    let carried = unused_before(first, len, 0);
    assert(carried as usize as nat == carried);
    let n = extent_of(second, second.len() as int, carried, gap);
    extent_holds(second, second.len() as int, carried, gap);
    batches_join(spks, first, round.spks, second, n, 0, None, time, gap);
    extent_holds(both, both.len() as int, 0, gap);
    let all = extent_of(both, both.len() as int, 0, gap);
    extent_is_unique(both, both.len() as int, all, len + n, 0, gap);
    let told = with_round_histories(state, params, round);
    let entries = all_entries(second.take(n));
    assert(histories_of(round.histories).len() == round.histories.len());
    assert(told.run.wait == SpkWaitView::Txs(txids_of(entries)));
    let result = with_round(state, params, round);
    let outcome = scan_outcome(update, pending, params, answers, spks + round.spks);
    assert(result.update.txs =~= outcome.update.txs) by {
        assert(txids_of(all_entries(first) + entries) =~= txids_of(all_entries(first)) + txids_of(
            entries,
        ));
    }
    assert(result.update.evicted_ats =~= outcome.update.evicted_ats);
    assert(result.update.seen_ats =~= outcome.update.seen_ats);
    assert(result.pending =~= outcome.pending);
    assert(result.run == outcome.run);
}

} // verus!
