//! The scripts of a keychain, gone through batch by batch.
use vstd::prelude::*;

use crate::bdk::client::BdkElectrumClient;
use crate::bdk::populate::{all_cached, from_cache, is_first_missing};
use crate::bdk::scan::{
    all_entries, batch_script_hashes, batch_total, confirmed_entries_are_pending,
    entries_of_all_histories, evicted_of, expected_transactions_that_are_missing_are_gone,
    extent_is_unique, goes_through, histories_of, is_entry_of, is_pending_entry, is_pending_of,
    last_active_of, pending_of,
    script_hashes, the_last_script_with_a_history_is_active, txids_are_those_of_the_entries,
    txids_of, unconfirmed_entries_are_seen, unused_before, with_seen, SpkScan,
    SpkWithExpectedTxids,
};
use crate::electrum::types::Tx;
use crate::hash::{ElectrumScriptHash, Txid};
use crate::tx::{TransactionView, TxUpdate, TxUpdateView};

verus! {

/// What the scan of a keychain waits for.
pub enum SpkWaitView {
    /// The next scripts.
    Spks,
    /// The histories of some scripts.
    Histories(Seq<(u32, SpkWithExpectedTxids)>),
    /// Transactions that are not in the cache.
    Txs(Seq<Txid>),
    /// Nothing.
    Done,
}

/// How far the scan of a keychain is.
pub struct SpkRunView {
    /// The scan.
    pub scan: SpkScan,
    /// What is waited for.
    pub wait: SpkWaitView,
}

/// A scan of a keychain, with what it found out.
pub struct SpkState {
    /// The scan.
    pub run: SpkRunView,
    /// What was found out about transactions.
    pub update: TxUpdateView,
    /// Confirmed transactions, whose anchors are not known yet.
    pub pending: Seq<(Txid, u32)>,
}

/// How many scripts of a batch a scan goes through.
pub open spec fn extent_of(
    histories: Seq<Seq<Tx>>,
    total: int,
    unused: nat,
    stop_gap: nat,
) -> int {
    choose|n: int| goes_through(histories, total, n, unused, stop_gap)
}

/// A scan that has not begun.
pub open spec fn spk_start() -> SpkRunView {
    SpkRunView {
        scan: SpkScan { last_active_index: None, unused_spk_count: 0, stopped: false },
        wait: SpkWaitView::Spks,
    }
}

/// A scan at its end, of which transactions are still to be fetched.
pub open spec fn spk_rest(txids: Seq<Txid>) -> SpkRunView {
    SpkRunView {
        scan: SpkScan { last_active_index: None, unused_spk_count: 0, stopped: true },
        wait: SpkWaitView::Txs(txids),
    }
}

/// The scan with the next scripts. Without any it is at its end.
pub open spec fn with_spks(run: SpkRunView, spks: Seq<(u32, SpkWithExpectedTxids)>) -> SpkRunView {
    match run.wait {
        SpkWaitView::Spks => SpkRunView {
            wait: if spks.len() == 0 {
                SpkWaitView::Done
            } else {
                SpkWaitView::Histories(spks)
            },
            ..run
        },
        _ => run,
    }
}

/// The scan with the histories of the scripts that it asked about, until `stop_gap` scripts in a row
/// are without history.
pub open spec fn with_histories(
    state: SpkState,
    histories: Seq<Vec<Tx>>,
    start_time: u64,
    stop_gap: nat,
) -> SpkState {
    match state.run.wait {
        SpkWaitView::Histories(spks) => {
            let hists = histories_of(histories);
            let total = batch_total(spks, histories);
            let unused = state.run.scan.unused_spk_count as nat;
            let n = extent_of(hists, total, unused, stop_gap);
            let entries = all_entries(hists.take(n));
            SpkState {
                run: SpkRunView {
                    scan: SpkScan {
                        last_active_index: last_active_of(
                            spks,
                            hists,
                            n,
                            state.run.scan.last_active_index,
                        ),
                        unused_spk_count: unused_before(hists, n, unused) as usize,
                        stopped: n < total,
                    },
                    wait: SpkWaitView::Txs(txids_of(entries)),
                },
                update: with_seen(
                    TxUpdateView {
                        evicted_ats: state.update.evicted_ats.union(
                            evicted_of(spks, hists, n, start_time),
                        ),
                        ..state.update
                    },
                    entries,
                    start_time,
                ),
                pending: state.pending + pending_of(entries),
            }
        },
        _ => state,
    }
}

/// The scan and its update with the transactions that it waits for, once all of them are in the cache.
/// It goes on with the next scripts, unless it is at its end.
pub open spec fn with_cached_txs(
    run: SpkRunView,
    update: TxUpdateView,
    cache: Map<Txid, TransactionView>,
) -> (SpkRunView, TxUpdateView) {
    match run.wait {
        SpkWaitView::Txs(txids) if all_cached(cache, txids) => (
            SpkRunView {
                wait: if run.scan.stopped {
                    SpkWaitView::Done
                } else {
                    SpkWaitView::Spks
                },
                ..run
            },
            TxUpdateView { txs: update.txs + from_cache(cache, txids), ..update },
        ),
        _ => (run, update),
    }
}

/// What the scan of a keychain needs next.
pub enum SpkAsk {
    /// The next scripts.
    Spks,
    /// The histories of some scripts.
    Histories(Vec<ElectrumScriptHash>),
    /// A transaction.
    Tx(Txid),
    /// Nothing.
    Done,
}

/// Whether this is what the scan of a keychain needs next.
pub open spec fn is_spk_ask(run: SpkRunView, cache: Map<Txid, TransactionView>, ask: SpkAsk) -> bool {
    match ask {
        SpkAsk::Spks => run.wait is Spks,
        SpkAsk::Histories(hashes) => match run.wait {
            SpkWaitView::Histories(spks) => hashes@ == batch_script_hashes(spks),
            _ => false,
        },
        SpkAsk::Tx(txid) => match run.wait {
            SpkWaitView::Txs(txids) => is_first_missing(cache, txids, txid),
            _ => false,
        },
        SpkAsk::Done => run.wait is Done,
    }
}

enum SpkWait {
    Spks,
    Histories(Vec<(u32, SpkWithExpectedTxids)>),
    Txs(Vec<Txid>),
    Done,
}

/// The scan of the scripts of a keychain.
pub struct SpkRun {
    scan: SpkScan,
    wait: SpkWait,
}

impl View for SpkRun {
    type V = SpkRunView;

    closed spec fn view(&self) -> SpkRunView {
        SpkRunView {
            scan: self.scan,
            wait: match self.wait {
                SpkWait::Spks => SpkWaitView::Spks,
                SpkWait::Histories(spks) => SpkWaitView::Histories(spks@),
                SpkWait::Txs(txids) => SpkWaitView::Txs(txids@),
                SpkWait::Done => SpkWaitView::Done,
            },
        }
    }
}

/// The transactions of some history entries.
pub fn entry_txids(entries: &Vec<Tx>) -> (r: Vec<Txid>)
    ensures
        r@ == txids_of(entries@),
{
    let mut r: Vec<Txid> = Vec::new();
    let mut i: usize = 0;
    while i < entries.len()
        invariant
            i <= entries.len(),
            r@ == txids_of(entries@).take(i as int),
        decreases entries.len() - i,
    {
        r.push(entries[i].txid());
        proof {
            let txids = txids_of(entries@);
            assert(txids.take(i + 1) =~= txids.take(i as int).push(txids[i as int]));
        }
        i = i + 1;
    }
    proof {
        assert(txids_of(entries@).take(entries@.len() as int) =~= txids_of(entries@));
    }
    r
}

impl SpkRun {
    /// A scan that has not begun.
    pub fn new() -> (r: Self)
        ensures
            r@ == spk_start(),
    {
        SpkRun { scan: SpkScan::new(), wait: SpkWait::Spks }
    }

    /// A scan at its end, of which transactions are still to be fetched.
    pub fn rest(txids: Vec<Txid>) -> (r: Self)
        ensures
            r@ == spk_rest(txids@),
    {
        let mut scan = SpkScan::new();
        scan.stopped = true;
        SpkRun { scan, wait: SpkWait::Txs(txids) }
    }

    /// The index of the last script with a history, if there is one.
    pub fn last_active_index(&self) -> (r: Option<u32>)
        ensures
            r == self@.scan.last_active_index,
    {
        self.scan.last_active_index
    }

    /// The scripts whose histories are waited for, if any are, and how many in a row were without history
    /// before them.
    pub fn awaited(&self) -> (r: Option<(&Vec<(u32, SpkWithExpectedTxids)>, usize)>)
        ensures
            match r {
                Some((spks, unused)) => self@.wait == SpkWaitView::Histories(spks@) && unused
                    == self@.scan.unused_spk_count,
                None => !(self@.wait is Histories),
            },
    {
        match &self.wait {
            SpkWait::Histories(spks) => Some((spks, self.scan.unused_spk_count)),
            _ => None,
        }
    }

    /// Takes the next scripts.
    pub fn on_spks(&mut self, spks: Vec<(u32, SpkWithExpectedTxids)>)
        ensures
            final(self)@ == with_spks(old(self)@, spks@),
    {
        if let SpkWait::Spks = &self.wait {
            self.wait = if spks.len() == 0 {
                SpkWait::Done
            } else {
                SpkWait::Histories(spks)
            };
        }
    }

    /// Takes the histories of the scripts.
    pub fn on_histories(
        &mut self,
        histories: &Vec<Vec<Tx>>,
        start_time: u64,
        stop_gap: usize,
        tx_update: &mut TxUpdate,
        pending_anchors: &mut Vec<(Txid, u32)>,
    )
        ensures
            (SpkState { run: final(self)@, update: final(tx_update)@, pending: final(pending_anchors)@ })
                == with_histories(
                (SpkState {
                    run: old(self)@,
                    update: old(tx_update)@,
                    pending: old(pending_anchors)@,
                }),
                histories@,
                start_time,
                stop_gap as nat,
            ),
    {
        let ghost before = self@;
        let mut txids: Option<Vec<Txid>> = None;
        if let SpkWait::Histories(spks) = &self.wait {
            let batch = self.scan.populate_with_spks(
                start_time,
                tx_update,
                spks,
                histories,
                stop_gap,
                pending_anchors,
            );
            proof {
                let hists = histories_of(histories@);
                let total = batch_total(spks@, histories@);
                let unused = before.scan.unused_spk_count as nat;
                let n = extent_of(hists, total, unused, stop_gap as nat);
                assert(goes_through(hists, total, batch.count as int, unused, stop_gap as nat));
                extent_is_unique(hists, total, batch.count as int, n, unused, stop_gap as nat);
            }
            txids = Some(entry_txids(&batch.entries));
        }
        if let Some(txids) = txids {
            self.wait = SpkWait::Txs(txids);
        }
    }

    /// Goes as far as it can be gone with the transactions in the cache, and says what is needed next.
    pub fn ask<C>(&mut self, client: &BdkElectrumClient<C>, tx_update: &mut TxUpdate) -> (r: SpkAsk)
        ensures
            (final(self)@, final(tx_update)@) == with_cached_txs(
                old(self)@,
                old(tx_update)@,
                client.txs(),
            ),
            is_spk_ask(final(self)@, client.txs(), r),
    {
        if let SpkWait::Txs(txids) = &self.wait {
            match client.push_txs(txids, tx_update) {
                Some(missing) => {
                    return SpkAsk::Tx(missing);
                },
                None => {
                    self.wait = if self.scan.stopped {
                        SpkWait::Done
                    } else {
                        SpkWait::Spks
                    };
                },
            }
        }
        match &self.wait {
            SpkWait::Spks => SpkAsk::Spks,
            SpkWait::Histories(spks) => SpkAsk::Histories(script_hashes(spks)),
            _ => SpkAsk::Done,
        }
    }
}

/// What a batch of histories brings. Of the scripts that are gone through each confirmed entry is pending
/// and each other one is seen, and the transactions of all of them are fetched next; what was found out
/// before is kept, and nothing else is added.
pub proof fn histories_bring_their_entries(
    state: SpkState,
    spks: Seq<(u32, SpkWithExpectedTxids)>,
    histories: Seq<Vec<Tx>>,
    start_time: u64,
    stop_gap: nat,
    n: int,
    i: int,
    j: int,
)
    requires
        state.run.wait == SpkWaitView::Histories(spks),
        spks.len() == histories.len(),
        goes_through(
            histories_of(histories),
            spks.len() as int,
            n,
            state.run.scan.unused_spk_count as nat,
            stop_gap,
        ),
        0 <= i < n,
        0 <= j < histories[i]@.len(),
    ensures
        ({
            let after = with_histories(state, histories, start_time, stop_gap);
            let entry = histories[i]@[j];
            &&& after.run.wait matches SpkWaitView::Txs(txids) && txids.contains(entry.txid)
            &&& 1 <= entry.height <= 4294967295 ==> after.pending.contains(
                (entry.txid, entry.height as u32),
            )
            &&& !(1 <= entry.height <= 4294967295) ==> after.update.seen_ats.contains(
                (entry.txid, start_time),
            )
        }),
{
    let hists = histories_of(histories);
    let unused = state.run.scan.unused_spk_count as nat;
    let extent = extent_of(hists, spks.len() as int, unused, stop_gap);
    extent_is_unique(hists, spks.len() as int, n, extent, unused, stop_gap);
    let gone = hists.take(n);
    let entries = all_entries(gone);
    let entry = histories[i]@[j];
    entries_of_all_histories(gone, Seq::empty());
    assert(gone[i][j] == entry);
    let k = choose|k: int| 0 <= k < entries.len() && entries[k] == entry;
    txids_are_those_of_the_entries(entries, k);
    assert(txids_of(entries)[k] == entry.txid);
    confirmed_entries_are_pending(entries, Seq::empty());
    unconfirmed_entries_are_seen(entries, start_time, (entry.txid, start_time));
    assert(entries[k].txid == entry.txid);
    if 1 <= entry.height <= 4294967295 {
        let found = pending_of(entries);
        let at = choose|at: int|
            0 <= at < found.len() && found[at] == (entry.txid, entry.height as u32);
        let after = with_histories(state, histories, start_time, stop_gap);
        assert(after.pending[state.pending.len() + at] == found[at]);
    }
}

/// A batch of histories adds to what was found out before, and adds only what they hold; the transactions
/// themselves, outputs and anchors come later. The scan is at its end where it did not go through all.
pub proof fn histories_bring_nothing_else(
    state: SpkState,
    spks: Seq<(u32, SpkWithExpectedTxids)>,
    histories: Seq<Vec<Tx>>,
    start_time: u64,
    stop_gap: nat,
    n: int,
)
    requires
        state.run.wait == SpkWaitView::Histories(spks),
        spks.len() == histories.len(),
        goes_through(
            histories_of(histories),
            spks.len() as int,
            n,
            state.run.scan.unused_spk_count as nat,
            stop_gap,
        ),
    ensures
        ({
            let after = with_histories(state, histories, start_time, stop_gap);
            &&& after.run.scan.stopped <==> n < spks.len()
            &&& after.update.txs == state.update.txs
            &&& after.update.txouts == state.update.txouts
            &&& after.update.anchors == state.update.anchors
            &&& state.pending.is_prefix_of(after.pending)
            &&& state.update.seen_ats.subset_of(after.update.seen_ats)
            &&& state.update.evicted_ats.subset_of(after.update.evicted_ats)
            &&& forall|k: int|
                state.pending.len() <= k < after.pending.len() ==> exists|i: int, j: int|
                    0 <= i < n && 0 <= j < histories[i]@.len() && is_pending_entry(
                        #[trigger] histories[i]@[j],
                        #[trigger] after.pending[k],
                    )
            &&& forall|seen: (Txid, u64)| #[trigger]
                after.update.seen_ats.contains(seen) && !state.update.seen_ats.contains(seen)
                    ==> seen.1 == start_time && exists|i: int, j: int|
                    0 <= i < n && 0 <= j < histories[i]@.len() && (
                    #[trigger] histories[i]@[j]).txid == seen.0
        }),
{
    let hists = histories_of(histories);
    let unused = state.run.scan.unused_spk_count as nat;
    let extent = extent_of(hists, spks.len() as int, unused, stop_gap);
    extent_is_unique(hists, spks.len() as int, n, extent, unused, stop_gap);
    let gone = hists.take(n);
    let entries = all_entries(gone);
    let found = pending_of(entries);
    let after = with_histories(state, histories, start_time, stop_gap);
    entries_of_all_histories(gone, Seq::empty());
    confirmed_entries_are_pending(entries, Seq::empty());
    assert forall|k: int| state.pending.len() <= k < after.pending.len() implies exists|
        i: int,
        j: int,
    |
        0 <= i < n && 0 <= j < histories[i]@.len() && is_pending_entry(
            #[trigger] histories[i]@[j],
            #[trigger] after.pending[k],
        ) by {
        let at = k - state.pending.len();
        assert(after.pending[k] == found[at]);
        assert(is_pending_of(entries, found[at]));
        let e = choose|e: int|
            0 <= e < entries.len() && is_pending_entry(#[trigger] entries[e], found[at]);
        assert(is_entry_of(gone, entries[e]));
        let i = choose|i: int| 0 <= i < gone.len() && (#[trigger] gone[i]).contains(entries[e]);
        let j = choose|j: int| 0 <= j < gone[i].len() && gone[i][j] == entries[e];
        assert(is_pending_entry(histories[i]@[j], after.pending[k]));
    }
    assert forall|seen: (Txid, u64)| #[trigger]
        after.update.seen_ats.contains(seen) && !state.update.seen_ats.contains(
            seen,
        ) implies seen.1 == start_time && exists|i: int, j: int|
        0 <= i < n && 0 <= j < histories[i]@.len() && (#[trigger] histories[i]@[j]).txid
            == seen.0 by {
        unconfirmed_entries_are_seen(entries, start_time, seen);
        let e = choose|e: int|
            0 <= e < entries.len() && (#[trigger] entries[e]).txid == seen.0 && !(1
                <= entries[e].height <= 4294967295);
        assert(is_entry_of(gone, entries[e]));
        let i = choose|i: int| 0 <= i < gone.len() && (#[trigger] gone[i]).contains(entries[e]);
        let j = choose|j: int| 0 <= j < gone[i].len() && gone[i][j] == entries[e];
        assert(histories[i]@[j].txid == seen.0);
    }
}

/// What a batch of histories says of the scripts of a keychain: which is the last with a history, and what
/// is gone from the history of a script that was gone through.
pub proof fn histories_tell_of_their_scripts(
    state: SpkState,
    spks: Seq<(u32, SpkWithExpectedTxids)>,
    histories: Seq<Vec<Tx>>,
    start_time: u64,
    stop_gap: nat,
    n: int,
    i: int,
    txid: Txid,
)
    requires
        state.run.wait == SpkWaitView::Histories(spks),
        spks.len() == histories.len(),
        goes_through(
            histories_of(histories),
            spks.len() as int,
            n,
            state.run.scan.unused_spk_count as nat,
            stop_gap,
        ),
        0 <= i < n,
    ensures
        ({
            let after = with_histories(state, histories, start_time, stop_gap);
            &&& histories[i]@.len() > 0 && (forall|j: int|
                i < j < n ==> (#[trigger] histories[j])@.len() == 0)
                ==> after.run.scan.last_active_index == Some(spks[i].0)
            &&& (forall|j: int| 0 <= j < n ==> (#[trigger] histories[j])@.len() == 0)
                ==> after.run.scan.last_active_index == state.run.scan.last_active_index
            &&& spks[i].1.expected_txids@.contains(txid) && (forall|j: int|
                0 <= j < histories[i]@.len() ==> (#[trigger] histories[i]@[j]).txid != txid)
                ==> after.update.evicted_ats.contains((txid, start_time))
        }),
{
    let hists = histories_of(histories);
    let unused = state.run.scan.unused_spk_count as nat;
    let extent = extent_of(hists, spks.len() as int, unused, stop_gap);
    extent_is_unique(hists, spks.len() as int, n, extent, unused, stop_gap);
    let before = state.run.scan.last_active_index;
    the_last_script_with_a_history_is_active(spks, hists, n, before, i);
    if forall|j: int| i < j < n ==> (#[trigger] histories[j])@.len() == 0 {
        assert forall|j: int| i < j < n implies (#[trigger] hists[j]).len() == 0 by {
            assert(histories[j]@.len() == 0);
        }
    }
    if forall|j: int| 0 <= j < n ==> (#[trigger] histories[j])@.len() == 0 {
        assert forall|j: int| 0 <= j < n implies (#[trigger] hists[j]).len() == 0 by {
            assert(histories[j]@.len() == 0);
        }
    }
    expected_transactions_that_are_missing_are_gone(spks, hists, n, start_time, txid, start_time);
    if spks[i].1.expected_txids@.contains(txid) && (forall|j: int|
        0 <= j < histories[i]@.len() ==> (#[trigger] histories[i]@[j]).txid != txid) {
        assert forall|j: int| 0 <= j < hists[i].len() implies (#[trigger] hists[i][j]).txid
            != txid by {
            assert(histories[i]@[j].txid != txid);
        }
        assert(spks[i].1.expected_txids@.contains(txid));
    }
}

/// Once all transactions that a scan waits for are in the cache they are in the update, in order, and the
/// scan goes on with the next scripts, or is done where it was at its end. Before that nothing happens.
pub proof fn fetched_transactions_are_in_the_update(
    run: SpkRunView,
    update: TxUpdateView,
    cache: Map<Txid, TransactionView>,
    txids: Seq<Txid>,
    i: int,
)
    requires
        run.wait == SpkWaitView::Txs(txids),
        0 <= i < txids.len(),
    ensures
        ({
            let (after, now) = with_cached_txs(run, update, cache);
            let there = forall|k: int|
                0 <= k < txids.len() ==> cache.contains_key(#[trigger] txids[k]);
            &&& there ==> {
                &&& now.txs.len() == update.txs.len() + txids.len()
                &&& now.txs[update.txs.len() + i] == cache[txids[i]]
                &&& update.txs.is_prefix_of(now.txs)
                &&& now.seen_ats == update.seen_ats
                &&& now.evicted_ats == update.evicted_ats
                &&& now.anchors == update.anchors
                &&& now.txouts == update.txouts
                &&& after.scan == run.scan
                &&& run.scan.stopped ==> after.wait is Done
                &&& !run.scan.stopped ==> after.wait is Spks
            }
            &&& !there ==> after == run && now == update
        }),
{
}

/// A scan asks for the histories of the scripts that it gets, and is done where it gets none.
pub proof fn scripts_lead_to_their_histories(
    run: SpkRunView,
    spks: Seq<(u32, SpkWithExpectedTxids)>,
)
    requires
        run.wait is Spks,
    ensures
        spks.len() > 0 ==> with_spks(run, spks).wait == SpkWaitView::Histories(spks),
        spks.len() == 0 ==> with_spks(run, spks).wait is Done,
        with_spks(run, spks).scan == run.scan,
        spk_start().wait is Spks,
        spk_start().scan.last_active_index is None,
        spk_start().scan.unused_spk_count == 0,
{
}

} // verus!
