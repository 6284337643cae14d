//! What the histories of scripts say of the transactions of a wallet.

use vstd::prelude::*;

use crate::electrum::types::Tx;
use crate::hash::{electrum_script_hash, hash_script, ElectrumScriptHash, Txid};
use crate::ordered::OrderedSet;
use crate::tx::{TxUpdate, TxUpdateView};

verus! {

/// A script and the transactions that are expected in its history.
#[derive(Debug, PartialEq)]
pub struct SpkWithExpectedTxids {
    /// The script.
    pub spk: Vec<u8>,
    /// Transactions that are expected to be in the history of the script.
    pub expected_txids: OrderedSet<Txid>,
}

/// The block height of a history entry, if it is confirmed. Heights 0 and -1 are reserved for
/// unconfirmed transactions.
pub open spec fn confirmed_height(electrum_height: i64) -> Option<u32> {
    if 0 < electrum_height <= u32::MAX {
        Some(electrum_height as u32)
    } else {
        None
    }
}

/// The confirmed ones of some history entries, with their heights.
pub open spec fn pending_of(entries: Seq<Tx>) -> Seq<(Txid, u32)>
    decreases entries.len(),
{
    if entries.len() == 0 {
        Seq::empty()
    } else {
        let before = pending_of(entries.drop_last());
        match confirmed_height(entries.last().height) {
            Some(height) => before.push((entries.last().txid, height)),
            None => before,
        }
    }
}

/// The unconfirmed ones of some history entries, with the time at which they are seen.
pub open spec fn seen_of(entries: Seq<Tx>, start_time: u64) -> Set<(Txid, u64)> {
    Set::new(
        |seen: (Txid, u64)|
            seen.1 == start_time && exists|i: int|
                0 <= i < entries.len() && (#[trigger] entries[i]).txid == seen.0
                    && confirmed_height(entries[i].height) is None,
    )
}

/// An update with the unconfirmed ones of some history entries.
pub open spec fn with_seen(update: TxUpdateView, entries: Seq<Tx>, start_time: u64) -> TxUpdateView {
    TxUpdateView { seen_ats: update.seen_ats.union(seen_of(entries, start_time)), ..update }
}

/// The block height of a history entry, if it is confirmed.
pub fn block_height(electrum_height: i64) -> (r: Option<u32>)
    ensures
        r == confirmed_height(electrum_height),
{
    if 0 < electrum_height && electrum_height <= u32::MAX as i64 {
        Some(electrum_height as u32)
    } else {
        None
    }
}

/// Takes note of a history entry: a confirmed one is pending until its anchor is known, an
/// unconfirmed one has been seen.
pub fn apply_history_height(
    tx_update: &mut TxUpdate,
    pending_anchors: &mut Vec<(Txid, u32)>,
    txid: Txid,
    electrum_height: i64,
    start_time: u64,
)
    ensures
        match confirmed_height(electrum_height) {
            Some(height) => final(tx_update)@ == old(tx_update)@ && final(pending_anchors)@ == old(
                pending_anchors,
            )@.push((txid, height)),
            None => final(tx_update)@ == (TxUpdateView {
                seen_ats: old(tx_update)@.seen_ats.insert((txid, start_time)),
                ..old(tx_update)@
            }) && final(pending_anchors)@ == old(pending_anchors)@,
        },
{
    match block_height(electrum_height) {
        Some(height) => {
            pending_anchors.push((txid, height));
        },
        None => {
            tx_update.seen_ats.insert((txid, start_time));
        },
    }
}

/// Takes note of some history entries.
pub fn apply_history(
    tx_update: &mut TxUpdate,
    pending_anchors: &mut Vec<(Txid, u32)>,
    entries: &Vec<Tx>,
    start_time: u64,
)
    ensures
        final(tx_update)@ == with_seen(old(tx_update)@, entries@, start_time),
        final(pending_anchors)@ == old(pending_anchors)@ + pending_of(entries@),
{
    let mut i: usize = 0;
    proof {
        assert(tx_update@.seen_ats =~= tx_update@.seen_ats.union(
            seen_of(entries@.take(0), start_time),
        ));
        assert(pending_anchors@ =~= pending_anchors@ + pending_of(entries@.take(0)));
    }
    while i < entries.len()
        invariant
            i <= entries.len(),
            tx_update@ == with_seen(old(tx_update)@, entries@.take(i as int), start_time),
            pending_anchors@ == old(pending_anchors)@ + pending_of(entries@.take(i as int)),
        decreases entries.len() - i,
    {
        let entry = entries[i];
        let ghost before = tx_update@;
        apply_history_height(
            tx_update,
            pending_anchors,
            entry.txid(),
            entry.electrum_height(),
            start_time,
        );
        proof {
            let done = entries@.take(i as int);
            let next = entries@.take(i + 1);
            assert(next.drop_last() =~= done);
            assert forall|seen: (Txid, u64)|
                seen_of(next, start_time).contains(seen) == (seen_of(done, start_time).contains(seen)
                    || (seen == (entry.txid, start_time) && confirmed_height(entry.height)
                    is None)) by {
                if seen_of(next, start_time).contains(seen) {
                    let j = choose|j: int|
                        0 <= j < next.len() && (#[trigger] next[j]).txid == seen.0
                            && confirmed_height(next[j].height) is None;
                    if j < i {
                        assert(done[j].txid == seen.0);
                    }
                }
                if seen_of(done, start_time).contains(seen) {
                    let j = choose|j: int|
                        0 <= j < done.len() && (#[trigger] done[j]).txid == seen.0
                            && confirmed_height(done[j].height) is None;
                    assert(next[j].txid == seen.0);
                }
                assert(next[i as int] == entry);
            }
            assert(tx_update@.seen_ats =~= old(tx_update)@.seen_ats.union(
                seen_of(next, start_time),
            ));
            assert(pending_anchors@ =~= old(pending_anchors)@ + pending_of(next));
        }
        i = i + 1;
    }
    proof {
        assert(entries@.take(entries@.len() as int) =~= entries@);
    }
}

/// The entries of some histories.
pub open spec fn histories_of(histories: Seq<Vec<Tx>>) -> Seq<Seq<Tx>> {
    histories.map_values(|history: Vec<Tx>| history@)
}

/// The entries of some histories, one history after the other.
pub open spec fn all_entries(histories: Seq<Seq<Tx>>) -> Seq<Tx>
    decreases histories.len(),
{
    if histories.len() == 0 {
        Seq::empty()
    } else {
        all_entries(histories.drop_last()) + histories.last()
    }
}

/// The transactions of some history entries.
pub open spec fn txids_of(entries: Seq<Tx>) -> Seq<Txid> {
    entries.map_values(|entry: Tx| entry.txid)
}

/// How many of the scripts just before the `n`-th one have no history, when as many as `unused` had
/// none before the first one.
pub open spec fn unused_before(histories: Seq<Seq<Tx>>, n: int, unused: nat) -> nat
    decreases n,
{
    if n <= 0 {
        unused
    } else if histories[n - 1].len() == 0 {
        unused_before(histories, n - 1, unused) + 1
    } else {
        0
    }
}

/// Whether a scan ends with the `n`-th script: it has no history, and makes the gap complete.
pub open spec fn ends_at(
    histories: Seq<Seq<Tx>>,
    n: int,
    unused: nat,
    stop_gap: nat,
) -> bool {
    histories[n].len() == 0 && unused_before(histories, n, unused) + 1 >= stop_gap
}

/// Whether a scan goes through the first `n` scripts and no others: it ends with the next one, or
/// there is no other one.
pub open spec fn goes_through(
    histories: Seq<Seq<Tx>>,
    total: int,
    n: int,
    unused: nat,
    stop_gap: nat,
) -> bool {
    &&& 0 <= n <= total
    &&& forall|i: int| 0 <= i < n ==> !#[trigger] ends_at(histories, i, unused, stop_gap)
    &&& n < total ==> ends_at(histories, n, unused, stop_gap)
}

/// The index of the last script with a history among the first `n` ones.
pub open spec fn last_active_of(
    spks: Seq<(u32, SpkWithExpectedTxids)>,
    histories: Seq<Seq<Tx>>,
    n: int,
    before: Option<u32>,
) -> Option<u32>
    decreases n,
{
    if n <= 0 {
        before
    } else if histories[n - 1].len() > 0 {
        Some(spks[n - 1].0)
    } else {
        last_active_of(spks, histories, n - 1, before)
    }
}

/// Whether a history holds a transaction.
pub open spec fn holds_txid(history: Seq<Tx>, txid: Txid) -> bool {
    exists|i: int| 0 <= i < history.len() && (#[trigger] history[i]).txid == txid
}

/// The transactions that are expected in the history of one of the first `n` scripts and are not
/// there, with the time at which that is noticed.
pub open spec fn evicted_of(
    spks: Seq<(u32, SpkWithExpectedTxids)>,
    histories: Seq<Seq<Tx>>,
    n: int,
    start_time: u64,
) -> Set<(Txid, u64)> {
    Set::new(
        |evicted: (Txid, u64)|
            evicted.1 == start_time && exists|i: int|
                0 <= i < n && (#[trigger] spks[i]).1.expected_txids@.contains(evicted.0)
                    && !holds_txid(histories[i], evicted.0),
    )
}

/// The set of the transactions of a history.
pub fn history_txids(history: &Vec<Tx>) -> (r: OrderedSet<Txid>)
    ensures
        forall|txid: Txid| #[trigger] r@.contains(txid) <==> holds_txid(history@, txid),
{
    let mut r: OrderedSet<Txid> = OrderedSet::new();
    let mut i: usize = 0;
    while i < history.len()
        invariant
            i <= history.len(),
            forall|txid: Txid| #[trigger]
                r@.contains(txid) <==> exists|j: int|
                    0 <= j < i && (#[trigger] history@[j]).txid == txid,
        decreases history.len() - i,
    {
        let ghost before = r@;
        r.insert(history[i].txid());
        proof {
            assert forall|txid: Txid| #[trigger] r@.contains(txid) <==> exists|j: int|
                0 <= j < i + 1 && (#[trigger] history@[j]).txid == txid by {
                if before.contains(txid) {
                    let j = choose|j: int| 0 <= j < i && (#[trigger] history@[j]).txid == txid;
                    assert(history@[j].txid == txid);
                }
                if exists|j: int| 0 <= j < i + 1 && (#[trigger] history@[j]).txid == txid {
                    let j = choose|j: int| 0 <= j < i + 1 && (#[trigger] history@[j]).txid == txid;
                    if j < i {
                        assert(history@[j].txid == txid);
                        assert(before.contains(txid));
                    }
                }
                assert(history@[i as int].txid == history@[i as int].txid);
            }
        }
        i = i + 1;
    }
    r
}

/// Adds the members of one set that are not in another, each with a time.
pub fn add_difference(
    target: &mut OrderedSet<(Txid, u64)>,
    expected: &OrderedSet<Txid>,
    current: &OrderedSet<Txid>,
    time: u64,
)
    ensures
        forall|e: (Txid, u64)| #[trigger]
            final(target)@.contains(e) <==> old(target)@.contains(e) || (e.1 == time
                && expected@.contains(e.0) && !current@.contains(e.0)),
{
    let n = expected.len();
    let ghost list = expected.list();
    let mut i: usize = 0;
    while i < n
        invariant
            i <= n,
            n == expected.list().len(),
            list == expected.list(),
            forall|e: (Txid, u64)| #[trigger]
                target@.contains(e) <==> old(target)@.contains(e) || (e.1 == time
                    && !current@.contains(e.0) && exists|j: int|
                    0 <= j < i && #[trigger] list[j] == e.0),
        decreases n - i,
    {
        let txid = *expected.at(i);
        let ghost before = target@;
        if !current.contains(&txid) {
            target.insert((txid, time));
        }
        proof {
            assert forall|e: (Txid, u64)| #[trigger] target@.contains(e) <==> old(target)@.contains(
                e,
            ) || (e.1 == time && !current@.contains(e.0) && exists|j: int|
                0 <= j < i + 1 && #[trigger] list[j] == e.0) by {
                assert(list[i as int] == txid);
                if exists|j: int| 0 <= j < i && #[trigger] list[j] == e.0 {
                    let j = choose|j: int| 0 <= j < i && #[trigger] list[j] == e.0;
                    assert(list[j] == e.0);
                }
                if exists|j: int| 0 <= j < i + 1 && #[trigger] list[j] == e.0 {
                    let j = choose|j: int| 0 <= j < i + 1 && #[trigger] list[j] == e.0;
                    if j < i {
                        assert(list[j] == e.0);
                    }
                }
                assert(before.contains(e) <==> old(target)@.contains(e) || (e.1 == time
                    && !current@.contains(e.0) && exists|j: int|
                    0 <= j < i && #[trigger] list[j] == e.0));
            }
        }
        i = i + 1;
    }
    proof {
        assert forall|e: (Txid, u64)| #[trigger] target@.contains(e) <==> old(target)@.contains(e)
            || (e.1 == time && expected@.contains(e.0) && !current@.contains(e.0)) by {
            if expected@.contains(e.0) {
                let j = choose|j: int| 0 <= j < list.len() && #[trigger] expected.list()[j] == e.0;
                assert(list[j] == e.0);
            }
            if exists|j: int| 0 <= j < n && #[trigger] list[j] == e.0 {
                let j = choose|j: int| 0 <= j < n && #[trigger] list[j] == e.0;
                assert(expected@.contains(expected.list()[j]));
            }
        }
    }
}

/// The scan of the scripts of a keychain, batch by batch.
#[derive(Debug, Clone, Copy, PartialEq, Eq)]
pub struct SpkScan {
    /// Index of the last script with a history.
    pub last_active_index: Option<u32>,
    /// How many scripts in a row had no history.
    pub unused_spk_count: usize,
    /// Whether the scan is at its end.
    pub stopped: bool,
}

/// What is to be done about a batch of scripts.
#[derive(Debug, PartialEq, Eq)]
pub struct SpkBatch {
    /// How many scripts of the batch the scan went through.
    pub count: usize,
    /// Their history entries.
    pub entries: Vec<Tx>,
}

/// How many scripts of a batch come with a history.
pub open spec fn batch_total<T>(spks: Seq<T>, histories: Seq<Vec<Tx>>) -> int {
    if spks.len() < histories.len() {
        spks.len() as int
    } else {
        histories.len() as int
    }
}

/// The script hashes of a batch of scripts.
pub open spec fn batch_script_hashes(
    spks: Seq<(u32, SpkWithExpectedTxids)>,
) -> Seq<ElectrumScriptHash> {
    spks.map_values(|spk: (u32, SpkWithExpectedTxids)| electrum_script_hash(spk.1.spk@))
}

/// The hashes of a batch of scripts, for which histories are asked.
pub fn script_hashes(spks: &Vec<(u32, SpkWithExpectedTxids)>) -> (r: Vec<ElectrumScriptHash>)
    ensures
        r@ == batch_script_hashes(spks@),
{
    let mut r: Vec<ElectrumScriptHash> = Vec::new();
    let mut i: usize = 0;
    while i < spks.len()
        invariant
            i <= spks.len(),
            r@ == batch_script_hashes(spks@).take(i as int),
        decreases spks.len() - i,
    {
        r.push(hash_script(&spks[i].1.spk));
        proof {
            assert(batch_script_hashes(spks@).take(i + 1) =~= batch_script_hashes(spks@).take(
                i as int,
            ).push(batch_script_hashes(spks@)[i as int]));
        }
        i = i + 1;
    }
    proof {
        assert(batch_script_hashes(spks@).take(spks@.len() as int) =~= batch_script_hashes(spks@));
    }
    r
}

/// How far a scan goes through a batch, and how many scripts in a row are without history then.
pub fn scan_extent(
    total: usize,
    histories: &Vec<Vec<Tx>>,
    unused: usize,
    stop_gap: usize,
) -> (r: (usize, usize))
    requires
        total <= histories.len(),
    ensures
        goes_through(
            histories_of(histories@),
            total as int,
            r.0 as int,
            unused as nat,
            stop_gap as nat,
        ),
        r.1 == unused_before(histories_of(histories@), r.0 as int, unused as nat),
{
    let ghost hists = histories_of(histories@);
    let mut count: usize = unused;
    let mut i: usize = 0;
    while i < total
        invariant
            i <= total,
            total <= histories.len(),
            hists == histories_of(histories@),
            count == unused_before(hists, i as int, unused as nat),
            forall|j: int|
                0 <= j < i ==> !#[trigger] ends_at(hists, j, unused as nat, stop_gap as nat),
        decreases total - i,
    {
        proof {
            assert(hists[i as int] == histories@[i as int]@);
        }
        if histories[i].len() == 0 {
            match count.checked_add(1) {
                Some(next) if next < stop_gap => {
                    count = next;
                },
                _ => {
                    return (i, count);
                },
            }
        } else {
            count = 0;
        }
        i = i + 1;
    }
    (i, count)
}

impl SpkScan {
    /// A scan that has not begun.
    pub fn new() -> (r: Self)
        ensures
            r.last_active_index is None,
            r.unused_spk_count == 0,
            !r.stopped,
    {
        SpkScan { last_active_index: None, unused_spk_count: 0, stopped: false }
    }

    /// Goes through the histories of a batch of scripts, until `stop_gap` scripts in a row are
    /// without history. Takes note of what is gone from the histories, and gives back what is in
    /// them.
    pub fn absorb_batch(
        &mut self,
        start_time: u64,
        stop_gap: usize,
        spks: &Vec<(u32, SpkWithExpectedTxids)>,
        histories: &Vec<Vec<Tx>>,
        tx_update: &mut TxUpdate,
    ) -> (r: SpkBatch)
        ensures
            goes_through(
                histories_of(histories@),
                batch_total(spks@, histories@),
                r.count as int,
                old(self).unused_spk_count as nat,
                stop_gap as nat,
            ),
            r.entries@ == all_entries(histories_of(histories@).take(r.count as int)),
            final(self).stopped == (r.count < batch_total(spks@, histories@)),
            final(self).unused_spk_count == unused_before(
                histories_of(histories@),
                r.count as int,
                old(self).unused_spk_count as nat,
            ),
            final(self).last_active_index == last_active_of(
                spks@,
                histories_of(histories@),
                r.count as int,
                old(self).last_active_index,
            ),
            final(tx_update)@ == (TxUpdateView {
                evicted_ats: old(tx_update)@.evicted_ats.union(
                    evicted_of(spks@, histories_of(histories@), r.count as int, start_time),
                ),
                ..old(tx_update)@
            }),
    {
        let ghost hists = histories_of(histories@);
        let total = if spks.len() < histories.len() {
            spks.len()
        } else {
            histories.len()
        };
        let (count, unused) = scan_extent(total, histories, self.unused_spk_count, stop_gap);
        let mut entries: Vec<Tx> = Vec::new();
        let mut i: usize = 0;
        proof {
            assert(entries@ =~= all_entries(hists.take(0)));
            assert(tx_update@.evicted_ats =~= tx_update@.evicted_ats.union(
                evicted_of(spks@, hists, 0, start_time),
            ));
        }
        while i < count
            invariant
                i <= count,
                count <= spks.len(),
                count <= histories.len(),
                hists == histories_of(histories@),
                entries@ == all_entries(hists.take(i as int)),
                self.last_active_index == last_active_of(
                    spks@,
                    hists,
                    i as int,
                    old(self).last_active_index,
                ),
                tx_update@ == (TxUpdateView {
                    evicted_ats: old(tx_update)@.evicted_ats.union(
                        evicted_of(spks@, hists, i as int, start_time),
                    ),
                    ..old(tx_update)@
                }),
            decreases count - i,
        {
            let history = &histories[i];
            proof {
                assert(hists[i as int] == history@);
                assert(hists.take(i + 1).drop_last() =~= hists.take(i as int));
            }
            if history.len() > 0 {
                self.last_active_index = Some(spks[i].0);
            }
            let current = history_txids(history);
            let ghost before = tx_update@.evicted_ats;
            add_difference(
                &mut tx_update.evicted_ats,
                &spks[i].1.expected_txids,
                &current,
                start_time,
            );
            proof {
                let a = evicted_of(spks@, hists, i as int, start_time);
                let b = evicted_of(spks@, hists, i + 1, start_time);
                assert forall|e: (Txid, u64)| tx_update@.evicted_ats.contains(e)
                    == old(tx_update)@.evicted_ats.union(b).contains(e) by {
                    if b.contains(e) {
                        let j = choose|j: int|
                            0 <= j < i + 1 && (#[trigger] spks@[j]).1.expected_txids@.contains(e.0)
                                && !holds_txid(hists[j], e.0);
                        if j < i {
                            assert(spks@[j].1.expected_txids@.contains(e.0));
                            assert(a.contains(e));
                        }
                    }
                    if a.contains(e) {
                        let j = choose|j: int|
                            0 <= j < i && (#[trigger] spks@[j]).1.expected_txids@.contains(e.0)
                                && !holds_txid(hists[j], e.0);
                        assert(spks@[j].1.expected_txids@.contains(e.0));
                    }
                    assert(before.contains(e) == (old(tx_update)@.evicted_ats.contains(e)
                        || a.contains(e)));
                    assert(current@.contains(e.0) == holds_txid(hists[i as int], e.0));
                    assert(spks@[i as int].1.expected_txids@.contains(e.0)
                        == spks@[i as int].1.expected_txids@.contains(e.0));
                }
                assert(tx_update@.evicted_ats =~= old(tx_update)@.evicted_ats.union(b));
            }
            let mut j: usize = 0;
            let ghost done = entries@;
            proof {
                assert(entries@ =~= done + history@.take(0));
            }
            while j < history.len()
                invariant
                    j <= history.len(),
                    entries@ == done + history@.take(j as int),
                decreases history.len() - j,
            {
                entries.push(history[j]);
                proof {
                    assert(entries@ =~= done + history@.take(j + 1));
                }
                j = j + 1;
            }
            proof {
                assert(history@.take(history@.len() as int) =~= history@);
            }
            i = i + 1;
        }
        self.unused_spk_count = unused;
        self.stopped = count < total;
        SpkBatch { count, entries }
    }

    /// Populate the `tx_update` with what the histories of a batch of scripts say, and gives back
    /// the transactions that belong to it, in order.
    pub fn populate_with_spks(
        &mut self,
        start_time: u64,
        tx_update: &mut TxUpdate,
        spks: &Vec<(u32, SpkWithExpectedTxids)>,
        histories: &Vec<Vec<Tx>>,
        stop_gap: usize,
        pending_anchors: &mut Vec<(Txid, u32)>,
    ) -> (r: SpkBatch)
        ensures
            goes_through(
                histories_of(histories@),
                batch_total(spks@, histories@),
                r.count as int,
                old(self).unused_spk_count as nat,
                stop_gap as nat,
            ),
            r.entries@ == all_entries(histories_of(histories@).take(r.count as int)),
            final(self).stopped == (r.count < batch_total(spks@, histories@)),
            final(self).unused_spk_count == unused_before(
                histories_of(histories@),
                r.count as int,
                old(self).unused_spk_count as nat,
            ),
            final(self).last_active_index == last_active_of(
                spks@,
                histories_of(histories@),
                r.count as int,
                old(self).last_active_index,
            ),
            final(tx_update)@ == with_seen(
                (TxUpdateView {
                    evicted_ats: old(tx_update)@.evicted_ats.union(
                        evicted_of(spks@, histories_of(histories@), r.count as int, start_time),
                    ),
                    ..old(tx_update)@
                }),
                r.entries@,
                start_time,
            ),
            final(pending_anchors)@ == old(pending_anchors)@ + pending_of(r.entries@),
    {
        let batch = self.absorb_batch(start_time, stop_gap, spks, histories, tx_update);
        apply_history(tx_update, pending_anchors, &batch.entries, start_time);
        batch
    }
}

/// A scan goes through one number of scripts.
pub proof fn extent_is_unique(
    histories: Seq<Seq<Tx>>,
    total: int,
    m: int,
    n: int,
    unused: nat,
    stop_gap: nat,
)
    requires
        goes_through(histories, total, m, unused, stop_gap),
        goes_through(histories, total, n, unused, stop_gap),
    ensures
        m == n,
{
    if m < n {
        assert(ends_at(histories, m, unused, stop_gap));
    }
    if n < m {
        assert(ends_at(histories, n, unused, stop_gap));
    }
}

/// A scan does not go past a script with a history: where it ends, `stop_gap` scripts in a row, the
/// one at the end counted, are without history.
pub proof fn scan_ends_after_gap(
    histories: Seq<Seq<Tx>>,
    total: int,
    n: int,
    stop_gap: nat,
    i: int,
)
    requires
        goes_through(histories, total, n, 0, stop_gap),
        n < total,
        n + 1 - stop_gap <= i <= n,
    ensures
        histories[i].len() == 0,
{
    assert(ends_at(histories, n, 0, stop_gap));
    unused_are_empty(histories, n, i);
}

/// The scripts that count as unused are without history.
proof fn unused_are_empty(histories: Seq<Seq<Tx>>, n: int, i: int)
    requires
        0 <= n,
    ensures
        unused_before(histories, n, 0) <= n,
        n - unused_before(histories, n, 0) <= i < n ==> histories[i].len() == 0,
    decreases n,
{
    if n > 0 {
        unused_are_empty(histories, n - 1, i);
    }
}

/// Two batches of a scan, one after the other, are gone through as the two together would be: the same
/// scripts count as unused, the same one is the last with a history, and the same is found to be gone,
/// seen and pending.
pub proof fn batches_join(
    first_spks: Seq<(u32, SpkWithExpectedTxids)>,
    first: Seq<Seq<Tx>>,
    second_spks: Seq<(u32, SpkWithExpectedTxids)>,
    second: Seq<Seq<Tx>>,
    n: int,
    unused: nat,
    last_active: Option<u32>,
    start_time: u64,
    stop_gap: nat,
)
    requires
        first_spks.len() == first.len(),
        second_spks.len() == second.len(),
        goes_through(first, first.len() as int, first.len() as int, unused, stop_gap),
        goes_through(
            second,
            second.len() as int,
            n,
            unused_before(first, first.len() as int, unused),
            stop_gap,
        ),
    ensures
        ({
            let both = first + second;
            let both_spks = first_spks + second_spks;
            let end = first.len() as int;
            let entries = all_entries(both.take(end + n));
            &&& goes_through(both, both.len() as int, end + n, unused, stop_gap)
            &&& unused_before(both, end + n, unused) == unused_before(
                second,
                n,
                unused_before(first, end, unused),
            )
            &&& last_active_of(both_spks, both, end + n, last_active) == last_active_of(
                second_spks,
                second,
                n,
                last_active_of(first_spks, first, end, last_active),
            )
            &&& evicted_of(both_spks, both, end + n, start_time) == evicted_of(
                first_spks,
                first,
                end,
                start_time,
            ).union(evicted_of(second_spks, second, n, start_time))
            &&& entries == all_entries(first) + all_entries(second.take(n))
            &&& seen_of(entries, start_time) == seen_of(all_entries(first), start_time).union(
                seen_of(all_entries(second.take(n)), start_time),
            )
            &&& pending_of(entries) == pending_of(all_entries(first)) + pending_of(
                all_entries(second.take(n)),
            )
        }),
{
    let both = first + second;
    let both_spks = first_spks + second_spks;
    let carried = unused_before(first, first.len() as int, unused);
    assert forall|i: int| 0 <= i < first.len() + n implies !#[trigger] ends_at(
        both,
        i,
        unused,
        stop_gap,
    ) by {
        if i < first.len() {
            unused_in_first(first, second, i, unused);
            assert(!ends_at(first, i, unused, stop_gap));
            assert(both[i] == first[i]);
        } else {
            unused_in_second(first, second, i - first.len(), unused);
            assert(!ends_at(second, i - first.len(), carried, stop_gap));
            assert(both[i] == second[i - first.len()]);
        }
    }
    if n < second.len() {
        assert(both[first.len() + n] == second[n]);
        unused_in_second(first, second, n, unused);
        assert(ends_at(second, n, carried, stop_gap));
        assert(ends_at(both, first.len() + n, unused, stop_gap));
    }
    unused_in_second(first, second, n, unused);
    last_active_in_second(first_spks, first, second_spks, second, n, last_active);
    evicted_join(first_spks, first, second_spks, second, n, start_time);
    entries_join(first, second.take(n));
    assert(both.take(first.len() + n) =~= first + second.take(n));
    seen_join(all_entries(first), all_entries(second.take(n)), start_time);
    pending_join(all_entries(first), all_entries(second.take(n)));
}

/// What comes after the end of a scan makes no difference to it.
pub proof fn end_is_not_passed(
    first_spks: Seq<(u32, SpkWithExpectedTxids)>,
    first: Seq<Seq<Tx>>,
    second_spks: Seq<(u32, SpkWithExpectedTxids)>,
    second: Seq<Seq<Tx>>,
    n: int,
    unused: nat,
    last_active: Option<u32>,
    start_time: u64,
    stop_gap: nat,
)
    requires
        first_spks.len() == first.len(),
        second_spks.len() == second.len(),
        goes_through(first, first.len() as int, n, unused, stop_gap),
        n < first.len(),
    ensures
        ({
            let both = first + second;
            let both_spks = first_spks + second_spks;
            &&& goes_through(both, both.len() as int, n, unused, stop_gap)
            &&& unused_before(both, n, unused) == unused_before(first, n, unused)
            &&& last_active_of(both_spks, both, n, last_active) == last_active_of(
                first_spks,
                first,
                n,
                last_active,
            )
            &&& evicted_of(both_spks, both, n, start_time) == evicted_of(
                first_spks,
                first,
                n,
                start_time,
            )
            &&& both.take(n) == first.take(n)
        }),
{
    let both = first + second;
    let both_spks = first_spks + second_spks;
    assert forall|i: int| 0 <= i <= n implies ends_at(both, i, unused, stop_gap)
        == #[trigger] ends_at(first, i, unused, stop_gap) by {
        unused_in_first(first, second, i, unused);
        assert(both[i] == first[i]);
    }
    assert(ends_at(first, n, unused, stop_gap));
    assert forall|i: int| 0 <= i < n implies !#[trigger] ends_at(both, i, unused, stop_gap) by {
        assert(!ends_at(first, i, unused, stop_gap));
    }
    unused_in_first(first, second, n, unused);
    last_active_in_first(first_spks, first, second_spks, second, n, last_active);
    let a = evicted_of(both_spks, both, n, start_time);
    let b = evicted_of(first_spks, first, n, start_time);
    assert forall|e: (Txid, u64)| a.contains(e) == b.contains(e) by {
        if a.contains(e) {
            let i = choose|i: int|
                0 <= i < n && (#[trigger] both_spks[i]).1.expected_txids@.contains(e.0)
                    && !holds_txid(both[i], e.0);
            assert(first_spks[i].1.expected_txids@.contains(e.0));
        }
        if b.contains(e) {
            let i = choose|i: int|
                0 <= i < n && (#[trigger] first_spks[i]).1.expected_txids@.contains(e.0)
                    && !holds_txid(first[i], e.0);
            assert(both_spks[i].1.expected_txids@.contains(e.0));
        }
    }
    assert(a =~= b);
    assert(both.take(n) =~= first.take(n));
}

proof fn last_active_in_first(
    first_spks: Seq<(u32, SpkWithExpectedTxids)>,
    first: Seq<Seq<Tx>>,
    second_spks: Seq<(u32, SpkWithExpectedTxids)>,
    second: Seq<Seq<Tx>>,
    n: int,
    before: Option<u32>,
)
    requires
        first_spks.len() == first.len(),
        0 <= n <= first.len(),
    ensures
        last_active_of(first_spks + second_spks, first + second, n, before) == last_active_of(
            first_spks,
            first,
            n,
            before,
        ),
    decreases n,
{
    if n > 0 {
        last_active_in_first(first_spks, first, second_spks, second, n - 1, before);
        assert((first + second)[n - 1] == first[n - 1]);
        assert((first_spks + second_spks)[n - 1] == first_spks[n - 1]);
    }
}

proof fn last_active_in_second(
    first_spks: Seq<(u32, SpkWithExpectedTxids)>,
    first: Seq<Seq<Tx>>,
    second_spks: Seq<(u32, SpkWithExpectedTxids)>,
    second: Seq<Seq<Tx>>,
    n: int,
    before: Option<u32>,
)
    requires
        first_spks.len() == first.len(),
        second_spks.len() == second.len(),
        0 <= n <= second.len(),
    ensures
        last_active_of(first_spks + second_spks, first + second, first.len() + n, before)
            == last_active_of(
            second_spks,
            second,
            n,
            last_active_of(first_spks, first, first.len() as int, before),
        ),
    decreases n,
{
    if n > 0 {
        last_active_in_second(first_spks, first, second_spks, second, n - 1, before);
        assert((first + second)[first.len() + n - 1] == second[n - 1]);
        assert((first_spks + second_spks)[first.len() + n - 1] == second_spks[n - 1]);
    } else {
        last_active_in_first(
            first_spks,
            first,
            second_spks,
            second,
            first.len() as int,
            before,
        );
    }
}

proof fn evicted_join(
    first_spks: Seq<(u32, SpkWithExpectedTxids)>,
    first: Seq<Seq<Tx>>,
    second_spks: Seq<(u32, SpkWithExpectedTxids)>,
    second: Seq<Seq<Tx>>,
    n: int,
    start_time: u64,
)
    requires
        first_spks.len() == first.len(),
        second_spks.len() == second.len(),
        0 <= n <= second.len(),
    ensures
        evicted_of(first_spks + second_spks, first + second, first.len() + n, start_time)
            == evicted_of(first_spks, first, first.len() as int, start_time).union(
            evicted_of(second_spks, second, n, start_time),
        ),
{
    let both = first + second;
    let both_spks = first_spks + second_spks;
    let len = first.len() as int;
    let a = evicted_of(both_spks, both, len + n, start_time);
    let b = evicted_of(first_spks, first, len, start_time);
    let c = evicted_of(second_spks, second, n, start_time);
    assert forall|e: (Txid, u64)| a.contains(e) == (b.contains(e) || c.contains(e)) by {
        if a.contains(e) {
            let i = choose|i: int|
                0 <= i < len + n && (#[trigger] both_spks[i]).1.expected_txids@.contains(e.0)
                    && !holds_txid(both[i], e.0);
            if i < len {
                assert(first_spks[i].1.expected_txids@.contains(e.0));
            } else {
                assert(second_spks[i - len].1.expected_txids@.contains(e.0));
            }
        }
        if b.contains(e) {
            let i = choose|i: int|
                0 <= i < len && (#[trigger] first_spks[i]).1.expected_txids@.contains(e.0)
                    && !holds_txid(first[i], e.0);
            assert(both_spks[i].1.expected_txids@.contains(e.0));
        }
        if c.contains(e) {
            let i = choose|i: int|
                0 <= i < n && (#[trigger] second_spks[i]).1.expected_txids@.contains(e.0)
                    && !holds_txid(second[i], e.0);
            assert(both_spks[len + i].1.expected_txids@.contains(e.0));
        }
    }
    assert(a =~= b.union(c));
}

proof fn seen_join(first: Seq<Tx>, second: Seq<Tx>, start_time: u64)
    ensures
        seen_of(first + second, start_time) == seen_of(first, start_time).union(
            seen_of(second, start_time),
        ),
{
    let both = first + second;
    let a = seen_of(both, start_time);
    let b = seen_of(first, start_time);
    let c = seen_of(second, start_time);
    assert forall|e: (Txid, u64)| a.contains(e) == (b.contains(e) || c.contains(e)) by {
        if a.contains(e) {
            let i = choose|i: int|
                0 <= i < both.len() && (#[trigger] both[i]).txid == e.0 && confirmed_height(
                    both[i].height,
                ) is None;
            if i < first.len() {
                assert(first[i].txid == e.0);
            } else {
                assert(second[i - first.len()].txid == e.0);
            }
        }
        if b.contains(e) {
            let i = choose|i: int|
                0 <= i < first.len() && (#[trigger] first[i]).txid == e.0 && confirmed_height(
                    first[i].height,
                ) is None;
            assert(both[i].txid == e.0);
        }
        if c.contains(e) {
            let i = choose|i: int|
                0 <= i < second.len() && (#[trigger] second[i]).txid == e.0 && confirmed_height(
                    second[i].height,
                ) is None;
            assert(both[first.len() + i].txid == e.0);
        }
    }
    assert(a =~= b.union(c));
}

proof fn pending_join(first: Seq<Tx>, second: Seq<Tx>)
    ensures
        pending_of(first + second) == pending_of(first) + pending_of(second),
    decreases second.len(),
{
    if second.len() == 0 {
        assert(first + second =~= first);
        assert(pending_of(first) + pending_of(second) =~= pending_of(first));
    } else {
        pending_join(first, second.drop_last());
        assert((first + second).drop_last() =~= first + second.drop_last());
        assert(pending_of(first + second) =~= pending_of(first) + pending_of(second));
    }
}

proof fn unused_in_first(first: Seq<Seq<Tx>>, second: Seq<Seq<Tx>>, n: int, unused: nat)
    requires
        0 <= n <= first.len(),
    ensures
        unused_before(first + second, n, unused) == unused_before(first, n, unused),
    decreases n,
{
    if n > 0 {
        unused_in_first(first, second, n - 1, unused);
        assert((first + second)[n - 1] == first[n - 1]);
    }
}

proof fn unused_in_second(first: Seq<Seq<Tx>>, second: Seq<Seq<Tx>>, n: int, unused: nat)
    requires
        0 <= n <= second.len(),
    ensures
        unused_before(first + second, first.len() + n, unused) == unused_before(
            second,
            n,
            unused_before(first, first.len() as int, unused),
        ),
    decreases n,
{
    if n > 0 {
        unused_in_second(first, second, n - 1, unused);
        assert((first + second)[first.len() + n - 1] == second[n - 1]);
    } else {
        unused_in_first(first, second, first.len() as int, unused);
    }
}

proof fn entries_join(first: Seq<Seq<Tx>>, second: Seq<Seq<Tx>>)
    ensures
        all_entries(first + second) == all_entries(first) + all_entries(second),
    decreases second.len(),
{
    if second.len() == 0 {
        assert(first + second =~= first);
        assert(all_entries(first) + all_entries(second) =~= all_entries(first));
    } else {
        entries_join(first, second.drop_last());
        assert((first + second).drop_last() =~= first + second.drop_last());
        assert(all_entries(first + second) =~= all_entries(first) + all_entries(second));
    }
}

/// A history entry is confirmed just where its height is one that a block can have above the first one.
pub proof fn confirmed_heights_are_positive(height: i64)
    ensures
        1 <= height <= 4294967295 ==> confirmed_height(height) == Some(height as u32),
        height <= 0 || height > 4294967295 ==> confirmed_height(height) is None,
{
}

/// Whether an entry is pending as this.
pub open spec fn is_pending_entry(entry: Tx, pending: (Txid, u32)) -> bool {
    entry.txid == pending.0 && entry.height == pending.1 && entry.height >= 1
}

/// Whether one of some entries is pending as this.
pub open spec fn is_pending_of(entries: Seq<Tx>, pending: (Txid, u32)) -> bool {
    exists|i: int| 0 <= i < entries.len() && is_pending_entry(#[trigger] entries[i], pending)
}

/// Each confirmed entry is pending at its height, in the order of the entries, and no other one is.
pub proof fn confirmed_entries_are_pending(entries: Seq<Tx>, more: Seq<Tx>)
    ensures
        forall|i: int|
            0 <= i < entries.len() && 1 <= (#[trigger] entries[i]).height <= 4294967295
                ==> pending_of(entries).contains((entries[i].txid, entries[i].height as u32)),
        forall|k: int|
            0 <= k < pending_of(entries).len() ==> is_pending_of(
                entries,
                #[trigger] pending_of(entries)[k],
            ),
        (forall|i: int|
            0 <= i < entries.len() ==> 1 <= (#[trigger] entries[i]).height <= 4294967295)
            ==> pending_of(entries).len() == entries.len(),
        pending_of(entries + more) == pending_of(entries) + pending_of(more),
    decreases entries.len(),
{
    pending_join(entries, more);
    if entries.len() > 0 {
        let init = entries.drop_last();
        confirmed_entries_are_pending(init, more);
        let before = pending_of(init);
        let after = pending_of(entries);
        assert forall|i: int|
            0 <= i < entries.len() && 1 <= (#[trigger] entries[i]).height
                <= 4294967295 implies after.contains(
            (entries[i].txid, entries[i].height as u32),
        ) by {
            let tx = (entries[i].txid, entries[i].height as u32);
            if i < init.len() {
                assert(init[i] == entries[i]);
                let k = choose|k: int| 0 <= k < before.len() && before[k] == tx;
                assert(after[k] == tx);
            } else {
                assert(after[after.len() - 1] == tx);
            }
        }
        assert forall|k: int| 0 <= k < after.len() implies is_pending_of(
            entries,
            #[trigger] after[k],
        ) by {
            if k < before.len() {
                assert(after[k] == before[k]);
                assert(is_pending_of(init, before[k]));
                let i = choose|i: int|
                    0 <= i < init.len() && is_pending_entry(#[trigger] init[i], before[k]);
                assert(is_pending_entry(entries[i], after[k]));
            } else {
                assert(is_pending_entry(entries[entries.len() - 1], after[k]));
            }
        }
        if forall|i: int|
            0 <= i < entries.len() ==> 1 <= (#[trigger] entries[i]).height <= 4294967295 {
            assert forall|i: int| 0 <= i < init.len() implies 1 <= (#[trigger] init[i]).height
                <= 4294967295 by {
                assert(init[i] == entries[i]);
            }
            assert(entries[entries.len() - 1] == entries.last());
        }
    }
}

/// Each entry that is not confirmed was seen at the time, and nothing else was.
pub proof fn unconfirmed_entries_are_seen(entries: Seq<Tx>, start_time: u64, seen: (Txid, u64))
    ensures
        seen_of(entries, start_time).contains(seen) <==> seen.1 == start_time && exists|i: int|
            0 <= i < entries.len() && (#[trigger] entries[i]).txid == seen.0 && !(1
                <= entries[i].height <= 4294967295),
{
    if seen_of(entries, start_time).contains(seen) {
        let i = choose|i: int|
            0 <= i < entries.len() && (#[trigger] entries[i]).txid == seen.0
                && confirmed_height(entries[i].height) is None;
        assert(entries[i].txid == seen.0);
    }
}

/// Each entry of each history is among the entries, those of earlier histories first, and there are no
/// others.
pub proof fn entries_of_all_histories(histories: Seq<Seq<Tx>>, more: Seq<Seq<Tx>>)
    ensures
        forall|i: int, j: int|
            0 <= i < histories.len() && 0 <= j < histories[i].len() ==> all_entries(
                histories,
            ).contains(#[trigger] histories[i][j]),
        forall|k: int|
            0 <= k < all_entries(histories).len() ==> is_entry_of(
                histories,
                #[trigger] all_entries(histories)[k],
            ),
        all_entries(histories + more) == all_entries(histories) + all_entries(more),
        histories.len() == 1 ==> all_entries(histories) == histories[0],
    decreases histories.len(),
{
    entries_join(histories, more);
    if histories.len() > 0 {
        let init = histories.drop_last();
        entries_of_all_histories(init, more);
        let before = all_entries(init);
        let after = all_entries(histories);
        let last = histories.last();
        assert forall|i: int, j: int|
            0 <= i < histories.len() && 0 <= j < histories[i].len() implies after.contains(
            #[trigger] histories[i][j],
        ) by {
            if i < init.len() {
                assert(init[i] == histories[i]);
                assert(before.contains(init[i][j]));
                let k = choose|k: int| 0 <= k < before.len() && before[k] == init[i][j];
                assert(after[k] == histories[i][j]);
            } else {
                assert(after[before.len() + j] == last[j]);
            }
        }
        assert forall|k: int| 0 <= k < after.len() implies is_entry_of(
            histories,
            #[trigger] after[k],
        ) by {
            if k < before.len() {
                assert(after[k] == before[k]);
                assert(is_entry_of(init, before[k]));
                let i = choose|i: int|
                    0 <= i < init.len() && (#[trigger] init[i]).contains(before[k]);
                assert(histories[i].contains(after[k]));
            } else {
                assert(last[k - before.len()] == after[k]);
                assert(histories[histories.len() - 1].contains(after[k]));
            }
        }
        if histories.len() == 1 {
            assert(after =~= histories[0]);
        }
    }
}

/// Whether one of some histories holds an entry.
pub open spec fn is_entry_of(histories: Seq<Seq<Tx>>, entry: Tx) -> bool {
    exists|i: int| 0 <= i < histories.len() && (#[trigger] histories[i]).contains(entry)
}

/// The transactions of entries are those that the entries are for, one for each.
pub proof fn txids_are_those_of_the_entries(entries: Seq<Tx>, i: int)
    ensures
        txids_of(entries).len() == entries.len(),
        0 <= i < entries.len() ==> txids_of(entries)[i] == entries[i].txid,
{
}

/// A scan from the start of a keychain ends where a gap of `stop_gap` scripts without history is complete,
/// and not before: within each gap before that there is a script with a history.
pub proof fn a_scan_does_not_end_before_the_gap(
    histories: Seq<Seq<Tx>>,
    total: int,
    n: int,
    stop_gap: nat,
    i: int,
)
    requires
        goes_through(histories, total, n, 0, stop_gap),
        stop_gap > 0,
    ensures
        0 <= n <= total,
        n < total ==> n + 1 >= stop_gap,
        n < total && n + 1 - stop_gap <= i <= n ==> histories[i].len() == 0,
        0 <= i < n && i + 1 >= stop_gap ==> exists|j: int|
            i + 1 - stop_gap <= j <= i && (#[trigger] histories[j]).len() > 0,
{
    if n < total {
        assert(ends_at(histories, n, 0, stop_gap));
        unused_are_empty(histories, n, i);
    }
    if 0 <= i < n && i + 1 >= stop_gap {
        assert(!ends_at(histories, i, 0, stop_gap));
        if histories[i].len() == 0 {
            unused_count_is_exact(histories, i, 0);
            let count = unused_before(histories, i, 0) as int;
            assert(histories[i - count - 1].len() > 0);
        }
    }
}

/// How many scripts in a row are without history: those are, and the one before them has one. Where none
/// has one, those from before count too.
pub proof fn unused_count_is_exact(histories: Seq<Seq<Tx>>, n: int, unused: nat)
    requires
        0 <= n,
    ensures
        (forall|j: int| 0 <= j < n ==> (#[trigger] histories[j]).len() == 0) ==> unused_before(
            histories,
            n,
            unused,
        ) == unused + n,
        (exists|j: int| 0 <= j < n && (#[trigger] histories[j]).len() > 0) ==> {
            let count = unused_before(histories, n, unused) as int;
            &&& count < n
            &&& histories[n - count - 1].len() > 0
            &&& forall|j: int| n - count <= j < n ==> (#[trigger] histories[j]).len() == 0
        },
    decreases n,
{
    if n > 0 {
        unused_count_is_exact(histories, n - 1, unused);
        if forall|j: int| 0 <= j < n ==> (#[trigger] histories[j]).len() == 0 {
            assert(histories[n - 1].len() == 0);
        }
        if exists|j: int| 0 <= j < n && (#[trigger] histories[j]).len() > 0 {
            let j = choose|j: int| 0 <= j < n && (#[trigger] histories[j]).len() > 0;
            if histories[n - 1].len() == 0 {
                assert(0 <= j < n - 1 && histories[j].len() > 0);
            }
        }
    }
}

/// The last active index is that of the last script with a history, and the one from before where none has
/// one.
pub proof fn the_last_script_with_a_history_is_active(
    spks: Seq<(u32, SpkWithExpectedTxids)>,
    histories: Seq<Seq<Tx>>,
    n: int,
    before: Option<u32>,
    i: int,
)
    requires
        0 <= i < n,
    ensures
        histories[i].len() > 0 && (forall|j: int|
            i < j < n ==> (#[trigger] histories[j]).len() == 0) ==> last_active_of(
            spks,
            histories,
            n,
            before,
        ) == Some(spks[i].0),
        (forall|j: int| 0 <= j < n ==> (#[trigger] histories[j]).len() == 0) ==> last_active_of(
            spks,
            histories,
            n,
            before,
        ) == before,
    decreases n,
{
    if i < n - 1 {
        the_last_script_with_a_history_is_active(spks, histories, n - 1, before, i);
        if forall|j: int| i < j < n ==> (#[trigger] histories[j]).len() == 0 {
            assert(histories[n - 1].len() == 0);
        }
        if forall|j: int| 0 <= j < n ==> (#[trigger] histories[j]).len() == 0 {
            assert(histories[n - 1].len() == 0);
        }
    } else if forall|j: int| 0 <= j < n ==> (#[trigger] histories[j]).len() == 0 {
        assert(histories[n - 1].len() == 0);
        none_is_active(spks, histories, n, before);
    }
}

proof fn none_is_active(
    spks: Seq<(u32, SpkWithExpectedTxids)>,
    histories: Seq<Seq<Tx>>,
    n: int,
    before: Option<u32>,
)
    requires
        forall|j: int| 0 <= j < n ==> (#[trigger] histories[j]).len() == 0,
    ensures
        last_active_of(spks, histories, n, before) == before,
    decreases n,
{
    if n > 0 {
        assert(histories[n - 1].len() == 0);
        none_is_active(spks, histories, n - 1, before);
    }
}

/// A transaction is found to be gone, at the time, just where it is expected of a script that was gone
/// through and no entry of the history of that script is for it.
pub proof fn expected_transactions_that_are_missing_are_gone(
    spks: Seq<(u32, SpkWithExpectedTxids)>,
    histories: Seq<Seq<Tx>>,
    n: int,
    start_time: u64,
    txid: Txid,
    time: u64,
)
    ensures
        evicted_of(spks, histories, n, start_time).contains((txid, time)) <==> time == start_time
            && exists|i: int|
            0 <= i < n && (#[trigger] spks[i]).1.expected_txids@.contains(txid) && forall|j: int|
                0 <= j < histories[i].len() ==> (#[trigger] histories[i][j]).txid != txid,
{
    if evicted_of(spks, histories, n, start_time).contains((txid, time)) {
        let i = choose|i: int|
            0 <= i < n && (#[trigger] spks[i]).1.expected_txids@.contains(txid) && !holds_txid(
                histories[i],
                txid,
            );
        assert(spks[i].1.expected_txids@.contains(txid));
    }
}

/// One script hash is asked about for each script of a batch, in order, and each history is seen entry by
/// entry.
pub proof fn each_script_of_a_batch_is_asked_about(
    spks: Seq<(u32, SpkWithExpectedTxids)>,
    histories: Seq<Vec<Tx>>,
    i: int,
)
    ensures
        batch_script_hashes(spks).len() == spks.len(),
        0 <= i < spks.len() ==> batch_script_hashes(spks)[i] == electrum_script_hash(
            spks[i].1.spk@,
        ),
        histories_of(histories).len() == histories.len(),
        0 <= i < histories.len() ==> histories_of(histories)[i] == histories[i]@,
        batch_total(spks, histories) <= spks.len(),
        batch_total(spks, histories) <= histories.len(),
        batch_total(spks, histories) == spks.len() || batch_total(spks, histories)
            == histories.len(),
{
}

/// What is seen is added to an update, at the given time, and nothing else of it changes.
pub proof fn seen_entries_are_added(
    update: TxUpdateView,
    entries: Seq<Tx>,
    start_time: u64,
    i: int,
    seen: (Txid, u64),
)
    ensures
        ({
            let after = with_seen(update, entries, start_time);
            &&& 0 <= i < entries.len() && !(1 <= entries[i].height <= 4294967295)
                ==> after.seen_ats.contains((entries[i].txid, start_time))
            &&& update.seen_ats.contains(seen) ==> after.seen_ats.contains(seen)
            &&& after.seen_ats.contains(seen) && seen.1 != start_time ==> update.seen_ats.contains(
                seen,
            )
            &&& after.txs == update.txs
            &&& after.txouts == update.txouts
            &&& after.anchors == update.anchors
            &&& after.evicted_ats == update.evicted_ats
        }),
{
    if 0 <= i < entries.len() {
        unconfirmed_entries_are_seen(entries, start_time, (entries[i].txid, start_time));
        assert(entries[i].txid == entries[i].txid);
    }
}

} // verus!
