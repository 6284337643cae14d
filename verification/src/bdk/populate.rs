//! Populating an update with transactions, by their ids, by outpoints and by what they spend.
use std::sync::Arc;

use vstd::prelude::*;

use crate::bdk::client::BdkElectrumClient;
use crate::bdk::scan::{
    apply_history, batch_total, confirmed_entries_are_pending, histories_of, holds_txid,
    pending_of, seen_of, unconfirmed_entries_are_seen, with_seen,
};
use crate::electrum::types::Tx;
use crate::hash::{electrum_script_hash, hash_script, ElectrumScriptHash, Txid};
use crate::ordered::{OrderedSet, Value};
use crate::tx::{
    copy_bytes, is_coinbase_tx, same_bytes, share_tx, tx_views, txid_of, OutPoint, Transaction,
    TransactionView, TxOutView, TxUpdate, TxUpdateView,
};

verus! {

/// Whether a transaction is the first of a list that is not in a cache.
pub open spec fn is_first_missing(
    cache: Map<Txid, TransactionView>,
    txids: Seq<Txid>,
    missing: Txid,
) -> bool {
    exists|i: int|
        0 <= i < txids.len() && #[trigger] txids[i] == missing && !cache.contains_key(missing)
            && all_cached(cache, txids.take(i))
}

/// Whether each transaction of a list is in a cache.
pub open spec fn all_cached(cache: Map<Txid, TransactionView>, txids: Seq<Txid>) -> bool {
    forall|i: int| 0 <= i < txids.len() ==> cache.contains_key(#[trigger] txids[i])
}

/// The transactions of a list, out of a cache.
pub open spec fn from_cache(
    cache: Map<Txid, TransactionView>,
    txids: Seq<Txid>,
) -> Seq<TransactionView> {
    txids.map_values(|txid: Txid| cache[txid])
}

impl<C> BdkElectrumClient<C> {
    /// The first transaction of a list that has to be fetched, if one has to be.
    pub fn first_missing(&self, txids: &Vec<Txid>) -> (r: Option<Txid>)
        ensures
            match r {
                Some(missing) => is_first_missing(self.txs(), txids@, missing),
                None => all_cached(self.txs(), txids@),
            },
    {
        let mut i: usize = 0;
        while i < txids.len()
            invariant
                i <= txids.len(),
                forall|j: int| 0 <= j < i ==> self.txs().contains_key(#[trigger] txids@[j]),
            decreases txids.len() - i,
        {
            if self.cached_tx(&txids[i]).is_none() {
                proof {
                    assert(txids@[i as int] == txids@[i as int]);
                }
                return Some(txids[i]);
            }
            i = i + 1;
        }
        None
    }

    /// Adds the transactions of a list to an update, once all of them are in the cache. Gives back
    /// the first one that is not, and adds none then.
    pub fn push_txs(&self, txids: &Vec<Txid>, tx_update: &mut TxUpdate) -> (r: Option<Txid>)
        ensures
            match r {
                Some(missing) => is_first_missing(self.txs(), txids@, missing) && final(
                    tx_update
                )@ == old(tx_update)@,
                None => all_cached(self.txs(), txids@) && final(tx_update)@ == (TxUpdateView {
                    txs: old(tx_update)@.txs + from_cache(self.txs(), txids@),
                    ..old(tx_update)@
                }),
            },
    {
        if let Some(missing) = self.first_missing(txids) {
            return Some(missing);
        }
        let mut i: usize = 0;
        proof {
            assert(tx_update@.txs =~= tx_update@.txs + from_cache(self.txs(), txids@.take(0)));
        }
        while i < txids.len()
            invariant
                i <= txids.len(),
                all_cached(self.txs(), txids@),
                tx_update@ == (TxUpdateView {
                    txs: old(tx_update)@.txs + from_cache(self.txs(), txids@.take(i as int)),
                    ..old(tx_update)@
                }),
            decreases txids.len() - i,
        {
            proof {
                assert(self.txs().contains_key(txids@[i as int]));
            }
            if let Some(tx) = self.cached_tx(&txids[i]) {
                let ghost before = tx_update@.txs;
                tx_update.txs.push(tx);
                proof {
                    assert(tx_update@.txs =~= before.push(tx@));
                    assert(tx_update@.txs =~= old(tx_update)@.txs + from_cache(
                        self.txs(),
                        txids@.take(i + 1),
                    ));
                }
            }
            i = i + 1;
        }
        proof {
            assert(txids@.take(txids@.len() as int) =~= txids@);
        }
        None
    }
}

/// Those transactions of a list that have an output.
pub open spec fn with_an_output(
    cache: Map<Txid, TransactionView>,
    txids: Seq<Txid>,
) -> Seq<(Txid, TransactionView)>
    decreases txids.len(),
{
    if txids.len() == 0 {
        Seq::empty()
    } else {
        let before = with_an_output(cache, txids.drop_last());
        if cache[txids.last()].output.len() > 0 {
            before.push((txids.last(), cache[txids.last()]))
        } else {
            before
        }
    }
}

/// The views of a list of transactions with their ids.
pub open spec fn identified_views(
    txs: Seq<(Txid, Arc<Transaction>)>,
) -> Seq<(Txid, TransactionView)> {
    txs.map_values(|tx: (Txid, Arc<Transaction>)| (tx.0, tx.1@))
}

/// The hashes of the scripts of the first outputs of some transactions.
pub open spec fn first_script_hashes(
    txs: Seq<(Txid, TransactionView)>,
) -> Seq<ElectrumScriptHash> {
    txs.map_values(
        |tx: (Txid, TransactionView)| electrum_script_hash(tx.1.output[0].script_pubkey),
    )
}

/// Transactions that are looked for in the history of a script of theirs.
#[derive(Debug, PartialEq)]
pub struct TxidScripts {
    /// The transactions.
    pub txs: Vec<(Txid, Arc<Transaction>)>,
    /// The script of the first output of each.
    pub scripts: Vec<ElectrumScriptHash>,
}

/// The first entry of a history for a transaction, if there is one.
pub open spec fn found_entry(history: Seq<Tx>, txid: Txid) -> Seq<Tx>
    decreases history.len(),
{
    if history.len() == 0 {
        Seq::empty()
    } else if history[0].txid == txid {
        seq![history[0]]
    } else {
        found_entry(history.drop_first(), txid)
    }
}

/// The first entry for each of the first `n` transactions in its history, where there is one.
pub open spec fn found_entries(
    txs: Seq<(Txid, TransactionView)>,
    histories: Seq<Seq<Tx>>,
    n: int,
) -> Seq<Tx>
    decreases n,
{
    if n <= 0 {
        Seq::empty()
    } else {
        found_entries(txs, histories, n - 1) + found_entry(histories[n - 1], txs[n - 1].0)
    }
}

/// The transactions alone.
pub open spec fn without_ids(txs: Seq<(Txid, TransactionView)>) -> Seq<TransactionView> {
    txs.map_values(|tx: (Txid, TransactionView)| tx.1)
}

impl<C> BdkElectrumClient<C> {
    /// The scripts whose histories are asked for to find transactions by their ids, once all of the
    /// transactions are in the cache. A transaction without outputs is left out.
    pub fn txid_scripts(&self, txids: &Vec<Txid>) -> (r: Result<TxidScripts, Txid>)
        ensures
            match r {
                Ok(found) => {
                    &&& all_cached(self.txs(), txids@)
                    &&& identified_views(found.txs@) == with_an_output(self.txs(), txids@)
                    &&& found.scripts@ == first_script_hashes(with_an_output(self.txs(), txids@))
                },
                Err(missing) => is_first_missing(self.txs(), txids@, missing),
            },
    {
        if let Some(missing) = self.first_missing(txids) {
            return Err(missing);
        }
        let mut txs: Vec<(Txid, Arc<Transaction>)> = Vec::new();
        let mut scripts: Vec<ElectrumScriptHash> = Vec::new();
        let mut i: usize = 0;
        proof {
            assert(identified_views(txs@) =~= with_an_output(self.txs(), txids@.take(0)));
            assert(scripts@ =~= first_script_hashes(with_an_output(self.txs(), txids@.take(0))));
        }
        while i < txids.len()
            invariant
                i <= txids.len(),
                all_cached(self.txs(), txids@),
                identified_views(txs@) == with_an_output(self.txs(), txids@.take(i as int)),
                scripts@ == first_script_hashes(with_an_output(self.txs(), txids@.take(i as int))),
            decreases txids.len() - i,
        {
            let txid = txids[i];
            proof {
                assert(self.txs().contains_key(txids@[i as int]));
                assert(txids@.take(i + 1).drop_last() =~= txids@.take(i as int));
            }
            if let Some(tx) = self.cached_tx(&txid) {
                if tx.output.len() > 0 {
                    let ghost before = with_an_output(self.txs(), txids@.take(i as int));
                    let ghost held = txs@;
                    scripts.push(hash_script(&tx.output[0].script_pubkey));
                    proof {
                        assert(tx@.output[0] == tx.output@[0]@);
                        assert(first_script_hashes(before.push((txid, tx@))) =~= first_script_hashes(
                            before,
                        ).push(electrum_script_hash(tx@.output[0].script_pubkey)));
                    }
                    txs.push((txid, tx));
                    proof {
                        assert(identified_views(txs@) =~= identified_views(held).push((txid, tx@)));
                    }
                }
            }
            i = i + 1;
        }
        proof {
            assert(txids@.take(txids@.len() as int) =~= txids@);
        }
        Ok(TxidScripts { txs, scripts })
    }
}

/// The first entry of a history for a transaction.
fn find_entry(history: &Vec<Tx>, txid: Txid) -> (r: Option<Tx>)
    ensures
        match r {
            Some(entry) => found_entry(history@, txid) == seq![entry],
            None => found_entry(history@, txid) == Seq::<Tx>::empty(),
        },
{
    let mut i: usize = 0;
    proof {
        assert(history@.skip(0) =~= history@);
    }
    while i < history.len()
        invariant
            i <= history.len(),
            found_entry(history@, txid) == found_entry(history@.skip(i as int), txid),
        decreases history.len() - i,
    {
        if history[i].txid().same(&txid) {
            return Some(history[i]);
        }
        proof {
            assert(history@.skip(i as int).drop_first() =~= history@.skip(i + 1));
        }
        i = i + 1;
    }
    None
}

/// Populate the `tx_update` with transactions that are looked for by their ids: each is in the
/// update, with what the history of its script says of it.
pub fn populate_with_txids(
    start_time: u64,
    tx_update: &mut TxUpdate,
    txs: &Vec<(Txid, Arc<Transaction>)>,
    histories: &Vec<Vec<Tx>>,
    pending_anchors: &mut Vec<(Txid, u32)>,
)
    ensures
        final(tx_update)@ == with_seen(
            (TxUpdateView {
                txs: old(tx_update)@.txs + without_ids(identified_views(txs@)).take(
                    batch_total(txs@, histories@),
                ),
                ..old(tx_update)@
            }),
            found_entries(
                identified_views(txs@),
                histories_of(histories@),
                batch_total(txs@, histories@),
            ),
            start_time,
        ),
        final(pending_anchors)@ == old(pending_anchors)@ + pending_of(
            found_entries(
                identified_views(txs@),
                histories_of(histories@),
                batch_total(txs@, histories@),
            ),
        ),
{
    let ghost views = identified_views(txs@);
    let ghost hists = histories_of(histories@);
    let total = if txs.len() < histories.len() {
        txs.len()
    } else {
        histories.len()
    };
    let mut entries: Vec<Tx> = Vec::new();
    let mut i: usize = 0;
    proof {
        assert(tx_update@.txs =~= tx_update@.txs + without_ids(views).take(0));
        assert(entries@ =~= found_entries(views, hists, 0));
    }
    while i < total
        invariant
            i <= total,
            total <= txs.len(),
            total <= histories.len(),
            views == identified_views(txs@),
            hists == histories_of(histories@),
            entries@ == found_entries(views, hists, i as int),
            tx_update@ == (TxUpdateView {
                txs: old(tx_update)@.txs + without_ids(views).take(i as int),
                ..old(tx_update)@
            }),
        decreases total - i,
    {
        let ghost done = entries@;
        proof {
            assert(hists[i as int] == histories@[i as int]@);
            assert(views[i as int] == (txs@[i as int].0, txs@[i as int].1@));
        }
        if let Some(entry) = find_entry(&histories[i], txs[i].0) {
            entries.push(entry);
            proof {
                assert(entries@ =~= done + seq![entry]);
            }
        } else {
            proof {
                assert(entries@ =~= done + Seq::<Tx>::empty());
            }
        }
        let ghost before = tx_update@.txs;
        tx_update.txs.push(share_tx(&txs[i].1));
        proof {
            assert(tx_update@.txs =~= before.push(txs@[i as int].1@));
            assert(tx_update@.txs =~= old(tx_update)@.txs + without_ids(views).take(i + 1));
        }
        i = i + 1;
    }
    apply_history(tx_update, pending_anchors, &entries, start_time);
}

/// An outpoint, the script of its output, and the transaction in which it resides.
#[derive(Debug, PartialEq)]
pub struct OutpointTx {
    /// The outpoint.
    pub outpoint: OutPoint,
    /// The script of the output.
    pub spk: Vec<u8>,
    /// The transaction.
    pub tx: Arc<Transaction>,
}

/// An outpoint with its output, as contracts speak of it.
pub struct OutpointTxView {
    /// The outpoint.
    pub outpoint: OutPoint,
    /// The script of the output.
    pub spk: Seq<u8>,
    /// The transaction.
    pub tx: TransactionView,
}

impl View for OutpointTx {
    type V = OutpointTxView;

    open spec fn view(&self) -> OutpointTxView {
        OutpointTxView { outpoint: self.outpoint, spk: self.spk@, tx: self.tx@ }
    }
}

/// The views of a list of outpoints with their outputs.
pub open spec fn outpoint_views(txs: Seq<OutpointTx>) -> Seq<OutpointTxView> {
    txs.map_values(|tx: OutpointTx| tx@)
}

/// Those of some outpoints whose transaction is in a cache and has such an output.
pub open spec fn residing(
    cache: Map<Txid, TransactionView>,
    outpoints: Seq<OutPoint>,
) -> Seq<OutpointTxView>
    decreases outpoints.len(),
{
    if outpoints.len() == 0 {
        Seq::empty()
    } else {
        let before = residing(cache, outpoints.drop_last());
        let outpoint = outpoints.last();
        let tx = cache[outpoint.txid];
        if cache.contains_key(outpoint.txid) && outpoint.vout < tx.output.len() {
            before.push(
                OutpointTxView {
                    outpoint,
                    spk: tx.output[outpoint.vout as int].script_pubkey,
                    tx,
                },
            )
        } else {
            before
        }
    }
}

/// The different scripts of some outpoints, in the order in which they first occur.
pub open spec fn different_spks(txs: Seq<OutpointTxView>) -> Seq<Seq<u8>>
    decreases txs.len(),
{
    if txs.len() == 0 {
        Seq::empty()
    } else {
        let before = different_spks(txs.drop_last());
        if before.contains(txs.last().spk) {
            before
        } else {
            before.push(txs.last().spk)
        }
    }
}

/// The views of a list of scripts.
pub open spec fn script_views(scripts: Seq<Vec<u8>>) -> Seq<Seq<u8>> {
    scripts.map_values(|script: Vec<u8>| script@)
}

/// The history that came for a script.
pub open spec fn history_of(
    spks: Seq<Seq<u8>>,
    histories: Seq<Seq<Tx>>,
    n: int,
    spk: Seq<u8>,
) -> Option<Seq<Tx>>
    decreases n,
{
    if n <= 0 {
        None
    } else if spks[n - 1] == spk {
        Some(histories[n - 1])
    } else {
        history_of(spks, histories, n - 1, spk)
    }
}

/// Whether a transaction spends an outpoint.
pub open spec fn spends(tx: TransactionView, outpoint: OutPoint) -> bool {
    exists|i: int| 0 <= i < tx.input.len() && (#[trigger] tx.input[i]).previous_output == outpoint
}

/// Whether a history holds a transaction that spends an outpoint.
pub open spec fn holds_spender(
    cache: Map<Txid, TransactionView>,
    history: Seq<Tx>,
    outpoint: OutPoint,
) -> bool {
    exists|i: int|
        0 <= i < history.len() && (#[trigger] history[i]).txid != outpoint.txid && spends(
            cache[history[i].txid],
            outpoint,
        )
}

/// Whether the transaction of a history entry has to be looked at, to see whether it spends an
/// outpoint: it is not the one in which the outpoint resides, and no earlier one spends it.
pub open spec fn is_candidate(
    cache: Map<Txid, TransactionView>,
    history: Seq<Tx>,
    outpoint: OutPoint,
    i: int,
) -> bool {
    history[i].txid != outpoint.txid && !holds_spender(cache, history.take(i), outpoint)
}

/// The entries of a history that concern an outpoint: the first one for the transaction in which it
/// resides, and the first one for a transaction that spends it.
pub open spec fn concerning(
    cache: Map<Txid, TransactionView>,
    history: Seq<Tx>,
    outpoint: OutPoint,
) -> Seq<Tx>
    decreases history.len(),
{
    if history.len() == 0 {
        Seq::empty()
    } else {
        let before = concerning(cache, history.drop_last(), outpoint);
        let entry = history.last();
        if entry.txid == outpoint.txid {
            if holds_txid(history.drop_last(), outpoint.txid) {
                before
            } else {
                before.push(entry)
            }
        } else if !holds_spender(cache, history.drop_last(), outpoint) && spends(
            cache[entry.txid],
            outpoint,
        ) {
            before.push(entry)
        } else {
            before
        }
    }
}

/// The transactions of entries that concern an outpoint.
pub open spec fn concerned_txs(
    cache: Map<Txid, TransactionView>,
    entries: Seq<Tx>,
    op: OutpointTxView,
) -> Seq<TransactionView> {
    entries.map_values(
        |entry: Tx|
            if entry.txid == op.outpoint.txid {
                op.tx
            } else {
                cache[entry.txid]
            },
    )
}

/// Whether each transaction that has to be looked at for an outpoint is in a cache.
pub open spec fn candidates_cached(
    cache: Map<Txid, TransactionView>,
    history: Seq<Tx>,
    outpoint: OutPoint,
) -> bool {
    forall|i: int|
        0 <= i < history.len() && #[trigger] is_candidate(cache, history, outpoint, i)
            ==> cache.contains_key(history[i].txid)
}

/// Whether a transaction is the first that has to be looked at for an outpoint and is not in a cache.
pub open spec fn is_missing_candidate(
    cache: Map<Txid, TransactionView>,
    history: Seq<Tx>,
    outpoint: OutPoint,
    missing: Txid,
) -> bool {
    exists|i: int|
        0 <= i < history.len() && #[trigger] is_candidate(cache, history, outpoint, i)
            && history[i].txid == missing && !cache.contains_key(missing) && candidates_cached(
            cache,
            history.take(i),
            outpoint,
        )
}

/// The histories of some outpoints; where none came, there is nothing in it.
pub open spec fn outpoint_history(
    op: OutpointTxView,
    spks: Seq<Seq<u8>>,
    histories: Seq<Seq<Tx>>,
    total: int,
) -> Seq<Tx> {
    match history_of(spks, histories, total, op.spk) {
        Some(history) => history,
        None => Seq::empty(),
    }
}

/// The history entries that concern the first `n` outpoints.
pub open spec fn outpoint_entries(
    cache: Map<Txid, TransactionView>,
    ops: Seq<OutpointTxView>,
    spks: Seq<Seq<u8>>,
    histories: Seq<Seq<Tx>>,
    total: int,
    n: int,
) -> Seq<Tx>
    decreases n,
{
    if n <= 0 {
        Seq::empty()
    } else {
        outpoint_entries(cache, ops, spks, histories, total, n - 1) + concerning(
            cache,
            outpoint_history(ops[n - 1], spks, histories, total),
            ops[n - 1].outpoint,
        )
    }
}

/// The transactions that concern the first `n` outpoints.
pub open spec fn outpoint_txs_of(
    cache: Map<Txid, TransactionView>,
    ops: Seq<OutpointTxView>,
    spks: Seq<Seq<u8>>,
    histories: Seq<Seq<Tx>>,
    total: int,
    n: int,
) -> Seq<TransactionView>
    decreases n,
{
    if n <= 0 {
        Seq::empty()
    } else {
        outpoint_txs_of(cache, ops, spks, histories, total, n - 1) + concerned_txs(
            cache,
            concerning(
                cache,
                outpoint_history(ops[n - 1], spks, histories, total),
                ops[n - 1].outpoint,
            ),
            ops[n - 1],
        )
    }
}

/// Whether each transaction that has to be looked at for the first `n` outpoints is in a cache.
pub open spec fn outpoints_ready(
    cache: Map<Txid, TransactionView>,
    ops: Seq<OutpointTxView>,
    spks: Seq<Seq<u8>>,
    histories: Seq<Seq<Tx>>,
    total: int,
    n: int,
) -> bool {
    forall|k: int|
        0 <= k < n ==> candidates_cached(
            cache,
            outpoint_history(#[trigger] ops[k], spks, histories, total),
            ops[k].outpoint,
        )
}

impl<C> BdkElectrumClient<C> {
    /// The valid ones of some outpoints, with their script and transaction. A transaction that is not
    /// in the cache could not be fetched, and its outpoints are left out.
    pub fn outpoint_txs(&self, outpoints: &Vec<OutPoint>) -> (r: Vec<OutpointTx>)
        ensures
            outpoint_views(r@) == residing(self.txs(), outpoints@),
    {
        let mut r: Vec<OutpointTx> = Vec::new();
        let mut i: usize = 0;
        proof {
            assert(outpoint_views(r@) =~= residing(self.txs(), outpoints@.take(0)));
        }
        while i < outpoints.len()
            invariant
                i <= outpoints.len(),
                outpoint_views(r@) == residing(self.txs(), outpoints@.take(i as int)),
            decreases outpoints.len() - i,
        {
            let outpoint = outpoints[i];
            proof {
                assert(outpoints@.take(i + 1).drop_last() =~= outpoints@.take(i as int));
            }
            if let Some(tx) = self.cached_tx(&outpoint.txid) {
                let vout = outpoint.vout as usize;
                if vout < tx.output.len() {
                    let ghost held = r@;
                    let spk = copy_bytes(&tx.output[vout].script_pubkey);
                    proof {
                        assert(tx@.output[vout as int] == tx.output@[vout as int]@);
                    }
                    let op = OutpointTx { outpoint, spk, tx };
                    r.push(op);
                    proof {
                        assert(outpoint_views(r@) =~= outpoint_views(held).push(op@));
                    }
                }
            }
            i = i + 1;
        }
        proof {
            assert(outpoints@.take(outpoints@.len() as int) =~= outpoints@);
        }
        r
    }
}

/// Whether a list of scripts holds a script.
fn contains_script(scripts: &Vec<Vec<u8>>, script: &Vec<u8>) -> (r: bool)
    ensures
        r == script_views(scripts@).contains(script@),
{
    let ghost views = script_views(scripts@);
    let mut i: usize = 0;
    while i < scripts.len()
        invariant
            i <= scripts.len(),
            views == script_views(scripts@),
            forall|j: int| 0 <= j < i ==> #[trigger] views[j] != script@,
        decreases scripts.len() - i,
    {
        if same_bytes(&scripts[i], script) {
            proof {
                assert(views[i as int] == script@);
            }
            return true;
        }
        i = i + 1;
    }
    false
}

/// The different scripts of some outpoints, so that each history is fetched once.
pub fn unique_spks(txs: &Vec<OutpointTx>) -> (r: Vec<Vec<u8>>)
    ensures
        script_views(r@) == different_spks(outpoint_views(txs@)),
{
    let ghost views = outpoint_views(txs@);
    let mut r: Vec<Vec<u8>> = Vec::new();
    let mut i: usize = 0;
    proof {
        assert(script_views(r@) =~= different_spks(views.take(0)));
    }
    while i < txs.len()
        invariant
            i <= txs.len(),
            views == outpoint_views(txs@),
            script_views(r@) == different_spks(views.take(i as int)),
        decreases txs.len() - i,
    {
        proof {
            assert(views.take(i + 1).drop_last() =~= views.take(i as int));
        }
        if !contains_script(&r, &txs[i].spk) {
            let ghost held = r@;
            let spk = copy_bytes(&txs[i].spk);
            r.push(spk);
            proof {
                assert(script_views(r@) =~= script_views(held).push(spk@));
            }
        }
        i = i + 1;
    }
    proof {
        assert(views.take(views.len() as int) =~= views);
    }
    r
}

/// The hashes of some scripts, for which histories are asked.
pub fn hashes_of_scripts(scripts: &Vec<Vec<u8>>) -> (r: Vec<ElectrumScriptHash>)
    ensures
        r@ == script_views(scripts@).map_values(|script: Seq<u8>| electrum_script_hash(script)),
{
    let ghost expected = script_views(scripts@).map_values(
        |script: Seq<u8>| electrum_script_hash(script),
    );
    let mut r: Vec<ElectrumScriptHash> = Vec::new();
    let mut i: usize = 0;
    while i < scripts.len()
        invariant
            i <= scripts.len(),
            expected == script_views(scripts@).map_values(
                |script: Seq<u8>| electrum_script_hash(script),
            ),
            r@ == expected.take(i as int),
        decreases scripts.len() - i,
    {
        r.push(hash_script(&scripts[i]));
        proof {
            assert(expected.take(i + 1) =~= expected.take(i as int).push(expected[i as int]));
        }
        i = i + 1;
    }
    proof {
        assert(expected.take(expected.len() as int) =~= expected);
    }
    r
}

/// Whether a transaction spends an outpoint.
fn tx_spends(tx: &Transaction, outpoint: &OutPoint) -> (r: bool)
    ensures
        r == spends(tx@, *outpoint),
{
    let mut i: usize = 0;
    while i < tx.input.len()
        invariant
            i <= tx.input.len(),
            forall|j: int| 0 <= j < i ==> (#[trigger] tx@.input[j]).previous_output != *outpoint,
        decreases tx.input.len() - i,
    {
        proof {
            assert(tx@.input[i as int] == tx.input@[i as int]@);
        }
        if tx.input[i].previous_output.same(outpoint) {
            return true;
        }
        i = i + 1;
    }
    false
}

/// The position of the history that came for a script.
fn find_history(spks: &Vec<Vec<u8>>, total: usize, spk: &Vec<u8>) -> (r: Option<usize>)
    requires
        total <= spks.len(),
    ensures
        forall|histories: Seq<Seq<Tx>>| #[trigger]
            history_of(script_views(spks@), histories, total as int, spk@) == match r {
                Some(i) => Some(histories[i as int]),
                None => None,
            },
        r is Some ==> r->0 < total,
{
    let ghost views = script_views(spks@);
    let mut i: usize = total;
    while i > 0
        invariant
            i <= total,
            total <= spks.len(),
            views == script_views(spks@),
            forall|histories: Seq<Seq<Tx>>| #[trigger]
                history_of(views, histories, total as int, spk@) == history_of(
                    views,
                    histories,
                    i as int,
                    spk@,
                ),
        decreases i,
    {
        proof {
            assert(views[i - 1] == spks@[i - 1]@);
        }
        if same_bytes(&spks[i - 1], spk) {
            return Some(i - 1);
        }
        i = i - 1;
    }
    None
}

/// What has to be looked at in a history is the same in a longer one.
proof fn candidate_in_prefix(
    cache: Map<Txid, TransactionView>,
    history: Seq<Tx>,
    outpoint: OutPoint,
    n: int,
    i: int,
)
    requires
        0 <= i < n <= history.len(),
    ensures
        is_candidate(cache, history.take(n), outpoint, i) == is_candidate(
            cache,
            history,
            outpoint,
            i,
        ),
{
    assert(history.take(n).take(i) =~= history.take(i));
}

/// Whether a history with one more entry holds a transaction.
proof fn holds_txid_next(history: Seq<Tx>, n: int, txid: Txid)
    requires
        0 <= n < history.len(),
    ensures
        holds_txid(history.take(n + 1), txid) == (holds_txid(history.take(n), txid)
            || history[n].txid == txid),
{
    let a = history.take(n);
    let b = history.take(n + 1);
    if holds_txid(b, txid) {
        let i = choose|i: int| 0 <= i < b.len() && (#[trigger] b[i]).txid == txid;
        if i < n {
            assert(a[i].txid == txid);
        }
    }
    if holds_txid(a, txid) {
        let i = choose|i: int| 0 <= i < a.len() && (#[trigger] a[i]).txid == txid;
        assert(b[i].txid == txid);
    }
    assert(b[n] == history[n]);
}

/// Whether a history with one more entry holds a transaction that spends an outpoint.
proof fn holds_spender_next(
    cache: Map<Txid, TransactionView>,
    history: Seq<Tx>,
    n: int,
    outpoint: OutPoint,
)
    requires
        0 <= n < history.len(),
    ensures
        holds_spender(cache, history.take(n + 1), outpoint) == (holds_spender(
            cache,
            history.take(n),
            outpoint,
        ) || (history[n].txid != outpoint.txid && spends(cache[history[n].txid], outpoint))),
{
    let a = history.take(n);
    let b = history.take(n + 1);
    if holds_spender(cache, b, outpoint) {
        let i = choose|i: int|
            0 <= i < b.len() && (#[trigger] b[i]).txid != outpoint.txid && spends(
                cache[b[i].txid],
                outpoint,
            );
        if i < n {
            assert(a[i] == b[i]);
        }
    }
    if holds_spender(cache, a, outpoint) {
        let i = choose|i: int|
            0 <= i < a.len() && (#[trigger] a[i]).txid != outpoint.txid && spends(
                cache[a[i].txid],
                outpoint,
            );
        assert(b[i] == a[i]);
    }
    assert(b[n] == history[n]);
}

/// What a history says of an outpoint.
#[derive(Debug, PartialEq)]
pub struct OutpointMatch {
    /// The history entries.
    pub entries: Vec<Tx>,
    /// Their transactions.
    pub txs: Vec<Arc<Transaction>>,
}

impl<C> BdkElectrumClient<C> {
    /// The entries of a history that concern an outpoint, with their transactions. Gives back the
    /// first transaction that has to be fetched before that can be said.
    fn outpoint_match(&self, op: &OutpointTx, history: &Vec<Tx>) -> (r: Result<OutpointMatch, Txid>)
        ensures
            match r {
                Ok(found) => {
                    &&& candidates_cached(self.txs(), history@, op.outpoint)
                    &&& found.entries@ == concerning(self.txs(), history@, op.outpoint)
                    &&& tx_views(found.txs@) == concerned_txs(self.txs(), found.entries@, op@)
                },
                Err(missing) => is_missing_candidate(self.txs(), history@, op.outpoint, missing),
            },
    {
        let ghost cache = self.txs();
        let ghost outpoint = op.outpoint;
        let mut entries: Vec<Tx> = Vec::new();
        let mut txs: Vec<Arc<Transaction>> = Vec::new();
        let mut has_residing = false;
        let mut has_spending = false;
        let mut i: usize = 0;
        proof {
            assert(entries@ =~= concerning(cache, history@.take(0), outpoint));
            assert(tx_views(txs@) =~= concerned_txs(cache, entries@, op@));
        }
        while i < history.len()
            invariant
                i <= history.len(),
                cache == self.txs(),
                outpoint == op.outpoint,
                has_residing == holds_txid(history@.take(i as int), outpoint.txid),
                has_spending == holds_spender(cache, history@.take(i as int), outpoint),
                candidates_cached(cache, history@.take(i as int), outpoint),
                entries@ == concerning(cache, history@.take(i as int), outpoint),
                tx_views(txs@) == concerned_txs(cache, entries@, op@),
            decreases history.len() - i,
        {
            let entry = history[i];
            let ghost entries_before = entries@;
            let ghost txs_before = txs@;
            proof {
                assert(history@.take(i + 1).drop_last() =~= history@.take(i as int));
                holds_txid_next(history@, i as int, outpoint.txid);
                holds_spender_next(cache, history@, i as int, outpoint);
            }
            if entry.txid().same(&op.outpoint.txid) {
                if !has_residing {
                    has_residing = true;
                    entries.push(entry);
                    txs.push(share_tx(&op.tx));
                    proof {
                        assert(tx_views(txs@) =~= tx_views(txs_before).push(op.tx@));
                        assert(concerned_txs(cache, entries@, op@) =~= concerned_txs(
                            cache,
                            entries_before,
                            op@,
                        ).push(op.tx@));
                    }
                }
            } else if !has_spending {
                proof {
                    assert(is_candidate(cache, history@, outpoint, i as int));
                }
                match self.cached_tx(&entry.txid()) {
                    Some(res_tx) => {
                        // we exclude entries whose transaction does not spend the outpoint
                        has_spending = tx_spends(&res_tx, &op.outpoint);
                        if has_spending {
                            entries.push(entry);
                            txs.push(res_tx);
                            proof {
                                assert(tx_views(txs@) =~= tx_views(txs_before).push(res_tx@));
                                assert(concerned_txs(cache, entries@, op@) =~= concerned_txs(
                                    cache,
                                    entries_before,
                                    op@,
                                ).push(cache[entry.txid]));
                            }
                        }
                    },
                    None => {
                        return Err(entry.txid());
                    },
                }
            }
            proof {
                let next = history@.take(i + 1);
                assert forall|j: int|
                    0 <= j < next.len() && #[trigger] is_candidate(
                        cache,
                        next,
                        outpoint,
                        j,
                    ) implies cache.contains_key(next[j].txid) by {
                    candidate_in_prefix(cache, history@, outpoint, i + 1, j);
                    if j < i {
                        candidate_in_prefix(cache, history@, outpoint, i as int, j);
                        assert(is_candidate(cache, history@.take(i as int), outpoint, j));
                        assert(history@.take(i as int)[j] == next[j]);
                    }
                }
            }
            i = i + 1;
        }
        proof {
            assert(history@.take(history@.len() as int) =~= history@);
        }
        Ok(OutpointMatch { entries, txs })
    }

    /// Populate the `tx_update` with transactions that concern some outpoints: those in which they
    /// reside, and those that spend them. `spks` are the scripts of the outpoints, and `histories` what
    /// came for them. Gives back the first transaction that has to be fetched before that can be done,
    /// and does nothing then.
    pub fn populate_with_outpoints(
        &self,
        start_time: u64,
        tx_update: &mut TxUpdate,
        ops: &Vec<OutpointTx>,
        spks: &Vec<Vec<u8>>,
        histories: &Vec<Vec<Tx>>,
        pending_anchors: &mut Vec<(Txid, u32)>,
    ) -> (r: Option<Txid>)
        ensures
            ({
                let cache = self.txs();
                let views = outpoint_views(ops@);
                let scripts = script_views(spks@);
                let hists = histories_of(histories@);
                let total = batch_total(spks@, histories@);
                let n = views.len() as int;
                match r {
                    None => {
                        &&& outpoints_ready(cache, views, scripts, hists, total, n)
                        &&& final(tx_update)@ == with_seen(
                            (TxUpdateView {
                                txs: old(tx_update)@.txs + outpoint_txs_of(
                                    cache,
                                    views,
                                    scripts,
                                    hists,
                                    total,
                                    n,
                                ),
                                ..old(tx_update)@
                            }),
                            outpoint_entries(cache, views, scripts, hists, total, n),
                            start_time,
                        )
                        &&& final(pending_anchors)@ == old(pending_anchors)@ + pending_of(
                            outpoint_entries(cache, views, scripts, hists, total, n),
                        )
                    },
                    Some(missing) => {
                        &&& final(tx_update)@ == old(tx_update)@
                        &&& final(pending_anchors)@ == old(pending_anchors)@
                        &&& exists|k: int|
                            0 <= k < n && outpoints_ready(cache, views, scripts, hists, total, k)
                                && is_missing_candidate(
                                cache,
                                outpoint_history(#[trigger] views[k], scripts, hists, total),
                                views[k].outpoint,
                                missing,
                            )
                    },
                }
            }),
    {
        let ghost cache = self.txs();
        let ghost views = outpoint_views(ops@);
        let ghost scripts = script_views(spks@);
        let ghost hists = histories_of(histories@);
        let total = if spks.len() < histories.len() {
            spks.len()
        } else {
            histories.len()
        };
        let mut entries: Vec<Tx> = Vec::new();
        let mut txs: Vec<Arc<Transaction>> = Vec::new();
        let mut k: usize = 0;
        proof {
            assert(tx_views(txs@) =~= Seq::<TransactionView>::empty());
        }
        while k < ops.len()
            invariant
                k <= ops.len(),
                total <= spks.len(),
                total <= histories.len(),
                cache == self.txs(),
                views == outpoint_views(ops@),
                scripts == script_views(spks@),
                hists == histories_of(histories@),
                tx_update@ == old(tx_update)@,
                pending_anchors@ == old(pending_anchors)@,
                total as int == batch_total(spks@, histories@),
                outpoints_ready(cache, views, scripts, hists, total as int, k as int),
                entries@ == outpoint_entries(cache, views, scripts, hists, total as int, k as int),
                tx_views(txs@) == outpoint_txs_of(
                    cache,
                    views,
                    scripts,
                    hists,
                    total as int,
                    k as int,
                ),
            decreases ops.len() - k,
        {
            let op = &ops[k];
            let ghost entries_before = entries@;
            let ghost txs_before = txs@;
            proof {
                assert(views[k as int] == op@);
                assert(history_of(scripts, hists, total as int, op.spk@) == history_of(
                    scripts,
                    hists,
                    total as int,
                    views[k as int].spk,
                ));
            }
            match find_history(spks, total, &op.spk) {
                Some(at) => {
                    proof {
                        assert(hists[at as int] == histories@[at as int]@);
                    }
                    match self.outpoint_match(op, &histories[at]) {
                        Ok(mut found) => {
                            let ghost found_entries = found.entries@;
                            let ghost found_txs = found.txs@;
                            entries.append(&mut found.entries);
                            txs.append(&mut found.txs);
                            proof {
                                assert(tx_views(txs@) =~= tx_views(txs_before) + tx_views(
                                    found_txs,
                                ));
                            }
                        },
                        Err(missing) => {
                            return Some(missing);
                        },
                    }
                },
                None => {
                    proof {
                        let none = outpoint_history(views[k as int], scripts, hists, total as int);
                        assert(entries@ =~= entries_before + concerning(
                            cache,
                            none,
                            views[k as int].outpoint,
                        ));
                        assert(tx_views(txs@) =~= tx_views(txs_before) + concerned_txs(
                            cache,
                            concerning(cache, none, views[k as int].outpoint),
                            views[k as int],
                        ));
                    }
                },
            }
            k = k + 1;
        }
        let ghost before = tx_update.txs@;
        let ghost added = txs@;
        tx_update.txs.append(&mut txs);
        proof {
            assert(tx_update@.txs =~= tx_views(before) + tx_views(added));
        }
        apply_history(tx_update, pending_anchors, &entries, start_time);
        None
    }
}

/// Whether a transaction is one whose previous outputs are fetched: no coinbase transaction, and the
/// first one of a list with its id.
pub open spec fn is_counted(txs: Seq<TransactionView>, i: int) -> bool {
    !is_coinbase_tx(txs[i]) && forall|j: int|
        0 <= j < i && !is_coinbase_tx(#[trigger] txs[j]) ==> txid_of(txs[j]) != txid_of(txs[i])
}

/// The outputs that a transaction spends.
pub open spec fn prevouts_of(tx: TransactionView) -> Seq<OutPoint> {
    tx.input.map_values(|input: crate::tx::TxInView| input.previous_output)
}

/// The outputs that the first `n` of some transactions spend.
pub open spec fn all_prevouts(txs: Seq<TransactionView>, n: int) -> Seq<OutPoint>
    decreases n,
{
    if n <= 0 {
        Seq::empty()
    } else if is_counted(txs, n - 1) {
        all_prevouts(txs, n - 1) + prevouts_of(txs[n - 1])
    } else {
        all_prevouts(txs, n - 1)
    }
}

/// The transactions of some outpoints.
pub open spec fn outpoint_txids(outpoints: Seq<OutPoint>) -> Seq<Txid> {
    outpoints.map_values(|outpoint: OutPoint| outpoint.txid)
}

/// The outputs that some outpoints refer to, out of a cache of transactions. Where a transaction does
/// not have such an output there is none.
pub open spec fn prev_txouts(
    cache: Map<Txid, TransactionView>,
    outpoints: Seq<OutPoint>,
) -> Map<OutPoint, TxOutView> {
    Map::new(
        |op: OutPoint| outpoints.contains(op) && op.vout < cache[op.txid].output.len(),
        |op: OutPoint| cache[op.txid].output[op.vout as int],
    )
}

/// The outputs that the transactions of an update spend, in order; what they spend has to be fetched.
pub fn prevouts(txs: &Vec<Arc<Transaction>>) -> (r: Vec<OutPoint>)
    ensures
        r@ == all_prevouts(tx_views(txs@), txs@.len() as int),
{
    let ghost views = tx_views(txs@);
    let mut seen: OrderedSet<Txid> = OrderedSet::new();
    let mut r: Vec<OutPoint> = Vec::new();
    let mut i: usize = 0;
    while i < txs.len()
        invariant
            i <= txs.len(),
            views == tx_views(txs@),
            forall|txid: Txid| #[trigger]
                seen@.contains(txid) <==> exists|j: int|
                    0 <= j < i && !is_coinbase_tx(#[trigger] views[j]) && txid_of(views[j]) == txid,
            r@ == all_prevouts(views, i as int),
        decreases txs.len() - i,
    {
        let tx = &txs[i];
        let ghost seen_before = seen@;
        proof {
            assert(views[i as int] == tx@);
        }
        if !tx.is_coinbase() {
            let txid = tx.compute_txid();
            let is_new = seen.insert(txid);
            proof {
                assert(txid == txid_of(views[i as int]));
                assert(is_new == is_counted(views, i as int)) by {
                    if seen_before.contains(txid) {
                        let j = choose|j: int|
                            0 <= j < i && !is_coinbase_tx(#[trigger] views[j]) && txid_of(views[j])
                                == txid;
                        assert(!is_coinbase_tx(views[j]));
                    }
                }
                assert forall|t: Txid| #[trigger] seen@.contains(t) <==> exists|j: int|
                    0 <= j < i + 1 && !is_coinbase_tx(#[trigger] views[j]) && txid_of(views[j])
                        == t by {
                    if seen_before.contains(t) {
                        let j = choose|j: int|
                            0 <= j < i && !is_coinbase_tx(#[trigger] views[j]) && txid_of(views[j])
                                == t;
                        assert(!is_coinbase_tx(views[j]));
                    }
                    if exists|j: int|
                        0 <= j < i + 1 && !is_coinbase_tx(#[trigger] views[j]) && txid_of(views[j])
                            == t {
                        let j = choose|j: int|
                            0 <= j < i + 1 && !is_coinbase_tx(#[trigger] views[j]) && txid_of(
                                views[j],
                            ) == t;
                        if j < i {
                            assert(seen_before.contains(t));
                        }
                    }
                    assert(!is_coinbase_tx(views[i as int]));
                }
            }
            if is_new {
                let ghost done = r@;
                let mut j: usize = 0;
                proof {
                    assert(r@ =~= done + prevouts_of(tx@).take(0));
                }
                while j < tx.input.len()
                    invariant
                        j <= tx.input.len(),
                        r@ == done + prevouts_of(tx@).take(j as int),
                    decreases tx.input.len() - j,
                {
                    r.push(tx.input[j].previous_output);
                    proof {
                        assert(tx@.input[j as int] == tx.input@[j as int]@);
                        assert(r@ =~= done + prevouts_of(tx@).take(j + 1));
                    }
                    j = j + 1;
                }
                proof {
                    assert(prevouts_of(tx@).take(tx@.input.len() as int) =~= prevouts_of(tx@));
                }
            }
        } else {
            proof {
                assert(!is_counted(views, i as int));
                assert forall|t: Txid| #[trigger] seen@.contains(t) <==> exists|j: int|
                    0 <= j < i + 1 && !is_coinbase_tx(#[trigger] views[j]) && txid_of(views[j])
                        == t by {
                    if exists|j: int|
                        0 <= j < i + 1 && !is_coinbase_tx(#[trigger] views[j]) && txid_of(views[j])
                            == t {
                        let j = choose|j: int|
                            0 <= j < i + 1 && !is_coinbase_tx(#[trigger] views[j]) && txid_of(
                                views[j],
                            ) == t;
                        assert(j < i);
                    }
                    if seen@.contains(t) {
                        let j = choose|j: int|
                            0 <= j < i && !is_coinbase_tx(#[trigger] views[j]) && txid_of(views[j])
                                == t;
                        assert(!is_coinbase_tx(views[j]));
                    }
                }
            }
        }
        i = i + 1;
    }
    r
}

impl<C> BdkElectrumClient<C> {
    /// Fetch previous transaction outputs for fee calculation: the outputs that the transactions of
    /// the update spend. Coinbase transactions are skipped, and so are outputs that a transaction
    /// does not have. Gives back the first transaction that has to be fetched before that can be
    /// done, and does nothing then.
    pub fn fetch_prev_txout(&self, tx_update: &mut TxUpdate) -> (r: Option<Txid>)
        ensures
            ({
                let outpoints = all_prevouts(
                    old(tx_update)@.txs,
                    old(tx_update)@.txs.len() as int,
                );
                match r {
                    Some(missing) => {
                        &&& is_first_missing(self.txs(), outpoint_txids(outpoints), missing)
                        &&& final(tx_update)@ == old(tx_update)@
                    },
                    None => {
                        &&& all_cached(self.txs(), outpoint_txids(outpoints))
                        &&& final(tx_update)@ == (TxUpdateView {
                            txouts: old(tx_update)@.txouts.union_prefer_right(
                                prev_txouts(self.txs(), outpoints),
                            ),
                            ..old(tx_update)@
                        })
                    },
                }
            }),
    {
        let outpoints = prevouts(&tx_update.txs);
        let ghost cache = self.txs();
        let ghost txids = outpoint_txids(outpoints@);
        let mut i: usize = 0;
        while i < outpoints.len()
            invariant
                i <= outpoints.len(),
                cache == self.txs(),
                txids == outpoint_txids(outpoints@),
                outpoints@ == all_prevouts(
                    old(tx_update)@.txs,
                    old(tx_update)@.txs.len() as int,
                ),
                tx_update@ == old(tx_update)@,
                all_cached(cache, txids.take(i as int)),
            decreases outpoints.len() - i,
        {
            proof {
                assert(txids[i as int] == outpoints@[i as int].txid);
            }
            if self.cached_tx(&outpoints[i].txid).is_none() {
                return Some(outpoints[i].txid);
            }
            proof {
                assert forall|j: int| 0 <= j < i + 1 implies cache.contains_key(
                    #[trigger] txids.take(i + 1)[j],
                ) by {
                    if j < i {
                        assert(txids.take(i as int)[j] == txids.take(i + 1)[j]);
                    }
                }
            }
            i = i + 1;
        }
        proof {
            assert(txids.take(txids.len() as int) =~= txids);
        }
        let mut i: usize = 0;
        proof {
            assert(tx_update@.txouts =~= tx_update@.txouts.union_prefer_right(
                prev_txouts(cache, outpoints@.take(0)),
            ));
        }
        while i < outpoints.len()
            invariant
                i <= outpoints.len(),
                cache == self.txs(),
                txids == outpoint_txids(outpoints@),
                all_cached(cache, txids),
                tx_update@ == (TxUpdateView {
                    txouts: old(tx_update)@.txouts.union_prefer_right(
                        prev_txouts(cache, outpoints@.take(i as int)),
                    ),
                    ..old(tx_update)@
                }),
            decreases outpoints.len() - i,
        {
            let outpoint = outpoints[i];
            proof {
                assert(txids[i as int] == outpoint.txid);
            }
            let ghost before = tx_update@.txouts;
            if let Some(prev_tx) = self.cached_tx(&outpoint.txid) {
                let vout = outpoint.vout as usize;
                if vout < prev_tx.output.len() {
                    proof {
                        assert(prev_tx@.output[vout as int] == prev_tx.output@[vout as int]@);
                    }
                    tx_update.txouts.insert(outpoint, prev_tx.output[vout].replica());
                }
            }
            proof {
                let a = outpoints@.take(i as int);
                let b = outpoints@.take(i + 1);
                assert forall|op: OutPoint| b.contains(op) == (a.contains(op) || op == outpoint) by {
                    if b.contains(op) {
                        let j = choose|j: int| 0 <= j < b.len() && b[j] == op;
                        if j < i {
                            assert(a[j] == op);
                        }
                    }
                    if a.contains(op) {
                        let j = choose|j: int| 0 <= j < a.len() && a[j] == op;
                        assert(b[j] == op);
                    }
                    assert(b[i as int] == outpoint);
                }
                assert(tx_update@.txouts =~= old(tx_update)@.txouts.union_prefer_right(
                    prev_txouts(cache, b),
                ));
            }
            i = i + 1;
        }
        proof {
            assert(outpoints@.take(outpoints@.len() as int) =~= outpoints@);
        }
        None
    }
}

/// What is found of a transaction in a history is the first entry for it, and nothing where there is none.
pub proof fn the_first_entry_is_found(history: Seq<Tx>, txid: Txid, i: int)
    ensures
        0 <= i < history.len() && history[i].txid == txid && (forall|k: int|
            0 <= k < i ==> (#[trigger] history[k]).txid != txid) ==> found_entry(history, txid)
            == seq![history[i]],
        (forall|k: int| 0 <= k < history.len() ==> (#[trigger] history[k]).txid != txid)
            ==> found_entry(history, txid).len() == 0,
        found_entry(history, txid).len() > 0 ==> found_entry(history, txid).len() == 1
            && history.contains(found_entry(history, txid)[0]) && found_entry(history, txid)[0].txid
            == txid,
    decreases history.len(),
{
    if history.len() > 0 {
        let rest = history.drop_first();
        the_first_entry_is_found(rest, txid, i - 1);
        if history[0].txid != txid {
            assert forall|k: int| 0 <= k < rest.len() implies #[trigger] rest[k]
                == history[k + 1] by {}
            if 0 < i < history.len() {
                assert(rest[i - 1] == history[i]);
            }
            if forall|k: int| 0 <= k < history.len() ==> (#[trigger] history[k]).txid != txid {
                assert forall|k: int| 0 <= k < rest.len() implies (#[trigger] rest[k]).txid
                    != txid by {
                    assert(history[k + 1].txid != txid);
                }
            }
            if 0 < i < history.len() && (forall|k: int|
                0 <= k < i ==> (#[trigger] history[k]).txid != txid) {
                assert forall|k: int| 0 <= k < i - 1 implies (#[trigger] rest[k]).txid != txid by {
                    assert(history[k + 1].txid != txid);
                }
            }
            if found_entry(rest, txid).len() > 0 {
                let k = choose|k: int|
                    0 <= k < rest.len() && rest[k] == found_entry(rest, txid)[0];
                assert(history[k + 1] == found_entry(history, txid)[0]);
            }
        } else {
            assert(history.contains(history[0]));
        }
    }
}

/// Each transaction is looked for in the history that came for its own script: where that holds an entry
/// for it, the first one tells whether it is pending, and at which height, or was seen.
pub proof fn each_transaction_has_its_own_history(
    txs: Seq<(Txid, TransactionView)>,
    histories: Seq<Seq<Tx>>,
    n: int,
    i: int,
    j: int,
    start_time: u64,
)
    requires
        0 <= i < n <= txs.len(),
        n <= histories.len(),
        0 <= j < histories[i].len(),
        histories[i][j].txid == txs[i].0,
        forall|k: int| 0 <= k < j ==> (#[trigger] histories[i][k]).txid != txs[i].0,
    ensures
        ({
            let entry = histories[i][j];
            let entries = found_entries(txs, histories, n);
            &&& entries.contains(entry)
            &&& 1 <= entry.height <= 4294967295 ==> pending_of(entries).contains(
                (txs[i].0, entry.height as u32),
            )
            &&& !(1 <= entry.height <= 4294967295) ==> seen_of(entries, start_time).contains(
                (txs[i].0, start_time),
            )
        }),
{
    let entry = histories[i][j];
    let entries = found_entries(txs, histories, n);
    the_first_entry_is_found(histories[i], txs[i].0, j);
    found_entries_hold(txs, histories, n, i, entry);
    let at = choose|at: int| 0 <= at < entries.len() && entries[at] == entry;
    assert(entries[at].txid == txs[i].0);
    confirmed_entries_are_pending(entries, Seq::empty());
    unconfirmed_entries_are_seen(entries, start_time, (txs[i].0, start_time));
}

proof fn found_entries_hold(
    txs: Seq<(Txid, TransactionView)>,
    histories: Seq<Seq<Tx>>,
    n: int,
    i: int,
    entry: Tx,
)
    requires
        0 <= i < n,
        found_entry(histories[i], txs[i].0) == seq![entry],
    ensures
        found_entries(txs, histories, n).contains(entry),
    decreases n,
{
    let before = found_entries(txs, histories, n - 1);
    let after = found_entries(txs, histories, n);
    if i < n - 1 {
        found_entries_hold(txs, histories, n - 1, i, entry);
        let at = choose|at: int| 0 <= at < before.len() && before[at] == entry;
        assert(after[at] == entry);
    } else {
        assert(after[before.len() as int] == entry);
    }
}

/// What is found is for one of the transactions, out of the history for its own script, at most one entry
/// for each, and in their order.
pub proof fn nothing_else_is_found(
    txs: Seq<(Txid, TransactionView)>,
    histories: Seq<Seq<Tx>>,
    n: int,
)
    requires
        0 <= n <= txs.len(),
        n <= histories.len(),
    ensures
        found_entries(txs, histories, n).len() <= n,
        forall|k: int|
            0 <= k < found_entries(txs, histories, n).len() ==> is_found_in_one(
                txs,
                histories,
                n,
                #[trigger] found_entries(txs, histories, n)[k],
            ),
        n > 0 ==> found_entries(txs, histories, n - 1).is_prefix_of(
            found_entries(txs, histories, n),
        ),
    decreases n,
{
    if n > 0 {
        nothing_else_is_found(txs, histories, n - 1);
        the_first_entry_is_found(histories[n - 1], txs[n - 1].0, 0);
        let before = found_entries(txs, histories, n - 1);
        let after = found_entries(txs, histories, n);
        let found = found_entry(histories[n - 1], txs[n - 1].0);
        assert forall|k: int| 0 <= k < after.len() implies is_found_in_one(
            txs,
            histories,
            n,
            #[trigger] after[k],
        ) by {
            if k < before.len() {
                assert(after[k] == before[k]);
                assert(is_found_in_one(txs, histories, n - 1, before[k]));
                let i = choose|i: int|
                    0 <= i < n - 1 && (#[trigger] txs[i]).0 == before[k].txid
                        && histories[i].contains(before[k]);
                assert(txs[i].0 == after[k].txid);
            } else {
                assert(found.len() == 1);
                assert(after[k] == found[0]);
                assert(txs[n - 1].0 == after[k].txid);
            }
        }
    }
}

/// Whether an entry is for one of the first `n` transactions, out of the history for its own script.
pub open spec fn is_found_in_one(
    txs: Seq<(Txid, TransactionView)>,
    histories: Seq<Seq<Tx>>,
    n: int,
    entry: Tx,
) -> bool {
    exists|i: int|
        0 <= i < n && (#[trigger] txs[i]).0 == entry.txid && histories[i].contains(entry)
}

/// The transactions that are looked for in histories are those with an output, in order, and each by the
/// script of its first output.
pub proof fn transactions_are_looked_for_by_their_first_output(
    cache: Map<Txid, TransactionView>,
    txids: Seq<Txid>,
    more: Seq<Txid>,
    i: int,
)
    ensures
        with_an_output(cache, txids + more) == with_an_output(cache, txids) + with_an_output(
            cache,
            more,
        ),
        txids.len() == 1 && cache[txids[0]].output.len() > 0 ==> with_an_output(cache, txids)
            == seq![(txids[0], cache[txids[0]])],
        txids.len() == 1 && cache[txids[0]].output.len() == 0 ==> with_an_output(
            cache,
            txids,
        ).len() == 0,
        first_script_hashes(with_an_output(cache, txids)).len() == with_an_output(
            cache,
            txids,
        ).len(),
        0 <= i < with_an_output(cache, txids).len() ==> {
            let found = with_an_output(cache, txids)[i];
            &&& txids.contains(found.0)
            &&& found.1 == cache[found.0]
            &&& found.1.output.len() > 0
            &&& first_script_hashes(with_an_output(cache, txids))[i] == electrum_script_hash(
                found.1.output[0].script_pubkey,
            )
        },
    decreases more.len(), txids.len(),
{
    if more.len() == 0 {
        assert(txids + more =~= txids);
        assert(with_an_output(cache, txids) + with_an_output(cache, more) =~= with_an_output(
            cache,
            txids,
        ));
        if txids.len() > 0 {
            let init = txids.drop_last();
            transactions_are_looked_for_by_their_first_output(cache, init, more, i);
            if 0 <= i < with_an_output(cache, txids).len() {
                let found = with_an_output(cache, txids)[i];
                if i < with_an_output(cache, init).len() {
                    assert(found == with_an_output(cache, init)[i]);
                    let k = choose|k: int| 0 <= k < init.len() && init[k] == found.0;
                    assert(txids[k] == found.0);
                } else {
                    assert(txids[txids.len() - 1] == found.0);
                }
            }
            if txids.len() == 1 {
                assert(with_an_output(cache, init) =~= Seq::empty());
                assert(txids.last() == txids[0]);
                if cache[txids[0]].output.len() > 0 {
                    assert(with_an_output(cache, txids) =~= seq![(txids[0], cache[txids[0]])]);
                }
            }
        }
    } else {
        transactions_are_looked_for_by_their_first_output(cache, txids, more.drop_last(), i);
        assert((txids + more).drop_last() =~= txids + more.drop_last());
        assert(with_an_output(cache, txids + more) =~= with_an_output(cache, txids)
            + with_an_output(cache, more));
    }
}

/// Every output that a transaction spends, with each of its inputs, is fetched: of each transaction that is
/// no coinbase and is the first one with its id.
pub proof fn every_input_is_fetched(txs: Seq<TransactionView>, n: int, i: int, j: int)
    requires
        0 <= i < n <= txs.len(),
        0 <= j < txs[i].input.len(),
        !(txs[i].input.len() == 1 && txs[i].input[0].previous_output.vout == 0xffff_ffff && (
        forall|b: int|
            0 <= b < 32 ==> #[trigger] txs[i].input[0].previous_output.txid.bytes@[b] == 0)),
        forall|k: int| 0 <= k < i ==> txid_of(#[trigger] txs[k]) != txid_of(txs[i]),
    ensures
        all_prevouts(txs, n).contains(txs[i].input[j].previous_output),
        outpoint_txids(all_prevouts(txs, n)).contains(txs[i].input[j].previous_output.txid),
    decreases n,
{
    let before = all_prevouts(txs, n - 1);
    let after = all_prevouts(txs, n);
    let spent = txs[i].input[j].previous_output;
    if i < n - 1 {
        every_input_is_fetched(txs, n - 1, i, j);
        let k = choose|k: int| 0 <= k < before.len() && before[k] == spent;
        assert(after[k] == spent);
        assert(outpoint_txids(after)[k] == spent.txid);
    } else {
        assert(!is_coinbase_tx(txs[i]));
        assert(is_counted(txs, i));
        assert(prevouts_of(txs[i])[j] == spent);
        assert(after[before.len() + j] == spent);
        assert(outpoint_txids(after)[before.len() + j] == spent.txid);
    }
}

/// Nothing is fetched but what a transaction that is no coinbase spends.
pub proof fn only_inputs_are_fetched(txs: Seq<TransactionView>, n: int, k: int)
    requires
        0 <= n <= txs.len(),
        0 <= k < all_prevouts(txs, n).len(),
    ensures
        exists|i: int|
            0 <= i < n && !is_coinbase_tx(#[trigger] txs[i]) && spends(
                txs[i],
                all_prevouts(txs, n)[k],
            ),
        outpoint_txids(all_prevouts(txs, n))[k] == all_prevouts(txs, n)[k].txid,
        outpoint_txids(all_prevouts(txs, n)).len() == all_prevouts(txs, n).len(),
    decreases n,
{
    if n > 0 {
        let before = all_prevouts(txs, n - 1);
        let spent = all_prevouts(txs, n)[k];
        if k < before.len() {
            only_inputs_are_fetched(txs, n - 1, k);
            let i = choose|i: int|
                0 <= i < n - 1 && !is_coinbase_tx(#[trigger] txs[i]) && spends(txs[i], before[k]);
            assert(!is_coinbase_tx(txs[i]) && spends(txs[i], spent));
        } else {
            assert(txs[n - 1].input[k - before.len()].previous_output == spent);
            assert(!is_coinbase_tx(txs[n - 1]) && spends(txs[n - 1], spent));
        }
    }
}

/// The output of an outpoint is the one at its position in its transaction, where there is one; there is
/// none for any other outpoint.
pub proof fn previous_outputs_are_those_referred_to(
    cache: Map<Txid, TransactionView>,
    outpoints: Seq<OutPoint>,
    outpoint: OutPoint,
)
    ensures
        outpoints.contains(outpoint) && outpoint.vout < cache[outpoint.txid].output.len()
            ==> prev_txouts(cache, outpoints).get(outpoint) == Some(
            cache[outpoint.txid].output[outpoint.vout as int],
        ),
        !outpoints.contains(outpoint) || outpoint.vout >= cache[outpoint.txid].output.len()
            ==> !prev_txouts(cache, outpoints).contains_key(outpoint),
{
}

/// Each outpoint whose transaction is in the cache and has such an output is looked for by the script of
/// that output, in order; no other one is.
pub proof fn outpoints_are_looked_for_by_their_scripts(
    cache: Map<Txid, TransactionView>,
    outpoints: Seq<OutPoint>,
    i: int,
    k: int,
)
    ensures
        0 <= i < outpoints.len() && cache.contains_key(outpoints[i].txid) && outpoints[i].vout
            < cache[outpoints[i].txid].output.len() ==> residing(cache, outpoints).contains(
            OutpointTxView {
                outpoint: outpoints[i],
                spk: cache[outpoints[i].txid].output[outpoints[i].vout as int].script_pubkey,
                tx: cache[outpoints[i].txid],
            },
        ),
        0 <= k < residing(cache, outpoints).len() ==> {
            let op = residing(cache, outpoints)[k];
            &&& outpoints.contains(op.outpoint)
            &&& cache.contains_key(op.outpoint.txid)
            &&& op.tx == cache[op.outpoint.txid]
            &&& op.outpoint.vout < op.tx.output.len()
            &&& op.spk == op.tx.output[op.outpoint.vout as int].script_pubkey
        },
        outpoints.len() > 0 ==> residing(cache, outpoints.drop_last()).is_prefix_of(
            residing(cache, outpoints),
        ),
    decreases outpoints.len(),
{
    if outpoints.len() > 0 {
        let init = outpoints.drop_last();
        let before = residing(cache, init);
        let after = residing(cache, outpoints);
        outpoints_are_looked_for_by_their_scripts(cache, init, i, k);
        if 0 <= i < outpoints.len() && cache.contains_key(outpoints[i].txid) && outpoints[i].vout
            < cache[outpoints[i].txid].output.len() {
            let op = OutpointTxView {
                outpoint: outpoints[i],
                spk: cache[outpoints[i].txid].output[outpoints[i].vout as int].script_pubkey,
                tx: cache[outpoints[i].txid],
            };
            if i < init.len() {
                assert(init[i] == outpoints[i]);
                let at = choose|at: int| 0 <= at < before.len() && before[at] == op;
                assert(after[at] == op);
            } else {
                assert(after[after.len() - 1] == op);
            }
        }
        if 0 <= k < after.len() {
            if k < before.len() {
                assert(after[k] == before[k]);
                let at = choose|at: int| 0 <= at < init.len() && init[at] == before[k].outpoint;
                assert(outpoints[at] == after[k].outpoint);
            } else {
                assert(outpoints[outpoints.len() - 1] == after[k].outpoint);
            }
        }
    }
}

/// Each script of some outpoints is asked about once, and no other one is.
pub proof fn each_script_is_asked_about_once(txs: Seq<OutpointTxView>, i: int, k: int)
    ensures
        different_spks(txs).no_duplicates(),
        0 <= i < txs.len() ==> different_spks(txs).contains(txs[i].spk),
        0 <= k < different_spks(txs).len() ==> exists|j: int|
            0 <= j < txs.len() && (#[trigger] txs[j]).spk == different_spks(txs)[k],
    decreases txs.len(),
{
    if txs.len() > 0 {
        let init = txs.drop_last();
        let before = different_spks(init);
        let after = different_spks(txs);
        each_script_is_asked_about_once(init, i, k);
        if 0 <= i < init.len() {
            assert(init[i] == txs[i]);
            let at = choose|at: int| 0 <= at < before.len() && before[at] == txs[i].spk;
            assert(after[at] == txs[i].spk);
        } else if i == init.len() && !before.contains(txs.last().spk) {
            assert(after[after.len() - 1] == txs[i].spk);
        }
        if 0 <= k < before.len() {
            assert(after[k] == before[k]);
            let j = choose|j: int| 0 <= j < init.len() && (#[trigger] init[j]).spk == before[k];
            assert(txs[j].spk == after[k]);
        } else if 0 <= k < after.len() {
            assert(txs[txs.len() - 1].spk == after[k]);
        }
    }
}

/// The history of a script is the one that came for it.
pub proof fn a_script_has_its_own_history(
    spks: Seq<Seq<u8>>,
    histories: Seq<Seq<Tx>>,
    n: int,
    i: int,
)
    requires
        0 <= i < n <= spks.len(),
        spks.no_duplicates(),
    ensures
        history_of(spks, histories, n, spks[i]) == Some(histories[i]),
    decreases n,
{
    if i < n - 1 {
        a_script_has_its_own_history(spks, histories, n - 1, i);
    }
}

/// Of a history that concerns an outpoint there is the first entry for the transaction in which it resides
/// and the first one for a transaction that spends it, and no other.
pub proof fn what_concerns_an_outpoint(
    cache: Map<Txid, TransactionView>,
    history: Seq<Tx>,
    outpoint: OutPoint,
    i: int,
    k: int,
)
    ensures
        0 <= i < history.len() && history[i].txid == outpoint.txid && (forall|j: int|
            0 <= j < i ==> (#[trigger] history[j]).txid != outpoint.txid) ==> concerning(
            cache,
            history,
            outpoint,
        ).contains(history[i]),
        0 <= i < history.len() && history[i].txid != outpoint.txid && spends(
            cache[history[i].txid],
            outpoint,
        ) && (forall|j: int|
            0 <= j < i && (#[trigger] history[j]).txid != outpoint.txid ==> !spends(
                cache[history[j].txid],
                outpoint,
            )) ==> concerning(cache, history, outpoint).contains(history[i]),
        0 <= k < concerning(cache, history, outpoint).len() ==> {
            let entry = concerning(cache, history, outpoint)[k];
            history.contains(entry) && (entry.txid == outpoint.txid || spends(
                cache[entry.txid],
                outpoint,
            ))
        },
        concerning(cache, history, outpoint).len() <= 2,
        concerning(cache, history, outpoint).len() == (if holds_txid(history, outpoint.txid) {
            1int
        } else {
            0
        }) + (if holds_spender(cache, history, outpoint) {
            1int
        } else {
            0
        }),
    decreases history.len(),
{
    if history.len() > 0 {
        let init = history.drop_last();
        let before = concerning(cache, init, outpoint);
        let after = concerning(cache, history, outpoint);
        let last = history.last();
        what_concerns_an_outpoint(cache, init, outpoint, i, k);
        holds_with_last(history, outpoint.txid);
        spender_with_last(cache, history, outpoint);
        assert forall|j: int| 0 <= j < init.len() implies #[trigger] init[j] == history[j] by {}
        if 0 <= i < init.len() {
            assert(init[i] == history[i]);
            if forall|j: int| 0 <= j < i ==> (#[trigger] history[j]).txid != outpoint.txid {
                assert forall|j: int| 0 <= j < i implies (#[trigger] init[j]).txid
                    != outpoint.txid by {
                    assert(history[j].txid != outpoint.txid);
                }
            }
            if forall|j: int|
                0 <= j < i && (#[trigger] history[j]).txid != outpoint.txid ==> !spends(
                    cache[history[j].txid],
                    outpoint,
                ) {
                assert forall|j: int|
                    0 <= j < i && (#[trigger] init[j]).txid != outpoint.txid implies !spends(
                    cache[init[j].txid],
                    outpoint,
                ) by {
                    assert(history[j].txid != outpoint.txid);
                }
            }
            if before.contains(history[i]) {
                let at = choose|at: int| 0 <= at < before.len() && before[at] == history[i];
                assert(after[at] == history[i]);
            }
        } else if i == history.len() - 1 {
            assert(history[i] == last);
            if after.len() > before.len() {
                assert(after[before.len() as int] == last);
            }
        }
        if 0 <= k < after.len() {
            if k < before.len() {
                assert(after[k] == before[k]);
                let at = choose|at: int| 0 <= at < init.len() && init[at] == before[k];
                assert(history[at] == after[k]);
            } else {
                assert(history[history.len() - 1] == after[k]);
            }
        }
    }
}

proof fn holds_with_last(history: Seq<Tx>, txid: Txid)
    requires
        history.len() > 0,
    ensures
        holds_txid(history, txid) == (holds_txid(history.drop_last(), txid) || history.last().txid
            == txid),
{
    let init = history.drop_last();
    if holds_txid(history, txid) {
        let i = choose|i: int| 0 <= i < history.len() && (#[trigger] history[i]).txid == txid;
        if i < init.len() {
            assert(init[i].txid == txid);
        }
    }
    if holds_txid(init, txid) {
        let i = choose|i: int| 0 <= i < init.len() && (#[trigger] init[i]).txid == txid;
        assert(history[i].txid == txid);
    }
    if history.last().txid == txid {
        assert(history[history.len() - 1].txid == txid);
    }
}

proof fn spender_with_last(
    cache: Map<Txid, TransactionView>,
    history: Seq<Tx>,
    outpoint: OutPoint,
)
    requires
        history.len() > 0,
    ensures
        holds_spender(cache, history, outpoint) == (holds_spender(
            cache,
            history.drop_last(),
            outpoint,
        ) || (history.last().txid != outpoint.txid && spends(
            cache[history.last().txid],
            outpoint,
        ))),
{
    let init = history.drop_last();
    if holds_spender(cache, history, outpoint) {
        let i = choose|i: int|
            0 <= i < history.len() && (#[trigger] history[i]).txid != outpoint.txid && spends(
                cache[history[i].txid],
                outpoint,
            );
        if i < init.len() {
            assert(init[i].txid != outpoint.txid);
        }
    }
    if holds_spender(cache, init, outpoint) {
        let i = choose|i: int|
            0 <= i < init.len() && (#[trigger] init[i]).txid != outpoint.txid && spends(
                cache[init[i].txid],
                outpoint,
            );
        assert(history[i].txid != outpoint.txid);
    }
    if history.last().txid != outpoint.txid && spends(cache[history.last().txid], outpoint) {
        assert(history[history.len() - 1].txid != outpoint.txid);
    }
}

/// What the history of its script says of each outpoint is found: the entries for the transaction in which
/// it resides and for the one that spends it, each with its transaction.
pub proof fn each_outpoint_has_its_own_history(
    cache: Map<Txid, TransactionView>,
    ops: Seq<OutpointTxView>,
    spks: Seq<Seq<u8>>,
    histories: Seq<Seq<Tx>>,
    total: int,
    n: int,
    k: int,
    h: int,
    i: int,
)
    requires
        0 <= k < n <= ops.len(),
        0 <= h < total <= spks.len(),
        spks.no_duplicates(),
        spks[h] == ops[k].spk,
        0 <= i < histories[h].len(),
    ensures
        ({
            let history = histories[h];
            let entry = history[i];
            let outpoint = ops[k].outpoint;
            let entries = outpoint_entries(cache, ops, spks, histories, total, n);
            let txs = outpoint_txs_of(cache, ops, spks, histories, total, n);
            &&& entry.txid == outpoint.txid && (forall|j: int|
                0 <= j < i ==> (#[trigger] history[j]).txid != outpoint.txid) ==> entries.contains(
                entry,
            ) && txs.contains(ops[k].tx)
            &&& entry.txid != outpoint.txid && spends(cache[entry.txid], outpoint) && (forall|
                j: int,
            |
                0 <= j < i && (#[trigger] history[j]).txid != outpoint.txid ==> !spends(
                    cache[history[j].txid],
                    outpoint,
                )) ==> entries.contains(entry) && txs.contains(cache[entry.txid])
        }),
{
    a_script_has_its_own_history(spks, histories, total, h);
    let history = histories[h];
    let outpoint = ops[k].outpoint;
    what_concerns_an_outpoint(cache, history, outpoint, i, 0);
    if concerning(cache, history, outpoint).contains(history[i]) {
        concerning_entries_are_found(cache, ops, spks, histories, total, n, k, history[i]);
    }
}

proof fn concerning_entries_are_found(
    cache: Map<Txid, TransactionView>,
    ops: Seq<OutpointTxView>,
    spks: Seq<Seq<u8>>,
    histories: Seq<Seq<Tx>>,
    total: int,
    n: int,
    k: int,
    entry: Tx,
)
    requires
        0 <= k < n,
        concerning(
            cache,
            outpoint_history(ops[k], spks, histories, total),
            ops[k].outpoint,
        ).contains(entry),
    ensures
        outpoint_entries(cache, ops, spks, histories, total, n).contains(entry),
        outpoint_txs_of(cache, ops, spks, histories, total, n).contains(
            if entry.txid == ops[k].outpoint.txid {
                ops[k].tx
            } else {
                cache[entry.txid]
            },
        ),
    decreases n,
{
    let tx = if entry.txid == ops[k].outpoint.txid {
        ops[k].tx
    } else {
        cache[entry.txid]
    };
    let before = outpoint_entries(cache, ops, spks, histories, total, n - 1);
    let after = outpoint_entries(cache, ops, spks, histories, total, n);
    let txs_before = outpoint_txs_of(cache, ops, spks, histories, total, n - 1);
    let txs_after = outpoint_txs_of(cache, ops, spks, histories, total, n);
    if k < n - 1 {
        concerning_entries_are_found(cache, ops, spks, histories, total, n - 1, k, entry);
        let a = choose|a: int| 0 <= a < before.len() && before[a] == entry;
        assert(after[a] == entry);
        let b = choose|b: int| 0 <= b < txs_before.len() && txs_before[b] == tx;
        assert(txs_after[b] == tx);
    } else {
        let found = concerning(
            cache,
            outpoint_history(ops[k], spks, histories, total),
            ops[k].outpoint,
        );
        let a = choose|a: int| 0 <= a < found.len() && found[a] == entry;
        assert(after[before.len() + a] == entry);
        assert(concerned_txs(cache, found, ops[k])[a] == tx);
        assert(txs_after[txs_before.len() + a] == tx);
    }
}

/// The transaction that is fetched first is the first of a list that is not in the cache.
pub proof fn the_first_missing_one_is_fetched(
    cache: Map<Txid, TransactionView>,
    txids: Seq<Txid>,
    i: int,
)
    requires
        0 <= i < txids.len(),
        !cache.contains_key(txids[i]),
        forall|k: int| 0 <= k < i ==> cache.contains_key(#[trigger] txids[k]),
    ensures
        forall|missing: Txid| #[trigger]
            is_first_missing(cache, txids, missing) <==> missing == txids[i],
        !all_cached(cache, txids),
{
    assert forall|missing: Txid| #[trigger] is_first_missing(cache, txids, missing) <==> missing
        == txids[i] by {
        if is_first_missing(cache, txids, missing) {
            let j = choose|j: int|
                0 <= j < txids.len() && #[trigger] txids[j] == missing && !cache.contains_key(
                    missing,
                ) && all_cached(cache, txids.take(j));
            if j > i {
                assert(txids.take(j)[i] == txids[i]);
            }
            if j < i {
                assert(cache.contains_key(txids[j]));
            }
        }
        if missing == txids[i] {
            assert forall|k: int| 0 <= k < txids.take(i).len() implies cache.contains_key(
                #[trigger] txids.take(i)[k],
            ) by {
                assert(cache.contains_key(txids[k]));
            }
        }
    }
}

/// The transaction of an entry is waited for where it may be the one that spends an outpoint: it is not the
/// one in which the outpoint resides, and those of all entries before are known and spend it not. Once one
/// that spends it is known, no later one is waited for.
pub proof fn possible_spenders_are_waited_for(
    cache: Map<Txid, TransactionView>,
    history: Seq<Tx>,
    outpoint: OutPoint,
    i: int,
)
    requires
        0 <= i < history.len(),
        history[i].txid != outpoint.txid,
        forall|j: int|
            0 <= j < i && (#[trigger] history[j]).txid != outpoint.txid ==> cache.contains_key(
                history[j].txid,
            ) && !spends(cache[history[j].txid], outpoint),
    ensures
        !cache.contains_key(history[i].txid) ==> !candidates_cached(cache, history, outpoint),
        !cache.contains_key(history[i].txid) ==> is_missing_candidate(
            cache,
            history,
            outpoint,
            history[i].txid,
        ),
        cache.contains_key(history[i].txid) && spends(cache[history[i].txid], outpoint)
            ==> candidates_cached(cache, history, outpoint),
{
    let before = history.take(i);
    assert forall|j: int| 0 <= j < before.len() implies #[trigger] before[j] == history[j] by {}
    assert(!holds_spender(cache, before, outpoint)) by {
        if holds_spender(cache, before, outpoint) {
            let j = choose|j: int|
                0 <= j < before.len() && (#[trigger] before[j]).txid != outpoint.txid && spends(
                    cache[before[j].txid],
                    outpoint,
                );
            assert(history[j].txid != outpoint.txid);
        }
    }
    assert(is_candidate(cache, history, outpoint, i));
    assert(candidates_cached(cache, before, outpoint)) by {
        assert forall|j: int|
            0 <= j < before.len() && #[trigger] is_candidate(
                cache,
                before,
                outpoint,
                j,
            ) implies cache.contains_key(before[j].txid) by {
            assert(history[j].txid != outpoint.txid);
        }
    }
    if cache.contains_key(history[i].txid) && spends(cache[history[i].txid], outpoint) {
        assert forall|j: int|
            0 <= j < history.len() && #[trigger] is_candidate(
                cache,
                history,
                outpoint,
                j,
            ) implies cache.contains_key(history[j].txid) by {
            if j > i {
                assert(history.take(j)[i] == history[i]);
                assert(holds_spender(cache, history.take(j), outpoint));
            }
        }
    }
}

/// Where no transaction of a history spends an outpoint, all are looked at but the one in which it resides.
pub proof fn a_history_without_a_spender_is_looked_through(
    cache: Map<Txid, TransactionView>,
    history: Seq<Tx>,
    outpoint: OutPoint,
)
    requires
        forall|j: int|
            0 <= j < history.len() && (#[trigger] history[j]).txid != outpoint.txid
                ==> cache.contains_key(history[j].txid),
    ensures
        candidates_cached(cache, history, outpoint),
{
}

/// Lists are seen item by item and in order.
pub proof fn lists_are_seen_item_by_item(
    txs: Seq<(Txid, Arc<Transaction>)>,
    ops: Seq<OutpointTx>,
    scripts: Seq<Vec<u8>>,
    found: Seq<(Txid, TransactionView)>,
    cache: Map<Txid, TransactionView>,
    txids: Seq<Txid>,
    i: int,
)
    ensures
        identified_views(txs).len() == txs.len(),
        0 <= i < txs.len() ==> identified_views(txs)[i] == (txs[i].0, txs[i].1@),
        outpoint_views(ops).len() == ops.len(),
        0 <= i < ops.len() ==> outpoint_views(ops)[i] == ops[i]@,
        script_views(scripts).len() == scripts.len(),
        0 <= i < scripts.len() ==> script_views(scripts)[i] == scripts[i]@,
        without_ids(found).len() == found.len(),
        0 <= i < found.len() ==> without_ids(found)[i] == found[i].1,
        from_cache(cache, txids).len() == txids.len(),
        0 <= i < txids.len() ==> from_cache(cache, txids)[i] == cache[txids[i]],
{
}

/// The history of a script is one of those that came for such a script; a script that nothing came for has
/// none.
pub proof fn a_history_is_one_that_came(
    spks: Seq<Seq<u8>>,
    histories: Seq<Seq<Tx>>,
    n: int,
    spk: Seq<u8>,
)
    ensures
        history_of(spks, histories, n, spk) is Some ==> exists|i: int|
            0 <= i < n && spks[i] == spk && #[trigger] histories[i] == history_of(
                spks,
                histories,
                n,
                spk,
            )->0,
        (forall|i: int| 0 <= i < n ==> #[trigger] spks[i] != spk) ==> history_of(
            spks,
            histories,
            n,
            spk,
        ) is None,
    decreases n,
{
    if n > 0 {
        a_history_is_one_that_came(spks, histories, n - 1, spk);
        if spks[n - 1] == spk {
            assert(histories[n - 1] == history_of(spks, histories, n, spk)->0);
        } else if history_of(spks, histories, n - 1, spk) is Some {
            let i = choose|i: int|
                0 <= i < n - 1 && spks[i] == spk && #[trigger] histories[i] == history_of(
                    spks,
                    histories,
                    n - 1,
                    spk,
                )->0;
            assert(histories[i] == history_of(spks, histories, n, spk)->0);
        }
    }
}

/// A transaction counts once: a coinbase, or another one with the id of an earlier one that is no coinbase,
/// brings nothing to be fetched, and any other one brings as much as it has inputs, in their order.
pub proof fn each_transaction_is_fetched_for_once(txs: Seq<TransactionView>, n: int, i: int, j: int)
    requires
        0 < n <= txs.len(),
    ensures
        is_coinbase_tx(txs[n - 1]) ==> all_prevouts(txs, n) == all_prevouts(txs, n - 1),
        0 <= i < n - 1 && !is_coinbase_tx(txs[i]) && txid_of(txs[i]) == txid_of(txs[n - 1])
            ==> all_prevouts(txs, n) == all_prevouts(txs, n - 1),
        !is_coinbase_tx(txs[n - 1]) && (forall|k: int|
            0 <= k < n - 1 ==> txid_of(#[trigger] txs[k]) != txid_of(txs[n - 1])) ==> {
            let before = all_prevouts(txs, n - 1);
            let after = all_prevouts(txs, n);
            &&& before.is_prefix_of(after)
            &&& after.len() == before.len() + txs[n - 1].input.len()
            &&& 0 <= j < txs[n - 1].input.len() ==> after[before.len() + j]
                == txs[n - 1].input[j].previous_output
        },
{
    if 0 <= i < n - 1 && !is_coinbase_tx(txs[i]) && txid_of(txs[i]) == txid_of(txs[n - 1]) {
        assert(!is_counted(txs, n - 1));
    }
}

/// A transaction that is waited for is listed in the history, is not known, and is not the one in which the
/// outpoint resides.
pub proof fn a_possible_spender_is_listed(
    cache: Map<Txid, TransactionView>,
    history: Seq<Tx>,
    outpoint: OutPoint,
    missing: Txid,
)
    requires
        is_missing_candidate(cache, history, outpoint, missing),
    ensures
        holds_txid(history, missing),
        !cache.contains_key(missing),
        missing != outpoint.txid,
{
    let i = choose|i: int|
        0 <= i < history.len() && #[trigger] is_candidate(cache, history, outpoint, i)
            && history[i].txid == missing && !cache.contains_key(missing) && candidates_cached(
            cache,
            history.take(i),
            outpoint,
        );
    assert(history[i].txid == missing);
}

} // verus!
