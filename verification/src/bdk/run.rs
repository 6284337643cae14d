//! A whole sync or full scan, from the comparison of tips to the response.
//!
//! A run is asked what it needs next, and told what the server answered. Between two answers it goes
//! as far as it can be gone with what is in the caches of the client.
use bdk_core::CheckPoint;
use vstd::prelude::*;

use crate::bdk::anchors::{
    anchor_caches, anchor_start, anchor_step, is_asked, AnchorAsk, AnchorCaches, AnchorEvent,
    AnchorFetch, AnchorView,
};
use crate::bdk::client::BdkElectrumClient;
use crate::bdk::constant::CHAIN_SUFFIX_LENGTH;
use crate::bdk::populate::{
    a_history_is_one_that_came, a_history_without_a_spender_is_looked_through,
    a_script_has_its_own_history, all_cached, all_prevouts, candidates_cached, different_spks, each_outpoint_has_its_own_history,
    each_script_is_asked_about_once, each_transaction_has_its_own_history, every_input_is_fetched,
    first_script_hashes, found_entries, hashes_of_scripts, identified_views, is_first_missing,
    is_missing_candidate, outpoint_entries, outpoint_history, outpoint_txids, outpoint_txs_of,
    outpoint_views, outpoints_are_looked_for_by_their_scripts, outpoints_ready,
    populate_with_txids, possible_spenders_are_waited_for, prev_txouts,
    previous_outputs_are_those_referred_to, residing, script_views, spends,
    transactions_are_looked_for_by_their_first_output, unique_spks, with_an_output, without_ids,
    OutpointTx, OutpointTxView, TxidScripts,
};
use crate::bdk::response::{
    add_anchors, chain_of, compared_chain, note_last_active, swapped, with_last_active,
    FullScanResponse, SyncResponse,
};
use crate::bdk::scan::{
    apply_history, confirmed_entries_are_pending, histories_of, pending_of, txids_of,
    unconfirmed_entries_are_seen, with_seen, SpkWithExpectedTxids,
};
use crate::bdk::spk_run::{
    entry_txids, is_spk_ask, spk_rest, spk_start, with_cached_txs, with_histories, with_spks,
    SpkAsk, SpkRun, SpkRunView, SpkState, SpkWaitView,
};
use crate::bdk::tip::{header_hashes, tip_outcome, tip_wait, TipFetch, TipStep, TipWait};
use crate::chain::{block_hash_of, checkpoint_blocks, tip_blocks, ConfirmationBlockTime, Header};
use crate::electrum::error::Error;
use crate::electrum::types::Tx;
use crate::hash::{electrum_script_hash, BlockHash, ElectrumScriptHash, Hash256, Txid};
use crate::ordered::{Key, OrderedMap};
use crate::tx::{
    empty_update, is_coinbase_tx, txid_of, OutPoint, Transaction, TransactionView, TxUpdate,
    TxUpdateView,
};

verus! {

/// What a client has in its caches.
pub struct Caches {
    /// Transactions by id.
    pub txs: Map<Txid, TransactionView>,
    /// Headers and anchors.
    pub anchors: AnchorCaches,
}

/// What a client has in its caches.
pub open spec fn caches_of<C>(client: BdkElectrumClient<C>) -> Caches {
    Caches { txs: client.txs(), anchors: anchor_caches(client) }
}

/// What is asked for, and what was found out.
#[verifier::reject_recursive_types(KV)]
pub struct RunData<KV> {
    /// The time at which transactions are seen or found to be gone.
    pub start_time: u64,
    /// How many scripts in a row are without history at the end of a keychain.
    pub stop_gap: nat,
    /// How much is asked for at once.
    pub batch_size: nat,
    /// Whether what transactions spend is fetched too.
    pub fetch_prev_txouts: bool,
    /// The keychains.
    pub keychains: Seq<KV>,
    /// Transactions that are looked for by their ids.
    pub txids: Seq<Txid>,
    /// Outpoints that are looked for.
    pub outpoints: Seq<OutPoint>,
    /// What was found out about transactions.
    pub update: TxUpdateView,
    /// Confirmed transactions, whose anchors are not known yet.
    pub pending: Seq<(Txid, u32)>,
    /// How far keychains are used.
    pub last_active: Map<KV, u32>,
    /// The chain and the latest blocks, once tips were compared.
    pub chain: Option<(Map<u32, Hash256>, Map<u32, Hash256>)>,
}

/// Where a run stands.
#[allow(inconsistent_fields)]
pub enum StageView {
    /// The tip of the server is compared with the tip that is known.
    Tip {
        /// The chain that is known.
        chain: Map<u32, Hash256>,
        /// The height of the tip of the server, once it is known.
        tip: Option<u32>,
        /// The latest blocks, once they are known.
        latest: Option<Map<u32, Hash256>>,
    },
    /// The scripts of a keychain are looked up.
    Spks {
        /// The position of the keychain.
        at: nat,
        /// How far it is scanned.
        run: SpkRunView,
    },
    /// Transactions that are looked for by their ids are fetched.
    Txids,
    /// The histories of scripts of these transactions are waited for.
    TxidHistories(Seq<(Txid, TransactionView)>),
    /// The transactions in which outpoints reside are fetched.
    Outpoints {
        /// The position of the outpoint.
        at: nat,
        /// The outpoints before it whose transactions could be fetched.
        found: Seq<OutPoint>,
    },
    /// The histories of the scripts of outpoints are waited for.
    OutpointHistories(Seq<OutpointTxView>),
    /// Transactions that may spend outpoints are fetched.
    OutpointTxs {
        /// The outpoints.
        ops: Seq<OutpointTxView>,
        /// The histories of their scripts.
        histories: Seq<Seq<Tx>>,
    },
    /// What transactions spend is fetched.
    PrevTxouts,
    /// Anchors are fetched.
    Anchors(AnchorView),
    /// The response can be made.
    Done,
    /// Something that is needed could not be had.
    Failed(Error),
}

/// What is asked for, what was found out, and where the run stands.
#[verifier::reject_recursive_types(KV)]
pub struct RunView<KV> {
    /// What is asked for, and what was found out.
    pub data: RunData<KV>,
    /// Where the run stands.
    pub stage: StageView,
}

/// Anchors are fetched; once that is done they are part of the update, and the run is at its end.
pub open spec fn at_anchors<KV>(data: RunData<KV>, anchors: AnchorView) -> RunView<KV> {
    if anchors.wait is Done {
        RunView {
            data: RunData {
                update: TxUpdateView {
                    anchors: data.update.anchors.union(swapped(anchors.results)),
                    ..data.update
                },
                ..data
            },
            stage: StageView::Done,
        }
    } else {
        RunView { data, stage: StageView::Anchors(anchors) }
    }
}

/// Anchors are fetched where a transaction is pending.
pub open spec fn to_anchors<KV>(data: RunData<KV>, caches: Caches) -> RunView<KV> {
    if data.pending.len() == 0 {
        RunView { data, stage: StageView::Done }
    } else {
        at_anchors(
            RunData { pending: Seq::empty(), ..data },
            anchor_start(data.pending, data.batch_size, caches.anchors),
        )
    }
}

/// Previous outputs are fetched for fee calculation if the flag is enabled.
pub open spec fn to_prev_txouts<KV>(data: RunData<KV>, caches: Caches) -> RunView<KV> {
    let outpoints = all_prevouts(data.update.txs, data.update.txs.len() as int);
    if !data.fetch_prev_txouts {
        to_anchors(data, caches)
    } else if all_cached(caches.txs, outpoint_txids(outpoints)) {
        to_anchors(
            RunData {
                update: TxUpdateView {
                    txouts: data.update.txouts.union_prefer_right(
                        prev_txouts(caches.txs, outpoints),
                    ),
                    ..data.update
                },
                ..data
            },
            caches,
        )
    } else {
        RunView { data, stage: StageView::PrevTxouts }
    }
}

/// How many scripts of some outpoints come with a history.
pub open spec fn outpoint_total(ops: Seq<OutpointTxView>, histories: Seq<Seq<Tx>>) -> int {
    if different_spks(ops).len() < histories.len() {
        different_spks(ops).len() as int
    } else {
        histories.len() as int
    }
}

/// Whether each transaction that has to be looked at for outpoints is in a cache.
pub open spec fn is_ready(
    cache: Map<Txid, TransactionView>,
    ops: Seq<OutpointTxView>,
    histories: Seq<Seq<Tx>>,
) -> bool {
    outpoints_ready(
        cache,
        ops,
        different_spks(ops),
        histories,
        outpoint_total(ops, histories),
        ops.len() as int,
    )
}

/// What was found out, with the transactions that concern some outpoints.
pub open spec fn with_outpoints<KV>(
    data: RunData<KV>,
    cache: Map<Txid, TransactionView>,
    ops: Seq<OutpointTxView>,
    histories: Seq<Seq<Tx>>,
) -> RunData<KV> {
    let spks = different_spks(ops);
    let total = outpoint_total(ops, histories);
    let n = ops.len() as int;
    let entries = outpoint_entries(cache, ops, spks, histories, total, n);
    RunData {
        update: with_seen(
            TxUpdateView {
                txs: data.update.txs + outpoint_txs_of(cache, ops, spks, histories, total, n),
                ..data.update
            },
            entries,
            data.start_time,
        ),
        pending: data.pending + pending_of(entries),
        ..data
    }
}

/// The histories of the scripts of outpoints are there.
pub open spec fn to_outpoint_txs<KV>(
    data: RunData<KV>,
    caches: Caches,
    ops: Seq<OutpointTxView>,
    histories: Seq<Seq<Tx>>,
) -> RunView<KV> {
    if is_ready(caches.txs, ops, histories) {
        to_prev_txouts(with_outpoints(data, caches.txs, ops, histories), caches)
    } else {
        RunView { data, stage: StageView::OutpointTxs { ops, histories } }
    }
}

/// The transactions of outpoints are there, as far as they can be had.
pub open spec fn to_outpoint_histories<KV>(
    data: RunData<KV>,
    caches: Caches,
    found: Seq<OutPoint>,
) -> RunView<KV> {
    let ops = residing(caches.txs, found);
    if ops.len() == 0 {
        to_prev_txouts(data, caches)
    } else {
        RunView { data, stage: StageView::OutpointHistories(ops) }
    }
}

/// The transactions of outpoints are fetched one after the other.
pub open spec fn to_outpoints<KV>(
    data: RunData<KV>,
    caches: Caches,
    at: nat,
    found: Seq<OutPoint>,
) -> RunView<KV>
    decreases data.outpoints.len() - at,
{
    if at >= data.outpoints.len() {
        to_outpoint_histories(data, caches, found)
    } else {
        let outpoint = data.outpoints[at as int];
        if caches.txs.contains_key(outpoint.txid) {
            to_outpoints(data, caches, at + 1, found.push(outpoint))
        } else {
            RunView { data, stage: StageView::Outpoints { at, found } }
        }
    }
}

/// Transactions that are looked for by their ids are fetched.
pub open spec fn to_txids<KV>(data: RunData<KV>, caches: Caches) -> RunView<KV> {
    if all_cached(caches.txs, data.txids) {
        let found = with_an_output(caches.txs, data.txids);
        if found.len() == 0 {
            to_outpoints(data, caches, 0, Seq::empty())
        } else {
            RunView { data, stage: StageView::TxidHistories(found) }
        }
    } else {
        RunView { data, stage: StageView::Txids }
    }
}

/// The keychains are scanned one after the other.
pub open spec fn to_keychain<KV>(data: RunData<KV>, caches: Caches, at: nat) -> RunView<KV> {
    if at < data.keychains.len() {
        RunView { data, stage: StageView::Spks { at, run: spk_start() } }
    } else {
        to_txids(data, caches)
    }
}

/// How far a run goes with what is in the caches.
pub open spec fn advanced<KV>(state: RunView<KV>, caches: Caches) -> RunView<KV> {
    match state.stage {
        StageView::Tip { chain, tip, latest } => if tip_wait(chain, tip, latest) is Done {
            to_keychain(
                RunData { chain: Some(tip_outcome(chain, tip, latest)), ..state.data },
                caches,
                0,
            )
        } else {
            state
        },
        StageView::Spks { at, run } => {
            let (run, update) = with_cached_txs(run, state.data.update, caches.txs);
            let data = RunData { update, ..state.data };
            if run.wait is Done {
                to_keychain(
                    RunData {
                        last_active: with_last_active(
                            data.last_active,
                            data.keychains[at as int],
                            run.scan.last_active_index,
                        ),
                        ..data
                    },
                    caches,
                    at + 1,
                )
            } else {
                RunView { data, stage: StageView::Spks { at, run } }
            }
        },
        StageView::Txids => to_txids(state.data, caches),
        StageView::Outpoints { at, found } => to_outpoints(state.data, caches, at, found),
        StageView::OutpointTxs { ops, histories } => to_outpoint_txs(
            state.data,
            caches,
            ops,
            histories,
        ),
        StageView::PrevTxouts => to_prev_txouts(state.data, caches),
        StageView::Anchors(anchors) => at_anchors(state.data, anchors),
        _ => state,
    }
}

/// What a run needs next.
#[allow(inconsistent_fields)]
pub enum RunAsk {
    /// The height of the tip of the server.
    Tip,
    /// Some consecutive block headers.
    Headers {
        /// Height of the first one.
        start_height: u32,
        /// How many.
        count: u32,
    },
    /// A block header.
    Header {
        /// Its height.
        height: u32,
    },
    /// The next scripts of a keychain.
    Spks {
        /// The position of the keychain.
        keychain: usize,
        /// How many, at most.
        count: usize,
    },
    /// The histories of some scripts.
    Histories(Vec<ElectrumScriptHash>),
    /// A transaction.
    Tx(Txid),
    /// Headers or proofs for anchors.
    Anchors(AnchorAsk),
    /// Nothing: the response can be made.
    Done,
    /// Nothing: something that is needed could not be had.
    Failed,
}

/// The hashes of some scripts.
pub open spec fn spk_hashes(spks: Seq<Seq<u8>>) -> Seq<ElectrumScriptHash> {
    spks.map_values(|spk: Seq<u8>| electrum_script_hash(spk))
}

/// Whether a transaction is the first that has to be looked at for outpoints and is not in a cache.
pub open spec fn is_missing_spender(
    cache: Map<Txid, TransactionView>,
    ops: Seq<OutpointTxView>,
    histories: Seq<Seq<Tx>>,
    txid: Txid,
) -> bool {
    let spks = different_spks(ops);
    let total = outpoint_total(ops, histories);
    exists|k: int|
        0 <= k < ops.len() && outpoints_ready(cache, ops, spks, histories, total, k)
            && is_missing_candidate(
            cache,
            outpoint_history(#[trigger] ops[k], spks, histories, total),
            ops[k].outpoint,
            txid,
        )
}

/// Whether this is what a run needs next.
pub open spec fn is_run_ask<KV>(state: RunView<KV>, caches: Caches, ask: RunAsk) -> bool {
    match ask {
        RunAsk::Tip => match state.stage {
            StageView::Tip { chain, tip, latest } => tip_wait(chain, tip, latest) is Tip,
            _ => false,
        },
        RunAsk::Headers { start_height, count } => match state.stage {
            StageView::Tip { chain, tip, latest } => tip_wait(chain, tip, latest)
                == TipWait::Headers(start_height) && count == CHAIN_SUFFIX_LENGTH,
            _ => false,
        },
        RunAsk::Header { height } => match state.stage {
            StageView::Tip { chain, tip, latest } => tip_wait(chain, tip, latest)
                == TipWait::Header(height),
            _ => false,
        },
        RunAsk::Spks { keychain, count } => match state.stage {
            StageView::Spks { at, run } => run.wait is Spks && keychain == at && count
                == state.data.batch_size,
            _ => false,
        },
        RunAsk::Histories(hashes) => match state.stage {
            StageView::Spks { at, run } => is_spk_ask(run, caches.txs, SpkAsk::Histories(hashes)),
            StageView::TxidHistories(txs) => hashes@ == first_script_hashes(txs),
            StageView::OutpointHistories(ops) => hashes@ == spk_hashes(different_spks(ops)),
            _ => false,
        },
        RunAsk::Tx(txid) => match state.stage {
            StageView::Spks { at, run } => is_spk_ask(run, caches.txs, SpkAsk::Tx(txid)),
            StageView::Txids => is_first_missing(caches.txs, state.data.txids, txid),
            StageView::Outpoints { at, found } => at < state.data.outpoints.len()
                && state.data.outpoints[at as int].txid == txid && !caches.txs.contains_key(txid),
            StageView::OutpointTxs { ops, histories } => is_missing_spender(
                caches.txs,
                ops,
                histories,
                txid,
            ),
            StageView::PrevTxouts => is_first_missing(
                caches.txs,
                outpoint_txids(
                    all_prevouts(state.data.update.txs, state.data.update.txs.len() as int),
                ),
                txid,
            ),
            _ => false,
        },
        RunAsk::Anchors(ask) => match state.stage {
            StageView::Anchors(anchors) => is_asked(anchors, ask),
            _ => false,
        },
        RunAsk::Done => state.stage is Done,
        RunAsk::Failed => state.stage is Failed,
    }
}

/// What a run is told.
pub enum RunReply {
    /// The height of the tip of the server.
    Tip(Result<u32, Error>),
    /// Some consecutive block headers.
    Headers(Result<Vec<Header>, Error>),
    /// A block header.
    Header(Result<Header, Error>),
    /// The next scripts of a keychain, with their indices.
    Spks(Vec<(u32, SpkWithExpectedTxids)>),
    /// The histories of some scripts.
    Histories(Result<Vec<Vec<Tx>>, Error>),
    /// The transaction with an id.
    Tx(Txid, Result<Transaction, Error>),
    /// Headers or proofs for anchors.
    Anchors(AnchorEvent),
}

/// Why something could not be had, where it could not be.
pub open spec fn failure_of(reply: RunReply) -> Option<Error> {
    match reply {
        RunReply::Tip(Err(e)) => Some(e),
        RunReply::Headers(Err(e)) => Some(e),
        RunReply::Header(Err(e)) => Some(e),
        RunReply::Histories(Err(e)) => Some(e),
        RunReply::Tx(_, Err(e)) => Some(e),
        _ => None,
    }
}

/// Where a run stands when something could not be had: it has failed, but goes on without a
/// transaction in which an outpoint resides. A run that is at its end is not affected.
pub open spec fn without_reply(
    stage: StageView,
    outpoints: nat,
    reply: RunReply,
    e: Error,
) -> StageView {
    match stage {
        StageView::Outpoints { at, found } => if !(reply is Tx) {
            StageView::Failed(e)
        } else if at < outpoints {
            StageView::Outpoints { at: at + 1, found }
        } else {
            stage
        },
        StageView::Anchors(anchors) => stage,
        StageView::Done => stage,
        StageView::Failed(e) => stage,
        _ => StageView::Failed(e),
    }
}

/// Whether a run may be waiting for a transaction.
pub open spec fn takes_txs(stage: StageView) -> bool {
    match stage {
        StageView::Spks { at, run } => true,
        StageView::Txids => true,
        StageView::Outpoints { at, found } => true,
        StageView::OutpointTxs { ops, histories } => true,
        StageView::PrevTxouts => true,
        _ => false,
    }
}

/// What is known of the server, with what it answered.
pub open spec fn tip_step(
    chain: Map<u32, Hash256>,
    tip: Option<u32>,
    latest: Option<Map<u32, Hash256>>,
    reply: RunReply,
) -> StageView {
    match (tip_wait(chain, tip, latest), reply) {
        (TipWait::Tip, RunReply::Tip(Ok(height))) => StageView::Tip {
            chain,
            tip: Some(height),
            latest,
        },
        (TipWait::Headers(start), RunReply::Headers(Ok(headers))) => StageView::Tip {
            chain,
            tip,
            latest: Some(header_hashes(start, headers@)),
        },
        (TipWait::Header(height), RunReply::Header(Ok(header))) => StageView::Tip {
            chain,
            tip,
            latest: match latest {
                Some(blocks) => Some(blocks.insert(height, block_hash_of(header))),
                None => None,
            },
        },
        _ => StageView::Tip { chain, tip, latest },
    }
}

/// How many transactions come with a history.
pub open spec fn txid_total(
    txs: Seq<(Txid, TransactionView)>,
    histories: Seq<Seq<Tx>>,
) -> int {
    if txs.len() < histories.len() {
        txs.len() as int
    } else {
        histories.len() as int
    }
}

/// What was found out, with transactions that were looked for by their ids.
pub open spec fn with_txids<KV>(
    data: RunData<KV>,
    txs: Seq<(Txid, TransactionView)>,
    histories: Seq<Seq<Tx>>,
) -> RunData<KV> {
    let total = txid_total(txs, histories);
    let entries = found_entries(txs, histories, total);
    RunData {
        update: with_seen(
            TxUpdateView {
                txs: data.update.txs + without_ids(txs).take(total),
                ..data.update
            },
            entries,
            data.start_time,
        ),
        pending: data.pending + pending_of(entries),
        ..data
    }
}

/// How an answer changes a run. An answer to something that is not waited for changes nothing.
pub open spec fn run_step<KV>(state: RunView<KV>, caches: Caches, reply: RunReply) -> (
    RunView<KV>,
    Caches,
) {
    match (failure_of(reply), state.stage, reply) {
        (Some(e), stage, _) => (
            RunView { stage: without_reply(stage, state.data.outpoints.len(), reply, e), ..state },
            caches,
        ),
        (None, StageView::Tip { chain, tip, latest }, _) => (
            RunView { stage: tip_step(chain, tip, latest, reply), ..state },
            caches,
        ),
        (None, StageView::Spks { at, run }, RunReply::Spks(spks)) => (
            RunView { stage: StageView::Spks { at, run: with_spks(run, spks@) }, ..state },
            caches,
        ),
        (None, StageView::Spks { at, run }, RunReply::Histories(Ok(histories))) => {
            let next = with_histories(
                SpkState { run, update: state.data.update, pending: state.data.pending },
                histories@,
                state.data.start_time,
                state.data.stop_gap,
            );
            (
                RunView {
                    data: RunData { update: next.update, pending: next.pending, ..state.data },
                    stage: StageView::Spks { at, run: next.run },
                },
                caches,
            )
        },
        (None, StageView::TxidHistories(txs), RunReply::Histories(Ok(histories))) => (
            RunView {
                data: with_txids(state.data, txs, histories_of(histories@)),
                stage: StageView::Outpoints { at: 0, found: Seq::empty() },
            },
            caches,
        ),
        (None, StageView::OutpointHistories(ops), RunReply::Histories(Ok(histories))) => (
            RunView {
                stage: StageView::OutpointTxs { ops, histories: histories_of(histories@) },
                ..state
            },
            caches,
        ),
        (None, StageView::Anchors(anchors), RunReply::Anchors(event)) => {
            let (next, anchor_caches) = anchor_step(anchors, caches.anchors, event);
            (
                RunView { stage: StageView::Anchors(next), ..state },
                Caches { anchors: anchor_caches, ..caches },
            )
        },
        (None, stage, RunReply::Tx(txid, Ok(tx))) => (
            state,
            if takes_txs(stage) {
                Caches { txs: caches.txs.insert(txid, tx@), ..caches }
            } else {
                caches
            },
        ),
        _ => (state, caches),
    }
}

#[allow(inconsistent_fields)]
enum Stage {
    Tip(TipFetch),
    Spks { at: usize, run: SpkRun },
    Txids,
    TxidHistories(TxidScripts),
    Outpoints { at: usize, found: Vec<OutPoint> },
    OutpointHistories { ops: Vec<OutpointTx>, spks: Vec<Vec<u8>> },
    OutpointTxs { ops: Vec<OutpointTx>, spks: Vec<Vec<u8>>, histories: Vec<Vec<Tx>> },
    PrevTxouts,
    Anchors(AnchorFetch),
    Done,
    Failed(Error),
}

spec fn stage_view(stage: Stage) -> StageView {
    match stage {
        Stage::Tip(fetch) => StageView::Tip {
            chain: fetch.prev(),
            tip: fetch.tip(),
            latest: fetch.latest(),
        },
        Stage::Spks { at, run } => StageView::Spks { at: at as nat, run: run@ },
        Stage::Txids => StageView::Txids,
        Stage::TxidHistories(found) => StageView::TxidHistories(identified_views(found.txs@)),
        Stage::Outpoints { at, found } => StageView::Outpoints { at: at as nat, found: found@ },
        Stage::OutpointHistories { ops, spks } => StageView::OutpointHistories(
            outpoint_views(ops@),
        ),
        Stage::OutpointTxs { ops, spks, histories } => StageView::OutpointTxs {
            ops: outpoint_views(ops@),
            histories: histories_of(histories@),
        },
        Stage::PrevTxouts => StageView::PrevTxouts,
        Stage::Anchors(fetch) => StageView::Anchors(fetch@),
        Stage::Done => StageView::Done,
        Stage::Failed(e) => StageView::Failed(e),
    }
}

/// Whether what a stage holds fits together.
spec fn stage_wf(stage: Stage, keychains: usize) -> bool {
    match stage {
        Stage::Spks { at, run } => at < keychains,
        Stage::TxidHistories(found) => found.scripts@ == first_script_hashes(
            identified_views(found.txs@),
        ),
        Stage::OutpointHistories { ops, spks } => script_views(spks@) == different_spks(
            outpoint_views(ops@),
        ),
        Stage::OutpointTxs { ops, spks, histories } => script_views(spks@) == different_spks(
            outpoint_views(ops@),
        ),
        Stage::Anchors(fetch) => fetch.wf(),
        _ => true,
    }
}

/// A whole sync or full scan.
pub struct ScanRun<K: Key> {
    start_time: u64,
    stop_gap: usize,
    batch_size: usize,
    fetch_prev_txouts: bool,
    keychains: Vec<K>,
    txids: Vec<Txid>,
    outpoints: Vec<OutPoint>,
    tx_update: TxUpdate,
    pending_anchors: Vec<(Txid, u32)>,
    last_active_indices: OrderedMap<K, u32>,
    chain: Option<(CheckPoint, OrderedMap<u32, BlockHash>)>,
    stage: Stage,
}

/// The views of some keychains.
pub open spec fn keychain_views<K: Key>(keychains: Seq<K>) -> Seq<K::V> {
    keychains.map_values(|keychain: K| keychain@)
}

impl<K: Key> View for ScanRun<K> {
    type V = RunView<K::V>;

    closed spec fn view(&self) -> RunView<K::V> {
        RunView { data: self.data(), stage: stage_view(self.stage) }
    }
}

/// A run of which nothing is known yet.
pub open spec fn run_start<KV>(
    start_time: u64,
    stop_gap: nat,
    batch_size: nat,
    fetch_prev_txouts: bool,
    keychains: Seq<KV>,
    txids: Seq<Txid>,
    outpoints: Seq<OutPoint>,
) -> RunData<KV> {
    RunData {
        start_time,
        stop_gap,
        batch_size,
        fetch_prev_txouts,
        keychains,
        txids,
        outpoints,
        update: empty_update(),
        pending: Seq::empty(),
        last_active: Map::empty(),
        chain: None,
    }
}

/// Where a run begins: tips are compared only where one is known.
pub open spec fn first_stage<KV>(data: RunData<KV>, chain_tip: Option<CheckPoint>) -> StageView {
    match chain_tip {
        Some(tip) => StageView::Tip { chain: checkpoint_blocks(tip), tip: None, latest: None },
        None => if data.keychains.len() > 0 {
            StageView::Spks { at: 0, run: spk_start() }
        } else {
            StageView::Txids
        },
    }
}

impl<K: Key> ScanRun<K> {
    closed spec fn data(&self) -> RunData<K::V> {
        RunData {
            start_time: self.start_time,
            stop_gap: self.stop_gap as nat,
            batch_size: self.batch_size as nat,
            fetch_prev_txouts: self.fetch_prev_txouts,
            keychains: keychain_views(self.keychains@),
            txids: self.txids@,
            outpoints: self.outpoints@,
            update: self.tx_update@,
            pending: self.pending_anchors@,
            last_active: self.last_active_indices@,
            chain: compared_chain(self.chain),
        }
    }

    /// Whether the run is one that was begun with [`ScanRun::sync`], [`ScanRun::full_scan`] or
    /// [`ScanRun::follow_up`].
    pub closed spec fn wf(&self) -> bool {
        self.batch_size > 0 && stage_wf(self.stage, self.keychains.len())
    }

    /// The anchors that were found are part of the update, once all of them were fetched.
    fn at_anchors(&mut self, fetch: AnchorFetch) -> (r: RunAsk)
        requires
            old(self).batch_size > 0,
            fetch.wf(),
        ensures
            final(self).wf(),
            final(self)@ == at_anchors(old(self).data(), fetch@),
            forall|caches: Caches| is_run_ask(final(self)@, caches, r),
    {
        match fetch.ask() {
            AnchorAsk::Done => {
                let results = fetch.into_results();
                add_anchors(&mut self.tx_update, &results);
                self.stage = Stage::Done;
                RunAsk::Done
            },
            ask => {
                self.stage = Stage::Anchors(fetch);
                RunAsk::Anchors(ask)
            },
        }
    }

    fn to_anchors<C>(&mut self, client: &BdkElectrumClient<C>) -> (r: RunAsk)
        requires
            old(self).batch_size > 0,
        ensures
            final(self).wf(),
            final(self)@ == to_anchors(old(self).data(), caches_of(*client)),
            is_run_ask(final(self)@, caches_of(*client), r),
    {
        if self.pending_anchors.len() == 0 {
            self.stage = Stage::Done;
            return RunAsk::Done;
        }
        let mut pending: Vec<(Txid, u32)> = Vec::new();
        std::mem::swap(&mut pending, &mut self.pending_anchors);
        let fetch = AnchorFetch::new(client, pending, self.batch_size);
        self.at_anchors(fetch)
    }

    /// Fetches previous outputs for fee calculation if the flag is enabled.
    fn to_prev_txouts<C>(&mut self, client: &BdkElectrumClient<C>) -> (r: RunAsk)
        requires
            old(self).batch_size > 0,
        ensures
            final(self).wf(),
            final(self)@ == to_prev_txouts(old(self).data(), caches_of(*client)),
            is_run_ask(final(self)@, caches_of(*client), r),
    {
        if self.fetch_prev_txouts {
            if let Some(missing) = client.fetch_prev_txout(&mut self.tx_update) {
                self.stage = Stage::PrevTxouts;
                return RunAsk::Tx(missing);
            }
        }
        self.to_anchors(client)
    }

    fn to_outpoint_txs<C>(
        &mut self,
        client: &BdkElectrumClient<C>,
        ops: Vec<OutpointTx>,
        spks: Vec<Vec<u8>>,
        histories: Vec<Vec<Tx>>,
    ) -> (r: RunAsk)
        requires
            old(self).batch_size > 0,
            script_views(spks@) == different_spks(outpoint_views(ops@)),
        ensures
            final(self).wf(),
            final(self)@ == to_outpoint_txs(
                old(self).data(),
                caches_of(*client),
                outpoint_views(ops@),
                histories_of(histories@),
            ),
            is_run_ask(final(self)@, caches_of(*client), r),
    {
        match client.populate_with_outpoints(
            self.start_time,
            &mut self.tx_update,
            &ops,
            &spks,
            &histories,
            &mut self.pending_anchors,
        ) {
            Some(missing) => {
                self.stage = Stage::OutpointTxs { ops, spks, histories };
                RunAsk::Tx(missing)
            },
            None => self.to_prev_txouts(client),
        }
    }

    fn to_outpoint_histories<C>(
        &mut self,
        client: &BdkElectrumClient<C>,
        found: &Vec<OutPoint>,
    ) -> (r: RunAsk)
        requires
            old(self).batch_size > 0,
        ensures
            final(self).wf(),
            final(self)@ == to_outpoint_histories(
                old(self).data(),
                caches_of(*client),
                found@,
            ),
            is_run_ask(final(self)@, caches_of(*client), r),
    {
        let ops = client.outpoint_txs(found);
        if ops.len() == 0 {
            return self.to_prev_txouts(client);
        }
        let spks = unique_spks(&ops);
        let hashes = hashes_of_scripts(&spks);
        self.stage = Stage::OutpointHistories { ops, spks };
        RunAsk::Histories(hashes)
    }

    fn to_outpoints<C>(
        &mut self,
        client: &BdkElectrumClient<C>,
        at: usize,
        found: Vec<OutPoint>,
    ) -> (r: RunAsk)
        requires
            old(self).batch_size > 0,
        ensures
            final(self).wf(),
            final(self)@ == to_outpoints(
                old(self).data(),
                caches_of(*client),
                at as nat,
                found@,
            ),
            is_run_ask(final(self)@, caches_of(*client), r),
    {
        let mut at: usize = at;
        let mut found = found;
        let ghost goal = to_outpoints(self.data(), caches_of(*client), at as nat, found@);
        while at < self.outpoints.len()
            invariant
                *self == *old(self),
                old(self).batch_size > 0,
                goal == to_outpoints(self.data(), caches_of(*client), at as nat, found@),
            ensures
                *self == *old(self),
                goal == to_outpoints(self.data(), caches_of(*client), at as nat, found@),
                at >= self.outpoints.len() || !client.txs().contains_key(
                    self.outpoints@[at as int].txid,
                ),
            decreases self.outpoints.len() - at,
        {
            let outpoint = self.outpoints[at];
            if client.cached_tx(&outpoint.txid).is_none() {
                break;
            }
            found.push(outpoint);
            at = at + 1;
        }
        if at < self.outpoints.len() {
            let txid = self.outpoints[at].txid;
            self.stage = Stage::Outpoints { at, found };
            return RunAsk::Tx(txid);
        }
        self.to_outpoint_histories(client, &found)
    }

    fn to_txids<C>(&mut self, client: &BdkElectrumClient<C>) -> (r: RunAsk)
        requires
            old(self).batch_size > 0,
        ensures
            final(self).wf(),
            final(self)@ == to_txids(old(self).data(), caches_of(*client)),
            is_run_ask(final(self)@, caches_of(*client), r),
    {
        match client.txid_scripts(&self.txids) {
            Err(missing) => {
                self.stage = Stage::Txids;
                RunAsk::Tx(missing)
            },
            Ok(found) => {
                if found.txs.len() == 0 {
                    return self.to_outpoints(client, 0, Vec::new());
                }
                let hashes = copy_hashes(&found.scripts);
                self.stage = Stage::TxidHistories(found);
                RunAsk::Histories(hashes)
            },
        }
    }

    fn to_keychain<C>(&mut self, client: &BdkElectrumClient<C>, at: usize) -> (r: RunAsk)
        requires
            old(self).batch_size > 0,
        ensures
            final(self).wf(),
            final(self)@ == to_keychain(old(self).data(), caches_of(*client), at as nat),
            is_run_ask(final(self)@, caches_of(*client), r),
    {
        if at < self.keychains.len() {
            self.stage = Stage::Spks { at, run: SpkRun::new() };
            return RunAsk::Spks { keychain: at, count: self.batch_size };
        }
        self.to_txids(client)
    }

    /// Goes as far as it can be gone with what is in the caches, and says what is needed next.
    pub fn ask<C>(&mut self, client: &BdkElectrumClient<C>) -> (r: RunAsk)
        requires
            old(self).wf(),
        ensures
            final(self).wf(),
            final(self)@ == advanced(old(self)@, caches_of(*client)),
            is_run_ask(final(self)@, caches_of(*client), r),
    {
        let mut stage = Stage::Done;
        std::mem::swap(&mut stage, &mut self.stage);
        proof {
            assert(self.data() == old(self).data());
        }
        match stage {
            Stage::Tip(fetch) => {
                match fetch.fetch_tip_and_latest_blocks() {
                    TipStep::Tip => {
                        self.stage = Stage::Tip(fetch);
                        RunAsk::Tip
                    },
                    TipStep::Headers { start_height, count } => {
                        self.stage = Stage::Tip(fetch);
                        RunAsk::Headers { start_height, count }
                    },
                    TipStep::Header { height } => {
                        self.stage = Stage::Tip(fetch);
                        RunAsk::Header { height }
                    },
                    TipStep::Done { tip, latest_blocks } => {
                        self.chain = Some((tip, latest_blocks));
                        self.to_keychain(client, 0)
                    },
                }
            },
            Stage::Spks { at, mut run } => {
                match run.ask(client, &mut self.tx_update) {
                    SpkAsk::Spks => {
                        self.stage = Stage::Spks { at, run };
                        RunAsk::Spks { keychain: at, count: self.batch_size }
                    },
                    SpkAsk::Histories(hashes) => {
                        self.stage = Stage::Spks { at, run };
                        RunAsk::Histories(hashes)
                    },
                    SpkAsk::Tx(txid) => {
                        self.stage = Stage::Spks { at, run };
                        RunAsk::Tx(txid)
                    },
                    SpkAsk::Done => {
                        note_last_active(
                            &mut self.last_active_indices,
                            &self.keychains[at],
                            run.last_active_index(),
                        );
                        self.to_keychain(client, at + 1)
                    },
                }
            },
            Stage::Txids => self.to_txids(client),
            Stage::TxidHistories(found) => {
                let hashes = copy_hashes(&found.scripts);
                self.stage = Stage::TxidHistories(found);
                RunAsk::Histories(hashes)
            },
            Stage::Outpoints { at, found } => self.to_outpoints(client, at, found),
            Stage::OutpointHistories { ops, spks } => {
                let hashes = hashes_of_scripts(&spks);
                self.stage = Stage::OutpointHistories { ops, spks };
                RunAsk::Histories(hashes)
            },
            Stage::OutpointTxs { ops, spks, histories } => {
                self.to_outpoint_txs(client, ops, spks, histories)
            },
            Stage::PrevTxouts => self.to_prev_txouts(client),
            Stage::Anchors(fetch) => self.at_anchors(fetch),
            Stage::Done => RunAsk::Done,
            Stage::Failed(e) => {
                self.stage = Stage::Failed(e);
                RunAsk::Failed
            },
        }
    }
}

impl<K: Key> ScanRun<K> {
    fn begin(
        chain_tip: Option<CheckPoint>,
        start_time: u64,
        stop_gap: usize,
        batch_size: usize,
        fetch_prev_txouts: bool,
        keychains: Vec<K>,
        txids: Vec<Txid>,
        outpoints: Vec<OutPoint>,
    ) -> (r: Self)
        requires
            batch_size > 0,
        ensures
            r.wf(),
            r@.data == run_start(
                start_time,
                stop_gap as nat,
                batch_size as nat,
                fetch_prev_txouts,
                keychain_views(keychains@),
                txids@,
                outpoints@,
            ),
            r@.stage == first_stage(r@.data, chain_tip),
    {
        let stage = match chain_tip {
            Some(tip) => Stage::Tip(TipFetch::new(tip)),
            None => if keychains.len() > 0 {
                Stage::Spks { at: 0, run: SpkRun::new() }
            } else {
                Stage::Txids
            },
        };
        ScanRun {
            start_time,
            stop_gap,
            batch_size,
            fetch_prev_txouts,
            keychains,
            txids,
            outpoints,
            tx_update: TxUpdate::new(),
            pending_anchors: Vec::new(),
            last_active_indices: OrderedMap::new(),
            chain: None,
            stage,
        }
    }

    /// Full scan: looks for the scripts of some keychains, each up to a gap of `stop_gap` scripts
    /// without history.
    pub fn full_scan(
        chain_tip: Option<CheckPoint>,
        start_time: u64,
        keychains: Vec<K>,
        stop_gap: usize,
        batch_size: usize,
        fetch_prev_txouts: bool,
    ) -> (r: Self)
        requires
            batch_size > 0,
        ensures
            r.wf(),
            r@.data == run_start(
                start_time,
                stop_gap as nat,
                batch_size as nat,
                fetch_prev_txouts,
                keychain_views(keychains@),
                Seq::empty(),
                Seq::empty(),
            ),
            r@.stage == first_stage(r@.data, chain_tip),
    {
        Self::begin(
            chain_tip,
            start_time,
            stop_gap,
            batch_size,
            fetch_prev_txouts,
            keychains,
            Vec::new(),
            Vec::new(),
        )
    }

    /// The keychains.
    pub fn keychains(&self) -> (r: &Vec<K>)
        ensures
            keychain_views(r@) == self@.data.keychains,
    {
        &self.keychains
    }

    /// How many scripts in a row are without history at the end of a keychain.
    pub fn stop_gap(&self) -> (r: usize)
        ensures
            r as nat == self@.data.stop_gap,
    {
        self.stop_gap
    }

    /// The position of the keychain that is scanned and how far it is, if one is.
    pub fn keychain_run(&self) -> (r: Option<(usize, &SpkRun)>)
        requires
            self.wf(),
        ensures
            match r {
                Some((at, run)) => self@.stage == (StageView::Spks { at: at as nat, run: run@ })
                    && at < self@.data.keychains.len(),
                None => !(self@.stage is Spks),
            },
    {
        match &self.stage {
            Stage::Spks { at, run } => Some((*at, run)),
            _ => None,
        }
    }

    /// Takes in what the server answered.
    pub fn step<C>(&mut self, client: &mut BdkElectrumClient<C>, reply: RunReply)
        requires
            old(self).wf(),
        ensures
            final(self).wf(),
            final(client).handle() == old(client).handle(),
            (final(self)@, caches_of(*final(client))) == run_step(
                old(self)@,
                caches_of(*old(client)),
                reply,
            ),
    {
        let mut stage = Stage::Done;
        std::mem::swap(&mut stage, &mut self.stage);
        proof {
            assert(self.data() == old(self).data());
        }
        match (stage, reply) {
            (Stage::Outpoints { at, found }, RunReply::Tx(_, Err(_))) => {
                self.stage = if at < self.outpoints.len() {
                    Stage::Outpoints { at: at + 1, found }
                } else {
                    Stage::Outpoints { at, found }
                };
            },
            (Stage::Anchors(mut fetch), reply) => {
                if let RunReply::Anchors(event) = reply {
                    fetch.step(client, event);
                }
                self.stage = Stage::Anchors(fetch);
            },
            (Stage::Done, _) => {},
            (Stage::Failed(e), _) => {
                self.stage = Stage::Failed(e);
            },
            (_, RunReply::Tip(Err(e))) => {
                self.stage = Stage::Failed(e);
            },
            (_, RunReply::Headers(Err(e))) => {
                self.stage = Stage::Failed(e);
            },
            (_, RunReply::Header(Err(e))) => {
                self.stage = Stage::Failed(e);
            },
            (_, RunReply::Histories(Err(e))) => {
                self.stage = Stage::Failed(e);
            },
            (_, RunReply::Tx(_, Err(e))) => {
                self.stage = Stage::Failed(e);
            },
            (Stage::Tip(mut fetch), reply) => {
                take_tip_reply(&mut fetch, reply);
                self.stage = Stage::Tip(fetch);
            },
            (Stage::Spks { at, mut run }, RunReply::Spks(spks)) => {
                run.on_spks(spks);
                self.stage = Stage::Spks { at, run };
            },
            (Stage::Spks { at, mut run }, RunReply::Histories(Ok(histories))) => {
                run.on_histories(
                    &histories,
                    self.start_time,
                    self.stop_gap,
                    &mut self.tx_update,
                    &mut self.pending_anchors,
                );
                self.stage = Stage::Spks { at, run };
            },
            (Stage::TxidHistories(found), RunReply::Histories(Ok(histories))) => {
                populate_with_txids(
                    self.start_time,
                    &mut self.tx_update,
                    &found.txs,
                    &histories,
                    &mut self.pending_anchors,
                );
                self.stage = Stage::Outpoints { at: 0, found: Vec::new() };
            },
            (Stage::OutpointHistories { ops, spks }, RunReply::Histories(Ok(histories))) => {
                self.stage = Stage::OutpointTxs { ops, spks, histories };
            },
            (stage, RunReply::Tx(txid, Ok(tx))) => {
                let takes_txs = match &stage {
                    Stage::Spks { .. } => true,
                    Stage::Txids => true,
                    Stage::Outpoints { .. } => true,
                    Stage::OutpointTxs { .. } => true,
                    Stage::PrevTxouts => true,
                    _ => false,
                };
                if takes_txs {
                    client.cache_tx(txid, tx);
                }
                self.stage = stage;
            },
            (stage, _) => {
                self.stage = stage;
            },
        }
    }
}

/// Where the follow-up of history entries begins: when they were seen is known, and which of them need
/// an anchor.
pub open spec fn follow_up_start(
    update: TxUpdateView,
    entries: Seq<Tx>,
    start_time: u64,
    batch_size: nat,
    fetch_prev_txouts: bool,
) -> RunView<u32> {
    RunView {
        data: RunData {
            update: with_seen(update, entries, start_time),
            pending: pending_of(entries),
            ..run_start(
                start_time,
                usize::MAX as nat,
                batch_size,
                fetch_prev_txouts,
                seq![0u32],
                Seq::empty(),
                Seq::empty(),
            )
        },
        stage: StageView::Spks { at: 0, run: spk_rest(txids_of(entries)) },
    }
}

impl ScanRun<u32> {
    /// Sync: looks for scripts, which are those of one keychain with the number 0 and without a gap
    /// limit, and then for transactions and outpoints.
    pub fn sync(
        chain_tip: Option<CheckPoint>,
        start_time: u64,
        txids: Vec<Txid>,
        outpoints: Vec<OutPoint>,
        batch_size: usize,
        fetch_prev_txouts: bool,
    ) -> (r: Self)
        requires
            batch_size > 0,
        ensures
            r.wf(),
            r@.data == run_start(
                start_time,
                usize::MAX as nat,
                batch_size as nat,
                fetch_prev_txouts,
                seq![0u32],
                txids@,
                outpoints@,
            ),
            r@.stage == first_stage(r@.data, chain_tip),
    {
        let mut keychains: Vec<u32> = Vec::new();
        keychains.push(0);
        proof {
            assert(keychain_views(keychains@) =~= seq![0u32]);
        }
        Self::begin(
            chain_tip,
            start_time,
            usize::MAX,
            batch_size,
            fetch_prev_txouts,
            keychains,
            txids,
            outpoints,
        )
    }

    /// Follows up history entries: their transactions are fetched, and then what these spend and their
    /// anchors. What is known already is part of the response.
    pub fn follow_up(
        tx_update: TxUpdate,
        entries: &Vec<Tx>,
        start_time: u64,
        batch_size: usize,
        fetch_prev_txouts: bool,
    ) -> (r: Self)
        requires
            batch_size > 0,
        ensures
            r.wf(),
            r@ == follow_up_start(
                tx_update@,
                entries@,
                start_time,
                batch_size as nat,
                fetch_prev_txouts,
            ),
    {
        let mut r = Self::sync(
            None,
            start_time,
            Vec::new(),
            Vec::new(),
            batch_size,
            fetch_prev_txouts,
        );
        let mut tx_update = tx_update;
        let mut pending_anchors: Vec<(Txid, u32)> = Vec::new();
        apply_history(&mut tx_update, &mut pending_anchors, entries, start_time);
        proof {
            assert(pending_anchors@ =~= pending_of(entries@));
        }
        r.tx_update = tx_update;
        r.pending_anchors = pending_anchors;
        r.stage = Stage::Spks { at: 0, run: SpkRun::rest(entry_txids(entries)) };
        r
    }

    /// The response of a sync, or why there is none. A run that is not at its end has neither.
    pub fn into_sync_response(self) -> (r: Option<Result<SyncResponse, Error>>)
        ensures
            match r {
                Some(Ok(response)) => {
                    &&& self@.stage is Done
                    &&& response.tx_update@ == self@.data.update
                    &&& tip_blocks(response.chain_update) == chain_of(
                        self@.data.chain,
                        response.tx_update.anchors,
                    )
                },
                Some(Err(e)) => self@.stage == StageView::Failed(e),
                None => !(self@.stage is Done) && !(self@.stage is Failed),
            },
    {
        match self.stage {
            Stage::Done => Some(Ok(SyncResponse::finish(self.tx_update, self.chain))),
            Stage::Failed(e) => Some(Err(e)),
            _ => None,
        }
    }
}

impl<K: Key> ScanRun<K> {
    /// The response of a full scan, or why there is none. A run that is not at its end has neither.
    pub fn into_full_scan_response(self) -> (r: Option<Result<FullScanResponse<K>, Error>>)
        ensures
            match r {
                Some(Ok(response)) => {
                    &&& self@.stage is Done
                    &&& response.tx_update@ == self@.data.update
                    &&& tip_blocks(response.chain_update) == chain_of(
                        self@.data.chain,
                        response.tx_update.anchors,
                    )
                    &&& response.last_active_indices@ == self@.data.last_active
                },
                Some(Err(e)) => self@.stage == StageView::Failed(e),
                None => !(self@.stage is Done) && !(self@.stage is Failed),
            },
    {
        match self.stage {
            Stage::Done => Some(
                Ok(
                    FullScanResponse::finish(
                        self.tx_update,
                        self.chain,
                        self.last_active_indices,
                    ),
                ),
            ),
            Stage::Failed(e) => Some(Err(e)),
            _ => None,
        }
    }
}

/// Whether two runs were asked for the same.
pub open spec fn same_request<KV>(a: RunData<KV>, b: RunData<KV>) -> bool {
    &&& a.start_time == b.start_time
    &&& a.stop_gap == b.stop_gap
    &&& a.batch_size == b.batch_size
    &&& a.fetch_prev_txouts == b.fetch_prev_txouts
    &&& a.keychains == b.keychains
    &&& a.txids == b.txids
    &&& a.outpoints == b.outpoints
}

/// What a run was asked for stays the same, whatever it finds out.
pub proof fn the_request_stays<KV>(state: RunView<KV>, caches: Caches)
    ensures
        same_request(state.data, advanced(state, caches).data),
        forall|reply: RunReply|
            same_request(state.data, (#[trigger] run_step(state, caches, reply)).0.data),
{
    match state.stage {
        StageView::Tip { chain, tip, latest } => {
            outpoints_keep_the_request(
                RunData { chain: Some(tip_outcome(chain, tip, latest)), ..state.data },
                caches,
                0,
                Seq::empty(),
            );
        },
        StageView::Spks { at, run } => {
            let (run, update) = with_cached_txs(run, state.data.update, caches.txs);
            let last_active = with_last_active(
                state.data.last_active,
                state.data.keychains[at as int],
                run.scan.last_active_index,
            );
            outpoints_keep_the_request(
                RunData { update, last_active, ..state.data },
                caches,
                0,
                Seq::empty(),
            );
        },
        StageView::Outpoints { at, found } => {
            outpoints_keep_the_request(state.data, caches, at, found);
        },
        _ => {
            outpoints_keep_the_request(state.data, caches, 0, Seq::empty());
        },
    }
}

proof fn outpoints_keep_the_request<KV>(
    data: RunData<KV>,
    caches: Caches,
    at: nat,
    found: Seq<OutPoint>,
)
    ensures
        same_request(data, to_outpoints(data, caches, at, found).data),
    decreases data.outpoints.len() - at,
{
    if at < data.outpoints.len() {
        outpoints_keep_the_request(
            data,
            caches,
            at + 1,
            found.push(data.outpoints[at as int]),
        );
    }
}

/// A transaction that is in the cache is not asked for.
pub proof fn cached_transactions_are_not_asked_for<KV>(
    state: RunView<KV>,
    caches: Caches,
    txid: Txid,
)
    requires
        caches.txs.contains_key(txid),
    ensures
        !is_run_ask(state, caches, RunAsk::Tx(txid)),
{
}

/// A run that is at its end stays there, whatever it is told.
pub proof fn the_end_of_a_run_is_final<KV>(state: RunView<KV>, caches: Caches, reply: RunReply)
    requires
        state.stage is Done || state.stage is Failed,
    ensures
        advanced(state, caches) == state,
        run_step(state, caches, reply).0 == state,
{
}

/// A run adds anchors at one point only: at its end, where it adds those that the fetch of anchors
/// found. No answer of the server adds one by itself.
pub proof fn anchors_come_last<KV>(state: RunView<KV>, caches: Caches, reply: RunReply)
    ensures
        run_step(state, caches, reply).0.data.update.anchors == state.data.update.anchors,
        !(state.stage is Anchors) && !(advanced(state, caches).stage is Done) ==> advanced(
            state,
            caches,
        ).data.update.anchors == state.data.update.anchors,
        state.stage is Anchors ==> advanced(state, caches) == at_anchors(
            state.data,
            state.stage->Anchors_0,
        ),
{
    match state.stage {
        StageView::Tip { chain, tip, latest } => {
            let data = RunData { chain: Some(tip_outcome(chain, tip, latest)), ..state.data };
            outpoints_keep_anchors(data, caches, 0, Seq::empty());
        },
        StageView::Spks { at, run } => {
            let (run, update) = with_cached_txs(run, state.data.update, caches.txs);
            let data = RunData {
                update,
                last_active: with_last_active(
                    state.data.last_active,
                    state.data.keychains[at as int],
                    run.scan.last_active_index,
                ),
                ..state.data
            };
            outpoints_keep_anchors(data, caches, 0, Seq::empty());
        },
        StageView::Txids => {
            outpoints_keep_anchors(state.data, caches, 0, Seq::empty());
        },
        StageView::Outpoints { at, found } => {
            outpoints_keep_anchors(state.data, caches, at, found);
        },
        _ => {},
    }
}

proof fn outpoints_keep_anchors<KV>(
    data: RunData<KV>,
    caches: Caches,
    at: nat,
    found: Seq<OutPoint>,
)
    ensures
        !(to_outpoints(data, caches, at, found).stage is Done) ==> to_outpoints(
            data,
            caches,
            at,
            found,
        ).data.update.anchors == data.update.anchors,
    decreases data.outpoints.len() - at,
{
    if at < data.outpoints.len() {
        outpoints_keep_anchors(data, caches, at + 1, found.push(data.outpoints[at as int]));
    }
}

/// Takes what the server answered about its chain.
fn take_tip_reply(fetch: &mut TipFetch, reply: RunReply)
    ensures
        stage_view(Stage::Tip(*final(fetch))) == tip_step(
            old(fetch).prev(),
            old(fetch).tip(),
            old(fetch).latest(),
            reply,
        ),
{
    match (fetch.fetch_tip_and_latest_blocks(), reply) {
        (TipStep::Tip, RunReply::Tip(Ok(height))) => {
            fetch.on_tip(height);
        },
        (TipStep::Headers { start_height, .. }, RunReply::Headers(Ok(headers))) => {
            fetch.on_headers(start_height, &headers);
        },
        (TipStep::Header { height }, RunReply::Header(Ok(header))) => {
            fetch.on_header(height, &header);
        },
        _ => {},
    }
}

/// A list of script hashes again.
pub fn copy_hashes(hashes: &Vec<ElectrumScriptHash>) -> (r: Vec<ElectrumScriptHash>)
    ensures
        r@ == hashes@,
{
    let mut r: Vec<ElectrumScriptHash> = Vec::new();
    let mut i: usize = 0;
    while i < hashes.len()
        invariant
            i <= hashes.len(),
            r@ == hashes@.take(i as int),
        decreases hashes.len() - i,
    {
        r.push(hashes[i]);
        proof {
            assert(hashes@.take(i + 1) =~= hashes@.take(i as int).push(hashes@[i as int]));
        }
        i = i + 1;
    }
    proof {
        assert(hashes@.take(hashes@.len() as int) =~= hashes@);
    }
    r
}

/// The histories that come for transactions of a request are taken into the update: each transaction is in
/// it, and the first entry for it in the history of its own script tells whether it is pending or was seen.
pub proof fn histories_of_transactions_are_gathered<KV>(
    state: RunView<KV>,
    caches: Caches,
    txs: Seq<(Txid, TransactionView)>,
    histories: Vec<Vec<Tx>>,
    i: int,
    j: int,
)
    requires
        state.stage == StageView::TxidHistories(txs),
        0 <= i < txs.len(),
        i < histories@.len(),
    ensures
        ({
            let next = run_step(state, caches, RunReply::Histories(Ok(histories))).0;
            let entry = histories@[i]@[j];
            &&& next.data.update.txs.contains(txs[i].1)
            &&& state.data.update.txs.is_prefix_of(next.data.update.txs)
            &&& state.data.pending.is_prefix_of(next.data.pending)
            &&& state.data.update.seen_ats.subset_of(next.data.update.seen_ats)
            &&& next.data.update.txouts == state.data.update.txouts
            &&& next.data.update.anchors == state.data.update.anchors
            &&& next.data.update.evicted_ats == state.data.update.evicted_ats
            &&& next.stage == (StageView::Outpoints { at: 0, found: Seq::<OutPoint>::empty() })
            &&& 0 <= j < histories@[i]@.len() && entry.txid == txs[i].0 && (forall|k: int|
                0 <= k < j ==> (#[trigger] histories@[i]@[k]).txid != txs[i].0) ==> {
                &&& 1 <= entry.height <= 4294967295 ==> next.data.pending.contains(
                    (txs[i].0, entry.height as u32),
                )
                &&& !(1 <= entry.height <= 4294967295) ==> next.data.update.seen_ats.contains(
                    (txs[i].0, state.data.start_time),
                )
            }
        }),
{
    let views = histories_of(histories@);
    let total = txid_total(txs, views);
    let next = run_step(state, caches, RunReply::Histories(Ok(histories))).0;
    let entries = found_entries(txs, views, total);
    assert(views[i] == histories@[i]@);
    assert(next.data.update.txs[state.data.update.txs.len() + i] == without_ids(txs)[i]);
    assert(next.data.update.txs[state.data.update.txs.len() + i] == txs[i].1);
    if 0 <= j < histories@[i]@.len() && histories@[i]@[j].txid == txs[i].0 && (forall|k: int|
        0 <= k < j ==> (#[trigger] histories@[i]@[k]).txid != txs[i].0) {
        each_transaction_has_its_own_history(txs, views, total, i, j, state.data.start_time);
        let found = (txs[i].0, histories@[i]@[j].height as u32);
        if pending_of(entries).contains(found) {
            let at = choose|at: int|
                0 <= at < pending_of(entries).len() && pending_of(entries)[at] == found;
            assert(next.data.pending[state.data.pending.len() + at] == found);
        }
    }
}

/// What the histories say of the outpoints of a request is taken into the update: the entries for the
/// transaction in which an outpoint resides and for the one that spends it, each with its transaction.
pub proof fn histories_of_outpoints_are_gathered<KV>(
    data: RunData<KV>,
    cache: Map<Txid, TransactionView>,
    ops: Seq<OutpointTxView>,
    histories: Seq<Seq<Tx>>,
    k: int,
    h: int,
    i: int,
)
    requires
        0 <= k < ops.len(),
        0 <= h < histories.len(),
        h < different_spks(ops).len(),
        different_spks(ops)[h] == ops[k].spk,
        0 <= i < histories[h].len(),
        histories[h][i].txid == ops[k].outpoint.txid || spends(
            cache[histories[h][i].txid],
            ops[k].outpoint,
        ),
        histories[h][i].txid == ops[k].outpoint.txid ==> forall|j: int|
            0 <= j < i ==> (#[trigger] histories[h][j]).txid != ops[k].outpoint.txid,
        histories[h][i].txid != ops[k].outpoint.txid ==> forall|j: int|
            0 <= j < i && (#[trigger] histories[h][j]).txid != ops[k].outpoint.txid ==> !spends(
                cache[histories[h][j].txid],
                ops[k].outpoint,
            ),
    ensures
        ({
            let next = with_outpoints(data, cache, ops, histories);
            let entry = histories[h][i];
            &&& next.update.txs.contains(
                if entry.txid == ops[k].outpoint.txid {
                    ops[k].tx
                } else {
                    cache[entry.txid]
                },
            )
            &&& data.update.txs.is_prefix_of(next.update.txs)
            &&& data.pending.is_prefix_of(next.pending)
            &&& data.update.seen_ats.subset_of(next.update.seen_ats)
            &&& next.update.txouts == data.update.txouts
            &&& next.update.anchors == data.update.anchors
            &&& next.update.evicted_ats == data.update.evicted_ats
            &&& 1 <= entry.height <= 4294967295 ==> next.pending.contains(
                (entry.txid, entry.height as u32),
            )
            &&& !(1 <= entry.height <= 4294967295) ==> next.update.seen_ats.contains(
                (entry.txid, data.start_time),
            )
        }),
{
    let spks = different_spks(ops);
    let total = outpoint_total(ops, histories);
    let n = ops.len() as int;
    let next = with_outpoints(data, cache, ops, histories);
    let entry = histories[h][i];
    let entries = outpoint_entries(cache, ops, spks, histories, total, n);
    let txs = outpoint_txs_of(cache, ops, spks, histories, total, n);
    each_script_is_asked_about_once(ops, k, h);
    each_outpoint_has_its_own_history(cache, ops, spks, histories, total, n, k, h, i);
    let tx = if entry.txid == ops[k].outpoint.txid {
        ops[k].tx
    } else {
        cache[entry.txid]
    };
    let a = choose|a: int| 0 <= a < txs.len() && txs[a] == tx;
    assert(next.update.txs[data.update.txs.len() + a] == tx);
    let e = choose|e: int| 0 <= e < entries.len() && entries[e] == entry;
    assert(entries[e].txid == entry.txid);
    confirmed_entries_are_pending(entries, Seq::empty());
    unconfirmed_entries_are_seen(entries, data.start_time, (entry.txid, data.start_time));
    let found = (entry.txid, entry.height as u32);
    if pending_of(entries).contains(found) {
        let at = choose|at: int|
            0 <= at < pending_of(entries).len() && pending_of(entries)[at] == found;
        assert(next.pending[data.pending.len() + at] == found);
    }
}

/// Where previous outputs are fetched, and all their transactions are in the cache, each output that a
/// transaction of the update spends is in the update, whatever input spends it: of each transaction that is
/// no coinbase and is the first one with its id. Where they are not fetched, the update has no output more
/// than before.
pub proof fn spent_outputs_are_in_the_update<KV>(
    state: RunView<KV>,
    caches: Caches,
    i: int,
    j: int,
)
    requires
        state.stage is PrevTxouts,
    ensures
        ({
            let before = state.data.update;
            let after = advanced(state, caches).data.update;
            let tx = before.txs[i];
            let spent = tx.input[j].previous_output;
            let previous = caches.txs[spent.txid];
            &&& after.txs == before.txs
            &&& after.seen_ats == before.seen_ats
            &&& after.evicted_ats == before.evicted_ats
            &&& !state.data.fetch_prev_txouts ==> after.txouts == before.txouts
            &&& state.data.fetch_prev_txouts && !(advanced(state, caches).stage is PrevTxouts)
                && 0 <= i < before.txs.len() && 0 <= j < tx.input.len() && !(tx.input.len() == 1
                && tx.input[0].previous_output.vout == 0xffff_ffff && (forall|b: int|
                0 <= b < 32 ==> #[trigger] tx.input[0].previous_output.txid.bytes@[b] == 0)) && (
            forall|k: int|
                0 <= k < i ==> txid_of(#[trigger] before.txs[k]) != txid_of(tx)) ==> {
                &&& caches.txs.contains_key(spent.txid)
                &&& spent.vout < previous.output.len() ==> after.txouts.get(spent) == Some(
                    previous.output[spent.vout as int],
                )
            }
        }),
{
    let before = state.data.update;
    let tx = before.txs[i];
    let n = before.txs.len() as int;
    let outpoints = all_prevouts(before.txs, n);
    if state.data.fetch_prev_txouts && all_cached(caches.txs, outpoint_txids(outpoints)) && 0 <= i
        < n && 0 <= j < tx.input.len() && !(tx.input.len() == 1
        && tx.input[0].previous_output.vout == 0xffff_ffff && (forall|b: int|
        0 <= b < 32 ==> #[trigger] tx.input[0].previous_output.txid.bytes@[b] == 0)) && (forall|
        k: int,
    |
        0 <= k < i ==> txid_of(#[trigger] before.txs[k]) != txid_of(tx)) {
        let spent = tx.input[j].previous_output;
        every_input_is_fetched(before.txs, n, i, j);
        previous_outputs_are_those_referred_to(caches.txs, outpoints, spent);
        let k = choose|k: int|
            0 <= k < outpoint_txids(outpoints).len() && outpoint_txids(outpoints)[k] == spent.txid;
        assert(caches.txs.contains_key(outpoint_txids(outpoints)[k]));
    }
}

/// While a transaction is missing whose output an input of the update spends, the run waits, and a
/// transaction that it asks for is one of those.
pub proof fn missing_spent_transactions_are_waited_for<KV>(
    state: RunView<KV>,
    caches: Caches,
    i: int,
    j: int,
)
    requires
        state.stage is PrevTxouts,
        state.data.fetch_prev_txouts,
        0 <= i < state.data.update.txs.len(),
        0 <= j < state.data.update.txs[i].input.len(),
        !is_coinbase_tx(state.data.update.txs[i]),
        forall|k: int|
            0 <= k < i ==> txid_of(#[trigger] state.data.update.txs[k]) != txid_of(
                state.data.update.txs[i],
            ),
        !caches.txs.contains_key(state.data.update.txs[i].input[j].previous_output.txid),
    ensures
        advanced(state, caches) == state,
{
    let txs = state.data.update.txs;
    let outpoints = all_prevouts(txs, txs.len() as int);
    every_input_is_fetched(txs, txs.len() as int, i, j);
    let k = choose|k: int|
        0 <= k < outpoint_txids(outpoints).len() && outpoint_txids(outpoints)[k]
            == txs[i].input[j].previous_output.txid;
    assert(!caches.txs.contains_key(outpoint_txids(outpoints)[k]));
}

/// The anchors that were fetched, each with its transaction, are in the update at the end of a run, beside
/// those that were there; nothing else of it changes.
pub proof fn fetched_anchors_are_in_the_update<KV>(
    state: RunView<KV>,
    caches: Caches,
    anchors: AnchorView,
    anchor: ConfirmationBlockTime,
    txid: Txid,
)
    requires
        state.stage == StageView::Anchors(anchors),
    ensures
        ({
            let next = advanced(state, caches);
            &&& next.stage is Done <==> anchors.wait is Done
            &&& anchors.wait is Done ==> (next.data.update.anchors.contains((anchor, txid))
                <==> state.data.update.anchors.contains((anchor, txid)) || anchors.results.contains(
                (txid, anchor),
            ))
            &&& !(anchors.wait is Done) ==> next == state
            &&& next.data.update.txs == state.data.update.txs
            &&& next.data.update.txouts == state.data.update.txouts
            &&& next.data.update.seen_ats == state.data.update.seen_ats
            &&& next.data.update.evicted_ats == state.data.update.evicted_ats
            &&& next.data.last_active == state.data.last_active
            &&& next.data.chain == state.data.chain
            &&& next.data.pending == state.data.pending
        }),
{
    let results = anchors.results;
    let pairs = results.map_values(
        |anchor: (Txid, ConfirmationBlockTime)| (anchor.1, anchor.0),
    );
    if results.contains((txid, anchor)) {
        let i = choose|i: int| 0 <= i < results.len() && results[i] == (txid, anchor);
        assert(pairs[i] == (anchor, txid));
    }
    if pairs.contains((anchor, txid)) {
        let i = choose|i: int| 0 <= i < pairs.len() && pairs[i] == (anchor, txid);
        assert(results[i] == (txid, anchor));
    }
}

/// The fetch of anchors is for all that is pending; without anything pending there is none.
pub proof fn all_that_is_pending_is_fetched<KV>(data: RunData<KV>, caches: Caches)
    ensures
        data.pending.len() == 0 ==> to_anchors(data, caches) == (RunView {
            data,
            stage: StageView::Done,
        }),
        data.pending.len() > 0 ==> to_anchors(data, caches).data.pending.len() == 0,
        data.pending.len() > 0 ==> match to_anchors(data, caches).stage {
            StageView::Anchors(anchors) => anchors == anchor_start(
                data.pending,
                data.batch_size,
                caches.anchors,
            ),
            StageView::Done => anchor_start(
                data.pending,
                data.batch_size,
                caches.anchors,
            ).wait is Done,
            _ => false,
        },
        to_anchors(data, caches).data.update.txs == data.update.txs,
        to_anchors(data, caches).data.update.seen_ats == data.update.seen_ats,
        to_anchors(data, caches).data.update.txouts == data.update.txouts,
        data.update.anchors.subset_of(to_anchors(data, caches).data.update.anchors),
{
}

/// The keychains are scanned one after another. At the end of each, its last active index is noted, if it
/// has one; those of the other keychains stay.
pub proof fn keychains_are_scanned_in_turn<KV>(
    state: RunView<KV>,
    caches: Caches,
    at: nat,
    run: SpkRunView,
    other: KV,
)
    requires
        state.stage == (StageView::Spks { at, run }),
        at < state.data.keychains.len(),
        run.wait is Done,
        run.wait is Done ==> at + 1 < state.data.keychains.len(),
    ensures
        ({
            let next = advanced(state, caches);
            let keychain = state.data.keychains[at as int];
            &&& next.stage matches StageView::Spks { at: then, run: fresh } && then == at + 1
                && fresh.wait is Spks && fresh.scan.last_active_index is None
                && fresh.scan.unused_spk_count == 0 && !fresh.scan.stopped
            &&& match run.scan.last_active_index {
                Some(index) => next.data.last_active.get(keychain) == Some(index),
                None => next.data.last_active.get(keychain) == state.data.last_active.get(keychain),
            }
            &&& other != keychain ==> next.data.last_active.get(other)
                == state.data.last_active.get(other)
            &&& next.data.update == state.data.update
            &&& next.data.pending == state.data.pending
        }),
{
}

/// A run begins with the comparison of tips, where it was asked to compare one, and else with the first
/// keychain. With nothing found yet the update is empty.
pub proof fn a_run_begins_with_the_tip<KV>(
    start_time: u64,
    stop_gap: nat,
    batch_size: nat,
    fetch_prev_txouts: bool,
    keychains: Seq<KV>,
    txids: Seq<Txid>,
    outpoints: Seq<OutPoint>,
    chain_tip: Option<CheckPoint>,
)
    ensures
        ({
            let data = run_start(
                start_time,
                stop_gap,
                batch_size,
                fetch_prev_txouts,
                keychains,
                txids,
                outpoints,
            );
            let stage = first_stage(data, chain_tip);
            &&& chain_tip is Some ==> stage == (StageView::Tip {
                chain: checkpoint_blocks(chain_tip->0),
                tip: None::<u32>,
                latest: None::<Map<u32, Hash256>>,
            })
            &&& chain_tip is None && keychains.len() > 0 ==> stage == (StageView::Spks {
                at: 0,
                run: spk_start(),
            })
            &&& chain_tip is None && keychains.len() == 0 ==> stage is Txids
            &&& data.start_time == start_time
            &&& data.stop_gap == stop_gap
            &&& data.batch_size == batch_size
            &&& data.fetch_prev_txouts == fetch_prev_txouts
            &&& data.keychains == keychains
            &&& data.txids == txids
            &&& data.outpoints == outpoints
            &&& data.update.txs.len() == 0
            &&& data.pending.len() == 0
            &&& data.chain is None
            &&& forall|txid: Txid| !(#[trigger] data.update.seen_ats.contains((txid, start_time)))
            &&& forall|keychain: KV| !(#[trigger] data.last_active.contains_key(keychain))
        }),
{
}

/// A failure ends a run with that failure, and changes nothing else; but a transaction of an outpoint that
/// could not be fetched is passed over, and so are failures while anchors are fetched.
pub proof fn failures_end_a_run<KV>(
    state: RunView<KV>,
    caches: Caches,
    e: Error,
    txid: Txid,
)
    ensures
        ({
            let tip = run_step(state, caches, RunReply::Tip(Err(e)));
            let headers = run_step(state, caches, RunReply::Headers(Err(e)));
            let header = run_step(state, caches, RunReply::Header(Err(e)));
            let histories = run_step(state, caches, RunReply::Histories(Err(e)));
            let tx = run_step(state, caches, RunReply::Tx(txid, Err(e)));
            &&& tip.1 == caches && headers.1 == caches && header.1 == caches && histories.1 == caches
                && tx.1 == caches
            &&& tip.0.data == state.data && headers.0.data == state.data && header.0.data
                == state.data && histories.0.data == state.data && tx.0.data == state.data
            &&& !(state.stage is Anchors || state.stage is Done || state.stage is Failed) ==> {
                &&& tip.0.stage == StageView::Failed(e)
                &&& headers.0.stage == StageView::Failed(e)
                &&& header.0.stage == StageView::Failed(e)
                &&& histories.0.stage == StageView::Failed(e)
                &&& !(state.stage is Outpoints) ==> tx.0.stage == StageView::Failed(e)
            }
            &&& state.stage matches StageView::Outpoints { at, found } ==> (at
                < state.data.outpoints.len() ==> tx.0.stage == (StageView::Outpoints {
                at: at + 1,
                found,
            }))
            &&& state.stage is Anchors || state.stage is Done || state.stage is Failed ==> tip.0
                == state && headers.0 == state && header.0 == state && histories.0 == state && tx.0
                == state
        }),
{
}

/// A transaction that comes is kept under the id that was asked for, and nothing else changes.
pub proof fn fetched_transactions_are_kept<KV>(
    state: RunView<KV>,
    caches: Caches,
    txid: Txid,
    tx: Transaction,
    other: Txid,
)
    requires
        state.stage is Spks || state.stage is Txids || state.stage is Outpoints || state.stage
            is OutpointTxs || state.stage is PrevTxouts,
    ensures
        ({
            let next = run_step(state, caches, RunReply::Tx(txid, Ok(tx)));
            &&& next.0 == state
            &&& next.1.txs.get(txid) == Some(tx@)
            &&& other != txid ==> next.1.txs.get(other) == caches.txs.get(other)
            &&& next.1.anchors == caches.anchors
        }),
{
}

/// The outpoints whose transactions are in the cache are gone through in order, up to the first whose
/// transaction is missing, which is then asked for.
pub proof fn outpoints_are_gone_through_in_order<KV>(
    data: RunData<KV>,
    caches: Caches,
    at: nat,
    found: Seq<OutPoint>,
    i: nat,
)
    requires
        at <= i <= data.outpoints.len(),
        forall|k: int|
            at <= k < i ==> caches.txs.contains_key((#[trigger] data.outpoints[k]).txid),
        i < data.outpoints.len() ==> !caches.txs.contains_key(data.outpoints[i as int].txid),
    ensures
        i < data.outpoints.len() ==> to_outpoints(data, caches, at, found) == (RunView {
            data,
            stage: StageView::Outpoints {
                at: i,
                found: found + data.outpoints.subrange(at as int, i as int),
            },
        }),
        i == data.outpoints.len() ==> to_outpoints(data, caches, at, found)
            == to_outpoint_histories(
            data,
            caches,
            found + data.outpoints.subrange(at as int, i as int),
        ),
    decreases i - at,
{
    if at < i {
        outpoints_are_gone_through_in_order(
            data,
            caches,
            at + 1,
            found.push(data.outpoints[at as int]),
            i,
        );
        assert(found.push(data.outpoints[at as int]) + data.outpoints.subrange(
            at as int + 1,
            i as int,
        ) =~= found + data.outpoints.subrange(at as int, i as int));
    } else {
        assert(found + data.outpoints.subrange(at as int, i as int) =~= found);
    }
}

/// Each outpoint that was found, and whose transaction has such an output, is looked for by the script of
/// that output.
pub proof fn found_outpoints_are_looked_for<KV>(
    data: RunData<KV>,
    caches: Caches,
    found: Seq<OutPoint>,
    i: int,
)
    requires
        0 <= i < found.len(),
        caches.txs.contains_key(found[i].txid),
        found[i].vout < caches.txs[found[i].txid].output.len(),
    ensures
        ({
            let next = to_outpoint_histories(data, caches, found);
            &&& next.data == data
            &&& next.stage matches StageView::OutpointHistories(ops) && ops.contains(
                OutpointTxView {
                    outpoint: found[i],
                    spk: caches.txs[found[i].txid].output[found[i].vout as int].script_pubkey,
                    tx: caches.txs[found[i].txid],
                },
            )
        }),
{
    outpoints_are_looked_for_by_their_scripts(caches.txs, found, i, 0);
}

/// After the last keychain come the transactions of the request: all of them are fetched, and each one with
/// an output is looked for.
pub proof fn requested_transactions_are_looked_for<KV>(
    data: RunData<KV>,
    caches: Caches,
    at: nat,
    i: int,
)
    requires
        at >= data.keychains.len(),
        0 <= i < data.txids.len(),
    ensures
        to_keychain(data, caches, at) == to_txids(data, caches),
        !caches.txs.contains_key(data.txids[i]) ==> to_txids(data, caches) == (RunView {
            data,
            stage: StageView::Txids,
        }),
        (forall|k: int|
            0 <= k < data.txids.len() ==> caches.txs.contains_key(#[trigger] data.txids[k]))
            && caches.txs[data.txids[i]].output.len() > 0 ==> (to_txids(
            data,
            caches,
        ).stage matches StageView::TxidHistories(txs) && txs.contains(
            (data.txids[i], caches.txs[data.txids[i]]),
        )),
{
    let txids = data.txids;
    let tx = caches.txs[txids[i]];
    if tx.output.len() > 0 {
        let one = seq![txids[i]];
        transactions_are_looked_for_by_their_first_output(caches.txs, one, Seq::empty(), 0);
        transactions_are_looked_for_by_their_first_output(
            caches.txs,
            txids.take(i) + one,
            txids.skip(i + 1),
            0,
        );
        transactions_are_looked_for_by_their_first_output(caches.txs, txids.take(i), one, 0);
        assert(txids.take(i) + one + txids.skip(i + 1) =~= txids);
        let n = with_an_output(caches.txs, txids.take(i)).len() as int;
        assert(with_an_output(caches.txs, txids)[n] == (txids[i], tx));
    }
}

/// The scripts whose histories are asked for: of each transaction that of its first output, and of the
/// outpoints each of theirs, once.
pub proof fn scripts_of_the_request_are_asked_about<KV>(
    state: RunView<KV>,
    caches: Caches,
    hashes: Vec<ElectrumScriptHash>,
    txs: Seq<(Txid, TransactionView)>,
    ops: Seq<OutpointTxView>,
    i: int,
)
    requires
        is_run_ask(state, caches, RunAsk::Histories(hashes)),
    ensures
        state.stage == StageView::TxidHistories(txs) ==> hashes@.len() == txs.len(),
        state.stage == StageView::TxidHistories(txs) && 0 <= i < txs.len() ==> hashes@[i]
            == electrum_script_hash(txs[i].1.output[0].script_pubkey),
        state.stage == StageView::OutpointHistories(ops) && 0 <= i < ops.len() ==> hashes@.contains(
            electrum_script_hash(ops[i].spk),
        ),
        state.stage == StageView::OutpointHistories(ops) ==> hashes@.len() == different_spks(
            ops,
        ).len(),
{
    if state.stage == StageView::OutpointHistories(ops) && 0 <= i < ops.len() {
        each_script_is_asked_about_once(ops, i, 0);
        let spks = different_spks(ops);
        let k = choose|k: int| 0 <= k < spks.len() && spks[k] == ops[i].spk;
        assert(hashes@[k] == electrum_script_hash(ops[i].spk));
    }
}

/// What the server says while tips are compared is taken as it is: the height of its tip, the hashes of the
/// latest blocks from where they were asked for, and the hash of one block at its height.
pub proof fn answers_on_the_tip_are_taken<KV>(
    state: RunView<KV>,
    caches: Caches,
    chain: Map<u32, Hash256>,
    tip: Option<u32>,
    latest: Option<Map<u32, Hash256>>,
    height: u32,
    headers: Vec<Header>,
    header: Header,
)
    requires
        state.stage == (StageView::Tip { chain, tip, latest }),
    ensures
        tip_wait(chain, tip, latest) is Tip ==> run_step(
            state,
            caches,
            RunReply::Tip(Ok(height)),
        ).0.stage == (StageView::Tip { chain, tip: Some(height), latest }),
        tip_wait(chain, tip, latest) == TipWait::Headers(height) ==> run_step(
            state,
            caches,
            RunReply::Headers(Ok(headers)),
        ).0.stage == (StageView::Tip {
            chain,
            tip,
            latest: Some(header_hashes(height, headers@)),
        }),
        tip_wait(chain, tip, latest) == TipWait::Header(height) && latest is Some ==> run_step(
            state,
            caches,
            RunReply::Header(Ok(header)),
        ).0.stage == (StageView::Tip {
            chain,
            tip,
            latest: Some(latest->0.insert(height, block_hash_of(header))),
        }),
        run_step(state, caches, RunReply::Tip(Ok(height))).0.data == state.data,
        run_step(state, caches, RunReply::Headers(Ok(headers))).0.data == state.data,
        run_step(state, caches, RunReply::Header(Ok(header))).0.data == state.data,
{
}

/// What follows a scan begins with what the scan found: each entry is pending or seen, and its transaction
/// is still to be fetched.
pub proof fn what_was_found_is_followed_up(
    update: TxUpdateView,
    entries: Seq<Tx>,
    start_time: u64,
    batch_size: nat,
    fetch_prev_txouts: bool,
    i: int,
)
    requires
        0 <= i < entries.len(),
    ensures
        ({
            let start = follow_up_start(update, entries, start_time, batch_size, fetch_prev_txouts);
            let entry = entries[i];
            &&& 1 <= entry.height <= 4294967295 ==> start.data.pending.contains(
                (entry.txid, entry.height as u32),
            )
            &&& !(1 <= entry.height <= 4294967295) ==> start.data.update.seen_ats.contains(
                (entry.txid, start_time),
            )
            &&& start.data.update.txs == update.txs
            &&& update.seen_ats.subset_of(start.data.update.seen_ats)
            &&& start.data.fetch_prev_txouts == fetch_prev_txouts
            &&& start.data.batch_size == batch_size
            &&& match start.stage {
                StageView::Spks { at, run } => match run.wait {
                    SpkWaitView::Txs(txids) => at == 0 && txids.contains(entry.txid),
                    _ => false,
                },
                _ => false,
            }
        }),
{
    let entry = entries[i];
    assert(entries[i].txid == entry.txid);
    confirmed_entries_are_pending(entries, Seq::empty());
    unconfirmed_entries_are_seen(entries, start_time, (entry.txid, start_time));
    assert(txids_of(entries)[i] == entry.txid);
}

/// While the transaction of an entry is missing that may spend an outpoint of the request, the run waits, and
/// nothing of what the histories say is taken into the update.
pub proof fn possible_spenders_hold_a_run_up<KV>(
    state: RunView<KV>,
    caches: Caches,
    ops: Seq<OutpointTxView>,
    histories: Seq<Seq<Tx>>,
    k: int,
    h: int,
    i: int,
)
    requires
        state.stage == (StageView::OutpointTxs { ops, histories }),
        0 <= k < ops.len(),
        0 <= h < histories.len(),
        h < different_spks(ops).len(),
        different_spks(ops)[h] == ops[k].spk,
        0 <= i < histories[h].len(),
        histories[h][i].txid != ops[k].outpoint.txid,
        !caches.txs.contains_key(histories[h][i].txid),
        forall|j: int|
            0 <= j < i && (#[trigger] histories[h][j]).txid != ops[k].outpoint.txid
                ==> caches.txs.contains_key(histories[h][j].txid) && !spends(
                caches.txs[histories[h][j].txid],
                ops[k].outpoint,
            ),
    ensures
        advanced(state, caches) == state,
{
    let spks = different_spks(ops);
    let total = outpoint_total(ops, histories);
    each_script_is_asked_about_once(ops, k, h);
    a_script_has_its_own_history(spks, histories, total, h);
    possible_spenders_are_waited_for(caches.txs, histories[h], ops[k].outpoint, i);
    assert(outpoint_history(ops[k], spks, histories, total) == histories[h]);
    assert(!is_ready(caches.txs, ops, histories));
}

/// Once nothing is waited for, what the histories say of the outpoints is taken into the update.
pub proof fn known_spenders_move_a_run_on<KV>(
    state: RunView<KV>,
    caches: Caches,
    ops: Seq<OutpointTxView>,
    histories: Seq<Seq<Tx>>,
)
    requires
        state.stage == (StageView::OutpointTxs { ops, histories }),
        forall|h: int, j: int|
            0 <= h < histories.len() && 0 <= j < histories[h].len() ==> caches.txs.contains_key(
                (#[trigger] histories[h][j]).txid,
            ),
    ensures
        ({
            let gathered = with_outpoints(state.data, caches.txs, ops, histories);
            let after = advanced(state, caches);
            &&& !(after.stage is OutpointTxs)
            &&& after.data.update.txs == gathered.update.txs
            &&& after.data.update.seen_ats == gathered.update.seen_ats
        }),
{
    let spks = different_spks(ops);
    let total = outpoint_total(ops, histories);
    assert forall|k: int| 0 <= k < ops.len() implies candidates_cached(
        caches.txs,
        outpoint_history(#[trigger] ops[k], spks, histories, total),
        ops[k].outpoint,
    ) by {
        let history = outpoint_history(ops[k], spks, histories, total);
        a_history_is_one_that_came(spks, histories, total, ops[k].spk);
        assert forall|j: int|
            0 <= j < history.len() && (#[trigger] history[j]).txid
                != ops[k].outpoint.txid implies caches.txs.contains_key(history[j].txid) by {
            let h = choose|h: int| 0 <= h < total && #[trigger] histories[h] == history;
            assert(histories[h][j] == history[j]);
        }
        a_history_without_a_spender_is_looked_through(caches.txs, history, ops[k].outpoint);
    }
    assert(is_ready(caches.txs, ops, histories));
}

/// The histories that come for outpoints are kept for them, and the scripts that come for a keychain are those
/// whose histories are asked for next.
pub proof fn answers_are_kept_where_they_belong<KV>(
    state: RunView<KV>,
    caches: Caches,
    ops: Seq<OutpointTxView>,
    histories: Vec<Vec<Tx>>,
    at: nat,
    run: SpkRunView,
    spks: Vec<(u32, SpkWithExpectedTxids)>,
    i: int,
)
    ensures
        state.stage == StageView::OutpointHistories(ops) ==> match run_step(
            state,
            caches,
            RunReply::Histories(Ok(histories)),
        ).0.stage {
            StageView::OutpointTxs { ops: same, histories: kept } => same == ops && kept.len()
                == histories@.len() && (0 <= i < kept.len() ==> kept[i] == histories@[i]@),
            _ => false,
        },
        state.stage == (StageView::Spks { at, run }) && run.wait is Spks && spks@.len() > 0
            ==> match run_step(state, caches, RunReply::Spks(spks)).0.stage {
            StageView::Spks { at: same, run: next } => same == at && next.wait
                == SpkWaitView::Histories(spks@) && next.scan == run.scan,
            _ => false,
        },
        state.stage == (StageView::Spks { at, run }) && run.wait is Spks && spks@.len() == 0
            ==> match run_step(state, caches, RunReply::Spks(spks)).0.stage {
            StageView::Spks { at: same, run: next } => same == at && next.wait is Done,
            _ => false,
        },
{
}

/// A comparison of tips that is done is followed by the first keychain, and its outcome is the chain of the
/// run.
pub proof fn a_compared_tip_is_followed_by_the_keychains<KV>(
    state: RunView<KV>,
    caches: Caches,
    chain: Map<u32, Hash256>,
    tip: Option<u32>,
    latest: Option<Map<u32, Hash256>>,
)
    requires
        state.stage == (StageView::Tip { chain, tip, latest }),
        state.data.keychains.len() > 0,
    ensures
        tip_wait(chain, tip, latest) is Done ==> {
            &&& advanced(state, caches).data.chain == Some(tip_outcome(chain, tip, latest))
            &&& advanced(state, caches).data.update == state.data.update
            &&& advanced(state, caches).stage == (StageView::Spks { at: 0, run: spk_start() })
        },
        !(tip_wait(chain, tip, latest) is Done) ==> advanced(state, caches) == state,
{
}

/// Histories that come while a keychain is scanned are taken into the update of the run.
pub proof fn histories_of_a_keychain_are_gathered<KV>(
    state: RunView<KV>,
    caches: Caches,
    at: nat,
    run: SpkRunView,
    histories: Vec<Vec<Tx>>,
)
    requires
        state.stage == (StageView::Spks { at, run }),
    ensures
        ({
            let gathered = with_histories(
                SpkState { run, update: state.data.update, pending: state.data.pending },
                histories@,
                state.data.start_time,
                state.data.stop_gap,
            );
            let (after, then) = run_step(state, caches, RunReply::Histories(Ok(histories)));
            &&& then == caches
            &&& after.data.update == gathered.update
            &&& after.data.pending == gathered.pending
            &&& after.stage == (StageView::Spks { at, run: gathered.run })
            &&& after.data.last_active == state.data.last_active
            &&& after.data.chain == state.data.chain
        }),
{
}

/// What a run asks for is what its stage waits for: the tip; eight headers from where they are needed, or one;
/// as many scripts of the keychain as a batch has, and the history of each of them; a transaction that is
/// missing. It is done, or has failed, where its stage says so.
pub proof fn a_run_asks_for_what_it_waits_for<KV>(
    state: RunView<KV>,
    caches: Caches,
    chain: Map<u32, Hash256>,
    tip: Option<u32>,
    latest: Option<Map<u32, Hash256>>,
    height: u32,
    headers: u32,
    keychain: usize,
    count: usize,
    at: nat,
    run: SpkRunView,
    spks: Seq<(u32, SpkWithExpectedTxids)>,
    hashes: Vec<ElectrumScriptHash>,
    txid: Txid,
    i: int,
)
    ensures
        state.stage == (StageView::Tip { chain, tip, latest }) ==> {
            &&& is_run_ask(state, caches, RunAsk::Tip) ==> tip_wait(chain, tip, latest) is Tip
            &&& is_run_ask(state, caches, RunAsk::Headers { start_height: height, count: headers })
                ==> tip_wait(chain, tip, latest) == TipWait::Headers(height) && headers == 8
            &&& is_run_ask(state, caches, RunAsk::Header { height }) ==> tip_wait(
                chain,
                tip,
                latest,
            ) == TipWait::Header(height)
        },
        state.stage == (StageView::Spks { at, run }) ==> {
            &&& is_run_ask(state, caches, RunAsk::Spks { keychain, count }) ==> keychain == at
                && count == state.data.batch_size && run.wait is Spks
            &&& is_run_ask(state, caches, RunAsk::Histories(hashes)) && run.wait
                == SpkWaitView::Histories(spks) ==> hashes@.len() == spks.len() && (0 <= i
                < spks.len() ==> hashes@[i] == electrum_script_hash(spks[i].1.spk@))
            &&& is_run_ask(state, caches, RunAsk::Tx(txid)) ==> run.wait is Txs
        },
        is_run_ask(state, caches, RunAsk::Tx(txid)) && state.stage is Txids
            ==> state.data.txids.contains(txid),
        is_run_ask(state, caches, RunAsk::Done) <==> state.stage is Done,
        is_run_ask(state, caches, RunAsk::Failed) <==> state.stage is Failed,
{
}

} // verus!
