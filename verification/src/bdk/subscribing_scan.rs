//! A whole full scan that subscribes to the scripts with a history, and proves each confirmed
//! transaction as it goes along.
//!
//! A scan is asked what it needs next, and told what the server answered.
use bdk_core::CheckPoint;
use vstd::prelude::*;

use crate::bdk::bdk_electrum_client::{
    active_scripts_of, hashes_of, scripts_to_subscribe, scripts_with_a_history_are_subscribed_to,
    subscription_views, txid_set, with_scripts, BdkElectrumClient, ScriptSubscription,
};
use crate::bdk::constant::CHAIN_SUFFIX_LENGTH;
use crate::bdk::history::{
    enter, history_ask, history_caches, history_step, HistoryAsk, HistoryCaches, HistoryEvent,
    HistoryRun, HistoryView, HistoryWaitView,
};
use crate::bdk::populate::{
    all_cached, all_prevouts, every_input_is_fetched, is_first_missing, outpoint_txids,
    prev_txouts, previous_outputs_are_those_referred_to, prevouts,
};
use crate::bdk::response::{
    chain_of, compared_chain, note_last_active, with_last_active, FullScanResponse,
};
use crate::bdk::run::{copy_hashes, keychain_views};
use crate::bdk::scan::{
    all_entries, batch_script_hashes, batch_total, evicted_of,
    expected_transactions_that_are_missing_are_gone, extent_is_unique, goes_through, histories_of,
    last_active_of, script_hashes, the_last_script_with_a_history_is_active, unused_before,
    SpkScan, SpkWithExpectedTxids,
};
use crate::bdk::spk_run::extent_of;
use crate::bdk::tip::{header_hashes, tip_outcome, tip_wait, TipFetch, TipStep, TipWait};
use crate::chain::{block_hash_of, checkpoint_blocks, tip_blocks, ConfirmationBlockTime, Header};
use crate::electrum::error::Error;
use crate::electrum::types::Tx;
use crate::hash::{electrum_script_hash, BlockHash, ElectrumScriptHash, Hash256, Txid};
use crate::ordered::{Key, OrderedMap, OrderedSet};
use crate::tx::{
    empty_update, is_coinbase_tx, joined_update, txid_of, Transaction, TxUpdate, TxUpdateView,
};

verus! {

/// What a client knows: its caches, and what it expects of the scripts that are subscribed.
pub struct Known {
    /// Transactions and headers.
    pub caches: HistoryCaches,
    /// What is expected of each script.
    pub tracker: Map<ElectrumScriptHash, Set<Txid>>,
}

/// What a client knows.
pub open spec fn known_of<C>(client: BdkElectrumClient<C>) -> Known {
    Known { caches: history_caches(client.client), tracker: client.subscription_tracker@ }
}

/// What is asked for, and what was found out.
#[verifier::reject_recursive_types(KV)]
pub struct ScanData<KV> {
    /// The time at which transactions are seen or found to be gone.
    pub start_time: u64,
    /// How many scripts in a row are without history at the end of a keychain.
    pub stop_gap: nat,
    /// How many scripts are asked about at once.
    pub batch_size: nat,
    /// Whether what transactions spend is fetched too.
    pub fetch_prev_txouts: bool,
    /// Whether scripts with a history are subscribed.
    pub subscribe: bool,
    /// The keychains.
    pub keychains: Seq<KV>,
    /// What was found out about transactions.
    pub update: TxUpdateView,
    /// How far keychains are used.
    pub last_active: Map<KV, u32>,
    /// The scripts that were subscribed.
    pub subscribed: Set<ElectrumScriptHash>,
    /// The chain and the latest blocks, once tips were compared.
    pub chain: Option<(Map<u32, Hash256>, Map<u32, Hash256>)>,
}

/// Where a scan stands.
#[allow(inconsistent_fields)]
pub enum ScanStageView {
    /// The tip of the server is compared with the tip that is known.
    Tip {
        /// The chain that is known.
        chain: Map<u32, Hash256>,
        /// The height of the tip of the server, once it is known.
        tip: Option<u32>,
        /// The latest blocks, once they are known.
        latest: Option<Map<u32, Hash256>>,
    },
    /// The next scripts of a keychain are waited for.
    Spks {
        /// The position of the keychain.
        at: nat,
        /// How far it is scanned.
        scan: SpkScan,
    },
    /// The histories of scripts are waited for.
    Histories {
        /// The position of the keychain.
        at: nat,
        /// How far it is scanned.
        scan: SpkScan,
        /// The scripts.
        spks: Seq<(u32, SpkWithExpectedTxids)>,
    },
    /// The entries of histories are followed up.
    Entries {
        /// The position of the keychain.
        at: nat,
        /// How far it is scanned.
        scan: SpkScan,
        /// How far the entries are followed up.
        run: HistoryView,
        /// The scripts to be subscribed after that.
        scripts: Seq<(ElectrumScriptHash, Set<Txid>)>,
    },
    /// Scripts are subscribed.
    Subscribe {
        /// The position of the keychain.
        at: nat,
        /// How far it is scanned.
        scan: SpkScan,
        /// The scripts.
        hashes: Seq<ElectrumScriptHash>,
    },
    /// What transactions spend is fetched.
    PrevTxouts,
    /// The response can be made.
    Done,
    /// Something that is needed could not be had.
    Failed(Error),
}

/// What is asked for, what was found out, and where the scan stands.
#[verifier::reject_recursive_types(KV)]
pub struct ScanView<KV> {
    /// What is asked for, and what was found out.
    pub data: ScanData<KV>,
    /// Where the scan stands.
    pub stage: ScanStageView,
}

/// Previous outputs are fetched for fee calculation if the flag is enabled.
pub open spec fn to_scan_prev_txouts<KV>(data: ScanData<KV>, known: Known) -> ScanView<KV> {
    let outpoints = all_prevouts(data.update.txs, data.update.txs.len() as int);
    if !data.fetch_prev_txouts {
        ScanView { data, stage: ScanStageView::Done }
    } else if all_cached(known.caches.txs, outpoint_txids(outpoints)) {
        ScanView {
            data: ScanData {
                update: TxUpdateView {
                    txouts: data.update.txouts.union_prefer_right(
                        prev_txouts(known.caches.txs, outpoints),
                    ),
                    ..data.update
                },
                ..data
            },
            stage: ScanStageView::Done,
        }
    } else {
        ScanView { data, stage: ScanStageView::PrevTxouts }
    }
}

/// The keychains are scanned one after the other.
pub open spec fn to_scan_keychain<KV>(data: ScanData<KV>, known: Known, at: nat) -> ScanView<KV> {
    if at < data.keychains.len() {
        ScanView {
            data,
            stage: ScanStageView::Spks {
                at,
                scan: SpkScan { last_active_index: None, unused_spk_count: 0, stopped: false },
            },
        }
    } else {
        to_scan_prev_txouts(data, known)
    }
}

/// A keychain is at its end.
pub open spec fn after_keychain<KV>(
    data: ScanData<KV>,
    known: Known,
    at: nat,
    scan: SpkScan,
) -> ScanView<KV> {
    to_scan_keychain(
        ScanData {
            last_active: with_last_active(
                data.last_active,
                data.keychains[at as int],
                scan.last_active_index,
            ),
            ..data
        },
        known,
        at + 1,
    )
}

/// A batch of scripts was gone through: the next one follows, unless the keychain is at its end.
pub open spec fn after_batch<KV>(
    data: ScanData<KV>,
    known: Known,
    at: nat,
    scan: SpkScan,
) -> ScanView<KV> {
    if scan.stopped {
        after_keychain(data, known, at, scan)
    } else {
        ScanView { data, stage: ScanStageView::Spks { at, scan } }
    }
}

/// Entries are followed up. After that what they brought is part of the update, and the scripts with a
/// history are tracked and subscribed.
pub open spec fn at_entries<KV>(
    data: ScanData<KV>,
    known: Known,
    at: nat,
    scan: SpkScan,
    run: HistoryView,
    scripts: Seq<(ElectrumScriptHash, Set<Txid>)>,
) -> (ScanView<KV>, Known) {
    match run.wait {
        HistoryWaitView::Done => {
            let data = ScanData { update: joined_update(data.update, run.update), ..data };
            if scripts.len() == 0 {
                (after_batch(data, known, at, scan), known)
            } else {
                (
                    ScanView {
                        data: ScanData {
                            subscribed: data.subscribed.union(hashes_of(scripts).to_set()),
                            ..data
                        },
                        stage: ScanStageView::Subscribe { at, scan, hashes: hashes_of(scripts) },
                    },
                    Known { tracker: with_scripts(known.tracker, scripts), ..known },
                )
            }
        },
        HistoryWaitView::Failed(e) => (ScanView { data, stage: ScanStageView::Failed(e) }, known),
        _ => (ScanView { data, stage: ScanStageView::Entries { at, scan, run, scripts } }, known),
    }
}

/// How far a scan goes with what the client knows.
pub open spec fn scan_advanced<KV>(state: ScanView<KV>, known: Known) -> (ScanView<KV>, Known) {
    match state.stage {
        ScanStageView::Tip { chain, tip, latest } => if tip_wait(chain, tip, latest) is Done {
            (
                to_scan_keychain(
                    ScanData { chain: Some(tip_outcome(chain, tip, latest)), ..state.data },
                    known,
                    0,
                ),
                known,
            )
        } else {
            (state, known)
        },
        ScanStageView::Entries { at, scan, run, scripts } => at_entries(
            state.data,
            known,
            at,
            scan,
            run,
            scripts,
        ),
        ScanStageView::PrevTxouts => (to_scan_prev_txouts(state.data, known), known),
        _ => (state, known),
    }
}

/// What a scan needs next.
#[allow(inconsistent_fields)]
pub enum ScanAsk {
    /// The height of the tip of the server.
    Tip,
    /// Some consecutive block headers.
    Headers {
        /// Height of the first one.
        start_height: u32,
        /// How many.
        count: u32,
    },
    /// A block header.
    Header {
        /// Its height.
        height: u32,
    },
    /// The next scripts of a keychain.
    Spks {
        /// The position of the keychain.
        keychain: usize,
        /// How many, at most.
        count: usize,
    },
    /// The histories of some scripts.
    Histories(Vec<ElectrumScriptHash>),
    /// What following up history entries needs.
    History(HistoryAsk),
    /// A subscription to some scripts, which may fail.
    Subscribe(Vec<ElectrumScriptHash>),
    /// A transaction.
    Tx(Txid),
    /// Nothing: the response can be made.
    Done,
    /// Nothing: something that is needed could not be had.
    Failed,
}

/// Whether this is what a scan needs next.
pub open spec fn is_scan_ask<KV>(state: ScanView<KV>, known: Known, ask: ScanAsk) -> bool {
    match (state.stage, ask) {
        (ScanStageView::Tip { chain, tip, latest }, ScanAsk::Tip) => tip_wait(chain, tip, latest)
            is Tip,
        (
            ScanStageView::Tip { chain, tip, latest },
            ScanAsk::Headers { start_height, count },
        ) => tip_wait(chain, tip, latest) == TipWait::Headers(start_height) && count
            == CHAIN_SUFFIX_LENGTH,
        (ScanStageView::Tip { chain, tip, latest }, ScanAsk::Header { height }) => tip_wait(
            chain,
            tip,
            latest,
        ) == TipWait::Header(height),
        (ScanStageView::Spks { at, scan }, ScanAsk::Spks { keychain, count }) => keychain == at
            && count == state.data.batch_size,
        (ScanStageView::Histories { at, scan, spks }, ScanAsk::Histories(hashes)) => hashes@
            == batch_script_hashes(spks),
        (ScanStageView::Entries { at, scan, run, scripts }, ScanAsk::History(ask)) => ask
            == history_ask(run) && !(ask is Done) && !(ask is Failed),
        (ScanStageView::Subscribe { at, scan, hashes }, ScanAsk::Subscribe(list)) => list@ == hashes,
        (ScanStageView::PrevTxouts, ScanAsk::Tx(txid)) => is_first_missing(
            known.caches.txs,
            outpoint_txids(
                all_prevouts(state.data.update.txs, state.data.update.txs.len() as int),
            ),
            txid,
        ),
        (ScanStageView::Done, ScanAsk::Done) => true,
        (ScanStageView::Failed(e), ScanAsk::Failed) => true,
        _ => false,
    }
}

/// What a scan is told.
pub enum ScanReply {
    /// The height of the tip of the server.
    Tip(Result<u32, Error>),
    /// Some consecutive block headers.
    Headers(Result<Vec<Header>, Error>),
    /// A block header.
    Header(Result<Header, Error>),
    /// The next scripts of a keychain, with their indices.
    Spks(Vec<(u32, SpkWithExpectedTxids)>),
    /// The histories of some scripts.
    Histories(Result<Vec<Vec<Tx>>, Error>),
    /// What following up history entries needs.
    History(HistoryEvent),
    /// The subscription was asked for, with or without success.
    Subscribed,
    /// The transaction with an id.
    Tx(Txid, Result<Transaction, Error>),
}

/// Why something could not be had, where it could not be.
pub open spec fn scan_failure_of(reply: ScanReply) -> Option<Error> {
    match reply {
        ScanReply::Tip(Err(e)) => Some(e),
        ScanReply::Headers(Err(e)) => Some(e),
        ScanReply::Header(Err(e)) => Some(e),
        ScanReply::Histories(Err(e)) => Some(e),
        ScanReply::Tx(_, Err(e)) => Some(e),
        _ => None,
    }
}

/// What is known of the server, with what it answered.
pub open spec fn scan_tip_step(
    chain: Map<u32, Hash256>,
    tip: Option<u32>,
    latest: Option<Map<u32, Hash256>>,
    reply: ScanReply,
) -> ScanStageView {
    match (tip_wait(chain, tip, latest), reply) {
        (TipWait::Tip, ScanReply::Tip(Ok(height))) => ScanStageView::Tip {
            chain,
            tip: Some(height),
            latest,
        },
        (TipWait::Headers(start), ScanReply::Headers(Ok(headers))) => ScanStageView::Tip {
            chain,
            tip,
            latest: Some(header_hashes(start, headers@)),
        },
        (TipWait::Header(height), ScanReply::Header(Ok(header))) => ScanStageView::Tip {
            chain,
            tip,
            latest: match latest {
                Some(blocks) => Some(blocks.insert(height, block_hash_of(header))),
                None => None,
            },
        },
        _ => ScanStageView::Tip { chain, tip, latest },
    }
}

/// A scan with the histories of a batch of scripts, until `stop_gap` scripts in a row are without
/// history: what is gone from them is evicted, and what is in them is followed up.
pub open spec fn to_entries<KV>(
    data: ScanData<KV>,
    known: Known,
    at: nat,
    scan: SpkScan,
    spks: Seq<(u32, SpkWithExpectedTxids)>,
    histories: Seq<Vec<Tx>>,
) -> ScanView<KV> {
    let hists = histories_of(histories);
    let total = batch_total(spks, histories);
    let n = extent_of(hists, total, scan.unused_spk_count as nat, data.stop_gap);
    ScanView {
        data: ScanData {
            update: TxUpdateView {
                evicted_ats: data.update.evicted_ats.union(
                    evicted_of(spks, hists, n, data.start_time),
                ),
                ..data.update
            },
            ..data
        },
        stage: ScanStageView::Entries {
            at,
            scan: SpkScan {
                last_active_index: last_active_of(spks, hists, n, scan.last_active_index),
                unused_spk_count: unused_before(hists, n, scan.unused_spk_count as nat) as usize,
                stopped: n < total,
            },
            run: enter(
                HistoryView {
                    start_time: data.start_time,
                    entries: all_entries(hists.take(n)),
                    update: empty_update(),
                    wait: HistoryWaitView::Done,
                },
                known.caches,
            ),
            scripts: if data.subscribe {
                active_scripts_of(spks, hists, n)
            } else {
                Seq::empty()
            },
        },
    }
}

/// How an answer changes a scan. An answer to something that is not waited for changes nothing.
pub open spec fn scan_step<KV>(state: ScanView<KV>, known: Known, reply: ScanReply) -> (
    ScanView<KV>,
    Known,
) {
    match (scan_failure_of(reply), state.stage, reply) {
        (_, ScanStageView::Done, _) => (state, known),
        (_, ScanStageView::Failed(e), _) => (state, known),
        (Some(e), _, _) => (ScanView { stage: ScanStageView::Failed(e), ..state }, known),
        (None, ScanStageView::Tip { chain, tip, latest }, _) => (
            ScanView { stage: scan_tip_step(chain, tip, latest, reply), ..state },
            known,
        ),
        (None, ScanStageView::Spks { at, scan }, ScanReply::Spks(spks)) => if spks@.len() == 0 {
            (after_keychain(state.data, known, at, scan), known)
        } else {
            (
                ScanView {
                    stage: ScanStageView::Histories { at, scan, spks: spks@ },
                    ..state
                },
                known,
            )
        },
        (
            None,
            ScanStageView::Histories { at, scan, spks },
            ScanReply::Histories(Ok(histories)),
        ) => (to_entries(state.data, known, at, scan, spks, histories@), known),
        (
            None,
            ScanStageView::Entries { at, scan, run, scripts },
            ScanReply::History(event),
        ) => {
            let (run, caches) = history_step(run, known.caches, event);
            (
                ScanView {
                    stage: ScanStageView::Entries { at, scan, run, scripts },
                    ..state
                },
                Known { caches, ..known },
            )
        },
        (None, ScanStageView::Subscribe { at, scan, hashes }, ScanReply::Subscribed) => (
            after_batch(state.data, known, at, scan),
            known,
        ),
        (None, ScanStageView::PrevTxouts, ScanReply::Tx(txid, Ok(tx))) => (
            state,
            Known {
                caches: HistoryCaches {
                    txs: known.caches.txs.insert(txid, tx@),
                    ..known.caches
                },
                ..known
            },
        ),
        _ => (state, known),
    }
}

#[allow(inconsistent_fields)]
enum ScanStage {
    Tip(TipFetch),
    Spks { at: usize, scan: SpkScan },
    Histories { at: usize, scan: SpkScan, spks: Vec<(u32, SpkWithExpectedTxids)> },
    Entries {
        at: usize,
        scan: SpkScan,
        run: HistoryRun,
        scripts: Vec<(ElectrumScriptHash, ScriptSubscription)>,
    },
    Subscribe { at: usize, scan: SpkScan, hashes: Vec<ElectrumScriptHash> },
    PrevTxouts,
    Done,
    Failed(Error),
}

spec fn scan_stage_view(stage: ScanStage) -> ScanStageView {
    match stage {
        ScanStage::Tip(fetch) => ScanStageView::Tip {
            chain: fetch.prev(),
            tip: fetch.tip(),
            latest: fetch.latest(),
        },
        ScanStage::Spks { at, scan } => ScanStageView::Spks { at: at as nat, scan },
        ScanStage::Histories { at, scan, spks } => ScanStageView::Histories {
            at: at as nat,
            scan,
            spks: spks@,
        },
        ScanStage::Entries { at, scan, run, scripts } => ScanStageView::Entries {
            at: at as nat,
            scan,
            run: run@,
            scripts: subscription_views(scripts@),
        },
        ScanStage::Subscribe { at, scan, hashes } => ScanStageView::Subscribe {
            at: at as nat,
            scan,
            hashes: hashes@,
        },
        ScanStage::PrevTxouts => ScanStageView::PrevTxouts,
        ScanStage::Done => ScanStageView::Done,
        ScanStage::Failed(e) => ScanStageView::Failed(e),
    }
}

/// Whether what a stage holds fits together.
spec fn scan_stage_wf(stage: ScanStage, keychains: usize) -> bool {
    match stage {
        ScanStage::Spks { at, scan } => at < keychains,
        ScanStage::Histories { at, scan, spks } => at < keychains,
        ScanStage::Entries { at, scan, run, scripts } => at < keychains && run.wf(),
        ScanStage::Subscribe { at, scan, hashes } => at < keychains,
        _ => true,
    }
}

/// A full scan that subscribes to the scripts with a history.
pub struct SubscribingScan<K: Key> {
    start_time: u64,
    stop_gap: usize,
    batch_size: usize,
    fetch_prev_txouts: bool,
    subscribe: bool,
    keychains: Vec<K>,
    tx_update: TxUpdate,
    last_active_indices: OrderedMap<K, u32>,
    subscribed_scripts: OrderedSet<ElectrumScriptHash>,
    chain: Option<(CheckPoint, OrderedMap<u32, BlockHash>)>,
    stage: ScanStage,
}

impl<K: Key> View for SubscribingScan<K> {
    type V = ScanView<K::V>;

    closed spec fn view(&self) -> ScanView<K::V> {
        ScanView { data: self.data(), stage: scan_stage_view(self.stage) }
    }
}

impl<K: Key> SubscribingScan<K> {
    closed spec fn data(&self) -> ScanData<K::V> {
        ScanData {
            start_time: self.start_time,
            stop_gap: self.stop_gap as nat,
            batch_size: self.batch_size as nat,
            fetch_prev_txouts: self.fetch_prev_txouts,
            subscribe: self.subscribe,
            keychains: keychain_views(self.keychains@),
            update: self.tx_update@,
            last_active: self.last_active_indices@,
            subscribed: self.subscribed_scripts@,
            chain: compared_chain(self.chain),
        }
    }

    /// Whether the scan is one that was begun with [`SubscribingScan::new`].
    pub closed spec fn wf(&self) -> bool {
        scan_stage_wf(self.stage, self.keychains.len())
    }

    /// Begins a full scan, which optionally subscribes to scripts. Tips are compared where one is
    /// known.
    pub fn new(
        chain_tip: Option<CheckPoint>,
        start_time: u64,
        keychains: Vec<K>,
        stop_gap: usize,
        batch_size: usize,
        fetch_prev_txouts: bool,
        subscribe: bool,
    ) -> (r: Self)
        ensures
            r.wf(),
            r@.data == (ScanData {
                start_time,
                stop_gap: stop_gap as nat,
                batch_size: batch_size as nat,
                fetch_prev_txouts,
                subscribe,
                keychains: keychain_views(keychains@),
                update: empty_update(),
                last_active: Map::empty(),
                subscribed: Set::empty(),
                chain: None,
            }),
            r@.stage == match chain_tip {
                Some(tip) => ScanStageView::Tip {
                    chain: checkpoint_blocks(tip),
                    tip: None,
                    latest: None,
                },
                None => if keychains@.len() > 0 {
                    ScanStageView::Spks {
                        at: 0,
                        scan: (SpkScan {
                            last_active_index: None,
                            unused_spk_count: 0,
                            stopped: false,
                        }),
                    }
                } else {
                    ScanStageView::PrevTxouts
                },
            },
    {
        let stage = match chain_tip {
            Some(tip) => ScanStage::Tip(TipFetch::new(tip)),
            None => if keychains.len() > 0 {
                ScanStage::Spks { at: 0, scan: SpkScan::new() }
            } else {
                ScanStage::PrevTxouts
            },
        };
        SubscribingScan {
            start_time,
            stop_gap,
            batch_size,
            fetch_prev_txouts,
            subscribe,
            keychains,
            tx_update: TxUpdate::new(),
            last_active_indices: OrderedMap::new(),
            subscribed_scripts: OrderedSet::new(),
            chain: None,
            stage,
        }
    }

    /// Fetches previous outputs for fee calculation if the flag is enabled.
    fn to_prev_txouts<C>(&mut self, client: &BdkElectrumClient<C>)
        ensures
            final(self).wf(),
            final(self)@ == to_scan_prev_txouts(old(self).data(), known_of(*client)),
    {
        if self.fetch_prev_txouts {
            if client.client.fetch_prev_txout(&mut self.tx_update).is_some() {
                self.stage = ScanStage::PrevTxouts;
                return;
            }
        }
        self.stage = ScanStage::Done;
    }

    fn to_keychain<C>(&mut self, client: &BdkElectrumClient<C>, at: usize)
        ensures
            final(self).wf(),
            final(self)@ == to_scan_keychain(old(self).data(), known_of(*client), at as nat),
    {
        if at < self.keychains.len() {
            self.stage = ScanStage::Spks { at, scan: SpkScan::new() };
        } else {
            self.to_prev_txouts(client);
        }
    }

    fn after_keychain<C>(&mut self, client: &BdkElectrumClient<C>, at: usize, scan: SpkScan)
        requires
            at < old(self).keychains.len(),
        ensures
            final(self).wf(),
            final(self)@ == after_keychain(old(self).data(), known_of(*client), at as nat, scan),
    {
        note_last_active(
            &mut self.last_active_indices,
            &self.keychains[at],
            scan.last_active_index,
        );
        self.to_keychain(client, at + 1);
    }

    fn after_batch<C>(&mut self, client: &BdkElectrumClient<C>, at: usize, scan: SpkScan)
        requires
            at < old(self).keychains.len(),
        ensures
            final(self).wf(),
            final(self)@ == after_batch(old(self).data(), known_of(*client), at as nat, scan),
    {
        if scan.stopped {
            self.after_keychain(client, at, scan);
        } else {
            self.stage = ScanStage::Spks { at, scan };
        }
    }

    /// Once entries were followed up, what they brought is part of the update, and the scripts with a
    /// history are tracked and subscribed.
    fn at_entries<C>(
        &mut self,
        client: &mut BdkElectrumClient<C>,
        at: usize,
        scan: SpkScan,
        run: HistoryRun,
        scripts: Vec<(ElectrumScriptHash, ScriptSubscription)>,
    )
        requires
            at < old(self).keychains.len(),
            run.wf(),
        ensures
            final(self).wf(),
            final(client).client == old(client).client,
            (final(self)@, known_of(*final(client))) == at_entries(
                old(self).data(),
                known_of(*old(client)),
                at as nat,
                scan,
                run@,
                subscription_views(scripts@),
            ),
    {
        match run.ask() {
            HistoryAsk::Done | HistoryAsk::Failed => {
                match run.into_update() {
                    Ok(update) => {
                        self.tx_update.extend(update);
                        if scripts.len() == 0 {
                            self.after_batch(client, at, scan);
                        } else {
                            let hashes = client.subscribe_scripts(
                                &scripts,
                                &mut self.subscribed_scripts,
                            );
                            self.stage = ScanStage::Subscribe { at, scan, hashes };
                        }
                    },
                    Err(e) => {
                        self.stage = ScanStage::Failed(e);
                    },
                }
            },
            _ => {
                self.stage = ScanStage::Entries { at, scan, run, scripts };
            },
        }
    }
}

impl<K: Key> SubscribingScan<K> {
    /// Goes as far as it can be gone with what the client knows.
    fn advance<C>(&mut self, client: &mut BdkElectrumClient<C>)
        requires
            old(self).wf(),
        ensures
            final(self).wf(),
            final(client).client == old(client).client,
            (final(self)@, known_of(*final(client))) == scan_advanced(
                old(self)@,
                known_of(*old(client)),
            ),
    {
        let mut stage = ScanStage::Done;
        std::mem::swap(&mut stage, &mut self.stage);
        proof {
            assert(self.data() == old(self).data());
        }
        match stage {
            ScanStage::Tip(fetch) => match fetch.fetch_tip_and_latest_blocks() {
                TipStep::Done { tip, latest_blocks } => {
                    self.chain = Some((tip, latest_blocks));
                    self.to_keychain(client, 0);
                },
                _ => {
                    self.stage = ScanStage::Tip(fetch);
                },
            },
            ScanStage::Entries { at, scan, run, scripts } => {
                self.at_entries(client, at, scan, run, scripts);
            },
            ScanStage::PrevTxouts => {
                self.to_prev_txouts(client);
            },
            stage => {
                self.stage = stage;
            },
        }
    }

    /// Goes as far as it can be gone with what the client knows, and says what is needed next.
    pub fn ask<C>(&mut self, client: &mut BdkElectrumClient<C>) -> (r: ScanAsk)
        requires
            old(self).wf(),
        ensures
            final(self).wf(),
            final(client).client == old(client).client,
            (final(self)@, known_of(*final(client))) == scan_advanced(
                old(self)@,
                known_of(*old(client)),
            ),
            is_scan_ask(final(self)@, known_of(*final(client)), r),
    {
        self.advance(client);
        proof {
            advancing_settles(old(self)@, known_of(*old(client)));
        }
        match &self.stage {
            ScanStage::Tip(fetch) => match fetch.fetch_tip_and_latest_blocks() {
                TipStep::Tip => ScanAsk::Tip,
                TipStep::Headers { start_height, count } => {
                    ScanAsk::Headers { start_height, count }
                },
                TipStep::Header { height } => ScanAsk::Header { height },
                TipStep::Done { .. } => ScanAsk::Done,
            },
            ScanStage::Spks { at, .. } => {
                ScanAsk::Spks { keychain: *at, count: self.batch_size }
            },
            ScanStage::Histories { spks, .. } => ScanAsk::Histories(script_hashes(spks)),
            ScanStage::Entries { run, .. } => ScanAsk::History(run.ask()),
            ScanStage::Subscribe { hashes, .. } => ScanAsk::Subscribe(copy_hashes(hashes)),
            ScanStage::PrevTxouts => {
                let txids = prev_txids(&self.tx_update);
                match client.client.first_missing(&txids) {
                    Some(txid) => ScanAsk::Tx(txid),
                    None => ScanAsk::Done,
                }
            },
            ScanStage::Done => ScanAsk::Done,
            ScanStage::Failed(_) => ScanAsk::Failed,
        }
    }

    /// Takes in what the server answered.
    pub fn step<C>(&mut self, client: &mut BdkElectrumClient<C>, reply: ScanReply)
        requires
            old(self).wf(),
        ensures
            final(self).wf(),
            final(client).client.handle() == old(client).client.handle(),
            final(client).client.anchors() == old(client).client.anchors(),
            (final(self)@, known_of(*final(client))) == scan_step(
                old(self)@,
                known_of(*old(client)),
                reply,
            ),
    {
        let mut stage = ScanStage::Done;
        std::mem::swap(&mut stage, &mut self.stage);
        proof {
            assert(self.data() == old(self).data());
        }
        match (stage, reply) {
            (ScanStage::Done, _) => {},
            (ScanStage::Failed(e), _) => {
                self.stage = ScanStage::Failed(e);
            },
            (_, ScanReply::Tip(Err(e))) => {
                self.stage = ScanStage::Failed(e);
            },
            (_, ScanReply::Headers(Err(e))) => {
                self.stage = ScanStage::Failed(e);
            },
            (_, ScanReply::Header(Err(e))) => {
                self.stage = ScanStage::Failed(e);
            },
            (_, ScanReply::Histories(Err(e))) => {
                self.stage = ScanStage::Failed(e);
            },
            (_, ScanReply::Tx(_, Err(e))) => {
                self.stage = ScanStage::Failed(e);
            },
            (ScanStage::Tip(mut fetch), reply) => {
                take_tip_reply(&mut fetch, reply);
                self.stage = ScanStage::Tip(fetch);
            },
            (ScanStage::Spks { at, scan }, ScanReply::Spks(spks)) => {
                if spks.len() == 0 {
                    self.after_keychain(client, at, scan);
                } else {
                    self.stage = ScanStage::Histories { at, scan, spks };
                }
            },
            (
                ScanStage::Histories { at, scan, spks },
                ScanReply::Histories(Ok(histories)),
            ) => {
                self.take_histories(client, at, scan, spks, histories);
            },
            (
                ScanStage::Entries { at, scan, mut run, scripts },
                ScanReply::History(event),
            ) => {
                run.step(&mut client.client, event);
                self.stage = ScanStage::Entries { at, scan, run, scripts };
            },
            (ScanStage::Subscribe { at, scan, .. }, ScanReply::Subscribed) => {
                self.after_batch(client, at, scan);
            },
            (ScanStage::PrevTxouts, ScanReply::Tx(txid, Ok(tx))) => {
                client.client.cache_tx(txid, tx);
                self.stage = ScanStage::PrevTxouts;
            },
            (stage, _) => {
                self.stage = stage;
            },
        }
    }

    fn take_histories<C>(
        &mut self,
        client: &BdkElectrumClient<C>,
        at: usize,
        scan: SpkScan,
        spks: Vec<(u32, SpkWithExpectedTxids)>,
        histories: Vec<Vec<Tx>>,
    )
        requires
            at < old(self).keychains.len(),
        ensures
            final(self).wf(),
            final(self)@ == to_entries(
                old(self).data(),
                known_of(*client),
                at as nat,
                scan,
                spks@,
                histories@,
            ),
    {
        let mut next = scan;
        let batch = next.absorb_batch(
            self.start_time,
            self.stop_gap,
            &spks,
            &histories,
            &mut self.tx_update,
        );
        proof {
            let hists = histories_of(histories@);
            let total = batch_total(spks@, histories@);
            let unused = scan.unused_spk_count as nat;
            let gap = self.stop_gap as nat;
            assert(goes_through(hists, total, batch.count as int, unused, gap));
            extent_is_unique(
                hists,
                total,
                batch.count as int,
                extent_of(hists, total, unused, gap),
                unused,
                gap,
            );
        }
        let scripts = if self.subscribe {
            scripts_to_subscribe(&spks, &histories, batch.count)
        } else {
            Vec::new()
        };
        proof {
            if !self.subscribe {
                assert(subscription_views(scripts@) =~= Seq::empty());
            }
        }
        let run = HistoryRun::new(&client.client, batch.entries, self.start_time);
        self.stage = ScanStage::Entries { at, scan: next, run, scripts };
    }

    /// The response of the scan with the scripts that were subscribed, or why there is none. A scan
    /// that is not at its end has neither.
    pub fn into_response(self) -> (r: Option<
        Result<(FullScanResponse<K>, OrderedSet<ElectrumScriptHash>), Error>,
    >)
        ensures
            match r {
                Some(Ok((response, subscribed))) => {
                    &&& self@.stage is Done
                    &&& response.tx_update@ == self@.data.update
                    &&& tip_blocks(response.chain_update) == chain_of(
                        self@.data.chain,
                        response.tx_update.anchors,
                    )
                    &&& response.last_active_indices@ == self@.data.last_active
                    &&& subscribed@ == self@.data.subscribed
                },
                Some(Err(e)) => self@.stage == ScanStageView::Failed(e),
                None => !(self@.stage is Done) && !(self@.stage is Failed),
            },
    {
        match self.stage {
            ScanStage::Done => {
                let response = FullScanResponse::finish(
                    self.tx_update,
                    self.chain,
                    self.last_active_indices,
                );
                Some(Ok((response, self.subscribed_scripts)))
            },
            ScanStage::Failed(e) => Some(Err(e)),
            _ => None,
        }
    }
}

/// Takes what the server answered about its chain.
fn take_tip_reply(fetch: &mut TipFetch, reply: ScanReply)
    ensures
        scan_stage_view(ScanStage::Tip(*final(fetch))) == scan_tip_step(
            old(fetch).prev(),
            old(fetch).tip(),
            old(fetch).latest(),
            reply,
        ),
{
    match (fetch.fetch_tip_and_latest_blocks(), reply) {
        (TipStep::Tip, ScanReply::Tip(Ok(height))) => {
            fetch.on_tip(height);
        },
        (TipStep::Headers { start_height, .. }, ScanReply::Headers(Ok(headers))) => {
            fetch.on_headers(start_height, &headers);
        },
        (TipStep::Header { height }, ScanReply::Header(Ok(header))) => {
            fetch.on_header(height, &header);
        },
        _ => {},
    }
}

/// The transactions whose outputs the transactions of an update spend.
pub fn prev_txids(tx_update: &TxUpdate) -> (r: Vec<Txid>)
    ensures
        r@ == outpoint_txids(all_prevouts(tx_update@.txs, tx_update@.txs.len() as int)),
{
    let outpoints = prevouts(&tx_update.txs);
    let ghost txids = outpoint_txids(outpoints@);
    let mut r: Vec<Txid> = Vec::new();
    let mut i: usize = 0;
    while i < outpoints.len()
        invariant
            i <= outpoints.len(),
            txids == outpoint_txids(outpoints@),
            r@ == txids.take(i as int),
        decreases outpoints.len() - i,
    {
        r.push(outpoints[i].txid);
        proof {
            assert(txids.take(i + 1) =~= txids.take(i as int).push(txids[i as int]));
        }
        i = i + 1;
    }
    proof {
        assert(txids.take(txids.len() as int) =~= txids);
    }
    r
}

/// A scan goes as far as it can: what is left to be waited for is something else.
proof fn advancing_settles<KV>(state: ScanView<KV>, known: Known)
    ensures
        ({
            let (after, known) = scan_advanced(state, known);
            match after.stage {
                ScanStageView::Tip { chain, tip, latest } => !(tip_wait(chain, tip, latest) is Done),
                ScanStageView::Entries { at, scan, run, scripts } => !(run.wait is Done)
                    && !(run.wait is Failed),
                ScanStageView::PrevTxouts => !all_cached(
                    known.caches.txs,
                    outpoint_txids(
                        all_prevouts(after.data.update.txs, after.data.update.txs.len() as int),
                    ),
                ),
                _ => true,
            }
        }),
{
}

/// Subscribing adds to what is tracked and takes nothing away: a script that was subscribed in a scan
/// is tracked, with the transactions of its history.
pub proof fn subscribed_scripts_are_tracked(
    tracker: Map<ElectrumScriptHash, Set<Txid>>,
    scripts: Seq<(ElectrumScriptHash, Set<Txid>)>,
    hash: ElectrumScriptHash,
)
    ensures
        tracker.contains_key(hash) || hashes_of(scripts).contains(hash) ==> with_scripts(
            tracker,
            scripts,
        ).contains_key(hash),
        with_scripts(tracker, scripts).contains_key(hash) && !tracker.contains_key(hash)
            ==> exists|i: int|
            0 <= i < scripts.len() && (#[trigger] scripts[i]).0 == hash && with_scripts(
                tracker,
                scripts,
            )[hash] == scripts[i].1,
    decreases scripts.len(),
{
    if scripts.len() > 0 {
        let init = scripts.drop_last();
        subscribed_scripts_are_tracked(tracker, init, hash);
        if hashes_of(scripts).contains(hash) {
            let i = choose|i: int| 0 <= i < scripts.len() && hashes_of(scripts)[i] == hash;
            if i < init.len() {
                assert(hashes_of(init)[i] == hash);
            }
        }
        if with_scripts(tracker, scripts).contains_key(hash) && !tracker.contains_key(hash) {
            if scripts.last().0 == hash {
                assert(scripts[scripts.len() - 1].0 == hash);
            } else {
                let i = choose|i: int|
                    0 <= i < init.len() && (#[trigger] init[i]).0 == hash && with_scripts(
                        tracker,
                        init,
                    )[hash] == init[i].1;
                assert(scripts[i].0 == hash);
            }
        }
    }
}

/// The histories of a batch are followed up: each entry of each script that the scan goes through; what was
/// expected of one of these and is not listed is gone; the last one with a history is active; and, where the
/// scan subscribes, each one with a history is to be subscribed to, with the transactions of its history.
pub proof fn histories_of_a_batch_are_followed_up<KV>(
    data: ScanData<KV>,
    known: Known,
    at: nat,
    scan: SpkScan,
    spks: Seq<(u32, SpkWithExpectedTxids)>,
    histories: Seq<Vec<Tx>>,
    n: int,
    i: int,
    txid: Txid,
)
    requires
        spks.len() == histories.len(),
        goes_through(
            histories_of(histories),
            spks.len() as int,
            n,
            scan.unused_spk_count as nat,
            data.stop_gap,
        ),
        0 <= i < n,
    ensures
        ({
            let after = to_entries(data, known, at, scan, spks, histories);
            let hists = histories_of(histories);
            &&& match after.stage {
                ScanStageView::Entries { at: then, scan: now, run, scripts } => {
                    &&& then == at
                    &&& now.stopped <==> n < spks.len()
                    &&& histories[i]@.len() > 0 && (forall|j: int|
                        i < j < n ==> (#[trigger] histories[j])@.len() == 0)
                        ==> now.last_active_index == Some(spks[i].0)
                    &&& (forall|j: int| 0 <= j < n ==> (#[trigger] histories[j])@.len() == 0)
                        ==> now.last_active_index == scan.last_active_index
                    &&& run == enter(
                        HistoryView {
                            start_time: data.start_time,
                            entries: all_entries(hists.take(n)),
                            update: empty_update(),
                            wait: HistoryWaitView::Done,
                        },
                        known.caches,
                    )
                    &&& data.subscribe && histories[i]@.len() > 0 ==> scripts.contains(
                        (electrum_script_hash(spks[i].1.spk@), txid_set(histories[i]@)),
                    )
                    &&& !data.subscribe ==> scripts.len() == 0
                },
                _ => false,
            }
            &&& spks[i].1.expected_txids@.contains(txid) && (forall|j: int|
                0 <= j < histories[i]@.len() ==> (#[trigger] histories[i]@[j]).txid != txid)
                ==> after.data.update.evicted_ats.contains((txid, data.start_time))
            &&& data.update.evicted_ats.subset_of(after.data.update.evicted_ats)
            &&& after.data.update.txs == data.update.txs
            &&& after.data.update.seen_ats == data.update.seen_ats
            &&& after.data.update.anchors == data.update.anchors
            &&& after.data.last_active == data.last_active
            &&& after.data.subscribed == data.subscribed
        }),
{
    let hists = histories_of(histories);
    let unused = scan.unused_spk_count as nat;
    let total = spks.len() as int;
    extent_is_unique(
        hists,
        total,
        n,
        extent_of(hists, total, unused, data.stop_gap),
        unused,
        data.stop_gap,
    );
    assert(hists[i] == histories[i]@);
    the_last_script_with_a_history_is_active(spks, hists, n, scan.last_active_index, i);
    if forall|j: int| i < j < n ==> (#[trigger] histories[j])@.len() == 0 {
        assert forall|j: int| i < j < n implies (#[trigger] hists[j]).len() == 0 by {
            assert(histories[j]@.len() == 0);
        }
    }
    if forall|j: int| 0 <= j < n ==> (#[trigger] histories[j])@.len() == 0 {
        assert forall|j: int| 0 <= j < n implies (#[trigger] hists[j]).len() == 0 by {
            assert(histories[j]@.len() == 0);
        }
    }
    scripts_with_a_history_are_subscribed_to(spks, hists, n, i, 0);
    expected_transactions_that_are_missing_are_gone(
        spks,
        hists,
        n,
        data.start_time,
        txid,
        data.start_time,
    );
    if spks[i].1.expected_txids@.contains(txid) && (forall|j: int|
        0 <= j < histories[i]@.len() ==> (#[trigger] histories[i]@[j]).txid != txid) {
        assert forall|j: int| 0 <= j < hists[i].len() implies (#[trigger] hists[i][j]).txid
            != txid by {
            assert(histories[i]@[j].txid != txid);
        }
        assert(spks[i].1.expected_txids@.contains(txid));
    }
}

/// What was followed up goes into the update, beside what is there. Scripts with a history are subscribed to
/// and tracked before the scan goes on.
pub proof fn followed_up_entries_are_in_the_update<KV>(
    data: ScanData<KV>,
    known: Known,
    at: nat,
    scan: SpkScan,
    run: HistoryView,
    scripts: Seq<(ElectrumScriptHash, Set<Txid>)>,
    i: int,
    evicted: (Txid, u64),
    anchor: (ConfirmationBlockTime, Txid),
)
    requires
        run.wait is Done,
        0 <= i < scripts.len(),
    ensures
        ({
            let (after, then) = at_entries(data, known, at, scan, run, scripts);
            &&& after.data.update.txs == data.update.txs + run.update.txs
            &&& after.data.update.anchors.contains(anchor) <==> data.update.anchors.contains(anchor)
                || run.update.anchors.contains(anchor)
            &&& after.data.update.seen_ats.contains(evicted) <==> data.update.seen_ats.contains(
                evicted,
            ) || run.update.seen_ats.contains(evicted)
            &&& after.data.update.evicted_ats.contains(evicted)
                <==> data.update.evicted_ats.contains(evicted) || run.update.evicted_ats.contains(
                evicted,
            )
            &&& after.data.subscribed.contains(scripts[i].0)
            &&& data.subscribed.subset_of(after.data.subscribed)
            &&& then.tracker.contains_key(scripts[i].0)
            &&& then.caches == known.caches
            &&& after.data.last_active == data.last_active
            &&& match after.stage {
                ScanStageView::Subscribe { at: same, scan: kept, hashes } => same == at && kept
                    == scan && hashes.len() == scripts.len() && hashes[i] == scripts[i].0,
                _ => false,
            }
        }),
{
    assert(hashes_of(scripts)[i] == scripts[i].0);
    assert(hashes_of(scripts).contains(scripts[i].0));
    subscribed_scripts_are_tracked(known.tracker, scripts, scripts[i].0);
}

/// A scan that is not at its end goes on with the same keychain. At its end the last active index of the
/// keychain is noted, if there is one, and the next keychain begins anew.
pub proof fn a_scan_goes_on_or_turns_to_the_next_keychain<KV>(
    data: ScanData<KV>,
    known: Known,
    at: nat,
    scan: SpkScan,
    other: KV,
)
    requires
        at < data.keychains.len(),
    ensures
        !scan.stopped ==> after_batch(data, known, at, scan) == (ScanView {
            data,
            stage: ScanStageView::Spks { at, scan },
        }),
        ({
            let next = after_keychain(data, known, at, scan);
            let keychain = data.keychains[at as int];
            &&& scan.stopped ==> after_batch(data, known, at, scan) == next
            &&& at + 1 < data.keychains.len() ==> match next.stage {
                ScanStageView::Spks { at: then, scan: fresh } => then == at + 1
                    && fresh.last_active_index is None && fresh.unused_spk_count == 0
                    && !fresh.stopped,
                _ => false,
            }
            &&& at + 1 == data.keychains.len() ==> next.stage is Done || next.stage is PrevTxouts
            &&& scan.last_active_index is Some ==> next.data.last_active.get(keychain)
                == scan.last_active_index
            &&& scan.last_active_index is None ==> next.data.last_active.get(keychain)
                == data.last_active.get(keychain)
            &&& other != keychain ==> next.data.last_active.get(other) == data.last_active.get(
                other,
            )
            &&& next.data.subscribed == data.subscribed
            &&& next.data.update.txs == data.update.txs
            &&& next.data.update.anchors == data.update.anchors
        }),
{
}

/// Where previous outputs are fetched, and all their transactions are known, each output that a transaction
/// of the update spends is in the update, whatever input spends it: of each transaction that is no coinbase
/// and is the first one with its id. While one of their transactions is missing, the scan waits.
pub proof fn scanned_transactions_have_their_spent_outputs<KV>(
    data: ScanData<KV>,
    known: Known,
    i: int,
    j: int,
)
    requires
        0 <= i < data.update.txs.len(),
        0 <= j < data.update.txs[i].input.len(),
        !is_coinbase_tx(data.update.txs[i]),
        forall|k: int|
            0 <= k < i ==> txid_of(#[trigger] data.update.txs[k]) != txid_of(data.update.txs[i]),
    ensures
        ({
            let after = to_scan_prev_txouts(data, known);
            let spent = data.update.txs[i].input[j].previous_output;
            let previous = known.caches.txs[spent.txid];
            &&& !data.fetch_prev_txouts ==> after == (ScanView { data, stage: ScanStageView::Done })
            &&& data.fetch_prev_txouts && !known.caches.txs.contains_key(spent.txid) ==> after == (
            ScanView { data, stage: ScanStageView::PrevTxouts })
            &&& data.fetch_prev_txouts && after.stage is Done && spent.vout < previous.output.len()
                ==> after.data.update.txouts.get(spent) == Some(
                previous.output[spent.vout as int],
            )
            &&& after.data.update.txs == data.update.txs
            &&& after.data.update.anchors == data.update.anchors
            &&& after.data.update.seen_ats == data.update.seen_ats
            &&& after.data.update.evicted_ats == data.update.evicted_ats
        }),
{
    let n = data.update.txs.len() as int;
    let outpoints = all_prevouts(data.update.txs, n);
    let spent = data.update.txs[i].input[j].previous_output;
    every_input_is_fetched(data.update.txs, n, i, j);
    previous_outputs_are_those_referred_to(known.caches.txs, outpoints, spent);
    let k = choose|k: int|
        0 <= k < outpoint_txids(outpoints).len() && outpoint_txids(outpoints)[k] == spent.txid;
    assert(outpoint_txids(outpoints)[k] == spent.txid);
}

/// A failure ends a scan with that failure, unless it is at its end, and nothing else changes.
pub proof fn failures_end_a_scan<KV>(
    state: ScanView<KV>,
    known: Known,
    e: Error,
    txid: Txid,
)
    requires
        !(state.stage is Done),
        !(state.stage is Failed),
    ensures
        ({
            let failed = (ScanView { stage: ScanStageView::Failed(e), ..state }, known);
            &&& scan_step(state, known, ScanReply::Tip(Err(e))) == failed
            &&& scan_step(state, known, ScanReply::Headers(Err(e))) == failed
            &&& scan_step(state, known, ScanReply::Header(Err(e))) == failed
            &&& scan_step(state, known, ScanReply::Histories(Err(e))) == failed
            &&& scan_step(state, known, ScanReply::Tx(txid, Err(e))) == failed
        }),
{
}

/// What the server answers is taken where it is waited for: scripts lead to their histories, or to the next
/// keychain where there are none; a transaction is kept under its id; what was answered on tips is taken as
/// it is.
pub proof fn answers_move_a_scan_on<KV>(
    state: ScanView<KV>,
    known: Known,
    at: nat,
    scan: SpkScan,
    spks: Vec<(u32, SpkWithExpectedTxids)>,
    txid: Txid,
    tx: Transaction,
    chain: Map<u32, Hash256>,
    tip: Option<u32>,
    latest: Option<Map<u32, Hash256>>,
    height: u32,
    headers: Vec<Header>,
    header: Header,
)
    ensures
        state.stage == (ScanStageView::Spks { at, scan }) && spks@.len() > 0 ==> scan_step(
            state,
            known,
            ScanReply::Spks(spks),
        ) == (
            ScanView { stage: ScanStageView::Histories { at, scan, spks: spks@ }, ..state },
            known,
        ),
        state.stage == (ScanStageView::Spks { at, scan }) && spks@.len() == 0 ==> scan_step(
            state,
            known,
            ScanReply::Spks(spks),
        ) == (after_keychain(state.data, known, at, scan), known),
        state.stage is PrevTxouts ==> {
            let (after, then) = scan_step(state, known, ScanReply::Tx(txid, Ok(tx)));
            &&& after == state
            &&& then.caches.txs == known.caches.txs.insert(txid, tx@)
            &&& then.caches.headers == known.caches.headers
            &&& then.tracker == known.tracker
        },
        state.stage == (ScanStageView::Tip { chain, tip, latest }) && tip_wait(chain, tip, latest)
            is Tip ==> scan_step(state, known, ScanReply::Tip(Ok(height))) == (
            ScanView {
                stage: ScanStageView::Tip { chain, tip: Some(height), latest },
                ..state
            },
            known,
        ),
        state.stage == (ScanStageView::Tip { chain, tip, latest }) && tip_wait(chain, tip, latest)
            == TipWait::Headers(height) ==> scan_step(
            state,
            known,
            ScanReply::Headers(Ok(headers)),
        ) == (
            ScanView {
                stage: ScanStageView::Tip {
                    chain,
                    tip,
                    latest: Some(header_hashes(height, headers@)),
                },
                ..state
            },
            known,
        ),
        state.stage == (ScanStageView::Tip { chain, tip, latest }) && latest is Some && tip_wait(
            chain,
            tip,
            latest,
        ) == TipWait::Header(height) ==> scan_step(
            state,
            known,
            ScanReply::Header(Ok(header)),
        ) == (
            ScanView {
                stage: ScanStageView::Tip {
                    chain,
                    tip,
                    latest: Some(latest->0.insert(height, block_hash_of(header))),
                },
                ..state
            },
            known,
        ),
{
}

/// A comparison of tips that is done is followed by the first keychain, and its outcome is the chain of the
/// scan.
pub proof fn a_scan_begins_with_the_first_keychain<KV>(
    state: ScanView<KV>,
    known: Known,
    chain: Map<u32, Hash256>,
    tip: Option<u32>,
    latest: Option<Map<u32, Hash256>>,
)
    requires
        state.stage == (ScanStageView::Tip { chain, tip, latest }),
        state.data.keychains.len() > 0,
    ensures
        scan_advanced(state, known).1 == known,
        tip_wait(chain, tip, latest) is Done ==> {
            let after = scan_advanced(state, known).0;
            &&& after.data.chain == Some(tip_outcome(chain, tip, latest))
            &&& after.data.update == state.data.update
            &&& match after.stage {
                ScanStageView::Spks { at, scan } => at == 0 && scan.last_active_index is None
                    && scan.unused_spk_count == 0 && !scan.stopped,
                _ => false,
            }
        },
        !(tip_wait(chain, tip, latest) is Done) ==> scan_advanced(state, known).0 == state,
{
}

/// What a scan asks for is what its stage waits for: as many scripts of the keychain as a batch has, and the
/// history of each of them; the scripts to subscribe to, in order.
pub proof fn a_scan_asks_for_what_it_waits_for<KV>(
    state: ScanView<KV>,
    known: Known,
    at: nat,
    scan: SpkScan,
    spks: Seq<(u32, SpkWithExpectedTxids)>,
    keychain: usize,
    count: usize,
    hashes: Vec<ElectrumScriptHash>,
    scripts: Seq<ElectrumScriptHash>,
    i: int,
)
    ensures
        state.stage == (ScanStageView::Spks { at, scan }) && is_scan_ask(
            state,
            known,
            ScanAsk::Spks { keychain, count },
        ) ==> keychain == at && count == state.data.batch_size,
        state.stage == (ScanStageView::Histories { at, scan, spks }) && is_scan_ask(
            state,
            known,
            ScanAsk::Histories(hashes),
        ) ==> hashes@.len() == spks.len() && (0 <= i < spks.len() ==> hashes@[i]
            == electrum_script_hash(spks[i].1.spk@)),
        state.stage == (ScanStageView::Subscribe { at, scan, hashes: scripts }) && is_scan_ask(
            state,
            known,
            ScanAsk::Subscribe(hashes),
        ) ==> hashes@ == scripts,
{
}

/// Once scripts are subscribed to, the scan goes on.
pub proof fn a_scan_goes_on_after_subscribing<KV>(
    state: ScanView<KV>,
    known: Known,
    at: nat,
    scan: SpkScan,
    hashes: Seq<ElectrumScriptHash>,
)
    requires
        state.stage == (ScanStageView::Subscribe { at, scan, hashes }),
    ensures
        scan_step(state, known, ScanReply::Subscribed) == (
            after_batch(state.data, known, at, scan),
            known,
        ),
{
}

/// While tips are compared, a scan asks for the tip, for eight headers from where they are needed, or for one.
pub proof fn a_scan_asks_for_the_tip_first<KV>(
    state: ScanView<KV>,
    known: Known,
    chain: Map<u32, Hash256>,
    tip: Option<u32>,
    latest: Option<Map<u32, Hash256>>,
    height: u32,
    count: u32,
)
    requires
        state.stage == (ScanStageView::Tip { chain, tip, latest }),
    ensures
        is_scan_ask(state, known, ScanAsk::Tip) ==> tip_wait(chain, tip, latest) is Tip,
        is_scan_ask(state, known, ScanAsk::Headers { start_height: height, count }) ==> tip_wait(
            chain,
            tip,
            latest,
        ) == TipWait::Headers(height) && count == 8,
        is_scan_ask(state, known, ScanAsk::Header { height }) ==> tip_wait(chain, tip, latest)
            == TipWait::Header(height),
        !is_scan_ask(state, known, ScanAsk::Done),
        !is_scan_ask(state, known, ScanAsk::Failed),
{
}

} // verus!
