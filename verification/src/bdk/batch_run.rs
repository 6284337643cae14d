//! From a batch of notifications to the update that it leads to.
//!
//! It is asked what the server is to be asked, and told what the server answers.
use bdk_core::CheckPoint;
use vstd::prelude::*;

use crate::bdk::activity::{activity_beyond_the_last_calls_for_more, extension_of};
use crate::bdk::bdk_electrum_client::{
    hashed_scripts, hashes_of_pairs, incremental_scripts, script_hashes_of,
};
use crate::bdk::checkpoint::SyncCheckpoint;
use crate::bdk::client::BdkElectrumClient;
use crate::bdk::live_sync_engine::{
    accepts_latest, build_sync_update_from_batch, chunk_len, deduped, header_block, is_disconnect,
    reconcile_after_reconnect, reconcile_with_subscription, reconcile_with_tip, scripts_to_process,
    scripts_to_process_for_batch, snapshot_of, try_chain_tip_update_from_batch, PendingBatch,
    PendingBatchView, ReconcileStep, ScriptUpdates,
};
use crate::bdk::response::SyncResponse;
use crate::bdk::run::{advanced, caches_of, copy_hashes, Caches, StageView};
use crate::bdk::scripts_run::{
    is_scripts_ask, scripts_advanced, scripts_step, ScriptsAsk, ScriptsData, ScriptsReply,
    ScriptsRun, ScriptsStageView,
};
use crate::bdk::subscription::{
    an_extension_adds_its_scripts, bumped, extended, is_ascending, SubscriptionCtx,
    SubscriptionStateView,
};
use crate::chain::{block_hash_of, tip_blocks, with_block, ConfirmationBlockTime, Header};
use crate::electrum::error::{BatchRequestError, Error};
use crate::electrum::types::BlockHeader;
use crate::hash::{
    electrum_script_hash, ElectrumScriptHash, ElectrumScriptStatus, Hash256, Txid,
};
use crate::ordered::Key;
use crate::tx::{empty_update, joined_update, TxUpdateView};

verus! {

/// How batches are handled.
#[derive(Debug, Clone, Copy, PartialEq, Eq)]
pub struct BatchSettings {
    /// The time at which transactions are seen or found to be gone.
    pub start_time: u64,
    /// Whether what transactions spend is fetched too.
    pub fetch_prev_txouts: bool,
    /// How many scripts beyond the last active one are subscribed.
    pub stop_gap: u32,
}

/// How far a batch is.
#[verifier::reject_recursive_types(KV)]
#[allow(inconsistent_fields)]
pub enum BatchStageView<KV> {
    /// After a reconnect, the tip of the server is waited for.
    Tip,
    /// After a reconnect, these scripts are to be subscribed again.
    Subscribe(Seq<ElectrumScriptHash>),
    /// Some scripts are looked at.
    Scripts(ScriptsStageView),
    /// The first of these scripts with new transactions may make it necessary to subscribe more.
    Extend(Seq<ElectrumScriptHash>),
    /// On account of the first of these scripts, more are to be subscribed.
    Extending {
        /// The scripts with new transactions.
        active: Seq<ElectrumScriptHash>,
        /// The keychain of the first of them.
        keychain: KV,
        /// Its index.
        index: u32,
        /// The scripts that are to be subscribed, with their indices.
        scripts: Seq<(ElectrumScriptHash, u32)>,
    },
    /// It is at its end.
    Done,
    /// The latest header cannot be put into the chain that is known.
    Refused,
    /// Something that is needed could not be had.
    Failed(Error),
}

/// A batch that is handled.
#[verifier::reject_recursive_types(KV)]
pub struct BatchRunView<KV> {
    /// How it is handled.
    pub settings: BatchSettings,
    /// The chain, where it has a new tip.
    pub chain: Option<Map<u32, Hash256>>,
    /// The scripts that are left to be looked at, those that are being looked at first.
    pub left: Seq<ElectrumScriptHash>,
    /// What was found out.
    pub update: TxUpdateView,
    /// How far it is.
    pub stage: BatchStageView<KV>,
}

/// The scripts that are looked at next, and how.
pub open spec fn chunk_data(
    settings: BatchSettings,
    left: Seq<ElectrumScriptHash>,
) -> ScriptsData {
    ScriptsData {
        hashes: left.take(chunk_len(left)),
        start_time: settings.start_time,
        fetch_prev_txouts: settings.fetch_prev_txouts,
    }
}

/// On to the next scripts, or to the end.
pub open spec fn to_chunk<KV>(run: BatchRunView<KV>) -> BatchRunView<KV> {
    BatchRunView {
        stage: if run.left.len() == 0 {
            BatchStageView::Done
        } else {
            BatchStageView::Scripts(ScriptsStageView::Histories)
        },
        ..run
    }
}

/// On to the first script with new transactions that makes it necessary to subscribe more scripts, or to
/// the next scripts.
pub open spec fn to_extension<KV>(
    run: BatchRunView<KV>,
    active: Seq<ElectrumScriptHash>,
    state: SubscriptionStateView<KV>,
) -> BatchRunView<KV>
    decreases active.len(),
{
    if active.len() == 0 {
        to_chunk(run)
    } else if extension_of(state, active[0], run.settings.stop_gap) is None {
        to_extension(run, active.skip(1), state)
    } else {
        BatchRunView { stage: BatchStageView::Extend(active), ..run }
    }
}

/// As far as it can be gone with what is in the caches. If the connection is lost meanwhile, the scripts
/// that are left are not looked at.
pub open spec fn batch_advanced<KV>(
    run: BatchRunView<KV>,
    state: SubscriptionStateView<KV>,
    statuses: Map<ElectrumScriptHash, Option<ElectrumScriptStatus>>,
    caches: Caches,
) -> (BatchRunView<KV>, SubscriptionStateView<KV>) {
    match run.stage {
        BatchStageView::Scripts(stage) => {
            let data = chunk_data(run.settings, run.left);
            let (stage, known) = scripts_advanced(data, stage, state, statuses, caches);
            let after = match stage {
                ScriptsStageView::Done { update, active } => to_extension(
                    BatchRunView {
                        left: run.left.skip(chunk_len(run.left)),
                        update: joined_update(run.update, update),
                        ..run
                    },
                    active,
                    known,
                ),
                ScriptsStageView::Failed(e) => if is_disconnect(e) {
                    BatchRunView { left: Seq::empty(), stage: BatchStageView::Done, ..run }
                } else {
                    BatchRunView { stage: BatchStageView::Failed(e), ..run }
                },
                _ => BatchRunView { stage: BatchStageView::Scripts(stage), ..run },
            };
            (after, known)
        },
        BatchStageView::Extend(active) => (to_extension(run, active, state), state),
        _ => (run, state),
    }
}

/// What is to be done next.
#[allow(inconsistent_fields)]
pub enum BatchAsk<K: Key> {
    /// The tip of the server is to be fetched.
    Tip,
    /// These scripts are to be subscribed.
    Subscribe(Vec<ElectrumScriptHash>),
    /// What looking at some scripts needs.
    Scripts(ScriptsAsk),
    /// The scripts of a keychain from one index to another are to be derived.
    Spks {
        /// The keychain.
        keychain: K,
        /// The first index.
        from: u64,
        /// The last index.
        to: u64,
    },
    /// Nothing more.
    Done,
    /// Nothing more, since the latest header cannot be put into the chain that is known.
    Refused,
    /// Nothing more, since something could not be had.
    Failed,
}

/// Whether this is what is to be done next.
pub open spec fn is_batch_ask<K: Key>(
    run: BatchRunView<K::V>,
    state: SubscriptionStateView<K::V>,
    caches: Caches,
    ask: BatchAsk<K>,
) -> bool {
    match (run.stage, ask) {
        (BatchStageView::Tip, BatchAsk::Tip) => true,
        (BatchStageView::Subscribe(scripts), BatchAsk::Subscribe(hashes)) => hashes@ == scripts,
        (BatchStageView::Scripts(stage), BatchAsk::Scripts(ask)) => {
            &&& is_scripts_ask(chunk_data(run.settings, run.left), stage, caches, ask)
            &&& !(ask is Done) && !(ask is Failed)
        },
        (BatchStageView::Extend(active), BatchAsk::Spks { keychain, from, to }) => {
            &&& active.len() > 0
            &&& extension_of(state, active[0], run.settings.stop_gap) matches Some(extension)
            &&& extension.0 == keychain@ && extension.2 == from && extension.3 == to
        },
        (
            BatchStageView::Extending { active, keychain, index, scripts },
            BatchAsk::Subscribe(hashes),
        ) => hashes@ == script_hashes_of(scripts),
        (BatchStageView::Done, BatchAsk::Done) => true,
        (BatchStageView::Refused, BatchAsk::Refused) => true,
        (BatchStageView::Failed(e), BatchAsk::Failed) => true,
        _ => false,
    }
}

/// What came of it.
pub enum BatchReply {
    /// The tip of the server.
    Tip(Result<BlockHeader, Error>),
    /// The scripts were subscribed, or were not.
    Subscribed(Result<(), Error>),
    /// What looking at some scripts needs.
    Scripts(ScriptsReply),
    /// Some scripts of a keychain, with their indices.
    Spks(Vec<(u32, Vec<u8>)>),
}

/// How the scripts that were derived on account of the first script with new transactions change things:
/// they are to be subscribed; where there are none, the keychain is known to be used that far at once.
pub open spec fn extension_step<KV>(
    run: BatchRunView<KV>,
    active: Seq<ElectrumScriptHash>,
    state: SubscriptionStateView<KV>,
    spks: Seq<(u32, Vec<u8>)>,
) -> (BatchRunView<KV>, SubscriptionStateView<KV>) {
    let unchanged = BatchRunView { stage: BatchStageView::Extend(active), ..run };
    if active.len() == 0 {
        (unchanged, state)
    } else {
        match extension_of(state, active[0], run.settings.stop_gap) {
            Some((keychain, index, from, to)) => {
                let scripts = hashed_scripts(spks);
                if scripts.len() == 0 {
                    (
                        BatchRunView { stage: BatchStageView::Extend(active.skip(1)), ..run },
                        SubscriptionStateView {
                            last_active_indices: bumped(state.last_active_indices, keychain, index),
                            ..state
                        },
                    )
                } else {
                    (
                        BatchRunView {
                            stage: BatchStageView::Extending { active, keychain, index, scripts },
                            ..run
                        },
                        state,
                    )
                }
            },
            None => (unchanged, state),
        }
    }
}

/// How a reply changes things, once it is known which scripts are to be looked at. A reply to something
/// that is not waited for changes nothing.
pub open spec fn batch_step<KV>(
    run: BatchRunView<KV>,
    state: SubscriptionStateView<KV>,
    caches: Caches,
    reply: BatchReply,
) -> (BatchRunView<KV>, SubscriptionStateView<KV>, Caches) {
    match (run.stage, reply) {
        (BatchStageView::Scripts(stage), BatchReply::Scripts(reply)) => {
            let (stage, caches) = scripts_step(
                chunk_data(run.settings, run.left),
                stage,
                state.script_subscriptions,
                caches,
                reply,
            );
            (BatchRunView { stage: BatchStageView::Scripts(stage), ..run }, state, caches)
        },
        (BatchStageView::Extend(active), BatchReply::Spks(spks)) => {
            let (run, state) = extension_step(run, active, state, spks@);
            (run, state, caches)
        },
        (
            BatchStageView::Extending { active, keychain, index, scripts },
            BatchReply::Subscribed(Ok(())),
        ) => (
            BatchRunView { stage: BatchStageView::Extend(active.skip(1)), ..run },
            extended(
                state,
                keychain,
                index,
                scripts.last().1,
                script_hashes_of(scripts),
                scripts,
            ),
            caches,
        ),
        (
            BatchStageView::Extending { active, keychain, index, scripts },
            BatchReply::Subscribed(Err(e)),
        ) => (BatchRunView { stage: BatchStageView::Failed(e), ..run }, state, caches),
        _ => (run, state, caches),
    }
}

/// What a batch meets: how far it is, the batch itself, and the chain that is known.
#[verifier::reject_recursive_types(KV)]
pub struct BatchPlace<KV> {
    /// How far it is.
    pub run: BatchRunView<KV>,
    /// The notifications.
    pub batch: PendingBatchView,
    /// The chain that is known.
    pub chain_tip: Option<CheckPoint>,
}

/// The chain, where it has a new tip: the latest header, if a chain is known.
pub open spec fn new_chain(
    chain_tip: Option<CheckPoint>,
    batch: PendingBatchView,
) -> Option<Map<u32, Hash256>> {
    match (batch.latest_header, tip_blocks(chain_tip)) {
        (Some((height, header)), Some(blocks)) => Some(
            with_block(blocks, header_block(height, header)),
        ),
        _ => None,
    }
}

/// Whether the chain has its new tip, and the scripts of a batch are about to be looked at, each once. A
/// batch with a header that cannot be put into the chain is refused, and changes nothing.
pub open spec fn is_under_way<KV>(
    before: BatchPlace<KV>,
    after: BatchPlace<KV>,
    state: SubscriptionStateView<KV>,
) -> bool {
    let chain = new_chain(before.chain_tip, before.batch);
    if accepts_latest(before.chain_tip, before.batch.latest_header) {
        &&& after.batch == (PendingBatchView {
            latest_header: None,
            lagged: false,
            ..before.batch
        })
        &&& tip_blocks(after.chain_tip) == if chain is Some {
            chain
        } else {
            tip_blocks(before.chain_tip)
        }
        &&& after.run.left.no_duplicates()
        &&& forall|hash: ElectrumScriptHash| #[trigger]
            after.run.left.contains(hash) <==> scripts_to_process(
                state,
                before.batch,
                chain is Some,
            ).contains(hash)
        &&& after.run == to_chunk(
            BatchRunView { chain, left: after.run.left, ..before.run },
        )
    } else {
        &&& after.batch == before.batch
        &&& tip_blocks(after.chain_tip) == tip_blocks(before.chain_tip)
        &&& after.run == (BatchRunView { stage: BatchStageView::Refused, ..before.run })
    }
}

/// Whether this is how a reply changes a batch that is reconciled after a reconnect: with the tip of the
/// server all scripts are subscribed again, and then it gets under way. It does so at once where the
/// connection is lost again.
pub open spec fn is_reconciled<KV>(
    before: BatchPlace<KV>,
    after: BatchPlace<KV>,
    state: SubscriptionStateView<KV>,
    reply: BatchReply,
) -> bool {
    match (before.run.stage, reply) {
        (BatchStageView::Tip, BatchReply::Tip(Ok(tip))) => {
            let batch = PendingBatchView {
                latest_header: Some((tip.height, tip.header)),
                ..before.batch
            };
            if state.subscribed_scripts == Set::<ElectrumScriptHash>::empty() {
                is_under_way(BatchPlace { batch, ..before }, after, state)
            } else {
                &&& after.run.stage matches BatchStageView::Subscribe(hashes)
                &&& is_ascending(hashes)
                &&& forall|hash: ElectrumScriptHash| #[trigger]
                    hashes.contains(hash) <==> state.subscribed_scripts.contains(hash)
                &&& after.run == (BatchRunView { stage: after.run.stage, ..before.run })
                &&& after.batch == batch
                &&& after.chain_tip == before.chain_tip
            }
        },
        (BatchStageView::Tip, BatchReply::Tip(Err(e))) => is_failed(before, after, state, e),
        (BatchStageView::Subscribe(hashes), BatchReply::Subscribed(Ok(()))) => is_under_way(
            before,
            after,
            state,
        ),
        (BatchStageView::Subscribe(hashes), BatchReply::Subscribed(Err(e))) => is_failed(
            before,
            after,
            state,
            e,
        ),
        _ => after == before,
    }
}

/// Whether this is how a batch goes on that could not be reconciled.
pub open spec fn is_failed<KV>(
    before: BatchPlace<KV>,
    after: BatchPlace<KV>,
    state: SubscriptionStateView<KV>,
    e: Error,
) -> bool {
    if is_disconnect(e) {
        is_under_way(before, after, state)
    } else {
        after == (BatchPlace {
            run: BatchRunView { stage: BatchStageView::Failed(e), ..before.run },
            ..before
        })
    }
}

#[allow(inconsistent_fields)]
enum BatchStage<K: Key> {
    Tip,
    Subscribe(Vec<ElectrumScriptHash>),
    Scripts(ScriptsRun),
    Extend { active: Vec<ElectrumScriptHash>, at: usize },
    Extending {
        active: Vec<ElectrumScriptHash>,
        at: usize,
        keychain: K,
        index: u32,
        scripts: Vec<(ElectrumScriptHash, u32)>,
    },
    Done,
    Refused,
    Failed(Error),
}

spec fn stage_view<K: Key>(stage: BatchStage<K>) -> BatchStageView<K::V> {
    match stage {
        BatchStage::Tip => BatchStageView::Tip,
        BatchStage::Subscribe(hashes) => BatchStageView::Subscribe(hashes@),
        BatchStage::Scripts(run) => BatchStageView::Scripts(run.stage()),
        BatchStage::Extend { active, at } => BatchStageView::Extend(active@.skip(at as int)),
        BatchStage::Extending { active, at, keychain, index, scripts } => {
            BatchStageView::Extending {
                active: active@.skip(at as int),
                keychain: keychain@,
                index,
                scripts: scripts@,
            }
        },
        BatchStage::Done => BatchStageView::Done,
        BatchStage::Refused => BatchStageView::Refused,
        BatchStage::Failed(e) => BatchStageView::Failed(e),
    }
}

spec fn stage_wf<K: Key>(
    stage: BatchStage<K>,
    settings: BatchSettings,
    left: Seq<ElectrumScriptHash>,
    update: TxUpdateView,
) -> bool {
    match stage {
        BatchStage::Tip => update == empty_update(),
        BatchStage::Subscribe(hashes) => update == empty_update(),
        BatchStage::Scripts(run) => run.wf() && run.data() == chunk_data(settings, left),
        BatchStage::Extend { active, at } => at <= active.len(),
        BatchStage::Extending { active, at, keychain, index, scripts } => at < active.len()
            && scripts.len() > 0,
        _ => true,
    }
}

/// Whether the next scripts are not looked at yet, and the next script with new transactions makes it
/// necessary to subscribe more.
spec fn is_settled<KV>(run: BatchRunView<KV>, state: SubscriptionStateView<KV>) -> bool {
    match run.stage {
        BatchStageView::Scripts(stage) => stage is Histories,
        BatchStageView::Extend(active) => active.len() > 0 && extension_of(
            state,
            active[0],
            run.settings.stop_gap,
        ) is Some,
        _ => true,
    }
}

/// A batch that is handled.
pub struct BatchRun<K: Key> {
    settings: BatchSettings,
    chain_update: Option<CheckPoint>,
    updates: ScriptUpdates,
    stage: BatchStage<K>,
}

impl<K: Key> View for BatchRun<K> {
    type V = BatchRunView<K::V>;

    closed spec fn view(&self) -> BatchRunView<K::V> {
        BatchRunView {
            settings: self.settings,
            chain: tip_blocks(self.chain_update),
            left: self.updates.left(),
            update: self.updates.update(),
            stage: stage_view(self.stage),
        }
    }
}

/// How far a batch is, with the batch itself and the chain that is known.
pub open spec fn place_of<K: Key>(
    run: BatchRunView<K::V>,
    batch: PendingBatch,
    ctx: SubscriptionCtx<K>,
) -> BatchPlace<K::V> {
    BatchPlace { run, batch: batch@, chain_tip: ctx.chain_tip }
}

/// A batch before anything is known of it.
pub open spec fn batch_start<KV>(settings: BatchSettings) -> BatchRunView<KV> {
    BatchRunView {
        settings,
        chain: None,
        left: Seq::empty(),
        update: empty_update(),
        stage: BatchStageView::Tip,
    }
}

impl<K: Key> BatchRun<K> {
    /// Whether it is one that was begun with [`BatchRun::new`].
    pub closed spec fn wf(&self) -> bool {
        stage_wf(self.stage, self.settings, self.updates.left(), self.updates.update())
    }

    /// Puts the latest header into the chain, and finds out which scripts are to be looked at.
    fn get_under_way(&mut self, ctx: &mut SubscriptionCtx<K>, batch: &mut PendingBatch)
        requires
            old(self)@.update == empty_update(),
        ensures
            final(self).wf(),
            final(ctx).wallet_label == old(ctx).wallet_label,
            final(ctx).state == old(ctx).state,
            is_under_way(
                place_of(old(self)@, *old(batch), *old(ctx)),
                place_of(final(self)@, *final(batch), *final(ctx)),
                old(ctx).state@,
            ),
    {
        match try_chain_tip_update_from_batch(ctx, batch) {
            Some(chain_update) => {
                let scripts = scripts_to_process_for_batch(ctx, batch, chain_update.is_some());
                self.chain_update = chain_update;
                self.updates = ScriptUpdates::new(scripts);
                self.to_chunk();
            },
            None => {
                self.stage = BatchStage::Refused;
            },
        }
    }

    /// On to the next scripts, or to the end.
    fn to_chunk(&mut self)
        ensures
            final(self).wf(),
            final(self)@ == to_chunk(old(self)@),
    {
        let chunk = self.updates.chunk();
        if chunk.len() == 0 {
            self.stage = BatchStage::Done;
        } else {
            self.stage = BatchStage::Scripts(
                ScriptsRun::new(
                    chunk,
                    self.settings.start_time,
                    self.settings.fetch_prev_txouts,
                ),
            );
        }
    }

    /// Begins to handle a batch.
    pub fn new(
        settings: BatchSettings,
        ctx: &mut SubscriptionCtx<K>,
        batch: &mut PendingBatch,
    ) -> (r: Self)
        ensures
            r.wf(),
            final(ctx).wallet_label == old(ctx).wallet_label,
            final(ctx).state == old(ctx).state,
            ({
                let before = place_of(batch_start(settings), *old(batch), *old(ctx));
                let after = place_of(r@, *final(batch), *final(ctx));
                if old(batch)@.reconnected {
                    after == before
                } else {
                    is_under_way(before, after, old(ctx).state@)
                }
            }),
    {
        let mut r = BatchRun {
            settings,
            chain_update: None,
            updates: ScriptUpdates::new(Vec::new()),
            stage: BatchStage::Tip,
        };
        proof {
            assert(r@.left =~= Seq::<ElectrumScriptHash>::empty());
        }
        match reconcile_after_reconnect(batch) {
            ReconcileStep::FetchTip => {},
            _ => {
                r.get_under_way(ctx, batch);
            },
        }
        r
    }

    /// On to the first script with new transactions that makes it necessary to subscribe more, or to the
    /// next scripts.
    fn to_extension(
        &mut self,
        ctx: &SubscriptionCtx<K>,
        active: Vec<ElectrumScriptHash>,
        at: usize,
    )
        requires
            at <= active.len(),
        ensures
            final(self).wf(),
            final(self)@ == to_extension(old(self)@, active@.skip(at as int), ctx.state@),
            is_settled(final(self)@, ctx.state@),
    {
        let mut at: usize = at;
        let ghost rest = active@.skip(at as int);
        while at < active.len()
            invariant
                at <= active.len(),
                *self == *old(self),
                to_extension(self@, active@.skip(at as int), ctx.state@) == to_extension(
                    old(self)@,
                    rest,
                    ctx.state@,
                ),
            ensures
                at <= active.len(),
                *self == *old(self),
                to_extension(self@, active@.skip(at as int), ctx.state@) == to_extension(
                    old(self)@,
                    rest,
                    ctx.state@,
                ),
                at < active.len() ==> extension_of(
                    ctx.state@,
                    active@[at as int],
                    self.settings.stop_gap,
                ) is Some,
            decreases active.len() - at,
        {
            if ctx.extension_range(&active[at], self.settings.stop_gap).is_some() {
                break;
            }
            proof {
                assert(active@.skip(at as int)[0] == active@[at as int]);
                assert(active@.skip(at as int).skip(1) =~= active@.skip(at + 1));
            }
            at = at + 1;
        }
        if at < active.len() {
            proof {
                assert(active@.skip(at as int)[0] == active@[at as int]);
            }
            self.stage = BatchStage::Extend { active, at };
        } else {
            self.to_chunk();
        }
    }

    /// Goes as far as it can be gone with what is in the caches, and says what is needed for the scripts
    /// that were looked at already.
    fn advance<C>(
        &mut self,
        ctx: &mut SubscriptionCtx<K>,
        batch: &PendingBatch,
        client: &BdkElectrumClient<C>,
    ) -> (r: Option<ScriptsAsk>)
        requires
            old(self).wf(),
        ensures
            final(self).wf(),
            final(ctx).wallet_label == old(ctx).wallet_label,
            final(ctx).chain_tip == old(ctx).chain_tip,
            (final(self)@, final(ctx).state@) == batch_advanced(
                old(self)@,
                old(ctx).state@,
                batch@.script_statuses,
                caches_of(*client),
            ),
            match r {
                Some(ask) => is_batch_ask(
                    final(self)@,
                    final(ctx).state@,
                    caches_of(*client),
                    BatchAsk::<K>::Scripts(ask),
                ),
                None => is_settled(final(self)@, final(ctx).state@),
            },
    {
        let mut stage = BatchStage::Done;
        std::mem::swap(&mut stage, &mut self.stage);
        match stage {
            BatchStage::Scripts(mut run) => {
                let ask = run.ask(ctx, &batch.script_statuses, client);
                let is_over = match ask {
                    ScriptsAsk::Done => true,
                    ScriptsAsk::Failed => true,
                    _ => false,
                };
                if !is_over {
                    self.stage = BatchStage::Scripts(run);
                    return Some(ask);
                }
                if let Some(processed) = run.into_processed() {
                    let is_processed = processed.is_ok();
                    match self.updates.absorb(processed) {
                        Ok(active) => {
                            if is_processed {
                                proof {
                                    extension_ignores_stage(
                                        self@,
                                        old(self)@.stage,
                                        active@,
                                        ctx.state@,
                                    );
                                    assert(active@.skip(0) =~= active@);
                                }
                                self.to_extension(ctx, active, 0);
                            }
                        },
                        Err(e) => {
                            self.stage = BatchStage::Failed(e);
                        },
                    }
                }
            },
            BatchStage::Extend { active, at } => {
                proof {
                    extension_ignores_stage(
                        self@,
                        old(self)@.stage,
                        active@.skip(at as int),
                        ctx.state@,
                    );
                }
                self.to_extension(ctx, active, at);
            },
            stage => {
                self.stage = stage;
            },
        }
        None
    }

    /// Goes as far as it can be gone with what is in the caches, and says what is to be done next.
    pub fn ask<C>(
        &mut self,
        ctx: &mut SubscriptionCtx<K>,
        batch: &PendingBatch,
        client: &BdkElectrumClient<C>,
    ) -> (r: BatchAsk<K>)
        requires
            old(self).wf(),
        ensures
            final(self).wf(),
            final(ctx).wallet_label == old(ctx).wallet_label,
            final(ctx).chain_tip == old(ctx).chain_tip,
            (final(self)@, final(ctx).state@) == batch_advanced(
                old(self)@,
                old(ctx).state@,
                batch@.script_statuses,
                caches_of(*client),
            ),
            is_batch_ask(final(self)@, final(ctx).state@, caches_of(*client), r),
    {
        if let Some(ask) = self.advance(ctx, batch, client) {
            return BatchAsk::Scripts(ask);
        }
        match &self.stage {
            BatchStage::Tip => BatchAsk::Tip,
            BatchStage::Subscribe(hashes) => BatchAsk::Subscribe(copy_hashes(hashes)),
            BatchStage::Scripts(_) => BatchAsk::Scripts(ScriptsAsk::Histories(self.updates.chunk())),
            BatchStage::Extend { active, at } => {
                proof {
                    assert(active@.skip(*at as int)[0] == active@[*at as int]);
                }
                match ctx.extension_range(&active[*at], self.settings.stop_gap) {
                    Some((keychain, _, from, to)) => BatchAsk::Spks { keychain, from, to },
                    None => BatchAsk::Done,
                }
            },
            BatchStage::Extending { scripts, .. } => BatchAsk::Subscribe(hashes_of_pairs(scripts)),
            BatchStage::Done => BatchAsk::Done,
            BatchStage::Refused => BatchAsk::Refused,
            BatchStage::Failed(_) => BatchAsk::Failed,
        }
    }

    /// Takes in a reply.
    pub fn step<C>(
        &mut self,
        ctx: &mut SubscriptionCtx<K>,
        batch: &mut PendingBatch,
        client: &mut BdkElectrumClient<C>,
        reply: BatchReply,
    )
        requires
            old(self).wf(),
        ensures
            final(self).wf(),
            final(ctx).wallet_label == old(ctx).wallet_label,
            final(client).handle() == old(client).handle(),
            if old(self)@.stage is Tip || old(self)@.stage is Subscribe {
                &&& final(ctx).state == old(ctx).state
                &&& caches_of(*final(client)) == caches_of(*old(client))
                &&& is_reconciled(
                    place_of(old(self)@, *old(batch), *old(ctx)),
                    place_of(final(self)@, *final(batch), *final(ctx)),
                    old(ctx).state@,
                    reply,
                )
            } else {
                &&& final(batch)@ == old(batch)@
                &&& final(ctx).chain_tip == old(ctx).chain_tip
                &&& (final(self)@, final(ctx).state@, caches_of(*final(client))) == batch_step(
                    old(self)@,
                    old(ctx).state@,
                    caches_of(*old(client)),
                    reply,
                )
            },
    {
        let mut stage = BatchStage::Done;
        std::mem::swap(&mut stage, &mut self.stage);
        match (stage, reply) {
            (BatchStage::Tip, BatchReply::Tip(tip)) => {
                let step = reconcile_with_tip(ctx, batch, tip);
                proof {
                    if step is Subscribe {
                        let hashes = step->Subscribe_0@;
                        assert(hashes.contains(hashes[0]));
                        assert(ctx.state@.subscribed_scripts.contains(hashes[0]));
                    }
                }
                self.reconcile(ctx, batch, step);
            },
            (BatchStage::Subscribe(_), BatchReply::Subscribed(reply)) => {
                let step = reconcile_with_subscription(reply);
                self.reconcile(ctx, batch, step);
            },
            (BatchStage::Scripts(mut run), BatchReply::Scripts(reply)) => {
                run.step(ctx, client, reply);
                self.stage = BatchStage::Scripts(run);
            },
            (BatchStage::Extend { active, at }, BatchReply::Spks(spks)) => {
                self.extend(ctx, active, at, spks);
            },
            (
                BatchStage::Extending { active, at, keychain, index, scripts },
                BatchReply::Subscribed(Ok(())),
            ) => {
                let hashes = hashes_of_pairs(&scripts);
                let new_max_subscribed = scripts[scripts.len() - 1].1;
                ctx.apply_incremental_subscription(
                    keychain,
                    index,
                    new_max_subscribed,
                    &hashes,
                    &scripts,
                );
                proof {
                    assert(active@.skip(at as int).skip(1) =~= active@.skip(at + 1));
                }
                self.stage = BatchStage::Extend { active, at: at + 1 };
            },
            (BatchStage::Extending { .. }, BatchReply::Subscribed(Err(e))) => {
                self.stage = BatchStage::Failed(e);
            },
            (stage, _) => {
                self.stage = stage;
            },
        }
    }

    /// Goes on with the reconciliation after a reconnect, or gets under way.
    fn reconcile(
        &mut self,
        ctx: &mut SubscriptionCtx<K>,
        batch: &mut PendingBatch,
        step: ReconcileStep,
    )
        requires
            old(self)@.update == empty_update(),
        ensures
            final(self).wf(),
            final(ctx).wallet_label == old(ctx).wallet_label,
            final(ctx).state == old(ctx).state,
            ({
                let before = place_of(old(self)@, *old(batch), *old(ctx));
                let after = place_of(final(self)@, *final(batch), *final(ctx));
                match step {
                    ReconcileStep::FetchTip => after == (BatchPlace {
                        run: BatchRunView { stage: BatchStageView::Tip, ..before.run },
                        ..before
                    }),
                    ReconcileStep::Subscribe(hashes) => after == (BatchPlace {
                        run: BatchRunView {
                            stage: BatchStageView::Subscribe(hashes@),
                            ..before.run
                        },
                        ..before
                    }),
                    ReconcileStep::Done => is_under_way(before, after, old(ctx).state@),
                    ReconcileStep::Failed(e) => after == (BatchPlace {
                        run: BatchRunView { stage: BatchStageView::Failed(e), ..before.run },
                        ..before
                    }),
                }
            }),
    {
        match step {
            ReconcileStep::FetchTip => {
                self.stage = BatchStage::Tip;
            },
            ReconcileStep::Subscribe(hashes) => {
                self.stage = BatchStage::Subscribe(hashes);
            },
            ReconcileStep::Done => {
                self.get_under_way(ctx, batch);
            },
            ReconcileStep::Failed(e) => {
                self.stage = BatchStage::Failed(e);
            },
        }
    }

    /// Takes in the scripts that are to be subscribed on account of one with new transactions.
    fn extend(
        &mut self,
        ctx: &mut SubscriptionCtx<K>,
        active: Vec<ElectrumScriptHash>,
        at: usize,
        spks: Vec<(u32, Vec<u8>)>,
    )
        requires
            at <= active.len(),
        ensures
            final(self).wf(),
            final(ctx).wallet_label == old(ctx).wallet_label,
            final(ctx).chain_tip == old(ctx).chain_tip,
            (final(self)@, final(ctx).state@) == extension_step(
                old(self)@,
                active@.skip(at as int),
                old(ctx).state@,
                spks@,
            ),
    {
        if at == active.len() {
            self.stage = BatchStage::Extend { active, at };
            return;
        }
        proof {
            assert(active@.skip(at as int)[0] == active@[at as int]);
            assert(active@.skip(at as int).skip(1) =~= active@.skip(at + 1));
        }
        match ctx.extension_range(&active[at], self.settings.stop_gap) {
            Some((keychain, index, _, _)) => {
                let scripts = incremental_scripts(&spks);
                if scripts.len() == 0 {
                    ctx.bump_last_active(keychain, index);
                    self.stage = BatchStage::Extend { active, at: at + 1 };
                } else {
                    self.stage = BatchStage::Extending { active, at, keychain, index, scripts };
                }
            },
            None => {
                self.stage = BatchStage::Extend { active, at };
            },
        }
    }

    /// The update of the batch with a snapshot to resume from, or why there is none. There is no update
    /// where nothing changed. Before the end there is neither.
    pub fn finish(self, ctx: &SubscriptionCtx<K>) -> (r: Option<
        Result<Option<(SyncResponse, SyncCheckpoint<K>)>, Error>,
    >)
        ensures
            ({
                let update = TxUpdateView { txs: deduped(self@.update.txs), ..self@.update };
                let is_nothing = update == empty_update() && self@.chain is None;
                match r {
                    Some(Ok(Some((response, checkpoint)))) => {
                        &&& self@.stage is Done
                        &&& !is_nothing
                        &&& response.tx_update@ == update
                        &&& tip_blocks(response.chain_update) == self@.chain
                        &&& checkpoint@ == snapshot_of(ctx.state@, tip_blocks(ctx.chain_tip))
                    },
                    Some(Ok(None)) => self@.stage is Done && is_nothing,
                    Some(Err(e)) => self@.stage == BatchStageView::<K::V>::Failed(e),
                    None => !(self@.stage is Done) && !(self@.stage is Failed),
                }
            }),
    {
        match self.stage {
            BatchStage::Done => Some(
                Ok(build_sync_update_from_batch(ctx, self.updates.finish(), self.chain_update)),
            ),
            BatchStage::Failed(e) => Some(Err(e)),
            _ => None,
        }
    }
}

/// Where it goes on after some scripts does not depend on how far it is.
proof fn extension_ignores_stage<KV>(
    run: BatchRunView<KV>,
    stage: BatchStageView<KV>,
    active: Seq<ElectrumScriptHash>,
    state: SubscriptionStateView<KV>,
)
    ensures
        to_extension(run, active, state) == to_extension(
            BatchRunView { stage, ..run },
            active,
            state,
        ),
    decreases active.len(),
{
    if active.len() > 0 {
        extension_ignores_stage(run, stage, active.skip(1), state);
    }
}

/// A batch that is at its end stays there, whatever it is told.
pub proof fn the_end_of_a_batch_is_final<KV>(
    run: BatchRunView<KV>,
    state: SubscriptionStateView<KV>,
    statuses: Map<ElectrumScriptHash, Option<ElectrumScriptStatus>>,
    caches: Caches,
    reply: BatchReply,
)
    requires
        run.stage is Done || run.stage is Refused || run.stage is Failed,
    ensures
        batch_advanced(run, state, statuses, caches) == (run, state),
        batch_step(run, state, caches, reply) == (run, state, caches),
{
}

/// What was found out is kept, whatever comes up later: if the connection is lost while some scripts are
/// looked at, the batch is at its end with what the scripts before them brought, and what is expected of
/// scripts is as before.
pub proof fn what_was_found_is_kept<KV>(
    run: BatchRunView<KV>,
    state: SubscriptionStateView<KV>,
    statuses: Map<ElectrumScriptHash, Option<ElectrumScriptStatus>>,
    caches: Caches,
    reply: BatchReply,
)
    ensures
        batch_step(run, state, caches, reply).0.update == run.update,
        ({
            let (after, known) = batch_advanced(run, state, statuses, caches);
            &&& run.update.txs.is_prefix_of(after.update.txs)
            &&& run.update.txouts.dom().subset_of(after.update.txouts.dom())
            &&& run.update.anchors.subset_of(after.update.anchors)
            &&& run.update.seen_ats.subset_of(after.update.seen_ats)
            &&& run.update.evicted_ats.subset_of(after.update.evicted_ats)
        }),
        run.stage matches BatchStageView::Scripts(ScriptsStageView::FollowUp {
            histories,
            active,
            run: follow_up,
        }) && advanced(follow_up, caches).stage matches StageView::Failed(e) && is_disconnect(e)
            ==> batch_advanced(run, state, statuses, caches) == (
            BatchRunView { left: Seq::empty(), stage: BatchStageView::Done, ..run },
            state,
        ),
{
    match run.stage {
        BatchStageView::Scripts(stage) => {
            let data = chunk_data(run.settings, run.left);
            let (stage, known) = scripts_advanced(data, stage, state, statuses, caches);
            if let ScriptsStageView::Done { update, active } = stage {
                let joined = BatchRunView {
                    left: run.left.skip(chunk_len(run.left)),
                    update: joined_update(run.update, update),
                    ..run
                };
                extension_keeps_update(joined, active, known);
            }
        },
        BatchStageView::Extend(active) => {
            extension_keeps_update(run, active, state);
        },
        _ => {},
    }
}

proof fn extension_keeps_update<KV>(
    run: BatchRunView<KV>,
    active: Seq<ElectrumScriptHash>,
    state: SubscriptionStateView<KV>,
)
    ensures
        to_extension(run, active, state).update == run.update,
    decreases active.len(),
{
    if active.len() > 0 {
        extension_keeps_update(run, active.skip(1), state);
    }
}

/// Of the scripts with a new transaction the first that calls for more scripts is where tracking is extended
/// next. Where none does, the next scripts of the batch are looked at, and the batch is done without any.
pub proof fn the_first_script_that_calls_for_more_is_next<KV>(
    run: BatchRunView<KV>,
    active: Seq<ElectrumScriptHash>,
    state: SubscriptionStateView<KV>,
    i: int,
)
    requires
        0 <= i <= active.len(),
        forall|k: int|
            0 <= k < i ==> extension_of(state, #[trigger] active[k], run.settings.stop_gap) is None,
        i < active.len() ==> extension_of(state, active[i], run.settings.stop_gap) is Some,
    ensures
        ({
            let after = to_extension(run, active, state);
            &&& after.left == run.left
            &&& after.update == run.update
            &&& after.chain == run.chain
            &&& after.settings == run.settings
            &&& i < active.len() ==> after.stage == BatchStageView::<KV>::Extend(active.skip(i))
            &&& i == active.len() && run.left.len() == 0 ==> after.stage is Done
            &&& i == active.len() && run.left.len() > 0 ==> after.stage == BatchStageView::<
                KV,
            >::Scripts(ScriptsStageView::Histories)
        }),
    decreases i,
{
    if i > 0 {
        let rest = active.skip(1);
        assert(extension_of(state, active[0], run.settings.stop_gap) is None);
        assert forall|k: int| 0 <= k < i - 1 implies extension_of(
            state,
            #[trigger] rest[k],
            run.settings.stop_gap,
        ) is None by {
            assert(extension_of(state, active[k + 1], run.settings.stop_gap) is None);
        }
        the_first_script_that_calls_for_more_is_next(run, rest, state, i - 1);
        assert(rest.skip(i - 1) =~= active.skip(i));
    } else {
        assert(active.skip(0) =~= active);
    }
}

/// The scripts of a batch are looked at sixty-four at a time. When the histories of some are worked off, their
/// update is added to that of the batch, and they are looked at no more; a lost connection ends the batch
/// with what was found before, and any other failure ends it with that failure.
pub proof fn a_worked_off_chunk_is_passed<KV>(
    run: BatchRunView<KV>,
    stage: ScriptsStageView,
    state: SubscriptionStateView<KV>,
    statuses: Map<ElectrumScriptHash, Option<ElectrumScriptStatus>>,
    caches: Caches,
    update: TxUpdateView,
    active: Seq<ElectrumScriptHash>,
    e: Error,
    seen: (Txid, u64),
    anchor: (ConfirmationBlockTime, Txid),
)
    requires
        run.stage == BatchStageView::<KV>::Scripts(stage),
    ensures
        ({
            let worked = scripts_advanced(
                chunk_data(run.settings, run.left),
                stage,
                state,
                statuses,
                caches,
            );
            let (after, known) = batch_advanced(run, state, statuses, caches);
            &&& known == worked.1
            &&& worked.0 == (ScriptsStageView::Done { update, active }) ==> {
                &&& run.left.len() > 64 ==> after.left == run.left.skip(64)
                &&& run.left.len() <= 64 ==> after.left.len() == 0
                &&& after.update.txs == run.update.txs + update.txs
                &&& after.update.seen_ats.contains(seen) <==> run.update.seen_ats.contains(seen)
                    || update.seen_ats.contains(seen)
                &&& after.update.evicted_ats.contains(seen) <==> run.update.evicted_ats.contains(
                    seen,
                ) || update.evicted_ats.contains(seen)
                &&& after.update.anchors.contains(anchor) <==> run.update.anchors.contains(anchor)
                    || update.anchors.contains(anchor)
                &&& after.chain == run.chain
            }
            &&& worked.0 == ScriptsStageView::Failed(e) && (e == Error::Disconnected || e
                == Error::BatchRequest(BatchRequestError::Canceled)) ==> after.stage is Done
                && after.left.len() == 0 && after.update == run.update && after.chain == run.chain
            &&& worked.0 == ScriptsStageView::Failed(e) && e != Error::Disconnected && e
                != Error::BatchRequest(BatchRequestError::Canceled) ==> after.stage
                == BatchStageView::<KV>::Failed(e) && after.update == run.update
            &&& worked.0 is Histories || worked.0 is FollowUp ==> after == (BatchRunView {
                stage: BatchStageView::<KV>::Scripts(worked.0),
                ..run
            })
        }),
{
    let worked = scripts_advanced(
        chunk_data(run.settings, run.left),
        stage,
        state,
        statuses,
        caches,
    );
    let next = BatchRunView {
        left: run.left.skip(chunk_len(run.left)),
        update: joined_update(run.update, update),
        ..run
    };
    extension_keeps_the_rest(next, active, worked.1);
}

proof fn extension_keeps_the_rest<KV>(
    run: BatchRunView<KV>,
    active: Seq<ElectrumScriptHash>,
    state: SubscriptionStateView<KV>,
)
    ensures
        to_extension(run, active, state).update == run.update,
        to_extension(run, active, state).left == run.left,
        to_extension(run, active, state).chain == run.chain,
    decreases active.len(),
{
    if active.len() > 0 {
        extension_keeps_the_rest(run, active.skip(1), state);
    }
}

/// The scripts that are looked at together are the first sixty-four that are left, in order.
pub proof fn a_chunk_is_the_first_that_are_left(
    settings: BatchSettings,
    left: Seq<ElectrumScriptHash>,
    i: int,
)
    ensures
        ({
            let data = chunk_data(settings, left);
            &&& left.len() >= 64 ==> data.hashes.len() == 64
            &&& left.len() < 64 ==> data.hashes == left
            &&& 0 <= i < data.hashes.len() ==> data.hashes[i] == left[i]
            &&& data.start_time == settings.start_time
            &&& data.fetch_prev_txouts == settings.fetch_prev_txouts
        }),
{
    if left.len() < 64 {
        assert(left.take(left.len() as int) =~= left);
    }
}

/// Further scripts are subscribed to before they are tracked; without any, only the last active index of the
/// keychain moves on, and the next script with a new transaction has its turn.
pub proof fn further_scripts_are_subscribed_to<KV>(
    run: BatchRunView<KV>,
    active: Seq<ElectrumScriptHash>,
    state: SubscriptionStateView<KV>,
    caches: Caches,
    spks: Vec<(u32, Vec<u8>)>,
    keychain: KV,
    index: u32,
    from: u64,
    to: u64,
    i: int,
)
    requires
        run.stage == BatchStageView::<KV>::Extend(active),
        active.len() > 0,
        extension_of(state, active[0], run.settings.stop_gap) == Some((keychain, index, from, to)),
    ensures
        ({
            let (after, known, then) = batch_step(run, state, caches, BatchReply::Spks(spks));
            &&& then == caches
            &&& after.update == run.update
            &&& after.left == run.left
            &&& spks@.len() == 0 ==> after.stage == BatchStageView::<KV>::Extend(active.skip(1))
                && known.last_active_indices.contains_key(keychain)
                && known.last_active_indices[keychain] >= index && known.script_subscriptions
                == state.script_subscriptions && known.max_subscribed_indices
                == state.max_subscribed_indices && known.subscribed_scripts
                == state.subscribed_scripts
            &&& spks@.len() > 0 ==> known == state && match after.stage {
                BatchStageView::Extending { active: same, keychain: its, index: new, scripts } => {
                    &&& same == active
                    &&& its == keychain
                    &&& new == index
                    &&& scripts.len() == spks@.len()
                    &&& 0 <= i < spks@.len() ==> scripts[i] == (
                        electrum_script_hash(spks@[i].1@),
                        spks@[i].0,
                    )
                },
                _ => false,
            }
        }),
{
}

/// Once further scripts are subscribed to, each of them is tracked on the keychain at its index, the keychain
/// up to the last of them, and the next script with a new transaction has its turn. Where subscribing
/// failed, the batch fails and nothing is tracked.
pub proof fn subscribed_further_scripts_are_tracked<KV>(
    run: BatchRunView<KV>,
    active: Seq<ElectrumScriptHash>,
    keychain: KV,
    index: u32,
    scripts: Seq<(ElectrumScriptHash, u32)>,
    state: SubscriptionStateView<KV>,
    caches: Caches,
    e: Error,
    i: int,
)
    requires
        run.stage == (BatchStageView::Extending { active, keychain, index, scripts }),
        0 <= i < scripts.len(),
    ensures
        ({
            let (after, known, then) = batch_step(
                run,
                state,
                caches,
                BatchReply::Subscribed(Ok(())),
            );
            &&& then == caches
            &&& after.stage == BatchStageView::<KV>::Extend(active.skip(1))
            &&& after.update == run.update
            &&& after.left == run.left
            &&& known.subscribed_scripts.contains(scripts[i].0)
            &&& known.max_subscribed_indices.get(keychain) == Some(scripts[scripts.len() - 1].1)
            &&& known.last_active_indices.contains_key(keychain)
            &&& known.last_active_indices[keychain] >= index
            &&& (forall|j: int|
                i < j < scripts.len() ==> (#[trigger] scripts[j]).0 != scripts[i].0)
                ==> known.script_to_keychain_index.get(scripts[i].0) == Some(
                (keychain, scripts[i].1),
            )
            &&& state.subscribed_scripts.subset_of(known.subscribed_scripts)
        }),
        batch_step(run, state, caches, BatchReply::Subscribed(Err(e))) == (
            BatchRunView { stage: BatchStageView::<KV>::Failed(e), ..run },
            state,
            caches,
        ),
{
    let hashes = script_hashes_of(scripts);
    assert(hashes[i] == scripts[i].0);
    an_extension_adds_its_scripts(
        state,
        keychain,
        index,
        scripts.last().1,
        hashes,
        scripts,
        i,
        scripts[i].0,
        keychain,
    );
}

/// A batch whose header fits onto the known chain is worked off: the block of the header is in the chain at
/// its height, the header and the gap are dealt with, the statuses are kept, and every script is looked at
/// that the batch calls for. A batch whose header does not fit is refused, and nothing changes.
pub proof fn a_batch_gets_under_way<KV>(
    before: BatchPlace<KV>,
    after: BatchPlace<KV>,
    state: SubscriptionStateView<KV>,
    height: u32,
    header: Header,
    hash: ElectrumScriptHash,
)
    requires
        is_under_way(before, after, state),
        before.batch.latest_header == Some((height, header)),
    ensures
        before.chain_tip is Some && accepts_latest(before.chain_tip, before.batch.latest_header)
            ==> {
            &&& after.run.chain is Some
            &&& after.run.chain->0.get(height) == Some(block_hash_of(header))
            &&& tip_blocks(after.chain_tip) == after.run.chain
        },
        before.chain_tip is None ==> after.run.chain is None && after.chain_tip is None,
        accepts_latest(before.chain_tip, before.batch.latest_header) ==> {
            &&& after.batch.latest_header is None
            &&& !after.batch.lagged
            &&& after.batch.script_statuses == before.batch.script_statuses
            &&& after.run.update == before.run.update
            &&& before.batch.lagged && state.subscribed_scripts.contains(hash)
                ==> after.run.left.contains(hash)
            &&& after.run.left.len() == 0 <==> after.run.stage is Done
        },
        !accepts_latest(before.chain_tip, before.batch.latest_header) ==> {
            &&& after.run.stage is Refused
            &&& after.run.update == before.run.update
            &&& after.batch == before.batch
            &&& tip_blocks(after.chain_tip) == tip_blocks(before.chain_tip)
        },
{
    if accepts_latest(before.chain_tip, before.batch.latest_header) {
        assert(after.run.left.contains(hash) <==> scripts_to_process(
            state,
            before.batch,
            new_chain(before.chain_tip, before.batch) is Some,
        ).contains(hash));
    }
}

/// After the connection came back, the tip of the server counts as a header of the batch, and all scripts
/// that are subscribed to are subscribed to once more.
pub proof fn a_reconnect_brings_the_tip<KV>(
    before: BatchPlace<KV>,
    after: BatchPlace<KV>,
    state: SubscriptionStateView<KV>,
    tip: BlockHeader,
    hash: ElectrumScriptHash,
)
    requires
        before.run.stage is Tip,
        is_reconciled(before, after, state, BatchReply::Tip(Ok(tip))),
        state.subscribed_scripts.contains(hash),
    ensures
        after.batch.latest_header == Some((tip.height, tip.header)),
        after.batch.script_statuses == before.batch.script_statuses,
        after.run.update == before.run.update,
        after.chain_tip == before.chain_tip,
        match after.run.stage {
            BatchStageView::Subscribe(hashes) => hashes.contains(hash),
            _ => false,
        },
{
}

/// More scripts are asked for from the one after the last that is subscribed to, up to the gap beyond the one
/// that called for them.
pub proof fn more_scripts_are_asked_for_up_to_the_gap<K: Key>(
    run: BatchRunView<K::V>,
    state: SubscriptionStateView<K::V>,
    caches: Caches,
    active: Seq<ElectrumScriptHash>,
    keychain: K,
    from: u64,
    to: u64,
    index: u32,
)
    requires
        run.stage == BatchStageView::<K::V>::Extend(active),
        is_batch_ask::<K>(run, state, caches, BatchAsk::Spks { keychain, from, to }),
        state.script_to_keychain_index.get(active[0]) == Some((keychain@, index)),
        state.max_subscribed_indices.contains_key(keychain@),
    ensures
        from == state.max_subscribed_indices[keychain@] + 1,
        to == index + run.settings.stop_gap,
        state.last_active_indices.contains_key(keychain@),
        index > state.last_active_indices[keychain@],
{
    activity_beyond_the_last_calls_for_more(
        state,
        active[0],
        run.settings.stop_gap,
        keychain@,
        index,
    );
}

/// Where the tip or the subscriptions cannot be had after the connection came back, the batch fails with that
/// failure, and nothing else changes; a connection that is lost again is no failure, and the batch is worked
/// off as it is.
pub proof fn a_failure_after_a_reconnect_ends_a_batch<KV>(
    before: BatchPlace<KV>,
    after: BatchPlace<KV>,
    state: SubscriptionStateView<KV>,
    e: Error,
)
    requires
        (before.run.stage is Tip && is_reconciled(before, after, state, BatchReply::Tip(Err(e))))
            || (before.run.stage is Subscribe && is_reconciled(
            before,
            after,
            state,
            BatchReply::Subscribed(Err(e)),
        )),
    ensures
        e != Error::Disconnected && e != Error::BatchRequest(BatchRequestError::Canceled) ==> {
            &&& after.run.stage == BatchStageView::<KV>::Failed(e)
            &&& after.run.update == before.run.update
            &&& after.run.left == before.run.left
            &&& after.run.chain == before.run.chain
            &&& after.batch == before.batch
            &&& after.chain_tip == before.chain_tip
        },
        e == Error::Disconnected || e == Error::BatchRequest(BatchRequestError::Canceled)
            ==> is_under_way(before, after, state),
{
}

/// Once the scripts are subscribed to again, the batch is worked off.
pub proof fn a_resubscribed_batch_is_worked_off<KV>(
    before: BatchPlace<KV>,
    after: BatchPlace<KV>,
    state: SubscriptionStateView<KV>,
)
    requires
        before.run.stage is Subscribe,
        is_reconciled(before, after, state, BatchReply::Subscribed(Ok(()))),
    ensures
        is_under_way(before, after, state),
{
}

/// A batch begins with nothing found, and with the given settings.
pub proof fn a_batch_begins_with_nothing<KV>(settings: BatchSettings)
    ensures
        ({
            let start = batch_start::<KV>(settings);
            &&& start.settings == settings
            &&& start.chain is None
            &&& start.left.len() == 0
            &&& start.update.txs.len() == 0
            &&& start.stage is Tip
        }),
{
}

} // verus!
