//! From a notification to the item that a stream of updates yields for it.
//!
//! It is asked what is to be done, and told what came of it.
use bdk_core::CheckPoint;
use vstd::prelude::*;

use crate::bdk::bdk_electrum_client::{
    fresh_scripts, further_scripts_have_their_places, handle_script_hash_notification,
    hashed_scripts, incremental_scripts, hashes_of_pairs, last_or_zero, script_hashes_of,
    scripts_before_extension, subscribed_scripts_are_tracked_as_listed, with_places, with_scripts,
    BdkElectrumClient, ScriptAction, StreamAction, SubscriptionCtx,
};
use crate::bdk::live_sync_engine::{
    can_accept_header, handle_block_header_notification, header_block,
};
use crate::bdk::response::SyncResponse;
use crate::bdk::script_update::{
    is_update_ask, update_advanced, update_start, update_step, ScriptUpdateAsk, ScriptUpdateData,
    ScriptUpdateReply, ScriptUpdateRun, ScriptUpdateStageView,
};
use crate::bdk::subscribing_scan::{known_of, Known};
use crate::chain::{
    block_hash_of, checkpoint_blocks, insertable, tip_blocks, with_block, Header,
};
use crate::electrum::error::Error;
use crate::hash::{electrum_script_hash, ElectrumScriptHash, Hash256, Txid};
use crate::ordered::{Key, Value};
use crate::tx::{empty_update, TxUpdate};

verus! {

/// How notifications are handled.
#[derive(Debug, Clone, Copy, PartialEq, Eq)]
pub struct StreamSettings {
    /// The time at which transactions are seen or found to be gone.
    pub start_time: u64,
    /// Whether what transactions spend is fetched too.
    pub fetch_prev_txouts: bool,
    /// How many scripts beyond the last active one are subscribed.
    pub stop_gap: usize,
}

/// The scripts of a wallet that a stream of updates is about, as contracts speak of them.
#[verifier::reject_recursive_types(KV)]
pub struct StreamCtxView<KV> {
    /// The scripts that are subscribed.
    pub subscribed_scripts: Set<ElectrumScriptHash>,
    /// The keychain and index of each script.
    pub places: Map<ElectrumScriptHash, (KV, u32)>,
    /// Last active derivation index per keychain.
    pub last_active_indices: Map<KV, u32>,
    /// The chain that is known.
    pub chain: Option<Map<u32, Hash256>>,
}

/// The scripts of a wallet that a stream of updates is about, as contracts speak of them.
pub open spec fn stream_ctx<K: Key>(ctx: SubscriptionCtx<K>) -> StreamCtxView<K::V> {
    StreamCtxView {
        subscribed_scripts: ctx.subscribed_scripts@,
        places: ctx.script_to_keychain_index@,
        last_active_indices: ctx.last_active_indices@,
        chain: tip_blocks(ctx.chain_tip),
    }
}

/// How far a notification is.
#[verifier::reject_recursive_types(KV)]
#[allow(inconsistent_fields)]
pub enum ItemStageView<KV> {
    /// A script is in use that was not known to be: the scripts beyond it are waited for.
    Spks {
        /// The script.
        hash: ElectrumScriptHash,
        /// Its keychain.
        keychain: KV,
        /// Its index.
        index: u32,
    },
    /// The scripts beyond it are to be subscribed.
    Subscribe {
        /// The script.
        hash: ElectrumScriptHash,
        /// Its keychain.
        keychain: KV,
        /// Its index.
        index: u32,
        /// The scripts that are to be subscribed, with their indices.
        scripts: Seq<(ElectrumScriptHash, u32)>,
    },
    /// The history of a script is looked at.
    Update {
        /// The script.
        hash: ElectrumScriptHash,
        /// How far that is.
        stage: ScriptUpdateStageView,
    },
    /// The chain has a new tip.
    NewTip(Map<u32, Hash256>),
    /// Nothing is to be done.
    Nothing,
    /// A header cannot be put into the chain that is known.
    Refused,
}

/// Which script is looked at, and how.
pub open spec fn item_data(settings: StreamSettings, hash: ElectrumScriptHash) -> ScriptUpdateData {
    ScriptUpdateData {
        script_hash: hash,
        start_time: settings.start_time,
        fetch_prev_txouts: settings.fetch_prev_txouts,
    }
}

/// On to the history of a script.
pub open spec fn to_update<KV>(
    settings: StreamSettings,
    hash: ElectrumScriptHash,
    known: Known,
) -> ItemStageView<KV> {
    ItemStageView::Update { hash, stage: update_start(item_data(settings, hash), known) }
}

/// What a notification leads to at first: a script that is not subscribed is ignored; for one that is in
/// use and was not known to be, more are subscribed before its history is looked at; and a new block is
/// put into the chain, where one is known.
pub open spec fn item_start<KV>(
    settings: StreamSettings,
    ctx: StreamCtxView<KV>,
    known: Known,
    action: StreamAction,
) -> (ItemStageView<KV>, StreamCtxView<KV>) {
    match action {
        StreamAction::Script(hash) => {
            let stage = if !ctx.subscribed_scripts.contains(hash) {
                ItemStageView::Nothing
            } else if ctx.places.contains_key(hash) && ctx.places[hash].1 > last_or_zero(
                ctx.last_active_indices,
                ctx.places[hash].0,
            ) {
                let (keychain, index) = ctx.places[hash];
                ItemStageView::Spks { hash, keychain, index }
            } else {
                to_update(settings, hash, known)
            };
            (stage, ctx)
        },
        StreamAction::Header { height, header } => match ctx.chain {
            Some(blocks) => if insertable(blocks, header_block(height, header)) {
                let chain = with_block(blocks, header_block(height, header));
                (ItemStageView::NewTip(chain), StreamCtxView { chain: Some(chain), ..ctx })
            } else {
                (ItemStageView::Refused, ctx)
            },
            None => (ItemStageView::Nothing, ctx),
        },
        _ => (ItemStageView::Nothing, ctx),
    }
}

/// As far as it can be gone with what the client knows.
pub open spec fn item_advanced<KV>(
    settings: StreamSettings,
    stage: ItemStageView<KV>,
    known: Known,
) -> (ItemStageView<KV>, Known) {
    match stage {
        ItemStageView::Update { hash, stage } => {
            let (stage, known) = update_advanced(item_data(settings, hash), stage, known);
            (ItemStageView::Update { hash, stage }, known)
        },
        _ => (stage, known),
    }
}

/// What is to be done.
#[allow(inconsistent_fields)]
pub enum ItemAsk<K: Key> {
    /// Some scripts of a keychain are to be derived.
    Spks {
        /// The keychain.
        keychain: K,
        /// How many scripts come before them.
        before: u64,
        /// How many scripts.
        count: usize,
    },
    /// These scripts are to be subscribed.
    Subscribe(Vec<ElectrumScriptHash>),
    /// What looking at the history of a script needs.
    Update(ScriptUpdateAsk),
    /// Nothing more.
    Done,
    /// Nothing more, since a header cannot be put into the chain that is known.
    Refused,
}

/// Whether nothing more is needed to look at the history of a script.
pub open spec fn is_update_over(stage: ScriptUpdateStageView) -> bool {
    stage is Done || stage is Failed
}

/// Whether this is what is to be done.
pub open spec fn is_item_ask<K: Key>(
    settings: StreamSettings,
    stage: ItemStageView<K::V>,
    known: Known,
    ask: ItemAsk<K>,
) -> bool {
    match (stage, ask) {
        (
            ItemStageView::Spks { hash, keychain, index },
            ItemAsk::Spks { keychain: asked, before, count },
        ) => asked@ == keychain && before == index + 1 && count == settings.stop_gap,
        (
            ItemStageView::Subscribe { hash, keychain, index, scripts },
            ItemAsk::Subscribe(hashes),
        ) => hashes@ == script_hashes_of(scripts),
        (ItemStageView::Update { hash, stage }, ItemAsk::Update(ask)) => !is_update_over(stage)
            && is_update_ask(item_data(settings, hash), stage, known, ask),
        (ItemStageView::Update { hash, stage }, ItemAsk::Done) => is_update_over(stage),
        (ItemStageView::NewTip(chain), ItemAsk::Done) => true,
        (ItemStageView::Nothing, ItemAsk::Done) => true,
        (ItemStageView::Refused, ItemAsk::Refused) => true,
        _ => false,
    }
}

/// What came of it.
pub enum ItemReply {
    /// Some scripts of a keychain, with their indices.
    Spks(Vec<(u32, Vec<u8>)>),
    /// The scripts were subscribed, or were not.
    Subscribed(Result<(), Error>),
    /// What looking at the history of a script needs.
    Update(ScriptUpdateReply),
}

/// How a reply changes things. The history of the script is looked at also where the scripts beyond it
/// could not be subscribed; these are tried again with the next notification then. A reply to something
/// that is not waited for changes nothing.
pub open spec fn item_step<KV>(
    settings: StreamSettings,
    stage: ItemStageView<KV>,
    ctx: StreamCtxView<KV>,
    known: Known,
    reply: ItemReply,
) -> (ItemStageView<KV>, StreamCtxView<KV>, Known) {
    match (stage, reply) {
        (ItemStageView::Spks { hash, keychain, index }, ItemReply::Spks(spks)) => {
            let scripts = hashed_scripts(spks@);
            let stage = if scripts.len() == 0 {
                to_update(settings, hash, known)
            } else {
                ItemStageView::Subscribe { hash, keychain, index, scripts }
            };
            (stage, ctx, known)
        },
        (
            ItemStageView::Subscribe { hash, keychain, index, scripts },
            ItemReply::Subscribed(Ok(())),
        ) => {
            let known = Known {
                tracker: with_scripts(known.tracker, fresh_scripts(scripts)),
                ..known
            };
            let ctx = StreamCtxView {
                subscribed_scripts: ctx.subscribed_scripts.union(
                    script_hashes_of(scripts).to_set(),
                ),
                places: with_places(ctx.places, keychain, scripts),
                last_active_indices: ctx.last_active_indices.insert(keychain, index),
                ..ctx
            };
            (to_update(settings, hash, known), ctx, known)
        },
        (
            ItemStageView::Subscribe { hash, keychain, index, scripts },
            ItemReply::Subscribed(Err(e)),
        ) => (to_update(settings, hash, known), ctx, known),
        (ItemStageView::Update { hash, stage }, ItemReply::Update(reply)) => {
            let (stage, known) = update_step(item_data(settings, hash), stage, known, reply);
            (ItemStageView::Update { hash, stage }, ctx, known)
        },
        _ => (stage, ctx, known),
    }
}

#[allow(inconsistent_fields)]
enum ItemStage<K: Key> {
    Spks { hash: ElectrumScriptHash, keychain: K, index: u32 },
    Subscribe {
        hash: ElectrumScriptHash,
        keychain: K,
        index: u32,
        scripts: Vec<(ElectrumScriptHash, u32)>,
    },
    Update { hash: ElectrumScriptHash, run: ScriptUpdateRun },
    NewTip(CheckPoint),
    Nothing,
    Refused,
}

/// A notification that is handled.
pub struct ItemRun<K: Key> {
    settings: StreamSettings,
    stage: ItemStage<K>,
}

impl<K: Key> ItemRun<K> {
    /// How it is handled.
    pub closed spec fn settings(&self) -> StreamSettings {
        self.settings
    }

    /// How far it is.
    pub closed spec fn stage(&self) -> ItemStageView<K::V> {
        match self.stage {
            ItemStage::Spks { hash, keychain, index } => ItemStageView::Spks {
                hash,
                keychain: keychain@,
                index,
            },
            ItemStage::Subscribe { hash, keychain, index, scripts } => ItemStageView::Subscribe {
                hash,
                keychain: keychain@,
                index,
                scripts: scripts@,
            },
            ItemStage::Update { hash, run } => ItemStageView::Update { hash, stage: run.stage() },
            ItemStage::NewTip(tip) => ItemStageView::NewTip(checkpoint_blocks(tip)),
            ItemStage::Nothing => ItemStageView::Nothing,
            ItemStage::Refused => ItemStageView::Refused,
        }
    }

    /// Whether it is one that was begun with [`ItemRun::new`].
    pub closed spec fn wf(&self) -> bool {
        match self.stage {
            ItemStage::Subscribe { hash, keychain, index, scripts } => scripts.len() > 0,
            ItemStage::Update { hash, run } => run.wf() && run.data() == item_data(
                self.settings,
                hash,
            ),
            _ => true,
        }
    }

    /// Begins to handle a notification.
    pub fn new<C>(
        settings: StreamSettings,
        ctx: &mut SubscriptionCtx<K>,
        client: &BdkElectrumClient<C>,
        action: StreamAction,
    ) -> (r: Self)
        ensures
            r.wf(),
            r.settings() == settings,
            (r.stage(), stream_ctx(*final(ctx))) == item_start(
                settings,
                stream_ctx(*old(ctx)),
                known_of(*client),
                action,
            ),
    {
        let mut r = ItemRun { settings, stage: ItemStage::Nothing };
        match action {
            StreamAction::Script(hash) => match handle_script_hash_notification(ctx, &hash) {
                ScriptAction::Ignore => {},
                ScriptAction::Process => {
                    r.to_update(client, hash);
                },
                ScriptAction::ExtendAndProcess { keychain, index } => {
                    r.stage = ItemStage::Spks { hash, keychain, index };
                },
            },
            StreamAction::Header { height, header } => {
                if !can_accept_header(&ctx.chain_tip, height, &header) {
                    r.stage = ItemStage::Refused;
                } else if let Some(tip) = handle_block_header_notification(
                    height,
                    &header,
                    &mut ctx.chain_tip,
                ) {
                    r.stage = ItemStage::NewTip(tip);
                }
            },
            StreamAction::Ignore => {},
            StreamAction::Lagged(_) => {},
        }
        r
    }

    /// On to the history of a script.
    fn to_update<C>(&mut self, client: &BdkElectrumClient<C>, hash: ElectrumScriptHash)
        ensures
            final(self).wf(),
            final(self).settings() == old(self).settings(),
            final(self).stage() == to_update::<K::V>(old(self).settings(), hash, known_of(*client)),
    {
        let run = ScriptUpdateRun::new(
            client,
            hash,
            self.settings.start_time,
            self.settings.fetch_prev_txouts,
        );
        self.stage = ItemStage::Update { hash, run };
    }

    /// Goes as far as it can be gone with what the client knows, and says what is to be done.
    pub fn ask<C>(&mut self, client: &mut BdkElectrumClient<C>) -> (r: ItemAsk<K>)
        requires
            old(self).wf(),
        ensures
            final(self).wf(),
            final(self).settings() == old(self).settings(),
            final(client).client == old(client).client,
            (final(self).stage(), known_of(*final(client))) == item_advanced(
                old(self).settings(),
                old(self).stage(),
                known_of(*old(client)),
            ),
            is_item_ask(final(self).settings(), final(self).stage(), known_of(*final(client)), r),
    {
        let mut stage = ItemStage::Nothing;
        std::mem::swap(&mut stage, &mut self.stage);
        match stage {
            ItemStage::Spks { hash, keychain, index } => {
                let ask = ItemAsk::Spks {
                    keychain: keychain.replica(),
                    before: scripts_before_extension(index),
                    count: self.settings.stop_gap,
                };
                self.stage = ItemStage::Spks { hash, keychain, index };
                ask
            },
            ItemStage::Subscribe { hash, keychain, index, scripts } => {
                let hashes = hashes_of_pairs(&scripts);
                self.stage = ItemStage::Subscribe { hash, keychain, index, scripts };
                ItemAsk::Subscribe(hashes)
            },
            ItemStage::Update { hash, mut run } => {
                let ask = run.ask(client);
                self.stage = ItemStage::Update { hash, run };
                match ask {
                    ScriptUpdateAsk::Done => ItemAsk::Done,
                    ScriptUpdateAsk::Failed => ItemAsk::Done,
                    ask => ItemAsk::Update(ask),
                }
            },
            ItemStage::NewTip(tip) => {
                self.stage = ItemStage::NewTip(tip);
                ItemAsk::Done
            },
            ItemStage::Nothing => ItemAsk::Done,
            ItemStage::Refused => {
                self.stage = ItemStage::Refused;
                ItemAsk::Refused
            },
        }
    }

    /// Takes in a reply.
    pub fn step<C>(
        &mut self,
        ctx: &mut SubscriptionCtx<K>,
        client: &mut BdkElectrumClient<C>,
        reply: ItemReply,
    )
        requires
            old(self).wf(),
        ensures
            final(self).wf(),
            final(self).settings() == old(self).settings(),
            final(client).client.handle() == old(client).client.handle(),
            final(client).client.anchors() == old(client).client.anchors(),
            (final(self).stage(), stream_ctx(*final(ctx)), known_of(*final(client))) == item_step(
                old(self).settings(),
                old(self).stage(),
                stream_ctx(*old(ctx)),
                known_of(*old(client)),
                reply,
            ),
    {
        let mut stage = ItemStage::Nothing;
        std::mem::swap(&mut stage, &mut self.stage);
        match (stage, reply) {
            (ItemStage::Spks { hash, keychain, index }, ItemReply::Spks(spks)) => {
                let scripts = incremental_scripts(&spks);
                if scripts.len() == 0 {
                    self.to_update(client, hash);
                } else {
                    self.stage = ItemStage::Subscribe { hash, keychain, index, scripts };
                }
            },
            (
                ItemStage::Subscribe { hash, keychain, index, scripts },
                ItemReply::Subscribed(Ok(())),
            ) => {
                // Only update state if subscription succeeded
                client.subscribe_incremental(ctx, keychain, index, &scripts);
                self.to_update(client, hash);
            },
            (ItemStage::Subscribe { hash, .. }, ItemReply::Subscribed(Err(_))) => {
                self.to_update(client, hash);
            },
            (ItemStage::Update { hash, mut run }, ItemReply::Update(reply)) => {
                run.step(client, reply);
                self.stage = ItemStage::Update { hash, run };
            },
            (stage, _) => {
                self.stage = stage;
            },
        }
    }

    /// The item of the stream, where the notification leads to one. There is no telling before the end.
    pub fn into_item(self) -> (r: Option<Option<Result<SyncResponse, Error>>>)
        ensures
            match self.stage() {
                ItemStageView::Update {
                    hash,
                    stage: ScriptUpdateStageView::Done(Some(update)),
                } => {
                    &&& r matches Some(Some(Ok(response)))
                    &&& response.tx_update@ == update
                    &&& response.chain_update is None
                },
                ItemStageView::Update { hash, stage: ScriptUpdateStageView::Done(None) } => r
                    == Some(None::<Result<SyncResponse, Error>>),
                ItemStageView::Update { hash, stage: ScriptUpdateStageView::Failed(e) } => r
                    == Some(Some(Err::<SyncResponse, Error>(e))),
                ItemStageView::NewTip(chain) => {
                    &&& r matches Some(Some(Ok(response)))
                    &&& response.tx_update@ == empty_update()
                    &&& tip_blocks(response.chain_update) == Some(chain)
                },
                ItemStageView::Nothing => r == Some(None::<Result<SyncResponse, Error>>),
                _ => r is None,
            },
    {
        match self.stage {
            ItemStage::Update { run, .. } => match run.into_response() {
                Some(Ok(Some(response))) => Some(Some(Ok(response))),
                Some(Ok(None)) => Some(None),
                Some(Err(e)) => Some(Some(Err(e))),
                None => None,
            },
            ItemStage::NewTip(tip) => Some(
                Some(Ok(SyncResponse { tx_update: TxUpdate::new(), chain_update: Some(tip) })),
            ),
            ItemStage::Nothing => Some(None),
            _ => None,
        }
    }
}

/// Scripts are taken note of only once they were subscribed: where that failed, everything is known as
/// before, and the history of the script that was in use is looked at all the same.
pub proof fn failed_extension_changes_nothing<KV>(
    settings: StreamSettings,
    stage: ItemStageView<KV>,
    ctx: StreamCtxView<KV>,
    known: Known,
    e: Error,
)
    requires
        stage is Subscribe,
    ensures
        ({
            let reply = ItemReply::Subscribed(Err::<(), Error>(e));
            let (after, ctx_after, known_after) = item_step(settings, stage, ctx, known, reply);
            &&& ctx_after == ctx
            &&& known_after == known
            &&& after == to_update::<KV>(settings, stage->Subscribe_hash, known)
        }),
{
}

/// What a notification leads to: news of a script that is not followed lead to nothing; of one beyond the
/// last active index of its keychain, first to more scripts; of any other one that is followed, to its
/// update. A header that fits onto the known chain is the new tip, with its block in the chain, and one that
/// does not fit is refused.
pub proof fn notifications_lead_to_their_items<KV>(
    settings: StreamSettings,
    ctx: StreamCtxView<KV>,
    known: Known,
    hash: ElectrumScriptHash,
    keychain: KV,
    index: u32,
    height: u32,
    header: Header,
    n: u64,
)
    ensures
        ({
            let (stage, then) = item_start(settings, ctx, known, StreamAction::Script(hash));
            let last = if ctx.last_active_indices.contains_key(keychain) {
                ctx.last_active_indices[keychain]
            } else {
                0
            };
            &&& then == ctx
            &&& !ctx.subscribed_scripts.contains(hash) ==> stage is Nothing
            &&& ctx.subscribed_scripts.contains(hash) && ctx.places.get(hash) == Some(
                (keychain, index),
            ) && index > last ==> stage == (ItemStageView::Spks { hash, keychain, index })
            &&& ctx.subscribed_scripts.contains(hash) && ctx.places.get(hash) == Some(
                (keychain, index),
            ) && index <= last ==> stage == to_update::<KV>(settings, hash, known)
            &&& ctx.subscribed_scripts.contains(hash) && !ctx.places.contains_key(hash) ==> stage
                == to_update::<KV>(settings, hash, known)
        }),
        ({
            let (stage, then) = item_start(
                settings,
                ctx,
                known,
                StreamAction::Header { height, header },
            );
            &&& then.subscribed_scripts == ctx.subscribed_scripts
            &&& then.places == ctx.places
            &&& then.last_active_indices == ctx.last_active_indices
            &&& ctx.chain is None ==> stage is Nothing && then == ctx
            &&& ctx.chain is Some && insertable(ctx.chain->0, header_block(height, header)) ==> {
                &&& stage is NewTip
                &&& stage->NewTip_0.get(height) == Some(block_hash_of(header))
                &&& then.chain == Some(stage->NewTip_0)
            }
            &&& ctx.chain is Some && !insertable(ctx.chain->0, header_block(height, header))
                ==> stage is Refused && then == ctx
        }),
        item_start(settings, ctx, known, StreamAction::Lagged(n)) == (
            ItemStageView::<KV>::Nothing,
            ctx,
        ),
        item_start(settings, ctx, known, StreamAction::Ignore) == (
            ItemStageView::<KV>::Nothing,
            ctx,
        ),
{
}

/// More scripts are subscribed to, one by one and in order; without any the script itself is looked at.
pub proof fn more_scripts_are_subscribed_to_first<KV>(
    settings: StreamSettings,
    ctx: StreamCtxView<KV>,
    known: Known,
    hash: ElectrumScriptHash,
    keychain: KV,
    index: u32,
    spks: Vec<(u32, Vec<u8>)>,
    i: int,
)
    ensures
        ({
            let (stage, then, now) = item_step(
                settings,
                ItemStageView::Spks { hash, keychain, index },
                ctx,
                known,
                ItemReply::Spks(spks),
            );
            &&& then == ctx
            &&& now == known
            &&& spks@.len() == 0 ==> stage == to_update::<KV>(settings, hash, known)
            &&& spks@.len() > 0 ==> match stage {
                ItemStageView::Subscribe { hash: same, keychain: its, index: new, scripts } => {
                    &&& same == hash
                    &&& its == keychain
                    &&& new == index
                    &&& scripts.len() == spks@.len()
                    &&& 0 <= i < spks@.len() ==> scripts[i] == (
                        electrum_script_hash(spks@[i].1@),
                        spks@[i].0,
                    )
                },
                _ => false,
            }
        }),
{
}

/// Once more scripts are subscribed to, each of them is followed, tracked with nothing expected of it, and has
/// its place on the keychain; the keychain is active at the index of the script that called for them, which
/// is looked at next.
pub proof fn more_scripts_are_followed<KV>(
    settings: StreamSettings,
    ctx: StreamCtxView<KV>,
    known: Known,
    hash: ElectrumScriptHash,
    keychain: KV,
    index: u32,
    scripts: Seq<(ElectrumScriptHash, u32)>,
    i: int,
    other: KV,
)
    requires
        0 <= i < scripts.len(),
        forall|j: int| i < j < scripts.len() ==> (#[trigger] scripts[j]).0 != scripts[i].0,
    ensures
        ({
            let (stage, then, now) = item_step(
                settings,
                ItemStageView::Subscribe { hash, keychain, index, scripts },
                ctx,
                known,
                ItemReply::Subscribed(Ok(())),
            );
            &&& then.subscribed_scripts.contains(scripts[i].0)
            &&& ctx.subscribed_scripts.subset_of(then.subscribed_scripts)
            &&& then.places.get(scripts[i].0) == Some((keychain, scripts[i].1))
            &&& then.last_active_indices.get(keychain) == Some(index)
            &&& other != keychain ==> then.last_active_indices.get(other)
                == ctx.last_active_indices.get(other)
            &&& then.chain == ctx.chain
            &&& now.tracker.get(scripts[i].0) == Some(Set::<Txid>::empty())
            &&& now.caches == known.caches
            &&& stage == to_update::<KV>(settings, hash, now)
        }),
{
    let fresh = fresh_scripts(scripts);
    assert(script_hashes_of(scripts)[i] == scripts[i].0);
    assert(script_hashes_of(scripts).contains(scripts[i].0));
    further_scripts_have_their_places(ctx.places, keychain, scripts, i, hash);
    assert forall|j: int| i < j < fresh.len() implies (#[trigger] fresh[j]).0 != fresh[i].0 by {
        assert(scripts[j].0 != scripts[i].0);
    }
    subscribed_scripts_are_tracked_as_listed(known.tracker, fresh, i, hash);
}

/// The script of a notification is the one that is looked at, if it is tracked.
pub proof fn the_script_itself_is_looked_at<KV>(
    settings: StreamSettings,
    hash: ElectrumScriptHash,
    known: Known,
)
    ensures
        to_update::<KV>(settings, hash, known) matches ItemStageView::Update { hash: same, stage }
            && same == hash && (stage is History <==> known.tracker.contains_key(hash)) && (
        !known.tracker.contains_key(hash) ==> stage == ScriptUpdateStageView::Done(None)),
        item_data(settings, hash).script_hash == hash,
        item_data(settings, hash).start_time == settings.start_time,
        item_data(settings, hash).fetch_prev_txouts == settings.fetch_prev_txouts,
{
}

/// More scripts are asked for from the one after the script that called for them, as many as the gap.
pub proof fn more_scripts_follow_the_active_one<K: Key>(
    settings: StreamSettings,
    known: Known,
    hash: ElectrumScriptHash,
    keychain: K::V,
    index: u32,
    asked: K,
    before: u64,
    count: usize,
)
    requires
        is_item_ask::<K>(
            settings,
            ItemStageView::Spks { hash, keychain, index },
            known,
            ItemAsk::Spks { keychain: asked, before, count },
        ),
    ensures
        asked@ == keychain,
        before == index + 1,
        count == settings.stop_gap,
{
}

/// An update goes on by itself, and its script stays the same.
pub proof fn the_update_of_a_script_goes_on<KV>(
    settings: StreamSettings,
    hash: ElectrumScriptHash,
    stage: ScriptUpdateStageView,
    known: Known,
)
    ensures
        ({
            let (after, then) = item_advanced(
                settings,
                ItemStageView::<KV>::Update { hash, stage },
                known,
            );
            let on = update_advanced(item_data(settings, hash), stage, known);
            &&& after == (ItemStageView::<KV>::Update { hash, stage: on.0 })
            &&& then == on.1
        }),
        item_advanced(settings, ItemStageView::<KV>::Nothing, known) == (
            ItemStageView::<KV>::Nothing,
            known,
        ),
        item_advanced(settings, ItemStageView::<KV>::Refused, known) == (
            ItemStageView::<KV>::Refused,
            known,
        ),
{
}

} // verus!
