//! Following a wallet: notifications are gathered into batches, and batches become updates.
use std::sync::Arc;

use bdk_core::CheckPoint;
use vstd::prelude::*;

use crate::bdk::checkpoint::{
    same_status, ScriptSyncCheckpoint, ScriptSyncCheckpointView, SyncCheckpoint,
    SyncCheckpointView,
};
use crate::bdk::constant::LIVE_SYNC_HISTORY_BATCH_SIZE;
use crate::bdk::response::{FullScanResponse, SyncResponse};
use crate::bdk::subscription::{
    expects_unconfirmed, is_ascending, ScriptSubscriptionView, SubscriptionCtx, SubscriptionInit,
    SubscriptionState, SubscriptionStateView,
};
use crate::chain::{
    block_hash_of, can_insert, checkpoint_blocks, checkpoint_clone, checkpoint_insert, copy_tip,
    insertable, tip_blocks, with_block, BlockId, Header,
};
use crate::electrum::error::{BatchRequestError, Error};
use crate::electrum::notification::ElectrumNotification;
use crate::electrum::status::ElectrumConnectionStatus;
use crate::electrum::types::BlockHeader;
use crate::hash::{ElectrumScriptHash, ElectrumScriptStatus, Hash256, Txid};
use crate::ordered::{Key, OrderedMap, OrderedSet, Value};
use crate::time::Duration;
use crate::tx::{
    empty_update, joined_update, share_tx, tx_views, txid_of, Transaction, TransactionView,
    TxUpdate, TxUpdateView,
};

verus! {

/// Notifications that are handled together.
#[derive(Debug, PartialEq)]
pub struct PendingBatch {
    /// The last status of each script.
    pub script_statuses: OrderedMap<ElectrumScriptHash, Option<ElectrumScriptStatus>>,
    /// The last block header, with its height.
    pub latest_header: Option<(u32, Header)>,
    /// Whether notifications were missed.
    pub lagged: bool,
    /// Whether the connection came back.
    pub reconnected: bool,
    /// Whether no more notifications will come.
    pub terminal_disconnect: bool,
}

/// Notifications that are handled together, as contracts speak of them.
pub struct PendingBatchView {
    /// The last status of each script.
    pub script_statuses: Map<ElectrumScriptHash, Option<ElectrumScriptStatus>>,
    /// The last block header, with its height.
    pub latest_header: Option<(u32, Header)>,
    /// Whether notifications were missed.
    pub lagged: bool,
    /// Whether the connection came back.
    pub reconnected: bool,
    /// Whether no more notifications will come.
    pub terminal_disconnect: bool,
}

impl View for PendingBatch {
    type V = PendingBatchView;

    open spec fn view(&self) -> PendingBatchView {
        PendingBatchView {
            script_statuses: self.script_statuses@,
            latest_header: self.latest_header,
            lagged: self.lagged,
            reconnected: self.reconnected,
            terminal_disconnect: self.terminal_disconnect,
        }
    }
}

/// A batch without notifications.
pub open spec fn empty_batch() -> PendingBatchView {
    PendingBatchView {
        script_statuses: Map::empty(),
        latest_header: None,
        lagged: false,
        reconnected: false,
        terminal_disconnect: false,
    }
}

impl Default for PendingBatch {
    fn default() -> (r: Self)
        ensures
            r@ == empty_batch(),
    {
        PendingBatch {
            script_statuses: OrderedMap::new(),
            latest_header: None,
            lagged: false,
            reconnected: false,
            terminal_disconnect: false,
        }
    }
}

impl PendingBatch {
    /// Whether there is something to be done about the batch.
    pub fn has_work(&self) -> (r: bool)
        ensures
            r == (self@ != empty_batch()),
    {
        self.lagged || self.reconnected || self.terminal_disconnect
            || !self.script_statuses.is_empty() || self.latest_header.is_some()
    }
}

/// What comes out of the channel of notifications.
#[derive(Debug, Clone, Copy, PartialEq, Eq)]
pub enum Received {
    /// A notification.
    Notification(ElectrumNotification),
    /// So many notifications were missed.
    Lagged(u64),
    /// There will be no more.
    Closed,
}

/// A batch, and whether the client is connected, after something more came out of the channel. A
/// status counts only for a subscribed script; the connection counts as back only where it was gone.
pub open spec fn collected(
    batch: PendingBatchView,
    is_connected: bool,
    subscribed: Set<ElectrumScriptHash>,
    received: Received,
) -> (PendingBatchView, bool) {
    match received {
        Received::Notification(ElectrumNotification::ScriptHash { hash, status }) => (
            if subscribed.contains(hash) {
                PendingBatchView {
                    script_statuses: batch.script_statuses.insert(hash, status),
                    ..batch
                }
            } else {
                batch
            },
            is_connected,
        ),
        Received::Notification(ElectrumNotification::BlockHeader { height, header }) => (
            PendingBatchView { latest_header: Some((height, header)), ..batch },
            is_connected,
        ),
        Received::Notification(ElectrumNotification::ConnectionStatusChanged(status)) => (
            PendingBatchView {
                reconnected: batch.reconnected || (status == ElectrumConnectionStatus::Connected
                    && !is_connected),
                ..batch
            },
            status == ElectrumConnectionStatus::Connected,
        ),
        Received::Notification(ElectrumNotification::Shutdown) => (
            PendingBatchView { terminal_disconnect: true, ..batch },
            is_connected,
        ),
        Received::Lagged(n) => (PendingBatchView { lagged: true, ..batch }, is_connected),
        Received::Closed => (PendingBatchView { terminal_disconnect: true, ..batch }, is_connected),
    }
}

/// Takes something that came out of the channel into a batch.
pub fn collect_batch_notification<K: Key>(
    ctx: &SubscriptionCtx<K>,
    received: Received,
    batch: &mut PendingBatch,
    is_connected: &mut bool,
)
    ensures
        (final(batch)@, *final(is_connected)) == collected(
            old(batch)@,
            *old(is_connected),
            ctx.state@.subscribed_scripts,
            received,
        ),
{
    match received {
        Received::Notification(ElectrumNotification::ScriptHash { hash, status }) => {
            if ctx.has_script(&hash) {
                batch.script_statuses.insert(hash, status);
            }
        },
        Received::Notification(ElectrumNotification::BlockHeader { height, header }) => {
            batch.latest_header = Some((height, header));
        },
        Received::Notification(ElectrumNotification::ConnectionStatusChanged(status)) => {
            if status.is_connected() {
                if !*is_connected {
                    batch.reconnected = true;
                }
                *is_connected = true;
            } else {
                *is_connected = false;
            }
        },
        Received::Notification(ElectrumNotification::Shutdown) => {
            batch.terminal_disconnect = true;
        },
        Received::Lagged(_) => {
            batch.lagged = true;
        },
        Received::Closed => {
            batch.terminal_disconnect = true;
        },
    }
}

/// How a batch goes on.
#[derive(Debug, Clone, Copy, PartialEq, Eq)]
pub enum BatchNext {
    /// Wait for a notification.
    Receive,
    /// A window begins: wait for notifications until it ends.
    OpenWindow,
    /// Wait for notifications until the window ends.
    Gather,
    /// The batch is complete.
    Ready,
}

/// How a batch goes on after something was taken into it: it waits until there is something to be
/// done, and then gathers more for a while, but for a disconnect or a reconnect.
pub open spec fn batch_next(batch: PendingBatchView, in_window: bool) -> BatchNext {
    if batch.terminal_disconnect || batch.reconnected {
        BatchNext::Ready
    } else if in_window {
        BatchNext::Gather
    } else if batch != empty_batch() {
        BatchNext::OpenWindow
    } else {
        BatchNext::Receive
    }
}

/// Takes something that came out of the channel into the next batch, and says how it goes on.
pub fn next_pending_batch<K: Key>(
    ctx: &SubscriptionCtx<K>,
    received: Received,
    in_window: bool,
    batch: &mut PendingBatch,
    is_connected: &mut bool,
) -> (r: BatchNext)
    ensures
        (final(batch)@, *final(is_connected)) == collected(
            old(batch)@,
            *old(is_connected),
            ctx.state@.subscribed_scripts,
            received,
        ),
        r == batch_next(final(batch)@, in_window),
{
    collect_batch_notification(ctx, received, batch, is_connected);
    if batch.terminal_disconnect || batch.reconnected {
        BatchNext::Ready
    } else if in_window {
        BatchNext::Gather
    } else if batch.has_work() {
        BatchNext::OpenWindow
    } else {
        BatchNext::Receive
    }
}

/// How the reconciliation after a reconnect goes on.
#[derive(Debug, PartialEq)]
pub enum ReconcileStep {
    /// The tip has to be fetched.
    FetchTip,
    /// These scripts have to be subscribed again.
    Subscribe(Vec<ElectrumScriptHash>),
    /// It is done.
    Done,
    /// It failed.
    Failed(Error),
}

/// Whether an error says that the client is no longer connected.
pub open spec fn is_disconnect(e: Error) -> bool {
    e == Error::Disconnected || e == Error::BatchRequest(BatchRequestError::Canceled)
}

/// The first step of the reconciliation: there is one only where the connection came back.
pub fn reconcile_after_reconnect(batch: &PendingBatch) -> (r: ReconcileStep)
    ensures
        r == if batch@.reconnected {
            ReconcileStep::FetchTip
        } else {
            ReconcileStep::Done
        },
{
    if batch.reconnected {
        ReconcileStep::FetchTip
    } else {
        ReconcileStep::Done
    }
}

/// The reconciliation once the server was asked for its tip: the tip is the latest header, and all
/// scripts are subscribed again. If the connection is gone again, it is left at that.
pub fn reconcile_with_tip<K: Key>(
    ctx: &SubscriptionCtx<K>,
    batch: &mut PendingBatch,
    tip: Result<BlockHeader, Error>,
) -> (r: ReconcileStep)
    ensures
        match tip {
            Ok(tip) => {
                &&& final(batch)@ == (PendingBatchView {
                    latest_header: Some((tip.height, tip.header)),
                    ..old(batch)@
                })
                &&& match r {
                    ReconcileStep::Subscribe(hashes) => {
                        &&& hashes@.len() > 0
                        &&& is_ascending(hashes@)
                        &&& forall|hash: ElectrumScriptHash| #[trigger]
                            hashes@.contains(hash)
                                <==> ctx.state@.subscribed_scripts.contains(hash)
                    },
                    ReconcileStep::Done => ctx.state@.subscribed_scripts == Set::<
                        ElectrumScriptHash,
                    >::empty(),
                    _ => false,
                }
            },
            Err(e) => {
                &&& final(batch)@ == old(batch)@
                &&& r == if is_disconnect(e) {
                    ReconcileStep::Done
                } else {
                    ReconcileStep::Failed(e)
                }
            },
        },
{
    match tip {
        Ok(tip) => {
            batch.latest_header = Some((tip.height, tip.header));
            let tracked_hashes = ctx.tracked_script_hashes();
            if tracked_hashes.len() == 0 {
                proof {
                    assert forall|hash: ElectrumScriptHash|
                        !#[trigger] ctx.state@.subscribed_scripts.contains(hash) by {
                        assert(!tracked_hashes@.contains(hash));
                    }
                    assert(ctx.state@.subscribed_scripts =~= Set::<ElectrumScriptHash>::empty());
                }
                ReconcileStep::Done
            } else {
                ReconcileStep::Subscribe(tracked_hashes)
            }
        },
        Err(e) => {
            if e.is_disconnected_like() {
                ReconcileStep::Done
            } else {
                ReconcileStep::Failed(e)
            }
        },
    }
}

/// The reconciliation once the scripts were subscribed again, or were not.
pub fn reconcile_with_subscription(reply: Result<(), Error>) -> (r: ReconcileStep)
    ensures
        r == match reply {
            Ok(()) => ReconcileStep::Done,
            Err(e) => if is_disconnect(e) {
                ReconcileStep::Done
            } else {
                ReconcileStep::Failed(e)
            },
        },
{
    match reply {
        Ok(()) => ReconcileStep::Done,
        Err(e) => {
            if e.is_disconnected_like() {
                ReconcileStep::Done
            } else {
                ReconcileStep::Failed(e)
            }
        },
    }
}

/// The block with a header at a height.
pub open spec fn header_block(height: u32, header: Header) -> BlockId {
    BlockId { height, hash: block_hash_of(header) }
}

/// Whether a block header can be put into the chain that is known. It can, where no chain is known;
/// it cannot, where it contradicts the first block of the chain or lies below it.
pub open spec fn accepts_header(tip: Option<CheckPoint>, height: u32, header: Header) -> bool {
    match tip {
        Some(tip) => insertable(checkpoint_blocks(tip), header_block(height, header)),
        None => true,
    }
}

/// Whether the latest header of a batch, if there is one, can be put into the chain that is known.
pub open spec fn accepts_latest(tip: Option<CheckPoint>, latest: Option<(u32, Header)>) -> bool {
    match latest {
        Some((height, header)) => accepts_header(tip, height, header),
        None => true,
    }
}

/// Whether a block header can be put into the chain that is known.
pub fn can_accept_header(tip: &Option<CheckPoint>, height: u32, header: &Header) -> (r: bool)
    ensures
        r == accepts_header(*tip, height, *header),
{
    match tip {
        Some(tip) => can_insert(tip, &BlockId { height, hash: header.block_hash() }),
        None => true,
    }
}

/// Handle block header notification and update the chain tip.
pub fn handle_block_header_notification(
    height: u32,
    header: &Header,
    chain_tip: &mut Option<CheckPoint>,
) -> (r: Option<CheckPoint>)
    requires
        accepts_header(*old(chain_tip), height, *header),
    ensures
        tip_blocks(r) == tip_blocks(*final(chain_tip)),
        tip_blocks(r) == match tip_blocks(*old(chain_tip)) {
            Some(blocks) => Some(with_block(blocks, header_block(height, *header))),
            None => None,
        },
{
    match chain_tip.take() {
        Some(tip) => {
            let block = BlockId { height, hash: header.block_hash() };
            let new_tip = checkpoint_insert(tip, block);
            // Store the updated tip
            *chain_tip = Some(checkpoint_clone(&new_tip));
            Some(new_tip)
        },
        None => None,
    }
}

/// Updates the chain tip with the latest header of a batch, and takes the header out of the batch.
pub fn apply_chain_tip_update_from_batch<K: Key>(
    ctx: &mut SubscriptionCtx<K>,
    batch: &mut PendingBatch,
) -> (r: Option<CheckPoint>)
    requires
        accepts_latest(old(ctx).chain_tip, old(batch)@.latest_header),
    ensures
        final(batch)@ == (PendingBatchView { latest_header: None, ..old(batch)@ }),
        final(ctx).wallet_label == old(ctx).wallet_label,
        final(ctx).state == old(ctx).state,
        match (old(batch)@.latest_header, tip_blocks(old(ctx).chain_tip)) {
            (Some((height, header)), Some(blocks)) => {
                &&& tip_blocks(r) == Some(with_block(blocks, header_block(height, header)))
                &&& tip_blocks(final(ctx).chain_tip) == tip_blocks(r)
            },
            _ => {
                &&& r is None
                &&& tip_blocks(final(ctx).chain_tip) == tip_blocks(old(ctx).chain_tip)
            },
        },
{
    match batch.latest_header.take() {
        Some((height, header)) => {
            handle_block_header_notification(height, &header, &mut ctx.chain_tip)
        },
        None => None,
    }
}

/// Updates the chain tip with the latest header of a batch, where that header can be put into the
/// chain that is known. Where it cannot, nothing changes and there is no result.
pub fn try_chain_tip_update_from_batch<K: Key>(
    ctx: &mut SubscriptionCtx<K>,
    batch: &mut PendingBatch,
) -> (r: Option<Option<CheckPoint>>)
    ensures
        r is Some <==> accepts_latest(old(ctx).chain_tip, old(batch)@.latest_header),
        final(ctx).wallet_label == old(ctx).wallet_label,
        final(ctx).state == old(ctx).state,
        match r {
            None => *final(ctx) == *old(ctx) && final(batch)@ == old(batch)@,
            Some(tip) => {
                &&& final(batch)@ == (PendingBatchView { latest_header: None, ..old(batch)@ })
                &&& match (old(batch)@.latest_header, tip_blocks(old(ctx).chain_tip)) {
                    (Some((height, header)), Some(blocks)) => {
                        &&& tip_blocks(tip) == Some(
                            with_block(blocks, header_block(height, header)),
                        )
                        &&& tip_blocks(final(ctx).chain_tip) == tip_blocks(tip)
                    },
                    _ => {
                        &&& tip is None
                        &&& tip_blocks(final(ctx).chain_tip) == tip_blocks(old(ctx).chain_tip)
                    },
                }
            },
        },
{
    if let Some((height, header)) = &batch.latest_header {
        if !can_accept_header(&ctx.chain_tip, *height, header) {
            return None;
        }
    }
    Some(apply_chain_tip_update_from_batch(ctx, batch))
}

/// Whether a status of a script is not the one that is known of it.
pub open spec fn is_changed(
    subscriptions: Map<ElectrumScriptHash, ScriptSubscriptionView>,
    hash: ElectrumScriptHash,
    status: Option<ElectrumScriptStatus>,
) -> bool {
    !subscriptions.contains_key(hash) || subscriptions[hash].last_status != status
}

/// The scripts whose status is not the one that is known of them.
pub open spec fn changed_scripts(
    subscriptions: Map<ElectrumScriptHash, ScriptSubscriptionView>,
    statuses: Map<ElectrumScriptHash, Option<ElectrumScriptStatus>>,
) -> Set<ElectrumScriptHash> {
    Set::new(
        |hash: ElectrumScriptHash|
            statuses.contains_key(hash) && is_changed(subscriptions, hash, statuses[hash]),
    )
}

/// The scripts of which a transaction is expected that is not confirmed.
pub open spec fn unconfirmed_scripts(
    subscriptions: Map<ElectrumScriptHash, ScriptSubscriptionView>,
) -> Set<ElectrumScriptHash> {
    Set::new(
        |hash: ElectrumScriptHash|
            subscriptions.contains_key(hash) && expects_unconfirmed(
                subscriptions[hash].expected_tx_heights,
            ),
    )
}

/// The scripts that a batch makes it necessary to look at: all of them where notifications were
/// missed, and otherwise those whose status changed; and where the chain has a new tip, also those
/// with unconfirmed transactions.
pub open spec fn scripts_to_process<KV>(
    state: SubscriptionStateView<KV>,
    batch: PendingBatchView,
    include_pending: bool,
) -> Set<ElectrumScriptHash> {
    let scripts = if batch.lagged {
        state.subscribed_scripts
    } else {
        changed_scripts(state.script_subscriptions, batch.script_statuses)
    };
    if include_pending {
        scripts.union(unconfirmed_scripts(state.script_subscriptions))
    } else {
        scripts
    }
}

/// Adds the scripts of a list that were not added before.
fn add_new_scripts(
    list: &mut Vec<ElectrumScriptHash>,
    added: &mut OrderedSet<ElectrumScriptHash>,
    scripts: &Vec<ElectrumScriptHash>,
)
    requires
        old(list)@.no_duplicates(),
        forall|hash: ElectrumScriptHash| #[trigger]
            old(list)@.contains(hash) <==> old(added)@.contains(hash),
    ensures
        final(list)@.no_duplicates(),
        forall|hash: ElectrumScriptHash| #[trigger]
            final(list)@.contains(hash) <==> final(added)@.contains(hash),
        forall|hash: ElectrumScriptHash| #[trigger]
            final(list)@.contains(hash) <==> old(list)@.contains(hash) || scripts@.contains(hash),
{
    let mut i: usize = 0;
    while i < scripts.len()
        invariant
            i <= scripts.len(),
            list@.no_duplicates(),
            forall|hash: ElectrumScriptHash| #[trigger]
                list@.contains(hash) <==> added@.contains(hash),
            forall|hash: ElectrumScriptHash| #[trigger]
                list@.contains(hash) <==> old(list)@.contains(hash) || scripts@.take(
                    i as int,
                ).contains(hash),
        decreases scripts.len() - i,
    {
        let hash = scripts[i];
        let ghost before = list@;
        let is_new = added.insert(hash);
        if is_new {
            list.push(hash);
        }
        proof {
            let a = scripts@.take(i as int);
            let b = scripts@.take(i + 1);
            assert forall|h: ElectrumScriptHash| #[trigger]
                b.contains(h) == (a.contains(h) || h == hash) by {
                if b.contains(h) {
                    let j = choose|j: int| 0 <= j < b.len() && b[j] == h;
                    if j < i {
                        assert(a[j] == h);
                    }
                }
                if a.contains(h) {
                    let j = choose|j: int| 0 <= j < a.len() && a[j] == h;
                    assert(b[j] == h);
                }
                assert(b[i as int] == hash);
            }
            assert forall|h: ElectrumScriptHash| #[trigger]
                list@.contains(h) == (before.contains(h) || h == hash) by {
                if list@.contains(h) {
                    let j = choose|j: int| 0 <= j < list@.len() && list@[j] == h;
                    if j < before.len() {
                        assert(before[j] == h);
                    }
                }
                if before.contains(h) {
                    let j = choose|j: int| 0 <= j < before.len() && before[j] == h;
                    assert(list@[j] == h);
                }
                if is_new && h == hash {
                    assert(list@[before.len() as int] == hash);
                }
            }
            assert(list@.no_duplicates()) by {
                if is_new {
                    assert forall|x: int, y: int|
                        0 <= x < list@.len() && 0 <= y < list@.len() && x != y implies list@[x]
                        != list@[y] by {
                        assert(!before.contains(hash));
                        if x == before.len() {
                            assert(list@[y] == before[y]);
                            assert(before.contains(before[y]));
                        } else if y == before.len() {
                            assert(list@[x] == before[x]);
                            assert(before.contains(before[x]));
                        } else {
                            assert(list@[x] == before[x] && list@[y] == before[y]);
                        }
                    }
                }
            }
        }
        i = i + 1;
    }
    proof {
        assert(scripts@.take(scripts@.len() as int) =~= scripts@);
    }
}

impl<K: Key> SubscriptionCtx<K> {
    /// The scripts whose status is not the one that is known of them.
    pub fn script_hashes_with_status_changes(
        &self,
        statuses: &OrderedMap<ElectrumScriptHash, Option<ElectrumScriptStatus>>,
    ) -> (r: Vec<ElectrumScriptHash>)
        ensures
            forall|hash: ElectrumScriptHash| #[trigger]
                r@.contains(hash) <==> changed_scripts(
                    self.state@.script_subscriptions,
                    statuses@,
                ).contains(hash),
    {
        let ghost subscriptions = self.state@.script_subscriptions;
        let n = statuses.len();
        let ghost pairs = statuses.pairs();
        let mut r: Vec<ElectrumScriptHash> = Vec::new();
        let mut i: usize = 0;
        while i < n
            invariant
                i <= n,
                n == statuses.pairs().len(),
                pairs == statuses.pairs(),
                subscriptions == self.state@.script_subscriptions,
                forall|hash: ElectrumScriptHash| #[trigger]
                    r@.contains(hash) <==> exists|j: int|
                        0 <= j < i && (#[trigger] pairs[j]).0 == hash && is_changed(
                            subscriptions,
                            hash,
                            pairs[j].1,
                        ),
            decreases n - i,
        {
            let hash = *statuses.key_at(i);
            let status = statuses.value_at(i);
            let ghost before = r@;
            let changed = match self.state.script_subscriptions.get(&hash) {
                Some(subscription) => !same_status(&subscription.last_status, status),
                None => true,
            };
            if changed {
                r.push(hash);
            }
            proof {
                assert(pairs[i as int] == (hash, *status));
                assert(changed == is_changed(subscriptions, hash, *status));
                assert forall|h: ElectrumScriptHash| #[trigger]
                    r@.contains(h) <==> exists|j: int|
                        0 <= j < i + 1 && (#[trigger] pairs[j]).0 == h && is_changed(
                            subscriptions,
                            h,
                            pairs[j].1,
                        ) by {
                    if r@.contains(h) {
                        let x = choose|x: int| 0 <= x < r@.len() && r@[x] == h;
                        if x < before.len() {
                            assert(before[x] == h);
                            assert(before.contains(h));
                            let j = choose|j: int|
                                0 <= j < i && (#[trigger] pairs[j]).0 == h && is_changed(
                                    subscriptions,
                                    h,
                                    pairs[j].1,
                                );
                            assert(pairs[j].0 == h);
                        }
                    }
                    if exists|j: int|
                        0 <= j < i + 1 && (#[trigger] pairs[j]).0 == h && is_changed(
                            subscriptions,
                            h,
                            pairs[j].1,
                        ) {
                        let j = choose|j: int|
                            0 <= j < i + 1 && (#[trigger] pairs[j]).0 == h && is_changed(
                                subscriptions,
                                h,
                                pairs[j].1,
                            );
                        if j < i {
                            assert(before.contains(h));
                            let x = choose|x: int| 0 <= x < before.len() && before[x] == h;
                            assert(r@[x] == h);
                        } else {
                            assert(r@[before.len() as int] == h);
                        }
                    }
                }
            }
            i = i + 1;
        }
        proof {
            assert forall|hash: ElectrumScriptHash| #[trigger]
                r@.contains(hash) <==> changed_scripts(subscriptions, statuses@).contains(hash) by {
                if r@.contains(hash) {
                    let j = choose|j: int|
                        0 <= j < n && (#[trigger] pairs[j]).0 == hash && is_changed(
                            subscriptions,
                            hash,
                            pairs[j].1,
                        );
                    assert(statuses@[statuses.pairs()[j].0] == statuses.pairs()[j].1);
                }
                if changed_scripts(subscriptions, statuses@).contains(hash) {
                    assert(statuses@.contains_key(hash));
                    let j = choose|j: int|
                        0 <= j < statuses.pairs().len() && (#[trigger] statuses.pairs()[j]).0
                            == hash;
                    assert(pairs[j].0 == hash);
                }
            }
        }
        r
    }
}

/// The scripts that a batch makes it necessary to look at, each once. The batch counts as caught up
/// with then.
pub fn scripts_to_process_for_batch<K: Key>(
    ctx: &SubscriptionCtx<K>,
    batch: &mut PendingBatch,
    include_pending_for_chain_tip: bool,
) -> (r: Vec<ElectrumScriptHash>)
    ensures
        final(batch)@ == (PendingBatchView { lagged: false, ..old(batch)@ }),
        forall|hash: ElectrumScriptHash| #[trigger]
            r@.contains(hash) <==> scripts_to_process(
                ctx.state@,
                old(batch)@,
                include_pending_for_chain_tip,
            ).contains(hash),
        r@.no_duplicates(),
{
    let scripts = if batch.lagged {
        ctx.tracked_script_hashes()
    } else {
        ctx.script_hashes_with_status_changes(&batch.script_statuses)
    };
    batch.lagged = false;
    let mut r: Vec<ElectrumScriptHash> = Vec::new();
    let mut added: OrderedSet<ElectrumScriptHash> = OrderedSet::new();
    add_new_scripts(&mut r, &mut added, &scripts);
    if include_pending_for_chain_tip {
        let pending = ctx.script_hashes_with_unconfirmed_txs();
        add_new_scripts(&mut r, &mut added, &pending);
    }
    r
}

/// What came of the histories of some scripts.
#[derive(Debug, PartialEq)]
pub struct ProcessedScripts {
    /// What was found out about transactions.
    pub tx_update: TxUpdate,
    /// The scripts with transactions that were not known.
    pub hashes_with_new_txs: Vec<ElectrumScriptHash>,
}

/// Whether a list holds a transaction with an id.
pub open spec fn lists_txid(txs: Seq<TransactionView>, txid: Txid) -> bool {
    exists|i: int| 0 <= i < txs.len() && txid_of(#[trigger] txs[i]) == txid
}

/// The first transaction of each id.
pub open spec fn deduped(txs: Seq<TransactionView>) -> Seq<TransactionView>
    decreases txs.len(),
{
    if txs.len() == 0 {
        Seq::empty()
    } else {
        let before = deduped(txs.drop_last());
        if lists_txid(before, txid_of(txs.last())) {
            before
        } else {
            before.push(txs.last())
        }
    }
}

/// Without duplicates there are no two transactions with one id, and none of the ids is lost.
pub proof fn deduped_is_exact(txs: Seq<TransactionView>)
    ensures
        forall|i: int, j: int|
            0 <= i < j < deduped(txs).len() ==> txid_of(#[trigger] deduped(txs)[i]) != txid_of(
                #[trigger] deduped(txs)[j],
            ),
        forall|txid: Txid| #[trigger] lists_txid(deduped(txs), txid) <==> lists_txid(txs, txid),
    decreases txs.len(),
{
    if txs.len() > 0 {
        let init = txs.drop_last();
        let before = deduped(init);
        let after = deduped(txs);
        let last = txs.last();
        deduped_is_exact(init);
        assert forall|txid: Txid| #[trigger]
            lists_txid(after, txid) <==> lists_txid(txs, txid) by {
            listed_with_last(txs, txid);
            if !lists_txid(before, txid_of(last)) {
                assert(after.drop_last() =~= before);
                listed_with_last(after, txid);
            }
            assert(lists_txid(before, txid) <==> lists_txid(init, txid));
        }
        assert forall|i: int, j: int| 0 <= i < j < after.len() implies txid_of(#[trigger] after[i])
            != txid_of(#[trigger] after[j]) by {
            if j < before.len() {
                assert(after[i] == before[i] && after[j] == before[j]);
            } else {
                assert(after[i] == before[i]);
                if txid_of(before[i]) == txid_of(last) {
                    assert(lists_txid(before, txid_of(last)));
                }
            }
        }
    }
}

/// What a list holds is what it holds without its last one, and the last one.
proof fn listed_with_last(txs: Seq<TransactionView>, txid: Txid)
    requires
        txs.len() > 0,
    ensures
        lists_txid(txs, txid) == (lists_txid(txs.drop_last(), txid) || txid_of(txs.last())
            == txid),
{
    let init = txs.drop_last();
    if lists_txid(txs, txid) {
        let i = choose|i: int| 0 <= i < txs.len() && txid_of(#[trigger] txs[i]) == txid;
        if i < init.len() {
            assert(txid_of(init[i]) == txid);
        }
    }
    if lists_txid(init, txid) {
        let i = choose|i: int| 0 <= i < init.len() && txid_of(#[trigger] init[i]) == txid;
        assert(txid_of(txs[i]) == txid);
    }
    assert(txs[txs.len() - 1] == txs.last());
}

/// Keeps the first transaction of each id.
pub fn dedup_tx_update_txs(tx_update: &mut TxUpdate)
    ensures
        final(tx_update)@ == (TxUpdateView {
            txs: deduped(old(tx_update)@.txs),
            ..old(tx_update)@
        }),
{
    let ghost views = tx_update@.txs;
    let mut seen: OrderedSet<Txid> = OrderedSet::new();
    let mut txs: Vec<Arc<Transaction>> = Vec::new();
    let mut i: usize = 0;
    proof {
        assert(tx_views(txs@) =~= deduped(views.take(0)));
    }
    while i < tx_update.txs.len()
        invariant
            i <= tx_update.txs.len(),
            tx_update@ == old(tx_update)@,
            views == tx_update@.txs,
            tx_views(txs@) == deduped(views.take(i as int)),
            forall|txid: Txid| #[trigger]
                seen@.contains(txid) <==> lists_txid(deduped(views.take(i as int)), txid),
        decreases tx_update.txs.len() - i,
    {
        let tx = &tx_update.txs[i];
        let txid = tx.compute_txid();
        let ghost before = deduped(views.take(i as int));
        let ghost held = txs@;
        proof {
            assert(views.take(i + 1).drop_last() =~= views.take(i as int));
            assert(views.take(i + 1).last() == tx@);
        }
        if seen.insert(txid) {
            txs.push(share_tx(tx));
            proof {
                assert(tx_views(txs@) =~= tx_views(held).push(tx@));
                let after = deduped(views.take(i + 1));
                assert(after.drop_last() =~= before);
                assert forall|t: Txid| #[trigger]
                    lists_txid(after, t) == (lists_txid(before, t) || t == txid) by {
                    listed_with_last(after, t);
                }
            }
        }
        i = i + 1;
    }
    proof {
        assert(views.take(views.len() as int) =~= views);
    }
    tx_update.txs = txs;
}

/// How many scripts are looked at at a time.
pub open spec fn chunk_len(left: Seq<ElectrumScriptHash>) -> int {
    if left.len() < LIVE_SYNC_HISTORY_BATCH_SIZE {
        left.len() as int
    } else {
        LIVE_SYNC_HISTORY_BATCH_SIZE as int
    }
}

/// The scripts of a batch, looked at some at a time.
#[derive(Debug, PartialEq)]
pub struct ScriptUpdates {
    scripts: Vec<ElectrumScriptHash>,
    next: usize,
    tx_update: TxUpdate,
}

impl ScriptUpdates {
    /// The scripts that are left.
    pub closed spec fn left(&self) -> Seq<ElectrumScriptHash> {
        self.scripts@.skip(self.next as int)
    }

    /// What was found out.
    pub closed spec fn update(&self) -> TxUpdateView {
        self.tx_update@
    }

    #[verifier::type_invariant]
    spec fn in_bounds(self) -> bool {
        self.next <= self.scripts.len()
    }

    /// Begins to look at some scripts.
    pub fn new(scripts: Vec<ElectrumScriptHash>) -> (r: Self)
        ensures
            r.left() == scripts@,
            r.update() == empty_update(),
    {
        let r = ScriptUpdates { scripts, next: 0, tx_update: TxUpdate::new() };
        proof {
            assert(r.left() =~= scripts@);
        }
        r
    }

    /// The scripts whose histories are fetched next; none once all were looked at.
    pub fn chunk(&self) -> (r: Vec<ElectrumScriptHash>)
        ensures
            r@ == self.left().take(chunk_len(self.left())),
    {
        proof {
            use_type_invariant(self);
        }
        let mut r: Vec<ElectrumScriptHash> = Vec::new();
        let mut i: usize = self.next;
        while i < self.scripts.len() && r.len() < LIVE_SYNC_HISTORY_BATCH_SIZE
            invariant
                self.next <= i <= self.scripts.len(),
                r.len() == i - self.next,
                r.len() <= LIVE_SYNC_HISTORY_BATCH_SIZE,
                r@ == self.left().take(i - self.next),
            decreases self.scripts.len() - i,
        {
            r.push(self.scripts[i]);
            proof {
                assert(self.left().take(i + 1 - self.next) =~= self.left().take(
                    i - self.next,
                ).push(self.scripts@[i as int]));
            }
            i = i + 1;
        }
        r
    }

    /// Takes in what came of the scripts that were next, and gives back those around which more
    /// scripts may have to be subscribed. If the connection is gone the others are left out; any
    /// other error ends it.
    pub fn absorb(
        &mut self,
        processed: Result<ProcessedScripts, Error>,
    ) -> (r: Result<Vec<ElectrumScriptHash>, Error>)
        ensures
            match processed {
                Ok(processed) => {
                    &&& final(self).left() == old(self).left().skip(chunk_len(old(self).left()))
                    &&& final(self).update() == joined_update(
                        old(self).update(),
                        processed.tx_update@,
                    )
                    &&& r == Ok::<Vec<ElectrumScriptHash>, Error>(processed.hashes_with_new_txs)
                },
                Err(e) => if is_disconnect(e) {
                    &&& final(self).left() == Seq::<ElectrumScriptHash>::empty()
                    &&& final(self).update() == old(self).update()
                    &&& r is Ok && r->Ok_0@ == Seq::<ElectrumScriptHash>::empty()
                } else {
                    &&& final(self).left() == old(self).left()
                    &&& final(self).update() == old(self).update()
                    &&& r == Err::<Vec<ElectrumScriptHash>, Error>(e)
                },
            },
    {
        proof {
            use_type_invariant(&*self);
        }
        match processed {
            Ok(processed) => {
                let mut tx_update = TxUpdate::new();
                std::mem::swap(&mut tx_update, &mut self.tx_update);
                tx_update.extend(processed.tx_update);
                self.tx_update = tx_update;
                if self.scripts.len() - self.next < LIVE_SYNC_HISTORY_BATCH_SIZE {
                    self.next = self.scripts.len();
                } else {
                    self.next = self.next + LIVE_SYNC_HISTORY_BATCH_SIZE;
                }
                proof {
                    let before = old(self).left();
                    assert(self.left() =~= before.skip(chunk_len(before)));
                }
                Ok(processed.hashes_with_new_txs)
            },
            Err(e) => {
                if e.is_disconnected_like() {
                    self.next = self.scripts.len();
                    proof {
                        assert(self.left() =~= Seq::<ElectrumScriptHash>::empty());
                    }
                    Ok(Vec::new())
                } else {
                    Err(e)
                }
            },
        }
    }

    /// What was found out, each transaction once.
    pub fn finish(self) -> (r: TxUpdate)
        ensures
            r@ == (TxUpdateView { txs: deduped(self.update().txs), ..self.update() }),
    {
        let mut tx_update = self.tx_update;
        dedup_tx_update_txs(&mut tx_update);
        tx_update
    }
}

/// The checkpoints of the scripts whose place in a keychain is known.
pub open spec fn script_checkpoints<KV>(
    state: SubscriptionStateView<KV>,
) -> Map<ElectrumScriptHash, ScriptSyncCheckpointView<KV>> {
    Map::new(
        |hash: ElectrumScriptHash|
            state.script_subscriptions.contains_key(hash)
                && state.script_to_keychain_index.contains_key(hash),
        |hash: ElectrumScriptHash|
            ScriptSyncCheckpointView {
                keychain: state.script_to_keychain_index[hash].0,
                index: state.script_to_keychain_index[hash].1,
                last_status: state.script_subscriptions[hash].last_status,
                expected_tx_heights: state.script_subscriptions[hash].expected_tx_heights,
            },
    )
}

/// What is known, in a form to resume from.
pub open spec fn snapshot_of<KV>(
    state: SubscriptionStateView<KV>,
    chain_tip: Option<Map<u32, Hash256>>,
) -> SyncCheckpointView<KV> {
    SyncCheckpointView {
        chain_tip,
        last_active_indices: state.last_active_indices,
        max_subscribed_indices: state.max_subscribed_indices,
        scripts: script_checkpoints(state),
    }
}

/// A snapshot of what is known.
pub fn current_checkpoint_snapshot<K: Key>(ctx: &SubscriptionCtx<K>) -> (r: SyncCheckpoint<K>)
    ensures
        r@ == snapshot_of(ctx.state@, tip_blocks(ctx.chain_tip)),
{
    let ghost state = ctx.state@;
    let subscriptions = &ctx.state.script_subscriptions;
    let n = subscriptions.len();
    let ghost pairs = subscriptions.pairs();
    let mut scripts: OrderedMap<ElectrumScriptHash, ScriptSyncCheckpoint<K>> = OrderedMap::new();
    let mut i: usize = 0;
    while i < n
        invariant
            i <= n,
            n == subscriptions.pairs().len(),
            pairs == subscriptions.pairs(),
            *subscriptions == ctx.state.script_subscriptions,
            state == ctx.state@,
            forall|j: int|
                0 <= j < pairs.len() ==> subscriptions@.contains_key((#[trigger] pairs[j]).0)
                    && subscriptions@[pairs[j].0] == pairs[j].1,
            forall|hash: ElectrumScriptHash| #[trigger]
                scripts@.contains_key(hash) <==> state.script_to_keychain_index.contains_key(hash)
                    && exists|j: int| 0 <= j < i && (#[trigger] pairs[j]).0 == hash,
            forall|hash: ElectrumScriptHash| #[trigger]
                scripts@.contains_key(hash) ==> scripts@[hash] == script_checkpoints(state)[hash],
        decreases n - i,
    {
        let hash = *subscriptions.key_at(i);
        let subscription = subscriptions.value_at(i);
        let ghost before = scripts@;
        proof {
            assert(pairs[i as int].0 == hash);
        }
        if let Some(place) = ctx.state.script_to_keychain_index.get(&hash) {
            scripts.insert(
                hash,
                ScriptSyncCheckpoint {
                    keychain: place.0.replica(),
                    index: place.1,
                    last_status: subscription.last_status,
                    expected_tx_heights: subscription.expected_tx_heights.replica(),
                },
            );
        }
        proof {
            assert forall|h: ElectrumScriptHash| #[trigger]
                scripts@.contains_key(h) <==> state.script_to_keychain_index.contains_key(h)
                    && exists|j: int| 0 <= j < i + 1 && (#[trigger] pairs[j]).0 == h by {
                if before.contains_key(h) {
                    let j = choose|j: int| 0 <= j < i && (#[trigger] pairs[j]).0 == h;
                    assert(pairs[j].0 == h);
                }
                if exists|j: int| 0 <= j < i + 1 && (#[trigger] pairs[j]).0 == h {
                    let j = choose|j: int| 0 <= j < i + 1 && (#[trigger] pairs[j]).0 == h;
                    if j < i {
                        assert(pairs[j].0 == h);
                    }
                }
            }
        }
        i = i + 1;
    }
    proof {
        assert forall|hash: ElectrumScriptHash|
            scripts@.contains_key(hash) == script_checkpoints(state).contains_key(hash) by {
            if scripts@.contains_key(hash) {
                let j = choose|j: int| 0 <= j < n && (#[trigger] pairs[j]).0 == hash;
                assert(subscriptions@.contains_key(pairs[j].0));
            }
            if state.script_subscriptions.contains_key(hash) {
                assert(subscriptions@.contains_key(hash));
                let j = choose|j: int|
                    0 <= j < subscriptions.pairs().len() && (#[trigger] subscriptions.pairs()[j]).0
                        == hash;
                assert(pairs[j].0 == hash);
            }
        }
        assert(scripts@ =~= script_checkpoints(state));
    }
    SyncCheckpoint {
        chain_tip: copy_tip(&ctx.chain_tip),
        last_active_indices: ctx.state.last_active_indices.replica(),
        max_subscribed_indices: ctx.state.max_subscribed_indices.replica(),
        scripts,
    }
}

/// What following a wallet yields.
#[derive(Debug, PartialEq)]
pub enum SubscribeEvent<K: Key> {
    /// What the scan at the beginning found out.
    Initial(FullScanResponse<K>),
    /// What changed.
    Update(SyncResponse),
    /// What has to be kept to resume from here.
    Checkpoint(SyncCheckpoint<K>),
    /// There will be no more.
    Disconnected,
}

/// The update of a batch, with a snapshot to resume from; there is none where nothing changed.
pub fn build_sync_update_from_batch<K: Key>(
    ctx: &SubscriptionCtx<K>,
    tx_update: TxUpdate,
    chain_update: Option<CheckPoint>,
) -> (r: Option<(SyncResponse, SyncCheckpoint<K>)>)
    ensures
        match r {
            Some((response, checkpoint)) => {
                &&& !(tx_update@ == empty_update() && chain_update is None)
                &&& response == (SyncResponse { tx_update, chain_update })
                &&& checkpoint@ == snapshot_of(ctx.state@, tip_blocks(ctx.chain_tip))
            },
            None => tx_update@ == empty_update() && chain_update is None,
        },
{
    if tx_update.is_empty() && chain_update.is_none() {
        return None;
    }
    let checkpoint = current_checkpoint_snapshot(ctx);
    Some((SyncResponse { tx_update, chain_update }, checkpoint))
}

/// How far following a wallet is.
#[derive(Debug, PartialEq)]
pub struct LiveStreamState<K: Key> {
    /// Whether the client is connected.
    pub is_connected: bool,
    /// What the scan found with which following the wallet begins, until it is yielded.
    pub initial: Option<FullScanResponse<K>>,
    /// A snapshot that is yielded next.
    pub pending_checkpoint: Option<SyncCheckpoint<K>>,
    /// Whether the end is yielded after that.
    pub pending_terminal_disconnect: bool,
    /// Whether nothing more is yielded.
    pub done: bool,
}

/// How following a wallet goes on.
#[derive(Debug, PartialEq)]
pub enum StreamNext<K: Key> {
    /// This is yielded.
    Emit(SubscribeEvent<K>),
    /// This error is yielded.
    Fail(Error),
    /// The next batch of notifications is waited for.
    Collect,
    /// Nothing more is yielded.
    End,
}

/// What is yielded without a new batch: before all else what the scan found with which following the
/// wallet begins, a snapshot after the update that it belongs to, and the end after all else.
pub open spec fn polled<K: Key>(state: LiveStreamState<K>) -> (LiveStreamState<K>, StreamNext<K>) {
    if state.done {
        (state, StreamNext::End)
    } else {
        match (state.initial, state.pending_checkpoint) {
            (Some(response), _) => (
                LiveStreamState { initial: None, ..state },
                StreamNext::Emit(SubscribeEvent::Initial(response)),
            ),
            (None, Some(checkpoint)) => (
                LiveStreamState { pending_checkpoint: None, ..state },
                StreamNext::Emit(SubscribeEvent::Checkpoint(checkpoint)),
            ),
            (None, None) => if state.pending_terminal_disconnect {
                (
                    LiveStreamState { pending_terminal_disconnect: false, done: true, ..state },
                    StreamNext::Emit(SubscribeEvent::Disconnected),
                )
            } else {
                (state, StreamNext::Collect)
            },
        }
    }
}

/// What is yielded of a batch: its update, the error that came up, or the end; of a batch that
/// changed nothing, nothing.
pub open spec fn batch_yields<K: Key>(
    state: LiveStreamState<K>,
    update: Result<Option<(SyncResponse, SyncCheckpoint<K>)>, Error>,
    terminal_disconnect: bool,
) -> (LiveStreamState<K>, StreamNext<K>) {
    match update {
        Ok(Some((update, checkpoint))) => (
            LiveStreamState {
                pending_checkpoint: Some(checkpoint),
                pending_terminal_disconnect: terminal_disconnect,
                ..state
            },
            StreamNext::Emit(SubscribeEvent::Update(update)),
        ),
        Ok(None) => if terminal_disconnect {
            (
                LiveStreamState { done: true, ..state },
                StreamNext::Emit(SubscribeEvent::Disconnected),
            )
        } else {
            (state, StreamNext::Collect)
        },
        Err(e) => (LiveStreamState { done: true, ..state }, StreamNext::Fail(e)),
    }
}

impl<K: Key> LiveStreamState<K> {
    /// Nothing was yielded yet. What the scan found with which following the wallet begins comes first.
    pub fn new(is_connected: bool, initial: FullScanResponse<K>) -> (r: Self)
        ensures
            r == (LiveStreamState::<K> {
                is_connected,
                initial: Some(initial),
                pending_checkpoint: None,
                pending_terminal_disconnect: false,
                done: false,
            }),
    {
        LiveStreamState {
            is_connected,
            initial: Some(initial),
            pending_checkpoint: None,
            pending_terminal_disconnect: false,
            done: false,
        }
    }

    /// What is yielded without a new batch.
    pub fn poll(&mut self) -> (r: StreamNext<K>)
        ensures
            (*final(self), r) == polled(*old(self)),
    {
        if self.done {
            return StreamNext::End;
        }
        if let Some(response) = self.initial.take() {
            return StreamNext::Emit(SubscribeEvent::Initial(response));
        }
        if let Some(checkpoint) = self.pending_checkpoint.take() {
            return StreamNext::Emit(SubscribeEvent::Checkpoint(checkpoint));
        }
        if self.pending_terminal_disconnect {
            self.pending_terminal_disconnect = false;
            self.done = true;
            return StreamNext::Emit(SubscribeEvent::Disconnected);
        }
        StreamNext::Collect
    }

    /// What is yielded of a batch.
    pub fn take_batch(
        &mut self,
        update: Result<Option<(SyncResponse, SyncCheckpoint<K>)>, Error>,
        terminal_disconnect: bool,
    ) -> (r: StreamNext<K>)
        ensures
            (*final(self), r) == batch_yields(*old(self), update, terminal_disconnect),
    {
        match update {
            Ok(Some((update, checkpoint))) => {
                self.pending_checkpoint = Some(checkpoint);
                self.pending_terminal_disconnect = terminal_disconnect;
                StreamNext::Emit(SubscribeEvent::Update(update))
            },
            Ok(None) => {
                if terminal_disconnect {
                    self.done = true;
                    StreamNext::Emit(SubscribeEvent::Disconnected)
                } else {
                    StreamNext::Collect
                }
            },
            Err(e) => {
                self.done = true;
                StreamNext::Fail(e)
            },
        }
    }
}

/// Following a wallet begins with what the scan found, which is yielded once: nothing else comes before
/// it, and it does not come again.
pub proof fn the_initial_scan_comes_first<K: Key>(
    state: LiveStreamState<K>,
    response: FullScanResponse<K>,
    update: Result<Option<(SyncResponse, SyncCheckpoint<K>)>, Error>,
    terminal_disconnect: bool,
)
    ensures
        state.initial == Some(response) && !state.done ==> polled(state) == (
            LiveStreamState { initial: None, ..state },
            StreamNext::<K>::Emit(SubscribeEvent::Initial(response)),
        ),
        state.initial is None ==> polled(state).0.initial is None && batch_yields(
            state,
            update,
            terminal_disconnect,
        ).0.initial is None && !(polled(state).1 matches StreamNext::Emit(
            SubscribeEvent::Initial(_),
        )),
        !(batch_yields(state, update, terminal_disconnect).1 matches StreamNext::Emit(
            SubscribeEvent::Initial(_),
        )),
{
}

/// Each update is followed by the snapshot that belongs to it, and where the batch was the last one
/// that by the end, after which nothing is yielded.
pub proof fn update_is_followed_by_checkpoint<K: Key>(
    state: LiveStreamState<K>,
    update: SyncResponse,
    checkpoint: SyncCheckpoint<K>,
    terminal_disconnect: bool,
)
    requires
        !state.done,
        state.initial is None,
        state.pending_checkpoint is None,
    ensures
        ({
            let first = batch_yields(
                state,
                Ok::<Option<(SyncResponse, SyncCheckpoint<K>)>, Error>(Some((update, checkpoint))),
                terminal_disconnect,
            );
            let second = polled(first.0);
            let third = polled(second.0);
            &&& first.1 == StreamNext::<K>::Emit(SubscribeEvent::Update(update))
            &&& second.1 == StreamNext::<K>::Emit(SubscribeEvent::Checkpoint(checkpoint))
            &&& third.1 == if terminal_disconnect {
                StreamNext::<K>::Emit(SubscribeEvent::Disconnected)
            } else {
                StreamNext::<K>::Collect
            }
            &&& terminal_disconnect ==> polled(third.0).1 == StreamNext::<K>::End
        }),
{
}

/// Once nothing more is yielded it stays so; an error and the end are the last that is yielded.
pub proof fn the_end_is_final<K: Key>(
    state: LiveStreamState<K>,
    update: Result<Option<(SyncResponse, SyncCheckpoint<K>)>, Error>,
    terminal_disconnect: bool,
)
    requires
        !state.done,
        state.pending_checkpoint is None,
    ensures
        ({
            let (after, next) = batch_yields(state, update, terminal_disconnect);
            let ended = match next {
                StreamNext::Fail(e) => true,
                StreamNext::Emit(SubscribeEvent::Disconnected) => true,
                _ => false,
            };
            ended ==> polled(after) == (after, StreamNext::<K>::End)
        }),
{
}

/// The engine that follows a wallet: its scripts and its settings.
#[derive(Debug)]
pub struct LiveSyncEngine<C, K: Key> {
    /// The client.
    pub client: C,
    /// The scripts of the wallet.
    pub ctx: SubscriptionCtx<K>,
    /// The time at which unconfirmed transactions are seen.
    pub start_time: u64,
    /// Whether what transactions spend is fetched.
    pub fetch_prev_txouts: bool,
    /// How many scripts beyond the last active one are subscribed.
    pub stop_gap: u32,
    /// How long notifications are gathered.
    pub batch_window: Duration,
}

impl<C, K: Key> LiveSyncEngine<C, K> {
    /// An engine for the scripts that a scan left behind, and the chain that it found.
    pub fn new(
        client: C,
        wallet_label: String,
        start_time: u64,
        subscription_init: SubscriptionInit<K>,
        fetch_prev_txouts: bool,
        response: &FullScanResponse<K>,
        stop_gap: u32,
        batch_window: Duration,
    ) -> (r: Self)
        ensures
            r.client == client,
            r.ctx.wallet_label == wallet_label,
            r.ctx.state@ == (SubscriptionStateView {
                subscribed_scripts: subscription_init.subscribed_scripts@,
                script_subscriptions: subscription_init.script_subscriptions@,
                script_to_keychain_index: subscription_init.script_to_keychain_index@,
                last_active_indices: response.last_active_indices@,
                max_subscribed_indices: subscription_init.max_subscribed_indices@,
            }),
            tip_blocks(r.ctx.chain_tip) == tip_blocks(response.chain_update),
            r.start_time == start_time,
            r.fetch_prev_txouts == fetch_prev_txouts,
            r.stop_gap == stop_gap,
            r.batch_window == batch_window,
    {
        let ctx = SubscriptionCtx {
            wallet_label,
            state: SubscriptionState {
                subscribed_scripts: subscription_init.subscribed_scripts,
                script_subscriptions: subscription_init.script_subscriptions,
                script_to_keychain_index: subscription_init.script_to_keychain_index,
                last_active_indices: response.last_active_indices.replica(),
                max_subscribed_indices: subscription_init.max_subscribed_indices,
            },
            chain_tip: copy_tip(&response.chain_update),
        };
        LiveSyncEngine {
            client,
            ctx,
            start_time,
            fetch_prev_txouts,
            stop_gap,
            batch_window,
        }
    }
}

/// A block header that is notified is the latest header of the batch, which then has something to be
/// done; nothing else changes.
pub proof fn a_new_block_is_gathered(
    batch: PendingBatchView,
    is_connected: bool,
    subscribed: Set<ElectrumScriptHash>,
    height: u32,
    header: Header,
)
    ensures
        ({
            let received = Received::Notification(
                ElectrumNotification::BlockHeader { height, header },
            );
            let (after, connected) = collected(batch, is_connected, subscribed, received);
            &&& after.latest_header == Some((height, header))
            &&& after.script_statuses == batch.script_statuses
            &&& after.lagged == batch.lagged
            &&& after.reconnected == batch.reconnected
            &&& after.terminal_disconnect == batch.terminal_disconnect
            &&& connected == is_connected
            &&& after != empty_batch()
            &&& batch_next(after, false) != BatchNext::Receive
        }),
{
}

/// The status of a subscribed script that is notified is its status in the batch; that of any other
/// script changes nothing.
pub proof fn a_script_status_is_gathered(
    batch: PendingBatchView,
    is_connected: bool,
    subscribed: Set<ElectrumScriptHash>,
    hash: ElectrumScriptHash,
    status: Option<ElectrumScriptStatus>,
    other: ElectrumScriptHash,
)
    ensures
        ({
            let received = Received::Notification(ElectrumNotification::ScriptHash { hash, status });
            let (after, connected) = collected(batch, is_connected, subscribed, received);
            &&& connected == is_connected
            &&& subscribed.contains(hash) ==> {
                &&& after.script_statuses.get(hash) == Some(status)
                &&& other != hash ==> after.script_statuses.get(other)
                    == batch.script_statuses.get(other)
                &&& after.latest_header == batch.latest_header
                &&& after.lagged == batch.lagged
                &&& after.reconnected == batch.reconnected
                &&& after.terminal_disconnect == batch.terminal_disconnect
                &&& after != empty_batch()
                &&& batch_next(after, false) != BatchNext::Receive
            }
            &&& !subscribed.contains(hash) ==> after == batch
        }),
{
    if subscribed.contains(hash) {
        let after = batch.script_statuses.insert(hash, status);
        assert(after.contains_key(hash));
    }
}

/// What is known of the connection is what was notified last. It came back where it was gone and is
/// there again, and that it came back is not forgotten; nothing else changes.
pub proof fn a_connection_change_is_gathered(
    batch: PendingBatchView,
    is_connected: bool,
    subscribed: Set<ElectrumScriptHash>,
    status: ElectrumConnectionStatus,
)
    ensures
        ({
            let received = Received::Notification(
                ElectrumNotification::ConnectionStatusChanged(status),
            );
            let (after, connected) = collected(batch, is_connected, subscribed, received);
            &&& connected <==> status is Connected
            &&& batch.reconnected ==> after.reconnected
            &&& !is_connected && status is Connected ==> after.reconnected
            &&& !batch.reconnected && (is_connected || !(status is Connected))
                ==> !after.reconnected
            &&& after.script_statuses == batch.script_statuses
            &&& after.latest_header == batch.latest_header
            &&& after.lagged == batch.lagged
            &&& after.terminal_disconnect == batch.terminal_disconnect
            &&& after.reconnected ==> batch_next(after, true) == BatchNext::Ready
                && batch_next(after, false) == BatchNext::Ready
        }),
{
}

/// That notifications were missed, or that there will be no more, is noted; nothing else changes. After
/// the last one the batch is complete.
pub proof fn a_gap_and_an_end_are_gathered(
    batch: PendingBatchView,
    is_connected: bool,
    subscribed: Set<ElectrumScriptHash>,
    n: u64,
    in_window: bool,
)
    ensures
        ({
            let (missed, connected) = collected(
                batch,
                is_connected,
                subscribed,
                Received::Lagged(n),
            );
            &&& missed.lagged
            &&& missed.script_statuses == batch.script_statuses
            &&& missed.latest_header == batch.latest_header
            &&& missed.reconnected == batch.reconnected
            &&& missed.terminal_disconnect == batch.terminal_disconnect
            &&& connected == is_connected
        }),
        forall|received: Received|
            received == Received::Closed || received == Received::Notification(
                ElectrumNotification::Shutdown,
            ) ==> {
                let (ended, connected) = #[trigger] collected(
                    batch,
                    is_connected,
                    subscribed,
                    received,
                );
                &&& ended.terminal_disconnect
                &&& ended.script_statuses == batch.script_statuses
                &&& ended.latest_header == batch.latest_header
                &&& ended.lagged == batch.lagged
                &&& ended.reconnected == batch.reconnected
                &&& connected == is_connected
                &&& batch_next(ended, in_window) == BatchNext::Ready
            },
{
}

/// A batch goes on as it has to: it is complete once the connection came back or is gone for good, waits
/// on as long as there is nothing to be done, and else gathers more in a window.
pub proof fn a_batch_waits_for_work(batch: PendingBatchView, in_window: bool)
    ensures
        batch_next(batch, in_window) == BatchNext::Ready <==> batch.terminal_disconnect
            || batch.reconnected,
        batch_next(batch, in_window) == BatchNext::Receive <==> !in_window
            && !batch.terminal_disconnect && !batch.reconnected && !batch.lagged
            && batch.latest_header is None && batch.script_statuses == Map::<
            ElectrumScriptHash,
            Option<ElectrumScriptStatus>,
        >::empty(),
        batch_next(batch, in_window) == BatchNext::Gather ==> in_window,
        batch_next(batch, in_window) == BatchNext::OpenWindow ==> !in_window,
        in_window && !batch.terminal_disconnect && !batch.reconnected ==> batch_next(
            batch,
            in_window,
        ) == BatchNext::Gather,
{
}

/// The batch after some notifications, one after the other.
pub open spec fn all_collected(
    batch: PendingBatchView,
    is_connected: bool,
    subscribed: Set<ElectrumScriptHash>,
    received: Seq<Received>,
) -> (PendingBatchView, bool)
    decreases received.len(),
{
    if received.len() == 0 {
        (batch, is_connected)
    } else {
        let (before, connected) = all_collected(
            batch,
            is_connected,
            subscribed,
            received.drop_last(),
        );
        collected(before, connected, subscribed, received.last())
    }
}

/// A block header stays the latest one until another comes, and the status of a script until another of
/// the same script comes, whatever else is gathered meanwhile.
pub proof fn the_last_of_its_kind_counts(
    batch: PendingBatchView,
    is_connected: bool,
    subscribed: Set<ElectrumScriptHash>,
    received: Seq<Received>,
    i: int,
)
    requires
        0 <= i < received.len(),
    ensures
        ({
            let after = all_collected(batch, is_connected, subscribed, received).0;
            match received[i] {
                Received::Notification(ElectrumNotification::BlockHeader { height, header }) => (
                forall|j: int|
                    i < j < received.len() ==> !((#[trigger] received[j]) matches
                        Received::Notification(ElectrumNotification::BlockHeader { .. })))
                    ==> after.latest_header == Some((height, header)),
                Received::Notification(ElectrumNotification::ScriptHash { hash, status }) =>
                subscribed.contains(hash) && (forall|j: int|
                    i < j < received.len() ==> !((#[trigger] received[j]) matches
                        Received::Notification(
                        ElectrumNotification::ScriptHash { hash: other, .. },
                    ) && other == hash)) ==> after.script_statuses.get(hash) == Some(status),
                Received::Lagged(n) => after.lagged,
                Received::Closed => after.terminal_disconnect,
                _ => true,
            }
        }),
    decreases received.len(),
{
    let init = received.drop_last();
    let (before, connected) = all_collected(batch, is_connected, subscribed, init);
    if i < received.len() - 1 {
        the_last_of_its_kind_counts(batch, is_connected, subscribed, init, i);
        assert(init[i] == received[i]);
        let last = received[received.len() - 1];
        assert(received.last() == last);
        match received[i] {
            Received::Notification(ElectrumNotification::BlockHeader { height, header }) => {
                if forall|j: int|
                    i < j < received.len() ==> !((#[trigger] received[j]) matches
                        Received::Notification(ElectrumNotification::BlockHeader { .. })) {
                    assert forall|j: int| i < j < init.len() implies !((
                    #[trigger] init[j]) matches Received::Notification(
                        ElectrumNotification::BlockHeader { .. },
                    )) by {
                        assert(init[j] == received[j]);
                    }
                }
            },
            Received::Notification(ElectrumNotification::ScriptHash { hash, status }) => {
                if forall|j: int|
                    i < j < received.len() ==> !((#[trigger] received[j]) matches
                        Received::Notification(
                        ElectrumNotification::ScriptHash { hash: other, .. },
                    ) && other == hash) {
                    assert forall|j: int| i < j < init.len() implies !((
                    #[trigger] init[j]) matches Received::Notification(
                        ElectrumNotification::ScriptHash { hash: other, .. },
                    ) && other == hash) by {
                        assert(init[j] == received[j]);
                    }
                }
            },
            _ => {},
        }
    }
}

/// The errors that say that the client is no longer connected are those two, and no others.
pub proof fn a_disconnect_is_told_apart(e: Error)
    ensures
        is_disconnect(e) <==> (e matches Error::Disconnected) || (e matches Error::BatchRequest(
            BatchRequestError::Canceled,
        )),
{
}

/// Which scripts a batch makes it necessary to look at: after a gap in the notifications each that is
/// subscribed, else each whose status was notified and is not the one that is known; and, where asked for,
/// each of which an unconfirmed transaction is expected. No others.
pub proof fn the_right_scripts_are_looked_at<KV>(
    state: SubscriptionStateView<KV>,
    batch: PendingBatchView,
    include_pending: bool,
    hash: ElectrumScriptHash,
)
    ensures
        ({
            let scripts = scripts_to_process(state, batch, include_pending);
            let subscriptions = state.script_subscriptions;
            let news = batch.script_statuses.contains_key(hash) && (!subscriptions.contains_key(
                hash,
            ) || subscriptions[hash].last_status != batch.script_statuses[hash]);
            let pending = subscriptions.contains_key(hash) && exists|txid: Txid| #[trigger]
                subscriptions[hash].expected_tx_heights.contains_key(txid)
                    && subscriptions[hash].expected_tx_heights[txid] <= 0;
            &&& batch.lagged && state.subscribed_scripts.contains(hash) ==> scripts.contains(hash)
            &&& !batch.lagged && news ==> scripts.contains(hash)
            &&& include_pending && pending ==> scripts.contains(hash)
            &&& scripts.contains(hash) ==> (batch.lagged && state.subscribed_scripts.contains(hash))
                || (!batch.lagged && news) || (include_pending && pending)
        }),
{
}

/// Of the transactions with an id the first one is kept, and those that are kept stay in order.
pub proof fn the_first_of_each_transaction_is_kept(txs: Seq<TransactionView>)
    ensures
        forall|i: int|
            0 <= i < txs.len() && (forall|k: int|
                0 <= k < i ==> txid_of(#[trigger] txs[k]) != txid_of(txs[i])) ==> deduped(
                txs,
            ).contains(#[trigger] txs[i]),
        forall|i: int|
            0 <= i < deduped(txs).len() ==> txs.contains(#[trigger] deduped(txs)[i]),
        forall|i: int, j: int|
            0 <= i < j < deduped(txs).len() ==> txid_of(#[trigger] deduped(txs)[i]) != txid_of(
                #[trigger] deduped(txs)[j],
            ),
        txs.len() > 0 ==> deduped(txs.drop_last()).is_prefix_of(deduped(txs)),
    decreases txs.len(),
{
    deduped_is_exact(txs);
    if txs.len() > 0 {
        let init = txs.drop_last();
        the_first_of_each_transaction_is_kept(init);
        deduped_is_exact(init);
        let last = txs.last();
        assert(txs[txs.len() - 1] == last);
        assert forall|i: int|
            0 <= i < txs.len() && (forall|k: int|
                0 <= k < i ==> txid_of(#[trigger] txs[k]) != txid_of(
                    txs[i],
                )) implies deduped(txs).contains(#[trigger] txs[i]) by {
            if i < init.len() {
                assert(init[i] == txs[i]);
                assert forall|k: int| 0 <= k < i implies txid_of(#[trigger] init[k]) != txid_of(
                    init[i],
                ) by {
                    assert(init[k] == txs[k]);
                }
                assert(deduped(init).contains(init[i]));
                let at = choose|at: int| 0 <= at < deduped(init).len() && deduped(init)[at]
                    == init[i];
                assert(deduped(txs)[at] == txs[i]);
            } else {
                if lists_txid(deduped(init), txid_of(last)) {
                    assert(lists_txid(init, txid_of(last)));
                    let k = choose|k: int|
                        0 <= k < init.len() && txid_of(#[trigger] init[k]) == txid_of(last);
                    assert(init[k] == txs[k]);
                }
                assert(deduped(txs)[deduped(txs).len() - 1] == last);
            }
        }
        assert forall|i: int| 0 <= i < deduped(txs).len() implies txs.contains(
            #[trigger] deduped(txs)[i],
        ) by {
            if i < deduped(init).len() {
                assert(deduped(txs)[i] == deduped(init)[i]);
                let k = choose|k: int| 0 <= k < init.len() && init[k] == deduped(init)[i];
                assert(txs[k] == deduped(txs)[i]);
            }
        }
    }
}

/// Scripts are looked at a few at a time: as many as there are, but never more than the limit, and always
/// some as long as there are any.
pub proof fn chunks_are_bounded(left: Seq<ElectrumScriptHash>)
    ensures
        0 <= chunk_len(left) <= left.len(),
        chunk_len(left) <= 64,
        left.len() > 0 ==> chunk_len(left) > 0,
        left.len() <= 64 ==> chunk_len(left) == left.len(),
        left.len() > 64 ==> chunk_len(left) == 64,
{
}

/// A snapshot holds the tip and the indices as they are, and each script that has a place and of which
/// something is expected, with just that. No others.
pub proof fn a_snapshot_holds_what_is_known<KV>(
    state: SubscriptionStateView<KV>,
    chain_tip: Option<Map<u32, Hash256>>,
    hash: ElectrumScriptHash,
)
    ensures
        ({
            let snapshot = snapshot_of(state, chain_tip);
            let script = snapshot.scripts[hash];
            &&& snapshot.chain_tip == chain_tip
            &&& snapshot.last_active_indices == state.last_active_indices
            &&& snapshot.max_subscribed_indices == state.max_subscribed_indices
            &&& snapshot.scripts.contains_key(hash) <==> state.script_subscriptions.contains_key(
                hash,
            ) && state.script_to_keychain_index.contains_key(hash)
            &&& snapshot.scripts.contains_key(hash) ==> {
                &&& state.script_to_keychain_index.get(hash) == Some((script.keychain, script.index))
                &&& script.last_status == state.script_subscriptions[hash].last_status
                &&& script.expected_tx_heights
                    == state.script_subscriptions[hash].expected_tx_heights
            }
        }),
{
}

/// What a stream yields: a batch that failed is its failure and the end; one without an update yields nothing,
/// or, after the connection was closed for good, the news of that and the end; at the end there is nothing
/// more; and with nothing to yield the next batch is collected.
pub proof fn each_batch_yields_its_event<K: Key>(
    state: LiveStreamState<K>,
    e: Error,
    update: SyncResponse,
    checkpoint: SyncCheckpoint<K>,
    terminal_disconnect: bool,
)
    ensures
        ({
            let failed = Err::<Option<(SyncResponse, SyncCheckpoint<K>)>, Error>(e);
            let (after, next) = batch_yields(state, failed, terminal_disconnect);
            &&& next == StreamNext::<K>::Fail(e)
            &&& after.done
        }),
        ({
            let nothing = Ok::<Option<(SyncResponse, SyncCheckpoint<K>)>, Error>(None);
            &&& batch_yields(state, nothing, false) == (state, StreamNext::<K>::Collect)
            &&& batch_yields(state, nothing, true).1 == StreamNext::Emit(
                SubscribeEvent::<K>::Disconnected,
            )
            &&& batch_yields(state, nothing, true).0.done
        }),
        ({
            let news = Ok::<Option<(SyncResponse, SyncCheckpoint<K>)>, Error>(
                Some((update, checkpoint)),
            );
            let (after, next) = batch_yields(state, news, terminal_disconnect);
            &&& next == StreamNext::<K>::Emit(SubscribeEvent::Update(update))
            &&& after.pending_checkpoint == Some(checkpoint)
            &&& after.pending_terminal_disconnect == terminal_disconnect
            &&& after.done == state.done
            &&& after.is_connected == state.is_connected
        }),
        state.done ==> polled(state) == (state, StreamNext::<K>::End),
        !state.done && state.initial is None && state.pending_checkpoint is None
            && !state.pending_terminal_disconnect ==> polled(state) == (
            state,
            StreamNext::<K>::Collect,
        ),
        !state.done && state.initial is None && state.pending_checkpoint is None
            && state.pending_terminal_disconnect ==> polled(state).1 == StreamNext::Emit(
            SubscribeEvent::<K>::Disconnected,
        ) && polled(state).0.done,
        !state.done && state.initial is None && state.pending_checkpoint == Some(checkpoint)
            ==> polled(state).1 == StreamNext::<K>::Emit(SubscribeEvent::Checkpoint(checkpoint))
            && polled(state).0.pending_checkpoint is None
            && polled(state).0.pending_terminal_disconnect == state.pending_terminal_disconnect,
{
}

/// A header fits onto the known chain where the chain holds its block already or a block below it. Without a
/// known chain, and without a header, there is nothing that does not fit.
pub proof fn a_header_fits_onto_a_lower_block(
    tip: Option<CheckPoint>,
    height: u32,
    header: Header,
    below: u32,
)
    ensures
        accepts_latest(tip, None),
        tip is None ==> accepts_latest(tip, Some((height, header))),
        tip is Some && checkpoint_blocks(tip->0).contains_key(below) && below < height
            ==> accepts_latest(tip, Some((height, header))),
        tip is Some && checkpoint_blocks(tip->0).get(height) == Some(block_hash_of(header))
            ==> accepts_latest(tip, Some((height, header))),
        tip is Some && checkpoint_blocks(tip->0).get(height) != Some(block_hash_of(header)) && (
        forall|h: u32| #[trigger]
            checkpoint_blocks(tip->0).contains_key(h) ==> h >= height) ==> !accepts_latest(
            tip,
            Some((height, header)),
        ),
{
}

} // verus!
