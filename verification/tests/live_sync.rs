use std::sync::Arc;

use bdk_core::CheckPoint;
use tokio_electrum::bdk::accumulator::{FullScanAccumulator, SpkScanResult};
use tokio_electrum::bdk::checkpoint::SyncCheckpoint;
use tokio_electrum::bdk::live_sync_engine::{
    build_sync_update_from_batch, can_accept_header, collect_batch_notification,
    current_checkpoint_snapshot, handle_block_header_notification, next_pending_batch,
    reconcile_after_reconnect, reconcile_with_subscription, reconcile_with_tip,
    scripts_to_process_for_batch, try_chain_tip_update_from_batch, BatchNext, LiveStreamState,
    LiveSyncEngine, PendingBatch, ProcessedScripts, Received, ReconcileStep, ScriptUpdates,
    StreamNext, SubscribeEvent,
};
use tokio_electrum::bdk::response::{FullScanResponse, SyncResponse};
use tokio_electrum::bdk::subscription::{
    ScriptSubscription, SubscriptionCtx, SubscriptionInit, SubscriptionState,
};
use tokio_electrum::chain::{BlockId, ConfirmationBlockTime, Header};
use tokio_electrum::electrum::error::{BatchRequestError, Error};
use tokio_electrum::electrum::notification::ElectrumNotification;
use tokio_electrum::electrum::status::ElectrumConnectionStatus;
use tokio_electrum::electrum::types::BlockHeader;
use tokio_electrum::hash::Hash256;
use tokio_electrum::ordered::{OrderedMap, OrderedSet};
use tokio_electrum::time::Duration;
use tokio_electrum::tx::{Transaction, TxUpdate};

fn hash(byte: u8) -> Hash256 {
    Hash256::from_byte_array([byte; 32])
}

fn make_ctx(chain_tip: Option<CheckPoint>) -> SubscriptionCtx<String> {
    SubscriptionCtx {
        wallet_label: String::from("test-wallet"),
        state: SubscriptionState::default(),
        chain_tip,
    }
}

fn genesis_header() -> (Header, bitcoin::BlockHash) {
    let genesis = bitcoin::constants::genesis_block(bitcoin::Network::Regtest);
    let header = Header {
        version: genesis.header.version.to_consensus(),
        prev_blockhash: Hash256::from_byte_array(bitcoin::hashes::Hash::to_byte_array(
            genesis.header.prev_blockhash,
        )),
        merkle_root: Hash256::from_byte_array(bitcoin::hashes::Hash::to_byte_array(
            genesis.header.merkle_root,
        )),
        time: genesis.header.time,
        bits: genesis.header.bits.to_consensus(),
        nonce: genesis.header.nonce,
    };
    (header, genesis.block_hash())
}

fn genesis_tip() -> CheckPoint {
    CheckPoint::new(bdk_core::BlockId { height: 0, hash: genesis_header().1 })
}

fn disconnected() -> Error {
    Error::Disconnected
}

#[test]
fn handle_block_header_notification_returns_none_without_tip() {
    let (header, _) = genesis_header();
    let mut ctx = make_ctx(None);

    assert!(can_accept_header(&ctx.chain_tip, 1, &header));
    let update = handle_block_header_notification(1, &header, &mut ctx.chain_tip);
    assert!(update.is_none());
    assert!(ctx.chain_tip.is_none());
}

#[test]
fn handle_block_header_notification_updates_chain_tip() {
    let (header, genesis_hash) = genesis_header();
    let mut ctx = make_ctx(Some(genesis_tip()));

    assert!(can_accept_header(&ctx.chain_tip, 1, &header));
    let update = handle_block_header_notification(1, &header, &mut ctx.chain_tip)
        .expect("expected update");
    assert_eq!(update.height(), 1);
    assert_eq!(update.hash(), genesis_hash);
    assert_eq!(ctx.chain_tip, Some(update));
}

#[test]
fn a_header_that_contradicts_the_first_block_is_not_accepted() {
    let (mut header, _) = genesis_header();
    header.nonce = header.nonce.wrapping_add(1);
    let mut ctx = make_ctx(Some(genesis_tip()));
    assert!(!can_accept_header(&ctx.chain_tip, 0, &header));
    let mut batch = PendingBatch::default();
    batch.latest_header = Some((0, header));
    assert_eq!(try_chain_tip_update_from_batch(&mut ctx, &mut batch), None);
    assert_eq!(batch.latest_header, Some((0, header)));

    batch.latest_header = Some((5, header));
    let tip = try_chain_tip_update_from_batch(&mut ctx, &mut batch).unwrap().unwrap();
    assert_eq!(tip.height(), 5);
    assert_eq!(batch.latest_header, None);
    assert_eq!(try_chain_tip_update_from_batch(&mut ctx, &mut batch), Some(None));
}

#[test]
fn collect_batch_notification_marks_reconnect_only_on_transition() {
    let ctx = make_ctx(None);
    let mut batch = PendingBatch::default();
    let mut is_connected = false;
    let connected = Received::Notification(ElectrumNotification::ConnectionStatusChanged(
        ElectrumConnectionStatus::Connected,
    ));

    collect_batch_notification(&ctx, connected, &mut batch, &mut is_connected);

    assert!(is_connected);
    assert!(batch.reconnected);
    assert!(!batch.terminal_disconnect);

    let mut batch = PendingBatch::default();
    collect_batch_notification(&ctx, connected, &mut batch, &mut is_connected);
    assert!(is_connected);
    assert!(!batch.reconnected);
}

#[test]
fn collect_batch_notification_ignores_transient_disconnect_for_stream_shutdown() {
    let ctx = make_ctx(None);
    let mut batch = PendingBatch::default();
    let mut is_connected = true;

    collect_batch_notification(
        &ctx,
        Received::Notification(ElectrumNotification::ConnectionStatusChanged(
            ElectrumConnectionStatus::Disconnected,
        )),
        &mut batch,
        &mut is_connected,
    );

    assert!(!is_connected);
    assert!(!batch.reconnected);
    assert!(!batch.terminal_disconnect);
    assert!(!batch.has_work());
}

fn script_changed(script: u8, status: u8) -> Received {
    Received::Notification(ElectrumNotification::ScriptHash {
        hash: hash(script),
        status: Some(hash(status)),
    })
}

#[test]
fn batches_gather_for_a_window() {
    let mut ctx = make_ctx(None);
    ctx.state.subscribed_scripts.insert(hash(1));
    let mut batch = PendingBatch::default();
    let mut up = true;

    // a script of somebody else does not begin a batch
    let next = next_pending_batch(&ctx, script_changed(9, 1), false, &mut batch, &mut up);
    assert_eq!(next, BatchNext::Receive);
    let next = next_pending_batch(&ctx, script_changed(1, 1), false, &mut batch, &mut up);
    assert_eq!(next, BatchNext::OpenWindow);
    let next = next_pending_batch(&ctx, script_changed(1, 2), true, &mut batch, &mut up);
    assert_eq!(next, BatchNext::Gather);
    assert_eq!(batch.script_statuses.len(), 1);
    assert_eq!(batch.script_statuses.get(&hash(1)), Some(&Some(hash(2))));
    let next = next_pending_batch(&ctx, Received::Lagged(3), true, &mut batch, &mut up);
    assert_eq!(next, BatchNext::Gather);
    assert!(batch.lagged);
    let shutdown = Received::Notification(ElectrumNotification::Shutdown);
    let next = next_pending_batch(&ctx, shutdown, true, &mut batch, &mut up);
    assert_eq!(next, BatchNext::Ready);
    assert!(batch.terminal_disconnect);

    let mut batch = PendingBatch::default();
    let next = next_pending_batch(&ctx, Received::Closed, false, &mut batch, &mut up);
    assert_eq!(next, BatchNext::Ready);
    assert!(batch.terminal_disconnect);
}

#[test]
fn a_reconnect_fetches_the_tip_and_subscribes_again() {
    let (header, _) = genesis_header();
    let mut ctx = make_ctx(None);
    let mut batch = PendingBatch::default();
    assert_eq!(reconcile_after_reconnect(&batch), ReconcileStep::Done);
    batch.reconnected = true;
    assert_eq!(reconcile_after_reconnect(&batch), ReconcileStep::FetchTip);

    let tip = || Ok(BlockHeader { header, height: 12 });
    assert_eq!(reconcile_with_tip(&ctx, &mut batch, tip()), ReconcileStep::Done);
    assert_eq!(batch.latest_header, Some((12, header)));
    ctx.state.subscribed_scripts.insert(hash(2));
    ctx.state.subscribed_scripts.insert(hash(1));
    assert_eq!(
        reconcile_with_tip(&ctx, &mut batch, tip()),
        ReconcileStep::Subscribe(vec![hash(1), hash(2)])
    );
    assert_eq!(
        reconcile_with_tip(&ctx, &mut batch, Err(disconnected())),
        ReconcileStep::Done
    );
    assert_eq!(
        reconcile_with_tip(&ctx, &mut batch, Err(Error::Timeout)),
        ReconcileStep::Failed(Error::Timeout)
    );
    assert_eq!(reconcile_with_subscription(Ok(())), ReconcileStep::Done);
    let canceled = Error::BatchRequest(BatchRequestError::Canceled);
    assert_eq!(reconcile_with_subscription(Err(canceled)), ReconcileStep::Done);
    assert_eq!(
        reconcile_with_subscription(Err(Error::Timeout)),
        ReconcileStep::Failed(Error::Timeout)
    );
}

fn subscription(height: i64, status: Option<u8>) -> ScriptSubscription {
    let mut heights = OrderedMap::new();
    heights.insert(hash(100), height);
    let mut r = ScriptSubscription::new(heights);
    r.last_status = status.map(hash);
    r
}

#[test]
fn scripts_that_changed_are_looked_at() {
    let mut ctx = make_ctx(None);
    for (script, height, status) in [(1, 5, Some(1)), (2, 0, Some(2)), (3, -1, None)] {
        ctx.state.subscribed_scripts.insert(hash(script));
        ctx.state.script_subscriptions.insert(hash(script), subscription(height, status));
    }
    let mut batch = PendingBatch::default();
    batch.script_statuses.insert(hash(1), Some(hash(9)));
    batch.script_statuses.insert(hash(2), Some(hash(2)));
    assert_eq!(scripts_to_process_for_batch(&ctx, &mut batch, false), vec![hash(1)]);
    assert_eq!(
        scripts_to_process_for_batch(&ctx, &mut batch, true),
        vec![hash(1), hash(2), hash(3)]
    );
    batch.lagged = true;
    let all = scripts_to_process_for_batch(&ctx, &mut batch, false);
    assert_eq!(all, vec![hash(1), hash(2), hash(3)]);
    assert!(!batch.lagged);
    assert_eq!(ctx.script_hashes_with_unconfirmed_txs(), vec![hash(2), hash(3)]);
}

fn tx(lock_time: u32) -> Arc<Transaction> {
    Arc::new(Transaction { version: 2, lock_time, input: vec![], output: vec![] })
}

fn processed(txs: Vec<Arc<Transaction>>, new: Vec<Hash256>) -> ProcessedScripts {
    let mut tx_update = TxUpdate::new();
    tx_update.txs = txs;
    ProcessedScripts { tx_update, hashes_with_new_txs: new }
}

#[test]
fn scripts_are_looked_at_some_at_a_time() {
    let scripts: Vec<Hash256> = (0..70).map(hash).collect();
    let mut updates = ScriptUpdates::new(scripts.clone());
    assert_eq!(updates.chunk(), scripts[..64].to_vec());
    assert_eq!(
        updates.absorb(Ok(processed(vec![tx(1), tx(2)], vec![hash(7)]))),
        Ok(vec![hash(7)])
    );
    assert_eq!(updates.chunk(), scripts[64..].to_vec());
    assert_eq!(updates.absorb(Err(Error::Timeout)), Err(Error::Timeout));
    assert_eq!(updates.absorb(Ok(processed(vec![tx(2), tx(3)], vec![]))), Ok(vec![]));
    assert_eq!(updates.chunk(), vec![]);
    assert_eq!(updates.finish().txs, vec![tx(1), tx(2), tx(3)]);

    // a lost connection leaves the others out
    let mut updates = ScriptUpdates::new(scripts);
    assert_eq!(updates.absorb(Err(disconnected())), Ok(vec![]));
    assert_eq!(updates.chunk(), vec![]);
    assert!(updates.finish().is_empty());
}

#[test]
fn updates_come_with_a_snapshot() {
    let mut ctx = make_ctx(Some(genesis_tip()));
    ctx.state.script_subscriptions.insert(hash(1), subscription(5, Some(1)));
    ctx.state.script_subscriptions.insert(hash(2), subscription(6, None));
    ctx.state.script_to_keychain_index.insert(hash(1), (String::from("external"), 4));
    ctx.state.last_active_indices.insert(String::from("external"), 4);
    ctx.state.max_subscribed_indices.insert(String::from("external"), 24);
    let snapshot = current_checkpoint_snapshot(&ctx);
    assert_eq!(snapshot.chain_tip, Some(genesis_tip()));
    assert_eq!(snapshot.scripts.len(), 1);
    let script = snapshot.scripts.get(&hash(1)).unwrap();
    assert_eq!((script.keychain.as_str(), script.index), ("external", 4));
    assert_eq!(script.last_status, Some(hash(1)));
    assert_eq!(snapshot.max_subscribed_indices.get(&String::from("external")), Some(&24));

    assert_eq!(build_sync_update_from_batch(&ctx, TxUpdate::new(), None), None);
    let (update, again) =
        build_sync_update_from_batch(&ctx, TxUpdate::new(), Some(genesis_tip())).unwrap();
    assert_eq!(update.chain_update, Some(genesis_tip()));
    assert_eq!(again, snapshot);
    let mut seen = TxUpdate::new();
    seen.seen_ats.insert((hash(5), 1));
    assert!(build_sync_update_from_batch(&ctx, seen, None).is_some());
}

fn snapshot() -> SyncCheckpoint<String> {
    current_checkpoint_snapshot(&make_ctx(Some(genesis_tip())))
}

fn update() -> SyncResponse {
    SyncResponse { tx_update: TxUpdate::new(), chain_update: Some(genesis_tip()) }
}

#[test]
fn a_stream_yields_updates_with_their_snapshots() {
    let initial = || FullScanResponse {
        tx_update: TxUpdate::new(),
        chain_update: Some(genesis_tip()),
        last_active_indices: OrderedMap::new(),
    };
    let begun = || {
        let mut state: LiveStreamState<String> = LiveStreamState::new(true, initial());
        assert_eq!(state.poll(), StreamNext::Emit(SubscribeEvent::Initial(initial())));
        state
    };
    let mut state = begun();
    assert_eq!(state.poll(), StreamNext::Collect);
    assert_eq!(state.take_batch(Ok(None), false), StreamNext::Collect);
    assert_eq!(
        state.take_batch(Ok(Some((update(), snapshot()))), true),
        StreamNext::Emit(SubscribeEvent::Update(update()))
    );
    assert_eq!(state.poll(), StreamNext::Emit(SubscribeEvent::Checkpoint(snapshot())));
    assert_eq!(state.poll(), StreamNext::Emit(SubscribeEvent::Disconnected));
    assert_eq!(state.poll(), StreamNext::End);
    assert_eq!(state.poll(), StreamNext::End);

    let mut state = begun();
    assert_eq!(state.take_batch(Err(Error::Timeout), false), StreamNext::Fail(Error::Timeout));
    assert_eq!(state.poll(), StreamNext::End);

    let mut state = begun();
    assert_eq!(
        state.take_batch(Ok(None), true),
        StreamNext::Emit(SubscribeEvent::Disconnected)
    );
    assert_eq!(state.poll(), StreamNext::End);
}

fn keychain_scan(scripts: &[(u8, u32)], last_active_index: Option<u32>) -> SpkScanResult {
    let mut r = SpkScanResult {
        last_active_index,
        subscribed_hashes: OrderedSet::new(),
        subscribed_script_subscriptions: OrderedMap::new(),
        subscribed_script_to_index: OrderedMap::new(),
        max_subscribed_index: scripts.iter().map(|(_, index)| *index).max(),
    };
    for (script, index) in scripts {
        r.subscribed_hashes.insert(hash(*script));
        r.subscribed_script_subscriptions.insert(hash(*script), subscription(1, None));
        r.subscribed_script_to_index.insert(hash(*script), *index);
    }
    r
}

#[test]
fn an_engine_begins_with_what_scans_left_behind() {
    let mut accumulator = FullScanAccumulator::new();
    accumulator.absorb_keychain_scan(String::from("a"), keychain_scan(&[(1, 0), (2, 7)], Some(0)));
    accumulator.absorb_keychain_scan(String::from("b"), keychain_scan(&[(3, 4)], None));
    accumulator.absorb_keychain_scan(String::from("c"), keychain_scan(&[], None));
    let (last_active_indices, init) = accumulator.into_subscription_init();
    assert_eq!(last_active_indices.len(), 1);
    assert_eq!(init.subscribed_scripts.len(), 3);
    assert_eq!(init.script_to_keychain_index.get(&hash(2)), Some(&(String::from("a"), 7)));
    assert_eq!(init.max_subscribed_indices.get(&String::from("b")), Some(&4));
    assert_eq!(init.max_subscribed_indices.len(), 2);

    let response = FullScanResponse {
        tx_update: TxUpdate::new(),
        chain_update: Some(genesis_tip()),
        last_active_indices,
    };
    let engine: LiveSyncEngine<(), String> = LiveSyncEngine::new(
        (),
        String::from("wallet"),
        9,
        init,
        true,
        &response,
        20,
        Duration::from_millis(250),
    );
    assert_eq!(engine.ctx.wallet_label, "wallet");
    assert_eq!(engine.ctx.chain_tip, Some(genesis_tip()));
    assert!(engine.ctx.has_script(&hash(3)));
    assert_eq!(engine.ctx.keychain_index(&hash(3)), Some((String::from("b"), 4)));
    assert_eq!(engine.ctx.state.last_active_indices.get(&String::from("a")), Some(&0));
    assert_eq!((engine.start_time, engine.stop_gap), (9, 20));
}

#[test]
fn stop_gap_edge_activity_extends_tracking_window_for_future_indices() {
    // scripts up to index 40 are tracked, and 20 is the last one in use
    let mut init = SubscriptionInit {
        subscribed_scripts: OrderedSet::new(),
        script_subscriptions: OrderedMap::new(),
        script_to_keychain_index: OrderedMap::new(),
        max_subscribed_indices: OrderedMap::new(),
    };
    let external = || String::from("external");
    for index in 0..=40u8 {
        init.subscribed_scripts.insert(hash(index));
        init.script_to_keychain_index.insert(hash(index), (external(), index as u32));
    }
    init.max_subscribed_indices.insert(external(), 40);
    let mut ctx = make_ctx(None);
    ctx.state.subscribed_scripts = init.subscribed_scripts;
    ctx.state.script_to_keychain_index = init.script_to_keychain_index;
    ctx.state.max_subscribed_indices = init.max_subscribed_indices;
    ctx.bump_last_active(external(), 20);

    // a script that is known to be in use extends nothing
    assert_eq!(ctx.extension_target(&hash(20)), None);
    assert_eq!(ctx.extension_target(&hash(55)), None);
    // activity at the edge does
    assert_eq!(ctx.extension_target(&hash(40)), Some((external(), 40)));
    let more: Vec<(Hash256, u32)> = (41..=60u8).map(|i| (hash(i), i as u32)).collect();
    let hashes: Vec<Hash256> = more.iter().map(|(h, _)| *h).collect();
    ctx.apply_incremental_subscription(external(), 40, 60, &hashes, &more);

    // so that farther addresses are not missed
    assert!(ctx.has_script(&hash(55)));
    assert_eq!(ctx.extension_target(&hash(55)), Some((external(), 55)));
    assert_eq!(ctx.extension_target(&hash(40)), None);
    assert_eq!(ctx.state.max_subscribed_indices.get(&external()), Some(&60));
    assert_eq!(ctx.tracked_script_hashes().len(), 61);

    // the last active index never goes back
    ctx.bump_last_active(external(), 3);
    assert_eq!(ctx.state.last_active_indices.get(&external()), Some(&40));
}

#[test]
fn updates_add_up() {
    let anchor = ConfirmationBlockTime {
        block_id: BlockId { height: 3, hash: hash(3) },
        confirmation_time: 9,
    };
    let mut a = TxUpdate::new();
    assert!(a.is_empty());
    a.anchors.insert((anchor, hash(1)));
    let mut b = TxUpdate::new();
    b.txs = vec![tx(1)];
    b.evicted_ats.insert((hash(4), 5));
    a.extend(b);
    assert!(!a.is_empty());
    assert_eq!(a.txs, vec![tx(1)]);
    assert_eq!((a.anchors.len(), a.evicted_ats.len(), a.seen_ats.len()), (1, 1, 0));
}
