use bdk_core::CheckPoint;
use tokio_electrum::bdk::batch_run::{BatchAsk, BatchReply, BatchRun, BatchSettings};
use tokio_electrum::bdk::client::BdkElectrumClient;
use tokio_electrum::bdk::live_sync_engine::PendingBatch;
use tokio_electrum::bdk::run::{RunAsk, RunReply};
use tokio_electrum::bdk::scripts_run::{ScriptsAsk, ScriptsReply, ScriptsRun};
use tokio_electrum::bdk::subscription::{ScriptSubscription, SubscriptionCtx, SubscriptionState};
use tokio_electrum::chain::Header;
use tokio_electrum::electrum::error::{BatchRequestError, Error};
use tokio_electrum::electrum::types::{BlockHeader, Tx};
use tokio_electrum::hash::{ElectrumScriptHash, Hash256, Txid};
use tokio_electrum::ordered::OrderedMap;
use tokio_electrum::tx::Transaction;

fn hash(byte: u8) -> Hash256 {
    Hash256::from_byte_array([byte; 32])
}

fn script_hash(script: &[u8]) -> ElectrumScriptHash {
    let hash = electrum_streaming_client::ElectrumScriptHash::new(bitcoin::Script::from_bytes(
        script,
    ));
    Hash256::from_byte_array(bitcoin::hashes::Hash::to_byte_array(hash))
}

fn header(nonce: u32) -> Header {
    Header {
        version: 1,
        prev_blockhash: hash(0),
        merkle_root: hash(0),
        time: 7,
        bits: 0,
        nonce,
    }
}

fn genesis() -> CheckPoint {
    CheckPoint::new(bdk_core::BlockId {
        height: 0,
        hash: bitcoin::hashes::Hash::from_byte_array([9; 32]),
    })
}

fn entry(txid: Txid, height: i64) -> Tx {
    Tx { txid, height }
}

fn tx(lock_time: u32) -> Transaction {
    Transaction { version: 2, lock_time, input: vec![], output: vec![] }
}

const SETTINGS: BatchSettings =
    BatchSettings { start_time: 33, fetch_prev_txouts: false, stop_gap: 2 };

/// Scripts with the hashes 1, 2, ... and the indices 0, 1, ... of keychain 5, which is used up to index 0.
fn ctx(scripts: u8, chain_tip: Option<CheckPoint>) -> SubscriptionCtx<u32> {
    let mut state: SubscriptionState<u32> = SubscriptionState::default();
    for i in 0..scripts {
        state.subscribed_scripts.insert(hash(i + 1));
        let subscription = ScriptSubscription::new(OrderedMap::new());
        state.script_subscriptions.insert(hash(i + 1), subscription);
        state.script_to_keychain_index.insert(hash(i + 1), (5, u32::from(i)));
        state.max_subscribed_indices.insert(5, u32::from(i));
    }
    state.last_active_indices.insert(5, 0);
    SubscriptionCtx { wallet_label: String::from("wallet"), state, chain_tip }
}

fn histories(asked: BatchAsk<u32>) -> Vec<ElectrumScriptHash> {
    match asked {
        BatchAsk::Scripts(ScriptsAsk::Histories(hashes)) => hashes,
        _ => panic!("histories are needed"),
    }
}

fn with_histories(histories: Result<Vec<Vec<Tx>>, Error>) -> BatchReply {
    BatchReply::Scripts(ScriptsReply::Histories(histories))
}

#[test]
fn a_batch_becomes_an_update() {
    let mut client: BdkElectrumClient<()> = BdkElectrumClient::new(());
    let mut ctx = ctx(2, Some(genesis()));
    let mut batch = PendingBatch::default();
    batch.script_statuses.insert(hash(2), Some(hash(70)));
    batch.latest_header = Some((4, header(4)));
    let mut run = BatchRun::new(SETTINGS, &mut ctx, &mut batch);
    assert_eq!(batch.latest_header, None);

    assert_eq!(histories(run.ask(&mut ctx, &batch, &client)), vec![hash(2)]);
    let reply = with_histories(Ok(vec![vec![entry(hash(40), 0)]]));
    run.step(&mut ctx, &mut batch, &mut client, reply);
    assert!(matches!(
        run.ask(&mut ctx, &batch, &client),
        BatchAsk::Scripts(ScriptsAsk::FollowUp(RunAsk::Tx(id))) if id == hash(40)
    ));
    // nothing is expected before the update is complete
    let expected = |ctx: &SubscriptionCtx<u32>| {
        let subscription = ctx.state.script_subscriptions.get(&hash(2)).unwrap();
        (subscription.expected_tx_heights.get(&hash(40)).copied(), subscription.last_status)
    };
    assert_eq!(expected(&ctx), (None, None));
    let reply = ScriptsReply::FollowUp(RunReply::Tx(hash(40), Ok(tx(1))));
    run.step(&mut ctx, &mut batch, &mut client, BatchReply::Scripts(reply));

    // the script at index 1 is in use: two scripts beyond it are subscribed
    assert!(matches!(
        run.ask(&mut ctx, &batch, &client),
        BatchAsk::Spks { keychain: 5, from: 2, to: 3 }
    ));
    assert_eq!(expected(&ctx), (Some(0), Some(hash(70))));
    let spks = vec![(2, vec![20]), (3, vec![30])];
    run.step(&mut ctx, &mut batch, &mut client, BatchReply::Spks(spks));
    match run.ask(&mut ctx, &batch, &client) {
        BatchAsk::Subscribe(hashes) => {
            assert_eq!(hashes, vec![script_hash(&[20]), script_hash(&[30])])
        }
        _ => panic!("a subscription is needed"),
    }
    assert!(!ctx.has_script(&script_hash(&[20])));
    run.step(&mut ctx, &mut batch, &mut client, BatchReply::Subscribed(Ok(())));
    assert!(matches!(run.ask(&mut ctx, &batch, &client), BatchAsk::Done));
    assert!(ctx.has_script(&script_hash(&[20])));
    assert_eq!(ctx.keychain_index(&script_hash(&[30])), Some((5, 3)));
    assert_eq!(ctx.state.last_active_indices.get(&5), Some(&1));
    assert_eq!(ctx.state.max_subscribed_indices.get(&5), Some(&3));

    let (response, checkpoint) = run.finish(&ctx).unwrap().unwrap().unwrap();
    assert_eq!(response.tx_update.txs.len(), 1);
    assert!(response.tx_update.seen_ats.contains(&(hash(40), 33)));
    assert_eq!(response.chain_update.unwrap().height(), 4);
    assert_eq!(checkpoint.chain_tip.unwrap().height(), 4);
    assert_eq!(checkpoint.scripts.len(), 4);
    assert_eq!(checkpoint.scripts.get(&hash(2)).unwrap().last_status, Some(hash(70)));
}

#[test]
fn a_batch_without_changes_has_no_update() {
    let mut client: BdkElectrumClient<()> = BdkElectrumClient::new(());
    let mut ctx = ctx(1, None);
    let mut batch = PendingBatch::default();
    batch.lagged = true;
    let mut run = BatchRun::new(SETTINGS, &mut ctx, &mut batch);
    assert!(!batch.lagged);
    assert_eq!(histories(run.ask(&mut ctx, &batch, &client)), vec![hash(1)]);
    run.step(&mut ctx, &mut batch, &mut client, with_histories(Ok(vec![vec![]])));
    assert!(matches!(run.ask(&mut ctx, &batch, &client), BatchAsk::Done));
    assert!(run.finish(&ctx).unwrap().unwrap().is_none());
}

#[test]
fn a_reconnect_is_caught_up_with() {
    let mut client: BdkElectrumClient<()> = BdkElectrumClient::new(());
    let mut ctx = ctx(2, Some(genesis()));
    let reconnected = || PendingBatch { reconnected: true, ..PendingBatch::default() };
    let mut batch = reconnected();
    let mut run = BatchRun::new(SETTINGS, &mut ctx, &mut batch);
    assert!(matches!(run.ask(&mut ctx, &batch, &client), BatchAsk::Tip));
    let tip = BlockHeader { height: 6, header: header(6) };
    run.step(&mut ctx, &mut batch, &mut client, BatchReply::Tip(Ok(tip)));
    match run.ask(&mut ctx, &batch, &client) {
        BatchAsk::Subscribe(hashes) => assert_eq!(hashes, vec![hash(1), hash(2)]),
        _ => panic!("a subscription is needed"),
    }
    run.step(&mut ctx, &mut batch, &mut client, BatchReply::Subscribed(Ok(())));
    assert!(matches!(run.ask(&mut ctx, &batch, &client), BatchAsk::Done));
    let (response, _) = run.finish(&ctx).unwrap().unwrap().unwrap();
    assert_eq!(response.chain_update.unwrap().height(), 6);
    assert!(response.tx_update.is_empty());

    // where the connection is lost again it is left at that; another error is one
    let mut batch = reconnected();
    let mut run = BatchRun::new(SETTINGS, &mut ctx, &mut batch);
    let lost = Error::BatchRequest(BatchRequestError::Canceled);
    run.step(&mut ctx, &mut batch, &mut client, BatchReply::Tip(Err(lost)));
    assert!(run.finish(&ctx).unwrap().unwrap().is_none());
    let mut batch = reconnected();
    let mut run = BatchRun::new(SETTINGS, &mut ctx, &mut batch);
    run.step(&mut ctx, &mut batch, &mut client, BatchReply::Tip(Err(Error::Timeout)));
    assert!(matches!(run.ask(&mut ctx, &batch, &client), BatchAsk::Failed));
    assert_eq!(run.finish(&ctx).unwrap().unwrap_err(), Error::Timeout);
}

#[test]
fn what_was_found_before_the_connection_was_lost_is_kept() {
    let mut client: BdkElectrumClient<()> = BdkElectrumClient::new(());
    let mut ctx = ctx(70, None);
    let mut batch = PendingBatch { lagged: true, ..PendingBatch::default() };
    let mut run = BatchRun::new(SETTINGS, &mut ctx, &mut batch);
    let first = histories(run.ask(&mut ctx, &batch, &client));
    assert_eq!(first.len(), 64);
    let mut list = vec![vec![]; 64];
    list[0] = vec![entry(hash(200), 0)];
    run.step(&mut ctx, &mut batch, &mut client, with_histories(Ok(list)));
    run.ask(&mut ctx, &batch, &client);
    let reply = ScriptsReply::FollowUp(RunReply::Tx(hash(200), Ok(tx(1))));
    run.step(&mut ctx, &mut batch, &mut client, BatchReply::Scripts(reply));
    assert_eq!(histories(run.ask(&mut ctx, &batch, &client)).len(), 6);
    let lost = with_histories(Err(Error::Disconnected));
    run.step(&mut ctx, &mut batch, &mut client, lost);
    assert!(matches!(run.ask(&mut ctx, &batch, &client), BatchAsk::Done));
    let (response, _) = run.finish(&ctx).unwrap().unwrap().unwrap();
    assert_eq!(response.tx_update.txs.len(), 1);

    // any other error ends it without an update
    let mut batch = PendingBatch { lagged: true, ..PendingBatch::default() };
    let mut run = BatchRun::new(SETTINGS, &mut ctx, &mut batch);
    let failed = with_histories(Err(Error::Timeout));
    run.step(&mut ctx, &mut batch, &mut client, failed);
    assert!(matches!(run.ask(&mut ctx, &batch, &client), BatchAsk::Failed));
    assert_eq!(run.finish(&ctx).unwrap().unwrap_err(), Error::Timeout);
}

#[test]
fn the_first_block_of_a_chain_is_not_replaced() {
    let client: BdkElectrumClient<()> = BdkElectrumClient::new(());
    let mut ctx = ctx(1, Some(genesis()));
    let mut batch = PendingBatch { lagged: true, ..PendingBatch::default() };
    batch.latest_header = Some((0, header(1)));
    let mut run = BatchRun::new(SETTINGS, &mut ctx, &mut batch);
    assert!(matches!(run.ask(&mut ctx, &batch, &client), BatchAsk::Refused));
    assert!(batch.lagged);
    assert_eq!(ctx.chain_tip, Some(genesis()));
    assert!(run.finish(&ctx).is_none());
}

#[test]
fn an_extension_that_fails_ends_a_batch() {
    let mut client: BdkElectrumClient<()> = BdkElectrumClient::new(());
    let mut ctx = ctx(3, None);
    let mut batch = PendingBatch::default();
    batch.script_statuses.insert(hash(2), Some(hash(70)));
    batch.script_statuses.insert(hash(3), Some(hash(71)));
    let mut run = BatchRun::new(SETTINGS, &mut ctx, &mut batch);
    let list = vec![vec![entry(hash(40), 0)], vec![entry(hash(40), 0)]];
    run.step(&mut ctx, &mut batch, &mut client, with_histories(Ok(list)));
    run.ask(&mut ctx, &batch, &client);
    let reply = ScriptsReply::FollowUp(RunReply::Tx(hash(40), Ok(tx(1))));
    run.step(&mut ctx, &mut batch, &mut client, BatchReply::Scripts(reply));
    assert!(matches!(
        run.ask(&mut ctx, &batch, &client),
        BatchAsk::Spks { keychain: 5, from: 3, to: 3 }
    ));
    // a keychain without more scripts is known to be used that far at once
    run.step(&mut ctx, &mut batch, &mut client, BatchReply::Spks(vec![]));
    assert!(matches!(
        run.ask(&mut ctx, &batch, &client),
        BatchAsk::Spks { keychain: 5, from: 3, to: 4 }
    ));
    assert_eq!(ctx.state.last_active_indices.get(&5), Some(&1));
    run.step(&mut ctx, &mut batch, &mut client, BatchReply::Spks(vec![(3, vec![30])]));
    assert!(matches!(run.ask(&mut ctx, &batch, &client), BatchAsk::Subscribe(_)));
    let failed = BatchReply::Subscribed(Err(Error::Disconnected));
    run.step(&mut ctx, &mut batch, &mut client, failed);
    assert!(!ctx.has_script(&script_hash(&[30])));
    assert_eq!(run.finish(&ctx).unwrap().unwrap_err(), Error::Disconnected);
}

#[test]
fn scripts_are_looked_at_together() {
    let mut client: BdkElectrumClient<()> = BdkElectrumClient::new(());
    let mut ctx = ctx(2, None);
    let statuses = OrderedMap::new();
    let mut run = ScriptsRun::new(vec![hash(1), hash(2)], 33, false);
    let list = vec![vec![entry(hash(40), 0)], vec![entry(hash(41), 0)]];
    run.step(&ctx, &mut client, ScriptsReply::Histories(Ok(list)));
    for txid in [hash(40), hash(41)] {
        assert!(matches!(
            run.ask(&mut ctx, &statuses, &client),
            ScriptsAsk::FollowUp(RunAsk::Tx(id)) if id == txid
        ));
        let reply = RunReply::Tx(txid, Ok(tx(u32::from(txid.bytes[0]))));
        run.step(&ctx, &mut client, ScriptsReply::FollowUp(reply));
    }
    assert!(matches!(run.ask(&mut ctx, &statuses, &client), ScriptsAsk::Done));
    let processed = run.into_processed().unwrap().unwrap();
    assert_eq!(processed.tx_update.txs.len(), 2);
    assert_eq!(processed.hashes_with_new_txs, vec![hash(1), hash(2)]);

    // a failure leaves what is expected as it was
    let mut run = ScriptsRun::new(vec![hash(1)], 34, false);
    assert!(matches!(run.ask(&mut ctx, &statuses, &client), ScriptsAsk::Histories(_)));
    run.step(&ctx, &mut client, ScriptsReply::Histories(Ok(vec![vec![entry(hash(42), 0)]])));
    run.ask(&mut ctx, &statuses, &client);
    let failed = RunReply::Tx(hash(42), Err(Error::Timeout));
    run.step(&ctx, &mut client, ScriptsReply::FollowUp(failed));
    assert!(matches!(run.ask(&mut ctx, &statuses, &client), ScriptsAsk::Failed));
    assert_eq!(run.into_processed().unwrap().unwrap_err(), Error::Timeout);
    let expected = ctx.state.script_subscriptions.get(&hash(1)).unwrap();
    assert_eq!(expected.expected_tx_heights.len(), 1);
    assert!(expected.expected_tx_heights.contains_key(&hash(40)));
    assert!(ScriptsRun::new(vec![], 34, false).into_processed().is_none());
}

#[test]
fn a_batch_at_its_end_stays_there() {
    let mut client: BdkElectrumClient<()> = BdkElectrumClient::new(());
    let mut ctx = ctx(1, Some(genesis()));
    let mut batch = PendingBatch::default();
    batch.latest_header = Some((3, header(3)));
    let mut run = BatchRun::new(SETTINGS, &mut ctx, &mut batch);
    for _ in 0..2 {
        assert!(matches!(run.ask(&mut ctx, &batch, &client), BatchAsk::Done));
        run.step(&mut ctx, &mut batch, &mut client, BatchReply::Tip(Err(Error::Timeout)));
        let late = with_histories(Ok(vec![vec![entry(hash(40), 0)]]));
        run.step(&mut ctx, &mut batch, &mut client, late);
        run.step(&mut ctx, &mut batch, &mut client, BatchReply::Spks(vec![(1, vec![1])]));
        run.step(&mut ctx, &mut batch, &mut client, BatchReply::Subscribed(Err(Error::Timeout)));
    }
    let (response, _) = run.finish(&ctx).unwrap().unwrap().unwrap();
    assert!(response.tx_update.is_empty());
    assert_eq!(response.chain_update.unwrap().height(), 3);
}
