use tokio_electrum::bdk::bdk_electrum_client::{
    BdkElectrumClient, ScriptSubscription as TrackedScript,
};
use tokio_electrum::bdk::client::BdkElectrumClient as CachingClient;
use tokio_electrum::bdk::history::{HistoryAsk, HistoryEvent};
use tokio_electrum::bdk::run::{RunAsk, RunReply, ScanRun};
use tokio_electrum::bdk::script_update::{ScriptUpdateAsk, ScriptUpdateReply, ScriptUpdateRun};
use tokio_electrum::bdk::subscription::{ScriptSubscription, SubscriptionCtx, SubscriptionState};
use tokio_electrum::electrum::error::Error;
use tokio_electrum::electrum::types::Tx;
use tokio_electrum::hash::{Hash256, Txid};
use tokio_electrum::ordered::{OrderedMap, OrderedSet};
use tokio_electrum::tx::{OutPoint, Transaction, TxIn, TxOut, TxUpdate};

fn hash(byte: u8) -> Hash256 {
    Hash256::from_byte_array([byte; 32])
}

fn entry(txid: Txid, height: i64) -> Tx {
    Tx { txid, height }
}

fn paying(value: u64) -> Transaction {
    Transaction {
        version: 2,
        lock_time: 0,
        input: vec![],
        output: vec![TxOut { value, script_pubkey: vec![1] }],
    }
}

fn spender(previous_output: OutPoint) -> Transaction {
    let input = TxIn { previous_output, script_sig: vec![], sequence: 0, witness: vec![] };
    Transaction { input: vec![input], ..paying(5) }
}

/// A client that tracks one script, of which some transactions are expected.
fn tracking(script: Hash256, expected: &[Txid]) -> BdkElectrumClient<()> {
    let mut client = BdkElectrumClient::new(());
    let mut txids = OrderedSet::new();
    for txid in expected {
        txids.insert(*txid);
    }
    let scripts = vec![(script, TrackedScript::new(txids))];
    client.subscribe_scripts(&scripts, &mut OrderedSet::new());
    client
}

#[test]
fn a_changed_script_is_looked_at() {
    let script = hash(50);
    let mut client = tracking(script, &[hash(1)]);
    let funding = OutPoint { txid: hash(40), vout: 0 };
    let mut run = ScriptUpdateRun::new(&client, script, 9, true);
    assert!(run.into_response().is_none());

    run = ScriptUpdateRun::new(&client, script, 9, true);
    assert!(matches!(run.ask(&mut client), ScriptUpdateAsk::History(h) if h == script));
    // an answer to something else changes nothing
    run.step(&mut client, ScriptUpdateReply::Tx(hash(40), Ok(paying(1))));
    assert!(matches!(run.ask(&mut client), ScriptUpdateAsk::History(h) if h == script));
    let history = vec![entry(hash(2), 0)];
    run.step(&mut client, ScriptUpdateReply::History(Ok(history.clone())));
    assert!(matches!(
        run.ask(&mut client),
        ScriptUpdateAsk::Entry(HistoryAsk::Tx(id)) if id == hash(2)
    ));
    let found = HistoryEvent::Tx(Ok(spender(funding)));
    run.step(&mut client, ScriptUpdateReply::Entry(found));
    // the transaction that was an answer to something else is not in the cache
    assert!(matches!(run.ask(&mut client), ScriptUpdateAsk::Tx(id) if id == hash(40)));
    run.step(&mut client, ScriptUpdateReply::Tx(hash(40), Ok(paying(700))));
    assert!(matches!(run.ask(&mut client), ScriptUpdateAsk::Done));

    let response = run.into_response().unwrap().unwrap().unwrap();
    assert_eq!(response.chain_update, None);
    assert_eq!(response.tx_update.txs.len(), 1);
    assert_eq!(response.tx_update.txouts.get(&funding).unwrap().value, 700);
    assert!(response.tx_update.seen_ats.contains(&(hash(2), 9)));
    assert_eq!(response.tx_update.evicted_ats.len(), 1);
    assert!(response.tx_update.evicted_ats.contains(&(hash(1), 9)));

    // the same history is no news any more
    let mut run = ScriptUpdateRun::new(&client, script, 10, true);
    run.ask(&mut client);
    run.step(&mut client, ScriptUpdateReply::History(Ok(history)));
    assert!(matches!(run.ask(&mut client), ScriptUpdateAsk::Done));
    assert!(run.into_response().unwrap().unwrap().is_none());
}

#[test]
fn what_is_expected_changes_with_an_update_alone() {
    let script = hash(50);
    let mut client = tracking(script, &[hash(1)]);
    let history = vec![entry(hash(1), 5), entry(hash(2), 0)];

    let mut run = ScriptUpdateRun::new(&client, script, 9, false);
    run.ask(&mut client);
    run.step(&mut client, ScriptUpdateReply::History(Err(Error::Timeout)));
    assert!(matches!(run.ask(&mut client), ScriptUpdateAsk::Failed));
    assert_eq!(run.into_response().unwrap().unwrap_err(), Error::Timeout);

    let mut run = ScriptUpdateRun::new(&client, script, 9, false);
    run.ask(&mut client);
    run.step(&mut client, ScriptUpdateReply::History(Ok(history.clone())));
    run.ask(&mut client);
    let lost = HistoryEvent::Tx(Err(Error::Disconnected));
    run.step(&mut client, ScriptUpdateReply::Entry(lost));
    assert!(matches!(run.ask(&mut client), ScriptUpdateAsk::Failed));
    assert_eq!(run.into_response().unwrap().unwrap_err(), Error::Disconnected);

    // nothing was reported, so that it is still news
    let update = client.process_script_hash_update(&script, &history, 9).unwrap();
    assert_eq!(update.entries, vec![entry(hash(2), 0)]);

    // a script that is not tracked is not asked for
    let mut run = ScriptUpdateRun::new(&client, hash(51), 9, false);
    assert!(matches!(run.ask(&mut client), ScriptUpdateAsk::Done));
    assert!(run.into_response().unwrap().unwrap().is_none());
}

fn ctx_with(expected: &[(Txid, i64)]) -> SubscriptionCtx<String> {
    let keychain = || String::from("external");
    let mut state: SubscriptionState<String> = SubscriptionState::default();
    let mut heights = OrderedMap::new();
    for (txid, height) in expected {
        heights.insert(*txid, *height);
    }
    state.subscribed_scripts.insert(hash(50));
    let subscription = ScriptSubscription { expected_tx_heights: heights, last_status: None };
    state.script_subscriptions.insert(hash(50), subscription);
    state.script_to_keychain_index.insert(hash(50), (keychain(), 7));
    state.last_active_indices.insert(keychain(), 4);
    state.max_subscribed_indices.insert(keychain(), 9);
    SubscriptionCtx { wallet_label: String::from("wallet"), state, chain_tip: None }
}

#[test]
fn a_history_brings_news() {
    let ctx = ctx_with(&[(hash(1), 10), (hash(2), 0), (hash(3), 11)]);
    let history = vec![entry(hash(1), 10), entry(hash(2), 12)];
    let mut update = TxUpdate::new();
    let news = ctx.script_news(&hash(50), &history, 33, &mut update);
    assert_eq!(news.entries, vec![entry(hash(2), 12)]);
    assert!(!news.has_new_txs);
    assert_eq!(update.evicted_ats.len(), 1);
    assert!(update.evicted_ats.contains(&(hash(3), 33)));

    let history = vec![entry(hash(4), 0), entry(hash(1), 10)];
    let news = ctx.script_news(&hash(50), &history, 34, &mut update);
    assert_eq!(news.entries, vec![entry(hash(4), 0)]);
    assert!(news.has_new_txs);
    assert_eq!(update.evicted_ats.len(), 3);

    // of a script that is not known, all of it is news
    let mut update = TxUpdate::new();
    let news = ctx.script_news(&hash(60), &history, 35, &mut update);
    assert_eq!(news.entries, history);
    assert!(update.is_empty());
}

#[test]
fn a_history_that_was_followed_up_is_no_news() {
    let mut ctx = ctx_with(&[(hash(1), 10)]);
    let history = vec![entry(hash(1), 12), entry(hash(2), 0)];
    ctx.expect_history(hash(50), &history, None);
    let mut update = TxUpdate::new();
    let news = ctx.script_news(&hash(50), &history, 33, &mut update);
    assert!(news.entries.is_empty());
    assert!(!news.has_new_txs);
    assert!(update.is_empty());
    let subscription = ctx.state.script_subscriptions.get(&hash(50)).unwrap();
    assert_eq!(subscription.expected_tx_heights.get(&hash(1)), Some(&12));
    assert_eq!(subscription.last_status, None);

    ctx.expect_history(hash(50), &vec![], Some(Some(hash(80))));
    let subscription = ctx.state.script_subscriptions.get(&hash(50)).unwrap();
    assert!(subscription.expected_tx_heights.is_empty());
    assert_eq!(subscription.last_status, Some(hash(80)));
    // a status stays where there is no new one
    ctx.expect_history(hash(50), &history, None);
    let subscription = ctx.state.script_subscriptions.get(&hash(50)).unwrap();
    assert_eq!(subscription.last_status, Some(hash(80)));
}

#[test]
fn activity_asks_for_more_scripts() {
    let keychain = || String::from("external");
    let mut ctx = ctx_with(&[]);
    assert_eq!(ctx.extension_range(&hash(50), 20), Some((keychain(), 7, 10, 27)));
    assert_eq!(ctx.extension_range(&hash(51), 20), None);
    ctx.state.max_subscribed_indices = OrderedMap::new();
    assert_eq!(ctx.extension_range(&hash(50), 20), Some((keychain(), 7, 8, 27)));
    ctx.bump_last_active(keychain(), 7);
    assert_eq!(ctx.extension_range(&hash(50), 20), None);

    // indices near the end of their range are no exception
    let mut ctx = ctx_with(&[]);
    ctx.state.script_to_keychain_index.insert(hash(50), (keychain(), u32::MAX));
    ctx.state.max_subscribed_indices.insert(keychain(), u32::MAX);
    let range = Some((keychain(), u32::MAX, 4_294_967_296, 4_294_967_315));
    assert_eq!(ctx.extension_range(&hash(50), 20), range);
}

#[test]
fn news_are_followed_up() {
    let mut client = CachingClient::new(());
    let mut update = TxUpdate::new();
    update.evicted_ats.insert((hash(9), 33));
    let entries = vec![entry(hash(1), 0), entry(hash(2), 0), entry(hash(1), 0)];
    let mut run = ScanRun::follow_up(update, &entries, 33, 5, false);
    for txid in [hash(1), hash(2)] {
        assert!(matches!(run.ask(&client), RunAsk::Tx(id) if id == txid));
        run.step(&mut client, RunReply::Tx(txid, Ok(paying(u64::from(txid.bytes[0])))));
    }
    assert!(matches!(run.ask(&client), RunAsk::Done));
    let response = run.into_sync_response().unwrap().unwrap();
    assert_eq!(response.chain_update, None);
    let values: Vec<u64> = response.tx_update.txs.iter().map(|tx| tx.output[0].value).collect();
    assert_eq!(values, vec![1, 2, 1]);
    assert_eq!(response.tx_update.seen_ats.len(), 2);
    assert!(response.tx_update.evicted_ats.contains(&(hash(9), 33)));

    let mut run = ScanRun::follow_up(TxUpdate::new(), &vec![entry(hash(3), 4)], 33, 5, false);
    run.ask(&client);
    run.step(&mut client, RunReply::Tx(hash(3), Err(Error::Timeout)));
    assert_eq!(run.into_sync_response().unwrap().unwrap_err(), Error::Timeout);
}

#[test]
fn cached_entries_are_not_fetched() {
    let script = hash(50);
    let mut client = tracking(script, &[]);
    client.client.cache_tx(hash(2), paying(3));
    let mut run = ScriptUpdateRun::new(&client, script, 9, false);
    run.ask(&mut client);
    let history = vec![entry(hash(2), 0), entry(hash(3), -1)];
    run.step(&mut client, ScriptUpdateReply::History(Ok(history)));
    assert!(matches!(
        run.ask(&mut client),
        ScriptUpdateAsk::Entry(HistoryAsk::Tx(id)) if id == hash(3)
    ));
}
