use std::sync::Arc;

use tokio_electrum::bdk::bdk_electrum_client::{
    handle_script_hash_notification, incremental_scripts,
    scripts_before_extension, BdkElectrumClient, ScriptAction, ScriptSubscription, StreamAction,
    SubscriptionCtx, SubscriptionStream,
};
use tokio_electrum::bdk::client::{BdkElectrumClient as CachingClient, TxFetch};
use tokio_electrum::bdk::history::{HistoryAsk, HistoryEvent, HistoryRun};
use tokio_electrum::bdk::lookup::{build_reverse_lookup_map, is_beyond_gap};
use tokio_electrum::bdk::response::FullScanResponse;
use tokio_electrum::bdk::scan::SpkWithExpectedTxids;
use tokio_electrum::bdk::subscribing_scan::{ScanAsk, ScanReply, SubscribingScan};
use tokio_electrum::chain::{BlockId, ConfirmationBlockTime, Header};
use tokio_electrum::electrum::error::Error;
use tokio_electrum::electrum::notification::ElectrumNotification;
use tokio_electrum::electrum::status::ElectrumConnectionStatus;
use tokio_electrum::electrum::types::{TransactionMerkel, Tx};
use tokio_electrum::hash::{Hash256, Txid};
use tokio_electrum::ordered::{OrderedMap, OrderedSet};
use tokio_electrum::tx::{OutPoint, Transaction, TxIn, TxOut, TxUpdate};

fn hash(byte: u8) -> Hash256 {
    Hash256::from_byte_array([byte; 32])
}

fn script_hash(script: &[u8]) -> Hash256 {
    let hash = electrum_streaming_client::ElectrumScriptHash::new(bitcoin::Script::from_bytes(
        script,
    ));
    Hash256::from_byte_array(bitcoin::hashes::Hash::to_byte_array(hash))
}

fn header(root: Hash256, time: u32) -> Header {
    Header { version: 1, prev_blockhash: hash(0), merkle_root: root, time, bits: 0, nonce: 0 }
}

fn proof_at(block_height: u32) -> TransactionMerkel {
    TransactionMerkel { block_height, merkle: vec![], pos: 0 }
}

fn tx(lock_time: u32) -> Transaction {
    Transaction { version: 2, lock_time, input: vec![], output: vec![] }
}

fn spender(outpoint: OutPoint) -> Transaction {
    Transaction {
        version: 2,
        lock_time: 0,
        input: vec![TxIn {
            previous_output: outpoint,
            script_sig: vec![],
            sequence: 0,
            witness: vec![],
        }],
        output: vec![TxOut { value: 5, script_pubkey: vec![1] }],
    }
}

fn entry(txid: Txid, height: i64) -> Tx {
    Tx { txid, height }
}

fn txid_set(txids: &[Txid]) -> OrderedSet<Txid> {
    let mut r = OrderedSet::new();
    for txid in txids {
        r.insert(*txid);
    }
    r
}

fn spk(script: &[u8]) -> SpkWithExpectedTxids {
    SpkWithExpectedTxids { spk: script.to_vec(), expected_txids: OrderedSet::new() }
}

#[test]
fn history_entries_are_followed_up() {
    let mut client = CachingClient::new(());
    let entries = vec![entry(hash(1), 0), entry(hash(2), 10), entry(hash(3), 11), entry(hash(4), 12)];
    let mut run = HistoryRun::new(&client, entries, 77);
    assert_eq!(matches!(run.ask(), HistoryAsk::Tx(id) if id == hash(1)), true);
    run.step(&mut client, HistoryEvent::Tx(Ok(tx(1))));
    assert!(matches!(run.ask(), HistoryAsk::Tx(id) if id == hash(2)));
    // an answer to something else changes nothing
    run.step(&mut client, HistoryEvent::Merkle(Ok(proof_at(9))));
    assert!(matches!(run.ask(), HistoryAsk::Tx(id) if id == hash(2)));
    run.step(&mut client, HistoryEvent::Tx(Ok(tx(2))));
    assert!(matches!(run.ask(), HistoryAsk::Merkle(id, 10) if id == hash(2)));
    run.step(&mut client, HistoryEvent::Merkle(Ok(proof_at(10))));
    assert!(matches!(run.ask(), HistoryAsk::Header(10)));
    // the header does not fit at first
    run.step(&mut client, HistoryEvent::Header(Ok(header(hash(99), 1))));
    assert!(matches!(run.ask(), HistoryAsk::Header(10)));
    run.step(&mut client, HistoryEvent::Header(Ok(header(hash(2), 1010))));
    assert_eq!(client.cached_header(10), Some(header(hash(2), 1010)));

    // a proof that cannot be had anchors nothing
    run.step(&mut client, HistoryEvent::Tx(Ok(tx(3))));
    assert!(matches!(run.ask(), HistoryAsk::Merkle(id, 11) if id == hash(3)));
    run.step(&mut client, HistoryEvent::Merkle(Err(Error::Timeout)));
    // and neither does a proof that fits no header
    run.step(&mut client, HistoryEvent::Tx(Ok(tx(4))));
    run.step(&mut client, HistoryEvent::Merkle(Ok(proof_at(10))));
    assert!(matches!(run.ask(), HistoryAsk::Header(10)));
    run.step(&mut client, HistoryEvent::Header(Ok(header(hash(98), 2))));
    assert!(matches!(run.ask(), HistoryAsk::Done));

    let update = run.into_update().unwrap();
    assert_eq!(update.txs.len(), 4);
    assert_eq!(update.seen_ats.len(), 1);
    assert!(update.seen_ats.contains(&(hash(1), 77)));
    assert_eq!(update.anchors.len(), 1);
    let (anchor, txid) = *update.anchors.at(0);
    assert_eq!((txid, anchor.block_id.height, anchor.confirmation_time), (hash(2), 10, 1010));
}

#[test]
fn a_transaction_that_cannot_be_had_ends_it() {
    let mut client = CachingClient::new(());
    let mut run = HistoryRun::new(&client, vec![entry(hash(1), 5)], 0);
    run.step(&mut client, HistoryEvent::Tx(Err(Error::Timeout)));
    assert!(matches!(run.ask(), HistoryAsk::Failed));
    assert_eq!(run.into_update().unwrap_err(), Error::Timeout);

    let mut run = HistoryRun::new(&client, vec![entry(hash(1), 5)], 0);
    run.step(&mut client, HistoryEvent::Tx(Ok(tx(1))));
    run.step(&mut client, HistoryEvent::Merkle(Ok(proof_at(5))));
    run.step(&mut client, HistoryEvent::Header(Err(Error::Disconnected)));
    assert_eq!(run.into_update().unwrap_err(), Error::Disconnected);
}

#[test]
fn a_scan_subscribes_to_what_has_a_history() {
    let mut client: BdkElectrumClient<()> = BdkElectrumClient::new(());
    let funding = OutPoint { txid: hash(40), vout: 0 };
    let keychains = vec![String::from("k")];
    let mut scan = SubscribingScan::new(None, 5, keychains, 2, 3, true, true);
    assert!(matches!(scan.ask(&mut client), ScanAsk::Spks { keychain: 0, count: 3 }));
    let batch = vec![(0, spk(b"a")), (1, spk(b"b")), (2, spk(b"c"))];
    scan.step(&mut client, ScanReply::Spks(batch));
    match scan.ask(&mut client) {
        ScanAsk::Histories(hashes) => {
            assert_eq!(hashes, vec![script_hash(b"a"), script_hash(b"b"), script_hash(b"c")])
        }
        _ => panic!("histories are needed"),
    }
    let histories = vec![vec![entry(hash(1), 3)], vec![], vec![]];
    scan.step(&mut client, ScanReply::Histories(Ok(histories)));
    assert!(matches!(scan.ask(&mut client), ScanAsk::History(HistoryAsk::Tx(_))));
    scan.step(&mut client, ScanReply::History(HistoryEvent::Tx(Ok(spender(funding)))));
    assert!(matches!(scan.ask(&mut client), ScanAsk::History(HistoryAsk::Merkle(_, 3))));
    scan.step(&mut client, ScanReply::History(HistoryEvent::Merkle(Ok(proof_at(3)))));
    assert!(matches!(scan.ask(&mut client), ScanAsk::History(HistoryAsk::Header(3))));
    assert!(!client.tracks_script(&script_hash(b"a")));
    let block = header(hash(1), 1003);
    scan.step(&mut client, ScanReply::History(HistoryEvent::Header(Ok(block))));
    match scan.ask(&mut client) {
        ScanAsk::Subscribe(hashes) => assert_eq!(hashes, vec![script_hash(b"a")]),
        _ => panic!("a subscription is needed"),
    }
    assert!(client.tracks_script(&script_hash(b"a")));
    assert!(!client.tracks_script(&script_hash(b"b")));
    // the gap of two is complete: nothing more is scanned
    scan.step(&mut client, ScanReply::Subscribed);
    assert!(matches!(scan.ask(&mut client), ScanAsk::Tx(id) if id == hash(40)));
    let prev = Transaction { output: vec![TxOut { value: 9, script_pubkey: vec![8] }], ..tx(0) };
    scan.step(&mut client, ScanReply::Tx(hash(40), Ok(prev)));
    assert!(matches!(scan.ask(&mut client), ScanAsk::Done));

    let (response, subscribed) = scan.into_response().unwrap().unwrap();
    assert_eq!(subscribed.len(), 1);
    assert!(subscribed.contains(&script_hash(b"a")));
    assert_eq!(response.last_active_indices.get(&String::from("k")), Some(&0));
    assert_eq!(response.tx_update.txs.len(), 1);
    assert_eq!(response.tx_update.anchors.len(), 1);
    assert_eq!(response.tx_update.txouts.get(&funding).unwrap().value, 9);
    assert_eq!(response.chain_update, None);
}

#[test]
fn a_scan_that_does_not_subscribe_tracks_nothing() {
    let mut client: BdkElectrumClient<()> = BdkElectrumClient::new(());
    let mut scan = SubscribingScan::new(None, 5, vec![0u32, 1], 9, 3, false, false);
    scan.step(&mut client, ScanReply::Spks(vec![(0, spk(b"a"))]));
    scan.step(&mut client, ScanReply::Histories(Ok(vec![vec![entry(hash(1), 0)]])));
    assert!(matches!(scan.ask(&mut client), ScanAsk::History(HistoryAsk::Tx(_))));
    scan.step(&mut client, ScanReply::History(HistoryEvent::Tx(Ok(tx(1)))));
    assert!(matches!(scan.ask(&mut client), ScanAsk::Spks { keychain: 0, .. }));
    scan.step(&mut client, ScanReply::Spks(vec![]));
    assert!(matches!(scan.ask(&mut client), ScanAsk::Spks { keychain: 1, .. }));
    scan.step(&mut client, ScanReply::Spks(vec![]));
    assert!(matches!(scan.ask(&mut client), ScanAsk::Done));
    assert!(!client.tracks_script(&script_hash(b"a")));
    let (response, subscribed) = scan.into_response().unwrap().unwrap();
    assert!(subscribed.is_empty());
    assert!(response.tx_update.seen_ats.contains(&(hash(1), 5)));

    let mut scan = SubscribingScan::new(None, 5, vec![0u32], 9, 3, false, true);
    scan.step(&mut client, ScanReply::Spks(vec![(0, spk(b"a"))]));
    scan.step(&mut client, ScanReply::Histories(Err(Error::Timeout)));
    assert!(matches!(scan.ask(&mut client), ScanAsk::Failed));
    assert_eq!(scan.into_response().unwrap().unwrap_err(), Error::Timeout);
    let scan = SubscribingScan::new(None, 5, vec![0u32], 9, 3, false, true);
    assert!(scan.into_response().is_none());
}

#[test]
fn each_change_of_a_history_is_reported_once() {
    let mut client: BdkElectrumClient<()> = BdkElectrumClient::new(());
    let script = hash(50);
    assert!(client.process_script_hash_update(&script, &vec![entry(hash(1), 1)], 9).is_none());
    let mut subscribed = OrderedSet::new();
    let known = ScriptSubscription::new(txid_set(&[hash(1), hash(2)]));
    let asked = client.subscribe_scripts(&vec![(script, known)], &mut subscribed);
    assert_eq!(asked, vec![script]);
    assert!(subscribed.contains(&script));

    let same = vec![entry(hash(2), 1), entry(hash(1), 1)];
    assert!(client.process_script_hash_update(&script, &same, 9).is_none());
    let history = vec![entry(hash(2), 1), entry(hash(3), 0)];
    let update = client.process_script_hash_update(&script, &history, 9).unwrap();
    assert_eq!(update.entries, vec![entry(hash(3), 0)]);
    assert!(update.tx_update.evicted_ats.contains(&(hash(1), 9)));
    assert_eq!(update.tx_update.evicted_ats.len(), 1);
    let response =
        client.finish_script_hash_update(script, update.current_txids, update.tx_update);
    assert_eq!(response.chain_update, None);
    assert!(client.process_script_hash_update(&script, &history, 10).is_none());
}

fn response(last_active: &[(&str, u32)]) -> FullScanResponse<String> {
    let mut last_active_indices = OrderedMap::new();
    for (keychain, index) in last_active {
        last_active_indices.insert(keychain.to_string(), *index);
    }
    FullScanResponse { tx_update: TxUpdate::new(), chain_update: None, last_active_indices }
}

#[test]
fn scripts_are_subscribed_as_they_come_into_use() {
    let external = || String::from("external");
    let response = response(&[("external", 1)]);
    let scripts: Vec<(u32, Vec<u8>)> = (0..50u8).map(|i| (i as u32, vec![i])).collect();
    let places = build_reverse_lookup_map(&vec![(external(), scripts)], &response, 3);
    // up to a bit beyond the last active index and the gap
    assert_eq!(places.len(), 6);
    let mut subscribed = OrderedSet::new();
    for index in 0..6u8 {
        subscribed.insert(script_hash(&[index]));
    }
    let mut ctx = SubscriptionCtx::new(subscribed, places, &response);
    assert_eq!(ctx.keychain_index(&script_hash(&[4])), Some((external(), 4)));

    assert_eq!(handle_script_hash_notification(&ctx, &hash(9)), ScriptAction::Ignore);
    assert_eq!(
        handle_script_hash_notification(&ctx, &script_hash(&[1])),
        ScriptAction::Process
    );
    assert_eq!(
        handle_script_hash_notification(&ctx, &script_hash(&[4])),
        ScriptAction::ExtendAndProcess { keychain: external(), index: 4 }
    );
    assert_eq!(scripts_before_extension(4), 5);
    assert_eq!(scripts_before_extension(u32::MAX), 4294967296);

    let mut client: BdkElectrumClient<()> = BdkElectrumClient::new(());
    let scripts = incremental_scripts(&vec![(6, vec![6]), (7, vec![7])]);
    assert_eq!(scripts, vec![(script_hash(&[6]), 6), (script_hash(&[7]), 7)]);
    client.subscribe_incremental(&mut ctx, external(), 4, &scripts);
    assert!(ctx.has_script(&script_hash(&[7])));
    assert!(client.tracks_script(&script_hash(&[6])));
    assert_eq!(ctx.last_active_indices.get(&external()), Some(&4));
    assert_eq!(ctx.needs_extension(&script_hash(&[4])), None);
    assert_eq!(ctx.needs_extension(&script_hash(&[7])), Some((external(), 7)));

    client.subscribe_incremental(&mut ctx, external(), 7, &vec![]);
    assert_eq!(ctx.last_active_indices.get(&external()), Some(&4));
}

#[test]
fn the_lookup_map_ends_beyond_the_gap() {
    let response = response(&[("external", 2)]);
    let external = || String::from("external");
    let internal = || String::from("internal");
    assert!(!is_beyond_gap(&external(), 5, &response, 3));
    assert!(is_beyond_gap(&external(), 6, &response, 3));
    assert!(!is_beyond_gap(&internal(), u32::MAX, &response, 3));
    // no index lies beyond a gap that is greater than all of them
    assert!(!is_beyond_gap(&external(), u32::MAX, &response, usize::MAX));
    assert!(!is_beyond_gap(&external(), u32::MAX, &response, 1 << 32));
    assert!(is_beyond_gap(&external(), u32::MAX, &response, u32::MAX as usize - 3));
    assert!(!is_beyond_gap(&external(), u32::MAX, &response, u32::MAX as usize - 2));
    assert!(!is_beyond_gap(&external(), 1, &response, 0));

    let scripts = |first: u8, indices: &[u32]| {
        indices.iter().zip(first..).map(|(i, byte)| (*i, vec![byte])).collect::<Vec<_>>()
    };
    let places = build_reverse_lookup_map(
        &vec![
            // the first index beyond 5 is 9
            (external(), scripts(0, &[0, 1, 4, 5, 9, 10])),
            // without a last active index there is no end
            (internal(), scripts(100, &[0, 900, 1000000])),
        ],
        &response,
        3,
    );
    assert_eq!(places.len(), 8);
    assert_eq!(places.get(&script_hash(&[4])), Some(&(external(), 9)));
    assert_eq!(places.get(&script_hash(&[5])), None);
    assert_eq!(places.get(&script_hash(&[100])), Some(&(internal(), 0)));
    assert_eq!(places.get(&script_hash(&[102])), Some(&(internal(), 1000000)));

    // a script that comes up twice has its last place
    let twice = vec![(external(), scripts(7, &[1])), (internal(), scripts(7, &[2]))];
    let places = build_reverse_lookup_map(&twice, &response, 3);
    assert_eq!(places.len(), 1);
    assert_eq!(places.get(&script_hash(&[7])), Some(&(internal(), 2)));
}

#[test]
fn a_stream_ends_with_the_connection() {
    let mut stream = SubscriptionStream::new();
    let script = ElectrumNotification::ScriptHash { hash: hash(1), status: None };
    assert_eq!(stream.take_notification(Ok(script)), StreamAction::Script(hash(1)));
    let block = header(hash(2), 3);
    let new_block = ElectrumNotification::BlockHeader { height: 4, header: block };
    assert_eq!(
        stream.take_notification(Ok(new_block)),
        StreamAction::Header { height: 4, header: block }
    );
    assert_eq!(stream.take_notification(Err(12)), StreamAction::Lagged(12));
    let status = |s| Ok(ElectrumNotification::ConnectionStatusChanged(s));
    let up = status(ElectrumConnectionStatus::Connected);
    assert_eq!(stream.take_notification(up), StreamAction::Ignore);
    assert!(!stream.ended);
    let down = status(ElectrumConnectionStatus::Disconnected);
    assert_eq!(stream.take_notification(down), StreamAction::Ignore);
    assert!(stream.ended);
    let shutdown = Ok(ElectrumNotification::Shutdown);
    assert_eq!(stream.take_notification(shutdown), StreamAction::Ignore);
    assert!(stream.ended);
}

#[test]
fn what_is_in_the_caches_is_not_fetched() {
    let mut client = CachingClient::new("server");
    assert_eq!(*client.deref(), "server");
    assert_eq!(client.fetch_tx(hash(1), None), TxFetch::Request);
    assert_eq!(
        client.fetch_tx(hash(1), Some(Err(Error::Timeout))),
        TxFetch::Failed(Error::Timeout)
    );
    assert_eq!(client.fetch_tx(hash(1), Some(Ok(tx(4)))), TxFetch::Found(Arc::new(tx(4))));
    assert_eq!(client.fetch_tx(hash(1), None), TxFetch::Found(Arc::new(tx(4))));

    client.populate_tx_cache(&vec![Arc::new(tx(7))]);
    let real = bitcoin::Transaction {
        version: bitcoin::transaction::Version(2),
        lock_time: bitcoin::absolute::LockTime::from_consensus(7),
        input: vec![],
        output: vec![],
    };
    let id = Hash256::from_byte_array(bitcoin::hashes::Hash::to_byte_array(real.compute_txid()));
    assert_eq!(client.cached_tx(&id), Some(Arc::new(tx(7))));

    let anchor = ConfirmationBlockTime {
        block_id: BlockId { height: 2, hash: hash(22) },
        confirmation_time: 3,
    };
    client.populate_anchor_cache(&vec![(hash(1), vec![anchor])]);
    assert_eq!(client.cached_anchor(hash(1), hash(22)), Some(anchor));
    assert_eq!(client.cached_anchor(hash(1), hash(23)), None);
    assert_eq!(client.first_missing(&vec![hash(1), hash(5), hash(6)]), Some(hash(5)));
}
