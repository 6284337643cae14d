use bdk_core::CheckPoint;
use tokio_electrum::bdk::bdk_electrum_client::{
    BdkElectrumClient, ScriptSubscription, StreamAction, SubscriptionCtx,
};
use tokio_electrum::bdk::history::{HistoryAsk, HistoryEvent};
use tokio_electrum::bdk::script_update::{ScriptUpdateAsk, ScriptUpdateReply};
use tokio_electrum::bdk::stream_run::{ItemAsk, ItemReply, ItemRun, StreamSettings};
use tokio_electrum::chain::Header;
use tokio_electrum::electrum::error::Error;
use tokio_electrum::electrum::types::Tx;
use tokio_electrum::hash::{ElectrumScriptHash, Hash256};
use tokio_electrum::ordered::{OrderedMap, OrderedSet};
use tokio_electrum::tx::Transaction;

const SETTINGS: StreamSettings =
    StreamSettings { start_time: 9, fetch_prev_txouts: false, stop_gap: 3 };

fn hash(byte: u8) -> Hash256 {
    Hash256::from_byte_array([byte; 32])
}

fn script_hash(script: &[u8]) -> ElectrumScriptHash {
    let hash = electrum_streaming_client::ElectrumScriptHash::new(bitcoin::Script::from_bytes(
        script,
    ));
    Hash256::from_byte_array(bitcoin::hashes::Hash::to_byte_array(hash))
}

fn header(nonce: u32) -> Header {
    Header {
        version: 1,
        prev_blockhash: hash(0),
        merkle_root: hash(0),
        time: 7,
        bits: 0,
        nonce,
    }
}

fn genesis() -> CheckPoint {
    CheckPoint::new(bdk_core::BlockId {
        height: 0,
        hash: bitcoin::hashes::Hash::from_byte_array([9; 32]),
    })
}

/// A wallet with two scripts at the indices 2 and 6 of a keychain that is used up to index 4.
fn wallet(chain_tip: Option<CheckPoint>) -> (SubscriptionCtx<u32>, BdkElectrumClient<()>) {
    let mut subscribed_scripts = OrderedSet::new();
    let mut client = BdkElectrumClient::new(());
    let scripts = vec![
        (hash(2), ScriptSubscription::new(OrderedSet::new())),
        (hash(6), ScriptSubscription::new(OrderedSet::new())),
    ];
    client.subscribe_scripts(&scripts, &mut subscribed_scripts);
    let mut script_to_keychain_index = OrderedMap::new();
    script_to_keychain_index.insert(hash(2), (0, 2));
    script_to_keychain_index.insert(hash(6), (0, 6));
    let mut last_active_indices = OrderedMap::new();
    last_active_indices.insert(0, 4);
    let ctx = SubscriptionCtx {
        subscribed_scripts,
        script_to_keychain_index,
        last_active_indices,
        chain_tip,
    };
    (ctx, client)
}

fn with_history(history: Vec<Tx>) -> ItemReply {
    ItemReply::Update(ScriptUpdateReply::History(Ok(history)))
}

#[test]
fn a_script_that_comes_into_use_is_extended_and_looked_at() {
    let (mut ctx, mut client) = wallet(None);
    let mut run = ItemRun::new(SETTINGS, &mut ctx, &client, StreamAction::Script(hash(6)));
    assert!(matches!(
        run.ask(&mut client),
        ItemAsk::Spks { keychain: 0, before: 7, count: 3 }
    ));
    run.step(&mut ctx, &mut client, ItemReply::Spks(vec![(7, vec![70]), (8, vec![80])]));
    match run.ask(&mut client) {
        ItemAsk::Subscribe(hashes) => {
            assert_eq!(hashes, vec![script_hash(&[70]), script_hash(&[80])])
        }
        _ => panic!("a subscription is needed"),
    }
    assert!(!client.tracks_script(&script_hash(&[70])));
    run.step(&mut ctx, &mut client, ItemReply::Subscribed(Ok(())));
    assert!(client.tracks_script(&script_hash(&[70])));
    assert!(ctx.has_script(&script_hash(&[80])));
    assert_eq!(ctx.last_active_indices.get(&0), Some(&6));

    assert!(matches!(
        run.ask(&mut client),
        ItemAsk::Update(ScriptUpdateAsk::History(h)) if h == hash(6)
    ));
    run.step(&mut ctx, &mut client, with_history(vec![Tx { txid: hash(40), height: 0 }]));
    assert!(matches!(
        run.ask(&mut client),
        ItemAsk::Update(ScriptUpdateAsk::Entry(HistoryAsk::Tx(id))) if id == hash(40)
    ));
    let tx = Transaction { version: 2, lock_time: 0, input: vec![], output: vec![] };
    let found = ScriptUpdateReply::Entry(HistoryEvent::Tx(Ok(tx)));
    run.step(&mut ctx, &mut client, ItemReply::Update(found));
    assert!(matches!(run.ask(&mut client), ItemAsk::Done));
    let response = run.into_item().unwrap().unwrap().unwrap();
    assert_eq!(response.tx_update.txs.len(), 1);
    assert!(response.tx_update.seen_ats.contains(&(hash(40), 9)));
    assert_eq!(response.chain_update, None);
}

#[test]
fn a_script_is_looked_at_even_if_the_extension_fails() {
    let (mut ctx, mut client) = wallet(None);
    let mut run = ItemRun::new(SETTINGS, &mut ctx, &client, StreamAction::Script(hash(6)));
    run.step(&mut ctx, &mut client, ItemReply::Spks(vec![(7, vec![70])]));
    run.step(&mut ctx, &mut client, ItemReply::Subscribed(Err(Error::Timeout)));
    assert!(!client.tracks_script(&script_hash(&[70])));
    assert_eq!(ctx.last_active_indices.get(&0), Some(&4));
    assert!(matches!(run.ask(&mut client), ItemAsk::Update(ScriptUpdateAsk::History(_))));
    assert!(run.into_item().is_none());

    // a keychain without more scripts goes on at once; a history that is expected is no news
    let mut run = ItemRun::new(SETTINGS, &mut ctx, &client, StreamAction::Script(hash(6)));
    run.step(&mut ctx, &mut client, ItemReply::Spks(vec![]));
    assert!(matches!(run.ask(&mut client), ItemAsk::Update(ScriptUpdateAsk::History(_))));
    run.step(&mut ctx, &mut client, with_history(vec![]));
    assert!(matches!(run.ask(&mut client), ItemAsk::Done));
    assert_eq!(run.into_item(), Some(None));
}

#[test]
fn other_notifications_lead_to_less() {
    let (mut ctx, mut client) = wallet(Some(genesis()));
    // a script that is not the wallet's, and one that was in use already
    let mut run = ItemRun::new(SETTINGS, &mut ctx, &client, StreamAction::Script(hash(3)));
    assert!(matches!(run.ask(&mut client), ItemAsk::Done));
    assert_eq!(run.into_item(), Some(None));
    let mut run = ItemRun::new(SETTINGS, &mut ctx, &client, StreamAction::Script(hash(2)));
    assert!(matches!(run.ask(&mut client), ItemAsk::Update(ScriptUpdateAsk::History(_))));
    let failed = ScriptUpdateReply::History(Err(Error::Disconnected));
    run.step(&mut ctx, &mut client, ItemReply::Update(failed));
    assert!(matches!(run.ask(&mut client), ItemAsk::Done));
    assert_eq!(run.into_item(), Some(Some(Err(Error::Disconnected))));
    for action in [StreamAction::Ignore, StreamAction::Lagged(4)] {
        let run = ItemRun::new(SETTINGS, &mut ctx, &client, action);
        assert_eq!(run.into_item(), Some(None));
    }

    // a new block is a new tip, but not in place of the first one
    let new_block = StreamAction::Header { height: 5, header: header(5) };
    let mut run = ItemRun::new(SETTINGS, &mut ctx, &client, new_block);
    assert!(matches!(run.ask(&mut client), ItemAsk::Done));
    let response = run.into_item().unwrap().unwrap().unwrap();
    assert!(response.tx_update.is_empty());
    assert_eq!(response.chain_update.unwrap().height(), 5);
    assert_eq!(ctx.chain_tip.as_ref().unwrap().height(), 5);
    let first_block = StreamAction::Header { height: 0, header: header(6) };
    let mut run = ItemRun::new(SETTINGS, &mut ctx, &client, first_block);
    assert!(matches!(run.ask(&mut client), ItemAsk::Refused));
    assert!(run.into_item().is_none());
    assert_eq!(ctx.chain_tip.as_ref().unwrap().height(), 5);

    // without a chain there is no tip
    let (mut ctx, client) = wallet(None);
    let new_block = StreamAction::Header { height: 5, header: header(5) };
    let run = ItemRun::new(SETTINGS, &mut ctx, &client, new_block);
    assert_eq!(run.into_item(), Some(None));
}
