use std::collections::{BTreeMap, BTreeSet};

use bdk_core::CheckPoint;
use tokio_electrum::bdk::anchors::{AnchorAsk, AnchorEvent, AnchorFetch};
use tokio_electrum::bdk::client::BdkElectrumClient;
use tokio_electrum::bdk::live_scan::LiveScan;
use tokio_electrum::bdk::live_sync_engine::{LiveStreamState, StreamNext, SubscribeEvent};
use tokio_electrum::bdk::response::{FullScanResponse, SyncResponse};
use tokio_electrum::bdk::run::{RunAsk, RunReply, ScanRun};
use tokio_electrum::bdk::scan::SpkWithExpectedTxids;
use tokio_electrum::bdk::subscription::SubscriptionInit;
use tokio_electrum::chain::{BlockId, ConfirmationBlockTime, Header};
use tokio_electrum::electrum::error::Error;
use tokio_electrum::electrum::types::{TransactionMerkel, Tx};
use tokio_electrum::hash::{ElectrumScriptHash, Hash256, Txid};
use tokio_electrum::ordered::{Key, OrderedSet};
use tokio_electrum::tx::{OutPoint, Transaction, TxIn, TxOut};

fn hash(byte: u8) -> Hash256 {
    Hash256::from_byte_array([byte; 32])
}

fn bytes<H: bitcoin::hashes::Hash<Bytes = [u8; 32]>>(hash: H) -> Hash256 {
    Hash256::from_byte_array(hash.to_byte_array())
}

fn script_hash(script: &[u8]) -> ElectrumScriptHash {
    bytes(electrum_streaming_client::ElectrumScriptHash::new(
        bitcoin::Script::from_bytes(script),
    ))
}

fn outpoint(txid: Txid, vout: u32) -> OutPoint {
    OutPoint { txid, vout }
}

fn transaction(inputs: &[OutPoint], scripts: &[&[u8]], lock_time: u32) -> Transaction {
    Transaction {
        version: 2,
        lock_time,
        input: inputs
            .iter()
            .map(|op| TxIn {
                previous_output: *op,
                script_sig: vec![7],
                sequence: 0xffff_fffe,
                witness: vec![vec![1, 2]],
            })
            .collect(),
        output: scripts
            .iter()
            .map(|script| TxOut { value: 1000, script_pubkey: script.to_vec() })
            .collect(),
    }
}

fn txid(tx: &Transaction) -> Txid {
    let tx = bitcoin::Transaction {
        version: bitcoin::transaction::Version(tx.version),
        lock_time: bitcoin::absolute::LockTime::from_consensus(tx.lock_time),
        input: tx
            .input
            .iter()
            .map(|i| bitcoin::TxIn {
                previous_output: bitcoin::OutPoint {
                    txid: bitcoin::hashes::Hash::from_byte_array(i.previous_output.txid.bytes),
                    vout: i.previous_output.vout,
                },
                script_sig: i.script_sig.clone().into(),
                sequence: bitcoin::Sequence(i.sequence),
                witness: bitcoin::Witness::new(),
            })
            .collect(),
        output: tx
            .output
            .iter()
            .map(|o| bitcoin::TxOut {
                value: bitcoin::Amount::from_sat(o.value),
                script_pubkey: o.script_pubkey.clone().into(),
            })
            .collect(),
    };
    bytes(tx.compute_txid())
}

fn block_hash(header: &Header) -> Hash256 {
    let header = bitcoin::block::Header {
        version: bitcoin::block::Version::from_consensus(header.version),
        prev_blockhash: bitcoin::hashes::Hash::from_byte_array(header.prev_blockhash.bytes),
        merkle_root: bitcoin::hashes::Hash::from_byte_array(header.merkle_root.bytes),
        time: header.time,
        bits: bitcoin::CompactTarget::from_consensus(header.bits),
        nonce: header.nonce,
    };
    bytes(header.block_hash())
}

/// A server with a chain of blocks, each with one transaction.
struct Server {
    headers: Vec<Header>,
    txs: BTreeMap<[u8; 32], Transaction>,
    histories: BTreeMap<[u8; 32], Vec<Tx>>,
    broken: BTreeSet<[u8; 32]>,
    fails_batches: bool,
    log: Vec<String>,
}

impl Server {
    fn new(blocks: u32) -> Self {
        let mut headers: Vec<Header> = Vec::new();
        for height in 0..blocks {
            let prev_blockhash = match headers.last() {
                Some(header) => block_hash(header),
                None => hash(0),
            };
            headers.push(Header {
                version: 1,
                prev_blockhash,
                merkle_root: hash(height as u8),
                time: 1000 + height,
                bits: 0x207f_ffff,
                nonce: height,
            });
        }
        Server {
            headers,
            txs: BTreeMap::new(),
            histories: BTreeMap::new(),
            broken: BTreeSet::new(),
            fails_batches: false,
            log: Vec::new(),
        }
    }

    /// Puts a transaction into the history of the scripts, and into the block at a height.
    fn add(&mut self, tx: &Transaction, height: i64, scripts: &[&[u8]]) -> Txid {
        let id = txid(tx);
        self.txs.insert(id.bytes, tx.clone());
        for script in scripts {
            let history = self.histories.entry(script_hash(script).bytes).or_default();
            history.push(Tx { txid: id, height });
        }
        if height > 0 {
            self.headers[height as usize].merkle_root = id;
            for at in height as usize + 1..self.headers.len() {
                self.headers[at].prev_blockhash = block_hash(&self.headers[at - 1]);
            }
        }
        id
    }

    fn tip_at(&self, heights: &[u32]) -> CheckPoint {
        let block = |height: u32| bdk_core::BlockId {
            height,
            hash: bitcoin::hashes::Hash::from_byte_array(
                block_hash(&self.headers[height as usize]).bytes,
            ),
        };
        let mut tip = CheckPoint::new(block(heights[0]));
        for height in &heights[1..] {
            tip = tip.insert(block(*height));
        }
        tip
    }

    fn header(&self, height: u32) -> Result<Header, Error> {
        match self.headers.get(height as usize) {
            Some(header) => Ok(*header),
            None => Err(Error::Response(String::from("no such block"))),
        }
    }

    fn tx(&self, txid: Txid) -> Result<Transaction, Error> {
        if self.broken.contains(&txid.bytes) {
            return Err(Error::Timeout);
        }
        match self.txs.get(&txid.bytes) {
            Some(tx) => Ok(tx.clone()),
            None => Err(Error::Response(String::from("no such tx"))),
        }
    }

    fn merkle(&self, txid: Txid, height: u32) -> Result<TransactionMerkel, Error> {
        match self.headers.get(height as usize) {
            Some(header) if header.merkle_root == txid => Ok(TransactionMerkel {
                block_height: height,
                merkle: vec![],
                pos: 0,
            }),
            _ => Err(Error::Response(String::from("not in the block"))),
        }
    }

    fn anchors(&mut self, ask: AnchorAsk) -> AnchorEvent {
        match ask {
            AnchorAsk::Headers(heights) => {
                self.log.push(format!("headers {heights:?}"));
                if self.fails_batches {
                    return AnchorEvent::Headers(Err(Error::Timeout));
                }
                AnchorEvent::Headers(heights.iter().map(|h| self.header(*h)).collect())
            }
            AnchorAsk::Header(height) => {
                self.log.push(format!("header {height}"));
                AnchorEvent::Header(self.header(height))
            }
            AnchorAsk::Proofs(txs) => {
                self.log.push(format!("proofs {}", txs.len()));
                if self.fails_batches {
                    return AnchorEvent::Proofs(Err(Error::Timeout));
                }
                AnchorEvent::Proofs(Ok(txs.iter().map(|(t, h)| self.merkle(*t, *h).ok()).collect()))
            }
            AnchorAsk::Proof(txid, height) => {
                self.log.push(format!("proof {height}"));
                AnchorEvent::Proof(self.merkle(txid, height))
            }
            AnchorAsk::Done => unreachable!(),
        }
    }

    /// Answers what is asked; there is no answer once nothing more is needed.
    fn reply(
        &mut self,
        ask: RunAsk,
        spks: &mut Vec<Vec<(u32, SpkWithExpectedTxids)>>,
    ) -> Option<RunReply> {
        let reply = match ask {
            RunAsk::Tip => {
                self.log.push(String::from("tip"));
                RunReply::Tip(Ok(self.headers.len() as u32 - 1))
            }
            RunAsk::Headers { start_height, count } => {
                self.log.push(format!("headers {start_height}+{count}"));
                let end = (start_height + count).min(self.headers.len() as u32);
                let list = self.headers[start_height as usize..end as usize].to_vec();
                RunReply::Headers(Ok(list))
            }
            RunAsk::Header { height } => {
                self.log.push(format!("header {height}"));
                RunReply::Header(self.header(height))
            }
            RunAsk::Spks { keychain, count } => {
                let list = &mut spks[keychain];
                let rest = list.split_off(count.min(list.len()));
                RunReply::Spks(std::mem::replace(list, rest))
            }
            RunAsk::Histories(hashes) => {
                self.log.push(format!("histories {}", hashes.len()));
                let history = |h: &Hash256| self.histories.get(&h.bytes).cloned();
                RunReply::Histories(Ok(hashes
                    .iter()
                    .map(|h| history(h).unwrap_or_default())
                    .collect()))
            }
            RunAsk::Tx(txid) => {
                self.log.push(String::from("tx"));
                RunReply::Tx(txid, self.tx(txid))
            }
            RunAsk::Anchors(ask) => RunReply::Anchors(self.anchors(ask)),
            RunAsk::Done | RunAsk::Failed => return None,
        };
        Some(reply)
    }

    /// Answers a run until it needs nothing more.
    fn drive<K: Key>(
        &mut self,
        client: &mut BdkElectrumClient<()>,
        run: &mut ScanRun<K>,
        spks: &mut Vec<Vec<(u32, SpkWithExpectedTxids)>>,
    ) {
        for _ in 0..1000 {
            match self.reply(run.ask(client), spks) {
                Some(reply) => run.step(client, reply),
                None => return,
            }
        }
        panic!("the run does not end");
    }
}

fn spk(script: &[u8], expected: &[Txid]) -> SpkWithExpectedTxids {
    let mut expected_txids = OrderedSet::new();
    for txid in expected {
        expected_txids.insert(*txid);
    }
    SpkWithExpectedTxids { spk: script.to_vec(), expected_txids }
}

fn finish_sync(run: ScanRun<u32>) -> Result<SyncResponse, Error> {
    run.into_sync_response().expect("the run is at its end")
}

fn finish_scan(run: ScanRun<String>) -> Result<FullScanResponse<String>, Error> {
    run.into_full_scan_response().expect("the run is at its end")
}

#[test]
fn a_sync_finds_what_the_histories_hold() {
    let mut server = Server::new(12);
    let funding = transaction(&[outpoint(hash(200), 0)], &[b"one", b"two"], 1);
    let funding_id = server.add(&funding, 5, &[b"one", b"two"]);
    let spending = transaction(&[outpoint(funding_id, 1)], &[b"three"], 2);
    let spending_id = server.add(&spending, 0, &[b"two", b"three"]);
    let prev = transaction(&[], &[b"far away"], 3);
    let prev_id = txid(&prev);
    assert_ne!(prev_id, funding_id);
    let gone = hash(77);

    let mut client = BdkElectrumClient::new(());
    let mut run = ScanRun::sync(Some(server.tip_at(&[0, 3])), 42, vec![], vec![], 2, false);
    let mut spks = vec![vec![
        (0, spk(b"one", &[funding_id, gone])),
        (1, spk(b"two", &[])),
        (2, spk(b"none", &[])),
    ]];
    server.drive(&mut client, &mut run, &mut spks);
    let response = finish_sync(run).unwrap();

    let update = response.tx_update;
    let ids: Vec<Txid> = update.txs.iter().map(|tx| txid(tx)).collect();
    assert_eq!(ids, vec![funding_id, funding_id, spending_id]);
    assert!(update.txouts.is_empty());
    assert_eq!(update.seen_ats.len(), 1);
    assert!(update.seen_ats.contains(&(spending_id, 42)));
    assert_eq!(update.evicted_ats.len(), 1);
    assert!(update.evicted_ats.contains(&(gone, 42)));
    assert_eq!(update.anchors.len(), 1);
    let (anchor, anchored) = *update.anchors.at(0);
    assert_eq!(anchored, funding_id);
    assert_eq!(anchor.block_id.height, 5);
    assert_eq!(anchor.block_id.hash, block_hash(&server.headers[5]));
    assert_eq!(anchor.confirmation_time, 1005);

    // the known blocks up to the point of agreement, and the latest blocks
    let chain = response.chain_update.unwrap();
    let heights: Vec<u32> = chain.iter().map(|c| c.height()).collect();
    assert_eq!(heights, vec![11, 10, 9, 8, 7, 6, 5, 4, 3, 0]);

    assert_eq!(
        server.log,
        [
            "tip",
            "headers 4+8",
            "header 3",
            "histories 2",
            "tx",
            "tx",
            "histories 1",
            "headers [5]",
            "proofs 2",
        ]
    );

    // what was fetched once is not fetched again
    server.log.clear();
    let mut run = ScanRun::sync(None, 43, vec![], vec![], 10, false);
    let mut spks = vec![vec![(0, spk(b"two", &[]))]];
    server.drive(&mut client, &mut run, &mut spks);
    let response = finish_sync(run).unwrap();
    assert_eq!(response.tx_update.anchors.len(), 1);
    assert_eq!(response.chain_update, None);
    assert_eq!(server.log, ["histories 1"]);
}

#[test]
fn a_sync_looks_for_transactions_and_outpoints() {
    let mut server = Server::new(10);
    let source = transaction(&[outpoint(hash(9), 3)], &[b"source"], 1);
    let source_id = server.add(&source, 2, &[b"source"]);
    let funding = transaction(&[outpoint(source_id, 0)], &[b"a", b"b"], 2);
    let funding_id = server.add(&funding, 6, &[b"source", b"a", b"b"]);
    let unrelated = transaction(&[outpoint(hash(8), 0)], &[b"b"], 3);
    server.add(&unrelated, 0, &[b"b"]);
    let spending = transaction(&[outpoint(funding_id, 1)], &[b"c"], 4);
    let spending_id = server.add(&spending, -1, &[b"b", b"c"]);

    let mut client = BdkElectrumClient::new(());
    let missing = outpoint(hash(66), 0);
    let outpoints = vec![missing, outpoint(funding_id, 1), outpoint(funding_id, 9)];
    let mut run = ScanRun::sync(None, 50, vec![source_id], outpoints, 5, true);
    // the source of the source cannot be had
    server.broken.insert(hash(9).bytes);
    let mut spks = vec![vec![]];
    server.drive(&mut client, &mut run, &mut spks);
    assert_eq!(finish_sync(run).unwrap_err(), Error::Timeout);

    // once it can, the sync goes through
    server.broken.clear();
    let outer = transaction(&[], &[b"0", b"1", b"2", b"outer"], 9);
    server.txs.insert(hash(9).bytes, outer.clone());
    server.log.clear();
    let mut run = ScanRun::sync(
        None,
        51,
        vec![source_id],
        vec![missing, outpoint(funding_id, 1), outpoint(funding_id, 9)],
        5,
        true,
    );
    server.drive(&mut client, &mut run, &mut vec![vec![]]);
    let update = finish_sync(run).unwrap().tx_update;
    let ids: Vec<Txid> = update.txs.iter().map(|tx| txid(tx)).collect();
    assert_eq!(ids, vec![source_id, funding_id, spending_id]);
    assert!(update.seen_ats.contains(&(spending_id, 51)));
    assert_eq!(update.seen_ats.len(), 1);
    assert_eq!(update.anchors.len(), 2);
    assert_eq!(update.txouts.len(), 3);
    assert_eq!(
        update.txouts.get(&outpoint(hash(9), 3)).unwrap().script_pubkey,
        b"outer".to_vec()
    );
    assert_eq!(
        update.txouts.get(&outpoint(funding_id, 1)).unwrap().script_pubkey,
        b"b".to_vec()
    );
    assert_eq!(
        server.log,
        ["histories 1", "tx", "histories 1", "tx", "headers [2, 6]", "proofs 2"]
    );
}

#[test]
fn a_full_scan_stops_after_the_gap() {
    let mut server = Server::new(9);
    let tx = transaction(&[outpoint(hash(1), 0)], &[b"e3"], 1);
    server.add(&tx, 4, &[b"e3"]);
    let beyond = transaction(&[outpoint(hash(2), 0)], &[b"e7"], 2);
    server.add(&beyond, 5, &[b"e7"]);
    let inner = transaction(&[outpoint(hash(3), 0)], &[b"i0"], 3);
    server.add(&inner, 0, &[b"i0"]);
    let scripts = |prefix: &str, n: u32| {
        (0..n)
            .map(|i| (i, spk(format!("{prefix}{i}").as_bytes(), &[])))
            .collect::<Vec<_>>()
    };

    let scan = |server: &mut Server, batch_size: usize| {
        let mut client = BdkElectrumClient::new(());
        let keychains = vec![String::from("external"), String::from("internal"), String::from("x")];
        let mut run = ScanRun::full_scan(None, 7, keychains, 3, batch_size, false);
        // the fourth script from the gap on is never asked about
        let mut spks = vec![scripts("e", 50), scripts("i", 2), scripts("x", 5)];
        server.drive(&mut client, &mut run, &mut spks);
        finish_scan(run).unwrap()
    };
    // without history are e0, e1, e2: the gap of three ends the scan
    let response = scan(&mut server, 4);
    assert!(response.last_active_indices.get(&String::from("external")).is_none());
    assert_eq!(response.last_active_indices.get(&String::from("internal")), Some(&0));
    assert_eq!(response.last_active_indices.len(), 1);

    let early = transaction(&[outpoint(hash(4), 0)], &[b"e1"], 4);
    server.add(&early, 0, &[b"e1"]);
    let mut updates = Vec::new();
    for batch_size in [1, 2, 3, 7, 100] {
        let response = scan(&mut server, batch_size);
        assert_eq!(response.last_active_indices.get(&String::from("external")), Some(&3));
        assert_eq!(response.tx_update.txs.len(), 3);
        assert_eq!(response.tx_update.anchors.len(), 1);
        updates.push(response.tx_update);
    }
    // it makes no difference how the scripts are divided into batches
    for update in &updates {
        assert_eq!(*update, updates[0]);
    }
}

#[test]
fn anchors_are_fetched_one_by_one_where_a_batch_fails() {
    let mut server = Server::new(9);
    server.fails_batches = true;
    let mut spks = vec![vec![]];
    for i in 0..3u8 {
        let script = [b's', i];
        let tx = transaction(&[outpoint(hash(i), 0)], &[&script], 1);
        server.add(&tx, i as i64 + 2, &[&script]);
        spks[0].push((i as u32, spk(&script, &[])));
    }
    // the server does not know where this one is
    let lost = transaction(&[outpoint(hash(99), 0)], &[b"lost"], 1);
    let lost_id = server.add(&lost, 6, &[b"lost"]);
    server.headers[6].merkle_root = hash(1);
    spks[0].push((3, spk(b"lost", &[])));

    let mut client = BdkElectrumClient::new(());
    let mut run = ScanRun::sync(None, 1, vec![], vec![], 3, false);
    server.drive(&mut client, &mut run, &mut spks);
    let update = finish_sync(run).unwrap().tx_update;
    assert_eq!(update.txs.len(), 4);
    assert_eq!(update.anchors.len(), 3);
    let mut at = 0;
    while at < update.anchors.len() {
        assert_ne!(update.anchors.at(at).1, lost_id);
        at += 1;
    }
    assert_eq!(
        server.log[server.log.len() - 12..],
        [
            "headers [2, 3, 4]",
            "header 2",
            "header 3",
            "header 4",
            "headers [6]",
            "header 6",
            "proofs 3",
            "proof 2",
            "proof 3",
            "proof 4",
            "proofs 1",
            "proof 6",
        ]
    );
}

#[test]
fn a_stale_header_is_fetched_again() {
    let mut server = Server::new(6);
    let tx = transaction(&[outpoint(hash(1), 0)], &[b"s"], 1);
    let id = server.add(&tx, 3, &[b"s"]);
    let mut client = BdkElectrumClient::new(());
    let stale = Header { merkle_root: hash(55), ..server.headers[3] };
    client.cache_header(3, stale);
    let mut run = ScanRun::sync(None, 1, vec![], vec![], 5, false);
    server.drive(&mut client, &mut run, &mut vec![vec![(0, spk(b"s", &[]))]]);
    let update = finish_sync(run).unwrap().tx_update;
    assert_eq!(update.anchors.len(), 1);
    assert_eq!(update.anchors.at(0).0.block_id.hash, block_hash(&server.headers[3]));
    assert_eq!(server.log, ["histories 1", "tx", "proofs 1", "header 3"]);
    assert_eq!(client.cached_header(3), Some(server.headers[3]));
    assert_eq!(
        client.cached_anchor(id, block_hash(&server.headers[3])).map(|a| a.confirmation_time),
        Some(1003)
    );
}

#[test]
fn failures_end_a_run() {
    let mut client = BdkElectrumClient::new(());
    let server = Server::new(3);
    let failed = || Error::Response(String::from("refused"));
    let tip = || Some(server.tip_at(&[0]));

    let mut run = ScanRun::sync(tip(), 1, vec![], vec![], 5, false);
    assert!(matches!(run.ask(&client), RunAsk::Tip));
    run.step(&mut client, RunReply::Tip(Err(failed())));
    assert!(matches!(run.ask(&client), RunAsk::Failed));
    // whatever comes after that
    run.step(&mut client, RunReply::Tip(Ok(2)));
    assert!(matches!(run.ask(&client), RunAsk::Failed));
    assert_eq!(finish_sync(run).unwrap_err(), failed());

    let mut run = ScanRun::sync(tip(), 1, vec![], vec![], 5, false);
    run.step(&mut client, RunReply::Tip(Ok(2)));
    assert!(matches!(run.ask(&client), RunAsk::Headers { start_height: 0, count: 8 }));
    run.step(&mut client, RunReply::Headers(Err(failed())));
    assert_eq!(finish_sync(run).unwrap_err(), failed());

    let mut run = ScanRun::sync(None, 1, vec![], vec![], 5, false);
    assert!(matches!(run.ask(&client), RunAsk::Spks { keychain: 0, count: 5 }));
    run.step(&mut client, RunReply::Spks(vec![(0, spk(b"a", &[]))]));
    assert!(matches!(run.ask(&client), RunAsk::Histories(_)));
    run.step(&mut client, RunReply::Histories(Err(failed())));
    assert_eq!(finish_sync(run).unwrap_err(), failed());

    let mut run = ScanRun::sync(None, 1, vec![hash(1)], vec![], 5, false);
    assert!(matches!(run.ask(&client), RunAsk::Spks { .. }));
    // an answer that is not waited for changes nothing
    run.step(&mut client, RunReply::Header(Ok(server.headers[0])));
    run.step(&mut client, RunReply::Spks(vec![]));
    assert!(matches!(run.ask(&client), RunAsk::Tx(id) if id == hash(1)));
    run.step(&mut client, RunReply::Tx(hash(1), Err(failed())));
    assert_eq!(finish_sync(run).unwrap_err(), failed());

    let run = ScanRun::sync(None, 1, vec![], vec![], 5, false);
    assert_eq!(run.into_sync_response(), None);
}

#[test]
fn a_reorg_replaces_the_latest_blocks() {
    let server = Server::new(10);
    let mut other = Server::new(10);
    for at in 7..10 {
        other.headers[at].time += 500;
        other.headers[at].prev_blockhash = block_hash(&other.headers[at - 1]);
    }
    let mut client = BdkElectrumClient::new(());
    let tip = server.tip_at(&[0, 1, 6, 7, 8, 9]);
    let mut run = ScanRun::sync(Some(tip), 1, vec![], vec![], 5, false);
    other.drive(&mut client, &mut run, &mut vec![vec![]]);
    let chain = finish_sync(run).unwrap().chain_update.unwrap();
    assert_eq!(chain.iter().map(|c| c.height()).collect::<Vec<_>>(), [9, 8, 7, 6, 1, 0]);
    assert_eq!(bytes(chain.get(9).unwrap().hash()), block_hash(&other.headers[9]));
    assert_eq!(bytes(chain.get(6).unwrap().hash()), block_hash(&server.headers[6]));
    assert_eq!(other.log, ["tip", "headers 2+8"]);

    // a server that is behind changes nothing
    let mut behind = Server::new(5);
    let mut run = ScanRun::sync(Some(server.tip_at(&[0, 9])), 1, vec![], vec![], 5, false);
    behind.drive(&mut client, &mut run, &mut vec![vec![]]);
    let chain = finish_sync(run).unwrap().chain_update.unwrap();
    assert_eq!(chain.iter().map(|c| c.height()).collect::<Vec<_>>(), [9, 0]);
    assert_eq!(behind.log, ["tip"]);
}

#[test]
fn a_retried_header_is_kept_under_the_height_it_was_asked_for() {
    let mut server = Server::new(9);
    let first = transaction(&[outpoint(hash(1), 0)], &[b"one"], 1);
    let first_id = server.add(&first, 3, &[b"one"]);
    let second = transaction(&[outpoint(hash(2), 0)], &[b"two"], 2);
    let second_id = server.add(&second, 5, &[b"two"]);
    let header = server.headers[5];

    let mut client = BdkElectrumClient::new(());
    let mut fetch = AnchorFetch::new(&client, vec![(first_id, 3), (second_id, 5)], 2);
    assert!(matches!(fetch.ask(), AnchorAsk::Headers(heights) if heights == vec![3, 5]));
    fetch.step(&mut client, AnchorEvent::Headers(Err(Error::Timeout)));
    assert!(matches!(fetch.ask(), AnchorAsk::Header(3)));
    fetch.step(&mut client, AnchorEvent::Header(Err(Error::Timeout)));
    assert!(matches!(fetch.ask(), AnchorAsk::Header(5)));
    fetch.step(&mut client, AnchorEvent::Header(Ok(header)));
    assert_eq!(client.cached_header(3), None);
    assert_eq!(client.cached_header(5), Some(header));

    // without its header the other one is left out
    assert!(matches!(fetch.ask(), AnchorAsk::Proofs(txs) if txs == vec![(second_id, 5)]));
    let proofs = vec![server.merkle(second_id, 5).ok()];
    fetch.step(&mut client, AnchorEvent::Proofs(Ok(proofs)));
    assert!(matches!(fetch.ask(), AnchorAsk::Done));
    assert_eq!(client.cached_header(3), None);
    assert_eq!(
        fetch.into_results(),
        vec![(
            second_id,
            ConfirmationBlockTime {
                confirmation_time: header.time as u64,
                block_id: BlockId { height: 5, hash: block_hash(&header) },
            }
        )]
    );
}

#[test]
fn anchors_are_for_transactions_that_were_asked_for() {
    let mut server = Server::new(9);
    let tx = transaction(&[outpoint(hash(1), 0)], &[b"one"], 1);
    let id = server.add(&tx, 4, &[b"one"]);
    let mut client = BdkElectrumClient::new(());
    // a server that answers with more headers and proofs than it was asked for
    let mut fetch = AnchorFetch::new(&client, vec![(id, 4)], 5);
    fetch.step(&mut client, AnchorEvent::Headers(Ok(vec![server.headers[4], server.headers[5]])));
    let proof = || server.merkle(id, 4).ok();
    fetch.step(&mut client, AnchorEvent::Proofs(Ok(vec![proof(), proof(), proof()])));
    assert!(matches!(fetch.ask(), AnchorAsk::Done));
    let results = fetch.into_results();
    assert_eq!(results.len(), 1);
    assert_eq!(results[0].0, id);
    assert_eq!(client.cached_header(5), None);
}

#[test]
fn anchors_that_are_returned_are_in_the_cache() {
    let mut server = Server::new(9);
    let one = server.add(&transaction(&[outpoint(hash(1), 0)], &[b"one"], 1), 4, &[b"one"]);
    let two = server.add(&transaction(&[outpoint(hash(2), 0)], &[b"two"], 2), 6, &[b"two"]);
    let lost = hash(99);

    // one of them is in the cache before
    let known = ConfirmationBlockTime {
        block_id: BlockId { height: 4, hash: block_hash(&server.headers[4]) },
        confirmation_time: 1004,
    };
    let mut client = BdkElectrumClient::new(());
    client.populate_anchor_cache(&vec![(one, vec![known])]);
    assert_eq!(client.cached_anchor(one, known.block_id.hash), Some(known));

    let fetch_all = |client: &mut BdkElectrumClient<()>, server: &mut Server| {
        let txs = vec![(two, 6), (one, 4), (two, 6), (lost, 4)];
        let mut fetch = AnchorFetch::new(client, txs, 2);
        while fetch.ask() != AnchorAsk::Done {
            let event = server.anchors(fetch.ask());
            fetch.step(client, event);
        }
        fetch.into_results()
    };
    let results = fetch_all(&mut client, &mut server);
    let ids: Vec<Txid> = results.iter().map(|(id, _)| *id).collect();
    assert_eq!(ids, vec![one, two, two]);
    for (id, anchor) in &results {
        assert_eq!(client.cached_anchor(*id, anchor.block_id.hash), Some(*anchor));
    }
    assert_eq!(server.log, ["headers [4, 6]", "proofs 2", "proofs 1"]);

    // and need not be proven again
    server.log.clear();
    assert_eq!(fetch_all(&mut client, &mut server).len(), 3);
    assert_eq!(server.log, ["proofs 1"]);
}

#[test]
fn a_transaction_at_two_heights_of_one_block_is_cached_once() {
    let mut server = Server::new(9);
    let id = server.add(&transaction(&[outpoint(hash(1), 0)], &[b"one"], 1), 4, &[b"one"]);
    let header = server.headers[4];
    let mut client = BdkElectrumClient::new(());
    let mut fetch = AnchorFetch::new(&client, vec![(id, 4), (id, 5)], 2);
    fetch.step(&mut client, AnchorEvent::Headers(Ok(vec![header, header])));
    let proof = || server.merkle(id, 4).ok();
    fetch.step(&mut client, AnchorEvent::Proofs(Ok(vec![proof(), proof()])));
    let results = fetch.into_results();
    assert_eq!(results.len(), 2);
    // the later one is in the place of both
    let cached = client.cached_anchor(id, block_hash(&header)).unwrap();
    assert_eq!(cached, results[1].1);
    assert_eq!(cached.block_id.height, 5);
    assert_ne!(cached, results[0].1);
}

fn live_scan(
    server: &mut Server,
    batch_size: usize,
) -> (FullScanResponse<String>, SubscriptionInit<String>) {
    let mut client = BdkElectrumClient::new(());
    let keychains = vec![String::from("external"), String::from("internal")];
    let scripts = |prefix: &str, n: u32| {
        (0..n)
            .map(|i| (i, spk(format!("{prefix}{i}").as_bytes(), &[])))
            .collect::<Vec<_>>()
    };
    let mut spks = vec![scripts("e", 90), scripts("i", 2)];
    let mut scan = LiveScan::new(None, 7, keychains, 20, batch_size, false);
    while let Some(reply) = server.reply(scan.ask(&client), &mut spks) {
        scan.step(&mut client, reply);
    }
    scan.finish().expect("the scan is at its end").unwrap()
}

#[test]
fn a_live_scan_follows_every_script_up_to_the_edge_of_the_gap() {
    let mut server = Server::new(9);
    let early = server.add(&transaction(&[], &[b"e0"], 1), 2, &[b"e0"]);
    let late = server.add(&transaction(&[], &[b"e20"], 2), 0, &[b"e20"]);
    let external = || String::from("external");

    for batch_size in [1, 7, 20, 100] {
        let (response, init) = live_scan(&mut server, batch_size);
        assert_eq!(response.last_active_indices.get(&external()), Some(&20));
        assert_eq!(response.last_active_indices.len(), 1);
        assert_eq!(response.tx_update.txs.len(), 2);

        // 0 to 40 of one keychain, and both scripts of the other
        assert_eq!(init.subscribed_scripts.len(), 43);
        assert_eq!(init.script_to_keychain_index.len(), 43);
        assert_eq!(init.script_subscriptions.len(), 43);
        assert!(init.subscribed_scripts.contains(&script_hash(b"e40")));
        assert!(!init.subscribed_scripts.contains(&script_hash(b"e41")));
        assert_eq!(
            init.script_to_keychain_index.get(&script_hash(b"e40")),
            Some(&(external(), 40))
        );
        assert_eq!(
            init.script_to_keychain_index.get(&script_hash(b"i1")),
            Some(&(String::from("internal"), 1))
        );
        assert_eq!(init.max_subscribed_indices.get(&external()), Some(&40));
        assert_eq!(init.max_subscribed_indices.get(&String::from("internal")), Some(&1));
        let expected = |script: &[u8]| {
            &init.script_subscriptions.get(&script_hash(script)).unwrap().expected_tx_heights
        };
        assert_eq!(expected(b"e0").get(&early), Some(&2));
        assert_eq!(expected(b"e20").get(&late), Some(&0));
        assert!(expected(b"e40").is_empty());
    }
}

#[test]
fn a_stream_begins_with_the_scan() {
    let mut server = Server::new(9);
    server.add(&transaction(&[], &[b"e3"], 1), 2, &[b"e3"]);
    let (response, _) = live_scan(&mut server, 10);
    let (same, _) = live_scan(&mut server, 10);

    let mut state = LiveStreamState::new(true, response);
    assert_eq!(state.poll(), StreamNext::Emit(SubscribeEvent::Initial(same)));
    assert_eq!(state.poll(), StreamNext::Collect);
    assert_eq!(state.poll(), StreamNext::Collect);
}

#[test]
fn a_live_scan_that_fails_leaves_nothing_behind() {
    let mut client = BdkElectrumClient::new(());
    let mut scan = LiveScan::new(None, 7, vec![String::from("external")], 20, 5, false);
    assert!(matches!(scan.ask(&client), RunAsk::Spks { keychain: 0, count: 5 }));
    scan.step(&mut client, RunReply::Spks(vec![(0, spk(b"e0", &[]))]));
    scan.step(&mut client, RunReply::Histories(Err(Error::Timeout)));
    assert!(matches!(scan.ask(&client), RunAsk::Failed));
    assert_eq!(scan.finish(), Some(Err(Error::Timeout)));

    let scan = LiveScan::new(None, 7, vec![String::from("external")], 20, 5, false);
    assert_eq!(scan.finish(), None);
}

#[test]
fn repeated_disconnect_recovery_with_large_wallet_does_not_miss_confirmed_tx() {
    let mut server = Server::new(103);
    let script = |index: u32| format!("external {index}").into_bytes();
    let spks = || {
        let scripts = (0..320).map(|i| (i, spk(&script(i), &[])));
        vec![scripts.collect::<Vec<_>>()]
    };
    let tracked_index = 280_u32;

    // activity here and there, so that the scan reaches high indices
    for index in (0..=tracked_index).step_by(15) {
        let mut tx = transaction(&[outpoint(hash(1), index)], &[&script(index)], index);
        tx.output[0].value = 10_000 + index as u64;
        server.add(&tx, 0, &[&script(index)]);
    }

    let start = |server: &mut Server| {
        let mut client = BdkElectrumClient::new(());
        let mut spks = spks();
        let external = vec![String::from("external")];
        let mut scan = LiveScan::new(None, 0, external, 20, 20, false);
        while let Some(reply) = server.reply(scan.ask(&client), &mut spks) {
            scan.step(&mut client, reply);
        }
        let (response, _) = scan.finish().expect("the scan is at its end").unwrap();
        LiveStreamState::new(true, response)
    };

    // streams that are interrupted again and again
    for attempt in 0..3_u8 {
        let mut state = start(&mut server);
        assert!(
            matches!(state.poll(), StreamNext::Emit(SubscribeEvent::Initial(_))),
            "attempt {attempt}: first event must be initial"
        );
        assert_eq!(state.poll(), StreamNext::Collect);
        assert!(
            matches!(
                state.take_batch(Ok(None), true),
                StreamNext::Emit(SubscribeEvent::Disconnected)
            ),
            "attempt {attempt}: stream should be interrupted after forced disconnect"
        );
        assert_eq!(state.poll(), StreamNext::End);
    }

    let mut tx = transaction(&[outpoint(hash(2), 0)], &[&script(tracked_index)], 0);
    tx.output[0].value = 44_000;
    let id = server.add(&tx, 102, &[&script(tracked_index)]);

    let mut state = start(&mut server);
    match state.poll() {
        StreamNext::Emit(SubscribeEvent::Initial(initial)) => {
            assert!(
                initial.tx_update.txs.iter().any(|tx| txid(tx) == id),
                "final recovery scan must include transaction received while offline"
            );
            let anchors = &initial.tx_update.anchors;
            assert!(
                (0..anchors.len()).any(|i| anchors.at(i).1 == id),
                "final recovery scan must include confirmation anchor for offline tx"
            );
        }
        other => panic!("expected initial event, got: {:?}", other),
    }
}
