use bdk_core::CheckPoint;
use tokio_electrum::bdk::checkpoint::{
    ScriptSyncCheckpoint, SyncCheckpoint, SyncCheckpointDelta,
};
use tokio_electrum::hash::{ElectrumScriptHash, Hash256, Txid};
use tokio_electrum::ordered::{Key, OrderedMap, Value};

fn tip(height: u32, byte: u8) -> CheckPoint {
    CheckPoint::new(bdk_core::BlockId {
        height,
        hash: bitcoin::hashes::Hash::from_byte_array([byte; 32]),
    })
}

fn txid(byte: u8) -> Txid {
    Hash256::from_byte_array([byte; 32])
}

fn script_hash(byte: u8) -> ElectrumScriptHash {
    let script = bitcoin::ScriptBuf::from_bytes(vec![byte]);
    let hash = electrum_streaming_client::ElectrumScriptHash::new(&script);
    Hash256::from_byte_array(bitcoin::hashes::Hash::to_byte_array(hash))
}

fn map<K: Key, V: Value>(entries: Vec<(K, V)>) -> OrderedMap<K, V> {
    let mut r = OrderedMap::new();
    for (key, value) in entries {
        r.insert(key, value);
    }
    r
}

#[test]
fn checkpoint_diff_apply_roundtrip() {
    let keychain_external = "external".to_string();
    let keychain_internal = "internal".to_string();
    let script_a = script_hash(0x11);
    let script_b = script_hash(0x12);
    let script_removed = script_hash(0x13);

    let previous = SyncCheckpoint {
        chain_tip: Some(tip(0, 0x01)),
        last_active_indices: map(vec![(keychain_external.clone(), 1_u32)]),
        max_subscribed_indices: map(vec![(keychain_external.clone(), 2_u32)]),
        scripts: map(vec![
            (
                script_a,
                ScriptSyncCheckpoint {
                    keychain: keychain_external.clone(),
                    index: 2,
                    last_status: None,
                    expected_tx_heights: map(vec![(txid(0x21), 10_i64)]),
                },
            ),
            (
                script_removed,
                ScriptSyncCheckpoint {
                    keychain: keychain_external.clone(),
                    index: 1,
                    last_status: None,
                    expected_tx_heights: OrderedMap::new(),
                },
            ),
        ]),
    };

    let current = SyncCheckpoint {
        chain_tip: Some(tip(1, 0x02)),
        last_active_indices: map(vec![
            (keychain_external.clone(), 3_u32),
            (keychain_internal.clone(), 0_u32),
        ]),
        max_subscribed_indices: map(vec![
            (keychain_external.clone(), 4_u32),
            (keychain_internal.clone(), 1_u32),
        ]),
        scripts: map(vec![
            (
                script_a,
                ScriptSyncCheckpoint {
                    keychain: keychain_external.clone(),
                    index: 4,
                    last_status: None,
                    expected_tx_heights: map(vec![(txid(0x21), 15_i64)]),
                },
            ),
            (
                script_b,
                ScriptSyncCheckpoint {
                    keychain: keychain_internal.clone(),
                    index: 1,
                    last_status: None,
                    expected_tx_heights: map(vec![(txid(0x22), -1_i64)]),
                },
            ),
        ]),
    };

    let delta = SyncCheckpoint::diff(&previous, &current);
    assert!(!delta.is_empty());
    assert_eq!(delta.script_removals, vec![script_removed]);
    assert_eq!(delta.script_upserts.len(), 2);
    assert_eq!(delta.last_active_upserts.len(), 2);

    let mut reconstructed = previous;
    reconstructed.apply_delta(delta);
    assert_eq!(reconstructed, current);
}

#[test]
fn checkpoint_diff_can_clear_chain_tip() {
    let previous = SyncCheckpoint::<String> {
        chain_tip: Some(tip(0, 0x03)),
        last_active_indices: OrderedMap::new(),
        max_subscribed_indices: OrderedMap::new(),
        scripts: OrderedMap::new(),
    };
    let current = SyncCheckpoint::<String> {
        chain_tip: None,
        last_active_indices: OrderedMap::new(),
        max_subscribed_indices: OrderedMap::new(),
        scripts: OrderedMap::new(),
    };

    let delta = SyncCheckpoint::diff(&previous, &current);
    assert_eq!(delta.chain_tip, Some(None));

    let mut reconstructed = previous;
    reconstructed.apply_delta(delta);
    assert_eq!(reconstructed, current);
}

#[test]
fn nothing_changed_makes_an_empty_delta() {
    assert!(SyncCheckpointDelta::<u32>::default().is_empty());
    let snapshot = |height: u32| SyncCheckpoint::<u32> {
        chain_tip: Some(tip(height, 9)),
        last_active_indices: map(vec![(0, 5)]),
        max_subscribed_indices: map(vec![(0, 25), (1, 20)]),
        scripts: OrderedMap::new(),
    };
    let delta = SyncCheckpoint::diff(&snapshot(4), &snapshot(4));
    assert!(delta.is_empty());
    let mut same = snapshot(4);
    same.apply_delta(delta);
    assert_eq!(same, snapshot(4));

    let delta = SyncCheckpoint::diff(&snapshot(4), &snapshot(5));
    assert_eq!(delta.chain_tip, Some(Some(tip(5, 9))));
    assert!(delta.last_active_upserts.is_empty());
    assert!(delta.max_subscribed_removals.is_empty());
}
