//! What the scans of the keychains of a wallet add up to.
use vstd::prelude::*;

use crate::bdk::activity::{heights_of, history_heights};
use crate::bdk::subscription::{ScriptSubscription, ScriptSubscriptionView, SubscriptionInit};
use crate::electrum::types::Tx;
use crate::hash::ElectrumScriptHash;
use crate::ordered::{Key, OrderedMap, OrderedSet, Value};

verus! {

/// What the scan of the scripts of a keychain left behind.
#[derive(Debug, PartialEq)]
pub struct SpkScanResult {
    /// Index of the last script with a history.
    pub last_active_index: Option<u32>,
    /// The scripts that were subscribed.
    pub subscribed_hashes: OrderedSet<ElectrumScriptHash>,
    /// What is expected of each of them.
    pub subscribed_script_subscriptions: OrderedMap<ElectrumScriptHash, ScriptSubscription>,
    /// The index of each of them.
    pub subscribed_script_to_index: OrderedMap<ElectrumScriptHash, u32>,
    /// The greatest index of them.
    pub max_subscribed_index: Option<u32>,
}

/// What the scan of the scripts of a keychain left behind, as contracts speak of it.
pub struct SpkScanView {
    /// Index of the last script with a history.
    pub last_active_index: Option<u32>,
    /// The scripts that were subscribed.
    pub hashes: Set<ElectrumScriptHash>,
    /// What is expected of each of them.
    pub subscriptions: Map<ElectrumScriptHash, ScriptSubscriptionView>,
    /// The index of each of them.
    pub indices: Map<ElectrumScriptHash, u32>,
    /// The greatest index of them.
    pub max_index: Option<u32>,
}

impl View for SpkScanResult {
    type V = SpkScanView;

    open spec fn view(&self) -> SpkScanView {
        SpkScanView {
            last_active_index: self.last_active_index,
            hashes: self.subscribed_hashes@,
            subscriptions: self.subscribed_script_subscriptions@,
            indices: self.subscribed_script_to_index@,
            max_index: self.max_subscribed_index,
        }
    }
}

/// The scan of a keychain that has not begun.
pub open spec fn empty_scan() -> SpkScanView {
    SpkScanView {
        last_active_index: None,
        hashes: Set::empty(),
        subscriptions: Map::empty(),
        indices: Map::empty(),
        max_index: None,
    }
}

/// The greater one of an index and another, if there is another.
pub open spec fn greater_index(index: u32, other: Option<u32>) -> u32 {
    match other {
        Some(other) if other > index => other,
        _ => index,
    }
}

/// The scan of a keychain with another script, of which its history is expected.
pub open spec fn with_script(
    scan: SpkScanView,
    hash: ElectrumScriptHash,
    index: u32,
    history: Seq<Tx>,
) -> SpkScanView {
    SpkScanView {
        last_active_index: scan.last_active_index,
        hashes: scan.hashes.insert(hash),
        subscriptions: scan.subscriptions.insert(
            hash,
            ScriptSubscriptionView {
                expected_tx_heights: heights_of(history),
                last_status: None,
            },
        ),
        indices: scan.indices.insert(hash, index),
        max_index: Some(greater_index(index, scan.max_index)),
    }
}

impl SpkScanResult {
    /// Nothing was scanned yet.
    pub fn new() -> (r: Self)
        ensures
            r@ == empty_scan(),
    {
        SpkScanResult {
            last_active_index: None,
            subscribed_hashes: OrderedSet::new(),
            subscribed_script_subscriptions: OrderedMap::new(),
            subscribed_script_to_index: OrderedMap::new(),
            max_subscribed_index: None,
        }
    }

    /// Takes note of a script that is subscribed, of which its history is expected.
    pub fn track(&mut self, hash: ElectrumScriptHash, index: u32, history: &Vec<Tx>)
        ensures
            final(self)@ == with_script(old(self)@, hash, index, history@),
    {
        self.subscribed_hashes.insert(hash);
        self.subscribed_script_subscriptions.insert(
            hash,
            ScriptSubscription::new(history_heights(history)),
        );
        self.subscribed_script_to_index.insert(hash, index);
        self.max_subscribed_index = Some(
            match self.max_subscribed_index {
                Some(other) if other > index => other,
                _ => index,
            },
        );
    }
}

/// What the scans of the keychains of a wallet add up to.
#[derive(Debug, PartialEq)]
pub struct FullScanAccumulator<K: Key> {
    last_active_indices: OrderedMap<K, u32>,
    subscribed_scripts: OrderedSet<ElectrumScriptHash>,
    script_subscriptions: OrderedMap<ElectrumScriptHash, ScriptSubscription>,
    script_to_keychain_index: OrderedMap<ElectrumScriptHash, (K, u32)>,
    max_subscribed_indices: OrderedMap<K, u32>,
}

/// What the scans add up to, as contracts speak of it.
#[verifier::reject_recursive_types(KV)]
pub struct AccumulatorView<KV> {
    /// Index of the last script with a history, per keychain.
    pub last_active_indices: Map<KV, u32>,
    /// The scripts that were subscribed.
    pub subscribed_scripts: Set<ElectrumScriptHash>,
    /// What is expected of each of them.
    pub script_subscriptions: Map<ElectrumScriptHash, ScriptSubscriptionView>,
    /// The keychain and index of each of them.
    pub script_to_keychain_index: Map<ElectrumScriptHash, (KV, u32)>,
    /// The greatest index of them, per keychain.
    pub max_subscribed_indices: Map<KV, u32>,
}

impl<K: Key> View for FullScanAccumulator<K> {
    type V = AccumulatorView<K::V>;

    closed spec fn view(&self) -> AccumulatorView<K::V> {
        AccumulatorView {
            last_active_indices: self.last_active_indices@,
            subscribed_scripts: self.subscribed_scripts@,
            script_subscriptions: self.script_subscriptions@,
            script_to_keychain_index: self.script_to_keychain_index@,
            max_subscribed_indices: self.max_subscribed_indices@,
        }
    }
}

/// A map in which an index is put down for a keychain, if there is one.
pub open spec fn with_index<KV>(
    indices: Map<KV, u32>,
    keychain: KV,
    index: Option<u32>,
) -> Map<KV, u32> {
    match index {
        Some(index) => indices.insert(keychain, index),
        None => indices,
    }
}

/// The indices of the scripts of a keychain, with the keychain.
pub open spec fn placed<KV>(
    indices: Map<ElectrumScriptHash, u32>,
    keychain: KV,
) -> Map<ElectrumScriptHash, (KV, u32)> {
    indices.map_values(|index: u32| (keychain, index))
}

/// What the scans add up to with the scan of another keychain.
pub open spec fn accumulated<KV>(
    total: AccumulatorView<KV>,
    keychain: KV,
    scan: SpkScanView,
) -> AccumulatorView<KV> {
    AccumulatorView {
        last_active_indices: with_index(
            total.last_active_indices,
            keychain,
            scan.last_active_index,
        ),
        subscribed_scripts: total.subscribed_scripts.union(scan.hashes),
        script_subscriptions: total.script_subscriptions.union_prefer_right(
            scan.subscriptions,
        ),
        script_to_keychain_index: total.script_to_keychain_index.union_prefer_right(
            placed(scan.indices, keychain),
        ),
        max_subscribed_indices: with_index(
            total.max_subscribed_indices,
            keychain,
            scan.max_index,
        ),
    }
}

/// What no scans add up to.
pub open spec fn empty_accumulator<KV>() -> AccumulatorView<KV> {
    AccumulatorView {
        last_active_indices: Map::empty(),
        subscribed_scripts: Set::empty(),
        script_subscriptions: Map::empty(),
        script_to_keychain_index: Map::empty(),
        max_subscribed_indices: Map::empty(),
    }
}

impl<K: Key> FullScanAccumulator<K> {
    /// Nothing was scanned yet.
    pub fn new() -> (r: Self)
        ensures
            r@ == empty_accumulator::<K::V>(),
    {
        FullScanAccumulator {
            last_active_indices: OrderedMap::new(),
            subscribed_scripts: OrderedSet::new(),
            script_subscriptions: OrderedMap::new(),
            script_to_keychain_index: OrderedMap::new(),
            max_subscribed_indices: OrderedMap::new(),
        }
    }

    /// Takes in the scan of a keychain.
    pub fn absorb_keychain_scan(&mut self, keychain: K, spk_scan: SpkScanResult)
        ensures
            final(self)@ == accumulated(old(self)@, keychain@, spk_scan@),
    {
        if let Some(last_active_index) = spk_scan.last_active_index {
            self.last_active_indices.insert(keychain.replica(), last_active_index);
        }
        self.subscribed_scripts.absorb(&spk_scan.subscribed_hashes);
        self.script_subscriptions.absorb(&spk_scan.subscribed_script_subscriptions);
        let indices = &spk_scan.subscribed_script_to_index;
        let n = indices.len();
        let ghost pairs = indices.pairs();
        let ghost before = self@.script_to_keychain_index;
        let ghost places = placed(indices@, keychain@);
        let mut i: usize = 0;
        while i < n
            invariant
                i <= n,
                n == indices.pairs().len(),
                pairs == indices.pairs(),
                places == placed(indices@, keychain@),
                forall|j: int|
                    0 <= j < pairs.len() ==> indices@.contains_key((#[trigger] pairs[j]).0)
                        && indices@[pairs[j].0] == pairs[j].1,
                self.last_active_indices@ == with_index(
                    old(self)@.last_active_indices,
                    keychain@,
                    spk_scan.last_active_index,
                ),
                self.subscribed_scripts@ == old(self)@.subscribed_scripts.union(
                    spk_scan.subscribed_hashes@,
                ),
                self.script_subscriptions@ == old(self)@.script_subscriptions.union_prefer_right(
                    spk_scan.subscribed_script_subscriptions@,
                ),
                self.max_subscribed_indices@ == old(self)@.max_subscribed_indices,
                forall|hash: ElectrumScriptHash|
                    #![trigger self.script_to_keychain_index@.contains_key(hash)]
                    self.script_to_keychain_index@.contains_key(hash) <==> before.contains_key(hash)
                        || exists|j: int| 0 <= j < i && (#[trigger] pairs[j]).0 == hash,
                forall|hash: ElectrumScriptHash|
                    #![trigger self.script_to_keychain_index@[hash]]
                    self.script_to_keychain_index@.contains_key(hash)
                        ==> self.script_to_keychain_index@[hash] == (if exists|j: int|
                        0 <= j < i && (#[trigger] pairs[j]).0 == hash {
                        places[hash]
                    } else {
                        before[hash]
                    }),
            decreases n - i,
        {
            let hash = *indices.key_at(i);
            let index = *indices.value_at(i);
            let ghost held = self.script_to_keychain_index@;
            proof {
                assert(pairs[i as int] == (hash, index));
            }
            self.script_to_keychain_index.insert(hash, (keychain.replica(), index));
            proof {
                assert forall|h: ElectrumScriptHash|
                    #![trigger self.script_to_keychain_index@.contains_key(h)]
                    self.script_to_keychain_index@.contains_key(h) <==> before.contains_key(h)
                        || exists|j: int| 0 <= j < i + 1 && (#[trigger] pairs[j]).0 == h by {
                    if exists|j: int| 0 <= j < i && (#[trigger] pairs[j]).0 == h {
                        let j = choose|j: int| 0 <= j < i && (#[trigger] pairs[j]).0 == h;
                        assert(pairs[j].0 == h);
                    }
                    if exists|j: int| 0 <= j < i + 1 && (#[trigger] pairs[j]).0 == h {
                        let j = choose|j: int| 0 <= j < i + 1 && (#[trigger] pairs[j]).0 == h;
                        if j < i {
                            assert(pairs[j].0 == h);
                        }
                    }
                }
                assert forall|h: ElectrumScriptHash|
                    #![trigger self.script_to_keychain_index@[h]]
                    self.script_to_keychain_index@.contains_key(
                        h,
                    ) implies self.script_to_keychain_index@[h] == (if exists|j: int|
                    0 <= j < i + 1 && (#[trigger] pairs[j]).0 == h {
                    places[h]
                } else {
                    before[h]
                }) by {
                    if h != hash {
                        assert(held.contains_key(h));
                        assert(held[h] == self.script_to_keychain_index@[h]);
                        if exists|j: int| 0 <= j < i + 1 && (#[trigger] pairs[j]).0 == h {
                            let j = choose|j: int| 0 <= j < i + 1 && (#[trigger] pairs[j]).0 == h;
                            assert(j < i);
                        }
                    } else {
                        assert(pairs[i as int].0 == h);
                    }
                }
            }
            i = i + 1;
        }
        proof {
            let expected = before.union_prefer_right(places);
            assert forall|h: ElectrumScriptHash|
                places.contains_key(h) == (exists|j: int|
                    0 <= j < n && (#[trigger] pairs[j]).0 == h) by {
                if places.contains_key(h) {
                    assert(indices@.contains_key(h));
                    let j = choose|j: int|
                        0 <= j < indices.pairs().len() && (#[trigger] indices.pairs()[j]).0 == h;
                    assert(pairs[j].0 == h);
                }
                if exists|j: int| 0 <= j < n && (#[trigger] pairs[j]).0 == h {
                    let j = choose|j: int| 0 <= j < n && (#[trigger] pairs[j]).0 == h;
                    assert(indices@.contains_key(pairs[j].0));
                }
            }
            assert(self.script_to_keychain_index@ =~= expected);
        }
        if let Some(max_subscribed_index) = spk_scan.max_subscribed_index {
            self.max_subscribed_indices.insert(keychain, max_subscribed_index);
        }
    }

    /// What the scans left behind: the last active index of each keychain, and what following the
    /// scripts begins with.
    pub fn into_subscription_init(self) -> (r: (OrderedMap<K, u32>, SubscriptionInit<K>))
        ensures
            r.0@ == self@.last_active_indices,
            r.1.subscribed_scripts@ == self@.subscribed_scripts,
            r.1.script_subscriptions@ == self@.script_subscriptions,
            r.1.script_to_keychain_index@ == self@.script_to_keychain_index,
            r.1.max_subscribed_indices@ == self@.max_subscribed_indices,
    {
        (
            self.last_active_indices,
            SubscriptionInit {
                subscribed_scripts: self.subscribed_scripts,
                script_subscriptions: self.script_subscriptions,
                script_to_keychain_index: self.script_to_keychain_index,
                max_subscribed_indices: self.max_subscribed_indices,
            },
        )
    }
}

/// A script that is tracked is known with its index and with the heights of its history, and the greatest
/// index is noted; what is known of other scripts stays.
pub proof fn a_tracked_script_is_known(
    scan: SpkScanView,
    hash: ElectrumScriptHash,
    index: u32,
    history: Seq<Tx>,
    other: ElectrumScriptHash,
)
    ensures
        ({
            let after = with_script(scan, hash, index, history);
            &&& after.hashes.contains(hash)
            &&& after.indices.get(hash) == Some(index)
            &&& after.subscriptions.contains_key(hash)
            &&& after.subscriptions[hash].expected_tx_heights == heights_of(history)
            &&& after.subscriptions[hash].last_status is None
            &&& other != hash ==> (after.hashes.contains(other) <==> scan.hashes.contains(other))
            &&& other != hash ==> after.indices.get(other) == scan.indices.get(other)
            &&& other != hash ==> after.subscriptions.get(other) == scan.subscriptions.get(other)
            &&& scan.max_index is None ==> after.max_index == Some(index)
            &&& scan.max_index is Some && scan.max_index->0 > index ==> after.max_index
                == scan.max_index
            &&& scan.max_index is Some && scan.max_index->0 <= index ==> after.max_index == Some(
                index,
            )
            &&& after.last_active_index == scan.last_active_index
        }),
{
}

/// The scan of a keychain goes into the total: each of its scripts has its place on that keychain, at the
/// index that the scan has for it, and what the scan expects of it; its last active and its greatest index
/// are noted, where it has one. What is known of other scripts and keychains stays.
pub proof fn the_scan_of_a_keychain_is_absorbed<KV>(
    total: AccumulatorView<KV>,
    keychain: KV,
    scan: SpkScanView,
    hash: ElectrumScriptHash,
    other: KV,
)
    ensures
        ({
            let after = accumulated(total, keychain, scan);
            &&& after.subscribed_scripts.contains(hash) <==> total.subscribed_scripts.contains(hash)
                || scan.hashes.contains(hash)
            &&& scan.indices.contains_key(hash) ==> after.script_to_keychain_index.get(hash)
                == Some((keychain, scan.indices[hash]))
            &&& !scan.indices.contains_key(hash) ==> after.script_to_keychain_index.get(hash)
                == total.script_to_keychain_index.get(hash)
            &&& scan.subscriptions.contains_key(hash) ==> after.script_subscriptions.get(hash)
                == Some(scan.subscriptions[hash])
            &&& !scan.subscriptions.contains_key(hash) ==> after.script_subscriptions.get(hash)
                == total.script_subscriptions.get(hash)
            &&& scan.last_active_index is Some ==> after.last_active_indices.get(keychain)
                == scan.last_active_index
            &&& scan.last_active_index is None ==> after.last_active_indices.get(keychain)
                == total.last_active_indices.get(keychain)
            &&& scan.max_index is Some ==> after.max_subscribed_indices.get(keychain)
                == scan.max_index
            &&& scan.max_index is None ==> after.max_subscribed_indices.get(keychain)
                == total.max_subscribed_indices.get(keychain)
            &&& other != keychain ==> after.last_active_indices.get(other)
                == total.last_active_indices.get(other)
            &&& other != keychain ==> after.max_subscribed_indices.get(other)
                == total.max_subscribed_indices.get(other)
        }),
{
}

/// Before any scan nothing is known.
pub proof fn nothing_is_known_before_a_scan<KV>(hash: ElectrumScriptHash, keychain: KV)
    ensures
        empty_scan().last_active_index is None,
        empty_scan().max_index is None,
        !empty_scan().hashes.contains(hash),
        !empty_scan().indices.contains_key(hash),
        !empty_scan().subscriptions.contains_key(hash),
        !empty_accumulator::<KV>().subscribed_scripts.contains(hash),
        !empty_accumulator::<KV>().script_subscriptions.contains_key(hash),
        !empty_accumulator::<KV>().script_to_keychain_index.contains_key(hash),
        !empty_accumulator::<KV>().last_active_indices.contains_key(keychain),
        !empty_accumulator::<KV>().max_subscribed_indices.contains_key(keychain),
{
}

} // verus!
