//! Snapshots of a sync, and the differences between them.
use bdk_core::CheckPoint;
use vstd::prelude::*;

use crate::chain::{copy_tip, same_tip, tip_blocks};
use crate::hash::{ElectrumScriptHash, ElectrumScriptStatus, Hash256, Txid};
use crate::ordered::{ascending, map_of, map_of_at, map_of_index, Key, OrderedMap, Value};

verus! {

/// Per-script checkpoint data used for incremental resume.
#[derive(Debug, PartialEq)]
pub struct ScriptSyncCheckpoint<K: Key> {
    /// Keychain this script belongs to.
    pub keychain: K,
    /// Derivation index within keychain.
    pub index: u32,
    /// Last known Electrum status hash.
    pub last_status: Option<ElectrumScriptStatus>,
    /// Last known electrum heights keyed by txid.
    pub expected_tx_heights: OrderedMap<Txid, i64>,
}

/// Per-script checkpoint data, as contracts speak of it.
pub struct ScriptSyncCheckpointView<KV> {
    /// Keychain this script belongs to.
    pub keychain: KV,
    /// Derivation index within keychain.
    pub index: u32,
    /// Last known Electrum status hash.
    pub last_status: Option<ElectrumScriptStatus>,
    /// Last known electrum heights keyed by txid.
    pub expected_tx_heights: Map<Txid, i64>,
}

impl<K: Key> View for ScriptSyncCheckpoint<K> {
    type V = ScriptSyncCheckpointView<K::V>;

    open spec fn view(&self) -> ScriptSyncCheckpointView<K::V> {
        ScriptSyncCheckpointView {
            keychain: self.keychain@,
            index: self.index,
            last_status: self.last_status,
            expected_tx_heights: self.expected_tx_heights@,
        }
    }
}

/// Whether two statuses, either of which may not be known, are the same.
pub fn same_status(a: &Option<ElectrumScriptStatus>, b: &Option<ElectrumScriptStatus>) -> (r: bool)
    ensures
        r == (*a == *b),
{
    match (a, b) {
        (Some(x), Some(y)) => x.same(y),
        (None, None) => true,
        _ => false,
    }
}

impl<K: Key> Value for ScriptSyncCheckpoint<K> {
    fn replica(&self) -> (r: Self) {
        ScriptSyncCheckpoint {
            keychain: self.keychain.replica(),
            index: self.index,
            last_status: self.last_status,
            expected_tx_heights: self.expected_tx_heights.replica(),
        }
    }

    fn same(&self, other: &Self) -> (r: bool) {
        self.keychain.same(&other.keychain) && self.index == other.index && same_status(
            &self.last_status,
            &other.last_status,
        ) && self.expected_tx_heights.same(&other.expected_tx_heights)
    }
}

/// Minimal persistent state required to resume incrementally without a full scan.
#[derive(Debug, PartialEq)]
pub struct SyncCheckpoint<K: Key> {
    /// Last known local chain tip.
    pub chain_tip: Option<CheckPoint>,
    /// Last active derivation index per keychain.
    pub last_active_indices: OrderedMap<K, u32>,
    /// Highest subscribed derivation index per keychain.
    pub max_subscribed_indices: OrderedMap<K, u32>,
    /// Per-script checkpoints keyed by script hash.
    pub scripts: OrderedMap<ElectrumScriptHash, ScriptSyncCheckpoint<K>>,
}

/// A snapshot, as contracts speak of it.
#[verifier::reject_recursive_types(KV)]
pub struct SyncCheckpointView<KV> {
    /// The blocks of the last known local chain.
    pub chain_tip: Option<Map<u32, Hash256>>,
    /// Last active derivation index per keychain.
    pub last_active_indices: Map<KV, u32>,
    /// Highest subscribed derivation index per keychain.
    pub max_subscribed_indices: Map<KV, u32>,
    /// Per-script checkpoints keyed by script hash.
    pub scripts: Map<ElectrumScriptHash, ScriptSyncCheckpointView<KV>>,
}

impl<K: Key> View for SyncCheckpoint<K> {
    type V = SyncCheckpointView<K::V>;

    open spec fn view(&self) -> SyncCheckpointView<K::V> {
        SyncCheckpointView {
            chain_tip: tip_blocks(self.chain_tip),
            last_active_indices: self.last_active_indices@,
            max_subscribed_indices: self.max_subscribed_indices@,
            scripts: self.scripts@,
        }
    }
}

/// Delta between two [`SyncCheckpoint`] snapshots.
///
/// The delta can be applied to a previous snapshot to reconstruct the new one.
#[derive(Debug, PartialEq)]
pub struct SyncCheckpointDelta<K: Key> {
    /// Chain tip update.
    ///
    /// `None` means unchanged.
    /// `Some(None)` means clear chain tip.
    /// `Some(Some(tip))` means set chain tip.
    pub chain_tip: Option<Option<CheckPoint>>,
    /// Upserts for last active indices.
    pub last_active_upserts: OrderedMap<K, u32>,
    /// Removals for last active indices.
    pub last_active_removals: Vec<K>,
    /// Upserts for max subscribed indices.
    pub max_subscribed_upserts: OrderedMap<K, u32>,
    /// Removals for max subscribed indices.
    pub max_subscribed_removals: Vec<K>,
    /// Upserts for per-script checkpoints.
    pub script_upserts: OrderedMap<ElectrumScriptHash, ScriptSyncCheckpoint<K>>,
    /// Removals for per-script checkpoints.
    pub script_removals: Vec<ElectrumScriptHash>,
}

/// The change of one map: new entries and entries with a new value, and keys that are gone.
#[verifier::reject_recursive_types(A)]
pub struct MapChange<A, W> {
    /// Entries to put in.
    pub upserts: Map<A, W>,
    /// Keys to take out.
    pub removals: Seq<A>,
}

/// A delta, as contracts speak of it.
#[verifier::reject_recursive_types(KV)]
pub struct SyncCheckpointDeltaView<KV> {
    /// The chain to set, if it changed.
    pub chain_tip: Option<Option<Map<u32, Hash256>>>,
    /// Change of the last active indices.
    pub last_active: MapChange<KV, u32>,
    /// Change of the highest subscribed indices.
    pub max_subscribed: MapChange<KV, u32>,
    /// Change of the per-script checkpoints.
    pub scripts: MapChange<ElectrumScriptHash, ScriptSyncCheckpointView<KV>>,
}

/// The views of a list of keys.
pub open spec fn key_views<K: Key>(s: Seq<K>) -> Seq<K::V> {
    s.map_values(|k: K| k@)
}

impl<K: Key> View for SyncCheckpointDelta<K> {
    type V = SyncCheckpointDeltaView<K::V>;

    open spec fn view(&self) -> SyncCheckpointDeltaView<K::V> {
        SyncCheckpointDeltaView {
            chain_tip: match self.chain_tip {
                Some(tip) => Some(tip_blocks(tip)),
                None => None,
            },
            last_active: MapChange {
                upserts: self.last_active_upserts@,
                removals: key_views(self.last_active_removals@),
            },
            max_subscribed: MapChange {
                upserts: self.max_subscribed_upserts@,
                removals: key_views(self.max_subscribed_removals@),
            },
            scripts: MapChange {
                upserts: self.script_upserts@,
                removals: key_views(self.script_removals@),
            },
        }
    }
}

/// The entries of a map that another one does not have, or has with another value.
pub open spec fn new_entries<A, W>(previous: Map<A, W>, current: Map<A, W>) -> Map<A, W> {
    Map::new(
        |k: A| current.contains_key(k) && previous.get(k) != Some(current[k]),
        |k: A| current[k],
    )
}

/// Whether a list holds, in ascending order, the keys of one map that another one does not have.
pub open spec fn are_gone_keys<K: Key, W>(
    previous: Map<K::V, W>,
    current: Map<K::V, W>,
    keys: Seq<K::V>,
) -> bool {
    &&& forall|k: K::V| #[trigger]
        keys.contains(k) <==> previous.contains_key(k) && !current.contains_key(k)
    &&& forall|i: int, j: int|
        0 <= i < j < keys.len() ==> K::before(#[trigger] keys[i], #[trigger] keys[j])
}

/// Whether a change leads from one map to the other: it puts in what is new or different, and takes
/// out, in ascending order, what is gone.
pub open spec fn is_change<K: Key, W>(
    previous: Map<K::V, W>,
    current: Map<K::V, W>,
    change: MapChange<K::V, W>,
) -> bool {
    &&& change.upserts == new_entries(previous, current)
    &&& are_gone_keys::<K, W>(previous, current, change.removals)
}

/// A map once a change is made to it.
pub open spec fn changed<A, W>(map: Map<A, W>, change: MapChange<A, W>) -> Map<A, W> {
    map.remove_keys(change.removals.to_set()).union_prefer_right(change.upserts)
}

/// Whether a change does nothing.
pub open spec fn is_no_change<A, W>(change: MapChange<A, W>) -> bool {
    change.upserts == Map::<A, W>::empty() && change.removals.len() == 0
}

/// Whether a delta leads from one snapshot to another.
pub open spec fn is_delta<K: Key>(
    previous: SyncCheckpointView<K::V>,
    current: SyncCheckpointView<K::V>,
    delta: SyncCheckpointDeltaView<K::V>,
) -> bool {
    &&& delta.chain_tip == (if previous.chain_tip == current.chain_tip {
        None
    } else {
        Some(current.chain_tip)
    })
    &&& is_change::<K, u32>(
        previous.last_active_indices,
        current.last_active_indices,
        delta.last_active,
    )
    &&& is_change::<K, u32>(
        previous.max_subscribed_indices,
        current.max_subscribed_indices,
        delta.max_subscribed,
    )
    &&& is_change::<ElectrumScriptHash, ScriptSyncCheckpointView<K::V>>(
        previous.scripts,
        current.scripts,
        delta.scripts,
    )
}

/// A snapshot once a delta is applied to it.
pub open spec fn applied<KV>(
    checkpoint: SyncCheckpointView<KV>,
    delta: SyncCheckpointDeltaView<KV>,
) -> SyncCheckpointView<KV> {
    SyncCheckpointView {
        chain_tip: match delta.chain_tip {
            Some(tip) => tip,
            None => checkpoint.chain_tip,
        },
        last_active_indices: changed(checkpoint.last_active_indices, delta.last_active),
        max_subscribed_indices: changed(checkpoint.max_subscribed_indices, delta.max_subscribed),
        scripts: changed(checkpoint.scripts, delta.scripts),
    }
}

/// Whether a delta changes nothing.
pub open spec fn is_empty_delta<KV>(delta: SyncCheckpointDeltaView<KV>) -> bool {
    &&& delta.chain_tip is None
    &&& is_no_change(delta.last_active)
    &&& is_no_change(delta.max_subscribed)
    &&& is_no_change(delta.scripts)
}

/// A change that leads from one map to another one, made to the first, gives the second.
proof fn change_leads_on<K: Key, W>(
    previous: Map<K::V, W>,
    current: Map<K::V, W>,
    change: MapChange<K::V, W>,
)
    requires
        is_change::<K, W>(previous, current, change),
    ensures
        changed(previous, change) == current,
        is_no_change(change) <==> previous == current,
{
    assert forall|k: K::V|
        change.removals.to_set().contains(k) == (previous.contains_key(k)
            && !current.contains_key(k)) by {
        assert(change.removals.contains(k) == (previous.contains_key(k)
            && !current.contains_key(k)));
    }
    assert(changed(previous, change) =~= current);
    if is_no_change(change) {
        assert forall|k: K::V| current.contains_key(k) implies previous.get(k) == Some(
            current[k],
        ) by {
            assert(!change.upserts.contains_key(k));
        }
        assert(previous =~= current) by {
            assert forall|k: K::V| previous.contains_key(k) implies current.contains_key(k) by {
                assert(!change.removals.contains(k));
            }
        }
    }
    if previous == current {
        assert(change.upserts =~= Map::<K::V, W>::empty());
        if change.removals.len() > 0 {
            assert(change.removals.contains(change.removals[0]));
        }
    }
}

/// Applying the delta between two snapshots to the first one gives the second one, and the delta is
/// empty exactly when the two are the same.
pub proof fn delta_leads_on<K: Key>(
    previous: SyncCheckpointView<K::V>,
    current: SyncCheckpointView<K::V>,
    delta: SyncCheckpointDeltaView<K::V>,
)
    requires
        is_delta::<K>(previous, current, delta),
    ensures
        applied(previous, delta) == current,
        is_empty_delta(delta) <==> previous == current,
{
    change_leads_on::<K, u32>(
        previous.last_active_indices,
        current.last_active_indices,
        delta.last_active,
    );
    change_leads_on::<K, u32>(
        previous.max_subscribed_indices,
        current.max_subscribed_indices,
        delta.max_subscribed,
    );
    change_leads_on::<ElectrumScriptHash, ScriptSyncCheckpointView<K::V>>(
        previous.scripts,
        current.scripts,
        delta.scripts,
    );
}

/// The entries of a map that another one does not have, or has with another value.
fn entries_to_put<K: Key, V: Value>(
    previous: &OrderedMap<K, V>,
    current: &OrderedMap<K, V>,
) -> (upserts: OrderedMap<K, V>)
    ensures
        upserts@ == new_entries(previous@, current@),
{
    let mut upserts: OrderedMap<K, V> = OrderedMap::new();
    let n = current.len();
    let ghost pairs = current.pairs();
    let mut i: usize = 0;
    while i < n
        invariant
            i <= n,
            n == current.pairs().len(),
            pairs == current.pairs(),
            current@ == map_of(pairs),
            ascending::<K, V::V>(pairs),
            forall|k: K::V|
                #![trigger upserts@.contains_key(k)]
                upserts@.contains_key(k) <==> (exists|j: int|
                    0 <= j < i && (#[trigger] pairs[j]).0 == k) && previous@.get(k) != Some(
                    current@[k],
                ),
            forall|k: K::V|
                #![trigger upserts@[k]]
                upserts@.contains_key(k) ==> upserts@[k] == current@[k],
        decreases n - i,
    {
        let key = current.key_at(i);
        let value = current.value_at(i);
        proof {
            map_of_at::<K, V::V>(pairs, i as int);
        }
        let known = match previous.get(key) {
            Some(old_value) => old_value.same(value),
            None => false,
        };
        let ghost before = upserts@;
        if !known {
            upserts.insert(key.replica(), value.replica());
        }
        proof {
            assert forall|k: K::V|
                #![trigger upserts@.contains_key(k)]
                upserts@.contains_key(k) <==> (exists|j: int|
                    0 <= j < i + 1 && (#[trigger] pairs[j]).0 == k) && previous@.get(k) != Some(
                    current@[k],
                ) by {
                if exists|j: int| 0 <= j < i + 1 && (#[trigger] pairs[j]).0 == k {
                    let j = choose|j: int| 0 <= j < i + 1 && (#[trigger] pairs[j]).0 == k;
                    if j < i {
                        assert(before.contains_key(k) == (previous@.get(k) != Some(current@[k])));
                    }
                }
                if before.contains_key(k) {
                    let j = choose|j: int| 0 <= j < i && (#[trigger] pairs[j]).0 == k;
                    assert(pairs[j].0 == k);
                }
                assert(pairs[i as int].0 == key@);
            }
            assert forall|k: K::V|
                #![trigger upserts@[k]]
                upserts@.contains_key(k) implies upserts@[k] == current@[k] by {
                if k != key@ || known {
                    assert(before.contains_key(k));
                    assert(before[k] == current@[k]);
                }
            }
        }
        i = i + 1;
    }
    proof {
        assert forall|k: K::V|
            upserts@.contains_key(k) <==> new_entries(previous@, current@).contains_key(k) by {
            if current@.contains_key(k) {
                let j = map_of_index::<K, V::V>(pairs, k);
                assert(pairs[j].0 == k);
            }
            if upserts@.contains_key(k) {
                let j = choose|j: int| 0 <= j < n && (#[trigger] pairs[j]).0 == k;
                map_of_at::<K, V::V>(pairs, j);
            }
        }
        assert(upserts@ =~= new_entries(previous@, current@));
    }
    upserts
}

/// The keys of a list of pairs that a map does not have, in the order of the list.
spec fn keys_not_in<A, W>(pairs: Seq<(A, W)>, current: Map<A, W>) -> Seq<A>
    decreases pairs.len(),
{
    if pairs.len() == 0 {
        Seq::empty()
    } else {
        let before = keys_not_in(pairs.drop_last(), current);
        if current.contains_key(pairs.last().0) {
            before
        } else {
            before.push(pairs.last().0)
        }
    }
}

/// Which keys the list holds, and that it is ascending where the pairs are.
proof fn keys_not_in_exact<K: Key, W>(pairs: Seq<(K::V, W)>, current: Map<K::V, W>)
    requires
        ascending::<K, W>(pairs),
    ensures
        are_gone_keys::<K, W>(map_of(pairs), current, keys_not_in(pairs, current)),
    decreases pairs.len(),
{
    let keys = keys_not_in(pairs, current);
    if pairs.len() > 0 {
        let init = pairs.drop_last();
        let before = keys_not_in(init, current);
        let last = pairs.last().0;
        keys_not_in_exact::<K, W>(init, current);
        assert forall|k: K::V|
            map_of(pairs).contains_key(k) == (map_of(init).contains_key(k) || k == last) by {
            if map_of(pairs).contains_key(k) {
                let j = map_of_index::<K, W>(pairs, k);
                if j < init.len() {
                    assert(init[j].0 == k);
                    map_of_at::<K, W>(init, j);
                }
            }
            if map_of(init).contains_key(k) {
                let j = map_of_index::<K, W>(init, k);
                assert(pairs[j].0 == k);
                map_of_at::<K, W>(pairs, j);
            }
            map_of_at::<K, W>(pairs, pairs.len() - 1);
        }
        assert forall|k: K::V| #[trigger] keys.contains(k) <==> map_of(pairs).contains_key(k)
            && !current.contains_key(k) by {
            if keys.contains(k) {
                let j = choose|j: int| 0 <= j < keys.len() && keys[j] == k;
                if j < before.len() {
                    assert(before[j] == k);
                    assert(before.contains(k));
                }
            }
            if before.contains(k) {
                let j = choose|j: int| 0 <= j < before.len() && before[j] == k;
                assert(keys[j] == k);
            }
            if k == last && !current.contains_key(k) {
                assert(keys[before.len() as int] == k);
            }
        }
        assert forall|i: int, j: int| 0 <= i < j < keys.len() implies K::before(
            #[trigger] keys[i],
            #[trigger] keys[j],
        ) by {
            assert(keys[i] == before[i]);
            if j == before.len() {
                assert(before.contains(before[i]));
                let l = map_of_index::<K, W>(init, before[i]);
                assert(pairs[l].0 == before[i]);
                assert(K::before(pairs[l].0, pairs[pairs.len() - 1].0));
            } else {
                assert(keys[j] == before[j]);
            }
        }
    } else {
        assert forall|k: K::V| map_of(pairs).contains_key(k) implies false by {
            let j = map_of_index::<K, W>(pairs, k);
        }
    }
}

/// The keys of a map that another one does not have, in ascending order.
fn keys_to_remove<K: Key, V: Value>(
    previous: &OrderedMap<K, V>,
    current: &OrderedMap<K, V>,
) -> (removals: Vec<K>)
    ensures
        are_gone_keys::<K, V::V>(previous@, current@, key_views(removals@)),
{
    let mut removals: Vec<K> = Vec::new();
    let n = previous.len();
    let ghost pairs = previous.pairs();
    let mut i: usize = 0;
    proof {
        assert(key_views(removals@) =~= keys_not_in(pairs.take(0), current@));
    }
    while i < n
        invariant
            i <= n,
            n == previous.pairs().len(),
            pairs == previous.pairs(),
            key_views(removals@) == keys_not_in(pairs.take(i as int), current@),
        decreases n - i,
    {
        let key = previous.key_at(i);
        let ghost before = key_views(removals@);
        if !current.contains_key(key) {
            let gone = key.replica();
            let ghost held = removals@;
            removals.push(gone);
            proof {
                assert(key_views(removals@) =~= key_views(held).push(key@));
            }
        }
        proof {
            assert(pairs.take(i + 1).drop_last() =~= pairs.take(i as int));
        }
        i = i + 1;
    }
    proof {
        assert(pairs.take(n as int) =~= pairs);
        keys_not_in_exact::<K, V::V>(pairs, current@);
    }
    removals
}

/// Makes a change to a map.
fn change_map<K: Key, V: Value>(
    map: &mut OrderedMap<K, V>,
    upserts: &OrderedMap<K, V>,
    removals: &Vec<K>,
)
    ensures
        final(map)@ == changed(
            old(map)@,
            (MapChange { upserts: upserts@, removals: key_views(removals@) }),
        ),
{
    let ghost listed = key_views(removals@);
    let mut i: usize = 0;
    proof {
        assert(map@ =~= old(map)@.remove_keys(listed.take(0).to_set()));
    }
    while i < removals.len()
        invariant
            i <= removals.len(),
            listed == key_views(removals@),
            map@ == old(map)@.remove_keys(listed.take(i as int).to_set()),
        decreases removals.len() - i,
    {
        map.remove(&removals[i]);
        proof {
            let a = listed.take(i as int);
            let b = listed.take(i + 1);
            assert(b =~= a.push(listed[i as int]));
            assert forall|k: K::V|
                #[trigger] b.to_set().contains(k) == (a.to_set().contains(k) || k
                    == listed[i as int]) by {
                if a.contains(k) {
                    let j = choose|j: int| 0 <= j < a.len() && a[j] == k;
                    assert(b[j] == k);
                }
                assert(b[i as int] == listed[i as int]);
            }
            assert(map@ =~= old(map)@.remove_keys(b.to_set()));
        }
        i = i + 1;
    }
    proof {
        assert(listed.take(listed.len() as int) =~= listed);
    }
    map.absorb(upserts);
}

impl<K: Key> Default for SyncCheckpointDelta<K> {
    /// A delta that changes nothing.
    fn default() -> (r: Self)
        ensures
            is_empty_delta(r@),
    {
        SyncCheckpointDelta {
            chain_tip: None,
            last_active_upserts: OrderedMap::new(),
            last_active_removals: Vec::new(),
            max_subscribed_upserts: OrderedMap::new(),
            max_subscribed_removals: Vec::new(),
            script_upserts: OrderedMap::new(),
            script_removals: Vec::new(),
        }
    }
}

impl<K: Key> SyncCheckpointDelta<K> {
    /// Returns `true` if delta does not change any field.
    pub fn is_empty(&self) -> (r: bool)
        ensures
            r == is_empty_delta(self@),
    {
        self.chain_tip.is_none() && self.last_active_upserts.is_empty()
            && self.last_active_removals.len() == 0 && self.max_subscribed_upserts.is_empty()
            && self.max_subscribed_removals.len() == 0 && self.script_upserts.is_empty()
            && self.script_removals.len() == 0
    }
}

impl<K: Key> SyncCheckpoint<K> {
    /// Build a delta from `previous` to `current`.
    pub fn diff(previous: &Self, current: &Self) -> (r: SyncCheckpointDelta<K>)
        ensures
            is_delta::<K>(previous@, current@, r@),
            applied(previous@, r@) == current@,
            is_empty_delta(r@) <==> previous@ == current@,
    {
        let chain_tip = if same_tip(&previous.chain_tip, &current.chain_tip) {
            None
        } else {
            Some(copy_tip(&current.chain_tip))
        };
        let last_active_upserts = entries_to_put(
            &previous.last_active_indices,
            &current.last_active_indices,
        );
        let last_active_removals = keys_to_remove(
            &previous.last_active_indices,
            &current.last_active_indices,
        );
        let max_subscribed_upserts = entries_to_put(
            &previous.max_subscribed_indices,
            &current.max_subscribed_indices,
        );
        let max_subscribed_removals = keys_to_remove(
            &previous.max_subscribed_indices,
            &current.max_subscribed_indices,
        );
        let script_upserts = entries_to_put(&previous.scripts, &current.scripts);
        let script_removals = keys_to_remove(&previous.scripts, &current.scripts);
        let delta = SyncCheckpointDelta {
            chain_tip,
            last_active_upserts,
            last_active_removals,
            max_subscribed_upserts,
            max_subscribed_removals,
            script_upserts,
            script_removals,
        };
        proof {
            delta_leads_on::<K>(previous@, current@, delta@);
        }
        delta
    }

    /// Apply a delta to this checkpoint in place.
    pub fn apply_delta(&mut self, delta: SyncCheckpointDelta<K>)
        ensures
            final(self)@ == applied(old(self)@, delta@),
    {
        change_map(
            &mut self.last_active_indices,
            &delta.last_active_upserts,
            &delta.last_active_removals,
        );
        change_map(
            &mut self.max_subscribed_indices,
            &delta.max_subscribed_upserts,
            &delta.max_subscribed_removals,
        );
        change_map(&mut self.scripts, &delta.script_upserts, &delta.script_removals);
        if let Some(chain_tip) = delta.chain_tip {
            self.chain_tip = chain_tip;
        }
    }
}

/// A change holds what is new or different, and what is gone, and nothing that stayed the same.
pub proof fn a_change_holds_what_differs<K: Key, W>(
    previous: Map<K::V, W>,
    current: Map<K::V, W>,
    change: MapChange<K::V, W>,
    key: K::V,
)
    requires
        is_change::<K, W>(previous, current, change),
    ensures
        change.upserts.contains_key(key) <==> current.contains_key(key) && !(previous.contains_key(
            key,
        ) && previous[key] == current[key]),
        change.upserts.contains_key(key) ==> change.upserts[key] == current[key],
        change.removals.contains(key) <==> previous.contains_key(key) && !current.contains_key(key),
{
}

/// A change that is made sets what it holds, takes away what it removes, and leaves the rest.
pub proof fn a_change_is_made_key_by_key<A, W>(map: Map<A, W>, change: MapChange<A, W>, key: A)
    ensures
        change.upserts.contains_key(key) ==> changed(map, change).get(key) == Some(
            change.upserts[key],
        ),
        !change.upserts.contains_key(key) && change.removals.contains(key) ==> !changed(
            map,
            change,
        ).contains_key(key),
        !change.upserts.contains_key(key) && !change.removals.contains(key) ==> changed(
            map,
            change,
        ).get(key) == map.get(key),
{
}

/// A delta holds the tip where it differs, and only there, and the change of each part of the checkpoint.
pub proof fn a_delta_holds_what_differs<K: Key>(
    previous: SyncCheckpointView<K::V>,
    current: SyncCheckpointView<K::V>,
    delta: SyncCheckpointDeltaView<K::V>,
    keychain: K::V,
    hash: ElectrumScriptHash,
)
    requires
        is_delta::<K>(previous, current, delta),
    ensures
        delta.chain_tip is Some <==> previous.chain_tip != current.chain_tip,
        delta.chain_tip is Some ==> delta.chain_tip->0 == current.chain_tip,
        delta.last_active.upserts.contains_key(keychain)
            <==> current.last_active_indices.contains_key(keychain)
            && previous.last_active_indices.get(keychain) != current.last_active_indices.get(
            keychain,
        ),
        delta.max_subscribed.upserts.contains_key(keychain)
            <==> current.max_subscribed_indices.contains_key(keychain)
            && previous.max_subscribed_indices.get(keychain) != current.max_subscribed_indices.get(
            keychain,
        ),
        delta.scripts.upserts.contains_key(hash) <==> current.scripts.contains_key(hash)
            && previous.scripts.get(hash) != current.scripts.get(hash),
        delta.last_active.removals.contains(keychain)
            <==> previous.last_active_indices.contains_key(keychain)
            && !current.last_active_indices.contains_key(keychain),
        delta.max_subscribed.removals.contains(keychain)
            <==> previous.max_subscribed_indices.contains_key(keychain)
            && !current.max_subscribed_indices.contains_key(keychain),
        delta.scripts.removals.contains(hash) <==> previous.scripts.contains_key(hash)
            && !current.scripts.contains_key(hash),
{
}

} // verus!
