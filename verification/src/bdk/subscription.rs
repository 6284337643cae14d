//! Which scripts are subscribed, and what is expected of them.
use bdk_core::CheckPoint;
use vstd::prelude::*;

use crate::hash::{ElectrumScriptHash, ElectrumScriptStatus, Txid};
use crate::ordered::{
    ascending, map_of, map_of_at, map_of_index, Key, OrderedMap, OrderedSet, Value,
};

verus! {

/// Information about a subscribed script.
#[derive(Debug, PartialEq)]
pub struct ScriptSubscription {
    /// The expected transaction status keyed by txid.
    ///
    /// Value is the Electrum height encoding (`>0` confirmed, `0/-1` mempool states).
    pub expected_tx_heights: OrderedMap<Txid, i64>,
    /// Last known Electrum status hash.
    pub last_status: Option<ElectrumScriptStatus>,
}

/// Information about a subscribed script, as contracts speak of it.
pub struct ScriptSubscriptionView {
    /// The expected transaction status keyed by txid.
    pub expected_tx_heights: Map<Txid, i64>,
    /// Last known Electrum status hash.
    pub last_status: Option<ElectrumScriptStatus>,
}

impl View for ScriptSubscription {
    type V = ScriptSubscriptionView;

    open spec fn view(&self) -> ScriptSubscriptionView {
        ScriptSubscriptionView {
            expected_tx_heights: self.expected_tx_heights@,
            last_status: self.last_status,
        }
    }
}

/// A subscription of which nothing is known yet.
pub open spec fn new_subscription() -> ScriptSubscriptionView {
    ScriptSubscriptionView { expected_tx_heights: Map::empty(), last_status: None }
}

impl ScriptSubscription {
    /// A subscription with what is expected of it.
    pub fn new(expected_tx_heights: OrderedMap<Txid, i64>) -> (r: Self)
        ensures
            r@ == (ScriptSubscriptionView {
                expected_tx_heights: expected_tx_heights@,
                last_status: None,
            }),
    {
        ScriptSubscription { expected_tx_heights, last_status: None }
    }
}

impl Value for ScriptSubscription {
    fn replica(&self) -> (r: Self) {
        ScriptSubscription {
            expected_tx_heights: self.expected_tx_heights.replica(),
            last_status: self.last_status,
        }
    }

    fn same(&self, other: &Self) -> (r: bool) {
        self.expected_tx_heights.same(&other.expected_tx_heights)
            && crate::bdk::checkpoint::same_status(&self.last_status, &other.last_status)
    }
}

/// What a scan leaves behind for following the scripts.
#[derive(Debug, PartialEq)]
pub struct SubscriptionInit<K: Key> {
    /// The scripts that are subscribed.
    pub subscribed_scripts: OrderedSet<ElectrumScriptHash>,
    /// What is expected of each script.
    pub script_subscriptions: OrderedMap<ElectrumScriptHash, ScriptSubscription>,
    /// The keychain and index of each script.
    pub script_to_keychain_index: OrderedMap<ElectrumScriptHash, (K, u32)>,
    /// Highest subscribed derivation index per keychain.
    pub max_subscribed_indices: OrderedMap<K, u32>,
}

/// What is known of the scripts that are followed.
#[derive(Debug, PartialEq)]
pub struct SubscriptionState<K: Key> {
    /// The scripts that are subscribed.
    pub subscribed_scripts: OrderedSet<ElectrumScriptHash>,
    /// What is expected of each script.
    pub script_subscriptions: OrderedMap<ElectrumScriptHash, ScriptSubscription>,
    /// The keychain and index of each script.
    pub script_to_keychain_index: OrderedMap<ElectrumScriptHash, (K, u32)>,
    /// Last active derivation index per keychain.
    pub last_active_indices: OrderedMap<K, u32>,
    /// Highest subscribed derivation index per keychain.
    pub max_subscribed_indices: OrderedMap<K, u32>,
}

/// What is known of the scripts that are followed, as contracts speak of it.
#[verifier::reject_recursive_types(KV)]
pub struct SubscriptionStateView<KV> {
    /// The scripts that are subscribed.
    pub subscribed_scripts: Set<ElectrumScriptHash>,
    /// What is expected of each script.
    pub script_subscriptions: Map<ElectrumScriptHash, ScriptSubscriptionView>,
    /// The keychain and index of each script.
    pub script_to_keychain_index: Map<ElectrumScriptHash, (KV, u32)>,
    /// Last active derivation index per keychain.
    pub last_active_indices: Map<KV, u32>,
    /// Highest subscribed derivation index per keychain.
    pub max_subscribed_indices: Map<KV, u32>,
}

impl<K: Key> View for SubscriptionState<K> {
    type V = SubscriptionStateView<K::V>;

    open spec fn view(&self) -> SubscriptionStateView<K::V> {
        SubscriptionStateView {
            subscribed_scripts: self.subscribed_scripts@,
            script_subscriptions: self.script_subscriptions@,
            script_to_keychain_index: self.script_to_keychain_index@,
            last_active_indices: self.last_active_indices@,
            max_subscribed_indices: self.max_subscribed_indices@,
        }
    }
}

/// A state in which nothing is followed.
pub open spec fn empty_state<KV>() -> SubscriptionStateView<KV> {
    SubscriptionStateView {
        subscribed_scripts: Set::empty(),
        script_subscriptions: Map::empty(),
        script_to_keychain_index: Map::empty(),
        last_active_indices: Map::empty(),
        max_subscribed_indices: Map::empty(),
    }
}

impl<K: Key> Default for SubscriptionState<K> {
    /// Nothing is followed.
    fn default() -> (r: Self)
        ensures
            r@ == empty_state::<K::V>(),
    {
        SubscriptionState {
            subscribed_scripts: OrderedSet::new(),
            script_subscriptions: OrderedMap::new(),
            script_to_keychain_index: OrderedMap::new(),
            last_active_indices: OrderedMap::new(),
            max_subscribed_indices: OrderedMap::new(),
        }
    }
}

/// The scripts of a wallet that are followed, and the chain that goes with them.
#[derive(Debug, PartialEq)]
pub struct SubscriptionCtx<K: Key> {
    /// The name of the wallet.
    pub wallet_label: String,
    /// What is known of the scripts.
    pub state: SubscriptionState<K>,
    /// The chain that is known.
    pub chain_tip: Option<CheckPoint>,
}

/// Whether a transaction is expected that is not confirmed.
pub open spec fn expects_unconfirmed(expected_tx_heights: Map<Txid, i64>) -> bool {
    exists|txid: Txid| #[trigger]
        expected_tx_heights.contains_key(txid) && expected_tx_heights[txid] <= 0
}

/// Whether a list is ascending.
pub open spec fn is_ascending(hashes: Seq<ElectrumScriptHash>) -> bool {
    forall|i: int, j: int|
        0 <= i < j < hashes.len() ==> ElectrumScriptHash::before(
            #[trigger] hashes[i],
            #[trigger] hashes[j],
        )
}

/// The last active indices once an index of a keychain has been active: it never goes down.
pub open spec fn bumped<KV>(indices: Map<KV, u32>, keychain: KV, index: u32) -> Map<KV, u32> {
    indices.insert(
        keychain,
        if indices.contains_key(keychain) && indices[keychain] > index {
            indices[keychain]
        } else {
            index
        },
    )
}

/// Whether a list holds a script.
pub open spec fn lists_script(
    scripts: Seq<(ElectrumScriptHash, u32)>,
    hash: ElectrumScriptHash,
) -> bool {
    exists|i: int| 0 <= i < scripts.len() && (#[trigger] scripts[i]).0 == hash
}

/// Subscriptions with new ones for the scripts of a list that have none.
pub open spec fn with_subscriptions(
    subscriptions: Map<ElectrumScriptHash, ScriptSubscriptionView>,
    scripts: Seq<(ElectrumScriptHash, u32)>,
) -> Map<ElectrumScriptHash, ScriptSubscriptionView> {
    Map::new(
        |hash: ElectrumScriptHash| subscriptions.contains_key(hash) || lists_script(scripts, hash),
        |hash: ElectrumScriptHash|
            if subscriptions.contains_key(hash) {
                subscriptions[hash]
            } else {
                new_subscription()
            },
    )
}

/// The indices of scripts with those of a list.
pub open spec fn with_indices<KV>(
    indices: Map<ElectrumScriptHash, (KV, u32)>,
    keychain: KV,
    scripts: Seq<(ElectrumScriptHash, u32)>,
) -> Map<ElectrumScriptHash, (KV, u32)>
    decreases scripts.len(),
{
    if scripts.len() == 0 {
        indices
    } else {
        with_indices(indices, keychain, scripts.drop_last()).insert(
            scripts.last().0,
            (keychain, scripts.last().1),
        )
    }
}

/// The state once more scripts of a keychain are subscribed.
pub open spec fn extended<KV>(
    state: SubscriptionStateView<KV>,
    keychain: KV,
    new_active_index: u32,
    new_max_subscribed: u32,
    script_hashes: Seq<ElectrumScriptHash>,
    scripts: Seq<(ElectrumScriptHash, u32)>,
) -> SubscriptionStateView<KV> {
    SubscriptionStateView {
        subscribed_scripts: state.subscribed_scripts.union(script_hashes.to_set()),
        script_subscriptions: with_subscriptions(state.script_subscriptions, scripts),
        script_to_keychain_index: with_indices(state.script_to_keychain_index, keychain, scripts),
        last_active_indices: bumped(state.last_active_indices, keychain, new_active_index),
        max_subscribed_indices: state.max_subscribed_indices.insert(keychain, new_max_subscribed),
    }
}

/// A copy of a keychain and an index that may not be there.
fn copy_place<K: Key>(place: Option<&(K, u32)>) -> (r: Option<(K, u32)>)
    ensures
        match (place, r) {
            (Some(p), Some(q)) => q.0@ == p.0@ && q.1 == p.1,
            (None, None) => true,
            _ => false,
        },
{
    match place {
        Some(p) => Some((p.0.replica(), p.1)),
        None => None,
    }
}

/// Whether a transaction is expected that is not confirmed.
fn has_unconfirmed(expected_tx_heights: &OrderedMap<Txid, i64>) -> (r: bool)
    ensures
        r == expects_unconfirmed(expected_tx_heights@),
{
    let n = expected_tx_heights.len();
    let ghost pairs = expected_tx_heights.pairs();
    let mut i: usize = 0;
    while i < n
        invariant
            i <= n,
            n == expected_tx_heights.pairs().len(),
            pairs == expected_tx_heights.pairs(),
            expected_tx_heights@ == map_of(pairs),
            ascending::<Txid, i64>(pairs),
            forall|j: int| 0 <= j < i ==> (#[trigger] pairs[j]).1 > 0,
        decreases n - i,
    {
        let height = *expected_tx_heights.value_at(i);
        proof {
            map_of_at::<Txid, i64>(pairs, i as int);
        }
        if height <= 0 {
            proof {
                assert(expected_tx_heights@.contains_key(pairs[i as int].0));
            }
            return true;
        }
        i = i + 1;
    }
    proof {
        assert forall|txid: Txid| #[trigger]
            expected_tx_heights@.contains_key(txid) implies expected_tx_heights@[txid] > 0 by {
            let j = map_of_index::<Txid, i64>(pairs, txid);
            map_of_at::<Txid, i64>(pairs, j);
        }
    }
    false
}

impl<K: Key> SubscriptionCtx<K> {
    /// Whether a script is subscribed.
    pub fn has_script(&self, hash: &ElectrumScriptHash) -> (r: bool)
        ensures
            r == self.state@.subscribed_scripts.contains(*hash),
    {
        self.state.subscribed_scripts.contains(hash)
    }

    /// The keychain and index of a script.
    pub fn keychain_index(&self, hash: &ElectrumScriptHash) -> (r: Option<(K, u32)>)
        ensures
            match r {
                Some(place) => self.state@.script_to_keychain_index.get(*hash) == Some(
                    (place.0@, place.1),
                ),
                None => !self.state@.script_to_keychain_index.contains_key(*hash),
            },
    {
        copy_place(self.state.script_to_keychain_index.get(hash))
    }

    /// The keychain and index up to which scripts are in use, where that is beyond the known
    /// last-active index of the keychain.
    pub fn extension_target(&self, hash: &ElectrumScriptHash) -> (r: Option<(K, u32)>)
        ensures
            ({
                let places = self.state@.script_to_keychain_index;
                let last = self.state@.last_active_indices;
                match r {
                    Some(target) => places.get(*hash) == Some((target.0@, target.1))
                        && last.contains_key(target.0@) && target.1 > last[target.0@],
                    None => !places.contains_key(*hash) || !last.contains_key(places[*hash].0)
                        || places[*hash].1 <= last[places[*hash].0],
                }
            }),
    {
        match self.keychain_index(hash) {
            Some((keychain, current_index)) => {
                // Extend only when this script index moved beyond the known last-active index.
                match self.state.last_active_indices.get(&keychain) {
                    Some(last) => {
                        if current_index > *last {
                            Some((keychain, current_index))
                        } else {
                            None
                        }
                    },
                    None => None,
                }
            },
            None => None,
        }
    }

    /// The scripts that are subscribed, in ascending order.
    pub fn tracked_script_hashes(&self) -> (r: Vec<ElectrumScriptHash>)
        ensures
            forall|hash: ElectrumScriptHash| #[trigger]
                r@.contains(hash) <==> self.state@.subscribed_scripts.contains(hash),
            is_ascending(r@),
    {
        let set = &self.state.subscribed_scripts;
        let n = set.len();
        let ghost list = set.list();
        let mut r: Vec<ElectrumScriptHash> = Vec::new();
        let mut i: usize = 0;
        while i < n
            invariant
                i <= n,
                n == set.list().len(),
                list == set.list(),
                r@ == list.take(i as int),
            decreases n - i,
        {
            r.push(*set.at(i));
            proof {
                assert(list.take(i + 1) =~= list.take(i as int).push(list[i as int]));
            }
            i = i + 1;
        }
        proof {
            assert(r@ =~= list);
            assert forall|hash: ElectrumScriptHash| #[trigger]
                r@.contains(hash) <==> set@.contains(hash) by {
                if r@.contains(hash) {
                    let j = choose|j: int| 0 <= j < r@.len() && r@[j] == hash;
                    assert(set@.contains(set.list()[j]));
                }
                if set@.contains(hash) {
                    let j = choose|j: int|
                        0 <= j < set.list().len() && #[trigger] set.list()[j] == hash;
                    assert(r@[j] == hash);
                }
            }
        }
        r
    }

    /// The scripts of which a transaction is expected that is not confirmed, in ascending order.
    pub fn script_hashes_with_unconfirmed_txs(&self) -> (r: Vec<ElectrumScriptHash>)
        ensures
            forall|hash: ElectrumScriptHash| #[trigger]
                r@.contains(hash) <==> self.state@.script_subscriptions.contains_key(hash)
                    && expects_unconfirmed(
                    self.state@.script_subscriptions[hash].expected_tx_heights,
                ),
            is_ascending(r@),
    {
        let subscriptions = &self.state.script_subscriptions;
        let n = subscriptions.len();
        let ghost pairs = subscriptions.pairs();
        let mut r: Vec<ElectrumScriptHash> = Vec::new();
        let mut i: usize = 0;
        while i < n
            invariant
                i <= n,
                n == subscriptions.pairs().len(),
                pairs == subscriptions.pairs(),
                subscriptions@ == map_of(pairs),
                ascending::<ElectrumScriptHash, ScriptSubscriptionView>(pairs),
                r@ == unconfirmed_keys(pairs.take(i as int)),
            decreases n - i,
        {
            let hash = *subscriptions.key_at(i);
            let subscription = subscriptions.value_at(i);
            proof {
                assert(pairs.take(i + 1).drop_last() =~= pairs.take(i as int));
            }
            if has_unconfirmed(&subscription.expected_tx_heights) {
                r.push(hash);
            }
            i = i + 1;
        }
        proof {
            assert(pairs.take(n as int) =~= pairs);
            unconfirmed_keys_exact(pairs);
        }
        r
    }

    /// Takes note of an index of a keychain that has been active.
    pub fn bump_last_active(&mut self, keychain: K, new_active_index: u32)
        ensures
            final(self).wallet_label == old(self).wallet_label,
            final(self).chain_tip == old(self).chain_tip,
            final(self).state@ == (SubscriptionStateView {
                last_active_indices: bumped(
                    old(self).state@.last_active_indices,
                    keychain@,
                    new_active_index,
                ),
                ..old(self).state@
            }),
    {
        let index = match self.state.last_active_indices.get(&keychain) {
            Some(last) => {
                if *last > new_active_index {
                    *last
                } else {
                    new_active_index
                }
            },
            None => new_active_index,
        };
        self.state.last_active_indices.insert(keychain, index);
    }

    /// Takes note of more scripts of a keychain that are subscribed.
    pub fn apply_incremental_subscription(
        &mut self,
        keychain: K,
        new_active_index: u32,
        new_max_subscribed: u32,
        script_hashes: &Vec<ElectrumScriptHash>,
        scripts_to_subscribe: &Vec<(ElectrumScriptHash, u32)>,
    )
        ensures
            final(self).wallet_label == old(self).wallet_label,
            final(self).chain_tip == old(self).chain_tip,
            final(self).state@ == extended(
                old(self).state@,
                keychain@,
                new_active_index,
                new_max_subscribed,
                script_hashes@,
                scripts_to_subscribe@,
            ),
    {
        let ghost before = self.state@;
        self.bump_last_active(keychain.replica(), new_active_index);
        let ghost bumped_indices = self.state@.last_active_indices;
        let mut i: usize = 0;
        proof {
            assert(self.state@.script_subscriptions =~= with_subscriptions(
                before.script_subscriptions,
                scripts_to_subscribe@.take(0),
            ));
        }
        while i < scripts_to_subscribe.len()
            invariant
                i <= scripts_to_subscribe.len(),
                self.wallet_label == old(self).wallet_label,
                self.chain_tip == old(self).chain_tip,
                self.state@ == (SubscriptionStateView {
                    script_subscriptions: with_subscriptions(
                        before.script_subscriptions,
                        scripts_to_subscribe@.take(i as int),
                    ),
                    script_to_keychain_index: with_indices(
                        before.script_to_keychain_index,
                        keychain@,
                        scripts_to_subscribe@.take(i as int),
                    ),
                    last_active_indices: bumped_indices,
                    ..before
                }),
            decreases scripts_to_subscribe.len() - i,
        {
            let (hash, index) = scripts_to_subscribe[i];
            if !self.state.script_subscriptions.contains_key(&hash) {
                self.state.script_subscriptions.insert(
                    hash,
                    ScriptSubscription::new(OrderedMap::new()),
                );
            }
            self.state.script_to_keychain_index.insert(hash, (keychain.replica(), index));
            proof {
                let a = scripts_to_subscribe@.take(i as int);
                let b = scripts_to_subscribe@.take(i + 1);
                assert(b.drop_last() =~= a);
                assert forall|h: ElectrumScriptHash| #[trigger]
                    lists_script(b, h) == (lists_script(a, h) || h == hash) by {
                    if lists_script(b, h) {
                        let j = choose|j: int| 0 <= j < b.len() && (#[trigger] b[j]).0 == h;
                        if j < i {
                            assert(a[j].0 == h);
                        }
                    }
                    if lists_script(a, h) {
                        let j = choose|j: int| 0 <= j < a.len() && (#[trigger] a[j]).0 == h;
                        assert(b[j].0 == h);
                    }
                    assert(b[i as int].0 == hash);
                }
                assert(self.state@.script_subscriptions =~= with_subscriptions(
                    before.script_subscriptions,
                    b,
                ));
            }
            i = i + 1;
        }
        proof {
            assert(scripts_to_subscribe@.take(scripts_to_subscribe@.len() as int)
                =~= scripts_to_subscribe@);
            assert(script_hashes@.map_values(|k: ElectrumScriptHash| k@) =~= script_hashes@);
        }
        self.state.subscribed_scripts.extend(script_hashes);
        self.state.max_subscribed_indices.insert(keychain, new_max_subscribed);
    }
}

/// The keys of subscriptions of which a transaction is expected that is not confirmed.
spec fn unconfirmed_keys(
    pairs: Seq<(ElectrumScriptHash, ScriptSubscriptionView)>,
) -> Seq<ElectrumScriptHash>
    decreases pairs.len(),
{
    if pairs.len() == 0 {
        Seq::empty()
    } else {
        let before = unconfirmed_keys(pairs.drop_last());
        if expects_unconfirmed(pairs.last().1.expected_tx_heights) {
            before.push(pairs.last().0)
        } else {
            before
        }
    }
}

/// Which keys the list holds, and that it is ascending.
proof fn unconfirmed_keys_exact(pairs: Seq<(ElectrumScriptHash, ScriptSubscriptionView)>)
    requires
        ascending::<ElectrumScriptHash, ScriptSubscriptionView>(pairs),
    ensures
        forall|hash: ElectrumScriptHash| #[trigger]
            unconfirmed_keys(pairs).contains(hash) <==> map_of(pairs).contains_key(hash)
                && expects_unconfirmed(map_of(pairs)[hash].expected_tx_heights),
        is_ascending(unconfirmed_keys(pairs)),
    decreases pairs.len(),
{
    let keys = unconfirmed_keys(pairs);
    let map = map_of(pairs);
    if pairs.len() > 0 {
        let init = pairs.drop_last();
        let before = unconfirmed_keys(init);
        let (last, value) = pairs.last();
        unconfirmed_keys_exact(init);
        map_of_at::<ElectrumScriptHash, ScriptSubscriptionView>(pairs, pairs.len() - 1);
        assert forall|hash: ElectrumScriptHash|
            map.contains_key(hash) && hash != last implies map_of(init).contains_key(hash)
            && #[trigger] map_of(init)[hash] == map[hash] by {
            let j = map_of_index::<ElectrumScriptHash, ScriptSubscriptionView>(pairs, hash);
            map_of_at::<ElectrumScriptHash, ScriptSubscriptionView>(pairs, j);
            assert(init[j] == pairs[j]);
            map_of_at::<ElectrumScriptHash, ScriptSubscriptionView>(init, j);
        }
        assert forall|hash: ElectrumScriptHash| #[trigger]
            map_of(init).contains_key(hash) implies map.contains_key(hash) && hash != last
            && map_of(init)[hash] == map[hash] by {
            let j = map_of_index::<ElectrumScriptHash, ScriptSubscriptionView>(init, hash);
            map_of_at::<ElectrumScriptHash, ScriptSubscriptionView>(init, j);
            assert(init[j] == pairs[j]);
            map_of_at::<ElectrumScriptHash, ScriptSubscriptionView>(pairs, j);
            assert(ElectrumScriptHash::before(pairs[j].0, pairs[pairs.len() - 1].0));
            ElectrumScriptHash::before_irreflexive(last);
        }
        assert forall|hash: ElectrumScriptHash| #[trigger]
            keys.contains(hash) <==> map.contains_key(hash) && expects_unconfirmed(
                map[hash].expected_tx_heights,
            ) by {
            if keys.contains(hash) {
                let j = choose|j: int| 0 <= j < keys.len() && keys[j] == hash;
                if j < before.len() {
                    assert(before[j] == hash);
                    assert(before.contains(hash));
                }
            }
            if before.contains(hash) {
                let j = choose|j: int| 0 <= j < before.len() && before[j] == hash;
                assert(keys[j] == hash);
            }
            if hash == last && expects_unconfirmed(value.expected_tx_heights) {
                assert(keys[before.len() as int] == hash);
            }
            if map.contains_key(hash) && hash != last {
                assert(map_of(init)[hash] == map[hash]);
                assert(before.contains(hash) == expects_unconfirmed(
                    map[hash].expected_tx_heights,
                ));
            }
        }
        assert forall|i: int, j: int| 0 <= i < j < keys.len() implies ElectrumScriptHash::before(
            #[trigger] keys[i],
            #[trigger] keys[j],
        ) by {
            assert(keys[i] == before[i]);
            if j == before.len() {
                assert(before.contains(before[i]));
                let l = map_of_index::<ElectrumScriptHash, ScriptSubscriptionView>(init, before[i]);
                assert(pairs[l].0 == before[i]);
                assert(ElectrumScriptHash::before(pairs[l].0, pairs[pairs.len() - 1].0));
            } else {
                assert(keys[j] == before[j]);
            }
        }
    } else {
        assert forall|hash: ElectrumScriptHash| map.contains_key(hash) implies false by {
            let j = map_of_index::<ElectrumScriptHash, ScriptSubscriptionView>(pairs, hash);
        }
    }
}

/// Activity never makes the last active index of a keychain smaller, nor does it touch another
/// keychain.
pub proof fn last_active_never_decreases<KV>(
    indices: Map<KV, u32>,
    keychain: KV,
    index: u32,
    other: KV,
)
    ensures
        bumped(indices, keychain, index).contains_key(keychain),
        bumped(indices, keychain, index)[keychain] >= index,
        indices.contains_key(other) ==> bumped(indices, keychain, index).contains_key(other)
            && bumped(indices, keychain, index)[other] >= indices[other],
        other != keychain ==> bumped(indices, keychain, index).get(other) == indices.get(other),
{
}

/// Activity at the edge of what is tracked extends it: once the scripts beyond a script that turned out
/// to be in use are subscribed, its keychain is known to be used up to there, the new scripts are
/// tracked, and what was tracked before still is.
pub proof fn edge_activity_extends_tracking<KV>(
    state: SubscriptionStateView<KV>,
    keychain: KV,
    new_active_index: u32,
    new_max_subscribed: u32,
    script_hashes: Seq<ElectrumScriptHash>,
    scripts: Seq<(ElectrumScriptHash, u32)>,
    hash: ElectrumScriptHash,
)
    ensures
        ({
            let after = extended(
                state,
                keychain,
                new_active_index,
                new_max_subscribed,
                script_hashes,
                scripts,
            );
            &&& after.last_active_indices.contains_key(keychain)
            &&& after.last_active_indices[keychain] >= new_active_index
            &&& after.max_subscribed_indices.get(keychain) == Some(new_max_subscribed)
            &&& script_hashes.contains(hash) || state.subscribed_scripts.contains(hash)
                ==> after.subscribed_scripts.contains(hash)
            &&& lists_script(scripts, hash) || state.script_subscriptions.contains_key(hash)
                ==> after.script_subscriptions.contains_key(hash)
            &&& lists_script(scripts, hash) ==> after.script_to_keychain_index.contains_key(hash)
                && after.script_to_keychain_index[hash].0 == keychain
            &&& state.script_to_keychain_index.contains_key(hash)
                ==> after.script_to_keychain_index.contains_key(hash)
        }),
{
    if script_hashes.contains(hash) {
        assert(script_hashes.to_set().contains(hash));
    }
    indices_are_kept(state.script_to_keychain_index, keychain, scripts, hash);
}

proof fn indices_are_kept<KV>(
    indices: Map<ElectrumScriptHash, (KV, u32)>,
    keychain: KV,
    scripts: Seq<(ElectrumScriptHash, u32)>,
    hash: ElectrumScriptHash,
)
    ensures
        indices.contains_key(hash) || lists_script(scripts, hash) ==> with_indices(
            indices,
            keychain,
            scripts,
        ).contains_key(hash),
        lists_script(scripts, hash) ==> with_indices(indices, keychain, scripts)[hash].0 == keychain,
    decreases scripts.len(),
{
    if scripts.len() > 0 {
        indices_are_kept(indices, keychain, scripts.drop_last(), hash);
        if lists_script(scripts, hash) {
            let i = choose|i: int| 0 <= i < scripts.len() && (#[trigger] scripts[i]).0 == hash;
            if i < scripts.len() - 1 {
                assert(scripts.drop_last()[i].0 == hash);
            }
        }
    }
}

/// A script whose place is listed has it afterwards: the keychain, with the index of its last listing. A
/// script that is not listed keeps its place.
pub proof fn listed_scripts_have_their_places<KV>(
    indices: Map<ElectrumScriptHash, (KV, u32)>,
    keychain: KV,
    scripts: Seq<(ElectrumScriptHash, u32)>,
    i: int,
    other: ElectrumScriptHash,
)
    ensures
        0 <= i < scripts.len() && (forall|j: int|
            i < j < scripts.len() ==> (#[trigger] scripts[j]).0 != scripts[i].0) ==> with_indices(
            indices,
            keychain,
            scripts,
        ).get(scripts[i].0) == Some((keychain, scripts[i].1)),
        (forall|j: int| 0 <= j < scripts.len() ==> (#[trigger] scripts[j]).0 != other)
            ==> with_indices(indices, keychain, scripts).get(other) == indices.get(other),
    decreases scripts.len(),
{
    if scripts.len() > 0 {
        let init = scripts.drop_last();
        listed_scripts_have_their_places(indices, keychain, init, i, other);
        assert forall|j: int| 0 <= j < init.len() implies #[trigger] init[j] == scripts[j] by {}
        assert(scripts[scripts.len() - 1] == scripts.last());
        if 0 <= i < init.len() && (forall|j: int|
            i < j < scripts.len() ==> (#[trigger] scripts[j]).0 != scripts[i].0) {
            assert forall|j: int| i < j < init.len() implies (#[trigger] init[j]).0
                != init[i].0 by {
                assert(scripts[j].0 != scripts[i].0);
            }
        }
        if forall|j: int| 0 <= j < scripts.len() ==> (#[trigger] scripts[j]).0 != other {
            assert forall|j: int| 0 <= j < init.len() implies (#[trigger] init[j]).0 != other by {
                assert(scripts[j].0 != other);
            }
        }
    }
}

/// After an extension every script of it is subscribed to, the keychain is subscribed to up to the new
/// index, and its last active index is the greater of the new one and the one before. The indices of other
/// keychains, the other scripts, and what is expected of scripts that were known stay.
pub proof fn an_extension_adds_its_scripts<KV>(
    state: SubscriptionStateView<KV>,
    keychain: KV,
    active: u32,
    last: u32,
    hashes: Seq<ElectrumScriptHash>,
    scripts: Seq<(ElectrumScriptHash, u32)>,
    i: int,
    hash: ElectrumScriptHash,
    other: KV,
)
    ensures
        ({
            let after = extended(state, keychain, active, last, hashes, scripts);
            &&& 0 <= i < hashes.len() ==> after.subscribed_scripts.contains(hashes[i])
            &&& after.subscribed_scripts.contains(hash) ==> state.subscribed_scripts.contains(hash)
                || hashes.contains(hash)
            &&& state.subscribed_scripts.contains(hash) ==> after.subscribed_scripts.contains(hash)
            &&& after.max_subscribed_indices.get(keychain) == Some(last)
            &&& after.last_active_indices.contains_key(keychain)
            &&& state.last_active_indices.contains_key(keychain)
                && state.last_active_indices[keychain] > active
                ==> after.last_active_indices[keychain] == state.last_active_indices[keychain]
            &&& !state.last_active_indices.contains_key(keychain)
                || state.last_active_indices[keychain] <= active
                ==> after.last_active_indices[keychain] == active
            &&& other != keychain ==> after.max_subscribed_indices.get(other)
                == state.max_subscribed_indices.get(other) && after.last_active_indices.get(other)
                == state.last_active_indices.get(other)
            &&& state.script_subscriptions.contains_key(hash) ==> after.script_subscriptions.get(
                hash,
            ) == state.script_subscriptions.get(hash)
            &&& 0 <= i < scripts.len() && !state.script_subscriptions.contains_key(scripts[i].0)
                ==> after.script_subscriptions.contains_key(scripts[i].0)
                && after.script_subscriptions[scripts[i].0].last_status is None
                && after.script_subscriptions[scripts[i].0].expected_tx_heights == Map::<
                Txid,
                i64,
            >::empty()
            &&& 0 <= i < scripts.len() && (forall|j: int|
                i < j < scripts.len() ==> (#[trigger] scripts[j]).0 != scripts[i].0)
                ==> after.script_to_keychain_index.get(scripts[i].0) == Some(
                (keychain, scripts[i].1),
            )
            &&& (forall|j: int| 0 <= j < scripts.len() ==> (#[trigger] scripts[j]).0 != hash)
                ==> after.script_to_keychain_index.get(hash) == state.script_to_keychain_index.get(
                hash,
            ) && after.script_subscriptions.get(hash) == state.script_subscriptions.get(hash)
        }),
{
    listed_scripts_have_their_places(state.script_to_keychain_index, keychain, scripts, i, hash);
    if 0 <= i < hashes.len() {
        assert(hashes.contains(hashes[i]));
    }
    if 0 <= i < scripts.len() {
        assert(lists_script(scripts, scripts[i].0));
    }
}

/// A script is looked at again for its unconfirmed transactions exactly where one is expected that has no
/// positive height.
pub proof fn unconfirmed_is_what_has_no_height(expected: Map<Txid, i64>, txid: Txid)
    ensures
        expected.contains_key(txid) && expected[txid] < 1 ==> expects_unconfirmed(expected),
        (forall|listed: Txid| #[trigger]
            expected.contains_key(listed) ==> expected[listed] >= 1) ==> !expects_unconfirmed(
            expected,
        ),
{
}

} // verus!
