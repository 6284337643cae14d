//! The client that subscribes to the scripts of a wallet, and what notifications of them bring.
use bdk_core::CheckPoint;
use vstd::prelude::*;

use crate::bdk::client::BdkElectrumClient as CachingClient;
use crate::bdk::response::{FullScanResponse, SyncResponse};
use crate::bdk::scan::{
    add_difference, histories_of, history_txids, holds_txid, SpkWithExpectedTxids,
};
use crate::chain::{copy_tip, tip_blocks, Header};
use crate::electrum::notification::ElectrumNotification;
use crate::electrum::status::ElectrumConnectionStatus;
use crate::electrum::types::Tx;
use crate::hash::{electrum_script_hash, hash_script, ElectrumScriptHash, Txid};
use crate::ordered::{Key, OrderedMap, OrderedSet, Value};
use crate::tx::{empty_update, TransactionView, TxUpdate, TxUpdateView};

verus! {

/// Information about a subscribed script.
#[derive(Debug, PartialEq)]
pub struct ScriptSubscription {
    /// The set of transaction ids we've seen for this script.
    pub expected_txids: OrderedSet<Txid>,
}

impl View for ScriptSubscription {
    type V = Set<Txid>;

    open spec fn view(&self) -> Set<Txid> {
        self.expected_txids@
    }
}

impl Value for ScriptSubscription {
    fn replica(&self) -> (r: Self) {
        ScriptSubscription { expected_txids: self.expected_txids.replica() }
    }

    fn same(&self, other: &Self) -> (r: bool) {
        self.expected_txids.same(&other.expected_txids)
    }
}

impl ScriptSubscription {
    /// A subscription with the transactions that were seen.
    pub fn new(expected_txids: OrderedSet<Txid>) -> (r: Self)
        ensures
            r@ == expected_txids@,
    {
        ScriptSubscription { expected_txids }
    }
}

/// The scripts of a wallet that a stream of updates is about.
#[derive(Debug, PartialEq)]
pub struct SubscriptionCtx<K: Key> {
    /// The scripts that are subscribed.
    pub subscribed_scripts: OrderedSet<ElectrumScriptHash>,
    /// The keychain and index of each script.
    pub script_to_keychain_index: OrderedMap<ElectrumScriptHash, (K, u32)>,
    /// Last active derivation index per keychain.
    pub last_active_indices: OrderedMap<K, u32>,
    /// The chain that is known.
    pub chain_tip: Option<CheckPoint>,
}

/// The last active index of a keychain, which is zero where none is known.
pub open spec fn last_or_zero<KV>(indices: Map<KV, u32>, keychain: KV) -> u32 {
    if indices.contains_key(keychain) {
        indices[keychain]
    } else {
        0
    }
}

impl<K: Key> SubscriptionCtx<K> {
    /// What a stream begins with: the scripts that a full scan subscribed, where they stand, and the
    /// chain that it found.
    pub fn new(
        subscribed_scripts: OrderedSet<ElectrumScriptHash>,
        script_to_keychain_index: OrderedMap<ElectrumScriptHash, (K, u32)>,
        response: &FullScanResponse<K>,
    ) -> (r: Self)
        ensures
            r.subscribed_scripts == subscribed_scripts,
            r.script_to_keychain_index == script_to_keychain_index,
            r.last_active_indices@ == response.last_active_indices@,
            tip_blocks(r.chain_tip) == tip_blocks(response.chain_update),
    {
        SubscriptionCtx {
            subscribed_scripts,
            script_to_keychain_index,
            last_active_indices: response.last_active_indices.replica(),
            chain_tip: copy_tip(&response.chain_update),
        }
    }

    /// Whether a script is subscribed.
    pub fn has_script(&self, hash: &ElectrumScriptHash) -> (r: bool)
        ensures
            r == self.subscribed_scripts@.contains(*hash),
    {
        self.subscribed_scripts.contains(hash)
    }

    /// The keychain and index of a script.
    pub fn keychain_index(&self, hash: &ElectrumScriptHash) -> (r: Option<(K, u32)>)
        ensures
            match r {
                Some(place) => self.script_to_keychain_index@.get(*hash) == Some(
                    (place.0@, place.1),
                ),
                None => !self.script_to_keychain_index@.contains_key(*hash),
            },
    {
        match self.script_to_keychain_index.get(hash) {
            Some(place) => Some((place.0.replica(), place.1)),
            None => None,
        }
    }

    /// The keychain and index up to which scripts are in use, where more scripts of the keychain have
    /// to be subscribed for that.
    pub fn needs_extension(&self, hash: &ElectrumScriptHash) -> (r: Option<(K, u32)>)
        ensures
            ({
                let places = self.script_to_keychain_index@;
                let last = self.last_active_indices@;
                match r {
                    Some(target) => places.get(*hash) == Some((target.0@, target.1)) && target.1
                        > last_or_zero(last, target.0@),
                    None => !places.contains_key(*hash) || places[*hash].1 <= last_or_zero(
                        last,
                        places[*hash].0,
                    ),
                }
            }),
    {
        match self.keychain_index(hash) {
            Some((keychain, current_index)) => {
                let last: u32 = match self.last_active_indices.get(&keychain) {
                    Some(last) => *last,
                    None => 0,
                };
                if current_index > last {
                    Some((keychain, current_index))
                } else {
                    None
                }
            },
            None => None,
        }
    }
}

/// Wrapper around an Electrum client which includes an internal in-memory transaction cache to avoid
/// re-fetching already downloaded transactions, and which knows the scripts that are subscribed.
#[derive(Debug)]
pub struct BdkElectrumClient<C> {
    /// The client with its caches.
    pub client: CachingClient<C>,
    /// What is expected of each script that is subscribed.
    pub subscription_tracker: OrderedMap<ElectrumScriptHash, ScriptSubscription>,
}

/// Whether a scan goes through a script that has a history.
pub open spec fn is_active(histories: Seq<Seq<Tx>>, i: int) -> bool {
    histories[i].len() > 0
}

/// The scripts with a history among the first `n` of some, each with the transactions in it.
pub open spec fn active_scripts_of(
    spks: Seq<(u32, SpkWithExpectedTxids)>,
    histories: Seq<Seq<Tx>>,
    n: int,
) -> Seq<(ElectrumScriptHash, Set<Txid>)>
    decreases n,
{
    if n <= 0 {
        Seq::empty()
    } else {
        let before = active_scripts_of(spks, histories, n - 1);
        if is_active(histories, n - 1) {
            before.push(
                (electrum_script_hash(spks[n - 1].1.spk@), txid_set(histories[n - 1])),
            )
        } else {
            before
        }
    }
}

/// The set of the transactions of a history.
pub open spec fn txid_set(history: Seq<Tx>) -> Set<Txid> {
    Set::new(|txid: Txid| holds_txid(history, txid))
}

/// The views of scripts to be subscribed.
pub open spec fn subscription_views(
    scripts: Seq<(ElectrumScriptHash, ScriptSubscription)>,
) -> Seq<(ElectrumScriptHash, Set<Txid>)> {
    scripts.map_values(|script: (ElectrumScriptHash, ScriptSubscription)| (script.0, script.1@))
}

/// The scripts to be subscribed after a batch of a scan: those with a history, with the transactions
/// in it.
pub fn scripts_to_subscribe(
    spks: &Vec<(u32, SpkWithExpectedTxids)>,
    histories: &Vec<Vec<Tx>>,
    count: usize,
) -> (r: Vec<(ElectrumScriptHash, ScriptSubscription)>)
    requires
        count <= spks.len(),
        count <= histories.len(),
    ensures
        subscription_views(r@) == active_scripts_of(
            spks@,
            histories_of(histories@),
            count as int,
        ),
{
    let ghost hists = histories_of(histories@);
    let mut r: Vec<(ElectrumScriptHash, ScriptSubscription)> = Vec::new();
    let mut i: usize = 0;
    proof {
        assert(subscription_views(r@) =~= active_scripts_of(spks@, hists, 0));
    }
    while i < count
        invariant
            i <= count,
            count <= spks.len(),
            count <= histories.len(),
            hists == histories_of(histories@),
            subscription_views(r@) == active_scripts_of(spks@, hists, i as int),
        decreases count - i,
    {
        proof {
            assert(hists[i as int] == histories@[i as int]@);
        }
        if histories[i].len() > 0 {
            let hash = hash_script(&spks[i].1.spk);
            let subscription = ScriptSubscription::new(history_txids(&histories[i]));
            let ghost held = r@;
            let ghost script = (hash, subscription@);
            proof {
                assert(subscription@ =~= txid_set(hists[i as int]));
            }
            r.push((hash, subscription));
            proof {
                assert(subscription_views(r@) =~= subscription_views(held).push(script));
            }
        }
        i = i + 1;
    }
    r
}

/// What is expected of scripts, with those of a list.
pub open spec fn with_scripts(
    tracker: Map<ElectrumScriptHash, Set<Txid>>,
    scripts: Seq<(ElectrumScriptHash, Set<Txid>)>,
) -> Map<ElectrumScriptHash, Set<Txid>>
    decreases scripts.len(),
{
    if scripts.len() == 0 {
        tracker
    } else {
        with_scripts(tracker, scripts.drop_last()).insert(scripts.last().0, scripts.last().1)
    }
}

/// The scripts of a list.
pub open spec fn hashes_of(
    scripts: Seq<(ElectrumScriptHash, Set<Txid>)>,
) -> Seq<ElectrumScriptHash> {
    scripts.map_values(|script: (ElectrumScriptHash, Set<Txid>)| script.0)
}

impl<C> BdkElectrumClient<C> {
    /// Creates a new client around another one.
    pub fn new(client: C) -> (r: Self)
        ensures
            r.client.handle() == client,
            r.client.txs() == Map::<Txid, TransactionView>::empty(),
            r.client.headers() == Map::<u32, Header>::empty(),
            r.subscription_tracker@ == Map::<ElectrumScriptHash, Set<Txid>>::empty(),
    {
        BdkElectrumClient {
            client: CachingClient::new(client),
            subscription_tracker: OrderedMap::new(),
        }
    }

    /// Subscribe to a batch of scripts: updates the subscription tracker with the provided scripts,
    /// adds their hashes to the provided set, and gives back what the server is to be asked for.
    pub fn subscribe_scripts(
        &mut self,
        scripts: &Vec<(ElectrumScriptHash, ScriptSubscription)>,
        subscribed_hashes: &mut OrderedSet<ElectrumScriptHash>,
    ) -> (r: Vec<ElectrumScriptHash>)
        ensures
            final(self).client == old(self).client,
            final(self).subscription_tracker@ == with_scripts(
                old(self).subscription_tracker@,
                subscription_views(scripts@),
            ),
            r@ == hashes_of(subscription_views(scripts@)),
            final(subscribed_hashes)@ == old(subscribed_hashes)@.union(r@.to_set()),
    {
        let ghost views = subscription_views(scripts@);
        let mut r: Vec<ElectrumScriptHash> = Vec::new();
        let mut i: usize = 0;
        while i < scripts.len()
            invariant
                i <= scripts.len(),
                views == subscription_views(scripts@),
                self.client == old(self).client,
                self.subscription_tracker@ == with_scripts(
                    old(self).subscription_tracker@,
                    views.take(i as int),
                ),
                r@ == hashes_of(views).take(i as int),
            decreases scripts.len() - i,
        {
            let hash = scripts[i].0;
            self.subscription_tracker.insert(hash, scripts[i].1.replica());
            r.push(hash);
            proof {
                assert(views.take(i + 1).drop_last() =~= views.take(i as int));
                assert(hashes_of(views).take(i + 1) =~= hashes_of(views).take(i as int).push(hash));
            }
            i = i + 1;
        }
        proof {
            assert(views.take(views.len() as int) =~= views);
            assert(hashes_of(views).take(views.len() as int) =~= hashes_of(views));
            assert(r@.map_values(|k: ElectrumScriptHash| k@) =~= r@);
        }
        subscribed_hashes.extend(&r);
        r
    }
}

/// What is to be done about a notification.
#[derive(Debug, PartialEq)]
pub enum StreamAction {
    /// A script has changed.
    Script(ElectrumScriptHash),
    /// There is a new block.
    Header {
        /// Its height.
        height: u32,
        /// Its header.
        header: Header,
    },
    /// Nothing, since it is not of interest.
    Ignore,
    /// Nothing, since so many notifications were missed.
    Lagged(u64),
}

/// A stream of updates, which ends with the connection.
#[derive(Debug, PartialEq)]
pub struct SubscriptionStream {
    /// Whether the connection was lost.
    pub ended: bool,
}

/// Whether a notification says that the connection was lost.
pub open spec fn says_disconnected(notification: Result<ElectrumNotification, u64>) -> bool {
    notification == Ok::<ElectrumNotification, u64>(
        ElectrumNotification::ConnectionStatusChanged(ElectrumConnectionStatus::Disconnected),
    )
}

impl SubscriptionStream {
    /// Creates a stream that processes script hash and block header notifications.
    pub fn new() -> (r: Self)
        ensures
            !r.ended,
    {
        SubscriptionStream { ended: false }
    }

    /// What is to be done about a notification, or about a number of them that were missed.
    pub fn take_notification(&mut self, notification: Result<ElectrumNotification, u64>) -> (r:
        StreamAction)
        ensures
            final(self).ended == (old(self).ended || says_disconnected(notification)),
            r == match notification {
                Ok(ElectrumNotification::ScriptHash { hash, status }) => StreamAction::Script(hash),
                Ok(ElectrumNotification::BlockHeader { height, header }) => StreamAction::Header {
                    height,
                    header,
                },
                Ok(_) => StreamAction::Ignore,
                Err(n) => StreamAction::Lagged(n),
            },
    {
        match notification {
            Ok(ElectrumNotification::ScriptHash { hash, .. }) => StreamAction::Script(hash),
            Ok(ElectrumNotification::BlockHeader { height, header }) => {
                StreamAction::Header { height, header }
            },
            Ok(ElectrumNotification::ConnectionStatusChanged(status)) => {
                if status.is_disconnected() {
                    self.ended = true;
                }
                StreamAction::Ignore
            },
            Ok(ElectrumNotification::Shutdown) => StreamAction::Ignore,
            Err(n) => StreamAction::Lagged(n),
        }
    }
}

/// What is to be done about a script that has changed.
#[derive(Debug, PartialEq)]
pub enum ScriptAction<K: Key> {
    /// Nothing: it does not belong to the wallet.
    Ignore,
    /// Its history is looked at.
    Process,
    /// More scripts of a keychain are subscribed, beyond an index, and then its history is looked at.
    ExtendAndProcess {
        /// The keychain.
        keychain: K,
        /// The index.
        index: u32,
    },
}

/// Handle script hash notification and check if we need to subscribe to new addresses.
pub fn handle_script_hash_notification<K: Key>(
    ctx: &SubscriptionCtx<K>,
    hash: &ElectrumScriptHash,
) -> (r: ScriptAction<K>)
    ensures
        ({
            let places = ctx.script_to_keychain_index@;
            let last = ctx.last_active_indices@;
            let extends = places.contains_key(*hash) && places[*hash].1 > last_or_zero(
                last,
                places[*hash].0,
            );
            match r {
                ScriptAction::Ignore => !ctx.subscribed_scripts@.contains(*hash),
                ScriptAction::Process => ctx.subscribed_scripts@.contains(*hash) && !extends,
                ScriptAction::ExtendAndProcess { keychain, index } => {
                    &&& ctx.subscribed_scripts@.contains(*hash)
                    &&& extends
                    &&& places[*hash] == (keychain@, index)
                },
            }
        }),
{
    if !ctx.has_script(hash) {
        return ScriptAction::Ignore;
    }
    match ctx.needs_extension(hash) {
        Some((keychain, index)) => ScriptAction::ExtendAndProcess { keychain, index },
        None => ScriptAction::Process,
    }
}

/// The hashes of scripts with their indices.
pub open spec fn hashed_scripts(scripts: Seq<(u32, Vec<u8>)>) -> Seq<(ElectrumScriptHash, u32)> {
    scripts.map_values(|script: (u32, Vec<u8>)| (electrum_script_hash(script.1@), script.0))
}

/// The hashes of scripts with their indices, without the indices.
pub open spec fn script_hashes_of(
    scripts: Seq<(ElectrumScriptHash, u32)>,
) -> Seq<ElectrumScriptHash> {
    scripts.map_values(|script: (ElectrumScriptHash, u32)| script.0)
}

/// The hashes of scripts with their indices, without the indices.
pub fn hashes_of_pairs(scripts: &Vec<(ElectrumScriptHash, u32)>) -> (r: Vec<ElectrumScriptHash>)
    ensures
        r@ == script_hashes_of(scripts@),
{
    let ghost hashes = script_hashes_of(scripts@);
    let mut r: Vec<ElectrumScriptHash> = Vec::new();
    let mut i: usize = 0;
    while i < scripts.len()
        invariant
            i <= scripts.len(),
            hashes == script_hashes_of(scripts@),
            r@ == hashes.take(i as int),
        decreases scripts.len() - i,
    {
        r.push(scripts[i].0);
        proof {
            assert(hashes.take(i + 1) =~= hashes.take(i as int).push(hashes[i as int]));
        }
        i = i + 1;
    }
    proof {
        assert(hashes.take(scripts@.len() as int) =~= hashes);
    }
    r
}

/// How many scripts of a keychain come before those that are subscribed when an index turns out to be
/// in use: those up to the index.
pub fn scripts_before_extension(new_active_index: u32) -> (r: u64)
    ensures
        r == new_active_index + 1,
{
    new_active_index as u64 + 1
}

/// The hashes of some scripts of a keychain that are to be subscribed.
pub fn incremental_scripts(scripts: &Vec<(u32, Vec<u8>)>) -> (r: Vec<(ElectrumScriptHash, u32)>)
    ensures
        r@ == hashed_scripts(scripts@),
{
    let mut r: Vec<(ElectrumScriptHash, u32)> = Vec::new();
    let mut i: usize = 0;
    while i < scripts.len()
        invariant
            i <= scripts.len(),
            r@ == hashed_scripts(scripts@).take(i as int),
        decreases scripts.len() - i,
    {
        r.push((hash_script(&scripts[i].1), scripts[i].0));
        proof {
            assert(hashed_scripts(scripts@).take(i + 1) =~= hashed_scripts(scripts@).take(
                i as int,
            ).push(hashed_scripts(scripts@)[i as int]));
        }
        i = i + 1;
    }
    proof {
        assert(hashed_scripts(scripts@).take(scripts@.len() as int) =~= hashed_scripts(scripts@));
    }
    r
}

/// Scripts of which nothing is expected yet.
pub open spec fn fresh_scripts(
    scripts: Seq<(ElectrumScriptHash, u32)>,
) -> Seq<(ElectrumScriptHash, Set<Txid>)> {
    scripts.map_values(
        |script: (ElectrumScriptHash, u32)| (script.0, Set::<Txid>::empty()),
    )
}

/// The places of scripts with those of a list.
pub open spec fn with_places<KV>(
    places: Map<ElectrumScriptHash, (KV, u32)>,
    keychain: KV,
    scripts: Seq<(ElectrumScriptHash, u32)>,
) -> Map<ElectrumScriptHash, (KV, u32)>
    decreases scripts.len(),
{
    if scripts.len() == 0 {
        places
    } else {
        with_places(places, keychain, scripts.drop_last()).insert(
            scripts.last().0,
            (keychain, scripts.last().1),
        )
    }
}

impl<C> BdkElectrumClient<C> {
    /// Subscribe incrementally to new addresses when a transaction is detected on a higher index:
    /// takes note of the scripts that were subscribed for that, once they were. Without such scripts
    /// nothing changes.
    pub fn subscribe_incremental<K: Key>(
        &mut self,
        ctx: &mut SubscriptionCtx<K>,
        keychain: K,
        new_active_index: u32,
        scripts: &Vec<(ElectrumScriptHash, u32)>,
    )
        ensures
            final(self).client == old(self).client,
            final(self).subscription_tracker@ == with_scripts(
                old(self).subscription_tracker@,
                fresh_scripts(scripts@),
            ),
            tip_blocks(final(ctx).chain_tip) == tip_blocks(old(ctx).chain_tip),
            final(ctx).subscribed_scripts@ == old(ctx).subscribed_scripts@.union(
                script_hashes_of(scripts@).to_set(),
            ),
            final(ctx).script_to_keychain_index@ == with_places(
                old(ctx).script_to_keychain_index@,
                keychain@,
                scripts@,
            ),
            final(ctx).last_active_indices@ == if scripts@.len() == 0 {
                old(ctx).last_active_indices@
            } else {
                old(ctx).last_active_indices@.insert(keychain@, new_active_index)
            },
    {
        let ghost hashes = script_hashes_of(scripts@);
        let mut script_hashes: Vec<ElectrumScriptHash> = Vec::new();
        let mut i: usize = 0;
        proof {
            assert(fresh_scripts(scripts@).take(0) =~= Seq::<(ElectrumScriptHash, Set<Txid>)>::empty());
        }
        while i < scripts.len()
            invariant
                i <= scripts.len(),
                hashes == script_hashes_of(scripts@),
                self.client == old(self).client,
                self.subscription_tracker@ == with_scripts(
                    old(self).subscription_tracker@,
                    fresh_scripts(scripts@).take(i as int),
                ),
                ctx.chain_tip == old(ctx).chain_tip,
                ctx.subscribed_scripts == old(ctx).subscribed_scripts,
                ctx.last_active_indices == old(ctx).last_active_indices,
                ctx.script_to_keychain_index@ == with_places(
                    old(ctx).script_to_keychain_index@,
                    keychain@,
                    scripts@.take(i as int),
                ),
                script_hashes@ == hashes.take(i as int),
            decreases scripts.len() - i,
        {
            let (hash, index) = scripts[i];
            self.subscription_tracker.insert(hash, ScriptSubscription::new(OrderedSet::new()));
            ctx.script_to_keychain_index.insert(hash, (keychain.replica(), index));
            script_hashes.push(hash);
            proof {
                let fresh = fresh_scripts(scripts@);
                assert(fresh.take(i + 1).drop_last() =~= fresh.take(i as int));
                assert(scripts@.take(i + 1).drop_last() =~= scripts@.take(i as int));
                assert(hashes.take(i + 1) =~= hashes.take(i as int).push(hash));
            }
            i = i + 1;
        }
        proof {
            assert(fresh_scripts(scripts@).take(scripts@.len() as int) =~= fresh_scripts(scripts@));
            assert(scripts@.take(scripts@.len() as int) =~= scripts@);
            assert(hashes.take(scripts@.len() as int) =~= hashes);
            assert(script_hashes@.map_values(|k: ElectrumScriptHash| k@) =~= script_hashes@);
        }
        ctx.subscribed_scripts.extend(&script_hashes);
        if scripts.len() > 0 {
            ctx.last_active_indices.insert(keychain, new_active_index);
        }
    }
}

/// What a history of a script says that was not expected.
#[derive(Debug, PartialEq)]
pub struct ScriptUpdate {
    /// An update with what is gone.
    pub tx_update: TxUpdate,
    /// The entries that are new.
    pub entries: Vec<Tx>,
    /// The transactions that are in the history now.
    pub current_txids: OrderedSet<Txid>,
}

/// The entries of a history for transactions that were not expected.
pub open spec fn unexpected_entries(history: Seq<Tx>, expected: Set<Txid>) -> Seq<Tx>
    decreases history.len(),
{
    if history.len() == 0 {
        Seq::empty()
    } else {
        let before = unexpected_entries(history.drop_last(), expected);
        if expected.contains(history.last().txid) {
            before
        } else {
            before.push(history.last())
        }
    }
}

/// The transactions that were expected and are not in a history, with the time at which that is
/// noticed.
pub open spec fn gone_from(
    expected: Set<Txid>,
    history: Seq<Tx>,
    start_time: u64,
) -> Set<(Txid, u64)> {
    Set::new(
        |gone: (Txid, u64)|
            gone.1 == start_time && expected.contains(gone.0) && !holds_txid(history, gone.0),
    )
}

impl<C> BdkElectrumClient<C> {
    /// Whether the history of a script has to be fetched to process a notification of it: only where
    /// the script is tracked.
    pub fn tracks_script(&self, script_hash: &ElectrumScriptHash) -> (r: bool)
        ensures
            r == self.subscription_tracker@.contains_key(*script_hash),
    {
        self.subscription_tracker.contains_key(script_hash)
    }

    /// Process a script hash notification, once the history of the script was fetched: what changed,
    /// if anything did. Transactions that are gone are evicted, and those that are new are to be
    /// followed up.
    pub fn process_script_hash_update(
        &self,
        script_hash: &ElectrumScriptHash,
        history: &Vec<Tx>,
        start_time: u64,
    ) -> (r: Option<ScriptUpdate>)
        ensures
            ({
                let tracker = self.subscription_tracker@;
                let expected = tracker[*script_hash];
                let current = txid_set(history@);
                match r {
                    None => !tracker.contains_key(*script_hash) || expected == current,
                    Some(update) => {
                        &&& tracker.contains_key(*script_hash)
                        &&& expected != current
                        &&& update.current_txids@ == current
                        &&& update.entries@ == unexpected_entries(history@, expected)
                        &&& update.tx_update@ == (TxUpdateView {
                            evicted_ats: gone_from(expected, history@, start_time),
                            ..empty_update()
                        })
                    },
                }
            }),
    {
        let Some(subscription) = self.subscription_tracker.get(script_hash) else {
            // Not tracking this script, ignore
            return None;
        };
        let expected_txids = &subscription.expected_txids;
        let current_txids = history_txids(history);
        proof {
            assert(current_txids@ =~= txid_set(history@));
        }
        // Check if there are any changes
        if current_txids.same(expected_txids) {
            return None;
        }
        let mut tx_update = TxUpdate::new();
        add_difference(&mut tx_update.evicted_ats, expected_txids, &current_txids, start_time);
        proof {
            assert(tx_update@.evicted_ats =~= gone_from(expected_txids@, history@, start_time));
        }
        let mut entries: Vec<Tx> = Vec::new();
        let mut i: usize = 0;
        while i < history.len()
            invariant
                i <= history.len(),
                entries@ == unexpected_entries(history@.take(i as int), expected_txids@),
            decreases history.len() - i,
        {
            proof {
                assert(history@.take(i + 1).drop_last() =~= history@.take(i as int));
            }
            if !expected_txids.contains(&history[i].txid()) {
                entries.push(history[i]);
            }
            i = i + 1;
        }
        proof {
            assert(history@.take(history@.len() as int) =~= history@);
        }
        Some(ScriptUpdate { tx_update, entries, current_txids })
    }

    /// Update our tracker with the new expected transactions of a script, where it is tracked, and
    /// makes the response.
    pub fn finish_script_hash_update(
        &mut self,
        script_hash: ElectrumScriptHash,
        current_txids: OrderedSet<Txid>,
        tx_update: TxUpdate,
    ) -> (r: SyncResponse)
        ensures
            r == (SyncResponse { tx_update, chain_update: None }),
            final(self).client == old(self).client,
            final(self).subscription_tracker@ == if old(
                self,
            ).subscription_tracker@.contains_key(script_hash) {
                old(self).subscription_tracker@.insert(script_hash, current_txids@)
            } else {
                old(self).subscription_tracker@
            },
    {
        if self.subscription_tracker.contains_key(&script_hash) {
            self.subscription_tracker.insert(script_hash, ScriptSubscription::new(current_txids));
        }
        SyncResponse { tx_update, chain_update: None }
    }
}

/// After an update was made of a history of a script, the same history changes nothing: each change
/// is reported once.
pub proof fn same_history_changes_nothing(
    tracker: Map<ElectrumScriptHash, Set<Txid>>,
    script_hash: ElectrumScriptHash,
    history: Seq<Tx>,
)
    requires
        tracker.contains_key(script_hash),
    ensures
        ({
            let after = tracker.insert(script_hash, txid_set(history));
            &&& after.contains_key(script_hash)
            &&& after[script_hash] == txid_set(history)
            &&& unexpected_entries(history, after[script_hash]) == Seq::<Tx>::empty()
        }),
{
    nothing_is_unexpected(history, txid_set(history));
}

proof fn nothing_is_unexpected(history: Seq<Tx>, expected: Set<Txid>)
    requires
        forall|i: int| 0 <= i < history.len() ==> expected.contains((#[trigger] history[i]).txid),
    ensures
        unexpected_entries(history, expected) == Seq::<Tx>::empty(),
    decreases history.len(),
{
    if history.len() > 0 {
        assert forall|i: int| 0 <= i < history.drop_last().len() implies expected.contains(
            (#[trigger] history.drop_last()[i]).txid,
        ) by {
            assert(history.drop_last()[i] == history[i]);
        }
        nothing_is_unexpected(history.drop_last(), expected);
        assert(expected.contains(history[history.len() - 1].txid));
    }
}

/// Each script with a history is subscribed to, with all the transactions of its history; a script without
/// one is not.
pub proof fn scripts_with_a_history_are_subscribed_to(
    spks: Seq<(u32, SpkWithExpectedTxids)>,
    histories: Seq<Seq<Tx>>,
    n: int,
    i: int,
    k: int,
)
    requires
        0 <= n <= spks.len(),
        n <= histories.len(),
    ensures
        0 <= i < n && histories[i].len() > 0 ==> active_scripts_of(spks, histories, n).contains(
            (electrum_script_hash(spks[i].1.spk@), txid_set(histories[i])),
        ),
        0 <= k < active_scripts_of(spks, histories, n).len() ==> exists|j: int|
            0 <= j < n && histories[j].len() > 0 && active_scripts_of(spks, histories, n)[k] == (
                electrum_script_hash((#[trigger] spks[j]).1.spk@),
                txid_set(histories[j]),
            ),
    decreases n,
{
    if n > 0 {
        let before = active_scripts_of(spks, histories, n - 1);
        let after = active_scripts_of(spks, histories, n);
        scripts_with_a_history_are_subscribed_to(spks, histories, n - 1, i, k);
        if 0 <= i < n && histories[i].len() > 0 {
            let script = (electrum_script_hash(spks[i].1.spk@), txid_set(histories[i]));
            if i < n - 1 {
                let at = choose|at: int| 0 <= at < before.len() && before[at] == script;
                assert(after[at] == script);
            } else {
                assert(after[before.len() as int] == script);
            }
        }
        if 0 <= k < before.len() {
            assert(after[k] == before[k]);
            let j = choose|j: int|
                0 <= j < n - 1 && histories[j].len() > 0 && before[k] == (
                    electrum_script_hash((#[trigger] spks[j]).1.spk@),
                    txid_set(histories[j]),
                );
            assert(after[k] == (electrum_script_hash(spks[j].1.spk@), txid_set(histories[j])));
        } else if 0 <= k < after.len() {
            assert(after[k] == (
                electrum_script_hash(spks[n - 1].1.spk@),
                txid_set(histories[n - 1]),
            ));
        }
    }
}

/// The transactions of a history are those that it lists.
pub proof fn txids_of_a_history_are_those_listed(history: Seq<Tx>, i: int, txid: Txid)
    ensures
        0 <= i < history.len() ==> txid_set(history).contains(history[i].txid),
        txid_set(history).contains(txid) ==> exists|j: int|
            0 <= j < history.len() && (#[trigger] history[j]).txid == txid,
{
}

/// Of each script that is subscribed to, what its last listing says is expected; of any other script, what
/// was expected before.
pub proof fn subscribed_scripts_are_tracked_as_listed(
    tracker: Map<ElectrumScriptHash, Set<Txid>>,
    scripts: Seq<(ElectrumScriptHash, Set<Txid>)>,
    i: int,
    other: ElectrumScriptHash,
)
    ensures
        0 <= i < scripts.len() && (forall|j: int|
            i < j < scripts.len() ==> (#[trigger] scripts[j]).0 != scripts[i].0) ==> with_scripts(
            tracker,
            scripts,
        ).get(scripts[i].0) == Some(scripts[i].1),
        (forall|j: int| 0 <= j < scripts.len() ==> (#[trigger] scripts[j]).0 != other)
            ==> with_scripts(tracker, scripts).get(other) == tracker.get(other),
        hashes_of(scripts).len() == scripts.len(),
        0 <= i < scripts.len() ==> hashes_of(scripts)[i] == scripts[i].0,
    decreases scripts.len(),
{
    if scripts.len() > 0 {
        let init = scripts.drop_last();
        subscribed_scripts_are_tracked_as_listed(tracker, init, i, other);
        assert forall|j: int| 0 <= j < init.len() implies #[trigger] init[j] == scripts[j] by {}
        assert(scripts[scripts.len() - 1] == scripts.last());
        if 0 <= i < init.len() && (forall|j: int|
            i < j < scripts.len() ==> (#[trigger] scripts[j]).0 != scripts[i].0) {
            assert forall|j: int| i < j < init.len() implies (#[trigger] init[j]).0
                != init[i].0 by {
                assert(scripts[j].0 != scripts[i].0);
            }
        }
        if forall|j: int| 0 <= j < scripts.len() ==> (#[trigger] scripts[j]).0 != other {
            assert forall|j: int| 0 <= j < init.len() implies (#[trigger] init[j]).0 != other by {
                assert(scripts[j].0 != other);
            }
        }
    }
}

/// Each further script is known by the hash of its bytes and by its index, one by one and in order, and
/// nothing is expected of it yet.
pub proof fn further_scripts_are_taken_one_by_one(scripts: Seq<(u32, Vec<u8>)>, i: int)
    requires
        0 <= i < scripts.len(),
    ensures
        hashed_scripts(scripts).len() == scripts.len(),
        hashed_scripts(scripts)[i] == (electrum_script_hash(scripts[i].1@), scripts[i].0),
        script_hashes_of(hashed_scripts(scripts)).len() == scripts.len(),
        script_hashes_of(hashed_scripts(scripts))[i] == electrum_script_hash(scripts[i].1@),
        fresh_scripts(hashed_scripts(scripts)).len() == scripts.len(),
        fresh_scripts(hashed_scripts(scripts))[i] == (
            electrum_script_hash(scripts[i].1@),
            Set::<Txid>::empty(),
        ),
{
}

/// A further script has its place afterwards: the keychain, with the index of its last listing. Another
/// script keeps its place.
pub proof fn further_scripts_have_their_places<KV>(
    places: Map<ElectrumScriptHash, (KV, u32)>,
    keychain: KV,
    scripts: Seq<(ElectrumScriptHash, u32)>,
    i: int,
    other: ElectrumScriptHash,
)
    ensures
        0 <= i < scripts.len() && (forall|j: int|
            i < j < scripts.len() ==> (#[trigger] scripts[j]).0 != scripts[i].0) ==> with_places(
            places,
            keychain,
            scripts,
        ).get(scripts[i].0) == Some((keychain, scripts[i].1)),
        (forall|j: int| 0 <= j < scripts.len() ==> (#[trigger] scripts[j]).0 != other)
            ==> with_places(places, keychain, scripts).get(other) == places.get(other),
    decreases scripts.len(),
{
    if scripts.len() > 0 {
        let init = scripts.drop_last();
        further_scripts_have_their_places(places, keychain, init, i, other);
        assert forall|j: int| 0 <= j < init.len() implies #[trigger] init[j] == scripts[j] by {}
        assert(scripts[scripts.len() - 1] == scripts.last());
        if 0 <= i < init.len() && (forall|j: int|
            i < j < scripts.len() ==> (#[trigger] scripts[j]).0 != scripts[i].0) {
            assert forall|j: int| i < j < init.len() implies (#[trigger] init[j]).0
                != init[i].0 by {
                assert(scripts[j].0 != scripts[i].0);
            }
        }
        if forall|j: int| 0 <= j < scripts.len() ==> (#[trigger] scripts[j]).0 != other {
            assert forall|j: int| 0 <= j < init.len() implies (#[trigger] init[j]).0 != other by {
                assert(scripts[j].0 != other);
            }
        }
    }
}

/// The entries that are followed up are those whose transactions were not expected, in order: a part of a
/// history has the same ones alone and as part of the whole.
pub proof fn unexpected_entries_are_followed_up(
    history: Seq<Tx>,
    more: Seq<Tx>,
    expected: Set<Txid>,
)
    ensures
        unexpected_entries(history + more, expected) == unexpected_entries(history, expected)
            + unexpected_entries(more, expected),
        history.len() == 1 && !expected.contains(history[0].txid) ==> unexpected_entries(
            history,
            expected,
        ) == history,
        history.len() == 1 && expected.contains(history[0].txid) ==> unexpected_entries(
            history,
            expected,
        ).len() == 0,
    decreases more.len(),
{
    reveal_with_fuel(unexpected_entries, 2);
    if history.len() == 1 {
        assert(history.drop_last().len() == 0);
        assert(history.last() == history[0]);
        if !expected.contains(history[0].txid) {
            assert(unexpected_entries(history, expected) =~= history);
        }
    }
    if more.len() == 0 {
        assert(history + more =~= history);
        assert(unexpected_entries(history, expected) + unexpected_entries(more, expected)
            =~= unexpected_entries(history, expected));
    } else {
        unexpected_entries_are_followed_up(history, more.drop_last(), expected);
        assert((history + more).drop_last() =~= history + more.drop_last());
        assert((history + more).last() == more.last());
        assert(unexpected_entries(history + more, expected) =~= unexpected_entries(
            history,
            expected,
        ) + unexpected_entries(more, expected));
    }
}

/// Each entry whose transaction was not expected is followed up.
pub proof fn every_unexpected_entry_is_followed_up(history: Seq<Tx>, expected: Set<Txid>, i: int)
    requires
        0 <= i < history.len(),
        !expected.contains(history[i].txid),
    ensures
        unexpected_entries(history, expected).contains(history[i]),
    decreases history.len(),
{
    let init = history.drop_last();
    let before = unexpected_entries(init, expected);
    let after = unexpected_entries(history, expected);
    if i < init.len() {
        every_unexpected_entry_is_followed_up(init, expected, i);
        let at = choose|at: int| 0 <= at < before.len() && before[at] == history[i];
        assert(after[at] == history[i]);
    } else {
        assert(after[before.len() as int] == history[i]);
    }
}

/// An expected transaction that the history does not list any more is gone at the given time, and nothing
/// else is.
pub proof fn unlisted_transactions_are_gone(
    expected: Set<Txid>,
    history: Seq<Tx>,
    start_time: u64,
    txid: Txid,
    time: u64,
)
    ensures
        gone_from(expected, history, start_time).contains((txid, time)) <==> time == start_time
            && expected.contains(txid) && (forall|i: int|
            0 <= i < history.len() ==> (#[trigger] history[i]).txid != txid),
{
}

/// A keychain without a last active index counts as active at index zero.
pub proof fn a_keychain_without_activity_is_at_zero<KV>(indices: Map<KV, u32>, keychain: KV)
    ensures
        indices.contains_key(keychain) ==> last_or_zero(indices, keychain) == indices[keychain],
        !indices.contains_key(keychain) ==> last_or_zero(indices, keychain) == 0,
{
}

/// Only the news that the connection is gone says so.
pub proof fn only_a_disconnect_says_so(
    notification: ElectrumNotification,
    status: ElectrumConnectionStatus,
    n: u64,
)
    ensures
        !says_disconnected(Err::<ElectrumNotification, u64>(n)),
        !(notification is ConnectionStatusChanged) ==> !says_disconnected(
            Ok::<ElectrumNotification, u64>(notification),
        ),
        says_disconnected(
            Ok::<ElectrumNotification, u64>(ElectrumNotification::ConnectionStatusChanged(status)),
        ) <==> status is Disconnected,
{
}

} // verus!
