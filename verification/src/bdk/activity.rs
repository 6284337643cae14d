//! What the histories of scripts that are followed bring.
use vstd::prelude::*;

use crate::bdk::subscription::{
    new_subscription, ScriptSubscription, ScriptSubscriptionView, SubscriptionCtx,
    SubscriptionStateView,
};
use crate::electrum::types::Tx;
use crate::hash::{ElectrumScriptHash, ElectrumScriptStatus, Txid};
use crate::ordered::{Key, OrderedMap, OrderedSet, Value};
use crate::tx::{TxUpdate, TxUpdateView};

verus! {

/// The heights of the transactions of a history.
pub open spec fn heights_of(history: Seq<Tx>) -> Map<Txid, i64>
    decreases history.len(),
{
    if history.len() == 0 {
        Map::empty()
    } else {
        heights_of(history.drop_last()).insert(history.last().txid, history.last().height)
    }
}

/// What is expected of a script. Of one without a subscription nothing is.
pub open spec fn expected_of(
    subscriptions: Map<ElectrumScriptHash, ScriptSubscriptionView>,
    hash: ElectrumScriptHash,
) -> Map<Txid, i64> {
    if subscriptions.contains_key(hash) {
        subscriptions[hash].expected_tx_heights
    } else {
        Map::empty()
    }
}

/// The entries of a history that are not expected: for a new transaction, or at another height.
pub open spec fn news_of(history: Seq<Tx>, expected: Map<Txid, i64>) -> Seq<Tx>
    decreases history.len(),
{
    if history.len() == 0 {
        Seq::empty()
    } else {
        let before = news_of(history.drop_last(), expected);
        if expected.get(history.last().txid) == Some(history.last().height) {
            before
        } else {
            before.push(history.last())
        }
    }
}

/// Whether a history holds a transaction that is not expected at any height.
pub open spec fn has_new_tx(history: Seq<Tx>, expected: Map<Txid, i64>) -> bool {
    exists|i: int|
        0 <= i < history.len() && !expected.contains_key((#[trigger] history[i]).txid)
}

/// The transactions that are expected and are not in a history, with the time at which that is
/// noticed.
pub open spec fn missing_from(
    expected: Map<Txid, i64>,
    heights: Map<Txid, i64>,
    start_time: u64,
) -> Set<(Txid, u64)> {
    Set::new(
        |gone: (Txid, u64)|
            gone.1 == start_time && expected.contains_key(gone.0) && !heights.contains_key(gone.0),
    )
}

/// What is known of the scripts, once the history of one of them is what is expected of it.
pub open spec fn with_history_expected<KV>(
    state: SubscriptionStateView<KV>,
    hash: ElectrumScriptHash,
    heights: Map<Txid, i64>,
    status: Option<Option<ElectrumScriptStatus>>,
) -> SubscriptionStateView<KV> {
    let subscription = if state.script_subscriptions.contains_key(hash) {
        state.script_subscriptions[hash]
    } else {
        new_subscription()
    };
    SubscriptionStateView {
        script_subscriptions: state.script_subscriptions.insert(
            hash,
            ScriptSubscriptionView {
                expected_tx_heights: heights,
                last_status: match status {
                    Some(status) => status,
                    None => subscription.last_status,
                },
            },
        ),
        ..state
    }
}

/// What activity on a script makes it necessary to subscribe: where its keychain was not known to be used
/// that far, the keychain, the index of the script, and from which index to which.
pub open spec fn extension_of<KV>(
    state: SubscriptionStateView<KV>,
    hash: ElectrumScriptHash,
    stop_gap: u32,
) -> Option<(KV, u32, u64, u64)> {
    match state.script_to_keychain_index.get(hash) {
        Some((keychain, index)) => if state.last_active_indices.contains_key(keychain) && index
            > state.last_active_indices[keychain] {
            let before = if state.max_subscribed_indices.contains_key(keychain) {
                state.max_subscribed_indices[keychain]
            } else {
                index
            };
            Some((keychain, index, (before + 1) as u64, (index + stop_gap) as u64))
        } else {
            None
        },
        None => None,
    }
}

/// The heights of the transactions of a history.
pub fn history_heights(history: &Vec<Tx>) -> (r: OrderedMap<Txid, i64>)
    ensures
        r@ == heights_of(history@),
{
    let mut r: OrderedMap<Txid, i64> = OrderedMap::new();
    let mut i: usize = 0;
    while i < history.len()
        invariant
            i <= history.len(),
            r@ == heights_of(history@.take(i as int)),
        decreases history.len() - i,
    {
        proof {
            assert(history@.take(i + 1).drop_last() =~= history@.take(i as int));
        }
        r.insert(history[i].txid(), history[i].electrum_height());
        i = i + 1;
    }
    proof {
        assert(history@.take(history@.len() as int) =~= history@);
    }
    r
}

/// Adds the keys of one map that are not in another, each with a time.
fn add_missing(
    target: &mut OrderedSet<(Txid, u64)>,
    expected: &OrderedMap<Txid, i64>,
    heights: &OrderedMap<Txid, i64>,
    time: u64,
)
    ensures
        final(target)@ == old(target)@.union(missing_from(expected@, heights@, time)),
{
    let n = expected.len();
    let ghost pairs = expected.pairs();
    let mut i: usize = 0;
    while i < n
        invariant
            i <= n,
            n == expected.pairs().len(),
            pairs == expected.pairs(),
            forall|e: (Txid, u64)| #[trigger]
                target@.contains(e) <==> old(target)@.contains(e) || (e.1 == time
                    && !heights@.contains_key(e.0) && exists|j: int|
                    0 <= j < i && (#[trigger] pairs[j]).0 == e.0),
        decreases n - i,
    {
        let txid = *expected.key_at(i);
        let ghost before = target@;
        proof {
            assert(pairs[i as int].0 == txid);
        }
        if !heights.contains_key(&txid) {
            target.insert((txid, time));
        }
        proof {
            assert forall|e: (Txid, u64)| #[trigger]
                target@.contains(e) <==> old(target)@.contains(e) || (e.1 == time
                    && !heights@.contains_key(e.0) && exists|j: int|
                    0 <= j < i + 1 && (#[trigger] pairs[j]).0 == e.0) by {
                assert(before.contains(e) <==> old(target)@.contains(e) || (e.1 == time
                    && !heights@.contains_key(e.0) && exists|j: int|
                    0 <= j < i && (#[trigger] pairs[j]).0 == e.0));
                if exists|j: int| 0 <= j < i && (#[trigger] pairs[j]).0 == e.0 {
                    let j = choose|j: int| 0 <= j < i && (#[trigger] pairs[j]).0 == e.0;
                    assert(pairs[j].0 == e.0);
                }
                if exists|j: int| 0 <= j < i + 1 && (#[trigger] pairs[j]).0 == e.0 {
                    let j = choose|j: int| 0 <= j < i + 1 && (#[trigger] pairs[j]).0 == e.0;
                    if j < i {
                        assert(pairs[j].0 == e.0);
                    }
                }
            }
        }
        i = i + 1;
    }
    proof {
        assert forall|e: (Txid, u64)| #[trigger]
            target@.contains(e) <==> old(target)@.union(
                missing_from(expected@, heights@, time),
            ).contains(e) by {
            if expected@.contains_key(e.0) {
                let j = choose|j: int|
                    0 <= j < expected.pairs().len() && (#[trigger] expected.pairs()[j]).0 == e.0;
                assert(pairs[j].0 == e.0);
            }
            if exists|j: int| 0 <= j < n && (#[trigger] pairs[j]).0 == e.0 {
                let j = choose|j: int| 0 <= j < n && (#[trigger] pairs[j]).0 == e.0;
                assert(expected@.contains_key(expected.pairs()[j].0));
            }
        }
        assert(target@ =~= old(target)@.union(missing_from(expected@, heights@, time)));
    }
}

/// What a history of a script brought.
#[derive(Debug, PartialEq)]
pub struct ScriptNews {
    /// The entries that were not expected.
    pub entries: Vec<Tx>,
    /// Whether there is a transaction among them that was not known.
    pub has_new_txs: bool,
}

impl<K: Key> SubscriptionCtx<K> {
    /// What a history of a script brought: what is gone is evicted, and what was not expected is given
    /// back to be followed up.
    pub fn script_news(
        &self,
        hash: &ElectrumScriptHash,
        history: &Vec<Tx>,
        start_time: u64,
        tx_update: &mut TxUpdate,
    ) -> (r: ScriptNews)
        ensures
            ({
                let expected = expected_of(self.state@.script_subscriptions, *hash);
                &&& r.entries@ == news_of(history@, expected)
                &&& r.has_new_txs == has_new_tx(history@, expected)
                &&& final(tx_update)@ == (TxUpdateView {
                    evicted_ats: old(tx_update)@.evicted_ats.union(
                        missing_from(expected, heights_of(history@), start_time),
                    ),
                    ..old(tx_update)@
                })
            }),
    {
        let heights = history_heights(history);
        let expected = match self.state.script_subscriptions.get(hash) {
            Some(subscription) => subscription.expected_tx_heights.replica(),
            None => OrderedMap::new(),
        };
        add_missing(&mut tx_update.evicted_ats, &expected, &heights, start_time);
        let mut entries: Vec<Tx> = Vec::new();
        let mut has_new_txs = false;
        let mut i: usize = 0;
        while i < history.len()
            invariant
                i <= history.len(),
                entries@ == news_of(history@.take(i as int), expected@),
                has_new_txs == has_new_tx(history@.take(i as int), expected@),
            decreases history.len() - i,
        {
            let entry = history[i];
            let ghost done = history@.take(i as int);
            let ghost next = history@.take(i + 1);
            proof {
                assert(next.drop_last() =~= done);
            }
            let is_expected = match expected.get(&entry.txid()) {
                Some(height) => *height == entry.electrum_height(),
                None => false,
            };
            if !is_expected {
                entries.push(entry);
            }
            if !expected.contains_key(&entry.txid()) {
                has_new_txs = true;
            }
            proof {
                if has_new_tx(done, expected@) {
                    let j = choose|j: int|
                        0 <= j < done.len() && !expected@.contains_key((#[trigger] done[j]).txid);
                    assert(!expected@.contains_key(next[j].txid));
                }
                assert(next[i as int] == entry);
                if has_new_tx(next, expected@) {
                    let j = choose|j: int|
                        0 <= j < next.len() && !expected@.contains_key((#[trigger] next[j]).txid);
                    if j < i {
                        assert(!expected@.contains_key(done[j].txid));
                    }
                }
            }
            i = i + 1;
        }
        proof {
            assert(history@.take(history@.len() as int) =~= history@);
        }
        ScriptNews { entries, has_new_txs }
    }

    /// Takes note that a history was followed up, and of the status of the script where there is a new
    /// one: from now on, what is in the history is expected.
    pub fn expect_history(
        &mut self,
        hash: ElectrumScriptHash,
        history: &Vec<Tx>,
        status: Option<Option<ElectrumScriptStatus>>,
    )
        ensures
            final(self).wallet_label == old(self).wallet_label,
            final(self).chain_tip == old(self).chain_tip,
            final(self).state@ == with_history_expected(
                old(self).state@,
                hash,
                heights_of(history@),
                status,
            ),
    {
        let last_status = match status {
            Some(status) => status,
            None => match self.state.script_subscriptions.get(&hash) {
                Some(subscription) => subscription.last_status,
                None => None,
            },
        };
        let expected_tx_heights = history_heights(history);
        self.state.script_subscriptions.insert(
            hash,
            ScriptSubscription { expected_tx_heights, last_status },
        );
    }

    /// The scripts that have to be subscribed after activity on a script, if its keychain was not known
    /// to be used that far: the keychain, the index of the script, and from which index to which scripts
    /// are subscribed, so that `stop_gap` scripts beyond it are.
    pub fn extension_range(
        &self,
        hash: &ElectrumScriptHash,
        stop_gap: u32,
    ) -> (r: Option<(K, u32, u64, u64)>)
        ensures
            match r {
                Some((keychain, index, from, to)) => extension_of(self.state@, *hash, stop_gap)
                    == Some((keychain@, index, from, to)),
                None => extension_of(self.state@, *hash, stop_gap) is None,
            },
    {
        match self.extension_target(hash) {
            Some((keychain, index)) => {
                let from: u64 = match self.state.max_subscribed_indices.get(&keychain) {
                    Some(max) => *max as u64 + 1,
                    None => index as u64 + 1,
                };
                let to: u64 = index as u64 + stop_gap as u64;
                Some((keychain, index, from, to))
            },
            None => None,
        }
    }
}

/// Each change of a history is reported once: the history that was just followed up holds nothing that
/// is not expected, and lacks nothing that is. This is so for histories in which no transaction occurs at
/// two heights.
pub proof fn followed_up_history_is_expected<KV>(
    state: SubscriptionStateView<KV>,
    hash: ElectrumScriptHash,
    history: Seq<Tx>,
    status: Option<Option<ElectrumScriptStatus>>,
    start_time: u64,
)
    requires
        forall|i: int, j: int|
            0 <= i < history.len() && 0 <= j < history.len() && (#[trigger] history[i]).txid == (
            #[trigger] history[j]).txid ==> history[i].height == history[j].height,
    ensures
        ({
            let after = with_history_expected(state, hash, heights_of(history), status);
            let expected = expected_of(after.script_subscriptions, hash);
            &&& news_of(history, expected) == Seq::<Tx>::empty()
            &&& !has_new_tx(history, expected)
            &&& missing_from(expected, heights_of(history), start_time) == Set::<
                (Txid, u64),
            >::empty()
        }),
{
    let heights = heights_of(history);
    assert forall|i: int| 0 <= i < history.len() implies heights.get(
        (#[trigger] history[i]).txid,
    ) == Some(history[i].height) by {
        height_is_listed(history, i);
    }
    no_news(history, heights);
    assert(missing_from(heights, heights, start_time) =~= Set::<(Txid, u64)>::empty());
}

proof fn height_is_listed(history: Seq<Tx>, i: int)
    requires
        0 <= i < history.len(),
        forall|a: int, b: int|
            0 <= a < history.len() && 0 <= b < history.len() && (#[trigger] history[a]).txid == (
            #[trigger] history[b]).txid ==> history[a].height == history[b].height,
    ensures
        heights_of(history).get(history[i].txid) == Some(history[i].height),
    decreases history.len(),
{
    let init = history.drop_last();
    if history.last().txid == history[i].txid {
        assert(history[history.len() - 1].txid == history[i].txid);
    } else {
        assert(init[i] == history[i]);
        height_is_listed(init, i);
    }
}

proof fn no_news(history: Seq<Tx>, expected: Map<Txid, i64>)
    requires
        forall|i: int|
            0 <= i < history.len() ==> expected.get((#[trigger] history[i]).txid) == Some(
                history[i].height,
            ),
    ensures
        news_of(history, expected) == Seq::<Tx>::empty(),
    decreases history.len(),
{
    if history.len() > 0 {
        let init = history.drop_last();
        assert forall|i: int| 0 <= i < init.len() implies expected.get(
            (#[trigger] init[i]).txid,
        ) == Some(init[i].height) by {
            assert(init[i] == history[i]);
        }
        no_news(init, expected);
        assert(expected.get(history[history.len() - 1].txid) == Some(
            history[history.len() - 1].height,
        ));
    }
}

/// The height of a transaction is that of the last entry for it, and there is a height only for what the
/// history lists.
pub proof fn heights_are_those_listed(history: Seq<Tx>, i: int, txid: Txid)
    ensures
        0 <= i < history.len() && (forall|j: int|
            i < j < history.len() ==> (#[trigger] history[j]).txid != history[i].txid)
            ==> heights_of(history).get(history[i].txid) == Some(history[i].height),
        0 <= i < history.len() ==> heights_of(history).contains_key(history[i].txid),
        heights_of(history).contains_key(txid) ==> exists|j: int|
            0 <= j < history.len() && (#[trigger] history[j]).txid == txid
                && heights_of(history)[txid] == history[j].height,
    decreases history.len(),
{
    if history.len() > 0 {
        let init = history.drop_last();
        heights_are_those_listed(init, i, txid);
        assert forall|j: int| 0 <= j < init.len() implies #[trigger] init[j] == history[j] by {}
        assert(history[history.len() - 1] == history.last());
        if 0 <= i < init.len() && (forall|j: int|
            i < j < history.len() ==> (#[trigger] history[j]).txid != history[i].txid) {
            assert forall|j: int| i < j < init.len() implies (#[trigger] init[j]).txid
                != init[i].txid by {
                assert(history[j].txid != history[i].txid);
            }
        }
        if heights_of(history).contains_key(txid) && history.last().txid != txid {
            let j = choose|j: int|
                0 <= j < init.len() && (#[trigger] init[j]).txid == txid && heights_of(init)[txid]
                    == init[j].height;
            assert(history[j].txid == txid);
        }
    }
}

/// What is new in a history are the entries that are not expected at their height, in order: a part of a
/// history has the same news alone and as part of the whole.
pub proof fn news_are_what_is_not_expected(
    history: Seq<Tx>,
    more: Seq<Tx>,
    expected: Map<Txid, i64>,
)
    ensures
        news_of(history + more, expected) == news_of(history, expected) + news_of(more, expected),
        history.len() == 1 && expected.get(history[0].txid) != Some(history[0].height) ==> news_of(
            history,
            expected,
        ) == history,
        history.len() == 1 && expected.get(history[0].txid) == Some(history[0].height) ==> news_of(
            history,
            expected,
        ).len() == 0,
    decreases more.len(),
{
    reveal_with_fuel(news_of, 2);
    if history.len() == 1 {
        assert(history.drop_last().len() == 0);
        assert(history.last() == history[0]);
        if expected.get(history[0].txid) != Some(history[0].height) {
            assert(news_of(history, expected) =~= history);
        }
    }
    if more.len() == 0 {
        assert(history + more =~= history);
        assert(news_of(history, expected) + news_of(more, expected) =~= news_of(history, expected));
    } else {
        news_are_what_is_not_expected(history, more.drop_last(), expected);
        assert((history + more).drop_last() =~= history + more.drop_last());
        assert((history + more).last() == more.last());
        assert(news_of(history + more, expected) =~= news_of(history, expected) + news_of(
            more,
            expected,
        ));
    }
}

/// Each entry that is not expected at its height is among the news, and each of the news is such an entry.
pub proof fn news_are_exact(history: Seq<Tx>, expected: Map<Txid, i64>, i: int, k: int)
    ensures
        0 <= i < history.len() && expected.get(history[i].txid) != Some(history[i].height)
            ==> news_of(history, expected).contains(history[i]),
        0 <= k < news_of(history, expected).len() ==> history.contains(
            news_of(history, expected)[k],
        ) && expected.get(news_of(history, expected)[k].txid) != Some(
            news_of(history, expected)[k].height,
        ),
    decreases history.len(),
{
    if history.len() > 0 {
        let init = history.drop_last();
        let before = news_of(init, expected);
        let after = news_of(history, expected);
        news_are_exact(init, expected, i, k);
        if 0 <= i < init.len() && expected.get(history[i].txid) != Some(history[i].height) {
            assert(init[i] == history[i]);
            let at = choose|at: int| 0 <= at < before.len() && before[at] == history[i];
            assert(after[at] == history[i]);
        } else if i == init.len() && expected.get(history[i].txid) != Some(history[i].height) {
            assert(after[before.len() as int] == history[i]);
        }
        if 0 <= k < before.len() {
            assert(after[k] == before[k]);
            let at = choose|at: int| 0 <= at < init.len() && init[at] == before[k];
            assert(history[at] == after[k]);
        } else if 0 <= k < after.len() {
            assert(history[history.len() - 1] == after[k]);
        }
    }
}

/// A script has a new transaction as soon as one of its history was not expected; another height of one that
/// was expected is none.
pub proof fn new_transactions_are_those_not_expected(
    history: Seq<Tx>,
    expected: Map<Txid, i64>,
    i: int,
)
    ensures
        0 <= i < history.len() && !expected.contains_key(history[i].txid) ==> has_new_tx(
            history,
            expected,
        ),
        (forall|k: int|
            0 <= k < history.len() ==> expected.contains_key((#[trigger] history[k]).txid))
            ==> !has_new_tx(history, expected),
{
}

/// An expected transaction that a history does not list any more is gone, and nothing else is.
pub proof fn what_is_not_listed_is_gone(
    history: Seq<Tx>,
    expected: Map<Txid, i64>,
    start_time: u64,
    txid: Txid,
    time: u64,
)
    ensures
        missing_from(expected, heights_of(history), start_time).contains((txid, time)) <==> time
            == start_time && expected.contains_key(txid) && (forall|i: int|
            0 <= i < history.len() ==> (#[trigger] history[i]).txid != txid),
{
    heights_are_those_listed(history, 0, txid);
    if exists|i: int| 0 <= i < history.len() && (#[trigger] history[i]).txid == txid {
        let i = choose|i: int| 0 <= i < history.len() && (#[trigger] history[i]).txid == txid;
        heights_are_those_listed(history, i, txid);
    }
}

/// The history of a script is expected of it from then on, with its status, where there is one, and what is
/// known of other scripts stays.
pub proof fn a_history_is_expected_of_its_script<KV>(
    state: SubscriptionStateView<KV>,
    hash: ElectrumScriptHash,
    heights: Map<Txid, i64>,
    status: Option<Option<ElectrumScriptStatus>>,
    other: ElectrumScriptHash,
)
    ensures
        ({
            let after = with_history_expected(state, hash, heights, status);
            &&& after.script_subscriptions.contains_key(hash)
            &&& after.script_subscriptions[hash].expected_tx_heights == heights
            &&& status is Some ==> after.script_subscriptions[hash].last_status == status->0
            &&& status is None && state.script_subscriptions.contains_key(hash)
                ==> after.script_subscriptions[hash].last_status
                == state.script_subscriptions[hash].last_status
            &&& status is None && !state.script_subscriptions.contains_key(hash)
                ==> after.script_subscriptions[hash].last_status is None
            &&& other != hash ==> after.script_subscriptions.get(other)
                == state.script_subscriptions.get(other)
            &&& after.subscribed_scripts == state.subscribed_scripts
            &&& after.script_to_keychain_index == state.script_to_keychain_index
            &&& after.last_active_indices == state.last_active_indices
            &&& after.max_subscribed_indices == state.max_subscribed_indices
        }),
{
}

/// A script calls for more scripts exactly where it lies beyond the last active index of its keychain: from
/// the one after the last that is subscribed to, up to the gap beyond its own index.
pub proof fn activity_beyond_the_last_calls_for_more<KV>(
    state: SubscriptionStateView<KV>,
    hash: ElectrumScriptHash,
    stop_gap: u32,
    keychain: KV,
    index: u32,
)
    requires
        state.script_to_keychain_index.get(hash) == Some((keychain, index)),
    ensures
        !state.last_active_indices.contains_key(keychain) ==> extension_of(
            state,
            hash,
            stop_gap,
        ) is None,
        state.last_active_indices.contains_key(keychain) && index
            <= state.last_active_indices[keychain] ==> extension_of(state, hash, stop_gap) is None,
        state.last_active_indices.contains_key(keychain) && index
            > state.last_active_indices[keychain] ==> {
            &&& state.max_subscribed_indices.contains_key(keychain) ==> extension_of(
                state,
                hash,
                stop_gap,
            ) == Some(
                (
                    keychain,
                    index,
                    (state.max_subscribed_indices[keychain] + 1) as u64,
                    (index + stop_gap) as u64,
                ),
            )
            &&& !state.max_subscribed_indices.contains_key(keychain) ==> extension_of(
                state,
                hash,
                stop_gap,
            ) == Some((keychain, index, (index + 1) as u64, (index + stop_gap) as u64))
        },
{
}

} // verus!
