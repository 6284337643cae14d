//! The update that a notification of a script leads to.
//!
//! It is asked what the server is to be asked, and told what the server answers.
use vstd::prelude::*;

use crate::bdk::bdk_electrum_client::{
    gone_from, txid_set, unexpected_entries, unlisted_transactions_are_gone, BdkElectrumClient,
};
use crate::bdk::history::{
    enter, history_ask, history_step, HistoryAsk, HistoryCaches, HistoryEvent, HistoryRun,
    HistoryView, HistoryWaitView,
};
use crate::bdk::populate::{
    all_cached, all_prevouts, every_input_is_fetched, is_first_missing, outpoint_txids,
    prev_txouts, previous_outputs_are_those_referred_to,
};
use crate::bdk::response::SyncResponse;
use crate::bdk::subscribing_scan::{known_of, prev_txids, Known};
use crate::chain::ConfirmationBlockTime;
use crate::electrum::error::Error;
use crate::electrum::types::Tx;
use crate::hash::{ElectrumScriptHash, Txid};
use crate::ordered::OrderedSet;
use crate::tx::{
    empty_update, is_coinbase_tx, joined_update, txid_of, Transaction, TxUpdate, TxUpdateView,
};

verus! {

/// Which script is looked at, and how.
pub struct ScriptUpdateData {
    /// The script.
    pub script_hash: ElectrumScriptHash,
    /// The time at which transactions are seen or found to be gone.
    pub start_time: u64,
    /// Whether what transactions spend is fetched too.
    pub fetch_prev_txouts: bool,
}

/// Where the update stands.
#[allow(inconsistent_fields)]
pub enum ScriptUpdateStageView {
    /// The history of the script is waited for.
    History,
    /// The entries that were not expected are followed up.
    Entries {
        /// What is gone.
        gone: TxUpdateView,
        /// The transactions that are in the history now.
        current: Set<Txid>,
        /// How far the entries are followed up.
        run: HistoryView,
    },
    /// What transactions spend is fetched.
    PrevTxouts {
        /// What was found out.
        update: TxUpdateView,
        /// The transactions that are in the history now.
        current: Set<Txid>,
    },
    /// There is an update, or nothing has changed.
    Done(Option<TxUpdateView>),
    /// Something that is needed could not be had.
    Failed(Error),
}

/// The update is complete: from now on, what is in the history is expected.
pub open spec fn with_expected(known: Known, script_hash: ElectrumScriptHash, current: Set<Txid>) -> Known {
    if known.tracker.contains_key(script_hash) {
        Known { tracker: known.tracker.insert(script_hash, current), ..known }
    } else {
        known
    }
}

/// Previous outputs are fetched for fee calculation if the flag is enabled.
pub open spec fn at_prev_txouts(
    data: ScriptUpdateData,
    known: Known,
    update: TxUpdateView,
    current: Set<Txid>,
) -> (ScriptUpdateStageView, Known) {
    let outpoints = all_prevouts(update.txs, update.txs.len() as int);
    if !data.fetch_prev_txouts {
        (
            ScriptUpdateStageView::Done(Some(update)),
            with_expected(known, data.script_hash, current),
        )
    } else if all_cached(known.caches.txs, outpoint_txids(outpoints)) {
        (
            ScriptUpdateStageView::Done(
                Some(
                    TxUpdateView {
                        txouts: update.txouts.union_prefer_right(
                            prev_txouts(known.caches.txs, outpoints),
                        ),
                        ..update
                    },
                ),
            ),
            with_expected(known, data.script_hash, current),
        )
    } else {
        (ScriptUpdateStageView::PrevTxouts { update, current }, known)
    }
}

/// How far the update goes with what the client knows.
pub open spec fn update_advanced(
    data: ScriptUpdateData,
    stage: ScriptUpdateStageView,
    known: Known,
) -> (ScriptUpdateStageView, Known) {
    match stage {
        ScriptUpdateStageView::Entries { gone, current, run } => match run.wait {
            HistoryWaitView::Done => at_prev_txouts(
                data,
                known,
                joined_update(gone, run.update),
                current,
            ),
            HistoryWaitView::Failed(e) => (ScriptUpdateStageView::Failed(e), known),
            _ => (stage, known),
        },
        ScriptUpdateStageView::PrevTxouts { update, current } => at_prev_txouts(
            data,
            known,
            update,
            current,
        ),
        _ => (stage, known),
    }
}

/// The first stage: a script that is not tracked is ignored.
pub open spec fn update_start(data: ScriptUpdateData, known: Known) -> ScriptUpdateStageView {
    if known.tracker.contains_key(data.script_hash) {
        ScriptUpdateStageView::History
    } else {
        ScriptUpdateStageView::Done(None)
    }
}

/// The update with the history of the script. A history with the transactions that were expected
/// changes nothing. Otherwise those that are gone are evicted, and those that are new followed up.
pub open spec fn with_history(
    data: ScriptUpdateData,
    known: Known,
    history: Seq<Tx>,
) -> ScriptUpdateStageView {
    let expected = known.tracker[data.script_hash];
    let current = txid_set(history);
    if !known.tracker.contains_key(data.script_hash) || expected == current {
        ScriptUpdateStageView::Done(None)
    } else {
        ScriptUpdateStageView::Entries {
            gone: TxUpdateView {
                evicted_ats: gone_from(expected, history, data.start_time),
                ..empty_update()
            },
            current,
            run: enter(
                HistoryView {
                    start_time: data.start_time,
                    entries: unexpected_entries(history, expected),
                    update: empty_update(),
                    wait: HistoryWaitView::Done,
                },
                known.caches,
            ),
        }
    }
}

/// What the server is to be asked.
pub enum ScriptUpdateAsk {
    /// The history of the script.
    History(ElectrumScriptHash),
    /// What following up the entries needs.
    Entry(HistoryAsk),
    /// A transaction.
    Tx(Txid),
    /// Nothing more.
    Done,
    /// Nothing more, since something could not be had.
    Failed,
}

/// Whether this is what the server is to be asked.
pub open spec fn is_update_ask(
    data: ScriptUpdateData,
    stage: ScriptUpdateStageView,
    known: Known,
    ask: ScriptUpdateAsk,
) -> bool {
    match (stage, ask) {
        (ScriptUpdateStageView::History, ScriptUpdateAsk::History(hash)) => hash
            == data.script_hash,
        (ScriptUpdateStageView::Entries { gone, current, run }, ScriptUpdateAsk::Entry(ask)) => ask
            == history_ask(run) && !(ask is Done) && !(ask is Failed),
        (
            ScriptUpdateStageView::PrevTxouts { update, current },
            ScriptUpdateAsk::Tx(txid),
        ) => is_first_missing(
            known.caches.txs,
            outpoint_txids(all_prevouts(update.txs, update.txs.len() as int)),
            txid,
        ),
        (ScriptUpdateStageView::Done(update), ScriptUpdateAsk::Done) => true,
        (ScriptUpdateStageView::Failed(e), ScriptUpdateAsk::Failed) => true,
        _ => false,
    }
}

/// What the server answered.
pub enum ScriptUpdateReply {
    /// The history of the script.
    History(Result<Vec<Tx>, Error>),
    /// What following up the entries needs.
    Entry(HistoryEvent),
    /// The transaction with an id.
    Tx(Txid, Result<Transaction, Error>),
}

/// How an answer changes things. An answer to something that is not waited for changes nothing.
pub open spec fn update_step(
    data: ScriptUpdateData,
    stage: ScriptUpdateStageView,
    known: Known,
    reply: ScriptUpdateReply,
) -> (ScriptUpdateStageView, Known) {
    match (stage, reply) {
        (ScriptUpdateStageView::History, ScriptUpdateReply::History(Ok(history))) => (
            with_history(data, known, history@),
            known,
        ),
        (ScriptUpdateStageView::History, ScriptUpdateReply::History(Err(e))) => (
            ScriptUpdateStageView::Failed(e),
            known,
        ),
        (
            ScriptUpdateStageView::Entries { gone, current, run },
            ScriptUpdateReply::Entry(event),
        ) => {
            let (run, caches) = history_step(run, known.caches, event);
            (
                ScriptUpdateStageView::Entries { gone, current, run },
                Known { caches, ..known },
            )
        },
        (
            ScriptUpdateStageView::PrevTxouts { update, current },
            ScriptUpdateReply::Tx(txid, Ok(tx)),
        ) => (
            stage,
            Known {
                caches: HistoryCaches {
                    txs: known.caches.txs.insert(txid, tx@),
                    ..known.caches
                },
                ..known
            },
        ),
        (
            ScriptUpdateStageView::PrevTxouts { update, current },
            ScriptUpdateReply::Tx(txid, Err(e)),
        ) => (ScriptUpdateStageView::Failed(e), known),
        _ => (stage, known),
    }
}

#[allow(inconsistent_fields)]
enum ScriptUpdateStage {
    History,
    Entries { gone: TxUpdate, current: OrderedSet<Txid>, run: HistoryRun },
    PrevTxouts { update: TxUpdate, current: OrderedSet<Txid> },
    Done(Option<TxUpdate>),
    Failed(Error),
}

/// The update that a notification of a script leads to.
pub struct ScriptUpdateRun {
    script_hash: ElectrumScriptHash,
    start_time: u64,
    fetch_prev_txouts: bool,
    stage: ScriptUpdateStage,
}

impl ScriptUpdateRun {
    /// Which script is looked at, and how.
    pub closed spec fn data(&self) -> ScriptUpdateData {
        ScriptUpdateData {
            script_hash: self.script_hash,
            start_time: self.start_time,
            fetch_prev_txouts: self.fetch_prev_txouts,
        }
    }

    /// Where the update stands.
    pub closed spec fn stage(&self) -> ScriptUpdateStageView {
        match self.stage {
            ScriptUpdateStage::History => ScriptUpdateStageView::History,
            ScriptUpdateStage::Entries { gone, current, run } => ScriptUpdateStageView::Entries {
                gone: gone@,
                current: current@,
                run: run@,
            },
            ScriptUpdateStage::PrevTxouts { update, current } => {
                ScriptUpdateStageView::PrevTxouts { update: update@, current: current@ }
            },
            ScriptUpdateStage::Done(Some(update)) => ScriptUpdateStageView::Done(Some(update@)),
            ScriptUpdateStage::Done(None) => ScriptUpdateStageView::Done(None),
            ScriptUpdateStage::Failed(e) => ScriptUpdateStageView::Failed(e),
        }
    }

    /// Whether the update is one that was begun with [`ScriptUpdateRun::new`].
    pub closed spec fn wf(&self) -> bool {
        match self.stage {
            ScriptUpdateStage::Entries { gone, current, run } => run.wf(),
            _ => true,
        }
    }

    /// Begins to look at a script.
    pub fn new<C>(
        client: &BdkElectrumClient<C>,
        script_hash: ElectrumScriptHash,
        start_time: u64,
        fetch_prev_txouts: bool,
    ) -> (r: Self)
        ensures
            r.wf(),
            r.data() == (ScriptUpdateData { script_hash, start_time, fetch_prev_txouts }),
            r.stage() == update_start(r.data(), known_of(*client)),
    {
        let stage = if client.tracks_script(&script_hash) {
            ScriptUpdateStage::History
        } else {
            ScriptUpdateStage::Done(None)
        };
        ScriptUpdateRun { script_hash, start_time, fetch_prev_txouts, stage }
    }

    fn at_prev_txouts<C>(
        &mut self,
        client: &mut BdkElectrumClient<C>,
        update: TxUpdate,
        current: OrderedSet<Txid>,
    )
        ensures
            final(self).wf(),
            final(self).data() == old(self).data(),
            final(client).client == old(client).client,
            (final(self).stage(), known_of(*final(client))) == at_prev_txouts(
                old(self).data(),
                known_of(*old(client)),
                update@,
                current@,
            ),
    {
        let mut update = update;
        if self.fetch_prev_txouts && client.client.fetch_prev_txout(&mut update).is_some() {
            self.stage = ScriptUpdateStage::PrevTxouts { update, current };
        } else {
            let response = client.finish_script_hash_update(self.script_hash, current, update);
            self.stage = ScriptUpdateStage::Done(Some(response.tx_update));
        }
    }

    /// Goes as far as it can be gone with what the client knows, and says what the server is to be
    /// asked.
    pub fn ask<C>(&mut self, client: &mut BdkElectrumClient<C>) -> (r: ScriptUpdateAsk)
        requires
            old(self).wf(),
        ensures
            final(self).wf(),
            final(self).data() == old(self).data(),
            final(client).client == old(client).client,
            (final(self).stage(), known_of(*final(client))) == update_advanced(
                old(self).data(),
                old(self).stage(),
                known_of(*old(client)),
            ),
            is_update_ask(final(self).data(), final(self).stage(), known_of(*final(client)), r),
    {
        let mut stage = ScriptUpdateStage::Done(None);
        std::mem::swap(&mut stage, &mut self.stage);
        match stage {
            ScriptUpdateStage::Entries { gone, current, run } => match run.ask() {
                HistoryAsk::Done | HistoryAsk::Failed => match run.into_update() {
                    Ok(update) => {
                        let mut gone = gone;
                        gone.extend(update);
                        self.at_prev_txouts(client, gone, current);
                    },
                    Err(e) => {
                        self.stage = ScriptUpdateStage::Failed(e);
                    },
                },
                ask => {
                    self.stage = ScriptUpdateStage::Entries { gone, current, run };
                    return ScriptUpdateAsk::Entry(ask);
                },
            },
            ScriptUpdateStage::PrevTxouts { update, current } => {
                self.at_prev_txouts(client, update, current);
            },
            stage => {
                self.stage = stage;
            },
        }
        match &self.stage {
            ScriptUpdateStage::History => ScriptUpdateAsk::History(self.script_hash),
            ScriptUpdateStage::PrevTxouts { update, .. } => {
                let txids = prev_txids(update);
                match client.client.first_missing(&txids) {
                    Some(txid) => ScriptUpdateAsk::Tx(txid),
                    None => ScriptUpdateAsk::Done,
                }
            },
            ScriptUpdateStage::Failed(_) => ScriptUpdateAsk::Failed,
            _ => ScriptUpdateAsk::Done,
        }
    }

    /// Takes in what the server answered.
    pub fn step<C>(&mut self, client: &mut BdkElectrumClient<C>, reply: ScriptUpdateReply)
        requires
            old(self).wf(),
        ensures
            final(self).wf(),
            final(self).data() == old(self).data(),
            final(client).client.handle() == old(client).client.handle(),
            final(client).client.anchors() == old(client).client.anchors(),
            (final(self).stage(), known_of(*final(client))) == update_step(
                old(self).data(),
                old(self).stage(),
                known_of(*old(client)),
                reply,
            ),
    {
        let mut stage = ScriptUpdateStage::Done(None);
        std::mem::swap(&mut stage, &mut self.stage);
        match (stage, reply) {
            (ScriptUpdateStage::History, ScriptUpdateReply::History(Ok(history))) => {
                match client.process_script_hash_update(
                    &self.script_hash,
                    &history,
                    self.start_time,
                ) {
                    Some(update) => {
                        let run = HistoryRun::new(&client.client, update.entries, self.start_time);
                        self.stage = ScriptUpdateStage::Entries {
                            gone: update.tx_update,
                            current: update.current_txids,
                            run,
                        };
                    },
                    None => {
                        self.stage = ScriptUpdateStage::Done(None);
                    },
                }
            },
            (ScriptUpdateStage::History, ScriptUpdateReply::History(Err(e))) => {
                self.stage = ScriptUpdateStage::Failed(e);
            },
            (
                ScriptUpdateStage::Entries { gone, current, mut run },
                ScriptUpdateReply::Entry(event),
            ) => {
                run.step(&mut client.client, event);
                self.stage = ScriptUpdateStage::Entries { gone, current, run };
            },
            (
                ScriptUpdateStage::PrevTxouts { update, current },
                ScriptUpdateReply::Tx(txid, Ok(tx)),
            ) => {
                client.client.cache_tx(txid, tx);
                self.stage = ScriptUpdateStage::PrevTxouts { update, current };
            },
            (ScriptUpdateStage::PrevTxouts { .. }, ScriptUpdateReply::Tx(_, Err(e))) => {
                self.stage = ScriptUpdateStage::Failed(e);
            },
            (stage, _) => {
                self.stage = stage;
            },
        }
    }

    /// The response, where something has changed, or why there is none. While it is not at its end
    /// there is neither.
    pub fn into_response(self) -> (r: Option<Result<Option<SyncResponse>, Error>>)
        ensures
            match r {
                Some(Ok(Some(response))) => self.stage() == ScriptUpdateStageView::Done(
                    Some(response.tx_update@),
                ) && response.chain_update is None,
                Some(Ok(None)) => self.stage() == ScriptUpdateStageView::Done(None),
                Some(Err(e)) => self.stage() == ScriptUpdateStageView::Failed(e),
                None => !(self.stage() is Done) && !(self.stage() is Failed),
            },
    {
        match self.stage {
            ScriptUpdateStage::Done(Some(tx_update)) => {
                Some(Ok(Some(SyncResponse { tx_update, chain_update: None })))
            },
            ScriptUpdateStage::Done(None) => Some(Ok(None)),
            ScriptUpdateStage::Failed(e) => Some(Err(e)),
            _ => None,
        }
    }
}

/// What is expected of a script changes only with an update: where a notification leads to none, or to
/// an error, everything is expected as before.
pub proof fn expectations_change_with_updates(
    data: ScriptUpdateData,
    stage: ScriptUpdateStageView,
    known: Known,
    reply: ScriptUpdateReply,
)
    ensures
        update_step(data, stage, known, reply).1.tracker == known.tracker,
        ({
            let (after, now) = update_advanced(data, stage, known);
            now.tracker != known.tracker ==> after is Done && after->Done_0 is Some
        }),
{
}

/// A script that is not tracked, or whose history has the transactions that were expected, brings no update.
/// Otherwise what is gone and what is current are exactly that, and every entry that was not expected is
/// followed up.
pub proof fn a_history_brings_what_was_not_expected(
    data: ScriptUpdateData,
    known: Known,
    history: Seq<Tx>,
    txid: Txid,
)
    ensures
        !known.tracker.contains_key(data.script_hash) ==> with_history(data, known, history)
            == ScriptUpdateStageView::Done(None),
        known.tracker.contains_key(data.script_hash) && known.tracker[data.script_hash]
            == txid_set(history) ==> with_history(data, known, history)
            == ScriptUpdateStageView::Done(None),
        known.tracker.contains_key(data.script_hash) && known.tracker[data.script_hash]
            != txid_set(history) ==> match with_history(data, known, history) {
            ScriptUpdateStageView::Entries { gone, current, run } => {
                let expected = known.tracker[data.script_hash];
                &&& gone.evicted_ats.contains((txid, data.start_time)) <==> expected.contains(txid)
                    && (forall|i: int|
                    0 <= i < history.len() ==> (#[trigger] history[i]).txid != txid)
                &&& gone.txs.len() == 0
                &&& current.contains(txid) <==> exists|i: int|
                    0 <= i < history.len() && (#[trigger] history[i]).txid == txid
                &&& run.start_time == data.start_time
                &&& run == enter(
                    HistoryView {
                        start_time: data.start_time,
                        entries: unexpected_entries(history, expected),
                        update: empty_update(),
                        wait: HistoryWaitView::Done,
                    },
                    known.caches,
                )
            },
            _ => false,
        },
{
    let expected = known.tracker[data.script_hash];
    let start = HistoryView {
        start_time: data.start_time,
        entries: unexpected_entries(history, expected),
        update: empty_update(),
        wait: HistoryWaitView::Done,
    };
    unlisted_transactions_are_gone(expected, history, data.start_time, txid, data.start_time);
    start_time_is_kept(start, known.caches);
}

proof fn start_time_is_kept(state: HistoryView, caches: HistoryCaches)
    ensures
        enter(state, caches).start_time == state.start_time,
    decreases state.entries.len(),
{
    if state.entries.len() > 0 {
        let entry = state.entries[0];
        start_time_is_kept(
            HistoryView {
                entries: state.entries.drop_first(),
                update: TxUpdateView {
                    txs: state.update.txs.push(caches.txs[entry.txid]),
                    seen_ats: state.update.seen_ats.insert((entry.txid, state.start_time)),
                    ..state.update
                },
                ..state
            },
            caches,
        );
    }
}

/// When an update is reported, the current transactions are expected of its script from then on; what is
/// expected of other scripts stays, and so does an untracked script.
pub proof fn current_transactions_are_expected(
    known: Known,
    script_hash: ElectrumScriptHash,
    current: Set<Txid>,
    other: ElectrumScriptHash,
)
    ensures
        ({
            let after = with_expected(known, script_hash, current);
            &&& known.tracker.contains_key(script_hash) ==> after.tracker.get(script_hash) == Some(
                current,
            )
            &&& !known.tracker.contains_key(script_hash) ==> !after.tracker.contains_key(
                script_hash,
            )
            &&& other != script_hash ==> after.tracker.get(other) == known.tracker.get(other)
            &&& after.caches == known.caches
        }),
{
}

/// An update that is reported has all that it had, and, where previous outputs are fetched, each output that
/// a transaction of it spends, whatever input spends it: of each transaction that is no coinbase and is the
/// first one with its id. While one of their transactions is missing, it is waited for.
pub proof fn reported_updates_have_the_spent_outputs(
    data: ScriptUpdateData,
    known: Known,
    update: TxUpdateView,
    current: Set<Txid>,
    i: int,
    j: int,
)
    requires
        0 <= i < update.txs.len(),
        0 <= j < update.txs[i].input.len(),
        !is_coinbase_tx(update.txs[i]),
        forall|k: int| 0 <= k < i ==> txid_of(#[trigger] update.txs[k]) != txid_of(update.txs[i]),
    ensures
        ({
            let spent = update.txs[i].input[j].previous_output;
            let previous = known.caches.txs[spent.txid];
            match at_prev_txouts(data, known, update, current).0 {
                ScriptUpdateStageView::Done(Some(reported)) => {
                    &&& reported.txs == update.txs
                    &&& reported.anchors == update.anchors
                    &&& reported.seen_ats == update.seen_ats
                    &&& reported.evicted_ats == update.evicted_ats
                    &&& !data.fetch_prev_txouts ==> reported.txouts == update.txouts
                    &&& data.fetch_prev_txouts ==> known.caches.txs.contains_key(spent.txid)
                    &&& data.fetch_prev_txouts && spent.vout < previous.output.len()
                        ==> reported.txouts.get(spent) == Some(
                        previous.output[spent.vout as int],
                    )
                },
                ScriptUpdateStageView::PrevTxouts { update: kept, current: listed } => kept
                    == update && listed == current && data.fetch_prev_txouts,
                _ => false,
            }
        }),
        data.fetch_prev_txouts && !known.caches.txs.contains_key(
            update.txs[i].input[j].previous_output.txid,
        ) ==> at_prev_txouts(data, known, update, current).0 is PrevTxouts,
{
    let n = update.txs.len() as int;
    let outpoints = all_prevouts(update.txs, n);
    let spent = update.txs[i].input[j].previous_output;
    every_input_is_fetched(update.txs, n, i, j);
    previous_outputs_are_those_referred_to(known.caches.txs, outpoints, spent);
    let k = choose|k: int|
        0 <= k < outpoint_txids(outpoints).len() && outpoint_txids(outpoints)[k] == spent.txid;
    assert(outpoint_txids(outpoints)[k] == spent.txid);
}

/// What was followed up is reported together with what is gone.
pub proof fn what_is_gone_is_reported(
    data: ScriptUpdateData,
    known: Known,
    gone: TxUpdateView,
    current: Set<Txid>,
    run: HistoryView,
    evicted: (Txid, u64),
    anchor: (ConfirmationBlockTime, Txid),
)
    requires
        run.wait is Done,
        !data.fetch_prev_txouts,
    ensures
        match update_advanced(
            data,
            ScriptUpdateStageView::Entries { gone, current, run },
            known,
        ).0 {
            ScriptUpdateStageView::Done(Some(reported)) => {
                &&& reported.txs == gone.txs + run.update.txs
                &&& reported.evicted_ats.contains(evicted) <==> gone.evicted_ats.contains(evicted)
                    || run.update.evicted_ats.contains(evicted)
                &&& reported.seen_ats.contains(evicted) <==> gone.seen_ats.contains(evicted)
                    || run.update.seen_ats.contains(evicted)
                &&& reported.anchors.contains(anchor) <==> gone.anchors.contains(anchor)
                    || run.update.anchors.contains(anchor)
            },
            _ => false,
        },
{
}

/// What the server answers moves an update on: its history is held against what is expected, an answer on an
/// entry goes to that entry, and a transaction is kept under its id. Without a history or a transaction the
/// update fails.
pub proof fn answers_move_an_update_on(
    data: ScriptUpdateData,
    known: Known,
    history: Vec<Tx>,
    gone: TxUpdateView,
    current: Set<Txid>,
    run: HistoryView,
    event: HistoryEvent,
    update: TxUpdateView,
    txid: Txid,
    tx: Transaction,
    e: Error,
)
    ensures
        update_step(
            data,
            ScriptUpdateStageView::History,
            known,
            ScriptUpdateReply::History(Ok(history)),
        ) == (with_history(data, known, history@), known),
        update_step(
            data,
            ScriptUpdateStageView::History,
            known,
            ScriptUpdateReply::History(Err(e)),
        ) == (ScriptUpdateStageView::Failed(e), known),
        ({
            let (after, then) = update_step(
                data,
                ScriptUpdateStageView::Entries { gone, current, run },
                known,
                ScriptUpdateReply::Entry(event),
            );
            let (next, caches) = history_step(run, known.caches, event);
            &&& after == (ScriptUpdateStageView::Entries { gone, current, run: next })
            &&& then.caches == caches
            &&& then.tracker == known.tracker
        }),
        ({
            let stage = ScriptUpdateStageView::PrevTxouts { update, current };
            let (after, then) = update_step(
                data,
                stage,
                known,
                ScriptUpdateReply::Tx(txid, Ok(tx)),
            );
            &&& after == stage
            &&& then.caches.txs == known.caches.txs.insert(txid, tx@)
            &&& then.caches.headers == known.caches.headers
            &&& then.tracker == known.tracker
            &&& update_step(data, stage, known, ScriptUpdateReply::Tx(txid, Err(e))) == (
                ScriptUpdateStageView::Failed(e),
                known,
            )
        }),
{
}

/// What an update asks for is what its stage waits for: the history of its script, or a transaction that is
/// missing. A script that is not tracked asks for nothing.
pub proof fn an_update_asks_for_what_it_waits_for(
    data: ScriptUpdateData,
    stage: ScriptUpdateStageView,
    known: Known,
    hash: ElectrumScriptHash,
    txid: Txid,
)
    ensures
        is_update_ask(data, stage, known, ScriptUpdateAsk::History(hash)) ==> stage is History
            && hash == data.script_hash,
        is_update_ask(data, stage, known, ScriptUpdateAsk::Tx(txid)) ==> stage is PrevTxouts
            && !known.caches.txs.contains_key(txid),
        is_update_ask(data, stage, known, ScriptUpdateAsk::Done) <==> stage is Done,
        is_update_ask(data, stage, known, ScriptUpdateAsk::Failed) <==> stage is Failed,
        known.tracker.contains_key(data.script_hash) <==> update_start(data, known) is History,
        !known.tracker.contains_key(data.script_hash) ==> update_start(data, known)
            == ScriptUpdateStageView::Done(None),
{
}

} // verus!
