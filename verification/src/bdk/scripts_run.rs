//! What the histories of some scripts that are followed lead to.
//!
//! It is asked what the server is to be asked, and told what the server answers.
use vstd::prelude::*;

use crate::bdk::activity::{
    a_history_is_expected_of_its_script, expected_of, has_new_tx, heights_of, missing_from,
    new_transactions_are_those_not_expected, news_are_exact, news_of, what_is_not_listed_is_gone,
    with_history_expected, ScriptNews,
};
use crate::bdk::client::BdkElectrumClient;
use crate::bdk::constant::LIVE_SYNC_HISTORY_BATCH_SIZE;
use crate::bdk::live_sync_engine::ProcessedScripts;
use crate::bdk::run::{
    advanced, caches_of, copy_hashes, follow_up_start, is_run_ask, run_step, Caches, RunAsk,
    what_was_found_is_followed_up, RunReply, RunView, ScanRun, StageView,
};
use crate::bdk::scan::histories_of;
use crate::bdk::subscription::{ScriptSubscriptionView, SubscriptionCtx, SubscriptionStateView};
use crate::electrum::error::Error;
use crate::electrum::types::Tx;
use crate::hash::{ElectrumScriptHash, ElectrumScriptStatus, Txid};
use crate::ordered::{Key, OrderedMap};
use crate::tx::{empty_update, TxUpdate, TxUpdateView};

verus! {

/// How many scripts there is a history for.
pub open spec fn answered(hashes: Seq<ElectrumScriptHash>, histories: Seq<Seq<Tx>>) -> int {
    if hashes.len() < histories.len() {
        hashes.len() as int
    } else {
        histories.len() as int
    }
}

/// The entries of the first histories that are not expected.
pub open spec fn joint_news(
    subscriptions: Map<ElectrumScriptHash, ScriptSubscriptionView>,
    hashes: Seq<ElectrumScriptHash>,
    histories: Seq<Seq<Tx>>,
    n: int,
) -> Seq<Tx>
    decreases n,
{
    if n <= 0 {
        Seq::empty()
    } else {
        joint_news(subscriptions, hashes, histories, n - 1) + news_of(
            histories[n - 1],
            expected_of(subscriptions, hashes[n - 1]),
        )
    }
}

/// What is missing from the first histories.
pub open spec fn joint_missing(
    subscriptions: Map<ElectrumScriptHash, ScriptSubscriptionView>,
    hashes: Seq<ElectrumScriptHash>,
    histories: Seq<Seq<Tx>>,
    start_time: u64,
    n: int,
) -> Set<(Txid, u64)>
    decreases n,
{
    if n <= 0 {
        Set::empty()
    } else {
        joint_missing(subscriptions, hashes, histories, start_time, n - 1).union(
            missing_from(
                expected_of(subscriptions, hashes[n - 1]),
                heights_of(histories[n - 1]),
                start_time,
            ),
        )
    }
}

/// The scripts with a new transaction in the first histories.
pub open spec fn active_scripts(
    subscriptions: Map<ElectrumScriptHash, ScriptSubscriptionView>,
    hashes: Seq<ElectrumScriptHash>,
    histories: Seq<Seq<Tx>>,
    n: int,
) -> Seq<ElectrumScriptHash>
    decreases n,
{
    if n <= 0 {
        Seq::empty()
    } else {
        let before = active_scripts(subscriptions, hashes, histories, n - 1);
        if has_new_tx(histories[n - 1], expected_of(subscriptions, hashes[n - 1])) {
            before.push(hashes[n - 1])
        } else {
            before
        }
    }
}

/// What is known of the scripts, once the first histories are what is expected.
pub open spec fn with_histories_expected<KV>(
    state: SubscriptionStateView<KV>,
    hashes: Seq<ElectrumScriptHash>,
    histories: Seq<Seq<Tx>>,
    statuses: Map<ElectrumScriptHash, Option<ElectrumScriptStatus>>,
    n: int,
) -> SubscriptionStateView<KV>
    decreases n,
{
    if n <= 0 {
        state
    } else {
        with_history_expected(
            with_histories_expected(state, hashes, histories, statuses, n - 1),
            hashes[n - 1],
            heights_of(histories[n - 1]),
            statuses.get(hashes[n - 1]),
        )
    }
}

/// Which scripts are looked at, and how.
pub struct ScriptsData {
    /// The scripts.
    pub hashes: Seq<ElectrumScriptHash>,
    /// The time at which transactions are seen or found to be gone.
    pub start_time: u64,
    /// Whether what transactions spend is fetched too.
    pub fetch_prev_txouts: bool,
}

/// How far it is.
#[allow(inconsistent_fields)]
pub enum ScriptsStageView {
    /// The histories of the scripts are waited for.
    Histories,
    /// What is new is followed up.
    FollowUp {
        /// The histories.
        histories: Seq<Seq<Tx>>,
        /// The scripts with a new transaction.
        active: Seq<ElectrumScriptHash>,
        /// How far it is followed up.
        run: RunView<u32>,
    },
    /// There is an update.
    Done {
        /// The update.
        update: TxUpdateView,
        /// The scripts with a new transaction.
        active: Seq<ElectrumScriptHash>,
    },
    /// Something that is needed could not be had.
    Failed(Error),
}

/// What is to be followed up of some histories.
pub open spec fn with_script_histories(
    data: ScriptsData,
    subscriptions: Map<ElectrumScriptHash, ScriptSubscriptionView>,
    histories: Seq<Seq<Tx>>,
) -> ScriptsStageView {
    let n = answered(data.hashes, histories);
    ScriptsStageView::FollowUp {
        histories,
        active: active_scripts(subscriptions, data.hashes, histories, n),
        run: follow_up_start(
            TxUpdateView {
                evicted_ats: joint_missing(
                    subscriptions,
                    data.hashes,
                    histories,
                    data.start_time,
                    n,
                ),
                ..empty_update()
            },
            joint_news(subscriptions, data.hashes, histories, n),
            data.start_time,
            LIVE_SYNC_HISTORY_BATCH_SIZE as nat,
            data.fetch_prev_txouts,
        ),
    }
}

/// As far as it can be gone with what is in the caches. With the update, what is in the histories is
/// expected from now on.
pub open spec fn scripts_advanced<KV>(
    data: ScriptsData,
    stage: ScriptsStageView,
    state: SubscriptionStateView<KV>,
    statuses: Map<ElectrumScriptHash, Option<ElectrumScriptStatus>>,
    caches: Caches,
) -> (ScriptsStageView, SubscriptionStateView<KV>) {
    match stage {
        ScriptsStageView::FollowUp { histories, active, run } => {
            let run = advanced(run, caches);
            match run.stage {
                StageView::Done => (
                    ScriptsStageView::Done { update: run.data.update, active },
                    with_histories_expected(
                        state,
                        data.hashes,
                        histories,
                        statuses,
                        answered(data.hashes, histories),
                    ),
                ),
                StageView::Failed(e) => (ScriptsStageView::Failed(e), state),
                _ => (ScriptsStageView::FollowUp { histories, active, run }, state),
            }
        },
        _ => (stage, state),
    }
}

/// What the server is to be asked.
pub enum ScriptsAsk {
    /// The histories of the scripts.
    Histories(Vec<ElectrumScriptHash>),
    /// What the follow-up needs.
    FollowUp(RunAsk),
    /// Nothing more.
    Done,
    /// Nothing more, since something could not be had.
    Failed,
}

/// Whether this is what the server is to be asked.
pub open spec fn is_scripts_ask(
    data: ScriptsData,
    stage: ScriptsStageView,
    caches: Caches,
    ask: ScriptsAsk,
) -> bool {
    match (stage, ask) {
        (ScriptsStageView::Histories, ScriptsAsk::Histories(hashes)) => hashes@ == data.hashes,
        (
            ScriptsStageView::FollowUp { histories, active, run },
            ScriptsAsk::FollowUp(ask),
        ) => is_run_ask(run, caches, ask),
        (ScriptsStageView::Done { update, active }, ScriptsAsk::Done) => true,
        (ScriptsStageView::Failed(e), ScriptsAsk::Failed) => true,
        _ => false,
    }
}

/// What the server answered.
pub enum ScriptsReply {
    /// The histories of the scripts.
    Histories(Result<Vec<Vec<Tx>>, Error>),
    /// What the follow-up needs.
    FollowUp(RunReply),
}

/// How an answer changes things. An answer to something that is not waited for changes nothing.
pub open spec fn scripts_step(
    data: ScriptsData,
    stage: ScriptsStageView,
    subscriptions: Map<ElectrumScriptHash, ScriptSubscriptionView>,
    caches: Caches,
    reply: ScriptsReply,
) -> (ScriptsStageView, Caches) {
    match (stage, reply) {
        (ScriptsStageView::Histories, ScriptsReply::Histories(Ok(histories))) => (
            with_script_histories(data, subscriptions, histories_of(histories@)),
            caches,
        ),
        (ScriptsStageView::Histories, ScriptsReply::Histories(Err(e))) => (
            ScriptsStageView::Failed(e),
            caches,
        ),
        (
            ScriptsStageView::FollowUp { histories, active, run },
            ScriptsReply::FollowUp(reply),
        ) => {
            let (run, caches) = run_step(run, caches, reply);
            (ScriptsStageView::FollowUp { histories, active, run }, caches)
        },
        _ => (stage, caches),
    }
}

#[allow(inconsistent_fields)]
enum ScriptsStage {
    Histories,
    FollowUp { histories: Vec<Vec<Tx>>, active: Vec<ElectrumScriptHash>, run: ScanRun<u32> },
    Done(ProcessedScripts),
    Failed(Error),
}

/// What the histories of some scripts that are followed lead to.
pub struct ScriptsRun {
    hashes: Vec<ElectrumScriptHash>,
    start_time: u64,
    fetch_prev_txouts: bool,
    stage: ScriptsStage,
}

impl ScriptsRun {
    /// Which scripts are looked at, and how.
    pub closed spec fn data(&self) -> ScriptsData {
        ScriptsData {
            hashes: self.hashes@,
            start_time: self.start_time,
            fetch_prev_txouts: self.fetch_prev_txouts,
        }
    }

    /// How far it is.
    pub closed spec fn stage(&self) -> ScriptsStageView {
        match self.stage {
            ScriptsStage::Histories => ScriptsStageView::Histories,
            ScriptsStage::FollowUp { histories, active, run } => ScriptsStageView::FollowUp {
                histories: histories_of(histories@),
                active: active@,
                run: run@,
            },
            ScriptsStage::Done(processed) => ScriptsStageView::Done {
                update: processed.tx_update@,
                active: processed.hashes_with_new_txs@,
            },
            ScriptsStage::Failed(e) => ScriptsStageView::Failed(e),
        }
    }

    /// Whether it is one that was begun with [`ScriptsRun::new`].
    pub closed spec fn wf(&self) -> bool {
        match self.stage {
            ScriptsStage::FollowUp { histories, active, run } => run.wf(),
            _ => true,
        }
    }

    /// Begins to look at some scripts.
    pub fn new(hashes: Vec<ElectrumScriptHash>, start_time: u64, fetch_prev_txouts: bool) -> (r:
        Self)
        ensures
            r.wf(),
            r.data() == (ScriptsData { hashes: hashes@, start_time, fetch_prev_txouts }),
            r.stage() is Histories,
    {
        ScriptsRun { hashes, start_time, fetch_prev_txouts, stage: ScriptsStage::Histories }
    }

    /// From now on, the histories are what is expected.
    fn expect_histories<K: Key>(
        &self,
        ctx: &mut SubscriptionCtx<K>,
        statuses: &OrderedMap<ElectrumScriptHash, Option<ElectrumScriptStatus>>,
        histories: &Vec<Vec<Tx>>,
    )
        ensures
            final(ctx).wallet_label == old(ctx).wallet_label,
            final(ctx).chain_tip == old(ctx).chain_tip,
            final(ctx).state@ == with_histories_expected(
                old(ctx).state@,
                self.hashes@,
                histories_of(histories@),
                statuses@,
                answered(self.hashes@, histories_of(histories@)),
            ),
    {
        let ghost views = histories_of(histories@);
        let mut i: usize = 0;
        while i < self.hashes.len() && i < histories.len()
            invariant
                i <= answered(self.hashes@, views),
                views == histories_of(histories@),
                ctx.wallet_label == old(ctx).wallet_label,
                ctx.chain_tip == old(ctx).chain_tip,
                ctx.state@ == with_histories_expected(
                    old(ctx).state@,
                    self.hashes@,
                    views,
                    statuses@,
                    i as int,
                ),
            decreases histories.len() - i,
        {
            let status = match statuses.get(&self.hashes[i]) {
                Some(status) => Some(*status),
                None => None,
            };
            ctx.expect_history(self.hashes[i], &histories[i], status);
            i = i + 1;
        }
    }

    /// Goes as far as it can be gone with what is in the caches, and says what is needed next.
    pub fn ask<C, K: Key>(
        &mut self,
        ctx: &mut SubscriptionCtx<K>,
        statuses: &OrderedMap<ElectrumScriptHash, Option<ElectrumScriptStatus>>,
        client: &BdkElectrumClient<C>,
    ) -> (r: ScriptsAsk)
        requires
            old(self).wf(),
        ensures
            final(self).wf(),
            final(self).data() == old(self).data(),
            final(ctx).wallet_label == old(ctx).wallet_label,
            final(ctx).chain_tip == old(ctx).chain_tip,
            (final(self).stage(), final(ctx).state@) == scripts_advanced(
                old(self).data(),
                old(self).stage(),
                old(ctx).state@,
                statuses@,
                caches_of(*client),
            ),
            is_scripts_ask(final(self).data(), final(self).stage(), caches_of(*client), r),
    {
        let mut stage = ScriptsStage::Histories;
        std::mem::swap(&mut stage, &mut self.stage);
        match stage {
            ScriptsStage::Histories => ScriptsAsk::Histories(copy_hashes(&self.hashes)),
            ScriptsStage::FollowUp { histories, active, mut run } => {
                let ask = run.ask(client);
                let is_over = match ask {
                    RunAsk::Done => true,
                    RunAsk::Failed => true,
                    _ => false,
                };
                if !is_over {
                    self.stage = ScriptsStage::FollowUp { histories, active, run };
                    return ScriptsAsk::FollowUp(ask);
                }
                match run.into_sync_response() {
                    Some(Ok(response)) => {
                        self.expect_histories(ctx, statuses, &histories);
                        let processed = ProcessedScripts {
                            tx_update: response.tx_update,
                            hashes_with_new_txs: active,
                        };
                        self.stage = ScriptsStage::Done(processed);
                        ScriptsAsk::Done
                    },
                    Some(Err(e)) => {
                        self.stage = ScriptsStage::Failed(e);
                        ScriptsAsk::Failed
                    },
                    None => ScriptsAsk::Failed,
                }
            },
            ScriptsStage::Done(processed) => {
                self.stage = ScriptsStage::Done(processed);
                ScriptsAsk::Done
            },
            ScriptsStage::Failed(e) => {
                self.stage = ScriptsStage::Failed(e);
                ScriptsAsk::Failed
            },
        }
    }

    /// Looks at some histories: what is missing from them, and what is to be followed up.
    fn take_histories<K: Key>(&self, ctx: &SubscriptionCtx<K>, histories: Vec<Vec<Tx>>) -> (r:
        ScriptsStage)
        ensures
            (match r {
                ScriptsStage::FollowUp { histories: kept, active, run } => {
                    &&& run.wf()
                    &&& (ScriptsStageView::FollowUp {
                        histories: histories_of(kept@),
                        active: active@,
                        run: run@,
                    }) == with_script_histories(
                        self.data(),
                        ctx.state@.script_subscriptions,
                        histories_of(histories@),
                    )
                },
                _ => false,
            }),
    {
        let ghost subscriptions = ctx.state@.script_subscriptions;
        let ghost views = histories_of(histories@);
        let mut tx_update = TxUpdate::new();
        let mut entries: Vec<Tx> = Vec::new();
        let mut active: Vec<ElectrumScriptHash> = Vec::new();
        let mut i: usize = 0;
        while i < self.hashes.len() && i < histories.len()
            invariant
                i <= answered(self.hashes@, views),
                views == histories_of(histories@),
                subscriptions == ctx.state@.script_subscriptions,
                tx_update@ == (TxUpdateView {
                    evicted_ats: joint_missing(
                        subscriptions,
                        self.hashes@,
                        views,
                        self.start_time,
                        i as int,
                    ),
                    ..empty_update()
                }),
                entries@ == joint_news(subscriptions, self.hashes@, views, i as int),
                active@ == active_scripts(subscriptions, self.hashes@, views, i as int),
            decreases histories.len() - i,
        {
            let hash = self.hashes[i];
            let news = ctx.script_news(&hash, &histories[i], self.start_time, &mut tx_update);
            let ScriptNews { entries: mut new_entries, has_new_txs } = news;
            entries.append(&mut new_entries);
            if has_new_txs {
                active.push(hash);
            }
            i = i + 1;
        }
        let run = ScanRun::follow_up(
            tx_update,
            &entries,
            self.start_time,
            LIVE_SYNC_HISTORY_BATCH_SIZE,
            self.fetch_prev_txouts,
        );
        ScriptsStage::FollowUp { histories, active, run }
    }

    /// Takes in what the server answered.
    pub fn step<C, K: Key>(
        &mut self,
        ctx: &SubscriptionCtx<K>,
        client: &mut BdkElectrumClient<C>,
        reply: ScriptsReply,
    )
        requires
            old(self).wf(),
        ensures
            final(self).wf(),
            final(self).data() == old(self).data(),
            final(client).handle() == old(client).handle(),
            (final(self).stage(), caches_of(*final(client))) == scripts_step(
                old(self).data(),
                old(self).stage(),
                ctx.state@.script_subscriptions,
                caches_of(*old(client)),
                reply,
            ),
    {
        let mut stage = ScriptsStage::Histories;
        std::mem::swap(&mut stage, &mut self.stage);
        match (stage, reply) {
            (ScriptsStage::Histories, ScriptsReply::Histories(Ok(histories))) => {
                self.stage = self.take_histories(ctx, histories);
            },
            (ScriptsStage::Histories, ScriptsReply::Histories(Err(e))) => {
                self.stage = ScriptsStage::Failed(e);
            },
            (
                ScriptsStage::FollowUp { histories, active, mut run },
                ScriptsReply::FollowUp(reply),
            ) => {
                run.step(client, reply);
                self.stage = ScriptsStage::FollowUp { histories, active, run };
            },
            (stage, _) => {
                self.stage = stage;
            },
        }
    }

    /// The update and the scripts with new transactions, or why there are none. Before the end there
    /// is neither.
    pub fn into_processed(self) -> (r: Option<Result<ProcessedScripts, Error>>)
        ensures
            match r {
                Some(Ok(processed)) => self.stage() == (ScriptsStageView::Done {
                    update: processed.tx_update@,
                    active: processed.hashes_with_new_txs@,
                }),
                Some(Err(e)) => self.stage() == ScriptsStageView::Failed(e),
                None => !(self.stage() is Done) && !(self.stage() is Failed),
            },
    {
        match self.stage {
            ScriptsStage::Done(processed) => Some(Ok(processed)),
            ScriptsStage::Failed(e) => Some(Err(e)),
            _ => None,
        }
    }
}

/// What is expected of scripts changes only with the update that reports the change: where there is no
/// update, be it for now or since something could not be had, the scripts are known as before.
pub proof fn expectations_change_with_reports<KV>(
    data: ScriptsData,
    stage: ScriptsStageView,
    state: SubscriptionStateView<KV>,
    statuses: Map<ElectrumScriptHash, Option<ElectrumScriptStatus>>,
    caches: Caches,
)
    ensures
        ({
            let (after, known) = scripts_advanced(data, stage, state, statuses, caches);
            !(after is Done) ==> known == state
        }),
{
}

/// Each history is held against what was expected of its own script: what is not expected there is news, and
/// makes its script active where the transaction is new; what was expected and is not listed is gone.
pub proof fn each_script_has_its_own_news(
    subscriptions: Map<ElectrumScriptHash, ScriptSubscriptionView>,
    hashes: Seq<ElectrumScriptHash>,
    histories: Seq<Seq<Tx>>,
    start_time: u64,
    n: int,
    i: int,
    j: int,
    txid: Txid,
)
    requires
        0 <= i < n <= hashes.len(),
        n <= histories.len(),
    ensures
        ({
            let expected = expected_of(subscriptions, hashes[i]);
            let history = histories[i];
            &&& 0 <= j < history.len() && expected.get(history[j].txid) != Some(history[j].height)
                ==> joint_news(subscriptions, hashes, histories, n).contains(history[j])
            &&& 0 <= j < history.len() && !expected.contains_key(history[j].txid)
                ==> active_scripts(subscriptions, hashes, histories, n).contains(hashes[i])
            &&& expected.contains_key(txid) && (forall|k: int|
                0 <= k < history.len() ==> (#[trigger] history[k]).txid != txid) ==> joint_missing(
                subscriptions,
                hashes,
                histories,
                start_time,
                n,
            ).contains((txid, start_time))
        }),
    decreases n,
{
    let expected = expected_of(subscriptions, hashes[i]);
    let history = histories[i];
    let news = joint_news(subscriptions, hashes, histories, n);
    let news_before = joint_news(subscriptions, hashes, histories, n - 1);
    let active = active_scripts(subscriptions, hashes, histories, n);
    let active_before = active_scripts(subscriptions, hashes, histories, n - 1);
    if i < n - 1 {
        each_script_has_its_own_news(
            subscriptions,
            hashes,
            histories,
            start_time,
            n - 1,
            i,
            j,
            txid,
        );
        if 0 <= j < history.len() && news_before.contains(history[j]) {
            let at = choose|at: int| 0 <= at < news_before.len() && news_before[at] == history[j];
            assert(news[at] == history[j]);
        }
        if active_before.contains(hashes[i]) {
            let at = choose|at: int|
                0 <= at < active_before.len() && active_before[at] == hashes[i];
            assert(active[at] == hashes[i]);
        }
    } else {
        let own = news_of(history, expected);
        news_are_exact(history, expected, j, 0);
        new_transactions_are_those_not_expected(history, expected, j);
        what_is_not_listed_is_gone(history, expected, start_time, txid, start_time);
        if 0 <= j < history.len() && own.contains(history[j]) {
            let at = choose|at: int| 0 <= at < own.len() && own[at] == history[j];
            assert(news[news_before.len() + at] == history[j]);
        }
        if has_new_tx(history, expected) {
            assert(active[active.len() - 1] == hashes[i]);
        }
    }
}

/// Nothing else is news, makes a script active or is gone.
pub proof fn no_script_has_other_news(
    subscriptions: Map<ElectrumScriptHash, ScriptSubscriptionView>,
    hashes: Seq<ElectrumScriptHash>,
    histories: Seq<Seq<Tx>>,
    start_time: u64,
    n: int,
    k: int,
    gone: (Txid, u64),
)
    requires
        0 <= n <= hashes.len(),
        n <= histories.len(),
    ensures
        0 <= k < joint_news(subscriptions, hashes, histories, n).len() ==> exists|i: int|
            0 <= i < n && #[trigger] histories[i].contains(
                joint_news(subscriptions, hashes, histories, n)[k],
            ) && expected_of(subscriptions, hashes[i]).get(
                joint_news(subscriptions, hashes, histories, n)[k].txid,
            ) != Some(joint_news(subscriptions, hashes, histories, n)[k].height),
        0 <= k < active_scripts(subscriptions, hashes, histories, n).len() ==> exists|i: int|
            0 <= i < n && #[trigger] hashes[i] == active_scripts(
                subscriptions,
                hashes,
                histories,
                n,
            )[k] && has_new_tx(histories[i], expected_of(subscriptions, hashes[i])),
        joint_missing(subscriptions, hashes, histories, start_time, n).contains(gone) ==> gone.1
            == start_time && exists|i: int|
            0 <= i < n && expected_of(subscriptions, #[trigger] hashes[i]).contains_key(gone.0)
                && !heights_of(histories[i]).contains_key(gone.0),
    decreases n,
{
    if n > 0 {
        no_script_has_other_news(subscriptions, hashes, histories, start_time, n - 1, k, gone);
        let news = joint_news(subscriptions, hashes, histories, n);
        let news_before = joint_news(subscriptions, hashes, histories, n - 1);
        let active = active_scripts(subscriptions, hashes, histories, n);
        let active_before = active_scripts(subscriptions, hashes, histories, n - 1);
        let expected = expected_of(subscriptions, hashes[n - 1]);
        if 0 <= k < news_before.len() {
            assert(news[k] == news_before[k]);
            let i = choose|i: int|
                0 <= i < n - 1 && #[trigger] histories[i].contains(news_before[k]) && expected_of(
                    subscriptions,
                    hashes[i],
                ).get(news_before[k].txid) != Some(news_before[k].height);
            assert(histories[i].contains(news[k]));
        } else if 0 <= k < news.len() {
            news_are_exact(histories[n - 1], expected, 0, k - news_before.len());
            assert(histories[n - 1].contains(news[k]));
        }
        if 0 <= k < active_before.len() {
            assert(active[k] == active_before[k]);
            let i = choose|i: int|
                0 <= i < n - 1 && #[trigger] hashes[i] == active_before[k] && has_new_tx(
                    histories[i],
                    expected_of(subscriptions, hashes[i]),
                );
            assert(hashes[i] == active[k]);
        } else if 0 <= k < active.len() {
            assert(hashes[n - 1] == active[k]);
        }
        let before = joint_missing(subscriptions, hashes, histories, start_time, n - 1);
        if joint_missing(subscriptions, hashes, histories, start_time, n).contains(gone)
            && !before.contains(gone) {
            assert(expected_of(subscriptions, hashes[n - 1]).contains_key(gone.0));
        }
    }
}

/// What the histories of some scripts say is where the follow-up begins: the news are pending or seen, what
/// is gone is evicted, and every script is active that has a new transaction.
pub proof fn histories_of_scripts_are_gathered(
    data: ScriptsData,
    subscriptions: Map<ElectrumScriptHash, ScriptSubscriptionView>,
    histories: Seq<Seq<Tx>>,
    i: int,
    j: int,
    txid: Txid,
)
    requires
        0 <= i < data.hashes.len(),
        i < histories.len(),
    ensures
        match with_script_histories(data, subscriptions, histories) {
            ScriptsStageView::FollowUp { histories: kept, active, run } => {
                let expected = expected_of(subscriptions, data.hashes[i]);
                let history = histories[i];
                let entry = history[j];
                &&& kept == histories
                &&& 0 <= j < history.len() && expected.get(entry.txid) != Some(entry.height) ==> {
                    &&& 1 <= entry.height <= 4294967295 ==> run.data.pending.contains(
                        (entry.txid, entry.height as u32),
                    )
                    &&& !(1 <= entry.height <= 4294967295) ==> run.data.update.seen_ats.contains(
                        (entry.txid, data.start_time),
                    )
                }
                &&& 0 <= j < history.len() && !expected.contains_key(entry.txid)
                    ==> active.contains(data.hashes[i])
                &&& expected.contains_key(txid) && (forall|k: int|
                    0 <= k < history.len() ==> (#[trigger] history[k]).txid != txid)
                    ==> run.data.update.evicted_ats.contains((txid, data.start_time))
            },
            _ => false,
        },
{
    let n = answered(data.hashes, histories);
    each_script_has_its_own_news(
        subscriptions,
        data.hashes,
        histories,
        data.start_time,
        n,
        i,
        j,
        txid,
    );
    let news = joint_news(subscriptions, data.hashes, histories, n);
    let history = histories[i];
    if 0 <= j < history.len() && news.contains(history[j]) {
        let at = choose|at: int| 0 <= at < news.len() && news[at] == history[j];
        what_was_found_is_followed_up(
            TxUpdateView {
                evicted_ats: joint_missing(
                    subscriptions,
                    data.hashes,
                    histories,
                    data.start_time,
                    n,
                ),
                ..empty_update()
            },
            news,
            data.start_time,
            LIVE_SYNC_HISTORY_BATCH_SIZE as nat,
            data.fetch_prev_txouts,
            at,
        );
    }
}

/// Each history is expected of its own script afterwards, with its status; a script that was not asked about
/// keeps what was known of it.
pub proof fn each_history_is_expected_of_its_script<KV>(
    state: SubscriptionStateView<KV>,
    hashes: Seq<ElectrumScriptHash>,
    histories: Seq<Seq<Tx>>,
    statuses: Map<ElectrumScriptHash, Option<ElectrumScriptStatus>>,
    n: int,
    i: int,
    other: ElectrumScriptHash,
)
    requires
        0 <= n <= hashes.len(),
        n <= histories.len(),
    ensures
        ({
            let after = with_histories_expected(state, hashes, histories, statuses, n);
            &&& 0 <= i < n && (forall|k: int| i < k < n ==> #[trigger] hashes[k] != hashes[i])
                ==> after.script_subscriptions.contains_key(hashes[i])
                && after.script_subscriptions[hashes[i]].expected_tx_heights == heights_of(
                histories[i],
            ) && (statuses.contains_key(hashes[i])
                ==> after.script_subscriptions[hashes[i]].last_status == statuses[hashes[i]])
            &&& (forall|k: int| 0 <= k < n ==> #[trigger] hashes[k] != other)
                ==> after.script_subscriptions.get(other) == state.script_subscriptions.get(other)
            &&& after.subscribed_scripts == state.subscribed_scripts
            &&& after.script_to_keychain_index == state.script_to_keychain_index
            &&& after.last_active_indices == state.last_active_indices
            &&& after.max_subscribed_indices == state.max_subscribed_indices
        }),
    decreases n,
{
    if n > 0 {
        each_history_is_expected_of_its_script(
            state,
            hashes,
            histories,
            statuses,
            n - 1,
            i,
            other,
        );
        let before = with_histories_expected(state, hashes, histories, statuses, n - 1);
        a_history_is_expected_of_its_script(
            before,
            hashes[n - 1],
            heights_of(histories[n - 1]),
            statuses.get(hashes[n - 1]),
            other,
        );
        if 0 <= i < n {
            a_history_is_expected_of_its_script(
                before,
                hashes[n - 1],
                heights_of(histories[n - 1]),
                statuses.get(hashes[n - 1]),
                hashes[i],
            );
            assert(i < n - 1 ==> hashes[n - 1] == hashes[n - 1]);
        }
    }
}

/// The histories of some scripts are held against what is expected of these scripts; without them there is no
/// update.
pub proof fn histories_of_scripts_move_on(
    data: ScriptsData,
    subscriptions: Map<ElectrumScriptHash, ScriptSubscriptionView>,
    caches: Caches,
    histories: Vec<Vec<Tx>>,
    kept: Seq<Seq<Tx>>,
    active: Seq<ElectrumScriptHash>,
    run: RunView<u32>,
    reply: RunReply,
    e: Error,
)
    ensures
        scripts_step(
            data,
            ScriptsStageView::Histories,
            subscriptions,
            caches,
            ScriptsReply::Histories(Ok(histories)),
        ) == (with_script_histories(data, subscriptions, histories_of(histories@)), caches),
        scripts_step(
            data,
            ScriptsStageView::Histories,
            subscriptions,
            caches,
            ScriptsReply::Histories(Err(e)),
        ) == (ScriptsStageView::Failed(e), caches),
        scripts_step(
            data,
            ScriptsStageView::FollowUp { histories: kept, active, run },
            subscriptions,
            caches,
            ScriptsReply::FollowUp(reply),
        ) == (
            ScriptsStageView::FollowUp {
                histories: kept,
                active,
                run: run_step(run, caches, reply).0,
            },
            run_step(run, caches, reply).1,
        ),
{
}

/// When all is followed up, the update is done, the same scripts are active, and each history is expected of
/// its own script from then on. A failure changes no expectation.
pub proof fn a_follow_up_ends_with_its_update<KV>(
    data: ScriptsData,
    histories: Seq<Seq<Tx>>,
    active: Seq<ElectrumScriptHash>,
    run: RunView<u32>,
    state: SubscriptionStateView<KV>,
    statuses: Map<ElectrumScriptHash, Option<ElectrumScriptStatus>>,
    caches: Caches,
    e: Error,
    i: int,
)
    requires
        0 <= i < data.hashes.len(),
        i < histories.len(),
        forall|k: int| i < k < data.hashes.len() ==> #[trigger] data.hashes[k] != data.hashes[i],
    ensures
        ({
            let stage = ScriptsStageView::FollowUp { histories, active, run };
            let (after, known) = scripts_advanced(data, stage, state, statuses, caches);
            let on = advanced(run, caches);
            &&& on.stage is Done ==> {
                &&& after == (ScriptsStageView::Done { update: on.data.update, active })
                &&& known.script_subscriptions.contains_key(data.hashes[i])
                &&& known.script_subscriptions[data.hashes[i]].expected_tx_heights == heights_of(
                    histories[i],
                )
                &&& statuses.contains_key(data.hashes[i])
                    ==> known.script_subscriptions[data.hashes[i]].last_status
                    == statuses[data.hashes[i]]
                &&& known.subscribed_scripts == state.subscribed_scripts
            }
            &&& on.stage == StageView::Failed(e) ==> after == ScriptsStageView::Failed(e) && known
                == state
            &&& !(on.stage is Done) && !(on.stage is Failed) ==> known == state && after == (
            ScriptsStageView::FollowUp { histories, active, run: on })
        }),
{
    let n = answered(data.hashes, histories);
    each_history_is_expected_of_its_script(
        state,
        data.hashes,
        histories,
        statuses,
        n,
        i,
        data.hashes[i],
    );
}

/// The histories that are asked for are those of the scripts, in their order.
pub proof fn histories_of_the_scripts_are_asked_for(
    data: ScriptsData,
    stage: ScriptsStageView,
    caches: Caches,
    hashes: Vec<ElectrumScriptHash>,
)
    ensures
        is_scripts_ask(data, stage, caches, ScriptsAsk::Histories(hashes)) ==> stage is Histories
            && hashes@ == data.hashes,
        is_scripts_ask(data, stage, caches, ScriptsAsk::Done) <==> stage is Done,
        is_scripts_ask(data, stage, caches, ScriptsAsk::Failed) <==> stage is Failed,
{
}

} // verus!
