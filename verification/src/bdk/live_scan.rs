//! The scan with which following a wallet begins.
//!
//! It is a full scan that leaves behind, besides its response, what following the scripts begins with:
//! each script that was looked at is followed, up to the one that makes the gap complete, and its history
//! is what is expected of it.
use bdk_core::CheckPoint;
use vstd::prelude::*;

use crate::bdk::accumulator::{
    accumulated, empty_accumulator, empty_scan, the_scan_of_a_keychain_is_absorbed, with_script,
    AccumulatorView, FullScanAccumulator, SpkScanResult, SpkScanView,
};
use crate::bdk::activity::heights_of;
use crate::bdk::client::BdkElectrumClient;
use crate::bdk::response::{chain_of, FullScanResponse};
use crate::bdk::run::{
    advanced, caches_of, first_stage, is_run_ask, keychain_views, run_start, run_step,
    the_request_stays, RunAsk, RunReply, RunView, ScanRun, StageView,
};
use crate::bdk::scan::{
    batch_total, extent_is_unique, goes_through, histories_of, scan_extent, SpkWithExpectedTxids,
};
use crate::bdk::spk_run::{extent_of, SpkRunView, SpkWaitView};
use crate::bdk::subscription::SubscriptionInit;
use crate::chain::tip_blocks;
use crate::electrum::error::Error;
use crate::electrum::types::Tx;
use crate::hash::{electrum_script_hash, hash_script, ElectrumScriptHash};
use crate::ordered::Key;

verus! {

/// How many scripts of a batch a scan looks at: those that it goes through, and the one that makes the
/// gap complete.
pub open spec fn looked_at(
    histories: Seq<Seq<Tx>>,
    total: int,
    unused: nat,
    stop_gap: nat,
) -> int {
    let n = extent_of(histories, total, unused, stop_gap);
    if n < total {
        n + 1
    } else {
        total
    }
}

/// The scan of a keychain with the first `n` scripts of a batch.
pub open spec fn with_scripts(
    scan: SpkScanView,
    spks: Seq<(u32, SpkWithExpectedTxids)>,
    histories: Seq<Seq<Tx>>,
    n: int,
) -> SpkScanView
    decreases n,
{
    if n <= 0 {
        scan
    } else {
        with_script(
            with_scripts(scan, spks, histories, n - 1),
            electrum_script_hash(spks[n - 1].1.spk@),
            spks[n - 1].0,
            histories[n - 1],
        )
    }
}

/// What the scans of the keychains leave behind, with what the server answered.
pub open spec fn tracked_step<KV>(
    scans: Seq<SpkScanView>,
    state: RunView<KV>,
    reply: RunReply,
) -> Seq<SpkScanView> {
    match (state.stage, reply) {
        (StageView::Spks { at, run }, RunReply::Histories(Ok(histories))) => match run.wait {
            SpkWaitView::Histories(spks) => scans.update(
                at as int,
                with_scripts(
                    scans[at as int],
                    spks,
                    histories_of(histories@),
                    looked_at(
                        histories_of(histories@),
                        batch_total(spks, histories@),
                        run.scan.unused_spk_count as nat,
                        state.data.stop_gap,
                    ),
                ),
            ),
            _ => scans,
        },
        _ => scans,
    }
}

/// What the scans of the first `n` keychains add up to.
pub open spec fn added_up<KV>(
    keychains: Seq<KV>,
    scans: Seq<SpkScanView>,
    last_active: Map<KV, u32>,
    n: int,
) -> AccumulatorView<KV>
    decreases n,
{
    if n <= 0 {
        empty_accumulator()
    } else {
        accumulated(
            added_up(keychains, scans, last_active, n - 1),
            keychains[n - 1],
            SpkScanView { last_active_index: last_active.get(keychains[n - 1]), ..scans[n - 1] },
        )
    }
}

/// A scan with which following a wallet begins, as contracts speak of it.
#[verifier::reject_recursive_types(KV)]
pub struct LiveScanView<KV> {
    /// The full scan.
    pub run: RunView<KV>,
    /// What it leaves behind of each keychain.
    pub scans: Seq<SpkScanView>,
}

/// What some scans leave behind.
pub open spec fn scan_views(scans: Seq<SpkScanResult>) -> Seq<SpkScanView> {
    scans.map_values(|scan: SpkScanResult| scan@)
}

/// A scan with which following a wallet begins.
pub struct LiveScan<K: Key> {
    run: ScanRun<K>,
    scans: Vec<SpkScanResult>,
}

impl<K: Key> View for LiveScan<K> {
    type V = LiveScanView<K::V>;

    closed spec fn view(&self) -> LiveScanView<K::V> {
        LiveScanView { run: self.run@, scans: scan_views(self.scans@) }
    }
}

/// Whether following a wallet begins with these scripts.
pub open spec fn begins_with<K: Key>(init: SubscriptionInit<K>, total: AccumulatorView<K::V>) -> bool {
    &&& init.subscribed_scripts@ == total.subscribed_scripts
    &&& init.script_subscriptions@ == total.script_subscriptions
    &&& init.script_to_keychain_index@ == total.script_to_keychain_index
    &&& init.max_subscribed_indices@ == total.max_subscribed_indices
}

impl<K: Key> LiveScan<K> {
    /// Whether the scan is one that was begun with [`LiveScan::new`].
    pub closed spec fn wf(&self) -> bool {
        self.run.wf() && self.scans.len() == self.run@.data.keychains.len()
    }

    /// Looks for the scripts of some keychains, each up to a gap of `stop_gap` scripts without history.
    pub fn new(
        chain_tip: Option<CheckPoint>,
        start_time: u64,
        keychains: Vec<K>,
        stop_gap: usize,
        batch_size: usize,
        fetch_prev_txouts: bool,
    ) -> (r: Self)
        requires
            batch_size > 0,
        ensures
            r.wf(),
            r@.run.data == run_start(
                start_time,
                stop_gap as nat,
                batch_size as nat,
                fetch_prev_txouts,
                keychain_views(keychains@),
                Seq::empty(),
                Seq::empty(),
            ),
            r@.run.stage == first_stage(r@.run.data, chain_tip),
            r@.scans == Seq::new(keychains@.len(), |i: int| empty_scan()),
    {
        let n = keychains.len();
        let run = ScanRun::full_scan(
            chain_tip,
            start_time,
            keychains,
            stop_gap,
            batch_size,
            fetch_prev_txouts,
        );
        let mut scans: Vec<SpkScanResult> = Vec::new();
        while scans.len() < n
            invariant
                scans.len() <= n,
                forall|i: int| 0 <= i < scans.len() ==> (#[trigger] scans@[i])@ == empty_scan(),
            decreases n - scans.len(),
        {
            scans.push(SpkScanResult::new());
        }
        proof {
            assert(scan_views(scans@) =~= Seq::new(n as nat, |i: int| empty_scan()));
        }
        LiveScan { run, scans }
    }

    /// Goes as far as it can be gone with what is in the caches, and says what is needed next.
    pub fn ask<C>(&mut self, client: &BdkElectrumClient<C>) -> (r: RunAsk)
        requires
            old(self).wf(),
        ensures
            final(self).wf(),
            final(self)@ == (LiveScanView {
                run: advanced(old(self)@.run, caches_of(*client)),
                ..old(self)@
            }),
            is_run_ask(final(self)@.run, caches_of(*client), r),
    {
        let ask = self.run.ask(client);
        proof {
            the_request_stays(old(self)@.run, caches_of(*client));
        }
        ask
    }

    /// Takes note of the scripts whose histories are there.
    fn track(&mut self, histories: &Vec<Vec<Tx>>)
        requires
            old(self).wf(),
        ensures
            final(self).wf(),
            final(self).run == old(self).run,
            final(self)@.scans == tracked_step(
                old(self)@.scans,
                old(self)@.run,
                RunReply::Histories(Ok(*histories)),
            ),
    {
        let ghost hists = histories_of(histories@);
        if let Some((at, run)) = self.run.keychain_run() {
            if let Some((spks, unused)) = run.awaited() {
                let stop_gap = self.run.stop_gap();
                let total = if spks.len() < histories.len() {
                    spks.len()
                } else {
                    histories.len()
                };
                let (count, _) = scan_extent(total, histories, unused, stop_gap);
                let n = if count < total {
                    count + 1
                } else {
                    total
                };
                proof {
                    let extent = extent_of(hists, total as int, unused as nat, stop_gap as nat);
                    assert(goes_through(
                        hists,
                        total as int,
                        count as int,
                        unused as nat,
                        stop_gap as nat,
                    ));
                    extent_is_unique(
                        hists,
                        total as int,
                        count as int,
                        extent,
                        unused as nat,
                        stop_gap as nat,
                    );
                }
                let mut scan = SpkScanResult::new();
                std::mem::swap(&mut scan, &mut self.scans[at]);
                let ghost before = scan@;
                let mut i: usize = 0;
                while i < n
                    invariant
                        i <= n,
                        n <= spks.len(),
                        n <= histories.len(),
                        hists == histories_of(histories@),
                        scan@ == with_scripts(before, spks@, hists, i as int),
                    decreases n - i,
                {
                    proof {
                        assert(hists[i as int] == histories@[i as int]@);
                    }
                    scan.track(hash_script(&spks[i].1.spk), spks[i].0, &histories[i]);
                    i = i + 1;
                }
                self.scans.set(at, scan);
                proof {
                    assert(self@.scans =~= old(self)@.scans.update(
                        at as int,
                        with_scripts(before, spks@, hists, n as int),
                    ));
                }
            }
        }
    }

    /// Takes in what the server answered.
    pub fn step<C>(&mut self, client: &mut BdkElectrumClient<C>, reply: RunReply)
        requires
            old(self).wf(),
        ensures
            final(self).wf(),
            final(client).handle() == old(client).handle(),
            (final(self)@.run, caches_of(*final(client))) == run_step(
                old(self)@.run,
                caches_of(*old(client)),
                reply,
            ),
            final(self)@.scans == tracked_step(old(self)@.scans, old(self)@.run, reply),
    {
        if let RunReply::Histories(Ok(histories)) = &reply {
            self.track(histories);
        }
        self.run.step(client, reply);
    }

    /// The response of the scan and what following the scripts begins with, or why there is neither. A scan
    /// that is not at its end has nothing yet.
    pub fn finish(self) -> (r: Option<Result<(FullScanResponse<K>, SubscriptionInit<K>), Error>>)
        requires
            self.wf(),
        ensures
            match r {
                Some(Ok((response, init))) => {
                    &&& self@.run.stage is Done
                    &&& response.tx_update@ == self@.run.data.update
                    &&& tip_blocks(response.chain_update) == chain_of(
                        self@.run.data.chain,
                        response.tx_update.anchors,
                    )
                    &&& response.last_active_indices@ == self@.run.data.last_active
                    &&& begins_with(
                        init,
                        added_up(
                            self@.run.data.keychains,
                            self@.scans,
                            self@.run.data.last_active,
                            self@.scans.len() as int,
                        ),
                    )
                },
                Some(Err(e)) => self@.run.stage == StageView::Failed(e),
                None => !(self@.run.stage is Done) && !(self@.run.stage is Failed),
            },
    {
        let mut scans = self.scans;
        let mut keychains: Vec<K> = Vec::new();
        let names = self.run.keychains();
        let ghost views = self.run@.data.keychains;
        while keychains.len() < names.len()
            invariant
                views == keychain_views(names@),
                keychains.len() <= names.len(),
                keychain_views(keychains@) == views.take(keychains.len() as int),
            decreases names.len() - keychains.len(),
        {
            let i = keychains.len();
            keychains.push(names[i].replica());
            proof {
                assert(keychain_views(keychains@) =~= views.take(i + 1));
            }
        }
        proof {
            assert(views.take(views.len() as int) =~= views);
        }
        let response = match self.run.into_full_scan_response() {
            Some(Ok(response)) => response,
            Some(Err(e)) => return Some(Err(e)),
            None => return None,
        };
        let ghost left = scan_views(self.scans@);
        let ghost active = response.last_active_indices@;
        let mut total: FullScanAccumulator<K> = FullScanAccumulator::new();
        let mut i: usize = 0;
        proof {
            assert(scans@ =~= self.scans@.skip(0));
        }
        while i < keychains.len()
            invariant
                i <= keychains.len(),
                views == keychain_views(keychains@),
                left == scan_views(self.scans@),
                left.len() == views.len(),
                active == response.last_active_indices@,
                scans@ == self.scans@.skip(i as int),
                total@ == added_up(views, left, active, i as int),
            decreases keychains.len() - i,
        {
            let mut scan = scans.remove(0);
            scan.last_active_index = match response.last_active_indices.get(&keychains[i]) {
                Some(index) => Some(*index),
                None => None,
            };
            proof {
                assert(left[i as int] == self.scans@[i as int]@);
                assert(scan@ == (SpkScanView {
                    last_active_index: active.get(views[i as int]),
                    ..left[i as int]
                }));
                assert(scans@ =~= self.scans@.skip(i + 1));
            }
            total.absorb_keychain_scan(keychains[i].replica(), scan);
            i = i + 1;
        }
        let (_, init) = total.into_subscription_init();
        Some(Ok((response, init)))
    }
}

/// Whether of each script that was subscribed it is known what is expected of it and where it is.
pub open spec fn is_complete(scan: SpkScanView) -> bool {
    &&& scan.subscriptions.dom() == scan.hashes
    &&& scan.indices.dom() == scan.hashes
}

/// Each script that is looked at is followed from then on, its index is at most the greatest one, and
/// unless it comes up again later in the batch its history is what is expected of it. No others are
/// added.
pub proof fn scripts_looked_at_are_tracked(
    scan: SpkScanView,
    spks: Seq<(u32, SpkWithExpectedTxids)>,
    histories: Seq<Seq<Tx>>,
    n: int,
    i: int,
)
    requires
        0 <= i < n <= spks.len(),
    ensures
        ({
            let after = with_scripts(scan, spks, histories, n);
            let hash = electrum_script_hash(spks[i].1.spk@);
            &&& after.hashes.contains(hash)
            &&& after.max_index matches Some(max) && spks[i].0 <= max
            &&& (forall|j: int|
                i < j < n ==> electrum_script_hash((#[trigger] spks[j]).1.spk@) != hash) ==> {
                &&& after.indices.get(hash) == Some(spks[i].0)
                &&& after.subscriptions.contains_key(hash)
                &&& after.subscriptions[hash].expected_tx_heights == heights_of(histories[i])
            }
            &&& forall|other: ElectrumScriptHash| #[trigger]
                after.hashes.contains(other) ==> scan.hashes.contains(other) || exists|j: int|
                    0 <= j < n && electrum_script_hash((#[trigger] spks[j]).1.spk@) == other
        }),
{
    tracked_until(scan, spks, histories, n);
    let hash = electrum_script_hash(spks[i].1.spk@);
    let after = with_scripts(scan, spks, histories, n);
    if forall|j: int|
        i < j < n ==> electrum_script_hash((#[trigger] spks[j]).1.spk@) != hash {
        last_one_counts(scan, spks, histories, n, i);
    }
}

proof fn tracked_until(
    scan: SpkScanView,
    spks: Seq<(u32, SpkWithExpectedTxids)>,
    histories: Seq<Seq<Tx>>,
    n: int,
)
    requires
        n <= spks.len(),
    ensures
        ({
            let after = with_scripts(scan, spks, histories, n);
            &&& forall|i: int|
                0 <= i < n ==> after.hashes.contains(
                    electrum_script_hash((#[trigger] spks[i]).1.spk@),
                ) && after.max_index is Some && spks[i].0 <= after.max_index->0
            &&& forall|other: ElectrumScriptHash| #[trigger]
                after.hashes.contains(other) ==> scan.hashes.contains(other) || exists|j: int|
                    0 <= j < n && electrum_script_hash((#[trigger] spks[j]).1.spk@) == other
        }),
    decreases n,
{
    if n > 0 {
        tracked_until(scan, spks, histories, n - 1);
        let before = with_scripts(scan, spks, histories, n - 1);
        let after = with_scripts(scan, spks, histories, n);
        assert forall|other: ElectrumScriptHash| #[trigger]
            after.hashes.contains(other) implies scan.hashes.contains(other) || exists|j: int|
            0 <= j < n && electrum_script_hash((#[trigger] spks[j]).1.spk@) == other by {
            if before.hashes.contains(other) && !scan.hashes.contains(other) {
                let j = choose|j: int|
                    0 <= j < n - 1 && electrum_script_hash((#[trigger] spks[j]).1.spk@) == other;
                assert(electrum_script_hash(spks[j].1.spk@) == other);
            } else if !before.hashes.contains(other) {
                assert(electrum_script_hash(spks[n - 1].1.spk@) == other);
            }
        }
    }
}

proof fn last_one_counts(
    scan: SpkScanView,
    spks: Seq<(u32, SpkWithExpectedTxids)>,
    histories: Seq<Seq<Tx>>,
    n: int,
    i: int,
)
    requires
        0 <= i < n <= spks.len(),
        forall|j: int|
            i < j < n ==> electrum_script_hash((#[trigger] spks[j]).1.spk@)
                != electrum_script_hash(spks[i].1.spk@),
    ensures
        ({
            let after = with_scripts(scan, spks, histories, n);
            let hash = electrum_script_hash(spks[i].1.spk@);
            &&& after.indices.get(hash) == Some(spks[i].0)
            &&& after.subscriptions.contains_key(hash)
            &&& after.subscriptions[hash].expected_tx_heights == heights_of(histories[i])
        }),
    decreases n,
{
    if i < n - 1 {
        last_one_counts(scan, spks, histories, n - 1, i);
        assert(electrum_script_hash(spks[n - 1].1.spk@) != electrum_script_hash(spks[i].1.spk@));
    }
}

/// The script that makes the gap complete, and with which the scan of a keychain ends, is followed
/// too: activity at the edge of the gap is noticed.
pub proof fn the_edge_of_the_gap_is_tracked<KV>(
    scans: Seq<SpkScanView>,
    state: RunView<KV>,
    at: nat,
    run: SpkRunView,
    spks: Seq<(u32, SpkWithExpectedTxids)>,
    histories: Vec<Vec<Tx>>,
    n: int,
)
    requires
        at < scans.len(),
        state.stage == (StageView::Spks { at, run }),
        run.wait == SpkWaitView::Histories(spks),
        n < batch_total(spks, histories@),
        goes_through(
            histories_of(histories@),
            batch_total(spks, histories@),
            n,
            run.scan.unused_spk_count as nat,
            state.data.stop_gap,
        ),
    ensures
        tracked_step(
            scans,
            state,
            RunReply::Histories(Ok(histories)),
        )[at as int].hashes.contains(electrum_script_hash(spks[n].1.spk@)),
{
    let hists = histories_of(histories@);
    let total = batch_total(spks, histories@);
    let unused = run.scan.unused_spk_count as nat;
    extent_is_unique(
        hists,
        total,
        n,
        extent_of(hists, total, unused, state.data.stop_gap),
        unused,
        state.data.stop_gap,
    );
    scripts_looked_at_are_tracked(scans[at as int], spks, hists, n + 1, n);
}

/// Of each script that was subscribed it is known what is expected of it and where it is, at all times.
pub proof fn scans_stay_complete<KV>(scans: Seq<SpkScanView>, state: RunView<KV>, reply: RunReply)
    requires
        state.stage matches StageView::Spks { at, run } ==> at < scans.len(),
        forall|k: int| 0 <= k < scans.len() ==> is_complete(#[trigger] scans[k]),
    ensures
        tracked_step(scans, state, reply).len() == scans.len(),
        forall|k: int|
            0 <= k < scans.len() ==> is_complete(#[trigger] tracked_step(scans, state, reply)[k]),
{
    if let (StageView::Spks { at, run }, RunReply::Histories(Ok(histories))) = (
        state.stage,
        reply,
    ) {
        if let SpkWaitView::Histories(spks) = run.wait {
            let hists = histories_of(histories@);
            let n = looked_at(
                hists,
                batch_total(spks, histories@),
                run.scan.unused_spk_count as nat,
                state.data.stop_gap,
            );
            scripts_keep_complete(scans[at as int], spks, hists, n);
        }
    }
}

proof fn scripts_keep_complete(
    scan: SpkScanView,
    spks: Seq<(u32, SpkWithExpectedTxids)>,
    histories: Seq<Seq<Tx>>,
    n: int,
)
    requires
        is_complete(scan),
    ensures
        is_complete(with_scripts(scan, spks, histories, n)),
    decreases n,
{
    if n > 0 {
        scripts_keep_complete(scan, spks, histories, n - 1);
        let after = with_scripts(scan, spks, histories, n);
        assert(after.subscriptions.dom() =~= after.hashes);
        assert(after.indices.dom() =~= after.hashes);
    }
}

/// What following a wallet begins with: the scripts that are followed are those that were subscribed for
/// some keychain, and of each of them it is known what is expected of it and where it is.
pub proof fn tracked_scripts_are_followed<KV>(
    keychains: Seq<KV>,
    scans: Seq<SpkScanView>,
    last_active: Map<KV, u32>,
    n: int,
)
    requires
        0 <= n <= scans.len(),
        forall|k: int| 0 <= k < scans.len() ==> is_complete(#[trigger] scans[k]),
    ensures
        ({
            let total = added_up(keychains, scans, last_active, n);
            &&& total.script_subscriptions.dom() == total.subscribed_scripts
            &&& total.script_to_keychain_index.dom() == total.subscribed_scripts
            &&& forall|hash: ElectrumScriptHash| #[trigger]
                total.subscribed_scripts.contains(hash) <==> exists|k: int|
                    0 <= k < n && (#[trigger] scans[k]).hashes.contains(hash)
        }),
    decreases n,
{
    let total = added_up(keychains, scans, last_active, n);
    if n > 0 {
        tracked_scripts_are_followed(keychains, scans, last_active, n - 1);
        let before = added_up(keychains, scans, last_active, n - 1);
        let scan = scans[n - 1];
        assert(is_complete(scan));
        assert(total.script_subscriptions.dom() =~= total.subscribed_scripts);
        assert(total.script_to_keychain_index.dom() =~= total.subscribed_scripts);
        assert forall|hash: ElectrumScriptHash| #[trigger]
            total.subscribed_scripts.contains(hash) <==> exists|k: int|
            0 <= k < n && (#[trigger] scans[k]).hashes.contains(hash) by {
            if before.subscribed_scripts.contains(hash) {
                let k = choose|k: int|
                    0 <= k < n - 1 && (#[trigger] scans[k]).hashes.contains(hash);
                assert(scans[k].hashes.contains(hash));
            }
            if exists|k: int| 0 <= k < n && (#[trigger] scans[k]).hashes.contains(hash) {
                let k = choose|k: int| 0 <= k < n && (#[trigger] scans[k]).hashes.contains(hash);
                if k < n - 1 {
                    assert(scans[k].hashes.contains(hash));
                    assert(before.subscribed_scripts.contains(hash));
                }
            }
        }
    } else {
        assert(total.script_subscriptions.dom() =~= total.subscribed_scripts);
        assert(total.script_to_keychain_index.dom() =~= total.subscribed_scripts);
    }
}

/// Each keychain is followed up to the greatest index of its own scan and is active as the run noted it, and
/// each script of its scan has its place on that keychain; where no later scan has the same keychain or the
/// same script.
pub proof fn each_keychain_is_followed_by_its_own_scan<KV>(
    keychains: Seq<KV>,
    scans: Seq<SpkScanView>,
    last_active: Map<KV, u32>,
    n: int,
    i: int,
    hash: ElectrumScriptHash,
)
    requires
        0 <= i < n <= scans.len(),
        scans.len() == keychains.len(),
    ensures
        ({
            let total = added_up(keychains, scans, last_active, n);
            let alone = forall|k: int| i < k < n ==> #[trigger] keychains[k] != keychains[i];
            let last = forall|k: int|
                i < k < n ==> !(#[trigger] scans[k]).indices.contains_key(hash) && !scans[k]
                    .subscriptions.contains_key(hash);
            &&& last_active.contains_key(keychains[i]) ==> total.last_active_indices.get(
                keychains[i],
            ) == Some(last_active[keychains[i]])
            &&& alone && scans[i].max_index is Some ==> total.max_subscribed_indices.get(
                keychains[i],
            ) == scans[i].max_index
            &&& scans[i].hashes.contains(hash) ==> total.subscribed_scripts.contains(hash)
            &&& last && scans[i].indices.contains_key(hash) ==> total.script_to_keychain_index.get(
                hash,
            ) == Some((keychains[i], scans[i].indices[hash]))
            &&& last && scans[i].subscriptions.contains_key(hash)
                ==> total.script_subscriptions.get(hash) == Some(scans[i].subscriptions[hash])
        }),
    decreases n,
{
    let before = added_up(keychains, scans, last_active, n - 1);
    let scan = SpkScanView {
        last_active_index: last_active.get(keychains[n - 1]),
        ..scans[n - 1]
    };
    the_scan_of_a_keychain_is_absorbed(before, keychains[n - 1], scan, hash, keychains[i]);
    if i < n - 1 {
        each_keychain_is_followed_by_its_own_scan(keychains, scans, last_active, n - 1, i, hash);
        assert(keychains[n - 1] == keychains[n - 1] && scans[n - 1] == scans[n - 1]);
    }
}

/// As many scripts of a batch are looked at as the scan goes through, and the one that makes the gap
/// complete.
pub proof fn the_edge_of_the_gap_is_looked_at(
    histories: Seq<Seq<Tx>>,
    total: int,
    n: int,
    unused: nat,
    stop_gap: nat,
)
    requires
        goes_through(histories, total, n, unused, stop_gap),
    ensures
        n < total ==> looked_at(histories, total, unused, stop_gap) == n + 1,
        n == total ==> looked_at(histories, total, unused, stop_gap) == total,
{
    extent_is_unique(
        histories,
        total,
        n,
        extent_of(histories, total, unused, stop_gap),
        unused,
        stop_gap,
    );
}

/// A batch of histories is tracked for the keychain that is scanned, and for no other.
pub proof fn histories_are_tracked_for_their_keychain<KV>(
    scans: Seq<SpkScanView>,
    state: RunView<KV>,
    reply: RunReply,
    k: int,
)
    requires
        0 <= k < scans.len(),
        state.stage matches StageView::Spks { at, run } ==> at < scans.len(),
    ensures
        !(state.stage matches StageView::Spks { at, run } && at == k) ==> tracked_step(
            scans,
            state,
            reply,
        )[k] == scans[k],
        !(reply is Histories) ==> tracked_step(scans, state, reply) == scans,
{
}

/// What following begins with is what the scans added up to.
pub proof fn following_begins_with_what_was_scanned<K: Key>(
    init: SubscriptionInit<K>,
    total: AccumulatorView<K::V>,
)
    requires
        begins_with(init, total),
    ensures
        init.subscribed_scripts@ == total.subscribed_scripts,
        init.script_subscriptions@ == total.script_subscriptions,
        init.script_to_keychain_index@ == total.script_to_keychain_index,
        init.max_subscribed_indices@ == total.max_subscribed_indices,
{
}

} // verus!
