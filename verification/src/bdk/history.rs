//! History entries, followed up one by one: the transaction, and the proof that it is confirmed.
use vstd::prelude::*;

use crate::bdk::anchors::{anchor_in, proves, MerkleView};
use crate::bdk::client::BdkElectrumClient;
use crate::bdk::scan::{block_height, confirmed_height};
use crate::bdk::util::validate_merkle_proof;
use crate::chain::{block_hash_of, BlockId, ConfirmationBlockTime, Header};
use crate::electrum::error::Error;
use crate::electrum::types::{TransactionMerkel, Tx};
use crate::hash::Txid;
use crate::tx::{empty_update, tx_views, Transaction, TransactionView, TxUpdate, TxUpdateView};

verus! {

/// The transactions and headers that are known.
pub struct HistoryCaches {
    /// Transactions by id.
    pub txs: Map<Txid, TransactionView>,
    /// Block headers by height.
    pub headers: Map<u32, Header>,
}

/// What is waited for.
pub enum HistoryWaitView {
    /// The transaction of the first entry.
    Tx,
    /// The Merkle proof of the first entry.
    Merkle,
    /// A block header to hold the proof against.
    Header {
        /// The proof.
        merkle: MerkleView,
        /// Whether it replaces a header that the proof did not hold against.
        is_update: bool,
    },
    /// Nothing.
    Done,
    /// Nothing, since something could not be had.
    Failed(Error),
}

/// How far the entries are followed up.
pub struct HistoryView {
    /// The time at which unconfirmed transactions are seen.
    pub start_time: u64,
    /// The entries that are left.
    pub entries: Seq<Tx>,
    /// What was found out.
    pub update: TxUpdateView,
    /// What is waited for.
    pub wait: HistoryWaitView,
}

/// What the server answered.
pub enum HistoryEvent {
    /// To the request for a transaction.
    Tx(Result<Transaction, Error>),
    /// To the request for a Merkle proof.
    Merkle(Result<TransactionMerkel, Error>),
    /// To the request for a block header.
    Header(Result<Header, Error>),
}

/// What is asked of the server.
pub enum HistoryAsk {
    /// A transaction.
    Tx(Txid),
    /// The Merkle proof of a transaction in the block at a height.
    Merkle(Txid, u32),
    /// The header at a height.
    Header(u32),
    /// Nothing more.
    Done,
    /// Nothing more, since something could not be had.
    Failed,
}

/// Goes through the entries: the transaction of each is taken in. An unconfirmed one has been seen,
/// and a confirmed one is to be proven.
pub open spec fn enter(state: HistoryView, caches: HistoryCaches) -> HistoryView
    decreases state.entries.len(),
{
    if state.entries.len() == 0 {
        HistoryView { wait: HistoryWaitView::Done, ..state }
    } else {
        let entry = state.entries[0];
        if !caches.txs.contains_key(entry.txid) {
            HistoryView { wait: HistoryWaitView::Tx, ..state }
        } else {
            let update = TxUpdateView {
                txs: state.update.txs.push(caches.txs[entry.txid]),
                ..state.update
            };
            match confirmed_height(entry.height) {
                Some(height) => HistoryView { update, wait: HistoryWaitView::Merkle, ..state },
                None => enter(
                    HistoryView {
                        entries: state.entries.drop_first(),
                        update: TxUpdateView {
                            seen_ats: update.seen_ats.insert((entry.txid, state.start_time)),
                            ..update
                        },
                        ..state
                    },
                    caches,
                ),
            }
        }
    }
}

/// Goes on with the next entry.
pub open spec fn enter_next(state: HistoryView, caches: HistoryCaches) -> HistoryView {
    enter(HistoryView { entries: state.entries.drop_first(), ..state }, caches)
}

/// Holds the proof of the first entry against a header. Where it does not hold the header may be
/// outdated, and a new one is waited for, unless this is a new one already.
pub open spec fn check_proof(
    state: HistoryView,
    caches: HistoryCaches,
    merkle: MerkleView,
    header: Header,
    is_update: bool,
) -> HistoryView {
    let txid = state.entries[0].txid;
    if proves(txid, header, merkle) {
        enter_next(
            HistoryView {
                update: TxUpdateView {
                    anchors: state.update.anchors.insert(
                        (anchor_in(merkle.block_height, header), txid),
                    ),
                    ..state.update
                },
                ..state
            },
            caches,
        )
    } else if is_update {
        enter_next(state, caches)
    } else {
        HistoryView { wait: HistoryWaitView::Header { merkle, is_update: true }, ..state }
    }
}

/// While entries are gone through, only transactions that are not in the cache are waited for.
pub proof fn cached_entries_are_not_waited_for(state: HistoryView, caches: HistoryCaches)
    ensures
        enter(state, caches).wait is Tx ==> enter(state, caches).entries.len() > 0
            && !caches.txs.contains_key(enter(state, caches).entries[0].txid),
    decreases state.entries.len(),
{
    if state.entries.len() > 0 && caches.txs.contains_key(state.entries[0].txid)
        && confirmed_height(state.entries[0].height) is None {
        let entry = state.entries[0];
        let update = TxUpdateView {
            txs: state.update.txs.push(caches.txs[entry.txid]),
            seen_ats: state.update.seen_ats.insert((entry.txid, state.start_time)),
            ..state.update
        };
        let rest = HistoryView { entries: state.entries.drop_first(), update, ..state };
        cached_entries_are_not_waited_for(rest, caches);
    }
}

/// How an answer changes things. A transaction whose proof cannot be had is not anchored. A
/// transaction or a header that cannot be had ends it. An answer to something that was not asked
/// changes nothing.
pub open spec fn history_step(
    state: HistoryView,
    caches: HistoryCaches,
    event: HistoryEvent,
) -> (HistoryView, HistoryCaches) {
    match (state.wait, event) {
        (HistoryWaitView::Tx, HistoryEvent::Tx(Ok(tx))) => {
            let caches = HistoryCaches {
                txs: caches.txs.insert(state.entries[0].txid, tx@),
                ..caches
            };
            (enter(state, caches), caches)
        },
        (HistoryWaitView::Tx, HistoryEvent::Tx(Err(e))) => (
            HistoryView { wait: HistoryWaitView::Failed(e), ..state },
            caches,
        ),
        (HistoryWaitView::Merkle, HistoryEvent::Merkle(Ok(merkle))) => {
            let height = merkle.block_height;
            if caches.headers.contains_key(height) {
                (check_proof(state, caches, merkle@, caches.headers[height], false), caches)
            } else {
                (
                    HistoryView {
                        wait: HistoryWaitView::Header { merkle: merkle@, is_update: false },
                        ..state
                    },
                    caches,
                )
            }
        },
        (HistoryWaitView::Merkle, HistoryEvent::Merkle(Err(e))) => (
            enter_next(state, caches),
            caches,
        ),
        (HistoryWaitView::Header { merkle, is_update }, HistoryEvent::Header(Ok(header))) => {
            let caches = HistoryCaches {
                headers: caches.headers.insert(merkle.block_height, header),
                ..caches
            };
            (check_proof(state, caches, merkle, header, is_update), caches)
        },
        (HistoryWaitView::Header { merkle, is_update }, HistoryEvent::Header(Err(e))) => (
            HistoryView { wait: HistoryWaitView::Failed(e), ..state },
            caches,
        ),
        _ => (state, caches),
    }
}

/// Whether there is an entry for what is waited for.
pub open spec fn waits_for_entry(state: HistoryView) -> bool {
    match state.wait {
        HistoryWaitView::Tx => state.entries.len() > 0,
        HistoryWaitView::Merkle => state.entries.len() > 0 && confirmed_height(
            state.entries[0].height,
        ) is Some,
        HistoryWaitView::Header { merkle, is_update } => state.entries.len() > 0,
        _ => true,
    }
}

/// What has to be asked next.
pub open spec fn history_ask(state: HistoryView) -> HistoryAsk {
    match state.wait {
        HistoryWaitView::Tx => HistoryAsk::Tx(state.entries[0].txid),
        HistoryWaitView::Merkle => HistoryAsk::Merkle(
            state.entries[0].txid,
            confirmed_height(state.entries[0].height)->0,
        ),
        HistoryWaitView::Header { merkle, is_update } => HistoryAsk::Header(merkle.block_height),
        HistoryWaitView::Done => HistoryAsk::Done,
        HistoryWaitView::Failed(e) => HistoryAsk::Failed,
    }
}

enum HistoryWait {
    Tx,
    Merkle,
    Header { merkle: TransactionMerkel, is_update: bool },
    Done,
    Failed(Error),
}

/// History entries that are followed up. It is asked what the server is to be asked, and told what
/// the server answers.
pub struct HistoryRun {
    start_time: u64,
    entries: Vec<Tx>,
    next: usize,
    update: TxUpdate,
    wait: HistoryWait,
}

impl View for HistoryRun {
    type V = HistoryView;

    closed spec fn view(&self) -> HistoryView {
        HistoryView {
            start_time: self.start_time,
            entries: self.entries@.skip(self.next as int),
            update: self.update@,
            wait: match self.wait {
                HistoryWait::Tx => HistoryWaitView::Tx,
                HistoryWait::Merkle => HistoryWaitView::Merkle,
                HistoryWait::Header { merkle, is_update } => HistoryWaitView::Header {
                    merkle: merkle@,
                    is_update,
                },
                HistoryWait::Done => HistoryWaitView::Done,
                HistoryWait::Failed(e) => HistoryWaitView::Failed(e),
            },
        }
    }
}

/// The transactions and headers that a client has in its caches.
pub open spec fn history_caches<C>(client: BdkElectrumClient<C>) -> HistoryCaches {
    HistoryCaches { txs: client.txs(), headers: client.headers() }
}

/// Going through entries leaves an entry for what is waited for.
proof fn enter_waits(state: HistoryView, caches: HistoryCaches)
    ensures
        waits_for_entry(enter(state, caches)),
    decreases state.entries.len(),
{
    if state.entries.len() > 0 {
        let entry = state.entries[0];
        if caches.txs.contains_key(entry.txid) && confirmed_height(entry.height) is None {
            let update = TxUpdateView {
                txs: state.update.txs.push(caches.txs[entry.txid]),
                ..state.update
            };
            enter_waits(
                HistoryView {
                    entries: state.entries.drop_first(),
                    update: TxUpdateView {
                        seen_ats: update.seen_ats.insert((entry.txid, state.start_time)),
                        ..update
                    },
                    ..state
                },
                caches,
            );
        }
    }
}

/// What was waited for before makes no difference.
proof fn enter_sets_the_wait(state: HistoryView, caches: HistoryCaches, wait: HistoryWaitView)
    ensures
        enter(HistoryView { wait, ..state }, caches) == enter(state, caches),
    decreases state.entries.len(),
{
    if state.entries.len() > 0 {
        let entry = state.entries[0];
        if caches.txs.contains_key(entry.txid) && confirmed_height(entry.height) is None {
            let update = TxUpdateView {
                txs: state.update.txs.push(caches.txs[entry.txid]),
                ..state.update
            };
            enter_sets_the_wait(
                HistoryView {
                    entries: state.entries.drop_first(),
                    update: TxUpdateView {
                        seen_ats: update.seen_ats.insert((entry.txid, state.start_time)),
                        ..update
                    },
                    ..state
                },
                caches,
                wait,
            );
        }
    }
}

impl HistoryRun {
    closed spec fn in_bounds(&self) -> bool {
        self.next <= self.entries.len()
    }

    /// Whether the run is one that was begun with [`HistoryRun::new`].
    pub closed spec fn wf(&self) -> bool {
        self.in_bounds() && waits_for_entry(self@)
    }

    /// Goes through the entries, as far as their transactions are in the cache.
    fn enter<C>(&mut self, client: &BdkElectrumClient<C>)
        requires
            old(self).in_bounds(),
        ensures
            final(self).in_bounds(),
            final(self)@ == enter(old(self)@, history_caches(*client)),
    {
        let ghost caches = history_caches(*client);
        let ghost end = enter(self@, caches);
        let mut is_waiting = false;
        while !is_waiting && self.next < self.entries.len()
            invariant
                self.in_bounds(),
                caches == history_caches(*client),
                is_waiting ==> self@ == end,
                !is_waiting ==> enter(self@, caches) == end,
            decreases self.entries.len() - self.next + if is_waiting {
                0int
            } else {
                1int
            },
        {
            let entry = self.entries[self.next];
            let ghost before = self@;
            proof {
                assert(before.entries[0] == entry);
            }
            match client.cached_tx(&entry.txid()) {
                None => {
                    self.wait = HistoryWait::Tx;
                    is_waiting = true;
                },
                Some(tx) => {
                    let ghost held = self.update.txs@;
                    self.update.txs.push(tx);
                    proof {
                        assert(tx_views(self.update.txs@) =~= tx_views(held).push(tx@));
                    }
                    match block_height(entry.electrum_height()) {
                        Some(height) => {
                            self.wait = HistoryWait::Merkle;
                            is_waiting = true;
                        },
                        None => {
                            self.update.seen_ats.insert((entry.txid(), self.start_time));
                            self.next = self.next + 1;
                            proof {
                                assert(self@.entries =~= before.entries.drop_first());
                            }
                        },
                    }
                },
            }
        }
        if !is_waiting {
            proof {
                assert(self@.entries.len() == 0);
            }
            self.wait = HistoryWait::Done;
        }
    }

    /// Goes on with the next entry.
    fn enter_next<C>(&mut self, client: &BdkElectrumClient<C>)
        requires
            old(self).in_bounds(),
            old(self)@.entries.len() > 0,
        ensures
            final(self).in_bounds(),
            final(self)@ == enter_next(old(self)@, history_caches(*client)),
    {
        self.next = self.next + 1;
        proof {
            assert(self@.entries =~= old(self)@.entries.drop_first());
        }
        self.enter(client);
    }

    /// Holds the proof of the first entry against a header.
    fn check_proof<C>(
        &mut self,
        client: &BdkElectrumClient<C>,
        merkle: TransactionMerkel,
        header: Header,
        is_update: bool,
    )
        requires
            old(self).in_bounds(),
            old(self)@.entries.len() > 0,
        ensures
            final(self).in_bounds(),
            final(self)@ == check_proof(
                old(self)@,
                history_caches(*client),
                merkle@,
                header,
                is_update,
            ),
    {
        let txid = self.entries[self.next].txid();
        proof {
            assert(self@.entries[0].txid == txid);
        }
        if validate_merkle_proof(&txid, &header.merkle_root, &merkle) {
            let anchor = ConfirmationBlockTime {
                block_id: BlockId { height: merkle.block_height, hash: header.block_hash() },
                confirmation_time: header.time as u64,
            };
            self.update.anchors.insert((anchor, txid));
            self.enter_next(client);
        } else if is_update {
            self.enter_next(client);
        } else {
            self.wait = HistoryWait::Header { merkle, is_update: true };
        }
    }

    /// Begins to follow up history entries.
    pub fn new<C>(client: &BdkElectrumClient<C>, entries: Vec<Tx>, start_time: u64) -> (r: Self)
        ensures
            r.wf(),
            r@ == enter(
                (HistoryView {
                    start_time,
                    entries: entries@,
                    update: empty_update(),
                    wait: HistoryWaitView::Done,
                }),
                history_caches(*client),
            ),
    {
        let mut r = HistoryRun {
            start_time,
            entries,
            next: 0,
            update: TxUpdate::new(),
            wait: HistoryWait::Done,
        };
        proof {
            assert(r@.entries =~= entries@);
            enter_waits(r@, history_caches(*client));
        }
        r.enter(client);
        r
    }

    /// What the server is to be asked next.
    pub fn ask(&self) -> (r: HistoryAsk)
        requires
            self.wf(),
        ensures
            r == history_ask(self@),
    {
        proof {
            if self@.entries.len() > 0 {
                assert(self@.entries[0] == self.entries@[self.next as int]);
            }
        }
        match &self.wait {
            HistoryWait::Tx => HistoryAsk::Tx(self.entries[self.next].txid()),
            HistoryWait::Merkle => {
                let entry = self.entries[self.next];
                match block_height(entry.electrum_height()) {
                    Some(height) => HistoryAsk::Merkle(entry.txid(), height),
                    None => HistoryAsk::Done,
                }
            },
            HistoryWait::Header { merkle, .. } => HistoryAsk::Header(merkle.block_height),
            HistoryWait::Done => HistoryAsk::Done,
            HistoryWait::Failed(_) => HistoryAsk::Failed,
        }
    }

    /// Takes in what the server answered. This is where a transaction's Merkle proof is validated
    /// against the root in the block header, and a confirmation anchor added if it holds.
    pub fn step<C>(&mut self, client: &mut BdkElectrumClient<C>, event: HistoryEvent)
        requires
            old(self).wf(),
        ensures
            final(self).wf(),
            final(client).handle() == old(client).handle(),
            final(client).anchors() == old(client).anchors(),
            (final(self)@, history_caches(*final(client))) == history_step(
                old(self)@,
                history_caches(*old(client)),
                event,
            ),
    {
        let ghost before = self@;
        let mut wait = HistoryWait::Done;
        std::mem::swap(&mut wait, &mut self.wait);
        let ghost swapped = self@;
        proof {
            assert(swapped == (HistoryView { wait: HistoryWaitView::Done, ..before }));
            if before.entries.len() > 0 {
                assert(before.entries[0] == self.entries@[self.next as int]);
            }
        }
        match (wait, event) {
            (HistoryWait::Tx, HistoryEvent::Tx(Ok(tx))) => {
                let txid = self.entries[self.next].txid();
                client.cache_tx(txid, tx);
                proof {
                    enter_sets_the_wait(before, history_caches(*client), HistoryWaitView::Done);
                    enter_waits(before, history_caches(*client));
                }
                self.enter(client);
            },
            (HistoryWait::Tx, HistoryEvent::Tx(Err(e))) => {
                self.wait = HistoryWait::Failed(e);
            },
            (HistoryWait::Merkle, HistoryEvent::Merkle(Ok(merkle))) => {
                match client.cached_header(merkle.block_height) {
                    Some(header) => {
                        proof {
                            check_sets_the_wait(
                                before,
                                history_caches(*client),
                                merkle@,
                                header,
                                false,
                            );
                        }
                        self.check_proof(client, merkle, header, false);
                    },
                    None => {
                        self.wait = HistoryWait::Header { merkle, is_update: false };
                    },
                }
            },
            (HistoryWait::Merkle, HistoryEvent::Merkle(Err(e))) => {
                proof {
                    let rest = HistoryView { entries: before.entries.drop_first(), ..before };
                    enter_sets_the_wait(rest, history_caches(*client), HistoryWaitView::Done);
                    enter_waits(rest, history_caches(*client));
                }
                self.enter_next(client);
            },
            (HistoryWait::Header { merkle, is_update }, HistoryEvent::Header(Ok(header))) => {
                client.cache_header(merkle.block_height, header);
                proof {
                    check_sets_the_wait(
                        before,
                        history_caches(*client),
                        merkle@,
                        header,
                        is_update,
                    );
                }
                self.check_proof(client, merkle, header, is_update);
            },
            (HistoryWait::Header { merkle, is_update }, HistoryEvent::Header(Err(e))) => {
                self.wait = HistoryWait::Failed(e);
            },
            (wait, _) => {
                self.wait = wait;
            },
        }
    }

    /// What was found out, or why it could not be.
    pub fn into_update(self) -> (r: Result<TxUpdate, Error>)
        ensures
            match r {
                Ok(update) => update@ == self@.update && !(self@.wait is Failed),
                Err(e) => self@.wait == HistoryWaitView::Failed(e),
            },
    {
        match self.wait {
            HistoryWait::Failed(e) => Err(e),
            _ => Ok(self.update),
        }
    }
}

/// What was waited for before makes no difference to the check of a proof, and the check leaves an
/// entry for what is waited for.
proof fn check_sets_the_wait(
    state: HistoryView,
    caches: HistoryCaches,
    merkle: MerkleView,
    header: Header,
    is_update: bool,
)
    requires
        state.entries.len() > 0,
    ensures
        check_proof(
            HistoryView { wait: HistoryWaitView::Done, ..state },
            caches,
            merkle,
            header,
            is_update,
        ) == check_proof(state, caches, merkle, header, is_update),
        waits_for_entry(check_proof(state, caches, merkle, header, is_update)),
{
    let txid = state.entries[0].txid;
    let found = HistoryView {
        entries: state.entries.drop_first(),
        update: TxUpdateView {
            anchors: state.update.anchors.insert((anchor_in(merkle.block_height, header), txid)),
            ..state.update
        },
        ..state
    };
    let rest = HistoryView { entries: state.entries.drop_first(), ..state };
    enter_sets_the_wait(found, caches, HistoryWaitView::Done);
    enter_waits(found, caches);
    enter_sets_the_wait(rest, caches, HistoryWaitView::Done);
    enter_waits(rest, caches);
}

/// An answer adds an anchor only where a Merkle proof holds against the header of the block: any
/// other anchor was there before.
pub proof fn history_anchors_are_proven(
    state: HistoryView,
    caches: HistoryCaches,
    event: HistoryEvent,
    anchor: (ConfirmationBlockTime, Txid),
)
    requires
        history_step(state, caches, event).0.update.anchors.contains(anchor),
    ensures
        state.update.anchors.contains(anchor) || exists|merkle: MerkleView, header: Header|
            #[trigger]
            proves(anchor.1, header, merkle) && anchor.0 == anchor_in(merkle.block_height, header),
{
    let end = history_step(state, caches, event);
    match (state.wait, event) {
        (HistoryWaitView::Tx, HistoryEvent::Tx(Ok(tx))) => {
            enter_keeps_anchors(state, end.1);
        },
        (HistoryWaitView::Merkle, HistoryEvent::Merkle(Ok(merkle))) => {
            if caches.headers.contains_key(merkle.block_height) {
                check_anchors_are_proven(
                    state,
                    caches,
                    merkle@,
                    caches.headers[merkle.block_height],
                    false,
                    anchor,
                );
            }
        },
        (HistoryWaitView::Merkle, HistoryEvent::Merkle(Err(e))) => {
            enter_keeps_anchors(
                HistoryView { entries: state.entries.drop_first(), ..state },
                caches,
            );
        },
        (HistoryWaitView::Header { merkle, is_update }, HistoryEvent::Header(Ok(header))) => {
            check_anchors_are_proven(state, end.1, merkle, header, is_update, anchor);
        },
        _ => {},
    }
}

proof fn enter_keeps_anchors(state: HistoryView, caches: HistoryCaches)
    ensures
        enter(state, caches).update.anchors == state.update.anchors,
    decreases state.entries.len(),
{
    if state.entries.len() > 0 {
        let entry = state.entries[0];
        if caches.txs.contains_key(entry.txid) && confirmed_height(entry.height) is None {
            let update = TxUpdateView {
                txs: state.update.txs.push(caches.txs[entry.txid]),
                ..state.update
            };
            enter_keeps_anchors(
                HistoryView {
                    entries: state.entries.drop_first(),
                    update: TxUpdateView {
                        seen_ats: update.seen_ats.insert((entry.txid, state.start_time)),
                        ..update
                    },
                    ..state
                },
                caches,
            );
        }
    }
}

proof fn check_anchors_are_proven(
    state: HistoryView,
    caches: HistoryCaches,
    merkle: MerkleView,
    header: Header,
    is_update: bool,
    anchor: (ConfirmationBlockTime, Txid),
)
    requires
        check_proof(state, caches, merkle, header, is_update).update.anchors.contains(anchor),
    ensures
        state.update.anchors.contains(anchor) || (proves(anchor.1, header, merkle) && anchor.0
            == anchor_in(merkle.block_height, header)),
{
    let txid = state.entries[0].txid;
    enter_keeps_anchors(
        HistoryView {
            entries: state.entries.drop_first(),
            update: TxUpdateView {
                anchors: state.update.anchors.insert((anchor_in(merkle.block_height, header), txid)),
                ..state.update
            },
            ..state
        },
        caches,
    );
    enter_keeps_anchors(HistoryView { entries: state.entries.drop_first(), ..state }, caches);
}

/// Whether the transaction of an entry is known, and the entry is unconfirmed.
pub open spec fn is_passed(caches: HistoryCaches, entry: Tx) -> bool {
    caches.txs.contains_key(entry.txid) && !(1 <= entry.height <= 4294967295)
}

/// Unconfirmed entries whose transactions are known are passed at once: their transactions are in the
/// update, in order, and are seen at the time of the start. The first entry that is none of these is waited
/// for: for its transaction, or, where that is known, for the proof that it is confirmed.
pub proof fn unconfirmed_entries_are_passed(state: HistoryView, caches: HistoryCaches, n: int, k: int)
    requires
        0 <= n <= state.entries.len(),
        forall|i: int| 0 <= i < n ==> is_passed(caches, #[trigger] state.entries[i]),
        n < state.entries.len() ==> !is_passed(caches, state.entries[n]),
    ensures
        ({
            let after = enter(state, caches);
            let waits_for_proof = n < state.entries.len() && caches.txs.contains_key(
                state.entries[n].txid,
            );
            &&& after.entries == state.entries.skip(n)
            &&& after.start_time == state.start_time
            &&& n == state.entries.len() ==> after.wait is Done
            &&& n < state.entries.len() && !caches.txs.contains_key(state.entries[n].txid)
                ==> after.wait is Tx
            &&& waits_for_proof ==> after.wait is Merkle
            &&& after.update.txs.len() == state.update.txs.len() + n + (if waits_for_proof {
                1int
            } else {
                0
            })
            &&& state.update.txs.is_prefix_of(after.update.txs)
            &&& 0 <= k < n ==> after.update.txs[state.update.txs.len() + k]
                == caches.txs[state.entries[k].txid]
            &&& waits_for_proof ==> after.update.txs.last() == caches.txs[state.entries[n].txid]
            &&& 0 <= k < n ==> after.update.seen_ats.contains(
                (state.entries[k].txid, state.start_time),
            )
            &&& state.update.seen_ats.subset_of(after.update.seen_ats)
            &&& after.update.anchors == state.update.anchors
            &&& after.update.txouts == state.update.txouts
            &&& after.update.evicted_ats == state.update.evicted_ats
        }),
    decreases n,
{
    assert(state.entries.skip(0) =~= state.entries);
    if n > 0 {
        let entry = state.entries[0];
        assert(is_passed(caches, entry));
        let next = HistoryView {
            entries: state.entries.drop_first(),
            update: TxUpdateView {
                txs: state.update.txs.push(caches.txs[entry.txid]),
                seen_ats: state.update.seen_ats.insert((entry.txid, state.start_time)),
                ..state.update
            },
            ..state
        };
        assert forall|i: int| 0 <= i < n - 1 implies is_passed(
            caches,
            #[trigger] next.entries[i],
        ) by {
            assert(is_passed(caches, state.entries[i + 1]));
        }
        unconfirmed_entries_are_passed(next, caches, n - 1, k - 1);
        assert(next.entries.skip(n - 1) =~= state.entries.skip(n));
        if 0 < k < n {
            assert(next.entries[k - 1] == state.entries[k]);
        }
        let after = enter(state, caches);
        assert(after == enter(next, caches));
        assert(next.update.txs.is_prefix_of(after.update.txs));
        assert(after.update.txs[state.update.txs.len() as int]
            == next.update.txs[state.update.txs.len() as int]);
        assert(state.update.txs.is_prefix_of(after.update.txs)) by {
            assert(after.update.txs.take(next.update.txs.len() as int) =~= next.update.txs);
            assert(after.update.txs.take(state.update.txs.len() as int) =~= state.update.txs);
        }
        assert(next.update.seen_ats.contains((entry.txid, state.start_time)));
    }
}

/// Nothing is seen but unconfirmed entries, at the time of the start.
pub proof fn only_unconfirmed_entries_are_seen(
    state: HistoryView,
    caches: HistoryCaches,
    seen: (Txid, u64),
)
    requires
        enter(state, caches).update.seen_ats.contains(seen),
        !state.update.seen_ats.contains(seen),
    ensures
        seen.1 == state.start_time,
        exists|i: int|
            0 <= i < state.entries.len() && (#[trigger] state.entries[i]).txid == seen.0 && !(1
                <= state.entries[i].height <= 4294967295),
    decreases state.entries.len(),
{
    let entry = state.entries[0];
    let next = HistoryView {
        entries: state.entries.drop_first(),
        update: TxUpdateView {
            txs: state.update.txs.push(caches.txs[entry.txid]),
            seen_ats: state.update.seen_ats.insert((entry.txid, state.start_time)),
            ..state.update
        },
        ..state
    };
    if next.update.seen_ats.contains(seen) {
        assert(state.entries[0].txid == seen.0);
    } else {
        only_unconfirmed_entries_are_seen(next, caches, seen);
        let i = choose|i: int|
            0 <= i < next.entries.len() && (#[trigger] next.entries[i]).txid == seen.0 && !(1
                <= next.entries[i].height <= 4294967295);
        assert(state.entries[i + 1].txid == seen.0);
    }
}

/// A proof that holds gives the anchor of the transaction: the block at the height that the proof names, with
/// its hash and its time. One that does not hold against a header that was known is held against the header
/// once more, and against one that was just fetched it is passed over.
pub proof fn a_proof_gives_the_anchor(
    state: HistoryView,
    caches: HistoryCaches,
    merkle: MerkleView,
    header: Header,
    is_update: bool,
)
    requires
        state.entries.len() > 0,
    ensures
        ({
            let after = check_proof(state, caches, merkle, header, is_update);
            let txid = state.entries[0].txid;
            let anchor = ConfirmationBlockTime {
                block_id: BlockId { height: merkle.block_height, hash: block_hash_of(header) },
                confirmation_time: header.time as u64,
            };
            &&& proves(txid, header, merkle) ==> after.update.anchors
                == state.update.anchors.insert((anchor, txid))
            &&& !proves(txid, header, merkle) ==> after.update.anchors == state.update.anchors
            &&& !proves(txid, header, merkle) && !is_update ==> after == (HistoryView {
                wait: HistoryWaitView::Header { merkle, is_update: true },
                ..state
            })
            &&& proves(txid, header, merkle) || is_update ==> after.entries.len()
                < state.entries.len()
            &&& after.update.evicted_ats == state.update.evicted_ats
        }),
{
    let txid = state.entries[0].txid;
    let anchor = (anchor_in(merkle.block_height, header), txid);
    let proven = HistoryView {
        update: TxUpdateView { anchors: state.update.anchors.insert(anchor), ..state.update },
        ..state
    };
    enter_moves_on(HistoryView { entries: state.entries.drop_first(), ..proven }, caches);
    enter_moves_on(HistoryView { entries: state.entries.drop_first(), ..state }, caches);
}

proof fn enter_moves_on(state: HistoryView, caches: HistoryCaches)
    ensures
        enter(state, caches).update.anchors == state.update.anchors,
        enter(state, caches).update.evicted_ats == state.update.evicted_ats,
        enter(state, caches).entries.len() <= state.entries.len(),
    decreases state.entries.len(),
{
    if state.entries.len() > 0 {
        let entry = state.entries[0];
        enter_moves_on(
            HistoryView {
                entries: state.entries.drop_first(),
                update: TxUpdateView {
                    txs: state.update.txs.push(caches.txs[entry.txid]),
                    seen_ats: state.update.seen_ats.insert((entry.txid, state.start_time)),
                    ..state.update
                },
                ..state
            },
            caches,
        );
    }
}

/// What the server answers on an entry is kept: a transaction under the id of the entry, a header at the
/// height that the proof names. Without the transaction or the header there is no update; without a proof
/// the entry is passed over, and has no anchor.
pub proof fn answers_on_entries_are_kept(
    state: HistoryView,
    caches: HistoryCaches,
    tx: Transaction,
    merkle: TransactionMerkel,
    shown: MerkleView,
    again: bool,
    header: Header,
    e: Error,
)
    requires
        state.entries.len() > 0,
    ensures
        state.wait is Tx ==> {
            let (after, known) = history_step(state, caches, HistoryEvent::Tx(Ok(tx)));
            &&& known.txs == caches.txs.insert(state.entries[0].txid, tx@)
            &&& known.headers == caches.headers
            &&& after == enter(state, known)
        },
        state.wait is Tx ==> history_step(state, caches, HistoryEvent::Tx(Err(e))) == (
            HistoryView { wait: HistoryWaitView::Failed(e), ..state },
            caches,
        ),
        state.wait is Merkle && !caches.headers.contains_key(merkle@.block_height)
            ==> history_step(state, caches, HistoryEvent::Merkle(Ok(merkle))) == (
            HistoryView {
                wait: HistoryWaitView::Header { merkle: merkle@, is_update: false },
                ..state
            },
            caches,
        ),
        state.wait is Merkle && caches.headers.contains_key(merkle@.block_height) && proves(
            state.entries[0].txid,
            caches.headers[merkle@.block_height],
            merkle@,
        ) ==> history_step(
            state,
            caches,
            HistoryEvent::Merkle(Ok(merkle)),
        ).0.update.anchors.contains(
            (
                anchor_in(merkle@.block_height, caches.headers[merkle@.block_height]),
                state.entries[0].txid,
            ),
        ),
        state.wait is Merkle ==> {
            let (after, known) = history_step(state, caches, HistoryEvent::Merkle(Err(e)));
            &&& known == caches
            &&& after.update.anchors == state.update.anchors
            &&& after.entries.len() < state.entries.len()
        },
        state.wait == (HistoryWaitView::Header { merkle: shown, is_update: again }) ==> {
            let (after, known) = history_step(state, caches, HistoryEvent::Header(Ok(header)));
            &&& known.headers == caches.headers.insert(shown.block_height, header)
            &&& known.txs == caches.txs
            &&& proves(state.entries[0].txid, header, shown) ==> after.update.anchors.contains(
                (anchor_in(shown.block_height, header), state.entries[0].txid),
            )
        },
        state.wait is Header ==> history_step(state, caches, HistoryEvent::Header(Err(e))) == (
            HistoryView { wait: HistoryWaitView::Failed(e), ..state },
            caches,
        ),
{
    let first = merkle@.block_height;
    a_proof_gives_the_anchor(state, caches, merkle@, caches.headers[first], false);
    a_proof_gives_the_anchor(
        state,
        HistoryCaches { headers: caches.headers.insert(shown.block_height, header), ..caches },
        shown,
        header,
        again,
    );
    enter_moves_on(HistoryView { entries: state.entries.drop_first(), ..state }, caches);
}

/// What is asked for concerns the first entry: its transaction, or the proof for it at its height, or the
/// header at the height that the proof names.
pub proof fn the_first_entry_is_asked_about(state: HistoryView, shown: MerkleView, again: bool)
    requires
        waits_for_entry(state),
    ensures
        state.wait is Tx ==> history_ask(state) == HistoryAsk::Tx(state.entries[0].txid),
        state.wait is Merkle ==> history_ask(state) == HistoryAsk::Merkle(
            state.entries[0].txid,
            state.entries[0].height as u32,
        ),
        state.wait is Merkle ==> 1 <= state.entries[0].height <= 4294967295,
        state.wait == (HistoryWaitView::Header { merkle: shown, is_update: again })
            ==> history_ask(state) == HistoryAsk::Header(shown.block_height),
        state.wait is Done <==> history_ask(state) is Done,
        state.wait is Failed <==> history_ask(state) is Failed,
{
}

} // verus!
