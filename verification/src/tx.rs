//! Transactions and the updates that a sync collects about them.
use std::sync::Arc;

use bitcoin::absolute::LockTime;
use bitcoin::hashes::Hash as RawHash;
use bitcoin::transaction::Version;
use vstd::prelude::*;

use crate::chain::ConfirmationBlockTime;
use crate::hash::{Hash256, Txid};
use crate::ordered::{Key, OrderedMap, OrderedSet, Value};

verus! {

/// A reference to an output of a transaction.
#[derive(Debug, Clone, Copy, PartialEq, Eq, PartialOrd, Ord, Hash)]
pub struct OutPoint {
    /// The transaction.
    pub txid: Txid,
    /// The position of the output in it.
    pub vout: u32,
}

impl View for OutPoint {
    type V = OutPoint;

    open spec fn view(&self) -> OutPoint {
        *self
    }
}

impl Value for OutPoint {
    fn replica(&self) -> (r: Self) {
        *self
    }

    fn same(&self, other: &Self) -> (r: bool) {
        self.txid.same(&other.txid) && self.vout == other.vout
    }
}

/// References stand in the order of their transaction, then of their position.
impl Key for OutPoint {
    open spec fn before(a: OutPoint, b: OutPoint) -> bool {
        <(Hash256, u32)>::before((a.txid, a.vout), (b.txid, b.vout))
    }

    proof fn before_irreflexive(a: OutPoint) {
        <(Hash256, u32)>::before_irreflexive((a.txid, a.vout));
    }

    proof fn before_transitive(a: OutPoint, b: OutPoint, c: OutPoint) {
        <(Hash256, u32)>::before_transitive((a.txid, a.vout), (b.txid, b.vout), (c.txid, c.vout));
    }

    proof fn before_total(a: OutPoint, b: OutPoint) {
        <(Hash256, u32)>::before_total((a.txid, a.vout), (b.txid, b.vout));
    }

    fn precedes(&self, other: &Self) -> (r: bool) {
        (self.txid, self.vout).precedes(&(other.txid, other.vout))
    }
}

/// Whether a reference is the null reference, which no output has.
pub open spec fn is_null(o: OutPoint) -> bool {
    o.vout == u32::MAX && forall|i: int| 0 <= i < 32 ==> #[trigger] o.txid.bytes@[i] == 0
}

/// A byte string, copied.
pub fn copy_bytes(bytes: &Vec<u8>) -> (r: Vec<u8>)
    ensures
        r@ == bytes@,
{
    let mut r: Vec<u8> = Vec::new();
    let mut i: usize = 0;
    while i < bytes.len()
        invariant
            i <= bytes.len(),
            r@ == bytes@.take(i as int),
        decreases bytes.len() - i,
    {
        r.push(bytes[i]);
        i = i + 1;
        assert(r@ =~= bytes@.take(i as int));
    }
    assert(bytes@.take(bytes.len() as int) =~= bytes@);
    r
}

/// Whether two byte strings are equal.
pub fn same_bytes(a: &Vec<u8>, b: &Vec<u8>) -> (r: bool)
    ensures
        r == (a@ == b@),
{
    if a.len() != b.len() {
        return false;
    }
    let mut i: usize = 0;
    while i < a.len()
        invariant
            i <= a.len(),
            a.len() == b.len(),
            forall|j: int| 0 <= j < i ==> a@[j] == b@[j],
        decreases a.len() - i,
    {
        if a[i] != b[i] {
            return false;
        }
        i = i + 1;
    }
    assert(a@ =~= b@);
    true
}

/// An output of a transaction.
#[derive(Debug, Clone, PartialEq, Eq, PartialOrd, Ord, Hash)]
pub struct TxOut {
    /// The value, in satoshis.
    pub value: u64,
    /// The script that has to be satisfied to spend it.
    pub script_pubkey: Vec<u8>,
}

/// An output of a transaction, as contracts speak of it.
pub struct TxOutView {
    /// The value, in satoshis.
    pub value: u64,
    /// The script that has to be satisfied to spend it.
    pub script_pubkey: Seq<u8>,
}

impl View for TxOut {
    type V = TxOutView;

    open spec fn view(&self) -> TxOutView {
        TxOutView { value: self.value, script_pubkey: self.script_pubkey@ }
    }
}

impl Value for TxOut {
    fn replica(&self) -> (r: Self) {
        TxOut { value: self.value, script_pubkey: copy_bytes(&self.script_pubkey) }
    }

    fn same(&self, other: &Self) -> (r: bool) {
        self.value == other.value && same_bytes(&self.script_pubkey, &other.script_pubkey)
    }
}

/// An input of a transaction.
#[derive(Debug, Clone, PartialEq, Eq, PartialOrd, Ord, Hash)]
pub struct TxIn {
    /// The output that it spends.
    pub previous_output: OutPoint,
    /// The script that satisfies the output's script.
    pub script_sig: Vec<u8>,
    /// Sequence number.
    pub sequence: u32,
    /// Witness.
    pub witness: Vec<Vec<u8>>,
}

/// An input of a transaction, as contracts speak of it.
pub struct TxInView {
    /// The output that it spends.
    pub previous_output: OutPoint,
    /// The script that satisfies the output's script.
    pub script_sig: Seq<u8>,
    /// Sequence number.
    pub sequence: u32,
    /// Witness.
    pub witness: Seq<Seq<u8>>,
}

impl View for TxIn {
    type V = TxInView;

    open spec fn view(&self) -> TxInView {
        TxInView {
            previous_output: self.previous_output,
            script_sig: self.script_sig@,
            sequence: self.sequence,
            witness: self.witness@.map_values(|w: Vec<u8>| w@),
        }
    }
}

/// A transaction.
#[derive(Debug, Clone, PartialEq, Eq, PartialOrd, Ord, Hash)]
pub struct Transaction {
    /// Version.
    pub version: i32,
    /// Lock time.
    pub lock_time: u32,
    /// Inputs.
    pub input: Vec<TxIn>,
    /// Outputs.
    pub output: Vec<TxOut>,
}

/// A transaction, as contracts speak of it.
pub struct TransactionView {
    /// Version.
    pub version: i32,
    /// Lock time.
    pub lock_time: u32,
    /// Inputs.
    pub input: Seq<TxInView>,
    /// Outputs.
    pub output: Seq<TxOutView>,
}

impl View for Transaction {
    type V = TransactionView;

    open spec fn view(&self) -> TransactionView {
        TransactionView {
            version: self.version,
            lock_time: self.lock_time,
            input: self.input@.map_values(|i: TxIn| i@),
            output: self.output@.map_values(|o: TxOut| o@),
        }
    }
}

/// The hash of a transaction with the given version, lock time, inputs (the output that each spends,
/// its script and its sequence number) and outputs (value and script).
pub uninterp spec fn hash_of_transaction(
    version: i32,
    lock_time: u32,
    input: Seq<(OutPoint, Seq<u8>, u32)>,
    output: Seq<(u64, Seq<u8>)>,
) -> Hash256;

/// What of the inputs enters the id of a transaction: all but the witness.
pub open spec fn inputs_of(tx: TransactionView) -> Seq<(OutPoint, Seq<u8>, u32)> {
    tx.input.map_values(|i: TxInView| (i.previous_output, i.script_sig, i.sequence))
}

/// What of the outputs enters the id of a transaction.
pub open spec fn outputs_of(tx: TransactionView) -> Seq<(u64, Seq<u8>)> {
    tx.output.map_values(|o: TxOutView| (o.value, o.script_pubkey))
}

/// The id of a transaction.
pub open spec fn txid_of(tx: TransactionView) -> Txid {
    hash_of_transaction(tx.version, tx.lock_time, inputs_of(tx), outputs_of(tx))
}

/// Whether a transaction has the form of a coinbase transaction: one input, which spends nothing.
pub open spec fn is_coinbase_tx(tx: TransactionView) -> bool {
    tx.input.len() == 1 && is_null(tx.input[0].previous_output)
}

impl OutPoint {
    /// Whether this is the null reference.
    pub fn is_null(&self) -> (r: bool)
        ensures
            r == is_null(*self),
    {
        if self.vout != u32::MAX {
            return false;
        }
        let mut i: usize = 0;
        while i < 32
            invariant
                i <= 32,
                forall|j: int| 0 <= j < i ==> #[trigger] self.txid.bytes@[j] == 0,
            decreases 32 - i,
        {
            if self.txid.bytes[i] != 0 {
                return false;
            }
            i = i + 1;
        }
        true
    }
}

impl Transaction {
    /// Calls `bitcoin::Transaction::compute_txid`, which hashes the transaction without the witness.
    /// The result is named by [`hash_of_transaction`]; nothing is said of its bytes.
    #[verifier::external_body]
    pub(crate) fn compute_txid(&self) -> (r: Txid)
        ensures
            r@ == hash_of_transaction(
                self@.version,
                self@.lock_time,
                inputs_of(self@),
                outputs_of(self@),
            ),
    {
        let input = self.input.iter().map(|i| bitcoin::TxIn {
            previous_output: bitcoin::OutPoint::new(
                RawHash::from_byte_array(i.previous_output.txid.bytes), i.previous_output.vout),
            script_sig: i.script_sig.clone().into(),
            sequence: bitcoin::Sequence(i.sequence),
            witness: Default::default(),
        }).collect();
        let output = self.output.iter().map(|o| bitcoin::TxOut {
            value: bitcoin::Amount::from_sat(o.value),
            script_pubkey: o.script_pubkey.clone().into(),
        }).collect();
        let (version, lock_time) = (Version(self.version), LockTime::from_consensus(self.lock_time));
        let txid = bitcoin::Transaction { version, lock_time, input, output }.compute_txid();
        Hash256 { bytes: *RawHash::as_byte_array(&txid) }
    }

    /// Whether the transaction has the form of a coinbase transaction.
    pub fn is_coinbase(&self) -> (r: bool)
        ensures
            r == is_coinbase_tx(self@),
    {
        self.input.len() == 1 && self.input[0].previous_output.is_null()
    }
}

/// Calls `Arc::clone`: another handle on the same transaction.
#[verifier::external_body]
pub(crate) fn share_tx(tx: &Arc<Transaction>) -> (r: Arc<Transaction>)
    ensures
        r == *tx,
{
    Arc::clone(tx)
}

/// The views of a list of transactions.
pub open spec fn tx_views(txs: Seq<Arc<Transaction>>) -> Seq<TransactionView> {
    txs.map_values(|t: Arc<Transaction>| t@)
}

/// What a sync found out about transactions.
#[derive(Debug, Clone, PartialEq)]
pub struct TxUpdate {
    /// Transactions that are relevant.
    pub txs: Vec<Arc<Transaction>>,
    /// Outputs of transactions that are not themselves in `txs`.
    pub txouts: OrderedMap<OutPoint, TxOut>,
    /// Where transactions are confirmed.
    pub anchors: OrderedSet<(ConfirmationBlockTime, Txid)>,
    /// When transactions were seen unconfirmed.
    pub seen_ats: OrderedSet<(Txid, u64)>,
    /// When transactions were found to be gone.
    pub evicted_ats: OrderedSet<(Txid, u64)>,
}

/// What a sync found out about transactions, as contracts speak of it.
pub struct TxUpdateView {
    /// Transactions that are relevant.
    pub txs: Seq<TransactionView>,
    /// Outputs of transactions that are not themselves in `txs`.
    pub txouts: Map<OutPoint, TxOutView>,
    /// Where transactions are confirmed.
    pub anchors: Set<(ConfirmationBlockTime, Txid)>,
    /// When transactions were seen unconfirmed.
    pub seen_ats: Set<(Txid, u64)>,
    /// When transactions were found to be gone.
    pub evicted_ats: Set<(Txid, u64)>,
}

impl View for TxUpdate {
    type V = TxUpdateView;

    open spec fn view(&self) -> TxUpdateView {
        TxUpdateView {
            txs: tx_views(self.txs@),
            txouts: self.txouts@,
            anchors: self.anchors@,
            seen_ats: self.seen_ats@,
            evicted_ats: self.evicted_ats@,
        }
    }
}

/// An update that says nothing.
pub open spec fn empty_update() -> TxUpdateView {
    TxUpdateView {
        txs: Seq::empty(),
        txouts: Map::empty(),
        anchors: Set::empty(),
        seen_ats: Set::empty(),
        evicted_ats: Set::empty(),
    }
}

/// Two updates taken together. Of an output that both have, the second has the say.
pub open spec fn joined_update(a: TxUpdateView, b: TxUpdateView) -> TxUpdateView {
    TxUpdateView {
        txs: a.txs + b.txs,
        txouts: a.txouts.union_prefer_right(b.txouts),
        anchors: a.anchors.union(b.anchors),
        seen_ats: a.seen_ats.union(b.seen_ats),
        evicted_ats: a.evicted_ats.union(b.evicted_ats),
    }
}

impl TxUpdate {
    /// An update that says nothing.
    pub fn new() -> (r: TxUpdate)
        ensures
            r@ == empty_update(),
    {
        let r = TxUpdate {
            txs: Vec::new(),
            txouts: OrderedMap::new(),
            anchors: OrderedSet::new(),
            seen_ats: OrderedSet::new(),
            evicted_ats: OrderedSet::new(),
        };
        assert(r@.txs =~= Seq::<TransactionView>::empty());
        r
    }

    /// Whether the update says nothing.
    pub fn is_empty(&self) -> (r: bool)
        ensures
            r == (self@ == empty_update()),
    {
        proof {
            if self.txs.len() == 0 {
                assert(self@.txs =~= Seq::<TransactionView>::empty());
            } else {
                assert(self@.txs.len() == self.txs.len());
            }
        }
        self.txs.len() == 0 && self.txouts.is_empty() && self.anchors.is_empty()
            && self.seen_ats.is_empty() && self.evicted_ats.is_empty()
    }

    /// Takes in another update.
    pub fn extend(&mut self, other: TxUpdate)
        ensures
            final(self)@ == joined_update(old(self)@, other@),
    {
        let mut txs = other.txs;
        let ghost added = txs@;
        self.txs.append(&mut txs);
        self.txouts.absorb(&other.txouts);
        self.anchors.absorb(&other.anchors);
        self.seen_ats.absorb(&other.seen_ats);
        self.evicted_ats.absorb(&other.evicted_ats);
        assert(self@.txs =~= old(self)@.txs + tx_views(added));
    }
}

/// Two updates taken together have the transactions of the first and then those of the second, and all that
/// either of them says. Of an output that both have, the second has the say.
pub proof fn joined_updates_keep_both(
    a: TxUpdateView,
    b: TxUpdateView,
    outpoint: OutPoint,
    anchor: (ConfirmationBlockTime, Txid),
    at: (Txid, u64),
    i: int,
)
    ensures
        ({
            let both = joined_update(a, b);
            &&& both.txs.len() == a.txs.len() + b.txs.len()
            &&& 0 <= i < a.txs.len() ==> both.txs[i] == a.txs[i]
            &&& 0 <= i < b.txs.len() ==> both.txs[a.txs.len() + i] == b.txs[i]
            &&& b.txouts.contains_key(outpoint) ==> both.txouts.get(outpoint) == b.txouts.get(
                outpoint,
            )
            &&& !b.txouts.contains_key(outpoint) ==> both.txouts.get(outpoint) == a.txouts.get(
                outpoint,
            )
            &&& both.anchors.contains(anchor) <==> a.anchors.contains(anchor)
                || b.anchors.contains(anchor)
            &&& both.seen_ats.contains(at) <==> a.seen_ats.contains(at) || b.seen_ats.contains(at)
            &&& both.evicted_ats.contains(at) <==> a.evicted_ats.contains(at)
                || b.evicted_ats.contains(at)
        }),
{
}

/// An empty update adds nothing, on either side.
pub proof fn an_empty_update_adds_nothing(update: TxUpdateView)
    ensures
        joined_update(empty_update(), update) == update,
        joined_update(update, empty_update()) == update,
{
    assert(joined_update(empty_update(), update).txs =~= update.txs);
    assert(joined_update(empty_update(), update).txouts =~= update.txouts);
    assert(joined_update(empty_update(), update).anchors =~= update.anchors);
    assert(joined_update(empty_update(), update).seen_ats =~= update.seen_ats);
    assert(joined_update(empty_update(), update).evicted_ats =~= update.evicted_ats);
    assert(joined_update(update, empty_update()).txs =~= update.txs);
    assert(joined_update(update, empty_update()).txouts =~= update.txouts);
    assert(joined_update(update, empty_update()).anchors =~= update.anchors);
    assert(joined_update(update, empty_update()).seen_ats =~= update.seen_ats);
    assert(joined_update(update, empty_update()).evicted_ats =~= update.evicted_ats);
}

/// A coinbase is what spends one output only, the last one of the transaction whose id is all zeros.
pub proof fn a_coinbase_spends_nothing(tx: TransactionView, b: int)
    ensures
        is_coinbase_tx(tx) ==> tx.input.len() == 1,
        is_coinbase_tx(tx) ==> tx.input[0].previous_output.vout == 4294967295,
        is_coinbase_tx(tx) && 0 <= b < 32 ==> tx.input[0].previous_output.txid.bytes@[b] == 0,
        tx.input.len() != 1 ==> !is_coinbase_tx(tx),
        0 <= b < 32 && tx.input[0].previous_output.txid.bytes@[b] != 0 ==> !is_coinbase_tx(tx),
        tx.input[0].previous_output.vout != 4294967295 ==> !is_coinbase_tx(tx),
{
}

} // verus!
