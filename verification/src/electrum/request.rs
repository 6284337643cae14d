//! What the client asks of the server, and what it makes of the responses.
use vstd::prelude::*;

use crate::electrum::client::ElectrumClient;
use crate::electrum::error::{BatchRequestError, Error};
use crate::hash::{ElectrumScriptHash, Txid};
use crate::ordered::OrderedMap;
use crate::tx::Transaction;

verus! {

/// A request to the server.
#[derive(Debug, PartialEq, Eq)]
pub enum Request {
    /// The features of the server.
    ServerFeatures,
    /// The block header at a height.
    BlockHeader {
        /// The height.
        height: u32,
    },
    /// Some consecutive block headers.
    BlockHeaders {
        /// Height of the first one.
        start_height: u32,
        /// How many.
        count: usize,
    },
    /// The tip, and each new block header.
    HeadersSubscribe,
    /// The status of a script, and each new one.
    ScriptHashSubscribe {
        /// The script.
        script_hash: ElectrumScriptHash,
    },
    /// No more statuses of a script.
    ScriptHashUnsubscribe {
        /// The script.
        script_hash: ElectrumScriptHash,
    },
    /// The history of a script.
    GetHistory {
        /// The script.
        script_hash: ElectrumScriptHash,
    },
    /// A transaction.
    GetTx {
        /// Its id.
        txid: Txid,
    },
    /// The Merkle proof of a transaction.
    GetTxMerkle {
        /// Its id.
        txid: Txid,
        /// The height of the block.
        height: u32,
    },
    /// The fee rate for a transaction to be confirmed within so many blocks.
    EstimateFee {
        /// How many blocks.
        number: usize,
    },
    /// Broadcasts a transaction.
    BroadcastTx(Transaction),
}

/// The requests for a list, one for each.
pub open spec fn requests_for<T>(items: Seq<T>, request: spec_fn(T) -> Request) -> Seq<Request> {
    items.map_values(request)
}

/// Whether this is what comes of sending requests: nothing is sent where there are none, and nothing
/// may be sent to a server on another network.
pub open spec fn is_sent(
    client: ElectrumClient,
    requests: Seq<Request>,
    sent: Result<Vec<Request>, Error>,
) -> bool {
    match sent {
        Ok(list) => list@ == requests && (requests.len() == 0 || !client@.network_mismatch),
        Err(e) => requests.len() > 0 && client@.network_mismatch && e == Error::NetworkMismatch,
    }
}

/// Whether this is what comes of sending one request.
pub open spec fn is_sent_alone(
    client: ElectrumClient,
    request: Request,
    sent: Result<Request, Error>,
) -> bool {
    sent == if client@.network_mismatch {
        Err::<Request, Error>(Error::NetworkMismatch)
    } else {
        Ok::<Request, Error>(request)
    }
}

/// A client whose server turned out to be on another network sends no request: each is answered with that
/// error.
pub proof fn requests_to_another_network_are_refused(
    client: ElectrumClient,
    requests: Seq<Request>,
    sent: Result<Vec<Request>, Error>,
    request: Request,
    sent_alone: Result<Request, Error>,
)
    requires
        client@.network_mismatch,
        is_sent(client, requests, sent),
        is_sent_alone(client, request, sent_alone),
    ensures
        requests.len() > 0 ==> sent == Err::<Vec<Request>, Error>(Error::NetworkMismatch),
        sent_alone == Err::<Request, Error>(Error::NetworkMismatch),
{
}

impl ElectrumClient {
    /// A request, where it may be sent.
    fn single(&self, request: Request) -> (r: Result<Request, Error>)
        ensures
            is_sent_alone(*self, request, r),
    {
        match self.send_batch() {
            Ok(()) => Ok(request),
            Err(e) => Err(e),
        }
    }

    /// Requests, where they may be sent.
    fn batch(&self, requests: Vec<Request>) -> (r: Result<Vec<Request>, Error>)
        ensures
            is_sent(*self, requests@, r),
    {
        if requests.len() == 0 {
            return Ok(requests);
        }
        match self.send_batch() {
            Ok(()) => Ok(requests),
            Err(e) => Err(e),
        }
    }

    /// Get server features
    pub fn server_features(&self) -> (r: Result<Request, Error>)
        ensures
            is_sent_alone(*self, Request::ServerFeatures, r),
    {
        self.single(Request::ServerFeatures)
    }

    /// Get block header
    pub fn block_header(&self, height: u32) -> (r: Result<Request, Error>)
        ensures
            is_sent_alone(*self, (Request::BlockHeader { height }), r),
    {
        self.single(Request::BlockHeader { height })
    }

    /// Batch get block headers
    pub fn batch_block_header(&self, heights: &Vec<u32>) -> (r: Result<Vec<Request>, Error>)
        ensures
            is_sent(
                *self,
                requests_for(heights@, (|height: u32| Request::BlockHeader { height })),
                r,
            ),
    {
        let ghost expected = requests_for(heights@, |height: u32| Request::BlockHeader { height });
        let mut requests: Vec<Request> = Vec::new();
        let mut i: usize = 0;
        while i < heights.len()
            invariant
                i <= heights.len(),
                expected == requests_for(heights@, |height: u32| Request::BlockHeader { height }),
                requests@ == expected.take(i as int),
            decreases heights.len() - i,
        {
            requests.push(Request::BlockHeader { height: heights[i] });
            proof {
                assert(expected.take(i + 1) =~= expected.take(i as int).push(expected[i as int]));
            }
            i = i + 1;
        }
        proof {
            assert(expected.take(expected.len() as int) =~= expected);
        }
        self.batch(requests)
    }

    /// Tries to fetch `count` block headers starting from `start_height`.
    pub fn block_headers(&self, start_height: u32, count: usize) -> (r: Result<Request, Error>)
        ensures
            is_sent_alone(*self, (Request::BlockHeaders { start_height, count }), r),
    {
        self.single(Request::BlockHeaders { start_height, count })
    }

    /// Subscribe to block headers and return the current blockchain tip.
    pub fn get_tip(&self) -> (r: Result<Request, Error>)
        ensures
            is_sent_alone(*self, Request::HeadersSubscribe, r),
    {
        self.single(Request::HeadersSubscribe)
    }

    /// Subscribe to block headers
    pub fn block_headers_subscribe(&self) -> (r: Result<Request, Error>)
        ensures
            is_sent_alone(*self, Request::HeadersSubscribe, r),
    {
        self.single(Request::HeadersSubscribe)
    }

    /// Subscribe to script hash
    pub fn script_hash_subscribe(&self, script_hash: ElectrumScriptHash) -> (r: Result<
        Request,
        Error,
    >)
        ensures
            is_sent_alone(*self, (Request::ScriptHashSubscribe { script_hash }), r),
    {
        self.single(Request::ScriptHashSubscribe { script_hash })
    }

    /// Subscribe to script hashes
    pub fn batch_script_hash_subscribe(&self, script_hashes: &Vec<ElectrumScriptHash>) -> (r:
        Result<Vec<Request>, Error>)
        ensures
            is_sent(
                *self,
                requests_for(
                    script_hashes@,
                    (|script_hash: ElectrumScriptHash| Request::ScriptHashSubscribe { script_hash }),
                ),
                r,
            ),
    {
        let ghost expected = requests_for(
            script_hashes@,
            |script_hash: ElectrumScriptHash| Request::ScriptHashSubscribe { script_hash },
        );
        let mut requests: Vec<Request> = Vec::new();
        let mut i: usize = 0;
        while i < script_hashes.len()
            invariant
                i <= script_hashes.len(),
                expected == requests_for(
                    script_hashes@,
                    |script_hash: ElectrumScriptHash| Request::ScriptHashSubscribe { script_hash },
                ),
                requests@ == expected.take(i as int),
            decreases script_hashes.len() - i,
        {
            requests.push(Request::ScriptHashSubscribe { script_hash: script_hashes[i] });
            proof {
                assert(expected.take(i + 1) =~= expected.take(i as int).push(expected[i as int]));
            }
            i = i + 1;
        }
        proof {
            assert(expected.take(expected.len() as int) =~= expected);
        }
        self.batch(requests)
    }

    /// Unsubscribe from a script hash
    pub fn script_hash_unsubscribe(&self, script_hash: ElectrumScriptHash) -> (r: Result<
        Request,
        Error,
    >)
        ensures
            is_sent_alone(*self, (Request::ScriptHashUnsubscribe { script_hash }), r),
    {
        self.single(Request::ScriptHashUnsubscribe { script_hash })
    }

    /// Unsubscribe from script hashes
    pub fn batch_script_hash_unsubscribe(&self, script_hashes: &Vec<ElectrumScriptHash>) -> (r:
        Result<Vec<Request>, Error>)
        ensures
            is_sent(
                *self,
                requests_for(
                    script_hashes@,
                    (|script_hash: ElectrumScriptHash|
                        Request::ScriptHashUnsubscribe { script_hash }),
                ),
                r,
            ),
    {
        let ghost expected = requests_for(
            script_hashes@,
            |script_hash: ElectrumScriptHash| Request::ScriptHashUnsubscribe { script_hash },
        );
        let mut requests: Vec<Request> = Vec::new();
        let mut i: usize = 0;
        while i < script_hashes.len()
            invariant
                i <= script_hashes.len(),
                expected == requests_for(
                    script_hashes@,
                    |script_hash: ElectrumScriptHash|
                        Request::ScriptHashUnsubscribe { script_hash },
                ),
                requests@ == expected.take(i as int),
            decreases script_hashes.len() - i,
        {
            requests.push(Request::ScriptHashUnsubscribe { script_hash: script_hashes[i] });
            proof {
                assert(expected.take(i + 1) =~= expected.take(i as int).push(expected[i as int]));
            }
            i = i + 1;
        }
        proof {
            assert(expected.take(expected.len() as int) =~= expected);
        }
        self.batch(requests)
    }

    /// Get history for scripts
    pub fn script_get_history(&self, script_hash: ElectrumScriptHash) -> (r: Result<Request, Error>)
        ensures
            is_sent_alone(*self, (Request::GetHistory { script_hash }), r),
    {
        self.single(Request::GetHistory { script_hash })
    }

    /// Batch get history for scripts
    pub fn batch_script_get_history(&self, script_hashes: &Vec<ElectrumScriptHash>) -> (r: Result<
        Vec<Request>,
        Error,
    >)
        ensures
            is_sent(
                *self,
                requests_for(
                    script_hashes@,
                    (|script_hash: ElectrumScriptHash| Request::GetHistory { script_hash }),
                ),
                r,
            ),
    {
        let ghost expected = requests_for(
            script_hashes@,
            |script_hash: ElectrumScriptHash| Request::GetHistory { script_hash },
        );
        let mut requests: Vec<Request> = Vec::new();
        let mut i: usize = 0;
        while i < script_hashes.len()
            invariant
                i <= script_hashes.len(),
                expected == requests_for(
                    script_hashes@,
                    |script_hash: ElectrumScriptHash| Request::GetHistory { script_hash },
                ),
                requests@ == expected.take(i as int),
            decreases script_hashes.len() - i,
        {
            requests.push(Request::GetHistory { script_hash: script_hashes[i] });
            proof {
                assert(expected.take(i + 1) =~= expected.take(i as int).push(expected[i as int]));
            }
            i = i + 1;
        }
        proof {
            assert(expected.take(expected.len() as int) =~= expected);
        }
        self.batch(requests)
    }

    /// Get transaction
    pub fn transaction_get(&self, txid: Txid) -> (r: Result<Request, Error>)
        ensures
            is_sent_alone(*self, (Request::GetTx { txid }), r),
    {
        self.single(Request::GetTx { txid })
    }

    /// Batch get transactions.
    pub fn batch_transaction_get(&self, txids: &Vec<Txid>) -> (r: Result<Vec<Request>, Error>)
        ensures
            is_sent(
                *self,
                requests_for(txids@, (|txid: Txid| Request::GetTx { txid })),
                r,
            ),
    {
        let ghost expected = requests_for(txids@, |txid: Txid| Request::GetTx { txid });
        let mut requests: Vec<Request> = Vec::new();
        let mut i: usize = 0;
        while i < txids.len()
            invariant
                i <= txids.len(),
                expected == requests_for(txids@, |txid: Txid| Request::GetTx { txid }),
                requests@ == expected.take(i as int),
            decreases txids.len() - i,
        {
            requests.push(Request::GetTx { txid: txids[i] });
            proof {
                assert(expected.take(i + 1) =~= expected.take(i as int).push(expected[i as int]));
            }
            i = i + 1;
        }
        proof {
            assert(expected.take(expected.len() as int) =~= expected);
        }
        self.batch(requests)
    }

    /// Get transaction merkle
    pub fn transaction_get_merkle(&self, txid: Txid, height: u32) -> (r: Result<Request, Error>)
        ensures
            is_sent_alone(*self, (Request::GetTxMerkle { txid, height }), r),
    {
        self.single(Request::GetTxMerkle { txid, height })
    }

    /// Batch get transaction merkle proofs.
    pub fn batch_transaction_get_merkle(&self, txids_and_heights: &Vec<(Txid, u32)>) -> (r: Result<
        Vec<Request>,
        Error,
    >)
        ensures
            is_sent(
                *self,
                requests_for(
                    txids_and_heights@,
                    (|tx: (Txid, u32)| Request::GetTxMerkle { txid: tx.0, height: tx.1 }),
                ),
                r,
            ),
    {
        let ghost expected = requests_for(
            txids_and_heights@,
            |tx: (Txid, u32)| Request::GetTxMerkle { txid: tx.0, height: tx.1 },
        );
        let mut requests: Vec<Request> = Vec::new();
        let mut i: usize = 0;
        while i < txids_and_heights.len()
            invariant
                i <= txids_and_heights.len(),
                expected == requests_for(
                    txids_and_heights@,
                    |tx: (Txid, u32)| Request::GetTxMerkle { txid: tx.0, height: tx.1 },
                ),
                requests@ == expected.take(i as int),
            decreases txids_and_heights.len() - i,
        {
            let (txid, height) = txids_and_heights[i];
            requests.push(Request::GetTxMerkle { txid, height });
            proof {
                assert(expected.take(i + 1) =~= expected.take(i as int).push(expected[i as int]));
            }
            i = i + 1;
        }
        proof {
            assert(expected.take(expected.len() as int) =~= expected);
        }
        self.batch(requests)
    }

    /// Return the estimated transaction fee for a transaction to be confirmed within a certain number of blocks.
    pub fn estimate_fee(&self, number: usize) -> (r: Result<Request, Error>)
        ensures
            is_sent_alone(*self, (Request::EstimateFee { number }), r),
    {
        self.single(Request::EstimateFee { number })
    }

    /// Return the estimated transaction fees for a transaction to be confirmed within a certain number of blocks.
    pub fn batch_estimate_fee(&self, blocks: &Vec<usize>) -> (r: Result<Vec<Request>, Error>)
        ensures
            is_sent(
                *self,
                requests_for(blocks@, (|number: usize| Request::EstimateFee { number })),
                r,
            ),
    {
        let ghost expected = requests_for(blocks@, |number: usize| Request::EstimateFee { number });
        let mut requests: Vec<Request> = Vec::new();
        let mut i: usize = 0;
        while i < blocks.len()
            invariant
                i <= blocks.len(),
                expected == requests_for(blocks@, |number: usize| Request::EstimateFee { number }),
                requests@ == expected.take(i as int),
            decreases blocks.len() - i,
        {
            requests.push(Request::EstimateFee { number: blocks[i] });
            proof {
                assert(expected.take(i + 1) =~= expected.take(i as int).push(expected[i as int]));
            }
            i = i + 1;
        }
        proof {
            assert(expected.take(expected.len() as int) =~= expected);
        }
        self.batch(requests)
    }

    /// Broadcast a transaction
    pub fn broadcast_tx(&self, tx: Transaction) -> (r: Result<Request, Error>)
        ensures
            is_sent_alone(*self, Request::BroadcastTx(tx), r),
    {
        self.single(Request::BroadcastTx(tx))
    }
}

/// A list from its end to its start.
fn reversed<T>(list: Vec<T>) -> (r: Vec<T>)
    ensures
        r@ == list@.reverse(),
{
    let mut rest = list;
    let mut r: Vec<T> = Vec::new();
    while rest.len() > 0
        invariant
            rest@.len() <= list@.len(),
            rest@ == list@.take(rest@.len() as int),
            r@ == list@.reverse().take(list@.len() - rest@.len()),
        decreases rest@.len(),
    {
        if let Some(item) = rest.pop() {
            r.push(item);
        }
    }
    r
}

/// Whether all of some responses are there.
pub open spec fn all_ok<T>(responses: Seq<Result<T, BatchRequestError>>) -> bool {
    forall|i: int| 0 <= i < responses.len() ==> #[trigger] responses[i] is Ok
}

/// The responses of a batch, or the first error among them. This avoids silently dropping the error,
/// which may cause a partial sync.
pub fn collect_responses<T>(responses: Vec<Result<T, BatchRequestError>>) -> (r: Result<
    Vec<T>,
    Error,
>)
    ensures
        match r {
            Ok(output) => {
                &&& all_ok(responses@)
                &&& output@ == responses@.map_values(
                    |response: Result<T, BatchRequestError>| response->Ok_0,
                )
            },
            Err(e) => exists|i: int|
                0 <= i < responses@.len() && all_ok(responses@.take(i)) && #[trigger] responses@[i]
                    is Err && e == Error::BatchRequest(responses@[i]->Err_0),
        },
{
    let ghost expected = responses@.map_values(
        |response: Result<T, BatchRequestError>| response->Ok_0,
    );
    let mut output: Vec<T> = Vec::new();
    let mut rest = reversed(responses);
    while rest.len() > 0
        invariant
            rest@.len() <= responses@.len(),
            forall|i: int|
                0 <= i < rest@.len() ==> #[trigger] rest@[i] == responses@[responses@.len() - 1
                    - i],
            expected == responses@.map_values(
                |response: Result<T, BatchRequestError>| response->Ok_0,
            ),
            output@ == expected.take(responses@.len() - rest@.len()),
            all_ok(responses@.take(responses@.len() - rest@.len())),
        decreases rest@.len(),
    {
        let ghost at = responses@.len() - rest@.len();
        let ghost last = rest@.len() - 1;
        let ghost before = rest@;
        if let Some(response) = rest.pop() {
            proof {
                assert(before[last as int] == responses@[at]);
                assert forall|i: int| 0 <= i < rest@.len() implies #[trigger] rest@[i]
                    == responses@[responses@.len() - 1 - i] by {
                    assert(rest@[i] == before[i]);
                }
            }
            match response {
                Ok(value) => {
                    output.push(value);
                    proof {
                        assert(expected.take(at + 1) =~= expected.take(at).push(expected[at]));
                        assert forall|i: int|
                            0 <= i < at + 1 implies #[trigger] responses@.take(at + 1)[i] is Ok by {
                            if i < at {
                                assert(responses@.take(at)[i] is Ok);
                            }
                        }
                    }
                },
                Err(e) => {
                    return Err(Error::BatchRequest(e));
                },
            }
        }
    }
    proof {
        assert(expected.take(responses@.len() as int) =~= expected);
        assert(responses@.take(responses@.len() as int) =~= responses@);
    }
    Ok(output)
}

/// A response as the caller of a request gets it.
pub open spec fn as_response<T>(response: Result<T, BatchRequestError>) -> Result<T, Error> {
    match response {
        Ok(value) => Ok(value),
        Err(e) => Err(Error::BatchRequest(e)),
    }
}

/// The results of a batch, each with its own error for the caller to decide about.
pub fn map_responses<T>(responses: Vec<Result<T, BatchRequestError>>) -> (r: Vec<Result<T, Error>>)
    ensures
        r@ == responses@.map_values(
            |response: Result<T, BatchRequestError>| as_response(response),
        ),
{
    let ghost mapped = responses@.map_values(
        |response: Result<T, BatchRequestError>| as_response(response),
    );
    let mut r: Vec<Result<T, Error>> = Vec::new();
    let mut rest = reversed(responses);
    while rest.len() > 0
        invariant
            rest@.len() <= responses@.len(),
            rest@ == responses@.reverse().take(rest@.len() as int),
            mapped == responses@.map_values(
                |response: Result<T, BatchRequestError>| as_response(response),
            ),
            r@ == mapped.take(responses@.len() - rest@.len()),
        decreases rest@.len(),
    {
        if let Some(response) = rest.pop() {
            r.push(
                match response {
                    Ok(value) => Ok(value),
                    Err(e) => Err(Error::BatchRequest(e)),
                },
            );
        }
    }
    r
}

/// The fee rates that a batch of estimates brought, by number of blocks: where the server could not
/// estimate, or failed, there is none.
pub open spec fn fees_of(
    estimates: Seq<Result<Option<u64>, BatchRequestError>>,
    numbers: Seq<usize>,
    n: int,
) -> Map<usize, u64>
    decreases n,
{
    if n <= 0 {
        Map::empty()
    } else {
        let before = fees_of(estimates, numbers, n - 1);
        match estimates[n - 1] {
            Ok(Some(fee)) => before.insert(numbers[n - 1], fee),
            _ => before,
        }
    }
}

/// The fee rates, in satoshis per 1000 weight units, that a batch of estimates brought.
pub fn collect_fees(
    estimates: &Vec<Result<Option<u64>, BatchRequestError>>,
    numbers: &Vec<usize>,
) -> (r: OrderedMap<usize, u64>)
    ensures
        r@ == fees_of(
            estimates@,
            numbers@,
            if estimates@.len() < numbers@.len() {
                estimates@.len() as int
            } else {
                numbers@.len() as int
            },
        ),
        forall|i: int|
            0 <= i < estimates@.len() && i < numbers@.len() && #[trigger] estimates@[i] is Ok
                && estimates@[i]->Ok_0 is Some ==> r@.contains_key(numbers@[i]),
{
    let mut output: OrderedMap<usize, u64> = OrderedMap::new();
    let mut i: usize = 0;
    while i < estimates.len() && i < numbers.len()
        invariant
            i <= estimates.len(),
            i <= numbers.len(),
            output@ == fees_of(estimates@, numbers@, i as int),
        decreases estimates.len() - i,
    {
        if let Ok(Some(fee)) = &estimates[i] {
            output.insert(numbers[i], *fee);
        }
        i = i + 1;
    }
    proof {
        assert forall|k: int|
            0 <= k < estimates@.len() && k < numbers@.len() && #[trigger] estimates@[k] is Ok
                && estimates@[k]->Ok_0 is Some implies output@.contains_key(numbers@[k]) by {
            fees_are_those_estimated(
                estimates@,
                numbers@,
                i as int,
                k,
                estimates@[k]->Ok_0->0,
                numbers@[k],
            );
        }
    }
    output
}

/// Whether an estimate for a number of blocks is among the first `n`.
pub open spec fn is_estimated(
    estimates: Seq<Result<Option<u64>, BatchRequestError>>,
    numbers: Seq<usize>,
    n: int,
    number: usize,
    fee: u64,
) -> bool {
    exists|i: int|
        0 <= i < n && #[trigger] numbers[i] == number
            && estimates[i] == Ok::<Option<u64>, BatchRequestError>(Some(fee))
}

/// Each estimate that the server made is the fee rate for its number of blocks, unless a later one is for
/// the same number, and there is no other fee rate.
pub proof fn fees_are_those_estimated(
    estimates: Seq<Result<Option<u64>, BatchRequestError>>,
    numbers: Seq<usize>,
    n: int,
    i: int,
    fee: u64,
    number: usize,
)
    requires
        0 <= n <= estimates.len(),
        n <= numbers.len(),
    ensures
        0 <= i < n && estimates[i] == Ok::<Option<u64>, BatchRequestError>(Some(fee))
            ==> fees_of(estimates, numbers, n).contains_key(numbers[i]),
        0 <= i < n && estimates[i] == Ok::<Option<u64>, BatchRequestError>(Some(fee)) && (forall|
            j: int,
        |
            i < j < n && #[trigger] numbers[j] == numbers[i] ==> !(estimates[j] is Ok
                && estimates[j]->Ok_0 is Some)) ==> fees_of(estimates, numbers, n)[numbers[i]]
            == fee,
        fees_of(estimates, numbers, n).contains_key(number) ==> is_estimated(
            estimates,
            numbers,
            n,
            number,
            fees_of(estimates, numbers, n)[number],
        ),
    decreases n,
{
    if n > 0 {
        fees_are_those_estimated(estimates, numbers, n - 1, i, fee, number);
        let before = fees_of(estimates, numbers, n - 1);
        let after = fees_of(estimates, numbers, n);
        assert(i < n - 1 ==> (numbers[n - 1] == numbers[i] || numbers[n - 1] != numbers[i]));
        if after.contains_key(number) {
            if estimates[n - 1] is Ok && estimates[n - 1]->Ok_0 is Some && numbers[n - 1]
                == number {
                assert(estimates[n - 1] == Ok::<Option<u64>, BatchRequestError>(
                    Some(after[number]),
                ));
            } else {
                let k = choose|k: int|
                    0 <= k < n - 1 && #[trigger] numbers[k] == number && estimates[k] == Ok::<
                        Option<u64>,
                        BatchRequestError,
                    >(Some(before[number]));
                assert(numbers[k] == number);
            }
        }
    }
}

/// One request goes out for each item, in the order of the items, and none is left out; unless the server is
/// on another network.
pub proof fn each_item_is_asked_for<T>(
    client: ElectrumClient,
    items: Seq<T>,
    request: spec_fn(T) -> Request,
    sent: Result<Vec<Request>, Error>,
)
    requires
        is_sent(client, requests_for(items, request), sent),
    ensures
        sent is Ok <==> items.len() == 0 || !client@.network_mismatch,
        sent is Ok ==> sent->Ok_0@.len() == items.len(),
        sent is Ok ==> forall|i: int|
            0 <= i < items.len() ==> #[trigger] sent->Ok_0@[i] == request(items[i]),
        sent is Err ==> sent->Err_0 == Error::NetworkMismatch,
{
}

/// A single request goes out as it is, unless the server is on another network.
pub proof fn a_single_request_is_sent(
    client: ElectrumClient,
    request: Request,
    sent: Result<Request, Error>,
)
    requires
        is_sent_alone(client, request, sent),
    ensures
        !client@.network_mismatch ==> sent == Ok::<Request, Error>(request),
        client@.network_mismatch ==> sent == Err::<Request, Error>(Error::NetworkMismatch),
{
}

/// A reply keeps its value, and a failure is that of the batch request.
pub proof fn responses_keep_their_values<T>(response: Result<T, BatchRequestError>)
    ensures
        response is Ok <==> as_response(response) is Ok,
        response is Ok ==> as_response(response)->Ok_0 == response->Ok_0,
        response is Err ==> as_response(response)->Err_0 == Error::BatchRequest(response->Err_0),
{
}

} // verus!
