//! Hashes of 32 bytes and the hash functions of the Bitcoin protocol.
use vstd::prelude::*;

use crate::ordered::{lex_at, lex_irreflexive, lex_lt, lex_total, lex_transitive, Key, Value};

verus! {

/// A hash of 32 bytes, in the order in which it is hashed and sent.
#[derive(Debug, Clone, Copy, PartialEq, Eq, PartialOrd, Ord, Hash)]
pub struct Hash256 {
    /// The bytes.
    pub bytes: [u8; 32],
}

/// Transaction id.
pub type Txid = Hash256;

/// Block hash.
pub type BlockHash = Hash256;

/// Electrum script hash.
pub type ElectrumScriptHash = Hash256;

/// Electrum script status.
pub type ElectrumScriptStatus = Hash256;

impl View for Hash256 {
    type V = Hash256;

    open spec fn view(&self) -> Hash256 {
        *self
    }
}

/// The bytes as numbers.
pub open spec fn byte_values(s: Seq<u8>) -> Seq<int> {
    s.map_values(|b: u8| b as int)
}

impl Hash256 {
    /// A hash of the given bytes.
    pub fn from_byte_array(bytes: [u8; 32]) -> (r: Hash256)
        ensures
            r.bytes == bytes,
    {
        Hash256 { bytes }
    }

    /// The position of the first byte in which two hashes differ, or 32.
    fn first_difference(&self, other: &Hash256) -> (n: usize)
        ensures
            n <= 32,
            forall|i: int| 0 <= i < n ==> self.bytes@[i] == other.bytes@[i],
            n < 32 ==> self.bytes@[n as int] != other.bytes@[n as int],
    {
        let mut n: usize = 0;
        while n < 32 && self.bytes[n] == other.bytes[n]
            invariant
                n <= 32,
                forall|i: int| 0 <= i < n ==> self.bytes@[i] == other.bytes@[i],
            decreases 32 - n,
        {
            n = n + 1;
        }
        n
    }
}

impl Value for Hash256 {
    fn replica(&self) -> (r: Self) {
        *self
    }

    fn same(&self, other: &Self) -> (r: bool) {
        let n = self.first_difference(other);
        proof {
            if n == 32 {
                assert(self.bytes@ =~= other.bytes@);
                assert(self.bytes =~= other.bytes);
            }
        }
        n == 32
    }
}

/// Hashes stand in the lexicographic order of their bytes.
impl Key for Hash256 {
    open spec fn before(a: Hash256, b: Hash256) -> bool {
        lex_lt(byte_values(a.bytes@), byte_values(b.bytes@))
    }

    proof fn before_irreflexive(a: Hash256) {
        lex_irreflexive(byte_values(a.bytes@));
    }

    proof fn before_transitive(a: Hash256, b: Hash256, c: Hash256) {
        lex_transitive(byte_values(a.bytes@), byte_values(b.bytes@), byte_values(c.bytes@));
    }

    proof fn before_total(a: Hash256, b: Hash256) {
        lex_total(byte_values(a.bytes@), byte_values(b.bytes@));
        assert forall|i: int| 0 <= i < 32 implies a.bytes@[i] == b.bytes@[i] by {
            assert(byte_values(a.bytes@)[i] == byte_values(b.bytes@)[i]);
        }
        assert(a.bytes =~= b.bytes);
    }

    fn precedes(&self, other: &Self) -> (r: bool) {
        let n = self.first_difference(other);
        proof {
            lex_at(byte_values(self.bytes@), byte_values(other.bytes@), n as int);
        }
        n < 32 && self.bytes[n] < other.bytes[n]
    }
}

/// The double SHA-256 hash of a byte string.
pub uninterp spec fn sha256d(data: Seq<u8>) -> Hash256;

/// Calls `bitcoin::hashes::sha256d::Hash::hash`, which hashes the bytes it is given with SHA-256 and
/// the outcome with SHA-256 again. The result is named by [`sha256d`]; nothing is said of its bytes.
#[verifier::external_body]
pub(crate) fn hash_sha256d(data: &Vec<u8>) -> (r: Hash256)
    ensures
        r@ == sha256d(data@),
{
    let hash = <bitcoin::hashes::sha256d::Hash as bitcoin::hashes::Hash>::hash(data.as_slice());
    Hash256 { bytes: *bitcoin::hashes::Hash::as_byte_array(&hash) }
}

/// The Electrum script hash of a script.
pub uninterp spec fn electrum_script_hash(script: Seq<u8>) -> Hash256;

/// Calls `electrum_streaming_client::ElectrumScriptHash::new`, which hashes the bytes of the script.
/// The result is named by [`electrum_script_hash`]; nothing is said of its bytes.
#[verifier::external_body]
pub(crate) fn hash_script(script: &Vec<u8>) -> (r: ElectrumScriptHash)
    ensures
        r@ == electrum_script_hash(script@),
{
    let script = bitcoin::Script::from_bytes(script.as_slice());
    let hash = electrum_streaming_client::ElectrumScriptHash::new(script);
    Hash256 { bytes: *bitcoin::hashes::Hash::as_byte_array(&hash) }
}

} // verus!
