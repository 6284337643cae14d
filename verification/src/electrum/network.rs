//! Bitcoin networks.
use vstd::prelude::*;

use crate::hash::Hash256;

verus! {

/// A Bitcoin network.
#[derive(Debug, Clone, Copy, PartialEq, Eq, PartialOrd, Ord, Hash)]
pub enum Network {
    /// Mainnet Bitcoin.
    Bitcoin,
    /// Bitcoin's testnet network.
    Testnet,
    /// Bitcoin's testnet4 network.
    Testnet4,
    /// Bitcoin's signet network.
    Signet,
    /// Bitcoin's regtest network.
    Regtest,
}

/// A number for each network.
pub open spec fn network_number(network: Network) -> u8 {
    match network {
        Network::Bitcoin => 0,
        Network::Testnet => 1,
        Network::Testnet4 => 2,
        Network::Signet => 3,
        Network::Regtest => 4,
    }
}

/// The chain hash of the network with a number.
pub uninterp spec fn network_chain_hash(network: u8) -> Hash256;

/// The chain hash of a network.
pub open spec fn chain_hash_of(network: Network) -> Hash256 {
    network_chain_hash(network_number(network))
}

impl Network {
    /// Calls `bitcoin::Network::chain_hash`: the hash of the genesis block of the network, a constant
    /// for each. The result is named by [`network_chain_hash`]; of its bytes it is said only that no
    /// other network has the same.
    #[verifier::external_body]
    pub(crate) fn chain_hash(&self) -> (r: Hash256)
        ensures
            r@ == network_chain_hash(network_number(*self)),
            forall|other: u8|
                other < 5 && other != network_number(*self) ==> #[trigger] network_chain_hash(other)
                    != r@,
    {
        let network = match self {
            Network::Bitcoin => bitcoin::Network::Bitcoin,
            Network::Testnet => bitcoin::Network::Testnet,
            Network::Testnet4 => bitcoin::Network::Testnet4,
            Network::Signet => bitcoin::Network::Signet,
            Network::Regtest => bitcoin::Network::Regtest,
        };
        Hash256 { bytes: network.chain_hash().to_bytes() }
    }
}

/// No two networks have the same number.
pub proof fn networks_have_their_own_numbers(a: Network, b: Network)
    ensures
        network_number(a) < 5,
        network_number(a) == network_number(b) ==> a == b,
{
}

} // verus!
