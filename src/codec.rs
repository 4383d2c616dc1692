use std::str::FromStr;

use bdk_chain::bitcoin;
use bdk_chain::miniscript::descriptor::{Descriptor, DescriptorPublicKey};
use vstd::prelude::*;

use crate::changeset::tx_id;
use crate::types::Hash32;

verus! {

/// The names of the networks that bitcoin's `Network` parses.
pub open spec fn is_network_name(s: Seq<char>) -> bool {
    s == "bitcoin"@ || s == "testnet"@ || s == "testnet4"@ || s == "signet"@ || s == "regtest"@
}

/// Whether `s` parses as a descriptor over public keys.
pub uninterp spec fn is_descriptor(s: Seq<char>) -> bool;

/// Relies on bitcoin's `consensus::encode::deserialize` of a `Transaction`, which
/// fails on bytes that are not one whole transaction, and on `compute_txid`.
#[verifier::external_body]
pub(crate) fn txid_of(tx: &Vec<u8>) -> (r: Option<Hash32>)
    ensures
        r == tx_id(tx@),
{
    let tx: bitcoin::Transaction = bitcoin::consensus::encode::deserialize(tx).ok()?;
    Some(Hash32 { bytes: bitcoin::hashes::Hash::to_byte_array(tx.compute_txid()) })
}

/// Relies on `FromStr` of bitcoin's `Network`, which takes exactly the five names.
#[verifier::external_body]
pub(crate) fn network_parses(s: &str) -> (r: bool)
    ensures
        r == is_network_name(s@),
{
    bitcoin::Network::from_str(s).is_ok()
}

/// Relies on miniscript's `Descriptor::<DescriptorPublicKey>::from_str`.
#[verifier::external_body]
pub(crate) fn descriptor_parses(s: &str) -> (r: bool)
    ensures
        r == is_descriptor(s@),
{
    Descriptor::<DescriptorPublicKey>::from_str(s).is_ok()
}

} // verus!
