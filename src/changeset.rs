use vstd::prelude::*;

use crate::types::{AnchorKey, Hash32, KeychainKind, OutPoint, SpkKey, TxOut};

verus! {

/// What changed in the graph of transactions: each collection maps a key to a value,
/// and a later entry for a key supersedes an earlier one.
#[derive(Clone, Debug)]
pub struct TxGraphChangeSet {
    /// Transactions, each in its consensus encoding.
    pub txs: Vec<Vec<u8>>,
    pub txouts: Vec<(OutPoint, TxOut)>,
    /// Confirmations, each with its confirmation time in Unix seconds.
    pub anchors: Vec<(AnchorKey, u64)>,
    pub first_seen: Vec<(Hash32, u64)>,
    pub last_seen: Vec<(Hash32, u64)>,
    pub last_evicted: Vec<(Hash32, u64)>,
}

/// What changed in the chain of blocks: a hash for a height, or `None` where the
/// height's block is no longer known.
#[derive(Clone, Debug)]
pub struct LocalChainChangeSet {
    pub blocks: Vec<(u32, Option<Hash32>)>,
}

/// What changed in the derivation state of the keychains.
#[derive(Clone, Debug)]
pub struct KeychainTxOutChangeSet {
    /// The last derivation index revealed, for each descriptor id.
    pub last_revealed: Vec<(Hash32, u32)>,
    /// Locking scripts, by descriptor id and derivation index.
    pub spk_cache: Vec<(SpkKey, Vec<u8>)>,
}

/// What changed in a wallet since its state was last stored.
#[derive(Clone, Debug)]
pub struct ChangeSet {
    pub network: Option<String>,
    pub descriptor: Option<String>,
    pub change_descriptor: Option<String>,
    pub local_chain: LocalChainChangeSet,
    pub tx_graph: TxGraphChangeSet,
    pub indexer: KeychainTxOutChangeSet,
}

/// The id of the transaction that `tx` encodes, or `None` where `tx` is not the
/// consensus encoding of a transaction.
pub uninterp spec fn tx_id(tx: Seq<u8>) -> Option<Hash32>;

/// The largest value that a signed 64-bit column holds.
pub open spec fn fits_column(v: u64) -> bool {
    v <= i64::MAX
}

/// Every timestamp of `s` fits a signed 64-bit column.
pub open spec fn times_fit(s: Seq<(Hash32, u64)>) -> bool {
    forall|i: int| 0 <= i < s.len() ==> fits_column(#[trigger] s[i].1)
}

/// Every transaction of `c` decodes.
pub open spec fn txs_decode(c: TxGraphChangeSet) -> bool {
    forall|i: int| 0 <= i < c.txs@.len() ==> (#[trigger] tx_id(c.txs@[i]@)) is Some
}

/// Every integer of `c` fits its signed 64-bit column.
pub open spec fn ints_fit(c: TxGraphChangeSet) -> bool {
    &&& times_fit(c.first_seen@)
    &&& times_fit(c.last_seen@)
    &&& times_fit(c.last_evicted@)
    &&& forall|i: int| 0 <= i < c.txouts@.len() ==> fits_column(#[trigger] c.txouts@[i].1.value)
    &&& forall|i: int| 0 <= i < c.anchors@.len() ==> fits_column(#[trigger] c.anchors@[i].1)
}

/// `m` with each height of `s` set to its hash, or removed where the hash is unknown.
pub open spec fn chain_applied(m: Map<u32, Hash32>, s: Seq<(u32, Option<Hash32>)>) -> Map<
    u32,
    Hash32,
>
    decreases s.len(),
{
    if s.len() == 0 {
        m
    } else {
        let p = chain_applied(m, s.drop_last());
        match s.last().1 {
            Some(h) => p.insert(s.last().0, h),
            None => p.remove(s.last().0),
        }
    }
}

/// `m` with each transaction of `s` stored under its id.
pub open spec fn txs_added(m: Map<Hash32, Seq<u8>>, s: Seq<Vec<u8>>) -> Map<Hash32, Seq<u8>>
    decreases s.len(),
{
    if s.len() == 0 {
        m
    } else {
        txs_added(m, s.drop_last()).insert(tx_id(s.last()@)->Some_0, s.last()@)
    }
}

/// `m` with the descriptors of `c` written over it, each under its role.
pub open spec fn descriptors_applied(m: Map<KeychainKind, Seq<char>>, c: ChangeSet) -> Map<
    KeychainKind,
    Seq<char>,
> {
    let a = match c.descriptor {
        Some(d) => m.insert(KeychainKind::External, d@),
        None => m,
    };
    match c.change_descriptor {
        Some(d) => a.insert(KeychainKind::Internal, d@),
        None => a,
    }
}

} // verus!
