use vstd::prelude::*;

use crate::table::{RowKey, RowValue};

verus! {

broadcast use vstd::array::group_array_axioms;

/// A 32-byte identifier: a transaction id, a block hash or a descriptor id,
/// in the byte order of its hash.
#[derive(Clone, Copy, Debug)]
pub struct Hash32 {
    pub bytes: [u8; 32],
}

impl RowKey for Hash32 {
    fn same(&self, other: &Self) -> (r: bool) {
        let mut i: usize = 0;
        while i < 32
            invariant
                0 <= i <= 32,
                forall|j: int| 0 <= j < i ==> self.bytes[j] == other.bytes[j],
            decreases 32 - i,
        {
            if self.bytes[i] != other.bytes[i] {
                return false;
            }
            i = i + 1;
        }
        proof {
            assert(self.bytes =~= other.bytes);
        }
        true
    }
}

impl RowValue for Hash32 {
    fn duplicate(&self) -> (r: Self) {
        *self
    }
}

impl View for Hash32 {
    type V = Hash32;

    open spec fn view(&self) -> Hash32 {
        *self
    }
}

/// The role of a keychain: receiving addresses or change addresses.
#[derive(Clone, Copy, Debug, PartialEq, Eq, Structural)]
pub enum KeychainKind {
    External,
    Internal,
}

impl RowKey for KeychainKind {
    fn same(&self, other: &Self) -> (r: bool) {
        *self == *other
    }
}

impl RowKey for u32 {
    fn same(&self, other: &Self) -> (r: bool) {
        *self == *other
    }
}

impl RowValue for u32 {
    fn duplicate(&self) -> (r: Self) {
        *self
    }
}

impl RowValue for u64 {
    fn duplicate(&self) -> (r: Self) {
        *self
    }
}

impl RowValue for Vec<u8> {
    fn duplicate(&self) -> (r: Self) {
        let mut out: Vec<u8> = Vec::new();
        let mut i: usize = 0;
        while i < self.len()
            invariant
                0 <= i <= self@.len(),
                out@ == self@.take(i as int),
            decreases self@.len() - i,
        {
            out.push(self[i]);
            i = i + 1;
            proof {
                assert(out@ =~= self@.take(i as int));
            }
        }
        proof {
            assert(self@.take(self@.len() as int) =~= self@);
        }
        out
    }
}

impl RowValue for String {
    fn duplicate(&self) -> (r: Self) {
        self.clone()
    }
}

/// The position of an output: the transaction that created it and its index there.
#[derive(Clone, Copy, Debug)]
pub struct OutPoint {
    pub txid: Hash32,
    pub vout: u32,
}

impl RowKey for OutPoint {
    fn same(&self, other: &Self) -> (r: bool) {
        self.vout == other.vout && self.txid.same(&other.txid)
    }
}

/// The value of an output, in satoshi, and its locking script.
#[derive(Clone, Debug)]
pub struct TxOut {
    pub value: u64,
    pub script_pubkey: Vec<u8>,
}

impl View for TxOut {
    type V = (u64, Seq<u8>);

    open spec fn view(&self) -> (u64, Seq<u8>) {
        (self.value, self.script_pubkey@)
    }
}

impl RowValue for TxOut {
    fn duplicate(&self) -> (r: Self) {
        TxOut { value: self.value, script_pubkey: self.script_pubkey.duplicate() }
    }
}

/// The key of an anchor: the block, by height and hash, in which a transaction was seen.
#[derive(Clone, Copy, Debug)]
pub struct AnchorKey {
    pub height: u32,
    pub hash: Hash32,
    pub txid: Hash32,
}

impl RowKey for AnchorKey {
    fn same(&self, other: &Self) -> (r: bool) {
        self.height == other.height && self.hash.same(&other.hash) && self.txid.same(
            &other.txid,
        )
    }
}

/// The key of a cached locking script: a descriptor id and a derivation index.
#[derive(Clone, Copy, Debug)]
pub struct SpkKey {
    pub descriptor_id: Hash32,
    pub index: u32,
}

impl RowKey for SpkKey {
    fn same(&self, other: &Self) -> (r: bool) {
        self.index == other.index && self.descriptor_id.same(&other.descriptor_id)
    }
}

/// The ways in which storing or loading a change set fails.
#[derive(Clone, Debug)]
pub enum Error {
    /// Bytes that do not decode as a transaction.
    Decode,
    /// An integer outside the range of the column or of the field it fills.
    FromInt,
    /// Text that is not a 32-byte identifier in hex.
    HexToArray,
    /// Text that is not a descriptor.
    Miniscript,
    /// Text that is not a network's name.
    ParseNetwork,
    /// A keychain code other than the two known roles.
    UnknownKeychain,
    /// The schema could not be brought up to date; the message says why.
    Migrate(String),
    /// The storage engine failed; the message says why.
    Sqlx(String),
}

} // verus!
