use std::str::FromStr;

use bdk_chain::bitcoin;
use bdk_chain::DescriptorId;
use vstd::prelude::*;

use crate::changeset::{tx_id, LocalChainChangeSet};
use crate::codec::{descriptor_parses, is_descriptor, is_network_name};
use crate::types::{AnchorKey, Error, Hash32, KeychainKind, OutPoint, SpkKey, TxOut};

verus! {

/// The text form of a transaction id.
pub uninterp spec fn txid_text(id: Seq<u8>) -> Seq<char>;

/// The transaction id that `s` spells, if it spells one.
pub uninterp spec fn txid_of_text(s: Seq<char>) -> Option<Hash32>;

/// The text form of a block hash.
pub uninterp spec fn block_hash_text(id: Seq<u8>) -> Seq<char>;

/// The block hash that `s` spells, if it spells one.
pub uninterp spec fn block_hash_of_text(s: Seq<char>) -> Option<Hash32>;

/// The text form of a descriptor id.
pub uninterp spec fn descriptor_id_text(id: Seq<u8>) -> Seq<char>;

/// The descriptor id that `s` spells, if it spells one.
pub uninterp spec fn descriptor_id_of_text(s: Seq<char>) -> Option<Hash32>;

/// Relies on `Display` of bitcoin's `Txid`.
#[verifier::external_body]
fn txid_to_text(id: &Hash32) -> (r: String)
    ensures
        r@ == txid_text(id.bytes@),
{
    <bitcoin::Txid as bitcoin::hashes::Hash>::from_byte_array(id.bytes).to_string()
}

/// Relies on `FromStr` of bitcoin's `Txid`.
#[verifier::external_body]
fn txid_from_text(s: &str) -> (r: Option<Hash32>)
    ensures
        r == txid_of_text(s@),
{
    match bitcoin::Txid::from_str(s) {
        Ok(t) => Some(Hash32 { bytes: bitcoin::hashes::Hash::to_byte_array(t) }),
        Err(_) => None,
    }
}

/// Relies on `Display` of bitcoin's `BlockHash`.
#[verifier::external_body]
fn block_hash_to_text(id: &Hash32) -> (r: String)
    ensures
        r@ == block_hash_text(id.bytes@),
{
    <bitcoin::BlockHash as bitcoin::hashes::Hash>::from_byte_array(id.bytes).to_string()
}

/// Relies on `FromStr` of bitcoin's `BlockHash`.
#[verifier::external_body]
fn block_hash_from_text(s: &str) -> (r: Option<Hash32>)
    ensures
        r == block_hash_of_text(s@),
{
    match bitcoin::BlockHash::from_str(s) {
        Ok(h) => Some(Hash32 { bytes: bitcoin::hashes::Hash::to_byte_array(h) }),
        Err(_) => None,
    }
}

/// Relies on `Display` of bdk_chain's `DescriptorId`.
#[verifier::external_body]
fn descriptor_id_to_text(id: &Hash32) -> (r: String)
    ensures
        r@ == descriptor_id_text(id.bytes@),
{
    <DescriptorId as bitcoin::hashes::Hash>::from_byte_array(id.bytes).to_string()
}

/// Relies on `FromStr` of bdk_chain's `DescriptorId`.
#[verifier::external_body]
fn descriptor_id_from_text(s: &str) -> (r: Option<Hash32>)
    ensures
        r == descriptor_id_of_text(s@),
{
    match DescriptorId::from_str(s) {
        Ok(d) => Some(Hash32 { bytes: bitcoin::hashes::Hash::to_byte_array(d) }),
        Err(_) => None,
    }
}

/// A stored integer read as a `u64`: `None` where it is negative.
pub open spec fn int_u64(v: i64) -> Option<u64> {
    if v >= 0 {
        Some(v as u64)
    } else {
        None
    }
}

/// A stored integer read as a `u32`: `None` where it is out of range.
pub open spec fn int_u32(v: i64) -> Option<u32> {
    if 0 <= v <= u32::MAX {
        Some(v as u32)
    } else {
        None
    }
}

fn to_u64(v: i64) -> (r: Result<u64, Error>)
    ensures
        int_u64(v) is Some ==> r == Ok::<u64, Error>(int_u64(v)->Some_0),
        int_u64(v) is None ==> r == Err::<u64, Error>(Error::FromInt),
{
    if v >= 0 {
        Ok(v as u64)
    } else {
        Err(Error::FromInt)
    }
}

fn to_u32(v: i64) -> (r: Result<u32, Error>)
    ensures
        int_u32(v) is Some ==> r == Ok::<u32, Error>(int_u32(v)->Some_0),
        int_u32(v) is None ==> r == Err::<u32, Error>(Error::FromInt),
{
    if 0 <= v && v <= u32::MAX as i64 {
        Ok(v as u32)
    } else {
        Err(Error::FromInt)
    }
}

/// A row of the relation of blocks.
#[derive(Clone, Debug)]
pub struct BlockRow {
    pub height: i64,
    pub hash: String,
}

/// The error that decoding `r` ends in, if any.
pub open spec fn block_row_error(r: BlockRow) -> Option<Error> {
    if int_u32(r.height) is None {
        Some(Error::FromInt)
    } else if block_hash_of_text(r.hash@) is None {
        Some(Error::HexToArray)
    } else {
        None
    }
}

/// Decode a row of the relation of blocks.
pub fn decode_block_row(r: &BlockRow) -> (res: Result<(u32, Hash32), Error>)
    ensures
        block_row_error(*r) is Some ==> res == Err::<(u32, Hash32), Error>(
            block_row_error(*r)->Some_0,
        ),
        block_row_error(*r) is None ==> res == Ok::<(u32, Hash32), Error>(
            (int_u32(r.height)->Some_0, block_hash_of_text(r.hash@)->Some_0),
        ),
{
    let height = match to_u32(r.height) {
        Ok(h) => h,
        Err(e) => return Err(e),
    };
    match block_hash_from_text(r.hash.as_str()) {
        Some(h) => Ok((height, h)),
        None => Err(Error::HexToArray),
    }
}

/// Decode the rows of the relation of blocks into a chain delta that sets each height
/// to its hash; the first row that does not decode ends the read with its error.
pub fn local_chain_from_rows(rows: &Vec<BlockRow>) -> (res: Result<LocalChainChangeSet, Error>)
    ensures
        (forall|i: int| 0 <= i < rows@.len() ==> (#[trigger] block_row_error(rows@[i])) is None)
            <==> res is Ok,
        res is Ok ==> res->Ok_0.blocks@.len() == rows@.len() && forall|i: int|
            0 <= i < rows@.len() ==> #[trigger] res->Ok_0.blocks@[i] == (
                int_u32(rows@[i].height)->Some_0,
                Some(block_hash_of_text(rows@[i].hash@)->Some_0),
            ),
        res is Err ==> exists|i: int|
            0 <= i < rows@.len() && (forall|j: int|
                0 <= j < i ==> (#[trigger] block_row_error(rows@[j])) is None) && block_row_error(
                rows@[i],
            ) == Some(res->Err_0),
{
    let mut blocks: Vec<(u32, Option<Hash32>)> = Vec::new();
    let mut i: usize = 0;
    while i < rows.len()
        invariant
            0 <= i <= rows@.len(),
            blocks@.len() == i,
            forall|j: int| 0 <= j < i ==> (#[trigger] block_row_error(rows@[j])) is None,
            forall|j: int|
                0 <= j < i ==> #[trigger] blocks@[j] == (
                    int_u32(rows@[j].height)->Some_0,
                    Some(block_hash_of_text(rows@[j].hash@)->Some_0),
                ),
        decreases rows@.len() - i,
    {
        match decode_block_row(&rows[i]) {
            Ok((h, b)) => blocks.push((h, Some(b))),
            Err(e) => {
                assert(block_row_error(rows@[i as int]) == Some(e));
                return Err(e);
            },
        }
        i = i + 1;
    }
    Ok(LocalChainChangeSet { blocks })
}

/// Encode a chain delta as rows: a height with its hash in text, or with `None` where
/// the height's row is to be deleted.
pub fn local_chain_rows(c: &LocalChainChangeSet) -> (r: Vec<(i64, Option<String>)>)
    ensures
        r@.len() == c.blocks@.len(),
        forall|i: int|
            0 <= i < r@.len() ==> (#[trigger] r@[i]).0 == c.blocks@[i].0 as i64 && (r@[i].1 is Some
                <==> c.blocks@[i].1 is Some) && (r@[i].1 is Some ==> r@[i].1->Some_0@
                == block_hash_text(c.blocks@[i].1->Some_0.bytes@)),
{
    let mut out: Vec<(i64, Option<String>)> = Vec::new();
    let mut i: usize = 0;
    while i < c.blocks.len()
        invariant
            0 <= i <= c.blocks@.len(),
            out@.len() == i,
            forall|j: int|
                0 <= j < i ==> (#[trigger] out@[j]).0 == c.blocks@[j].0 as i64 && (out@[j].1 is Some
                    <==> c.blocks@[j].1 is Some) && (out@[j].1 is Some ==> out@[j].1->Some_0@
                    == block_hash_text(c.blocks@[j].1->Some_0.bytes@)),
        decreases c.blocks@.len() - i,
    {
        let text = match &c.blocks[i].1 {
            Some(h) => Some(block_hash_to_text(h)),
            None => None,
        };
        out.push((c.blocks[i].0 as i64, text));
        i = i + 1;
    }
    out
}

/// A row of the relation of transactions; a column is `None` where it was never written.
#[derive(Clone, Debug)]
pub struct TxRow {
    pub txid: String,
    pub tx: Option<Vec<u8>>,
    pub first_seen: Option<i64>,
    pub last_seen: Option<i64>,
    pub last_evicted: Option<i64>,
}

/// A row of the relation of outputs.
#[derive(Clone, Debug)]
pub struct TxOutRow {
    pub txid: String,
    pub vout: i64,
    pub value: i64,
    pub script: Vec<u8>,
}

/// A row of the relation of anchors.
#[derive(Clone, Debug)]
pub struct AnchorRow {
    pub block_height: i64,
    pub block_hash: String,
    pub txid: String,
    pub confirmation_time: i64,
}

/// Each timestamp that is present is not negative.
pub open spec fn time_ok(t: Option<i64>) -> bool {
    t is Some ==> t->Some_0 >= 0
}

/// The error that decoding `r` ends in, if any.
pub open spec fn tx_row_error(r: TxRow) -> Option<Error> {
    if txid_of_text(r.txid@) is None {
        Some(Error::HexToArray)
    } else if r.tx is Some && tx_id(r.tx->Some_0@) is None {
        Some(Error::Decode)
    } else if !time_ok(r.first_seen) || !time_ok(r.last_seen) || !time_ok(r.last_evicted) {
        Some(Error::FromInt)
    } else {
        None
    }
}

/// The error that decoding `r` ends in, if any.
pub open spec fn txout_row_error(r: TxOutRow) -> Option<Error> {
    if txid_of_text(r.txid@) is None {
        Some(Error::HexToArray)
    } else if int_u32(r.vout) is None || int_u64(r.value) is None {
        Some(Error::FromInt)
    } else {
        None
    }
}

/// The error that decoding `r` ends in, if any.
pub open spec fn anchor_row_error(r: AnchorRow) -> Option<Error> {
    if int_u32(r.block_height) is None {
        Some(Error::FromInt)
    } else if block_hash_of_text(r.block_hash@) is None || txid_of_text(r.txid@) is None {
        Some(Error::HexToArray)
    } else if int_u64(r.confirmation_time) is None {
        Some(Error::FromInt)
    } else {
        None
    }
}

/// The transactions that `rows` hold, in row order.
pub open spec fn stored_txs(rows: Seq<TxRow>) -> Seq<Seq<u8>>
    decreases rows.len(),
{
    if rows.len() == 0 {
        Seq::empty()
    } else {
        let p = stored_txs(rows.drop_last());
        match rows.last().tx {
            Some(b) => p.push(b@),
            None => p,
        }
    }
}

/// The timestamps that column `col` of `rows` holds, by transaction id, in row order.
pub open spec fn stored_times(rows: Seq<TxRow>, col: spec_fn(TxRow) -> Option<i64>) -> Seq<
    (Hash32, u64),
>
    decreases rows.len(),
{
    if rows.len() == 0 {
        Seq::empty()
    } else {
        let p = stored_times(rows.drop_last(), col);
        match col(rows.last()) {
            Some(t) => p.push((txid_of_text(rows.last().txid@)->Some_0, int_u64(t)->Some_0)),
            None => p,
        }
    }
}

/// The decoded graph has the transactions and timestamps that `rows` hold, one entry per
/// present column.
pub open spec fn tx_columns_match(g: crate::changeset::TxGraphChangeSet, rows: Seq<TxRow>) -> bool {
    &&& g.txs@.map_values(|b: Vec<u8>| b@) == stored_txs(rows)
    &&& g.first_seen@ == stored_times(rows, |r: TxRow| r.first_seen)
    &&& g.last_seen@ == stored_times(rows, |r: TxRow| r.last_seen)
    &&& g.last_evicted@ == stored_times(rows, |r: TxRow| r.last_evicted)
}

/// The error of the first row of `rows` that does not decode, if any.
pub open spec fn first_error<T>(rows: Seq<T>, err: spec_fn(T) -> Option<Error>) -> Option<Error>
    decreases rows.len(),
{
    if rows.len() == 0 {
        None
    } else {
        match first_error(rows.drop_last(), err) {
            Some(e) => Some(e),
            None => err(rows.last()),
        }
    }
}

proof fn lemma_first_error_step<T>(rows: Seq<T>, err: spec_fn(T) -> Option<Error>, i: int)
    requires
        0 <= i < rows.len(),
    ensures
        first_error(rows.take(i + 1), err) == match first_error(rows.take(i), err) {
            Some(e) => Some(e),
            None => err(rows[i]),
        },
{
    assert(rows.take(i + 1).drop_last() =~= rows.take(i));
}

proof fn lemma_first_error_prefix<T>(rows: Seq<T>, err: spec_fn(T) -> Option<Error>, i: int)
    requires
        0 <= i <= rows.len(),
        first_error(rows.take(i), err) is Some,
    ensures
        first_error(rows, err) == first_error(rows.take(i), err),
    decreases rows.len() - i,
{
    if i < rows.len() {
        lemma_first_error_step(rows, err, i);
        lemma_first_error_prefix(rows, err, i + 1);
    } else {
        assert(rows.take(i) =~= rows);
    }
}

proof fn lemma_first_error_all<T>(rows: Seq<T>, err: spec_fn(T) -> Option<Error>)
    requires
        first_error(rows, err) is None,
    ensures
        forall|i: int| 0 <= i < rows.len() ==> (#[trigger] err(rows[i])) is None,
    decreases rows.len(),
{
    if rows.len() > 0 {
        lemma_first_error_all(rows.drop_last(), err);
        assert forall|i: int| 0 <= i < rows.len() implies (#[trigger] err(rows[i])) is None by {
            if i < rows.len() - 1 {
                assert(rows.drop_last()[i] == rows[i]);
            }
        }
    }
}

fn opt_time(t: Option<i64>) -> (r: Option<u64>)
    requires
        time_ok(t),
    ensures
        r == match t {
            Some(v) => int_u64(v),
            None => None::<u64>,
        },
{
    match t {
        Some(v) => Some(v as u64),
        None => None,
    }
}

/// Decode the rows of the relations of transactions, outputs and anchors into a graph
/// delta; the first row, in that order, that does not decode ends the read with its error.
pub fn tx_graph_from_rows(txs: &Vec<TxRow>, txouts: &Vec<TxOutRow>, anchors: &Vec<AnchorRow>) -> (res:
    Result<crate::changeset::TxGraphChangeSet, Error>)
    ensures
        ({
            let e = match first_error(txs@, |r: TxRow| tx_row_error(r)) {
                Some(e) => Some(e),
                None => match first_error(txouts@, |r: TxOutRow| txout_row_error(r)) {
                    Some(e) => Some(e),
                    None => first_error(anchors@, |r: AnchorRow| anchor_row_error(r)),
                },
            };
            &&& e is Some ==> res == Err::<crate::changeset::TxGraphChangeSet, Error>(e->Some_0)
            &&& e is None ==> res is Ok
        }),
        res is Ok ==> tx_columns_match(res->Ok_0, txs@),
        res is Ok ==> res->Ok_0.txouts@.len() == txouts@.len() && forall|i: int|
            0 <= i < txouts@.len() ==> {
                let o = #[trigger] res->Ok_0.txouts@[i];
                let r = txouts@[i];
                &&& o.0 == OutPoint { txid: txid_of_text(r.txid@)->Some_0, vout: int_u32(r.vout)->Some_0 }
                &&& o.1@ == (int_u64(r.value)->Some_0, r.script@)
            },
        res is Ok ==> res->Ok_0.anchors@.len() == anchors@.len() && forall|i: int|
            0 <= i < anchors@.len() ==> {
                let a = #[trigger] res->Ok_0.anchors@[i];
                let r = anchors@[i];
                &&& a.0 == AnchorKey {
                    height: int_u32(r.block_height)->Some_0,
                    hash: block_hash_of_text(r.block_hash@)->Some_0,
                    txid: txid_of_text(r.txid@)->Some_0,
                }
                &&& a.1 == int_u64(r.confirmation_time)->Some_0
            },
{
    let ghost txerr = |r: TxRow| tx_row_error(r);
    let mut g = crate::changeset::TxGraphChangeSet {
        txs: Vec::new(),
        txouts: Vec::new(),
        anchors: Vec::new(),
        first_seen: Vec::new(),
        last_seen: Vec::new(),
        last_evicted: Vec::new(),
    };
    proof {
        assert(txs@.take(0) =~= Seq::<TxRow>::empty());
        assert(g.txs@.map_values(|b: Vec<u8>| b@) =~= Seq::<Seq<u8>>::empty());
    }
    let mut i: usize = 0;
    while i < txs.len()
        invariant
            0 <= i <= txs@.len(),
            txerr == (|r: TxRow| tx_row_error(r)),
            first_error(txs@.take(i as int), txerr) is None,
            tx_columns_match(g, txs@.take(i as int)),
            g.txouts@.len() == 0,
            g.anchors@.len() == 0,
        decreases txs@.len() - i,
    {
        proof {
            lemma_first_error_step(txs@, txerr, i as int);
        }
        let r = &txs[i];
        let txid = match txid_from_text(r.txid.as_str()) {
            Some(t) => t,
            None => {
                proof {
                    lemma_first_error_prefix(txs@, txerr, i as int + 1);
                }
                return Err(Error::HexToArray);
            },
        };
        let bad_tx = match &r.tx {
            Some(b) => crate::codec::txid_of(b).is_none(),
            None => false,
        };
        if bad_tx {
            proof {
                lemma_first_error_prefix(txs@, txerr, i as int + 1);
            }
            return Err(Error::Decode);
        }
        let times_ok = match (r.first_seen, r.last_seen, r.last_evicted) {
            (a, b, c) => (a.is_none() || a.unwrap() >= 0) && (b.is_none() || b.unwrap() >= 0) && (
            c.is_none() || c.unwrap() >= 0),
        };
        if !times_ok {
            proof {
                lemma_first_error_prefix(txs@, txerr, i as int + 1);
            }
            return Err(Error::FromInt);
        }
        let ghost prev = g;
        let ghost t = txs@.take(i as int + 1);
        proof {
            assert(t.drop_last() =~= txs@.take(i as int));
        }
        match &r.tx {
            Some(b) => g.txs.push(crate::table::RowValue::duplicate(b)),
            None => {},
        }
        match opt_time(r.first_seen) {
            Some(v) => g.first_seen.push((txid, v)),
            None => {},
        }
        match opt_time(r.last_seen) {
            Some(v) => g.last_seen.push((txid, v)),
            None => {},
        }
        match opt_time(r.last_evicted) {
            Some(v) => g.last_evicted.push((txid, v)),
            None => {},
        }
        proof {
            assert(g.txs@.map_values(|b: Vec<u8>| b@) =~= stored_txs(t));
            assert(g.first_seen@ =~= stored_times(t, |r: TxRow| r.first_seen));
            assert(g.last_seen@ =~= stored_times(t, |r: TxRow| r.last_seen));
            assert(g.last_evicted@ =~= stored_times(t, |r: TxRow| r.last_evicted));
        }
        i = i + 1;
    }
    proof {
        assert(txs@.take(txs@.len() as int) =~= txs@);
    }
    let ghost outerr = |r: TxOutRow| txout_row_error(r);
    let mut i: usize = 0;
    while i < txouts.len()
        invariant
            0 <= i <= txouts@.len(),
            outerr == (|r: TxOutRow| txout_row_error(r)),
            first_error(txs@, |r: TxRow| tx_row_error(r)) is None,
            first_error(txouts@.take(i as int), outerr) is None,
            tx_columns_match(g, txs@),
            g.anchors@.len() == 0,
            g.txouts@.len() == i,
            forall|j: int|
                0 <= j < i ==> {
                    let o = #[trigger] g.txouts@[j];
                    let r = txouts@[j];
                    &&& o.0 == OutPoint { txid: txid_of_text(r.txid@)->Some_0, vout: int_u32(r.vout)->Some_0 }
                    &&& o.1@ == (int_u64(r.value)->Some_0, r.script@)
                },
        decreases txouts@.len() - i,
    {
        proof {
            lemma_first_error_step(txouts@, outerr, i as int);
        }
        let r = &txouts[i];
        let txid = match txid_from_text(r.txid.as_str()) {
            Some(t) => t,
            None => {
                proof {
                    lemma_first_error_prefix(txouts@, outerr, i as int + 1);
                }
                return Err(Error::HexToArray);
            },
        };
        if !(0 <= r.vout && r.vout <= u32::MAX as i64) || r.value < 0 {
            proof {
                lemma_first_error_prefix(txouts@, outerr, i as int + 1);
            }
            return Err(Error::FromInt);
        }
        let script = crate::table::RowValue::duplicate(&r.script);
        g.txouts.push((OutPoint { txid, vout: r.vout as u32 }, TxOut { value: r.value as u64, script_pubkey: script }));
        i = i + 1;
    }
    proof {
        assert(txouts@.take(txouts@.len() as int) =~= txouts@);
    }
    let ghost ancerr = |r: AnchorRow| anchor_row_error(r);
    let mut i: usize = 0;
    while i < anchors.len()
        invariant
            0 <= i <= anchors@.len(),
            ancerr == (|r: AnchorRow| anchor_row_error(r)),
            first_error(txs@, |r: TxRow| tx_row_error(r)) is None,
            first_error(txouts@, |r: TxOutRow| txout_row_error(r)) is None,
            first_error(anchors@.take(i as int), ancerr) is None,
            tx_columns_match(g, txs@),
            g.txouts@.len() == txouts@.len(),
            forall|j: int|
                0 <= j < txouts@.len() ==> {
                    let o = #[trigger] g.txouts@[j];
                    let r = txouts@[j];
                    &&& o.0 == OutPoint { txid: txid_of_text(r.txid@)->Some_0, vout: int_u32(r.vout)->Some_0 }
                    &&& o.1@ == (int_u64(r.value)->Some_0, r.script@)
                },
            g.anchors@.len() == i,
            forall|j: int|
                0 <= j < i ==> {
                    let a = #[trigger] g.anchors@[j];
                    let r = anchors@[j];
                    &&& a.0 == AnchorKey {
                        height: int_u32(r.block_height)->Some_0,
                        hash: block_hash_of_text(r.block_hash@)->Some_0,
                        txid: txid_of_text(r.txid@)->Some_0,
                    }
                    &&& a.1 == int_u64(r.confirmation_time)->Some_0
                },
        decreases anchors@.len() - i,
    {
        proof {
            lemma_first_error_step(anchors@, ancerr, i as int);
        }
        let r = &anchors[i];
        if !(0 <= r.block_height && r.block_height <= u32::MAX as i64) {
            proof {
                lemma_first_error_prefix(anchors@, ancerr, i as int + 1);
            }
            return Err(Error::FromInt);
        }
        let hash = match block_hash_from_text(r.block_hash.as_str()) {
            Some(h) => h,
            None => {
                proof {
                    lemma_first_error_prefix(anchors@, ancerr, i as int + 1);
                }
                return Err(Error::HexToArray);
            },
        };
        let txid = match txid_from_text(r.txid.as_str()) {
            Some(t) => t,
            None => {
                proof {
                    lemma_first_error_prefix(anchors@, ancerr, i as int + 1);
                }
                return Err(Error::HexToArray);
            },
        };
        if r.confirmation_time < 0 {
            proof {
                lemma_first_error_prefix(anchors@, ancerr, i as int + 1);
            }
            return Err(Error::FromInt);
        }
        g.anchors.push((AnchorKey { height: r.block_height as u32, hash, txid }, r.confirmation_time as u64));
        i = i + 1;
    }
    proof {
        assert(anchors@.take(anchors@.len() as int) =~= anchors@);
    }
    Ok(g)
}

/// A row of the relation of last revealed indices.
#[derive(Clone, Debug)]
pub struct LastRevealedRow {
    pub descriptor_id: String,
    pub last_revealed: i64,
}

/// A row of the relation of cached locking scripts.
#[derive(Clone, Debug)]
pub struct SpkRow {
    pub descriptor_id: String,
    pub derivation_index: i64,
    pub script: Vec<u8>,
}

/// A row of the relation of keychains: code 0 is the external role, 1 the internal one.
#[derive(Clone, Debug)]
pub struct KeychainRow {
    pub keychain: i64,
    pub descriptor: String,
}

/// The error that decoding `r` ends in, if any.
pub open spec fn last_revealed_row_error(r: LastRevealedRow) -> Option<Error> {
    if descriptor_id_of_text(r.descriptor_id@) is None {
        Some(Error::HexToArray)
    } else if int_u32(r.last_revealed) is None {
        Some(Error::FromInt)
    } else {
        None
    }
}

/// The error that decoding `r` ends in, if any.
pub open spec fn spk_row_error(r: SpkRow) -> Option<Error> {
    if descriptor_id_of_text(r.descriptor_id@) is None {
        Some(Error::HexToArray)
    } else if int_u32(r.derivation_index) is None {
        Some(Error::FromInt)
    } else {
        None
    }
}

/// The role that a keychain code stands for.
pub open spec fn keychain_of_code(c: i64) -> Option<KeychainKind> {
    if c == 0 {
        Some(KeychainKind::External)
    } else if c == 1 {
        Some(KeychainKind::Internal)
    } else {
        None
    }
}

/// The code that stands for a role.
pub open spec fn code_of_keychain(k: KeychainKind) -> i64 {
    match k {
        KeychainKind::External => 0,
        KeychainKind::Internal => 1,
    }
}

/// The error that decoding `r` ends in, if any.
pub open spec fn keychain_row_error(r: KeychainRow) -> Option<Error> {
    if keychain_of_code(r.keychain) is None {
        Some(Error::UnknownKeychain)
    } else if !is_descriptor(r.descriptor@) {
        Some(Error::Miniscript)
    } else {
        None
    }
}

/// Decode the rows of the relations of last revealed indices and cached scripts; the
/// first row, in that order, that does not decode ends the read with its error.
pub fn keychain_txout_from_rows(last: &Vec<LastRevealedRow>, spks: &Vec<SpkRow>) -> (res: Result<
    crate::changeset::KeychainTxOutChangeSet,
    Error,
>)
    ensures
        ({
            let e = match first_error(last@, |r: LastRevealedRow| last_revealed_row_error(r)) {
                Some(e) => Some(e),
                None => first_error(spks@, |r: SpkRow| spk_row_error(r)),
            };
            &&& e is Some ==> res == Err::<crate::changeset::KeychainTxOutChangeSet, Error>(
                e->Some_0,
            )
            &&& e is None ==> res is Ok
        }),
        res is Ok ==> res->Ok_0.last_revealed@.len() == last@.len() && forall|i: int|
            0 <= i < last@.len() ==> #[trigger] res->Ok_0.last_revealed@[i] == (
                descriptor_id_of_text(last@[i].descriptor_id@)->Some_0,
                int_u32(last@[i].last_revealed)->Some_0,
            ),
        res is Ok ==> res->Ok_0.spk_cache@.len() == spks@.len() && forall|i: int|
            0 <= i < spks@.len() ==> {
                let e = #[trigger] res->Ok_0.spk_cache@[i];
                &&& e.0 == SpkKey {
                    descriptor_id: descriptor_id_of_text(spks@[i].descriptor_id@)->Some_0,
                    index: int_u32(spks@[i].derivation_index)->Some_0,
                }
                &&& e.1@ == spks@[i].script@
            },
{
    let ghost lerr = |r: LastRevealedRow| last_revealed_row_error(r);
    let mut out = crate::changeset::KeychainTxOutChangeSet {
        last_revealed: Vec::new(),
        spk_cache: Vec::new(),
    };
    let mut i: usize = 0;
    while i < last.len()
        invariant
            0 <= i <= last@.len(),
            lerr == (|r: LastRevealedRow| last_revealed_row_error(r)),
            first_error(last@.take(i as int), lerr) is None,
            out.spk_cache@.len() == 0,
            out.last_revealed@.len() == i,
            forall|j: int|
                0 <= j < i ==> #[trigger] out.last_revealed@[j] == (
                    descriptor_id_of_text(last@[j].descriptor_id@)->Some_0,
                    int_u32(last@[j].last_revealed)->Some_0,
                ),
        decreases last@.len() - i,
    {
        proof {
            lemma_first_error_step(last@, lerr, i as int);
        }
        let id = match descriptor_id_from_text(last[i].descriptor_id.as_str()) {
            Some(d) => d,
            None => {
                proof {
                    lemma_first_error_prefix(last@, lerr, i as int + 1);
                }
                return Err(Error::HexToArray);
            },
        };
        let index = match to_u32(last[i].last_revealed) {
            Ok(x) => x,
            Err(e) => {
                proof {
                    lemma_first_error_prefix(last@, lerr, i as int + 1);
                }
                return Err(e);
            },
        };
        out.last_revealed.push((id, index));
        i = i + 1;
    }
    proof {
        assert(last@.take(last@.len() as int) =~= last@);
    }
    let ghost serr = |r: SpkRow| spk_row_error(r);
    let mut i: usize = 0;
    while i < spks.len()
        invariant
            0 <= i <= spks@.len(),
            serr == (|r: SpkRow| spk_row_error(r)),
            first_error(last@, |r: LastRevealedRow| last_revealed_row_error(r)) is None,
            first_error(spks@.take(i as int), serr) is None,
            out.last_revealed@.len() == last@.len(),
            forall|j: int|
                0 <= j < last@.len() ==> #[trigger] out.last_revealed@[j] == (
                    descriptor_id_of_text(last@[j].descriptor_id@)->Some_0,
                    int_u32(last@[j].last_revealed)->Some_0,
                ),
            out.spk_cache@.len() == i,
            forall|j: int|
                0 <= j < i ==> {
                    let e = #[trigger] out.spk_cache@[j];
                    &&& e.0 == SpkKey {
                        descriptor_id: descriptor_id_of_text(spks@[j].descriptor_id@)->Some_0,
                        index: int_u32(spks@[j].derivation_index)->Some_0,
                    }
                    &&& e.1@ == spks@[j].script@
                },
        decreases spks@.len() - i,
    {
        proof {
            lemma_first_error_step(spks@, serr, i as int);
        }
        let id = match descriptor_id_from_text(spks[i].descriptor_id.as_str()) {
            Some(d) => d,
            None => {
                proof {
                    lemma_first_error_prefix(spks@, serr, i as int + 1);
                }
                return Err(Error::HexToArray);
            },
        };
        let index = match to_u32(spks[i].derivation_index) {
            Ok(x) => x,
            Err(e) => {
                proof {
                    lemma_first_error_prefix(spks@, serr, i as int + 1);
                }
                return Err(e);
            },
        };
        let script = crate::table::RowValue::duplicate(&spks[i].script);
        out.spk_cache.push((SpkKey { descriptor_id: id, index }, script));
        i = i + 1;
    }
    proof {
        assert(spks@.take(spks@.len() as int) =~= spks@);
    }
    Ok(out)
}

/// Decode the rows of the relation of keychains; the first row that does not decode
/// ends the read with its error.
pub fn descriptors_from_rows(rows: &Vec<KeychainRow>) -> (res: Result<Vec<(KeychainKind, String)>, Error>)
    ensures
        first_error(rows@, |r: KeychainRow| keychain_row_error(r)) is Some ==> res == Err::<
            Vec<(KeychainKind, String)>,
            Error,
        >(first_error(rows@, |r: KeychainRow| keychain_row_error(r))->Some_0),
        first_error(rows@, |r: KeychainRow| keychain_row_error(r)) is None ==> res is Ok,
        res is Ok ==> res->Ok_0@.len() == rows@.len() && forall|i: int|
            0 <= i < rows@.len() ==> (#[trigger] res->Ok_0@[i]).0 == keychain_of_code(
                rows@[i].keychain,
            )->Some_0 && res->Ok_0@[i].1@ == rows@[i].descriptor@,
{
    let ghost kerr = |r: KeychainRow| keychain_row_error(r);
    let mut out: Vec<(KeychainKind, String)> = Vec::new();
    let mut i: usize = 0;
    while i < rows.len()
        invariant
            0 <= i <= rows@.len(),
            kerr == (|r: KeychainRow| keychain_row_error(r)),
            first_error(rows@.take(i as int), kerr) is None,
            out@.len() == i,
            forall|j: int|
                0 <= j < i ==> (#[trigger] out@[j]).0 == keychain_of_code(rows@[j].keychain)->Some_0
                    && out@[j].1@ == rows@[j].descriptor@,
        decreases rows@.len() - i,
    {
        proof {
            lemma_first_error_step(rows@, kerr, i as int);
        }
        let kind = if rows[i].keychain == 0 {
            KeychainKind::External
        } else if rows[i].keychain == 1 {
            KeychainKind::Internal
        } else {
            proof {
                lemma_first_error_prefix(rows@, kerr, i as int + 1);
            }
            return Err(Error::UnknownKeychain);
        };
        if !descriptor_parses(rows[i].descriptor.as_str()) {
            proof {
                lemma_first_error_prefix(rows@, kerr, i as int + 1);
            }
            return Err(Error::Miniscript);
        }
        out.push((kind, rows[i].descriptor.clone()));
        i = i + 1;
    }
    proof {
        assert(rows@.take(rows@.len() as int) =~= rows@);
    }
    Ok(out)
}

/// Check a stored network name.
pub fn network_from_row(name: Option<String>) -> (res: Result<Option<String>, Error>)
    ensures
        name is Some && !is_network_name(name->Some_0@) ==> res == Err::<Option<String>, Error>(
            Error::ParseNetwork,
        ),
        !(name is Some && !is_network_name(name->Some_0@)) ==> res == Ok::<Option<String>, Error>(
            name,
        ),
{
    match name {
        Some(n) => {
            if crate::codec::network_parses(n.as_str()) {
                Ok(Some(n))
            } else {
                Err(Error::ParseNetwork)
            }
        },
        None => Ok(None),
    }
}

/// Encode descriptors as rows of the relation of keychains; nothing is encoded unless
/// every descriptor parses.
pub fn descriptor_rows(d: &Vec<(KeychainKind, String)>) -> (res: Result<Vec<KeychainRow>, Error>)
    ensures
        (forall|i: int| 0 <= i < d@.len() ==> is_descriptor(#[trigger] d@[i].1@)) <==> res is Ok,
        res is Err ==> res == Err::<Vec<KeychainRow>, Error>(Error::Miniscript),
        res is Ok ==> res->Ok_0@.len() == d@.len() && forall|i: int|
            0 <= i < d@.len() ==> (#[trigger] res->Ok_0@[i]).keychain == code_of_keychain(d@[i].0)
                && res->Ok_0@[i].descriptor@ == d@[i].1@,
{
    let mut out: Vec<KeychainRow> = Vec::new();
    let mut i: usize = 0;
    while i < d.len()
        invariant
            0 <= i <= d@.len(),
            forall|j: int| 0 <= j < i ==> is_descriptor(#[trigger] d@[j].1@),
            out@.len() == i,
            forall|j: int|
                0 <= j < i ==> (#[trigger] out@[j]).keychain == code_of_keychain(d@[j].0)
                    && out@[j].descriptor@ == d@[j].1@,
        decreases d@.len() - i,
    {
        if !descriptor_parses(d[i].1.as_str()) {
            return Err(Error::Miniscript);
        }
        let code: i64 = match d[i].0 {
            KeychainKind::External => 0,
            KeychainKind::Internal => 1,
        };
        out.push(KeychainRow { keychain: code, descriptor: d[i].1.clone() });
        i = i + 1;
    }
    Ok(out)
}

/// Encode a derivation delta as rows of the relations of last revealed indices and of
/// cached scripts.
pub fn keychain_txout_rows(c: &crate::changeset::KeychainTxOutChangeSet) -> (r: (
    Vec<LastRevealedRow>,
    Vec<SpkRow>,
))
    ensures
        r.0@.len() == c.last_revealed@.len(),
        forall|i: int|
            0 <= i < r.0@.len() ==> (#[trigger] r.0@[i]).descriptor_id@ == descriptor_id_text(
                c.last_revealed@[i].0.bytes@,
            ) && r.0@[i].last_revealed == c.last_revealed@[i].1 as i64,
        r.1@.len() == c.spk_cache@.len(),
        forall|i: int|
            0 <= i < r.1@.len() ==> (#[trigger] r.1@[i]).descriptor_id@ == descriptor_id_text(
                c.spk_cache@[i].0.descriptor_id.bytes@,
            ) && r.1@[i].derivation_index == c.spk_cache@[i].0.index as i64 && r.1@[i].script@
                == c.spk_cache@[i].1@,
{
    let mut last: Vec<LastRevealedRow> = Vec::new();
    let mut i: usize = 0;
    while i < c.last_revealed.len()
        invariant
            0 <= i <= c.last_revealed@.len(),
            last@.len() == i,
            forall|j: int|
                0 <= j < i ==> (#[trigger] last@[j]).descriptor_id@ == descriptor_id_text(
                    c.last_revealed@[j].0.bytes@,
                ) && last@[j].last_revealed == c.last_revealed@[j].1 as i64,
        decreases c.last_revealed@.len() - i,
    {
        let id = descriptor_id_to_text(&c.last_revealed[i].0);
        last.push(LastRevealedRow { descriptor_id: id, last_revealed: c.last_revealed[i].1 as i64 });
        i = i + 1;
    }
    let mut spks: Vec<SpkRow> = Vec::new();
    let mut i: usize = 0;
    while i < c.spk_cache.len()
        invariant
            0 <= i <= c.spk_cache@.len(),
            spks@.len() == i,
            forall|j: int|
                0 <= j < i ==> (#[trigger] spks@[j]).descriptor_id@ == descriptor_id_text(
                    c.spk_cache@[j].0.descriptor_id.bytes@,
                ) && spks@[j].derivation_index == c.spk_cache@[j].0.index as i64 && spks@[j].script@
                    == c.spk_cache@[j].1@,
        decreases c.spk_cache@.len() - i,
    {
        let id = descriptor_id_to_text(&c.spk_cache[i].0.descriptor_id);
        let script = crate::table::RowValue::duplicate(&c.spk_cache[i].1);
        spks.push(SpkRow { descriptor_id: id, derivation_index: c.spk_cache[i].0.index as i64, script });
        i = i + 1;
    }
    (last, spks)
}

/// The rows that a graph delta writes, column values as stored.
#[derive(Clone, Debug)]
pub struct TxGraphRows {
    /// Transaction id in text, and the transaction's encoding.
    pub txs: Vec<(String, Vec<u8>)>,
    pub first_seen: Vec<(String, i64)>,
    pub last_seen: Vec<(String, i64)>,
    pub last_evicted: Vec<(String, i64)>,
    pub txouts: Vec<TxOutRow>,
    pub anchors: Vec<AnchorRow>,
}

/// Rows of `r` match the timestamps of `s`, entry by entry.
pub open spec fn time_rows_match(r: Seq<(String, i64)>, s: Seq<(Hash32, u64)>) -> bool {
    &&& r.len() == s.len()
    &&& forall|i: int|
        0 <= i < r.len() ==> (#[trigger] r[i]).0@ == txid_text(s[i].0.bytes@) && r[i].1 == s[i].1 as i64
}

fn time_rows(s: &Vec<(Hash32, u64)>) -> (r: Vec<(String, i64)>)
    requires
        crate::changeset::times_fit(s@),
    ensures
        time_rows_match(r@, s@),
{
    let mut out: Vec<(String, i64)> = Vec::new();
    let mut i: usize = 0;
    while i < s.len()
        invariant
            0 <= i <= s@.len(),
            crate::changeset::times_fit(s@),
            time_rows_match(out@, s@.take(i as int)),
        decreases s@.len() - i,
    {
        assert(crate::changeset::fits_column(s@[i as int].1));
        let t = txid_to_text(&s[i].0);
        out.push((t, s[i].1 as i64));
        i = i + 1;
    }
    proof {
        assert(s@.take(s@.len() as int) =~= s@);
    }
    out
}

/// Encode a graph delta as rows; nothing is encoded unless every transaction decodes
/// and every integer fits its signed 64-bit column.
pub fn tx_graph_rows(c: &crate::changeset::TxGraphChangeSet) -> (res: Result<TxGraphRows, Error>)
    ensures
        !crate::changeset::txs_decode(*c) ==> res == Err::<TxGraphRows, Error>(Error::Decode),
        crate::changeset::txs_decode(*c) && !crate::changeset::ints_fit(*c) ==> res == Err::<
            TxGraphRows,
            Error,
        >(Error::FromInt),
        crate::changeset::txs_decode(*c) && crate::changeset::ints_fit(*c) ==> res is Ok,
        res is Ok ==> res->Ok_0.txs@.len() == c.txs@.len() && forall|i: int|
            0 <= i < c.txs@.len() ==> (#[trigger] res->Ok_0.txs@[i]).0@ == txid_text(
                tx_id(c.txs@[i]@)->Some_0.bytes@,
            ) && res->Ok_0.txs@[i].1@ == c.txs@[i]@,
        res is Ok ==> time_rows_match(res->Ok_0.first_seen@, c.first_seen@),
        res is Ok ==> time_rows_match(res->Ok_0.last_seen@, c.last_seen@),
        res is Ok ==> time_rows_match(res->Ok_0.last_evicted@, c.last_evicted@),
        res is Ok ==> res->Ok_0.txouts@.len() == c.txouts@.len() && forall|i: int|
            0 <= i < c.txouts@.len() ==> {
                let r = #[trigger] res->Ok_0.txouts@[i];
                let e = c.txouts@[i];
                &&& r.txid@ == txid_text(e.0.txid.bytes@)
                &&& r.vout == e.0.vout as i64
                &&& r.value == e.1.value as i64
                &&& r.script@ == e.1.script_pubkey@
            },
        res is Ok ==> res->Ok_0.anchors@.len() == c.anchors@.len() && forall|i: int|
            0 <= i < c.anchors@.len() ==> {
                let r = #[trigger] res->Ok_0.anchors@[i];
                let e = c.anchors@[i];
                &&& r.block_height == e.0.height as i64
                &&& r.block_hash@ == block_hash_text(e.0.hash.bytes@)
                &&& r.txid@ == txid_text(e.0.txid.bytes@)
                &&& r.confirmation_time == e.1 as i64
            },
{
    if !crate::store::graph_txs_decode(c) {
        return Err(Error::Decode);
    }
    if !crate::store::graph_ints_within(c) {
        return Err(Error::FromInt);
    }
    let mut txs: Vec<(String, Vec<u8>)> = Vec::new();
    let mut i: usize = 0;
    while i < c.txs.len()
        invariant
            0 <= i <= c.txs@.len(),
            crate::changeset::txs_decode(*c),
            txs@.len() == i,
            forall|j: int|
                0 <= j < i ==> (#[trigger] txs@[j]).0@ == txid_text(tx_id(c.txs@[j]@)->Some_0.bytes@)
                    && txs@[j].1@ == c.txs@[j]@,
        decreases c.txs@.len() - i,
    {
        assert(tx_id(c.txs@[i as int]@) is Some);
        match crate::codec::txid_of(&c.txs[i]) {
            Some(id) => {
                let text = txid_to_text(&id);
                txs.push((text, crate::table::RowValue::duplicate(&c.txs[i])));
            },
            None => {},
        }
        i = i + 1;
    }
    let mut txouts: Vec<TxOutRow> = Vec::new();
    let mut i: usize = 0;
    while i < c.txouts.len()
        invariant
            0 <= i <= c.txouts@.len(),
            crate::changeset::ints_fit(*c),
            txouts@.len() == i,
            forall|j: int|
                0 <= j < i ==> {
                    let r = #[trigger] txouts@[j];
                    let e = c.txouts@[j];
                    &&& r.txid@ == txid_text(e.0.txid.bytes@)
                    &&& r.vout == e.0.vout as i64
                    &&& r.value == e.1.value as i64
                    &&& r.script@ == e.1.script_pubkey@
                },
        decreases c.txouts@.len() - i,
    {
        assert(crate::changeset::fits_column(c.txouts@[i as int].1.value));
        let e = &c.txouts[i];
        let text = txid_to_text(&e.0.txid);
        let script = crate::table::RowValue::duplicate(&e.1.script_pubkey);
        txouts.push(TxOutRow { txid: text, vout: e.0.vout as i64, value: e.1.value as i64, script });
        i = i + 1;
    }
    let mut anchors: Vec<AnchorRow> = Vec::new();
    let mut i: usize = 0;
    while i < c.anchors.len()
        invariant
            0 <= i <= c.anchors@.len(),
            crate::changeset::ints_fit(*c),
            anchors@.len() == i,
            forall|j: int|
                0 <= j < i ==> {
                    let r = #[trigger] anchors@[j];
                    let e = c.anchors@[j];
                    &&& r.block_height == e.0.height as i64
                    &&& r.block_hash@ == block_hash_text(e.0.hash.bytes@)
                    &&& r.txid@ == txid_text(e.0.txid.bytes@)
                    &&& r.confirmation_time == e.1 as i64
                },
        decreases c.anchors@.len() - i,
    {
        assert(crate::changeset::fits_column(c.anchors@[i as int].1));
        let e = &c.anchors[i];
        let hash = block_hash_to_text(&e.0.hash);
        let txid = txid_to_text(&e.0.txid);
        anchors.push(AnchorRow {
            block_height: e.0.height as i64,
            block_hash: hash,
            txid,
            confirmation_time: e.1 as i64,
        });
        i = i + 1;
    }
    Ok(TxGraphRows {
        txs,
        first_seen: time_rows(&c.first_seen),
        last_seen: time_rows(&c.last_seen),
        last_evicted: time_rows(&c.last_evicted),
        txouts,
        anchors,
    })
}

/// The descriptor that `d` gives for role `k`: the last entry for it, if any.
pub fn descriptor_for(d: &Vec<(KeychainKind, String)>, k: KeychainKind) -> (r: Option<String>)
    ensures
        r is Some <==> crate::table::map_of(d@).contains_key(k),
        r is Some ==> r->Some_0@ == crate::table::map_of(d@)[k],
{
    let mut found: Option<String> = None;
    let mut i: usize = 0;
    while i < d.len()
        invariant
            0 <= i <= d@.len(),
            found is Some <==> crate::table::map_of(d@.take(i as int)).contains_key(k),
            found is Some ==> found->Some_0@ == crate::table::map_of(d@.take(i as int))[k],
        decreases d@.len() - i,
    {
        proof {
            assert(d@.take(i as int + 1).drop_last() =~= d@.take(i as int));
        }
        if d[i].0 == k {
            found = Some(d[i].1.clone());
        }
        i = i + 1;
    }
    proof {
        assert(d@.take(d@.len() as int) =~= d@);
    }
    found
}

} // verus!
