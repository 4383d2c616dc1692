use vstd::prelude::*;

use crate::changeset::{
    chain_applied, descriptors_applied, fits_column, ints_fit, times_fit, txs_added, txs_decode, tx_id,
    ChangeSet, KeychainTxOutChangeSet, LocalChainChangeSet,
    TxGraphChangeSet,
};
use crate::codec::{descriptor_parses, is_descriptor, is_network_name, network_parses, txid_of};
use crate::table::{inserted_if_absent, keys_distinct, map_of, upserted, RowValue, Table};
use crate::types::{AnchorKey, Error, Hash32, KeychainKind, OutPoint, SpkKey, TxOut};

verus! {

/// The contents of a store, relation by relation.
pub struct StoreView {
    pub network: Option<Seq<char>>,
    pub keychains: Map<KeychainKind, Seq<char>>,
    pub blocks: Map<u32, Hash32>,
    pub txs: Map<Hash32, Seq<u8>>,
    pub first_seen: Map<Hash32, u64>,
    pub last_seen: Map<Hash32, u64>,
    pub last_evicted: Map<Hash32, u64>,
    pub txouts: Map<OutPoint, (u64, Seq<u8>)>,
    pub anchors: Map<AnchorKey, u64>,
    pub last_revealed: Map<Hash32, u32>,
    pub spks: Map<SpkKey, Seq<u8>>,
}

/// A store that holds nothing.
pub open spec fn empty_view() -> StoreView {
    StoreView {
        network: None,
        keychains: Map::empty(),
        blocks: Map::empty(),
        txs: Map::empty(),
        first_seen: Map::empty(),
        last_seen: Map::empty(),
        last_evicted: Map::empty(),
        txouts: Map::empty(),
        anchors: Map::empty(),
        last_revealed: Map::empty(),
        spks: Map::empty(),
    }
}

/// `v` after the graph delta `c` is written: upserts for transactions, timestamps and
/// outputs, insertion where absent for anchors.
pub open spec fn tx_graph_applied(v: StoreView, c: TxGraphChangeSet) -> StoreView {
    StoreView {
        txs: txs_added(v.txs, c.txs@),
        first_seen: upserted(v.first_seen, c.first_seen@),
        last_seen: upserted(v.last_seen, c.last_seen@),
        last_evicted: upserted(v.last_evicted, c.last_evicted@),
        txouts: upserted(v.txouts, c.txouts@),
        anchors: inserted_if_absent(v.anchors, c.anchors@),
        ..v
    }
}

/// `v` after the chain delta `c` is written.
pub open spec fn local_chain_applied(v: StoreView, c: LocalChainChangeSet) -> StoreView {
    StoreView { blocks: chain_applied(v.blocks, c.blocks@), ..v }
}

/// `v` after the derivation delta `c` is written: an upsert for the last revealed
/// indices, insertion where absent for the cached scripts.
pub open spec fn keychain_txout_applied(v: StoreView, c: KeychainTxOutChangeSet) -> StoreView {
    StoreView {
        last_revealed: upserted(v.last_revealed, c.last_revealed@),
        spks: inserted_if_absent(v.spks, c.spk_cache@),
        ..v
    }
}

/// `v` after the whole delta `c` is written.
pub open spec fn changeset_applied(v: StoreView, c: ChangeSet) -> StoreView {
    let n = match c.network {
        Some(n) => Some(n@),
        None => v.network,
    };
    let w = StoreView { network: n, keychains: descriptors_applied(v.keychains, c), ..v };
    keychain_txout_applied(tx_graph_applied(local_chain_applied(w, c.local_chain), c.tx_graph), c.indexer)
}

/// Each descriptor of `c` parses.
pub open spec fn descriptors_parse(c: ChangeSet) -> bool {
    &&& c.descriptor is Some ==> is_descriptor(c.descriptor->Some_0@)
    &&& c.change_descriptor is Some ==> is_descriptor(c.change_descriptor->Some_0@)
}

/// The error that writing `c` ends in, if any; checked before anything is written.
pub open spec fn changeset_error(c: ChangeSet) -> Option<Error> {
    if c.network is Some && !is_network_name(c.network->Some_0@) {
        Some(Error::ParseNetwork)
    } else if !descriptors_parse(c) {
        Some(Error::Miniscript)
    } else if !txs_decode(c.tx_graph) {
        Some(Error::Decode)
    } else if !ints_fit(c.tx_graph) {
        Some(Error::FromInt)
    } else {
        None
    }
}

/// Whether every timestamp of `s` fits its column.
fn times_within(s: &Vec<(Hash32, u64)>) -> (r: bool)
    ensures
        r == times_fit(s@),
{
    let mut i: usize = 0;
    while i < s.len()
        invariant
            0 <= i <= s@.len(),
            forall|j: int| 0 <= j < i ==> fits_column(#[trigger] s@[j].1),
        decreases s@.len() - i,
    {
        if s[i].1 > i64::MAX as u64 {
            return false;
        }
        i = i + 1;
    }
    true
}

/// Whether every integer of `c` fits its column.
pub(crate) fn graph_ints_within(c: &TxGraphChangeSet) -> (r: bool)
    ensures
        r == ints_fit(*c),
{
    if !times_within(&c.first_seen) || !times_within(&c.last_seen) || !times_within(
        &c.last_evicted,
    ) {
        return false;
    }
    let mut i: usize = 0;
    while i < c.txouts.len()
        invariant
            0 <= i <= c.txouts@.len(),
            forall|j: int| 0 <= j < i ==> fits_column(#[trigger] c.txouts@[j].1.value),
        decreases c.txouts@.len() - i,
    {
        if c.txouts[i].1.value > i64::MAX as u64 {
            return false;
        }
        i = i + 1;
    }
    let mut i: usize = 0;
    while i < c.anchors.len()
        invariant
            0 <= i <= c.anchors@.len(),
            forall|j: int| 0 <= j < i ==> fits_column(#[trigger] c.anchors@[j].1),
        decreases c.anchors@.len() - i,
    {
        if c.anchors[i].1 > i64::MAX as u64 {
            return false;
        }
        i = i + 1;
    }
    true
}

/// Whether every transaction of `c` decodes.
pub(crate) fn graph_txs_decode(c: &TxGraphChangeSet) -> (r: bool)
    ensures
        r == txs_decode(*c),
{
    let mut i: usize = 0;
    while i < c.txs.len()
        invariant
            0 <= i <= c.txs@.len(),
            forall|j: int| 0 <= j < i ==> (#[trigger] tx_id(c.txs@[j]@)) is Some,
        decreases c.txs@.len() - i,
    {
        if txid_of(&c.txs[i]).is_none() {
            return false;
        }
        i = i + 1;
    }
    true
}

/// Whether every descriptor of `d` parses.
fn descriptors_all_parse(d: &Vec<(KeychainKind, String)>) -> (r: bool)
    ensures
        r == forall|i: int| 0 <= i < d@.len() ==> is_descriptor(#[trigger] d@[i].1@),
{
    let mut i: usize = 0;
    while i < d.len()
        invariant
            0 <= i <= d@.len(),
            forall|j: int| 0 <= j < i ==> is_descriptor(#[trigger] d@[j].1@),
        decreases d@.len() - i,
    {
        if !descriptor_parses(d[i].1.as_str()) {
            return false;
        }
        i = i + 1;
    }
    true
}

/// Store each transaction of `s` under its id.
fn add_txs(t: &mut Table<Hash32, Vec<u8>>, s: &Vec<Vec<u8>>)
    requires
        old(t).wf(),
        forall|k: Hash32| #[trigger] old(t)@.contains_key(k) ==> tx_id(old(t)@[k]) == Some(k),
        forall|j: int| 0 <= j < s@.len() ==> (#[trigger] tx_id(s@[j]@)) is Some,
    ensures
        final(t).wf(),
        forall|k: Hash32| #[trigger] final(t)@.contains_key(k) ==> tx_id(final(t)@[k]) == Some(k),
        final(t)@ == txs_added(old(t)@, s@),
{
    let mut i: usize = 0;
    while i < s.len()
        invariant
            0 <= i <= s@.len(),
            t.wf(),
            forall|k: Hash32| #[trigger] t@.contains_key(k) ==> tx_id(t@[k]) == Some(k),
            forall|j: int| 0 <= j < s@.len() ==> (#[trigger] tx_id(s@[j]@)) is Some,
            t@ == txs_added(old(t)@, s@.take(i as int)),
        decreases s@.len() - i,
    {
        let ghost before = t@;
        assert(tx_id(s@[i as int]@) is Some);
        match txid_of(&s[i]) {
            Some(id) => {
                let bytes = s[i].duplicate();
                t.upsert(id, bytes);
            },
            None => {},
        }
        proof {
            let p = s@.take(i as int + 1);
            assert(p.drop_last() =~= s@.take(i as int));
            assert forall|k: Hash32| #[trigger] t@.contains_key(k) implies tx_id(t@[k]) == Some(
                k,
            ) by {
                if k != tx_id(s@[i as int]@)->Some_0 {
                    assert(before.contains_key(k));
                }
            }
        }
        i = i + 1;
    }
    proof {
        assert(s@.take(s@.len() as int) =~= s@);
    }
}

/// Set or remove each height of `s`, in order.
fn apply_chain(t: &mut Table<u32, Hash32>, s: &Vec<(u32, Option<Hash32>)>)
    requires
        old(t).wf(),
    ensures
        final(t).wf(),
        final(t)@ == chain_applied(old(t)@, s@),
{
    let mut i: usize = 0;
    while i < s.len()
        invariant
            0 <= i <= s@.len(),
            t.wf(),
            t@ == chain_applied(old(t)@, s@.take(i as int)),
        decreases s@.len() - i,
    {
        let height = s[i].0;
        match s[i].1 {
            Some(h) => t.upsert(height, h),
            None => t.delete(&height),
        }
        proof {
            let p = s@.take(i as int + 1);
            assert(p.drop_last() =~= s@.take(i as int));
        }
        i = i + 1;
    }
    proof {
        assert(s@.take(s@.len() as int) =~= s@);
    }
}


/// `c` holds exactly what `v` holds: each collection of `c`, read as a mapping, is the
/// matching relation of `v`.
pub open spec fn snapshot_of(c: ChangeSet, v: StoreView) -> bool {
    &&& (c.network is Some <==> v.network is Some)
    &&& (c.network is Some ==> c.network->Some_0@ == v.network->Some_0)
    &&& (c.descriptor is Some <==> v.keychains.contains_key(KeychainKind::External))
    &&& (c.descriptor is Some ==> c.descriptor->Some_0@ == v.keychains[KeychainKind::External])
    &&& (c.change_descriptor is Some <==> v.keychains.contains_key(KeychainKind::Internal))
    &&& (c.change_descriptor is Some ==> c.change_descriptor->Some_0@
        == v.keychains[KeychainKind::Internal])
    &&& chain_applied(Map::empty(), c.local_chain.blocks@) == v.blocks
    &&& forall|i: int| 0 <= i < c.local_chain.blocks@.len() ==> (#[trigger] c.local_chain.blocks@[i]).1 is Some
    &&& keys_distinct(c.local_chain.blocks@)
    &&& txs_added(Map::empty(), c.tx_graph.txs@) == v.txs
    &&& map_of(c.tx_graph.first_seen@) == v.first_seen
    &&& map_of(c.tx_graph.last_seen@) == v.last_seen
    &&& map_of(c.tx_graph.last_evicted@) == v.last_evicted
    &&& map_of(c.tx_graph.txouts@) == v.txouts
    &&& map_of(c.tx_graph.anchors@) == v.anchors
    &&& keys_distinct(c.tx_graph.first_seen@)
    &&& keys_distinct(c.tx_graph.last_seen@)
    &&& keys_distinct(c.tx_graph.last_evicted@)
    &&& keys_distinct(c.tx_graph.txouts@)
    &&& keys_distinct(c.tx_graph.anchors@)
    &&& map_of(c.indexer.last_revealed@) == v.last_revealed
    &&& map_of(c.indexer.spk_cache@) == v.spks
    &&& keys_distinct(c.indexer.last_revealed@)
    &&& keys_distinct(c.indexer.spk_cache@)
}

proof fn lemma_descriptor_rows(ds: Seq<(KeychainKind, String)>, c: ChangeSet, m: Map<KeychainKind, Seq<char>>)
    requires
        ds == (match (c.descriptor, c.change_descriptor) {
            (Some(d), Some(e)) => seq![(KeychainKind::External, d), (KeychainKind::Internal, e)],
            (Some(d), None) => seq![(KeychainKind::External, d)],
            (None, Some(e)) => seq![(KeychainKind::Internal, e)],
            (None, None) => Seq::empty(),
        }),
    ensures
        upserted(m, ds) == descriptors_applied(m, c),
        (forall|i: int| 0 <= i < ds.len() ==> is_descriptor(#[trigger] ds[i].1@)) == descriptors_parse(c),
{
    reveal_with_fuel(map_of, 3);
    if ds.len() == 2 {
        assert(ds.drop_last().drop_last() =~= Seq::<(KeychainKind, String)>::empty());
        assert(ds.drop_last() =~= seq![ds[0]]);
    } else if ds.len() == 1 {
        assert(ds.drop_last() =~= Seq::<(KeychainKind, String)>::empty());
    }
    assert(upserted(m, ds) =~= descriptors_applied(m, c));
    if descriptors_parse(c) {
        assert forall|i: int| 0 <= i < ds.len() implies is_descriptor(#[trigger] ds[i].1@) by {}
    } else {
        if c.descriptor is Some && !is_descriptor(c.descriptor->Some_0@) {
            assert(!is_descriptor(ds[0].1@));
        } else {
            assert(!is_descriptor(ds[ds.len() - 1].1@));
        }
    }
}

/// A wallet's stored state: one relation per collection of a change set.
pub struct Store {
    network: Option<String>,
    keychains: Table<KeychainKind, String>,
    blocks: Table<u32, Hash32>,
    txs: Table<Hash32, Vec<u8>>,
    first_seen: Table<Hash32, u64>,
    last_seen: Table<Hash32, u64>,
    last_evicted: Table<Hash32, u64>,
    txouts: Table<OutPoint, TxOut>,
    anchors: Table<AnchorKey, u64>,
    last_revealed: Table<Hash32, u32>,
    spks: Table<SpkKey, Vec<u8>>,
}

impl View for Store {
    type V = StoreView;

    closed spec fn view(&self) -> StoreView {
        StoreView {
            network: match self.network {
                Some(n) => Some(n@),
                None => None,
            },
            keychains: self.keychains@,
            blocks: self.blocks@,
            txs: self.txs@,
            first_seen: self.first_seen@,
            last_seen: self.last_seen@,
            last_evicted: self.last_evicted@,
            txouts: self.txouts@,
            anchors: self.anchors@,
            last_revealed: self.last_revealed@,
            spks: self.spks@,
        }
    }
}

impl Store {
    /// Each relation has one row per key, and each transaction is stored under its id.
    pub closed spec fn wf(&self) -> bool {
        &&& self.keychains.wf()
        &&& self.blocks.wf()
        &&& self.txs.wf()
        &&& self.first_seen.wf()
        &&& self.last_seen.wf()
        &&& self.last_evicted.wf()
        &&& self.txouts.wf()
        &&& self.anchors.wf()
        &&& self.last_revealed.wf()
        &&& self.spks.wf()
        &&& forall|k: Hash32| #[trigger]
            self.txs@.contains_key(k) ==> tx_id(self.txs@[k]) == Some(k)
    }

    /// An empty store held in memory.
    pub fn new_memory() -> (r: Result<Self, Error>)
        ensures
            r is Ok,
            r->Ok_0.wf(),
            r->Ok_0@ == empty_view(),
    {
        let s = Store {
            network: None,
            keychains: Table::new(),
            blocks: Table::new(),
            txs: Table::new(),
            first_seen: Table::new(),
            last_seen: Table::new(),
            last_evicted: Table::new(),
            txouts: Table::new(),
            anchors: Table::new(),
            last_revealed: Table::new(),
            spks: Table::new(),
        };
        assert(s@ == empty_view());
        Ok(s)
    }

    /// Write the graph delta `tx_graph`: nothing is written unless every transaction
    /// decodes and every integer fits its signed 64-bit column.
    pub fn write_tx_graph(&mut self, tx_graph: &TxGraphChangeSet) -> (r: Result<(), Error>)
        requires
            old(self).wf(),
        ensures
            final(self).wf(),
            !txs_decode(*tx_graph) ==> r == Err::<(), Error>(Error::Decode) && final(self)@ == old(self)@,
            txs_decode(*tx_graph) && !ints_fit(*tx_graph) ==> r == Err::<(), Error>(Error::FromInt)
                && final(self)@ == old(self)@,
            txs_decode(*tx_graph) && ints_fit(*tx_graph) ==> r is Ok && final(self)@
                == tx_graph_applied(old(self)@, *tx_graph),
    {
        if !graph_txs_decode(tx_graph) {
            return Err(Error::Decode);
        }
        if !graph_ints_within(tx_graph) {
            return Err(Error::FromInt);
        }
        add_txs(&mut self.txs, &tx_graph.txs);
        self.first_seen.upsert_all(&tx_graph.first_seen);
        self.last_seen.upsert_all(&tx_graph.last_seen);
        self.last_evicted.upsert_all(&tx_graph.last_evicted);
        self.txouts.upsert_all(&tx_graph.txouts);
        self.anchors.insert_all_if_absent(&tx_graph.anchors);
        Ok(())
    }

    /// Write the chain delta `local_chain`: a known hash is set for its height, and a
    /// height whose hash is unknown loses its row.
    pub fn write_local_chain(&mut self, local_chain: &LocalChainChangeSet) -> (r: Result<
        (),
        Error,
    >)
        requires
            old(self).wf(),
        ensures
            final(self).wf(),
            r is Ok,
            final(self)@ == local_chain_applied(old(self)@, *local_chain),
    {
        apply_chain(&mut self.blocks, &local_chain.blocks);
        Ok(())
    }

    /// Write the derivation delta `keychain_txout`.
    pub fn write_keychain_txout(&mut self, keychain_txout: &KeychainTxOutChangeSet) -> (r: Result<
        (),
        Error,
    >)
        requires
            old(self).wf(),
        ensures
            final(self).wf(),
            r is Ok,
            final(self)@ == keychain_txout_applied(old(self)@, *keychain_txout),
    {
        self.last_revealed.upsert_all(&keychain_txout.last_revealed);
        self.spks.insert_all_if_absent(&keychain_txout.spk_cache);
        Ok(())
    }

    /// Record the wallet's network, replacing any network recorded before.
    pub fn write_network(&mut self, network: String) -> (r: Result<(), Error>)
        requires
            old(self).wf(),
        ensures
            final(self).wf(),
            is_network_name(network@) ==> r is Ok && final(self)@ == (StoreView {
                network: Some(network@),
                ..old(self)@
            }),
            !is_network_name(network@) ==> r == Err::<(), Error>(Error::ParseNetwork)
                && final(self)@ == old(self)@,
    {
        if !network_parses(network.as_str()) {
            return Err(Error::ParseNetwork);
        }
        self.network = Some(network);
        Ok(())
    }

    /// Record a descriptor for each listed role, replacing the role's earlier one;
    /// nothing is written unless every descriptor parses.
    pub fn write_keychain_descriptors(&mut self, descriptors: Vec<(KeychainKind, String)>) -> (r:
        Result<(), Error>)
        requires
            old(self).wf(),
        ensures
            final(self).wf(),
            (forall|i: int| 0 <= i < descriptors@.len() ==> is_descriptor(#[trigger] descriptors@[i].1@))
                ==> r is Ok && final(self)@ == (StoreView {
                keychains: upserted(old(self)@.keychains, descriptors@),
                ..old(self)@
            }),
            !(forall|i: int| 0 <= i < descriptors@.len() ==> is_descriptor(#[trigger] descriptors@[i].1@))
                ==> r == Err::<(), Error>(Error::Miniscript) && final(self)@ == old(self)@,
    {
        if !descriptors_all_parse(&descriptors) {
            return Err(Error::Miniscript);
        }
        self.keychains.upsert_all(&descriptors);
        Ok(())
    }

    /// Write the whole delta `changeset`. Every part is checked before anything is
    /// written, so a delta is stored whole or not at all.
    pub fn write_changeset(&mut self, changeset: &ChangeSet) -> (r: Result<(), Error>)
        requires
            old(self).wf(),
        ensures
            final(self).wf(),
            changeset_error(*changeset) is Some ==> r == Err::<(), Error>(
                changeset_error(*changeset)->Some_0,
            ) && final(self)@ == old(self)@,
            changeset_error(*changeset) is None ==> r is Ok && final(self)@ == changeset_applied(
                old(self)@,
                *changeset,
            ),
    {
        match &changeset.network {
            Some(n) => {
                if !network_parses(n.as_str()) {
                    return Err(Error::ParseNetwork);
                }
            },
            None => {},
        }
        let mut descriptors: Vec<(KeychainKind, String)> = Vec::new();
        match &changeset.descriptor {
            Some(d) => descriptors.push((KeychainKind::External, d.clone())),
            None => {},
        }
        match &changeset.change_descriptor {
            Some(d) => descriptors.push((KeychainKind::Internal, d.clone())),
            None => {},
        }
        let ghost ds = descriptors@;
        proof {
            let d = changeset.descriptor;
            let e = changeset.change_descriptor;
            if d is Some && e is Some {
                assert(ds =~= seq![(KeychainKind::External, d->Some_0), (KeychainKind::Internal, e->Some_0)]);
            } else if d is Some {
                assert(ds =~= seq![(KeychainKind::External, d->Some_0)]);
            } else if e is Some {
                assert(ds =~= seq![(KeychainKind::Internal, e->Some_0)]);
            } else {
                assert(ds =~= Seq::<(KeychainKind, String)>::empty());
            }
            lemma_descriptor_rows(ds, *changeset, old(self)@.keychains);
        }
        if !descriptors_all_parse(&descriptors) {
            return Err(Error::Miniscript);
        }
        if !graph_txs_decode(&changeset.tx_graph) {
            return Err(Error::Decode);
        }
        if !graph_ints_within(&changeset.tx_graph) {
            return Err(Error::FromInt);
        }
        match &changeset.network {
            Some(n) => {
                let _ = self.write_network(n.clone());
            },
            None => {},
        }
        let _ = self.write_keychain_descriptors(descriptors);
        let _ = self.write_local_chain(&changeset.local_chain);
        let _ = self.write_tx_graph(&changeset.tx_graph);
        let _ = self.write_keychain_txout(&changeset.indexer);
        Ok(())
    }

    /// The stored network, if one was recorded.
    pub fn read_network(&self) -> (r: Result<Option<String>, Error>)
        ensures
            r is Ok,
            r->Ok_0 is Some <==> self@.network is Some,
            r->Ok_0 is Some ==> r->Ok_0->Some_0@ == self@.network->Some_0,
    {
        match &self.network {
            Some(n) => Ok(Some(n.clone())),
            None => Ok(None),
        }
    }

    /// The stored descriptors, one entry per role.
    pub fn read_keychain_descriptors(&self) -> (r: Result<Vec<(KeychainKind, String)>, Error>)
        requires
            self.wf(),
        ensures
            r is Ok,
            map_of(r->Ok_0@) == self@.keychains,
            keys_distinct(r->Ok_0@),
    {
        Ok(self.keychains.rows())
    }

    /// The stored chain: each height with its known hash.
    pub fn read_local_chain(&self) -> (r: Result<LocalChainChangeSet, Error>)
        requires
            self.wf(),
        ensures
            r is Ok,
            chain_applied(Map::empty(), r->Ok_0.blocks@) == self@.blocks,
            forall|i: int| 0 <= i < r->Ok_0.blocks@.len() ==> (#[trigger] r->Ok_0.blocks@[i]).1 is Some,
            keys_distinct(r->Ok_0.blocks@),
    {
        let rows = self.blocks.rows();
        let mut blocks: Vec<(u32, Option<Hash32>)> = Vec::new();
        let mut i: usize = 0;
        while i < rows.len()
            invariant
                0 <= i <= rows@.len(),
                blocks@.len() == i,
                forall|j: int| 0 <= j < i ==> (#[trigger] blocks@[j]) == (rows@[j].0, Some(rows@[j].1)),
                chain_applied(Map::empty(), blocks@) == map_of(rows@.take(i as int)),
            decreases rows@.len() - i,
        {
            let ghost prev = blocks@;
            blocks.push((rows[i].0, Some(rows[i].1)));
            proof {
                assert(blocks@.drop_last() =~= prev);
                assert(rows@.take(i as int + 1).drop_last() =~= rows@.take(i as int));
            }
            i = i + 1;
        }
        proof {
            assert(rows@.take(rows@.len() as int) =~= rows@);
            assert forall|a: int, b: int| 0 <= a < b < blocks@.len() implies blocks@[a].0 != blocks@[b].0 by {
                assert(blocks@[a] == (rows@[a].0, Some(rows@[a].1)));
                assert(blocks@[b] == (rows@[b].0, Some(rows@[b].1)));
            }
        }
        Ok(LocalChainChangeSet { blocks })
    }

    /// The stored graph of transactions.
    pub fn read_tx_graph(&self) -> (r: Result<TxGraphChangeSet, Error>)
        requires
            self.wf(),
        ensures
            r is Ok,
            txs_added(Map::empty(), r->Ok_0.txs@) == self@.txs,
            map_of(r->Ok_0.first_seen@) == self@.first_seen,
            map_of(r->Ok_0.last_seen@) == self@.last_seen,
            map_of(r->Ok_0.last_evicted@) == self@.last_evicted,
            map_of(r->Ok_0.txouts@) == self@.txouts,
            map_of(r->Ok_0.anchors@) == self@.anchors,
            keys_distinct(r->Ok_0.first_seen@),
            keys_distinct(r->Ok_0.last_seen@),
            keys_distinct(r->Ok_0.last_evicted@),
            keys_distinct(r->Ok_0.txouts@),
            keys_distinct(r->Ok_0.anchors@),
    {
        let rows = self.txs.rows();
        let mut txs: Vec<Vec<u8>> = Vec::new();
        let mut i: usize = 0;
        while i < rows.len()
            invariant
                0 <= i <= rows@.len(),
                map_of(rows@) == self.txs@,
                keys_distinct(rows@),
                forall|k: Hash32| #[trigger] self.txs@.contains_key(k) ==> tx_id(self.txs@[k]) == Some(k),
                txs@.len() == i,
                txs_added(Map::empty(), txs@) == map_of(rows@.take(i as int)),
            decreases rows@.len() - i,
        {
            proof {
                crate::table::lemma_map_of_distinct_index(rows@, i as int);
            }
            let ghost prev = txs@;
            txs.push(rows[i].1.duplicate());
            proof {
                assert(txs@.drop_last() =~= prev);
                assert(tx_id(rows@[i as int].1@) == Some(rows@[i as int].0));
                assert(rows@.take(i as int + 1).drop_last() =~= rows@.take(i as int));
            }
            i = i + 1;
        }
        proof {
            assert(rows@.take(rows@.len() as int) =~= rows@);
        }
        Ok(TxGraphChangeSet {
            txs,
            txouts: self.txouts.rows(),
            anchors: self.anchors.rows(),
            first_seen: self.first_seen.rows(),
            last_seen: self.last_seen.rows(),
            last_evicted: self.last_evicted.rows(),
        })
    }

    /// The stored derivation state.
    pub fn read_keychain_txout(&self) -> (r: Result<KeychainTxOutChangeSet, Error>)
        requires
            self.wf(),
        ensures
            r is Ok,
            map_of(r->Ok_0.last_revealed@) == self@.last_revealed,
            map_of(r->Ok_0.spk_cache@) == self@.spks,
            keys_distinct(r->Ok_0.last_revealed@),
            keys_distinct(r->Ok_0.spk_cache@),
    {
        Ok(KeychainTxOutChangeSet {
            last_revealed: self.last_revealed.rows(),
            spk_cache: self.spks.rows(),
        })
    }

    /// Everything stored, as one change set.
    pub fn read_changeset(&self) -> (r: Result<ChangeSet, Error>)
        requires
            self.wf(),
        ensures
            r is Ok,
            snapshot_of(r->Ok_0, self@),
    {
        let network = match self.read_network() {
            Ok(n) => n,
            Err(e) => return Err(e),
        };
        let descriptor = match self.keychains.get(&KeychainKind::External) {
            Some(d) => Some(d.duplicate()),
            None => None,
        };
        let change_descriptor = match self.keychains.get(&KeychainKind::Internal) {
            Some(d) => Some(d.duplicate()),
            None => None,
        };
        let tx_graph = match self.read_tx_graph() {
            Ok(g) => g,
            Err(e) => return Err(e),
        };
        let local_chain = match self.read_local_chain() {
            Ok(c) => c,
            Err(e) => return Err(e),
        };
        let indexer = match self.read_keychain_txout() {
            Ok(x) => x,
            Err(e) => return Err(e),
        };
        Ok(ChangeSet { network, descriptor, change_descriptor, tx_graph, local_chain, indexer })
    }
}

} // verus!
