use vstd::prelude::*;

use crate::changeset::{chain_applied, tx_id, txs_added, ChangeSet};
use crate::store::{changeset_applied, changeset_error, empty_view, snapshot_of, StoreView};
use crate::table::{inserted_if_absent, keys_distinct, lemma_map_of_distinct_index, map_of};
use crate::types::Hash32;

verus! {

/// Some entry of `s` has key `k`.
pub open spec fn has_key<K, V>(s: Seq<(K, V)>, k: K) -> bool {
    exists|j: int| 0 <= j < s.len() && s[j].0 == k
}

/// No two transactions of `s` share an id.
pub open spec fn tx_ids_distinct(s: Seq<Vec<u8>>) -> bool {
    forall|i: int, j: int| 0 <= i < j < s.len() ==> tx_id(s[i]@) != tx_id(s[j]@)
}

/// Each collection of `c` has one entry per key, as a change set's maps do.
pub open spec fn keys_unique(c: ChangeSet) -> bool {
    &&& keys_distinct(c.local_chain.blocks@)
    &&& tx_ids_distinct(c.tx_graph.txs@)
    &&& keys_distinct(c.tx_graph.txouts@)
    &&& keys_distinct(c.tx_graph.anchors@)
    &&& keys_distinct(c.tx_graph.first_seen@)
    &&& keys_distinct(c.tx_graph.last_seen@)
    &&& keys_distinct(c.tx_graph.last_evicted@)
    &&& keys_distinct(c.indexer.last_revealed@)
    &&& keys_distinct(c.indexer.spk_cache@)
}

proof fn lemma_step<K, V>(s: Seq<(K, V)>, k: K)
    requires
        s.len() > 0,
    ensures
        has_key(s, k) <==> has_key(s.drop_last(), k) || s.last().0 == k,
{
    if has_key(s, k) && s.last().0 != k {
        let j = choose|j: int| 0 <= j < s.len() && s[j].0 == k;
        assert(s.drop_last()[j] == s[j]);
    }
    if has_key(s.drop_last(), k) {
        let j = choose|j: int| 0 <= j < s.len() - 1 && s.drop_last()[j].0 == k;
        assert(s.drop_last()[j] == s[j]);
    }
}

/// A key of `s` ends in `inserted_if_absent(m, s)`; any other key keeps its entry of `m`.
proof fn lemma_inserted_keys<K, V: View>(m: Map<K, V::V>, s: Seq<(K, V)>, k: K)
    ensures
        has_key(s, k) ==> inserted_if_absent(m, s).contains_key(k),
        !has_key(s, k) ==> (inserted_if_absent(m, s).contains_key(k) <==> m.contains_key(k)),
        !has_key(s, k) && m.contains_key(k) ==> inserted_if_absent(m, s)[k] == m[k],
        m.contains_key(k) ==> inserted_if_absent(m, s)[k] == m[k] && inserted_if_absent(
            m,
            s,
        ).contains_key(k),
    decreases s.len(),
{
    if s.len() > 0 {
        lemma_inserted_keys(m, s.drop_last(), k);
        lemma_step(s, k);
    }
}

/// With distinct keys, an entry of `s` whose key `m` lacks is stored as it is.
proof fn lemma_inserted_entry<K, V: View>(m: Map<K, V::V>, s: Seq<(K, V)>, i: int)
    requires
        keys_distinct(s),
        0 <= i < s.len(),
        !m.contains_key(s[i].0),
    ensures
        inserted_if_absent(m, s).contains_key(s[i].0),
        inserted_if_absent(m, s)[s[i].0] == s[i].1@,
    decreases s.len(),
{
    let d = s.drop_last();
    if i == s.len() - 1 {
        lemma_inserted_keys(m, d, s[i].0);
        if has_key(d, s[i].0) {
            let j = choose|j: int| 0 <= j < d.len() && d[j].0 == s[i].0;
            assert(s[j] == d[j]);
        }
    } else {
        assert(d[i] == s[i]);
        lemma_inserted_entry(m, d, i);
    }
}

/// A height of `s` ends as its last entry in `s` says, whatever `m` held; any other
/// height keeps its entry of `m`.
proof fn lemma_chain_keys(m: Map<u32, Hash32>, s: Seq<(u32, Option<Hash32>)>, k: u32)
    ensures
        has_key(s, k) ==> (chain_applied(m, s).contains_key(k) <==> chain_applied(
            Map::empty(),
            s,
        ).contains_key(k)),
        has_key(s, k) && chain_applied(m, s).contains_key(k) ==> chain_applied(m, s)[k]
            == chain_applied(Map::empty(), s)[k],
        !has_key(s, k) ==> (chain_applied(m, s).contains_key(k) <==> m.contains_key(k)),
        !has_key(s, k) && m.contains_key(k) ==> chain_applied(m, s)[k] == m[k],
    decreases s.len(),
{
    if s.len() > 0 {
        lemma_chain_keys(m, s.drop_last(), k);
        lemma_chain_keys(Map::empty(), s.drop_last(), k);
        lemma_step(s, k);
    }
}

/// With distinct heights, each entry of `s` decides its height.
proof fn lemma_chain_entry(m: Map<u32, Hash32>, s: Seq<(u32, Option<Hash32>)>, i: int)
    requires
        keys_distinct(s),
        0 <= i < s.len(),
    ensures
        s[i].1 is Some ==> chain_applied(m, s).contains_key(s[i].0) && chain_applied(m, s)[s[i].0]
            == s[i].1->Some_0,
        s[i].1 is None ==> !chain_applied(m, s).contains_key(s[i].0),
    decreases s.len(),
{
    let d = s.drop_last();
    if i < s.len() - 1 {
        assert(d[i] == s[i]);
        lemma_chain_entry(m, d, i);
    }
}

/// The transactions of `s` are stored over `m` as over an empty map.
proof fn lemma_txs_union(m: Map<Hash32, Seq<u8>>, s: Seq<Vec<u8>>)
    ensures
        txs_added(m, s) == m.union_prefer_right(txs_added(Map::empty(), s)),
    decreases s.len(),
{
    if s.len() > 0 {
        lemma_txs_union(m, s.drop_last());
        assert(txs_added(m, s) =~= m.union_prefer_right(txs_added(Map::empty(), s)));
    }
}

/// With distinct ids, each transaction of `s` is stored under its id.
proof fn lemma_txs_entry(m: Map<Hash32, Seq<u8>>, s: Seq<Vec<u8>>, i: int)
    requires
        tx_ids_distinct(s),
        forall|j: int| 0 <= j < s.len() ==> (#[trigger] tx_id(s[j]@)) is Some,
        0 <= i < s.len(),
    ensures
        txs_added(m, s).contains_key(tx_id(s[i]@)->Some_0),
        txs_added(m, s)[tx_id(s[i]@)->Some_0] == s[i]@,
    decreases s.len(),
{
    let d = s.drop_last();
    if i < s.len() - 1 {
        assert(d[i] == s[i]);
        lemma_txs_entry(m, d, i);
        assert(tx_id(s[i]@) != tx_id(s[s.len() - 1]@));
        assert(tx_id(s[i]@) is Some && tx_id(s[s.len() - 1]@) is Some);
    }
}

/// Round trip: a delta written to an empty store and read back loses nothing. Every
/// entry of every collection of the delta is in the snapshot under its key, a height
/// set to an unknown hash is absent, and the network and descriptors are those given.
pub proof fn lemma_round_trip(c: ChangeSet, snap: ChangeSet)
    requires
        changeset_error(c) is None,
        keys_unique(c),
        snapshot_of(snap, changeset_applied(empty_view(), c)),
    ensures
        c.network is Some ==> snap.network is Some && snap.network->Some_0@ == c.network->Some_0@,
        c.descriptor is Some ==> snap.descriptor is Some && snap.descriptor->Some_0@
            == c.descriptor->Some_0@,
        c.change_descriptor is Some ==> snap.change_descriptor is Some
            && snap.change_descriptor->Some_0@ == c.change_descriptor->Some_0@,
        forall|i: int|
            0 <= i < c.tx_graph.txs@.len() ==> #[trigger] txs_added(Map::empty(), snap.tx_graph.txs@)[tx_id(
                c.tx_graph.txs@[i]@,
            )->Some_0] == c.tx_graph.txs@[i]@ && txs_added(
                Map::empty(),
                snap.tx_graph.txs@,
            ).contains_key(tx_id(c.tx_graph.txs@[i]@)->Some_0),
        forall|i: int|
            0 <= i < c.tx_graph.first_seen@.len() ==> map_of(snap.tx_graph.first_seen@)
                == #[trigger] map_of(snap.tx_graph.first_seen@).insert(
                c.tx_graph.first_seen@[i].0,
                c.tx_graph.first_seen@[i].1,
            ),
        forall|i: int|
            0 <= i < c.tx_graph.last_seen@.len() ==> map_of(snap.tx_graph.last_seen@)
                == #[trigger] map_of(snap.tx_graph.last_seen@).insert(
                c.tx_graph.last_seen@[i].0,
                c.tx_graph.last_seen@[i].1,
            ),
        forall|i: int|
            0 <= i < c.tx_graph.last_evicted@.len() ==> map_of(snap.tx_graph.last_evicted@)
                == #[trigger] map_of(snap.tx_graph.last_evicted@).insert(
                c.tx_graph.last_evicted@[i].0,
                c.tx_graph.last_evicted@[i].1,
            ),
        forall|i: int|
            0 <= i < c.tx_graph.txouts@.len() ==> map_of(snap.tx_graph.txouts@)
                == #[trigger] map_of(snap.tx_graph.txouts@).insert(
                c.tx_graph.txouts@[i].0,
                c.tx_graph.txouts@[i].1@,
            ),
        forall|i: int|
            0 <= i < c.tx_graph.anchors@.len() ==> map_of(snap.tx_graph.anchors@)
                == #[trigger] map_of(snap.tx_graph.anchors@).insert(
                c.tx_graph.anchors@[i].0,
                c.tx_graph.anchors@[i].1,
            ),
        forall|i: int|
            0 <= i < c.indexer.last_revealed@.len() ==> map_of(snap.indexer.last_revealed@)
                == #[trigger] map_of(snap.indexer.last_revealed@).insert(
                c.indexer.last_revealed@[i].0,
                c.indexer.last_revealed@[i].1,
            ),
        forall|i: int|
            0 <= i < c.indexer.spk_cache@.len() ==> map_of(snap.indexer.spk_cache@)
                == #[trigger] map_of(snap.indexer.spk_cache@).insert(
                c.indexer.spk_cache@[i].0,
                c.indexer.spk_cache@[i].1@,
            ),
        forall|i: int|
            0 <= i < c.local_chain.blocks@.len() ==> {
                let b = chain_applied(Map::empty(), snap.local_chain.blocks@);
                let e = #[trigger] c.local_chain.blocks@[i];
                &&& e.1 is Some ==> b.contains_key(e.0) && b[e.0] == e.1->Some_0
                &&& e.1 is None ==> !b.contains_key(e.0)
            },
{
    let v = changeset_applied(empty_view(), c);
    let g = c.tx_graph;
    let x = c.indexer;
    assert forall|i: int| 0 <= i < g.txs@.len() implies #[trigger] txs_added(
        Map::empty(),
        snap.tx_graph.txs@,
    )[tx_id(g.txs@[i]@)->Some_0] == g.txs@[i]@ && txs_added(
        Map::empty(),
        snap.tx_graph.txs@,
    ).contains_key(tx_id(g.txs@[i]@)->Some_0) by {
        lemma_txs_entry(Map::empty(), g.txs@, i);
    }
    assert forall|i: int| 0 <= i < g.first_seen@.len() implies map_of(snap.tx_graph.first_seen@)
        == #[trigger] map_of(snap.tx_graph.first_seen@).insert(
        g.first_seen@[i].0,
        g.first_seen@[i].1,
    ) by {
        lemma_map_of_distinct_index(g.first_seen@, i);
        assert(v.first_seen =~= map_of(g.first_seen@));
        assert(v.first_seen =~= v.first_seen.insert(g.first_seen@[i].0, g.first_seen@[i].1));
    }
    assert forall|i: int| 0 <= i < g.last_seen@.len() implies map_of(snap.tx_graph.last_seen@)
        == #[trigger] map_of(snap.tx_graph.last_seen@).insert(
        g.last_seen@[i].0,
        g.last_seen@[i].1,
    ) by {
        lemma_map_of_distinct_index(g.last_seen@, i);
        assert(v.last_seen =~= map_of(g.last_seen@));
        assert(v.last_seen =~= v.last_seen.insert(g.last_seen@[i].0, g.last_seen@[i].1));
    }
    assert forall|i: int| 0 <= i < g.last_evicted@.len() implies map_of(
        snap.tx_graph.last_evicted@,
    ) == #[trigger] map_of(snap.tx_graph.last_evicted@).insert(
        g.last_evicted@[i].0,
        g.last_evicted@[i].1,
    ) by {
        lemma_map_of_distinct_index(g.last_evicted@, i);
        assert(v.last_evicted =~= map_of(g.last_evicted@));
        assert(v.last_evicted =~= v.last_evicted.insert(
            g.last_evicted@[i].0,
            g.last_evicted@[i].1,
        ));
    }
    assert forall|i: int| 0 <= i < g.txouts@.len() implies map_of(snap.tx_graph.txouts@)
        == #[trigger] map_of(snap.tx_graph.txouts@).insert(g.txouts@[i].0, g.txouts@[i].1@) by {
        lemma_map_of_distinct_index(g.txouts@, i);
        assert(v.txouts =~= map_of(g.txouts@));
        assert(v.txouts =~= v.txouts.insert(g.txouts@[i].0, g.txouts@[i].1@));
    }
    assert forall|i: int| 0 <= i < g.anchors@.len() implies map_of(snap.tx_graph.anchors@)
        == #[trigger] map_of(snap.tx_graph.anchors@).insert(g.anchors@[i].0, g.anchors@[i].1) by {
        lemma_inserted_entry(Map::<crate::types::AnchorKey, u64>::empty(), g.anchors@, i);
        assert(v.anchors =~= v.anchors.insert(g.anchors@[i].0, g.anchors@[i].1));
    }
    assert forall|i: int| 0 <= i < x.last_revealed@.len() implies map_of(
        snap.indexer.last_revealed@,
    ) == #[trigger] map_of(snap.indexer.last_revealed@).insert(
        x.last_revealed@[i].0,
        x.last_revealed@[i].1,
    ) by {
        lemma_map_of_distinct_index(x.last_revealed@, i);
        assert(v.last_revealed =~= map_of(x.last_revealed@));
        assert(v.last_revealed =~= v.last_revealed.insert(
            x.last_revealed@[i].0,
            x.last_revealed@[i].1,
        ));
    }
    assert forall|i: int| 0 <= i < x.spk_cache@.len() implies map_of(snap.indexer.spk_cache@)
        == #[trigger] map_of(snap.indexer.spk_cache@).insert(
        x.spk_cache@[i].0,
        x.spk_cache@[i].1@,
    ) by {
        lemma_inserted_entry(Map::<crate::types::SpkKey, Seq<u8>>::empty(), x.spk_cache@, i);
        assert(v.spks =~= v.spks.insert(x.spk_cache@[i].0, x.spk_cache@[i].1@));
    }
    assert forall|i: int| 0 <= i < c.local_chain.blocks@.len() implies {
        let b = chain_applied(Map::empty(), snap.local_chain.blocks@);
        let e = #[trigger] c.local_chain.blocks@[i];
        &&& e.1 is Some ==> b.contains_key(e.0) && b[e.0] == e.1->Some_0
        &&& e.1 is None ==> !b.contains_key(e.0)
    } by {
        lemma_chain_entry(Map::empty(), c.local_chain.blocks@, i);
    }
}

/// Writing a delta a second time changes nothing: upserts write the same values again,
/// insertions where absent find their keys present, and each height ends as the delta
/// says.
pub proof fn lemma_write_twice(v: StoreView, c: ChangeSet)
    ensures
        changeset_applied(changeset_applied(v, c), c) == changeset_applied(v, c),
{
    let w1 = changeset_applied(v, c);
    let w2 = changeset_applied(w1, c);
    let g = c.tx_graph;
    let x = c.indexer;
    lemma_txs_union(v.txs, g.txs@);
    lemma_txs_union(w1.txs, g.txs@);
    assert(w2.txs =~= w1.txs);
    assert(w2.first_seen =~= w1.first_seen);
    assert(w2.last_seen =~= w1.last_seen);
    assert(w2.last_evicted =~= w1.last_evicted);
    assert(w2.txouts =~= w1.txouts);
    assert(w2.last_revealed =~= w1.last_revealed);
    assert(w2.keychains =~= w1.keychains);
    assert forall|k| #![auto] w2.anchors.contains_key(k) <==> w1.anchors.contains_key(k) by {
        lemma_inserted_keys(v.anchors, g.anchors@, k);
        lemma_inserted_keys(w1.anchors, g.anchors@, k);
    }
    assert forall|k| #![auto] w1.anchors.contains_key(k) implies w2.anchors[k] == w1.anchors[k] by {
        lemma_inserted_keys(w1.anchors, g.anchors@, k);
    }
    assert(w2.anchors =~= w1.anchors);
    assert forall|k| #![auto] w2.spks.contains_key(k) <==> w1.spks.contains_key(k) by {
        lemma_inserted_keys(v.spks, x.spk_cache@, k);
        lemma_inserted_keys(w1.spks, x.spk_cache@, k);
    }
    assert forall|k| #![auto] w1.spks.contains_key(k) implies w2.spks[k] == w1.spks[k] by {
        lemma_inserted_keys(w1.spks, x.spk_cache@, k);
    }
    assert(w2.spks =~= w1.spks);
    let s = c.local_chain.blocks@;
    assert forall|k: u32| #![auto] w2.blocks.contains_key(k) <==> w1.blocks.contains_key(k) by {
        lemma_chain_keys(v.blocks, s, k);
        lemma_chain_keys(w1.blocks, s, k);
    }
    assert forall|k: u32| #![auto] w1.blocks.contains_key(k) implies w2.blocks[k] == w1.blocks[k] by {
        lemma_chain_keys(v.blocks, s, k);
        lemma_chain_keys(w1.blocks, s, k);
    }
    assert(w2.blocks =~= w1.blocks);
    assert(w2 == w1);
}

/// An anchor already stored keeps its confirmation time whatever a later delta says of
/// its key, and so does a cached script.
pub proof fn lemma_stored_anchor_kept(v: StoreView, c: ChangeSet)
    ensures
        forall|k| #[trigger]
            v.anchors.contains_key(k) ==> changeset_applied(v, c).anchors.contains_key(k)
                && changeset_applied(v, c).anchors[k] == v.anchors[k],
        forall|k| #[trigger]
            v.spks.contains_key(k) ==> changeset_applied(v, c).spks.contains_key(k)
                && changeset_applied(v, c).spks[k] == v.spks[k],
{
    assert forall|k| #[trigger] v.anchors.contains_key(k) implies changeset_applied(
        v,
        c,
    ).anchors.contains_key(k) && changeset_applied(v, c).anchors[k] == v.anchors[k] by {
        lemma_inserted_keys(v.anchors, c.tx_graph.anchors@, k);
    }
    assert forall|k| #[trigger] v.spks.contains_key(k) implies changeset_applied(
        v,
        c,
    ).spks.contains_key(k) && changeset_applied(v, c).spks[k] == v.spks[k] by {
        lemma_inserted_keys(v.spks, c.indexer.spk_cache@, k);
    }
}

/// A height that a delta with distinct heights sets to an unknown hash has no block
/// after the delta is written, whatever was stored for it.
pub proof fn lemma_unknown_height_removed(v: StoreView, c: ChangeSet, i: int)
    requires
        keys_distinct(c.local_chain.blocks@),
        0 <= i < c.local_chain.blocks@.len(),
        c.local_chain.blocks@[i].1 is None,
    ensures
        !changeset_applied(v, c).blocks.contains_key(c.local_chain.blocks@[i].0),
{
    lemma_chain_entry(v.blocks, c.local_chain.blocks@, i);
}

} // verus!
