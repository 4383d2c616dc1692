use bdk_chain::bitcoin::absolute::LockTime;
use bdk_chain::bitcoin::consensus;
use bdk_chain::bitcoin::transaction::Version;
use bdk_chain::bitcoin::{Amount, ScriptBuf, Transaction, TxIn, TxOut as BtcTxOut};
use bdk_sqlx::{
    AnchorKey, ChangeSet, Error, Hash32, KeychainKind, KeychainTxOutChangeSet,
    LocalChainChangeSet, OutPoint, SpkKey, Store, TxGraphChangeSet, TxOut,
};

const DESCRIPTOR: &str = "wpkh(0279be667ef9dcbbac55a06295ce870b07029bfcdb2dce28d959f2815b16f81798)";

fn sample_tx(value: u64) -> (Vec<u8>, Hash32) {
    let tx = Transaction {
        version: Version::TWO,
        lock_time: LockTime::ZERO,
        input: vec![TxIn::default()],
        output: vec![BtcTxOut { value: Amount::from_sat(value), script_pubkey: ScriptBuf::new() }],
    };
    let id = Hash32 { bytes: bdk_chain::bitcoin::hashes::Hash::to_byte_array(tx.compute_txid()) };
    (consensus::encode::serialize(&tx), id)
}

fn hash(b: u8) -> Hash32 {
    Hash32 { bytes: [b; 32] }
}

fn empty_graph() -> TxGraphChangeSet {
    TxGraphChangeSet {
        txs: vec![],
        txouts: vec![],
        anchors: vec![],
        first_seen: vec![],
        last_seen: vec![],
        last_evicted: vec![],
    }
}

fn empty_changeset() -> ChangeSet {
    ChangeSet {
        network: None,
        descriptor: None,
        change_descriptor: None,
        local_chain: LocalChainChangeSet { blocks: vec![] },
        tx_graph: empty_graph(),
        indexer: KeychainTxOutChangeSet { last_revealed: vec![], spk_cache: vec![] },
    }
}

fn anchor_key(txid: Hash32) -> AnchorKey {
    AnchorKey { height: 5, hash: hash(0xbb), txid }
}

#[test]
fn new_store_is_empty() {
    let store = Store::new_memory().unwrap();
    let c = store.read_changeset().unwrap();
    assert!(c.network.is_none());
    assert!(c.descriptor.is_none());
    assert!(c.change_descriptor.is_none());
    assert!(c.local_chain.blocks.is_empty());
    assert!(c.tx_graph.txs.is_empty());
    assert!(c.tx_graph.first_seen.is_empty());
    assert!(c.indexer.spk_cache.is_empty());
}

#[test]
fn first_seen_and_chain_then_reorg() {
    let mut store = Store::new_memory().unwrap();
    let (t1, id1) = sample_tx(1000);
    let mut c = empty_changeset();
    c.tx_graph.txs = vec![t1.clone()];
    c.tx_graph.first_seen = vec![(id1, 1000)];
    c.local_chain.blocks = vec![(100, Some(hash(0xaa)))];
    store.write_changeset(&c).unwrap();

    let snap = store.read_changeset().unwrap();
    assert_eq!(snap.tx_graph.txs, vec![t1]);
    assert_eq!(snap.tx_graph.first_seen.len(), 1);
    assert_eq!(snap.tx_graph.first_seen[0].0.bytes, id1.bytes);
    assert_eq!(snap.tx_graph.first_seen[0].1, 1000);
    assert_eq!(snap.local_chain.blocks.len(), 1);
    assert_eq!(snap.local_chain.blocks[0].0, 100);
    assert_eq!(snap.local_chain.blocks[0].1.unwrap().bytes, [0xaa; 32]);

    let mut retract = empty_changeset();
    retract.local_chain.blocks = vec![(100, None)];
    store.write_changeset(&retract).unwrap();
    let snap = store.read_changeset().unwrap();
    assert!(snap.local_chain.blocks.is_empty());
    assert_eq!(snap.tx_graph.txs.len(), 1);
}

#[test]
fn anchor_written_twice_keeps_first_time() {
    let mut store = Store::new_memory().unwrap();
    let (_, id1) = sample_tx(1000);
    let mut g = empty_graph();
    g.anchors = vec![(anchor_key(id1), 500)];
    store.write_tx_graph(&g).unwrap();
    g.anchors = vec![(anchor_key(id1), 999)];
    store.write_tx_graph(&g).unwrap();
    let snap = store.read_tx_graph().unwrap();
    assert_eq!(snap.anchors.len(), 1);
    assert_eq!(snap.anchors[0].0.height, 5);
    assert_eq!(snap.anchors[0].0.hash.bytes, [0xbb; 32]);
    assert_eq!(snap.anchors[0].0.txid.bytes, id1.bytes);
    assert_eq!(snap.anchors[0].1, 500);
}

#[test]
fn same_anchor_twice_is_one_row() {
    let mut store = Store::new_memory().unwrap();
    let (_, id1) = sample_tx(1000);
    let mut g = empty_graph();
    g.anchors = vec![(anchor_key(id1), 500)];
    store.write_tx_graph(&g).unwrap();
    store.write_tx_graph(&g).unwrap();
    let snap = store.read_tx_graph().unwrap();
    assert_eq!(snap.anchors.len(), 1);
    assert_eq!(snap.anchors[0].1, 500);
}

#[test]
fn cached_script_is_not_overwritten() {
    let mut store = Store::new_memory().unwrap();
    let key = SpkKey { descriptor_id: hash(7), index: 3 };
    let first = KeychainTxOutChangeSet { last_revealed: vec![], spk_cache: vec![(key, vec![1, 2, 3])] };
    store.write_keychain_txout(&first).unwrap();
    let second = KeychainTxOutChangeSet { last_revealed: vec![], spk_cache: vec![(key, vec![9])] };
    store.write_keychain_txout(&second).unwrap();
    let snap = store.read_keychain_txout().unwrap();
    assert_eq!(snap.spk_cache.len(), 1);
    assert_eq!(snap.spk_cache[0].1, vec![1, 2, 3]);
}

#[test]
fn last_revealed_is_overwritten() {
    let mut store = Store::new_memory().unwrap();
    let c = KeychainTxOutChangeSet { last_revealed: vec![(hash(7), 4)], spk_cache: vec![] };
    store.write_keychain_txout(&c).unwrap();
    let c = KeychainTxOutChangeSet { last_revealed: vec![(hash(7), 2)], spk_cache: vec![] };
    store.write_keychain_txout(&c).unwrap();
    let snap = store.read_keychain_txout().unwrap();
    assert_eq!(snap.last_revealed.len(), 1);
    assert_eq!(snap.last_revealed[0].1, 2);
}

#[test]
fn timestamps_are_last_write_wins() {
    let mut store = Store::new_memory().unwrap();
    let mut g = empty_graph();
    g.last_seen = vec![(hash(1), 2000)];
    store.write_tx_graph(&g).unwrap();
    g.last_seen = vec![(hash(1), 1500)];
    store.write_tx_graph(&g).unwrap();
    let snap = store.read_tx_graph().unwrap();
    assert_eq!(snap.last_seen.len(), 1);
    assert_eq!(snap.last_seen[0].1, 1500);
}

#[test]
fn writing_twice_gives_the_same_snapshot() {
    let mut store = Store::new_memory().unwrap();
    let (t1, id1) = sample_tx(1000);
    let mut c = empty_changeset();
    c.tx_graph.txs = vec![t1];
    c.tx_graph.first_seen = vec![(id1, 10)];
    c.tx_graph.last_evicted = vec![(id1, 20)];
    c.tx_graph.txouts = vec![(OutPoint { txid: id1, vout: 0 }, TxOut { value: 1000, script_pubkey: vec![0x51] })];
    c.indexer.last_revealed = vec![(hash(3), 9)];
    store.write_changeset(&c).unwrap();
    let once = store.read_changeset().unwrap();
    store.write_changeset(&c).unwrap();
    let twice = store.read_changeset().unwrap();
    assert_eq!(once.tx_graph.txs, twice.tx_graph.txs);
    assert_eq!(once.tx_graph.first_seen.len(), twice.tx_graph.first_seen.len());
    assert_eq!(once.tx_graph.first_seen[0].1, twice.tx_graph.first_seen[0].1);
    assert_eq!(once.tx_graph.last_evicted[0].1, 20);
    assert_eq!(twice.tx_graph.last_evicted[0].1, 20);
    assert_eq!(twice.tx_graph.txouts.len(), 1);
    assert_eq!(twice.tx_graph.txouts[0].1.value, 1000);
    assert_eq!(twice.tx_graph.txouts[0].1.script_pubkey, vec![0x51]);
    assert_eq!(twice.indexer.last_revealed.len(), 1);
    assert_eq!(twice.indexer.last_revealed[0].1, 9);
}

#[test]
fn output_value_beyond_column_is_rejected() {
    let mut store = Store::new_memory().unwrap();
    let mut g = empty_graph();
    g.first_seen = vec![(hash(2), 5)];
    g.txouts = vec![(OutPoint { txid: hash(2), vout: 1 }, TxOut { value: u64::MAX, script_pubkey: vec![] })];
    assert!(matches!(store.write_tx_graph(&g), Err(Error::FromInt)));
    let snap = store.read_tx_graph().unwrap();
    assert!(snap.txouts.is_empty());
    assert!(snap.first_seen.is_empty());
}

#[test]
fn timestamp_beyond_column_is_rejected() {
    let mut store = Store::new_memory().unwrap();
    let mut g = empty_graph();
    g.last_seen = vec![(hash(2), (i64::MAX as u64) + 1)];
    assert!(matches!(store.write_tx_graph(&g), Err(Error::FromInt)));
    g.last_seen = vec![(hash(2), i64::MAX as u64)];
    assert!(store.write_tx_graph(&g).is_ok());
}

#[test]
fn undecodable_transaction_is_rejected() {
    let mut store = Store::new_memory().unwrap();
    let mut c = empty_changeset();
    c.tx_graph.txs = vec![vec![1, 2, 3]];
    c.local_chain.blocks = vec![(1, Some(hash(1)))];
    assert!(matches!(store.write_changeset(&c), Err(Error::Decode)));
    let snap = store.read_changeset().unwrap();
    assert!(snap.local_chain.blocks.is_empty());
}

#[test]
fn transaction_is_stored_under_its_id() {
    let mut store = Store::new_memory().unwrap();
    let (t1, id1) = sample_tx(42);
    let mut g = empty_graph();
    g.txs = vec![t1.clone()];
    store.write_tx_graph(&g).unwrap();
    // the same transaction again under the same id stays one row
    store.write_tx_graph(&g).unwrap();
    let snap = store.read_tx_graph().unwrap();
    assert_eq!(snap.txs, vec![t1]);
    assert_ne!(id1.bytes, [0; 32]);
}

#[test]
fn network_is_checked_and_replaced() {
    let mut store = Store::new_memory().unwrap();
    assert!(matches!(store.write_network("mainnet".to_string()), Err(Error::ParseNetwork)));
    assert!(store.read_network().unwrap().is_none());
    store.write_network("signet".to_string()).unwrap();
    store.write_network("regtest".to_string()).unwrap();
    assert_eq!(store.read_network().unwrap(), Some("regtest".to_string()));
}

#[test]
fn descriptors_by_role() {
    let mut store = Store::new_memory().unwrap();
    assert!(matches!(
        store.write_keychain_descriptors(vec![(KeychainKind::External, "not a descriptor".to_string())]),
        Err(Error::Miniscript)
    ));
    store
        .write_keychain_descriptors(vec![(KeychainKind::Internal, DESCRIPTOR.to_string())])
        .unwrap();
    store
        .write_keychain_descriptors(vec![(KeychainKind::Internal, DESCRIPTOR.to_string())])
        .unwrap();
    let d = store.read_keychain_descriptors().unwrap();
    assert_eq!(d.len(), 1);
    assert_eq!(d[0].0, KeychainKind::Internal);
    let c = store.read_changeset().unwrap();
    assert!(c.descriptor.is_none());
    assert_eq!(c.change_descriptor, Some(DESCRIPTOR.to_string()));
}

#[test]
fn whole_changeset_round_trip() {
    let mut store = Store::new_memory().unwrap();
    let (t1, id1) = sample_tx(7);
    let mut c = empty_changeset();
    c.network = Some("testnet4".to_string());
    c.descriptor = Some(DESCRIPTOR.to_string());
    c.local_chain.blocks = vec![(1, Some(hash(1))), (2, Some(hash(2))), (3, None)];
    c.tx_graph.txs = vec![t1.clone()];
    c.tx_graph.anchors = vec![(anchor_key(id1), 77)];
    c.tx_graph.last_seen = vec![(id1, 88)];
    c.indexer.spk_cache = vec![(SpkKey { descriptor_id: hash(5), index: 0 }, vec![0x00, 0x14])];
    store.write_changeset(&c).unwrap();
    let s = store.read_changeset().unwrap();
    assert_eq!(s.network, Some("testnet4".to_string()));
    assert_eq!(s.descriptor, Some(DESCRIPTOR.to_string()));
    assert_eq!(s.local_chain.blocks.len(), 2);
    assert_eq!(s.tx_graph.txs, vec![t1]);
    assert_eq!(s.tx_graph.anchors[0].1, 77);
    assert_eq!(s.tx_graph.last_seen[0].1, 88);
    assert_eq!(s.indexer.spk_cache[0].1, vec![0x00, 0x14]);
}
