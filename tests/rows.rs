use bdk_chain::bitcoin::absolute::LockTime;
use bdk_chain::bitcoin::consensus;
use bdk_chain::bitcoin::transaction::Version;
use bdk_chain::bitcoin::{Amount, ScriptBuf, Transaction, TxIn, TxOut as BtcTxOut};
use bdk_sqlx::{
    descriptor_for, descriptor_rows, descriptors_from_rows, keychain_txout_from_rows,
    keychain_txout_rows, local_chain_from_rows, local_chain_rows, network_from_row,
    tx_graph_from_rows, tx_graph_rows, AnchorKey, AnchorRow, BlockRow, Error, Hash32,
    KeychainKind, KeychainRow, KeychainTxOutChangeSet, LastRevealedRow, LocalChainChangeSet,
    OutPoint, SpkKey, SpkRow, TxGraphChangeSet, TxOut, TxOutRow, TxRow,
};

const DESCRIPTOR: &str = "wpkh(0279be667ef9dcbbac55a06295ce870b07029bfcdb2dce28d959f2815b16f81798)";

fn sample_tx() -> (Vec<u8>, Transaction) {
    let tx = Transaction {
        version: Version::TWO,
        lock_time: LockTime::ZERO,
        input: vec![TxIn::default()],
        output: vec![BtcTxOut { value: Amount::from_sat(5000), script_pubkey: ScriptBuf::new() }],
    };
    (consensus::encode::serialize(&tx), tx)
}

fn counting() -> Hash32 {
    let mut bytes = [0u8; 32];
    for (i, b) in bytes.iter_mut().enumerate() {
        *b = i as u8;
    }
    Hash32 { bytes }
}

fn graph() -> TxGraphChangeSet {
    TxGraphChangeSet {
        txs: vec![],
        txouts: vec![],
        anchors: vec![],
        first_seen: vec![],
        last_seen: vec![],
        last_evicted: vec![],
    }
}

#[test]
fn txid_text_is_reversed_hex() {
    let mut g = graph();
    g.first_seen = vec![(counting(), 12)];
    let rows = tx_graph_rows(&g).unwrap();
    assert_eq!(rows.first_seen.len(), 1);
    assert!(rows.first_seen[0].0.starts_with("1f1e1d"));
    assert!(rows.first_seen[0].0.ends_with("020100"));
    assert_eq!(rows.first_seen[0].1, 12);
}

#[test]
fn transaction_row_carries_computed_id() {
    let (bytes, tx) = sample_tx();
    let mut g = graph();
    g.txs = vec![bytes.clone()];
    let rows = tx_graph_rows(&g).unwrap();
    assert_eq!(rows.txs[0].0, tx.compute_txid().to_string());
    assert_eq!(rows.txs[0].1, bytes);
}

#[test]
fn graph_rows_decode_back() {
    let (bytes, tx) = sample_tx();
    let id = tx.compute_txid().to_string();
    let tx_rows = vec![TxRow {
        txid: id.clone(),
        tx: Some(bytes.clone()),
        first_seen: Some(1000),
        last_seen: None,
        last_evicted: Some(3),
    }];
    let out_rows = vec![TxOutRow { txid: id.clone(), vout: 0, value: 5000, script: vec![0x51] }];
    let anchor_rows = vec![AnchorRow {
        block_height: 5,
        block_hash: "00000000000000000000000000000000000000000000000000000000000000bb".to_string(),
        txid: id.clone(),
        confirmation_time: 500,
    }];
    let g = tx_graph_from_rows(&tx_rows, &out_rows, &anchor_rows).unwrap();
    assert_eq!(g.txs, vec![bytes]);
    assert_eq!(g.first_seen.len(), 1);
    assert_eq!(g.first_seen[0].1, 1000);
    assert!(g.last_seen.is_empty());
    assert_eq!(g.last_evicted[0].1, 3);
    assert_eq!(g.txouts[0].0.vout, 0);
    assert_eq!(g.txouts[0].1.value, 5000);
    assert_eq!(g.anchors[0].0.height, 5);
    assert_eq!(g.anchors[0].0.hash.bytes[0], 0xbb);
    assert_eq!(g.anchors[0].1, 500);

    let again = tx_graph_rows(&g).unwrap();
    assert_eq!(again.txs[0].0, id);
    assert_eq!(again.anchors[0].block_hash, anchor_rows[0].block_hash);
    assert_eq!(again.txouts[0].txid, id);
}

#[test]
fn negative_value_is_a_range_error() {
    let (_, tx) = sample_tx();
    let out_rows = vec![TxOutRow { txid: tx.compute_txid().to_string(), vout: 0, value: -1, script: vec![] }];
    assert!(matches!(tx_graph_from_rows(&vec![], &out_rows, &vec![]), Err(Error::FromInt)));
}

#[test]
fn negative_timestamp_is_a_range_error() {
    let (_, tx) = sample_tx();
    let rows = vec![TxRow {
        txid: tx.compute_txid().to_string(),
        tx: None,
        first_seen: None,
        last_seen: Some(-5),
        last_evicted: None,
    }];
    assert!(matches!(tx_graph_from_rows(&rows, &vec![], &vec![]), Err(Error::FromInt)));
}

#[test]
fn malformed_identifier_is_rejected() {
    let rows = vec![TxRow { txid: "xyz".to_string(), tx: None, first_seen: None, last_seen: None, last_evicted: None }];
    assert!(matches!(tx_graph_from_rows(&rows, &vec![], &vec![]), Err(Error::HexToArray)));
    let blocks = vec![BlockRow { height: 1, hash: "00".to_string() }];
    assert!(matches!(local_chain_from_rows(&blocks), Err(Error::HexToArray)));
}

#[test]
fn malformed_transaction_is_rejected() {
    let (_, tx) = sample_tx();
    let rows = vec![TxRow {
        txid: tx.compute_txid().to_string(),
        tx: Some(vec![0xff, 0x00]),
        first_seen: None,
        last_seen: None,
        last_evicted: None,
    }];
    assert!(matches!(tx_graph_from_rows(&rows, &vec![], &vec![]), Err(Error::Decode)));
}

#[test]
fn encode_rejects_out_of_range_times() {
    let mut g = graph();
    g.anchors = vec![(AnchorKey { height: 1, hash: counting(), txid: counting() }, u64::MAX)];
    assert!(matches!(tx_graph_rows(&g), Err(Error::FromInt)));
    let mut g = graph();
    g.txs = vec![vec![1, 2, 3]];
    assert!(matches!(tx_graph_rows(&g), Err(Error::Decode)));
}

#[test]
fn chain_rows_both_ways() {
    let c = LocalChainChangeSet { blocks: vec![(100, Some(counting())), (101, None)] };
    let rows = local_chain_rows(&c);
    assert_eq!(rows.len(), 2);
    assert_eq!(rows[0].0, 100);
    assert!(rows[0].1.as_ref().unwrap().starts_with("1f1e"));
    assert_eq!(rows[1], (101, None));
    let back = local_chain_from_rows(&vec![BlockRow { height: 100, hash: rows[0].1.clone().unwrap() }]).unwrap();
    assert_eq!(back.blocks.len(), 1);
    assert_eq!(back.blocks[0].1.unwrap().bytes, counting().bytes);
    let bad = vec![BlockRow { height: -1, hash: rows[0].1.clone().unwrap() }];
    assert!(matches!(local_chain_from_rows(&bad), Err(Error::FromInt)));
}

#[test]
fn descriptor_id_text_is_forward_hex() {
    let c = KeychainTxOutChangeSet {
        last_revealed: vec![(counting(), 7)],
        spk_cache: vec![(SpkKey { descriptor_id: counting(), index: 2 }, vec![0x00, 0x14])],
    };
    let (last, spks) = keychain_txout_rows(&c);
    assert!(last[0].descriptor_id.starts_with("000102"));
    assert_eq!(last[0].last_revealed, 7);
    assert_eq!(spks[0].derivation_index, 2);
    let back = keychain_txout_from_rows(&last, &spks).unwrap();
    assert_eq!(back.last_revealed[0].0.bytes, counting().bytes);
    assert_eq!(back.last_revealed[0].1, 7);
    assert_eq!(back.spk_cache[0].0.index, 2);
    assert_eq!(back.spk_cache[0].1, vec![0x00, 0x14]);
    let bad = vec![LastRevealedRow { descriptor_id: last[0].descriptor_id.clone(), last_revealed: -3 }];
    assert!(matches!(keychain_txout_from_rows(&bad, &vec![]), Err(Error::FromInt)));
    let bad = vec![SpkRow { descriptor_id: "zz".to_string(), derivation_index: 0, script: vec![] }];
    assert!(matches!(keychain_txout_from_rows(&vec![], &bad), Err(Error::HexToArray)));
}

#[test]
fn keychain_rows_both_ways() {
    let d = vec![(KeychainKind::Internal, DESCRIPTOR.to_string())];
    let rows = descriptor_rows(&d).unwrap();
    assert_eq!(rows[0].keychain, 1);
    let back = descriptors_from_rows(&rows).unwrap();
    assert_eq!(back[0].0, KeychainKind::Internal);
    assert_eq!(descriptor_for(&back, KeychainKind::Internal), Some(DESCRIPTOR.to_string()));
    assert_eq!(descriptor_for(&back, KeychainKind::External), None);
    let unknown = vec![KeychainRow { keychain: 2, descriptor: DESCRIPTOR.to_string() }];
    assert!(matches!(descriptors_from_rows(&unknown), Err(Error::UnknownKeychain)));
    let bad = vec![KeychainRow { keychain: 0, descriptor: "wpkh(nonsense)".to_string() }];
    assert!(matches!(descriptors_from_rows(&bad), Err(Error::Miniscript)));
    assert!(matches!(descriptor_rows(&vec![(KeychainKind::External, "x".to_string())]), Err(Error::Miniscript)));
}

#[test]
fn network_names() {
    assert_eq!(network_from_row(Some("bitcoin".to_string())).unwrap(), Some("bitcoin".to_string()));
    assert_eq!(network_from_row(None).unwrap(), None);
    assert!(matches!(network_from_row(Some("main".to_string())), Err(Error::ParseNetwork)));
}

#[test]
fn output_rows_carry_values() {
    let mut g = graph();
    g.txouts = vec![(OutPoint { txid: counting(), vout: 3 }, TxOut { value: 21, script_pubkey: vec![0x6a] })];
    let rows = tx_graph_rows(&g).unwrap();
    assert_eq!(rows.txouts[0].vout, 3);
    assert_eq!(rows.txouts[0].value, 21);
    assert_eq!(rows.txouts[0].script, vec![0x6a]);
    assert!(rows.txouts[0].txid.starts_with("1f1e"));
}
