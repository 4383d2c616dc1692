//! Persistence of a wallet's change sets as relational rows: a verified in-memory store
//! with upsert, insert-if-absent and delete semantics per relation, and the codec between
//! change sets and the rows of a relational database.

mod changeset;
mod codec;
mod laws;
mod rows;
mod store;
mod table;
mod types;

pub use changeset::{ChangeSet, KeychainTxOutChangeSet, LocalChainChangeSet, TxGraphChangeSet};
pub use laws::{lemma_round_trip, lemma_stored_anchor_kept, lemma_unknown_height_removed, lemma_write_twice};
pub use rows::{
    decode_block_row, descriptor_for, descriptor_rows, descriptors_from_rows,
    keychain_txout_from_rows, keychain_txout_rows, local_chain_from_rows, local_chain_rows,
    network_from_row, tx_graph_from_rows, tx_graph_rows, AnchorRow, BlockRow, KeychainRow,
    LastRevealedRow, SpkRow, TxGraphRows, TxOutRow, TxRow,
};
pub use store::{Store, StoreView};
pub use table::{RowKey, RowValue, Table};
pub use types::{AnchorKey, Error, Hash32, KeychainKind, OutPoint, SpkKey, TxOut};
