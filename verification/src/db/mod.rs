//! The state of the ledger: four tables of rows, each with the key that keeps
//! its rows apart.
//!
//! `accounts` is keyed by address, `transactions` by hash and `blocks` by id.
//! `merkle_nodes` is keyed by block, root and position, and is kept in the
//! order of block and position. The rows of `transactions` stand in the order
//! in which they came in.

pub mod accounts;
pub mod blocks;
pub mod merkle_tree;
pub mod transactions;

use crate::db::merkle_tree::stored_nodes;
use crate::models::error::MerkleTreeError;
use crate::models::merkle_tree::{node_from_bytes, rebuilt_tree, TreeView};
use crate::models::primitives::{zero_bytes, Address, Balance, Id, H256};
use crate::models::{text_digest, Block, Transaction, TransactionStatus};
use vstd::prelude::*;

verus! {

/// An account: its address, its balance and its nonce.
#[derive(Copy, Clone, Debug)]
pub struct AccountRow {
    pub address: Address,
    pub balance: Balance,
    pub nonce: u64,
}

/// What an account holds.
pub struct AccountState {
    pub balance: Balance,
    pub nonce: u64,
}

/// A transaction and, once it is confirmed, its position in its block.
#[derive(Copy, Clone, Debug)]
pub struct TransactionRow {
    pub tx: Transaction,
    pub index_in_block: Option<Id>,
}

impl TransactionRow {
    /// Whether the row is either pending, without a block and a position, or
    /// confirmed, with both.
    pub open spec fn settled(self) -> bool {
        match self.tx.status {
            TransactionStatus::Pending => self.tx.block_id is None && self.index_in_block is None,
            TransactionStatus::Confirmed => self.tx.block_id is Some && self.index_in_block is Some,
        }
    }

    /// Whether the row fits a chain of `height` blocks: its hash is the
    /// digest of its hash text, and its block, if it has one, is one of them.
    pub open spec fn belongs(self, height: nat) -> bool {
        &&& self.tx.hash@ == text_digest(self.tx.hash_text())
        &&& self.tx.block_id matches Some(block_id) ==> 1 <= block_id <= height
    }

    /// Whether the row waits in the mempool.
    pub open spec fn is_pending(self) -> bool {
        self.tx.status == TransactionStatus::Pending
    }
}

/// One serialized node of the Merkle tree of a block.
#[derive(Copy, Clone, Debug)]
pub struct MerkleNodeRow {
    pub block_id: Id,
    pub root: H256,
    pub index: u64,
    pub node: [u8; 33],
}

/// A row of the Merkle nodes as a value.
pub struct NodeRowView {
    pub block_id: Id,
    pub root: H256,
    pub index: u64,
    pub node: Seq<u8>,
}

impl View for MerkleNodeRow {
    type V = NodeRowView;

    open spec fn view(&self) -> NodeRowView {
        NodeRowView { block_id: self.block_id, root: self.root, index: self.index, node: self.node@ }
    }
}

/// The rows of the Merkle nodes as values.
pub open spec fn node_row_views(rows: Seq<MerkleNodeRow>) -> Seq<NodeRowView> {
    rows.map_values(|row: MerkleNodeRow| row@)
}

/// The four tables.
pub struct Ledger {
    pub accounts: Vec<AccountRow>,
    pub transactions: Vec<TransactionRow>,
    pub blocks: Vec<Block>,
    pub merkle_nodes: Vec<MerkleNodeRow>,
}

/// The accounts as a map from address to what the account holds.
pub open spec fn accounts_map(rows: Seq<AccountRow>) -> Map<Address, AccountState>
    decreases rows.len(),
{
    if rows.len() == 0 {
        Map::empty()
    } else {
        accounts_map(rows.drop_last()).insert(
            rows.last().address,
            AccountState { balance: rows.last().balance, nonce: rows.last().nonce },
        )
    }
}

/// Whether no two accounts have the same address.
pub open spec fn accounts_distinct(rows: Seq<AccountRow>) -> bool {
    forall|i: int, j: int|
        0 <= i < j < rows.len() ==> (#[trigger] rows[i]).address != (#[trigger] rows[j]).address
}

/// Whether no two transactions have the same hash, and each transaction is
/// either pending, without a block and a position, or confirmed, with both.
pub open spec fn transactions_distinct(rows: Seq<TransactionRow>) -> bool {
    &&& forall|i: int, j: int|
        0 <= i < j < rows.len() ==> (#[trigger] rows[i]).tx.hash != (#[trigger] rows[j]).tx.hash
    &&& forall|i: int| 0 <= i < rows.len() ==> (#[trigger] rows[i]).settled()
}

/// Whether no two blocks have the same id, and each block has its hash, its
/// nonce and its producer.
pub open spec fn blocks_distinct(rows: Seq<Block>) -> bool {
    &&& forall|i: int, j: int|
        0 <= i < j < rows.len() ==> (#[trigger] rows[i]).id != (#[trigger] rows[j]).id
    &&& forall|i: int|
        0 <= i < rows.len() ==> (#[trigger] rows[i]).hash is Some && rows[i].nonce is Some
            && rows[i].produced_by is Some
}

/// Whether the blocks are numbered from 1 without a gap, in order, and each
/// carries the hash of the block before it as its parent hash, the first one
/// the zero hash.
pub open spec fn blocks_chained(blocks: Seq<Block>) -> bool {
    &&& forall|i: int| 0 <= i < blocks.len() ==> (#[trigger] blocks[i]).id == i + 1
    &&& blocks.len() > 0 ==> blocks[0].parent_hash@ == zero_bytes(32)
    &&& forall|i: int, j: int|
        0 <= i && j == i + 1 && j < blocks.len() ==> Some((#[trigger] blocks[j]).parent_hash)
            == (#[trigger] blocks[i]).hash
}

/// In a chain, the block numbered `k` stands at place `k - 1`, and from the
/// second block on its parent hash is the hash of the block numbered `k - 1`.
pub proof fn lemma_parent_hash_chain(ledger: Ledger, k: int)
    requires
        ledger.valid(),
        1 < k <= ledger@.blocks.len(),
    ensures
        ledger@.blocks[k - 1].id == k,
        ledger@.blocks[k - 2].id == k - 1,
        Some(ledger@.blocks[k - 1].parent_hash) == ledger@.blocks[k - 2].hash,
{
}

/// Whether the row `a` stands before the row `b` in the order of block and
/// position, or at the same place.
pub open spec fn node_row_le(a: NodeRowView, b: NodeRowView) -> bool {
    a.block_id < b.block_id || (a.block_id == b.block_id && a.index <= b.index)
}

/// Whether the rows of Merkle nodes are in the order of block and position,
/// no two of them have the same block, root and position, and each holds the
/// bytes of a node.
pub open spec fn node_rows_ordered(rows: Seq<NodeRowView>) -> bool {
    &&& forall|i: int, j: int|
        0 <= i < j < rows.len() ==> node_row_le(#[trigger] rows[i], #[trigger] rows[j])
    &&& forall|i: int, j: int|
        0 <= i < j < rows.len() ==> !((#[trigger] rows[i]).block_id == (#[trigger] rows[j]).block_id
            && rows[i].root == rows[j].root && rows[i].index == rows[j].index)
    &&& forall|i: int| 0 <= i < rows.len() ==> node_from_bytes((#[trigger] rows[i]).node) is Ok
}

/// The tree that the nodes stored for a block form.
pub open spec fn tree_of(rows: Seq<NodeRowView>, block_id: Id) -> Result<TreeView, MerkleTreeError> {
    rebuilt_tree(stored_nodes(rows, block_id))
}

/// Whether the nodes stored for the block form a tree whose root is the
/// Merkle root of the block.
pub open spec fn roots_tree(rows: Seq<NodeRowView>, block: Block) -> bool {
    tree_of(rows, block.id) matches Ok(tree) && tree.root == Some(block.merkle_root@)
}

/// Whether the hash of the transaction, if it is confirmed, is the leaf of
/// the tree of its block at the transaction's position.
pub open spec fn holds_leaf(rows: Seq<NodeRowView>, row: TransactionRow) -> bool {
    row.tx.status == TransactionStatus::Confirmed ==> (tree_of(rows, row.tx.block_id.unwrap())
        matches Ok(tree) && row.index_in_block.unwrap() < tree.size
        && tree.leaves[row.index_in_block.unwrap() as int] == row.tx.hash@)
}

/// The ledger as a value.
pub struct LedgerView {
    pub accounts: Map<Address, AccountState>,
    pub transactions: Seq<TransactionRow>,
    pub blocks: Seq<Block>,
    pub merkle_nodes: Seq<NodeRowView>,
}

impl LedgerView {
    /// The balance of an account: 0 where the account does not exist yet.
    pub open spec fn balance_of(self, address: Address) -> Balance {
        if self.accounts.dom().contains(address) {
            self.accounts[address].balance
        } else {
            0
        }
    }

    /// The nonce of an account: 0 where the account does not exist yet.
    pub open spec fn nonce_of(self, address: Address) -> u64 {
        if self.accounts.dom().contains(address) {
            self.accounts[address].nonce
        } else {
            0
        }
    }

    /// The accounts after `address` has been made to exist.
    pub open spec fn with_account(self, address: Address) -> LedgerView {
        if self.accounts.dom().contains(address) {
            self
        } else {
            LedgerView {
                accounts: self.accounts.insert(address, AccountState { balance: 0, nonce: 0 }),
                ..self
            }
        }
    }
}

/// Making an account exist a second time changes nothing.
pub proof fn lemma_with_account_again(ledger: LedgerView, address: Address)
    ensures
        ledger.with_account(address).with_account(address) == ledger.with_account(address),
        ledger.with_account(address).accounts.dom().contains(address),
        ledger.with_account(address).balance_of(address) == ledger.balance_of(address),
        ledger.with_account(address).nonce_of(address) == ledger.nonce_of(address),
{
}

impl View for Ledger {
    type V = LedgerView;

    open spec fn view(&self) -> LedgerView {
        LedgerView {
            accounts: accounts_map(self.accounts@),
            transactions: self.transactions@,
            blocks: self.blocks@,
            merkle_nodes: node_row_views(self.merkle_nodes@),
        }
    }
}

impl Ledger {
    /// Whether every table keeps its key.
    pub open spec fn wf(&self) -> bool {
        &&& accounts_distinct(self.accounts@)
        &&& transactions_distinct(self.transactions@)
        &&& blocks_distinct(self.blocks@)
        &&& node_rows_ordered(self@.merkle_nodes)
    }

    /// Whether the ledger is a chain: every table keeps its key; the blocks
    /// are numbered from 1 without a gap, in order, and each carries the hash
    /// of the block before it as its parent hash, the first one the zero hash;
    /// the hash of every transaction is the digest of its hash text; every
    /// confirmed transaction and every Merkle node belongs to a block that is
    /// stored; the nodes stored for each block form a tree whose root is the
    /// Merkle root of the block; and the hash of every confirmed transaction
    /// is the leaf of the tree of its block at the transaction's position.
    pub open spec fn valid(&self) -> bool {
        &&& self.wf()
        &&& blocks_chained(self.blocks@)
        &&& forall|i: int|
            0 <= i < self.transactions@.len() ==> (#[trigger] self.transactions@[i]).belongs(
                self.blocks@.len(),
            )
        &&& forall|i: int|
            0 <= i < self@.merkle_nodes.len() ==> 1 <= (#[trigger] self@.merkle_nodes[i]).block_id
                <= self.blocks@.len()
        &&& forall|i: int|
            0 <= i < self.blocks@.len() ==> roots_tree(
                self@.merkle_nodes,
                #[trigger] self.blocks@[i],
            )
        &&& forall|i: int|
            0 <= i < self.transactions@.len() ==> holds_leaf(
                self@.merkle_nodes,
                #[trigger] self.transactions@[i],
            )
    }

    /// The empty ledger.
    pub fn new() -> (ledger: Self)
        ensures
            ledger.valid(),
            ledger@.accounts == Map::<Address, AccountState>::empty(),
            ledger@.transactions.len() == 0,
            ledger@.blocks.len() == 0,
            ledger@.merkle_nodes.len() == 0,
    {
        Ledger {
            accounts: Vec::new(),
            transactions: Vec::new(),
            blocks: Vec::new(),
            merkle_nodes: Vec::new(),
        }
    }
}

/// An address that no row has is not in the map.
pub proof fn lemma_accounts_map_absent(rows: Seq<AccountRow>, address: Address)
    requires
        forall|i: int| 0 <= i < rows.len() ==> (#[trigger] rows[i]).address != address,
    ensures
        !accounts_map(rows).dom().contains(address),
    decreases rows.len(),
{
    if rows.len() > 0 {
        lemma_accounts_map_absent(rows.drop_last(), address);
    }
}

/// The map holds for the address of each row what that row holds.
pub proof fn lemma_accounts_map_row(rows: Seq<AccountRow>, i: int)
    requires
        accounts_distinct(rows),
        0 <= i < rows.len(),
    ensures
        accounts_map(rows).dom().contains(rows[i].address),
        accounts_map(rows)[rows[i].address] == (AccountState {
            balance: rows[i].balance,
            nonce: rows[i].nonce,
        }),
    decreases rows.len(),
{
    if i < rows.len() - 1 {
        lemma_accounts_map_row(rows.drop_last(), i);
    }
}

/// Changing what one row holds changes the map at that row's address only.
pub proof fn lemma_accounts_map_update(rows: Seq<AccountRow>, i: int, row: AccountRow)
    requires
        accounts_distinct(rows),
        0 <= i < rows.len(),
        row.address == rows[i].address,
    ensures
        accounts_distinct(rows.update(i, row)),
        accounts_map(rows.update(i, row)) == accounts_map(rows).insert(
            row.address,
            AccountState { balance: row.balance, nonce: row.nonce },
        ),
    decreases rows.len(),
{
    let changed = rows.update(i, row);
    if i < rows.len() - 1 {
        lemma_accounts_map_update(rows.drop_last(), i, row);
        assert(changed.drop_last() =~= rows.drop_last().update(i, row));
    } else {
        assert(changed.drop_last() =~= rows.drop_last());
    }
}

/// A new row for a new address adds that address to the map.
pub proof fn lemma_accounts_map_push(rows: Seq<AccountRow>, row: AccountRow)
    requires
        accounts_distinct(rows),
        forall|i: int| 0 <= i < rows.len() ==> (#[trigger] rows[i]).address != row.address,
    ensures
        accounts_distinct(rows.push(row)),
        accounts_map(rows.push(row)) == accounts_map(rows).insert(
            row.address,
            AccountState { balance: row.balance, nonce: row.nonce },
        ),
{
    assert(rows.push(row).drop_last() =~= rows);
}

} // verus!
