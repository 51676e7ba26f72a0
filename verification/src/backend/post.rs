//! The requests that change the ledger: taking a transfer into the mempool,
//! mining a block, and setting a balance or the difficulty by hand.

use crate::backend::NodeData;
use crate::crypto::sig::verify_outcome;
use crate::db::accounts::{current_balance, get_nonce, update_balance};
use crate::db::blocks::{add_block, get_latest_block, lemma_latest_is_last};
use crate::db::merkle_tree::{
    add_merkle_tree, lemma_stored_nodes_of_others, lemma_tree_of_added_rows,
    lemma_tree_rows_of_next_block, tree_rows,
};
use crate::db::transactions::{
    add_pending_transaction, add_transactions_to_block, confirm_rows, confirmed_row, first_n,
    get_pending_transactions, lemma_confirm_oldest_pending, lemma_pending_rows_members,
    pending_rows, pending_transactions, row_transactions, transaction_hashes,
};
use crate::db::{holds_leaf, roots_tree, tree_of, AccountState, Ledger, LedgerView, TransactionRow};
use crate::encoding::{hex_bytes, is_hex_text, parse_decimal, parsed_decimal};
use crate::models::api::{ApiMint, ApiTransfer, MineInfo, NodeMode};
use crate::models::config::Config;
use crate::models::error::{failure, ErrorView, MerkleTreeError, ServerError};
use crate::models::merkle_tree::{
    hash_views, layered_nodes, lemma_node_bytes_round_trip, node_bytes, node_from_bytes,
    node_views, padded_leaves, MerkleTree, NodeView, TreeView,
};
use crate::models::primitives::{
    leading_zero_bytes, zero_bytes, Address, Balance, Id, Signature, H256,
};
use crate::models::{
    block_text, mine_text, text_digest, transfer_text, Block, Transaction, TransactionStatus,
};
use vstd::prelude::*;

verus! {

/// The digest of the hash text of the transfer that a request asks for, with
/// the nonce of the sender's account.
pub open spec fn transfer_digest(before: LedgerView, info: ApiTransfer) -> Seq<u8> {
    text_digest(transfer_text(info.from@, info.to@, info.amount, before.nonce_of(info.from)))
}

/// Why no transaction can be framed for the transfer of a request, if there
/// is a reason: the signature is not 128 hexadecimal digits, or the sender's
/// signature over the hash of the transfer is refused.
pub open spec fn transfer_fault(info: ApiTransfer, nonce: u64) -> Option<ErrorView> {
    if !(is_hex_text(info.signature@) && info.signature@.len() == 128) {
        Some(failure(400, "Invalid signature"@))
    } else {
        match verify_outcome(
            info.from@,
            hex_bytes(info.signature@),
            text_digest(transfer_text(info.from@, info.to@, info.amount, nonce)),
        ) {
            Err(e) => Some(failure(400, "Crypto error: "@ + e.name_text())),
            Ok(_) => None,
        }
    }
}

/// Frames the transaction for the transfer of a request, with the given
/// nonce of the sender's account: pending, in no block, with the digest of
/// its hash text as its hash. The sender must have signed that hash. The
/// nonce of the request is not looked at.
pub fn frame_transfer(transfer_info: &ApiTransfer, nonce: u64) -> (framed: Result<
    Transaction,
    ServerError,
>)
    ensures
        match transfer_fault(*transfer_info, nonce) {
            Some(fault) => framed matches Err(e) && e@ == fault,
            None => framed matches Ok(tx) && tx.hash@ == text_digest(tx.hash_text()) && tx.from
                == transfer_info.from && tx.to == transfer_info.to && tx.amount
                == transfer_info.amount && tx.nonce == nonce && tx.block_id is None && tx.status
                == TransactionStatus::Pending,
        },
{
    let mut tx = Transaction {
        hash: H256::zero(),
        from: transfer_info.from,
        to: transfer_info.to,
        amount: transfer_info.amount,
        block_id: None,
        nonce,
        status: TransactionStatus::Pending,
    };
    let signature = match Signature::parse_hex(transfer_info.signature.as_str()) {
        Some(signature) => signature,
        None => {
            return Err(ServerError::with_text(400, "Invalid signature"));
        },
    };
    match tx.verify_signature(signature) {
        Ok(()) => {},
        Err(e) => {
            return Err(ServerError::from(e));
        },
    }
    tx.hash = tx.hash();
    Ok(tx)
}

/// Why a transfer is turned down, if there is a reason: no transaction can
/// be framed for it, see [`transfer_fault`], or a transaction with its hash
/// is stored already.
pub open spec fn transfer_refusal(before: LedgerView, info: ApiTransfer) -> Option<ErrorView> {
    match transfer_fault(info, before.nonce_of(info.from)) {
        Some(fault) => Some(fault),
        None => if exists|i: int|
            0 <= i < before.transactions.len() && (#[trigger] before.transactions[i]).tx.hash@
                == transfer_digest(before, info) {
            Some(failure(500, "Failed adding transaction: duplicate hash"@))
        } else {
            None
        },
    }
}

/// Whether `after` is the ledger `before` with the transfer of a request in
/// the mempool, behind all other transactions: pending, in no block, with the
/// nonce of the sender's account and the digest of its hash text as its hash.
pub open spec fn transferred(before: LedgerView, after: LedgerView, info: ApiTransfer) -> bool {
    let row = after.transactions.last();
    &&& after == LedgerView { transactions: after.transactions, ..before }
    &&& after.transactions.len() == before.transactions.len() + 1
    &&& after.transactions.subrange(0, before.transactions.len() as int) == before.transactions
    &&& row.tx.hash@ == transfer_digest(before, info)
    &&& row.tx.from == info.from
    &&& row.tx.to == info.to
    &&& row.tx.amount == info.amount
    &&& row.tx.nonce == before.nonce_of(info.from)
    &&& row.tx.block_id is None
    &&& row.tx.status == TransactionStatus::Pending
    &&& row.index_in_block is None
}

/// Takes a transfer into the mempool. The sender's account exists
/// afterwards, whether the transfer is taken or not. The transfer gets the
/// nonce of the sender's account, the nonce of the request is not looked at.
/// The sender must have signed the hash of the transfer.
pub fn transfer(data: &mut NodeData, transfer_info: &ApiTransfer) -> (done: Result<(), ServerError>)
    requires
        old(data).valid(),
    ensures
        final(data).valid(),
        final(data).config == old(data).config,
        match transfer_refusal(old(data).ledger@, *transfer_info) {
            Some(refusal) => done matches Err(e) && e@ == refusal && final(data).ledger@ == old(
                data,
            ).ledger@.with_account(transfer_info.from),
            None => done is Ok && transferred(
                old(data).ledger@.with_account(transfer_info.from),
                final(data).ledger@,
                *transfer_info,
            ),
        },
{
    let ghost before = data.ledger@;
    let nonce = match get_nonce(&mut data.ledger, transfer_info.from) {
        Ok(nonce) => nonce,
        Err(_) => vstd::pervasive::unreached(),
    };
    let ghost known = data.ledger@;
    assert(known.transactions == before.transactions);
    assert(known.nonce_of(transfer_info.from) == before.nonce_of(transfer_info.from));
    let tx = match frame_transfer(transfer_info, nonce) {
        Ok(tx) => tx,
        Err(e) => {
            return Err(e);
        },
    };
    proof {
        assert forall|i: int| 0 <= i < known.transactions.len() implies ((
        #[trigger] known.transactions[i]).tx.hash@ == tx.hash@) == (known.transactions[i].tx.hash
            == tx.hash) by {
            known.transactions[i].tx.hash.lemma_eq(tx.hash);
        }
    }
    match add_pending_transaction(&mut data.ledger, tx) {
        Ok(()) => {
            assert(data.ledger@.transactions.subrange(0, known.transactions.len() as int)
                =~= known.transactions);
            Ok(())
        },
        Err(e) => Err(e),
    }
}

/// The computed hashes of the transactions: for each the digest of its hash
/// text.
pub open spec fn transaction_digests(txs: Seq<Transaction>) -> Seq<Seq<u8>> {
    txs.map_values(|tx: Transaction| text_digest(tx.hash_text()))
}

/// The root of the tree of the given size over the computed hashes of the
/// transactions.
pub open spec fn batch_root(txs: Seq<Transaction>, size: nat) -> Seq<u8> {
    layered_nodes(padded_leaves(transaction_digests(txs), size)).last().hash
}

/// The hash of the block that packs the transactions behind the latest
/// block, of which `latest` holds the id and the hash.
pub open spec fn next_block_hash(
    config: Config,
    nonce: u64,
    txs: Seq<Transaction>,
    latest: (Id, Seq<u8>),
) -> Seq<u8> {
    text_digest(
        block_text(
            (latest.0 + 1) as Id,
            latest.1,
            batch_root(txs, config.merkle_tree_size as nat),
            Some(nonce),
        ),
    )
}

/// The digest that the miner of that block signs.
pub open spec fn next_block_claim(
    config: Config,
    miner: Address,
    nonce: u64,
    txs: Seq<Transaction>,
    latest: (Id, Seq<u8>),
) -> Seq<u8> {
    text_digest(
        mine_text(miner@, latest.1, batch_root(txs, config.merkle_tree_size as nat), Some(nonce)),
    )
}

/// Why no block can be framed from the transactions `txs` behind the block
/// `latest`, if there is a reason. In this order: there are no transactions;
/// they are more than the tree has room for; the id of the block cannot be
/// written; and, in a full node only, the miner's signature over the claim is
/// refused, or the hash of the block starts with fewer zero bytes than the
/// target asks for.
pub open spec fn frame_refusal(
    config: Config,
    miner: Address,
    nonce: u64,
    signature: Seq<u8>,
    txs: Seq<Transaction>,
    latest: (Id, Seq<u8>),
) -> Option<ErrorView> {
    if txs.len() == 0 {
        Some(failure(400, "No transactions to mine"@))
    } else if txs.len() > config.merkle_tree_size {
        Some(
            failure(
                400,
                "MerkleTreeError: "@ + MerkleTreeError::LeavesAmountGreaterThanTreeSize.name_text(),
            ),
        )
    } else if latest.0 == u64::MAX {
        Some(failure(500, "Failed adding block: no id left"@))
    } else if config.node_mode == NodeMode::Full {
        match verify_outcome(miner@, signature, next_block_claim(config, miner, nonce, txs, latest)) {
            Err(e) => Some(failure(400, "Crypto error: "@ + e.name_text())),
            Ok(_) => if leading_zero_bytes(next_block_hash(config, nonce, txs, latest))
                < config.target {
                Some(failure(400, "Block does not meet target"@))
            } else {
                None
            },
        }
    } else {
        None
    }
}

/// A block that is ready to be stored: the block with its hash, the tree
/// over its transactions, and the computed hashes of the transactions.
pub struct FramedBlock {
    pub block: Block,
    pub tree: MerkleTree,
    pub tx_hashes: Vec<H256>,
}

impl FramedBlock {
    /// The parent hash of the block.
    pub open spec fn parent_hash(&self) -> H256 {
        self.block.parent_hash
    }

    /// Whether this is the block that packs the transactions `txs` for the
    /// miner behind the latest block, of which `latest` holds the id and the
    /// hash.
    pub open spec fn frames(
        &self,
        config: Config,
        miner: Address,
        nonce: u64,
        txs: Seq<Transaction>,
        latest: (Id, Seq<u8>),
    ) -> bool {
        &&& self.block.id == latest.0 + 1
        &&& self.block.parent_hash@ == latest.1
        &&& self.block.merkle_root@ == batch_root(txs, config.merkle_tree_size as nat)
        &&& self.block.nonce == Some(nonce)
        &&& self.block.produced_by == Some(miner)
        &&& self.block.hash matches Some(hash) && hash@ == next_block_hash(
            config,
            nonce,
            txs,
            latest,
        )
        &&& self.tree.wf()
        &&& self.tree@ == TreeView::over(
            padded_leaves(transaction_digests(txs), config.merkle_tree_size as nat),
        )
        &&& self.tree.root == Some(self.block.merkle_root)
        &&& hash_views(self.tx_hashes@) == transaction_digests(txs)
    }
}

/// Frames the block that follows the block with the id `latest_id` and the
/// hash `latest_hash` and packs the transactions `pending`, and decides
/// whether it may be stored: builds the tree over the computed hashes of the
/// transactions, with zero hashes for the leaves that are left, gives the
/// block the next id, the latest hash as its parent hash and the root of the
/// tree, and computes its hash. A full node then checks the miner's signature
/// over the claim of the block, and that the hash starts with at least
/// `target` zero bytes; a test node checks neither.
pub fn frame_block(
    config: &Config,
    miner: Address,
    nonce: u64,
    signature: Signature,
    pending: &Vec<Transaction>,
    latest_id: u64,
    latest_hash: H256,
) -> (framed: Result<FramedBlock, ServerError>)
    requires
        config.wf(),
    ensures
        match frame_refusal(*config, miner, nonce, signature@, pending@, (latest_id, latest_hash@)) {
            Some(refusal) => framed matches Err(e) && e@ == refusal,
            None => framed matches Ok(ready) && ready.parent_hash() == latest_hash && ready.frames(
                *config,
                miner,
                nonce,
                pending@,
                (latest_id, latest_hash@),
            ),
        },
{
    if pending.len() == 0 {
        return Err(ServerError::with_text(400, "No transactions to mine"));
    }
    let mut tree = MerkleTree::new(config.merkle_tree_size as usize);
    let mut tx_hashes: Vec<H256> = Vec::new();
    let mut leaves: Vec<H256> = Vec::new();
    let mut i: usize = 0;
    while i < pending.len()
        invariant
            i <= pending@.len(),
            tx_hashes@.len() == i,
            leaves@ == tx_hashes@,
            hash_views(tx_hashes@) == transaction_digests(pending@.subrange(0, i as int)),
        decreases pending@.len() - i,
    {
        let hash = pending[i].hash();
        let ghost before = tx_hashes@;
        tx_hashes.push(hash);
        leaves.push(hash);
        proof {
            assert(hash_views(tx_hashes@) =~= hash_views(before).push(hash@));
            assert(transaction_digests(pending@.subrange(0, i + 1)) =~= transaction_digests(
                pending@.subrange(0, i as int),
            ).push(hash@));
        }
        i += 1;
    }
    assert(pending@.subrange(0, i as int) =~= pending@);
    match tree.initialize(leaves) {
        Ok(()) => {},
        Err(e) => {
            return Err(ServerError::from(e));
        },
    }
    let root = match tree.root() {
        Some(root) => root,
        None => vstd::pervasive::unreached(),
    };
    if latest_id == u64::MAX {
        return Err(ServerError::with_text(500, "Failed adding block: no id left"));
    }
    let mut block = Block {
        id: latest_id + 1,
        hash: None,
        parent_hash: latest_hash,
        merkle_root: root,
        nonce: Some(nonce),
        produced_by: Some(miner),
    };
    let hash = block.compute_hash();
    match config.node_mode {
        NodeMode::Full => {
            match block.verify(signature) {
                Ok(()) => {},
                Err(e) => {
                    return Err(ServerError::from(e));
                },
            }
            if (hash.leading_zeros() as u64) < config.target {
                return Err(ServerError::with_text(400, "Block does not meet target"));
            }
        },
        NodeMode::Test => {},
    }
    Ok(FramedBlock { block, tree, tx_hashes })
}

/// A balance with the reward added, as it is written to the account store.
/// A sum that the store cannot hold is refused with status 500.
pub fn raised_balance(balance: Balance, reward: Balance) -> (raised: Result<i128, ServerError>)
    ensures
        balance + reward <= i128::MAX ==> raised == Ok::<i128, ServerError>(
            (balance + reward) as i128,
        ),
        balance + reward > i128::MAX ==> (raised matches Err(e) && e@ == failure(
            500,
            "Failed updating balance: balance too large"@,
        )),
{
    match balance.checked_add(reward) {
        Some(raised) => {
            if raised <= i128::MAX as u128 {
                Ok(raised as i128)
            } else {
                Err(ServerError::with_text(500, "Failed updating balance: balance too large"))
            }
        },
        None => Err(ServerError::with_text(500, "Failed updating balance: balance too large")),
    }
}

/// The id and the hash of the last block of a chain, or 0 and the zero hash
/// where there is no block.
pub open spec fn chain_tip(blocks: Seq<Block>) -> (Id, Seq<u8>) {
    if blocks.len() == 0 {
        (0, zero_bytes(32))
    } else {
        (blocks.last().id, blocks.last().hash.unwrap()@)
    }
}

/// The pending transactions that the next block packs: the oldest ones, up to
/// the size of a block.
pub open spec fn next_batch(before: LedgerView, config: Config) -> Seq<Transaction> {
    first_n(pending_transactions(before.transactions), config.block_size as nat)
}

/// Why a miner's claim is turned down, if there is a reason. In this order:
/// the signature is not 128 hexadecimal digits; no block can be framed from
/// the oldest pending transactions, see [`frame_refusal`]; the miner's
/// balance with the reward cannot be written.
pub open spec fn mine_refusal(before: LedgerView, config: Config, info: MineInfo) -> Option<ErrorView> {
    if !(is_hex_text(info.signature@) && info.signature@.len() == 128) {
        Some(failure(400, "Invalid signature"@))
    } else {
        match frame_refusal(
            config,
            info.miner,
            info.nonce,
            hex_bytes(info.signature@),
            next_batch(before, config),
            chain_tip(before.blocks),
        ) {
            Some(refusal) => Some(refusal),
            None => if before.balance_of(info.miner) + config.base_reward > i128::MAX {
                Some(failure(500, "Failed updating balance: balance too large"@))
            } else {
                None
            },
        }
    }
}

/// Whether `after` is the ledger `before` with the next block mined for the
/// miner: the block stands behind the others; the transactions of its batch
/// are confirmed in it, each at its place in the batch; the nodes of its tree
/// stand behind the other nodes, in order; and the miner's balance has grown
/// by the reward. Nothing else has changed.
pub open spec fn mined(
    before: LedgerView,
    after: LedgerView,
    config: Config,
    miner: Address,
    nonce: u64,
) -> bool {
    let latest = chain_tip(before.blocks);
    let batch = next_batch(before, config);
    let nodes = layered_nodes(
        padded_leaves(transaction_digests(batch), config.merkle_tree_size as nat),
    );
    let height = before.blocks.len() as int;
    let block = after.blocks[height];
    let stored = before.merkle_nodes.len() as int;
    &&& after.blocks.len() == height + 1
    &&& after.blocks.subrange(0, height) == before.blocks
    &&& block.id == latest.0 + 1
    &&& block.parent_hash@ == latest.1
    &&& block.merkle_root@ == nodes.last().hash
    &&& block.nonce == Some(nonce)
    &&& block.produced_by == Some(miner)
    &&& block.hash matches Some(hash) && hash@ == next_block_hash(config, nonce, batch, latest)
    &&& after.transactions == confirm_rows(
        before.transactions,
        transaction_hashes(batch),
        (latest.0 + 1) as Id,
    )
    &&& after.merkle_nodes.len() == stored + nodes.len()
    &&& after.merkle_nodes.subrange(0, stored) == before.merkle_nodes
    &&& forall|i: int|
        0 <= i < nodes.len() ==> {
            let row = #[trigger] after.merkle_nodes[stored + i];
            &&& row.block_id == latest.0 + 1
            &&& row.root == block.merkle_root
            &&& row.index == i
            &&& row.node == node_bytes(nodes[i])
            &&& node_from_bytes(row.node) == Ok::<NodeView, MerkleTreeError>(nodes[i])
        }
    &&& after.accounts == before.accounts.insert(
        miner,
        AccountState {
            balance: (before.balance_of(miner) + config.base_reward) as u128,
            nonce: before.nonce_of(miner),
        },
    )
}

/// After a block has been mined, every transaction of its batch is confirmed
/// in the new block, at its place in the batch; the mempool holds what it held
/// behind the batch, so it has shrunk by the size of the batch; the miner's
/// balance has grown by the reward; and the id of the latest block has grown
/// by one.
pub proof fn lemma_mined_effects(before: Ledger, after: LedgerView, config: Config, info: MineInfo)
    requires
        before.valid(),
        mine_refusal(before@, config, info) is None,
        mined(before@, after, config, info.miner, info.nonce),
    ensures
        ({
            let batch = next_batch(before@, config);
            let waiting = pending_transactions(before@.transactions);
            let block_id = (chain_tip(before@.blocks).0 + 1) as Id;
            &&& forall|i: int|
                0 <= i < batch.len() ==> after.transactions.contains(
                    TransactionRow {
                        tx: Transaction {
                            block_id: Some(block_id),
                            status: TransactionStatus::Confirmed,
                            ..#[trigger] batch[i]
                        },
                        index_in_block: Some(i as Id),
                    },
                )
            &&& pending_transactions(after.transactions) == waiting.subrange(
                batch.len() as int,
                waiting.len() as int,
            )
            &&& pending_transactions(after.transactions).len() == waiting.len() - batch.len()
            &&& after.balance_of(info.miner) == before@.balance_of(info.miner) + config.base_reward
            &&& chain_tip(after.blocks).0 == chain_tip(before@.blocks).0 + 1
        }),
{
    let rows = before@.transactions;
    let block_id = (chain_tip(before@.blocks).0 + 1) as Id;
    let limit = config.block_size as nat;
    let found = pending_rows(rows);
    let chosen = first_n(found, limit);
    let batch = next_batch(before@, config);
    lemma_confirm_oldest_pending(rows, limit, block_id);
    assert(batch =~= row_transactions(chosen));
    assert forall|i: int| 0 <= i < batch.len() implies after.transactions.contains(
        TransactionRow {
            tx: Transaction {
                block_id: Some(block_id),
                status: TransactionStatus::Confirmed,
                ..#[trigger] batch[i]
            },
            index_in_block: Some(i as Id),
        },
    ) by {
        assert(after.transactions.contains(confirmed_row(chosen[i], block_id, i as Id)));
    }
    let left = pending_rows(after.transactions);
    assert(row_transactions(left) =~= pending_transactions(rows).subrange(
        batch.len() as int,
        found.len() as int,
    ));
    assert(after.blocks.last() == after.blocks[before@.blocks.len() as int]);
}

/// After a block has been mined, the nodes stored for the new block form the
/// tree over the computed hashes of its batch, and the nodes stored for every
/// other block are those that were stored before.
pub proof fn lemma_mined_nodes(before: Ledger, after: LedgerView, config: Config, info: MineInfo)
    requires
        before.valid(),
        config.wf(),
        mine_refusal(before@, config, info) is None,
        mined(before@, after, config, info.miner, info.nonce),
    ensures
        tree_of(after.merkle_nodes, (before@.blocks.len() + 1) as Id) == Ok::<
            TreeView,
            MerkleTreeError,
        >(
            TreeView::over(
                padded_leaves(
                    transaction_digests(next_batch(before@, config)),
                    config.merkle_tree_size as nat,
                ),
            ),
        ),
        forall|other: Id|
            other != before@.blocks.len() + 1 ==> #[trigger] tree_of(after.merkle_nodes, other)
                == tree_of(before@.merkle_nodes, other),
        chain_tip(before@.blocks).0 == before@.blocks.len(),
{
    let height = before@.blocks.len() as int;
    let block_id = (height + 1) as Id;
    let rows = before@.merkle_nodes;
    let stored = rows.len() as int;
    let added = after.merkle_nodes.subrange(stored, after.merkle_nodes.len() as int);
    let leaves = padded_leaves(
        transaction_digests(next_batch(before@, config)),
        config.merkle_tree_size as nat,
    );
    assert(chain_tip(before@.blocks).0 == height) by {
        if height > 0 {
            assert(before@.blocks[height - 1].id == height);
        }
    }
    assert(after.merkle_nodes =~= rows + added);
    assert forall|i: int| 0 <= i < added.len() implies (#[trigger] added[i]).block_id == block_id
        && node_from_bytes(added[i].node) == Ok::<NodeView, MerkleTreeError>(
        layered_nodes(leaves)[i],
    ) by {
        assert(added[i] == after.merkle_nodes[stored + i]);
    }
    lemma_tree_of_added_rows(rows, added, block_id, leaves);
    assert forall|other: Id| other != block_id implies #[trigger] tree_of(after.merkle_nodes, other)
        == tree_of(rows, other) by {
        lemma_stored_nodes_of_others(rows, added, block_id, other);
    }
}

/// After a block has been mined, the nodes stored for each block still form a
/// tree whose root is the Merkle root of the block, and the hash of every
/// confirmed transaction is the leaf of the tree of its block at the
/// transaction's position.
pub proof fn lemma_mined_trees(before: Ledger, after: LedgerView, config: Config, info: MineInfo)
    requires
        before.valid(),
        config.wf(),
        mine_refusal(before@, config, info) is None,
        mined(before@, after, config, info.miner, info.nonce),
    ensures
        forall|i: int|
            0 <= i < after.blocks.len() ==> roots_tree(after.merkle_nodes, #[trigger] after.blocks[i]),
        forall|i: int|
            0 <= i < after.transactions.len() ==> holds_leaf(
                after.merkle_nodes,
                #[trigger] after.transactions[i],
            ),
{
    let height = before@.blocks.len() as int;
    let block_id = (height + 1) as Id;
    let rows = before@.merkle_nodes;
    let batch = next_batch(before@, config);
    let leaves = padded_leaves(transaction_digests(batch), config.merkle_tree_size as nat);
    lemma_mined_nodes(before, after, config, info);
    assert forall|i: int| 0 <= i < after.blocks.len() implies roots_tree(
        after.merkle_nodes,
        #[trigger] after.blocks[i],
    ) by {
        if i < height {
            assert(after.blocks[i] == after.blocks.subrange(0, height)[i]);
            assert(roots_tree(rows, before@.blocks[i]));
            assert(before@.blocks[i].id == i + 1);
            assert(tree_of(after.merkle_nodes, before@.blocks[i].id) == tree_of(
                rows,
                before@.blocks[i].id,
            ));
        }
    }
    lemma_confirm_oldest_pending(before@.transactions, config.block_size as nat, block_id);
    let chosen = first_n(pending_rows(before@.transactions), config.block_size as nat);
    assert(batch =~= row_transactions(chosen));
    assert forall|j: int| 0 <= j < after.transactions.len() implies holds_leaf(
        after.merkle_nodes,
        #[trigger] after.transactions[j],
    ) by {
        let was = before@.transactions[j];
        let row = after.transactions[j];
        assert(was.belongs(height as nat));
        if row == was {
            assert(holds_leaf(rows, was));
            if was.tx.status == TransactionStatus::Confirmed {
                assert(tree_of(after.merkle_nodes, was.tx.block_id.unwrap()) == tree_of(
                    rows,
                    was.tx.block_id.unwrap(),
                ));
            }
        } else {
            let i = choose|i: int|
                0 <= i < chosen.len() && chosen[i] == was && row == confirmed_row(
                    was,
                    block_id,
                    i as Id,
                );
            assert(batch[i] == was.tx);
            assert(leaves[i] == transaction_digests(batch)[i]);
        }
    }
}

/// Mines the next block for a miner: packs the oldest pending transactions,
/// up to the size of a block, frames the block over them behind the latest
/// one (see [`frame_block`]), and stores it with its tree, confirms the
/// transactions in it and adds the reward to the miner's balance, all or
/// nothing.
///
/// In a full node, the hash of a block that is stored starts with at least
/// `target` zero bytes.
pub fn try_mine(data: &mut NodeData, mine_info: &MineInfo) -> (done: Result<(), ServerError>)
    requires
        old(data).valid(),
    ensures
        final(data).valid(),
        final(data).config == old(data).config,
        match mine_refusal(old(data).ledger@, old(data).config, *mine_info) {
            Some(refusal) => done matches Err(e) && e@ == refusal && final(data).ledger@ == old(
                data,
            ).ledger@,
            None => done is Ok && mined(
                old(data).ledger@,
                final(data).ledger@,
                old(data).config,
                mine_info.miner,
                mine_info.nonce,
            ),
        },
        done is Ok && old(data).config.node_mode == NodeMode::Full ==> leading_zero_bytes(
            final(data).ledger@.blocks.last().hash.unwrap()@,
        ) >= old(data).config.target,
{
    let latest = match get_latest_block(&data.ledger) {
        Ok(latest) => latest,
        Err(_) => vstd::pervasive::unreached(),
    };
    let signature = match Signature::parse_hex(mine_info.signature.as_str()) {
        Some(signature) => signature,
        None => {
            return Err(ServerError::with_text(400, "Invalid signature"));
        },
    };
    proof {
        lemma_latest_is_last(data.ledger@.blocks, latest);
    }
    let transactions = match get_pending_transactions(&data.ledger, data.config.block_size) {
        Ok(transactions) => transactions,
        Err(_) => vstd::pervasive::unreached(),
    };
    let ready = match frame_block(
        &data.config,
        mine_info.miner,
        mine_info.nonce,
        signature,
        &transactions,
        latest.0,
        latest.1,
    ) {
        Ok(ready) => ready,
        Err(e) => {
            return Err(e);
        },
    };
    let balance = current_balance(&data.ledger, mine_info.miner);
    let raised = match raised_balance(balance, data.config.base_reward) {
        Ok(raised) => raised,
        Err(e) => {
            return Err(e);
        },
    };
    let block = ready.block;
    let hash = match block.hash {
        Some(hash) => hash,
        None => vstd::pervasive::unreached(),
    };
    let node_count = ready.tree.nodes.len();
    let ghost before = data.ledger@;
    let ghost batch = next_batch(before, data.config);
    let ghost tree_nodes = ready.tree.nodes@;
    let ghost nodes = node_views(tree_nodes);
    proof {
        // The stored hash of each transaction of the batch is its computed hash.
        lemma_pending_rows_members(before.transactions);
        assert(ready.tx_hashes@ =~= transaction_hashes(batch)) by {
            assert forall|i: int| 0 <= i < batch.len() implies ready.tx_hashes@[i] == batch[i].hash by {
                let found = pending_rows(before.transactions);
                assert(batch[i] == found[i].tx);
                assert(before.transactions.contains(found[i]));
                assert(hash_views(ready.tx_hashes@)[i] == transaction_digests(batch)[i]);
                ready.tx_hashes@[i].lemma_eq(batch[i].hash);
            }
        }
        lemma_latest_is_last(before.blocks, latest);
        lemma_tree_rows_of_next_block(
            before.merkle_nodes,
            block.id,
            block.merkle_root,
            nodes,
            nodes.len(),
        );
    }
    match add_block(
        &mut data.ledger,
        block.id,
        hash,
        block.parent_hash,
        block.merkle_root,
        mine_info.miner,
        mine_info.nonce,
    ) {
        Ok(()) => {},
        Err(_) => {
            assert(false);
        },
    }
    let _ = add_merkle_tree(&mut data.ledger, block.id, ready.tree);
    let _ = add_transactions_to_block(&mut data.ledger, ready.tx_hashes.as_slice(), block.id);
    let _ = update_balance(&mut data.ledger, mine_info.miner, raised);
    proof {
        let after = data.ledger@;
        let added = tree_rows(block.id, block.merkle_root, nodes);
        assert(added.subrange(0, nodes.len() as int) =~= added);
        assert(after.merkle_nodes == before.merkle_nodes + added);
        assert(after.merkle_nodes.subrange(0, before.merkle_nodes.len() as int)
            =~= before.merkle_nodes);
        assert(after.blocks.subrange(0, before.blocks.len() as int) =~= before.blocks);
        assert(nodes == layered_nodes(
            padded_leaves(transaction_digests(batch), data.config.merkle_tree_size as nat),
        ));
        assert forall|i: int| 0 <= i < nodes.len() implies {
            let row = #[trigger] after.merkle_nodes[before.merkle_nodes.len() + i];
            &&& row.block_id == latest.0 + 1
            &&& row.root == block.merkle_root
            &&& row.index == i
            &&& row.node == node_bytes(nodes[i])
            &&& node_from_bytes(row.node) == Ok::<NodeView, MerkleTreeError>(nodes[i])
        } by {
            let row = after.merkle_nodes[before.merkle_nodes.len() + i];
            assert(row == added[i]);
            assert(nodes[i] == tree_nodes[i]@);
            tree_nodes[i].hash.lemma_len();
            lemma_node_bytes_round_trip(nodes[i]);
        }
        lemma_mined_trees(old(data).ledger, after, data.config, *mine_info);
        assert forall|i: int| 0 <= i < data.ledger.transactions@.len() implies holds_leaf(
            data.ledger@.merkle_nodes,
            #[trigger] data.ledger.transactions@[i],
        ) by {
            assert(holds_leaf(after.merkle_nodes, after.transactions[i]));
        }
    }
    Ok(())
}

/// Reads a new difficulty target, written in decimal, and sets it. Text that
/// writes no number of 64 bits is refused with status 400, and the target
/// stays.
pub fn set_target(data: &mut NodeData, target: &str) -> (done: Result<(), ServerError>)
    requires
        old(data).valid(),
    ensures
        final(data).valid(),
        final(data).ledger == old(data).ledger,
        match parsed_decimal(target@, u64::MAX as nat) {
            Some(value) => done is Ok && final(data).config == (Config {
                target: value as u64,
                ..old(data).config
            }),
            None => (done matches Err(e) && e@ == failure(400, "Invalid target"@))
                && final(data).config == old(data).config,
        },
{
    match parse_decimal(target, u64::MAX as u128) {
        Some(value) => {
            data.config.target = value as u64;
            Ok(())
        },
        None => Err(ServerError::with_text(400, "Invalid target")),
    }
}

/// Sets the balance of an account to the amount of the request, which is a
/// new balance and no difference. The account exists afterwards. No
/// transaction is recorded. A negative amount is refused with status 500.
pub fn mint(data: &mut NodeData, mint_info: &ApiMint) -> (done: Result<(), ServerError>)
    requires
        old(data).valid(),
    ensures
        final(data).valid(),
        final(data).config == old(data).config,
        mint_info.amount >= 0 ==> done is Ok && final(data).ledger@ == (LedgerView {
            accounts: old(data).ledger@.accounts.insert(
                mint_info.to,
                AccountState {
                    balance: mint_info.amount as u128,
                    nonce: old(data).ledger@.nonce_of(mint_info.to),
                },
            ),
            ..old(data).ledger@
        }),
        mint_info.amount < 0 ==> (done matches Err(e) && e@ == failure(
            500,
            "Failed updating balance: negative balance"@,
        )) && final(data).ledger@ == old(data).ledger@.with_account(mint_info.to),
{
    update_balance(&mut data.ledger, mint_info.to, mint_info.amount)
}

} // verus!
