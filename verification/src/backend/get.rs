//! The requests that read the ledger. Reading the balance or the nonce of an
//! account makes the account exist; the other requests change nothing.

use crate::backend::NodeData;
use crate::db::accounts;
use crate::db::blocks;
use crate::db::merkle_tree::{get_merkle_tree, get_transaction_index_and_block, stored_nodes};
use crate::db::transactions;
use crate::db::transactions::transactions_of;
use crate::db::{holds_leaf, roots_tree, tree_of, Ledger, LedgerView, TransactionRow};
use crate::encoding::{hex_bytes, hex_encode, hex_text, is_hex_text, lemma_hex_round_trip};
use crate::models::error::{failure, ErrorView, MerkleTreeError, ServerError};
use crate::models::merkle_tree::{
    lemma_proof_accepts_leaf, lemma_proof_closes_with_root, lemma_rebuilt_tree_is_tree, node_bytes,
    proof_accepts, proof_path, rebuilt_tree, MerkleTree, NodeView, TreeView,
};
use crate::models::primitives::{Address, Balance, Id, H256};
use crate::models::{Block, Transaction, TransactionStatus};
use vstd::prelude::*;
use vstd::string::StringExecFns;

verus! {

/// Whether `text` is the hexadecimal text of an address.
pub open spec fn is_address_text(text: Seq<char>) -> bool {
    is_hex_text(text) && text.len() == 66
}

/// Whether `text` is the hexadecimal text of a hash.
pub open spec fn is_hash_text(text: Seq<char>) -> bool {
    is_hex_text(text) && text.len() == 64
}

/// The message that tells that no transaction with the given hash is at
/// hand.
pub open spec fn transaction_missing(hash: Seq<u8>) -> Seq<char> {
    "Transaction with hash "@ + hex_text(hash) + " not found"@
}

fn transaction_not_found(tx_hash: &H256) -> (e: ServerError)
    ensures
        e@ == failure(404, transaction_missing(tx_hash@)),
{
    let mut message = String::from_str("Transaction with hash ");
    message.append(tx_hash.as_hex_string().as_str());
    message.append(" not found");
    ServerError::new(404, message)
}

/// The balance of the account with the given address, which exists
/// afterwards. Text that is no address is refused with status 400.
pub fn get_balance(data: &mut NodeData, address: &str) -> (balance: Result<Balance, ServerError>)
    requires
        old(data).valid(),
    ensures
        final(data).valid(),
        final(data).config == old(data).config,
        !is_address_text(address@) ==> (balance matches Err(e) && e@ == failure(
            400,
            "Invalid address"@,
        )) && final(data).ledger@ == old(data).ledger@,
        is_address_text(address@) ==> balance is Ok && forall|account: Address|
            account@ == hex_bytes(address@) ==> balance == Ok::<Balance, ServerError>(
                old(data).ledger@.balance_of(account),
            ) && final(data).ledger@ == old(data).ledger@.with_account(account),
{
    let account = match Address::parse_hex(address) {
        Some(account) => account,
        None => {
            return Err(ServerError::with_text(400, "Invalid address"));
        },
    };
    proof {
        assert forall|other: Address| other@ == hex_bytes(address@) implies other == account by {
            other.lemma_eq(account);
        }
    }
    accounts::get_balance(&mut data.ledger, account)
}

/// The nonce of the account with the given address, which exists afterwards.
/// Text that is no address is refused with status 400.
pub fn get_nonce(data: &mut NodeData, address: &str) -> (nonce: Result<u64, ServerError>)
    requires
        old(data).valid(),
    ensures
        final(data).valid(),
        final(data).config == old(data).config,
        !is_address_text(address@) ==> (nonce matches Err(e) && e@ == failure(
            400,
            "Invalid address"@,
        )) && final(data).ledger@ == old(data).ledger@,
        is_address_text(address@) ==> nonce is Ok && forall|account: Address|
            account@ == hex_bytes(address@) ==> nonce == Ok::<u64, ServerError>(
                old(data).ledger@.nonce_of(account),
            ) && final(data).ledger@ == old(data).ledger@.with_account(account),
{
    let account = match Address::parse_hex(address) {
        Some(account) => account,
        None => {
            return Err(ServerError::with_text(400, "Invalid address"));
        },
    };
    proof {
        assert forall|other: Address| other@ == hex_bytes(address@) implies other == account by {
            other.lemma_eq(account);
        }
    }
    accounts::get_nonce(&mut data.ledger, account)
}

/// The transaction with the given hash. Text that is no hash is refused with
/// status 400, and a hash that is not stored with status 404.
pub fn get_transaction(data: &NodeData, tx_hash: &str) -> (found: Result<Transaction, ServerError>)
    ensures
        match found {
            Ok(tx) => is_hash_text(tx_hash@) && tx.hash@ == hex_bytes(tx_hash@) && exists|i: int|
                0 <= i < data.ledger@.transactions.len() && (
                #[trigger] data.ledger@.transactions[i]).tx == tx,
            Err(e) => if is_hash_text(tx_hash@) {
                e@ == failure(404, transaction_missing(hex_bytes(tx_hash@))) && forall|i: int|
                    0 <= i < data.ledger@.transactions.len() ==> (
                    #[trigger] data.ledger@.transactions[i]).tx.hash@ != hex_bytes(tx_hash@)
            } else {
                e@ == failure(400, "Invalid hash"@)
            },
        },
{
    let hash = match H256::parse_hex(tx_hash) {
        Some(hash) => hash,
        None => {
            return Err(ServerError::with_text(400, "Invalid hash"));
        },
    };
    match transactions::get_transaction(&data.ledger, hash) {
        Ok(Some(tx)) => Ok(tx),
        _ => {
            proof {
                assert forall|i: int| 0 <= i < data.ledger@.transactions.len() implies (
                #[trigger] data.ledger@.transactions[i]).tx.hash@ != hex_bytes(tx_hash@) by {
                    data.ledger@.transactions[i].tx.hash.lemma_eq(hash);
                }
            }
            Err(transaction_not_found(&hash))
        },
    }
}

/// All transactions that the account with the given address sends or
/// receives. Text that is no address is refused with status 400.
pub fn get_transactions(data: &NodeData, address: &str) -> (found: Result<
    Vec<Transaction>,
    ServerError,
>)
    ensures
        !is_address_text(address@) ==> (found matches Err(e) && e@ == failure(
            400,
            "Invalid address"@,
        )),
        is_address_text(address@) ==> found is Ok && forall|account: Address|
            account@ == hex_bytes(address@) ==> found.unwrap()@ == transactions_of(
                data.ledger@.transactions,
                account,
            ),
{
    let account = match Address::parse_hex(address) {
        Some(account) => account,
        None => {
            return Err(ServerError::with_text(400, "Invalid address"));
        },
    };
    proof {
        assert forall|other: Address| other@ == hex_bytes(address@) implies other == account by {
            other.lemma_eq(account);
        }
    }
    transactions::get_transactions(&data.ledger, account)
}

/// The first stored block with the given hash. Text that is no hash is
/// refused with status 400, and a hash that no block has with status 404.
pub fn get_block_by_hash(data: &NodeData, block_hash: &str) -> (found: Result<Block, ServerError>)
    ensures
        match found {
            Ok(block) => is_hash_text(block_hash@) && (block.hash matches Some(hash) && hash@
                == hex_bytes(block_hash@)) && exists|i: int|
                0 <= i < data.ledger@.blocks.len() && (#[trigger] data.ledger@.blocks[i]) == block,
            Err(e) => if is_hash_text(block_hash@) {
                e@ == failure(404, "Block not found"@) && forall|i: int|
                    0 <= i < data.ledger@.blocks.len() ==> !((
                    #[trigger] data.ledger@.blocks[i]).hash matches Some(hash) && hash@
                        == hex_bytes(block_hash@))
            } else {
                e@ == failure(400, "Invalid hash"@)
            },
        },
{
    let hash = match H256::parse_hex(block_hash) {
        Some(hash) => hash,
        None => {
            return Err(ServerError::with_text(400, "Invalid hash"));
        },
    };
    match blocks::get_block_by_hash(&data.ledger, hash) {
        Ok(Some(block)) => Ok(block),
        _ => {
            proof {
                assert forall|i: int| 0 <= i < data.ledger@.blocks.len() implies !((
                #[trigger] data.ledger@.blocks[i]).hash matches Some(other) && other@ == hex_bytes(
                    block_hash@,
                )) by {
                    if let Some(other) = data.ledger@.blocks[i].hash {
                        other.lemma_eq(hash);
                    }
                }
            }
            Err(ServerError::with_text(404, "Block not found"))
        },
    }
}

/// The block with the given id. An id that no block has is refused with
/// status 404.
pub fn get_block_by_id(data: &NodeData, block_id: u64) -> (found: Result<Block, ServerError>)
    ensures
        match found {
            Ok(block) => block.id == block_id && exists|i: int|
                0 <= i < data.ledger@.blocks.len() && (#[trigger] data.ledger@.blocks[i]) == block,
            Err(e) => e@ == failure(404, "Block not found"@) && forall|i: int|
                0 <= i < data.ledger@.blocks.len() ==> (#[trigger] data.ledger@.blocks[i]).id
                    != block_id,
        },
{
    match blocks::get_block_by_id(&data.ledger, block_id) {
        Ok(Some(block)) => Ok(block),
        _ => Err(ServerError::with_text(404, "Block not found")),
    }
}

/// Whether the row at `place` holds the confirmed transaction with the given
/// hash.
pub open spec fn is_confirmed_at(rows: Seq<TransactionRow>, hash: Seq<u8>, place: int) -> bool {
    &&& 0 <= place < rows.len()
    &&& rows[place].tx.hash@ == hash
    &&& rows[place].index_in_block is Some
    &&& rows[place].tx.block_id is Some
}

/// The hexadecimal texts of the serialized nodes of a proof.
pub open spec fn proof_texts(path: Seq<NodeView>) -> Seq<Seq<char>> {
    path.map_values(|node: NodeView| hex_text(node_bytes(node)))
}

/// What a request for the inclusion proof of the transaction with the given
/// hash is answered. Text that is no hash is refused with status 400, and a
/// transaction that is not stored or not confirmed with status 404. The tree
/// of the transaction's block is loaded from its stored nodes; where these do
/// not form a tree the request fails with status 400, and where the tree has
/// no leaf at the transaction's position, with status 500. Else the answer is
/// the proof for that position.
pub open spec fn proof_answer(ledger: LedgerView, tx_hash: Seq<char>) -> Result<
    Seq<Seq<char>>,
    ErrorView,
> {
    let hash = hex_bytes(tx_hash);
    if !is_hash_text(tx_hash) {
        Err(failure(400, "Invalid hash"@))
    } else if !exists|place: int| is_confirmed_at(ledger.transactions, hash, place) {
        Err(failure(404, transaction_missing(hash)))
    } else {
        let place = choose|place: int| is_confirmed_at(ledger.transactions, hash, place);
        let row = ledger.transactions[place];
        match rebuilt_tree(stored_nodes(ledger.merkle_nodes, row.tx.block_id.unwrap())) {
            Err(e) => Err(failure(400, "MerkleTreeError: "@ + e.name_text())),
            Ok(tree) => tree_proof_answer(tree, row.index_in_block.unwrap()),
        }
    }
}

/// The proof for the leaf at `index` of a tree, as texts. A tree that has no
/// leaf there gives a failure with status 500.
pub open spec fn tree_proof_answer(tree: TreeView, index: Id) -> Result<Seq<Seq<char>>, ErrorView> {
    if index >= tree.size {
        Err(failure(500, "Failed getting transaction index: no such leaf"@))
    } else {
        Ok(proof_texts(proof_path(tree.leaves, index as int)))
    }
}

/// The inclusion proof for the leaf at `index` of a tree that has its
/// leaves: the serialized nodes of the proof, each as hexadecimal text.
pub fn encode_proof(tree: &MerkleTree, index: Id) -> (encoded: Result<Vec<String>, ServerError>)
    requires
        tree.wf(),
        tree.root is Some,
    ensures
        match tree_proof_answer(tree@, index) {
            Ok(texts) => encoded matches Ok(nodes) && nodes@.len() == texts.len() && forall|
                i: int,
            | 0 <= i < texts.len() ==> (#[trigger] nodes@[i])@ == texts[i],
            Err(refusal) => encoded matches Err(e) && e@ == refusal,
        },
{
    if index >= tree.size as u64 {
        return Err(ServerError::with_text(500, "Failed getting transaction index: no such leaf"));
    }
    let path = match tree.get_proof(index) {
        Ok(path) => path,
        Err(e) => {
            return Err(ServerError::from(e));
        },
    };
    let buffers = path.as_bvtes();
    let mut nodes: Vec<String> = Vec::new();
    let mut i: usize = 0;
    while i < buffers.len()
        invariant
            i <= buffers@.len() == path@.len(),
            nodes@.len() == i,
            forall|j: int| 0 <= j < path@.len() ==> (#[trigger] buffers@[j])@ == node_bytes(path@[j]),
            forall|j: int| 0 <= j < i ==> (#[trigger] nodes@[j])@ == proof_texts(path@)[j],
        decreases buffers@.len() - i,
    {
        nodes.push(hex_encode(buffers[i].as_slice()));
        i += 1;
    }
    Ok(nodes)
}

/// In a chain, the inclusion proof of every confirmed transaction is served:
/// it is the proof for the transaction's position in the tree stored for its
/// block, it is accepted for the hash of the transaction, and it closes with
/// the Merkle root of the block.
pub proof fn lemma_confirmed_transaction_is_proven(ledger: Ledger, place: int)
    requires
        ledger.valid(),
        0 <= place < ledger@.transactions.len(),
        ledger@.transactions[place].tx.status == TransactionStatus::Confirmed,
    ensures
        ({
            let row = ledger@.transactions[place];
            let index = row.index_in_block.unwrap() as int;
            let block = ledger@.blocks[row.tx.block_id.unwrap() - 1];
            &&& block.id == row.tx.block_id.unwrap()
            &&& tree_of(ledger@.merkle_nodes, block.id) matches Ok(tree) && {
                let path = proof_path(tree.leaves, index);
                &&& proof_answer(ledger@, hex_text(row.tx.hash@)) == Ok::<
                    Seq<Seq<char>>,
                    ErrorView,
                >(proof_texts(path))
                &&& proof_accepts(path, row.tx.hash@)
                &&& path.last() == (NodeView { hash: block.merkle_root@, parent_direction: None })
            }
        }),
{
    let rows = ledger@.transactions;
    let row = rows[place];
    let hash = row.tx.hash@;
    let index = row.index_in_block.unwrap() as int;
    let at = row.tx.block_id.unwrap() - 1;
    let block = ledger@.blocks[at];
    assert(row.settled());
    assert(row.belongs(ledger@.blocks.len()));
    assert(holds_leaf(ledger@.merkle_nodes, row));
    assert(roots_tree(ledger@.merkle_nodes, block));
    let nodes = stored_nodes(ledger@.merkle_nodes, block.id);
    let tree = rebuilt_tree(nodes).unwrap();
    lemma_rebuilt_tree_is_tree(nodes);
    lemma_proof_accepts_leaf(tree.leaves, index);
    lemma_proof_closes_with_root(tree.leaves, index);
    row.tx.hash.lemma_len();
    lemma_hex_round_trip(hash);
    assert(is_confirmed_at(rows, hash, place));
    let chosen = choose|chosen: int| is_confirmed_at(rows, hash, chosen);
    assert(chosen == place) by {
        rows[chosen].tx.hash.lemma_eq(row.tx.hash);
    }
}

/// The inclusion proof of a confirmed transaction: the serialized nodes of
/// the proof for its position in the tree of its block, each as hexadecimal
/// text. See [`proof_answer`].
pub fn get_proof(data: &NodeData, tx_hash: &str) -> (found: Result<Vec<String>, ServerError>)
    requires
        data.valid(),
    ensures
        match proof_answer(data.ledger@, tx_hash@) {
            Ok(texts) => found matches Ok(nodes) && nodes@.len() == texts.len() && forall|i: int|
                0 <= i < texts.len() ==> (#[trigger] nodes@[i])@ == texts[i],
            Err(refusal) => found matches Err(e) && e@ == refusal,
        },
{
    let hash = match H256::parse_hex(tx_hash) {
        Some(hash) => hash,
        None => {
            return Err(ServerError::with_text(400, "Invalid hash"));
        },
    };
    let ghost rows = data.ledger@.transactions;
    proof {
        assert forall|i: int| 0 <= i < rows.len() implies ((#[trigger] rows[i]).tx.hash@ == hash@) == (
        rows[i].tx.hash == hash) by {
            rows[i].tx.hash.lemma_eq(hash);
        }
    }
    let (index, block_id) = match get_transaction_index_and_block(&data.ledger, hash) {
        Ok(Some(place)) => place,
        _ => {
            return Err(transaction_not_found(&hash));
        },
    };
    proof {
        let at = choose|i: int|
            0 <= i < rows.len() && (#[trigger] rows[i]).tx.hash == hash && rows[i].index_in_block
                == Some(index) && rows[i].tx.block_id == Some(block_id);
        assert(is_confirmed_at(rows, hash@, at));
        let place = choose|place: int| is_confirmed_at(rows, hash@, place);
        assert(place == at);
    }
    let tree = match get_merkle_tree(&data.ledger, block_id) {
        Ok(tree) => tree,
        Err(e) => {
            return Err(e);
        },
    };
    proof {
        lemma_rebuilt_tree_is_tree(stored_nodes(data.ledger@.merkle_nodes, block_id));
    }
    encode_proof(&tree, index)
}

/// The difficulty target.
pub fn get_target(data: &NodeData) -> (target: Result<u64, ServerError>)
    ensures
        target == Ok::<u64, ServerError>(data.config.target),
{
    Ok(data.config.target)
}

/// The id of the latest block, 0 where there is none.
pub fn block_height(data: &NodeData) -> (height: Result<u64, ServerError>)
    requires
        data.valid(),
    ensures
        height == Ok::<u64, ServerError>(data.ledger@.blocks.len() as u64),
{
    match blocks::get_latest_block(&data.ledger) {
        Ok(latest) => {
            proof {
                blocks::lemma_latest_is_last(data.ledger@.blocks, latest);
            }
            Ok(latest.0)
        },
        Err(e) => Err(e),
    }
}

} // verus!
