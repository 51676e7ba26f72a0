use pow_ledger::db::accounts::{
    current_balance, ensure_address_exists, get_balance, get_nonce, update_balance, update_nonce,
};
use pow_ledger::db::blocks::{add_block, get_block_by_hash, get_block_by_id, get_latest_block};
use pow_ledger::db::merkle_tree::{
    add_merkle_node, add_merkle_tree, get_merkle_tree, get_transaction_index_and_block,
};
use pow_ledger::db::transactions::{
    add_pending_transaction, add_transactions_to_block, get_pending_transactions, get_transaction,
    get_transactions,
};
use pow_ledger::db::Ledger;
use pow_ledger::models::error::ServerError;
use pow_ledger::models::merkle_tree::{Direction, MerkleNode, MerkleTree};
use pow_ledger::models::primitives::{Address, H256};
use pow_ledger::models::{Transaction, TransactionStatus};

fn address(byte: u8) -> Address {
    Address::from_bytes(&[byte; 33])
}

fn hash(byte: u8) -> H256 {
    H256::new([byte; 32])
}

fn transaction(byte: u8) -> Transaction {
    Transaction {
        hash: hash(byte),
        from: address(byte),
        to: address(byte + 1),
        amount: byte as u128 * 10,
        block_id: Some(99),
        nonce: byte as u64,
        status: TransactionStatus::Confirmed,
    }
}

fn pending(byte: u8) -> Transaction {
    Transaction { block_id: None, status: TransactionStatus::Pending, ..transaction(byte) }
}

fn same(a: &Transaction, b: &Transaction) -> bool {
    a.hash == b.hash
        && a.from == b.from
        && a.to == b.to
        && a.amount == b.amount
        && a.block_id == b.block_id
        && a.nonce == b.nonce
        && a.status == b.status
}

#[test]
fn new_ledger_is_empty() {
    let ledger = Ledger::new();
    assert!(ledger.accounts.is_empty());
    assert!(ledger.transactions.is_empty());
    assert!(ledger.blocks.is_empty());
    assert!(ledger.merkle_nodes.is_empty());
    assert_eq!(get_latest_block(&ledger), Ok((0, H256::zero())));
}

#[test]
fn account_is_made_once_with_zeros() {
    let mut ledger = Ledger::new();
    assert_eq!(current_balance(&ledger, address(1)), 0);
    assert!(ledger.accounts.is_empty());
    assert_eq!(ensure_address_exists(&mut ledger, address(1)), Ok(()));
    assert_eq!(ensure_address_exists(&mut ledger, address(1)), Ok(()));
    assert_eq!(ledger.accounts.len(), 1);
    assert_eq!(ledger.accounts[0].address, address(1));
    assert_eq!(ledger.accounts[0].balance, 0);
    assert_eq!(ledger.accounts[0].nonce, 0);
    assert_eq!(get_balance(&mut ledger, address(2)), Ok(0));
    assert_eq!(get_nonce(&mut ledger, address(3)), Ok(0));
    assert_eq!(get_nonce(&mut ledger, address(2)), Ok(0));
    assert_eq!(ledger.accounts.len(), 3);
}

#[test]
fn balance_is_set_and_not_added() {
    let mut ledger = Ledger::new();
    assert_eq!(update_balance(&mut ledger, address(1), 1000), Ok(()));
    assert_eq!(update_balance(&mut ledger, address(1), 250), Ok(()));
    assert_eq!(get_balance(&mut ledger, address(1)), Ok(250));
    assert_eq!(current_balance(&ledger, address(1)), 250);
    assert_eq!(update_balance(&mut ledger, address(2), i128::MAX), Ok(()));
    assert_eq!(get_balance(&mut ledger, address(2)), Ok(i128::MAX as u128));
    assert_eq!(get_balance(&mut ledger, address(1)), Ok(250));
    assert_eq!(get_nonce(&mut ledger, address(1)), Ok(0));
    assert_eq!(ledger.accounts.len(), 2);
}

#[test]
fn negative_balance_is_refused() {
    let mut ledger = Ledger::new();
    update_balance(&mut ledger, address(1), 7).unwrap();
    assert_eq!(
        update_balance(&mut ledger, address(1), -1),
        Err(ServerError::with_text(500, "Failed updating balance: negative balance"))
    );
    assert_eq!(get_balance(&mut ledger, address(1)), Ok(7));
    assert!(update_balance(&mut ledger, address(2), i128::MIN).is_err());
    assert_eq!(ledger.accounts.len(), 2);
    assert_eq!(current_balance(&ledger, address(2)), 0);
}

#[test]
fn nonce_is_set() {
    let mut ledger = Ledger::new();
    update_balance(&mut ledger, address(1), 5).unwrap();
    assert_eq!(update_nonce(&mut ledger, address(1), 9), Ok(()));
    assert_eq!(update_nonce(&mut ledger, address(2), u64::MAX), Ok(()));
    assert_eq!(get_nonce(&mut ledger, address(1)), Ok(9));
    assert_eq!(get_nonce(&mut ledger, address(2)), Ok(u64::MAX));
    assert_eq!(get_balance(&mut ledger, address(1)), Ok(5));
    assert_eq!(get_balance(&mut ledger, address(2)), Ok(0));
}

#[test]
fn transaction_enters_the_mempool_pending() {
    let mut ledger = Ledger::new();
    assert_eq!(add_pending_transaction(&mut ledger, transaction(1)), Ok(()));
    let stored = get_transaction(&ledger, hash(1)).unwrap().unwrap();
    assert!(same(&stored, &pending(1)));
    assert_eq!(ledger.transactions[0].index_in_block, None);
    assert!(get_transaction(&ledger, hash(2)).unwrap().is_none());
    assert_eq!(get_transaction_index_and_block(&ledger, hash(1)), Ok(None));
    assert_eq!(get_transaction_index_and_block(&ledger, hash(2)), Ok(None));
}

#[test]
fn duplicate_transaction_is_refused() {
    let mut ledger = Ledger::new();
    add_pending_transaction(&mut ledger, pending(1)).unwrap();
    let mut again = pending(2);
    again.hash = hash(1);
    assert_eq!(
        add_pending_transaction(&mut ledger, again),
        Err(ServerError::with_text(500, "Failed adding transaction: duplicate hash"))
    );
    assert_eq!(ledger.transactions.len(), 1);
    assert!(same(&ledger.transactions[0].tx, &pending(1)));
}

#[test]
fn pending_transactions_come_oldest_first_up_to_the_limit() {
    let mut ledger = Ledger::new();
    for byte in [5u8, 3, 9, 1] {
        add_pending_transaction(&mut ledger, pending(byte)).unwrap();
    }
    let hashes = |txs: Vec<Transaction>| txs.iter().map(|tx| tx.hash).collect::<Vec<_>>();
    assert_eq!(hashes(get_pending_transactions(&ledger, 0).unwrap()), Vec::<H256>::new());
    assert_eq!(hashes(get_pending_transactions(&ledger, 2).unwrap()), vec![hash(5), hash(3)]);
    assert_eq!(
        hashes(get_pending_transactions(&ledger, 4).unwrap()),
        vec![hash(5), hash(3), hash(9), hash(1)]
    );
    assert_eq!(hashes(get_pending_transactions(&ledger, u64::MAX).unwrap()).len(), 4);

    add_transactions_to_block(&mut ledger, &[hash(3)], 1).unwrap();
    assert_eq!(
        hashes(get_pending_transactions(&ledger, 2).unwrap()),
        vec![hash(5), hash(9)]
    );
    for tx in get_pending_transactions(&ledger, 10).unwrap() {
        assert_eq!(tx.status, TransactionStatus::Pending);
        assert_eq!(tx.block_id, None);
    }
}

#[test]
fn confirming_sets_block_and_position() {
    let mut ledger = Ledger::new();
    for byte in 1..=4u8 {
        add_pending_transaction(&mut ledger, pending(byte)).unwrap();
    }
    assert_eq!(
        add_transactions_to_block(&mut ledger, &[hash(3), hash(1), hash(7), hash(3)], 12),
        Ok(())
    );
    let first = get_transaction(&ledger, hash(1)).unwrap().unwrap();
    assert_eq!(first.status, TransactionStatus::Confirmed);
    assert_eq!(first.block_id, Some(12));
    assert_eq!(get_transaction_index_and_block(&ledger, hash(1)), Ok(Some((1, 12))));
    assert_eq!(get_transaction_index_and_block(&ledger, hash(3)), Ok(Some((0, 12))));
    assert_eq!(get_transaction_index_and_block(&ledger, hash(2)), Ok(None));
    let second = get_transaction(&ledger, hash(2)).unwrap().unwrap();
    assert!(same(&second, &pending(2)));
    assert_eq!(ledger.transactions.len(), 4);
    assert_eq!(get_pending_transactions(&ledger, 10).unwrap().len(), 2);
}

#[test]
fn transactions_of_an_account_are_those_it_sends_or_receives() {
    let mut ledger = Ledger::new();
    for byte in 1..=4u8 {
        add_pending_transaction(&mut ledger, pending(byte)).unwrap();
    }
    let hashes = |txs: Vec<Transaction>| txs.iter().map(|tx| tx.hash).collect::<Vec<_>>();
    assert_eq!(hashes(get_transactions(&ledger, address(1)).unwrap()), vec![hash(1)]);
    assert_eq!(hashes(get_transactions(&ledger, address(3)).unwrap()), vec![hash(2), hash(3)]);
    assert_eq!(hashes(get_transactions(&ledger, address(5)).unwrap()), vec![hash(4)]);
    assert!(get_transactions(&ledger, address(6)).unwrap().is_empty());
}

#[test]
fn block_is_added_under_a_new_id_only() {
    let mut ledger = Ledger::new();
    assert_eq!(add_block(&mut ledger, 1, hash(1), H256::zero(), hash(11), address(2), 5), Ok(()));
    assert_eq!(add_block(&mut ledger, 2, hash(2), hash(1), hash(12), address(3), 6), Ok(()));
    assert_eq!(
        add_block(&mut ledger, 1, hash(3), hash(2), hash(13), address(2), 7),
        Err(ServerError::with_text(500, "Failed adding block: duplicate id"))
    );
    assert_eq!(ledger.blocks.len(), 2);
    assert_eq!(get_latest_block(&ledger), Ok((2, hash(2))));

    let block = get_block_by_id(&ledger, 2).unwrap().unwrap();
    assert_eq!(block.id, 2);
    assert_eq!(block.hash, Some(hash(2)));
    assert_eq!(block.parent_hash, hash(1));
    assert_eq!(block.merkle_root, hash(12));
    assert_eq!(block.nonce, Some(6));
    assert_eq!(block.produced_by, Some(address(3)));
    assert!(get_block_by_id(&ledger, 3).unwrap().is_none());
    assert!(get_block_by_id(&ledger, 0).unwrap().is_none());

    assert_eq!(get_block_by_hash(&ledger, hash(1)).unwrap().unwrap().id, 1);
    assert!(get_block_by_hash(&ledger, hash(11)).unwrap().is_none());
}

#[test]
fn latest_block_has_the_highest_id() {
    let mut ledger = Ledger::new();
    add_block(&mut ledger, 5, hash(5), H256::zero(), hash(0), address(2), 0).unwrap();
    add_block(&mut ledger, 9, hash(9), H256::zero(), hash(0), address(2), 0).unwrap();
    add_block(&mut ledger, 7, hash(7), H256::zero(), hash(0), address(2), 0).unwrap();
    assert_eq!(get_latest_block(&ledger), Ok((9, hash(9))));
}

fn tree(size: usize, first: u8) -> MerkleTree {
    let mut tree = MerkleTree::new(size);
    tree.initialize((0..size as u8).map(|i| hash(first + i)).collect()).unwrap();
    tree
}

#[test]
fn tree_is_stored_and_loaded() {
    let mut ledger = Ledger::new();
    let first = tree(4, 10);
    let second = tree(2, 50);
    let first_nodes = first.nodes.clone();
    let second_nodes = second.nodes.clone();
    let first_root = first.root().unwrap();
    assert_eq!(add_merkle_tree(&mut ledger, 2, second), Ok(()));
    assert_eq!(add_merkle_tree(&mut ledger, 1, first), Ok(()));
    assert_eq!(ledger.merkle_nodes.len(), 10);
    for (place, row) in ledger.merkle_nodes.iter().enumerate() {
        let (block_id, index, nodes) = if place < 7 {
            (1, place, &first_nodes)
        } else {
            (2, place - 7, &second_nodes)
        };
        assert_eq!(row.block_id, block_id);
        assert_eq!(row.index, index as u64);
        assert_eq!(row.node, nodes[index].as_bvtes());
    }
    assert_eq!(ledger.merkle_nodes[0].root, first_root);

    let loaded = get_merkle_tree(&ledger, 1).ok().unwrap();
    assert_eq!(loaded.size, 4);
    assert_eq!(loaded.nodes, first_nodes);
    assert_eq!(loaded.root(), Some(first_root));
    let loaded = get_merkle_tree(&ledger, 2).ok().unwrap();
    assert_eq!(loaded.nodes, second_nodes);
}

#[test]
fn node_is_stored_once_under_its_key() {
    let mut ledger = Ledger::new();
    let node = MerkleNode::new(hash(1), Some(Direction::Left));
    let other = MerkleNode::new(hash(2), Some(Direction::Right));
    assert_eq!(add_merkle_node(&mut ledger, 1, hash(9), node, 0), Ok(()));
    assert_eq!(add_merkle_node(&mut ledger, 1, hash(9), other, 0), Ok(()));
    assert_eq!(ledger.merkle_nodes.len(), 1);
    assert_eq!(ledger.merkle_nodes[0].node, node.as_bvtes());
    assert_eq!(add_merkle_node(&mut ledger, 1, hash(8), other, 0), Ok(()));
    assert_eq!(add_merkle_node(&mut ledger, 2, hash(9), other, 0), Ok(()));
    assert_eq!(add_merkle_node(&mut ledger, 1, hash(9), other, 1), Ok(()));
    assert_eq!(ledger.merkle_nodes.len(), 4);
}

#[test]
fn nodes_are_loaded_in_the_order_of_their_positions() {
    let mut ledger = Ledger::new();
    let full = tree(2, 1);
    let root = full.root().unwrap();
    for index in [2usize, 0, 1] {
        add_merkle_node(&mut ledger, 3, root, full.nodes[index], index).unwrap();
    }
    let loaded = get_merkle_tree(&ledger, 3).ok().unwrap();
    assert_eq!(loaded.nodes, full.nodes);
}

#[test]
fn missing_or_broken_tree_is_refused() {
    let mut ledger = Ledger::new();
    assert_eq!(
        get_merkle_tree(&ledger, 1).err(),
        Some(ServerError::with_text(400, "MerkleTreeError: EmptyTree"))
    );
    let full = tree(2, 1);
    let root = full.root().unwrap();
    add_merkle_node(&mut ledger, 1, root, full.nodes[0], 0).unwrap();
    add_merkle_node(&mut ledger, 1, root, full.nodes[2], 2).unwrap();
    assert_eq!(
        get_merkle_tree(&ledger, 1).err(),
        Some(ServerError::with_text(400, "MerkleTreeError: DeserializingError"))
    );
}
