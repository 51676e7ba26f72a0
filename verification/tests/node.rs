use pow_ledger::backend::get::{
    block_height, encode_proof, get_balance, get_block_by_hash, get_block_by_id, get_nonce,
    get_proof, get_target, get_transaction, get_transactions,
};
use pow_ledger::backend::post::{
    frame_block, frame_transfer, mint, raised_balance, set_target, transfer, try_mine,
};
use pow_ledger::backend::test::{
    generate_sig, get_mode, get_pub_key, set_mode, verify_proof, verify_sig,
};
use pow_ledger::backend::NodeData;
use pow_ledger::crypto::hash::hash_message;
use pow_ledger::crypto::sig::{generate_pub_key, sign_message};
use pow_ledger::models::api::{
    ApiGenerateSig, ApiMint, ApiTransfer, ApiVerifyProof, ApiVerifySig, MineInfo, NodeMode,
};
use pow_ledger::models::config::Config;
use pow_ledger::models::error::ServerError;
use pow_ledger::models::merkle_tree::MerkleTree;
use pow_ledger::models::primitives::{Address, Signature, H256};
use pow_ledger::models::{Block, Transaction, TransactionStatus};

const REWARD: u128 = 50;

fn config(mode: NodeMode) -> Config {
    Config {
        server_url: "127.0.0.1:8080".to_string(),
        db_url: "postgres://localhost/ledger".to_string(),
        node_mode: mode,
        merkle_tree_size: 4,
        base_reward: REWARD,
        block_size: 3,
        target: 0,
    }
}

fn node(mode: NodeMode) -> NodeData {
    NodeData::new(config(mode))
}

fn private(byte: u8) -> H256 {
    H256::new([byte; 32])
}

fn account(byte: u8) -> Address {
    generate_pub_key(&private(byte)).unwrap()
}

fn zero_signature() -> String {
    "00".repeat(64)
}

fn claim(miner: Address, nonce: u64) -> MineInfo {
    MineInfo { miner, block_nonce: 0, nonce, signature: zero_signature() }
}

fn bad_request(message: &str) -> ServerError {
    ServerError::with_text(400, message)
}

fn signed_transfer(data: &mut NodeData, from: u8, to: Address, amount: u128) -> (ApiTransfer, H256) {
    let sender = account(from);
    let nonce = get_nonce(data, &sender.as_hex_string()).unwrap();
    let tx = Transaction {
        hash: H256::zero(),
        from: sender,
        to,
        amount,
        block_id: None,
        nonce,
        status: TransactionStatus::Pending,
    };
    let hash = tx.hash();
    let signature = sign_message(&private(from), hash.as_bytes()).unwrap();
    let request = ApiTransfer {
        from: sender,
        to,
        amount,
        nonce: 12345,
        signature: signature.as_hex_string(),
    };
    (request, hash)
}

fn submit(data: &mut NodeData, from: u8, to: Address, amount: u128) -> H256 {
    let (request, hash) = signed_transfer(data, from, to, amount);
    assert_eq!(transfer(data, &request), Ok(()));
    hash
}

fn signed_claim(data: &NodeData, miner_key: u8, nonce: u64) -> (MineInfo, Block) {
    let miner = account(miner_key);
    let pending: Vec<Transaction> = data
        .ledger
        .transactions
        .iter()
        .filter(|row| row.tx.status == TransactionStatus::Pending)
        .take(data.config.block_size as usize)
        .map(|row| row.tx)
        .collect();
    let mut tree = MerkleTree::new(data.config.merkle_tree_size as usize);
    tree.initialize(pending.iter().map(|tx| tx.hash()).collect()).unwrap();
    let parent = data.ledger.blocks.last().map(|b| b.hash.unwrap()).unwrap_or(H256::zero());
    let mut block = Block {
        id: data.ledger.blocks.len() as u64 + 1,
        hash: None,
        parent_hash: parent,
        merkle_root: tree.root().unwrap(),
        nonce: Some(nonce),
        produced_by: Some(miner),
    };
    block.compute_hash();
    let text = format!(
        "Mine block miner:{} parent_hash:{} merkle_root:{} nonce:{}",
        miner.as_hex_string(),
        parent.as_hex_string(),
        block.merkle_root.as_hex_string(),
        nonce
    );
    let signature =
        sign_message(&private(miner_key), hash_message(text.as_bytes()).as_bytes()).unwrap();
    let info = MineInfo { miner, block_nonce: 0, nonce, signature: signature.as_hex_string() };
    (info, block)
}

#[test]
fn empty_mine_is_rejected() {
    let mut data = node(NodeMode::Test);
    assert_eq!(
        try_mine(&mut data, &claim(account(9), 0)),
        Err(bad_request("No transactions to mine"))
    );
    assert_eq!(block_height(&data), Ok(0));
    assert!(data.ledger.blocks.is_empty());
    assert!(data.ledger.accounts.is_empty());
    assert!(data.ledger.merkle_nodes.is_empty());
}

#[test]
fn transfer_and_mine() {
    let mut data = node(NodeMode::Test);
    let a = account(1);
    let b = account(2);
    let miner = account(9);
    assert_eq!(mint(&mut data, &ApiMint { to: a, amount: 1000 }), Ok(()));
    assert_eq!(get_balance(&mut data, &a.as_hex_string()), Ok(1000));
    let hash = submit(&mut data, 1, b, 100);

    let pending = get_transaction(&data, &hash.as_hex_string()).unwrap();
    assert_eq!(pending.status, TransactionStatus::Pending);
    assert_eq!(pending.block_id, None);

    assert_eq!(try_mine(&mut data, &claim(miner, 0)), Ok(()));

    assert_eq!(get_balance(&mut data, &miner.as_hex_string()), Ok(REWARD));
    let tx = get_transaction(&data, &hash.as_hex_string()).unwrap();
    assert_eq!(tx.status, TransactionStatus::Confirmed);
    assert_eq!(tx.block_id, Some(1));
    assert_eq!(tx.hash, hash);
    assert_eq!(tx.from, a);
    assert_eq!(tx.to, b);
    assert_eq!(tx.amount, 100);
    assert_eq!(block_height(&data), Ok(1));
    // Mining confirms a transfer and pays the miner; it moves no balance
    // between the parties.
    assert_eq!(get_balance(&mut data, &a.as_hex_string()), Ok(1000));
    assert_eq!(get_balance(&mut data, &b.as_hex_string()), Ok(0));
}

#[test]
fn mining_changes_exactly_what_it_should() {
    let mut data = node(NodeMode::Test);
    let miner = account(9);
    mint(&mut data, &ApiMint { to: miner, amount: 7 }).unwrap();
    let hashes: Vec<H256> = (1..=5u8).map(|i| submit(&mut data, i, account(20), i as u128)).collect();
    assert_eq!(data.ledger.transactions.len(), 5);

    assert_eq!(try_mine(&mut data, &claim(miner, 3)), Ok(()));

    for (place, hash) in hashes.iter().enumerate() {
        let row = data.ledger.transactions.iter().find(|row| row.tx.hash == *hash).unwrap();
        if place < 3 {
            assert_eq!(row.tx.status, TransactionStatus::Confirmed);
            assert_eq!(row.tx.block_id, Some(1));
            assert_eq!(row.index_in_block, Some(place as u64));
        } else {
            assert_eq!(row.tx.status, TransactionStatus::Pending);
            assert_eq!(row.tx.block_id, None);
            assert_eq!(row.index_in_block, None);
        }
    }
    let waiting = data
        .ledger
        .transactions
        .iter()
        .filter(|row| row.tx.status == TransactionStatus::Pending)
        .count();
    assert_eq!(waiting, 2);
    assert_eq!(get_balance(&mut data, &miner.as_hex_string()), Ok(7 + REWARD));
    assert_eq!(block_height(&data), Ok(1));
    assert_eq!(data.ledger.merkle_nodes.len(), 7);

    let block = get_block_by_id(&data, 1).unwrap();
    assert_eq!(block.parent_hash, H256::zero());
    assert_eq!(block.nonce, Some(3));
    assert_eq!(block.produced_by, Some(miner));
    let mut tree = MerkleTree::new(4);
    tree.initialize(hashes[..3].to_vec()).unwrap();
    assert_eq!(block.merkle_root, tree.root().unwrap());
    let text = format!(
        "Block id:1 parent_hash:{} merkle_root:{} nonce:3",
        "00".repeat(32),
        block.merkle_root.as_hex_string()
    );
    assert_eq!(block.hash, Some(hash_message(text.as_bytes())));
    assert_eq!(get_block_by_hash(&data, &block.hash.unwrap().as_hex_string()).unwrap().id, 1);

    assert_eq!(try_mine(&mut data, &claim(miner, 4)), Ok(()));
    assert_eq!(get_balance(&mut data, &miner.as_hex_string()), Ok(7 + 2 * REWARD));
    assert_eq!(block_height(&data), Ok(2));
    assert_eq!(
        try_mine(&mut data, &claim(miner, 5)),
        Err(bad_request("No transactions to mine"))
    );
    assert_eq!(block_height(&data), Ok(2));
}

#[test]
fn merkle_proof_positive_and_negative() {
    let mut data = node(NodeMode::Test);
    let hashes: Vec<H256> = (1..=3u8).map(|i| submit(&mut data, i, account(20), 10)).collect();
    assert_eq!(try_mine(&mut data, &claim(account(9), 0)), Ok(()));

    for (place, hash) in hashes.iter().enumerate() {
        let proof = get_proof(&data, &hash.as_hex_string()).unwrap();
        assert_eq!(proof.len(), 3);
        for node in &proof {
            assert_eq!(node.len(), 66);
        }
        let root = get_block_by_id(&data, 1).unwrap().merkle_root;
        assert_eq!(proof[2], format!("{}02", root.as_hex_string()));
        for (other, candidate) in hashes.iter().enumerate() {
            let request = ApiVerifyProof {
                tx_hash: candidate.as_hex_string(),
                proof: proof.clone(),
            };
            assert_eq!(verify_proof(&request), Ok(place == other));
        }
    }
}

#[test]
fn proof_is_served_for_confirmed_transactions_only() {
    let mut data = node(NodeMode::Test);
    let hash = submit(&mut data, 1, account(2), 10);
    let missing = H256::new([7; 32]);
    assert_eq!(
        get_proof(&data, &hash.as_hex_string()),
        Err(ServerError::new(
            404,
            format!("Transaction with hash {} not found", hash.as_hex_string())
        ))
    );
    assert_eq!(
        get_proof(&data, &missing.as_hex_string()),
        Err(ServerError::new(
            404,
            format!("Transaction with hash {} not found", "07".repeat(32))
        ))
    );
    assert_eq!(get_proof(&data, "xyz"), Err(bad_request("Invalid hash")));
}

#[test]
fn difficulty_rejection_in_full_mode() {
    let mut data = node(NodeMode::Full);
    set_target(&mut data, "3").unwrap();
    let miner = account(9);
    submit(&mut data, 1, account(2), 10);
    let accounts = data.ledger.accounts.len();
    let mut nonce = 0;
    let (info, _) = loop {
        let (info, block) = signed_claim(&data, 9, nonce);
        if block.hash.unwrap().leading_zeros() < 3 {
            break (info, block);
        }
        nonce += 1;
    };
    assert_eq!(try_mine(&mut data, &info), Err(bad_request("Block does not meet target")));
    assert_eq!(block_height(&data), Ok(0));
    assert!(data.ledger.blocks.is_empty());
    assert!(data.ledger.merkle_nodes.is_empty());
    assert_eq!(data.ledger.accounts.len(), accounts);
    assert_eq!(data.ledger.transactions.len(), 1);
    assert_eq!(data.ledger.transactions[0].tx.status, TransactionStatus::Pending);
    assert_eq!(get_balance(&mut data, &miner.as_hex_string()), Ok(0));
}

#[test]
fn full_mode_takes_a_block_that_meets_the_target() {
    let mut data = node(NodeMode::Full);
    set_target(&mut data, "1").unwrap();
    submit(&mut data, 1, account(2), 10);
    let mut nonce = 0;
    let (info, block) = loop {
        let (info, block) = signed_claim(&data, 9, nonce);
        if block.hash.unwrap().leading_zeros() >= 1 {
            break (info, block);
        }
        nonce += 1;
    };
    assert_eq!(try_mine(&mut data, &info), Ok(()));
    let stored = get_block_by_id(&data, 1).unwrap();
    assert_eq!(stored.hash, block.hash);
    assert!(stored.hash.unwrap().leading_zeros() >= 1);
    assert_eq!(stored.nonce, Some(nonce));
}

#[test]
fn full_mode_checks_the_miners_signature() {
    let mut data = node(NodeMode::Full);
    submit(&mut data, 1, account(2), 10);
    let (good, _) = signed_claim(&data, 9, 0);

    let unsigned = claim(account(9), 0);
    assert_eq!(
        try_mine(&mut data, &unsigned),
        Err(bad_request("Crypto error: InvalidSignature"))
    );
    let stolen = MineInfo { miner: account(8), ..good.clone() };
    assert_eq!(
        try_mine(&mut data, &stolen),
        Err(bad_request("Crypto error: InvalidSignature"))
    );
    let other_nonce = MineInfo { nonce: 1, ..good.clone() };
    assert_eq!(
        try_mine(&mut data, &other_nonce),
        Err(bad_request("Crypto error: InvalidSignature"))
    );
    let no_key = MineInfo { miner: Address::default(), ..good.clone() };
    assert_eq!(
        try_mine(&mut data, &no_key),
        Err(bad_request("Crypto error: InvalidPublicKey"))
    );
    assert_eq!(block_height(&data), Ok(0));
    assert_eq!(try_mine(&mut data, &good), Ok(()));
    assert_eq!(block_height(&data), Ok(1));
}

#[test]
fn malformed_signature_text_is_refused() {
    let mut data = node(NodeMode::Test);
    submit(&mut data, 1, account(2), 10);
    for text in ["", "00", "zz", &"0".repeat(127), &"0".repeat(130)] {
        let info = MineInfo { signature: text.to_string(), ..claim(account(9), 0) };
        assert_eq!(try_mine(&mut data, &info), Err(bad_request("Invalid signature")));
    }
    assert_eq!(block_height(&data), Ok(0));
}

#[test]
fn batch_larger_than_the_tree_is_refused() {
    let mut settings = config(NodeMode::Test);
    settings.merkle_tree_size = 2;
    let mut data = NodeData::new(settings);
    for i in 1..=3u8 {
        submit(&mut data, i, account(20), 10);
    }
    assert_eq!(
        try_mine(&mut data, &claim(account(9), 0)),
        Err(bad_request("MerkleTreeError: LeavesAmountGreaterThanTreeSize"))
    );
    assert_eq!(block_height(&data), Ok(0));
    assert!(data.ledger.accounts.iter().all(|row| row.address != account(9)));
}

#[test]
fn reward_that_cannot_be_written_is_refused() {
    let mut data = node(NodeMode::Test);
    let miner = account(9);
    mint(&mut data, &ApiMint { to: miner, amount: i128::MAX - 49 }).unwrap();
    submit(&mut data, 1, account(2), 10);
    assert_eq!(
        try_mine(&mut data, &claim(miner, 0)),
        Err(ServerError::with_text(500, "Failed updating balance: balance too large"))
    );
    assert_eq!(block_height(&data), Ok(0));
    assert!(data.ledger.merkle_nodes.is_empty());
    mint(&mut data, &ApiMint { to: miner, amount: i128::MAX - 50 }).unwrap();
    assert_eq!(try_mine(&mut data, &claim(miner, 0)), Ok(()));
    assert_eq!(get_balance(&mut data, &miner.as_hex_string()), Ok(i128::MAX as u128));
}

#[test]
fn parent_hash_chain() {
    let mut data = node(NodeMode::Test);
    for round in 0..3u8 {
        submit(&mut data, round + 1, account(20), 10);
        assert_eq!(try_mine(&mut data, &claim(account(9), round as u64)), Ok(()));
    }
    assert_eq!(block_height(&data), Ok(3));
    assert_eq!(get_block_by_id(&data, 1).unwrap().parent_hash, H256::zero());
    for k in 2..=3u64 {
        let block = get_block_by_id(&data, k).unwrap();
        let before = get_block_by_id(&data, k - 1).unwrap();
        assert_eq!(Some(block.parent_hash), before.hash);
        assert_eq!(block.id, k);
    }
    assert_eq!(get_balance(&mut data, &account(9).as_hex_string()), Ok(3 * REWARD));
}

#[test]
fn transfer_needs_the_senders_signature() {
    let mut data = node(NodeMode::Test);
    let (good, hash) = signed_transfer(&mut data, 1, account(2), 10);

    let unsigned = ApiTransfer { signature: zero_signature(), ..good.clone() };
    assert_eq!(transfer(&mut data, &unsigned), Err(bad_request("Crypto error: InvalidSignature")));
    let other_amount = ApiTransfer { amount: 11, ..good.clone() };
    assert_eq!(
        transfer(&mut data, &other_amount),
        Err(bad_request("Crypto error: InvalidSignature"))
    );
    let other_sender = ApiTransfer { from: account(3), ..good.clone() };
    assert_eq!(
        transfer(&mut data, &other_sender),
        Err(bad_request("Crypto error: InvalidSignature"))
    );
    let no_key = ApiTransfer { from: Address::default(), ..good.clone() };
    assert_eq!(transfer(&mut data, &no_key), Err(bad_request("Crypto error: InvalidPublicKey")));
    let garbled = ApiTransfer { signature: "12".to_string(), ..good.clone() };
    assert_eq!(transfer(&mut data, &garbled), Err(bad_request("Invalid signature")));
    assert!(data.ledger.transactions.is_empty());
    assert!(data.ledger.accounts.iter().any(|row| row.address == account(3)));

    assert_eq!(transfer(&mut data, &good), Ok(()));
    let stored = get_transaction(&data, &hash.as_hex_string()).unwrap();
    assert_eq!(stored.nonce, 0);
    assert_eq!(stored.amount, 10);
    assert_eq!(stored.status, TransactionStatus::Pending);
    assert_eq!(
        transfer(&mut data, &good),
        Err(ServerError::with_text(500, "Failed adding transaction: duplicate hash"))
    );
    assert_eq!(data.ledger.transactions.len(), 1);
}

#[test]
fn mint_sets_the_balance() {
    let mut data = node(NodeMode::Test);
    let a = account(1);
    assert_eq!(mint(&mut data, &ApiMint { to: a, amount: 1000 }), Ok(()));
    assert_eq!(mint(&mut data, &ApiMint { to: a, amount: 300 }), Ok(()));
    assert_eq!(get_balance(&mut data, &a.as_hex_string()), Ok(300));
    assert_eq!(
        mint(&mut data, &ApiMint { to: a, amount: -1 }),
        Err(ServerError::with_text(500, "Failed updating balance: negative balance"))
    );
    assert_eq!(get_balance(&mut data, &a.as_hex_string()), Ok(300));
    assert!(data.ledger.transactions.is_empty());
}

#[test]
fn reading_an_account_takes_its_address_in_hex() {
    let mut data = node(NodeMode::Test);
    assert_eq!(get_balance(&mut data, "02"), Err(bad_request("Invalid address")));
    assert_eq!(get_nonce(&mut data, &"0g".repeat(33)), Err(bad_request("Invalid address")));
    assert!(get_transactions(&data, "").is_err());
    assert!(data.ledger.accounts.is_empty());
    let text = "02".repeat(33);
    assert_eq!(get_balance(&mut data, &text), Ok(0));
    assert_eq!(get_nonce(&mut data, &text.to_uppercase()), Ok(0));
    assert_eq!(data.ledger.accounts.len(), 1);
}

#[test]
fn transactions_and_blocks_are_found_or_missing() {
    let mut data = node(NodeMode::Test);
    let first = submit(&mut data, 1, account(2), 10);
    let second = submit(&mut data, 2, account(1), 20);
    submit(&mut data, 3, account(4), 30);
    let of_first = get_transactions(&data, &account(1).as_hex_string()).unwrap();
    assert_eq!(of_first.iter().map(|tx| tx.hash).collect::<Vec<_>>(), vec![first, second]);
    assert!(get_transactions(&data, &account(7).as_hex_string()).unwrap().is_empty());

    assert_eq!(get_transaction(&data, "12").err(), Some(bad_request("Invalid hash")));
    assert_eq!(
        get_transaction(&data, &"ab".repeat(32)).err(),
        Some(ServerError::new(
            404,
            format!("Transaction with hash {} not found", "ab".repeat(32))
        ))
    );
    assert_eq!(
        get_block_by_id(&data, 1).err(),
        Some(ServerError::with_text(404, "Block not found"))
    );
    assert_eq!(
        get_block_by_hash(&data, &"00".repeat(32)).err(),
        Some(ServerError::with_text(404, "Block not found"))
    );
    assert_eq!(get_block_by_hash(&data, "00").err(), Some(bad_request("Invalid hash")));
}

#[test]
fn target_is_read_and_set() {
    let mut data = node(NodeMode::Full);
    assert_eq!(get_target(&data), Ok(0));
    assert_eq!(set_target(&mut data, "5"), Ok(()));
    assert_eq!(get_target(&data), Ok(5));
    assert_eq!(set_target(&mut data, "18446744073709551615"), Ok(()));
    assert_eq!(get_target(&data), Ok(u64::MAX));
    for text in ["", "five", "-1", "18446744073709551616", "1.5"] {
        assert_eq!(set_target(&mut data, text), Err(bad_request("Invalid target")));
    }
    assert_eq!(get_target(&data), Ok(u64::MAX));
}

#[test]
fn mode_is_read_and_set() {
    let mut data = node(NodeMode::Full);
    assert_eq!(get_mode(&data), Ok(NodeMode::Full));
    assert_eq!(set_mode(&mut data, NodeMode::Test), Ok(NodeMode::Test));
    assert_eq!(get_mode(&data), Ok(NodeMode::Test));
    submit(&mut data, 1, account(2), 10);
    assert_eq!(try_mine(&mut data, &claim(account(9), 0)), Ok(()));
}

#[test]
fn signing_by_request() {
    let message = "0123456789abcdef0123456789abcdef".to_string();
    let key = private(0x33);
    let request = ApiGenerateSig { message: message.clone(), private_key: key.as_hex_string() };
    let signature = generate_sig(&request).unwrap();
    assert_eq!(
        signature,
        sign_message(&key, message.as_bytes()).unwrap().as_hex_string()
    );
    let public_key = get_pub_key(&key.as_hex_string()).unwrap();
    assert_eq!(public_key, account(0x33).as_hex_string());

    let check = ApiVerifySig { message: message.clone(), signature: signature.clone(), public_key };
    assert_eq!(verify_sig(&check), Ok(true));
    let other = ApiVerifySig { message: "0123456789abcdef0123456789abcdeX".to_string(), ..check.clone() };
    assert_eq!(verify_sig(&other), Ok(false));
    let short = ApiVerifySig { message: "short".to_string(), ..check.clone() };
    assert_eq!(verify_sig(&short), Ok(false));
    let no_key = ApiVerifySig { public_key: "02".to_string(), ..check.clone() };
    assert_eq!(verify_sig(&no_key), Err(bad_request("Invalid public key")));
    let no_signature = ApiVerifySig { signature: "zz".to_string(), ..check };
    assert_eq!(verify_sig(&no_signature), Err(bad_request("Invalid signature")));

    let short = ApiGenerateSig { message: "short".to_string(), private_key: key.as_hex_string() };
    assert_eq!(generate_sig(&short), Err(bad_request("Crypto error: InvalidMessage")));
    let zero = ApiGenerateSig { message, private_key: "00".repeat(32) };
    assert_eq!(generate_sig(&zero), Err(bad_request("Crypto error: InvalidPrivateKey")));
    let garbled = ApiGenerateSig { message: String::new(), private_key: "1".to_string() };
    assert_eq!(generate_sig(&garbled), Err(bad_request("Invalid private key")));
    assert_eq!(get_pub_key("1"), Err(bad_request("Invalid private key")));
    assert_eq!(
        get_pub_key(&"00".repeat(32)),
        Err(bad_request("Crypto error: InvalidPrivateKey"))
    );
}

#[test]
fn proof_check_by_request() {
    let mut tree = MerkleTree::new(2);
    let leaves = vec![H256::new([1; 32]), H256::new([2; 32])];
    tree.initialize(leaves.clone()).unwrap();
    let proof: Vec<String> =
        tree.get_proof(1).unwrap().as_bvtes().iter().map(|b| hex::encode(b)).collect();
    let request = ApiVerifyProof { tx_hash: leaves[1].as_hex_string(), proof: proof.clone() };
    assert_eq!(verify_proof(&request), Ok(true));
    let other = ApiVerifyProof { tx_hash: leaves[0].as_hex_string(), proof: proof.clone() };
    assert_eq!(verify_proof(&other), Ok(false));
    let empty = ApiVerifyProof { tx_hash: leaves[0].as_hex_string(), proof: Vec::new() };
    assert_eq!(verify_proof(&empty), Ok(false));

    let no_hash = ApiVerifyProof { tx_hash: "1".to_string(), proof: proof.clone() };
    assert_eq!(verify_proof(&no_hash), Err(bad_request("Invalid hash")));
    let mut short = proof.clone();
    short[0].truncate(64);
    let request = ApiVerifyProof { tx_hash: leaves[1].as_hex_string(), proof: short };
    assert_eq!(verify_proof(&request), Err(bad_request("Invalid proof")));
    let mut garbled = proof.clone();
    garbled[1] = "zz".repeat(33);
    let request = ApiVerifyProof { tx_hash: leaves[1].as_hex_string(), proof: garbled };
    assert_eq!(verify_proof(&request), Err(bad_request("Invalid proof")));
    let mut no_side = proof;
    no_side[0] = format!("{}07", "01".repeat(32));
    let request = ApiVerifyProof { tx_hash: leaves[1].as_hex_string(), proof: no_side };
    assert_eq!(
        verify_proof(&request),
        Err(bad_request("MerkleTreeError: DeserializingError"))
    );
}

#[test]
fn framed_block_follows_the_latest() {
    let settings = config(NodeMode::Test);
    let txs: Vec<Transaction> = (1..=2u8)
        .map(|i| Transaction {
            hash: H256::zero(),
            from: account(i),
            to: account(i + 1),
            amount: i as u128,
            block_id: None,
            nonce: 0,
            status: TransactionStatus::Pending,
        })
        .collect();
    let latest = H256::new([0x44; 32]);
    let framed = frame_block(
        &settings,
        account(9),
        11,
        Signature::new([0; 64]),
        &txs,
        6,
        latest,
    )
    .ok()
    .unwrap();
    assert_eq!(framed.block.id, 7);
    assert_eq!(framed.block.parent_hash, latest);
    assert_eq!(framed.block.nonce, Some(11));
    assert_eq!(framed.block.produced_by, Some(account(9)));
    assert_eq!(framed.tx_hashes, vec![txs[0].hash(), txs[1].hash()]);
    assert_eq!(
        framed.tree.leaves,
        vec![txs[0].hash(), txs[1].hash(), H256::zero(), H256::zero()]
    );
    assert_eq!(Some(framed.block.merkle_root), framed.tree.root());
    let mut block = framed.block;
    block.hash = None;
    assert_eq!(Some(block.compute_hash()), framed.block.hash);

    let refused = frame_block(
        &settings,
        account(9),
        11,
        Signature::new([0; 64]),
        &txs,
        u64::MAX,
        latest,
    );
    assert_eq!(
        refused.err(),
        Some(ServerError::with_text(500, "Failed adding block: no id left"))
    );
}

#[test]
fn framed_transfer_is_pending_and_hashed() {
    let mut data = node(NodeMode::Test);
    let (request, hash) = signed_transfer(&mut data, 1, account(2), 77);
    let tx = frame_transfer(&request, 0).unwrap();
    assert_eq!(tx.hash, hash);
    assert_eq!(tx.hash, tx.hash());
    assert_eq!(tx.from, account(1));
    assert_eq!(tx.to, account(2));
    assert_eq!(tx.amount, 77);
    assert_eq!(tx.nonce, 0);
    assert_eq!(tx.block_id, None);
    assert_eq!(tx.status, TransactionStatus::Pending);
    assert_eq!(
        frame_transfer(&request, 1).err(),
        Some(bad_request("Crypto error: InvalidSignature"))
    );
}

#[test]
fn raised_balance_must_fit_the_store() {
    assert_eq!(raised_balance(0, 0), Ok(0));
    assert_eq!(raised_balance(7, 50), Ok(57));
    assert_eq!(raised_balance(i128::MAX as u128 - 1, 1), Ok(i128::MAX));
    let refused = ServerError::with_text(500, "Failed updating balance: balance too large");
    assert_eq!(raised_balance(i128::MAX as u128, 1), Err(refused.clone()));
    assert_eq!(raised_balance(u128::MAX, 1), Err(refused.clone()));
    assert_eq!(raised_balance(u128::MAX, u128::MAX), Err(refused));
}

#[test]
fn proof_is_encoded_for_leaves_of_the_tree_only() {
    let mut tree = MerkleTree::new(2);
    tree.initialize(vec![H256::new([1; 32]), H256::new([2; 32])]).unwrap();
    let proof = encode_proof(&tree, 0).unwrap();
    assert_eq!(
        proof,
        vec![
            format!("{}01", "02".repeat(32)),
            format!("{}02", tree.root().unwrap().as_hex_string()),
        ]
    );
    assert_eq!(
        encode_proof(&tree, 2),
        Err(ServerError::with_text(500, "Failed getting transaction index: no such leaf"))
    );
}
