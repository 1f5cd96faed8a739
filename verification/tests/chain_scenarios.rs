use blockchain::hash_pub_key;
use blockchain::Block;
use blockchain::Blockchain;
use blockchain::ChainError;
use blockchain::Transaction;
use blockchain::UTXOSet;
use blockchain::Wallet;

fn temp_db() -> sled::Db {
    sled::Config::new().temporary(true).open().unwrap()
}

fn balance(utxo_set: &UTXOSet, wallet: &Wallet) -> i64 {
    let pkh = hash_pub_key(wallet.get_public_key());
    let outs = utxo_set.find_utxo(pkh.as_slice()).unwrap();
    let mut total: i64 = 0;
    for o in &outs {
        total += o.get_cost() as i64;
    }
    total
}

fn send(utxo_set: &mut UTXOSet, from: &Wallet, to: &str, amount: i32) -> Block {
    let tx = Transaction::new_utxo_transaction(from, to, amount, utxo_set).unwrap();
    let coinbase = Transaction::new_coinbase_tx(from.get_address().as_str()).unwrap();
    let txs = vec![tx, coinbase];
    let block = utxo_set.mine_block(txs.as_slice()).unwrap();
    utxo_set.update(&block).unwrap();
    block
}

#[test]
fn genesis_pays_the_subsidy() {
    let wallet_a = Wallet::new().unwrap();
    let addr_a = wallet_a.get_address();
    let bc = Blockchain::create_blockchain(addr_a.as_str(), temp_db()).unwrap();
    let mut utxo_set = UTXOSet::new(bc).unwrap();
    utxo_set.reindex().unwrap();

    assert_eq!(balance(&utxo_set, &wallet_a), 10);
    assert_eq!(utxo_set.get_blockchain().get_best_height().unwrap(), 0);
    assert_eq!(utxo_set.count_transactions(), 1);
}

#[test]
fn spending_moves_value_and_pays_change() {
    let wallet_a = Wallet::new().unwrap();
    let wallet_b = Wallet::new().unwrap();
    let addr_a = wallet_a.get_address();
    let addr_b = wallet_b.get_address();
    let bc = Blockchain::create_blockchain(addr_a.as_str(), temp_db()).unwrap();
    let mut utxo_set = UTXOSet::new(bc).unwrap();
    utxo_set.reindex().unwrap();

    send(&mut utxo_set, &wallet_a, addr_b.as_str(), 4);
    assert_eq!(balance(&utxo_set, &wallet_a), 16);
    assert_eq!(balance(&utxo_set, &wallet_b), 4);

    send(&mut utxo_set, &wallet_a, addr_b.as_str(), 5);
    assert_eq!(balance(&utxo_set, &wallet_a), 21);
    assert_eq!(balance(&utxo_set, &wallet_b), 9);
    assert_eq!(utxo_set.get_blockchain().get_best_height().unwrap(), 2);
}

#[test]
fn overspending_fails_and_leaves_the_chain_alone() {
    let wallet_a = Wallet::new().unwrap();
    let wallet_b = Wallet::new().unwrap();
    let addr_a = wallet_a.get_address();
    let addr_b = wallet_b.get_address();
    let bc = Blockchain::create_blockchain(addr_a.as_str(), temp_db()).unwrap();
    let mut utxo_set = UTXOSet::new(bc).unwrap();
    utxo_set.reindex().unwrap();

    let attempt = Transaction::new_utxo_transaction(&wallet_a, addr_b.as_str(), 100, &utxo_set);
    let err = match attempt {
        Ok(_) => panic!("an overspend must be refused"),
        Err(e) => e,
    };
    assert!(matches!(err, ChainError::NotEnoughFunds));
    assert_eq!(err.message(), "Error! not enough funds");
    assert_eq!(utxo_set.get_blockchain().get_best_height().unwrap(), 0);
    assert_eq!(balance(&utxo_set, &wallet_a), 10);
}

#[test]
fn adding_a_block_twice_changes_nothing() {
    let wallet_a = Wallet::new().unwrap();
    let addr_a = wallet_a.get_address();
    let bc = Blockchain::create_blockchain(addr_a.as_str(), temp_db()).unwrap();
    let mut utxo_set = UTXOSet::new(bc).unwrap();
    utxo_set.reindex().unwrap();

    let block = send(&mut utxo_set, &wallet_a, addr_a.as_str(), 3);
    let tip_before = utxo_set.get_blockchain().get_tip_hash();
    let height_before = utxo_set.get_blockchain().get_best_height().unwrap();
    let stored_before = utxo_set
        .get_blockchain()
        .get_block(block.get_hash_bytes().as_slice())
        .unwrap()
        .unwrap()
        .serialize();

    utxo_set.chain_mut().add_block(&block).unwrap();

    assert_eq!(utxo_set.get_blockchain().get_tip_hash(), tip_before);
    assert_eq!(utxo_set.get_blockchain().get_best_height().unwrap(), height_before);
    let stored_after = utxo_set
        .get_blockchain()
        .get_block(block.get_hash_bytes().as_slice())
        .unwrap()
        .unwrap()
        .serialize();
    assert_eq!(stored_after, stored_before);
}

#[test]
fn the_tip_only_moves_up() {
    let wallet_a = Wallet::new().unwrap();
    let addr_a = wallet_a.get_address();
    let bc = Blockchain::create_blockchain(addr_a.as_str(), temp_db()).unwrap();
    let mut utxo_set = UTXOSet::new(bc).unwrap();
    utxo_set.reindex().unwrap();

    let h0 = utxo_set.get_blockchain().get_best_height().unwrap();
    let block = send(&mut utxo_set, &wallet_a, addr_a.as_str(), 2);
    let h1 = utxo_set.get_blockchain().get_best_height().unwrap();
    assert_eq!(h1, h0 + 1);
    assert_eq!(utxo_set.get_blockchain().get_tip_hash(), block.get_hash());

    // A lower block (the genesis, re-added) never lowers the tip.
    let hashes = utxo_set.get_blockchain().get_block_hashes().unwrap();
    let genesis = utxo_set
        .get_blockchain()
        .get_block(hashes[hashes.len() - 1].as_slice())
        .unwrap()
        .unwrap();
    utxo_set.chain_mut().add_block(&genesis).unwrap();
    assert_eq!(utxo_set.get_blockchain().get_best_height().unwrap(), h1);
    assert_eq!(utxo_set.get_blockchain().get_tip_hash(), block.get_hash());
}

#[test]
fn incremental_updates_agree_with_a_rebuild() {
    let wallet_a = Wallet::new().unwrap();
    let wallet_b = Wallet::new().unwrap();
    let addr_a = wallet_a.get_address();
    let addr_b = wallet_b.get_address();
    let bc = Blockchain::create_blockchain(addr_a.as_str(), temp_db()).unwrap();
    let mut utxo_set = UTXOSet::new(bc).unwrap();
    utxo_set.reindex().unwrap();

    send(&mut utxo_set, &wallet_a, addr_b.as_str(), 4);
    send(&mut utxo_set, &wallet_a, addr_b.as_str(), 5);

    let a_incremental = balance(&utxo_set, &wallet_a);
    let b_incremental = balance(&utxo_set, &wallet_b);
    let n_incremental = utxo_set.count_transactions();

    utxo_set.reindex().unwrap();

    assert_eq!(balance(&utxo_set, &wallet_a), a_incremental);
    assert_eq!(balance(&utxo_set, &wallet_b), b_incremental);
    assert_eq!(utxo_set.count_transactions(), n_incremental);
}

#[test]
fn mined_blocks_satisfy_the_work_bound() {
    let wallet_a = Wallet::new().unwrap();
    let addr_a = wallet_a.get_address();
    let bc = Blockchain::create_blockchain(addr_a.as_str(), temp_db()).unwrap();
    let mut utxo_set = UTXOSet::new(bc).unwrap();
    utxo_set.reindex().unwrap();
    let block = send(&mut utxo_set, &wallet_a, addr_a.as_str(), 1);

    // The digest read as a 256-bit big-endian number is below
    // 1 << 248, so its first byte, hence the first two hex digits,
    // are zero.
    assert!(block.get_hash().starts_with("00"));
    assert!(utxo_set.get_blockchain().get_tip_hash().starts_with("00"));
}

#[test]
fn signed_spends_verify_and_tampered_copies_do_not() {
    let wallet_a = Wallet::new().unwrap();
    let wallet_b = Wallet::new().unwrap();
    let addr_a = wallet_a.get_address();
    let addr_b = wallet_b.get_address();
    let bc = Blockchain::create_blockchain(addr_a.as_str(), temp_db()).unwrap();
    let mut utxo_set = UTXOSet::new(bc).unwrap();
    utxo_set.reindex().unwrap();

    let tx = Transaction::new_utxo_transaction(&wallet_a, addr_b.as_str(), 4, &utxo_set).unwrap();
    assert!(!tx.is_coinbase());
    assert!(tx.verify(utxo_set.get_blockchain()).unwrap());

    // Coinbase transactions always verify.
    let coinbase = Transaction::new_coinbase_tx(addr_a.as_str()).unwrap();
    assert!(coinbase.verify(utxo_set.get_blockchain()).unwrap());

    // Flipping a byte inside the input's signature breaks verification.
    // Layout: framed id (8 + 32), input count (8), then the input's
    // framed txid (8 + 32), index (8), framed signature (8 + ...).
    let mut bytes = tx.serialize();
    let sig_byte = 8 + 32 + 8 + 8 + 32 + 8 + 8 + 5;
    bytes[sig_byte] ^= 0x01;
    match Transaction::deserialize(bytes.as_slice()) {
        Some(tampered) => {
            assert!(!tampered.verify(utxo_set.get_blockchain()).unwrap());
        },
        None => panic!("a flipped signature byte must still decode"),
    }
}

#[test]
fn tampering_with_a_stored_output_breaks_later_spends() {
    let db = temp_db();
    let db_handle = db.clone();
    let wallet_a = Wallet::new().unwrap();
    let wallet_b = Wallet::new().unwrap();
    let addr_a = wallet_a.get_address();
    let addr_b = wallet_b.get_address();
    let bc = Blockchain::create_blockchain(addr_a.as_str(), db).unwrap();
    let mut utxo_set = UTXOSet::new(bc).unwrap();
    utxo_set.reindex().unwrap();

    send(&mut utxo_set, &wallet_a, addr_b.as_str(), 4);

    // A spend from B, built while the store is intact, verifies.
    let tx = Transaction::new_utxo_transaction(&wallet_b, addr_a.as_str(), 2, &utxo_set).unwrap();
    assert!(tx.verify(utxo_set.get_blockchain()).unwrap());

    // Overwrite one byte of B's output lock inside the stored tip
    // block record.
    let pkh_b = hash_pub_key(wallet_b.get_public_key());
    let blocks_tree = db_handle.open_tree("blocks").unwrap();
    let tip = blocks_tree.get("tip_block_hash").unwrap().unwrap();
    let record = blocks_tree.get(&tip).unwrap().unwrap();
    let mut record: Vec<u8> = record.to_vec();
    let pos = record
        .windows(pkh_b.len())
        .position(|w| w == pkh_b.as_slice())
        .expect("the tip block pays B");
    record[pos] ^= 0x01;
    blocks_tree.insert(&tip, record).unwrap();

    assert!(!tx.verify(utxo_set.get_blockchain()).unwrap());
}

#[test]
fn blocks_round_trip_through_their_bytes() {
    let wallet_a = Wallet::new().unwrap();
    let addr_a = wallet_a.get_address();
    let bc = Blockchain::create_blockchain(addr_a.as_str(), temp_db()).unwrap();
    let mut utxo_set = UTXOSet::new(bc).unwrap();
    utxo_set.reindex().unwrap();
    let block = send(&mut utxo_set, &wallet_a, addr_a.as_str(), 7);

    let bytes = block.serialize();
    let back = Block::deserialize(bytes.as_slice()).unwrap();
    assert_eq!(back.get_hash(), block.get_hash());
    assert_eq!(back.get_pre_block_hash(), block.get_pre_block_hash());
    assert_eq!(back.get_height(), block.get_height());
    assert_eq!(back.get_nonce(), block.get_nonce());
    assert_eq!(back.get_timestamp(), block.get_timestamp());
    assert_eq!(back.get_transactions().len(), block.get_transactions().len());
    assert_eq!(back.serialize(), bytes);
}

#[test]
fn each_failure_names_its_cause() {
    // No chain recorded yet.
    let opened = Blockchain::open_blockchain(temp_db());
    assert!(matches!(opened, Err(ChainError::NoChain)));

    // A key that is not a PKCS#8 document.
    let bad_key = Wallet::from_pkcs8(vec![1u8, 2, 3]);
    assert!(matches!(bad_key, Err(ChainError::Crypto)));

    let wallet_a = Wallet::new().unwrap();
    let addr_a = wallet_a.get_address();
    let bc = Blockchain::create_blockchain(addr_a.as_str(), temp_db()).unwrap();
    let mut utxo_set = UTXOSet::new(bc).unwrap();
    utxo_set.reindex().unwrap();

    // Signing a coinbase fails: its input references no transaction.
    let mut coinbase = Transaction::new_coinbase_tx(addr_a.as_str()).unwrap();
    let signed = coinbase.sign(utxo_set.get_blockchain(), wallet_a.get_pkcs8());
    assert!(matches!(signed, Err(ChainError::MissingTx)));

    // Mining refuses a transaction whose signature does not verify.
    let tx = Transaction::new_utxo_transaction(&wallet_a, addr_a.as_str(), 3, &utxo_set).unwrap();
    let mut bytes = tx.serialize();
    let sig_byte = 8 + 32 + 8 + 8 + 32 + 8 + 8 + 5;
    bytes[sig_byte] ^= 0x01;
    let tampered = Transaction::deserialize(bytes.as_slice()).unwrap();
    let txs = vec![tampered];
    let mined = utxo_set.mine_block(txs.as_slice());
    assert!(matches!(mined, Err(ChainError::InvalidTx)));

    // Stepping the index twice by the same block fails: the spent
    // entries are already gone.
    let block = send(&mut utxo_set, &wallet_a, addr_a.as_str(), 3);
    let again = utxo_set.update(&block);
    assert!(matches!(again, Err(ChainError::Codec)));
}

#[test]
fn two_coinbases_to_one_address_differ() {
    let wallet = Wallet::new().unwrap();
    let addr = wallet.get_address();
    let one = Transaction::new_coinbase_tx(addr.as_str()).unwrap();
    let two = Transaction::new_coinbase_tx(addr.as_str()).unwrap();
    assert_ne!(one.get_id(), two.get_id());

    // The public-key hash behind an address is the twenty-byte
    // RIPEMD-160 digest.
    let pkh = hash_pub_key(wallet.get_public_key());
    assert_eq!(pkh.len(), 20);
}
