use blockchain::centeral_node;
use blockchain::hash_pub_key;
use blockchain::BlockInTransit;
use blockchain::Blockchain;
use blockchain::Config;
use blockchain::MemoryPool;
use blockchain::Nodes;
use blockchain::OutMsg;
use blockchain::Package;
use blockchain::ServerState;
use blockchain::Transaction;
use blockchain::UTXOSet;
use blockchain::Wallet;
use blockchain::TRANSACTION_THRESHOLD;

fn temp_db() -> sled::Db {
    sled::Config::new().temporary(true).open().unwrap()
}

fn balance(utxo_set: &UTXOSet, wallet: &Wallet) -> i64 {
    let pkh = hash_pub_key(wallet.get_public_key());
    let outs = utxo_set.find_utxo(pkh.as_slice()).unwrap();
    let mut total: i64 = 0;
    for o in &outs {
        total += o.get_cost() as i64;
    }
    total
}

#[test]
fn mempool_keeps_one_entry_per_id() {
    let mut pool = MemoryPool::new();
    assert_eq!(pool.len(), 0);

    let wallet = Wallet::new().unwrap();
    let addr = wallet.get_address();
    let tx = Transaction::new_coinbase_tx(addr.as_str()).unwrap();
    let txid_hex = blockchain::hex_encode(tx.get_id());

    assert!(!pool.contains(txid_hex.as_str()));
    pool.add(tx.clone());
    assert!(pool.contains(txid_hex.as_str()));
    assert_eq!(pool.len(), 1);

    pool.add(tx.clone());
    assert_eq!(pool.len(), 1);

    let held = pool.get(txid_hex.as_str()).unwrap();
    assert_eq!(held.get_id(), tx.get_id());
    assert_eq!(pool.get_all().len(), 1);

    pool.remove(txid_hex.as_str());
    assert!(!pool.contains(txid_hex.as_str()));
    assert_eq!(pool.len(), 0);
}

#[test]
fn the_transit_queue_hands_out_the_first_hash() {
    let mut transit = BlockInTransit::new();
    assert!(transit.first().is_none());

    transit.add_blocks(&[vec![1u8, 2], vec![3u8, 4], vec![5u8, 6]]);
    assert_eq!(transit.len(), 3);
    assert_eq!(transit.first().unwrap(), vec![1u8, 2]);

    transit.remove(&[1u8, 2]);
    assert_eq!(transit.first().unwrap(), vec![3u8, 4]);

    transit.clear();
    assert_eq!(transit.len(), 0);
}

#[test]
fn config_tracks_the_mining_address() {
    let mut config = Config::new(String::from("127.0.0.1:2002"));
    assert_eq!(config.get_node_addr(), "127.0.0.1:2002");
    assert!(!config.is_miner());
    assert!(config.get_mining_addr().is_none());

    config.set_mining_addr(String::from("somewhere"));
    assert!(config.is_miner());
    assert_eq!(config.get_mining_addr().unwrap(), "somewhere");
}

fn copy_db(src: &sled::Db) -> sled::Db {
    let dst = temp_db();
    let src_tree = src.open_tree("blocks").unwrap();
    let dst_tree = dst.open_tree("blocks").unwrap();
    for item in src_tree.iter() {
        let (k, v) = item.unwrap();
        dst_tree.insert(k, v).unwrap();
    }
    dst
}

fn deliver(states: &mut [(String, ServerState)], from: &str, msgs: Vec<OutMsg>) -> Vec<OutMsg> {
    let mut produced = Vec::new();
    for msg in msgs {
        for (addr, state) in states.iter_mut() {
            if *addr == msg.dest {
                let pkg = clone_package(&msg.pkg);
                let mut replies = state.handle_package(from, pkg).unwrap();
                produced.append(&mut replies);
            }
        }
    }
    produced
}

fn clone_package(pkg: &Package) -> Package {
    match pkg {
        Package::Block { addr_from, block } => Package::Block {
            addr_from: addr_from.clone(),
            block: block.clone(),
        },
        Package::GetBlocks { addr_from } => Package::GetBlocks { addr_from: addr_from.clone() },
        Package::GetData { addr_from, op_type, id } => Package::GetData {
            addr_from: addr_from.clone(),
            op_type: op_type.clone(),
            id: id.clone(),
        },
        Package::Inv { addr_from, op_type, items } => Package::Inv {
            addr_from: addr_from.clone(),
            op_type: op_type.clone(),
            items: items.clone(),
        },
        Package::Tx { addr_from, transaction } => Package::Tx {
            addr_from: addr_from.clone(),
            transaction: transaction.clone(),
        },
        Package::Version { addr_from, version, best_height } => Package::Version {
            addr_from: addr_from.clone(),
            version: *version,
            best_height: *best_height,
        },
    }
}

#[test]
fn a_miner_builds_a_block_and_the_central_node_adopts_it() {
    let central_addr = centeral_node();
    let miner_addr = String::from("127.0.0.1:2002");

    let wallet_a = Wallet::new().unwrap();
    let wallet_b = Wallet::new().unwrap();
    let wallet_m = Wallet::new().unwrap();
    let addr_a = wallet_a.get_address();
    let addr_b = wallet_b.get_address();

    // The central node owns the chain; the miner starts from a copy.
    let central_db = temp_db();
    let central_db_handle = central_db.clone();
    let central_bc = Blockchain::create_blockchain(addr_a.as_str(), central_db).unwrap();
    let mut central_utxo = UTXOSet::new(central_bc).unwrap();
    central_utxo.reindex().unwrap();

    let miner_bc = Blockchain::open_blockchain(copy_db(&central_db_handle)).unwrap();
    let mut miner_utxo = UTXOSet::new(miner_bc).unwrap();
    miner_utxo.reindex().unwrap();

    let mut central_nodes = Nodes::new();
    central_nodes.add_node(central_addr.clone());
    central_nodes.add_node(miner_addr.clone());
    let central = ServerState {
        utxo_set: central_utxo,
        mempool: MemoryPool::new(),
        blocks_in_transit: BlockInTransit::new(),
        nodes: central_nodes,
        config: Config::new(central_addr.clone()),
    };

    let mut miner_nodes = Nodes::new();
    miner_nodes.add_node(central_addr.clone());
    let mut miner_config = Config::new(miner_addr.clone());
    miner_config.set_mining_addr(wallet_m.get_address());
    let miner = ServerState {
        utxo_set: miner_utxo,
        mempool: MemoryPool::new(),
        blocks_in_transit: BlockInTransit::new(),
        nodes: miner_nodes,
        config: miner_config,
    };

    let mut states = vec![(central_addr.clone(), central), (miner_addr.clone(), miner)];

    // Two transfers reach the central node; it re-announces each, the
    // miner fetches them, and the second one pushes the pool to the
    // threshold, which makes the miner build and announce a block.
    assert_eq!(TRANSACTION_THRESHOLD, 2);
    for amount in [3i32, 2i32] {
        let tx = {
            let central_state = &states[0].1;
            Transaction::new_utxo_transaction(
                &wallet_a,
                addr_b.as_str(),
                amount,
                &central_state.utxo_set,
            )
            .unwrap()
        };
        let pkg = Package::Tx { addr_from: String::from("127.0.0.1:9999"), transaction: tx.serialize() };
        let mut msgs = states[0].1.handle_package("127.0.0.1:9999", pkg).unwrap();
        // Announcements ripple until no node has anything left to say.
        while !msgs.is_empty() {
            msgs = deliver(&mut states, "peer", msgs);
        }
    }

    // The miner mined one block over both transfers.
    let miner_height = states[1].1.utxo_set.get_blockchain().get_best_height().unwrap();
    assert_eq!(miner_height, 1);

    // The central node adopted it and its index reflects the spends.
    let central_height = states[0].1.utxo_set.get_blockchain().get_best_height().unwrap();
    assert_eq!(central_height, 1);
    assert_eq!(
        states[0].1.utxo_set.get_blockchain().get_tip_hash(),
        states[1].1.utxo_set.get_blockchain().get_tip_hash()
    );
    assert_eq!(balance(&states[0].1.utxo_set, &wallet_b), 5);
    // Both transfers were built against the same index state, so both
    // spend the genesis output and both changes (7 and 8) stand.
    assert_eq!(balance(&states[0].1.utxo_set, &wallet_a), 15);
    assert_eq!(balance(&states[0].1.utxo_set, &wallet_m), 10);

    // The miner's pool was drained.
    assert_eq!(states[1].1.mempool.len(), 0);
}
