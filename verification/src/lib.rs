//! A minimal proof-of-work blockchain library: blocks, UTXO-based
//! transactions with ECDSA signatures, wallets with Base58 addresses,
//! a persistent block store, and the message handling of a small
//! gossip protocol.

mod ascii;
mod block;
mod blockchain;
mod bytesutil;
mod codec;
mod config;
mod crypto;
mod errors;
mod hexcode;
mod memory_pool;
mod node;
mod proof_of_work;
mod server;
mod store;
mod transaction;
mod txverify;
mod utxo_set;
mod utxoscan;
mod wallets;
mod wallet;

pub use ascii::ascii_to_bytes;
pub use block::Block;
pub use blockchain::Blockchain;
pub use transaction::Transaction;
pub use transaction::TxInput;
pub use transaction::TxOutput;
pub use server::send_block;
pub use server::send_get_blocks;
pub use server::send_get_data;
pub use server::send_inv;
pub use server::send_tx;
pub use server::send_version;
pub use server::centeral_node;
pub use server::OpType;
pub use server::OutMsg;
pub use server::Package;
pub use server::ServerState;
pub use server::NODE_VERSION;
pub use server::TRANSACTION_THRESHOLD;
pub use utxo_set::UTXOSet;
pub use wallet::convert_address;
pub use wallet::hash_pub_key;
pub use wallet::validate_address;
pub use wallet::Wallet;
pub use wallet::ADDRESS_CHECKSUM_LEN;
pub use wallets::Wallets;
pub use crypto::base58_decode;
pub use crypto::base58_encode;
pub use crypto::current_timestamp;
pub use crypto::ecdsa_p256_sha256_sign_digest;
pub use crypto::ecdsa_p256_sha256_sign_verify;
pub use crypto::new_key_pair;
pub use crypto::ripemd160_digest;
pub use crypto::sha256_digest;
pub use config::Config;
pub use errors::ChainError;
pub use memory_pool::BlockInTransit;
pub use memory_pool::MemoryPool;
pub use node::Node;
pub use node::Nodes;
pub use proof_of_work::ProofOfWork;
pub use hexcode::hex_decode;
pub use hexcode::hex_encode;
