use blockchain::convert_address;
use blockchain::hash_pub_key;
use blockchain::hex_decode;
use blockchain::hex_encode;
use blockchain::validate_address;
use blockchain::Nodes;
use blockchain::Transaction;
use blockchain::Wallet;
use blockchain::Wallets;

#[test]
fn test_new_wallets() {
    let mut wallets = Wallets::new();
    let address = wallets.create_wallet().unwrap();

    println!("The new wallet address is {}", address);
}

#[test]
fn test_evict_nodes() {
    let nodes = &mut Nodes::new();
    nodes.add_node(String::from("127.0.0.1:2001"));
    nodes.add_node(String::from("127.0.0.1:2002"));
    nodes.add_node(String::from("127.0.0.1:2003"));

    assert_eq!(nodes.first().unwrap().get_addr(), "127.0.0.1:2001");

    nodes.evict_node("127.0.0.1:2001");
    assert_eq!(nodes.first().unwrap().get_addr(), "127.0.0.1:2002");
}

#[test]
fn hex_spells_bytes_in_lowercase() {
    assert_eq!(hex_encode(&[0x00u8, 0xab, 0xff, 0x10]), "00abff10");
    assert_eq!(hex_encode(&[]), "");
}

#[test]
fn hex_decoding_inverts_encoding() {
    let data: Vec<u8> = vec![0, 1, 2, 0x7f, 0x80, 0xff, 0xde, 0xad];
    let spelled = hex_encode(data.as_slice());
    let back = hex_decode(spelled.as_str()).unwrap();
    assert_eq!(back, data);
}

#[test]
fn hex_decoding_rejects_bad_spellings() {
    assert!(hex_decode("abc").is_none());
    assert!(hex_decode("zz").is_none());
    assert!(hex_decode("AB").is_none());
    assert_eq!(hex_decode("").unwrap(), Vec::<u8>::new());
}

#[test]
fn fresh_wallet_addresses_validate() {
    let wallet = Wallet::new().unwrap();
    let address = wallet.get_address();
    assert!(validate_address(address.as_str()));

    let pub_key_hash = hash_pub_key(wallet.get_public_key());
    assert_eq!(convert_address(pub_key_hash.as_slice()), address);
}

#[test]
fn corrupted_addresses_fail_validation() {
    let wallet = Wallet::new().unwrap();
    let address = wallet.get_address();

    let mut chars: Vec<char> = address.chars().collect();
    let original = chars[1];
    chars[1] = if original == '2' { '3' } else { '2' };
    let corrupted: String = chars.into_iter().collect();
    assert!(!validate_address(corrupted.as_str()));

    assert!(!validate_address("not-an-address!"));
    assert!(!validate_address(""));
}

#[test]
fn coinbase_shape_and_predicate() {
    let wallet = Wallet::new().unwrap();
    let address = wallet.get_address();
    let tx = Transaction::new_coinbase_tx(address.as_str()).unwrap();
    assert!(tx.is_coinbase());
    assert_eq!(tx.get_vin().len(), 1);
    assert_eq!(tx.get_vin()[0].get_pub_key().len(), 0);
    assert_eq!(tx.get_vout().len(), 1);
    assert_eq!(tx.get_vout()[0].get_cost(), 10);
    assert_eq!(tx.get_id().len(), 32);
}

#[test]
fn coinbase_to_invalid_address_is_refused() {
    assert!(Transaction::new_coinbase_tx("!!").is_none());
}

#[test]
fn transactions_round_trip_through_their_bytes() {
    let wallet = Wallet::new().unwrap();
    let address = wallet.get_address();
    let tx = Transaction::new_coinbase_tx(address.as_str()).unwrap();
    let bytes = tx.serialize();
    let back = Transaction::deserialize(bytes.as_slice()).unwrap();
    assert_eq!(back.get_id(), tx.get_id());
    assert_eq!(back.get_vin().len(), tx.get_vin().len());
    assert_eq!(back.get_vout().len(), tx.get_vout().len());
    assert_eq!(back.get_vout()[0].get_cost(), 10);
    assert_eq!(back.serialize(), bytes);

    let mut truncated = bytes.clone();
    truncated.pop();
    assert!(Transaction::deserialize(truncated.as_slice()).is_none());
}
