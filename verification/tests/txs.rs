use ethers::signers::Signer;
use evm_ink_rs::{
    batch_bounds, batch_count, build_batch, decode_hex, default_prefix, derive_address,
    hex_encode_prefixed, Config, GasPrice,
};

fn bytes(s: &str) -> Vec<u8> {
    s.as_bytes().to_vec()
}

fn test_key() -> Vec<u8> {
    let mut k = vec![0u8; 32];
    k[31] = 1;
    k
}

fn prepared_config(data: &str, count: u64, batch_size: u64, sender: &Vec<u8>) -> Config {
    let mut config = Config {
        prefix: default_prefix(),
        rpc_url: bytes("http://localhost:8545"),
        private_key: bytes("01"),
        address: Vec::new(),
        to_address: None,
        max_fee_per_gas: bytes("2"),
        max_priority_fee_per_gas: Some(bytes("1")),
        gas_limit: 50000,
        count,
        data: bytes(data),
        hex_text: None,
        id: None,
        value: bytes("0"),
        batch_size,
        interval: bytes("0"),
    };
    config.prepare_account(sender).unwrap();
    config
}

fn expand(config: &mut Config) -> String {
    let hex = config.get_hex_text();
    String::from_utf8(decode_hex(&hex).unwrap()).unwrap()
}

#[test]
fn bounded_range_caps_count_and_advances() {
    let sender = bytes("0x00a329c0648769a73afac7f9381e08fb43dbea72");
    let mut config = prepared_config(r#"{"id":"[1200-1202]"}"#, 10, 100, &sender);
    assert_eq!(config.count, 3);
    let first_hex = config.get_hex_text();
    assert_eq!(
        String::from_utf8(first_hex.clone()).unwrap(),
        ethers::utils::hex::encode_prefixed(br#"data:,{"id":"1200"}"#)
    );
    assert_eq!(
        String::from_utf8(decode_hex(&first_hex).unwrap()).unwrap(),
        r#"data:,{"id":"1200"}"#
    );
    assert_eq!(expand(&mut config), r#"data:,{"id":"1201"}"#);
    assert_eq!(expand(&mut config), r#"data:,{"id":"1202"}"#);
    assert_eq!(batch_count(config.count, config.batch_size), 1);
}

#[test]
fn descending_range_substitutes_address() {
    let sender = bytes("0x00a329c0648769a73afac7f9381e08fb43dbea72");
    let mut config = prepared_config(r#"{"id":"[-2000]","to":"[address]"}"#, 2, 100, &sender);
    assert_eq!(
        expand(&mut config),
        r#"data:,{"id":"2000","to":"0x00a329c0648769a73afac7f9381e08fb43dbea72"}"#
    );
    assert_eq!(
        expand(&mut config),
        r#"data:,{"id":"1999","to":"0x00a329c0648769a73afac7f9381e08fb43dbea72"}"#
    );
}

#[test]
fn unbounded_ascending_range() {
    let sender = bytes("0x00a329c0648769a73afac7f9381e08fb43dbea72");
    let mut config = prepared_config(r#"{"id":"[1200-]"}"#, 5, 100, &sender);
    assert_eq!(config.count, 5);
    for expected in 1200..1205u64 {
        assert_eq!(expand(&mut config), format!(r#"data:,{{"id":"{}"}}"#, expected));
    }
}

#[test]
fn raw_hex_data_is_used_verbatim() {
    let sender = bytes("0x00a329c0648769a73afac7f9381e08fb43dbea72");
    let mut config = prepared_config("0xdeadbeef", 3, 100, &sender);
    for _ in 0..3 {
        assert_eq!(config.get_hex_text(), bytes("0xdeadbeef"));
    }
}

#[test]
fn expansion_leaves_no_address_marker() {
    let sender = bytes("0x00a329c0648769a73afac7f9381e08fb43dbea72");
    let mut config = prepared_config(r#"[address][address]x[address]"#, 1, 100, &sender);
    let text = expand(&mut config);
    assert!(!text.contains("[address]"));
    assert_eq!(
        text,
        format!(
            "data:,{0}{0}x{0}",
            "0x00a329c0648769a73afac7f9381e08fb43dbea72"
        )
    );
}

#[test]
fn batches_partition_count_and_nonces() {
    assert_eq!(batch_count(10, 3), 4);
    assert_eq!(batch_count(9, 3), 3);
    assert_eq!(batch_count(0, 3), 0);
    assert_eq!(batch_count(1, 100), 1);
    let mut total = 0;
    let mut prev_end = 0;
    for i in 0..batch_count(10, 3) {
        let (start, end) = batch_bounds(i, 10, 3);
        assert_eq!(start, prev_end);
        total += end - start;
        prev_end = end;
    }
    assert_eq!(total, 10);
    assert_eq!(prev_end, 10);
}

#[test]
fn absent_id_gives_identical_payloads_across_batches() {
    let sender = bytes("0x00a329c0648769a73afac7f9381e08fb43dbea72");
    let key = test_key();
    let to = vec![0x11u8; 20];
    let mut config = prepared_config(r#"{"no":"id"}"#, 4, 2, &sender);
    assert!(config.id.is_none());
    let gas_price = config.init_gas_price().unwrap();
    let nonce0 = 5u64;
    let mut nonce = nonce0;
    let mut raws: Vec<Vec<u8>> = Vec::new();
    let bc = batch_count(config.count, config.batch_size);
    assert_eq!(bc, 2);
    for i in 0..bc {
        let (start, end) = batch_bounds(i, config.count, config.batch_size);
        assert_eq!(end - start, 2);
        let batch =
            build_batch(&mut config, &gas_price, &key, 1, &to, &mut nonce, start, end).unwrap();
        assert_eq!(batch.len(), 2);
        raws.extend(batch);
    }
    assert_eq!(nonce, nonce0 + 4);
    assert_eq!(raws.len(), 4);
    for raw in &raws {
        // EIP-1559 envelope, hex-encoded for the wire.
        assert!(raw.starts_with(b"0x02"));
    }
    // Same payload everywhere, different nonces: all four raw transactions
    // are distinct, but re-signing with the same starting nonce reproduces
    // them exactly.
    for a in 0..4 {
        for b in (a + 1)..4 {
            assert_ne!(raws[a], raws[b]);
        }
    }
    let mut config2 = prepared_config(r#"{"no":"id"}"#, 4, 2, &sender);
    let mut nonce2 = nonce0;
    let again = build_batch(&mut config2, &gas_price, &key, 1, &to, &mut nonce2, 0, 4).unwrap();
    assert_eq!(again, raws);
}

#[test]
fn derived_address_matches_signer_library() {
    let key = test_key();
    let addr = derive_address(&key).unwrap();
    let wallet = ethers::signers::Wallet::from_bytes(&key).unwrap();
    assert_eq!(addr, wallet.address().as_bytes().to_vec());
    // The canonical text form round-trips through the hex encoder.
    let text = hex_encode_prefixed(&addr);
    assert_eq!(
        String::from_utf8(text).unwrap(),
        format!("{:?}", wallet.address())
    );
}

#[test]
fn eip1559_raw_matches_direct_signing() {
    let key = test_key();
    let to = vec![0x11u8; 20];
    let sender = bytes("0x00a329c0648769a73afac7f9381e08fb43dbea72");
    let mut config = prepared_config("0xdeadbeef", 1, 100, &sender);
    let gas_price = GasPrice {
        eip1559: true,
        max_fee_per_gas: 2_000_000_000,
        max_priority_fee_per_gas: 1_000_000_000,
        value: 7,
    };
    let mut nonce = 9u64;
    let batch = build_batch(&mut config, &gas_price, &key, 5, &to, &mut nonce, 0, 1).unwrap();

    let wallet = ethers::signers::Wallet::from_bytes(&key).unwrap().with_chain_id(5u64);
    let tx: ethers::types::transaction::eip2718::TypedTransaction =
        ethers::types::Eip1559TransactionRequest::new()
            .chain_id(5u64)
            .from(wallet.address())
            .to(ethers::types::Address::from_slice(&to))
            .value(ethers::types::U256::from(7u64))
            .max_fee_per_gas(ethers::types::U256::from(2_000_000_000u64))
            .max_priority_fee_per_gas(ethers::types::U256::from(1_000_000_000u64))
            .gas(50000u64)
            .nonce(9u64)
            .data(vec![0xdeu8, 0xad, 0xbe, 0xef])
            .access_list(vec![])
            .into();
    let sig = wallet.sign_transaction_sync(&tx).unwrap();
    let expected = format!("0x{}", ethers::utils::hex::encode(tx.rlp_signed(&sig)));
    assert_eq!(String::from_utf8(batch[0].clone()).unwrap(), expected);
}

#[test]
fn legacy_raw_matches_direct_signing() {
    let key = test_key();
    let to = vec![0x22u8; 20];
    let sender = bytes("0x00a329c0648769a73afac7f9381e08fb43dbea72");
    let mut config = prepared_config("0xdeadbeef", 1, 100, &sender);
    let gas_price = GasPrice {
        eip1559: false,
        max_fee_per_gas: 3_000_000_000,
        max_priority_fee_per_gas: 0,
        value: 0,
    };
    let mut nonce = 0u64;
    let batch = build_batch(&mut config, &gas_price, &key, 1, &to, &mut nonce, 0, 1).unwrap();

    let wallet = ethers::signers::Wallet::from_bytes(&key).unwrap().with_chain_id(1u64);
    let tx: ethers::types::transaction::eip2718::TypedTransaction =
        ethers::types::TransactionRequest::new()
            .chain_id(1u64)
            .from(wallet.address())
            .to(ethers::types::Address::from_slice(&to))
            .value(ethers::types::U256::from(0u64))
            .nonce(0u64)
            .data(vec![0xdeu8, 0xad, 0xbe, 0xef])
            .gas(50000u64)
            .gas_price(ethers::types::U256::from(3_000_000_000u64))
            .into();
    let sig = wallet.sign_transaction_sync(&tx).unwrap();
    let expected = format!("0x{}", ethers::utils::hex::encode(tx.rlp_signed(&sig)));
    assert_eq!(String::from_utf8(batch[0].clone()).unwrap(), expected);
}

#[test]
fn bad_raw_hex_payload_is_rejected() {
    let sender = bytes("0x00a329c0648769a73afac7f9381e08fb43dbea72");
    let key = test_key();
    let to = vec![0x11u8; 20];
    let mut config = prepared_config("0xnothex", 1, 100, &sender);
    let gas_price = config.init_gas_price().unwrap();
    let mut nonce = 0u64;
    let r = build_batch(&mut config, &gas_price, &key, 1, &to, &mut nonce, 0, 1);
    assert!(matches!(r, Err(evm_ink_rs::BuildError::BadPayload)));
}

#[test]
fn batch_body_is_the_json_rpc_wire_form() {
    let items = vec![bytes("0xaa"), bytes("0xbb")];
    let body = evm_ink_rs::batch_request_body(&items);
    let expected = format!(
        "[{}{}",
        r#"{"jsonrpc":"2.0","method":"eth_sendRawTransaction","params":["0xaa"],"id":0},"#,
        r#"{"jsonrpc":"2.0","method":"eth_sendRawTransaction","params":["0xbb"],"id":1}]"#
    );
    assert_eq!(String::from_utf8(body.clone()).unwrap(), expected);
    // The body is well-formed JSON with the fields the node reads.
    let parsed: Vec<serde_json::Value> = serde_json::from_slice(&body).unwrap();
    assert_eq!(parsed.len(), 2);
    assert_eq!(parsed[1]["method"], "eth_sendRawTransaction");
    assert_eq!(parsed[1]["params"][0], "0xbb");
    assert_eq!(parsed[1]["id"], 1);
    assert_eq!(
        String::from_utf8(evm_ink_rs::batch_request_body(&Vec::new())).unwrap(),
        "[]"
    );
}

#[test]
fn zero_key_is_rejected_by_the_signer() {
    // An all-zero key is no secp256k1 scalar: address derivation and
    // signing both refuse it, and the batch surfaces the signer's error.
    let zero_key = vec![0u8; 32];
    assert!(derive_address(&zero_key).is_err());
    let sender = bytes("0x00a329c0648769a73afac7f9381e08fb43dbea72");
    let to = vec![0x11u8; 20];
    let mut config = prepared_config("0xdeadbeef", 1, 100, &sender);
    let gas_price = config.init_gas_price().unwrap();
    let mut nonce = 0u64;
    let r = build_batch(&mut config, &gas_price, &zero_key, 1, &to, &mut nonce, 0, 1);
    assert!(matches!(r, Err(evm_ink_rs::BuildError::Sign(_))));
}
