use evm_ink_rs::{
    decode_hex, default_batch_size, default_gas_limit, default_prefix, execution_addresses,
    hex_encode_prefixed, parse_units, process_id, u64_to_dec, Config, ConfigError, HexError,
    UnitsError,
};

fn bytes(s: &str) -> Vec<u8> {
    s.as_bytes().to_vec()
}

fn base_config(data: &str, count: u64, batch_size: u64) -> Config {
    Config {
        prefix: default_prefix(),
        rpc_url: bytes("http://localhost:8545"),
        private_key: bytes("0x0000000000000000000000000000000000000000000000000000000000000001"),
        address: Vec::new(),
        to_address: None,
        max_fee_per_gas: bytes("1.5"),
        max_priority_fee_per_gas: Some(bytes("1")),
        gas_limit: default_gas_limit(),
        count,
        data: bytes(data),
        hex_text: None,
        id: None,
        value: bytes("0"),
        batch_size,
        interval: bytes("0"),
    }
}

#[test]
fn regex_test() {
    let text = bytes(r#"{"p":"erc-20","op":"mint","tick":"pi","id":"6227","amt":"1000"}"#);
    let (id, seed, range) = process_id(&text);
    assert!(id.is_none());
    assert!(seed.is_none());
    assert_eq!(range, u64::MAX);

    let text = bytes(
        r#"{"p":"erc-20","op":"mint","tick":"pi","id":"[1200-]","to":"[address]","amt":"1000"}"#,
    );
    let (id, _, _) = process_id(&text);
    let id = id.unwrap();
    assert_eq!(id.start_id, Some(1200));
    assert_eq!(id.end_id, None);

    let text = bytes(
        r#"{"p":"erc-20","op":"mint","tick":"pi","id":"[-2000]","to":"[address]","amt":"1000"}"#,
    );
    let (id, _, _) = process_id(&text);
    let id = id.unwrap();
    assert_eq!(id.start_id, None);
    assert_eq!(id.end_id, Some(2000));

    let text = bytes(
        r#"{"p":"erc-20","op":"mint","tick":"pi","id":"[1200-2000]","to":"[address]","amt":"1000"}"#,
    );
    let (id, _, _) = process_id(&text);
    let id = id.unwrap();
    assert_eq!(id.start_id, Some(1200));
    assert_eq!(id.end_id, Some(2000));
}

#[test]
fn marker_parsing_details() {
    // Bounded range: seeded at the start, range = end - start + 1.
    let (id, seed, range) = process_id(&bytes(r#"{"id":"[1200-1202]"}"#));
    let id = id.unwrap();
    assert_eq!(id.id, 1200);
    assert_eq!(id.match_id, bytes("[1200-1202]"));
    assert_eq!(seed, Some(1200));
    assert_eq!(range, 3);

    // Descending: seeded at the end, unbounded.
    let (id, seed, range) = process_id(&bytes(r#"{"id":"[-2000]"}"#));
    assert_eq!(id.unwrap().id, 2000);
    assert_eq!(seed, Some(2000));
    assert_eq!(range, u64::MAX);

    // A marker with no digits at all is treated as no marker.
    let (id, seed, range) = process_id(&bytes(r#"{"id":"[-]"}"#));
    assert!(id.is_none());
    assert!(seed.is_none());
    assert_eq!(range, u64::MAX);

    // Digits that overflow u64 are treated as an absent bound.
    let (id, _, range) = process_id(&bytes("[99999999999999999999-2000]"));
    let id = id.unwrap();
    assert_eq!(id.start_id, None);
    assert_eq!(id.end_id, Some(2000));
    assert_eq!(id.id, 2000);
    assert_eq!(range, u64::MAX);

    // Inverted bounds allow no identifiers at all.
    let (_, _, range) = process_id(&bytes("[2000-1200]"));
    assert_eq!(range, 0);

    // The first marker wins.
    let (id, _, _) = process_id(&bytes("[7-] and [9-]"));
    assert_eq!(id.unwrap().match_id, bytes("[7-]"));
}

#[test]
fn decimal_rendering() {
    assert_eq!(u64_to_dec(0), bytes("0"));
    assert_eq!(u64_to_dec(7), bytes("7"));
    assert_eq!(u64_to_dec(1200), bytes("1200"));
    assert_eq!(u64_to_dec(u64::MAX), bytes("18446744073709551615"));
}

#[test]
fn hex_round_trip_and_shape() {
    let data = bytes("data:,hello");
    let enc = hex_encode_prefixed(&data);
    assert_eq!(enc.len(), 2 + 2 * data.len());
    assert_eq!(&enc[0..2], b"0x");
    for &c in &enc[2..] {
        assert!(c.is_ascii_hexdigit() && !c.is_ascii_uppercase());
    }
    assert_eq!(decode_hex(&enc).unwrap(), data);
    // Cross-check the encoding against the client library's encoder.
    assert_eq!(
        String::from_utf8(enc).unwrap(),
        ethers::utils::hex::encode_prefixed(&data)
    );
}

#[test]
fn hex_decode_errors() {
    assert_eq!(decode_hex(&bytes("0xabc")), Err(HexError::OddLength));
    assert_eq!(decode_hex(&bytes("0xzz")), Err(HexError::InvalidDigit));
    assert_eq!(decode_hex(&bytes("DEADbeef")).unwrap(), vec![0xde, 0xad, 0xbe, 0xef]);
    assert_eq!(decode_hex(&bytes("0Xff")).unwrap(), vec![0xff]);
    assert_eq!(decode_hex(&bytes("")).unwrap(), Vec::<u8>::new());
}

#[test]
fn unit_parsing() {
    assert_eq!(parse_units(&bytes("1.5"), 9), Ok(1_500_000_000));
    assert_eq!(parse_units(&bytes("0"), 18), Ok(0));
    assert_eq!(parse_units(&bytes("2"), 9), Ok(2_000_000_000));
    // Fractional digits beyond the scale are truncated toward zero.
    assert_eq!(parse_units(&bytes("0.0000000019"), 9), Ok(1));
    assert_eq!(parse_units(&bytes("1."), 9), Ok(1_000_000_000));
    assert_eq!(parse_units(&bytes("abc"), 9), Err(UnitsError::Malformed));
    assert_eq!(parse_units(&bytes("1.2.3"), 9), Err(UnitsError::Malformed));
    assert_eq!(parse_units(&bytes(""), 9), Err(UnitsError::Malformed));
    assert_eq!(parse_units(&bytes(".5"), 9), Ok(500_000_000));
    assert_eq!(parse_units(&bytes("."), 9), Err(UnitsError::Malformed));
    assert_eq!(
        parse_units(&bytes("999999999999999999999999999999999999999"), 9),
        Err(UnitsError::Overflow)
    );
    // Cross-check against the client library's unit parser.
    let ours = parse_units(&bytes("1.5"), 9).unwrap();
    let theirs: ethers::types::U256 = ethers::utils::parse_units("1.5", "gwei").unwrap().into();
    assert_eq!(ethers::types::U256::from(ours), theirs);
    let ours = parse_units(&bytes("0.125"), 18).unwrap();
    let theirs: ethers::types::U256 = ethers::utils::parse_units("0.125", "ether").unwrap().into();
    assert_eq!(ethers::types::U256::from(ours), theirs);
}

#[test]
fn gas_price_initialization() {
    let config = base_config(r#"{"id":"[1-2]"}"#, 2, 100);
    let g = config.init_gas_price().unwrap();
    assert!(g.eip1559);
    assert_eq!(g.max_fee_per_gas, 1_500_000_000);
    assert_eq!(g.max_priority_fee_per_gas, 1_000_000_000);
    assert_eq!(g.value, 0);

    let mut legacy = base_config(r#"{"id":"[1-2]"}"#, 2, 100);
    legacy.max_priority_fee_per_gas = None;
    legacy.value = bytes("0.5");
    let g = legacy.init_gas_price().unwrap();
    assert!(!g.eip1559);
    assert_eq!(g.max_priority_fee_per_gas, 0);
    assert_eq!(g.value, 500_000_000_000_000_000);

    let mut bad = base_config("x", 1, 100);
    bad.max_fee_per_gas = bytes("fast");
    assert!(matches!(bad.init_gas_price(), Err(UnitsError::Malformed)));
}

#[test]
fn empty_data_is_fatal() {
    let mut config = base_config("", 4, 100);
    let sender = bytes("0x00a329c0648769a73afac7f9381e08fb43dbea72");
    assert_eq!(config.prepare_account(&sender), Err(ConfigError::EmptyData));
    // Nothing was touched.
    assert!(config.id.is_none());
    assert_eq!(config.count, 4);
}

#[test]
fn bad_to_address_is_fatal() {
    let mut config = base_config(r#"{"x":1}"#, 1, 100);
    config.to_address = Some(bytes("not-an-address"));
    let sender = bytes("0x00a329c0648769a73afac7f9381e08fb43dbea72");
    assert_eq!(config.prepare_account(&sender), Err(ConfigError::BadToAddress));
    config.to_address = Some(bytes("0xabcd"));
    assert_eq!(config.prepare_account(&sender), Err(ConfigError::BadToAddress));
}

#[test]
fn to_address_defaults_and_canonicalizes() {
    let sender = bytes("0x00a329c0648769a73afac7f9381e08fb43dbea72");
    let mut config = base_config(r#"{"x":1}"#, 1, 100);
    config.prepare_account(&sender).unwrap();
    assert_eq!(config.to_address, Some(sender.clone()));
    assert_eq!(config.address, sender);

    let mut config = base_config(r#"{"x":1}"#, 1, 100);
    config.to_address = Some(bytes(""));
    config.prepare_account(&sender).unwrap();
    assert_eq!(config.to_address, Some(sender.clone()));

    let mut config = base_config(r#"{"x":1}"#, 1, 100);
    config.to_address = Some(bytes("0xDEADBEEFDEADBEEFDEADBEEFDEADBEEFDEADBEEF"));
    config.prepare_account(&sender).unwrap();
    assert_eq!(
        config.to_address,
        Some(bytes("0xdeadbeefdeadbeefdeadbeefdeadbeefdeadbeef"))
    );
}

#[test]
fn wallet_lines_yield_one_config_each() {
    let base = base_config(r#"{"x":1}"#, 1, 100);
    let text = bytes("0xaaa----key1\nlabel----0x02----key2\r\n  key3  \n");
    let out = execution_addresses(base, Some(&text));
    assert_eq!(out.len(), 3);
    assert_eq!(out[0].private_key, bytes("key1"));
    assert_eq!(out[1].private_key, bytes("key2"));
    assert_eq!(out[2].private_key, bytes("key3"));
    for c in &out {
        assert_eq!(c.data, bytes(r#"{"x":1}"#));
        assert_eq!(c.count, 1);
    }
    // Cross-check the field splitting against the standard library.
    for line in ["0xaaa----key1", "label----0x02----key2", "a------b", "------"] {
        let expected = line.split("----").last().unwrap().trim();
        let out = execution_addresses(
            base_config("d", 1, 100),
            Some(&bytes(line)),
        );
        assert_eq!(out[0].private_key, bytes(expected), "line {:?}", line);
    }
}

#[test]
fn no_wallets_file_keeps_base_config() {
    let base = base_config(r#"{"x":1}"#, 1, 100);
    let out = execution_addresses(base, None);
    assert_eq!(out.len(), 1);
    assert_eq!(out[0].private_key.len(), 66);
}

#[test]
fn default_values() {
    assert_eq!(default_prefix(), bytes("data:,"));
    assert_eq!(default_gas_limit(), 50000);
    assert_eq!(default_batch_size(), 100);
}
