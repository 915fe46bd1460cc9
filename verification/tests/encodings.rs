use gsol_minter::cbor::{encode_deposit_memo, encode_uint, parse_deposit_memo};
use gsol_minter::crypto::{base64url_encode, hex_encode, sha3_256};
use gsol_minter::scraper::{
    rpc_cycles_cost, should_trigger, signatures_response_size_estimate,
    transactions_response_size_estimate,
};
use gsol_minter::sol_rpc_client::{
    hex_lower_bytes, idempotency_key, next_chain_id, proxy_token_decision, u64_decimal,
    LedgerMemo, SolRpcClient, TokenDecision, SECONDS,
};
use gsol_minter::state::{range_key, State};

#[test]
fn hex_encoding_is_lowercase_high_nibble_first() {
    assert_eq!(hex_encode(&vec![0xbe, 0xef, 0x01]), "beef01".to_string());
    assert_eq!(hex_lower_bytes(&vec![0xbe, 0xef, 0x01]), b"beef01".to_vec());
    assert_eq!(hex_encode(&Vec::new()), String::new());
}

#[test]
fn base64url_unpadded_vectors() {
    assert_eq!(base64url_encode(&b"hello".to_vec()), b"aGVsbG8".to_vec());
    assert_eq!(base64url_encode(&vec![0xfb, 0xef]), b"--8".to_vec());
    assert_eq!(base64url_encode(&Vec::new()), Vec::<u8>::new());
}

#[test]
fn sha3_256_empty_vector() {
    let digest = sha3_256(&Vec::new());
    assert_eq!(
        hex_encode(&digest),
        "a7ffc6f8bf1ed76651c14756a061d662f580ff4de43b49fa82d80a4b80f8434a".to_string()
    );
}

#[test]
fn cbor_uint_is_minimal() {
    assert_eq!(encode_uint(0), vec![0x00]);
    assert_eq!(encode_uint(23), vec![0x17]);
    assert_eq!(encode_uint(24), vec![0x18, 24]);
    assert_eq!(encode_uint(255), vec![0x18, 0xff]);
    assert_eq!(encode_uint(1000), vec![0x19, 0x03, 0xe8]);
    assert_eq!(encode_uint(1_000_000), vec![0x1a, 0x00, 0x0f, 0x42, 0x40]);
    assert_eq!(
        encode_uint(u64::MAX),
        vec![0x1b, 0xff, 0xff, 0xff, 0xff, 0xff, 0xff, 0xff, 0xff]
    );
    // the verified encoder agrees with serde_cbor's canonical form
    for v in [0u64, 23, 24, 255, 256, 65535, 65536, 1 << 40, u64::MAX] {
        assert_eq!(encode_uint(v), serde_cbor::ser::to_vec(&v).unwrap());
    }
}

#[test]
fn ledger_memo_bytes_are_the_cbor_of_the_id() {
    assert_eq!(LedgerMemo(1000).to_memo_bytes(), vec![0x19, 0x03, 0xe8]);
    assert!(LedgerMemo(7).to_memo_bytes().len() <= 32);
}

#[test]
fn deposit_memo_round_trips() {
    let recipient = vec![1u8, 2, 3, 4, 5];
    let memo = encode_deposit_memo(&recipient, 12345);
    let (p, a) = parse_deposit_memo(&memo).expect("canonical memo parses");
    assert_eq!(p, recipient);
    assert_eq!(a, 12345);

    let long = vec![7u8; 29];
    let memo = encode_deposit_memo(&long, 0);
    let (p, a) = parse_deposit_memo(&memo).expect("canonical memo parses");
    assert_eq!(p, long);
    assert_eq!(a, 0);

    assert!(parse_deposit_memo(&b"junk".to_vec()).is_none());
    assert!(parse_deposit_memo(&Vec::new()).is_none());
    // non-minimal integer encodings are refused
    assert!(parse_deposit_memo(&vec![0x82, 0x41, 9, 0x18, 7]).is_none());
}

#[test]
fn range_key_joins_markers() {
    assert_eq!(range_key(&b"S6".to_vec(), &b"S0".to_vec()), b"S6-S0".to_vec());
}

#[test]
fn response_budgets_and_cycles() {
    assert_eq!(signatures_response_size_estimate(10), 10 * 500 + 2048);
    assert_eq!(transactions_response_size_estimate(4), 4 * 4096 + 2048);
    let est = 7048u64;
    assert_eq!(
        rpc_cycles_cost(est),
        (400_000_000u128 + 100_000u128 * 2 * est as u128) * 34 / 13
    );
}

#[test]
fn trigger_throttle_boundary() {
    assert!(!should_trigger(100, 100, 50));
    assert!(!should_trigger(100, 150, 50));
    assert!(should_trigger(100, 151, 50));
    assert!(!should_trigger(200, 100, 50));
}

#[test]
fn proxy_token_refresh_rule() {
    let now_ns = 1_000 * SECONDS;
    match proxy_token_decision(999, now_ns) {
        TokenDecision::Refresh {
            cache_expiry,
            token_expiry,
        } => {
            assert_eq!(cache_expiry, 1_000 + 3600);
            assert_eq!(token_expiry, 1_000 + 3600 + 120);
        }
        TokenDecision::Reuse => panic!("an expired token must refresh"),
    }
    // a token expiring at the current second is already stale
    assert!(matches!(
        proxy_token_decision(1_000, now_ns),
        TokenDecision::Refresh { .. }
    ));
    assert!(matches!(
        proxy_token_decision(1_001, now_ns),
        TokenDecision::Reuse
    ));
}

#[test]
fn decimal_rendering() {
    assert_eq!(u64_decimal(0), b"0".to_vec());
    assert_eq!(u64_decimal(907), b"907".to_vec());
    assert_eq!(u64_decimal(u64::MAX), b"18446744073709551615".to_vec());
}

#[test]
fn chain_id_rolls_and_keys_are_urlsafe() {
    let chain = vec![0u8; 32];
    let next = next_chain_id(&chain, 123_456_789);
    assert_eq!(next.len(), 32);
    let next2 = next_chain_id(&next, 123_456_790);
    assert_ne!(next, next2);
    let key = idempotency_key(&next);
    assert_eq!(key.len(), 43);
    assert!(key.iter().all(|b| b.is_ascii_alphanumeric() || *b == b'-' || *b == b'_'));
}

#[test]
fn client_carries_the_configured_url() {
    let c = SolRpcClient::new(b"https://api.devnet.solana.com".to_vec());
    assert_eq!(c.rpc_url, b"https://api.devnet.solana.com".to_vec());
    assert_eq!(c.request_url(), b"https://api.devnet.solana.com".to_vec());
    let state = State::from_init(gsol_minter::state::InitArg {
        solana_rpc_url: b"https://api.devnet.solana.com".to_vec(),
        solana_contract_address: b"Prog".to_vec(),
        solana_initial_signature: b"S0".to_vec(),
        ecdsa_key_name: b"key_1".to_vec(),
        minimum_withdrawal_amount: 1,
    })
    .unwrap();
    let c2 = SolRpcClient::from_state(&state);
    assert_eq!(c2.rpc_url, c.rpc_url);
}

#[test]
fn public_key_rendering() {
    let compressed =
        hex::decode("023848ffecda8dccb6960db7d42c4accac0fa6dfc4419f1eef7b59991e979498f7").unwrap();
    let mut state = State::from_init(gsol_minter::state::InitArg {
        solana_rpc_url: b"u".to_vec(),
        solana_contract_address: b"c".to_vec(),
        solana_initial_signature: b"s".to_vec(),
        ecdsa_key_name: b"k".to_vec(),
        minimum_withdrawal_amount: 1,
    })
    .unwrap();
    state.ecdsa_public_key = Some(compressed.clone());
    assert_eq!(
        state.compressed_public_key(),
        "023848ffecda8dccb6960db7d42c4accac0fa6dfc4419f1eef7b59991e979498f7".to_string()
    );
    let uncompressed = state.uncompressed_public_key().expect("a valid curve point");
    assert_eq!(uncompressed.len(), 130);
    assert!(uncompressed.starts_with("04"));
}

#[test]
fn test_to_bytearray() {
    let hex = "023848ffecda8dccb6960db7d42c4accac0fa6dfc4419f1eef7b59991e979498f7";
    let array = hex::decode(hex).unwrap();
    let pk = libsecp256k1::PublicKey::parse_slice(
        &array,
        Some(libsecp256k1::PublicKeyFormat::Compressed),
    )
    .unwrap();
    println!("{:?}", pk.serialize());
    println!("{:?}", pk.serialize().len());
}
