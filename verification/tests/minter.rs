use gsol_minter::audit::{replay, Audited, Event};
use gsol_minter::coupon::{coupon_message_bytes, CouponError};
use gsol_minter::events::{Coupon, PrincipalId, SolanaSignature, SolanaSignatureRange};
use gsol_minter::scraper::{
    apply_classification, apply_mint_outcome, apply_range_failure, apply_range_page,
    apply_signature_discovery, MintOutcome, SignatureInfo, TransactionFetch,
};
use gsol_minter::state::{InitArg, InvalidStateError, State, TaskType, UpgradeArg};
use gsol_minter::withdraw::{
    abort_withdrawal, finalize_redemption, get_coupon_status, get_withdraw_info,
    record_burn_success, start_withdrawal, CouponStatus, WithdrawError,
};

fn init_args() -> InitArg {
    InitArg {
        solana_rpc_url: b"https://api.devnet.solana.com".to_vec(),
        solana_contract_address: b"Prog111111111111111111111111111".to_vec(),
        solana_initial_signature: b"S0".to_vec(),
        ecdsa_key_name: b"dfx_test_key".to_vec(),
        minimum_withdrawal_amount: 100,
    }
}

fn fresh() -> Audited {
    Audited::new(init_args()).expect("valid config")
}

fn principal(tag: u8) -> PrincipalId {
    PrincipalId::new(vec![tag, 1, 2, 3])
}

fn info(sig: &[u8], slot: u64) -> SignatureInfo {
    SignatureInfo { signature: sig.to_vec(), slot }
}

// --- configuration ---------------------------------------------------------

#[test]
fn init_rejects_blank_key_name() {
    let mut args = init_args();
    args.ecdsa_key_name = b"   ".to_vec();
    match State::from_init(args) {
        Err(InvalidStateError::InvalidEcdsaKeyName(_)) => {}
        other => panic!("expected InvalidEcdsaKeyName, got {:?}", other.is_ok()),
    }
}

#[test]
fn init_rejects_blank_contract_address() {
    let mut args = init_args();
    args.solana_contract_address = Vec::new();
    assert!(matches!(
        State::from_init(args),
        Err(InvalidStateError::InvalidSolanaContractAddress(_))
    ));
}

#[test]
fn init_rejects_blank_initial_signature() {
    let mut args = init_args();
    args.solana_initial_signature = b"\t\n".to_vec();
    assert!(matches!(
        State::from_init(args),
        Err(InvalidStateError::InvalidSolanaInitialSignature(_))
    ));
}

#[test]
fn init_rejects_zero_minimum() {
    let mut args = init_args();
    args.minimum_withdrawal_amount = 0;
    assert!(matches!(
        State::from_init(args),
        Err(InvalidStateError::InvalidMinimumWithdrawalAmount(_))
    ));
}

#[test]
fn upgrade_applies_delta_and_validates() {
    let mut a = fresh();
    let delta = UpgradeArg {
        solana_rpc_url: Some(b"https://api.mainnet-beta.solana.com".to_vec()),
        solana_contract_address: None,
        solana_initial_signature: None,
        ecdsa_key_name: None,
        minimum_withdrawal_amount: Some(500),
    };
    assert!(a.upgrade_config(delta).is_ok());
    assert_eq!(a.state.minimum_withdrawal_amount, 500);
    assert_eq!(
        a.state.solana_rpc_url,
        b"https://api.mainnet-beta.solana.com".to_vec()
    );

    let bad = UpgradeArg {
        solana_rpc_url: None,
        solana_contract_address: None,
        solana_initial_signature: None,
        ecdsa_key_name: Some(b" ".to_vec()),
        minimum_withdrawal_amount: None,
    };
    assert!(a.upgrade_config(bad).is_err());
    // untouched on rejection
    assert_eq!(a.state.ecdsa_key_name, b"dfx_test_key".to_vec());
}

// --- discovery -------------------------------------------------------

#[test]
fn discovery_empty_reply_changes_nothing() {
    let mut a = fresh();
    let events_before = a.log.len();
    apply_signature_discovery(&mut a, Vec::new(), 10);
    assert_eq!(a.log.len(), events_before);
    assert_eq!(a.state.get_solana_last_known_signature(), b"S0".to_vec());
    assert!(a.state.solana_signatures.is_empty());
    assert!(a.state.solana_signature_ranges.is_empty());
}

#[test]
fn discovery_short_page_records_signatures_and_watermark() {
    let mut a = fresh();
    let reply = vec![info(b"S3", 30), info(b"S2", 20), info(b"S1", 10)];
    apply_signature_discovery(&mut a, reply, 10);
    assert_eq!(a.state.solana_signatures.len(), 3);
    assert_eq!(a.state.get_solana_last_known_signature(), b"S3".to_vec());
    assert!(a.state.solana_signature_ranges.is_empty());
    let discovered = a
        .log
        .iter()
        .filter(|e| matches!(e, Event::SignatureDiscovered(_)))
        .count();
    assert_eq!(discovered, 3);
    assert!(!a
        .log
        .iter()
        .any(|e| matches!(e, Event::SignatureRangeRecorded(_))));
}

#[test]
fn discovery_full_page_records_subdivision_range() {
    let mut a = fresh();
    let reply = vec![
        info(b"S10", 100),
        info(b"S9", 90),
        info(b"S8", 80),
        info(b"S7", 70),
        info(b"S6", 60),
    ];
    apply_signature_discovery(&mut a, reply, 5);
    assert_eq!(a.state.solana_signatures.len(), 5);
    assert_eq!(a.state.get_solana_last_known_signature(), b"S10".to_vec());
    assert_eq!(a.state.solana_signature_ranges.len(), 1);
    let range = &a.state.solana_signature_ranges[0];
    assert_eq!(range.before_sol_sig, b"S6".to_vec());
    assert_eq!(range.until_sol_sig, b"S0".to_vec());
}

#[test]
fn discovery_one_below_limit_records_no_range() {
    let mut a = fresh();
    let reply = vec![
        info(b"S10", 100),
        info(b"S9", 90),
        info(b"S8", 80),
        info(b"S7", 70),
    ];
    apply_signature_discovery(&mut a, reply, 5);
    assert!(a.state.solana_signature_ranges.is_empty());
    assert_eq!(a.state.get_solana_last_known_signature(), b"S10".to_vec());
}

// --- range resolution ------------------------------------------------

#[test]
fn range_full_page_subdivides() {
    let mut a = fresh();
    let range = SolanaSignatureRange::new(b"S6".to_vec(), b"S0".to_vec());
    a.record_signature_range(range.clone_range());
    let page = vec![info(b"S5", 50), info(b"S4", 40)];
    apply_range_page(&mut a, &range, page, 2);
    assert_eq!(a.state.solana_signature_ranges.len(), 1);
    let sub = &a.state.solana_signature_ranges[0];
    assert_eq!(sub.before_sol_sig, b"S4".to_vec());
    assert_eq!(sub.until_sol_sig, b"S0".to_vec());
    assert_eq!(a.state.solana_signatures.len(), 2);
}

#[test]
fn range_short_page_resolves_and_removes() {
    let mut a = fresh();
    let range = SolanaSignatureRange::new(b"S6".to_vec(), b"S0".to_vec());
    a.record_signature_range(range.clone_range());
    let page = vec![info(b"S5", 50)];
    apply_range_page(&mut a, &range, page, 2);
    assert!(a.state.solana_signature_ranges.is_empty());
    assert_eq!(a.state.solana_signatures.len(), 1);
}

#[test]
fn range_failure_retries_then_drops() {
    let mut a = fresh();
    let range = SolanaSignatureRange::new(b"S6".to_vec(), b"S0".to_vec());
    a.record_signature_range(range.clone_range());
    let dropped = apply_range_failure(&mut a, &range, 5);
    assert!(!dropped);
    assert_eq!(a.state.solana_signature_ranges[0].retry, 1);

    // bring the stored entry to the budget's edge
    for _ in 0..4 {
        let current = a.state.solana_signature_ranges[0].clone_range();
        apply_range_failure(&mut a, &current, 5);
    }
    let current = a.state.solana_signature_ranges[0].clone_range();
    assert_eq!(current.retry, 5);
    let dropped = apply_range_failure(&mut a, &current, 5);
    assert!(dropped);
    assert!(a.state.solana_signature_ranges.is_empty());
}

// --- classification --------------------------------------------------

fn discover_one(a: &mut Audited, sig: &[u8]) -> SolanaSignature {
    apply_signature_discovery(a, vec![info(sig, 7)], 10);
    a.state.signatures_snapshot()[0].clone_signature()
}

#[test]
fn valid_deposit_is_accepted_with_fresh_id() {
    let mut a = fresh();
    let sig = discover_one(&mut a, b"T1");
    let memo = gsol_minter::cbor::encode_deposit_memo(&vec![9, 9, 9], 77);
    let fetch = TransactionFetch::Present {
        fee_payer: b"Sender1".to_vec(),
        memo,
    };
    let accepted = apply_classification(&mut a, &sig, &fetch, 5);
    assert!(accepted);
    assert_eq!(a.state.accepted_events.len(), 1);
    assert_eq!(a.state.accepted_events[0].amount, 77);
    assert_eq!(a.state.accepted_events[0].deposit_id, 0);
    assert_eq!(a.state.deposit_id_counter, 1);
    assert!(a.state.solana_signatures.is_empty());
}

#[test]
fn zero_amount_memo_is_invalid_and_consumes_no_id() {
    let mut a = fresh();
    let sig = discover_one(&mut a, b"T2");
    let memo = gsol_minter::cbor::encode_deposit_memo(&vec![9, 9, 9], 0);
    let fetch = TransactionFetch::Present {
        fee_payer: b"Sender1".to_vec(),
        memo,
    };
    let accepted = apply_classification(&mut a, &sig, &fetch, 5);
    assert!(!accepted);
    assert_eq!(a.state.invalid_events.len(), 1);
    assert!(a.state.accepted_events.is_empty());
    assert_eq!(a.state.deposit_id_counter, 0);
}

#[test]
fn garbage_memo_is_invalid() {
    let mut a = fresh();
    let sig = discover_one(&mut a, b"T3");
    let fetch = TransactionFetch::Present {
        fee_payer: b"Sender1".to_vec(),
        memo: b"not cbor".to_vec(),
    };
    assert!(!apply_classification(&mut a, &sig, &fetch, 5));
    assert_eq!(a.state.invalid_events.len(), 1);
}

#[test]
fn unavailable_transaction_retries_then_goes_invalid() {
    let mut a = fresh();
    let sig = discover_one(&mut a, b"T4");
    assert!(!apply_classification(&mut a, &sig, &TransactionFetch::Unavailable, 5));
    assert_eq!(a.state.solana_signatures[0].retry, 1);

    let mut tired = a.state.signatures_snapshot()[0].clone_signature();
    tired.retry = 5;
    assert!(!apply_classification(&mut a, &tired, &TransactionFetch::Unavailable, 5));
    assert_eq!(a.state.invalid_events.len(), 1);
    assert!(a.state.solana_signatures.is_empty());
}

// --- minting ----------------------------------------------------------

#[test]
fn mint_success_and_duplicate_memo_both_promote() {
    let mut a = fresh();
    let sig = discover_one(&mut a, b"T5");
    let memo = gsol_minter::cbor::encode_deposit_memo(&vec![9], 10);
    let fetch = TransactionFetch::Present {
        fee_payer: b"Sender1".to_vec(),
        memo,
    };
    apply_classification(&mut a, &sig, &fetch, 5);
    let accepted = a.state.accepted_snapshot()[0].clone_deposit();
    apply_mint_outcome(&mut a, &accepted, &MintOutcome::Transient);
    assert_eq!(a.state.accepted_events[0].retry, 1);
    let accepted = a.state.accepted_snapshot()[0].clone_deposit();
    apply_mint_outcome(&mut a, &accepted, &MintOutcome::DuplicateMemo);
    assert!(a.state.accepted_events.is_empty());
    assert_eq!(a.state.minted_events.len(), 1);
    assert_eq!(a.state.minted_events[0].retry, 0);
}

// --- withdrawal engine -------------------------------------------------

#[test]
fn withdrawal_amount_boundary() {
    let mut a = fresh();
    let p = principal(7);
    assert_eq!(
        start_withdrawal(&mut a, &p, 99),
        Err(WithdrawError::AmountTooLow)
    );
    assert!(start_withdrawal(&mut a, &p, 100).is_ok());
}

#[test]
fn withdrawal_rejects_anonymous() {
    let mut a = fresh();
    let p = PrincipalId::anonymous();
    assert_eq!(
        start_withdrawal(&mut a, &p, 1000),
        Err(WithdrawError::AnonymousCaller)
    );
}

#[test]
fn concurrent_withdrawals_one_succeeds_one_already_processing() {
    let mut a = fresh();
    let p = principal(7);
    let first = start_withdrawal(&mut a, &p, 1000);
    assert_eq!(first, Ok(0));
    let second = start_withdrawal(&mut a, &p, 1000);
    assert_eq!(second, Err(WithdrawError::AlreadyProcessing));
    // the slot is released on abort; a new attempt gets a fresh id
    abort_withdrawal(&mut a, &p);
    assert_eq!(start_withdrawal(&mut a, &p, 1000), Ok(1));
}

fn signer() -> (libsecp256k1::SecretKey, Vec<u8>) {
    let sk_bytes: [u8; 32] = [
        1, 2, 3, 4, 5, 6, 7, 8, 9, 10, 11, 12, 13, 14, 15, 16, 17, 18, 19, 20, 21, 22, 23, 24,
        25, 26, 27, 28, 29, 30, 31, 32,
    ];
    let sk = libsecp256k1::SecretKey::parse(&sk_bytes).unwrap();
    let pk = libsecp256k1::PublicKey::from_secret_key(&sk);
    (sk, pk.serialize_compressed().to_vec())
}

fn sign_coupon(burn_id: u64, recipient: &[u8], amount: u128) -> (Vec<u8>, Vec<u8>) {
    let (sk, pk) = signer();
    let message = coupon_message_bytes(burn_id, &recipient.to_vec(), amount);
    let hash = gsol_minter::crypto::sha3_256(&message);
    let msg = libsecp256k1::Message::parse_slice(&hash).unwrap();
    let (sig, _) = libsecp256k1::sign(&msg, &sk);
    (sig.serialize().to_vec(), pk)
}

#[test]
fn crash_between_burn_and_sign_is_recoverable() {
    let mut a = fresh();
    let p = principal(7);
    let burn_id = start_withdrawal(&mut a, &p, 1000).unwrap();
    assert!(record_burn_success(&mut a, &p, b"Sol1".to_vec(), 1000, burn_id, 42));

    // the signer fails here: the burn stays recorded, the coupon is absent
    match get_coupon_status(&a.state, &p, burn_id) {
        CouponStatus::PendingSignature {
            recipient_sol_addr,
            amount,
        } => {
            assert_eq!(recipient_sol_addr, b"Sol1".to_vec());
            assert_eq!(amount, 1000);
        }
        _ => panic!("expected a pending signature"),
    }

    // later, with the signer healthy, the coupon is regenerated
    let (sig, pk) = sign_coupon(burn_id, b"Sol1", 1000);
    let coupon = finalize_redemption(&mut a, burn_id, sig, pk).unwrap();
    assert_eq!(coupon.verify(), Ok(true));

    // repeated reads return byte-identical coupons
    let first = match get_coupon_status(&a.state, &p, burn_id) {
        CouponStatus::Ready(c) => c,
        _ => panic!("expected a coupon"),
    };
    let second = match get_coupon_status(&a.state, &p, burn_id) {
        CouponStatus::Ready(c) => c,
        _ => panic!("expected a coupon"),
    };
    assert_eq!(first.message_hash, second.message_hash);
    assert_eq!(first.signature, second.signature);
    assert_eq!(first.signer_public_key, second.signer_public_key);
    assert_eq!(first.message_hash, coupon.message_hash);
    assert_eq!(first.signature, coupon.signature);
}

#[test]
fn coupon_of_another_principal_is_unauthorized_not_notfound() {
    let mut a = fresh();
    let p = principal(7);
    let stranger = principal(8);
    let burn_id = start_withdrawal(&mut a, &p, 1000).unwrap();
    assert!(record_burn_success(&mut a, &p, b"Sol1".to_vec(), 1000, burn_id, 42));
    assert!(matches!(
        get_coupon_status(&a.state, &stranger, burn_id),
        CouponStatus::Unauthorized
    ));
    assert!(matches!(
        get_coupon_status(&a.state, &stranger, burn_id + 100),
        CouponStatus::NotFound
    ));
}

#[test]
fn finalize_with_wrong_signature_fails_and_keeps_burn() {
    let mut a = fresh();
    let p = principal(7);
    let burn_id = start_withdrawal(&mut a, &p, 1000).unwrap();
    assert!(record_burn_success(&mut a, &p, b"Sol1".to_vec(), 1000, burn_id, 42));
    let (_, pk) = signer();
    let bogus = vec![7u8; 64];
    assert!(matches!(
        finalize_redemption(&mut a, burn_id, bogus, pk),
        Err(WithdrawError::SigningFailed)
    ));
    assert_eq!(a.state.withdrawal_burned_events.len(), 1);
    assert!(matches!(
        finalize_redemption(&mut a, 999, vec![0u8; 64], vec![2u8; 33]),
        Err(WithdrawError::NotFound)
    ));
}

#[test]
fn coupon_verify_rejects_malformed_fields() {
    let (sig, pk) = sign_coupon(5, b"Sol1", 1000);
    let message = coupon_message_bytes(5, &b"Sol1".to_vec(), 1000);
    let hash = gsol_minter::crypto::sha3_256(&message);
    let good = Coupon {
        burn_id: 5,
        recipient_sol_addr: b"Sol1".to_vec(),
        amount: 1000,
        message_hash: hash.clone(),
        signature: sig.clone(),
        signer_public_key: pk.clone(),
    };
    assert_eq!(good.verify(), Ok(true));

    let mut short_hash = good.clone_coupon();
    short_hash.message_hash = vec![0u8; 31];
    assert_eq!(short_hash.verify(), Err(CouponError::InvalidMessageHash));

    let mut short_sig = good.clone_coupon();
    short_sig.signature = vec![0u8; 63];
    assert_eq!(short_sig.verify(), Err(CouponError::InvalidSignature));

    let mut short_pk = good.clone_coupon();
    short_pk.signer_public_key = vec![0u8; 32];
    assert_eq!(short_pk.verify(), Err(CouponError::InvalidPublicKey));

    let mut tampered = good.clone_coupon();
    tampered.amount = 1001;
    assert_eq!(tampered.verify(), Ok(false));
}

// --- event log and replay ----------------------------------------------

#[test]
fn replay_rebuilds_the_live_state() {
    let mut a = fresh();
    apply_signature_discovery(
        &mut a,
        vec![info(b"S3", 30), info(b"S2", 20), info(b"S1", 10)],
        10,
    );
    let sig = a.state.signatures_snapshot()[0].clone_signature();
    let memo = gsol_minter::cbor::encode_deposit_memo(&vec![9, 9], 50);
    let fetch = TransactionFetch::Present {
        fee_payer: b"Sender1".to_vec(),
        memo,
    };
    apply_classification(&mut a, &sig, &fetch, 5);
    let p = principal(7);
    let burn_id = start_withdrawal(&mut a, &p, 1000).unwrap();
    record_burn_success(&mut a, &p, b"Sol1".to_vec(), 1000, burn_id, 42);
    let (sigbytes, pk) = sign_coupon(burn_id, b"Sol1", 1000);
    finalize_redemption(&mut a, burn_id, sigbytes, pk).unwrap();
    a.snapshot_counters();

    let replayed = replay(&a.log).expect("the log must replay");
    assert_eq!(replayed.solana_last_known_signature, a.state.solana_last_known_signature);
    assert_eq!(replayed.solana_signatures.len(), a.state.solana_signatures.len());
    assert_eq!(replayed.accepted_events.len(), a.state.accepted_events.len());
    assert_eq!(
        replayed.withdrawal_redeemed_events.len(),
        a.state.withdrawal_redeemed_events.len()
    );
    assert_eq!(
        replayed.withdrawal_redeemed_events[0].coupon.as_ref().unwrap().signature,
        a.state.withdrawal_redeemed_events[0].coupon.as_ref().unwrap().signature
    );
    assert_eq!(replayed.deposit_id_counter, a.state.deposit_id_counter);
    assert_eq!(replayed.burn_id_counter, a.state.burn_id_counter);
    assert_eq!(replayed.minimum_withdrawal_amount, a.state.minimum_withdrawal_amount);
}

#[test]
fn replay_refuses_a_torn_log() {
    assert!(replay(&Vec::new()).is_none());
    let log = vec![Event::LastDepositIdCounter(3)];
    assert!(replay(&log).is_none());
}

#[test]
fn repeated_discovery_bumps_retry_once() {
    let mut a = fresh();
    apply_signature_discovery(&mut a, vec![info(b"S1", 10)], 10);
    assert_eq!(a.state.solana_signatures[0].retry, 0);
    let again = SolanaSignature::new(b"S1".to_vec(), 10);
    a.record_or_retry_signature(again);
    assert_eq!(a.state.solana_signatures.len(), 1);
    assert_eq!(a.state.solana_signatures[0].retry, 1);
}

// --- task locks ---------------------------------------------------------------

#[test]
fn task_locks_are_exclusive() {
    let mut a = fresh();
    assert!(a.acquire_task(TaskType::GetLatestSignature));
    assert!(!a.acquire_task(TaskType::GetLatestSignature));
    assert!(a.acquire_task(TaskType::MintGSol));
    a.release_task(TaskType::GetLatestSignature);
    assert!(a.acquire_task(TaskType::GetLatestSignature));
}

#[test]
fn withdraw_info_lists_only_the_callers_burns() {
    let mut a = fresh();
    let p = principal(7);
    let q = principal(8);
    let id_p = start_withdrawal(&mut a, &p, 1000).unwrap();
    assert!(record_burn_success(&mut a, &p, b"SolP".to_vec(), 1000, id_p, 1));
    let id_q = start_withdrawal(&mut a, &q, 2000).unwrap();
    assert!(record_burn_success(&mut a, &q, b"SolQ".to_vec(), 2000, id_q, 2));
    let (sig, pk) = sign_coupon(id_q, b"SolQ", 2000);
    finalize_redemption(&mut a, id_q, sig, pk).unwrap();

    let info_p = get_withdraw_info(&a.state, &p);
    assert_eq!(info_p.pending_burn_ids, vec![id_p]);
    assert!(info_p.redeemed_burn_ids.is_empty());
    assert_eq!(info_p.minimum_withdrawal_amount, 100);

    let info_q = get_withdraw_info(&a.state, &q);
    assert!(info_q.pending_burn_ids.is_empty());
    assert_eq!(info_q.redeemed_burn_ids, vec![id_q]);
}

#[test]
fn snapshot_appends_three_events_and_leaves_state_alone() {
    let mut a = fresh();
    // a fresh state has never advanced its watermark
    assert!(a.state.solana_last_known_signature.is_none());
    let before = a.log.len();
    a.snapshot_counters();
    assert!(a.state.solana_last_known_signature.is_none());
    assert_eq!(a.log.len(), before + 3);
    assert!(matches!(&a.log[before], Event::LastKnownSolanaSignature(s) if s == &b"S0".to_vec()));
    assert!(matches!(a.log[before + 1], Event::LastDepositIdCounter(0)));
    assert!(matches!(a.log[before + 2], Event::LastBurnIdCounter(0)));
    // the recovered state answers the same effective watermark
    let replayed = replay(&a.log).expect("the snapshot replays");
    assert_eq!(replayed.get_solana_last_known_signature(), b"S0".to_vec());
    assert_eq!(replayed.deposit_id_counter, 0);
    assert_eq!(replayed.burn_id_counter, 0);
}

#[test]
fn rejected_upgrade_leaves_the_configuration_unchanged() {
    let mut a = fresh();
    let bad = UpgradeArg {
        solana_rpc_url: Some(b"https://example.invalid".to_vec()),
        solana_contract_address: Some(Vec::new()),
        solana_initial_signature: None,
        ecdsa_key_name: None,
        minimum_withdrawal_amount: None,
    };
    assert!(matches!(
        a.state.upgrade(bad),
        Err(InvalidStateError::InvalidSolanaContractAddress(_))
    ));
    // the delta is rejected as a whole: even its valid fields stay unapplied
    assert_eq!(a.state.solana_rpc_url, b"https://api.devnet.solana.com".to_vec());
    assert_eq!(
        a.state.solana_contract_address,
        b"Prog111111111111111111111111111".to_vec()
    );
}
