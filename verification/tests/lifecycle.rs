use gold_lifecycle::addressing::{derive_metadata_record_id, derive_provenance_record_id, derive_record_id, AccountId};
use gold_lifecycle::errors::LifecycleError;
use gold_lifecycle::holding::HoldingMetadata;
use gold_lifecycle::system::AssetSystem;

const PROGRAM_ID: [u8; 32] = [7u8; 32];

const GOLD: AccountId = AccountId(1);
const AUTHORITY: AccountId = AccountId(10);
const ALICE: AccountId = AccountId(11);
const BOB: AccountId = AccountId(12);
const HOLDING_A: AccountId = AccountId(21);
const HOLDING_B: AccountId = AccountId(22);

fn fresh_system() -> AssetSystem {
    let mut sys = AssetSystem::new(PROGRAM_ID);
    let r = sys.initialize_asset_class(
        GOLD,
        AUTHORITY,
        9,
        "Gold Gram".to_string(),
        "GGRM".to_string(),
        "Responsible mine".to_string(),
        999,
        "Certified".to_string(),
    );
    assert_eq!(r, Ok(()));
    sys
}

#[test]
fn addressing_is_deterministic() {
    let keys = vec![GOLD, HOLDING_A];
    let ns = b"token_info".to_vec();
    let first = derive_record_id(&ns, &keys, &PROGRAM_ID).unwrap();
    let second = derive_record_id(&ns, &keys, &PROGRAM_ID).unwrap();
    assert_eq!(first, second);
}

#[test]
fn addressing_separates_distinct_inputs() {
    let ns = b"token_info".to_vec();
    let a = derive_record_id(&ns, &vec![GOLD, HOLDING_A], &PROGRAM_ID).unwrap();
    let b = derive_record_id(&ns, &vec![GOLD, HOLDING_B], &PROGRAM_ID).unwrap();
    let c = derive_record_id(&b"provenance".to_vec(), &vec![GOLD, HOLDING_A], &PROGRAM_ID).unwrap();
    let d = derive_record_id(&ns, &vec![GOLD, HOLDING_A], &[8u8; 32]).unwrap();
    assert_ne!(a, b);
    assert_ne!(a, c);
    assert_ne!(a, d);
}

#[test]
fn addressing_matches_program_derived_addresses() {
    let pid = anchor_lang::prelude::Pubkey::new_from_array(PROGRAM_ID);
    let class_bytes = GOLD.0.to_le_bytes();
    let holding_bytes = HOLDING_A.0.to_le_bytes();
    let (expected, _bump) = anchor_lang::prelude::Pubkey::find_program_address(
        &[b"token_info", &class_bytes, &holding_bytes],
        &pid,
    );
    let got = derive_metadata_record_id(GOLD, HOLDING_A, &PROGRAM_ID).unwrap();
    assert_eq!(got, expected.to_bytes().to_vec());

    let (expected_prov, _bump) =
        anchor_lang::prelude::Pubkey::find_program_address(&[b"provenance", &class_bytes], &pid);
    let got_prov = derive_provenance_record_id(GOLD, &PROGRAM_ID).unwrap();
    assert_eq!(got_prov, expected_prov.to_bytes().to_vec());
}

#[test]
fn initialize_rejects_duplicate_class() {
    let mut sys = fresh_system();
    let r = sys.initialize_asset_class(
        GOLD,
        AUTHORITY,
        9,
        "Gold Gram".to_string(),
        "GGRM".to_string(),
        "Elsewhere".to_string(),
        995,
        "None".to_string(),
    );
    assert_eq!(r, Err(LifecycleError::ClassAlreadyExists));
}

#[test]
fn issue_with_lock_sets_metadata_and_gates_transform() {
    let mut sys = fresh_system();
    let now = 1_000_000;
    assert_eq!(sys.open_holding(GOLD, ALICE, HOLDING_A), Ok(()));
    assert_eq!(sys.issue(GOLD, AUTHORITY, HOLDING_A, 1000, Some(86400), now), Ok(()));
    assert_eq!(sys.balance_of(HOLDING_A), 1000);

    let meta = sys.holding_metadata_of(GOLD, HOLDING_A).unwrap();
    assert_eq!(meta.holding_start, Some(now));
    assert_eq!(meta.lock_period, Some(86400));
    assert!(!meta.transformed);

    let early = sys.transform(GOLD, ALICE, HOLDING_A, now + 86399);
    assert_eq!(early, Err(LifecycleError::InsufficientHoldingPeriod));
    assert_eq!(sys.balance_of(HOLDING_A), 1000);

    let on_time = sys.transform(GOLD, ALICE, HOLDING_A, now + 86400);
    assert_eq!(on_time, Ok(1000));
    assert_eq!(sys.balance_of(HOLDING_A), 0);
    let meta = sys.holding_metadata_of(GOLD, HOLDING_A).unwrap();
    assert!(meta.transformed);
}

#[test]
fn second_transform_always_fails() {
    let mut sys = fresh_system();
    assert_eq!(sys.open_holding(GOLD, ALICE, HOLDING_A), Ok(()));
    assert_eq!(sys.issue(GOLD, AUTHORITY, HOLDING_A, 5, Some(0), 100), Ok(()));
    assert_eq!(sys.transform(GOLD, ALICE, HOLDING_A, 100), Ok(5));
    for much_later in [101, 1_000_000, u64::MAX] {
        let again = sys.transform(GOLD, ALICE, HOLDING_A, much_later);
        assert_eq!(again, Err(LifecycleError::AlreadyTransformed));
    }
}

#[test]
fn transformed_holding_cannot_be_relocked() {
    let mut sys = fresh_system();
    assert_eq!(sys.open_holding(GOLD, ALICE, HOLDING_A), Ok(()));
    assert_eq!(sys.issue(GOLD, AUTHORITY, HOLDING_A, 5, Some(0), 100), Ok(()));
    assert_eq!(sys.transform(GOLD, ALICE, HOLDING_A, 100), Ok(5));
    let relock = sys.issue(GOLD, AUTHORITY, HOLDING_A, 1, Some(10), 200);
    assert_eq!(relock, Err(LifecycleError::AlreadyTransformed));
}

#[test]
fn relock_of_locked_holding_is_rejected() {
    let mut sys = fresh_system();
    assert_eq!(sys.open_holding(GOLD, ALICE, HOLDING_A), Ok(()));
    assert_eq!(sys.issue(GOLD, AUTHORITY, HOLDING_A, 100, Some(1000), 50), Ok(()));
    let relock = sys.issue(GOLD, AUTHORITY, HOLDING_A, 100, Some(1), 60);
    assert_eq!(relock, Err(LifecycleError::AlreadyLocked));
    // The clock of the first lock is untouched.
    let meta = sys.holding_metadata_of(GOLD, HOLDING_A).unwrap();
    assert_eq!(meta.holding_start, Some(50));
    assert_eq!(meta.lock_period, Some(1000));
    // Issuing more without a lock is still accepted.
    assert_eq!(sys.issue(GOLD, AUTHORITY, HOLDING_A, 23, None, 70), Ok(()));
    assert_eq!(sys.balance_of(HOLDING_A), 123);
}

#[test]
fn transfer_moves_balance_and_appends_one_record() {
    let mut sys = fresh_system();
    assert_eq!(sys.open_holding(GOLD, ALICE, HOLDING_A), Ok(()));
    assert_eq!(sys.open_holding(GOLD, BOB, HOLDING_B), Ok(()));
    assert_eq!(sys.issue(GOLD, AUTHORITY, HOLDING_A, 1000, None, 10), Ok(()));
    assert_eq!(sys.balance_of(HOLDING_A), 1000);
    assert_eq!(sys.balance_of(HOLDING_B), 0);

    assert_eq!(sys.transfer(GOLD, ALICE, HOLDING_A, HOLDING_B, 500, 11), Ok(()));
    assert_eq!(sys.balance_of(HOLDING_A), 500);
    assert_eq!(sys.balance_of(HOLDING_B), 500);

    let history = sys.query_history(GOLD).unwrap();
    assert_eq!(history.len(), 1);
    assert_eq!(history[0].from, HOLDING_A);
    assert_eq!(history[0].to, HOLDING_B);
    assert_eq!(history[0].amount, 500);
    assert_eq!(history[0].timestamp, 11);
}

#[test]
fn overdrawn_transfer_fails_and_ledger_is_unchanged() {
    let mut sys = fresh_system();
    assert_eq!(sys.open_holding(GOLD, ALICE, HOLDING_A), Ok(()));
    assert_eq!(sys.open_holding(GOLD, BOB, HOLDING_B), Ok(()));
    assert_eq!(sys.issue(GOLD, AUTHORITY, HOLDING_A, 300, None, 10), Ok(()));
    let r = sys.transfer(GOLD, ALICE, HOLDING_A, HOLDING_B, 301, 11);
    assert_eq!(r, Err(LifecycleError::InsufficientBalance));
    assert_eq!(sys.balance_of(HOLDING_A), 300);
    assert_eq!(sys.balance_of(HOLDING_B), 0);
    assert_eq!(sys.query_history(GOLD).unwrap().len(), 0);
}

#[test]
fn history_keeps_call_order_not_timestamp_order() {
    let mut sys = fresh_system();
    assert_eq!(sys.open_holding(GOLD, ALICE, HOLDING_A), Ok(()));
    assert_eq!(sys.open_holding(GOLD, BOB, HOLDING_B), Ok(()));
    assert_eq!(sys.issue(GOLD, AUTHORITY, HOLDING_A, 1000, None, 10), Ok(()));
    // Timestamps arrive out of order; append order must win.
    assert_eq!(sys.transfer(GOLD, ALICE, HOLDING_A, HOLDING_B, 100, 900), Ok(()));
    assert_eq!(sys.transfer(GOLD, ALICE, HOLDING_A, HOLDING_B, 200, 50), Ok(()));
    let history = sys.query_history(GOLD).unwrap();
    assert_eq!(history.len(), 2);
    assert_eq!(history[0].amount, 100);
    assert_eq!(history[0].timestamp, 900);
    assert_eq!(history[1].amount, 200);
    assert_eq!(history[1].timestamp, 50);
}

#[test]
fn issue_by_non_authority_is_rejected() {
    let mut sys = fresh_system();
    assert_eq!(sys.open_holding(GOLD, ALICE, HOLDING_A), Ok(()));
    let r = sys.issue(GOLD, ALICE, HOLDING_A, 1000, None, 10);
    assert_eq!(r, Err(LifecycleError::InvalidAuthority));
    assert_eq!(sys.balance_of(HOLDING_A), 0);
}

#[test]
fn transfer_by_non_owner_is_rejected() {
    let mut sys = fresh_system();
    assert_eq!(sys.open_holding(GOLD, ALICE, HOLDING_A), Ok(()));
    assert_eq!(sys.open_holding(GOLD, BOB, HOLDING_B), Ok(()));
    assert_eq!(sys.issue(GOLD, AUTHORITY, HOLDING_A, 10, None, 10), Ok(()));
    let r = sys.transfer(GOLD, BOB, HOLDING_A, HOLDING_B, 5, 11);
    assert_eq!(r, Err(LifecycleError::Unauthorized));
    assert_eq!(sys.balance_of(HOLDING_A), 10);
}

#[test]
fn zero_amount_operations_are_rejected() {
    let mut sys = fresh_system();
    assert_eq!(sys.open_holding(GOLD, ALICE, HOLDING_A), Ok(()));
    assert_eq!(sys.open_holding(GOLD, BOB, HOLDING_B), Ok(()));
    assert_eq!(
        sys.issue(GOLD, AUTHORITY, HOLDING_A, 0, None, 10),
        Err(LifecycleError::InvalidAmount)
    );
    assert_eq!(
        sys.transfer(GOLD, ALICE, HOLDING_A, HOLDING_B, 0, 11),
        Err(LifecycleError::InvalidAmount)
    );
}

#[test]
fn self_transfer_is_rejected() {
    let mut sys = fresh_system();
    assert_eq!(sys.open_holding(GOLD, ALICE, HOLDING_A), Ok(()));
    assert_eq!(sys.issue(GOLD, AUTHORITY, HOLDING_A, 10, None, 10), Ok(()));
    let r = sys.transfer(GOLD, ALICE, HOLDING_A, HOLDING_A, 5, 11);
    assert_eq!(r, Err(LifecycleError::SelfTransfer));
    assert_eq!(sys.balance_of(HOLDING_A), 10);
}

#[test]
fn unknown_class_and_unknown_holding_are_rejected() {
    let mut sys = fresh_system();
    let missing_class = AccountId(99);
    assert_eq!(
        sys.issue(missing_class, AUTHORITY, HOLDING_A, 10, None, 1),
        Err(LifecycleError::UnknownAssetClass)
    );
    assert_eq!(
        sys.open_holding(missing_class, ALICE, HOLDING_A),
        Err(LifecycleError::UnknownAssetClass)
    );
    assert_eq!(sys.query_history(missing_class), Err(LifecycleError::UnknownAssetClass));
    assert_eq!(
        sys.issue(GOLD, AUTHORITY, HOLDING_A, 10, None, 1),
        Err(LifecycleError::UnknownHolding)
    );
}

#[test]
fn balance_overflow_is_rejected() {
    let mut sys = fresh_system();
    assert_eq!(sys.open_holding(GOLD, ALICE, HOLDING_A), Ok(()));
    assert_eq!(sys.issue(GOLD, AUTHORITY, HOLDING_A, u64::MAX, None, 1), Ok(()));
    assert_eq!(
        sys.issue(GOLD, AUTHORITY, HOLDING_A, 1, None, 2),
        Err(LifecycleError::BalanceOverflow)
    );
    assert_eq!(sys.balance_of(HOLDING_A), u64::MAX);
}

#[test]
fn holding_of_wrong_class_is_a_data_integrity_violation() {
    let mut sys = fresh_system();
    let silver = AccountId(2);
    assert_eq!(
        sys.initialize_asset_class(
            silver,
            AUTHORITY,
            9,
            "Silver Gram".to_string(),
            "SGRM".to_string(),
            "Responsible mine".to_string(),
            999,
            "Certified".to_string(),
        ),
        Ok(())
    );
    assert_eq!(sys.open_holding(GOLD, ALICE, HOLDING_A), Ok(()));
    assert_eq!(
        sys.issue(silver, AUTHORITY, HOLDING_A, 10, None, 1),
        Err(LifecycleError::DataIntegrityViolation)
    );
    assert_eq!(
        sys.open_holding(silver, ALICE, HOLDING_A),
        Err(LifecycleError::DataIntegrityViolation)
    );
}

#[test]
fn reopening_a_holding_is_idempotent() {
    let mut sys = fresh_system();
    assert_eq!(sys.open_holding(GOLD, ALICE, HOLDING_A), Ok(()));
    assert_eq!(sys.issue(GOLD, AUTHORITY, HOLDING_A, 42, None, 1), Ok(()));
    assert_eq!(sys.open_holding(GOLD, ALICE, HOLDING_A), Ok(()));
    assert_eq!(sys.balance_of(HOLDING_A), 42);
}

#[test]
fn zero_period_lock_is_immediately_eligible() {
    let mut sys = fresh_system();
    assert_eq!(sys.open_holding(GOLD, ALICE, HOLDING_A), Ok(()));
    assert_eq!(sys.issue(GOLD, AUTHORITY, HOLDING_A, 7, Some(0), 1000), Ok(()));
    assert_eq!(sys.transform(GOLD, ALICE, HOLDING_A, 1000), Ok(7));
}

#[test]
fn transform_without_lock_is_rejected() {
    let mut sys = fresh_system();
    assert_eq!(sys.open_holding(GOLD, ALICE, HOLDING_A), Ok(()));
    assert_eq!(sys.issue(GOLD, AUTHORITY, HOLDING_A, 7, None, 1000), Ok(()));
    assert_eq!(
        sys.transform(GOLD, ALICE, HOLDING_A, u64::MAX),
        Err(LifecycleError::InsufficientHoldingPeriod)
    );
}

#[test]
fn overlong_seed_lists_cannot_be_addressed() {
    // Past the seed-count limit of the derivation no address exists.
    let ns = b"token_info".to_vec();
    let many = vec![AccountId(0); 20];
    assert_eq!(derive_record_id(&ns, &many, &PROGRAM_ID), None);
}

#[test]
fn half_locked_record_fails_closed() {
    // A record with a start but no period is corrupt: it must never read
    // as eligible, and it can neither transform nor take a new lock.
    let broken = HoldingMetadata { holding_start: Some(100), lock_period: None, transformed: false };
    assert_eq!(broken.check_transform(u64::MAX), Err(LifecycleError::DataIntegrityViolation));
    let mut relock = broken;
    assert_eq!(relock.lock(1, 1), Err(LifecycleError::DataIntegrityViolation));
    assert_eq!(relock, broken);
}

#[test]
fn descriptive_metadata_update_is_authority_gated() {
    let mut sys = fresh_system();
    let denied = sys.update_class_metadata(
        GOLD,
        ALICE,
        "Other".to_string(),
        "OTH".to_string(),
        "Elsewhere".to_string(),
        900,
        "None".to_string(),
    );
    assert_eq!(denied, Err(LifecycleError::InvalidAuthority));
    let accepted = sys.update_class_metadata(
        GOLD,
        AUTHORITY,
        "Gold Gram Mk2".to_string(),
        "GGRM2".to_string(),
        "Responsible mine".to_string(),
        999,
        "Certified".to_string(),
    );
    assert_eq!(accepted, Ok(()));
}

#[test]
fn fresh_holding_metadata_is_unlocked() {
    let sys = fresh_system();
    let meta = sys.holding_metadata_of(GOLD, HOLDING_A).unwrap();
    assert_eq!(meta, HoldingMetadata::new_unlocked());
    assert_eq!(meta.holding_start, None);
    assert_eq!(meta.lock_period, None);
    assert!(!meta.transformed);
}
