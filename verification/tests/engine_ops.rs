use gucc::engine::{InitializeEvent, MintTokens, Redeem, ResolveEvent, SettlementEngine};
use gucc::errors::GuccError;
use gucc::ids::AccountId;

fn id(value: u64) -> AccountId {
    AccountId { value }
}

const USDC: u64 = 1;
const OTHER_MINT: u64 = 2;

/// An engine with one event "e1" (oracle 10, vault 100, bump 255) and one
/// funded user 20 holding `funding` on token account 200.
fn engine_with_event_and_user(funding: u64) -> SettlementEngine {
    let mut s = SettlementEngine::new();
    s.initialize_event(
        &InitializeEvent { authority: id(9), usdc_mint: id(USDC), vault: id(100), bump: 255 },
        "e1".to_string(),
        "will the network be congested".to_string(),
        1_700_000_000,
        id(10),
    )
    .unwrap();
    s.create_token_account(id(200), id(USDC), id(20)).unwrap();
    s.fund_token_account(id(200), funding).unwrap();
    s
}

fn deposit(s: &mut SettlementEngine, amount: u64) -> Result<(), GuccError> {
    s.mint_tokens(
        &MintTokens {
            congestion_event: "e1".to_string(),
            user: id(20),
            user_token_account: id(200),
        },
        amount,
    )
}

fn resolve(s: &mut SettlementEngine, signer: AccountId, outcome: bool) -> Result<(), GuccError> {
    s.resolve_event(&ResolveEvent { congestion_event: "e1".to_string(), oracle: signer }, outcome)
}

fn redeem_to(s: &mut SettlementEngine, account: u64) -> Result<(), GuccError> {
    s.redeem(&Redeem {
        congestion_event: "e1".to_string(),
        user: id(20),
        user_token_account: id(account),
    })
}

#[test]
fn initialize_event_creates_record_and_empty_vault() {
    let s = engine_with_event_and_user(0);
    let key = "e1".to_string();
    let e = s.get_event(&key).unwrap();
    assert_eq!(e.authority, id(9));
    assert_eq!(e.event_id, "e1");
    assert_eq!(e.description, "will the network be congested");
    assert_eq!(e.settlement_time, 1_700_000_000);
    assert_eq!(e.oracle, id(10));
    assert!(!e.resolved);
    assert!(!e.outcome);
    assert_eq!(e.usdc_mint, id(USDC));
    assert_eq!(e.vault, id(100));
    assert_eq!(e.bump, 255);
    assert_eq!(s.vault_balance(&key), Some(0));
    assert!(s.get_position(&key, id(20)).is_none());
}

#[test]
fn initialize_event_rejects_duplicate_identity() {
    let mut s = engine_with_event_and_user(0);
    let r = s.initialize_event(
        &InitializeEvent { authority: id(9), usdc_mint: id(USDC), vault: id(101), bump: 254 },
        "e1".to_string(),
        "a second market under the same name".to_string(),
        2_000_000_000,
        id(11),
    );
    assert_eq!(r, Err(GuccError::AccountInUse));
    let key = "e1".to_string();
    let e = s.get_event(&key).unwrap();
    assert_eq!(e.oracle, id(10));
    assert_eq!(e.vault, id(100));
}

#[test]
fn initialize_event_rejects_taken_vault_identity() {
    let mut s = engine_with_event_and_user(0);
    let r = s.initialize_event(
        &InitializeEvent { authority: id(9), usdc_mint: id(USDC), vault: id(200), bump: 254 },
        "e2".to_string(),
        "vault identity already a user account".to_string(),
        2_000_000_000,
        id(10),
    );
    assert_eq!(r, Err(GuccError::AccountInUse));
    let key = "e2".to_string();
    assert!(s.get_event(&key).is_none());
}

#[test]
fn deposit_mints_hedged_pair() {
    let mut s = engine_with_event_and_user(500);
    deposit(&mut s, 100).unwrap();
    let key = "e1".to_string();
    let p = s.get_position(&key, id(20)).unwrap();
    assert_eq!(p.owner, id(20));
    assert_eq!(p.event, "e1");
    assert_eq!(p.yes_amount, 100);
    assert_eq!(p.no_amount, 100);
    assert_eq!(s.vault_balance(&key), Some(100));
    assert_eq!(s.token_balance(id(200)), Some(400));
}

#[test]
fn deposits_accumulate_across_calls() {
    let mut s = engine_with_event_and_user(500);
    deposit(&mut s, 30).unwrap();
    deposit(&mut s, 45).unwrap();
    let key = "e1".to_string();
    let p = s.get_position(&key, id(20)).unwrap();
    assert_eq!(p.yes_amount, 75);
    assert_eq!(p.no_amount, 75);
    assert_eq!(s.vault_balance(&key), Some(75));
    assert_eq!(s.token_balance(id(200)), Some(425));
}

#[test]
fn deposit_of_zero_is_not_rejected() {
    let mut s = engine_with_event_and_user(0);
    deposit(&mut s, 0).unwrap();
    let key = "e1".to_string();
    let p = s.get_position(&key, id(20)).unwrap();
    assert_eq!(p.yes_amount, 0);
    assert_eq!(p.no_amount, 0);
    assert_eq!(s.vault_balance(&key), Some(0));
}

#[test]
fn deposit_on_unknown_event_fails() {
    let mut s = engine_with_event_and_user(100);
    let r = s.mint_tokens(
        &MintTokens {
            congestion_event: "nope".to_string(),
            user: id(20),
            user_token_account: id(200),
        },
        10,
    );
    assert_eq!(r, Err(GuccError::UnknownEvent));
    assert_eq!(s.token_balance(id(200)), Some(100));
}

#[test]
fn deposit_overflow_is_fatal_and_atomic() {
    let mut s = engine_with_event_and_user(u64::MAX);
    deposit(&mut s, u64::MAX).unwrap();
    s.fund_token_account(id(200), 5).unwrap();
    let r = deposit(&mut s, 1);
    assert_eq!(r, Err(GuccError::Overflow));
    let key = "e1".to_string();
    let p = s.get_position(&key, id(20)).unwrap();
    assert_eq!(p.yes_amount, u64::MAX);
    assert_eq!(p.no_amount, u64::MAX);
    // the failed deposit moved no funds
    assert_eq!(s.token_balance(id(200)), Some(5));
    assert_eq!(s.vault_balance(&key), Some(u64::MAX));
}

#[test]
fn deposit_with_insufficient_funds_fails_and_moves_nothing() {
    let mut s = engine_with_event_and_user(40);
    let r = deposit(&mut s, 41);
    assert_eq!(r, Err(GuccError::InsufficientBalance));
    let key = "e1".to_string();
    assert!(s.get_position(&key, id(20)).is_none());
    assert_eq!(s.token_balance(id(200)), Some(40));
    assert_eq!(s.vault_balance(&key), Some(0));
}

#[test]
fn deposit_from_wrong_mint_fails() {
    let mut s = engine_with_event_and_user(0);
    s.create_token_account(id(201), id(OTHER_MINT), id(20)).unwrap();
    s.fund_token_account(id(201), 50).unwrap();
    let r = s.mint_tokens(
        &MintTokens {
            congestion_event: "e1".to_string(),
            user: id(20),
            user_token_account: id(201),
        },
        50,
    );
    assert_eq!(r, Err(GuccError::MintMismatch));
    assert_eq!(s.token_balance(id(201)), Some(50));
}

#[test]
fn deposit_from_account_the_signer_does_not_own_fails() {
    let mut s = engine_with_event_and_user(0);
    s.create_token_account(id(202), id(USDC), id(21)).unwrap();
    s.fund_token_account(id(202), 50).unwrap();
    let r = s.mint_tokens(
        &MintTokens {
            congestion_event: "e1".to_string(),
            user: id(20),
            user_token_account: id(202),
        },
        50,
    );
    assert_eq!(r, Err(GuccError::Unauthorized));
    assert_eq!(s.token_balance(id(202)), Some(50));
}

#[test]
fn resolve_records_outcome() {
    let mut s = engine_with_event_and_user(0);
    resolve(&mut s, id(10), true).unwrap();
    let key = "e1".to_string();
    let e = s.get_event(&key).unwrap();
    assert!(e.resolved);
    assert!(e.outcome);
}

#[test]
fn resolve_twice_fails_and_outcome_stands() {
    let mut s = engine_with_event_and_user(0);
    resolve(&mut s, id(10), true).unwrap();
    let r = resolve(&mut s, id(10), false);
    assert_eq!(r, Err(GuccError::AlreadyResolved));
    let key = "e1".to_string();
    let e = s.get_event(&key).unwrap();
    assert!(e.resolved);
    assert!(e.outcome);
}

#[test]
fn resolve_by_non_oracle_fails_regardless_of_outcome() {
    let mut s = engine_with_event_and_user(0);
    assert_eq!(resolve(&mut s, id(11), true), Err(GuccError::OracleMismatch));
    assert_eq!(resolve(&mut s, id(11), false), Err(GuccError::OracleMismatch));
    let key = "e1".to_string();
    assert!(!s.get_event(&key).unwrap().resolved);
    // and the real oracle still can resolve afterwards
    resolve(&mut s, id(10), false).unwrap();
    assert!(s.get_event(&key).unwrap().resolved);
    assert!(!s.get_event(&key).unwrap().outcome);
}

#[test]
fn resolve_unknown_event_fails() {
    let mut s = engine_with_event_and_user(0);
    let r = s.resolve_event(
        &ResolveEvent { congestion_event: "nope".to_string(), oracle: id(10) },
        true,
    );
    assert_eq!(r, Err(GuccError::UnknownEvent));
}

#[test]
fn redeem_before_resolution_fails_and_position_is_unchanged() {
    let mut s = engine_with_event_and_user(100);
    deposit(&mut s, 100).unwrap();
    let r = redeem_to(&mut s, 200);
    assert_eq!(r, Err(GuccError::NotResolved));
    let key = "e1".to_string();
    let p = s.get_position(&key, id(20)).unwrap();
    assert_eq!(p.yes_amount, 100);
    assert_eq!(p.no_amount, 100);
    assert_eq!(s.vault_balance(&key), Some(100));
    assert_eq!(s.token_balance(id(200)), Some(0));
}

#[test]
fn redeem_without_position_fails() {
    let mut s = engine_with_event_and_user(0);
    resolve(&mut s, id(10), true).unwrap();
    let r = redeem_to(&mut s, 200);
    assert_eq!(r, Err(GuccError::UnknownPosition));
}

#[test]
fn redeem_unknown_event_fails() {
    let mut s = engine_with_event_and_user(0);
    let r = s.redeem(&Redeem {
        congestion_event: "nope".to_string(),
        user: id(20),
        user_token_account: id(200),
    });
    assert_eq!(r, Err(GuccError::UnknownEvent));
}

#[test]
fn redeem_to_unknown_destination_fails_and_keeps_claims() {
    let mut s = engine_with_event_and_user(60);
    deposit(&mut s, 60).unwrap();
    resolve(&mut s, id(10), true).unwrap();
    let r = redeem_to(&mut s, 999);
    assert_eq!(r, Err(GuccError::UnknownAccount));
    let key = "e1".to_string();
    let p = s.get_position(&key, id(20)).unwrap();
    assert_eq!(p.yes_amount, 60);
    assert_eq!(p.no_amount, 60);
    assert_eq!(s.vault_balance(&key), Some(60));
    // after the destination exists, redemption goes through
    s.create_token_account(id(999), id(USDC), id(20)).unwrap();
    redeem_to(&mut s, 999).unwrap();
    assert_eq!(s.token_balance(id(999)), Some(60));
    assert_eq!(s.vault_balance(&key), Some(0));
}

#[test]
fn redeem_to_wrong_mint_destination_fails_and_keeps_claims() {
    let mut s = engine_with_event_and_user(60);
    deposit(&mut s, 60).unwrap();
    resolve(&mut s, id(10), false).unwrap();
    s.create_token_account(id(300), id(OTHER_MINT), id(20)).unwrap();
    let r = redeem_to(&mut s, 300);
    assert_eq!(r, Err(GuccError::MintMismatch));
    let key = "e1".to_string();
    let p = s.get_position(&key, id(20)).unwrap();
    assert_eq!(p.yes_amount, 60);
    assert_eq!(p.no_amount, 60);
    assert_eq!(s.vault_balance(&key), Some(60));
}

#[test]
fn deposit_after_resolution_is_not_rejected() {
    let mut s = engine_with_event_and_user(80);
    resolve(&mut s, id(10), true).unwrap();
    deposit(&mut s, 80).unwrap();
    let key = "e1".to_string();
    let p = s.get_position(&key, id(20)).unwrap();
    assert_eq!(p.yes_amount, 80);
    assert_eq!(p.no_amount, 80);
}

#[test]
fn settlement_time_is_advisory_only() {
    let mut s = SettlementEngine::new();
    s.initialize_event(
        &InitializeEvent { authority: id(9), usdc_mint: id(USDC), vault: id(100), bump: 1 },
        "past".to_string(),
        "deadline long gone".to_string(),
        -5,
        id(10),
    )
    .unwrap();
    s.create_token_account(id(200), id(USDC), id(20)).unwrap();
    s.fund_token_account(id(200), 10).unwrap();
    let r = s.mint_tokens(
        &MintTokens {
            congestion_event: "past".to_string(),
            user: id(20),
            user_token_account: id(200),
        },
        10,
    );
    assert_eq!(r, Ok(()));
}

#[test]
fn token_account_identity_must_be_fresh() {
    let mut s = SettlementEngine::new();
    s.create_token_account(id(200), id(USDC), id(20)).unwrap();
    let r = s.create_token_account(id(200), id(USDC), id(21));
    assert_eq!(r, Err(GuccError::AccountInUse));
}

#[test]
fn funding_an_unknown_account_fails() {
    let mut s = SettlementEngine::new();
    assert_eq!(s.fund_token_account(id(5), 1), Err(GuccError::UnknownAccount));
}

#[test]
fn funding_past_the_balance_width_fails() {
    let mut s = SettlementEngine::new();
    s.create_token_account(id(200), id(USDC), id(20)).unwrap();
    s.fund_token_account(id(200), u64::MAX).unwrap();
    assert_eq!(s.fund_token_account(id(200), 1), Err(GuccError::Overflow));
    assert_eq!(s.token_balance(id(200)), Some(u64::MAX));
}
