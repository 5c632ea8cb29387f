use gucc::engine::{InitializeEvent, MintTokens, Redeem, ResolveEvent, SettlementEngine};
use gucc::ids::AccountId;

fn id(value: u64) -> AccountId {
    AccountId { value }
}

const USDC: u64 = 1;
const ORACLE: u64 = 10;
const VAULT: u64 = 100;

fn new_market(s: &mut SettlementEngine) {
    s.initialize_event(
        &InitializeEvent { authority: id(9), usdc_mint: id(USDC), vault: id(VAULT), bump: 255 },
        "E1".to_string(),
        "a binary market".to_string(),
        1_700_000_000,
        id(ORACLE),
    )
    .unwrap();
}

fn add_user(s: &mut SettlementEngine, user: u64, token_account: u64, funding: u64) {
    s.create_token_account(id(token_account), id(USDC), id(user)).unwrap();
    s.fund_token_account(id(token_account), funding).unwrap();
}

fn deposit(s: &mut SettlementEngine, user: u64, token_account: u64, amount: u64) {
    s.mint_tokens(
        &MintTokens {
            congestion_event: "E1".to_string(),
            user: id(user),
            user_token_account: id(token_account),
        },
        amount,
    )
    .unwrap();
}

fn redeem(s: &mut SettlementEngine, user: u64, token_account: u64) {
    s.redeem(&Redeem {
        congestion_event: "E1".to_string(),
        user: id(user),
        user_token_account: id(token_account),
    })
    .unwrap();
}

#[test]
fn single_user_full_lifecycle() {
    let mut s = SettlementEngine::new();
    new_market(&mut s);
    add_user(&mut s, 20, 200, 100);
    deposit(&mut s, 20, 200, 100);

    let key = "E1".to_string();
    let p = s.get_position(&key, id(20)).unwrap();
    assert_eq!(p.yes_amount, 100);
    assert_eq!(p.no_amount, 100);

    s.resolve_event(&ResolveEvent { congestion_event: "E1".to_string(), oracle: id(ORACLE) }, true)
        .unwrap();

    redeem(&mut s, 20, 200);
    // the winning "yes" side paid out in full
    assert_eq!(s.token_balance(id(200)), Some(100));
    assert_eq!(s.vault_balance(&key), Some(0));
    let p = s.get_position(&key, id(20)).unwrap();
    assert_eq!(p.yes_amount, 0);
    assert_eq!(p.no_amount, 0);

    // a second redemption succeeds and transfers exactly nothing
    redeem(&mut s, 20, 200);
    assert_eq!(s.token_balance(id(200)), Some(100));
    assert_eq!(s.vault_balance(&key), Some(0));
    let p = s.get_position(&key, id(20)).unwrap();
    assert_eq!(p.yes_amount, 0);
    assert_eq!(p.no_amount, 0);
}

#[test]
fn two_users_redeem_the_losing_outcome_and_empty_the_vault() {
    let mut s = SettlementEngine::new();
    new_market(&mut s);
    add_user(&mut s, 21, 201, 50);
    add_user(&mut s, 22, 202, 70);
    deposit(&mut s, 21, 201, 50);
    deposit(&mut s, 22, 202, 70);

    let key = "E1".to_string();
    assert_eq!(s.vault_balance(&key), Some(120));

    s.resolve_event(
        &ResolveEvent { congestion_event: "E1".to_string(), oracle: id(ORACLE) },
        false,
    )
    .unwrap();

    redeem(&mut s, 21, 201);
    assert_eq!(s.token_balance(id(201)), Some(50));
    assert_eq!(s.vault_balance(&key), Some(70));

    redeem(&mut s, 22, 202);
    assert_eq!(s.token_balance(id(202)), Some(70));
    assert_eq!(s.vault_balance(&key), Some(0));
}

#[test]
fn positions_of_other_users_are_untouched() {
    let mut s = SettlementEngine::new();
    new_market(&mut s);
    add_user(&mut s, 21, 201, 50);
    add_user(&mut s, 22, 202, 70);
    deposit(&mut s, 21, 201, 50);
    deposit(&mut s, 22, 202, 70);

    s.resolve_event(&ResolveEvent { congestion_event: "E1".to_string(), oracle: id(ORACLE) }, true)
        .unwrap();
    redeem(&mut s, 21, 201);

    let key = "E1".to_string();
    let p21 = s.get_position(&key, id(21)).unwrap();
    assert_eq!(p21.yes_amount, 0);
    assert_eq!(p21.no_amount, 0);
    let p22 = s.get_position(&key, id(22)).unwrap();
    assert_eq!(p22.yes_amount, 70);
    assert_eq!(p22.no_amount, 70);
}

#[test]
fn two_markets_settle_independently() {
    let mut s = SettlementEngine::new();
    new_market(&mut s);
    s.initialize_event(
        &InitializeEvent { authority: id(9), usdc_mint: id(USDC), vault: id(101), bump: 254 },
        "E2".to_string(),
        "a second, unrelated market".to_string(),
        1_800_000_000,
        id(11),
    )
    .unwrap();
    add_user(&mut s, 20, 200, 100);
    deposit(&mut s, 20, 200, 60);
    s.mint_tokens(
        &MintTokens {
            congestion_event: "E2".to_string(),
            user: id(20),
            user_token_account: id(200),
        },
        40,
    )
    .unwrap();

    let k1 = "E1".to_string();
    let k2 = "E2".to_string();
    assert_eq!(s.vault_balance(&k1), Some(60));
    assert_eq!(s.vault_balance(&k2), Some(40));

    // resolving the first market changes nothing on the second
    s.resolve_event(&ResolveEvent { congestion_event: "E1".to_string(), oracle: id(ORACLE) }, true)
        .unwrap();
    assert!(!s.get_event(&k2).unwrap().resolved);

    redeem(&mut s, 20, 200);
    assert_eq!(s.token_balance(id(200)), Some(60));
    assert_eq!(s.vault_balance(&k1), Some(0));
    assert_eq!(s.vault_balance(&k2), Some(40));
    let p2 = s.get_position(&k2, id(20)).unwrap();
    assert_eq!(p2.yes_amount, 40);
    assert_eq!(p2.no_amount, 40);
}
