use pnlpackprogram::errors::ErrorCode;
use pnlpackprogram::ledger::LedgerState;

fn bytes(s: &str) -> Vec<u8> {
    s.as_bytes().to_vec()
}

fn admin() -> Vec<u8> {
    bytes("admin-key")
}

fn fresh_ledger() -> LedgerState {
    LedgerState::new(admin())
}

/// A ledger that has gone through initialization and the funding of the
/// four entity vaults used by the reveal and claim scenarios.
fn funded_ledger() -> LedgerState {
    let mut ledger = fresh_ledger();
    ledger.init_global_pack_pool(&admin(), 10).unwrap();
    for kol in ["PEPE", "DOGE", "WIF", "BONK"] {
        ledger
            .mint_and_init_kol_token_vault_and_transfer(
                &admin(),
                &bytes(kol),
                1_000_000_000,
                940_000_000,
            )
            .unwrap();
    }
    ledger
}

#[test]
fn initialize_creates_pool() {
    let mut ledger = fresh_ledger();
    assert_eq!(ledger.init_global_pack_pool(&admin(), 10), Ok(()));
    let pool = ledger.pool_info().unwrap();
    assert_eq!(pool.total_kols, 10);
}

#[test]
fn initialize_twice_fails() {
    let mut ledger = fresh_ledger();
    ledger.init_global_pack_pool(&admin(), 10).unwrap();
    assert_eq!(
        ledger.init_global_pack_pool(&admin(), 10),
        Err(ErrorCode::AlreadyInitialized)
    );
}

#[test]
fn initialize_rejects_wrong_admin() {
    let mut ledger = fresh_ledger();
    assert_eq!(
        ledger.init_global_pack_pool(&bytes("mallory"), 10),
        Err(ErrorCode::AdminMismatch)
    );
    assert!(ledger.pool_info().is_none());
}

#[test]
fn contribution_accumulates_in_pool() {
    let mut ledger = fresh_ledger();
    ledger.init_global_pack_pool(&admin(), 10).unwrap();
    assert_eq!(ledger.transfer_to_pack_pool(250), Ok(()));
    assert_eq!(ledger.transfer_to_pack_pool(750), Ok(()));
    assert_eq!(ledger.pool_native_balance(), 1000);
}

#[test]
fn contribution_requires_pool() {
    let mut ledger = fresh_ledger();
    assert_eq!(
        ledger.transfer_to_pack_pool(250),
        Err(ErrorCode::AccountMissing)
    );
}

#[test]
fn contribution_overflow_is_rejected() {
    let mut ledger = fresh_ledger();
    ledger.init_global_pack_pool(&admin(), 10).unwrap();
    ledger.transfer_to_pack_pool(u64::MAX).unwrap();
    assert_eq!(
        ledger.transfer_to_pack_pool(1),
        Err(ErrorCode::ArithmeticOverflow)
    );
    assert_eq!(ledger.pool_native_balance(), u64::MAX);
}

#[test]
fn mint_and_fund_splits_supply() {
    let mut ledger = fresh_ledger();
    ledger.init_global_pack_pool(&admin(), 10).unwrap();
    assert_eq!(
        ledger.mint_and_init_kol_token_vault_and_transfer(
            &admin(),
            &bytes("PEPE"),
            1_000_000_000,
            940_000_000,
        ),
        Ok(())
    );
    assert_eq!(ledger.vault_balance(&bytes("PEPE")), Some(940_000_000));
    assert_eq!(ledger.holding_balance(&admin(), &bytes("PEPE")), 60_000_000);
}

#[test]
fn mint_and_fund_rolls_back_when_transfer_would_fail() {
    let mut ledger = fresh_ledger();
    ledger.init_global_pack_pool(&admin(), 10).unwrap();
    assert_eq!(
        ledger.mint_and_init_kol_token_vault_and_transfer(&admin(), &bytes("PEPE"), 1_000, 1_001),
        Err(ErrorCode::InsufficientVaultBalance)
    );
    assert_eq!(ledger.vault_balance(&bytes("PEPE")), None);
    assert_eq!(ledger.holding_balance(&admin(), &bytes("PEPE")), 0);
}

#[test]
fn mint_and_fund_rejects_second_vault() {
    let mut ledger = funded_ledger();
    assert_eq!(
        ledger.mint_and_init_kol_token_vault_and_transfer(&admin(), &bytes("PEPE"), 1_000, 900),
        Err(ErrorCode::AccountExists)
    );
    assert_eq!(ledger.vault_balance(&bytes("PEPE")), Some(940_000_000));
}

#[test]
fn mint_keeps_per_entity_holdings_separate() {
    let mut ledger = fresh_ledger();
    ledger.init_global_pack_pool(&admin(), 10).unwrap();
    ledger
        .mint_and_init_kol_token_vault_and_transfer(&admin(), &bytes("MOON"), u64::MAX, 0)
        .unwrap();
    ledger
        .mint_and_init_kol_token_vault_and_transfer(&admin(), &bytes("DOGE"), u64::MAX, 1)
        .unwrap();
    assert_eq!(ledger.holding_balance(&admin(), &bytes("MOON")), u64::MAX);
    assert_eq!(ledger.holding_balance(&admin(), &bytes("DOGE")), u64::MAX - 1);
    assert_eq!(ledger.vault_balance(&bytes("MOON")), Some(0));
    assert_eq!(ledger.vault_balance(&bytes("DOGE")), Some(1));
}

#[test]
fn mint_and_reveal_require_admin_and_pool() {
    let mut ledger = fresh_ledger();
    // Without the pool, both operations report the missing account —
    // unless the credential is already wrong.
    assert_eq!(
        ledger.mint_and_init_kol_token_vault_and_transfer(&admin(), &bytes("PEPE"), 1000, 900),
        Err(ErrorCode::AccountMissing)
    );
    assert_eq!(
        ledger.pack_reveal(
            &admin(),
            &bytes("PEPE"),
            &bytes("DOGE"),
            &bytes("WIF"),
            &bytes("BONK"),
            10,
        ),
        Err(ErrorCode::AccountMissing)
    );
    assert_eq!(
        ledger.mint_and_init_kol_token_vault_and_transfer(&bytes("mallory"), &bytes("PEPE"), 1000, 900),
        Err(ErrorCode::AdminMismatch)
    );
    assert_eq!(
        ledger.pack_reveal(
            &bytes("mallory"),
            &bytes("PEPE"),
            &bytes("DOGE"),
            &bytes("WIF"),
            &bytes("BONK"),
            10,
        ),
        Err(ErrorCode::AdminMismatch)
    );
}

#[test]
fn mint_rejects_overlong_identifier() {
    let mut ledger = fresh_ledger();
    ledger.init_global_pack_pool(&admin(), 10).unwrap();
    let long = bytes("SEVENTEEN-BYTES-X");
    assert_eq!(
        ledger.mint_and_init_kol_token_vault_and_transfer(&admin(), &long, 1000, 900),
        Err(ErrorCode::InvalidIdentifierLength)
    );
    assert_eq!(ledger.vault_balance(&long), None);
}

#[test]
fn reveal_funds_four_sub_accounts() {
    let mut ledger = funded_ledger();
    assert_eq!(
        ledger.pack_reveal(
            &admin(),
            &bytes("PEPE"),
            &bytes("DOGE"),
            &bytes("WIF"),
            &bytes("BONK"),
            1000,
        ),
        Ok(())
    );
    let subs = ledger
        .pack_sub_balances(&bytes("PEPE"), &bytes("DOGE"), &bytes("WIF"), &bytes("BONK"))
        .unwrap();
    assert_eq!(subs, (1000, 1000, 1000, 1000));
    for kol in ["PEPE", "DOGE", "WIF", "BONK"] {
        assert_eq!(ledger.vault_balance(&bytes(kol)), Some(940_000_000 - 1000));
    }
}

#[test]
fn reveal_is_order_sensitive() {
    let mut ledger = funded_ledger();
    ledger
        .pack_reveal(
            &admin(),
            &bytes("PEPE"),
            &bytes("DOGE"),
            &bytes("WIF"),
            &bytes("BONK"),
            1000,
        )
        .unwrap();
    assert!(ledger.pack_exists(&bytes("PEPE"), &bytes("DOGE"), &bytes("WIF"), &bytes("BONK")));
    assert!(!ledger.pack_exists(&bytes("DOGE"), &bytes("PEPE"), &bytes("WIF"), &bytes("BONK")));
}

#[test]
fn reveal_stores_identifiers_in_supplied_order() {
    let mut ledger = funded_ledger();
    ledger
        .pack_reveal(
            &admin(),
            &bytes("PEPE"),
            &bytes("DOGE"),
            &bytes("WIF"),
            &bytes("BONK"),
            1000,
        )
        .unwrap();
    let record = ledger
        .pack_record(&bytes("PEPE"), &bytes("DOGE"), &bytes("WIF"), &bytes("BONK"))
        .unwrap();
    assert_eq!(record.kol_a, bytes("PEPE"));
    assert_eq!(record.kol_b, bytes("DOGE"));
    assert_eq!(record.kol_c, bytes("WIF"));
    assert_eq!(record.kol_d, bytes("BONK"));
    assert!(ledger
        .pack_record(&bytes("DOGE"), &bytes("PEPE"), &bytes("WIF"), &bytes("BONK"))
        .is_none());
}

#[test]
fn duplicate_reveal_fails_without_partial_state() {
    let mut ledger = funded_ledger();
    ledger
        .pack_reveal(
            &admin(),
            &bytes("PEPE"),
            &bytes("DOGE"),
            &bytes("WIF"),
            &bytes("BONK"),
            1000,
        )
        .unwrap();
    assert_eq!(
        ledger.pack_reveal(
            &admin(),
            &bytes("PEPE"),
            &bytes("DOGE"),
            &bytes("WIF"),
            &bytes("BONK"),
            500,
        ),
        Err(ErrorCode::DuplicatePack)
    );
    let subs = ledger
        .pack_sub_balances(&bytes("PEPE"), &bytes("DOGE"), &bytes("WIF"), &bytes("BONK"))
        .unwrap();
    assert_eq!(subs, (1000, 1000, 1000, 1000));
    for kol in ["PEPE", "DOGE", "WIF", "BONK"] {
        assert_eq!(ledger.vault_balance(&bytes(kol)), Some(940_000_000 - 1000));
    }
}

#[test]
fn reveal_rejects_overlong_identifier() {
    let mut ledger = funded_ledger();
    let long = bytes("SEVENTEEN-BYTES-X");
    assert_eq!(long.len(), 17);
    assert_eq!(
        ledger.pack_reveal(&admin(), &long, &bytes("DOGE"), &bytes("WIF"), &bytes("BONK"), 1000),
        Err(ErrorCode::InvalidIdentifierLength)
    );
    for kol in ["PEPE", "DOGE", "WIF", "BONK"] {
        assert_eq!(ledger.vault_balance(&bytes(kol)), Some(940_000_000));
    }
}

#[test]
fn reveal_rejects_repeated_identifier() {
    let mut ledger = funded_ledger();
    assert_eq!(
        ledger.pack_reveal(
            &admin(),
            &bytes("PEPE"),
            &bytes("PEPE"),
            &bytes("WIF"),
            &bytes("BONK"),
            1000,
        ),
        Err(ErrorCode::AccountExists)
    );
    assert_eq!(ledger.vault_balance(&bytes("PEPE")), Some(940_000_000));
}

#[test]
fn reveal_requires_every_vault() {
    let mut ledger = funded_ledger();
    assert_eq!(
        ledger.pack_reveal(
            &admin(),
            &bytes("PEPE"),
            &bytes("DOGE"),
            &bytes("WIF"),
            &bytes("NOVAULT"),
            1000,
        ),
        Err(ErrorCode::AccountMissing)
    );
    for kol in ["PEPE", "DOGE", "WIF"] {
        assert_eq!(ledger.vault_balance(&bytes(kol)), Some(940_000_000));
    }
}

#[test]
fn reveal_rejects_overdraw_atomically() {
    let mut ledger = funded_ledger();
    // Drain one vault low, then ask every vault for more than it holds.
    ledger
        .pack_reveal(
            &admin(),
            &bytes("PEPE"),
            &bytes("DOGE"),
            &bytes("WIF"),
            &bytes("BONK"),
            940_000_000,
        )
        .unwrap();
    assert_eq!(ledger.vault_balance(&bytes("PEPE")), Some(0));
    assert_eq!(
        ledger.pack_reveal(
            &admin(),
            &bytes("BONK"),
            &bytes("WIF"),
            &bytes("DOGE"),
            &bytes("PEPE"),
            1,
        ),
        Err(ErrorCode::InsufficientVaultBalance)
    );
    assert_eq!(ledger.vault_balance(&bytes("BONK")), Some(0));
}

#[test]
fn claim_moves_value_to_user() {
    let mut ledger = funded_ledger();
    ledger
        .pack_reveal(
            &admin(),
            &bytes("PEPE"),
            &bytes("DOGE"),
            &bytes("WIF"),
            &bytes("BONK"),
            1000,
        )
        .unwrap();
    let user = bytes("user-key");
    assert_eq!(
        ledger.claim_from_pack(
            &user,
            &bytes("PEPE"),
            &bytes("DOGE"),
            &bytes("WIF"),
            &bytes("BONK"),
            400,
        ),
        Ok(())
    );
    for kol in ["PEPE", "DOGE", "WIF", "BONK"] {
        assert_eq!(ledger.holding_balance(&user, &bytes(kol)), 400);
    }
    let subs = ledger
        .pack_sub_balances(&bytes("PEPE"), &bytes("DOGE"), &bytes("WIF"), &bytes("BONK"))
        .unwrap();
    assert_eq!(subs, (600, 600, 600, 600));
}

#[test]
fn claim_beyond_balance_fails_and_changes_nothing() {
    let mut ledger = funded_ledger();
    ledger
        .pack_reveal(
            &admin(),
            &bytes("PEPE"),
            &bytes("DOGE"),
            &bytes("WIF"),
            &bytes("BONK"),
            1000,
        )
        .unwrap();
    let user = bytes("user-key");
    ledger
        .claim_from_pack(
            &user,
            &bytes("PEPE"),
            &bytes("DOGE"),
            &bytes("WIF"),
            &bytes("BONK"),
            400,
        )
        .unwrap();
    assert_eq!(
        ledger.claim_from_pack(
            &user,
            &bytes("PEPE"),
            &bytes("DOGE"),
            &bytes("WIF"),
            &bytes("BONK"),
            700,
        ),
        Err(ErrorCode::InsufficientVaultBalance)
    );
    let subs = ledger
        .pack_sub_balances(&bytes("PEPE"), &bytes("DOGE"), &bytes("WIF"), &bytes("BONK"))
        .unwrap();
    assert_eq!(subs, (600, 600, 600, 600));
    for kol in ["PEPE", "DOGE", "WIF", "BONK"] {
        assert_eq!(ledger.holding_balance(&user, &bytes(kol)), 400);
    }
}

#[test]
fn claim_rejects_unknown_tuple() {
    let mut ledger = funded_ledger();
    ledger
        .pack_reveal(
            &admin(),
            &bytes("PEPE"),
            &bytes("DOGE"),
            &bytes("WIF"),
            &bytes("BONK"),
            1000,
        )
        .unwrap();
    let user = bytes("user-key");
    // Same identifiers in another order address a different, absent pack.
    assert_eq!(
        ledger.claim_from_pack(
            &user,
            &bytes("DOGE"),
            &bytes("PEPE"),
            &bytes("WIF"),
            &bytes("BONK"),
            100,
        ),
        Err(ErrorCode::InvalidPackDerivation)
    );
}

#[test]
fn claim_rejects_overlong_identifier() {
    let mut ledger = funded_ledger();
    let user = bytes("user-key");
    let long = bytes("SEVENTEEN-BYTES-X");
    assert_eq!(
        ledger.claim_from_pack(&user, &long, &bytes("DOGE"), &bytes("WIF"), &bytes("BONK"), 100),
        Err(ErrorCode::InvalidIdentifierLength)
    );
}

#[test]
fn repeated_claims_drain_the_pack() {
    let mut ledger = funded_ledger();
    ledger
        .pack_reveal(
            &admin(),
            &bytes("PEPE"),
            &bytes("DOGE"),
            &bytes("WIF"),
            &bytes("BONK"),
            1000,
        )
        .unwrap();
    let user = bytes("user-key");
    let other = bytes("other-user");
    for claimer in [&user, &other] {
        ledger
            .claim_from_pack(
                claimer,
                &bytes("PEPE"),
                &bytes("DOGE"),
                &bytes("WIF"),
                &bytes("BONK"),
                500,
            )
            .unwrap();
    }
    let subs = ledger
        .pack_sub_balances(&bytes("PEPE"), &bytes("DOGE"), &bytes("WIF"), &bytes("BONK"))
        .unwrap();
    assert_eq!(subs, (0, 0, 0, 0));
    assert_eq!(ledger.holding_balance(&user, &bytes("PEPE")), 500);
    assert_eq!(ledger.holding_balance(&other, &bytes("PEPE")), 500);
}
