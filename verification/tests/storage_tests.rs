use price_oracle::errors::OracleError;
use price_oracle::fungible_token_handler::PendingEffect;
use price_oracle::helpers::{refund_storage, STORAGE_PRICE_PER_BYTE};
use price_oracle::oracle::FirstPartyOracle;
use price_oracle::storage_manager::STORAGE_MINIMUM_BALANCE;

fn alice() -> String {
    "alice.near".to_string()
}

fn bob() -> String {
    "bob.near".to_string()
}

fn jack() -> String {
    "jack.near".to_string()
}

fn token() -> String {
    "token.near".to_string()
}

const INIT_BALANCE: u128 = 100_000 * 1_000_000_000_000_000_000_000_000;

#[test]
fn accounts_initialized_with_balance() {
    let mut contract = FirstPartyOracle::new(token());
    contract
        .storage_deposit(&token(), Some(jack()), INIT_BALANCE)
        .unwrap();
    contract
        .storage_deposit(&token(), Some(alice()), INIT_BALANCE)
        .unwrap();
    contract
        .storage_deposit(&token(), Some(bob()), INIT_BALANCE)
        .unwrap();
    assert_eq!(
        contract.get_storage_account_balance(&jack()).available,
        INIT_BALANCE,
        "token storage requirement not satisfied for account"
    );
    assert_eq!(
        contract.get_storage_account_balance(&alice()).available,
        INIT_BALANCE,
        "token storage requirement not satisfied for account"
    );
    assert_eq!(
        contract.get_storage_account_balance(&bob()).available,
        INIT_BALANCE,
        "token storage requirement not satisfied for account"
    );
}

#[test]
fn storage_manager_deposit() {
    let mut contract = FirstPartyOracle::new(token());

    let balance = contract.get_storage_account_balance(&alice());
    assert_eq!(balance.available, 0);

    let amount = 10u128.pow(24);

    contract
        .storage_deposit(&alice(), Some(alice()), amount)
        .unwrap();
    let balance = contract.get_storage_account_balance(&alice());
    assert_eq!(balance.available, amount);

    contract
        .storage_deposit(&alice(), Some(alice()), amount)
        .unwrap();
    let balance = contract.get_storage_account_balance(&alice());
    assert_eq!(balance.available, amount * 2);
}

#[test]
fn storage_manager_withdraw() {
    let mut contract = FirstPartyOracle::new(token());

    let balance = contract.get_storage_account_balance(&alice());
    assert_eq!(balance.available, 0);

    let amount = 10u128.pow(24);

    contract
        .storage_deposit(&alice(), Some(alice()), amount)
        .unwrap();

    let (balance, effect) = contract.storage_withdraw(&alice(), 1, amount / 2).unwrap();
    assert_eq!(balance.available, amount / 2);
    assert_eq!(
        contract.get_storage_account_balance(&alice()).available,
        amount / 2
    );
    assert_eq!(
        effect,
        PendingEffect::NativeTransfer {
            receiver: alice(),
            amount: amount / 2,
        }
    );
}

#[test]
fn storage_manager_withdraw_too_much() {
    let mut contract = FirstPartyOracle::new(token());

    let balance = contract.get_storage_account_balance(&alice());
    assert_eq!(balance.available, 0);

    let amount = 10u128.pow(24);

    contract
        .storage_deposit(&alice(), Some(alice()), amount)
        .unwrap();

    let err = contract
        .storage_withdraw(&alice(), 1, amount * 2)
        .unwrap_err();
    assert_eq!(err, OracleError::StorageInsufficientError);
    assert_eq!(
        contract.get_storage_account_balance(&alice()).available,
        amount
    );
}

#[test]
fn storage_withdraw_needs_one_unit_attached() {
    let mut contract = FirstPartyOracle::new(token());
    contract
        .storage_deposit(&alice(), None, STORAGE_MINIMUM_BALANCE)
        .unwrap();
    let err = contract.storage_withdraw(&alice(), 0, 1).unwrap_err();
    assert_eq!(err, OracleError::PaymentInsufficientError);
    let err = contract.storage_withdraw(&alice(), 2, 1).unwrap_err();
    assert_eq!(err, OracleError::PaymentInsufficientError);
}

#[test]
fn storage_deposit_below_minimum_rejected() {
    let mut contract = FirstPartyOracle::new(token());
    let err = contract
        .storage_deposit(&alice(), None, STORAGE_MINIMUM_BALANCE - 1)
        .unwrap_err();
    assert_eq!(err, OracleError::StorageInsufficientError);
    assert!(contract.storage_balance_of(&alice()).is_none());
}

#[test]
fn storage_deposit_exact_minimum() {
    let mut contract = FirstPartyOracle::new(token());
    let balance = contract
        .storage_deposit(&alice(), None, STORAGE_MINIMUM_BALANCE)
        .unwrap();
    assert_eq!(balance.available, STORAGE_MINIMUM_BALANCE);
    assert_eq!(balance.total, STORAGE_MINIMUM_BALANCE);
    assert_eq!(balance.available, balance.total);
}

#[test]
fn storage_balance_of_absent_account() {
    let contract = FirstPartyOracle::new(token());
    assert!(contract.storage_balance_of(&alice()).is_none());
    // asking twice changes nothing and stays absent
    assert!(contract.storage_balance_of(&alice()).is_none());
}

#[test]
fn storage_balance_bounds_report_minimum() {
    let contract = FirstPartyOracle::new(token());
    let bounds = contract.storage_balance_bounds();
    assert_eq!(bounds.min, STORAGE_MINIMUM_BALANCE);
    assert!(bounds.max.is_none());
}

#[test]
fn use_storage_charges_growth() {
    let mut contract = FirstPartyOracle::new(token());
    contract
        .storage_deposit(&alice(), None, STORAGE_MINIMUM_BALANCE)
        .unwrap();
    let before = contract.get_storage_account_balance(&alice());
    contract
        .use_storage(&alice(), 1000, 1010, before.available)
        .unwrap();
    let after = contract.get_storage_account_balance(&alice());
    assert_eq!(after.available, before.available - 10 * STORAGE_PRICE_PER_BYTE);
    assert_eq!(after.total, before.total);
}

#[test]
fn use_storage_credits_shrink() {
    let mut contract = FirstPartyOracle::new(token());
    contract
        .storage_deposit(&alice(), None, STORAGE_MINIMUM_BALANCE)
        .unwrap();
    let before = contract.get_storage_account_balance(&alice());
    contract
        .use_storage(&alice(), 1000, 1010, before.available)
        .unwrap();
    let mid = contract.get_storage_account_balance(&alice());
    contract.use_storage(&alice(), 1010, 1000, mid.available).unwrap();
    let after = contract.get_storage_account_balance(&alice());
    assert_eq!(after.available, before.available);
    assert!(after.available <= after.total);
}

#[test]
fn use_storage_insufficient_aborts() {
    let mut contract = FirstPartyOracle::new(token());
    let err = contract.use_storage(&alice(), 1000, 1477, 0).unwrap_err();
    assert_eq!(err, OracleError::StorageInsufficientError);
}

#[test]
fn refund_storage_returns_unused_deposit() {
    // one byte grown costs one price unit; the rest comes back
    let attached = 5 * STORAGE_PRICE_PER_BYTE;
    let (refund, effect) = refund_storage(1000, 1001, attached, alice()).unwrap();
    assert_eq!(refund, 4 * STORAGE_PRICE_PER_BYTE);
    assert_eq!(
        effect,
        Some(PendingEffect::NativeTransfer {
            receiver: alice(),
            amount: 4 * STORAGE_PRICE_PER_BYTE,
        })
    );
}

#[test]
fn refund_storage_insufficient_deposit_aborts() {
    let err = refund_storage(1000, 1002, STORAGE_PRICE_PER_BYTE, alice()).unwrap_err();
    assert_eq!(err, OracleError::StorageInsufficientError);
}

#[test]
fn refund_storage_credits_freed_bytes() {
    let (refund, _) = refund_storage(1002, 1000, 7, alice()).unwrap();
    assert_eq!(refund, 7 + 2 * STORAGE_PRICE_PER_BYTE);
}
