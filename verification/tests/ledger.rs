use multichain_bridge::store::{BALANCE_BUMP_AMOUNT, BALANCE_LIFETIME_THRESHOLD};
use multichain_bridge::{BridgeError, Counterparty, MultiChainBridge};

const ALICE: u64 = 1;
const BOB: u64 = 2;
const USDC: u64 = 9;

#[test]
fn deposit_records_balance_pool_and_count() {
    let mut b = MultiChainBridge::new();
    let ev = b.deposit_token(ALICE, ALICE, USDC, 100).unwrap();
    assert_eq!(ev.amount, 100);
    assert_eq!(ev.remote_asset, None);
    assert_eq!(ev.counterparty, Counterparty::Local(ALICE));
    assert_eq!(b.get_user_balance(ALICE), 100);
    assert_eq!(b.get_pool_balance(), 100);
    assert_eq!(b.get_users_count(), 1);
}

#[test]
fn two_depositors_accumulate() {
    let mut b = MultiChainBridge::new();
    b.deposit_token(ALICE, ALICE, USDC, 10).unwrap();
    b.deposit_token(BOB, BOB, USDC, 20).unwrap();
    assert_eq!(b.get_pool_balance(), 30);
    assert_eq!(b.get_users_count(), 2);
    assert_eq!(b.get_user_balance(ALICE), 10);
    assert_eq!(b.get_user_balance(BOB), 20);
}

#[test]
fn withdraw_without_deposit_fails() {
    let mut b = MultiChainBridge::new();
    let r = b.withdraw_token(BOB, BOB, USDC, 1);
    assert_eq!(r.unwrap_err(), BridgeError::InsufficientFunds);
    assert_eq!(b.get_user_balance(BOB), 0);
    assert_eq!(b.get_pool_balance(), 0);
    assert_eq!(b.get_users_count(), 0);
}

#[test]
fn overdraw_rolls_back_whole_transaction() {
    // Deposit 50 then withdraw 150, submitted as one all-or-nothing
    // transaction: the failed withdrawal aborts the whole submission, so the
    // host discards every change and the pre-transaction state stands.
    let mut b = MultiChainBridge::new();
    let before = b.clone();
    b.deposit_token(ALICE, ALICE, USDC, 50).unwrap();
    let r = b.withdraw_token(ALICE, ALICE, USDC, 150);
    assert_eq!(r.unwrap_err(), BridgeError::InsufficientFunds);
    // The rejected withdrawal itself changed nothing on its own.
    assert_eq!(b.get_user_balance(ALICE), 50);
    // The host's rollback of the aborted transaction restores the start.
    let mut b = before;
    assert_eq!(b.get_user_balance(ALICE), 0);
    assert_eq!(b.get_pool_balance(), 0);
    assert_eq!(b.get_users_count(), 0);
}

#[test]
fn deposit_then_withdraw_restores_aggregates() {
    let mut b = MultiChainBridge::new();
    b.deposit_token(BOB, BOB, USDC, 25).unwrap();
    let pool = b.get_pool_balance();
    let count = b.get_users_count();
    let alice_before = b.get_user_balance(ALICE);
    b.deposit_token(ALICE, ALICE, USDC, 70).unwrap();
    b.withdraw_token(ALICE, ALICE, USDC, 70).unwrap();
    assert_eq!(b.get_user_balance(ALICE), alice_before);
    assert_eq!(b.get_pool_balance(), pool);
    assert_eq!(b.get_users_count(), count);
    assert_eq!(b.get_user_balance(BOB), 25);
}

#[test]
fn non_positive_deposit_rejected() {
    let mut b = MultiChainBridge::new();
    let r = b.deposit_token(ALICE, ALICE, USDC, 0);
    assert_eq!(r.unwrap_err(), BridgeError::Validation);
    let r = b.deposit_token(ALICE, ALICE, USDC, -5);
    assert_eq!(r.unwrap_err(), BridgeError::Validation);
    assert_eq!(b.get_user_balance(ALICE), 0);
    assert_eq!(b.get_pool_balance(), 0);
    assert_eq!(b.get_users_count(), 0);
}

#[test]
fn non_positive_withdraw_rejected() {
    let mut b = MultiChainBridge::new();
    b.deposit_token(ALICE, ALICE, USDC, 40).unwrap();
    let r = b.withdraw_token(ALICE, ALICE, USDC, 0);
    assert_eq!(r.unwrap_err(), BridgeError::Validation);
    let r = b.withdraw_token(ALICE, ALICE, USDC, -3);
    assert_eq!(r.unwrap_err(), BridgeError::Validation);
    assert_eq!(b.get_user_balance(ALICE), 40);
}

#[test]
fn deposit_requires_callers_own_identity() {
    let mut b = MultiChainBridge::new();
    let r = b.deposit_token(BOB, ALICE, USDC, 10);
    assert_eq!(r.unwrap_err(), BridgeError::Authorization);
    // Authorization is checked before the amount.
    let r = b.deposit_token(BOB, ALICE, USDC, -1);
    assert_eq!(r.unwrap_err(), BridgeError::Authorization);
    assert_eq!(b.get_pool_balance(), 0);
}

#[test]
fn withdraw_requires_callers_own_identity() {
    let mut b = MultiChainBridge::new();
    b.deposit_token(ALICE, ALICE, USDC, 10).unwrap();
    let r = b.withdraw_token(BOB, ALICE, USDC, 5);
    assert_eq!(r.unwrap_err(), BridgeError::Authorization);
    assert_eq!(b.get_user_balance(ALICE), 10);
}

#[test]
fn zero_crossing_counts_a_returning_depositor_once() {
    let mut b = MultiChainBridge::new();
    b.deposit_token(ALICE, ALICE, USDC, 30).unwrap();
    b.withdraw_token(ALICE, ALICE, USDC, 30).unwrap();
    assert_eq!(b.get_users_count(), 0);
    // The emptied entry stays in the store as a zero-valued record.
    assert_eq!(b.store.users.len(), 1);
    b.deposit_token(ALICE, ALICE, USDC, 5).unwrap();
    assert_eq!(b.get_users_count(), 1);
    assert_eq!(b.store.users.len(), 1);
}

#[test]
fn partial_withdraw_keeps_depositor_counted() {
    let mut b = MultiChainBridge::new();
    b.deposit_token(ALICE, ALICE, USDC, 100).unwrap();
    b.withdraw_token(ALICE, ALICE, USDC, 60).unwrap();
    assert_eq!(b.get_user_balance(ALICE), 40);
    assert_eq!(b.get_pool_balance(), 40);
    assert_eq!(b.get_users_count(), 1);
}

#[test]
fn largest_deposit_round_trips() {
    let mut b = MultiChainBridge::new();
    b.deposit_token(ALICE, ALICE, USDC, i128::MAX).unwrap();
    assert_eq!(b.get_user_balance(ALICE), i128::MAX);
    assert_eq!(b.get_pool_balance(), i128::MAX);
    b.withdraw_token(ALICE, ALICE, USDC, i128::MAX).unwrap();
    assert_eq!(b.get_user_balance(ALICE), 0);
    assert_eq!(b.get_pool_balance(), 0);
    assert_eq!(b.get_users_count(), 0);
}

#[test]
fn reads_refresh_a_lapsing_entry_lifetime() {
    let mut b = MultiChainBridge::new();
    b.deposit_token(ALICE, ALICE, USDC, 10).unwrap();
    // A fresh entry starts with the full bump.
    assert_eq!(b.store.users[0].ttl, BALANCE_BUMP_AMOUNT);
    // A lifetime that fell below the threshold is refreshed by a read.
    b.store.users[0].ttl = BALANCE_LIFETIME_THRESHOLD - 1;
    assert_eq!(b.get_user_balance(ALICE), 10);
    assert_eq!(b.store.users[0].ttl, BALANCE_BUMP_AMOUNT);
    // One still above the threshold is left alone.
    b.store.users[0].ttl = BALANCE_LIFETIME_THRESHOLD + 7;
    assert_eq!(b.get_user_balance(ALICE), 10);
    assert_eq!(b.store.users[0].ttl, BALANCE_LIFETIME_THRESHOLD + 7);
}

#[test]
fn aggregate_reads_refresh_their_records() {
    let mut b = MultiChainBridge::new();
    b.deposit_token(ALICE, ALICE, USDC, 10).unwrap();
    b.store.pool = b.store.pool.map(|mut s| {
        s.ttl = 3;
        s
    });
    b.store.depositors = b.store.depositors.map(|mut s| {
        s.ttl = 3;
        s
    });
    assert_eq!(b.get_pool_balance(), 10);
    assert_eq!(b.get_users_count(), 1);
    assert_eq!(b.store.pool.unwrap().ttl, BALANCE_BUMP_AMOUNT);
    assert_eq!(b.store.depositors.unwrap().ttl, BALANCE_BUMP_AMOUNT);
}
