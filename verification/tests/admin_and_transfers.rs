use multichain_bridge::{BridgeError, Counterparty, MultiChainBridge};

const ADMIN: u64 = 1;
const MALLORY: u64 = 2;
const ORACLE: u64 = 3;
const ALICE: u64 = 4;
const USDC: u64 = 9;
const OTHER_TOKEN: u64 = 10;

#[test]
fn initialize_stores_the_administrator_once() {
    let mut b = MultiChainBridge::new();
    assert_eq!(b.initialize(ADMIN), Ok(()));
    let r = b.initialize(MALLORY);
    assert_eq!(r.unwrap_err(), BridgeError::AlreadyInitialized);
    // The stored administrator did not change: the first admin still may
    // configure mappings, the pretender still may not.
    assert_eq!(b.set_token_evm_address(ADMIN, USDC, String::from("0xabc")), Ok(()));
    let r = b.set_token_evm_address(MALLORY, USDC, String::from("0xevil"));
    assert_eq!(r.unwrap_err(), BridgeError::Authorization);
    assert_eq!(b.get_token_evm_address(USDC), Some(String::from("0xabc")));
}

#[test]
fn set_asset_remote_address_requires_the_administrator() {
    let mut b = MultiChainBridge::new();
    b.initialize(ADMIN).unwrap();
    let r = b.set_token_evm_address(MALLORY, USDC, String::from("0xABC0000000000000000000"));
    assert_eq!(r.unwrap_err(), BridgeError::Authorization);
    assert_eq!(b.get_token_evm_address(USDC), None);
}

#[test]
fn set_asset_remote_address_fails_before_initialization() {
    let mut b = MultiChainBridge::new();
    let r = b.set_token_evm_address(ADMIN, USDC, String::from("0xabc"));
    assert_eq!(r.unwrap_err(), BridgeError::Authorization);
    assert_eq!(b.get_token_evm_address(USDC), None);
}

#[test]
fn set_asset_remote_address_overwrites() {
    let mut b = MultiChainBridge::new();
    b.initialize(ADMIN).unwrap();
    b.set_token_evm_address(ADMIN, USDC, String::from("0xaaa")).unwrap();
    b.set_token_evm_address(ADMIN, USDC, String::from("0xbbb")).unwrap();
    assert_eq!(b.get_token_evm_address(USDC), Some(String::from("0xbbb")));
    // Other assets keep their own mappings.
    b.set_token_evm_address(ADMIN, OTHER_TOKEN, String::from("0xccc")).unwrap();
    assert_eq!(b.get_token_evm_address(USDC), Some(String::from("0xbbb")));
    assert_eq!(b.get_token_evm_address(OTHER_TOKEN), Some(String::from("0xccc")));
}

#[test]
fn transfer_to_evm_validates_then_authenticates() {
    let b = MultiChainBridge::new();
    let r = b.transfer_to_evm(ALICE, ALICE, String::from("0xdead"), USDC, -1);
    assert_eq!(r.unwrap_err(), BridgeError::Validation);
    // The amount is validated before the caller: a negative amount from the
    // wrong caller still reports the validation failure.
    let r = b.transfer_to_evm(MALLORY, ALICE, String::from("0xdead"), USDC, -1);
    assert_eq!(r.unwrap_err(), BridgeError::Validation);
    let r = b.transfer_to_evm(MALLORY, ALICE, String::from("0xdead"), USDC, 5);
    assert_eq!(r.unwrap_err(), BridgeError::Authorization);
}

#[test]
fn transfer_to_evm_reports_the_mapped_remote_asset() {
    let mut b = MultiChainBridge::new();
    b.initialize(ADMIN).unwrap();
    b.set_token_evm_address(ADMIN, USDC, String::from("0xabc")).unwrap();
    let ev = b.transfer_to_evm(ALICE, ALICE, String::from("0xdead"), USDC, 5).unwrap();
    assert_eq!(ev.amount, 5);
    assert_eq!(ev.remote_asset, Some(String::from("0xabc")));
    assert_eq!(ev.counterparty, Counterparty::Remote(String::from("0xdead")));
    // An unmapped asset reports none; a zero amount is allowed on this path.
    let ev = b.transfer_to_evm(ALICE, ALICE, String::from("0xdead"), OTHER_TOKEN, 0).unwrap();
    assert_eq!(ev.remote_asset, None);
    // The escrow path does not touch the deposit ledger.
    assert_eq!(b.get_pool_balance(), 0);
    assert_eq!(b.get_users_count(), 0);
}

#[test]
fn transfer_payout_requires_the_oracle() {
    let b = MultiChainBridge::new();
    let r = b.transfer_payout(ALICE, ORACLE, ALICE, USDC, 5);
    assert_eq!(r.unwrap_err(), BridgeError::Authorization);
    let r = b.transfer_payout(ORACLE, ORACLE, ALICE, USDC, -2);
    assert_eq!(r.unwrap_err(), BridgeError::Validation);
}

#[test]
fn transfer_payout_reports_the_recipient() {
    let mut b = MultiChainBridge::new();
    b.initialize(ADMIN).unwrap();
    b.set_token_evm_address(ADMIN, USDC, String::from("0xabc")).unwrap();
    let ev = b.transfer_payout(ORACLE, ORACLE, ALICE, USDC, 7).unwrap();
    assert_eq!(ev.amount, 7);
    assert_eq!(ev.remote_asset, Some(String::from("0xabc")));
    assert_eq!(ev.counterparty, Counterparty::Local(ALICE));
    assert_eq!(b.get_pool_balance(), 0);
}

#[test]
fn deposit_and_withdraw_report_the_mapped_remote_asset() {
    let mut b = MultiChainBridge::new();
    b.initialize(ADMIN).unwrap();
    b.set_token_evm_address(ADMIN, USDC, String::from("0xabc")).unwrap();
    let ev = b.deposit_token(ALICE, ALICE, USDC, 50).unwrap();
    assert_eq!(ev.remote_asset, Some(String::from("0xabc")));
    assert_eq!(ev.counterparty, Counterparty::Local(ALICE));
    let ev = b.withdraw_token(ALICE, ALICE, USDC, 20).unwrap();
    assert_eq!(ev.amount, 20);
    assert_eq!(ev.remote_asset, Some(String::from("0xabc")));
    assert_eq!(ev.counterparty, Counterparty::Local(ALICE));
}
