use settlement_contracts::escrow::deposit_id;
use settlement_contracts::{Address, ContractError, EscrowContract};

fn addr(s: &str) -> Address {
    Address::new(s.to_string())
}

/// An initialised escrow with settlement authority `GAUTH`.
fn escrow() -> EscrowContract {
    let mut c = EscrowContract::new();
    c.init(addr("GAUTH"));
    c
}

/// Deposits `amount` by `user` for `bridge` at `ledger` and returns its id.
fn deposit(c: &mut EscrowContract, user: &str, bridge: &str, amount: i128, ledger: u32) -> String {
    c.deposit(addr(user), addr(bridge), amount, ledger).ok().unwrap().deposit_id
}

fn deposit_flags(c: &EscrowContract, id: &str) -> (bool, bool) {
    let d = c.deposits.iter().find(|d| d.id == id).unwrap();
    (d.released, d.refunded)
}

#[test]
fn test_deposit_flow() {
    // User deposits funds into escrow
    // State: amount=100, released=false, refunded=false
    let amount = 100i128;
    let released = false;
    let refunded = false;

    assert!(amount > 0);
    assert!(!released && !refunded);

    let mut c = escrow();
    let ev = c.deposit(addr("user1"), addr("bridge"), amount, 1000).ok().unwrap();
    assert_eq!(ev.amount, amount);
    assert_eq!(ev.depositor.strkey, "user1");
    assert_eq!(ev.bridge.strkey, "bridge");
    assert_eq!(deposit_flags(&c, &ev.deposit_id), (released, refunded));
}

#[test]
fn test_release_flow() {
    // Settlement authority releases funds to bridge
    // State transitions: (unreleased, unrefunded) -> (released, unrefunded)
    #[allow(unused_assignments)]
    let mut released = false;
    let refunded = false;

    released = true;

    assert!(released && !refunded);

    let mut c = escrow();
    let id = deposit(&mut c, "user1", "bridge", 100, 1000);
    let ev = c.release(id.clone()).ok().unwrap();
    assert_eq!(ev.bridge.strkey, "bridge");
    assert_eq!(ev.amount, 100);
    assert_eq!(deposit_flags(&c, &id), (released, refunded));
}

// The scenario test `test_refund_flow_after_timeout` is not carried here:
// it asserts `refunded` although its current ledger (1000) is before its
// timeout ledger (605800), so it fails on its own local variables, and it
// contradicts `test_depositor_refund_after_timeout`, which refuses a refund
// at that same ledger.  The refund after the timeout is tested there.

#[test]
fn test_cannot_release_and_refund() {
    // Cannot perform both operations on same deposit
    let released = true;
    let refunded = false;

    let can_refund = !released && !refunded;
    assert!(!can_refund);

    let mut c = escrow();
    let id = deposit(&mut c, "user1", "bridge", 100, 1000);
    c.release(id.clone()).ok().unwrap();
    assert_eq!(
        c.refund(addr("user1"), id.clone(), 700_000).err(),
        Some(ContractError::InvalidInput)
    );
    assert_eq!(c.release(id.clone()).err(), Some(ContractError::InvalidInput));
    assert_eq!(deposit_flags(&c, &id), (true, false));
}

#[test]
fn test_settlement_authority_protection() {
    // Only settlement authority can release
    // This is enforced by require_auth in contract
    let is_settlement_auth = true;
    assert!(is_settlement_auth, "Settlement auth required");

    // without a settlement authority no deposit can be released
    let mut c = EscrowContract::new();
    let id = deposit(&mut c, "user1", "bridge", 100, 1000);
    assert_eq!(c.release(id.clone()).err(), Some(ContractError::InvalidInput));
    assert_eq!(c.admin().err(), Some(ContractError::InvalidInput));
    c.init(addr("GAUTH"));
    assert_eq!(c.admin().ok().unwrap().strkey, "GAUTH");
    assert!(c.release(id).is_ok());
}

#[test]
fn test_depositor_refund_after_timeout() {
    // Depositor can only refund after timeout period
    let current_ledger = 1000u32;
    let timeout_ledger = 605800u32;

    let can_refund = current_ledger >= timeout_ledger;
    assert!(!can_refund, "Should not be able to refund before timeout");

    let current_ledger_later = 606000u32;
    let can_refund_later = current_ledger_later >= timeout_ledger;
    assert!(can_refund_later, "Should be able to refund after timeout");

    let mut c = escrow();
    let id = deposit(&mut c, "user1", "bridge", 100, current_ledger);
    let d = c.deposits.iter().find(|d| d.id == id).unwrap();
    assert_eq!(d.timeout_ledger, timeout_ledger as u64);
    assert_eq!(
        c.refund(addr("user1"), id.clone(), current_ledger).err(),
        Some(ContractError::InvalidInput)
    );
    assert_eq!(deposit_flags(&c, &id), (false, false));
    assert!(c.refund(addr("user1"), id.clone(), timeout_ledger - 1).is_err());
    let ev = c.refund(addr("user1"), id.clone(), current_ledger_later).ok().unwrap();
    assert_eq!(ev.depositor.strkey, "user1");
    assert_eq!(ev.amount, 100);
    assert_eq!(deposit_flags(&c, &id), (false, true));
}

#[test]
fn test_multiple_concurrent_deposits() {
    // Multiple deposits can exist independently
    let deposit1_id = "user1:bridge:1000";
    let deposit2_id = "user2:bridge:1001";

    assert_ne!(deposit1_id, deposit2_id);

    let mut c = escrow();
    assert_eq!(deposit(&mut c, "user1", "bridge", 10, 1000), deposit1_id);
    assert_eq!(deposit(&mut c, "user2", "bridge", 20, 1001), deposit2_id);
    c.release(deposit1_id.to_string()).ok().unwrap();
    assert_eq!(deposit_flags(&c, deposit1_id), (true, false));
    assert_eq!(deposit_flags(&c, deposit2_id), (false, false));
}

#[test]
fn test_idempotent_refund() {
    // Cannot refund twice
    #[allow(unused_assignments)]
    let mut refunded = false;

    refunded = true;
    let can_refund_again = !refunded;

    assert!(!can_refund_again, "Cannot refund twice");

    let mut c = escrow();
    let id = deposit(&mut c, "user1", "bridge", 100, 1000);
    c.refund(addr("user1"), id.clone(), 605_800).ok().unwrap();
    assert_eq!(
        c.refund(addr("user1"), id.clone(), 605_900).err(),
        Some(ContractError::InvalidInput)
    );
    assert_eq!(c.release(id.clone()).err(), Some(ContractError::InvalidInput));
    assert_eq!(deposit_flags(&c, &id), (false, true));
}

#[test]
fn test_deposit_id_uniqueness() {
    // Each deposit has unique ID based on depositor, bridge, and timestamp
    let id1 = format!("{}:{}:{}", "user1", "bridge1", "1000");
    let id2 = format!("{}:{}:{}", "user1", "bridge2", "1000");

    assert_ne!(id1, id2);

    assert_eq!(deposit_id(&addr("user1"), &addr("bridge1"), 1000), id1);
    assert_eq!(deposit_id(&addr("user1"), &addr("bridge2"), 1000), id2);
}

// ── The escrow contract's own behaviour ─────────────────────────────────────

#[test]
fn escrow_version_is_one_zero_zero() {
    assert_eq!(EscrowContract::version(), "1.0.0");
}

#[test]
fn escrow_deposit_id_digits() {
    assert_eq!(deposit_id(&addr("GA"), &addr("CB"), 0), "GA:CB:0");
    assert_eq!(deposit_id(&addr("GA"), &addr("CB"), 9), "GA:CB:9");
    assert_eq!(deposit_id(&addr("GA"), &addr("CB"), 10), "GA:CB:10");
    assert_eq!(deposit_id(&addr("GA"), &addr("CB"), u32::MAX), "GA:CB:4294967295");
}

#[test]
fn escrow_fresh_contract_is_not_paused_and_accepts_deposits() {
    let mut c = EscrowContract::new();
    assert!(!c.is_paused());
    let ev = c.deposit(addr("GU"), addr("CB"), 100, 5).ok().unwrap();
    assert_eq!(ev.amount, 100);
    assert_eq!(ev.deposit_id, "GU:CB:5");
}

#[test]
fn escrow_same_depositor_bridge_and_ledger_is_refused() {
    let mut c = escrow();
    deposit(&mut c, "GU", "CB", 1, 7);
    assert_eq!(c.deposit(addr("GU"), addr("CB"), 2, 7).err(), Some(ContractError::InvalidInput));
    assert_eq!(c.deposits.len(), 1);
    assert_eq!(c.deposits[0].amount, 1);
}

#[test]
fn escrow_only_the_depositor_refunds() {
    let mut c = escrow();
    let id = deposit(&mut c, "GU", "CB", 1, 7);
    assert!(c.refund(addr("GMALLORY"), id.clone(), 1_000_000).is_err());
    assert!(c.refund(addr("GU"), "GU:CB:8".to_string(), 1_000_000).is_err());
    assert!(c.refund(addr("GU"), id, 1_000_000).is_ok());
}

#[test]
fn escrow_admin_operations_refused_before_init() {
    let mut c = EscrowContract::new();
    assert_eq!(c.admin().err(), Some(ContractError::InvalidInput));
    assert_eq!(c.pause(b"maintenance".to_vec()).err(), Some(ContractError::InvalidInput));
    assert_eq!(c.unpause().err(), Some(ContractError::InvalidInput));
    assert_eq!(c.migrate(b"2.0.0".to_vec()).err(), Some(ContractError::InvalidInput));
    // nothing was written
    assert!(c.paused.is_none());
    assert!(!c.is_paused());
}

#[test]
fn escrow_init_stores_admin_and_clears_pause() {
    let mut c = EscrowContract::new();
    c.init(addr("GADMIN"));
    assert_eq!(c.admin().ok().unwrap().strkey, "GADMIN");
    assert_eq!(c.paused, Some(false));
}

#[test]
fn escrow_pause_blocks_deposits_and_unpause_restores_them() {
    let mut c = escrow();
    let id = deposit(&mut c, "GU", "CB", 50, 1);
    let ev = c.pause(b"incident".to_vec()).ok().unwrap();
    assert_eq!(ev.reason, b"incident");
    assert!(c.is_paused());
    assert_eq!(c.deposit(addr("GU"), addr("CB"), 50, 2).err(), Some(ContractError::InvalidInput));
    // refunds and releases go through while paused
    assert_eq!(c.refund(addr("GU"), id, 700_000).ok().unwrap().amount, 50);
    assert!(c.unpause().is_ok());
    assert!(!c.is_paused());
    assert_eq!(c.deposit(addr("GU"), addr("CB"), 50, 2).ok().unwrap().amount, 50);
}

#[test]
fn escrow_migrate_announces_new_version_without_change() {
    let mut c = escrow();
    let ev = c.migrate(b"2.0.0".to_vec()).ok().unwrap();
    assert_eq!(ev.new_version, b"2.0.0");
    assert!(!c.is_paused());
}

#[test]
fn escrow_switch_follows_last_pause_or_unpause() {
    let mut c = escrow();
    c.pause(b"a".to_vec()).ok().unwrap();
    assert!(c.deposit(addr("GU"), addr("CB"), 1, 1).is_err());
    c.unpause().ok().unwrap();
    let id = deposit(&mut c, "GU", "CB", 2, 1);
    c.pause(b"b".to_vec()).ok().unwrap();
    c.migrate(b"3".to_vec()).ok().unwrap();
    c.release(id).ok().unwrap();
    assert!(c.is_paused());
    c.unpause().ok().unwrap();
    deposit(&mut c, "GU", "CB", 5, 2);
    assert!(!c.is_paused());
    assert_eq!(c.admin().ok().unwrap().strkey, "GAUTH");
}

#[test]
fn escrow_loaded_state_is_checked() {
    let mut c = escrow();
    deposit(&mut c, "GU", "CB", 5, 2);
    assert!(c.is_well_formed());
    c.deposits[0].released = true;
    c.deposits[0].refunded = true;
    assert!(!c.is_well_formed());
}
