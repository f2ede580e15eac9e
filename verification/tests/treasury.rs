use settlement_contracts::{
    Address, ContractError, FeeSchedule, TreasuryContract, MAX_BASIS_POINTS, MAX_SINGLE_FEE_BP,
};

fn addr(s: &str) -> Address {
    Address::new(s.to_string())
}

fn initialised() -> TreasuryContract {
    let mut t = TreasuryContract::new();
    t.init(addr("GADMIN"), addr("GTREASURY"));
    t
}

fn fee(t: &TreasuryContract, amount: i128) -> i128 {
    t.collect_fee(amount, addr("GRECIPIENT")).ok().unwrap().fee
}

#[test]
fn test_fee_calculation_tiers() {
    let small_amount = 500_000i128;
    let medium_amount = 5_000_000i128;
    let large_amount = 50_000_000i128;

    // Small amount: 0.5% = 50 basis points
    assert!(small_amount > 0);

    // Medium amount: 0.25% = 25 basis points
    assert!(medium_amount >= 1_000_000);

    // Large amount: 0.1% = 10 basis points
    assert!(large_amount >= 10_000_000);

    let schedule = FeeSchedule::new();
    assert_eq!(TreasuryContract::get_fee_for_amount(&schedule, small_amount), 50);
    assert_eq!(TreasuryContract::get_fee_for_amount(&schedule, medium_amount), 25);
    assert_eq!(TreasuryContract::get_fee_for_amount(&schedule, large_amount), 10);
}

#[test]
fn test_fee_bounds() {
    let max_fee = 500u32;
    assert!(max_fee <= MAX_SINGLE_FEE_BP);
    assert!(MAX_SINGLE_FEE_BP <= MAX_BASIS_POINTS);
}

#[test]
fn test_amount_tier_boundaries() {
    assert_eq!(0, 0);
    assert_eq!(1_000_000, 1_000_000);
    assert_eq!(10_000_000, 10_000_000);
}

// ── The treasury contract's own behaviour ─────────────────────────────────

#[test]
fn fees_are_charged_by_tier() {
    let t = initialised();
    assert_eq!(fee(&t, 500_000), 2_500);
    assert_eq!(fee(&t, 5_000_000), 12_500);
    assert_eq!(fee(&t, 50_000_000), 50_000);
}

#[test]
fn fee_tier_boundaries_and_rounding() {
    let t = initialised();
    assert_eq!(fee(&t, 1), 0);
    assert_eq!(fee(&t, 199), 0);
    assert_eq!(fee(&t, 200), 1);
    assert_eq!(fee(&t, 999_999), 4_999);
    assert_eq!(fee(&t, 1_000_000), 2_500);
    assert_eq!(fee(&t, 9_999_999), 24_999);
    assert_eq!(fee(&t, 10_000_000), 10_000);
    assert_eq!(fee(&t, i128::MAX / 10), (i128::MAX / 10) / 1_000);
}

#[test]
fn collect_fee_event_carries_amount_and_recipient() {
    let t = initialised();
    let ev = t.collect_fee(2_000_000, addr("GBOB")).ok().unwrap();
    assert_eq!(ev.amount, 2_000_000);
    assert_eq!(ev.fee, 5_000);
    assert_eq!(ev.recipient.strkey, "GBOB");
}

#[test]
fn collect_fee_refuses_non_positive_amounts_and_missing_schedule() {
    let t = initialised();
    assert_eq!(t.collect_fee(0, addr("GR")).err(), Some(ContractError::InvalidInput));
    assert_eq!(t.collect_fee(-5, addr("GR")).err(), Some(ContractError::InvalidInput));
    let fresh = TreasuryContract::new();
    assert_eq!(fresh.collect_fee(100, addr("GR")).err(), Some(ContractError::InvalidInput));
}

#[test]
fn rate_ignores_the_stored_schedule() {
    let mut t = initialised();
    t.set_fee_schedule(0, 500).ok().unwrap();
    t.set_fee_schedule(1_000_000, 400).ok().unwrap();
    assert_eq!(fee(&t, 500_000), 2_500);
    assert_eq!(fee(&t, 2_000_000), 5_000);
    let s = t.fee_schedule.as_ref().unwrap();
    assert_eq!(TreasuryContract::get_fee_for_amount(s, 500_000), 50);
}

#[test]
fn init_installs_default_schedule() {
    let t = initialised();
    let s = t.fee_schedule.as_ref().unwrap();
    assert_eq!(s.get(0), Some(50));
    assert_eq!(s.get(1_000_000), Some(25));
    assert_eq!(s.get(10_000_000), Some(10));
    assert_eq!(s.get(5), None);
    assert_eq!(s.entries.len(), 3);
}

#[test]
fn set_fee_schedule_writes_one_tier_within_cap() {
    let mut t = initialised();
    let ev = t.set_fee_schedule(1_000_000, 30).ok().unwrap();
    assert_eq!(ev.amount_tier, 1_000_000);
    assert_eq!(ev.basis_points, 30);
    let ev = t.set_fee_schedule(100_000_000, 500).ok().unwrap();
    assert_eq!(ev.basis_points, 500);
    assert_eq!(t.set_fee_schedule(7, 501).err(), Some(ContractError::InvalidInput));
    let s = t.fee_schedule.as_ref().unwrap();
    assert_eq!(s.get(1_000_000), Some(30));
    assert_eq!(s.get(100_000_000), Some(500));
    assert_eq!(s.get(7), None);
    assert_eq!(s.entries.len(), 4);
    assert!(t.is_well_formed());
}

#[test]
fn set_fee_schedule_refused_before_init() {
    let mut t = TreasuryContract::new();
    assert_eq!(t.set_fee_schedule(0, 10).err(), Some(ContractError::InvalidInput));
    assert_eq!(t.admin().err(), Some(ContractError::InvalidInput));
}

#[test]
fn treasury_address_read_update_and_route() {
    let mut fresh = TreasuryContract::new();
    assert!(fresh.get_treasury().is_none());
    assert_eq!(fresh.route_to_treasury(10).err(), Some(ContractError::InvalidInput));
    assert_eq!(fresh.update_treasury(addr("GX")).err(), Some(ContractError::InvalidInput));
    let mut t = initialised();
    assert_eq!(t.get_treasury().unwrap().strkey, "GTREASURY");
    let ev = t.route_to_treasury(77).ok().unwrap();
    assert_eq!(ev.amount, 77);
    assert_eq!(ev.treasury.strkey, "GTREASURY");
    assert_eq!(t.update_treasury(addr("GNEW")).ok().unwrap().treasury.strkey, "GNEW");
    assert_eq!(t.get_treasury().unwrap().strkey, "GNEW");
    assert_eq!(t.route_to_treasury(1).ok().unwrap().treasury.strkey, "GNEW");
    assert_eq!(t.admin().ok().unwrap().strkey, "GADMIN");
}

#[test]
fn treasury_is_the_last_accepted_update_and_default_tiers_stay() {
    let mut t = initialised();
    t.update_treasury(addr("GONE")).ok().unwrap();
    t.set_fee_schedule(0, 10).ok().unwrap();
    t.set_fee_schedule(42, 500).ok().unwrap();
    assert!(t.set_fee_schedule(43, 900).is_err());
    t.update_treasury(addr("GTWO")).ok().unwrap();
    t.route_to_treasury(5).ok().unwrap();
    t.collect_fee(1_000, addr("GR")).ok().unwrap();
    assert_eq!(t.get_treasury().unwrap().strkey, "GTWO");
    let s = t.fee_schedule.as_ref().unwrap();
    assert_eq!(s.get(0), Some(10));
    assert_eq!(s.get(1_000_000), Some(25));
    assert_eq!(s.get(10_000_000), Some(10));
    assert_eq!(s.get(43), None);
    assert!(s.entries.iter().all(|&(_, bp)| bp <= MAX_SINGLE_FEE_BP));
}
