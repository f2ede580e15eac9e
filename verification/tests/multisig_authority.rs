use settlement_contracts::multisig::threshold_for_value;
use settlement_contracts::{Address, ContractError, MultisigAuthority};

fn addr(s: &str) -> Address {
    Address::new(s.to_string())
}

fn strkeys(v: &[Address]) -> Vec<String> {
    v.iter().map(|a| a.strkey.clone()).collect()
}

/// An authority with admin `GADMIN`, signers alice, bob and carol,
/// threshold 2 and high-value limit 1000.
fn three_signer_authority() -> MultisigAuthority {
    let mut m = MultisigAuthority::new();
    let ev = m
        .init(addr("GADMIN"), vec![addr("GALICE"), addr("GBOB"), addr("GCAROL")], 2, 1_000)
        .ok()
        .unwrap();
    assert_eq!(ev.admin.strkey, "GADMIN");
    assert_eq!(ev.threshold, 2);
    assert_eq!(ev.high_value_limit, 1_000);
    m
}

// ── Threshold validation ──────────────────────────────────────────────────

#[test]
fn threshold_must_be_at_least_one() {
    // threshold = 0 is invalid
    assert!(0u32 == 0, "zero threshold must be rejected");
    let mut m = MultisigAuthority::new();
    let r = m.init(addr("GADMIN"), vec![addr("GALICE")], 0, 0);
    assert_eq!(r.err(), Some(ContractError::InvalidInput));
    assert!(m.state.is_none());
}

#[test]
fn threshold_cannot_exceed_signer_count() {
    let signers_len = 3usize;
    let threshold = 4u32;
    assert!(
        threshold as usize > signers_len,
        "threshold > signers should be rejected"
    );
    let mut m = MultisigAuthority::new();
    let r = m.init(addr("GADMIN"), vec![addr("GA"), addr("GB"), addr("GC")], threshold, 0);
    assert_eq!(r.err(), Some(ContractError::InvalidInput));
}

// ── State machine ─────────────────────────────────────────────────────────

#[test]
fn executed_proposal_cannot_be_re_executed() {
    let executed = true;
    assert!(executed, "once executed the guard blocks re-execution");
    let mut m = three_signer_authority();
    m.propose(addr("GALICE"), b"p1".to_vec(), b"release".to_vec(), addr("CBRIDGE"), 10, 5)
        .ok()
        .unwrap();
    assert_eq!(m.execute(addr("GBOB"), b"p1".to_vec()).ok().unwrap().value, 10);
    assert_eq!(m.execute(addr("GBOB"), b"p1".to_vec()).err(), Some(ContractError::InvalidInput));
}

#[test]
fn cannot_sign_twice() {
    // Simulate duplicate-signer check
    let signers = vec!["alice", "alice"];
    let unique: std::collections::HashSet<_> = signers.iter().collect();
    assert_ne!(signers.len(), unique.len(), "duplicate detected");
    let mut m = three_signer_authority();
    m.propose(addr("GALICE"), b"p1".to_vec(), b"d".to_vec(), addr("CBRIDGE"), 5_000, 5)
        .ok()
        .unwrap();
    assert_eq!(m.sign(addr("GBOB"), b"p1".to_vec()).ok().unwrap().sig_count, 2);
    assert_eq!(m.sign(addr("GBOB"), b"p1".to_vec()).err(), Some(ContractError::InvalidInput));
    // the proposer's own signature counts as given
    assert_eq!(m.sign(addr("GALICE"), b"p1".to_vec()).err(), Some(ContractError::InvalidInput));
}

#[test]
fn quorum_check_low_value() {
    // Value below high_value_limit → only 1 sig required
    let value = 500_i128;
    let high_value_limit = 1_000_i128;
    let full_threshold = 3_u32;
    let required = if high_value_limit > 0 && value <= high_value_limit {
        1u32
    } else {
        full_threshold
    };
    assert_eq!(required, 1);
    assert_eq!(threshold_for_value(full_threshold, high_value_limit, value), 1);
}

#[test]
fn quorum_check_high_value() {
    // Value above high_value_limit → full threshold required
    let value = 5_000_i128;
    let high_value_limit = 1_000_i128;
    let full_threshold = 3_u32;
    let required = if high_value_limit > 0 && value <= high_value_limit {
        1u32
    } else {
        full_threshold
    };
    assert_eq!(required, full_threshold);
    assert_eq!(threshold_for_value(full_threshold, high_value_limit, value), full_threshold);
}

#[test]
fn remove_signer_preserves_quorum() {
    let signers_len = 3usize;
    let threshold = 3u32;
    // Removing one would leave 2 signers but threshold is 3 — invalid
    assert!(
        (signers_len - 1) < threshold as usize,
        "removal must be blocked when it makes quorum impossible"
    );
    let mut m = MultisigAuthority::new();
    m.init(addr("GADMIN"), vec![addr("GA"), addr("GB"), addr("GC")], threshold, 0).ok().unwrap();
    assert_eq!(m.remove_signer(addr("GADMIN"), addr("GB")).err(), Some(ContractError::InvalidInput));
    assert_eq!(strkeys(&m.get_signers()), vec!["GA", "GB", "GC"]);
}

// ── The authority's own behaviour ──────────────────────────────────────────

#[test]
fn init_refuses_empty_signers_and_negative_limit() {
    let mut m = MultisigAuthority::new();
    assert_eq!(m.init(addr("GADMIN"), vec![], 1, 0).err(), Some(ContractError::InvalidInput));
    assert_eq!(
        m.init(addr("GADMIN"), vec![addr("GA")], 1, -1).err(),
        Some(ContractError::InvalidInput)
    );
    assert!(m.state.is_none());
    assert!(m.get_signers().is_empty());
}

#[test]
fn operations_refused_before_init() {
    let mut m = MultisigAuthority::new();
    assert!(m.propose(addr("GA"), b"p".to_vec(), b"d".to_vec(), addr("GT"), 1, 1).is_err());
    assert!(m.sign(addr("GA"), b"p".to_vec()).is_err());
    assert!(m.execute(addr("GA"), b"p".to_vec()).is_err());
    assert!(m.add_signer(addr("GADMIN"), addr("GA")).is_err());
    assert!(m.remove_signer(addr("GADMIN"), addr("GA")).is_err());
    assert!(m.set_threshold(addr("GADMIN"), 1).is_err());
    assert_eq!(m.required_threshold(5), Err(ContractError::InvalidInput));
    assert_eq!(m.proposal_status(b"p".to_vec()), Err(ContractError::InvalidInput));
}

#[test]
fn only_signers_propose_and_ids_are_unique() {
    let mut m = three_signer_authority();
    assert!(m.propose(addr("GMALLORY"), b"p".to_vec(), b"d".to_vec(), addr("GT"), 1, 1).is_err());
    let ev = m
        .propose(addr("GCAROL"), b"p".to_vec(), b"upgrade".to_vec(), addr("CTARGET"), 7, 42)
        .ok()
        .unwrap();
    assert_eq!(ev.id, b"p");
    assert_eq!(ev.proposer.strkey, "GCAROL");
    assert_eq!(ev.target.strkey, "CTARGET");
    assert_eq!(ev.value, 7);
    assert!(m.propose(addr("GALICE"), b"p".to_vec(), b"again".to_vec(), addr("GT"), 1, 1).is_err());
    let a = m.state.as_ref().unwrap();
    assert_eq!(a.proposals.len(), 1);
    let p = &a.proposals[0];
    assert_eq!(p.description, b"upgrade");
    assert_eq!(p.created_at, 42);
    assert!(!p.executed);
    assert_eq!(strkeys(&p.signatures), vec!["GCAROL"]);
}

#[test]
fn status_tracks_signatures_and_execution() {
    let mut m = three_signer_authority();
    m.propose(addr("GALICE"), b"big".to_vec(), b"d".to_vec(), addr("GT"), 5_000, 1).ok().unwrap();
    m.propose(addr("GALICE"), b"small".to_vec(), b"d".to_vec(), addr("GT"), 1_000, 1).ok().unwrap();
    assert_eq!(m.proposal_status(b"big".to_vec()), Ok((1, 2, false)));
    assert_eq!(m.proposal_status(b"small".to_vec()), Ok((1, 1, true)));
    assert_eq!(m.proposal_status(b"none".to_vec()), Err(ContractError::InvalidInput));
    // quorum not reached
    assert!(m.execute(addr("GCAROL"), b"big".to_vec()).is_err());
    let ev = m.sign(addr("GCAROL"), b"big".to_vec()).ok().unwrap();
    assert_eq!(ev.proposal_id, b"big");
    assert_eq!(ev.signer.strkey, "GCAROL");
    assert_eq!(ev.sig_count, 2);
    assert_eq!(m.proposal_status(b"big".to_vec()), Ok((2, 2, true)));
    let ev = m.execute(addr("GBOB"), b"big".to_vec()).ok().unwrap();
    assert_eq!(ev.value, 5_000);
    assert_eq!(ev.sig_count, 2);
    assert_eq!(ev.executor.strkey, "GBOB");
    assert_eq!(m.proposal_status(b"big".to_vec()), Ok((2, 2, false)));
    // a signature on an executed proposal is refused
    assert!(m.sign(addr("GBOB"), b"big".to_vec()).is_err());
}

#[test]
fn only_signers_sign_and_execute() {
    let mut m = three_signer_authority();
    m.propose(addr("GALICE"), b"p".to_vec(), b"d".to_vec(), addr("GT"), 1, 1).ok().unwrap();
    assert!(m.sign(addr("GMALLORY"), b"p".to_vec()).is_err());
    assert!(m.execute(addr("GMALLORY"), b"p".to_vec()).is_err());
    assert!(m.sign(addr("GBOB"), b"missing".to_vec()).is_err());
    assert!(m.execute(addr("GBOB"), b"p".to_vec()).is_ok());
}

#[test]
fn zero_limit_always_requires_full_threshold() {
    let mut m = MultisigAuthority::new();
    m.init(addr("GADMIN"), vec![addr("GA"), addr("GB")], 2, 0).ok().unwrap();
    assert_eq!(m.required_threshold(0), Ok(2));
    assert_eq!(m.required_threshold(-5), Ok(2));
    let m2 = three_signer_authority();
    assert_eq!(m2.required_threshold(1_000), Ok(1));
    assert_eq!(m2.required_threshold(1_001), Ok(2));
    assert_eq!(m2.required_threshold(-1), Ok(1));
}

#[test]
fn admin_manages_signers() {
    let mut m = three_signer_authority();
    assert!(m.add_signer(addr("GALICE"), addr("GDAVE")).is_err());
    assert!(m.add_signer(addr("GADMIN"), addr("GBOB")).is_err());
    assert_eq!(m.add_signer(addr("GADMIN"), addr("GDAVE")).ok().unwrap().signer.strkey, "GDAVE");
    assert_eq!(strkeys(&m.get_signers()), vec!["GALICE", "GBOB", "GCAROL", "GDAVE"]);
    assert!(m.remove_signer(addr("GBOB"), addr("GALICE")).is_err());
    assert!(m.remove_signer(addr("GADMIN"), addr("GMALLORY")).is_err());
    assert_eq!(m.remove_signer(addr("GADMIN"), addr("GBOB")).ok().unwrap().signer.strkey, "GBOB");
    assert_eq!(strkeys(&m.get_signers()), vec!["GALICE", "GCAROL", "GDAVE"]);
}

#[test]
fn remove_signer_takes_first_registration_only() {
    // init does not reject a repeated signer; removal drops the first copy
    let mut m = MultisigAuthority::new();
    m.init(addr("GADMIN"), vec![addr("GA"), addr("GB"), addr("GA")], 1, 0).ok().unwrap();
    m.remove_signer(addr("GADMIN"), addr("GA")).ok().unwrap();
    assert_eq!(strkeys(&m.get_signers()), vec!["GB", "GA"]);
}

#[test]
fn set_threshold_stays_within_signer_count() {
    let mut m = three_signer_authority();
    assert!(m.set_threshold(addr("GADMIN"), 0).is_err());
    assert!(m.set_threshold(addr("GADMIN"), 4).is_err());
    assert!(m.set_threshold(addr("GALICE"), 3).is_err());
    assert_eq!(m.set_threshold(addr("GADMIN"), 3).ok().unwrap().threshold, 3);
    assert_eq!(m.required_threshold(5_000), Ok(3));
    // with threshold 3 of 3, no signer may leave
    assert!(m.remove_signer(addr("GADMIN"), addr("GALICE")).is_err());
}

#[test]
fn reinit_replaces_configuration_and_clears_proposals() {
    let mut m = three_signer_authority();
    m.propose(addr("GALICE"), b"p".to_vec(), b"d".to_vec(), addr("GT"), 1, 1).ok().unwrap();
    m.init(addr("GNEW"), vec![addr("GX")], 1, 0).ok().unwrap();
    assert_eq!(m.proposal_status(b"p".to_vec()), Err(ContractError::InvalidInput));
    assert_eq!(strkeys(&m.get_signers()), vec!["GX"]);
}

#[test]
fn loaded_state_is_checked() {
    let m = three_signer_authority();
    assert!(m.is_well_formed());
    let mut bad = three_signer_authority();
    bad.state.as_mut().unwrap().threshold = 4;
    assert!(!bad.is_well_formed());
}

#[test]
fn filed_proposal_keeps_its_terms_through_later_calls() {
    let mut m = three_signer_authority();
    m.propose(addr("GBOB"), b"p".to_vec(), b"desc".to_vec(), addr("CT"), 500, 9).ok().unwrap();
    m.add_signer(addr("GADMIN"), addr("GDAVE")).ok().unwrap();
    m.sign(addr("GDAVE"), b"p".to_vec()).ok().unwrap();
    m.set_threshold(addr("GADMIN"), 3).ok().unwrap();
    m.remove_signer(addr("GADMIN"), addr("GBOB")).ok().unwrap();
    m.execute(addr("GALICE"), b"p".to_vec()).ok().unwrap();
    // the id stays taken, and the proposal is never reset
    assert!(m.propose(addr("GALICE"), b"p".to_vec(), b"x".to_vec(), addr("GX"), 1, 1).is_err());
    let a = m.state.as_ref().unwrap();
    let p = &a.proposals[0];
    assert_eq!(p.description, b"desc");
    assert_eq!(p.target.strkey, "CT");
    assert_eq!(p.value, 500);
    assert_eq!(p.created_at, 9);
    assert!(p.executed);
    assert_eq!(strkeys(&p.signatures), vec!["GBOB", "GDAVE"]);
    assert_eq!(a.admin.strkey, "GADMIN");
    assert_eq!(a.high_value_limit, 1_000);
}

#[test]
fn executed_proposal_stays_final_after_other_calls() {
    let mut m = three_signer_authority();
    m.propose(addr("GALICE"), b"p".to_vec(), b"d".to_vec(), addr("GT"), 1, 1).ok().unwrap();
    m.execute(addr("GALICE"), b"p".to_vec()).ok().unwrap();
    m.add_signer(addr("GADMIN"), addr("GDAVE")).ok().unwrap();
    m.set_threshold(addr("GADMIN"), 1).ok().unwrap();
    assert!(m.execute(addr("GDAVE"), b"p".to_vec()).is_err());
    assert!(m.sign(addr("GDAVE"), b"p".to_vec()).is_err());
    assert_eq!(m.proposal_status(b"p".to_vec()), Ok((1, 1, false)));
}

#[test]
fn add_then_remove_signer_restores_signers() {
    let mut m = three_signer_authority();
    m.add_signer(addr("GADMIN"), addr("GDAVE")).ok().unwrap();
    m.remove_signer(addr("GADMIN"), addr("GDAVE")).ok().unwrap();
    assert_eq!(strkeys(&m.get_signers()), vec!["GALICE", "GBOB", "GCAROL"]);
    assert_eq!(m.required_threshold(5_000), Ok(2));
}
