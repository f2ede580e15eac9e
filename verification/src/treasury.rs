//! Tiered protocol fees and the treasury address they are routed to.

use vstd::prelude::*;
use crate::address::Address;
use crate::error::ContractError;
use crate::keyed::{
    keyed_map, keys_unique, lemma_keyed_map_at, lemma_keyed_map_dom, lemma_keyed_map_len,
    lemma_keyed_map_push, lemma_keyed_map_update,
};

verus! {

/// Basis points in a whole (100%).
pub const MAX_BASIS_POINTS: u32 = 10_000;

/// Largest fee, in basis points, that one schedule tier may carry (5%).
pub const MAX_SINGLE_FEE_BP: u32 = 500;

/// Fee rate, in basis points, applied to `amount`: 0.5% below one million
/// base units, 0.25% from one million, 0.1% from ten million.
pub open spec fn fee_bp_for(amount: i128) -> u32 {
    if amount >= 10_000_000 {
        10
    } else if amount >= 1_000_000 {
        25
    } else {
        50
    }
}

/// The fee charged on `amount`, rounded down.
pub open spec fn fee_for(amount: i128) -> int {
    amount * fee_bp_for(amount) / (MAX_BASIS_POINTS as int)
}

/// A fee schedule: amount tiers, each with a rate in basis points.
pub struct FeeSchedule {
    /// `(amount tier, basis points)` entries, each tier once.
    pub entries: Vec<(i128, u32)>,
}

impl View for FeeSchedule {
    type V = Map<i128, u32>;

    open spec fn view(&self) -> Map<i128, u32> {
        keyed_map(self.entries@)
    }
}

/// Every tier of the schedule is within [`MAX_SINGLE_FEE_BP`].
pub open spec fn schedule_capped(m: Map<i128, u32>) -> bool {
    forall|k: i128| #[trigger] m.contains_key(k) ==> m[k] <= MAX_SINGLE_FEE_BP
}

/// The schedule installed by `init`.
pub open spec fn initial_schedule() -> Map<i128, u32> {
    Map::empty().insert(0i128, 50u32).insert(1_000_000i128, 25u32).insert(10_000_000i128, 10u32)
}

impl FeeSchedule {
    /// Each tier occurs once, and the schedule fits a ledger map.
    pub open spec fn wf(self) -> bool {
        &&& keys_unique(self.entries@)
        &&& self.entries.len() <= u32::MAX
    }

    /// Room to write tier `tier` (a ledger map holds at most `u32::MAX`
    /// entries).
    pub open spec fn has_room_for(self, tier: i128) -> bool {
        self@.contains_key(tier) || self@.dom().len() < u32::MAX
    }

    /// An empty schedule.
    pub fn new() -> (s: FeeSchedule)
        ensures
            s.wf(),
            s@ == Map::<i128, u32>::empty(),
    {
        FeeSchedule { entries: Vec::new() }
    }

    /// The position of tier `tier`, if it is in the schedule.
    fn position(&self, tier: i128) -> (r: Option<usize>)
        requires
            self.wf(),
        ensures
            match r {
                Some(i) => i < self.entries.len() && self.entries@[i as int].0 == tier,
                None => !self@.contains_key(tier),
            },
    {
        let mut i: usize = 0;
        while i < self.entries.len()
            invariant
                i <= self.entries.len(),
                forall|j: int| 0 <= j < i ==> self.entries@[j].0 != tier,
            decreases self.entries.len() - i,
        {
            if self.entries[i].0 == tier {
                return Some(i);
            }
            i = i + 1;
        }
        proof {
            lemma_keyed_map_dom(self.entries@, tier);
        }
        None
    }

    /// The rate stored for tier `tier`.
    pub fn get(&self, tier: i128) -> (r: Option<u32>)
        requires
            self.wf(),
        ensures
            r == (if self@.contains_key(tier) {
                Some(self@[tier])
            } else {
                None::<u32>
            }),
    {
        match self.position(tier) {
            Some(i) => {
                proof {
                    lemma_keyed_map_at(self.entries@, i as int);
                }
                Some(self.entries[i].1)
            },
            None => None,
        }
    }

    /// Writes rate `basis_points` for tier `tier`, replacing any earlier rate.
    pub fn set(&mut self, tier: i128, basis_points: u32)
        requires
            old(self).wf(),
            old(self).has_room_for(tier),
        ensures
            final(self).wf(),
            final(self)@ == old(self)@.insert(tier, basis_points),
    {
        let ghost old_entries = self.entries@;
        proof {
            lemma_keyed_map_len(old_entries);
        }
        match self.position(tier) {
            Some(i) => {
                self.entries.set(i, (tier, basis_points));
                proof {
                    lemma_keyed_map_update(old_entries, i as int, basis_points);
                    assert(keys_unique(self.entries@));
                }
            },
            None => {
                proof {
                    lemma_keyed_map_dom(old_entries, tier);
                    lemma_keyed_map_push(old_entries, tier, basis_points);
                    assert forall|a: int, b: int|
                        0 <= a < b < old_entries.push((tier, basis_points)).len() implies
                        #[trigger] old_entries.push((tier, basis_points))[a].0
                        != #[trigger] old_entries.push((tier, basis_points))[b].0 by {
                        if b == old_entries.len() {
                            assert(old_entries[a].0 != tier);
                        }
                    }
                }
                self.entries.push((tier, basis_points));
            },
        }
    }

    /// Whether a stored schedule is well formed.
    pub fn is_well_formed(&self) -> (b: bool)
        ensures
            b == self.wf(),
    {
        if self.entries.len() > u32::MAX as usize {
            return false;
        }
        let mut i: usize = 0;
        while i < self.entries.len()
            invariant
                i <= self.entries.len(),
                forall|a: int, b: int| 0 <= a < b < self.entries.len() && a < i ==>
                    self.entries@[a].0 != self.entries@[b].0,
            decreases self.entries.len() - i,
        {
            let mut j: usize = i + 1;
            while j < self.entries.len()
                invariant
                    i < self.entries.len(),
                    i + 1 <= j <= self.entries.len(),
                    forall|a: int, b: int| 0 <= a < b < self.entries.len() && a < i ==>
                        self.entries@[a].0 != self.entries@[b].0,
                    forall|b: int| i < b < j ==> self.entries@[i as int].0 != self.entries@[b].0,
                decreases self.entries.len() - j,
            {
                if self.entries[i].0 == self.entries[j].0 {
                    return false;
                }
                j = j + 1;
            }
            i = i + 1;
        }
        true
    }
}

/// The treasury contract's stored state: administrator, treasury address and
/// fee schedule, each absent until first written.
pub struct TreasuryContract {
    pub admin: Option<Address>,
    pub treasury: Option<Address>,
    pub fee_schedule: Option<FeeSchedule>,
}

/// The treasury contract's state seen as plain values.
pub struct TreasuryView {
    pub admin: Option<Seq<char>>,
    pub treasury: Option<Seq<char>>,
    pub fee_schedule: Option<Map<i128, u32>>,
}

/// The text of an optional address.
pub open spec fn address_option_view(a: Option<Address>) -> Option<Seq<char>> {
    match a {
        Some(a) => Some(a@),
        None => None,
    }
}

impl View for TreasuryContract {
    type V = TreasuryView;

    open spec fn view(&self) -> TreasuryView {
        TreasuryView {
            admin: address_option_view(self.admin),
            treasury: address_option_view(self.treasury),
            fee_schedule: match self.fee_schedule {
                Some(f) => Some(f@),
                None => None,
            },
        }
    }
}

impl TreasuryView {
    /// Every rate in the stored schedule is within [`MAX_SINGLE_FEE_BP`].
    pub open spec fn capped(self) -> bool {
        self.fee_schedule matches Some(m) ==> schedule_capped(m)
    }
}

/// Event: a fee was charged on `amount`.
pub struct FeeCollected {
    pub amount: i128,
    pub fee: i128,
    pub recipient: Address,
}

/// Event: one tier of the fee schedule was written.
pub struct FeeScheduleUpdated {
    pub amount_tier: i128,
    pub basis_points: u32,
}

/// Event: the treasury address was replaced.
pub struct TreasuryUpdated {
    pub treasury: Address,
}

/// Event: `amount` was routed to the treasury.
pub struct FeeRouted {
    pub amount: i128,
    pub treasury: Address,
}

impl TreasuryContract {
    /// Well-formedness: a stored schedule lists each tier once.
    pub open spec fn wf(self) -> bool {
        self.fee_schedule matches Some(f) ==> f.wf()
    }

    /// Room to write tier `tier` into the stored schedule.
    pub open spec fn has_room_for(self, tier: i128) -> bool {
        self.fee_schedule matches Some(f) ==> f.has_room_for(tier)
    }

    /// A contract that has never been initialised: nothing is stored.
    pub fn new() -> (c: TreasuryContract)
        ensures
            c.wf(),
            c@.admin is None,
            c@.treasury is None,
            c@.fee_schedule is None,
    {
        TreasuryContract { admin: None, treasury: None, fee_schedule: None }
    }

    /// Whether the stored state is well formed.
    pub fn is_well_formed(&self) -> (b: bool)
        ensures
            b == self.wf(),
    {
        match &self.fee_schedule {
            Some(f) => f.is_well_formed(),
            None => true,
        }
    }

    /// Installs the administrator and the treasury address, and the default
    /// schedule: 50 basis points from 0, 25 from one million, 10 from ten
    /// million.  The host requires `admin`'s authorisation first.
    pub fn init(&mut self, admin: Address, treasury: Address)
        ensures
            final(self).wf(),
            final(self)@.admin == Some(admin@),
            final(self)@.treasury == Some(treasury@),
            final(self)@.fee_schedule == Some(initial_schedule()),
            final(self)@ == initial_treasury_view(admin@, treasury@),
            final(self)@.capped(),
    {
        let mut schedule = FeeSchedule::new();
        schedule.set(0i128, 50);
        schedule.set(1_000_000i128, 25);
        schedule.set(10_000_000i128, 10);
        self.admin = Some(admin);
        self.treasury = Some(treasury);
        self.fee_schedule = Some(schedule);
        proof {
            assert(schedule@ =~= initial_schedule());
        }
    }

    /// The stored administrator, whose authorisation the host requires for
    /// `set_fee_schedule` and `update_treasury`; refused when none is stored.
    pub fn admin(&self) -> (r: Result<Address, ContractError>)
        ensures
            match r {
                Ok(a) => self@.admin == Some(a@),
                Err(e) => self@.admin is None && e == ContractError::InvalidInput,
            },
    {
        match &self.admin {
            Some(a) => Ok(a.duplicate()),
            None => Err(ContractError::InvalidInput),
        }
    }

    /// Charges the tier fee on `amount` for `recipient`.  Refused when the
    /// amount is not positive or no schedule is stored.  The rate depends on
    /// the amount alone (see [`TreasuryContract::get_fee_for_amount`]).
    pub fn collect_fee(&self, amount: i128, recipient: Address) -> (r: Result<
        FeeCollected,
        ContractError,
    >)
        requires
            amount > 0 && self.fee_schedule is Some ==> amount * fee_bp_for(amount) <= u128::MAX,
        ensures
            match r {
                Ok(ev) => amount > 0 && self.fee_schedule is Some && ev.amount == amount && ev.fee
                    == fee_for(amount) && ev.recipient@ == recipient@,
                Err(e) => (amount <= 0 || self.fee_schedule is None) && e
                    == ContractError::InvalidInput,
            },
    {
        if amount <= 0 {
            return Err(ContractError::InvalidInput);
        }
        let schedule = match &self.fee_schedule {
            Some(f) => f,
            None => {
                return Err(ContractError::InvalidInput);
            },
        };
        let fee_basis_points = Self::get_fee_for_amount(schedule, amount);
        let product: u128 = amount as u128 * fee_basis_points as u128;
        let fee_wide: u128 = product / MAX_BASIS_POINTS as u128;
        proof {
            assert(fee_wide <= product) by (nonlinear_arith)
                requires
                    fee_wide == product / 10000u128,
            ;
            assert(product <= amount * 50) by (nonlinear_arith)
                requires
                    product == amount * fee_basis_points,
                    fee_basis_points <= 50,
                    amount > 0,
            ;
            assert(fee_wide <= amount) by (nonlinear_arith)
                requires
                    fee_wide == product / 10000u128,
                    product <= amount * 50,
                    amount > 0,
            ;
        }
        let fee = fee_wide as i128;
        Ok(FeeCollected { amount, fee, recipient })
    }

    /// The fee rate, in basis points, for `amount`.  The rate follows the
    /// fixed tiers of [`fee_bp_for`]; the stored schedule is not consulted.
    pub fn get_fee_for_amount(schedule: &FeeSchedule, amount: i128) -> (bp: u32)
        ensures
            bp == fee_bp_for(amount),
    {
        let mut fee_bp: u32 = 50;
        if amount >= 10_000_000 {
            fee_bp = 10;
        } else if amount >= 1_000_000 {
            fee_bp = 25;
        }
        fee_bp
    }

    /// Writes rate `basis_points` for tier `amount_tier`.  Refused when no
    /// administrator is stored, the rate exceeds [`MAX_SINGLE_FEE_BP`], or no
    /// schedule is stored.
    pub fn set_fee_schedule(&mut self, amount_tier: i128, basis_points: u32) -> (r: Result<
        FeeScheduleUpdated,
        ContractError,
    >)
        requires
            old(self).wf(),
            old(self).has_room_for(amount_tier),
        ensures
            final(self).wf(),
            final(self)@.admin == old(self)@.admin,
            final(self)@.treasury == old(self)@.treasury,
            old(self)@.capped() ==> final(self)@.capped(),
            final(self)@ == treasury_after_call(
                old(self)@,
                (TreasuryCall::SetFeeSchedule { amount_tier, basis_points }),
            ),
            match r {
                Ok(ev) => old(self)@.admin is Some && basis_points <= MAX_SINGLE_FEE_BP
                    && old(self)@.fee_schedule is Some && final(self)@.fee_schedule == Some(
                    old(self)@.fee_schedule.unwrap().insert(amount_tier, basis_points),
                ) && ev.amount_tier == amount_tier && ev.basis_points == basis_points,
                Err(e) => (old(self)@.admin is None || basis_points > MAX_SINGLE_FEE_BP
                    || old(self)@.fee_schedule is None) && e == ContractError::InvalidInput
                    && final(self)@ == old(self)@,
            },
    {
        if self.admin.is_none() {
            return Err(ContractError::InvalidInput);
        }
        if basis_points > MAX_SINGLE_FEE_BP {
            return Err(ContractError::InvalidInput);
        }
        match &mut self.fee_schedule {
            None => Err(ContractError::InvalidInput),
            Some(f) => {
                f.set(amount_tier, basis_points);
                Ok(FeeScheduleUpdated { amount_tier, basis_points })
            },
        }
    }

    /// The stored treasury address.  A host that finds none answers with a
    /// freshly generated address.
    pub fn get_treasury(&self) -> (r: Option<Address>)
        ensures
            address_option_view(r) == self@.treasury,
    {
        match &self.treasury {
            Some(t) => Some(t.duplicate()),
            None => None,
        }
    }

    /// Replaces the treasury address.  Refused when no administrator is
    /// stored.
    pub fn update_treasury(&mut self, new_treasury: Address) -> (r: Result<
        TreasuryUpdated,
        ContractError,
    >)
        ensures
            final(self).wf() == old(self).wf(),
            final(self)@ == treasury_after_call(
                old(self)@,
                (TreasuryCall::UpdateTreasury { treasury: new_treasury@ }),
            ),
            match r {
                Ok(ev) => old(self)@.admin is Some && final(self)@ == (TreasuryView {
                    treasury: Some(new_treasury@),
                    ..old(self)@
                }) && ev.treasury@ == new_treasury@,
                Err(e) => old(self)@.admin is None && e == ContractError::InvalidInput
                    && final(self)@ == old(self)@,
            },
    {
        if self.admin.is_none() {
            return Err(ContractError::InvalidInput);
        }
        self.treasury = Some(new_treasury.duplicate());
        Ok(TreasuryUpdated { treasury: new_treasury })
    }

    /// Routes `amount` to the stored treasury.  Refused when no treasury is
    /// stored.
    pub fn route_to_treasury(&self, amount: i128) -> (r: Result<FeeRouted, ContractError>)
        ensures
            match r {
                Ok(ev) => self@.treasury == Some(ev.treasury@) && ev.amount == amount,
                Err(e) => self@.treasury is None && e == ContractError::InvalidInput,
            },
    {
        match &self.treasury {
            Some(t) => Ok(FeeRouted { amount, treasury: t.duplicate() }),
            None => Err(ContractError::InvalidInput),
        }
    }
}

/// Every fee rate lies between 10 and 50 basis points, within the per-tier
/// cap and the whole.
pub proof fn lemma_fee_rate_bounds(amount: i128)
    ensures
        10 <= fee_bp_for(amount) <= 50,
        fee_bp_for(amount) <= MAX_SINGLE_FEE_BP <= MAX_BASIS_POINTS,
{
}

/// Larger amounts never pay a higher rate.
pub proof fn lemma_fee_rate_non_increasing(a: i128, b: i128)
    requires
        a <= b,
    ensures
        fee_bp_for(a) >= fee_bp_for(b),
{
}

/// The fee on a positive amount is at least zero and at most 0.5% of it.
pub proof fn lemma_fee_at_most_half_percent(amount: i128)
    requires
        amount > 0,
    ensures
        0 <= fee_for(amount),
        fee_for(amount) * 10_000 <= amount * 50,
{
    let bp = fee_bp_for(amount) as int;
    let a = amount as int;
    assert(0 <= a * bp / 10_000) by (nonlinear_arith)
        requires
            a > 0,
            bp >= 0,
    ;
    assert((a * bp / 10_000) * 10_000 <= a * bp) by (nonlinear_arith)
        requires
            a > 0,
            bp >= 0,
    ;
    assert(a * bp <= a * 50) by (nonlinear_arith)
        requires
            a > 0,
            bp <= 50,
    ;
}

/// The state that `init(admin, treasury)` writes.
pub open spec fn initial_treasury_view(admin: Seq<char>, treasury: Seq<char>) -> TreasuryView {
    TreasuryView {
        admin: Some(admin),
        treasury: Some(treasury),
        fee_schedule: Some(initial_schedule()),
    }
}

/// Outcome of `set_fee_schedule`.
pub open spec fn set_fee_schedule_result(v: TreasuryView, amount_tier: i128, basis_points: u32) -> Result<
    TreasuryView,
    ContractError,
> {
    if v.admin is None || basis_points > MAX_SINGLE_FEE_BP || v.fee_schedule is None {
        Err(ContractError::InvalidInput)
    } else {
        Ok(
            TreasuryView {
                fee_schedule: Some(v.fee_schedule.unwrap().insert(amount_tier, basis_points)),
                ..v
            },
        )
    }
}

/// Outcome of `update_treasury`.
pub open spec fn update_treasury_result(v: TreasuryView, treasury: Seq<char>) -> Result<
    TreasuryView,
    ContractError,
> {
    if v.admin is None {
        Err(ContractError::InvalidInput)
    } else {
        Ok(TreasuryView { treasury: Some(treasury), ..v })
    }
}

/// A state-changing call other than `init`, with its arguments as plain
/// values.  (`collect_fee`, `get_fee_for_amount`, `get_treasury` and
/// `route_to_treasury` read the state and leave it as it is.)
pub enum TreasuryCall {
    SetFeeSchedule { amount_tier: i128, basis_points: u32 },
    UpdateTreasury { treasury: Seq<char> },
}

/// The state after one call: the new state when accepted, the old one when
/// refused.
pub open spec fn treasury_after_call(v: TreasuryView, c: TreasuryCall) -> TreasuryView {
    let r = match c {
        TreasuryCall::SetFeeSchedule { amount_tier, basis_points } => set_fee_schedule_result(
            v,
            amount_tier,
            basis_points,
        ),
        TreasuryCall::UpdateTreasury { treasury } => update_treasury_result(v, treasury),
    };
    match r {
        Ok(v1) => v1,
        Err(_) => v,
    }
}

/// The state after a sequence of calls, in order.
pub open spec fn treasury_after_calls(v: TreasuryView, cs: Seq<TreasuryCall>) -> TreasuryView
    decreases cs.len(),
{
    if cs.len() == 0 {
        v
    } else {
        treasury_after_call(treasury_after_calls(v, cs.drop_last()), cs.last())
    }
}

/// The treasury address of the last `update_treasury` call among `cs` that
/// is accepted (all are when an administrator is stored, none otherwise),
/// or the stored one when there is none.
pub open spec fn last_accepted_treasury(v: TreasuryView, cs: Seq<TreasuryCall>) -> Option<Seq<char>>
    decreases cs.len(),
{
    if cs.len() == 0 {
        v.treasury
    } else {
        match cs.last() {
            TreasuryCall::UpdateTreasury { treasury } => if v.admin is Some {
                Some(treasury)
            } else {
                last_accepted_treasury(v, cs.drop_last())
            },
            _ => last_accepted_treasury(v, cs.drop_last()),
        }
    }
}

/// The stored schedule still has the three default tiers.
pub open spec fn has_default_tiers(v: TreasuryView) -> bool {
    v.fee_schedule matches Some(m) && m.contains_key(0i128) && m.contains_key(1_000_000i128)
        && m.contains_key(10_000_000i128)
}

/// Any sequence of calls keeps the administrator and keeps every stored
/// tier; if every rate was within the cap it stays so; and the treasury is
/// the one written by the last accepted `update_treasury`, or the stored one.
pub proof fn lemma_treasury_calls(v: TreasuryView, cs: Seq<TreasuryCall>)
    requires
        v.capped(),
    ensures
        treasury_after_calls(v, cs).capped(),
        treasury_after_calls(v, cs).admin == v.admin,
        (treasury_after_calls(v, cs).fee_schedule is Some) == (v.fee_schedule is Some),
        v.fee_schedule matches Some(m0) ==> forall|k: i128| #[trigger] m0.contains_key(k)
            ==> treasury_after_calls(v, cs).fee_schedule.unwrap().contains_key(k),
        treasury_after_calls(v, cs).treasury == last_accepted_treasury(v, cs),
    decreases cs.len(),
{
    if cs.len() > 0 {
        lemma_treasury_calls(v, cs.drop_last());
    }
}

/// After `init(admin, treasury)` and any calls: every rate is within the
/// per-tier cap (itself within the whole), the tiers 0, one million and ten
/// million are still in the schedule, and the treasury is that of the last
/// `update_treasury` call, or the one given to `init`.
pub proof fn lemma_after_treasury_init(admin: Seq<char>, treasury: Seq<char>, cs: Seq<TreasuryCall>)
    ensures
        treasury_after_calls(initial_treasury_view(admin, treasury), cs).capped(),
        MAX_SINGLE_FEE_BP <= MAX_BASIS_POINTS,
        has_default_tiers(treasury_after_calls(initial_treasury_view(admin, treasury), cs)),
        treasury_after_calls(initial_treasury_view(admin, treasury), cs).treasury
            == last_accepted_treasury(initial_treasury_view(admin, treasury), cs),
{
    let v0 = initial_treasury_view(admin, treasury);
    assert(v0.capped());
    assert(initial_schedule().contains_key(0i128));
    assert(initial_schedule().contains_key(1_000_000i128));
    assert(initial_schedule().contains_key(10_000_000i128));
    lemma_treasury_calls(v0, cs);
}

} // verus!
