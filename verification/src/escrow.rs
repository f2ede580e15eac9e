use vstd::prelude::*;
use vstd::string::StringExecFns;
use crate::address::Address;
use crate::error::ContractError;
use crate::keyed::{
    keyed_map, keys_unique, lemma_keyed_map_at, lemma_keyed_map_dom, lemma_keyed_map_len,
    lemma_keyed_map_push, lemma_keyed_map_update,
};
use crate::text::{append_decimal, decimal};

verus! {

/// Version text reported by the escrow contract.
pub open spec fn escrow_version_text() -> Seq<char> {
    seq!['1', '.', '0', '.', '0']
}

/// Ledgers after its deposit ledger from which a deposit may be refunded.
pub const REFUND_DELAY_LEDGERS: u32 = 604_800;

/// Funds held in escrow for a bridge transfer.
pub struct Deposit {
    /// `depositor:bridge:ledger`, unique per deposit.
    pub id: String,
    /// The account that deposited, and to which a refund goes.
    pub depositor: Address,
    /// The bridge the funds are meant for, and to which a release goes.
    pub bridge: Address,
    pub amount: i128,
    /// First ledger at which the depositor may take a refund.
    pub timeout_ledger: u64,
    /// Whether the settlement authority released the funds to the bridge.
    pub released: bool,
    /// Whether the depositor took the funds back.
    pub refunded: bool,
}

/// A deposit seen as plain values.
pub struct DepositView {
    pub id: Seq<char>,
    pub depositor: Seq<char>,
    pub bridge: Seq<char>,
    pub amount: i128,
    pub timeout_ledger: u64,
    pub released: bool,
    pub refunded: bool,
}

impl View for Deposit {
    type V = DepositView;

    open spec fn view(&self) -> DepositView {
        DepositView {
            id: self.id@,
            depositor: self.depositor@,
            bridge: self.bridge@,
            amount: self.amount,
            timeout_ledger: self.timeout_ledger,
            released: self.released,
            refunded: self.refunded,
        }
    }
}

/// The stored deposits as `(id, deposit)` entries.
pub open spec fn deposit_entries(s: Seq<Deposit>) -> Seq<(Seq<char>, DepositView)> {
    s.map_values(|d: Deposit| (d.id@, d@))
}

/// The stored deposits as a map from id to deposit.
pub open spec fn deposits_view(s: Seq<Deposit>) -> Map<Seq<char>, DepositView> {
    keyed_map(deposit_entries(s))
}

/// The id of the deposit that `depositor` makes for `bridge` at ledger
/// `ledger_sequence`: `depositor:bridge:ledger`.
pub open spec fn deposit_id_of(depositor: Seq<char>, bridge: Seq<char>, ledger_sequence: u32) -> Seq<
    char,
> {
    depositor + seq![':'] + bridge + seq![':'] + decimal(ledger_sequence as nat)
}

/// The state that the escrow contract keeps: its administrator (the
/// settlement authority), the pause switch, each absent until first
/// written, and the deposits.
pub struct EscrowContract {
    pub admin: Option<Address>,
    pub paused: Option<bool>,
    pub deposits: Vec<Deposit>,
}

/// What the escrow's state is, seen as plain values.
pub struct EscrowView {
    pub admin: Option<Seq<char>>,
    pub paused: Option<bool>,
    pub deposits: Map<Seq<char>, DepositView>,
}

impl View for EscrowContract {
    type V = EscrowView;

    open spec fn view(&self) -> EscrowView {
        EscrowView {
            admin: match self.admin {
                Some(a) => Some(a@),
                None => None,
            },
            paused: self.paused,
            deposits: deposits_view(self.deposits@),
        }
    }
}

impl EscrowView {
    /// The pause switch, reading an unset switch as "not paused".
    pub open spec fn is_paused(self) -> bool {
        match self.paused {
            Some(p) => p,
            None => false,
        }
    }

    /// The same state with the pause switch written as `p`.
    pub open spec fn with_paused(self, p: bool) -> EscrowView {
        EscrowView { paused: Some(p), ..self }
    }

    /// The same state with one deposit written under its id.
    pub open spec fn with_deposit(self, d: DepositView) -> EscrowView {
        EscrowView { deposits: self.deposits.insert(d.id, d), ..self }
    }

    /// The state that `init(admin)` leaves: the deposits as they were.
    pub open spec fn after_init(self, admin: Seq<char>) -> EscrowView {
        EscrowView { admin: Some(admin), paused: Some(false), ..self }
    }

    /// What every reachable state satisfies: each deposit is filed under its
    /// own id and is never both released and refunded.
    pub open spec fn inv(self) -> bool {
        forall|id: Seq<char>| #[trigger] self.deposits.contains_key(id) ==> {
            &&& self.deposits[id].id == id
            &&& !(self.deposits[id].released && self.deposits[id].refunded)
        }
    }
}

/// Room to file one more deposit (a ledger map holds at most `u32::MAX`
/// entries).
pub open spec fn deposit_room(v: EscrowView) -> bool {
    v.deposits.dom().len() < u32::MAX
}

/// Outcome of `deposit`: refused while paused or when the id is taken.
pub open spec fn deposit_result(
    v: EscrowView,
    depositor: Seq<char>,
    bridge: Seq<char>,
    amount: i128,
    ledger_sequence: u32,
) -> Result<EscrowView, ContractError> {
    let id = deposit_id_of(depositor, bridge, ledger_sequence);
    if v.is_paused() || v.deposits.contains_key(id) {
        Err(ContractError::InvalidInput)
    } else {
        Ok(
            v.with_deposit(
                DepositView {
                    id,
                    depositor,
                    bridge,
                    amount,
                    timeout_ledger: (ledger_sequence + REFUND_DELAY_LEDGERS) as u64,
                    released: false,
                    refunded: false,
                },
            ),
        )
    }
}

/// Outcome of `release`: refused without a settlement authority, for an
/// unknown deposit, or for one already released or refunded.
pub open spec fn release_result(v: EscrowView, id: Seq<char>) -> Result<EscrowView, ContractError> {
    if v.admin is None || !v.deposits.contains_key(id) || v.deposits[id].released
        || v.deposits[id].refunded {
        Err(ContractError::InvalidInput)
    } else {
        Ok(v.with_deposit(DepositView { released: true, ..v.deposits[id] }))
    }
}

/// Outcome of `refund`: refused for an unknown deposit, for a caller other
/// than its depositor, for a deposit already released or refunded, and
/// before its timeout ledger.
pub open spec fn refund_result(v: EscrowView, caller: Seq<char>, id: Seq<char>, ledger_sequence: u32) -> Result<
    EscrowView,
    ContractError,
> {
    if !v.deposits.contains_key(id) || v.deposits[id].depositor != caller
        || v.deposits[id].released || v.deposits[id].refunded || ledger_sequence
        < v.deposits[id].timeout_ledger {
        Err(ContractError::InvalidInput)
    } else {
        Ok(v.with_deposit(DepositView { refunded: true, ..v.deposits[id] }))
    }
}

/// Event: the escrow was paused, with the reason given.
pub struct Paused {
    pub reason: Vec<u8>,
}

/// Event: the escrow was resumed.
pub struct Unpaused {}

/// Event: funds were deposited.
pub struct Deposited {
    pub deposit_id: String,
    pub depositor: Address,
    pub bridge: Address,
    pub amount: i128,
}

/// Event: a deposit was released to its bridge.
pub struct Released {
    pub deposit_id: String,
    pub bridge: Address,
    pub amount: i128,
}

/// Event: a deposit was refunded to its depositor.
pub struct Refunded {
    pub deposit_id: String,
    pub depositor: Address,
    pub amount: i128,
}

/// Event: a migration to a new version was announced.
pub struct Migrated {
    pub new_version: Vec<u8>,
}

/// With unique ids, every deposit is found in the map under its id.
proof fn lemma_deposit_at(deps: Seq<Deposit>, i: int)
    requires
        keys_unique(deposit_entries(deps)),
        0 <= i < deps.len(),
    ensures
        deposits_view(deps).contains_key(deps[i].id@),
        deposits_view(deps)[deps[i].id@] == deps[i]@,
{
    assert(deposit_entries(deps)[i] == (deps[i].id@, deps[i]@));
    lemma_keyed_map_at(deposit_entries(deps), i);
}

/// An id that no deposit carries is not in the map.
proof fn lemma_deposit_absent(deps: Seq<Deposit>, id: Seq<char>)
    requires
        forall|j: int| 0 <= j < deps.len() ==> deps[j].id@ != id,
    ensures
        !deposits_view(deps).contains_key(id),
{
    lemma_keyed_map_dom(deposit_entries(deps), id);
    if deposits_view(deps).contains_key(id) {
        let i = choose|i: int|
            0 <= i < deposit_entries(deps).len() && #[trigger] deposit_entries(deps)[i].0 == id;
        assert(deposit_entries(deps)[i] == (deps[i].id@, deps[i]@));
    }
}

/// Replacing the deposit at `i` by one with the same id replaces it in the
/// map and keeps the ids unique.
proof fn lemma_deposit_replace(deps: Seq<Deposit>, i: int, d: Deposit)
    requires
        keys_unique(deposit_entries(deps)),
        0 <= i < deps.len(),
        d.id@ == deps[i].id@,
    ensures
        keys_unique(deposit_entries(deps.update(i, d))),
        deposits_view(deps.update(i, d)) == deposits_view(deps).insert(d.id@, d@),
{
    let e = deposit_entries(deps);
    assert(deposit_entries(deps.update(i, d)) =~= e.update(i, (e[i].0, d@)));
    lemma_keyed_map_update(e, i, d@);
}

/// Appending a deposit with a fresh id inserts it into the map and keeps
/// the ids unique.
proof fn lemma_deposit_push(deps: Seq<Deposit>, d: Deposit)
    requires
        keys_unique(deposit_entries(deps)),
        forall|j: int| 0 <= j < deps.len() ==> deps[j].id@ != d.id@,
    ensures
        keys_unique(deposit_entries(deps.push(d))),
        deposits_view(deps.push(d)) == deposits_view(deps).insert(d.id@, d@),
{
    let e = deposit_entries(deps);
    assert(deposit_entries(deps.push(d)) =~= e.push((d.id@, d@)));
    lemma_keyed_map_push(e, d.id@, d@);
    assert forall|a: int, b: int|
        0 <= a < b < e.push((d.id@, d@)).len() implies #[trigger] e.push((d.id@, d@))[a].0
        != #[trigger] e.push((d.id@, d@))[b].0 by {
        if b == e.len() {
            assert(e[a].0 == deps[a].id@);
        }
    }
}

/// The position of the deposit filed under `id`, if any.
fn find_deposit(deps: &Vec<Deposit>, id: &String) -> (r: Option<usize>)
    ensures
        match r {
            Some(i) => i < deps.len() && deps@[i as int].id@ == id@,
            None => forall|j: int| 0 <= j < deps.len() ==> deps@[j].id@ != id@,
        },
{
    let mut i: usize = 0;
    while i < deps.len()
        invariant
            i <= deps.len(),
            forall|j: int| 0 <= j < i ==> deps@[j].id@ != id@,
        decreases deps.len() - i,
    {
        if deps[i].id == *id {
            return Some(i);
        }
        i = i + 1;
    }
    None
}

/// The id of the deposit that `depositor` makes for `bridge` at ledger
/// `ledger_sequence`: `depositor:bridge:ledger`.
pub fn deposit_id(depositor: &Address, bridge: &Address, ledger_sequence: u32) -> (id: String)
    ensures
        id@ == deposit_id_of(depositor@, bridge@, ledger_sequence),
{
    proof {
        reveal_strlit(":");
    }
    let mut s = String::new();
    s.append(depositor.strkey.as_str());
    s.append(":");
    s.append(bridge.strkey.as_str());
    s.append(":");
    append_decimal(&mut s, ledger_sequence);
    proof {
        assert(s@ =~= deposit_id_of(depositor@, bridge@, ledger_sequence));
    }
    s
}

impl EscrowContract {
    /// Well-formedness: the invariant, deposit ids unique in the list, and
    /// the deposits within a ledger map's size.
    pub open spec fn wf(self) -> bool {
        &&& self@.inv()
        &&& keys_unique(deposit_entries(self.deposits@))
        &&& self.deposits.len() <= u32::MAX
    }

    /// A contract that has never been initialised: nothing is stored.
    pub fn new() -> (c: EscrowContract)
        ensures
            c.wf(),
            c@.admin is None,
            c@.paused is None,
            c@.deposits == Map::<Seq<char>, DepositView>::empty(),
    {
        let c = EscrowContract { admin: None, paused: None, deposits: Vec::new() };
        proof {
            assert(deposit_entries(c.deposits@) =~= Seq::empty());
            assert(c@.deposits =~= Map::empty());
        }
        c
    }

    /// Whether a stored state is well formed.
    pub fn is_well_formed(&self) -> (b: bool)
        ensures
            b == self.wf(),
    {
        if self.deposits.len() > u32::MAX as usize {
            return false;
        }
        let ghost e = deposit_entries(self.deposits@);
        let mut i: usize = 0;
        while i < self.deposits.len()
            invariant
                i <= self.deposits.len(),
                e == deposit_entries(self.deposits@),
                forall|a: int, b: int| 0 <= a < b < self.deposits.len() && a < i ==> e[a].0 != e[b].0,
            decreases self.deposits.len() - i,
        {
            let mut j: usize = i + 1;
            while j < self.deposits.len()
                invariant
                    i < self.deposits.len(),
                    i + 1 <= j <= self.deposits.len(),
                    e == deposit_entries(self.deposits@),
                    forall|a: int, b: int| 0 <= a < b < self.deposits.len() && a < i ==> e[a].0
                        != e[b].0,
                    forall|b: int| i < b < j ==> e[i as int].0 != e[b].0,
                decreases self.deposits.len() - j,
            {
                if self.deposits[i].id == self.deposits[j].id {
                    assert(e[i as int].0 == e[j as int].0);
                    return false;
                }
                j = j + 1;
            }
            i = i + 1;
        }
        let ghost deps = self.deposits@;
        let ghost m = deposits_view(deps);
        assert(keys_unique(e));
        let mut k: usize = 0;
        while k < self.deposits.len()
            invariant
                k <= self.deposits.len(),
                deps == self.deposits@,
                m == deposits_view(deps),
                keys_unique(deposit_entries(deps)),
                forall|a: int| 0 <= a < k ==> !((#[trigger] deps[a]).released && deps[a].refunded),
            decreases self.deposits.len() - k,
        {
            if self.deposits[k].released && self.deposits[k].refunded {
                proof {
                    lemma_deposit_at(deps, k as int);
                    assert(m[deps[k as int].id@] == deps[k as int]@);
                    assert(self@.deposits == m);
                }
                return false;
            }
            k = k + 1;
        }
        proof {
            assert forall|id: Seq<char>| #[trigger] m.contains_key(id) implies {
                &&& m[id].id == id
                &&& !(m[id].released && m[id].refunded)
            } by {
                lemma_keyed_map_dom(e, id);
                let x = choose|x: int| 0 <= x < e.len() && #[trigger] e[x].0 == id;
                assert(e[x] == (deps[x].id@, deps[x]@));
                lemma_deposit_at(deps, x);
                assert(!(deps[x].released && deps[x].refunded));
            }
        }
        true
    }

    /// Installs `admin` as administrator (the settlement authority) and
    /// clears the pause switch; deposits are kept.  The host requires
    /// `admin`'s authorisation for this call.
    pub fn init(&mut self, admin: Address)
        requires
            old(self).wf(),
        ensures
            final(self).wf(),
            final(self)@ == old(self)@.after_init(admin@),
    {
        self.admin = Some(admin);
        self.paused = Some(false);
    }

    /// The contract version, `"1.0.0"`.
    pub fn version() -> (v: String)
        ensures
            v@ == escrow_version_text(),
    {
        let v = "1.0.0".to_owned();
        proof {
            reveal_strlit("1.0.0");
        }
        v
    }

    /// The stored administrator, whose authorisation the host requires for
    /// `pause`, `unpause`, `release` and `migrate`; refused when none is
    /// stored.
    pub fn admin(&self) -> (r: Result<Address, ContractError>)
        ensures
            match r {
                Ok(x) => self@.admin == Some(x@),
                Err(e) => self@.admin is None && e == ContractError::InvalidInput,
            },
    {
        match &self.admin {
            Some(a) => Ok(a.duplicate()),
            None => Err(ContractError::InvalidInput),
        }
    }

    /// Sets the pause switch.  Refused, with nothing changed, when no
    /// administrator is stored.
    pub fn pause(&mut self, reason: Vec<u8>) -> (r: Result<Paused, ContractError>)
        requires
            old(self).wf(),
        ensures
            final(self)@ == escrow_after_call(old(self)@, (EscrowCall::Pause { reason: reason@ })),
            final(self).wf(),
            match r {
                Ok(ev) => old(self)@.admin is Some && ev.reason@ == reason@
                    && final(self)@ == old(self)@.with_paused(true),
                Err(e) => old(self)@.admin is None && e == ContractError::InvalidInput
                    && final(self)@ == old(self)@,
            },
    {
        if self.admin.is_none() {
            return Err(ContractError::InvalidInput);
        }
        self.paused = Some(true);
        assert(self@.deposits == old(self)@.deposits);
        Ok(Paused { reason })
    }

    /// Clears the pause switch.  Refused, with nothing changed, when no
    /// administrator is stored.
    pub fn unpause(&mut self) -> (r: Result<Unpaused, ContractError>)
        requires
            old(self).wf(),
        ensures
            final(self)@ == escrow_after_call(old(self)@, EscrowCall::Unpause),
            final(self).wf(),
            match r {
                Ok(_) => old(self)@.admin is Some && final(self)@ == old(self)@.with_paused(false),
                Err(e) => old(self)@.admin is None && e == ContractError::InvalidInput
                    && final(self)@ == old(self)@,
            },
    {
        if self.admin.is_none() {
            return Err(ContractError::InvalidInput);
        }
        self.paused = Some(false);
        assert(self@.deposits == old(self)@.deposits);
        Ok(Unpaused {})
    }

    /// Whether the escrow is paused; an unset switch reads as not paused.
    pub fn is_paused(&self) -> (b: bool)
        ensures
            b == self@.is_paused(),
    {
        match self.paused {
            Some(p) => p,
            None => false,
        }
    }

    /// Files a deposit of `amount` by `depositor` for `bridge`, refundable
    /// from `REFUND_DELAY_LEDGERS` ledgers after `ledger_sequence`.  Refused
    /// while paused, or when the depositor already deposited for that
    /// bridge in this ledger.  The host requires the depositor's
    /// authorisation first and supplies the current ledger sequence number.
    pub fn deposit(
        &mut self,
        depositor: Address,
        bridge: Address,
        amount: i128,
        ledger_sequence: u32,
    ) -> (r: Result<Deposited, ContractError>)
        requires
            old(self).wf(),
            deposit_room(old(self)@),
        ensures
            final(self).wf(),
            final(self)@ == escrow_after_call(
                old(self)@,
                (EscrowCall::Deposit {
                    depositor: depositor@,
                    bridge: bridge@,
                    amount,
                    ledger_sequence,
                }),
            ),
            match r {
                Ok(ev) => deposit_result(old(self)@, depositor@, bridge@, amount, ledger_sequence)
                    == Ok::<EscrowView, ContractError>(final(self)@) && ev.deposit_id@
                    == deposit_id_of(depositor@, bridge@, ledger_sequence) && ev.depositor@
                    == depositor@ && ev.bridge@ == bridge@ && ev.amount == amount,
                Err(e) => deposit_result(old(self)@, depositor@, bridge@, amount, ledger_sequence)
                    == Err::<EscrowView, ContractError>(e) && final(self)@ == old(self)@,
            },
    {
        if self.is_paused() {
            return Err(ContractError::InvalidInput);
        }
        let id = deposit_id(&depositor, &bridge, ledger_sequence);
        if find_deposit(&self.deposits, &id).is_some() {
            proof {
                let i = choose|i: int| 0 <= i < self.deposits.len() && self.deposits@[i].id@ == id@;
                lemma_deposit_at(self.deposits@, i);
            }
            return Err(ContractError::InvalidInput);
        }
        proof {
            lemma_deposit_absent(self.deposits@, id@);
            lemma_keyed_map_len(deposit_entries(self.deposits@));
        }
        let d = Deposit {
            id: id.clone(),
            depositor: depositor.duplicate(),
            bridge: bridge.duplicate(),
            amount,
            timeout_ledger: ledger_sequence as u64 + REFUND_DELAY_LEDGERS as u64,
            released: false,
            refunded: false,
        };
        proof {
            lemma_deposit_push(self.deposits@, d);
        }
        self.deposits.push(d);
        Ok(Deposited { deposit_id: id, depositor, bridge, amount })
    }

    /// Releases deposit `deposit_id` to its bridge.  Refused when no
    /// settlement authority is stored, the deposit does not exist, or it was
    /// already released or refunded.  The host requires the settlement
    /// authority's authorisation first.
    pub fn release(&mut self, deposit_id: String) -> (r: Result<Released, ContractError>)
        requires
            old(self).wf(),
        ensures
            final(self).wf(),
            final(self)@ == escrow_after_call(old(self)@, (EscrowCall::Release { id: deposit_id@ })),
            match r {
                Ok(ev) => release_result(old(self)@, deposit_id@) == Ok::<
                    EscrowView,
                    ContractError,
                >(final(self)@) && ev.deposit_id@ == deposit_id@ && ev.bridge@
                    == old(self)@.deposits[deposit_id@].bridge && ev.amount
                    == old(self)@.deposits[deposit_id@].amount,
                Err(e) => release_result(old(self)@, deposit_id@) == Err::<
                    EscrowView,
                    ContractError,
                >(e) && final(self)@ == old(self)@,
            },
    {
        if self.admin.is_none() {
            return Err(ContractError::InvalidInput);
        }
        let i = match find_deposit(&self.deposits, &deposit_id) {
            Some(i) => i,
            None => {
                proof {
                    lemma_deposit_absent(self.deposits@, deposit_id@);
                }
                return Err(ContractError::InvalidInput);
            },
        };
        proof {
            lemma_deposit_at(self.deposits@, i as int);
        }
        if self.deposits[i].released || self.deposits[i].refunded {
            return Err(ContractError::InvalidInput);
        }
        let ghost old_deps = self.deposits@;
        let ghost old_d = self.deposits@[i as int];
        let mut d = self.deposits.remove(i);
        d.released = true;
        let bridge = d.bridge.duplicate();
        let amount = d.amount;
        let ghost new_d = d;
        self.deposits.insert(i, d);
        proof {
            assert(self.deposits@ =~= old_deps.update(i as int, new_d));
            lemma_deposit_replace(old_deps, i as int, new_d);
            assert(new_d@ == DepositView { released: true, ..old_d@ });
        }
        Ok(Released { deposit_id, bridge, amount })
    }

    /// Refunds deposit `deposit_id` to its depositor.  Refused when the
    /// deposit does not exist, `caller` is not its depositor, it was already
    /// released or refunded, or ledger `ledger_sequence` is before its
    /// timeout ledger.  The host requires the caller's authorisation first
    /// and supplies the current ledger sequence number.
    pub fn refund(&mut self, caller: Address, deposit_id: String, ledger_sequence: u32) -> (r: Result<
        Refunded,
        ContractError,
    >)
        requires
            old(self).wf(),
        ensures
            final(self).wf(),
            final(self)@ == escrow_after_call(
                old(self)@,
                (EscrowCall::Refund { caller: caller@, id: deposit_id@, ledger_sequence }),
            ),
            match r {
                Ok(ev) => refund_result(old(self)@, caller@, deposit_id@, ledger_sequence) == Ok::<
                    EscrowView,
                    ContractError,
                >(final(self)@) && ev.deposit_id@ == deposit_id@ && ev.depositor@ == caller@
                    && ev.amount == old(self)@.deposits[deposit_id@].amount,
                Err(e) => refund_result(old(self)@, caller@, deposit_id@, ledger_sequence) == Err::<
                    EscrowView,
                    ContractError,
                >(e) && final(self)@ == old(self)@,
            },
    {
        let i = match find_deposit(&self.deposits, &deposit_id) {
            Some(i) => i,
            None => {
                proof {
                    lemma_deposit_absent(self.deposits@, deposit_id@);
                }
                return Err(ContractError::InvalidInput);
            },
        };
        proof {
            lemma_deposit_at(self.deposits@, i as int);
        }
        if !self.deposits[i].depositor.same_as(&caller) {
            return Err(ContractError::InvalidInput);
        }
        if self.deposits[i].released || self.deposits[i].refunded {
            return Err(ContractError::InvalidInput);
        }
        if (ledger_sequence as u64) < self.deposits[i].timeout_ledger {
            return Err(ContractError::InvalidInput);
        }
        let ghost old_deps = self.deposits@;
        let ghost old_d = self.deposits@[i as int];
        let mut d = self.deposits.remove(i);
        d.refunded = true;
        let amount = d.amount;
        let ghost new_d = d;
        self.deposits.insert(i, d);
        proof {
            assert(self.deposits@ =~= old_deps.update(i as int, new_d));
            lemma_deposit_replace(old_deps, i as int, new_d);
            assert(new_d@ == DepositView { refunded: true, ..old_d@ });
        }
        Ok(Refunded { deposit_id, depositor: caller, amount })
    }

    /// Announces a migration to `new_version`.  Refused when no
    /// administrator is stored; the state is never changed.
    pub fn migrate(&self, new_version: Vec<u8>) -> (r: Result<Migrated, ContractError>)
        ensures
            match r {
                Ok(ev) => self@.admin is Some && ev.new_version@ == new_version@,
                Err(e) => self@.admin is None && e == ContractError::InvalidInput,
            },
    {
        if self.admin.is_none() {
            return Err(ContractError::InvalidInput);
        }
        Ok(Migrated { new_version })
    }
}

/// The pause switch reads back what was written: after a pause the escrow
/// reports paused (so deposits are refused), after an unpause it does not.
pub proof fn lemma_pause_switch(v: EscrowView)
    ensures
        v.with_paused(true).is_paused(),
        !v.with_paused(false).is_paused(),
{
}

/// A call other than `init`, with its arguments as plain values.
/// (`migrate`, `is_paused` and `version` leave the state as it is.)
pub enum EscrowCall {
    Pause { reason: Seq<u8> },
    Unpause,
    Deposit { depositor: Seq<char>, bridge: Seq<char>, amount: i128, ledger_sequence: u32 },
    Release { id: Seq<char> },
    Refund { caller: Seq<char>, id: Seq<char>, ledger_sequence: u32 },
}

/// The state a call result leaves: the new state when accepted, the old
/// one when refused.
pub open spec fn accepted_or(v: EscrowView, r: Result<EscrowView, ContractError>) -> EscrowView {
    match r {
        Ok(v1) => v1,
        Err(_) => v,
    }
}

/// The state after one call.
pub open spec fn escrow_after_call(v: EscrowView, c: EscrowCall) -> EscrowView {
    match c {
        EscrowCall::Pause { .. } => if v.admin is Some {
            v.with_paused(true)
        } else {
            v
        },
        EscrowCall::Unpause => if v.admin is Some {
            v.with_paused(false)
        } else {
            v
        },
        EscrowCall::Deposit { depositor, bridge, amount, ledger_sequence } => accepted_or(
            v,
            deposit_result(v, depositor, bridge, amount, ledger_sequence),
        ),
        EscrowCall::Release { id } => accepted_or(v, release_result(v, id)),
        EscrowCall::Refund { caller, id, ledger_sequence } => accepted_or(
            v,
            refund_result(v, caller, id, ledger_sequence),
        ),
    }
}

/// The state after a sequence of calls, in order.
pub open spec fn escrow_after_calls(v: EscrowView, cs: Seq<EscrowCall>) -> EscrowView
    decreases cs.len(),
{
    if cs.len() == 0 {
        v
    } else {
        escrow_after_call(escrow_after_calls(v, cs.drop_last()), cs.last())
    }
}

/// Whether the last accepted `pause` or `unpause` among `cs` was a pause
/// (all are accepted when an administrator is stored, none otherwise), or
/// the stored switch when there is none.
pub open spec fn last_switch(v: EscrowView, cs: Seq<EscrowCall>) -> bool
    decreases cs.len(),
{
    if cs.len() == 0 {
        v.is_paused()
    } else if v.admin is Some && cs.last() is Pause {
        true
    } else if v.admin is Some && cs.last() is Unpause {
        false
    } else {
        last_switch(v, cs.drop_last())
    }
}

/// `d1` is a later state of deposit `d`: the same id, depositor, bridge,
/// amount and timeout, and still released or refunded if it was.
pub open spec fn deposit_evolves(d: DepositView, d1: DepositView) -> bool {
    &&& d1.id == d.id
    &&& d1.depositor == d.depositor
    &&& d1.bridge == d.bridge
    &&& d1.amount == d.amount
    &&& d1.timeout_ledger == d.timeout_ledger
    &&& d.released ==> d1.released
    &&& d.refunded ==> d1.refunded
}

/// `v1` is a later state of `v`: the same administrator, and every filed
/// deposit still filed as a later state of itself.
pub open spec fn escrow_evolves(v: EscrowView, v1: EscrowView) -> bool {
    &&& v1.admin == v.admin
    &&& forall|id: Seq<char>| #[trigger] v.deposits.contains_key(id) ==> {
        &&& v1.deposits.contains_key(id)
        &&& deposit_evolves(v.deposits[id], v1.deposits[id])
    }
}

/// Over any sequence of calls the invariant holds (no deposit is both
/// released and refunded), the administrator stays, every deposit keeps
/// its terms and stays released or refunded once it is, and the escrow is
/// paused exactly when the last accepted `pause`/`unpause` was a pause.
pub proof fn lemma_escrow_calls(v: EscrowView, cs: Seq<EscrowCall>)
    requires
        v.inv(),
    ensures
        escrow_after_calls(v, cs).inv(),
        escrow_evolves(v, escrow_after_calls(v, cs)),
        escrow_after_calls(v, cs).is_paused() == last_switch(v, cs),
    decreases cs.len(),
{
    if cs.len() > 0 {
        lemma_escrow_calls(v, cs.drop_last());
    }
}

/// Once a deposit is released or refunded, every later release or refund
/// of it is refused: a deposit is settled once, one way.
pub proof fn lemma_settled_deposit_stays_settled(
    v: EscrowView,
    cs: Seq<EscrowCall>,
    id: Seq<char>,
    caller: Seq<char>,
    ledger_sequence: u32,
)
    requires
        v.inv(),
        v.deposits.contains_key(id),
        v.deposits[id].released || v.deposits[id].refunded,
    ensures
        release_result(escrow_after_calls(v, cs), id) == Err::<EscrowView, ContractError>(
            ContractError::InvalidInput,
        ),
        refund_result(escrow_after_calls(v, cs), caller, id, ledger_sequence) == Err::<
            EscrowView,
            ContractError,
        >(ContractError::InvalidInput),
{
    lemma_escrow_calls(v, cs);
}

/// A refund is accepted only for the depositor, at or after the deposit's
/// timeout ledger, and only while it is neither released nor refunded; it
/// leaves the deposit refunded and not released.
pub proof fn lemma_refund_rules(v: EscrowView, caller: Seq<char>, id: Seq<char>, ledger_sequence: u32)
    requires
        v.inv(),
    ensures
        match refund_result(v, caller, id, ledger_sequence) {
            Ok(v1) => {
                &&& v.deposits.contains_key(id)
                &&& v.deposits[id].depositor == caller
                &&& ledger_sequence >= v.deposits[id].timeout_ledger
                &&& !v.deposits[id].released && !v.deposits[id].refunded
                &&& v1.deposits[id].refunded && !v1.deposits[id].released
            },
            Err(_) => true,
        },
{
}

/// After `init(admin)` and any calls, the escrow is paused exactly when the
/// last `pause`/`unpause` call was a pause (not paused when there was none),
/// and no deposit is both released and refunded.
pub proof fn lemma_after_escrow_init(v: EscrowView, admin: Seq<char>, cs: Seq<EscrowCall>)
    requires
        v.inv(),
    ensures
        escrow_after_calls(v.after_init(admin), cs).is_paused() == last_switch(
            v.after_init(admin),
            cs,
        ),
        escrow_after_calls(v.after_init(admin), cs).inv(),
        last_switch(v.after_init(admin), Seq::empty()) == false,
{
    lemma_escrow_calls(v.after_init(admin), cs);
}

/// `deposit` is accepted exactly when the escrow is not paused and no
/// deposit is filed under `depositor:bridge:ledger`, whatever other
/// deposits exist (the same depositor's and bridge's open ones included);
/// it then files the new deposit, unsettled and refundable from
/// `REFUND_DELAY_LEDGERS` ledgers on, and changes nothing else.
pub proof fn law_deposit(v: EscrowView, depositor: Seq<char>, bridge: Seq<char>, amount: i128, ledger_sequence: u32)
    ensures
        (deposit_result(v, depositor, bridge, amount, ledger_sequence) is Ok) <==> (!v.is_paused()
            && !v.deposits.contains_key(deposit_id_of(depositor, bridge, ledger_sequence))),
        match deposit_result(v, depositor, bridge, amount, ledger_sequence) {
            Ok(v1) => {
                let id = deposit_id_of(depositor, bridge, ledger_sequence);
                &&& v1.admin == v.admin && v1.paused == v.paused
                &&& v1.deposits.dom() == v.deposits.dom().insert(id)
                &&& forall|k: Seq<char>| #[trigger] v.deposits.contains_key(k) ==> v1.deposits[k]
                    == v.deposits[k]
                &&& v1.deposits[id].depositor == depositor && v1.deposits[id].bridge == bridge
                &&& v1.deposits[id].amount == amount && v1.deposits[id].id == id
                &&& v1.deposits[id].timeout_ledger == ledger_sequence + 604_800
                &&& !v1.deposits[id].released && !v1.deposits[id].refunded
            },
            Err(e) => e == ContractError::InvalidInput,
        },
{
    if let Ok(v1) = deposit_result(v, depositor, bridge, amount, ledger_sequence) {
        assert(v1.deposits.dom() =~= v.deposits.dom().insert(
            deposit_id_of(depositor, bridge, ledger_sequence),
        ));
    }
}

/// `release` is accepted exactly when a settlement authority is stored and
/// the deposit exists, unreleased and unrefunded (paused or not); it then
/// marks that deposit released and changes nothing else.
pub proof fn law_release(v: EscrowView, id: Seq<char>)
    requires
        v.inv(),
    ensures
        (release_result(v, id) is Ok) <==> (v.admin is Some && v.deposits.contains_key(id)
            && !v.deposits[id].released && !v.deposits[id].refunded),
        match release_result(v, id) {
            Ok(v1) => {
                &&& v1.admin == v.admin && v1.paused == v.paused
                &&& v1.deposits.dom() == v.deposits.dom()
                &&& forall|k: Seq<char>| #[trigger] v.deposits.contains_key(k) && k != id
                    ==> v1.deposits[k] == v.deposits[k]
                &&& v1.deposits[id].released && !v1.deposits[id].refunded
                &&& v1.deposits[id].depositor == v.deposits[id].depositor
                &&& v1.deposits[id].bridge == v.deposits[id].bridge
                &&& v1.deposits[id].amount == v.deposits[id].amount
                &&& v1.deposits[id].timeout_ledger == v.deposits[id].timeout_ledger
            },
            Err(e) => e == ContractError::InvalidInput,
        },
{
    if let Ok(v1) = release_result(v, id) {
        assert(v1.deposits.dom() =~= v.deposits.dom());
    }
}

/// `refund` is accepted exactly when the deposit exists, the caller is its
/// depositor, it is neither released nor refunded, and the ledger is at or
/// after its timeout ledger, however long after (paused or not); it then
/// marks that deposit refunded and changes nothing else.
pub proof fn law_refund(v: EscrowView, caller: Seq<char>, id: Seq<char>, ledger_sequence: u32)
    requires
        v.inv(),
    ensures
        (refund_result(v, caller, id, ledger_sequence) is Ok) <==> (v.deposits.contains_key(id)
            && v.deposits[id].depositor == caller && !v.deposits[id].released
            && !v.deposits[id].refunded && ledger_sequence >= v.deposits[id].timeout_ledger),
        match refund_result(v, caller, id, ledger_sequence) {
            Ok(v1) => {
                &&& v1.admin == v.admin && v1.paused == v.paused
                &&& v1.deposits.dom() == v.deposits.dom()
                &&& forall|k: Seq<char>| #[trigger] v.deposits.contains_key(k) && k != id
                    ==> v1.deposits[k] == v.deposits[k]
                &&& v1.deposits[id].refunded && !v1.deposits[id].released
                &&& v1.deposits[id].depositor == caller
                &&& v1.deposits[id].bridge == v.deposits[id].bridge
                &&& v1.deposits[id].amount == v.deposits[id].amount
                &&& v1.deposits[id].timeout_ledger == v.deposits[id].timeout_ledger
            },
            Err(e) => e == ContractError::InvalidInput,
        },
{
    if let Ok(v1) = refund_result(v, caller, id, ledger_sequence) {
        assert(v1.deposits.dom() =~= v.deposits.dom());
    }
}

/// A deposit's refund window never closes: once a refund would be accepted
/// at some ledger, it would be accepted at every later ledger too.
pub proof fn law_refund_window_stays_open(v: EscrowView, caller: Seq<char>, id: Seq<char>, l1: u32, l2: u32)
    requires
        l1 <= l2,
        refund_result(v, caller, id, l1) is Ok,
    ensures
        refund_result(v, caller, id, l2) is Ok,
{
}

} // verus!
