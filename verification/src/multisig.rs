//! M-of-N threshold signing for high-value release and upgrade actions.

use vstd::prelude::*;
use crate::address::{
    Address, addresses_view, addresses_distinct, contains_address, index_of_address, copy_addresses,
};
use crate::error::ContractError;
use crate::text::{bytes_equal, copy_bytes};
use crate::keyed::{
    keyed_map, keys_unique, lemma_keyed_map_at, lemma_keyed_map_dom, lemma_keyed_map_len,
    lemma_keyed_map_push, lemma_keyed_map_update,
};

verus! {

/// On-chain state of a pending release or upgrade action.
pub struct Proposal {
    /// Unique proposal id, chosen by the proposer.
    pub id: Vec<u8>,
    /// Human-readable description of the action.
    pub description: Vec<u8>,
    /// Contract or address the action applies to.
    pub target: Address,
    /// Value involved, in token base units.
    pub value: i128,
    /// Addresses that have signed, in signing order.
    pub signatures: Vec<Address>,
    /// Whether the proposal has been executed.
    pub executed: bool,
    /// Ledger sequence number at which the proposal was created.
    pub created_at: u32,
}

/// A proposal seen as plain values.
pub struct ProposalView {
    pub id: Seq<u8>,
    pub description: Seq<u8>,
    pub target: Seq<char>,
    pub value: i128,
    pub signatures: Seq<Seq<char>>,
    pub executed: bool,
    pub created_at: u32,
}

impl View for Proposal {
    type V = ProposalView;

    open spec fn view(&self) -> ProposalView {
        ProposalView {
            id: self.id@,
            description: self.description@,
            target: self.target@,
            value: self.value,
            signatures: addresses_view(self.signatures@),
            executed: self.executed,
            created_at: self.created_at,
        }
    }
}

/// The stored proposals as `(id, proposal)` entries.
pub open spec fn proposal_entries(s: Seq<Proposal>) -> Seq<(Seq<u8>, ProposalView)> {
    s.map_values(|p: Proposal| (p.id@, p@))
}

/// The stored proposals as a map from id to proposal.
pub open spec fn proposals_view(s: Seq<Proposal>) -> Map<Seq<u8>, ProposalView> {
    keyed_map(proposal_entries(s))
}

/// Everything an initialised authority stores.
pub struct Authority {
    /// The address allowed to add and remove signers and set the threshold.
    pub admin: Address,
    /// Registered signers, in registration order.
    pub signers: Vec<Address>,
    /// Signatures required for a high-value proposal.
    pub threshold: u32,
    /// Values up to this limit need a single signature; 0 means that every
    /// proposal needs the full threshold.
    pub high_value_limit: i128,
    /// Proposals, each id once.
    pub proposals: Vec<Proposal>,
}

/// An initialised authority seen as plain values.
pub struct AuthorityModel {
    pub admin: Seq<char>,
    pub signers: Seq<Seq<char>>,
    pub threshold: u32,
    pub high_value_limit: i128,
    pub proposals: Map<Seq<u8>, ProposalView>,
}

impl View for Authority {
    type V = AuthorityModel;

    open spec fn view(&self) -> AuthorityModel {
        AuthorityModel {
            admin: self.admin@,
            signers: addresses_view(self.signers@),
            threshold: self.threshold,
            high_value_limit: self.high_value_limit,
            proposals: proposals_view(self.proposals@),
        }
    }
}

/// The authority's state: `None` until `init` succeeds.
pub type MultisigModel = Option<AuthorityModel>;

/// The multi-signature authority contract's stored state.
pub struct MultisigAuthority {
    pub state: Option<Authority>,
}

impl View for MultisigAuthority {
    type V = MultisigModel;

    open spec fn view(&self) -> MultisigModel {
        match self.state {
            Some(a) => Some(a@),
            None => None,
        }
    }
}

impl AuthorityModel {
    /// What every reachable state satisfies: a quorum of registered signers
    /// can be reached, the high-value limit is not negative, each proposal
    /// is filed under its own id, and its signatures start with its
    /// proposer's and name nobody twice.
    pub open spec fn inv(self) -> bool {
        &&& 1 <= self.threshold <= self.signers.len()
        &&& self.high_value_limit >= 0
        &&& forall|id: Seq<u8>| #[trigger] self.proposals.contains_key(id) ==> {
            &&& self.proposals[id].id == id
            &&& self.proposals[id].signatures.no_duplicates()
            &&& self.proposals[id].signatures.len() >= 1
        }
    }

    /// Every signature list fits a ledger vector (at most `u32::MAX`
    /// entries).
    pub open spec fn within_limits(self) -> bool {
        forall|id: Seq<u8>| #[trigger] self.proposals.contains_key(id)
            ==> self.proposals[id].signatures.len() <= u32::MAX
    }

    /// Whether `a` is a registered signer.
    pub open spec fn is_signer(self, a: Seq<char>) -> bool {
        self.signers.contains(a)
    }

    /// The same state with one proposal replaced.
    pub open spec fn with_proposal(self, p: ProposalView) -> AuthorityModel {
        AuthorityModel { proposals: self.proposals.insert(p.id, p), ..self }
    }
}

/// The invariant of the authority's state (trivially true before `init`).
pub open spec fn multisig_inv(m: MultisigModel) -> bool {
    match m {
        Some(a) => a.inv(),
        None => true,
    }
}

/// Every signature list of the authority fits a ledger vector.
pub open spec fn multisig_within_limits(m: MultisigModel) -> bool {
    match m {
        Some(a) => a.within_limits(),
        None => true,
    }
}

/// Signatures needed for a proposal of `value`: one when the value is at
/// most a positive high-value limit, the full threshold otherwise.
pub open spec fn threshold_for(threshold: u32, high_value_limit: i128, value: i128) -> u32 {
    if high_value_limit > 0 && value <= high_value_limit {
        1
    } else {
        threshold
    }
}

/// `i` is the first position of `x` in `s`.
pub open spec fn is_first_index(s: Seq<Seq<char>>, x: Seq<char>, i: int) -> bool {
    &&& 0 <= i < s.len()
    &&& s[i] == x
    &&& forall|j: int| 0 <= j < i ==> s[j] != x
}

/// The first position of `x` in `s` (meaningful when `s` contains `x`).
pub open spec fn first_index(s: Seq<Seq<char>>, x: Seq<char>) -> int {
    choose|i: int| is_first_index(s, x, i)
}

/// A sequence that contains `x` has a first position of `x`.
pub proof fn lemma_first_index_exists(s: Seq<Seq<char>>, x: Seq<char>)
    requires
        s.contains(x),
    ensures
        is_first_index(s, x, first_index(s, x)),
    decreases s.len(),
{
    if s[0] == x {
        assert(is_first_index(s, x, 0));
    } else {
        let t = s.drop_first();
        let i = choose|i: int| 0 <= i < s.len() && s[i] == x;
        assert(t[i - 1] == x);
        lemma_first_index_exists(t, x);
        let k = first_index(t, x);
        assert forall|j: int| 0 <= j < k + 1 implies s[j] != x by {
            if j > 0 {
                assert(s[j] == t[j - 1]);
            }
        }
        assert(is_first_index(s, x, k + 1));
    }
}

/// Outcome of `init`.
pub open spec fn init_result(
    admin: Seq<char>,
    signers: Seq<Seq<char>>,
    threshold: u32,
    high_value_limit: i128,
) -> Result<MultisigModel, ContractError> {
    if signers.len() == 0 || threshold == 0 || threshold > signers.len() || high_value_limit < 0 {
        Err(ContractError::InvalidInput)
    } else {
        Ok(
            Some(
                AuthorityModel {
                    admin,
                    signers,
                    threshold,
                    high_value_limit,
                    proposals: Map::empty(),
                },
            ),
        )
    }
}

/// Outcome of `propose`.
pub open spec fn propose_result(
    m: MultisigModel,
    proposer: Seq<char>,
    id: Seq<u8>,
    description: Seq<u8>,
    target: Seq<char>,
    value: i128,
    ledger_sequence: u32,
) -> Result<MultisigModel, ContractError> {
    match m {
        None => Err(ContractError::InvalidInput),
        Some(a) => if !a.is_signer(proposer) || a.proposals.contains_key(id) {
            Err(ContractError::InvalidInput)
        } else {
            Ok(
                Some(
                    a.with_proposal(
                        ProposalView {
                            id,
                            description,
                            target,
                            value,
                            signatures: seq![proposer],
                            executed: false,
                            created_at: ledger_sequence,
                        },
                    ),
                ),
            )
        },
    }
}

/// Outcome of `sign`.
pub open spec fn sign_result(m: MultisigModel, signer: Seq<char>, id: Seq<u8>) -> Result<
    MultisigModel,
    ContractError,
> {
    match m {
        None => Err(ContractError::InvalidInput),
        Some(a) => if !a.is_signer(signer) || !a.proposals.contains_key(id) {
            Err(ContractError::InvalidInput)
        } else {
            let p = a.proposals[id];
            if p.executed || p.signatures.contains(signer) {
                Err(ContractError::InvalidInput)
            } else {
                Ok(Some(a.with_proposal(ProposalView { signatures: p.signatures.push(signer), ..p })))
            }
        },
    }
}

/// Outcome of `execute`.
pub open spec fn execute_result(m: MultisigModel, executor: Seq<char>, id: Seq<u8>) -> Result<
    MultisigModel,
    ContractError,
> {
    match m {
        None => Err(ContractError::InvalidInput),
        Some(a) => if !a.is_signer(executor) || !a.proposals.contains_key(id) {
            Err(ContractError::InvalidInput)
        } else {
            let p = a.proposals[id];
            if p.executed || p.signatures.len() < threshold_for(
                a.threshold,
                a.high_value_limit,
                p.value,
            ) {
                Err(ContractError::InvalidInput)
            } else {
                Ok(Some(a.with_proposal(ProposalView { executed: true, ..p })))
            }
        },
    }
}

/// Outcome of `add_signer`.
pub open spec fn add_signer_result(m: MultisigModel, admin: Seq<char>, new_signer: Seq<char>) -> Result<
    MultisigModel,
    ContractError,
> {
    match m {
        None => Err(ContractError::InvalidInput),
        Some(a) => if a.admin != admin || a.is_signer(new_signer) {
            Err(ContractError::InvalidInput)
        } else {
            Ok(Some(AuthorityModel { signers: a.signers.push(new_signer), ..a }))
        },
    }
}

/// Outcome of `remove_signer`: the first registration of `signer` goes,
/// unless fewer signers than the threshold would remain.
pub open spec fn remove_signer_result(m: MultisigModel, admin: Seq<char>, signer: Seq<char>) -> Result<
    MultisigModel,
    ContractError,
> {
    match m {
        None => Err(ContractError::InvalidInput),
        Some(a) => if a.admin != admin || a.signers.len() - 1 < a.threshold || !a.is_signer(
            signer,
        ) {
            Err(ContractError::InvalidInput)
        } else {
            Ok(
                Some(
                    AuthorityModel {
                        signers: a.signers.remove(first_index(a.signers, signer)),
                        ..a
                    },
                ),
            )
        },
    }
}

/// Outcome of `set_threshold`.
pub open spec fn set_threshold_result(m: MultisigModel, admin: Seq<char>, threshold: u32) -> Result<
    MultisigModel,
    ContractError,
> {
    match m {
        None => Err(ContractError::InvalidInput),
        Some(a) => if a.admin != admin || threshold == 0 || threshold > a.signers.len() {
            Err(ContractError::InvalidInput)
        } else {
            Ok(Some(AuthorityModel { threshold, ..a }))
        },
    }
}

/// Outcome of `required_threshold`.
pub open spec fn required_threshold_result(m: MultisigModel, value: i128) -> Result<u32, ContractError> {
    match m {
        None => Err(ContractError::InvalidInput),
        Some(a) => Ok(threshold_for(a.threshold, a.high_value_limit, value)),
    }
}

/// Outcome of `proposal_status`: signatures collected, signatures required,
/// and whether the proposal can be executed now.
pub open spec fn proposal_status_result(m: MultisigModel, id: Seq<u8>) -> Result<
    (u32, u32, bool),
    ContractError,
> {
    match m {
        None => Err(ContractError::InvalidInput),
        Some(a) => if !a.proposals.contains_key(id) {
            Err(ContractError::InvalidInput)
        } else {
            let p = a.proposals[id];
            let t = threshold_for(a.threshold, a.high_value_limit, p.value);
            Ok((p.signatures.len() as u32, t, p.signatures.len() >= t && !p.executed))
        },
    }
}

/// The registered signers, empty before `init`.
pub open spec fn signers_of(m: MultisigModel) -> Seq<Seq<char>> {
    match m {
        None => Seq::empty(),
        Some(a) => a.signers,
    }
}

/// Room to record one more signature on proposal `id` (a ledger vector holds
/// at most `u32::MAX` entries).
pub open spec fn signature_room(m: MultisigModel, id: Seq<u8>) -> bool {
    match m {
        Some(a) => a.proposals.contains_key(id) ==> a.proposals[id].signatures.len() < u32::MAX,
        None => true,
    }
}

/// Room to file one more proposal (a ledger map holds at most `u32::MAX`
/// entries).
pub open spec fn proposal_room(m: MultisigModel) -> bool {
    m matches Some(a) ==> a.proposals.dom().len() < u32::MAX
}

/// Room to register one more signer (a ledger vector holds at most
/// `u32::MAX` entries).
pub open spec fn signer_room(m: MultisigModel) -> bool {
    m matches Some(a) ==> a.signers.len() < u32::MAX
}

/// Event: the authority was initialised.
pub struct Initialized {
    pub admin: Address,
    pub threshold: u32,
    pub high_value_limit: i128,
}

/// Event: a proposal was created, with its proposer's implicit signature.
pub struct Proposed {
    pub id: Vec<u8>,
    pub proposer: Address,
    pub target: Address,
    pub value: i128,
}

/// Event: one signature was collected; `sig_count` is the proposal's new
/// number of signatures.
pub struct Signed {
    pub proposal_id: Vec<u8>,
    pub signer: Address,
    pub sig_count: u32,
}

/// Event: a proposal was executed; `value` is the approved value.
pub struct Executed {
    pub proposal_id: Vec<u8>,
    pub executor: Address,
    pub value: i128,
    pub sig_count: u32,
}

/// Event: a signer was registered.
pub struct SignerAdded {
    pub signer: Address,
}

/// Event: a signer registration was removed.
pub struct SignerRemoved {
    pub signer: Address,
}

/// Event: the threshold was changed.
pub struct ThresholdSet {
    pub threshold: u32,
}

/// With unique ids, every proposal is found in the map under its id.
proof fn lemma_proposal_at(props: Seq<Proposal>, i: int)
    requires
        keys_unique(proposal_entries(props)),
        0 <= i < props.len(),
    ensures
        proposals_view(props).contains_key(props[i].id@),
        proposals_view(props)[props[i].id@] == props[i]@,
{
    assert(proposal_entries(props)[i] == (props[i].id@, props[i]@));
    lemma_keyed_map_at(proposal_entries(props), i);
}

/// An id that no entry carries is not in the map.
proof fn lemma_proposal_absent(props: Seq<Proposal>, id: Seq<u8>)
    requires
        forall|j: int| 0 <= j < props.len() ==> props[j].id@ != id,
    ensures
        !proposals_view(props).contains_key(id),
{
    lemma_keyed_map_dom(proposal_entries(props), id);
    if proposals_view(props).contains_key(id) {
        let i = choose|i: int|
            0 <= i < proposal_entries(props).len() && #[trigger] proposal_entries(props)[i].0 == id;
        assert(proposal_entries(props)[i] == (props[i].id@, props[i]@));
    }
}

/// Replacing the entry at `i` by a proposal with the same id replaces it in
/// the map and keeps the ids unique.
proof fn lemma_proposal_replace(props: Seq<Proposal>, i: int, p: Proposal)
    requires
        keys_unique(proposal_entries(props)),
        0 <= i < props.len(),
        p.id@ == props[i].id@,
    ensures
        keys_unique(proposal_entries(props.update(i, p))),
        proposals_view(props.update(i, p)) == proposals_view(props).insert(p.id@, p@),
{
    let e = proposal_entries(props);
    assert(proposal_entries(props.update(i, p)) =~= e.update(i, (e[i].0, p@)));
    lemma_keyed_map_update(e, i, p@);
}

/// Appending a proposal with a fresh id inserts it into the map and keeps
/// the ids unique.
proof fn lemma_proposal_push(props: Seq<Proposal>, p: Proposal)
    requires
        keys_unique(proposal_entries(props)),
        forall|j: int| 0 <= j < props.len() ==> props[j].id@ != p.id@,
    ensures
        keys_unique(proposal_entries(props.push(p))),
        proposals_view(props.push(p)) == proposals_view(props).insert(p.id@, p@),
{
    let e = proposal_entries(props);
    assert(proposal_entries(props.push(p)) =~= e.push((p.id@, p@)));
    lemma_keyed_map_push(e, p.id@, p@);
    assert forall|a: int, b: int|
        0 <= a < b < e.push((p.id@, p@)).len() implies #[trigger] e.push((p.id@, p@))[a].0
        != #[trigger] e.push((p.id@, p@))[b].0 by {
        if b == e.len() {
            assert(e[a].0 == props[a].id@);
        }
    }
}

/// The position of the proposal filed under `id`, if any.
fn find_proposal(props: &Vec<Proposal>, id: &Vec<u8>) -> (r: Option<usize>)
    ensures
        match r {
            Some(i) => i < props.len() && props@[i as int].id@ == id@,
            None => forall|j: int| 0 <= j < props.len() ==> props@[j].id@ != id@,
        },
{
    let mut i: usize = 0;
    while i < props.len()
        invariant
            i <= props.len(),
            forall|j: int| 0 <= j < i ==> props@[j].id@ != id@,
        decreases props.len() - i,
    {
        if bytes_equal(&props[i].id, id) {
            return Some(i);
        }
        i = i + 1;
    }
    None
}

/// Signatures needed for a proposal of `value`: one when the value is at
/// most a positive high-value limit, the full threshold otherwise.
pub fn threshold_for_value(threshold: u32, high_value_limit: i128, value: i128) -> (t: u32)
    ensures
        t == threshold_for(threshold, high_value_limit, value),
{
    if high_value_limit > 0 && value <= high_value_limit {
        1
    } else {
        threshold
    }
}

impl Authority {
    /// Well-formedness: the model invariant, ids unique in the list, and
    /// ledger vectors within their `u32` length.
    pub open spec fn wf(self) -> bool {
        &&& self@.inv()
        &&& self@.within_limits()
        &&& self.signers.len() <= u32::MAX
        &&& self.proposals.len() <= u32::MAX
        &&& keys_unique(proposal_entries(self.proposals@))
    }
}

impl MultisigAuthority {
    /// Well-formedness of the stored state (trivially true before `init`).
    pub open spec fn wf(self) -> bool {
        match self.state {
            Some(a) => a.wf(),
            None => true,
        }
    }

    /// An authority that has never been initialised.
    pub fn new() -> (c: MultisigAuthority)
        ensures
            c@ is None,
            c.wf(),
    {
        MultisigAuthority { state: None }
    }

    /// Installs the admin, the signers, the threshold and the high-value
    /// limit, and clears all proposals.  Refused when `signers` is empty,
    /// when the threshold is not within `1..=signers.len()`, or when the
    /// limit is negative.  The host requires `admin`'s authorisation first.
    pub fn init(
        &mut self,
        admin: Address,
        signers: Vec<Address>,
        threshold: u32,
        high_value_limit: i128,
    ) -> (r: Result<Initialized, ContractError>)
        requires
            old(self).wf(),
            signers.len() <= u32::MAX,
        ensures
            final(self).wf(),
            match r {
                Ok(ev) => init_result(admin@, addresses_view(signers@), threshold, high_value_limit)
                    == Ok::<MultisigModel, ContractError>(final(self)@) && ev.admin@ == admin@
                    && ev.threshold == threshold && ev.high_value_limit == high_value_limit,
                Err(e) => init_result(admin@, addresses_view(signers@), threshold, high_value_limit)
                    == Err::<MultisigModel, ContractError>(e) && final(self)@ == old(self)@,
            },
    {
        if signers.len() == 0 {
            return Err(ContractError::InvalidInput);
        }
        if threshold == 0 || threshold as usize > signers.len() {
            return Err(ContractError::InvalidInput);
        }
        if high_value_limit < 0 {
            return Err(ContractError::InvalidInput);
        }
        let ev = Initialized { admin: admin.duplicate(), threshold, high_value_limit };
        let proposals: Vec<Proposal> = Vec::new();
        proof {
            assert(proposal_entries(proposals@) =~= Seq::empty());
            assert(proposals_view(proposals@) =~= Map::empty());
        }
        self.state = Some(Authority { admin, signers, threshold, high_value_limit, proposals });
        Ok(ev)
    }

    /// Creates a proposal whose only signature is the proposer's.  Refused
    /// when the authority is not initialised, the proposer is not a signer,
    /// or the id is taken.  The host requires the proposer's authorisation
    /// first and supplies the current ledger sequence number.
    pub fn propose(
        &mut self,
        proposer: Address,
        id: Vec<u8>,
        description: Vec<u8>,
        target: Address,
        value: i128,
        ledger_sequence: u32,
    ) -> (r: Result<Proposed, ContractError>)
        requires
            old(self).wf(),
            proposal_room(old(self)@),
        ensures
            final(self).wf(),
            final(self)@ == after_call(
                old(self)@,
                (MultisigCall::Propose {
                    proposer: proposer@,
                    id: id@,
                    description: description@,
                    target: target@,
                    value,
                    ledger_sequence,
                }),
            ),
            match r {
                Ok(ev) => propose_result(
                    old(self)@,
                    proposer@,
                    id@,
                    description@,
                    target@,
                    value,
                    ledger_sequence,
                ) == Ok::<MultisigModel, ContractError>(final(self)@) && ev.id@ == id@
                    && ev.proposer@ == proposer@ && ev.target@ == target@ && ev.value == value,
                Err(e) => propose_result(
                    old(self)@,
                    proposer@,
                    id@,
                    description@,
                    target@,
                    value,
                    ledger_sequence,
                ) == Err::<MultisigModel, ContractError>(e) && final(self)@ == old(self)@,
            },
    {
        match &mut self.state {
            None => Err(ContractError::InvalidInput),
            Some(a) => {
                if !contains_address(&a.signers, &proposer) {
                    return Err(ContractError::InvalidInput);
                }
                if find_proposal(&a.proposals, &id).is_some() {
                    proof {
                        let i = choose|i: int| 0 <= i < a.proposals.len() && a.proposals@[i].id@ == id@;
                        lemma_proposal_at(a.proposals@, i);
                    }
                    return Err(ContractError::InvalidInput);
                }
                proof {
                    lemma_proposal_absent(a.proposals@, id@);
                    lemma_keyed_map_len(proposal_entries(a.proposals@));
                }
                let mut signatures: Vec<Address> = Vec::new();
                signatures.push(proposer.duplicate());
                let p = Proposal {
                    id: copy_bytes(&id),
                    description,
                    target: target.duplicate(),
                    value,
                    signatures,
                    executed: false,
                    created_at: ledger_sequence,
                };
                let ghost old_props = a.proposals@;
                proof {
                    lemma_proposal_push(old_props, p);
                    assert(addresses_view(p.signatures@) =~= seq![proposer@]);
                }
                a.proposals.push(p);
                Ok(Proposed { id, proposer, target, value })
            },
        }
    }
    /// Adds `signer`'s signature to proposal `proposal_id`.  Refused when the
    /// authority is not initialised, `signer` is not a registered signer, the
    /// proposal does not exist or is executed, or `signer` has signed it
    /// already.  The host requires the signer's authorisation first.
    pub fn sign(&mut self, signer: Address, proposal_id: Vec<u8>) -> (r: Result<Signed, ContractError>)
        requires
            old(self).wf(),
            signature_room(old(self)@, proposal_id@),
        ensures
            final(self).wf(),
            final(self)@ == after_call(
                old(self)@,
                (MultisigCall::Sign { signer: signer@, id: proposal_id@ }),
            ),
            match r {
                Ok(ev) => sign_result(old(self)@, signer@, proposal_id@) == Ok::<
                    MultisigModel,
                    ContractError,
                >(final(self)@) && ev.proposal_id@ == proposal_id@ && ev.signer@ == signer@
                    && ev.sig_count == final(self)@.unwrap().proposals[proposal_id@].signatures.len(),
                Err(e) => sign_result(old(self)@, signer@, proposal_id@) == Err::<
                    MultisigModel,
                    ContractError,
                >(e) && final(self)@ == old(self)@,
            },
    {
        match &mut self.state {
            None => Err(ContractError::InvalidInput),
            Some(a) => {
                if !contains_address(&a.signers, &signer) {
                    return Err(ContractError::InvalidInput);
                }
                let i = match find_proposal(&a.proposals, &proposal_id) {
                    Some(i) => i,
                    None => {
                        proof {
                            lemma_proposal_absent(a.proposals@, proposal_id@);
                        }
                        return Err(ContractError::InvalidInput);
                    },
                };
                proof {
                    lemma_proposal_at(a.proposals@, i as int);
                }
                if a.proposals[i].executed {
                    return Err(ContractError::InvalidInput);
                }
                if contains_address(&a.proposals[i].signatures, &signer) {
                    return Err(ContractError::InvalidInput);
                }
                let ghost old_props = a.proposals@;
                let ghost old_p = a.proposals@[i as int];
                let mut p = a.proposals.remove(i);
                p.signatures.push(signer.duplicate());
                let sig_count = p.signatures.len() as u32;
                let ghost new_p = p;
                a.proposals.insert(i, p);
                proof {
                    assert(a.proposals@ =~= old_props.update(i as int, new_p));
                    lemma_proposal_replace(old_props, i as int, new_p);
                    assert(addresses_view(new_p.signatures@) =~= addresses_view(
                        old_p.signatures@,
                    ).push(signer@));
                    assert(new_p@ == ProposalView {
                        signatures: old_p@.signatures.push(signer@),
                        ..old_p@
                    });
                }
                Ok(Signed { proposal_id, signer, sig_count })
            },
        }
    }

    /// Marks proposal `proposal_id` executed and reports its value.  Refused
    /// when the authority is not initialised, `executor` is not a registered
    /// signer, the proposal does not exist or is executed, or it has fewer
    /// signatures than its value requires.  The host requires the executor's
    /// authorisation first.
    pub fn execute(&mut self, executor: Address, proposal_id: Vec<u8>) -> (r: Result<
        Executed,
        ContractError,
    >)
        requires
            old(self).wf(),
        ensures
            final(self).wf(),
            final(self)@ == after_call(
                old(self)@,
                (MultisigCall::Execute { executor: executor@, id: proposal_id@ }),
            ),
            match r {
                Ok(ev) => execute_result(old(self)@, executor@, proposal_id@) == Ok::<
                    MultisigModel,
                    ContractError,
                >(final(self)@) && ev.proposal_id@ == proposal_id@ && ev.executor@ == executor@
                    && ev.value == old(self)@.unwrap().proposals[proposal_id@].value
                    && ev.sig_count == old(self)@.unwrap().proposals[proposal_id@].signatures.len(),
                Err(e) => execute_result(old(self)@, executor@, proposal_id@) == Err::<
                    MultisigModel,
                    ContractError,
                >(e) && final(self)@ == old(self)@,
            },
    {
        match &mut self.state {
            None => Err(ContractError::InvalidInput),
            Some(a) => {
                if !contains_address(&a.signers, &executor) {
                    return Err(ContractError::InvalidInput);
                }
                let i = match find_proposal(&a.proposals, &proposal_id) {
                    Some(i) => i,
                    None => {
                        proof {
                            lemma_proposal_absent(a.proposals@, proposal_id@);
                        }
                        return Err(ContractError::InvalidInput);
                    },
                };
                proof {
                    lemma_proposal_at(a.proposals@, i as int);
                }
                if a.proposals[i].executed {
                    return Err(ContractError::InvalidInput);
                }
                let t = threshold_for_value(a.threshold, a.high_value_limit, a.proposals[i].value);
                if a.proposals[i].signatures.len() < t as usize {
                    return Err(ContractError::InvalidInput);
                }
                let ghost old_props = a.proposals@;
                let ghost old_p = a.proposals@[i as int];
                let mut p = a.proposals.remove(i);
                p.executed = true;
                let value = p.value;
                let sig_count = p.signatures.len() as u32;
                let ghost new_p = p;
                a.proposals.insert(i, p);
                proof {
                    assert(a.proposals@ =~= old_props.update(i as int, new_p));
                    lemma_proposal_replace(old_props, i as int, new_p);
                    assert(new_p@ == ProposalView { executed: true, ..old_p@ });
                }
                Ok(Executed { proposal_id, executor, value, sig_count })
            },
        }
    }

    /// Registers `new_signer`.  Refused when the authority is not
    /// initialised, `admin` is not the stored admin, or `new_signer` is
    /// already registered.  The host requires `admin`'s authorisation first.
    pub fn add_signer(&mut self, admin: Address, new_signer: Address) -> (r: Result<
        SignerAdded,
        ContractError,
    >)
        requires
            old(self).wf(),
            signer_room(old(self)@),
        ensures
            final(self).wf(),
            final(self)@ == after_call(
                old(self)@,
                (MultisigCall::AddSigner { admin: admin@, signer: new_signer@ }),
            ),
            match r {
                Ok(ev) => add_signer_result(old(self)@, admin@, new_signer@) == Ok::<
                    MultisigModel,
                    ContractError,
                >(final(self)@) && ev.signer@ == new_signer@,
                Err(e) => add_signer_result(old(self)@, admin@, new_signer@) == Err::<
                    MultisigModel,
                    ContractError,
                >(e) && final(self)@ == old(self)@,
            },
    {
        match &mut self.state {
            None => Err(ContractError::InvalidInput),
            Some(a) => {
                if !a.admin.same_as(&admin) {
                    return Err(ContractError::InvalidInput);
                }
                if contains_address(&a.signers, &new_signer) {
                    return Err(ContractError::InvalidInput);
                }
                let ghost old_signers = a.signers@;
                a.signers.push(new_signer.duplicate());
                proof {
                    assert(addresses_view(a.signers@) =~= addresses_view(old_signers).push(
                        new_signer@,
                    ));
                }
                Ok(SignerAdded { signer: new_signer })
            },
        }
    }

    /// Removes the first registration of `signer`.  Refused when the
    /// authority is not initialised, `admin` is not the stored admin, fewer
    /// signers than the threshold would remain, or `signer` is not
    /// registered.  The host requires `admin`'s authorisation first.
    pub fn remove_signer(&mut self, admin: Address, signer: Address) -> (r: Result<
        SignerRemoved,
        ContractError,
    >)
        requires
            old(self).wf(),
        ensures
            final(self).wf(),
            final(self)@ == after_call(
                old(self)@,
                (MultisigCall::RemoveSigner { admin: admin@, signer: signer@ }),
            ),
            match r {
                Ok(ev) => remove_signer_result(old(self)@, admin@, signer@) == Ok::<
                    MultisigModel,
                    ContractError,
                >(final(self)@) && ev.signer@ == signer@,
                Err(e) => remove_signer_result(old(self)@, admin@, signer@) == Err::<
                    MultisigModel,
                    ContractError,
                >(e) && final(self)@ == old(self)@,
            },
    {
        match &mut self.state {
            None => Err(ContractError::InvalidInput),
            Some(a) => {
                if !a.admin.same_as(&admin) {
                    return Err(ContractError::InvalidInput);
                }
                if a.signers.len() - 1 < a.threshold as usize {
                    return Err(ContractError::InvalidInput);
                }
                let idx = match index_of_address(&a.signers, &signer) {
                    Some(idx) => idx,
                    None => {
                        return Err(ContractError::InvalidInput);
                    },
                };
                let ghost old_signers = a.signers@;
                proof {
                    let s = addresses_view(old_signers);
                    assert(is_first_index(s, signer@, idx as int));
                    assert(s.contains(signer@));
                    let k = first_index(s, signer@);
                    assert(is_first_index(s, signer@, k));
                    assert(k == idx as int);
                }
                a.signers.remove(idx);
                proof {
                    assert(addresses_view(a.signers@) =~= addresses_view(old_signers).remove(
                        idx as int,
                    ));
                }
                Ok(SignerRemoved { signer })
            },
        }
    }

    /// Sets the threshold.  Refused when the authority is not initialised,
    /// `admin` is not the stored admin, or the new threshold is not within
    /// `1..=` the number of signers.  The host requires `admin`'s
    /// authorisation first.
    pub fn set_threshold(&mut self, admin: Address, new_threshold: u32) -> (r: Result<
        ThresholdSet,
        ContractError,
    >)
        requires
            old(self).wf(),
        ensures
            final(self).wf(),
            final(self)@ == after_call(
                old(self)@,
                (MultisigCall::SetThreshold { admin: admin@, threshold: new_threshold }),
            ),
            match r {
                Ok(ev) => set_threshold_result(old(self)@, admin@, new_threshold) == Ok::<
                    MultisigModel,
                    ContractError,
                >(final(self)@) && ev.threshold == new_threshold,
                Err(e) => set_threshold_result(old(self)@, admin@, new_threshold) == Err::<
                    MultisigModel,
                    ContractError,
                >(e) && final(self)@ == old(self)@,
            },
    {
        match &mut self.state {
            None => Err(ContractError::InvalidInput),
            Some(a) => {
                if !a.admin.same_as(&admin) {
                    return Err(ContractError::InvalidInput);
                }
                if new_threshold == 0 || new_threshold as usize > a.signers.len() {
                    return Err(ContractError::InvalidInput);
                }
                a.threshold = new_threshold;
                Ok(ThresholdSet { threshold: new_threshold })
            },
        }
    }

    /// Signatures required for a proposal of `value`; refused before `init`.
    pub fn required_threshold(&self, value: i128) -> (r: Result<u32, ContractError>)
        ensures
            r == required_threshold_result(self@, value),
    {
        match &self.state {
            None => Err(ContractError::InvalidInput),
            Some(a) => Ok(threshold_for_value(a.threshold, a.high_value_limit, value)),
        }
    }

    /// Signatures collected, signatures required, and whether proposal
    /// `proposal_id` can be executed now; refused when there is no such
    /// proposal.
    pub fn proposal_status(&self, proposal_id: Vec<u8>) -> (r: Result<(u32, u32, bool), ContractError>)
        requires
            self.wf(),
        ensures
            r == proposal_status_result(self@, proposal_id@),
    {
        match &self.state {
            None => Err(ContractError::InvalidInput),
            Some(a) => {
                let i = match find_proposal(&a.proposals, &proposal_id) {
                    Some(i) => i,
                    None => {
                        proof {
                            lemma_proposal_absent(a.proposals@, proposal_id@);
                        }
                        return Err(ContractError::InvalidInput);
                    },
                };
                proof {
                    lemma_proposal_at(a.proposals@, i as int);
                }
                let p = &a.proposals[i];
                let t = threshold_for_value(a.threshold, a.high_value_limit, p.value);
                let sig_count = p.signatures.len() as u32;
                Ok((sig_count, t, sig_count >= t && !p.executed))
            },
        }
    }

    /// The registered signers; empty before `init`.
    pub fn get_signers(&self) -> (r: Vec<Address>)
        ensures
            addresses_view(r@) == signers_of(self@),
    {
        match &self.state {
            None => {
                let r: Vec<Address> = Vec::new();
                proof {
                    assert(addresses_view(r@) =~= Seq::empty());
                }
                r
            },
            Some(a) => copy_addresses(&a.signers),
        }
    }
}

/// Whether no id is filed twice in `props`.
fn proposal_ids_distinct(props: &Vec<Proposal>) -> (b: bool)
    ensures
        b == keys_unique(proposal_entries(props@)),
{
    let ghost e = proposal_entries(props@);
    let mut i: usize = 0;
    while i < props.len()
        invariant
            i <= props.len(),
            e == proposal_entries(props@),
            forall|a: int, b: int| 0 <= a < b < props.len() && a < i ==> e[a].0 != e[b].0,
        decreases props.len() - i,
    {
        let mut j: usize = i + 1;
        while j < props.len()
            invariant
                i < props.len(),
                i + 1 <= j <= props.len(),
                e == proposal_entries(props@),
                forall|a: int, b: int| 0 <= a < b < props.len() && a < i ==> e[a].0 != e[b].0,
                forall|b: int| i < b < j ==> e[i as int].0 != e[b].0,
            decreases props.len() - j,
        {
            if bytes_equal(&props[i].id, &props[j].id) {
                assert(e[i as int].0 == e[j as int].0);
                return false;
            }
            j = j + 1;
        }
        i = i + 1;
    }
    true
}

/// Whether every proposal has at least one signature, names nobody twice,
/// and fits a ledger vector.
fn signatures_well_formed(props: &Vec<Proposal>) -> (b: bool)
    ensures
        b == forall|i: int| 0 <= i < props.len() ==> {
            &&& (#[trigger] props@[i])@.signatures.no_duplicates()
            &&& props@[i].signatures.len() <= u32::MAX
            &&& props@[i].signatures.len() >= 1
        },
{
    let mut i: usize = 0;
    while i < props.len()
        invariant
            i <= props.len(),
            forall|k: int| 0 <= k < i ==> {
                &&& (#[trigger] props@[k])@.signatures.no_duplicates()
                &&& props@[k].signatures.len() <= u32::MAX
                &&& props@[k].signatures.len() >= 1
            },
        decreases props.len() - i,
    {
        if props[i].signatures.len() > u32::MAX as usize || props[i].signatures.len() == 0 {
            return false;
        }
        if !addresses_distinct(&props[i].signatures) {
            return false;
        }
        i = i + 1;
    }
    true
}

impl Authority {
    /// Whether a stored authority is well formed.
    pub fn is_well_formed(&self) -> (b: bool)
        ensures
            b == self.wf(),
    {
        if self.threshold == 0 || self.threshold as usize > self.signers.len() {
            return false;
        }
        if self.signers.len() > u32::MAX as usize || self.proposals.len() > u32::MAX as usize {
            return false;
        }
        if self.high_value_limit < 0 {
            return false;
        }
        if !proposal_ids_distinct(&self.proposals) {
            return false;
        }
        let sigs_ok = signatures_well_formed(&self.proposals);
        let ghost props = self.proposals@;
        let ghost m = proposals_view(props);
        proof {
            assert(self.signers.len() == self@.signers.len());
            if sigs_ok {
                assert forall|id: Seq<u8>| #[trigger] m.contains_key(id) implies {
                    &&& m[id].id == id
                    &&& m[id].signatures.no_duplicates()
                    &&& m[id].signatures.len() <= u32::MAX
                    &&& m[id].signatures.len() >= 1
                } by {
                    lemma_keyed_map_dom(proposal_entries(props), id);
                    let i = choose|i: int|
                        0 <= i < proposal_entries(props).len() && #[trigger] proposal_entries(
                            props,
                        )[i].0 == id;
                    assert(proposal_entries(props)[i] == (props[i].id@, props[i]@));
                    lemma_proposal_at(props, i);
                    assert(props[i]@.signatures.no_duplicates());
                }
            } else {
                let i = choose|i: int|
                    0 <= i < props.len() && !{
                        &&& (#[trigger] props[i])@.signatures.no_duplicates()
                        &&& props[i].signatures.len() <= u32::MAX
                        &&& props[i].signatures.len() >= 1
                    };
                lemma_proposal_at(props, i);
                assert(props[i]@.signatures.len() == props[i].signatures.len());
                assert(!(m[props[i].id@].signatures.no_duplicates()
                    && m[props[i].id@].signatures.len() <= u32::MAX
                    && m[props[i].id@].signatures.len() >= 1));
                assert(self@.proposals == m);
            }
        }
        sigs_ok
    }
}

impl MultisigAuthority {
    /// Whether the stored state is well formed (as every state that the
    /// operations produce is); a host checks this after loading storage.
    pub fn is_well_formed(&self) -> (b: bool)
        ensures
            b == self.wf(),
    {
        match &self.state {
            None => true,
            Some(a) => a.is_well_formed(),
        }
    }
}

/// Whether a status answer says "executable now".
pub open spec fn status_says_executable(r: Result<(u32, u32, bool), ContractError>) -> bool {
    match r {
        Ok(st) => st.2,
        Err(_) => false,
    }
}

/// No signer can sign the same proposal twice: right after a signature is
/// accepted, the same signature is refused.
pub proof fn lemma_cannot_sign_twice(m: MultisigModel, signer: Seq<char>, id: Seq<u8>)
    requires
        multisig_inv(m),
    ensures
        match sign_result(m, signer, id) {
            Ok(m1) => sign_result(m1, signer, id) == Err::<MultisigModel, ContractError>(
                ContractError::InvalidInput,
            ),
            Err(_) => true,
        },
{
    if let Ok(m1) = sign_result(m, signer, id) {
        let a1 = m1.unwrap();
        let s1 = a1.proposals[id].signatures;
        assert(s1[s1.len() - 1] == signer);
    }
}

/// An executed proposal is final: once execution is accepted, any further
/// execution or signature of it is refused.
pub proof fn lemma_executed_is_final(
    m: MultisigModel,
    executor: Seq<char>,
    id: Seq<u8>,
    other: Seq<char>,
)
    requires
        multisig_inv(m),
    ensures
        match execute_result(m, executor, id) {
            Ok(m1) => execute_result(m1, other, id) == Err::<MultisigModel, ContractError>(
                ContractError::InvalidInput,
            ) && sign_result(m1, other, id) == Err::<MultisigModel, ContractError>(
                ContractError::InvalidInput,
            ),
            Err(_) => true,
        },
{
}

/// For a registered signer, execution is accepted exactly when the status
/// query reports the proposal executable.
pub proof fn lemma_status_agrees_with_execute(m: MultisigModel, executor: Seq<char>, id: Seq<u8>)
    requires
        multisig_inv(m),
        multisig_within_limits(m),
        m matches Some(a) && a.is_signer(executor),
    ensures
        execute_result(m, executor, id) is Ok <==> status_says_executable(
            proposal_status_result(m, id),
        ),
{
    let a = m.unwrap();
    if a.proposals.contains_key(id) {
        let p = a.proposals[id];
        assert(p.signatures.len() <= u32::MAX);
        assert((p.signatures.len() as u32) as int == p.signatures.len());
    }
}

/// A new proposal starts with exactly its proposer's signature: its status
/// is one signature collected, the threshold its value requires, and
/// executable exactly when that threshold is one.
pub proof fn lemma_new_proposal_status(
    m: MultisigModel,
    proposer: Seq<char>,
    id: Seq<u8>,
    description: Seq<u8>,
    target: Seq<char>,
    value: i128,
    ledger_sequence: u32,
)
    ensures
        match propose_result(m, proposer, id, description, target, value, ledger_sequence) {
            Ok(m1) => proposal_status_result(m1, id) == Ok::<(u32, u32, bool), ContractError>(
                (
                    1u32,
                    threshold_for(m.unwrap().threshold, m.unwrap().high_value_limit, value),
                    threshold_for(m.unwrap().threshold, m.unwrap().high_value_limit, value) <= 1,
                ),
            ),
            Err(_) => true,
        },
{
}

/// Every accepted signature raises the proposal's signature count by one
/// and leaves its required threshold unchanged.
pub proof fn lemma_sign_counts_one(m: MultisigModel, signer: Seq<char>, id: Seq<u8>)
    requires
        multisig_inv(m),
        signature_room(m, id),
    ensures
        match sign_result(m, signer, id) {
            Ok(m1) => match (proposal_status_result(m, id), proposal_status_result(m1, id)) {
                (Ok(before), Ok(after)) => after.0 == before.0 + 1 && after.1 == before.1,
                _ => false,
            },
            Err(_) => true,
        },
{
    if let Ok(m1) = sign_result(m, signer, id) {
        let p = m.unwrap().proposals[id];
        assert(p.signatures.len() < u32::MAX);
        assert(m1.unwrap().proposals[id].signatures.len() == p.signatures.len() + 1);
    }
}

/// A state-changing call other than `init`, with its arguments as plain
/// values.  (`required_threshold`, `proposal_status` and `get_signers` read
/// the state and leave it as it is.)
pub enum MultisigCall {
    Propose {
        proposer: Seq<char>,
        id: Seq<u8>,
        description: Seq<u8>,
        target: Seq<char>,
        value: i128,
        ledger_sequence: u32,
    },
    Sign { signer: Seq<char>, id: Seq<u8> },
    Execute { executor: Seq<char>, id: Seq<u8> },
    AddSigner { admin: Seq<char>, signer: Seq<char> },
    RemoveSigner { admin: Seq<char>, signer: Seq<char> },
    SetThreshold { admin: Seq<char>, threshold: u32 },
}

/// Outcome of one call.
pub open spec fn call_result(m: MultisigModel, c: MultisigCall) -> Result<MultisigModel, ContractError> {
    match c {
        MultisigCall::Propose { proposer, id, description, target, value, ledger_sequence } =>
            propose_result(m, proposer, id, description, target, value, ledger_sequence),
        MultisigCall::Sign { signer, id } => sign_result(m, signer, id),
        MultisigCall::Execute { executor, id } => execute_result(m, executor, id),
        MultisigCall::AddSigner { admin, signer } => add_signer_result(m, admin, signer),
        MultisigCall::RemoveSigner { admin, signer } => remove_signer_result(m, admin, signer),
        MultisigCall::SetThreshold { admin, threshold } => set_threshold_result(m, admin, threshold),
    }
}

/// The state after one call: the new state when accepted, the old one when
/// refused.
pub open spec fn after_call(m: MultisigModel, c: MultisigCall) -> MultisigModel {
    match call_result(m, c) {
        Ok(m1) => m1,
        Err(_) => m,
    }
}

/// The state after a sequence of calls, in order.
pub open spec fn after_calls(m: MultisigModel, cs: Seq<MultisigCall>) -> MultisigModel
    decreases cs.len(),
{
    if cs.len() == 0 {
        m
    } else {
        after_call(after_calls(m, cs.drop_last()), cs.last())
    }
}

/// `q` is a later state of proposal `p`: the same id, description, target,
/// value and creation ledger, `p`'s signatures still first in the same
/// order, and still executed if `p` was.
pub open spec fn proposal_evolves(p: ProposalView, q: ProposalView) -> bool {
    &&& q.id == p.id
    &&& q.description == p.description
    &&& q.target == p.target
    &&& q.value == p.value
    &&& q.created_at == p.created_at
    &&& p.signatures.len() <= q.signatures.len()
    &&& forall|i: int| 0 <= i < p.signatures.len() ==> q.signatures[i] == #[trigger] p.signatures[i]
    &&& p.executed ==> q.executed
}

/// `m1` is a later state of `m`: still initialised (or still not), the same
/// admin and high-value limit, and every filed proposal still filed under
/// its id as a later state of itself.
pub open spec fn multisig_evolves(m: MultisigModel, m1: MultisigModel) -> bool {
    match (m, m1) {
        (None, None) => true,
        (Some(a), Some(b)) => {
            &&& b.admin == a.admin
            &&& b.high_value_limit == a.high_value_limit
            &&& forall|id: Seq<u8>| #[trigger] a.proposals.contains_key(id) ==> {
                &&& b.proposals.contains_key(id)
                &&& proposal_evolves(a.proposals[id], b.proposals[id])
            }
        },
        _ => false,
    }
}

/// One call keeps the invariant and moves the state forward.
proof fn lemma_call_keeps(m: MultisigModel, c: MultisigCall)
    requires
        multisig_inv(m),
    ensures
        multisig_inv(after_call(m, c)),
        multisig_evolves(m, after_call(m, c)),
{
    if let Ok(m1) = call_result(m, c) {
        let a = m.unwrap();
        let b = m1.unwrap();
        match c {
            MultisigCall::Sign { signer, id } => {
                let p = a.proposals[id];
                let q = b.proposals[id];
                assert(q.signatures == p.signatures.push(signer));
                assert forall|i: int, j: int|
                    0 <= i < q.signatures.len() && 0 <= j < q.signatures.len() && i != j implies
                    q.signatures[i] != q.signatures[j] by {
                    if i < p.signatures.len() && j < p.signatures.len() {
                        assert(p.signatures[i] != p.signatures[j]);
                    } else if i == p.signatures.len() {
                        assert(q.signatures[j] == p.signatures[j]);
                    } else {
                        assert(q.signatures[i] == p.signatures[i]);
                    }
                }
                assert forall|i: int| 0 <= i < p.signatures.len() implies q.signatures[i]
                    == #[trigger] p.signatures[i] by {}
            },
            MultisigCall::Propose { proposer, id, description, target, value, ledger_sequence } => {
                assert(b.proposals[id].signatures.no_duplicates());
            },
            MultisigCall::RemoveSigner { admin, signer } => {
                lemma_first_index_exists(a.signers, signer);
            },
            _ => {},
        }
    }
}

/// `multisig_evolves` is transitive.
proof fn lemma_evolves_trans(m1: MultisigModel, m2: MultisigModel, m3: MultisigModel)
    requires
        multisig_evolves(m1, m2),
        multisig_evolves(m2, m3),
    ensures
        multisig_evolves(m1, m3),
{
    if let (Some(a), Some(b), Some(c)) = (m1, m2, m3) {
        assert forall|id: Seq<u8>| #[trigger] a.proposals.contains_key(id) implies {
            &&& c.proposals.contains_key(id)
            &&& proposal_evolves(a.proposals[id], c.proposals[id])
        } by {
            let p = a.proposals[id];
            let q = b.proposals[id];
            let r = c.proposals[id];
            assert forall|i: int| 0 <= i < p.signatures.len() implies r.signatures[i]
                == #[trigger] p.signatures[i] by {
                assert(q.signatures[i] == p.signatures[i]);
                assert(r.signatures[i] == q.signatures[i]);
            }
        }
    }
}

/// Every state evolves from itself.
proof fn lemma_evolves_refl(m: MultisigModel)
    ensures
        multisig_evolves(m, m),
{
}

/// Any sequence of calls keeps the invariant, and moves the state forward:
/// the admin and the high-value limit never change, a filed proposal stays
/// filed under its id with the same description, target, value and
/// creation ledger, its signatures are only ever added to, and an executed
/// proposal stays executed.
pub proof fn lemma_calls_keep_invariant(m: MultisigModel, cs: Seq<MultisigCall>)
    requires
        multisig_inv(m),
    ensures
        multisig_inv(after_calls(m, cs)),
        multisig_evolves(m, after_calls(m, cs)),
    decreases cs.len(),
{
    if cs.len() == 0 {
        lemma_evolves_refl(m);
    } else {
        lemma_calls_keep_invariant(m, cs.drop_last());
        let mid = after_calls(m, cs.drop_last());
        lemma_call_keeps(mid, cs.last());
        lemma_evolves_trans(m, mid, after_calls(m, cs));
    }
}

/// Running two sequences one after the other is running their
/// concatenation.
pub proof fn lemma_after_calls_append(m: MultisigModel, xs: Seq<MultisigCall>, ys: Seq<MultisigCall>)
    ensures
        after_calls(m, xs + ys) == after_calls(after_calls(m, xs), ys),
    decreases ys.len(),
{
    if ys.len() == 0 {
        assert(xs + ys =~= xs);
    } else {
        assert((xs + ys).drop_last() =~= xs + ys.drop_last());
        lemma_after_calls_append(m, xs, ys.drop_last());
    }
}

/// After a successful `init` and any calls, the authority is initialised,
/// keeps the invariant (so 1 <= threshold <= signer count and a
/// non-negative limit), and still has the admin and limit given to `init`.
pub proof fn lemma_after_init(
    admin: Seq<char>,
    signers: Seq<Seq<char>>,
    threshold: u32,
    high_value_limit: i128,
    cs: Seq<MultisigCall>,
)
    ensures
        match init_result(admin, signers, threshold, high_value_limit) {
            Ok(m0) => {
                &&& after_calls(m0, cs) is Some
                &&& multisig_inv(after_calls(m0, cs))
                &&& after_calls(m0, cs).unwrap().admin == admin
                &&& after_calls(m0, cs).unwrap().high_value_limit == high_value_limit
            },
            Err(_) => true,
        },
{
    if let Ok(m0) = init_result(admin, signers, threshold, high_value_limit) {
        lemma_calls_keep_invariant(m0, cs);
    }
}

/// A taken id stays taken: after any calls, proposing under it again is
/// refused, and the proposal filed under it is a later state of itself
/// (never overwritten or reset).
pub proof fn lemma_taken_id_stays_refused(
    m: MultisigModel,
    cs: Seq<MultisigCall>,
    id: Seq<u8>,
    proposer: Seq<char>,
    description: Seq<u8>,
    target: Seq<char>,
    value: i128,
    ledger_sequence: u32,
)
    requires
        multisig_inv(m),
        m matches Some(a) && a.proposals.contains_key(id),
    ensures
        propose_result(after_calls(m, cs), proposer, id, description, target, value, ledger_sequence)
            == Err::<MultisigModel, ContractError>(ContractError::InvalidInput),
        proposal_evolves(m.unwrap().proposals[id], after_calls(m, cs).unwrap().proposals[id]),
{
    lemma_calls_keep_invariant(m, cs);
}

/// An executed proposal stays final: after any further calls, executing or
/// signing it is refused.
pub proof fn lemma_executed_stays_final(
    m: MultisigModel,
    cs: Seq<MultisigCall>,
    id: Seq<u8>,
    caller: Seq<char>,
)
    requires
        multisig_inv(m),
        m matches Some(a) && a.proposals.contains_key(id) && a.proposals[id].executed,
    ensures
        execute_result(after_calls(m, cs), caller, id) == Err::<MultisigModel, ContractError>(
            ContractError::InvalidInput,
        ),
        sign_result(after_calls(m, cs), caller, id) == Err::<MultisigModel, ContractError>(
            ContractError::InvalidInput,
        ),
{
    lemma_calls_keep_invariant(m, cs);
}

/// A proposal filed by an accepted `propose` call keeps, through any later
/// calls, its proposer as first signature and the description, target,
/// value and creation ledger of that call.
pub proof fn lemma_proposal_keeps_its_terms(m: MultisigModel, cs: Seq<MultisigCall>, k: int)
    requires
        multisig_inv(m),
        0 <= k < cs.len(),
        cs[k] is Propose,
        call_result(after_calls(m, cs.take(k)), cs[k]) is Ok,
    ensures
        match cs[k] {
            MultisigCall::Propose { proposer, id, description, target, value, ledger_sequence } => {
                let p = after_calls(m, cs).unwrap().proposals[id];
                &&& after_calls(m, cs).unwrap().proposals.contains_key(id)
                &&& p.signatures.len() >= 1
                &&& p.signatures[0] == proposer
                &&& p.description == description
                &&& p.target == target
                &&& p.value == value
                &&& p.created_at == ledger_sequence
            },
            _ => true,
        },
{
    let head = cs.take(k + 1);
    let tail = cs.skip(k + 1);
    assert(head.drop_last() =~= cs.take(k));
    assert(head.last() == cs[k]);
    assert(head + tail =~= cs);
    lemma_after_calls_append(m, head, tail);
    lemma_calls_keep_invariant(m, cs.take(k));
    lemma_call_keeps(after_calls(m, cs.take(k)), cs[k]);
    lemma_calls_keep_invariant(after_calls(m, head), tail);
    if let MultisigCall::Propose { proposer, id, description, target, value, ledger_sequence } =
        cs[k] {
        let mid = after_calls(m, head);
        assert(mid == after_call(after_calls(m, cs.take(k)), cs[k]));
        assert(mid.unwrap().proposals.contains_key(id));
        let p0 = mid.unwrap().proposals[id];
        assert(p0.signatures[0] == proposer);
        assert(after_calls(m, cs) == after_calls(mid, tail));
        let p = after_calls(m, cs).unwrap().proposals[id];
        assert(proposal_evolves(p0, p));
        assert(p.signatures[0] == p0.signatures[0]);
    }
}

/// An accepted signature appends exactly the signer, who is a registered
/// signer at that moment.
pub proof fn lemma_sign_appends_registered_signer(m: MultisigModel, signer: Seq<char>, id: Seq<u8>)
    requires
        multisig_inv(m),
    ensures
        match sign_result(m, signer, id) {
            Ok(m1) => {
                &&& m.unwrap().is_signer(signer)
                &&& m1.unwrap().proposals[id].signatures == m.unwrap().proposals[id].signatures.push(
                    signer,
                )
            },
            Err(_) => true,
        },
{
}

/// Adding a new signer and then removing it again gives back the state
/// from before.
pub proof fn lemma_add_then_remove_signer(m: MultisigModel, admin: Seq<char>, x: Seq<char>)
    requires
        multisig_inv(m),
    ensures
        match add_signer_result(m, admin, x) {
            Ok(m1) => remove_signer_result(m1, admin, x) == Ok::<MultisigModel, ContractError>(m),
            Err(_) => true,
        },
{
    if let Ok(m1) = add_signer_result(m, admin, x) {
        let a = m.unwrap();
        let s1 = a.signers.push(x);
        assert(s1[a.signers.len() as int] == x);
        assert(is_first_index(s1, x, a.signers.len() as int));
        lemma_first_index_exists(s1, x);
        let k = first_index(s1, x);
        if k < a.signers.len() {
            assert(a.signers[k] == x);
        }
        assert(s1.remove(a.signers.len() as int) =~= a.signers);
    }
}

/// `init` is accepted exactly for a non-empty signer list, a threshold from
/// one to the number of signers and a non-negative high-value limit; it
/// then installs exactly those values with no proposals.
pub proof fn law_init(admin: Seq<char>, signers: Seq<Seq<char>>, threshold: u32, high_value_limit: i128)
    ensures
        (init_result(admin, signers, threshold, high_value_limit) is Ok) <==> (signers.len() > 0
            && 1 <= threshold && threshold <= signers.len() && high_value_limit >= 0),
        match init_result(admin, signers, threshold, high_value_limit) {
            Ok(m1) => m1 is Some && m1.unwrap().admin == admin && m1.unwrap().signers == signers
                && m1.unwrap().threshold == threshold && m1.unwrap().high_value_limit
                == high_value_limit && m1.unwrap().proposals.dom() == Set::<Seq<u8>>::empty(),
            Err(e) => e == ContractError::InvalidInput,
        },
{
    if let Ok(m1) = init_result(admin, signers, threshold, high_value_limit) {
        assert(m1.unwrap().proposals.dom() =~= Set::<Seq<u8>>::empty());
    }
}

/// `propose` is accepted exactly when the authority is initialised, the
/// proposer is a registered signer and the id is not taken, whatever the
/// value; it then files the proposal with the proposer as only signature
/// and changes nothing else.
pub proof fn law_propose(
    m: MultisigModel,
    proposer: Seq<char>,
    id: Seq<u8>,
    description: Seq<u8>,
    target: Seq<char>,
    value: i128,
    ledger_sequence: u32,
)
    ensures
        (propose_result(m, proposer, id, description, target, value, ledger_sequence) is Ok) <==> (
        m is Some && m.unwrap().signers.contains(proposer) && !m.unwrap().proposals.contains_key(id)),
        match propose_result(m, proposer, id, description, target, value, ledger_sequence) {
            Ok(m1) => {
                let a = m.unwrap();
                let b = m1.unwrap();
                &&& m1 is Some
                &&& b.admin == a.admin && b.signers == a.signers && b.threshold == a.threshold
                &&& b.high_value_limit == a.high_value_limit
                &&& b.proposals.dom() == a.proposals.dom().insert(id)
                &&& forall|k: Seq<u8>| #[trigger] a.proposals.contains_key(k) ==> b.proposals[k]
                    == a.proposals[k]
                &&& b.proposals[id].id == id && b.proposals[id].description == description
                &&& b.proposals[id].target == target && b.proposals[id].value == value
                &&& b.proposals[id].signatures == seq![proposer] && !b.proposals[id].executed
                &&& b.proposals[id].created_at == ledger_sequence
            },
            Err(e) => e == ContractError::InvalidInput,
        },
{
    if let Ok(m1) = propose_result(m, proposer, id, description, target, value, ledger_sequence) {
        assert(m1.unwrap().proposals.dom() =~= m.unwrap().proposals.dom().insert(id));
    }
}

/// `sign` is accepted exactly when the authority is initialised, the signer
/// is registered, the proposal exists, is not executed and the signer has
/// not signed it, however many signatures it already holds; it then
/// appends the signer to that proposal's signatures (count one more) and
/// changes nothing else.
pub proof fn law_sign(m: MultisigModel, signer: Seq<char>, id: Seq<u8>)
    requires
        multisig_inv(m),
    ensures
        (sign_result(m, signer, id) is Ok) <==> (m is Some && m.unwrap().signers.contains(signer)
            && m.unwrap().proposals.contains_key(id) && !m.unwrap().proposals[id].executed
            && !m.unwrap().proposals[id].signatures.contains(signer)),
        match sign_result(m, signer, id) {
            Ok(m1) => {
                let a = m.unwrap();
                let b = m1.unwrap();
                let p = a.proposals[id];
                &&& m1 is Some
                &&& b.admin == a.admin && b.signers == a.signers && b.threshold == a.threshold
                &&& b.high_value_limit == a.high_value_limit
                &&& b.proposals.dom() == a.proposals.dom()
                &&& forall|k: Seq<u8>| #[trigger] a.proposals.contains_key(k) && k != id
                    ==> b.proposals[k] == a.proposals[k]
                &&& b.proposals[id].signatures == p.signatures.push(signer)
                &&& b.proposals[id].signatures.len() == p.signatures.len() + 1
                &&& b.proposals[id].id == p.id && b.proposals[id].description == p.description
                &&& b.proposals[id].target == p.target && b.proposals[id].value == p.value
                &&& b.proposals[id].executed == p.executed
                &&& b.proposals[id].created_at == p.created_at
            },
            Err(e) => e == ContractError::InvalidInput,
        },
{
    if let Ok(m1) = sign_result(m, signer, id) {
        assert(m1.unwrap().proposals.dom() =~= m.unwrap().proposals.dom());
    }
}

/// `execute` is accepted exactly when the authority is initialised, the
/// executor is registered, the proposal exists and is not executed, and it
/// holds at least the signatures its value needs: one when the value is at
/// most a positive high-value limit, the full threshold otherwise (so
/// always the full threshold when the limit is 0).  It then marks that
/// proposal executed and changes nothing else.
pub proof fn law_execute(m: MultisigModel, executor: Seq<char>, id: Seq<u8>)
    requires
        multisig_inv(m),
    ensures
        (execute_result(m, executor, id) is Ok) <==> (m is Some && m.unwrap().signers.contains(
            executor,
        ) && m.unwrap().proposals.contains_key(id) && !m.unwrap().proposals[id].executed
            && m.unwrap().proposals[id].signatures.len() >= (if m.unwrap().high_value_limit > 0
            && m.unwrap().proposals[id].value <= m.unwrap().high_value_limit {
            1
        } else {
            m.unwrap().threshold as int
        })),
        match execute_result(m, executor, id) {
            Ok(m1) => {
                let a = m.unwrap();
                let b = m1.unwrap();
                let p = a.proposals[id];
                &&& m1 is Some
                &&& b.admin == a.admin && b.signers == a.signers && b.threshold == a.threshold
                &&& b.high_value_limit == a.high_value_limit
                &&& b.proposals.dom() == a.proposals.dom()
                &&& forall|k: Seq<u8>| #[trigger] a.proposals.contains_key(k) && k != id
                    ==> b.proposals[k] == a.proposals[k]
                &&& b.proposals[id].executed
                &&& b.proposals[id].signatures == p.signatures && b.proposals[id].value == p.value
                &&& b.proposals[id].id == p.id && b.proposals[id].description == p.description
                &&& b.proposals[id].target == p.target
                &&& b.proposals[id].created_at == p.created_at
            },
            Err(e) => e == ContractError::InvalidInput,
        },
{
    if let Ok(m1) = execute_result(m, executor, id) {
        assert(m1.unwrap().proposals.dom() =~= m.unwrap().proposals.dom());
    }
}

/// The required threshold is one exactly when the high-value limit is
/// positive and the value is at most the limit, and the full threshold
/// otherwise; in particular, with limit 0 every value needs the full
/// threshold, and a value above a positive limit needs it too.
pub proof fn law_required_threshold(m: MultisigModel, value: i128)
    ensures
        (required_threshold_result(m, value) is Ok) <==> (m is Some),
        m is Some && m.unwrap().high_value_limit > 0 && value <= m.unwrap().high_value_limit
            ==> required_threshold_result(m, value) == Ok::<u32, ContractError>(1),
        m is Some && (m.unwrap().high_value_limit <= 0 || value > m.unwrap().high_value_limit)
            ==> required_threshold_result(m, value) == Ok::<u32, ContractError>(
            m.unwrap().threshold,
        ),
        forall|t: u32, v: i128| threshold_for(t, 0, v) == t,
        forall|t: u32, l: i128, v: i128| l > 0 && v <= l ==> threshold_for(t, l, v) == 1,
        forall|t: u32, l: i128, v: i128| v > l ==> threshold_for(t, l, v) == t,
{
}

/// `add_signer` is accepted exactly when the authority is initialised, the
/// caller is the stored admin and the new address is not a registered
/// signer (whatever else it is, the admin included); it then appends the
/// address to the signers and changes nothing else.
pub proof fn law_add_signer(m: MultisigModel, admin: Seq<char>, new_signer: Seq<char>)
    ensures
        (add_signer_result(m, admin, new_signer) is Ok) <==> (m is Some && m.unwrap().admin == admin
            && !m.unwrap().signers.contains(new_signer)),
        match add_signer_result(m, admin, new_signer) {
            Ok(m1) => m1 == Some(
                AuthorityModel { signers: m.unwrap().signers.push(new_signer), ..m.unwrap() },
            ),
            Err(e) => e == ContractError::InvalidInput,
        },
{
}

/// `remove_signer` is accepted exactly when the authority is initialised,
/// the caller is the stored admin, at least the threshold of signers would
/// remain, and the address is registered; it then removes the first
/// registration of the address (one fewer signer) and changes nothing else.
pub proof fn law_remove_signer(m: MultisigModel, admin: Seq<char>, signer: Seq<char>)
    ensures
        (remove_signer_result(m, admin, signer) is Ok) <==> (m is Some && m.unwrap().admin == admin
            && m.unwrap().signers.len() - 1 >= m.unwrap().threshold && m.unwrap().signers.contains(
            signer,
        )),
        match remove_signer_result(m, admin, signer) {
            Ok(m1) => {
                let a = m.unwrap();
                let b = m1.unwrap();
                let i = first_index(a.signers, signer);
                &&& m1 is Some
                &&& 0 <= i < a.signers.len() && a.signers[i] == signer
                &&& forall|j: int| 0 <= j < i ==> a.signers[j] != signer
                &&& b.signers.len() == a.signers.len() - 1
                &&& b.signers == a.signers.subrange(0, i) + a.signers.subrange(i + 1, a.signers.len() as int)
                &&& b.admin == a.admin && b.threshold == a.threshold
                &&& b.high_value_limit == a.high_value_limit && b.proposals == a.proposals
            },
            Err(e) => e == ContractError::InvalidInput,
        },
{
    if let Ok(m1) = remove_signer_result(m, admin, signer) {
        let a = m.unwrap();
        lemma_first_index_exists(a.signers, signer);
        let i = first_index(a.signers, signer);
        assert(a.signers.remove(i) =~= a.signers.subrange(0, i) + a.signers.subrange(i + 1, a.signers.len() as int));
    }
}

/// `set_threshold` is accepted exactly when the authority is initialised,
/// the caller is the stored admin and the new threshold is from one to the
/// number of signers; it then sets the threshold and changes nothing else.
pub proof fn law_set_threshold(m: MultisigModel, admin: Seq<char>, threshold: u32)
    ensures
        (set_threshold_result(m, admin, threshold) is Ok) <==> (m is Some && m.unwrap().admin
            == admin && 1 <= threshold && threshold <= m.unwrap().signers.len()),
        match set_threshold_result(m, admin, threshold) {
            Ok(m1) => m1 == Some(AuthorityModel { threshold, ..m.unwrap() }),
            Err(e) => e == ContractError::InvalidInput,
        },
{
}

/// `proposal_status` answers for every filed proposal of an initialised
/// authority: its number of signatures, the threshold its value needs, and
/// whether it is unexecuted with at least that many signatures.
pub proof fn law_proposal_status(m: MultisigModel, id: Seq<u8>)
    requires
        multisig_within_limits(m),
    ensures
        (proposal_status_result(m, id) is Ok) <==> (m is Some && m.unwrap().proposals.contains_key(
            id,
        )),
        match proposal_status_result(m, id) {
            Ok(st) => {
                let a = m.unwrap();
                let p = a.proposals[id];
                let t: int = if a.high_value_limit > 0 && p.value <= a.high_value_limit {
                    1
                } else {
                    a.threshold as int
                };
                &&& st.0 == p.signatures.len()
                &&& st.1 == t
                &&& st.2 == (p.signatures.len() >= t && !p.executed)
            },
            Err(e) => e == ContractError::InvalidInput,
        },
{
}

} // verus!
