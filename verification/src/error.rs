use vstd::prelude::*;

verus! {

/// Why a contract call was refused.  Every refusal of these contracts is an
/// invalid-input error; the host reports it as such to the caller.
#[derive(Debug, Clone, Copy, PartialEq, Eq, Structural)]
pub enum ContractError {
    InvalidInput,
}

} // verus!
