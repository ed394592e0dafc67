use vstd::prelude::*;

verus! {

/// Why an operation on a trade proposal was refused.
///
/// Every operation either applies all of its effects or none and reports one
/// of these reasons; a host environment that drives the engine aborts the
/// whole enclosing transaction on any of them.
#[derive(Clone, Copy, Debug, PartialEq, Eq, Structural)]
pub enum TradeError {
    /// Proposal creation with nothing offered or nothing requested.
    EmptyOfferOrRequest,
    /// Proposal creation with more discrete assets than one settlement may move.
    BatchLimitExceeded,
    /// A private proposal was addressed without presenting a credential.
    CredentialRequired,
    /// A presented credential does not carry the recorded counterparty identity.
    InvalidCredential,
    /// A deposited batch does not satisfy the recorded expectation.
    DepositMismatch,
    /// The proposal is already settled or cancelled: no further deposit or cancel.
    AlreadySettled,
    /// The creator's claim of the deposited assets before settlement.
    NotYetSettled,
    /// The settlement claim before every required deposit was validated.
    InsufficientDeposit,
}

} // verus!
