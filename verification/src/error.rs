use vstd::prelude::*;

verus! {

/// The typed failures of the ledger engine.
///
/// Every mutating operation that can fail returns one of these, and a
/// failing operation leaves the ledger state unchanged: callers see
/// all-or-nothing behaviour without any compensating rollback logic.
#[derive(Clone, Copy, Debug, PartialEq, Eq, Structural)]
pub enum ContractError {
    /// The caller lacks the required grant or ownership.
    Unauthorized,
    /// The sending party is empty or disallowed.
    InvalidSender,
    /// The receiving party is empty or disallowed.
    InvalidRecipient,
    /// A debit exceeds the current balance.
    InsufficientBalance,
    /// A fractional spend exceeds the remaining allowance.
    InsufficientAllowance,
    /// A credit, supply computation or counter step would overflow.
    ArithmeticOverflow,
    /// A freshly allocated token id is already owned (defensive check).
    AlreadyExists,
    /// A burn was attempted on a token whose lock flag is set.
    LockedToken,
}

} // verus!
