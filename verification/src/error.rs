//! The ways in which a ledger call can fail.

use vstd::prelude::*;

verus! {

/// Why a call was refused. A refused call leaves the ledger as it was.
#[derive(Clone, Copy, Debug, PartialEq, Eq, Structural)]
pub enum ContractError {
    /// The caller lacks the privilege that the call needs.
    Unauthorized,
    /// A user or administrator reference is not a well-formed identity.
    InvalidIdentity,
    /// The amount is zero.
    InvalidAmount,
    /// No account is recorded for the user.
    NotFound,
    /// The amount to settle is larger than the accrued balance.
    InsufficientFunds,
    /// A balance would have grown past what its representation holds.
    ArithmeticOverflow,
    /// A balance would have dropped below zero.
    ArithmeticUnderflow,
    /// The settlement payload could not be encoded.
    PayloadSerialisation,
}

impl ContractError {
    /// The text that `message` returns for each error.
    pub open spec fn message_text(self) -> Seq<char> {
        match self {
            ContractError::Unauthorized => "unauthorised"@,
            ContractError::InvalidIdentity => "invalid identity"@,
            ContractError::InvalidAmount => "amount must be greater than zero"@,
            ContractError::NotFound => "royalty account not found"@,
            ContractError::InsufficientFunds => "insufficient accrued royalty to burn"@,
            ContractError::ArithmeticOverflow => "arithmetic overflow"@,
            ContractError::ArithmeticUnderflow => "arithmetic underflow"@,
            ContractError::PayloadSerialisation => "payload serialisation error"@,
        }
    }

    /// A short description of the error, for display.
    pub fn message(&self) -> (text: String)
        ensures
            text@ == self.message_text(),
    {
        let text: &str = match self {
            ContractError::Unauthorized => "unauthorised",
            ContractError::InvalidIdentity => "invalid identity",
            ContractError::InvalidAmount => "amount must be greater than zero",
            ContractError::NotFound => "royalty account not found",
            ContractError::InsufficientFunds => "insufficient accrued royalty to burn",
            ContractError::ArithmeticOverflow => "arithmetic overflow",
            ContractError::ArithmeticUnderflow => "arithmetic underflow",
            ContractError::PayloadSerialisation => "payload serialisation error",
        };
        text.to_owned()
    }
}

} // verus!
