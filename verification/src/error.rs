//! The ways in which a contest operation can be turned down.

use vstd::prelude::*;

verus! {

/// Why an operation was rejected. Every rejection leaves the contest untouched.
#[derive(Clone, Copy, Debug, PartialEq, Eq, Structural)]
pub enum ContestError {
    /// The contest is not open: never initialised, or already closed.
    ContestNotActive,
    /// The caller did not prove that it acts for the identity it named.
    Unauthorized,
    /// The payment is below the entry fee.
    InsufficientPayment,
    /// The identity has already paid its entry.
    AlreadyRegistered,
    /// The identity has not paid an entry.
    NotRegistered,
}

impl ContestError {
    /// The refusal in words.
    pub fn message(&self) -> (text: String)
        ensures
            text@ == match *self {
                ContestError::ContestNotActive => "Quiz is not active"@,
                ContestError::Unauthorized => "Caller is not authorized"@,
                ContestError::InsufficientPayment => "Insufficient entry fee"@,
                ContestError::AlreadyRegistered => "Participant already registered"@,
                ContestError::NotRegistered => "Participant not registered"@,
            },
    {
        match self {
            ContestError::ContestNotActive => "Quiz is not active".to_owned(),
            ContestError::Unauthorized => "Caller is not authorized".to_owned(),
            ContestError::InsufficientPayment => "Insufficient entry fee".to_owned(),
            ContestError::AlreadyRegistered => "Participant already registered".to_owned(),
            ContestError::NotRegistered => "Participant not registered".to_owned(),
        }
    }
}

} // verus!
