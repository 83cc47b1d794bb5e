//! Why a validation fails.
use vstd::prelude::*;

verus! {

/// The reasons a validation is rejected.
#[derive(Debug, Clone, Copy, PartialEq, Eq, Structural)]
pub enum Error {
    /// Too few arguments, or a fixed-width argument of the wrong length.
    InvalidArgument,
    /// The action is not one this script performs.
    ActionNotSupported,
    /// No witness carries the configuration tag.
    CanNotFindWitness,
    /// The configuration witness does not hash to the commitment.
    WitnessHashMismatch,
    /// The configuration witness is not a fee table.
    WitnessDecodingError,
    /// The fee table is empty or its lengths do not increase.
    ConfigValueError,
    /// A sub-account record does not decode, or its account is not text.
    InvalidSubAccountData,
    /// The declared profit does not cover the total price.
    InvalidProfit {
        /// The total price (`u128::MAX` when it is larger).
        total: u128,
        /// The declared owner profit plus the declared system profit.
        available: u128,
    },
    /// A fatal error of the witness source, with its code.
    Source(u64),
}

/// The exit status reported for an error: a forwarded source error keeps
/// its code when it is from 1 to 9 (9 otherwise); the others take 10 to 17
/// in the order they are declared.
pub open spec fn error_code(e: Error) -> i8 {
    match e {
        Error::InvalidArgument => 10,
        Error::ActionNotSupported => 11,
        Error::CanNotFindWitness => 12,
        Error::WitnessHashMismatch => 13,
        Error::WitnessDecodingError => 14,
        Error::ConfigValueError => 15,
        Error::InvalidSubAccountData => 16,
        Error::InvalidProfit { .. } => 17,
        Error::Source(c) => if 0 < c && c < 10 {
            c as i8
        } else {
            9
        },
    }
}

impl Error {
    /// The exit status reported for this error.
    pub fn code(&self) -> (r: i8)
        ensures
            r == error_code(*self),
            r > 0,
    {
        match self {
            Error::InvalidArgument => 10,
            Error::ActionNotSupported => 11,
            Error::CanNotFindWitness => 12,
            Error::WitnessHashMismatch => 13,
            Error::WitnessDecodingError => 14,
            Error::ConfigValueError => 15,
            Error::InvalidSubAccountData => 16,
            Error::InvalidProfit { .. } => 17,
            Error::Source(c) => if 0 < *c && *c < 10 {
                *c as i8
            } else {
                9
            },
        }
    }
}

} // verus!
