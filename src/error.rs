use vstd::prelude::*;

verus! {

/// Why an operation of the engine was refused.
#[derive(Clone, Copy, Debug, PartialEq, Eq, Structural)]
pub enum LockupError {
    InvalidToken,
    Unauthorized,
    InvalidSchedule,
    InvalidTotal,
    IncompatibleVesting,
    InvalidRevealedSchedule,
    NoTerminationConfig,
    NotWhitelisted,
    NotEnoughShares,
    NotEnoughGas,
    Paused,
    Overcommit,
    LockupNotFound,
    InvalidTokenId,
    TokenNotInPool,
    WhitelistNotEmpty,
    LastWhitelistEntry,
    InvalidClaimedBalance,
    BalanceOverflow,
}

impl LockupError {
    /// A sentence that describes the error.
    pub fn message(&self) -> &'static str {
        match self {
            LockupError::InvalidToken => "Invalid token ID",
            LockupError::Unauthorized => "Unauthorized",
            LockupError::InvalidSchedule => "The schedule is not valid",
            LockupError::InvalidTotal => "The schedule's total balance doesn't match the transferred balance",
            LockupError::IncompatibleVesting => "The lockup schedule is ahead of the termination schedule",
            LockupError::InvalidRevealedSchedule => "The revealed schedule hash doesn't match",
            LockupError::NoTerminationConfig => "No termination config",
            LockupError::NotWhitelisted => "Contract or token not whitelisted",
            LockupError::NotEnoughShares => "Not enough shares",
            LockupError::NotEnoughGas => "Not enough gas",
            LockupError::Paused => "Contract paused",
            LockupError::Overcommit => "Incent total amount is too low",
            LockupError::LockupNotFound => "Lockup not found",
            LockupError::InvalidTokenId => "Illegal pool id",
            LockupError::TokenNotInPool => "The escrowed token is not in the pool",
            LockupError::WhitelistNotEmpty => "Can't delete non zero shares",
            LockupError::LastWhitelistEntry => "Can't remove the last account of the deposit whitelist",
            LockupError::InvalidClaimedBalance => "The initial lockup claimed balance should be 0",
            LockupError::BalanceOverflow => "Balance overflow",
        }
    }
}

} // verus!
