//! Error kinds.
use vstd::prelude::*;

verus! {

/// Why a checked arithmetic operation failed.
#[derive(Clone, Copy, Debug, PartialEq, Eq, Structural)]
pub enum ArithmeticFailure {
    /// The result is too large for the number format.
    Overflow,
    /// The result would be negative.
    Underflow,
    /// The divisor is zero.
    DivisionByZero,
}

/// Why an instruction on a bonding pool was refused. A refused instruction
/// changes nothing.
#[derive(Clone, Copy, Debug, PartialEq, Eq, Structural)]
pub enum BondingError {
    /// An amount or price could not be computed within the number formats.
    ArithmeticError,
    /// A buy would cost more, or a sell would return less, than the caller allowed.
    SlippageExceeded,
    /// The reserve held beyond the curve's backing does not cover the request.
    InsufficientReserve,
    /// More target units were offered for sale than are outstanding.
    InsufficientSupply,
    /// A buy would take the supply past the pool's mint cap.
    MintCapExceeded,
    /// The signer is not the authority the instruction requires.
    Unauthorized,
    /// A new curve would move the spot price at the current supply.
    InvalidCurveContinuity,
    /// The pool still has outstanding supply.
    NotEmpty,
    /// Buying, or selling, is frozen on the pool.
    PoolFrozen,
    /// The pool does not accept buys before its go-live time.
    NotLive,
    /// The pool has been closed.
    PoolClosed,
    /// No curve has the given id.
    CurveNotFound,
    /// No pool has the given id.
    PoolNotFound,
    /// The curve definition is not well-formed.
    InvalidCurve,
    /// A founder reward above 100% was asked for.
    InvalidReward,
}

/// Errors of the identity and minting instructions of the platform.
#[derive(Clone, Copy, Debug, PartialEq, Eq, Structural)]
pub enum MyError {
    FirstError,
    AlreadySet,
    OnlyOwnerCanCall,
    UnknownNft,
    InvalidNftHolder,
    GenesisNftAlreadyMinted,
    ActivationTokenNotFound,
    ActivationTokenAlreadyInitialize,
    OnlyProfileHolderAllow,
    NotEnoughTokenToMint,
}

impl MyError {
    /// The numeric code reported to clients: custom program errors are
    /// numbered from 6000 in declaration order.
    pub fn code(&self) -> (r: u32)
        ensures
            r == 6000 + self.index(),
    {
        match self {
            MyError::FirstError => 6000,
            MyError::AlreadySet => 6001,
            MyError::OnlyOwnerCanCall => 6002,
            MyError::UnknownNft => 6003,
            MyError::InvalidNftHolder => 6004,
            MyError::GenesisNftAlreadyMinted => 6005,
            MyError::ActivationTokenNotFound => 6006,
            MyError::ActivationTokenAlreadyInitialize => 6007,
            MyError::OnlyProfileHolderAllow => 6008,
            MyError::NotEnoughTokenToMint => 6009,
        }
    }

    /// Position of the variant in the declaration.
    pub open spec fn index(self) -> nat {
        match self {
            MyError::FirstError => 0,
            MyError::AlreadySet => 1,
            MyError::OnlyOwnerCanCall => 2,
            MyError::UnknownNft => 3,
            MyError::InvalidNftHolder => 4,
            MyError::GenesisNftAlreadyMinted => 5,
            MyError::ActivationTokenNotFound => 6,
            MyError::ActivationTokenAlreadyInitialize => 7,
            MyError::OnlyProfileHolderAllow => 8,
            MyError::NotEnoughTokenToMint => 9,
        }
    }
}

} // verus!
