//! Reasons a minter operation is refused.
use vstd::prelude::*;

verus! {

/// Every failure leaves the minter's state as it was before the call.
#[derive(Clone, Copy, Debug, PartialEq, Eq, Structural)]
pub enum MintError {
    UnknownBrand,
    UnknownTier,
    BatchLimitExceeded,
    InvalidPayment,
    NotYetOpen,
    Closed,
    Exhausted,
    NotEnoughAvailable,
    InvalidIdentifier,
    Unauthorized,
    BrandAlreadyExists,
    TierAlreadyExists,
    InvalidMintPeriod,
}

} // verus!
