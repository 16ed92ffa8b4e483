//! Allocation-and-payment engine for a tiered collectible minter, and the
//! identifier issuer that names each brand's asset class.
use vstd::prelude::*;

pub mod error;
pub mod identifier;
pub mod laws;
pub mod minter;
pub mod pool;

pub use error::MintError;
pub use identifier::{PayableFeatures, TokenIssuer};
pub use minter::{MinterState, NftMintingModule};
