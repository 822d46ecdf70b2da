//! The ways an operation of the wallet core can fail.

use vstd::prelude::*;

verus! {

/// Why an operation did not go through.
#[derive(Debug, Clone, Copy, PartialEq, Eq, Structural)]
pub enum Error {
    /// The operation needs a selected wallet and there is none.
    NoActiveWallet,
    /// An identity or token holder that had to be present is not known.
    CoinStateNotFound,
    /// Key material for deriving a puzzle hash is missing.
    KeyDerivationError,
    /// An update would clear a height or put a spend before a creation.
    InvalidHeightTransition,
    /// The peer is not, or no longer, in the active set.
    PeerUnavailable,
    /// The peer did not answer in time.
    Timeout,
    /// A hash could not be written as an address under the given prefix.
    AddressEncoding,
    /// No wallet is configured under the given fingerprint.
    UnknownFingerprint,
}

} // verus!
