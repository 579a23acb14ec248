use vstd::prelude::*;

verus! {

/// The error taxonomy of the escrow core.
///
/// Every precondition violation aborts the whole operation with no partial
/// effect, surfacing one of these kinds so that a caller can branch (for
/// example, distinguish "already taken" from "insufficient balance").
#[derive(Clone, Copy, Debug, PartialEq, Eq, Structural)]
pub enum EscrowError {
    /// A zero quantity was supplied where a positive one is required.
    InvalidAmount,
    /// A source balance is too low for a requested transfer.
    InsufficientFunds,
    /// An offer already stands at the address derived from the maker and
    /// the chosen escrow identifier.
    OfferAlreadyExists,
    /// Fulfillment was attempted against a missing or already-closed offer.
    OfferNotFound,
    /// Release of held assets was attempted against a holding account that
    /// is not under program authority: corrupted state, fatal, not retried.
    Unauthorized,
}

} // verus!
