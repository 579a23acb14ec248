use vstd::prelude::*;

verus! {

/// The deterministic lookup key (address) of an offer and of its vault.
///
/// Addresses are derived from the maker's identity and the maker-chosen
/// escrow identifier rather than allocated at random, so lookup,
/// existence-check and per-maker collision-avoidance all come for free:
/// two distinct pairs can never derive the same address.
#[derive(Clone, Copy, Debug, PartialEq, Eq, Structural)]
pub struct OfferHandle {
    /// Identity of the party who created the offer.
    pub maker: u64,
    /// The maker-chosen identifier disambiguating their offers.
    pub escrow_id: u64,
}

/// The controlling authority of a holding account.
///
/// A vault is owned by the program authority — a capability only the core's
/// own operations can exercise — never by a user key, so neither maker nor
/// taker can withdraw custodied funds outside the two defined operations.
#[derive(Clone, Copy, Debug, PartialEq, Eq, Structural)]
pub enum Authority {
    /// The logic-controlled authority under which every vault is created.
    Program,
    /// A key-controlled authority held by the named party.
    User(u64),
}

/// The offer record: the sole persistent entity of the escrow core.
///
/// All fields are immutable once written. The amount offered is *not*
/// stored here: the vault's balance is the only source of truth for it,
/// which rules out desync between record and custody.
#[derive(Clone, Copy, Debug, PartialEq, Eq, Structural)]
pub struct Offer {
    /// The maker-chosen 64-bit identifier; with `maker` it forms the address.
    pub escrow_id: u64,
    /// Identity of the party who created the offer.
    pub maker: u64,
    /// Identifier of the offered asset (held in the vault).
    pub asset_a_id: u64,
    /// Identifier of the wanted asset (paid by the taker to the maker).
    pub asset_b_id: u64,
    /// Quantity of the wanted asset the maker requires; always positive.
    pub wanted_amount: u64,
}

/// The address-derivation rule: the record (and its vault) of an offer
/// lives at the address formed from the maker and the escrow identifier.
/// Distinct seed pairs give distinct addresses, so a collision per maker
/// is impossible to construct twice.
pub fn derive_offer_address(maker: u64, escrow_id: u64) -> (h: OfferHandle)
    ensures
        h == (OfferHandle { maker, escrow_id }),
{
    OfferHandle { maker, escrow_id }
}

} // verus!
