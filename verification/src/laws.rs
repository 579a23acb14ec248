use vstd::prelude::*;

use crate::error::EscrowError;
use crate::ledger::Ledger;
use crate::ledger::OfferEntry;
use crate::ledger::make_offer_enabled;
use crate::ledger::make_offer_err;
use crate::ledger::make_offer_ok;
use crate::ledger::take_enabled;
use crate::ledger::take_err;
use crate::ledger::take_ok;
use crate::state::Authority;
use crate::state::Offer;
use crate::state::OfferHandle;

verus! {

/// Conservation: a successful creation followed by a successful
/// fulfillment of the same handle moves exactly `offered_amount` of
/// asset A to the taker and exactly `wanted_amount` of asset B to the
/// maker — measured against the ledger before the offer was made — and
/// afterwards neither the record nor the holding account exists.
///
/// Stated for distinct parties and distinct assets; a maker taking their
/// own offer, or a swap of an asset for itself, pays with one hand into
/// the other and the two deltas cancel instead.
pub proof fn lemma_conservation(
    l0: Ledger,
    l1: Ledger,
    l2: Ledger,
    maker: u64,
    escrow_id: u64,
    asset_a_id: u64,
    offered_amount: u64,
    asset_b_id: u64,
    wanted_amount: u64,
    taker: u64,
)
    requires
        make_offer_ok(l0, l1, maker, escrow_id, asset_a_id, offered_amount, asset_b_id, wanted_amount),
        take_ok(l1, l2, taker, OfferHandle { maker, escrow_id }),
        taker != maker,
        asset_a_id != asset_b_id,
    ensures
        l2.balance_of(taker, asset_a_id) == l0.balance_of(taker, asset_a_id) + offered_amount,
        l2.balance_of(maker, asset_b_id) == l0.balance_of(maker, asset_b_id) + wanted_amount,
        l2.balance_of(taker, asset_b_id) == l0.balance_of(taker, asset_b_id) - wanted_amount,
        l2.balance_of(maker, asset_a_id) == l0.balance_of(maker, asset_a_id) - offered_amount,
        !l2.has_offer(maker, escrow_id),
{
    let e = l1.offer_entry(maker, escrow_id);
    assert(e == (OfferEntry {
        offer: Offer { escrow_id, maker, asset_a_id, asset_b_id, wanted_amount },
        vault_amount: offered_amount,
        vault_authority: Authority::Program,
    }));
    assert(l1.balance_of(taker, asset_a_id) == l0.balance_of(taker, asset_a_id));
    assert(l1.balance_of(maker, asset_b_id) == l0.balance_of(maker, asset_b_id));
    assert(l1.balance_of(taker, asset_b_id) == l0.balance_of(taker, asset_b_id));
    assert(l2.balance_of(taker, asset_a_id) == l1.balance_of(taker, asset_a_id)
        + offered_amount);
    assert(l2.balance_of(maker, asset_b_id) == l1.balance_of(maker, asset_b_id)
        + wanted_amount);
    assert(l2.balance_of(taker, asset_b_id) == l1.balance_of(taker, asset_b_id)
        - wanted_amount);
    assert(l2.balance_of(maker, asset_a_id) == l1.balance_of(maker, asset_a_id));
}

/// No double-take: a successful fulfillment removes the record at the
/// handle's address, so fulfillment of the same handle is no longer
/// enabled for any taker, and by `take_offer`'s contract every further
/// attempt on the resulting ledger reports `OfferNotFound` and changes
/// nothing. (Only a fresh `make_offer` by the same maker reusing the
/// identifier can ever occupy that address again.)
pub proof fn lemma_no_double_take(
    l1: Ledger,
    l2: Ledger,
    taker: u64,
    handle: OfferHandle,
    other_taker: u64,
)
    requires
        take_ok(l1, l2, taker, handle),
    ensures
        !l2.has_offer(handle.maker, handle.escrow_id),
        !take_enabled(l2, other_taker, handle),
        take_err(l2, other_taker, handle) == EscrowError::OfferNotFound,
{
}

/// Identifier collision: while an offer stands at (maker, escrow_id), a
/// second creation with the same pair is not enabled; with positive
/// amounts it reports `OfferAlreadyExists` — and by `make_offer`'s
/// contract an unsuccessful creation leaves the ledger, the standing
/// offer included, untouched.
pub proof fn lemma_identifier_collision(
    l0: Ledger,
    l1: Ledger,
    maker: u64,
    escrow_id: u64,
    asset_a_id: u64,
    offered_amount: u64,
    asset_b_id: u64,
    wanted_amount: u64,
    asset_a2: u64,
    offered2: u64,
    wanted2: u64,
)
    requires
        make_offer_ok(l0, l1, maker, escrow_id, asset_a_id, offered_amount, asset_b_id, wanted_amount),
        offered2 > 0,
        wanted2 > 0,
    ensures
        !make_offer_enabled(l1, maker, escrow_id, asset_a2, offered2, wanted2),
        make_offer_err(l1, maker, escrow_id, offered2, wanted2)
            == EscrowError::OfferAlreadyExists,
        l1.offer_entry(maker, escrow_id).offer == (Offer {
            escrow_id,
            maker,
            asset_a_id,
            asset_b_id,
            wanted_amount,
        }),
        l1.offer_entry(maker, escrow_id).vault_amount == offered_amount,
{
}

/// An open offer is untouched by operations on other addresses: creation
/// under a different (maker, identifier) pair and fulfillment of a
/// different handle leave its record and vault exactly as they were.
/// This is what lets conservation span intervening, unrelated traffic:
/// the offer a taker eventually fulfills is the offer the maker made.
pub proof fn lemma_open_offer_untouched(
    pre: Ledger,
    post: Ledger,
    h: OfferHandle,
    maker2: u64,
    escrow_id2: u64,
    asset_a2: u64,
    offered2: u64,
    asset_b2: u64,
    wanted2: u64,
    taker2: u64,
)
    requires
        pre.has_offer(h.maker, h.escrow_id),
        !(maker2 == h.maker && escrow_id2 == h.escrow_id),
        make_offer_ok(pre, post, maker2, escrow_id2, asset_a2, offered2, asset_b2, wanted2)
            || take_ok(pre, post, taker2, OfferHandle { maker: maker2, escrow_id: escrow_id2 }),
    ensures
        post.has_offer(h.maker, h.escrow_id),
        post.offer_entry(h.maker, h.escrow_id) == pre.offer_entry(h.maker, h.escrow_id),
{
}

/// A handle with no record stays dead under operations on other
/// addresses: only a fresh creation by the same maker reusing the same
/// identifier can ever occupy it again. Together with
/// `lemma_no_double_take` this extends the double-take guard to every
/// later state: however much unrelated traffic follows a successful
/// fulfillment, a take of the spent handle keeps failing with
/// `OfferNotFound`.
pub proof fn lemma_dead_handle_stays_dead(
    pre: Ledger,
    post: Ledger,
    h: OfferHandle,
    maker2: u64,
    escrow_id2: u64,
    asset_a2: u64,
    offered2: u64,
    asset_b2: u64,
    wanted2: u64,
    taker2: u64,
)
    requires
        !pre.has_offer(h.maker, h.escrow_id),
        !(maker2 == h.maker && escrow_id2 == h.escrow_id),
        make_offer_ok(pre, post, maker2, escrow_id2, asset_a2, offered2, asset_b2, wanted2)
            || take_ok(pre, post, taker2, OfferHandle { maker: maker2, escrow_id: escrow_id2 }),
    ensures
        !post.has_offer(h.maker, h.escrow_id),
        take_err(post, taker2, h) == EscrowError::OfferNotFound,
{
}

} // verus!
