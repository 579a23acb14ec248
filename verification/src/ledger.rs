use vstd::prelude::*;

use crate::error::EscrowError;
use crate::state::Authority;
use crate::state::Offer;
use crate::state::OfferHandle;

verus! {

/// One fungible-balance account: `owner` holds `amount` units of `asset`.
#[derive(Clone, Copy, Debug, PartialEq, Eq, Structural)]
pub struct Balance {
    pub owner: u64,
    pub asset: u64,
    pub amount: u64,
}

/// A live offer: the persistent record together with its holding account.
///
/// Record and vault are created in one atomic step and destroyed in one
/// atomic step, so an entry exists exactly while the offer is open.
#[derive(Clone, Copy, Debug, PartialEq, Eq, Structural)]
pub struct OfferEntry {
    /// The offer record.
    pub offer: Offer,
    /// The vault's balance of the offered asset: the only source of truth
    /// for the amount offered. Always positive while the offer is open.
    pub vault_amount: u64,
    /// The vault's controlling authority; creation always sets
    /// `Authority::Program`, and fulfillment refuses anything else.
    pub vault_authority: Authority,
}

/// Whether two balance accounts have the same key (owner and asset).
pub open spec fn same_bal_key(x: Balance, y: Balance) -> bool {
    x.owner == y.owner && x.asset == y.asset
}

/// Whether two offer entries derive the same address (maker and identifier).
pub open spec fn same_offer_key(x: OfferEntry, y: OfferEntry) -> bool {
    x.offer.maker == y.offer.maker && x.offer.escrow_id == y.offer.escrow_id
}

/// No two balance accounts share a key: each (owner, asset) pair has at
/// most one row, so a lookup's first match is its only match.
pub open spec fn bal_keys_unique(s: Seq<Balance>) -> bool {
    forall|i: int, j: int|
        0 <= i < s.len() && 0 <= j < s.len() && i != j ==> !#[trigger] same_bal_key(s[i], s[j])
}

/// No two offers derive the same address.
pub open spec fn offer_keys_unique(s: Seq<OfferEntry>) -> bool {
    forall|i: int, j: int|
        0 <= i < s.len() && 0 <= j < s.len() && i != j ==> !#[trigger] same_offer_key(s[i], s[j])
}

/// Whether a balance account with the given key exists.
pub open spec fn has_bal(s: Seq<Balance>, owner: u64, asset: u64) -> bool {
    exists|i: int| 0 <= i < s.len() && #[trigger] s[i].owner == owner && s[i].asset == asset
}

/// The index of the balance account with the given key (meaningful only
/// when `has_bal` holds and keys are unique).
pub open spec fn bal_idx(s: Seq<Balance>, owner: u64, asset: u64) -> int {
    choose|i: int| 0 <= i < s.len() && #[trigger] s[i].owner == owner && s[i].asset == asset
}

/// The balance held under the given key; an absent account holds zero.
pub open spec fn balance_in(s: Seq<Balance>, owner: u64, asset: u64) -> u64 {
    if has_bal(s, owner, asset) {
        s[bal_idx(s, owner, asset)].amount
    } else {
        0u64
    }
}

/// Whether an offer stands at the address derived from the pair.
pub open spec fn has_offer_in(s: Seq<OfferEntry>, maker: u64, escrow_id: u64) -> bool {
    exists|i: int|
        0 <= i < s.len() && #[trigger] s[i].offer.maker == maker && s[i].offer.escrow_id
            == escrow_id
}

/// The index of the offer at the derived address (meaningful only when
/// `has_offer_in` holds and keys are unique).
pub open spec fn offer_idx(s: Seq<OfferEntry>, maker: u64, escrow_id: u64) -> int {
    choose|i: int|
        0 <= i < s.len() && #[trigger] s[i].offer.maker == maker && s[i].offer.escrow_id
            == escrow_id
}

/// The offer entry at the derived address (meaningful only when
/// `has_offer_in` holds and keys are unique).
pub open spec fn offer_in(s: Seq<OfferEntry>, maker: u64, escrow_id: u64) -> OfferEntry {
    s[offer_idx(s, maker, escrow_id)]
}

/// The ledger: every fungible balance and every open offer.
///
/// This is the storage substrate the escrow core runs on — balances keyed
/// by (owner, asset) and offer records keyed by their derived address —
/// made explicit so that creation and fulfillment are single, verified,
/// all-or-nothing steps on it.
#[derive(Clone, Debug, PartialEq, Eq)]
pub struct Ledger {
    pub balances: Vec<Balance>,
    pub offers: Vec<OfferEntry>,
}

impl Ledger {
    /// The balance `owner` holds of `asset`; zero if no account exists.
    pub open spec fn balance_of(self, owner: u64, asset: u64) -> u64 {
        balance_in(self.balances@, owner, asset)
    }

    /// Whether an offer stands at the address derived from the pair.
    pub open spec fn has_offer(self, maker: u64, escrow_id: u64) -> bool {
        has_offer_in(self.offers@, maker, escrow_id)
    }

    /// The offer entry at the derived address.
    pub open spec fn offer_entry(self, maker: u64, escrow_id: u64) -> OfferEntry {
        offer_in(self.offers@, maker, escrow_id)
    }

    /// All of `asset` in existence on this ledger: what parties hold plus
    /// what vaults custody. Creation and fulfillment preserve it exactly
    /// — the escrow core neither mints nor burns — and only `fund` (the
    /// external collaborator's endowment) raises it.
    pub open spec fn supply(self, asset: u64) -> int {
        asset_total(self.balances@, asset) + vault_total(self.offers@, asset)
    }

    /// Well-formedness: keys are unique on both tables, every open offer
    /// wants a positive amount, and its vault holds a positive balance —
    /// the amount originally offered, which creation requires positive.
    pub open spec fn wf(self) -> bool {
        &&& bal_keys_unique(self.balances@)
        &&& offer_keys_unique(self.offers@)
        &&& forall|i: int|
            0 <= i < self.offers@.len() ==> (#[trigger] self.offers@[i]).vault_amount > 0
                && self.offers@[i].offer.wanted_amount > 0
    }
}

/// The total of `asset` held across all balance accounts.
pub open spec fn asset_total(s: Seq<Balance>, asset: u64) -> int
    decreases s.len(),
{
    if s.len() == 0 {
        0
    } else {
        (if s[0].asset == asset {
            s[0].amount as int
        } else {
            0
        }) + asset_total(s.drop_first(), asset)
    }
}

/// The total of `asset` held in custody across all vaults.
pub open spec fn vault_total(s: Seq<OfferEntry>, asset: u64) -> int
    decreases s.len(),
{
    if s.len() == 0 {
        0
    } else {
        (if s[0].offer.asset_a_id == asset {
            s[0].vault_amount as int
        } else {
            0
        }) + vault_total(s.drop_first(), asset)
    }
}

/// Overwriting one balance row changes an asset's total by exactly the
/// row's change of contribution.
pub proof fn lemma_total_update(s: Seq<Balance>, i: int, b: Balance, x: u64)
    requires
        0 <= i < s.len(),
    ensures
        asset_total(s.update(i, b), x) == asset_total(s, x) - (if s[i].asset == x {
            s[i].amount as int
        } else {
            0
        }) + (if b.asset == x {
            b.amount as int
        } else {
            0
        }),
    decreases s.len(),
{
    let t = s.update(i, b);
    if i == 0 {
        assert(t.drop_first() =~= s.drop_first());
    } else {
        assert(t.drop_first() =~= s.drop_first().update(i - 1, b));
        lemma_total_update(s.drop_first(), i - 1, b, x);
        assert(t[0] == s[0]);
    }
}

/// Appending a balance row adds exactly its contribution to each total.
pub proof fn lemma_total_push(s: Seq<Balance>, b: Balance, x: u64)
    ensures
        asset_total(s.push(b), x) == asset_total(s, x) + (if b.asset == x {
            b.amount as int
        } else {
            0
        }),
    decreases s.len(),
{
    let t = s.push(b);
    assert(t.len() == s.len() + 1);
    assert(asset_total(t, x) == (if t[0].asset == x {
        t[0].amount as int
    } else {
        0
    }) + asset_total(t.drop_first(), x));
    if s.len() == 0 {
        assert(t.drop_first() =~= Seq::<Balance>::empty());
        assert(asset_total(t.drop_first(), x) == 0);
        assert(asset_total(s, x) == 0);
        assert(t[0] == b);
    } else {
        assert(t.drop_first() =~= s.drop_first().push(b));
        lemma_total_push(s.drop_first(), b, x);
        assert(t[0] == s[0]);
        assert(asset_total(s, x) == (if s[0].asset == x {
            s[0].amount as int
        } else {
            0
        }) + asset_total(s.drop_first(), x));
    }
}

/// Appending an offer adds exactly its vault's contribution to each total.
pub proof fn lemma_vault_total_push(s: Seq<OfferEntry>, e: OfferEntry, x: u64)
    ensures
        vault_total(s.push(e), x) == vault_total(s, x) + (if e.offer.asset_a_id == x {
            e.vault_amount as int
        } else {
            0
        }),
    decreases s.len(),
{
    let t = s.push(e);
    assert(t.len() == s.len() + 1);
    assert(vault_total(t, x) == (if t[0].offer.asset_a_id == x {
        t[0].vault_amount as int
    } else {
        0
    }) + vault_total(t.drop_first(), x));
    if s.len() == 0 {
        assert(t.drop_first() =~= Seq::<OfferEntry>::empty());
        assert(vault_total(t.drop_first(), x) == 0);
        assert(vault_total(s, x) == 0);
        assert(t[0] == e);
    } else {
        assert(t.drop_first() =~= s.drop_first().push(e));
        lemma_vault_total_push(s.drop_first(), e, x);
        assert(t[0] == s[0]);
        assert(vault_total(s, x) == (if s[0].offer.asset_a_id == x {
            s[0].vault_amount as int
        } else {
            0
        }) + vault_total(s.drop_first(), x));
    }
}

/// Removing an offer takes exactly its vault's contribution out of each
/// total.
pub proof fn lemma_vault_total_remove(s: Seq<OfferEntry>, i: int, x: u64)
    requires
        0 <= i < s.len(),
    ensures
        vault_total(s.remove(i), x) == vault_total(s, x) - (if s[i].offer.asset_a_id == x {
            s[i].vault_amount as int
        } else {
            0
        }),
    decreases s.len(),
{
    let t = s.remove(i);
    if i == 0 {
        assert(t =~= s.drop_first());
    } else {
        assert(t.drop_first() =~= s.drop_first().remove(i - 1));
        lemma_vault_total_remove(s.drop_first(), i - 1, x);
        assert(t[0] == s[0]);
    }
}

/// An asset's balance total is never negative.
pub proof fn lemma_total_nonneg(s: Seq<Balance>, x: u64)
    ensures
        asset_total(s, x) >= 0,
    decreases s.len(),
{
    if s.len() > 0 {
        lemma_total_nonneg(s.drop_first(), x);
    }
}

/// An asset's vault total is never negative.
pub proof fn lemma_vault_total_nonneg(s: Seq<OfferEntry>, x: u64)
    ensures
        vault_total(s, x) >= 0,
    decreases s.len(),
{
    if s.len() > 0 {
        lemma_vault_total_nonneg(s.drop_first(), x);
    }
}

/// One row's holding is at most the asset's balance total.
pub proof fn lemma_row_le_total(s: Seq<Balance>, i: int, x: u64)
    requires
        0 <= i < s.len(),
        s[i].asset == x,
    ensures
        s[i].amount <= asset_total(s, x),
    decreases s.len(),
{
    lemma_total_nonneg(s.drop_first(), x);
    if i > 0 {
        lemma_row_le_total(s.drop_first(), i - 1, x);
        assert(s.drop_first()[i - 1] == s[i]);
    }
}

/// Two distinct rows' holdings sum to at most the asset's balance total.
pub proof fn lemma_two_rows_le_total(s: Seq<Balance>, i: int, j: int, x: u64)
    requires
        0 <= i < s.len(),
        0 <= j < s.len(),
        i != j,
        s[i].asset == x,
        s[j].asset == x,
    ensures
        s[i].amount + s[j].amount <= asset_total(s, x),
    decreases s.len(),
{
    if i == 0 {
        lemma_row_le_total(s.drop_first(), j - 1, x);
        assert(s.drop_first()[j - 1] == s[j]);
    } else if j == 0 {
        lemma_row_le_total(s.drop_first(), i - 1, x);
        assert(s.drop_first()[i - 1] == s[i]);
    } else {
        lemma_two_rows_le_total(s.drop_first(), i - 1, j - 1, x);
        assert(s.drop_first()[i - 1] == s[i]);
        assert(s.drop_first()[j - 1] == s[j]);
    }
}

/// One vault's holding is at most the asset's vault total.
pub proof fn lemma_vault_le_total(s: Seq<OfferEntry>, i: int, x: u64)
    requires
        0 <= i < s.len(),
        s[i].offer.asset_a_id == x,
    ensures
        s[i].vault_amount <= vault_total(s, x),
    decreases s.len(),
{
    lemma_vault_total_nonneg(s.drop_first(), x);
    if i > 0 {
        lemma_vault_le_total(s.drop_first(), i - 1, x);
        assert(s.drop_first()[i - 1] == s[i]);
    }
}

/// When offer creation succeeds: positive amounts on both sides, a free
/// address, and a maker balance that covers the deposit.
pub open spec fn make_offer_enabled(
    l: Ledger,
    maker: u64,
    escrow_id: u64,
    asset_a_id: u64,
    offered_amount: u64,
    wanted_amount: u64,
) -> bool {
    &&& offered_amount > 0
    &&& wanted_amount > 0
    &&& !l.has_offer(maker, escrow_id)
    &&& l.balance_of(maker, asset_a_id) >= offered_amount
}

/// Which error offer creation reports when it is not enabled: a zero
/// quantity is rejected first, then an address collision, then a deposit
/// the maker cannot cover.
pub open spec fn make_offer_err(
    l: Ledger,
    maker: u64,
    escrow_id: u64,
    offered_amount: u64,
    wanted_amount: u64,
) -> EscrowError {
    if offered_amount == 0 || wanted_amount == 0 {
        EscrowError::InvalidAmount
    } else if l.has_offer(maker, escrow_id) {
        EscrowError::OfferAlreadyExists
    } else {
        EscrowError::InsufficientFunds
    }
}

/// What successful offer creation does, as one atomic unit: exactly
/// `offered_amount` of asset A moves from the maker into the fresh vault,
/// the record is written under program authority at the derived address,
/// and nothing else — no other balance and no other offer — changes.
pub open spec fn make_offer_ok(
    pre: Ledger,
    post: Ledger,
    maker: u64,
    escrow_id: u64,
    asset_a_id: u64,
    offered_amount: u64,
    asset_b_id: u64,
    wanted_amount: u64,
) -> bool {
    &&& post.balance_of(maker, asset_a_id) == pre.balance_of(maker, asset_a_id) - offered_amount
    &&& forall|o: u64, a: u64|
        !(o == maker && a == asset_a_id) ==> #[trigger] post.balance_of(o, a) == pre.balance_of(
            o,
            a,
        )
    &&& post.has_offer(maker, escrow_id)
    &&& post.offer_entry(maker, escrow_id) == (OfferEntry {
        offer: Offer { escrow_id, maker, asset_a_id, asset_b_id, wanted_amount },
        vault_amount: offered_amount,
        vault_authority: Authority::Program,
    })
    &&& forall|m: u64, e2: u64|
        !(m == maker && e2 == escrow_id) ==> #[trigger] post.has_offer(m, e2) == pre.has_offer(
            m,
            e2,
        )
    &&& forall|m: u64, e2: u64|
        !(m == maker && e2 == escrow_id) && pre.has_offer(m, e2) ==> #[trigger] post.offer_entry(
            m,
            e2,
        ) == pre.offer_entry(m, e2)
}

/// When fulfillment succeeds: an offer stands at the handle's address, the
/// taker can cover the wanted amount, and the vault is under program
/// authority (anything else is corrupted state).
pub open spec fn take_enabled(l: Ledger, taker: u64, h: OfferHandle) -> bool {
    &&& l.has_offer(h.maker, h.escrow_id)
    &&& l.balance_of(taker, l.offer_entry(h.maker, h.escrow_id).offer.asset_b_id)
        >= l.offer_entry(h.maker, h.escrow_id).offer.wanted_amount
    &&& l.offer_entry(h.maker, h.escrow_id).vault_authority == Authority::Program
}

/// Which error fulfillment reports when it is not enabled: a missing or
/// already-taken offer first, then the payment step's funds check, then
/// the release step's authority check.
pub open spec fn take_err(l: Ledger, taker: u64, h: OfferHandle) -> EscrowError {
    if !l.has_offer(h.maker, h.escrow_id) {
        EscrowError::OfferNotFound
    } else if l.balance_of(taker, l.offer_entry(h.maker, h.escrow_id).offer.asset_b_id)
        < l.offer_entry(h.maker, h.escrow_id).offer.wanted_amount {
        EscrowError::InsufficientFunds
    } else {
        EscrowError::Unauthorized
    }
}

/// What successful fulfillment does, as one atomic unit: the taker pays
/// `wanted_amount` of asset B to the recorded maker (never a caller-supplied
/// one), the vault's full balance of asset A goes to the taker, and record
/// and vault are gone. The single arithmetic form of the balance clause is
/// exact for every aliasing of parties and assets, a self-take included.
pub open spec fn take_ok(pre: Ledger, post: Ledger, taker: u64, h: OfferHandle) -> bool {
    let e = pre.offer_entry(h.maker, h.escrow_id);
    &&& pre.has_offer(h.maker, h.escrow_id)
    &&& forall|o: u64, a: u64|
        #[trigger] post.balance_of(o, a) == pre.balance_of(o, a) - (
        if o == taker && a == e.offer.asset_b_id {
            e.offer.wanted_amount as int
        } else {
            0
        }) + (
        if o == e.offer.maker && a == e.offer.asset_b_id {
            e.offer.wanted_amount as int
        } else {
            0
        }) + (
        if o == taker && a == e.offer.asset_a_id {
            e.vault_amount as int
        } else {
            0
        })
    &&& !post.has_offer(h.maker, h.escrow_id)
    &&& forall|m: u64, e2: u64|
        !(m == h.maker && e2 == h.escrow_id) ==> #[trigger] post.has_offer(m, e2) == pre.has_offer(
            m,
            e2,
        )
    &&& forall|m: u64, e2: u64|
        !(m == h.maker && e2 == h.escrow_id) && pre.has_offer(m, e2) ==> #[trigger] post.offer_entry(
            m,
            e2,
        ) == pre.offer_entry(m, e2)
}

/// The machine-width bound fulfillment needs: were it to succeed, the two
/// credited balances must still fit in 64 bits. This is forced by the word
/// size alone; callers that keep each traded asset's supply within
/// `u64::MAX` satisfy it for free (`lemma_bounded_supply_take_fits`).
pub open spec fn take_fits(l: Ledger, taker: u64, h: OfferHandle) -> bool {
    take_enabled(l, taker, h) ==> {
        let e = l.offer_entry(h.maker, h.escrow_id);
        &&& (e.offer.maker != taker ==> l.balance_of(e.offer.maker, e.offer.asset_b_id)
            + e.offer.wanted_amount <= u64::MAX)
        &&& l.balance_of(taker, e.offer.asset_a_id) - (
        if e.offer.asset_b_id == e.offer.asset_a_id {
            e.offer.wanted_amount as int
        } else {
            0
        }) + (
        if taker == e.offer.maker && e.offer.asset_b_id == e.offer.asset_a_id {
            e.offer.wanted_amount as int
        } else {
            0
        }) + e.vault_amount <= u64::MAX
    }
}

/// A bounded issue discharges the word-size precondition of fulfillment:
/// on a well-formed ledger whose whole supply of each traded asset —
/// user balances plus custodied vaults — fits in 64 bits, `take_fits`
/// holds for every taker, because each balance to be credited is bounded
/// by a supply that the credit cannot exceed.
pub proof fn lemma_bounded_supply_take_fits(l: Ledger, taker: u64, h: OfferHandle)
    requires
        l.wf(),
        l.has_offer(h.maker, h.escrow_id) ==> l.supply(
            l.offer_entry(h.maker, h.escrow_id).offer.asset_a_id,
        ) <= u64::MAX && l.supply(l.offer_entry(h.maker, h.escrow_id).offer.asset_b_id)
            <= u64::MAX,
    ensures
        take_fits(l, taker, h),
{
    if take_enabled(l, taker, h) {
        let e = l.offer_entry(h.maker, h.escrow_id);
        let aa = e.offer.asset_a_id;
        let ab = e.offer.asset_b_id;
        let w = e.offer.wanted_amount;
        let mk = e.offer.maker;
        let bs = l.balances@;
        let os = l.offers@;
        lemma_total_nonneg(bs, aa);
        lemma_total_nonneg(bs, ab);
        lemma_vault_total_nonneg(os, aa);
        lemma_vault_total_nonneg(os, ab);
        let k = offer_idx(os, h.maker, h.escrow_id);
        assert(0 <= k < os.len() && os[k].offer.maker == h.maker && os[k].offer.escrow_id
            == h.escrow_id);
        lemma_vault_le_total(os, k, aa);
        if mk != taker && has_bal(bs, mk, ab) {
            let im = bal_idx(bs, mk, ab);
            assert(0 <= im < bs.len() && bs[im].owner == mk && bs[im].asset == ab);
            if has_bal(bs, taker, ab) {
                let it = bal_idx(bs, taker, ab);
                assert(0 <= it < bs.len() && bs[it].owner == taker && bs[it].asset == ab);
                lemma_two_rows_le_total(bs, im, it, ab);
            } else {
                // the taker holds nothing of asset B, so the wanted amount is zero
                lemma_row_le_total(bs, im, ab);
            }
        }
        if has_bal(bs, taker, aa) {
            let it2 = bal_idx(bs, taker, aa);
            assert(0 <= it2 < bs.len() && bs[it2].owner == taker && bs[it2].asset == aa);
            lemma_row_le_total(bs, it2, aa);
        }
    }
}

/// With unique keys, a row that matches a key is the row every lookup
/// speaks of: `balance_in` returns exactly its amount.
pub proof fn lemma_bal_at(s: Seq<Balance>, i: int, owner: u64, asset: u64)
    requires
        bal_keys_unique(s),
        0 <= i < s.len(),
        s[i].owner == owner,
        s[i].asset == asset,
    ensures
        has_bal(s, owner, asset),
        balance_in(s, owner, asset) == s[i].amount,
{
    assert(has_bal(s, owner, asset));
    let k = bal_idx(s, owner, asset);
    assert(0 <= k < s.len() && s[k].owner == owner && s[k].asset == asset);
    if k != i {
        assert(!same_bal_key(s[i], s[k]));
        assert(false);
    }
}

/// The offer-table counterpart of `lemma_bal_at`.
pub proof fn lemma_offer_at(s: Seq<OfferEntry>, i: int, maker: u64, escrow_id: u64)
    requires
        offer_keys_unique(s),
        0 <= i < s.len(),
        s[i].offer.maker == maker,
        s[i].offer.escrow_id == escrow_id,
    ensures
        has_offer_in(s, maker, escrow_id),
        offer_in(s, maker, escrow_id) == s[i],
        offer_idx(s, maker, escrow_id) == i,
{
    assert(has_offer_in(s, maker, escrow_id));
    let k = offer_idx(s, maker, escrow_id);
    assert(0 <= k < s.len() && s[k].offer.maker == maker && s[k].offer.escrow_id == escrow_id);
    if k != i {
        assert(!same_offer_key(s[i], s[k]));
        assert(false);
    }
}

/// Overwriting a row with one of the same key leaves every other key's
/// balance untouched and keeps keys unique.
pub proof fn lemma_bal_update(s: Seq<Balance>, i: int, b: Balance)
    requires
        bal_keys_unique(s),
        0 <= i < s.len(),
        same_bal_key(s[i], b),
    ensures
        bal_keys_unique(s.update(i, b)),
        balance_in(s.update(i, b), b.owner, b.asset) == b.amount,
        forall|o: u64, a: u64|
            !(o == b.owner && a == b.asset) ==> #[trigger] balance_in(s.update(i, b), o, a)
                == balance_in(s, o, a),
{
    let t = s.update(i, b);
    assert forall|p: int, q: int|
        0 <= p < t.len() && 0 <= q < t.len() && p != q implies !#[trigger] same_bal_key(
        t[p],
        t[q],
    ) by {
        assert(same_bal_key(t[p], s[p]));
        assert(same_bal_key(t[q], s[q]));
        assert(!same_bal_key(s[p], s[q]));
    }
    lemma_bal_at(t, i, b.owner, b.asset);
    assert forall|o: u64, a: u64|
        !(o == b.owner && a == b.asset) implies #[trigger] balance_in(t, o, a) == balance_in(
        s,
        o,
        a,
    ) by {
        if has_bal(s, o, a) {
            let k = bal_idx(s, o, a);
            assert(0 <= k < s.len() && s[k].owner == o && s[k].asset == a);
            assert(k != i);
            assert(t[k] == s[k]);
            lemma_bal_at(t, k, o, a);
            lemma_bal_at(s, k, o, a);
        } else {
            if has_bal(t, o, a) {
                let k = bal_idx(t, o, a);
                assert(0 <= k < t.len() && t[k].owner == o && t[k].asset == a);
                assert(k != i);
                assert(s[k] == t[k]);
                assert(has_bal(s, o, a));
            }
        }
    }
}

/// Appending a row under a fresh key leaves every other key's balance
/// untouched and keeps keys unique.
pub proof fn lemma_bal_push(s: Seq<Balance>, b: Balance)
    requires
        bal_keys_unique(s),
        !has_bal(s, b.owner, b.asset),
    ensures
        bal_keys_unique(s.push(b)),
        balance_in(s.push(b), b.owner, b.asset) == b.amount,
        forall|o: u64, a: u64|
            !(o == b.owner && a == b.asset) ==> #[trigger] balance_in(s.push(b), o, a)
                == balance_in(s, o, a),
{
    let t = s.push(b);
    assert forall|p: int, q: int|
        0 <= p < t.len() && 0 <= q < t.len() && p != q implies !#[trigger] same_bal_key(
        t[p],
        t[q],
    ) by {
        if p < s.len() && q < s.len() {
            assert(!same_bal_key(s[p], s[q]));
        } else if p < s.len() {
            // q is the new row; a match would mean its key was not fresh
            if same_bal_key(t[p], t[q]) {
                assert(s[p].owner == b.owner && s[p].asset == b.asset);
                assert(has_bal(s, b.owner, b.asset));
            }
        } else {
            if same_bal_key(t[p], t[q]) {
                assert(s[q].owner == b.owner && s[q].asset == b.asset);
                assert(has_bal(s, b.owner, b.asset));
            }
        }
    }
    lemma_bal_at(t, s.len() as int, b.owner, b.asset);
    assert forall|o: u64, a: u64|
        !(o == b.owner && a == b.asset) implies #[trigger] balance_in(t, o, a) == balance_in(
        s,
        o,
        a,
    ) by {
        if has_bal(s, o, a) {
            let k = bal_idx(s, o, a);
            assert(0 <= k < s.len() && s[k].owner == o && s[k].asset == a);
            assert(t[k] == s[k]);
            lemma_bal_at(t, k, o, a);
            lemma_bal_at(s, k, o, a);
        } else {
            if has_bal(t, o, a) {
                let k = bal_idx(t, o, a);
                assert(0 <= k < t.len() && t[k].owner == o && t[k].asset == a);
                assert(k != s.len());
                assert(s[k] == t[k]);
                assert(has_bal(s, o, a));
            }
        }
    }
}

/// Appending an offer under a fresh address leaves every other address
/// untouched and keeps addresses unique.
pub proof fn lemma_offer_push(s: Seq<OfferEntry>, e: OfferEntry)
    requires
        offer_keys_unique(s),
        !has_offer_in(s, e.offer.maker, e.offer.escrow_id),
    ensures
        offer_keys_unique(s.push(e)),
        has_offer_in(s.push(e), e.offer.maker, e.offer.escrow_id),
        offer_in(s.push(e), e.offer.maker, e.offer.escrow_id) == e,
        forall|m: u64, e2: u64|
            !(m == e.offer.maker && e2 == e.offer.escrow_id) ==> #[trigger] has_offer_in(
                s.push(e),
                m,
                e2,
            ) == has_offer_in(s, m, e2),
        forall|m: u64, e2: u64|
            !(m == e.offer.maker && e2 == e.offer.escrow_id) && has_offer_in(s, m, e2)
                ==> #[trigger] offer_in(s.push(e), m, e2) == offer_in(s, m, e2),
{
    let t = s.push(e);
    assert forall|p: int, q: int|
        0 <= p < t.len() && 0 <= q < t.len() && p != q implies !#[trigger] same_offer_key(
        t[p],
        t[q],
    ) by {
        if p < s.len() && q < s.len() {
            assert(!same_offer_key(s[p], s[q]));
        } else if p < s.len() {
            if same_offer_key(t[p], t[q]) {
                assert(s[p].offer.maker == e.offer.maker && s[p].offer.escrow_id
                    == e.offer.escrow_id);
                assert(has_offer_in(s, e.offer.maker, e.offer.escrow_id));
            }
        } else {
            if same_offer_key(t[p], t[q]) {
                assert(s[q].offer.maker == e.offer.maker && s[q].offer.escrow_id
                    == e.offer.escrow_id);
                assert(has_offer_in(s, e.offer.maker, e.offer.escrow_id));
            }
        }
    }
    lemma_offer_at(t, s.len() as int, e.offer.maker, e.offer.escrow_id);
    assert forall|m: u64, e2: u64|
        !(m == e.offer.maker && e2 == e.offer.escrow_id) implies #[trigger] has_offer_in(t, m, e2)
        == has_offer_in(s, m, e2) by {
        if has_offer_in(s, m, e2) {
            let k = offer_idx(s, m, e2);
            assert(0 <= k < s.len() && s[k].offer.maker == m && s[k].offer.escrow_id == e2);
            assert(t[k] == s[k]);
            assert(has_offer_in(t, m, e2));
        }
        if has_offer_in(t, m, e2) {
            let k = offer_idx(t, m, e2);
            assert(0 <= k < t.len() && t[k].offer.maker == m && t[k].offer.escrow_id == e2);
            assert(k != s.len());
            assert(s[k] == t[k]);
            assert(has_offer_in(s, m, e2));
        }
    }
    assert forall|m: u64, e2: u64|
        !(m == e.offer.maker && e2 == e.offer.escrow_id) && has_offer_in(
            s,
            m,
            e2,
        ) implies #[trigger] offer_in(t, m, e2) == offer_in(s, m, e2) by {
        let k = offer_idx(s, m, e2);
        assert(0 <= k < s.len() && s[k].offer.maker == m && s[k].offer.escrow_id == e2);
        assert(t[k] == s[k]);
        lemma_offer_at(t, k, m, e2);
        lemma_offer_at(s, k, m, e2);
    }
}

/// Removing the offer at one address leaves every other address untouched,
/// keeps addresses unique, and leaves no offer at the removed address.
pub proof fn lemma_offer_remove(s: Seq<OfferEntry>, i: int)
    requires
        offer_keys_unique(s),
        0 <= i < s.len(),
    ensures
        offer_keys_unique(s.remove(i)),
        !has_offer_in(s.remove(i), s[i].offer.maker, s[i].offer.escrow_id),
        forall|m: u64, e2: u64|
            !(m == s[i].offer.maker && e2 == s[i].offer.escrow_id) ==> #[trigger] has_offer_in(
                s.remove(i),
                m,
                e2,
            ) == has_offer_in(s, m, e2),
        forall|m: u64, e2: u64|
            !(m == s[i].offer.maker && e2 == s[i].offer.escrow_id) && has_offer_in(s, m, e2)
                ==> #[trigger] offer_in(s.remove(i), m, e2) == offer_in(s, m, e2),
{
    let t = s.remove(i);
    s.remove_ensures(i);
    assert forall|p: int, q: int|
        0 <= p < t.len() && 0 <= q < t.len() && p != q implies !#[trigger] same_offer_key(
        t[p],
        t[q],
    ) by {
        let p2: int = if p < i {
            p
        } else {
            p + 1
        };
        let q2: int = if q < i {
            q
        } else {
            q + 1
        };
        assert(t[p] == s[p2]);
        assert(t[q] == s[q2]);
        assert(!same_offer_key(s[p2], s[q2]));
    }
    if has_offer_in(t, s[i].offer.maker, s[i].offer.escrow_id) {
        let k = offer_idx(t, s[i].offer.maker, s[i].offer.escrow_id);
        assert(0 <= k < t.len() && t[k].offer.maker == s[i].offer.maker && t[k].offer.escrow_id
            == s[i].offer.escrow_id);
        let k2: int = if k < i {
            k
        } else {
            k + 1
        };
        assert(t[k] == s[k2]);
        assert(!same_offer_key(s[k2], s[i]));
        assert(false);
    }
    assert forall|m: u64, e2: u64|
        !(m == s[i].offer.maker && e2 == s[i].offer.escrow_id) implies #[trigger] has_offer_in(
        t,
        m,
        e2,
    ) == has_offer_in(s, m, e2) by {
        if has_offer_in(s, m, e2) {
            let k = offer_idx(s, m, e2);
            assert(0 <= k < s.len() && s[k].offer.maker == m && s[k].offer.escrow_id == e2);
            assert(k != i);
            let j: int = if k < i {
                k
            } else {
                k - 1
            };
            assert(t[j] == s[k]);
            assert(has_offer_in(t, m, e2));
        }
        if has_offer_in(t, m, e2) {
            let k = offer_idx(t, m, e2);
            assert(0 <= k < t.len() && t[k].offer.maker == m && t[k].offer.escrow_id == e2);
            let k2: int = if k < i {
                k
            } else {
                k + 1
            };
            assert(t[k] == s[k2]);
            assert(has_offer_in(s, m, e2));
        }
    }
    assert forall|m: u64, e2: u64|
        !(m == s[i].offer.maker && e2 == s[i].offer.escrow_id) && has_offer_in(
            s,
            m,
            e2,
        ) implies #[trigger] offer_in(t, m, e2) == offer_in(s, m, e2) by {
        let k = offer_idx(s, m, e2);
        assert(0 <= k < s.len() && s[k].offer.maker == m && s[k].offer.escrow_id == e2);
        assert(k != i);
        let j: int = if k < i {
            k
        } else {
            k - 1
        };
        assert(t[j] == s[k]);
        lemma_offer_at(t, j, m, e2);
        lemma_offer_at(s, k, m, e2);
    }
}

impl Ledger {
    /// Collaborator bootstrap: the empty ledger — no balances, no offers.
    pub fn initialize() -> (l: Ledger)
        ensures
            l.wf(),
            forall|o: u64, a: u64| #[trigger] l.balance_of(o, a) == 0,
            forall|m: u64, e: u64| !#[trigger] l.has_offer(m, e),
            forall|x: u64| #[trigger] l.supply(x) == 0,
    {
        Ledger { balances: Vec::new(), offers: Vec::new() }
    }

    /// The index of the balance row with the given key, if one exists.
    fn find_balance(&self, owner: u64, asset: u64) -> (r: Option<usize>)
        ensures
            r is Some ==> r->Some_0 < self.balances@.len() && self.balances@[
                r->Some_0 as int
            ].owner == owner && self.balances@[r->Some_0 as int].asset == asset,
            r is None ==> !has_bal(self.balances@, owner, asset),
    {
        let mut i: usize = 0;
        while i < self.balances.len()
            invariant
                i <= self.balances@.len(),
                forall|j: int|
                    0 <= j < i ==> !(#[trigger] self.balances@[j].owner == owner
                        && self.balances@[j].asset == asset),
            decreases self.balances@.len() - i,
        {
            if self.balances[i].owner == owner && self.balances[i].asset == asset {
                return Some(i);
            }
            i = i + 1;
        }
        None
    }

    /// The index of the offer at the derived address, if one stands there.
    fn find_offer(&self, maker: u64, escrow_id: u64) -> (r: Option<usize>)
        ensures
            r is Some ==> r->Some_0 < self.offers@.len() && self.offers@[
                r->Some_0 as int
            ].offer.maker == maker && self.offers@[r->Some_0 as int].offer.escrow_id == escrow_id,
            r is None ==> !has_offer_in(self.offers@, maker, escrow_id),
    {
        let mut i: usize = 0;
        while i < self.offers.len()
            invariant
                i <= self.offers@.len(),
                forall|j: int|
                    0 <= j < i ==> !(#[trigger] self.offers@[j].offer.maker == maker
                        && self.offers@[j].offer.escrow_id == escrow_id),
            decreases self.offers@.len() - i,
        {
            if self.offers[i].offer.maker == maker && self.offers[i].offer.escrow_id == escrow_id {
                return Some(i);
            }
            i = i + 1;
        }
        None
    }

    /// The balance `owner` holds of `asset`; zero if no account exists.
    pub fn balance(&self, owner: u64, asset: u64) -> (r: u64)
        requires
            self.wf(),
        ensures
            r == self.balance_of(owner, asset),
    {
        match self.find_balance(owner, asset) {
            Some(i) => {
                proof {
                    lemma_bal_at(self.balances@, i as int, owner, asset);
                }
                self.balances[i].amount
            },
            None => 0,
        }
    }

    /// Credit `amount` of `asset` to `owner`, creating the account if need
    /// be. Touches no other balance and no offer.
    fn credit(&mut self, owner: u64, asset: u64, amount: u64)
        requires
            bal_keys_unique(old(self).balances@),
            old(self).balance_of(owner, asset) + amount <= u64::MAX,
        ensures
            bal_keys_unique(final(self).balances@),
            final(self).balance_of(owner, asset) == old(self).balance_of(owner, asset) + amount,
            forall|o: u64, a: u64|
                !(o == owner && a == asset) ==> #[trigger] final(self).balance_of(o, a) == old(
                    self,
                ).balance_of(o, a),
            forall|x: u64| #[trigger]
                asset_total(final(self).balances@, x) == asset_total(old(self).balances@, x) + (
                if x == asset {
                    amount as int
                } else {
                    0
                }),
            final(self).offers@ == old(self).offers@,
    {
        match self.find_balance(owner, asset) {
            Some(i) => {
                proof {
                    lemma_bal_at(self.balances@, i as int, owner, asset);
                }
                let cur = self.balances[i].amount;
                let row = Balance { owner, asset, amount: cur + amount };
                self.balances[i] = row;
                proof {
                    lemma_bal_update(old(self).balances@, i as int, row);
                    assert forall|x: u64| #[trigger]
                        asset_total(self.balances@, x) == asset_total(old(self).balances@, x) + (
                    if x == asset {
                        amount as int
                    } else {
                        0
                    }) by {
                        lemma_total_update(old(self).balances@, i as int, row, x);
                    }
                }
            },
            None => {
                let row = Balance { owner, asset, amount };
                self.balances.push(row);
                proof {
                    lemma_bal_push(old(self).balances@, row);
                    assert forall|x: u64| #[trigger]
                        asset_total(self.balances@, x) == asset_total(old(self).balances@, x) + (
                    if x == asset {
                        amount as int
                    } else {
                        0
                    }) by {
                        lemma_total_push(old(self).balances@, row, x);
                    }
                }
            },
        }
    }

    /// Debit `amount` of `asset` from `owner`, who must hold at least that
    /// much. Touches no other balance and no offer.
    fn debit(&mut self, owner: u64, asset: u64, amount: u64)
        requires
            bal_keys_unique(old(self).balances@),
            old(self).balance_of(owner, asset) >= amount,
        ensures
            bal_keys_unique(final(self).balances@),
            final(self).balance_of(owner, asset) == old(self).balance_of(owner, asset) - amount,
            forall|o: u64, a: u64|
                !(o == owner && a == asset) ==> #[trigger] final(self).balance_of(o, a) == old(
                    self,
                ).balance_of(o, a),
            forall|x: u64| #[trigger]
                asset_total(final(self).balances@, x) == asset_total(old(self).balances@, x) - (
                if x == asset {
                    amount as int
                } else {
                    0
                }),
            final(self).offers@ == old(self).offers@,
    {
        match self.find_balance(owner, asset) {
            Some(i) => {
                proof {
                    lemma_bal_at(self.balances@, i as int, owner, asset);
                }
                let cur = self.balances[i].amount;
                let row = Balance { owner, asset, amount: cur - amount };
                self.balances[i] = row;
                proof {
                    lemma_bal_update(old(self).balances@, i as int, row);
                    assert forall|x: u64| #[trigger]
                        asset_total(self.balances@, x) == asset_total(old(self).balances@, x) - (
                    if x == asset {
                        amount as int
                    } else {
                        0
                    }) by {
                        lemma_total_update(old(self).balances@, i as int, row, x);
                    }
                }
            },
            None => {
                // the key is absent, so its balance is zero and the debit is of zero
            },
        }
    }

    /// Endow an account: the external collaborator's way of giving a party
    /// an initial balance to offer or to pay with.
    pub fn fund(&mut self, owner: u64, asset: u64, amount: u64)
        requires
            old(self).wf(),
            old(self).balance_of(owner, asset) + amount <= u64::MAX,
        ensures
            final(self).wf(),
            final(self).balance_of(owner, asset) == old(self).balance_of(owner, asset) + amount,
            forall|o: u64, a: u64|
                !(o == owner && a == asset) ==> #[trigger] final(self).balance_of(o, a) == old(
                    self,
                ).balance_of(o, a),
            forall|m: u64, e: u64|
                #[trigger] final(self).has_offer(m, e) == old(self).has_offer(m, e),
            forall|m: u64, e: u64|
                old(self).has_offer(m, e) ==> #[trigger] final(self).offer_entry(m, e) == old(
                    self,
                ).offer_entry(m, e),
            forall|x: u64| #[trigger]
                final(self).supply(x) == old(self).supply(x) + (if x == asset {
                    amount as int
                } else {
                    0
                }),
    {
        self.credit(owner, asset, amount);
    }

    /// Offer creation: validate the request, move exactly `offered_amount`
    /// of asset A from the maker into the fresh vault at the derived
    /// address, and write the record — one atomic unit. On any failure the
    /// ledger is untouched: either the tokens move and the record exists,
    /// or neither happens. Touches no other offer.
    ///
    /// A degenerate self-swap (`asset_a_id == asset_b_id`) is permitted,
    /// not rejected: the request is well-formed, merely pointless.
    pub fn make_offer(
        &mut self,
        maker: u64,
        escrow_id: u64,
        asset_a_id: u64,
        offered_amount: u64,
        asset_b_id: u64,
        wanted_amount: u64,
    ) -> (r: Result<OfferHandle, EscrowError>)
        requires
            old(self).wf(),
        ensures
            final(self).wf(),
            forall|x: u64| #[trigger] final(self).supply(x) == old(self).supply(x),
            r is Ok <==> make_offer_enabled(
                *old(self),
                maker,
                escrow_id,
                asset_a_id,
                offered_amount,
                wanted_amount,
            ),
            r is Ok ==> r->Ok_0 == (OfferHandle { maker, escrow_id }) && make_offer_ok(
                *old(self),
                *final(self),
                maker,
                escrow_id,
                asset_a_id,
                offered_amount,
                asset_b_id,
                wanted_amount,
            ),
            r is Err ==> *final(self) == *old(self) && r->Err_0 == make_offer_err(
                *old(self),
                maker,
                escrow_id,
                offered_amount,
                wanted_amount,
            ),
    {
        if offered_amount == 0 || wanted_amount == 0 {
            return Err(EscrowError::InvalidAmount);
        }
        match self.find_offer(maker, escrow_id) {
            Some(i) => {
                proof {
                    lemma_offer_at(self.offers@, i as int, maker, escrow_id);
                }
                return Err(EscrowError::OfferAlreadyExists);
            },
            None => {},
        }
        let bal = self.balance(maker, asset_a_id);
        if bal < offered_amount {
            return Err(EscrowError::InsufficientFunds);
        }
        self.debit(maker, asset_a_id, offered_amount);
        let ghost mid = *self;
        let entry = OfferEntry {
            offer: Offer { escrow_id, maker, asset_a_id, asset_b_id, wanted_amount },
            vault_amount: offered_amount,
            vault_authority: Authority::Program,
        };
        self.offers.push(entry);
        proof {
            assert(mid.offers@ == old(self).offers@);
            assert(self.offers@ == old(self).offers@.push(entry));
            assert(self.balances@ == mid.balances@);
            lemma_offer_push(old(self).offers@, entry);
            assert forall|o: u64, a: u64|
                !(o == maker && a == asset_a_id) implies #[trigger] self.balance_of(o, a) == old(
                self,
            ).balance_of(o, a) by {
                assert(mid.balance_of(o, a) == old(self).balance_of(o, a));
                assert(self.balance_of(o, a) == mid.balance_of(o, a));
            }
            assert(self.balance_of(maker, asset_a_id) == mid.balance_of(maker, asset_a_id));
            assert forall|i: int|
                0 <= i < self.offers@.len() implies (#[trigger] self.offers@[i]).vault_amount > 0
                && self.offers@[i].offer.wanted_amount > 0 by {
                if i < old(self).offers@.len() {
                    assert(self.offers@[i] == old(self).offers@[i]);
                } else {
                    assert(self.offers@[i] == entry);
                }
            }
            assert forall|x: u64| #[trigger] self.supply(x) == old(self).supply(x) by {
                assert(asset_total(mid.balances@, x) == asset_total(old(self).balances@, x) - (
                if x == asset_a_id {
                    offered_amount as int
                } else {
                    0
                }));
                lemma_vault_total_push(old(self).offers@, entry, x);
                assert(asset_total(self.balances@, x) == asset_total(mid.balances@, x));
                assert(vault_total(self.offers@, x) == vault_total(old(self).offers@, x) + (
                if x == asset_a_id {
                    offered_amount as int
                } else {
                    0
                }));
            }
        }
        Ok(OfferHandle { maker, escrow_id })
    }

    /// Offer fulfillment, the two-step protocol as one atomic unit.
    ///
    /// Payment step first: `wanted_amount` of asset B moves from the taker
    /// to the maker recorded in the offer — never a caller-supplied maker.
    /// Release step second: the vault's full balance of asset A moves to
    /// the taker under program authority, and record and vault are torn
    /// down. On any failure the ledger is untouched, so a failed attempt
    /// leaves the offer available to another taker; after success the
    /// record is gone, which is the double-take guard.
    pub fn take_offer(&mut self, taker: u64, handle: OfferHandle) -> (r: Result<
        (),
        EscrowError,
    >)
        requires
            old(self).wf(),
            take_fits(*old(self), taker, handle),
        ensures
            final(self).wf(),
            forall|x: u64| #[trigger] final(self).supply(x) == old(self).supply(x),
            r is Ok <==> take_enabled(*old(self), taker, handle),
            r is Ok ==> take_ok(*old(self), *final(self), taker, handle),
            r is Err ==> *final(self) == *old(self) && r->Err_0 == take_err(
                *old(self),
                taker,
                handle,
            ),
    {
        let maker = handle.maker;
        let escrow_id = handle.escrow_id;
        let i = match self.find_offer(maker, escrow_id) {
            Some(i) => i,
            None => {
                return Err(EscrowError::OfferNotFound);
            },
        };
        proof {
            lemma_offer_at(self.offers@, i as int, maker, escrow_id);
        }
        let entry = self.offers[i];
        // payment step: does the taker cover the wanted amount?
        let taker_b = self.balance(taker, entry.offer.asset_b_id);
        if taker_b < entry.offer.wanted_amount {
            return Err(EscrowError::InsufficientFunds);
        }
        // release step: the vault must be under program authority
        match entry.vault_authority {
            Authority::Program => {},
            Authority::User(_) => {
                return Err(EscrowError::Unauthorized);
            },
        }
        // pay the recorded maker, then release the vault to the taker
        let ghost mk = entry.offer.maker;
        let ghost ab = entry.offer.asset_b_id;
        let ghost aa = entry.offer.asset_a_id;
        self.debit(taker, entry.offer.asset_b_id, entry.offer.wanted_amount);
        let ghost g1 = *self;
        self.credit(entry.offer.maker, entry.offer.asset_b_id, entry.offer.wanted_amount);
        let ghost g2 = *self;
        self.credit(taker, entry.offer.asset_a_id, entry.vault_amount);
        let ghost g3 = *self;
        // tear down record and vault
        self.offers.remove(i);
        proof {
            assert(g1.offers@ == old(self).offers@);
            assert(g2.offers@ == old(self).offers@);
            assert(g3.offers@ == old(self).offers@);
            assert(self.offers@ == old(self).offers@.remove(i as int));
            assert(self.balances@ == g3.balances@);
            lemma_offer_remove(old(self).offers@, i as int);
            old(self).offers@.remove_ensures(i as int);
            assert forall|o: u64, a: u64| #[trigger]
                self.balance_of(o, a) == old(self).balance_of(o, a) - (
            if o == taker && a == ab {
                entry.offer.wanted_amount as int
            } else {
                0
            }) + (
            if o == mk && a == ab {
                entry.offer.wanted_amount as int
            } else {
                0
            }) + (
            if o == taker && a == aa {
                entry.vault_amount as int
            } else {
                0
            }) by {
                if !(o == taker && a == ab) {
                    assert(g1.balance_of(o, a) == old(self).balance_of(o, a));
                }
                if !(o == mk && a == ab) {
                    assert(g2.balance_of(o, a) == g1.balance_of(o, a));
                }
                if !(o == taker && a == aa) {
                    assert(g3.balance_of(o, a) == g2.balance_of(o, a));
                }
                assert(self.balance_of(o, a) == g3.balance_of(o, a));
            }
            assert forall|j: int|
                0 <= j < self.offers@.len() implies (#[trigger] self.offers@[j]).vault_amount > 0
                && self.offers@[j].offer.wanted_amount > 0 by {
                if j < i {
                    assert(self.offers@[j] == old(self).offers@[j]);
                } else {
                    assert(self.offers@[j] == old(self).offers@[j + 1]);
                }
            }
            assert forall|x: u64| #[trigger] self.supply(x) == old(self).supply(x) by {
                assert(asset_total(g1.balances@, x) == asset_total(old(self).balances@, x) - (
                if x == ab {
                    entry.offer.wanted_amount as int
                } else {
                    0
                }));
                assert(asset_total(g2.balances@, x) == asset_total(g1.balances@, x) + (
                if x == ab {
                    entry.offer.wanted_amount as int
                } else {
                    0
                }));
                assert(asset_total(g3.balances@, x) == asset_total(g2.balances@, x) + (
                if x == aa {
                    entry.vault_amount as int
                } else {
                    0
                }));
                lemma_vault_total_remove(old(self).offers@, i as int, x);
                assert(asset_total(self.balances@, x) == asset_total(g3.balances@, x));
                assert(vault_total(self.offers@, x) == vault_total(old(self).offers@, x) - (
                if x == aa {
                    entry.vault_amount as int
                } else {
                    0
                }));
            }
        }
        Ok(())
    }

    /// Whether an offer stands at the address derived from the pair.
    pub fn offer_exists(&self, maker: u64, escrow_id: u64) -> (r: bool)
        ensures
            r == self.has_offer(maker, escrow_id),
    {
        match self.find_offer(maker, escrow_id) {
            Some(i) => {
                proof {
                    assert(self.offers@[i as int].offer.maker == maker && self.offers@[
                        i as int
                    ].offer.escrow_id == escrow_id);
                }
                true
            },
            None => false,
        }
    }

    /// The offer record at the handle's address, if one stands there.
    pub fn get_offer(&self, handle: OfferHandle) -> (r: Option<Offer>)
        requires
            self.wf(),
        ensures
            r is Some <==> self.has_offer(handle.maker, handle.escrow_id),
            r is Some ==> r->Some_0 == self.offer_entry(handle.maker, handle.escrow_id).offer,
    {
        match self.find_offer(handle.maker, handle.escrow_id) {
            Some(i) => {
                proof {
                    lemma_offer_at(self.offers@, i as int, handle.maker, handle.escrow_id);
                }
                Some(self.offers[i].offer)
            },
            None => None,
        }
    }

    /// The holding account's balance at the handle's address; zero once
    /// the offer is taken and the vault torn down (or never created).
    pub fn vault_balance(&self, handle: OfferHandle) -> (r: u64)
        requires
            self.wf(),
        ensures
            r == (if self.has_offer(handle.maker, handle.escrow_id) {
                self.offer_entry(handle.maker, handle.escrow_id).vault_amount
            } else {
                0u64
            }),
    {
        match self.find_offer(handle.maker, handle.escrow_id) {
            Some(i) => {
                proof {
                    lemma_offer_at(self.offers@, i as int, handle.maker, handle.escrow_id);
                }
                self.offers[i].vault_amount
            },
            None => 0,
        }
    }
}

} // verus!
