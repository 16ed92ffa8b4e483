//! Properties of the minter that hold across calls and states, proved from
//! the contracts of its operations.
use vstd::prelude::*;
use crate::error::MintError;
use crate::minter::{buy_outcome, Item, MinterState, window_open};
use crate::pool::draw_run;

verus! {

/// No index is handed out twice: the indices one allocation (a purchase or a
/// giveaway) takes from a tier are distinct, below the tier's size, and none
/// of them was allocated before.
pub proof fn lemma_no_double_allocation(
    before: MinterState,
    after: MinterState,
    t: int,
    taken: Seq<usize>,
    left: Seq<usize>,
)
    requires
        0 <= t < before.tiers@.len(),
        after.wf(),
        before.allocated_at(after, t, taken, left),
    ensures
        taken.no_duplicates(),
        forall|i: int| 0 <= i < taken.len() ==> (#[trigger] taken[i]) < before.tiers@[t].max_nfts,
        forall|i: int| 0 <= i < taken.len() ==> !before.tiers@[t].allocated@.contains(#[trigger] taken[i]),
{
    let a0 = before.tiers@[t].allocated@;
    let a1 = after.tiers@[t].allocated@;
    assert(after.tiers@[t].wf());
    assert(a1 == a0 + taken);
    assert forall|i: int, j: int| 0 <= i < taken.len() && 0 <= j < taken.len() && i != j implies taken[i] != taken[j] by {
        assert(a1[a0.len() + i] == taken[i]);
        assert(a1[a0.len() + j] == taken[j]);
    }
    assert forall|i: int| 0 <= i < taken.len() implies (#[trigger] taken[i]) < before.tiers@[t].max_nfts by {
        assert(a1[a0.len() + i] == taken[i]);
    }
    assert forall|i: int| 0 <= i < taken.len() implies !a0.contains(#[trigger] taken[i]) by {
        if a0.contains(taken[i]) {
            let j = choose|j: int| 0 <= j < a0.len() && a0[j] == taken[i];
            assert(a1[j] == a1[a0.len() + i]);
        }
    }
}

/// The items of a successful purchase carry distinct indices, each below the
/// tier's size and none allocated before the purchase.
pub proof fn lemma_purchase_items_fresh(
    before: MinterState,
    after: MinterState,
    brand_id: Seq<u8>,
    tier: Seq<u8>,
    payment_token: Seq<u8>,
    payment_amount: u128,
    opt_nfts_to_buy: Option<usize>,
    now: u64,
    draws: Seq<u32>,
    items: Vec<Item>,
)
    requires
        after.wf(),
        buy_outcome(before, after, brand_id, tier, payment_token, payment_amount, opt_nfts_to_buy, now, draws, Ok(items)),
    ensures
        forall|i: int, j: int| 0 <= i < items@.len() && 0 <= j < items@.len() && i != j
            ==> items@[i].nft_id != items@[j].nft_id,
        forall|i: int| 0 <= i < items@.len() ==> {
            let t = before.tiers@[before.tier_index(brand_id, tier)];
            &&& (#[trigger] items@[i]).nft_id < t.max_nfts
            &&& !t.allocated@.contains(items@[i].nft_id)
        },
{
    let k = before.buy_check(brand_id, tier, payment_token, payment_amount, opt_nfts_to_buy, now)->Ok_0;
    let t = before.tier_index(brand_id, tier);
    let run = draw_run(before.tiers@[t].available_ids@, draws, 0, k);
    lemma_no_double_allocation(before, after, t, run.0, run.1);
    assert forall|i: int| 0 <= i < items@.len() implies items@[i].nft_id == run.0[i] by {
        assert(items@[i].nft_id == run.0[i]);
    }
}

/// Every allocated index is distinct and below the tier's size, in every
/// well-formed state.
pub proof fn lemma_allocations_distinct(m: MinterState, t: int)
    requires
        m.wf(),
        0 <= t < m.tiers@.len(),
    ensures
        m.tiers@[t].allocated@.no_duplicates(),
        forall|i: int| 0 <= i < m.tiers@[t].allocated@.len() ==> (#[trigger] m.tiers@[t].allocated@[i]) < m.tiers@[t].max_nfts,
{
    assert(m.tiers@[t].wf());
}

/// What remains in a tier's pool and what was allocated from it add up to
/// the tier's size.
pub proof fn lemma_conservation(m: MinterState, t: int)
    requires
        m.wf(),
        0 <= t < m.tiers@.len(),
    ensures
        m.tiers@[t].available_ids@.len() + m.tiers@[t].allocated@.len() == m.tiers@[t].max_nfts,
{
    assert(m.tiers@[t].wf());
}

/// Once brand, tier, batch size, window and pool are in order, a purchase of
/// `k` items succeeds exactly when the payment is in the price's asset and
/// equals the price times `k`; otherwise it is refused as an invalid payment.
pub proof fn lemma_payment_equality(
    m: MinterState,
    brand_id: Seq<u8>,
    tier: Seq<u8>,
    payment_token: Seq<u8>,
    payment_amount: u128,
    k: usize,
    now: u64,
)
    requires
        m.has_brand(brand_id),
        m.has_tier(brand_id, tier),
        1 <= k <= m.max_nfts_per_transaction,
        window_open(m.brands@[m.brand_index(brand_id)].mint_period, now),
        k <= m.tiers@[m.tier_index(brand_id, tier)].available_ids@.len(),
    ensures
        ({
            let price = m.tiers@[m.tier_index(brand_id, tier)].price;
            let pays = payment_token == price.token_id@ && payment_amount as int == price.amount as int * k;
            &&& (m.buy_check(brand_id, tier, payment_token, payment_amount, Some(k), now) is Ok) == pays
            &&& !pays ==> m.buy_check(brand_id, tier, payment_token, payment_amount, Some(k), now)
                == Err::<nat, MintError>(MintError::InvalidPayment)
        }),
{
}

/// The mint window is `[start, end)`: an otherwise valid purchase succeeds at
/// `start`, is refused as closed at `end`, and as not yet open just before
/// `start`.
pub proof fn lemma_window_boundary(
    m: MinterState,
    brand_id: Seq<u8>,
    tier: Seq<u8>,
    payment_token: Seq<u8>,
    payment_amount: u128,
    opt_nfts_to_buy: Option<usize>,
)
    requires
        m.wf(),
        m.has_brand(brand_id),
        m.has_tier(brand_id, tier),
        opt_nfts_to_buy != Some(0usize),
        opt_nfts_to_buy is Some ==> opt_nfts_to_buy->0 <= m.max_nfts_per_transaction,
        ({
            let k: nat = match opt_nfts_to_buy {
                Some(c) => c as nat,
                None => 1,
            };
            let t = m.tiers@[m.tier_index(brand_id, tier)];
            &&& payment_token == t.price.token_id@
            &&& payment_amount as int == t.price.amount as int * k
            &&& 0 < k <= t.available_ids@.len()
        }),
    ensures
        ({
            let p = m.brands@[m.brand_index(brand_id)].mint_period;
            &&& m.buy_check(brand_id, tier, payment_token, payment_amount, opt_nfts_to_buy, p.start) is Ok
            &&& m.buy_check(brand_id, tier, payment_token, payment_amount, opt_nfts_to_buy, p.end)
                == Err::<nat, MintError>(MintError::Closed)
            &&& p.start > 0 ==> m.buy_check(brand_id, tier, payment_token, payment_amount, opt_nfts_to_buy, (p.start - 1) as u64)
                == Err::<nat, MintError>(MintError::NotYetOpen)
        }),
{
}

/// A purchase of zero items of an existing tier succeeds with nothing, takes
/// nothing from the pool, and looks at no payment.
pub proof fn lemma_zero_count(
    m: MinterState,
    brand_id: Seq<u8>,
    tier: Seq<u8>,
    payment_token: Seq<u8>,
    payment_amount: u128,
    now: u64,
    draws: Seq<u32>,
)
    requires
        m.has_brand(brand_id),
        m.has_tier(brand_id, tier),
    ensures
        m.buy_check(brand_id, tier, payment_token, payment_amount, Some(0usize), now) == Ok::<nat, MintError>(0),
        draw_run(m.tiers@[m.tier_index(brand_id, tier)].available_ids@, draws, 0, 0) == (
            Seq::<usize>::empty(),
            m.tiers@[m.tier_index(brand_id, tier)].available_ids@,
        ),
{
}

/// A purchase of more items than the batch limit allows, of an existing
/// tier, is refused as exceeding the limit, whatever the payment and time.
pub proof fn lemma_batch_limit(
    m: MinterState,
    brand_id: Seq<u8>,
    tier: Seq<u8>,
    payment_token: Seq<u8>,
    payment_amount: u128,
    count: usize,
    now: u64,
)
    requires
        m.has_brand(brand_id),
        m.has_tier(brand_id, tier),
        count > m.max_nfts_per_transaction,
    ensures
        m.buy_check(brand_id, tier, payment_token, payment_amount, Some(count), now)
            == Err::<nat, MintError>(MintError::BatchLimitExceeded),
{
}

/// A caller who is not an administrator is refused a giveaway, whatever the
/// brand, tier and pairs.
pub proof fn lemma_giveaway_authorization(
    m: MinterState,
    caller: Seq<u8>,
    brand_id: Seq<u8>,
    tier: Seq<u8>,
    counts: Seq<usize>,
)
    requires
        !m.is_admin(caller),
    ensures
        m.giveaway_check(caller, brand_id, tier, counts) == Some(MintError::Unauthorized),
{
}

} // verus!
