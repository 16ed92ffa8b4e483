//! The minter's state and its two allocation paths: a paid purchase inside a
//! brand's mint window, and an administrator's giveaway.
use vstd::prelude::*;
use crate::error::MintError;
use crate::pool::{
    draw_run, full_range, giveaway_run, giveaway_shortfall, lemma_draw_run, lemma_partition_after_run,
    pool_partition, take_random_ids,
};

verus! {

/// A price or a payment: an asset identifier and an amount of it.
pub struct TokenAmount {
    pub token_id: Vec<u8>,
    pub amount: u128,
}

/// The sale time window of a brand: open from `start` up to, not including, `end`.
#[derive(Clone, Copy, Debug, PartialEq, Eq, Structural)]
pub struct MintPeriod {
    pub start: u64,
    pub end: u64,
}

/// A registered brand and the asset class its items are minted under.
pub struct BrandInfo {
    pub brand_id: Vec<u8>,
    pub token_id: Vec<u8>,
    pub collection_hash: Vec<u8>,
    pub media_type: Vec<u8>,
    pub token_display_name: Vec<u8>,
    pub royalties: u64,
    pub mint_period: MintPeriod,
}

/// A priced tier of a brand and its pool of indices not yet allocated.
pub struct Tier {
    pub brand_id: Vec<u8>,
    pub name: Vec<u8>,
    pub price: TokenAmount,
    pub max_nfts: usize,
    pub available_ids: Vec<usize>,
    /// Every index handed out so far, in the order it left the pool.
    pub allocated: Ghost<Seq<usize>>,
}

/// One allocated item: the brand's asset class, its index, and an amount of one.
pub struct Item {
    pub token_id: Vec<u8>,
    pub nft_id: usize,
    pub amount: u64,
}

/// The items a giveaway sends to one destination.
pub struct Delivery {
    pub dest: Vec<u8>,
    pub items: Vec<Item>,
}

/// The whole minter: brands, tiers, the administrator whitelist and the
/// per-request batch limit.
pub struct MinterState {
    pub brands: Vec<BrandInfo>,
    pub tiers: Vec<Tier>,
    pub admins: Vec<Vec<u8>>,
    pub max_nfts_per_transaction: usize,
}

/// Items of asset class `token_id`, one of each index of `ids`, in order.
pub open spec fn items_match(items: Seq<Item>, token_id: Seq<u8>, ids: Seq<usize>) -> bool {
    &&& items.len() == ids.len()
    &&& forall|i: int| 0 <= i < items.len() ==> {
        &&& (#[trigger] items[i]).nft_id == ids[i]
        &&& items[i].token_id@ == token_id
        &&& items[i].amount == 1
    }
}

/// The mint window `[start, end)` holds `now`.
pub open spec fn window_open(p: MintPeriod, now: u64) -> bool {
    p.start <= now < p.end
}

/// Tier `t` as it stands after `taken` left its pool and `left` remained.
pub open spec fn tier_after(old_t: Tier, new_t: Tier, taken: Seq<usize>, left: Seq<usize>) -> bool {
    &&& new_t.brand_id@ == old_t.brand_id@
    &&& new_t.name@ == old_t.name@
    &&& new_t.price.token_id@ == old_t.price.token_id@
    &&& new_t.price.amount == old_t.price.amount
    &&& new_t.max_nfts == old_t.max_nfts
    &&& new_t.available_ids@ == left
    &&& new_t.allocated@ == old_t.allocated@ + taken
}

impl Tier {
    pub open spec fn wf(&self) -> bool {
        pool_partition(self.available_ids@, self.allocated@, self.max_nfts as nat)
    }

    pub open spec fn is_key(&self, brand_id: Seq<u8>, name: Seq<u8>) -> bool {
        self.brand_id@ == brand_id && self.name@ == name
    }
}

impl MinterState {
    /// Brand identifiers are unique, each brand's mint window is nonempty, a
    /// tier's key is unique, and each tier's pool and allocation record
    /// partition its index range.
    pub open spec fn wf(&self) -> bool {
        &&& forall|i: int| 0 <= i < self.brands@.len()
            ==> (#[trigger] self.brands@[i]).mint_period.start < self.brands@[i].mint_period.end
        &&& forall|i: int, j: int|
            0 <= i < self.brands@.len() && 0 <= j < self.brands@.len() && i != j
                ==> self.brands@[i].brand_id@ != self.brands@[j].brand_id@
        &&& forall|i: int, j: int|
            0 <= i < self.tiers@.len() && 0 <= j < self.tiers@.len() && i != j
                ==> !self.tiers@[i].is_key(self.tiers@[j].brand_id@, self.tiers@[j].name@)
        &&& forall|i: int| 0 <= i < self.tiers@.len() ==> (#[trigger] self.tiers@[i]).wf()
    }

    pub open spec fn has_brand(&self, brand_id: Seq<u8>) -> bool {
        exists|i: int| 0 <= i < self.brands@.len() && self.brands@[i].brand_id@ == brand_id
    }

    /// The position of the brand `brand_id`, when it is registered.
    pub open spec fn brand_index(&self, brand_id: Seq<u8>) -> int {
        choose|i: int| 0 <= i < self.brands@.len() && self.brands@[i].brand_id@ == brand_id
    }

    pub open spec fn has_tier(&self, brand_id: Seq<u8>, name: Seq<u8>) -> bool {
        exists|i: int| 0 <= i < self.tiers@.len() && self.tiers@[i].is_key(brand_id, name)
    }

    /// The position of the tier `name` of brand `brand_id`, when it exists.
    pub open spec fn tier_index(&self, brand_id: Seq<u8>, name: Seq<u8>) -> int {
        choose|i: int| 0 <= i < self.tiers@.len() && self.tiers@[i].is_key(brand_id, name)
    }

    pub open spec fn is_admin(&self, address: Seq<u8>) -> bool {
        exists|i: int| 0 <= i < self.admins@.len() && self.admins@[i]@ == address
    }

    /// What a purchase request comes to, checked in order: the brand, the
    /// tier, the batch size, the payment, the window, and the pool. `Ok(k)`
    /// means `k` items are owed.
    pub open spec fn buy_check(
        &self,
        brand_id: Seq<u8>,
        tier: Seq<u8>,
        payment_token: Seq<u8>,
        payment_amount: u128,
        opt_nfts_to_buy: Option<usize>,
        now: u64,
    ) -> Result<nat, MintError> {
        if !self.has_brand(brand_id) {
            Err(MintError::UnknownBrand)
        } else if !self.has_tier(brand_id, tier) {
            Err(MintError::UnknownTier)
        } else if opt_nfts_to_buy == Some(0usize) {
            Ok(0)
        } else if opt_nfts_to_buy is Some && opt_nfts_to_buy->0 > self.max_nfts_per_transaction {
            Err(MintError::BatchLimitExceeded)
        } else {
            let k: nat = match opt_nfts_to_buy {
                Some(c) => c as nat,
                None => 1,
            };
            let t = self.tiers@[self.tier_index(brand_id, tier)];
            let period = self.brands@[self.brand_index(brand_id)].mint_period;
            if !(payment_token == t.price.token_id@ && payment_amount as int == t.price.amount as int * k) {
                Err(MintError::InvalidPayment)
            } else if now < period.start {
                Err(MintError::NotYetOpen)
            } else if now >= period.end {
                Err(MintError::Closed)
            } else if t.available_ids@.len() == 0 {
                Err(MintError::Exhausted)
            } else if k > t.available_ids@.len() {
                Err(MintError::NotEnoughAvailable)
            } else {
                Ok(k)
            }
        }
    }

    /// Why a giveaway would be refused, if it would: the caller is not an
    /// administrator, the brand or tier is unknown, or the pool falls short.
    pub open spec fn giveaway_check(&self, caller: Seq<u8>, brand_id: Seq<u8>, tier: Seq<u8>, counts: Seq<usize>) -> Option<MintError> {
        if !self.is_admin(caller) {
            Some(MintError::Unauthorized)
        } else if !self.has_brand(brand_id) {
            Some(MintError::UnknownBrand)
        } else if !self.has_tier(brand_id, tier) {
            Some(MintError::UnknownTier)
        } else {
            giveaway_shortfall(self.tiers@[self.tier_index(brand_id, tier)].available_ids@.len(), counts)
        }
    }

    /// `after` is `self` with `taken` moved out of the pool of tier `t`,
    /// leaving `left`; nothing else differs.
    pub open spec fn allocated_at(&self, after: Self, t: int, taken: Seq<usize>, left: Seq<usize>) -> bool {
        &&& after.brands@ == self.brands@
        &&& after.admins@ == self.admins@
        &&& after.max_nfts_per_transaction == self.max_nfts_per_transaction
        &&& after.tiers@.len() == self.tiers@.len()
        &&& forall|j: int| 0 <= j < self.tiers@.len() && j != t ==> after.tiers@[j] == self.tiers@[j]
        &&& tier_after(self.tiers@[t], after.tiers@[t], taken, left)
    }

    /// A minter with no brand, no tier and no administrator.
    pub fn new(max_nfts_per_transaction: usize) -> (r: Self)
        ensures
            r.wf(),
            r.brands@.len() == 0,
            r.tiers@.len() == 0,
            r.admins@.len() == 0,
            r.max_nfts_per_transaction == max_nfts_per_transaction,
    {
        MinterState {
            brands: Vec::new(),
            tiers: Vec::new(),
            admins: Vec::new(),
            max_nfts_per_transaction,
        }
    }

    /// Adds `address` to the administrator whitelist.
    pub fn add_admin(&mut self, address: Vec<u8>)
        requires
            old(self).wf(),
        ensures
            final(self).wf(),
            final(self).admins@ == old(self).admins@.push(address),
            final(self).brands@ == old(self).brands@,
            final(self).tiers@ == old(self).tiers@,
            final(self).max_nfts_per_transaction == old(self).max_nfts_per_transaction,
    {
        self.admins.push(address);
    }

    /// Whether `address` is on the administrator whitelist.
    pub fn caller_is_admin(&self, address: &Vec<u8>) -> (r: bool)
        ensures
            r == self.is_admin(address@),
    {
        let mut i: usize = 0;
        while i < self.admins.len()
            invariant
                i <= self.admins@.len(),
                forall|j: int| 0 <= j < i ==> self.admins@[j]@ != address@,
            decreases self.admins@.len() - i,
        {
            if bytes_eq(&self.admins[i], address) {
                return true;
            }
            i = i + 1;
        }
        false
    }

    /// The position of brand `brand_id`, if it is registered.
    pub fn find_brand(&self, brand_id: &Vec<u8>) -> (r: Option<usize>)
        requires
            self.wf(),
        ensures
            match r {
                Some(i) => self.has_brand(brand_id@) && i as int == self.brand_index(brand_id@)
                    && i < self.brands@.len(),
                None => !self.has_brand(brand_id@),
            },
    {
        let mut i: usize = 0;
        while i < self.brands.len()
            invariant
                self.wf(),
                i <= self.brands@.len(),
                forall|j: int| 0 <= j < i ==> self.brands@[j].brand_id@ != brand_id@,
            decreases self.brands@.len() - i,
        {
            if bytes_eq(&self.brands[i].brand_id, brand_id) {
                proof {
                    assert(self.brands@[i as int].brand_id@ == brand_id@);
                    let c = self.brand_index(brand_id@);
                    assert(self.brands@[c].brand_id@ == brand_id@);
                }
                return Some(i);
            }
            i = i + 1;
        }
        None
    }

    /// The position of tier `name` of brand `brand_id`, if it exists.
    pub fn find_tier(&self, brand_id: &Vec<u8>, name: &Vec<u8>) -> (r: Option<usize>)
        requires
            self.wf(),
        ensures
            match r {
                Some(i) => self.has_tier(brand_id@, name@) && i as int == self.tier_index(brand_id@, name@)
                    && i < self.tiers@.len(),
                None => !self.has_tier(brand_id@, name@),
            },
    {
        let mut i: usize = 0;
        while i < self.tiers.len()
            invariant
                self.wf(),
                i <= self.tiers@.len(),
                forall|j: int| 0 <= j < i ==> !self.tiers@[j].is_key(brand_id@, name@),
            decreases self.tiers@.len() - i,
        {
            if bytes_eq(&self.tiers[i].brand_id, brand_id) && bytes_eq(&self.tiers[i].name, name) {
                proof {
                    assert(self.tiers@[i as int].is_key(brand_id@, name@));
                    let c = self.tier_index(brand_id@, name@);
                    assert(self.tiers@[c].is_key(brand_id@, name@));
                }
                return Some(i);
            }
            i = i + 1;
        }
        None
    }

    /// Registers a brand. Refused when its identifier is taken or its mint
    /// window is empty.
    pub fn add_brand(&mut self, info: BrandInfo) -> (r: Result<(), MintError>)
        requires
            old(self).wf(),
        ensures
            final(self).wf(),
            r == Err::<(), MintError>(MintError::BrandAlreadyExists) <==> old(self).has_brand(info.brand_id@),
            r == Err::<(), MintError>(MintError::InvalidMintPeriod) <==> (!old(self).has_brand(info.brand_id@)
                && info.mint_period.start >= info.mint_period.end),
            r is Err ==> *final(self) == *old(self),
            r is Ok ==> final(self).brands@ == old(self).brands@.push(info)
                && final(self).tiers@ == old(self).tiers@
                && final(self).admins@ == old(self).admins@
                && final(self).max_nfts_per_transaction == old(self).max_nfts_per_transaction,
    {
        if self.find_brand(&info.brand_id).is_some() {
            return Err(MintError::BrandAlreadyExists);
        }
        if info.mint_period.start >= info.mint_period.end {
            return Err(MintError::InvalidMintPeriod);
        }
        self.brands.push(info);
        Ok(())
    }

    /// Adds tier `name` to brand `brand_id`, with the pool `0 .. max_nfts`.
    pub fn add_tier(&mut self, brand_id: &Vec<u8>, name: Vec<u8>, max_nfts: usize, price: TokenAmount) -> (r: Result<(), MintError>)
        requires
            old(self).wf(),
        ensures
            final(self).wf(),
            r == Err::<(), MintError>(MintError::UnknownBrand) <==> !old(self).has_brand(brand_id@),
            r == Err::<(), MintError>(MintError::TierAlreadyExists) <==> (old(self).has_brand(brand_id@)
                && old(self).has_tier(brand_id@, name@)),
            r is Err ==> *final(self) == *old(self),
            r is Ok ==> {
                &&& final(self).tiers@.len() == old(self).tiers@.len() + 1
                &&& final(self).tiers@.drop_last() == old(self).tiers@
                &&& final(self).tiers@.last().is_key(brand_id@, name@)
                &&& final(self).tiers@.last().max_nfts == max_nfts
                &&& final(self).tiers@.last().price.token_id@ == price.token_id@
                &&& final(self).tiers@.last().price.amount == price.amount
                &&& final(self).tiers@.last().available_ids@ == full_range(max_nfts as nat)
                &&& final(self).tiers@.last().allocated@ == Seq::<usize>::empty()
                &&& final(self).brands@ == old(self).brands@
                &&& final(self).admins@ == old(self).admins@
                &&& final(self).max_nfts_per_transaction == old(self).max_nfts_per_transaction
            },
    {
        if self.find_brand(brand_id).is_none() {
            return Err(MintError::UnknownBrand);
        }
        if self.find_tier(brand_id, &name).is_some() {
            return Err(MintError::TierAlreadyExists);
        }
        let mut ids: Vec<usize> = Vec::new();
        let mut i: usize = 0;
        while i < max_nfts
            invariant
                i <= max_nfts,
                ids@ == full_range(i as nat),
            decreases max_nfts - i,
        {
            ids.push(i);
            i = i + 1;
            assert(ids@ =~= full_range(i as nat));
        }
        let owner = copy_bytes(brand_id);
        let tier = Tier { brand_id: owner, name, price, max_nfts, available_ids: ids, allocated: Ghost(Seq::empty()) };
        proof {
            let p = tier.available_ids@;
            assert forall|a: int, b: int| 0 <= a < p.len() && 0 <= b < p.len() && a != b implies p[a] != p[b] by {}
        }
        let ghost old_tiers = self.tiers@;
        self.tiers.push(tier);
        proof {
            assert(self.tiers@.drop_last() =~= old_tiers);
            assert forall|i: int| 0 <= i < self.tiers@.len() implies (#[trigger] self.tiers@[i]).wf() by {
                if i < old_tiers.len() {
                    assert(self.tiers@[i] == old_tiers[i]);
                }
            }
        }
        Ok(())
    }

    /// Takes `k` indices out of the pool of tier `t`, with draws from number
    /// `start` on, and makes an item of asset class `token_id` of each.
    fn mint_and_send_random_nft(&mut self, t: usize, token_id: &Vec<u8>, draws: &Vec<u32>, start: usize, k: usize) -> (r: Vec<Item>)
        requires
            old(self).wf(),
            t < old(self).tiers@.len(),
            k <= old(self).tiers@[t as int].available_ids@.len(),
            start + k <= usize::MAX,
        ensures
            final(self).wf(),
            ({
                let run = draw_run(old(self).tiers@[t as int].available_ids@, draws@, start as int, k as nat);
                &&& items_match(r@, token_id@, run.0)
                &&& old(self).allocated_at(*final(self), t as int, run.0, run.1)
            }),
    {
        let ghost old_tiers = self.tiers@;
        let mut tr = self.tiers.remove(t);
        let ghost pool0 = tr.available_ids@;
        let ids = take_random_ids(&mut tr.available_ids, draws, start, k);
        proof {
            lemma_partition_after_run(pool0, tr.allocated@, tr.max_nfts as nat, draws@, start as int, k as nat);
        }
        tr.allocated = Ghost(tr.allocated@ + ids@);
        self.tiers.insert(t, tr);
        proof {
            assert(self.tiers@ =~= old_tiers.update(t as int, tr));
            assert(tr.wf());
            assert(tr.brand_id@ == old_tiers[t as int].brand_id@);
            assert(tr.name@ == old_tiers[t as int].name@);
            assert forall|i: int| 0 <= i < self.tiers@.len() implies (#[trigger] self.tiers@[i]).wf() by {
                if i != t {
                    assert(self.tiers@[i] == old_tiers[i]);
                }
            }
            assert forall|i: int, j: int|
                0 <= i < self.tiers@.len() && 0 <= j < self.tiers@.len() && i != j
                    implies !self.tiers@[i].is_key(self.tiers@[j].brand_id@, self.tiers@[j].name@) by {
                assert(self.tiers@[i].brand_id@ == old_tiers[i].brand_id@);
                assert(self.tiers@[j].brand_id@ == old_tiers[j].brand_id@);
                assert(self.tiers@[i].name@ == old_tiers[i].name@);
                assert(self.tiers@[j].name@ == old_tiers[j].name@);
                assert(!old_tiers[i].is_key(old_tiers[j].brand_id@, old_tiers[j].name@));
            }
        }
        make_items(token_id, &ids)
    }

    /// Buys `opt_nfts_to_buy` items (one when absent) of tier `tier` of brand
    /// `brand_id` at time `now`, paying `payment`. The `i`-th item is taken
    /// from the pool at position `draws[i] % len` (zero past the end of
    /// `draws`). Any refusal leaves the minter unchanged.
    pub fn buy(
        &mut self,
        brand_id: &Vec<u8>,
        tier: &Vec<u8>,
        payment: &TokenAmount,
        opt_nfts_to_buy: Option<usize>,
        now: u64,
        draws: &Vec<u32>,
    ) -> (r: Result<Vec<Item>, MintError>)
        requires
            old(self).wf(),
        ensures
            final(self).wf(),
            buy_outcome(*old(self), *final(self), brand_id@, tier@, payment.token_id@, payment.amount, opt_nfts_to_buy, now, draws@, r),
    {
        let b = match self.find_brand(brand_id) {
            Some(b) => b,
            None => return Err(MintError::UnknownBrand),
        };
        let t = match self.find_tier(brand_id, tier) {
            Some(t) => t,
            None => return Err(MintError::UnknownTier),
        };
        let k: usize = match opt_nfts_to_buy {
            Some(v) => {
                if v == 0 {
                    proof {
                        let tr = self.tiers@[t as int];
                        assert(tr.allocated@ + Seq::<usize>::empty() =~= tr.allocated@);
                    }
                    return Ok(Vec::new());
                }
                if v > self.max_nfts_per_transaction {
                    return Err(MintError::BatchLimitExceeded);
                }
                v
            },
            None => 1,
        };
        let price_amount = self.tiers[t].price.amount;
        let amount_ok = match price_amount.checked_mul(k as u128) {
            Some(total) => payment.amount == total,
            None => false,
        };
        if !(bytes_eq(&payment.token_id, &self.tiers[t].price.token_id) && amount_ok) {
            return Err(MintError::InvalidPayment);
        }
        let period = self.brands[b].mint_period;
        if now < period.start {
            return Err(MintError::NotYetOpen);
        }
        if now >= period.end {
            return Err(MintError::Closed);
        }
        let avail = self.tiers[t].available_ids.len();
        if avail == 0 {
            return Err(MintError::Exhausted);
        }
        if k > avail {
            return Err(MintError::NotEnoughAvailable);
        }
        let token_id = copy_bytes(&self.brands[b].token_id);
        let items = self.mint_and_send_random_nft(t, &token_id, draws, 0, k);
        Ok(items)
    }

    /// Sends, for each pair `(dest, count)` in turn, `count` items of tier
    /// `tier` of brand `brand_id` to `dest`, without payment or window. Only
    /// an administrator may call it. Draws run on from pair to pair. The
    /// result holds one delivery per pair, an empty one for a zero count. Any
    /// refusal leaves the minter unchanged.
    pub fn giveaway(
        &mut self,
        caller: &Vec<u8>,
        brand_id: &Vec<u8>,
        tier: &Vec<u8>,
        dest_amount_pairs: &Vec<(Vec<u8>, usize)>,
        draws: &Vec<u32>,
    ) -> (r: Result<Vec<Delivery>, MintError>)
        requires
            old(self).wf(),
        ensures
            final(self).wf(),
            giveaway_outcome(*old(self), *final(self), caller@, brand_id@, tier@, dest_amount_pairs@, draws@, r),
    {
        if !self.caller_is_admin(caller) {
            return Err(MintError::Unauthorized);
        }
        let b = match self.find_brand(brand_id) {
            Some(b) => b,
            None => return Err(MintError::UnknownBrand),
        };
        let t = match self.find_tier(brand_id, tier) {
            Some(t) => t,
            None => return Err(MintError::UnknownTier),
        };
        let ghost counts = counts_of(dest_amount_pairs@);
        let n = dest_amount_pairs.len();
        match first_shortfall(dest_amount_pairs, self.tiers[t].available_ids.len()) {
            Some(e) => return Err(e),
            None => {},
        }
        proof {
            assert(counts.subrange(0, n as int) =~= counts);
            let tr = self.tiers@[t as int];
            assert(tr.allocated@ + Seq::<usize>::empty() =~= tr.allocated@);
        }
        let token_id = copy_bytes(&self.brands[b].token_id);
        let ghost pool0 = self.tiers@[t as int].available_ids@;
        let ghost mut per: Seq<Seq<usize>> = Seq::empty();
        let ghost mut flat: Seq<usize> = Seq::empty();
        let mut deliveries: Vec<Delivery> = Vec::new();
        let mut offset: usize = 0;
        let mut i: usize = 0;
        while i < n
            invariant
                self.wf(),
                n == dest_amount_pairs@.len(),
                counts == counts_of(dest_amount_pairs@),
                i <= n,
                t < self.tiers@.len(),
                t as int == old(self).tier_index(brand_id@, tier@),
                token_id@ == old(self).brands@[b as int].token_id@,
                pool0 == old(self).tiers@[t as int].available_ids@,
                pool0.len() <= usize::MAX,
                b < old(self).brands@.len(),
                offset + self.tiers@[t as int].available_ids@.len() == pool0.len(),
                giveaway_shortfall(self.tiers@[t as int].available_ids@.len(), counts.subrange(i as int, n as int)) is None,
                giveaway_run(pool0, draws@, 0, counts) == ({
                    let rest = giveaway_run(self.tiers@[t as int].available_ids@, draws@, offset as int, counts.subrange(i as int, n as int));
                    (per + rest.0, flat + rest.1, rest.2)
                }),
                old(self).allocated_at(*self, t as int, flat, self.tiers@[t as int].available_ids@),
                per.len() == i,
                deliveries@.len() == i,
                forall|j: int| 0 <= j < i ==> {
                    &&& (#[trigger] deliveries@[j]).dest@ == dest_amount_pairs@[j].0@
                    &&& items_match(deliveries@[j].items@, token_id@, per[j])
                },
            decreases n - i,
        {
            let c = dest_amount_pairs[i].1;
            let ghost before = *self;
            let ghost pool_i = self.tiers@[t as int].available_ids@;
            proof {
                let rest_i = counts.subrange(i as int, n as int);
                assert(rest_i.drop_first() =~= counts.subrange(i + 1, n as int));
                assert(rest_i[0] == c);
                assert(rest_i.len() > 0);
                assert(c <= pool_i.len());
                lemma_draw_run(pool_i, draws@, offset as int, c as nat);
            }
            let items = self.mint_and_send_random_nft(t, &token_id, draws, offset, c);
            proof {
                let r = draw_run(pool_i, draws@, offset as int, c as nat);
                lemma_allocated_at_trans(*old(self), before, *self, t as int, flat, pool_i, r.0, r.1);
                let rest = giveaway_run(r.1, draws@, offset + c, counts.subrange(i + 1, n as int));
                assert(per + (seq![r.0] + rest.0) =~= per.push(r.0) + rest.0);
                assert(flat + (r.0 + rest.1) =~= (flat + r.0) + rest.1);
                per = per.push(r.0);
                flat = flat + r.0;
            }
            let dest = copy_bytes(&dest_amount_pairs[i].0);
            deliveries.push(Delivery { dest, items });
            offset = offset + c;
            i = i + 1;
        }
        proof {
            assert(counts.subrange(n as int, n as int) =~= Seq::<usize>::empty());
            assert(per + Seq::<Seq<usize>>::empty() =~= per);
            assert(flat + Seq::<usize>::empty() =~= flat);
        }
        Ok(deliveries)
    }

    /// How many indices tier `name` of brand `brand_id` still holds.
    pub fn remaining(&self, brand_id: &Vec<u8>, name: &Vec<u8>) -> (r: Option<usize>)
        requires
            self.wf(),
        ensures
            match r {
                Some(n) => self.has_tier(brand_id@, name@)
                    && n == self.tiers@[self.tier_index(brand_id@, name@)].available_ids@.len(),
                None => !self.has_tier(brand_id@, name@),
            },
    {
        match self.find_tier(brand_id, name) {
            Some(t) => Some(self.tiers[t].available_ids.len()),
            None => None,
        }
    }
}

/// The outcome of a purchase: a refusal exactly as `buy_check` gives it, with
/// nothing changed, or the owed items taken from the tier's pool.
pub open spec fn buy_outcome(
    before: MinterState,
    after: MinterState,
    brand_id: Seq<u8>,
    tier: Seq<u8>,
    payment_token: Seq<u8>,
    payment_amount: u128,
    opt_nfts_to_buy: Option<usize>,
    now: u64,
    draws: Seq<u32>,
    r: Result<Vec<Item>, MintError>,
) -> bool {
    match before.buy_check(brand_id, tier, payment_token, payment_amount, opt_nfts_to_buy, now) {
        Err(e) => r == Err::<Vec<Item>, MintError>(e) && after == before,
        Ok(k) => {
            let t = before.tier_index(brand_id, tier);
            let b = before.brand_index(brand_id);
            let run = draw_run(before.tiers@[t].available_ids@, draws, 0, k);
            &&& r is Ok
            &&& items_match(r->Ok_0@, before.brands@[b].token_id@, run.0)
            &&& before.allocated_at(after, t, run.0, run.1)
        },
    }
}

/// The outcome of a giveaway: a refusal exactly as `giveaway_check` gives
/// it, with nothing changed, or one delivery per pair taken from the tier's
/// pool.
pub open spec fn giveaway_outcome(
    before: MinterState,
    after: MinterState,
    caller: Seq<u8>,
    brand_id: Seq<u8>,
    tier: Seq<u8>,
    pairs: Seq<(Vec<u8>, usize)>,
    draws: Seq<u32>,
    r: Result<Vec<Delivery>, MintError>,
) -> bool {
    match before.giveaway_check(caller, brand_id, tier, counts_of(pairs)) {
        Some(e) => r == Err::<Vec<Delivery>, MintError>(e) && after == before,
        None => {
            let t = before.tier_index(brand_id, tier);
            let b = before.brand_index(brand_id);
            let run = giveaway_run(before.tiers@[t].available_ids@, draws, 0, counts_of(pairs));
            &&& r is Ok
            &&& r->Ok_0@.len() == pairs.len()
            &&& forall|i: int| 0 <= i < pairs.len() ==> {
                &&& (#[trigger] r->Ok_0@[i]).dest@ == pairs[i].0@
                &&& items_match(r->Ok_0@[i].items@, before.brands@[b].token_id@, run.0[i])
            }
            &&& before.allocated_at(after, t, run.1, run.2)
        },
    }
}

/// The minter's endpoints. Implementors hold the minter's state; purchase
/// and giveaway are provided on top of it.
pub trait NftMintingModule {
    /// The minter's state as it is stored.
    spec fn minter(&self) -> MinterState;

    /// Hands out the stored state for an update.
    fn minter_mut(&mut self) -> (r: &mut MinterState)
        ensures
            *r == old(self).minter(),
            final(self).minter() == *final(r),
    ;

    /// Buys `opt_nfts_to_buy` items (one when absent) of tier `tier` of brand
    /// `brand_id` at time `now`, paying `payment`; see `MinterState::buy`.
    fn buy_random_nft(
        &mut self,
        brand_id: &Vec<u8>,
        tier: &Vec<u8>,
        payment: &TokenAmount,
        opt_nfts_to_buy: Option<usize>,
        now: u64,
        draws: &Vec<u32>,
    ) -> (r: Result<Vec<Item>, MintError>)
        requires
            old(self).minter().wf(),
        ensures
            final(self).minter().wf(),
            buy_outcome(old(self).minter(), final(self).minter(), brand_id@, tier@, payment.token_id@, payment.amount, opt_nfts_to_buy, now, draws@, r),
    {
        self.minter_mut().buy(brand_id, tier, payment, opt_nfts_to_buy, now, draws)
    }

    /// Gives away items of tier `tier` of brand `brand_id` to each
    /// destination of `dest_amount_pairs`; see `MinterState::giveaway`.
    fn giveaway_nfts(
        &mut self,
        caller: &Vec<u8>,
        brand_id: &Vec<u8>,
        tier: &Vec<u8>,
        dest_amount_pairs: &Vec<(Vec<u8>, usize)>,
        draws: &Vec<u32>,
    ) -> (r: Result<Vec<Delivery>, MintError>)
        requires
            old(self).minter().wf(),
        ensures
            final(self).minter().wf(),
            giveaway_outcome(old(self).minter(), final(self).minter(), caller@, brand_id@, tier@, dest_amount_pairs@, draws@, r),
    {
        self.minter_mut().giveaway(caller, brand_id, tier, dest_amount_pairs, draws)
    }
}

impl NftMintingModule for MinterState {
    open spec fn minter(&self) -> MinterState {
        *self
    }

    fn minter_mut(&mut self) -> (r: &mut MinterState) {
        self
    }
}

/// Two allocations from one tier, one after the other, are one allocation
/// of both runs.
pub proof fn lemma_allocated_at_trans(
    s0: MinterState,
    s1: MinterState,
    s2: MinterState,
    t: int,
    a: Seq<usize>,
    left1: Seq<usize>,
    b: Seq<usize>,
    left2: Seq<usize>,
)
    requires
        0 <= t < s0.tiers@.len(),
        s0.allocated_at(s1, t, a, left1),
        s1.allocated_at(s2, t, b, left2),
    ensures
        s0.allocated_at(s2, t, a + b, left2),
{
    assert(s0.tiers@[t].allocated@ + a + b =~= s0.tiers@[t].allocated@ + (a + b));
}

/// The counts of a run of `(destination, count)` pairs.
pub open spec fn counts_of(pairs: Seq<(Vec<u8>, usize)>) -> Seq<usize> {
    pairs.map_values(|p: (Vec<u8>, usize)| p.1)
}

/// The pairs of a giveaway as byte strings and counts.
pub open spec fn pair_views(pairs: Seq<(Vec<u8>, usize)>) -> Seq<(Seq<u8>, usize)> {
    pairs.map_values(|p: (Vec<u8>, usize)| (p.0@, p.1))
}

/// The pairs whose count is not zero, in order.
pub open spec fn nonzero_pairs(pairs: Seq<(Seq<u8>, usize)>) -> Seq<(Seq<u8>, usize)>
    decreases pairs.len(),
{
    if pairs.len() == 0 {
        Seq::empty()
    } else {
        let rest = nonzero_pairs(pairs.drop_last());
        if pairs.last().1 > 0 {
            rest.push(pairs.last())
        } else {
            rest
        }
    }
}

/// The `(destination, count)` pairs that a giveaway's notification reports:
/// those with a nonzero count, in order.
pub fn giveaway_event_pairs(pairs: &Vec<(Vec<u8>, usize)>) -> (r: Vec<(Vec<u8>, usize)>)
    ensures
        pair_views(r@) == nonzero_pairs(pair_views(pairs@)),
{
    let mut out: Vec<(Vec<u8>, usize)> = Vec::new();
    let mut i: usize = 0;
    while i < pairs.len()
        invariant
            i <= pairs@.len(),
            pair_views(out@) == nonzero_pairs(pair_views(pairs@).subrange(0, i as int)),
        decreases pairs@.len() - i,
    {
        let ghost before = out@;
        let ghost prefix = pair_views(pairs@).subrange(0, i + 1);
        proof {
            assert(prefix.drop_last() =~= pair_views(pairs@).subrange(0, i as int));
            assert(prefix.last() == (pairs@[i as int].0@, pairs@[i as int].1));
        }
        if pairs[i].1 > 0 {
            let dest = copy_bytes(&pairs[i].0);
            out.push((dest, pairs[i].1));
            proof {
                assert(pair_views(out@) =~= pair_views(before).push(prefix.last()));
            }
        }
        i = i + 1;
    }
    proof {
        assert(pair_views(pairs@).subrange(0, pairs@.len() as int) =~= pair_views(pairs@));
    }
    out
}

/// The first shortfall that the counts of `pairs` meet against a pool of
/// `len` indices.
pub fn first_shortfall(pairs: &Vec<(Vec<u8>, usize)>, len: usize) -> (r: Option<MintError>)
    ensures
        r == giveaway_shortfall(len as nat, counts_of(pairs@)),
{
    let ghost counts = counts_of(pairs@);
    let n = pairs.len();
    let mut remaining = len;
    let mut i: usize = 0;
    proof {
        assert(counts.subrange(0, n as int) =~= counts);
    }
    while i < n
        invariant
            n == pairs@.len(),
            counts == counts_of(pairs@),
            i <= n,
            giveaway_shortfall(len as nat, counts) == giveaway_shortfall(remaining as nat, counts.subrange(i as int, n as int)),
        decreases n - i,
    {
        let c = pairs[i].1;
        proof {
            assert(counts.subrange(i as int, n as int).drop_first() =~= counts.subrange(i + 1, n as int));
            assert(counts.subrange(i as int, n as int)[0] == c);
        }
        if c > 0 {
            if remaining == 0 {
                return Some(MintError::Exhausted);
            }
            if c > remaining {
                return Some(MintError::NotEnoughAvailable);
            }
            remaining = remaining - c;
        }
        i = i + 1;
    }
    proof {
        assert(counts.subrange(n as int, n as int) =~= Seq::<usize>::empty());
    }
    None
}

/// An item of asset class `token_id` for each index of `ids`, in order.
pub fn make_items(token_id: &Vec<u8>, ids: &Vec<usize>) -> (r: Vec<Item>)
    ensures
        items_match(r@, token_id@, ids@),
{
    let mut items: Vec<Item> = Vec::new();
    let mut i: usize = 0;
    while i < ids.len()
        invariant
            i <= ids@.len(),
            items@.len() == i,
            forall|j: int| 0 <= j < i ==> {
                &&& (#[trigger] items@[j]).nft_id == ids@[j]
                &&& items@[j].token_id@ == token_id@
                &&& items@[j].amount == 1
            },
        decreases ids@.len() - i,
    {
        let item = Item { token_id: copy_bytes(token_id), nft_id: ids[i], amount: 1 };
        items.push(item);
        i = i + 1;
    }
    items
}

/// Whether two byte strings are equal.
pub fn bytes_eq(a: &Vec<u8>, b: &Vec<u8>) -> (r: bool)
    ensures
        r == (a@ == b@),
{
    if a.len() != b.len() {
        return false;
    }
    let mut i: usize = 0;
    while i < a.len()
        invariant
            a@.len() == b@.len(),
            i <= a@.len(),
            forall|j: int| 0 <= j < i ==> a@[j] == b@[j],
        decreases a@.len() - i,
    {
        if a[i] != b[i] {
            return false;
        }
        i = i + 1;
    }
    assert(a@ =~= b@);
    true
}

/// A fresh copy of a byte string.
pub fn copy_bytes(a: &Vec<u8>) -> (r: Vec<u8>)
    ensures
        r@ == a@,
{
    let r = a.clone();
    assert(r@ =~= a@);
    r
}

} // verus!
