use nft_minter::error::MintError;
use nft_minter::minter::{BrandInfo, Item, MintPeriod, MinterState, NftMintingModule, TokenAmount};

const BRAND: &[u8] = b"brand";
const TIER: &[u8] = b"gold";
const TOKEN: &[u8] = b"BRAND-123456";
const PRICE_TOKEN: &[u8] = b"EGLD";
const PRICE: u128 = 100;
const START: u64 = 50;
const END: u64 = 100;
const ADMIN: &[u8] = b"admin-address";
const USER: &[u8] = b"user-address";

fn brand_info() -> BrandInfo {
    BrandInfo {
        brand_id: BRAND.to_vec(),
        token_id: TOKEN.to_vec(),
        collection_hash: b"hash".to_vec(),
        media_type: b"png".to_vec(),
        token_display_name: b"Brand".to_vec(),
        royalties: 0,
        mint_period: MintPeriod { start: START, end: END },
    }
}

fn setup(max_per_tx: usize, max_nfts: usize) -> MinterState {
    let mut m = MinterState::new(max_per_tx);
    m.add_admin(ADMIN.to_vec());
    assert_eq!(m.add_brand(brand_info()), Ok(()));
    let price = TokenAmount { token_id: PRICE_TOKEN.to_vec(), amount: PRICE };
    assert_eq!(m.add_tier(&BRAND.to_vec(), TIER.to_vec(), max_nfts, price), Ok(()));
    m
}

fn pay(amount: u128) -> TokenAmount {
    TokenAmount { token_id: PRICE_TOKEN.to_vec(), amount }
}

fn remaining(m: &MinterState) -> usize {
    m.remaining(&BRAND.to_vec(), &TIER.to_vec()).unwrap()
}

fn buy(m: &mut MinterState, payment: TokenAmount, count: Option<usize>, now: u64, draws: &[u32]) -> Result<Vec<Item>, MintError> {
    m.buy_random_nft(&BRAND.to_vec(), &TIER.to_vec(), &payment, count, now, &draws.to_vec())
}

fn ids(items: &[Item]) -> Vec<usize> {
    items.iter().map(|i| i.nft_id).collect()
}

#[test]
fn buy_takes_items_at_drawn_positions() {
    let mut m = setup(10, 5);
    // pool [0,1,2,3,4]: draw 2 takes 2, pool [0,1,4,3]; draw 7 -> 7 % 4 = 3 takes 3.
    let items = buy(&mut m, pay(200), Some(2), START, &[2, 7]).unwrap();
    assert_eq!(ids(&items), vec![2, 3]);
    for it in &items {
        assert_eq!(it.token_id, TOKEN.to_vec());
        assert_eq!(it.amount, 1);
    }
    assert_eq!(remaining(&m), 3);
    assert_eq!(m.tiers[0].available_ids, vec![0, 1, 4]);
}

#[test]
fn buy_without_count_buys_one_and_missing_draws_count_as_zero() {
    let mut m = setup(10, 4);
    let items = buy(&mut m, pay(100), None, START, &[]).unwrap();
    assert_eq!(ids(&items), vec![0]);
    assert_eq!(m.tiers[0].available_ids, vec![3, 1, 2]);
}

#[test]
fn no_double_allocation_and_conservation() {
    let max = 7;
    let mut m = setup(3, max);
    let mut seen: Vec<usize> = Vec::new();
    let mut draw: u32 = 11;
    while remaining(&m) > 0 {
        let k = std::cmp::min(2, remaining(&m));
        let items = buy(&mut m, pay(PRICE * k as u128), Some(k), START + 1, &[draw, draw * 3]).unwrap();
        draw = draw * 7 + 5;
        seen.extend(ids(&items));
        assert_eq!(remaining(&m) + seen.len(), max);
    }
    let mut sorted = seen.clone();
    sorted.sort();
    assert_eq!(sorted, (0..max).collect::<Vec<usize>>());
    assert_eq!(buy(&mut m, pay(PRICE), None, START, &[0]).err(), Some(MintError::Exhausted));
}

#[test]
fn failed_batch_consumes_nothing() {
    let mut m = setup(10, 5);
    buy(&mut m, pay(300), Some(3), START, &[0, 0, 0]).unwrap();
    let before = m.tiers[0].available_ids.clone();
    assert_eq!(buy(&mut m, pay(300), Some(3), START, &[0, 0, 0]).err(), Some(MintError::NotEnoughAvailable));
    assert_eq!(remaining(&m), 2);
    assert_eq!(m.tiers[0].available_ids, before);
}

#[test]
fn payment_must_match_exactly() {
    let mut m = setup(10, 5);
    assert_eq!(buy(&mut m, pay(299), Some(3), START, &[]).err(), Some(MintError::InvalidPayment));
    assert_eq!(buy(&mut m, pay(301), Some(3), START, &[]).err(), Some(MintError::InvalidPayment));
    let wrong = TokenAmount { token_id: b"USDC-abcdef".to_vec(), amount: 300 };
    assert_eq!(buy(&mut m, wrong, Some(3), START, &[]).err(), Some(MintError::InvalidPayment));
    assert_eq!(remaining(&m), 5);
    assert_eq!(buy(&mut m, pay(300), Some(3), START, &[]).map(|v| v.len()), Ok(3));
}

#[test]
fn payment_overflowing_total_is_invalid() {
    let mut m = MinterState::new(10);
    m.add_brand(brand_info()).unwrap();
    let price = TokenAmount { token_id: PRICE_TOKEN.to_vec(), amount: u128::MAX };
    m.add_tier(&BRAND.to_vec(), TIER.to_vec(), 5, price).unwrap();
    assert_eq!(buy(&mut m, pay(u128::MAX), Some(2), START, &[]).err(), Some(MintError::InvalidPayment));
    assert_eq!(buy(&mut m, pay(u128::MAX), Some(1), START, &[]).map(|v| v.len()), Ok(1));
}

#[test]
fn window_boundaries() {
    let mut m = setup(10, 5);
    assert_eq!(buy(&mut m, pay(100), None, START - 1, &[]).err(), Some(MintError::NotYetOpen));
    assert_eq!(buy(&mut m, pay(100), None, END, &[]).err(), Some(MintError::Closed));
    assert_eq!(remaining(&m), 5);
    assert_eq!(buy(&mut m, pay(100), None, START, &[]).map(|v| v.len()), Ok(1));
    assert_eq!(buy(&mut m, pay(100), None, END - 1, &[]).map(|v| v.len()), Ok(1));
}

#[test]
fn zero_count_is_a_no_op() {
    let mut m = setup(10, 5);
    let r = buy(&mut m, pay(12345), Some(0), 0, &[]).unwrap();
    assert!(r.is_empty());
    assert_eq!(remaining(&m), 5);
}

#[test]
fn batch_limit_exceeded() {
    let mut m = setup(10, 20);
    assert_eq!(buy(&mut m, pay(1100), Some(11), START, &[]).err(), Some(MintError::BatchLimitExceeded));
    assert_eq!(remaining(&m), 20);
    assert_eq!(buy(&mut m, pay(1000), Some(10), START, &[]).map(|v| v.len()), Ok(10));
}

#[test]
fn unknown_brand_and_tier() {
    let mut m = setup(10, 5);
    let r = m.buy_random_nft(&b"other".to_vec(), &TIER.to_vec(), &pay(100), None, START, &vec![]);
    assert_eq!(r.err(), Some(MintError::UnknownBrand));
    let r = m.buy_random_nft(&BRAND.to_vec(), &b"silver".to_vec(), &pay(100), None, START, &vec![]);
    assert_eq!(r.err(), Some(MintError::UnknownTier));
    assert_eq!(m.remaining(&BRAND.to_vec(), &b"silver".to_vec()), None);
}

#[test]
fn setup_refusals() {
    let mut m = setup(10, 5);
    assert_eq!(m.add_brand(brand_info()), Err(MintError::BrandAlreadyExists));
    let mut bad = brand_info();
    bad.brand_id = b"late".to_vec();
    bad.mint_period = MintPeriod { start: 10, end: 10 };
    assert_eq!(m.add_brand(bad), Err(MintError::InvalidMintPeriod));
    let price = TokenAmount { token_id: PRICE_TOKEN.to_vec(), amount: 1 };
    assert_eq!(m.add_tier(&BRAND.to_vec(), TIER.to_vec(), 3, price), Err(MintError::TierAlreadyExists));
    let price = TokenAmount { token_id: PRICE_TOKEN.to_vec(), amount: 1 };
    assert_eq!(m.add_tier(&b"none".to_vec(), TIER.to_vec(), 3, price), Err(MintError::UnknownBrand));
}

#[test]
fn giveaway_requires_admin() {
    let mut m = setup(10, 5);
    let pairs = vec![(USER.to_vec(), 2usize)];
    let r = m.giveaway_nfts(&USER.to_vec(), &BRAND.to_vec(), &TIER.to_vec(), &pairs, &vec![]);
    assert_eq!(r.err(), Some(MintError::Unauthorized));
    assert_eq!(remaining(&m), 5);
    assert!(m.caller_is_admin(&ADMIN.to_vec()));
    assert!(!m.caller_is_admin(&USER.to_vec()));
}

#[test]
fn giveaway_sends_from_the_shared_pool() {
    let mut m = setup(10, 5);
    let pairs = vec![(USER.to_vec(), 2usize), (b"nobody".to_vec(), 0usize), (ADMIN.to_vec(), 1usize)];
    // pool [0,1,2,3,4]: draw 1 takes 1 -> [0,4,2,3]; draw 0 takes 0 -> [3,4,2];
    // draw 5 -> 5 % 3 = 2 takes 2 -> [3,4].
    let r = m.giveaway_nfts(&ADMIN.to_vec(), &BRAND.to_vec(), &TIER.to_vec(), &pairs, &vec![1, 0, 5]).unwrap();
    assert_eq!(r.len(), 3);
    assert_eq!(r[0].dest, USER.to_vec());
    assert_eq!(ids(&r[0].items), vec![1, 0]);
    assert!(r[1].items.is_empty());
    assert_eq!(ids(&r[2].items), vec![2]);
    assert_eq!(m.tiers[0].available_ids, vec![3, 4]);
    // the purchase path now finds only two left
    assert_eq!(buy(&mut m, pay(300), Some(3), START, &[]).err(), Some(MintError::NotEnoughAvailable));
}

#[test]
fn giveaway_shortfall_changes_nothing() {
    let mut m = setup(10, 3);
    let pairs = vec![(USER.to_vec(), 2usize), (ADMIN.to_vec(), 2usize)];
    let r = m.giveaway_nfts(&ADMIN.to_vec(), &BRAND.to_vec(), &TIER.to_vec(), &pairs, &vec![]);
    assert_eq!(r.err(), Some(MintError::NotEnoughAvailable));
    assert_eq!(remaining(&m), 3);
    let pairs = vec![(USER.to_vec(), 3usize), (ADMIN.to_vec(), 1usize)];
    let r = m.giveaway_nfts(&ADMIN.to_vec(), &BRAND.to_vec(), &TIER.to_vec(), &pairs, &vec![]);
    assert_eq!(r.err(), Some(MintError::Exhausted));
    assert_eq!(m.tiers[0].available_ids, vec![0, 1, 2]);
}

#[test]
fn giveaway_unknown_brand_or_tier() {
    let mut m = setup(10, 3);
    let pairs = vec![(USER.to_vec(), 1usize)];
    let r = m.giveaway_nfts(&ADMIN.to_vec(), &b"x".to_vec(), &TIER.to_vec(), &pairs, &vec![]);
    assert_eq!(r.err(), Some(MintError::UnknownBrand));
    let r = m.giveaway_nfts(&ADMIN.to_vec(), &BRAND.to_vec(), &b"x".to_vec(), &pairs, &vec![]);
    assert_eq!(r.err(), Some(MintError::UnknownTier));
}

#[test]
fn giveaway_event_skips_zero_counts() {
    let pairs = vec![(b"a".to_vec(), 2usize), (b"b".to_vec(), 0usize), (b"c".to_vec(), 1usize)];
    let r = nft_minter::minter::giveaway_event_pairs(&pairs);
    assert_eq!(r, vec![(b"a".to_vec(), 2usize), (b"c".to_vec(), 1usize)]);
    assert!(nft_minter::minter::giveaway_event_pairs(&vec![(b"x".to_vec(), 0usize)]).is_empty());
}
