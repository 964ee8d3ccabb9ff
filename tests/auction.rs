use influencer_stocks::market::Market;
use influencer_stocks::types::{MarketError, Transfer, AUCTION_DURATION, TOTAL_SHARES};

const OWNER: u64 = 1000;
const INFLUENCER: u64 = 1;
const BIDDER: u64 = 2;
const BIDDER_2: u64 = 3;
const T0: u64 = 1_700_000_000_000;

fn market_with_auction() -> Market {
    let mut m = Market::new(OWNER);
    assert_eq!(m.create_stock(INFLUENCER, "TEST".to_string(), T0), Ok(1));
    assert_eq!(m.start_auction(INFLUENCER, 1, T0), Ok(()));
    m
}

#[test]
fn test_start_auction_success() {
    let m = market_with_auction();
    let stock = m.get_stock_by_id(1).unwrap();
    assert_eq!(stock.auction_start, Some(T0));
    assert_eq!(stock.auction_end, Some(T0 + 24 * 60 * 60 * 1000));
    assert_eq!(stock.total_shares, TOTAL_SHARES);
    let floor = m.get_bid_by_id(1).unwrap();
    assert_eq!(floor.bidder, INFLUENCER);
    assert_eq!(floor.price_per_share, 0);
    assert_eq!(floor.remaining_shares, 1_000_000);
    assert!(floor.open && floor.active);
}

#[test]
fn test_start_auction_unauthorized() {
    let mut m = Market::new(OWNER);
    m.create_stock(INFLUENCER, "INF1_1".to_string(), T0).unwrap();
    assert_eq!(m.start_auction(BIDDER, 1, T0), Err(MarketError::Unauthorized));
}

#[test]
fn test_start_auction_already_active() {
    let mut m = market_with_auction();
    assert_eq!(m.start_auction(INFLUENCER, 1, T0 + 5), Err(MarketError::AuctionAlreadyStarted));
}

#[test]
fn test_start_auction_nonexistent_stock() {
    let mut m = Market::new(OWNER);
    assert_eq!(m.start_auction(INFLUENCER, 999, T0), Err(MarketError::StockNotFound));
}

#[test]
fn test_start_auction_after_end() {
    let mut m = market_with_auction();
    let later = T0 + AUCTION_DURATION + 1;
    assert_eq!(m.start_auction(INFLUENCER, 1, later), Err(MarketError::AlreadyInSale));
}

#[test]
fn test_auction_duration() {
    let m = market_with_auction();
    let stock = m.get_stock_by_id(1).unwrap();
    assert_eq!(stock.auction_end.unwrap() - stock.auction_start.unwrap(), 24 * 60 * 60 * 1000);
}

#[test]
fn test_place_bid_success() {
    let mut m = market_with_auction();
    let min = m.get_minimum_bid_price(1, 100_000).unwrap();
    assert_eq!((min.min_price, min.shares_requested), (1, 100_000));
    let out = m.place_bid(BIDDER, 1, 10, 100_000, 1_000_000, T0 + 1).unwrap();
    assert_eq!(out.id, 2);
    // the floor bid is refunded nothing; the influencer gets everything
    assert_eq!(out.transfers, vec![Transfer { to: INFLUENCER, amount: 1_000_000 }]);
    let bid = m.get_bid_by_id(2).unwrap();
    assert_eq!(bid.bidder, BIDDER);
    assert_eq!(bid.stock_id, 1);
    assert_eq!(bid.price_per_share, 10);
    assert_eq!(bid.shares_requested, 100_000);
    assert!(bid.open && bid.active);
    let open = m.get_open_bids_by_stock(1);
    assert_eq!(open.len(), 2);
    assert_eq!((open[0].id, open[0].remaining_shares), (1, 900_000));
    assert_eq!((open[1].id, open[1].remaining_shares), (2, 100_000));

    assert_eq!(m.get_minimum_bid_price(1, 950_000).unwrap().min_price, 11);
    let out = m.place_bid(BIDDER_2, 1, 11, 950_000, 10_450_000, T0 + 2).unwrap();
    assert_eq!(
        out.transfers,
        vec![
            Transfer { to: BIDDER, amount: 500_000 },
            Transfer { to: INFLUENCER, amount: 9_950_000 },
        ]
    );
    let total: u128 = out.transfers.iter().map(|t| t.amount).sum();
    assert_eq!(total, 10_450_000);
    let floor = m.get_bid_by_id(1).unwrap();
    assert!(!floor.open);
    assert_eq!(floor.remaining_shares, 0);
    let first = m.get_bid_by_id(2).unwrap();
    assert!(first.open);
    assert_eq!(first.remaining_shares, 50_000);
    assert_eq!(m.get_bid_by_id(3).unwrap().remaining_shares, 950_000);
}

#[test]
fn test_excess_fund_refund() {
    let mut m = market_with_auction();
    let out = m.place_bid(BIDDER, 1, 10, 100, 1_500, T0 + 1).unwrap();
    assert_eq!(
        out.transfers,
        vec![Transfer { to: BIDDER, amount: 500 }, Transfer { to: INFLUENCER, amount: 1_000 }]
    );
}

#[test]
fn test_auction_inactive() {
    let mut m = Market::new(OWNER);
    m.create_stock(INFLUENCER, "TEST".to_string(), T0).unwrap();
    assert_eq!(m.place_bid(BIDDER, 1, 10, 100, 1_000, T0), Err(MarketError::AuctionNotStarted));
}

#[test]
fn test_bid_on_nonexistent_stock() {
    let mut m = Market::new(OWNER);
    assert_eq!(m.place_bid(BIDDER, 999, 10, 100, 1_000, T0), Err(MarketError::StockNotFound));
}

#[test]
fn test_bid_on_expired_stock() {
    let mut m = market_with_auction();
    let later = T0 + 24 * 60 * 60 * 1000 + 1000;
    assert_eq!(m.place_bid(BIDDER, 1, 10, 100, 1_000, later), Err(MarketError::AuctionEnded));
}

#[test]
fn bid_at_auction_end_is_accepted_and_one_ms_later_refused() {
    let mut m = market_with_auction();
    let end = T0 + AUCTION_DURATION;
    assert_eq!(m.place_bid(BIDDER, 1, 10, 100, 1_000, end + 1), Err(MarketError::AuctionEnded));
    assert!(m.place_bid(BIDDER, 1, 10, 100, 1_000, end).is_ok());
}

#[test]
fn test_bid_below_minimum_price() {
    let mut m = market_with_auction();
    m.place_bid(BIDDER, 1, 10, TOTAL_SHARES, 10 * TOTAL_SHARES as u128, T0 + 1).unwrap();
    assert_eq!(m.get_minimum_bid_price(1, 50).unwrap().min_price, 11);
    assert_eq!(m.place_bid(BIDDER_2, 1, 10, 50, 500, T0 + 2), Err(MarketError::BidTooLow));
}

#[test]
fn exactly_used_up_bid_is_closed() {
    let mut m = market_with_auction();
    m.place_bid(BIDDER, 1, 10, TOTAL_SHARES, 10 * TOTAL_SHARES as u128, T0 + 1).unwrap();
    let floor = m.get_bid_by_id(1).unwrap();
    assert!(!floor.open);
    assert_eq!(floor.remaining_shares, 0);
    assert_eq!(m.get_open_bids_by_stock(1).len(), 1);
}

#[test]
fn bid_beyond_supply_is_refused() {
    let mut m = market_with_auction();
    assert_eq!(m.place_bid(BIDDER, 1, 0, 2_000_000, 0, T0 + 1), Err(MarketError::ExceedsSupply));
    assert_eq!(m.get_open_bids_by_stock(1).len(), 1);
}

#[test]
fn zero_share_bid_is_refused() {
    let mut m = market_with_auction();
    assert_eq!(m.place_bid(BIDDER, 1, 10, 0, 0, T0 + 1), Err(MarketError::ZeroShares));
}

#[test]
fn end_auction_twice_in_one_millisecond_is_refused() {
    let mut m = market_with_auction();
    m.end_auction(INFLUENCER, 1, T0 + 10).unwrap();
    assert_eq!(m.end_auction(INFLUENCER, 1, T0 + 10), Err(MarketError::AlreadyInSale));
    assert_eq!(m.place_bid(BIDDER, 1, 10, 100, 1_000, T0 + 10), Err(MarketError::AuctionEnded));
    assert_eq!(m.get_shares_by_owner(INFLUENCER)[0].no_of_shares, TOTAL_SHARES);
}

#[test]
fn test_sent_funds_less_than_expected_amount() {
    let mut m = market_with_auction();
    assert_eq!(m.place_bid(BIDDER, 1, 10, 100, 999, T0 + 1), Err(MarketError::InsufficientFunds));
}

#[test]
fn bid_price_overflow_is_refused() {
    let mut m = market_with_auction();
    assert_eq!(m.place_bid(BIDDER, 1, u128::MAX, 2, u128::MAX, T0 + 1), Err(MarketError::Overflow));
}

#[test]
fn test_place_bids_and_end_auction_success() {
    let mut m = market_with_auction();
    m.place_bid(BIDDER, 1, 10, 100_000, 1_000_000, T0 + 1).unwrap();
    m.place_bid(BIDDER_2, 1, 11, 950_000, 10_450_000, T0 + 2).unwrap();
    assert_eq!(m.end_auction(INFLUENCER, 1, T0 + 3), Ok(true));
    assert_eq!(m.get_stock_by_id(1).unwrap().auction_end, Some(T0 + 3));
    let shares = m.get_shares_by_stock_id(1);
    assert_eq!(shares.len(), 2);
    assert_eq!((shares[0].owner, shares[0].no_of_shares), (BIDDER_2, 950_000));
    assert_eq!((shares[1].owner, shares[1].no_of_shares), (BIDDER, 50_000));
    let total: u64 = shares.iter().map(|s| s.no_of_shares).sum();
    assert_eq!(total, 1_000_000);
    for bid in m.get_bids_by_stock_id(1) {
        assert!(!bid.open && !bid.active);
    }
}

#[test]
fn end_auction_test_end_auction_success() {
    let mut m = market_with_auction();
    assert_eq!(m.end_auction(INFLUENCER, 1, T0 + 10), Ok(true));
    let shares = m.get_shares_by_owner(INFLUENCER);
    assert_eq!(shares.len(), 1);
    assert_eq!(shares[0].no_of_shares, 1_000_000);
}

#[test]
fn end_auction_test_end_auction_by_owner() {
    let mut m = market_with_auction();
    assert_eq!(m.end_auction(OWNER, 1, T0 + 10), Ok(false));
}

#[test]
fn end_auction_test_end_auction_unauthorized() {
    let mut m = market_with_auction();
    assert_eq!(m.end_auction(BIDDER, 1, T0 + 10), Err(MarketError::Unauthorized));
}

#[test]
fn end_auction_test_end_auction_inactive() {
    let mut m = Market::new(OWNER);
    m.create_stock(INFLUENCER, "INF1_1".to_string(), T0).unwrap();
    assert_eq!(m.end_auction(INFLUENCER, 1, T0), Err(MarketError::AuctionNotStarted));
}

#[test]
fn end_auction_test_end_auction_nonexistent_stock() {
    let mut m = Market::new(OWNER);
    assert_eq!(m.end_auction(INFLUENCER, 999, T0), Err(MarketError::StockNotFound));
}

#[test]
fn end_auction_twice_is_refused() {
    let mut m = market_with_auction();
    m.end_auction(INFLUENCER, 1, T0 + 10).unwrap();
    assert_eq!(m.end_auction(INFLUENCER, 1, T0 + 11), Err(MarketError::AlreadyInSale));
}
