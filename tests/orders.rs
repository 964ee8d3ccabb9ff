use influencer_stocks::ledger::balance_of;
use influencer_stocks::market::Market;
use influencer_stocks::types::{MarketError, OrderSort, Transfer};

const OWNER: u64 = 1000;
const INFLUENCER: u64 = 1;
const BIDDER: u64 = 2;
const BIDDER_2: u64 = 3;
const BUYER: u64 = 10;
const BUYER_2: u64 = 11;
const T0: u64 = 1_700_000_000_000;
const T1: u64 = T0 + 100;

/// A stock whose auction is over: `BIDDER` holds 50,000 shares and
/// `BIDDER_2` 950,000.
fn market_in_sale() -> Market {
    let mut m = Market::new(OWNER);
    m.create_stock(INFLUENCER, "TEST".to_string(), T0).unwrap();
    m.start_auction(INFLUENCER, 1, T0).unwrap();
    m.place_bid(BIDDER, 1, 10, 100_000, 1_000_000, T0 + 1).unwrap();
    m.place_bid(BIDDER_2, 1, 11, 950_000, 10_450_000, T0 + 2).unwrap();
    m.end_auction(INFLUENCER, 1, T0 + 3).unwrap();
    m
}

fn holding(m: &Market, owner: u64) -> u64 {
    balance_of(&m.shares, 1, owner)
}

fn stock_total(m: &Market) -> u64 {
    m.get_shares_by_stock_id(1).iter().map(|s| s.no_of_shares).sum()
}

#[test]
fn sell_matches_best_price_then_oldest() {
    let mut m = market_in_sale();
    let b1 = m.create_buy_order(BUYER, 1, 10, 100, 1_000, T1).unwrap();
    let b2 = m.create_buy_order(BUYER_2, 1, 12, 100, 1_200, T1 + 1).unwrap();
    assert!(b1.transfers.is_empty() && b2.transfers.is_empty());
    let out = m.create_sell_order(BIDDER_2, 1, 5, 200, T1 + 2).unwrap();
    assert_eq!(
        out.transfers,
        vec![Transfer { to: BIDDER_2, amount: 1_200 }, Transfer { to: BIDDER_2, amount: 1_000 }]
    );
    let sales = m.get_sales_by_stock_id(1);
    // newest first: the second sale went to the older, cheaper order
    assert_eq!((sales[1].to, sales[1].price_per_share, sales[1].no_of_shares), (BUYER_2, 12, 100));
    assert_eq!((sales[0].to, sales[0].price_per_share, sales[0].no_of_shares), (BUYER, 10, 100));
    assert_eq!(holding(&m, BUYER), 100);
    assert_eq!(holding(&m, BUYER_2), 100);
    assert_eq!(holding(&m, BIDDER_2), 949_800);
    assert!(m.get_sell_order_by_id(out.id).unwrap().resolved_at.is_some());
    assert_eq!(stock_total(&m), 1_000_000);
}

#[test]
fn open_orders_sort_by_price_and_time() {
    let mut m = market_in_sale();
    m.create_buy_order(BUYER, 1, 5, 10, 50, T1 + 3).unwrap();
    m.create_buy_order(BUYER, 1, 7, 10, 70, T1 + 1).unwrap();
    m.create_buy_order(BUYER_2, 1, 5, 10, 50, T1 + 2).unwrap();
    let ids = |v: Vec<influencer_stocks::types::BuyOrder>| v.iter().map(|o| o.id).collect::<Vec<_>>();
    assert_eq!(ids(m.get_open_buy_orders_by_stock_id(1, OrderSort::PriceDesc)), vec![2, 1, 3]);
    assert_eq!(ids(m.get_open_buy_orders_by_stock_id(1, OrderSort::PriceAsc)), vec![1, 3, 2]);
    assert_eq!(ids(m.get_open_buy_orders_by_stock_id(1, OrderSort::CreatedAtAsc)), vec![2, 3, 1]);
    assert_eq!(ids(m.get_open_buy_orders_by_stock_id(1, OrderSort::CreatedAtDesc)), vec![1, 3, 2]);
    assert_eq!(ids(m.get_open_buy_orders_by_owner(BUYER, OrderSort::PriceAsc)), vec![1, 2]);
}

#[test]
fn order_validation() {
    let mut m = market_in_sale();
    assert_eq!(m.create_buy_order(BUYER, 1, 10, 0, 0, T1), Err(MarketError::ZeroShares));
    assert_eq!(m.create_buy_order(BUYER, 1, 0, 10, 0, T1), Err(MarketError::ZeroPrice));
    assert_eq!(m.create_buy_order(BUYER, 1, 10, 10, 99, T1), Err(MarketError::InsufficientFunds));
    assert_eq!(m.create_buy_order(BUYER, 9, 10, 10, 100, T1), Err(MarketError::StockNotFound));
    assert_eq!(m.create_sell_order(BUYER, 1, 10, 10, T1), Err(MarketError::NoShares));
    assert_eq!(m.create_sell_order(BIDDER, 1, 10, 50_001, T1), Err(MarketError::InsufficientShares));
    let mut fresh = Market::new(OWNER);
    fresh.create_stock(INFLUENCER, "NEW".to_string(), T0).unwrap();
    fresh.start_auction(INFLUENCER, 1, T0).unwrap();
    assert_eq!(fresh.create_buy_order(BUYER, 1, 10, 10, 100, T0 + 1), Err(MarketError::NotInSale));
}

#[test]
fn cancel_orders() {
    let mut m = market_in_sale();
    let b = m.create_buy_order(BUYER, 1, 10, 10, 100, T1).unwrap();
    let s = m.create_sell_order(BIDDER, 1, 50, 10, T1).unwrap();
    assert_eq!(m.cancel_buy_order(BUYER_2, b.id, T1 + 1), Err(MarketError::Unauthorized));
    assert_eq!(m.cancel_buy_order(BUYER, b.id, T1 + 1), Ok(()));
    assert_eq!(m.get_buy_order_by_id(b.id).unwrap().resolved_at, Some(T1 + 1));
    assert_eq!(m.cancel_buy_order(BUYER, b.id, T1 + 2), Err(MarketError::OrderResolved));
    assert_eq!(m.cancel_sell_order(BIDDER, s.id, T1 + 1), Ok(()));
    assert_eq!(m.cancel_sell_order(BIDDER, 77, T1 + 1), Err(MarketError::OrderNotFound));
    assert!(m.get_open_sell_orders_by_stock_id(1, OrderSort::PriceAsc).is_empty());
}

#[test]
fn quick_sell_is_all_or_nothing() {
    let mut m = market_in_sale();
    m.create_buy_order(BUYER, 1, 8, 10, 80, T1).unwrap();
    assert_eq!(m.quick_sell(BIDDER, 1, 11, 8, 0, T1 + 1), Err(MarketError::InsufficientVolume));
    assert_eq!(m.get_total_buy_order_volume(1).unwrap().amount, 10);
}

#[test]
fn repeated_queries_agree() {
    let mut m = market_in_sale();
    m.create_buy_order(BUYER, 1, 9, 30, 270, T1).unwrap();
    m.create_sell_order(BIDDER, 1, 11, 40, T1).unwrap();
    assert_eq!(m.get_buy_price(1, 20), m.get_buy_price(1, 20));
    assert_eq!(m.get_sell_price(1, 20), m.get_sell_price(1, 20));
    assert_eq!(m.get_open_bids_by_stock(1), m.get_open_bids_by_stock(1));
    assert_eq!(m.get_sales_by_user(BUYER), m.get_sales_by_user(BUYER));
    assert_eq!(m.get_all_stocks(None, None, Some(true), T1), m.get_all_stocks(None, None, Some(true), T1));
}

#[test]
fn stock_listings() {
    let mut m = Market::new(OWNER);
    for i in 0..5u64 {
        m.create_stock(INFLUENCER + (i % 2), format!("INF{}", i), T0).unwrap();
    }
    m.start_auction(INFLUENCER, 1, T0).unwrap();
    let ids = |v: Vec<influencer_stocks::types::Stock>| v.iter().map(|s| s.id).collect::<Vec<_>>();
    assert_eq!(ids(m.get_all_stocks(None, None, None, T0)), vec![5, 4, 3, 2, 1]);
    assert_eq!(ids(m.get_all_stocks(Some(3), None, None, T0)), vec![2, 1]);
    assert_eq!(ids(m.get_all_stocks(None, Some(true), None, T0)), vec![1]);
    assert_eq!(ids(m.get_stocks_by_influencer(INFLUENCER, None)), vec![5, 3, 1]);
    assert_eq!(ids(m.get_stocks_by_influencer(INFLUENCER, Some(5))), vec![3, 1]);
    assert!(m.get_stocks_by_influencer(99, None).is_empty());
    assert_eq!(m.get_stock_by_id(999), Err(MarketError::StockNotFound));
}

#[test]
fn resting_sell_without_shares_fails_settlement() {
    let mut m = market_in_sale();
    m.create_sell_order(BIDDER, 1, 20, 50_000, T1).unwrap();
    m.create_buy_order(BUYER, 1, 10, 50_000, 500_000, T1 + 1).unwrap();
    // the seller sells the same shares elsewhere
    m.quick_sell(BIDDER, 1, 50_000, 10, 0, T1 + 2).unwrap();
    assert_eq!(holding(&m, BIDDER), 0);
    let sells = m.sell_orders.clone();
    let shares = m.shares.clone();
    assert_eq!(m.create_buy_order(BUYER_2, 1, 20, 10, 200, T1 + 3), Err(MarketError::SettlementFailed));
    assert_eq!(m.sell_orders, sells);
    assert_eq!(m.shares, shares);
    assert_eq!(stock_total(&m), 1_000_000);
}

#[test]
fn lookups_of_missing_records() {
    let m = market_in_sale();
    assert_eq!(m.get_bid_by_id(0), Err(MarketError::BidNotFound));
    assert_eq!(m.get_bid_by_id(99), Err(MarketError::BidNotFound));
    assert_eq!(m.get_shares_by_id(99), Err(MarketError::ShareNotFound));
    assert_eq!(m.get_sale_by_id(1), Err(MarketError::SaleNotFound));
    assert_eq!(m.get_sell_order_by_id(1), Err(MarketError::OrderNotFound));
    assert_eq!(m.get_buy_order_by_id(1), Err(MarketError::OrderNotFound));
    assert_eq!(m.get_shares_by_id(1).unwrap().owner, BIDDER);
}

#[test]
fn sales_by_user_and_quotes_floor_division() {
    let mut m = market_in_sale();
    m.create_sell_order(BIDDER, 1, 10, 1, T1).unwrap();
    m.create_sell_order(BIDDER, 1, 11, 1, T1 + 1).unwrap();
    m.create_sell_order(BIDDER, 1, 11, 1, T1 + 2).unwrap();
    // 10 + 11 + 11 = 32 over 3 shares is 10 a share, rounded down
    let quote = m.get_buy_price(1, 3).unwrap();
    assert_eq!((quote.total_price, quote.price_per_share), (32, 10));
    assert_eq!(m.get_buy_price(1, 4), Err(MarketError::InsufficientVolume));
    assert_eq!(m.get_sell_price(1, 1), Err(MarketError::InsufficientVolume));
    m.quick_buy(BUYER, 1, 2, 0, 21, T1 + 5).unwrap();
    let by_user = m.get_sales_by_user(BUYER);
    assert_eq!(by_user.buy.len(), 2);
    assert!(by_user.sell.is_empty());
    assert_eq!(m.get_sales_by_user(BIDDER).sell.len(), 2);
    assert_eq!(m.get_sale_by_id(1).unwrap().price_per_share, 10);
}

/// A stock whose auction is over with one bid: `BIDDER` holds 100,000
/// shares and the influencer the 900,000 of the floor bid.
fn market_with_one_holder() -> Market {
    let mut m = Market::new(OWNER);
    m.create_stock(INFLUENCER, "TEST".to_string(), T0).unwrap();
    m.start_auction(INFLUENCER, 1, T0).unwrap();
    m.place_bid(BIDDER, 1, 10, 100_000, 1_000_000, T0 + 1).unwrap();
    m.end_auction(INFLUENCER, 1, T0 + 3).unwrap();
    m
}

#[test]
fn test_create_multiple_sell_multiple_buy_orders() {
    let mut m = market_in_sale();
    m.create_sell_order(BIDDER_2, 1, 20, 1000, T1).unwrap();
    m.create_sell_order(BIDDER_2, 1, 30, 5000, T1).unwrap();
    m.create_sell_order(BIDDER_2, 1, 25, 5000, T1).unwrap();
    let ids: Vec<u64> = m.get_open_sell_orders_by_stock_id(1, OrderSort::PriceAsc).iter().map(|o| o.id).collect();
    assert_eq!(ids, vec![1, 3, 2]);

    let out = m.create_buy_order(BUYER, 1, 30, 5000, 150_000, T1 + 1).unwrap();
    let to_seller: u128 = out.transfers.iter().filter(|t| t.to == BIDDER_2).map(|t| t.amount).sum();
    assert_eq!(to_seller, 20 * 1000 + 25 * 4000);
    let refund: u128 = out.transfers.iter().filter(|t| t.to == BUYER).map(|t| t.amount).sum();
    assert_eq!(150_000 - refund, 20 * 1000 + 25 * 4000);
    assert_eq!(m.get_open_buy_orders_by_stock_id(1, OrderSort::PriceDesc).len(), 0);
    let sells = m.get_open_sell_orders_by_stock_id(1, OrderSort::PriceAsc);
    assert_eq!(sells.len(), 2);
    assert_eq!((sells[0].price_per_share, sells[0].sold_shares), (25, 4000));
    assert_eq!((sells[1].price_per_share, sells[1].sold_shares), (30, 0));
    let sales = m.get_sales_by_stock_id(1);
    assert_eq!(sales.len(), 2);
    assert_eq!((sales[0].from, sales[0].to, sales[0].no_of_shares, sales[0].price_per_share), (BIDDER_2, BUYER, 4000, 25));
    assert_eq!((sales[1].from, sales[1].to, sales[1].no_of_shares, sales[1].price_per_share), (BIDDER_2, BUYER, 1000, 20));
    assert_eq!(holding(&m, BUYER), 5000);
    assert_eq!(holding(&m, BIDDER_2), 950_000 - 5000);

    // three resting buy orders hold 95,000 between them
    let mut held: u128 = 0;
    for (price, shares, sent) in [(10u128, 5000u64, 50_000u128), (5, 5000, 25_000), (20, 1000, 20_000)] {
        let out = m.create_buy_order(BUYER, 1, price, shares, sent, T1 + 2).unwrap();
        let paid: u128 = out.transfers.iter().map(|t| t.amount).sum();
        held += sent - paid;
    }
    assert_eq!(held, 95_000);
    let out = m.create_sell_order(BIDDER, 1, 2, 5000, T1 + 3).unwrap();
    let paid: u128 = out.transfers.iter().map(|t| t.amount).sum();
    assert_eq!(paid, 20 * 1000 + 10 * 4000);
    let buys = m.get_open_buy_orders_by_stock_id(1, OrderSort::PriceDesc);
    assert_eq!(buys.len(), 2);
    assert_eq!((buys[0].price_per_share, buys[0].bought_shares), (10, 4000));
    assert_eq!((buys[1].price_per_share, buys[1].bought_shares), (5, 0));
    assert_eq!(stock_total(&m), 1_000_000);
}

#[test]
fn test_quick_buy() {
    let mut m = market_in_sale();
    m.create_sell_order(BIDDER, 1, 12, 20_000, T1).unwrap();
    m.create_sell_order(BIDDER_2, 1, 15, 30_000, T1).unwrap();
    let quote = m.get_buy_price(1, 25_000).unwrap();
    assert_eq!(quote.total_price, 20_000 * 12 + 5_000 * 15);
    assert_eq!(quote.price_per_share, 12);
    assert_eq!(m.get_buy_price(1, 50_000 + 1), Err(MarketError::InsufficientVolume));
    let out = m.quick_buy(BUYER, 1, 25_000, 5, 400_000, T1 + 1).unwrap();
    let refund: u128 = out.iter().filter(|t| t.to == BUYER).map(|t| t.amount).sum();
    assert_eq!(400_000 - refund, 315_000);
    assert_eq!(out[0], Transfer { to: BIDDER, amount: 20_000 * 12 });
    assert_eq!(out[1], Transfer { to: BIDDER_2, amount: 5_000 * 15 });
    assert_eq!(holding(&m, BUYER), 25_000);
    let sells = m.get_open_sell_orders_by_stock_id(1, OrderSort::PriceAsc);
    assert_eq!(sells.len(), 1);
    assert_eq!((sells[0].price_per_share, sells[0].sold_shares, sells[0].available_shares), (15, 5_000, 30_000));
    let sales = m.get_sales_by_stock_id(1);
    assert_eq!((sales[0].from, sales[0].to, sales[0].no_of_shares, sales[0].price_per_share), (BIDDER_2, BUYER, 5_000, 15));
    assert_eq!((sales[1].from, sales[1].to, sales[1].no_of_shares, sales[1].price_per_share), (BIDDER, BUYER, 20_000, 12));
    assert_eq!(stock_total(&m), 1_000_000);
}

#[test]
fn test_quick_sell() {
    let mut m = market_with_one_holder();
    m.create_buy_order(BUYER, 1, 12, 10_000, 120_000, T1).unwrap();
    m.create_buy_order(BUYER_2, 1, 13, 20_000, 260_000, T1).unwrap();
    let out = m.quick_sell(BIDDER, 1, 25_000, 12, 5, T1 + 1).unwrap();
    let revenue: u128 = out.iter().filter(|t| t.to == BIDDER).map(|t| t.amount).sum();
    assert_eq!(revenue, 320_000);
    assert_eq!(holding(&m, BIDDER), 100_000 - 25_000);
    let buys = m.get_open_buy_orders_by_stock_id(1, OrderSort::PriceDesc);
    assert_eq!(buys.len(), 1);
    assert_eq!((buys[0].price_per_share, buys[0].bought_shares, buys[0].requested_shares), (12, 5_000, 10_000));
    assert_eq!(holding(&m, BUYER), 5_000);
    assert_eq!(holding(&m, BUYER_2), 20_000);
    let sales = m.get_sales_by_stock_id(1);
    assert_eq!((sales[0].from, sales[0].to, sales[0].no_of_shares, sales[0].price_per_share), (BIDDER, BUYER, 5_000, 12));
    assert_eq!((sales[1].from, sales[1].to, sales[1].no_of_shares, sales[1].price_per_share), (BIDDER, BUYER_2, 20_000, 13));
    assert_eq!(stock_total(&m), 1_000_000);
}

#[test]
fn test_quick_buy_insufficient_funds() {
    let mut m = market_with_one_holder();
    m.create_sell_order(BIDDER, 1, 15, 50_000, T1).unwrap();
    assert_eq!(m.quick_buy(BUYER, 1, 10_000, 5, 100_000, T1 + 1), Err(MarketError::InsufficientFunds));
}

#[test]
fn quick_buy_beyond_volume_is_refused() {
    let mut m = market_with_one_holder();
    m.create_sell_order(BIDDER, 1, 15, 10_000, T1).unwrap();
    assert_eq!(m.quick_buy(BUYER, 1, 10_001, 5, 10_000_000, T1 + 1), Err(MarketError::InsufficientVolume));
}

#[test]
fn test_quick_sell_slippage_exceeded() {
    let mut m = market_with_one_holder();
    m.create_buy_order(BUYER, 1, 8, 10_000, 80_000, T1).unwrap();
    let shares = m.shares.clone();
    let buys = m.buy_orders.clone();
    let sales = m.sales.clone();
    // asked 150,000 less 5% is 142,500; the book pays 80,000
    assert_eq!(m.quick_sell(BIDDER, 1, 10_000, 15, 5, T1 + 1), Err(MarketError::SlippageExceeded));
    assert_eq!(m.shares, shares);
    assert_eq!(m.buy_orders, buys);
    assert_eq!(m.sales, sales);
}
