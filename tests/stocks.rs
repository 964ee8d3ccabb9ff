use influencer_stocks::market::Market;
use influencer_stocks::types::{MarketError, Stock, TOTAL_SHARES};

const OWNER: u64 = 1000;
const T0: u64 = 1_700_000_000_000;

fn ids(stocks: &[Stock]) -> Vec<u64> {
    stocks.iter().map(|s| s.id).collect()
}

#[test]
fn contract_proper_initialization() {
    let m = Market::new(OWNER);
    assert_eq!(m.owner, OWNER);
    assert!(m.get_all_stocks(None, None, None, T0).is_empty());
    assert!(m.well_formed());
}

#[test]
fn test_create_and_query_stock_by_id() {
    let mut m = Market::new(OWNER);
    let influencer = 1;
    assert_eq!(m.create_stock(influencer, "INFL1".to_string(), T0), Ok(1));
    let stock = m.get_stock_by_id(1).unwrap();
    assert_eq!(
        stock,
        Stock {
            id: 1,
            ticker: "INFL1".to_string(),
            influencer,
            total_shares: TOTAL_SHARES,
            auction_start: None,
            auction_end: None,
            created_at: T0,
        }
    );
}

#[test]
fn test_create_multiple_stocks() {
    let mut m = Market::new(OWNER);
    let influencers = [1u64, 2, 3];
    let tickers = ["INFL1", "INFL2", "INFL3"];
    for (i, (influencer, ticker)) in influencers.iter().zip(tickers.iter()).enumerate() {
        assert_eq!(m.create_stock(*influencer, ticker.to_string(), T0), Ok(i as u64 + 1));
        let stock = m.get_stock_by_id(i as u64 + 1).unwrap();
        assert_eq!(stock.id, (i + 1) as u64);
        assert_eq!(stock.ticker, ticker.to_string());
        assert_eq!(stock.influencer, *influencer);
    }
}

#[test]
fn test_query_non_existent_stock() {
    let m = Market::new(OWNER);
    assert_eq!(m.get_stock_by_id(999), Err(MarketError::StockNotFound));
}

#[test]
fn test_get_all_stocks_empty() {
    let m = Market::new(OWNER);
    assert_eq!(m.get_all_stocks(None, None, None, T0).len(), 0);
}

/// `n` stocks, stock `i` of influencer `i`.
fn market_with_stocks(n: u64) -> Market {
    let mut m = Market::new(OWNER);
    for i in 1..=n {
        m.create_stock(i, format!("INFL{}", i), T0).unwrap();
    }
    m
}

#[test]
fn test_get_all_stocks() {
    let m = market_with_stocks(5);
    let stocks = m.get_all_stocks(None, None, None, T0);
    assert_eq!(stocks.len(), 5);
    for (i, stock) in stocks.iter().enumerate() {
        let expected_id = 5 - i as u64;
        assert_eq!(stock.id, expected_id);
        assert_eq!(stock.ticker, format!("INFL{}", expected_id));
        assert_eq!(stock.influencer, expected_id);
    }
}

#[test]
fn test_get_all_stocks_with_start_after() {
    let m = market_with_stocks(10);
    let start_after = 7;
    let stocks = m.get_all_stocks(Some(start_after), None, None, T0);
    assert_eq!(stocks.len(), (start_after - 1) as usize);
    for (i, stock) in stocks.iter().enumerate() {
        let expected_id = start_after - 1 - i as u64;
        assert_eq!(stock.id, expected_id);
        assert_eq!(stock.ticker, format!("INFL{}", expected_id));
    }
}

#[test]
fn test_get_stocks_by_auction_status() {
    let mut m = market_with_stocks(5);
    for id in 1..=3 {
        m.start_auction(id, id, T0).unwrap();
    }
    let now = T0 + 1;
    let in_auction = m.get_all_stocks(None, Some(true), None, now);
    assert_eq!(ids(&in_auction), vec![3, 2, 1]);
    for stock in &in_auction {
        assert!(stock.auction_start.is_some());
        assert!(stock.auction_end > Some(now));
    }
    let not_in_auction = m.get_all_stocks(None, Some(false), None, now);
    assert_eq!(ids(&not_in_auction), vec![5, 4]);
    assert!(not_in_auction.iter().all(|s| s.auction_start.is_none()));
}

#[test]
fn test_get_stocks_by_sale_status() {
    let mut m = market_with_stocks(5);
    let now = T0 + 1;
    for id in 1..=3 {
        m.start_auction(id, id, T0).unwrap();
        m.end_auction(id, id, now).unwrap();
    }
    let in_sale = m.get_all_stocks(None, None, Some(true), now);
    assert_eq!(ids(&in_sale), vec![3, 2, 1]);
    for stock in &in_sale {
        assert!(stock.auction_start.is_some());
        assert!(stock.auction_end <= Some(now));
    }
    let not_in_sale = m.get_all_stocks(None, None, Some(false), now);
    assert_eq!(ids(&not_in_sale), vec![5, 4]);
    assert!(not_in_sale.iter().all(|s| s.auction_start.is_none()));
}

#[test]
fn test_get_stocks_with_combined_filters() {
    let mut m = market_with_stocks(6);
    let now = T0 + 1;
    // stocks 1 and 2 sold at auction, 3 and 4 in auction, 5 and 6 untouched
    for id in 1..=2 {
        m.start_auction(id, id, T0).unwrap();
        m.end_auction(id, id, now).unwrap();
    }
    for id in 3..=4 {
        m.start_auction(id, id, T0).unwrap();
    }
    assert_eq!(ids(&m.get_all_stocks(None, Some(true), Some(false), now)), vec![4, 3]);
    assert_eq!(ids(&m.get_all_stocks(None, Some(false), Some(true), now)), vec![2, 1]);
    assert_eq!(ids(&m.get_all_stocks(None, Some(false), Some(false), now)), vec![6, 5]);
    assert_eq!(ids(&m.get_all_stocks(Some(4), Some(true), Some(false), now)), vec![3]);
}

#[test]
fn get_stocks_by_influencer_test_get_stocks_by_influencer() {
    let mut m = Market::new(OWNER);
    let (influencer1, influencer2) = (1u64, 2u64);
    for i in 1..=3 {
        m.create_stock(influencer1, format!("INF1_{}", i), T0).unwrap();
    }
    for i in 1..=2 {
        m.create_stock(influencer2, format!("INF2_{}", i), T0).unwrap();
    }
    let first = m.get_stocks_by_influencer(influencer1, None);
    assert_eq!(first.len(), 3);
    for stock in &first {
        assert_eq!(stock.influencer, influencer1);
        assert!(stock.ticker.starts_with("INF1_"));
    }
    for i in 0..first.len() - 1 {
        assert!(first[i].id > first[i + 1].id);
    }
    let second = m.get_stocks_by_influencer(influencer2, None);
    assert_eq!(second.len(), 2);
    for stock in &second {
        assert_eq!(stock.influencer, influencer2);
        assert!(stock.ticker.starts_with("INF2_"));
    }
    assert_eq!(m.get_all_stocks(None, None, None, T0).len(), 5);
}

#[test]
fn test_get_stocks_by_influencer_empty() {
    let m = Market::new(OWNER);
    assert_eq!(m.get_stocks_by_influencer(42, None).len(), 0);
}

#[test]
fn get_stocks_by_influencer_test_get_stocks_by_influencer_with_start_after() {
    let mut m = Market::new(OWNER);
    let (influencer, other) = (1u64, 2u64);
    let mut stock_ids = vec![];
    for i in 1..=5 {
        stock_ids.push(m.create_stock(influencer, format!("INF1_{}", i), T0).unwrap());
    }
    for i in 1..=5 {
        m.create_stock(other, format!("INF2_{}", i), T0).unwrap();
    }
    for i in 1..=4 {
        stock_ids.push(m.create_stock(influencer, format!("INF1_{}", 5 + i), T0).unwrap());
    }
    let start_after = stock_ids[6];
    let stocks = m.get_stocks_by_influencer(influencer, Some(start_after));
    assert_eq!(stocks.len(), 6);
    for stock in &stocks {
        assert_eq!(stock.influencer, influencer);
        assert!(stock.id < start_after);
    }
    for i in 0..stocks.len() - 1 {
        assert!(stocks[i].id > stocks[i + 1].id);
    }
}
