use vstd::prelude::*;

verus! {

/// Milliseconds an auction runs for once started: one day.
pub const AUCTION_DURATION: u64 = 86_400_000;

/// Fixed share supply of every stock.
pub const TOTAL_SHARES: u64 = 1_000_000;

/// Smallest step by which a new bid must beat the bid it displaces.
pub const MIN_BID_INCREMENT: u128 = 1;

/// Bound on the rows of each table; an operation refuses to run at or above it.
pub const ROW_LIMIT: usize = 0x3FFF_FFFF;

#[derive(Clone, Debug, PartialEq, Eq)]
pub struct Stock {
    pub id: u64,
    pub ticker: String,
    pub influencer: u64,
    pub total_shares: u64,
    pub auction_start: Option<u64>,
    pub auction_end: Option<u64>,
    pub created_at: u64,
}

#[derive(Clone, Copy, Debug, PartialEq, Eq)]
pub struct Bid {
    pub id: u64,
    pub stock_id: u64,
    pub bidder: u64,
    pub price_per_share: u128,
    pub shares_requested: u64,
    pub remaining_shares: u64,
    pub created_at: u64,
    pub open: bool,
    pub active: bool,
}

#[derive(Clone, Copy, Debug, PartialEq, Eq)]
pub struct Share {
    pub id: u64,
    pub stock_id: u64,
    pub no_of_shares: u64,
    pub owner: u64,
}

#[derive(Clone, Copy, Debug, PartialEq, Eq)]
pub struct SellOrder {
    pub id: u64,
    pub stock_id: u64,
    pub available_shares: u64,
    pub price_per_share: u128,
    pub sold_shares: u64,
    pub owner: u64,
    pub created_at: u64,
    pub resolved_at: Option<u64>,
}

#[derive(Clone, Copy, Debug, PartialEq, Eq)]
pub struct BuyOrder {
    pub id: u64,
    pub stock_id: u64,
    pub requested_shares: u64,
    pub price_per_share: u128,
    pub bought_shares: u64,
    pub owner: u64,
    pub created_at: u64,
    pub resolved_at: Option<u64>,
}

#[derive(Clone, Copy, Debug, PartialEq, Eq)]
pub struct Sale {
    pub id: u64,
    pub stock_id: u64,
    pub no_of_shares: u64,
    pub price_per_share: u128,
    pub from: u64,
    pub to: u64,
    pub created_at: u64,
}

/// A payment the host must send out of the contract's funds.
#[derive(Clone, Copy, Debug, PartialEq, Eq)]
pub struct Transfer {
    pub to: u64,
    pub amount: u128,
}

#[derive(Clone, Copy, Debug, PartialEq, Eq)]
pub enum MarketError {
    Unauthorized,
    StockNotFound,
    BidNotFound,
    OrderNotFound,
    ShareNotFound,
    SaleNotFound,
    ZeroShares,
    ZeroPrice,
    AuctionAlreadyStarted,
    AlreadyInSale,
    AuctionNotStarted,
    AuctionEnded,
    NotInSale,
    OrderResolved,
    InsufficientFunds,
    NoShares,
    InsufficientShares,
    BidTooLow,
    ExceedsSupply,
    InsufficientVolume,
    SlippageExceeded,
    Overflow,
    SettlementFailed,
    StoreFull,
}

#[derive(Clone, Copy, Debug, PartialEq, Eq)]
pub enum OrderSort {
    PriceAsc,
    PriceDesc,
    CreatedAtAsc,
    CreatedAtDesc,
}

} // verus!
