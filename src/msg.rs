use vstd::prelude::*;
use crate::types::Sale;

verus! {

/// Instantiates an exchange; the sender becomes its owner.
#[derive(Clone, Debug, PartialEq, Eq)]
pub struct InstantiateMsg {}

/// The operations that change the exchange.
#[derive(Clone, Debug, PartialEq, Eq)]
pub enum ExecuteMsg {
    CreateStock { ticker: String },
    StartAuction { stock_id: u64 },
    EndAuction { stock_id: u64 },
    PlaceBid { stock_id: u64, price_per_share: u128, shares: u64 },
    CreateBuyOrder { stock_id: u64, price_per_share: u128, shares: u64 },
    CreateSellOrder { stock_id: u64, price_per_share: u128, shares: u64 },
    CancelBuyOrder { buy_order_id: u64 },
    CancelSellOrder { sell_order_id: u64 },
    /// `slippage` is in percent.
    QuickSell { stock_id: u64, shares: u64, price_per_share: u128, slippage: u64 },
    /// `slippage` is in percent.
    QuickBuy { stock_id: u64, shares: u64, slippage: u64 },
}

#[derive(Clone, Copy, Debug, PartialEq, Eq)]
pub struct GetMinimumBidPriceResponse {
    pub min_price: u128,
    pub shares_requested: u64,
}

/// What buying `requested_shares` from the open sell orders costs now.
#[derive(Clone, Copy, Debug, PartialEq, Eq)]
pub struct GetBuyPriceResponse {
    pub total_price: u128,
    /// `total_price` divided by the shares, rounded down.
    pub price_per_share: u128,
    pub requested_shares: u64,
}

/// What selling `requested_shares` to the open buy orders brings now.
#[derive(Clone, Copy, Debug, PartialEq, Eq)]
pub struct GetSellPriceResponse {
    pub total_price: u128,
    /// `total_price` divided by the shares, rounded down.
    pub price_per_share: u128,
    pub requested_shares: u64,
}

/// The sales a user took part in, as buyer and as seller.
#[derive(Clone, Debug, PartialEq, Eq)]
pub struct GetSalesByUserResponse {
    pub buy: Vec<Sale>,
    pub sell: Vec<Sale>,
}

#[derive(Clone, Copy, Debug, PartialEq, Eq)]
pub struct GetTotalBuyVolumeResponse {
    pub amount: u64,
}

#[derive(Clone, Copy, Debug, PartialEq, Eq)]
pub struct GetTotalSellVolumeResponse {
    pub amount: u64,
}

} // verus!
