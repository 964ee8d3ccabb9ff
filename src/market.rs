use vstd::prelude::*;
use crate::book::{Fill, Level, walk, walk_book, fills_shares, shares_moved, lemma_walk_shares};
use crate::ledger::{can_credit, credited};
use crate::msg::GetMinimumBidPriceResponse;
use crate::types::{
    Stock, Bid, Share, SellOrder, BuyOrder, Sale, Transfer, MarketError, AUCTION_DURATION,
    TOTAL_SHARES, MIN_BID_INCREMENT, ROW_LIMIT,
};

verus! {

/// The whole state of the exchange: one table per kind of record. The id of
/// each record is its position in its table plus one.
pub struct Market {
    /// The account that instantiated the exchange; it may end any auction.
    pub owner: u64,
    pub stocks: Vec<Stock>,
    pub bids: Vec<Bid>,
    pub shares: Vec<Share>,
    pub sell_orders: Vec<SellOrder>,
    pub buy_orders: Vec<BuyOrder>,
    pub sales: Vec<Sale>,
}

/// The payments an operation asks the host to make, and the id of the
/// record it created.
#[derive(Clone, Debug, PartialEq, Eq)]
pub struct Outcome {
    pub id: u64,
    pub transfers: Vec<Transfer>,
}

/// A stock is in auction from its start until its end.
pub open spec fn in_auction(s: Stock, now: u64) -> bool {
    s.auction_start is Some && (s.auction_end is None || s.auction_end->Some_0 > now)
}

/// A stock is in sale, open for orders, once its auction has ended.
pub open spec fn in_sale(s: Stock, now: u64) -> bool {
    s.auction_end is Some && s.auction_end->Some_0 <= now
}

/// Sum of the amounts of `t`.
pub open spec fn transfers_total(t: Seq<Transfer>) -> nat
    decreases t.len(),
{
    if t.len() == 0 {
        0
    } else {
        transfers_total(t.drop_last()) + t.last().amount as nat
    }
}

/// A payment of `amount` to `to`, left out where it is zero.
pub open spec fn pay(to: u64, amount: nat) -> Seq<Transfer> {
    if amount > 0 {
        seq![Transfer { to, amount: amount as u128 }]
    } else {
        seq![]
    }
}

/// A payment to the owner of each resting order or bid a fill consumed, of
/// what the consumed shares cost at its price.
pub open spec fn payouts(f: Seq<Fill>) -> Seq<Transfer>
    decreases f.len(),
{
    if f.len() == 0 {
        seq![]
    } else {
        payouts(f.drop_last()) + pay(f.last().owner, f.last().take as nat * f.last().price as nat)
    }
}

/// Open bids of `stock` among the first `k` bids, as levels of a book.
pub open spec fn bid_levels(b: Seq<Bid>, stock: u64, k: int) -> Seq<Level>
    decreases k,
{
    if k <= 0 {
        seq![]
    } else {
        let prev = bid_levels(b, stock, k - 1);
        let x = b[k - 1];
        if x.stock_id == stock && x.open {
            prev.push(Level { pos: (k - 1) as usize, id: x.id, owner: x.bidder, price: x.price_per_share, balance: x.remaining_shares })
        } else {
            prev
        }
    }
}

pub open spec fn open_bids(b: Seq<Bid>, stock: u64) -> Seq<Level> {
    bid_levels(b, stock, b.len() as int)
}

/// The least price per share at which a bid for `shares` shares is
/// accepted: one more than the price of the open bid at which the cheapest
/// open bids first cover `shares`, or 0 where they never do.
pub open spec fn minimum_bid_price(b: Seq<Bid>, stock: u64, shares: u64) -> int {
    let s = open_bids(b, stock);
    if shares == 0 {
        if s.len() == 0 {
            0
        } else {
            s[crate::book::best_index(s, false)].price + MIN_BID_INCREMENT
        }
    } else {
        let f = walk(s, false, shares as nat, None);
        if fills_shares(f) == shares && f.len() > 0 {
            f.last().price + MIN_BID_INCREMENT
        } else {
            0
        }
    }
}

/// The bids after the cascade of `f`: every consumed bid is closed, but
/// the last one where it covered the rest of the new bid (`keep_last`),
/// which only shrinks, and stays open while it holds shares.
pub open spec fn outbid(b: Seq<Bid>, f: Seq<Fill>, keep_last: bool) -> Seq<Bid>
    decreases f.len(),
{
    if f.len() == 0 {
        b
    } else {
        let p = outbid(b, f.drop_last(), false);
        let x = f.last();
        let old_bid = p[x.pos as int];
        if keep_last {
            let left = if old_bid.remaining_shares >= x.take {
                (old_bid.remaining_shares - x.take) as u64
            } else {
                0
            };
            p.update(x.pos as int, Bid { remaining_shares: left, open: left > 0, ..old_bid })
        } else {
            p.update(x.pos as int, Bid { remaining_shares: 0, open: false, ..old_bid })
        }
    }
}

/// The ledger after every open bid of `stock` among the first `k` bids is
/// credited to its bidder, or `None` where a balance would overflow.
pub open spec fn awarded(s: Seq<Share>, b: Seq<Bid>, stock: u64, k: int) -> Option<Seq<Share>>
    decreases k,
{
    if k <= 0 {
        Some(s)
    } else {
        match awarded(s, b, stock, k - 1) {
            None => None,
            Some(p) => {
                let x = b[k - 1];
                if x.stock_id == stock && x.open && x.remaining_shares > 0 {
                    if can_credit(p, stock, x.bidder, x.remaining_shares) {
                        Some(credited(p, stock, x.bidder, x.remaining_shares))
                    } else {
                        None
                    }
                } else {
                    Some(p)
                }
            },
        }
    }
}

/// Shares still held by the open bids of `stock` among the first `k` bids.
pub open spec fn open_remaining(b: Seq<Bid>, stock: u64, k: int) -> nat
    decreases k,
{
    if k <= 0 {
        0
    } else {
        open_remaining(b, stock, k - 1) + if b[k - 1].stock_id == stock && b[k - 1].open {
            b[k - 1].remaining_shares as nat
        } else {
            0
        }
    }
}

/// Whether the auction of `stock` was closed: closing makes every bid of
/// the stock inactive, and an auction always holds its floor bid.
pub open spec fn auction_closed(b: Seq<Bid>, stock: u64) -> bool {
    exists|i: int| 0 <= i < b.len() && (#[trigger] b[i]).stock_id == stock && !b[i].active
}

/// A bid once its stock's auction is over: closed and no longer active.
pub open spec fn retired(x: Bid, stock: u64) -> Bid {
    if x.stock_id == stock {
        Bid { open: false, active: false, ..x }
    } else {
        x
    }
}

impl Market {
    /// The tables are consistent: ids follow positions, every bid belongs
    /// to a stock whose auction has started, and no order has moved more
    /// shares than it holds; an open order still has shares to move.
    pub open spec fn wf(&self) -> bool {
        &&& forall|i: int| 0 <= i < self.stocks@.len() ==> #[trigger] self.stocks@[i].id == i + 1
        &&& forall|i: int| 0 <= i < self.bids@.len() ==> #[trigger] self.bids@[i].id == i + 1
        &&& forall|i: int|
            0 <= i < self.bids@.len() ==> {
                let b = #[trigger] self.bids@[i];
                1 <= b.stock_id <= self.stocks@.len() && self.stocks@[b.stock_id - 1].auction_start is Some
            }
        &&& forall|i: int| 0 <= i < self.sell_orders@.len() ==> #[trigger] self.sell_orders@[i].id == i + 1
        &&& forall|i: int| 0 <= i < self.buy_orders@.len() ==> #[trigger] self.buy_orders@[i].id == i + 1
        &&& forall|i: int| 0 <= i < self.sales@.len() ==> #[trigger] self.sales@[i].id == i + 1
        &&& forall|i: int|
            0 <= i < self.sell_orders@.len() ==> {
                let o = #[trigger] self.sell_orders@[i];
                o.sold_shares <= o.available_shares && (o.resolved_at is None ==> o.sold_shares
                    < o.available_shares)
            }
        &&& forall|i: int|
            0 <= i < self.buy_orders@.len() ==> {
                let o = #[trigger] self.buy_orders@[i];
                o.bought_shares <= o.requested_shares && (o.resolved_at is None
                    ==> o.bought_shares < o.requested_shares)
            }
    }

    /// Whether the tables are consistent (see `wf`). A market loaded from
    /// outside is checked with this before use.
    pub fn well_formed(&self) -> (r: bool)
        ensures
            r == self.wf(),
    {
        let mut k: usize = 0;
        while k < self.stocks.len()
            invariant
                k <= self.stocks@.len(),
                forall|i: int| 0 <= i < k ==> #[trigger] self.stocks@[i].id == i + 1,
            decreases self.stocks@.len() - k,
        {
            if self.stocks[k].id != k as u64 + 1 {
                return false;
            }
            k = k + 1;
        }
        let mut k: usize = 0;
        while k < self.bids.len()
            invariant
                k <= self.bids@.len(),
                forall|i: int| 0 <= i < k ==> #[trigger] self.bids@[i].id == i + 1,
                forall|i: int|
                    0 <= i < k ==> {
                        let b = #[trigger] self.bids@[i];
                        1 <= b.stock_id <= self.stocks@.len() && self.stocks@[b.stock_id - 1].auction_start is Some
                    },
            decreases self.bids@.len() - k,
        {
            let b = self.bids[k];
            if b.id != k as u64 + 1 || b.stock_id == 0 || b.stock_id > self.stocks.len() as u64 {
                return false;
            }
            if self.stocks[(b.stock_id - 1) as usize].auction_start.is_none() {
                return false;
            }
            k = k + 1;
        }
        let mut k: usize = 0;
        while k < self.sales.len()
            invariant
                k <= self.sales@.len(),
                forall|i: int| 0 <= i < k ==> #[trigger] self.sales@[i].id == i + 1,
            decreases self.sales@.len() - k,
        {
            if self.sales[k].id != k as u64 + 1 {
                return false;
            }
            k = k + 1;
        }
        let mut k: usize = 0;
        while k < self.sell_orders.len()
            invariant
                k <= self.sell_orders@.len(),
                forall|i: int| 0 <= i < k ==> #[trigger] self.sell_orders@[i].id == i + 1,
                forall|i: int|
                    0 <= i < k ==> {
                        let o = #[trigger] self.sell_orders@[i];
                        o.sold_shares <= o.available_shares && (o.resolved_at is None ==> o.sold_shares
                            < o.available_shares)
                    },
            decreases self.sell_orders@.len() - k,
        {
            let o = self.sell_orders[k];
            if o.id != k as u64 + 1 || o.sold_shares > o.available_shares
                || (o.resolved_at.is_none() && o.sold_shares == o.available_shares) {
                return false;
            }
            k = k + 1;
        }
        let mut k: usize = 0;
        while k < self.buy_orders.len()
            invariant
                k <= self.buy_orders@.len(),
                forall|i: int| 0 <= i < k ==> #[trigger] self.buy_orders@[i].id == i + 1,
                forall|i: int|
                    0 <= i < k ==> {
                        let o = #[trigger] self.buy_orders@[i];
                        o.bought_shares <= o.requested_shares && (o.resolved_at is None
                            ==> o.bought_shares < o.requested_shares)
                    },
            decreases self.buy_orders@.len() - k,
        {
            let o = self.buy_orders[k];
            if o.id != k as u64 + 1 || o.bought_shares > o.requested_shares
                || (o.resolved_at.is_none() && o.bought_shares == o.requested_shares) {
                return false;
            }
            k = k + 1;
        }
        true
    }

    /// Whether the auction of `stock_id` was closed by `end_auction`.
    pub fn closed_auction(&self, stock_id: u64) -> (r: bool)
        ensures
            r == auction_closed(self.bids@, stock_id),
    {
        let mut k: usize = 0;
        while k < self.bids.len()
            invariant
                k <= self.bids@.len(),
                forall|i: int| 0 <= i < k ==> !((#[trigger] self.bids@[i]).stock_id == stock_id && !self.bids@[i].active),
            decreases self.bids@.len() - k,
        {
            let b = self.bids[k];
            if b.stock_id == stock_id && !b.active {
                assert(self.bids@[k as int] == b);
                return true;
            }
            k = k + 1;
        }
        false
    }

    /// Every table is below `ROW_LIMIT`, so an operation can add rows.
    pub open spec fn has_room(&self) -> bool {
        &&& self.stocks@.len() < ROW_LIMIT
        &&& self.bids@.len() < ROW_LIMIT
        &&& self.shares@.len() < ROW_LIMIT
        &&& self.sell_orders@.len() < ROW_LIMIT
        &&& self.buy_orders@.len() < ROW_LIMIT
        &&& self.sales@.len() < ROW_LIMIT
    }

    pub open spec fn has_stock(&self, id: u64) -> bool {
        1 <= id <= self.stocks@.len()
    }

    pub open spec fn stock(&self, id: u64) -> Stock {
        self.stocks@[id - 1]
    }

    /// A new exchange owned by `owner`, with no records.
    pub fn new(owner: u64) -> (r: Market)
        ensures
            r.wf(),
            r.owner == owner,
            r.stocks@.len() == 0,
            r.bids@.len() == 0,
            r.shares@.len() == 0,
            r.sell_orders@.len() == 0,
            r.buy_orders@.len() == 0,
            r.sales@.len() == 0,
    {
        Market {
            owner,
            stocks: Vec::new(),
            bids: Vec::new(),
            shares: Vec::new(),
            sell_orders: Vec::new(),
            buy_orders: Vec::new(),
            sales: Vec::new(),
        }
    }

    pub fn room(&self) -> (r: bool)
        ensures
            r == self.has_room(),
    {
        self.stocks.len() < ROW_LIMIT && self.bids.len() < ROW_LIMIT && self.shares.len() < ROW_LIMIT
            && self.sell_orders.len() < ROW_LIMIT && self.buy_orders.len() < ROW_LIMIT
            && self.sales.len() < ROW_LIMIT
    }

    /// Registers a stock of `TOTAL_SHARES` shares for `influencer`; returns
    /// its id.
    pub fn create_stock(&mut self, influencer: u64, ticker: String, now: u64) -> (r: Result<u64, MarketError>)
        requires
            old(self).wf(),
        ensures
            final(self).wf(),
            !old(self).has_room() ==> r == Err::<u64, MarketError>(MarketError::StoreFull) && *final(self) == *old(self),
            old(self).has_room() ==> {
                &&& r == Ok::<u64, MarketError>((old(self).stocks@.len() + 1) as u64)
                &&& final(self).stocks@ == old(self).stocks@.push(
                    Stock {
                        id: (old(self).stocks@.len() + 1) as u64,
                        ticker,
                        influencer,
                        total_shares: TOTAL_SHARES,
                        auction_start: None,
                        auction_end: None,
                        created_at: now,
                    },
                )
                &&& final(self).bids == old(self).bids
                &&& final(self).shares == old(self).shares
                &&& final(self).sell_orders == old(self).sell_orders
                &&& final(self).buy_orders == old(self).buy_orders
                &&& final(self).sales == old(self).sales
                &&& final(self).owner == old(self).owner
            },
    {
        if !self.room() {
            return Err(MarketError::StoreFull);
        }
        let id = self.stocks.len() as u64 + 1;
        self.stocks.push(
            Stock {
                id,
                ticker,
                influencer,
                total_shares: TOTAL_SHARES,
                auction_start: None,
                auction_end: None,
                created_at: now,
            },
        );
        Ok(id)
    }

    /// Why `start_auction` refuses, if it does.
    pub open spec fn start_auction_error(&self, caller: u64, stock_id: u64, now: u64) -> Option<MarketError> {
        if !self.has_room() {
            Some(MarketError::StoreFull)
        } else if !self.has_stock(stock_id) {
            Some(MarketError::StockNotFound)
        } else if self.stock(stock_id).influencer != caller {
            Some(MarketError::Unauthorized)
        } else if self.stock(stock_id).auction_end is Some && now > self.stock(stock_id).auction_end->Some_0 {
            Some(MarketError::AlreadyInSale)
        } else if self.stock(stock_id).auction_start is Some {
            Some(MarketError::AuctionAlreadyStarted)
        } else if now > u64::MAX - AUCTION_DURATION {
            Some(MarketError::Overflow)
        } else {
            None
        }
    }

    /// Opens the auction of a stock for one day and seeds the floor bid: the
    /// influencer offers every share at price 0.
    pub fn start_auction(&mut self, caller: u64, stock_id: u64, now: u64) -> (r: Result<(), MarketError>)
        requires
            old(self).wf(),
        ensures
            final(self).wf(),
            match old(self).start_auction_error(caller, stock_id, now) {
                Some(e) => r == Err::<(), MarketError>(e) && *final(self) == *old(self),
                None => {
                    let st = old(self).stock(stock_id);
                    &&& r is Ok
                    &&& final(self).stocks@ == old(self).stocks@.update(
                        stock_id - 1,
                        Stock { auction_start: Some(now), auction_end: Some((now + AUCTION_DURATION) as u64), ..st },
                    )
                    &&& final(self).bids@ == old(self).bids@.push(
                        Bid {
                            id: (old(self).bids@.len() + 1) as u64,
                            stock_id,
                            bidder: caller,
                            price_per_share: 0,
                            shares_requested: st.total_shares,
                            remaining_shares: st.total_shares,
                            created_at: now,
                            open: true,
                            active: true,
                        },
                    )
                    &&& final(self).shares == old(self).shares
                    &&& final(self).sell_orders == old(self).sell_orders
                    &&& final(self).buy_orders == old(self).buy_orders
                    &&& final(self).sales == old(self).sales
                    &&& final(self).owner == old(self).owner
                },
            },
    {
        if !self.room() {
            return Err(MarketError::StoreFull);
        }
        if stock_id == 0 || stock_id > self.stocks.len() as u64 {
            return Err(MarketError::StockNotFound);
        }
        let i = (stock_id - 1) as usize;
        if self.stocks[i].influencer != caller {
            return Err(MarketError::Unauthorized);
        }
        match self.stocks[i].auction_end {
            Some(e) => {
                if now > e {
                    return Err(MarketError::AlreadyInSale);
                }
            },
            None => {},
        }
        if self.stocks[i].auction_start.is_some() {
            return Err(MarketError::AuctionAlreadyStarted);
        }
        if now > u64::MAX - AUCTION_DURATION {
            return Err(MarketError::Overflow);
        }
        let end = now + AUCTION_DURATION;
        let mut st = self.stocks.remove(i);
        st.auction_start = Some(now);
        st.auction_end = Some(end);
        let total = st.total_shares;
        self.stocks.insert(i, st);
        let id = self.bids.len() as u64 + 1;
        self.bids.push(
            Bid {
                id,
                stock_id,
                bidder: caller,
                price_per_share: 0,
                shares_requested: total,
                remaining_shares: total,
                created_at: now,
                open: true,
                active: true,
            },
        );
        proof {
            assert(self.stocks@ =~= old(self).stocks@.update(
                stock_id - 1,
                Stock { auction_start: Some(now), auction_end: Some((now + AUCTION_DURATION) as u64), ..old(self).stock(stock_id) },
            ));
        }
        Ok(())
    }

    /// The open bids of a stock as a book.
    pub fn open_bid_book(&self, stock_id: u64) -> (r: Vec<Level>)
        ensures
            r@ == open_bids(self.bids@, stock_id),
            forall|j: int| 0 <= j < r@.len() ==> (#[trigger] r@[j]).pos < self.bids@.len(),
    {
        let mut out: Vec<Level> = Vec::new();
        let mut k: usize = 0;
        while k < self.bids.len()
            invariant
                k <= self.bids@.len(),
                out@ == bid_levels(self.bids@, stock_id, k as int),
                forall|j: int| 0 <= j < out@.len() ==> (#[trigger] out@[j]).pos < k,
            decreases self.bids@.len() - k,
        {
            let x = self.bids[k];
            if x.stock_id == stock_id && x.open {
                out.push(Level { pos: k, id: x.id, owner: x.bidder, price: x.price_per_share, balance: x.remaining_shares });
            }
            k = k + 1;
        }
        out
    }

    /// The least price per share at which a bid for `shares` shares of
    /// `stock_id` is accepted now.
    pub fn get_minimum_bid_price(&self, stock_id: u64, shares: u64) -> (r: Result<GetMinimumBidPriceResponse, MarketError>)
        ensures
            minimum_bid_price(self.bids@, stock_id, shares) <= u128::MAX ==> r == Ok::<GetMinimumBidPriceResponse, MarketError>(
                GetMinimumBidPriceResponse { min_price: minimum_bid_price(self.bids@, stock_id, shares) as u128, shares_requested: shares },
            ),
            minimum_bid_price(self.bids@, stock_id, shares) > u128::MAX ==> r == Err::<GetMinimumBidPriceResponse, MarketError>(
                MarketError::Overflow,
            ),
    {
        let book = self.open_bid_book(stock_id);
        if shares == 0 {
            if book.len() == 0 {
                return Ok(GetMinimumBidPriceResponse { min_price: 0, shares_requested: shares });
            }
            let i = crate::book::best_level(&book, false);
            let p = book[i].price;
            if p == u128::MAX {
                return Err(MarketError::Overflow);
            }
            return Ok(GetMinimumBidPriceResponse { min_price: p + MIN_BID_INCREMENT, shares_requested: shares });
        }
        let f = walk_book(book, false, shares, None);
        proof {
            lemma_walk_shares(open_bids(self.bids@, stock_id), false, shares as nat, None);
        }
        let covered = shares_moved(&f);
        if covered == shares && f.len() > 0 {
            let p = f[f.len() - 1].price;
            if p == u128::MAX {
                return Err(MarketError::Overflow);
            }
            Ok(GetMinimumBidPriceResponse { min_price: p + MIN_BID_INCREMENT, shares_requested: shares })
        } else {
            Ok(GetMinimumBidPriceResponse { min_price: 0, shares_requested: shares })
        }
    }
}

} // verus!
