use vstd::prelude::*;
use crate::auction::{lemma_total_concat, lemma_pay_total};
use crate::book::{
    walk, walk_book, volume, fills_cost, fills_shares, total_cost, total_volume, shares_moved,
    lemma_walk_pos, lemma_walk_shares, lemma_walk_len, lemma_walk_cost_bound, lemma_walk_fills_all,
};
use crate::ledger::{stock_total, settled, settle, row_of, balance, find_share_row, lemma_settled_conserves};
use crate::market::{Market, Outcome, in_sale, transfers_total, pay, payouts};
use crate::msg::{GetBuyPriceResponse, GetSellPriceResponse, GetTotalBuyVolumeResponse, GetTotalSellVolumeResponse};
use crate::orders::{open_sells, open_buys, sold_into, bought_into, sales_of, proceeds, fill_payments};
use crate::types::{BuyOrder, SellOrder, Transfer, MarketError};

verus! {

/// The most a quick buy may cost: the quote plus `slippage` percent of it.
pub open spec fn max_with_slippage(total: nat, slippage: u64) -> nat {
    total + total * slippage as nat / 100
}

/// The least a quick sell may bring: the asked total less `slippage`
/// percent of it, and never below 0.
pub open spec fn min_with_slippage(asked: nat, slippage: u64) -> nat {
    if asked * slippage as nat / 100 <= asked {
        (asked - asked * slippage as nat / 100) as nat
    } else {
        0
    }
}

impl Market {
    /// Why an operation of the secondary market on `stock_id` refuses before
    /// it reads anything else, if it does.
    pub open spec fn market_error(&self, stock_id: u64, shares: u64, now: u64) -> Option<MarketError> {
        if !self.has_room() {
            Some(MarketError::StoreFull)
        } else if shares == 0 {
            Some(MarketError::ZeroShares)
        } else if !self.has_stock(stock_id) {
            Some(MarketError::StockNotFound)
        } else if !in_sale(self.stock(stock_id), now) {
            Some(MarketError::NotInSale)
        } else {
            None
        }
    }

    /// The shared checks: room, a nonzero size, a stock that is in sale.
    fn check_market(&self, stock_id: u64, shares: u64, now: u64) -> (r: Result<(), MarketError>)
        ensures
            match self.market_error(stock_id, shares, now) {
                Some(e) => r == Err::<(), MarketError>(e),
                None => r is Ok,
            },
    {
        if !self.room() {
            return Err(MarketError::StoreFull);
        }
        if shares == 0 {
            return Err(MarketError::ZeroShares);
        }
        if stock_id == 0 || stock_id > self.stocks.len() as u64 {
            return Err(MarketError::StockNotFound);
        }
        let si = (stock_id - 1) as usize;
        match self.stocks[si].auction_end {
            Some(e) => {
                if e > now {
                    return Err(MarketError::NotInSale);
                }
            },
            None => {
                return Err(MarketError::NotInSale);
            },
        }
        Ok(())
    }

    /// Why `create_buy_order` refuses, if it does.
    pub open spec fn buy_order_error(&self, buyer: u64, stock_id: u64, price_per_share: u128, shares: u64, sent: u128, now: u64) -> Option<MarketError> {
        let required = price_per_share as nat * shares as nat;
        let f = walk(open_sells(self.sell_orders@, stock_id), false, shares as nat, Some(price_per_share));
        if !self.has_room() {
            Some(MarketError::StoreFull)
        } else if shares == 0 {
            Some(MarketError::ZeroShares)
        } else if price_per_share == 0 {
            Some(MarketError::ZeroPrice)
        } else if self.market_error(stock_id, shares, now) is Some {
            self.market_error(stock_id, shares, now)
        } else if required > u128::MAX {
            Some(MarketError::Overflow)
        } else if sent < required {
            Some(MarketError::InsufficientFunds)
        } else if settled(self.shares@, stock_id, buyer, true, f) is None {
            Some(MarketError::SettlementFailed)
        } else {
            None
        }
    }

    /// Places a buy order: it takes from the open sell orders, cheapest and
    /// then oldest first, at their prices, up to `price_per_share`. What it
    /// does not fill rests on the book, paid for out of `sent`; the rest of
    /// `sent` beyond what was spent goes back to the buyer.
    pub fn create_buy_order(&mut self, buyer: u64, stock_id: u64, price_per_share: u128, shares: u64, sent: u128, now: u64) -> (r: Result<Outcome, MarketError>)
        requires
            old(self).wf(),
        ensures
            final(self).wf(),
            match old(self).buy_order_error(buyer, stock_id, price_per_share, shares, sent, now) {
                Some(e) => r is Err && r->Err_0 == e && *final(self) == *old(self),
                None => {
                    let f = walk(open_sells(old(self).sell_orders@, stock_id), false, shares as nat, Some(price_per_share));
                    let filled = fills_shares(f);
                    let held = (shares - filled) * price_per_share;
                    &&& r is Ok
                    &&& r->Ok_0.id == old(self).buy_orders@.len() + 1
                    &&& final(self).buy_orders@ == old(self).buy_orders@.push(
                        BuyOrder {
                            id: (old(self).buy_orders@.len() + 1) as u64,
                            stock_id,
                            requested_shares: shares,
                            price_per_share,
                            bought_shares: filled as u64,
                            owner: buyer,
                            created_at: now,
                            resolved_at: if filled == shares { Some(now) } else { None },
                        },
                    )
                    &&& final(self).sell_orders@ == sold_into(old(self).sell_orders@, f, now)
                    &&& final(self).shares@ == settled(old(self).shares@, stock_id, buyer, true, f)->Some_0
                    &&& final(self).sales@ == old(self).sales@ + sales_of(f, stock_id, buyer, true, now, old(self).sales@.len())
                    &&& r->Ok_0.transfers@ == payouts(f) + pay(buyer, (sent - fills_cost(f) - held) as nat)
                    // what is not paid out is held for the resting part
                    &&& transfers_total(r->Ok_0.transfers@) + held == sent
                    &&& forall|st: u64| #[trigger] stock_total(final(self).shares@, st) == stock_total(old(self).shares@, st)
                    &&& final(self).stocks == old(self).stocks
                    &&& final(self).bids == old(self).bids
                    &&& final(self).owner == old(self).owner
                },
            },
    {
        if !self.room() {
            return Err(MarketError::StoreFull);
        }
        if shares == 0 {
            return Err(MarketError::ZeroShares);
        }
        if price_per_share == 0 {
            return Err(MarketError::ZeroPrice);
        }
        match self.check_market(stock_id, shares, now) {
            Ok(()) => {},
            Err(e) => {
                return Err(e);
            },
        }
        let required = match price_per_share.checked_mul(shares as u128) {
            Some(x) => x,
            None => {
                return Err(MarketError::Overflow);
            },
        };
        if sent < required {
            return Err(MarketError::InsufficientFunds);
        }
        let book = self.open_sell_book(stock_id);
        let ghost levels = book@;
        proof {
            lemma_walk_pos(levels, false, shares as nat, Some(price_per_share), self.sell_orders@.len() as int);
            lemma_walk_shares(levels, false, shares as nat, Some(price_per_share));
            lemma_walk_len(levels, false, shares as nat, Some(price_per_share));
            lemma_walk_cost_bound(levels, shares as nat, price_per_share);
        }
        let f = walk_book(book, false, shares, Some(price_per_share));
        let filled = shares_moved(&f);
        proof {
            assert(price_per_share as nat * filled as nat <= price_per_share as nat * shares as nat) by (nonlinear_arith)
                requires filled <= shares;
            assert(price_per_share as nat * filled as nat + (shares - filled) as nat * price_per_share as nat
                == price_per_share as nat * shares as nat) by (nonlinear_arith)
                requires filled <= shares;
        }
        let cost = match total_cost(&f) {
            Some(c) => c,
            None => {
                return Err(MarketError::Overflow);
            },
        };
        if !settle(&mut self.shares, stock_id, buyer, true, &f) {
            return Err(MarketError::SettlementFailed);
        }
        proof {
            lemma_settled_conserves(old(self).shares@, stock_id, buyer, true, f@);
        }
        self.apply_sell_fills(&f, now);
        self.record_sales(&f, stock_id, buyer, true, now);
        let held = (shares - filled) as u128 * price_per_share;
        let mut transfers = fill_payments(&f, buyer, true);
        let change = sent - cost - held;
        if change > 0 {
            transfers.push(Transfer { to: buyer, amount: change });
        }
        proof {
            lemma_pay_total(buyer, change as nat);
            lemma_total_concat(payouts(f@), pay(buyer, change as nat));
        }
        let id = self.buy_orders.len() as u64 + 1;
        self.buy_orders.push(
            BuyOrder {
                id,
                stock_id,
                requested_shares: shares,
                price_per_share,
                bought_shares: filled,
                owner: buyer,
                created_at: now,
                resolved_at: if filled == shares { Some(now) } else { None },
            },
        );
        assert(transfers@ == payouts(f@) + pay(buyer, change as nat));
        assert(transfers_total(transfers@) + held == sent);
        assert(self.sell_orders@ == sold_into(old(self).sell_orders@, f@, now));
        assert(self.shares@ == settled(old(self).shares@, stock_id, buyer, true, f@)->Some_0);
        Ok(Outcome { id, transfers })
    }

    /// Why `create_sell_order` refuses, if it does.
    pub open spec fn sell_order_error(&self, seller: u64, stock_id: u64, price_per_share: u128, shares: u64, now: u64) -> Option<MarketError> {
        let f = walk(open_buys(self.buy_orders@, stock_id), true, shares as nat, Some(price_per_share));
        if !self.has_room() {
            Some(MarketError::StoreFull)
        } else if shares == 0 {
            Some(MarketError::ZeroShares)
        } else if price_per_share == 0 {
            Some(MarketError::ZeroPrice)
        } else if self.market_error(stock_id, shares, now) is Some {
            self.market_error(stock_id, shares, now)
        } else if row_of(self.shares@, stock_id, seller) < 0 {
            Some(MarketError::NoShares)
        } else if balance(self.shares@, stock_id, seller) < shares {
            Some(MarketError::InsufficientShares)
        } else if fills_cost(f) > u128::MAX {
            Some(MarketError::Overflow)
        } else if settled(self.shares@, stock_id, seller, false, f) is None {
            Some(MarketError::SettlementFailed)
        } else {
            None
        }
    }

    /// Places a sell order: it gives to the open buy orders, dearest and
    /// then oldest first, at their prices, down to `price_per_share`, and
    /// the seller is paid for each fill out of what those orders hold. What
    /// it does not fill rests on the book.
    pub fn create_sell_order(&mut self, seller: u64, stock_id: u64, price_per_share: u128, shares: u64, now: u64) -> (r: Result<Outcome, MarketError>)
        requires
            old(self).wf(),
        ensures
            final(self).wf(),
            match old(self).sell_order_error(seller, stock_id, price_per_share, shares, now) {
                Some(e) => r is Err && r->Err_0 == e && *final(self) == *old(self),
                None => {
                    let f = walk(open_buys(old(self).buy_orders@, stock_id), true, shares as nat, Some(price_per_share));
                    let filled = fills_shares(f);
                    &&& r is Ok
                    &&& r->Ok_0.id == old(self).sell_orders@.len() + 1
                    &&& final(self).sell_orders@ == old(self).sell_orders@.push(
                        SellOrder {
                            id: (old(self).sell_orders@.len() + 1) as u64,
                            stock_id,
                            available_shares: shares,
                            price_per_share,
                            sold_shares: filled as u64,
                            owner: seller,
                            created_at: now,
                            resolved_at: if filled == shares { Some(now) } else { None },
                        },
                    )
                    &&& final(self).buy_orders@ == bought_into(old(self).buy_orders@, f, now)
                    &&& final(self).shares@ == settled(old(self).shares@, stock_id, seller, false, f)->Some_0
                    &&& final(self).sales@ == old(self).sales@ + sales_of(f, stock_id, seller, false, now, old(self).sales@.len())
                    &&& r->Ok_0.transfers@ == proceeds(f, seller)
                    // paid out of what the filled buy orders held
                    &&& transfers_total(r->Ok_0.transfers@) == fills_cost(f)
                    &&& forall|st: u64| #[trigger] stock_total(final(self).shares@, st) == stock_total(old(self).shares@, st)
                    &&& final(self).stocks == old(self).stocks
                    &&& final(self).bids == old(self).bids
                    &&& final(self).owner == old(self).owner
                },
            },
    {
        if !self.room() {
            return Err(MarketError::StoreFull);
        }
        if shares == 0 {
            return Err(MarketError::ZeroShares);
        }
        if price_per_share == 0 {
            return Err(MarketError::ZeroPrice);
        }
        match self.check_market(stock_id, shares, now) {
            Ok(()) => {},
            Err(e) => {
                return Err(e);
            },
        }
        match find_share_row(&self.shares, stock_id, seller) {
            Some(i) => {
                if self.shares[i].no_of_shares < shares {
                    return Err(MarketError::InsufficientShares);
                }
            },
            None => {
                return Err(MarketError::NoShares);
            },
        }
        let book = self.open_buy_book(stock_id);
        let ghost levels = book@;
        proof {
            lemma_walk_pos(levels, true, shares as nat, Some(price_per_share), self.buy_orders@.len() as int);
            lemma_walk_shares(levels, true, shares as nat, Some(price_per_share));
            lemma_walk_len(levels, true, shares as nat, Some(price_per_share));
        }
        let f = walk_book(book, true, shares, Some(price_per_share));
        let filled = shares_moved(&f);
        match total_cost(&f) {
            Some(_) => {},
            None => {
                return Err(MarketError::Overflow);
            },
        }
        if !settle(&mut self.shares, stock_id, seller, false, &f) {
            return Err(MarketError::SettlementFailed);
        }
        proof {
            lemma_settled_conserves(old(self).shares@, stock_id, seller, false, f@);
        }
        self.apply_buy_fills(&f, now);
        self.record_sales(&f, stock_id, seller, false, now);
        let transfers = fill_payments(&f, seller, false);
        let id = self.sell_orders.len() as u64 + 1;
        self.sell_orders.push(
            SellOrder {
                id,
                stock_id,
                available_shares: shares,
                price_per_share,
                sold_shares: filled,
                owner: seller,
                created_at: now,
                resolved_at: if filled == shares { Some(now) } else { None },
            },
        );
        assert(self.buy_orders@ == bought_into(old(self).buy_orders@, f@, now));
        assert(self.shares@ == settled(old(self).shares@, stock_id, seller, false, f@)->Some_0);
        Ok(Outcome { id, transfers })
    }

    /// Why `quick_buy` refuses, if it does.
    pub open spec fn quick_buy_error(&self, buyer: u64, stock_id: u64, shares: u64, slippage: u64, sent: u128, now: u64) -> Option<MarketError> {
        let book = open_sells(self.sell_orders@, stock_id);
        let f = walk(book, false, shares as nat, None);
        if self.market_error(stock_id, shares, now) is Some {
            self.market_error(stock_id, shares, now)
        } else if volume(book) < shares {
            Some(MarketError::InsufficientVolume)
        } else if fills_cost(f) > u128::MAX || fills_cost(f) * slippage > u128::MAX
            || max_with_slippage(fills_cost(f), slippage) > u128::MAX {
            Some(MarketError::Overflow)
        } else if sent < max_with_slippage(fills_cost(f), slippage) {
            Some(MarketError::InsufficientFunds)
        } else if settled(self.shares@, stock_id, buyer, true, f) is None {
            Some(MarketError::SettlementFailed)
        } else {
            None
        }
    }

    /// Buys `shares` shares at once from the open sell orders, cheapest and
    /// then oldest first; the buyer must send the quoted cost plus
    /// `slippage` percent, and gets back what was sent beyond the cost.
    /// The quote and the purchase walk the same book within one operation,
    /// so the cost is the quote itself and can never exceed the slippage
    /// bound: no slippage failure is possible here.
    pub fn quick_buy(&mut self, buyer: u64, stock_id: u64, shares: u64, slippage: u64, sent: u128, now: u64) -> (r: Result<Vec<Transfer>, MarketError>)
        requires
            old(self).wf(),
        ensures
            final(self).wf(),
            match old(self).quick_buy_error(buyer, stock_id, shares, slippage, sent, now) {
                Some(e) => r is Err && r->Err_0 == e && *final(self) == *old(self),
                None => {
                    let f = walk(open_sells(old(self).sell_orders@, stock_id), false, shares as nat, None);
                    &&& r is Ok
                    // the buyer gets every share asked for
                    &&& fills_shares(f) == shares
                    &&& final(self).sell_orders@ == sold_into(old(self).sell_orders@, f, now)
                    &&& final(self).shares@ == settled(old(self).shares@, stock_id, buyer, true, f)->Some_0
                    &&& final(self).sales@ == old(self).sales@ + sales_of(f, stock_id, buyer, true, now, old(self).sales@.len())
                    &&& r->Ok_0@ == payouts(f) + pay(buyer, (sent - fills_cost(f)) as nat)
                    // every coin that came in goes out again
                    &&& transfers_total(r->Ok_0@) == sent
                    &&& forall|st: u64| #[trigger] stock_total(final(self).shares@, st) == stock_total(old(self).shares@, st)
                    &&& final(self).stocks == old(self).stocks
                    &&& final(self).bids == old(self).bids
                    &&& final(self).buy_orders == old(self).buy_orders
                    &&& final(self).owner == old(self).owner
                },
            },
    {
        match self.check_market(stock_id, shares, now) {
            Ok(()) => {},
            Err(e) => {
                return Err(e);
            },
        }
        let book = self.open_sell_book(stock_id);
        let ghost levels = book@;
        match total_volume(&book) {
            Some(v) => {
                if v < shares {
                    return Err(MarketError::InsufficientVolume);
                }
            },
            None => {},
        }
        proof {
            lemma_walk_pos(levels, false, shares as nat, None, self.sell_orders@.len() as int);
            lemma_walk_len(levels, false, shares as nat, None);
            lemma_walk_fills_all(levels, false, shares as nat);
        }
        let f = walk_book(book, false, shares, None);
        let cost = match total_cost(&f) {
            Some(c) => c,
            None => {
                return Err(MarketError::Overflow);
            },
        };
        let extra = match cost.checked_mul(slippage as u128) {
            Some(x) => x / 100,
            None => {
                return Err(MarketError::Overflow);
            },
        };
        let max_price = match cost.checked_add(extra) {
            Some(m) => m,
            None => {
                return Err(MarketError::Overflow);
            },
        };
        if sent < max_price {
            return Err(MarketError::InsufficientFunds);
        }
        if !settle(&mut self.shares, stock_id, buyer, true, &f) {
            return Err(MarketError::SettlementFailed);
        }
        proof {
            lemma_settled_conserves(old(self).shares@, stock_id, buyer, true, f@);
        }
        self.apply_sell_fills(&f, now);
        self.record_sales(&f, stock_id, buyer, true, now);
        let mut transfers = fill_payments(&f, buyer, true);
        let change = sent - cost;
        if change > 0 {
            transfers.push(Transfer { to: buyer, amount: change });
        }
        proof {
            lemma_pay_total(buyer, change as nat);
            lemma_total_concat(payouts(f@), pay(buyer, change as nat));
        }
        assert(transfers@ == payouts(f@) + pay(buyer, change as nat));
        assert(self.sell_orders@ == sold_into(old(self).sell_orders@, f@, now));
        assert(self.shares@ == settled(old(self).shares@, stock_id, buyer, true, f@)->Some_0);
        Ok(transfers)
    }

    /// Why `quick_sell` refuses, if it does.
    pub open spec fn quick_sell_error(&self, seller: u64, stock_id: u64, shares: u64, price_per_share: u128, slippage: u64, now: u64) -> Option<MarketError> {
        let book = open_buys(self.buy_orders@, stock_id);
        let f = walk(book, true, shares as nat, None);
        let asked = price_per_share as nat * shares as nat;
        if self.market_error(stock_id, shares, now) is Some {
            self.market_error(stock_id, shares, now)
        } else if row_of(self.shares@, stock_id, seller) < 0 {
            Some(MarketError::NoShares)
        } else if balance(self.shares@, stock_id, seller) < shares {
            Some(MarketError::InsufficientShares)
        } else if volume(book) < shares {
            Some(MarketError::InsufficientVolume)
        } else if fills_cost(f) > u128::MAX || asked > u128::MAX || asked * slippage as nat > u128::MAX {
            Some(MarketError::Overflow)
        } else if fills_cost(f) < min_with_slippage(asked, slippage) {
            Some(MarketError::SlippageExceeded)
        } else if settled(self.shares@, stock_id, seller, false, f) is None {
            Some(MarketError::SettlementFailed)
        } else {
            None
        }
    }

    /// Sells `shares` shares at once to the open buy orders, dearest and
    /// then oldest first, all or nothing, provided they bring at least
    /// `price_per_share` a share less `slippage` percent.
    pub fn quick_sell(&mut self, seller: u64, stock_id: u64, shares: u64, price_per_share: u128, slippage: u64, now: u64) -> (r: Result<Vec<Transfer>, MarketError>)
        requires
            old(self).wf(),
        ensures
            final(self).wf(),
            match old(self).quick_sell_error(seller, stock_id, shares, price_per_share, slippage, now) {
                Some(e) => r is Err && r->Err_0 == e && *final(self) == *old(self),
                None => {
                    let f = walk(open_buys(old(self).buy_orders@, stock_id), true, shares as nat, None);
                    &&& r is Ok
                    &&& fills_shares(f) == shares
                    &&& final(self).buy_orders@ == bought_into(old(self).buy_orders@, f, now)
                    &&& final(self).shares@ == settled(old(self).shares@, stock_id, seller, false, f)->Some_0
                    &&& final(self).sales@ == old(self).sales@ + sales_of(f, stock_id, seller, false, now, old(self).sales@.len())
                    &&& r->Ok_0@ == proceeds(f, seller)
                    // paid out of what the filled buy orders held
                    &&& transfers_total(r->Ok_0@) == fills_cost(f)
                    &&& forall|st: u64| #[trigger] stock_total(final(self).shares@, st) == stock_total(old(self).shares@, st)
                    &&& final(self).stocks == old(self).stocks
                    &&& final(self).bids == old(self).bids
                    &&& final(self).sell_orders == old(self).sell_orders
                    &&& final(self).owner == old(self).owner
                },
            },
    {
        match self.check_market(stock_id, shares, now) {
            Ok(()) => {},
            Err(e) => {
                return Err(e);
            },
        }
        match find_share_row(&self.shares, stock_id, seller) {
            Some(i) => {
                if self.shares[i].no_of_shares < shares {
                    return Err(MarketError::InsufficientShares);
                }
            },
            None => {
                return Err(MarketError::NoShares);
            },
        }
        let book = self.open_buy_book(stock_id);
        let ghost levels = book@;
        match total_volume(&book) {
            Some(v) => {
                if v < shares {
                    return Err(MarketError::InsufficientVolume);
                }
            },
            None => {},
        }
        proof {
            lemma_walk_pos(levels, true, shares as nat, None, self.buy_orders@.len() as int);
            lemma_walk_len(levels, true, shares as nat, None);
            lemma_walk_fills_all(levels, true, shares as nat);
        }
        let f = walk_book(book, true, shares, None);
        let total = match total_cost(&f) {
            Some(c) => c,
            None => {
                return Err(MarketError::Overflow);
            },
        };
        let asked = match price_per_share.checked_mul(shares as u128) {
            Some(a) => a,
            None => {
                return Err(MarketError::Overflow);
            },
        };
        let cut = match asked.checked_mul(slippage as u128) {
            Some(x) => x / 100,
            None => {
                return Err(MarketError::Overflow);
            },
        };
        let min_price = if cut <= asked {
            asked - cut
        } else {
            0
        };
        if total < min_price {
            return Err(MarketError::SlippageExceeded);
        }
        if !settle(&mut self.shares, stock_id, seller, false, &f) {
            return Err(MarketError::SettlementFailed);
        }
        proof {
            lemma_settled_conserves(old(self).shares@, stock_id, seller, false, f@);
        }
        self.apply_buy_fills(&f, now);
        self.record_sales(&f, stock_id, seller, false, now);
        let transfers = fill_payments(&f, seller, false);
        assert(self.buy_orders@ == bought_into(old(self).buy_orders@, f@, now));
        assert(self.shares@ == settled(old(self).shares@, stock_id, seller, false, f@)->Some_0);
        Ok(transfers)
    }

    /// Why `cancel_buy_order` refuses, if it does.
    pub open spec fn cancel_buy_error(&self, caller: u64, id: u64) -> Option<MarketError> {
        if !(1 <= id <= self.buy_orders@.len()) {
            Some(MarketError::OrderNotFound)
        } else if self.buy_orders@[id - 1].owner != caller {
            Some(MarketError::Unauthorized)
        } else if self.buy_orders@[id - 1].resolved_at is Some {
            Some(MarketError::OrderResolved)
        } else {
            None
        }
    }

    /// Takes a resting buy order off the book: it is resolved at `now`.
    pub fn cancel_buy_order(&mut self, caller: u64, buy_order_id: u64, now: u64) -> (r: Result<(), MarketError>)
        requires
            old(self).wf(),
        ensures
            final(self).wf(),
            match old(self).cancel_buy_error(caller, buy_order_id) {
                Some(e) => r == Err::<(), MarketError>(e) && *final(self) == *old(self),
                None => {
                    &&& r is Ok
                    &&& final(self).buy_orders@ == old(self).buy_orders@.update(
                        buy_order_id - 1,
                        BuyOrder { resolved_at: Some(now), ..old(self).buy_orders@[buy_order_id - 1] },
                    )
                    &&& final(self).stocks == old(self).stocks
                    &&& final(self).bids == old(self).bids
                    &&& final(self).shares == old(self).shares
                    &&& final(self).sell_orders == old(self).sell_orders
                    &&& final(self).sales == old(self).sales
                    &&& final(self).owner == old(self).owner
                },
            },
    {
        if buy_order_id == 0 || buy_order_id > self.buy_orders.len() as u64 {
            return Err(MarketError::OrderNotFound);
        }
        let i = (buy_order_id - 1) as usize;
        let o = self.buy_orders[i];
        if o.owner != caller {
            return Err(MarketError::Unauthorized);
        }
        if o.resolved_at.is_some() {
            return Err(MarketError::OrderResolved);
        }
        self.buy_orders.set(i, BuyOrder { resolved_at: Some(now), ..o });
        assert(self.buy_orders@[i as int].id == old(self).buy_orders@[i as int].id);
        Ok(())
    }

    /// Why `cancel_sell_order` refuses, if it does.
    pub open spec fn cancel_sell_error(&self, caller: u64, id: u64) -> Option<MarketError> {
        if !(1 <= id <= self.sell_orders@.len()) {
            Some(MarketError::OrderNotFound)
        } else if self.sell_orders@[id - 1].owner != caller {
            Some(MarketError::Unauthorized)
        } else if self.sell_orders@[id - 1].resolved_at is Some {
            Some(MarketError::OrderResolved)
        } else {
            None
        }
    }

    /// Takes a resting sell order off the book: it is resolved at `now`.
    pub fn cancel_sell_order(&mut self, caller: u64, sell_order_id: u64, now: u64) -> (r: Result<(), MarketError>)
        requires
            old(self).wf(),
        ensures
            final(self).wf(),
            match old(self).cancel_sell_error(caller, sell_order_id) {
                Some(e) => r == Err::<(), MarketError>(e) && *final(self) == *old(self),
                None => {
                    &&& r is Ok
                    &&& final(self).sell_orders@ == old(self).sell_orders@.update(
                        sell_order_id - 1,
                        SellOrder { resolved_at: Some(now), ..old(self).sell_orders@[sell_order_id - 1] },
                    )
                    &&& final(self).stocks == old(self).stocks
                    &&& final(self).bids == old(self).bids
                    &&& final(self).shares == old(self).shares
                    &&& final(self).buy_orders == old(self).buy_orders
                    &&& final(self).sales == old(self).sales
                    &&& final(self).owner == old(self).owner
                },
            },
    {
        if sell_order_id == 0 || sell_order_id > self.sell_orders.len() as u64 {
            return Err(MarketError::OrderNotFound);
        }
        let i = (sell_order_id - 1) as usize;
        let o = self.sell_orders[i];
        if o.owner != caller {
            return Err(MarketError::Unauthorized);
        }
        if o.resolved_at.is_some() {
            return Err(MarketError::OrderResolved);
        }
        self.sell_orders.set(i, SellOrder { resolved_at: Some(now), ..o });
        assert(self.sell_orders@[i as int].id == old(self).sell_orders@[i as int].id);
        Ok(())
    }

    /// Shares on offer in the open sell orders of a stock.
    pub fn get_total_sell_order_volume(&self, stock_id: u64) -> (r: Result<GetTotalSellVolumeResponse, MarketError>)
        requires
            self.wf(),
        ensures
            volume(open_sells(self.sell_orders@, stock_id)) <= u64::MAX ==> r is Ok && r->Ok_0.amount == volume(open_sells(self.sell_orders@, stock_id)),
            volume(open_sells(self.sell_orders@, stock_id)) > u64::MAX ==> r == Err::<GetTotalSellVolumeResponse, MarketError>(MarketError::Overflow),
    {
        let book = self.open_sell_book(stock_id);
        match total_volume(&book) {
            Some(v) => Ok(GetTotalSellVolumeResponse { amount: v }),
            None => Err(MarketError::Overflow),
        }
    }

    /// Shares wanted by the open buy orders of a stock.
    pub fn get_total_buy_order_volume(&self, stock_id: u64) -> (r: Result<GetTotalBuyVolumeResponse, MarketError>)
        requires
            self.wf(),
        ensures
            volume(open_buys(self.buy_orders@, stock_id)) <= u64::MAX ==> r is Ok && r->Ok_0.amount == volume(open_buys(self.buy_orders@, stock_id)),
            volume(open_buys(self.buy_orders@, stock_id)) > u64::MAX ==> r == Err::<GetTotalBuyVolumeResponse, MarketError>(MarketError::Overflow),
    {
        let book = self.open_buy_book(stock_id);
        match total_volume(&book) {
            Some(v) => Ok(GetTotalBuyVolumeResponse { amount: v }),
            None => Err(MarketError::Overflow),
        }
    }

    /// What buying `requested_shares` from the open sell orders costs now.
    pub fn get_buy_price(&self, stock_id: u64, requested_shares: u64) -> (r: Result<GetBuyPriceResponse, MarketError>)
        requires
            self.wf(),
        ensures
            ({
                let book = open_sells(self.sell_orders@, stock_id);
                let total = fills_cost(walk(book, false, requested_shares as nat, None));
                if volume(book) < requested_shares {
                    r == Err::<GetBuyPriceResponse, MarketError>(MarketError::InsufficientVolume)
                } else if total > u128::MAX {
                    r == Err::<GetBuyPriceResponse, MarketError>(MarketError::Overflow)
                } else {
                    &&& r is Ok
                    &&& r->Ok_0.total_price == total
                    &&& r->Ok_0.requested_shares == requested_shares
                    &&& r->Ok_0.price_per_share == if requested_shares > 0 { total / requested_shares as nat } else { 0 }
                }
            }),
    {
        let book = self.open_sell_book(stock_id);
        match total_volume(&book) {
            Some(v) => {
                if v < requested_shares {
                    return Err(MarketError::InsufficientVolume);
                }
            },
            None => {},
        }
        let f = walk_book(book, false, requested_shares, None);
        let total = match total_cost(&f) {
            Some(c) => c,
            None => {
                return Err(MarketError::Overflow);
            },
        };
        let price_per_share = if requested_shares > 0 {
            total / requested_shares as u128
        } else {
            0
        };
        Ok(GetBuyPriceResponse { total_price: total, price_per_share, requested_shares })
    }

    /// What selling `requested_shares` to the open buy orders brings now.
    pub fn get_sell_price(&self, stock_id: u64, requested_shares: u64) -> (r: Result<GetSellPriceResponse, MarketError>)
        requires
            self.wf(),
        ensures
            ({
                let book = open_buys(self.buy_orders@, stock_id);
                let total = fills_cost(walk(book, true, requested_shares as nat, None));
                if volume(book) < requested_shares {
                    r == Err::<GetSellPriceResponse, MarketError>(MarketError::InsufficientVolume)
                } else if total > u128::MAX {
                    r == Err::<GetSellPriceResponse, MarketError>(MarketError::Overflow)
                } else {
                    &&& r is Ok
                    &&& r->Ok_0.total_price == total
                    &&& r->Ok_0.requested_shares == requested_shares
                    &&& r->Ok_0.price_per_share == if requested_shares > 0 { total / requested_shares as nat } else { 0 }
                }
            }),
    {
        let book = self.open_buy_book(stock_id);
        match total_volume(&book) {
            Some(v) => {
                if v < requested_shares {
                    return Err(MarketError::InsufficientVolume);
                }
            },
            None => {},
        }
        let f = walk_book(book, true, requested_shares, None);
        let total = match total_cost(&f) {
            Some(c) => c,
            None => {
                return Err(MarketError::Overflow);
            },
        };
        let price_per_share = if requested_shares > 0 {
            total / requested_shares as u128
        } else {
            0
        };
        Ok(GetSellPriceResponse { total_price: total, price_per_share, requested_shares })
    }
}

} // verus!
