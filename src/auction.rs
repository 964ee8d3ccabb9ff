use vstd::prelude::*;
use crate::book::{Fill, Level, best_index, lemma_best_index_bounds, walk, walk_book, fills_cost, fills_shares, total_cost, lemma_walk_pos, shares_moved, lemma_walk_shares, lemma_cost_prefix};
use crate::ledger::{stock_total, credit, copy_rows, lemma_credited_total};
use crate::market::{
    Market, Outcome, transfers_total, pay, payouts, open_bids, bid_levels, minimum_bid_price, outbid, awarded,
    open_remaining, retired, auction_closed,
};
use crate::types::{Bid, Share, Stock, Transfer, MarketError, ROW_LIMIT};

verus! {

/// The open bids a new bid for `shares` shares displaces, cheapest first.
pub open spec fn cascade(b: Seq<Bid>, stock: u64, shares: u64) -> Seq<Fill> {
    walk(open_bids(b, stock), false, shares as nat, None)
}

pub proof fn lemma_total_concat(a: Seq<Transfer>, b: Seq<Transfer>)
    ensures
        transfers_total(a + b) == transfers_total(a) + transfers_total(b),
    decreases b.len(),
{
    if b.len() == 0 {
        assert(a + b =~= a);
    } else {
        lemma_total_concat(a, b.drop_last());
        assert((a + b).drop_last() =~= a + b.drop_last());
    }
}

pub proof fn lemma_pay_total(to: u64, amount: nat)
    requires
        amount <= u128::MAX,
    ensures
        transfers_total(pay(to, amount)) == amount,
{
    if amount > 0 {
        let t = seq![Transfer { to, amount: amount as u128 }];
        assert(t.drop_last() =~= Seq::<Transfer>::empty());
        assert(transfers_total(Seq::<Transfer>::empty()) == 0);
        assert(t.last().amount == amount);
        assert(transfers_total(t) == transfers_total(t.drop_last()) + t.last().amount as nat);
    } else {
        assert(transfers_total(pay(to, amount)) == 0);
    }
}

/// The payouts add up to what the displaced shares cost.
pub proof fn lemma_payouts_total(f: Seq<Fill>)
    requires
        fills_cost(f) <= u128::MAX,
    ensures
        transfers_total(payouts(f)) == fills_cost(f),
    decreases f.len(),
{
    if f.len() > 0 {
        lemma_cost_prefix(f, f.len() - 1);
        assert(f.subrange(0, f.len() - 1) =~= f.drop_last());
        lemma_payouts_total(f.drop_last());
        let x = f.last();
        lemma_pay_total(x.owner, x.take as nat * x.price as nat);
        lemma_total_concat(payouts(f.drop_last()), pay(x.owner, x.take as nat * x.price as nat));
    }
}

pub proof fn lemma_awarded_none(s: Seq<Share>, b: Seq<Bid>, stock: u64, k: int)
    requires
        0 <= k <= b.len(),
        awarded(s, b, stock, k) is None,
    ensures
        awarded(s, b, stock, b.len() as int) is None,
    decreases b.len() - k,
{
    if k < b.len() {
        lemma_awarded_none(s, b, stock, k + 1);
    }
}

/// A level of the bid book that stands for an open bid of `stock`.
pub open spec fn level_of_bid(b: Seq<Bid>, stock: u64, l: Level) -> bool {
    &&& l.pos < b.len()
    &&& b[l.pos as int].stock_id == stock
    &&& b[l.pos as int].open
    &&& l.balance == b[l.pos as int].remaining_shares
}

/// Levels of open bids of `stock`, each bid at most once.
pub open spec fn bid_book(b: Seq<Bid>, stock: u64, s: Seq<Level>) -> bool {
    &&& forall|j: int| 0 <= j < s.len() ==> level_of_bid(b, stock, #[trigger] s[j])
    &&& forall|i: int, j: int| 0 <= i < s.len() && 0 <= j < s.len() && i != j ==> (#[trigger] s[i]).pos != (#[trigger] s[j]).pos
}

/// A fill of a cascade: it takes from an open bid of `stock` no more than
/// the bid holds.
pub open spec fn fill_of_bid(b: Seq<Bid>, stock: u64, x: Fill) -> bool {
    &&& x.pos < b.len()
    &&& b[x.pos as int].stock_id == stock
    &&& b[x.pos as int].open
    &&& x.take <= b[x.pos as int].remaining_shares
}

/// The fills of a cascade: each from a distinct open bid, and each but the
/// last taking all the bid holds.
pub open spec fn cascade_fills(b: Seq<Bid>, stock: u64, f: Seq<Fill>) -> bool {
    &&& forall|k: int| 0 <= k < f.len() ==> fill_of_bid(b, stock, #[trigger] f[k])
    &&& forall|k: int| 0 <= k < f.len() - 1 ==> (#[trigger] f[k]).take == b[f[k].pos as int].remaining_shares
    &&& forall|i: int, j: int| 0 <= i < f.len() && 0 <= j < f.len() && i != j ==> (#[trigger] f[i]).pos != (#[trigger] f[j]).pos
}

pub proof fn lemma_open_bids_book(b: Seq<Bid>, stock: u64, k: int)
    requires
        0 <= k <= b.len(),
        b.len() <= usize::MAX,
    ensures
        bid_book(b, stock, bid_levels(b, stock, k)),
        forall|j: int| 0 <= j < bid_levels(b, stock, k).len() ==> (#[trigger] bid_levels(b, stock, k)[j]).pos < k,
    decreases k,
{
    if k > 0 {
        lemma_open_bids_book(b, stock, k - 1);
        let prev = bid_levels(b, stock, k - 1);
        let cur = bid_levels(b, stock, k);
        if b[k - 1].stock_id == stock && b[k - 1].open {
            assert forall|j: int| 0 <= j < cur.len() implies level_of_bid(b, stock, #[trigger] cur[j]) && cur[j].pos < k by {
                if j < prev.len() {
                    assert(cur[j] == prev[j]);
                } else {
                    assert(cur[j].pos == k - 1);
                }
            }
            assert forall|i: int, j: int| 0 <= i < cur.len() && 0 <= j < cur.len() && i != j implies (#[trigger] cur[i]).pos != (#[trigger] cur[j]).pos by {
                if i < prev.len() {
                    assert(cur[i] == prev[i]);
                }
                if j < prev.len() {
                    assert(cur[j] == prev[j]);
                }
            }
        }
    }
}

/// Walking a book of open bids gives the fills of a cascade, each from a
/// level of the book.
pub proof fn lemma_walk_cascade(b: Seq<Bid>, stock: u64, s: Seq<Level>, n: nat)
    requires
        bid_book(b, stock, s),
    ensures
        cascade_fills(b, stock, walk(s, false, n, None)),
        forall|k: int| 0 <= k < walk(s, false, n, None).len() ==> exists|j: int| 0 <= j < s.len() && (#[trigger] walk(s, false, n, None)[k]).pos == s[j].pos,
    decreases s.len(),
{
    let w = walk(s, false, n, None);
    if n > 0 && s.len() > 0 {
        let i = best_index(s, false);
        lemma_best_index_bounds(s, false);
        let l = s[i];
        let take = crate::book::min_nat(n, l.balance as nat);
        let x = Fill { pos: l.pos, owner: l.owner, price: l.price, take: take as u64 };
        let r = s.remove(i);
        assert forall|j: int| 0 <= j < r.len() implies level_of_bid(b, stock, #[trigger] r[j]) && r[j].pos != l.pos by {
            if j < i {
                assert(r[j] == s[j]);
            } else {
                assert(r[j] == s[j + 1]);
            }
        }
        assert forall|a: int, c: int| 0 <= a < r.len() && 0 <= c < r.len() && a != c implies (#[trigger] r[a]).pos != (#[trigger] r[c]).pos by {
            let a2 = if a < i { a } else { a + 1 };
            let c2 = if c < i { c } else { c + 1 };
            assert(r[a] == s[a2]);
            assert(r[c] == s[c2]);
        }
        let rest = walk(r, false, (n - take) as nat, None);
        lemma_walk_cascade(b, stock, r, (n - take) as nat);
        assert(w == seq![x] + rest);
        assert forall|k: int| 0 <= k < rest.len() implies (#[trigger] rest[k]).pos != x.pos by {
            let j = choose|j: int| 0 <= j < r.len() && rest[k].pos == r[j].pos;
            assert(r[j].pos != l.pos);
        }
        if rest.len() > 0 {
            assert(take < n) by {
                if take == n {
                    assert(rest =~= Seq::<Fill>::empty());
                }
            }
        }
        assert forall|k: int| 0 <= k < w.len() implies fill_of_bid(b, stock, #[trigger] w[k]) by {
            if k > 0 {
                assert(w[k] == rest[k - 1]);
            }
        }
        assert forall|k: int| 0 <= k < w.len() - 1 implies (#[trigger] w[k]).take == b[w[k].pos as int].remaining_shares by {
            if k > 0 {
                assert(w[k] == rest[k - 1]);
            }
        }
        assert forall|a: int, c: int| 0 <= a < w.len() && 0 <= c < w.len() && a != c implies (#[trigger] w[a]).pos != (#[trigger] w[c]).pos by {
            if a > 0 {
                assert(w[a] == rest[a - 1]);
            }
            if c > 0 {
                assert(w[c] == rest[c - 1]);
            }
        }
        assert forall|k: int| 0 <= k < w.len() implies exists|j: int| 0 <= j < s.len() && (#[trigger] w[k]).pos == s[j].pos by {
            if k == 0 {
                assert(w[0].pos == s[i].pos);
            } else {
                assert(w[k] == rest[k - 1]);
                let j = choose|j: int| 0 <= j < r.len() && rest[k - 1].pos == r[j].pos;
                if j < i {
                    assert(r[j] == s[j]);
                } else {
                    assert(r[j] == s[j + 1]);
                }
            }
        }
    } else {
        assert(w =~= Seq::<Fill>::empty());
    }
}

pub proof fn lemma_open_remaining_update(b: Seq<Bid>, stock: u64, p: int, v: Bid, k: int)
    requires
        0 <= p < b.len(),
        0 <= k <= b.len(),
    ensures
        p < k ==> open_remaining(b.update(p, v), stock, k) + (if b[p].stock_id == stock && b[p].open { b[p].remaining_shares as int } else { 0 })
            == open_remaining(b, stock, k) + (if v.stock_id == stock && v.open { v.remaining_shares as int } else { 0 }),
        p >= k ==> open_remaining(b.update(p, v), stock, k) == open_remaining(b, stock, k),
    decreases k,
{
    if k > 0 {
        lemma_open_remaining_update(b, stock, p, v, k - 1);
    }
}

/// The cascade leaves every bid it does not consume as it was.
pub proof fn lemma_outbid_untouched(b: Seq<Bid>, f: Seq<Fill>, keep_last: bool, q: int)
    requires
        0 <= q < b.len(),
        forall|k: int| 0 <= k < f.len() ==> (#[trigger] f[k]).pos < b.len(),
        forall|k: int| 0 <= k < f.len() ==> (#[trigger] f[k]).pos != q,
    ensures
        outbid(b, f, keep_last).len() == b.len(),
        outbid(b, f, keep_last)[q] == b[q],
    decreases f.len(),
{
    if f.len() > 0 {
        let t = f.drop_last();
        assert forall|k: int| 0 <= k < t.len() implies (#[trigger] t[k]).pos < b.len() && t[k].pos != q by {
            assert(t[k] == f[k]);
        }
        lemma_outbid_untouched(b, t, false, q);
        assert(f.last() == f[f.len() - 1]);
        assert(f.last().pos != q);
    }
}

/// A cascade takes from the open bids of the stock exactly the shares it
/// consumes.
pub proof fn lemma_outbid_open_shares(b: Seq<Bid>, stock: u64, f: Seq<Fill>, keep_last: bool)
    requires
        cascade_fills(b, stock, f),
        !keep_last && f.len() > 0 ==> f.last().take == b[f.last().pos as int].remaining_shares,
    ensures
        outbid(b, f, keep_last).len() == b.len(),
        open_remaining(outbid(b, f, keep_last), stock, b.len() as int) + fills_shares(f) == open_remaining(b, stock, b.len() as int),
    decreases f.len(),
{
    if f.len() > 0 {
        let t = f.drop_last();
        let x = f.last();
        assert(x == f[f.len() - 1]);
        assert forall|k: int| 0 <= k < t.len() implies fill_of_bid(b, stock, #[trigger] t[k]) by {
            assert(t[k] == f[k]);
        }
        assert forall|k: int| 0 <= k < t.len() - 1 implies (#[trigger] t[k]).take == b[t[k].pos as int].remaining_shares by {
            assert(t[k] == f[k]);
        }
        assert forall|i: int, j: int| 0 <= i < t.len() && 0 <= j < t.len() && i != j implies (#[trigger] t[i]).pos != (#[trigger] t[j]).pos by {
            assert(t[i] == f[i]);
            assert(t[j] == f[j]);
        }
        if t.len() > 0 {
            assert(t.last() == f[f.len() - 2]);
        }
        lemma_outbid_open_shares(b, stock, t, false);
        assert forall|k: int| 0 <= k < t.len() implies (#[trigger] t[k]).pos < b.len() && t[k].pos != x.pos by {
            assert(t[k] == f[k]);
        }
        lemma_outbid_untouched(b, t, false, x.pos as int);
        let p = outbid(b, t, false);
        let old_bid = p[x.pos as int];
        let left = if old_bid.remaining_shares >= x.take {
            (old_bid.remaining_shares - x.take) as u64
        } else {
            0
        };
        let v = if keep_last {
            Bid { remaining_shares: left, open: left > 0, ..old_bid }
        } else {
            Bid { remaining_shares: 0, open: false, ..old_bid }
        };
        lemma_open_remaining_update(p, stock, x.pos as int, v, b.len() as int);
    }
}

/// Share conservation in the auction: a bid that the open bids cover
/// leaves the shares they hold, counted with the new bid, as they were.
pub proof fn lemma_covered_bid_keeps_open_shares(b: Seq<Bid>, stock: u64, new_bid: Bid)
    requires
        b.len() <= usize::MAX,
        new_bid.stock_id == stock,
        new_bid.open,
        fills_shares(cascade(b, stock, new_bid.remaining_shares)) == new_bid.remaining_shares,
        cascade(b, stock, new_bid.remaining_shares).len() > 0,
    ensures
        ({
            let after = outbid(b, cascade(b, stock, new_bid.remaining_shares), true).push(new_bid);
            open_remaining(after, stock, after.len() as int) == open_remaining(b, stock, b.len() as int)
        }),
{
    let f = cascade(b, stock, new_bid.remaining_shares);
    lemma_open_bids_book(b, stock, b.len() as int);
    lemma_walk_cascade(b, stock, open_bids(b, stock), new_bid.remaining_shares as nat);
    lemma_outbid_open_shares(b, stock, f, true);
    let o = outbid(b, f, true);
    let after = o.push(new_bid);
    assert(after.len() == o.len() + 1);
    assert(open_remaining(after, stock, o.len() as int) == open_remaining(o, stock, o.len() as int)) by {
        lemma_open_remaining_prefix(o, new_bid, stock, o.len() as int);
    }
}

pub proof fn lemma_open_remaining_prefix(b: Seq<Bid>, x: Bid, stock: u64, k: int)
    requires
        0 <= k <= b.len(),
    ensures
        open_remaining(b.push(x), stock, k) == open_remaining(b, stock, k),
    decreases k,
{
    if k > 0 {
        lemma_open_remaining_prefix(b, x, stock, k - 1);
        assert(b.push(x)[k - 1] == b[k - 1]);
    }
}

pub proof fn lemma_no_bids_before_start(m: Market, stock_id: u64, k: int)
    requires
        m.wf(),
        m.has_stock(stock_id),
        m.stock(stock_id).auction_start is None,
        0 <= k <= m.bids@.len(),
    ensures
        open_remaining(m.bids@, stock_id, k) == 0,
    decreases k,
{
    if k > 0 {
        lemma_no_bids_before_start(m, stock_id, k - 1);
        let b = m.bids@[k - 1];
        assert(1 <= b.stock_id <= m.stocks@.len() && m.stocks@[b.stock_id - 1].auction_start is Some);
    }
}

/// Share conservation at the start of an auction: a stock whose auction
/// has not started has no bids, so once the floor bid is placed the open
/// bids hold exactly the stock's shares.
pub proof fn lemma_auction_opens_with_all_shares(m: Market, stock_id: u64, floor: Bid)
    requires
        m.wf(),
        m.has_stock(stock_id),
        m.stock(stock_id).auction_start is None,
        floor.stock_id == stock_id,
        floor.open,
        floor.remaining_shares == m.stock(stock_id).total_shares,
    ensures
        open_remaining(m.bids@.push(floor), stock_id, m.bids@.len() + 1 as int) == m.stock(stock_id).total_shares,
{
    lemma_no_bids_before_start(m, stock_id, m.bids@.len() as int);
    lemma_open_remaining_prefix(m.bids@, floor, stock_id, m.bids@.len() as int);
    assert(m.bids@.push(floor)[m.bids@.len() as int] == floor);
}

impl Market {
    /// Why `place_bid` refuses, if it does.
    pub open spec fn place_bid_error(&self, stock_id: u64, price_per_share: u128, shares: u64, sent: u128, now: u64) -> Option<MarketError> {
        let expected = price_per_share as nat * shares as nat;
        if !self.has_room() {
            Some(MarketError::StoreFull)
        } else if shares == 0 {
            Some(MarketError::ZeroShares)
        } else if expected > u128::MAX {
            Some(MarketError::Overflow)
        } else if sent < expected {
            Some(MarketError::InsufficientFunds)
        } else if !self.has_stock(stock_id) {
            Some(MarketError::StockNotFound)
        } else if self.stock(stock_id).auction_end is Some && now > self.stock(stock_id).auction_end->Some_0 {
            Some(MarketError::AuctionEnded)
        } else if self.stock(stock_id).auction_start is None {
            Some(MarketError::AuctionNotStarted)
        } else if auction_closed(self.bids@, stock_id) {
            Some(MarketError::AuctionEnded)
        } else if price_per_share < minimum_bid_price(self.bids@, stock_id, shares) {
            Some(MarketError::BidTooLow)
        } else if fills_shares(cascade(self.bids@, stock_id, shares)) < shares {
            Some(MarketError::ExceedsSupply)
        } else if fills_cost(cascade(self.bids@, stock_id, shares)) > expected {
            Some(MarketError::BidTooLow)
        } else {
            None
        }
    }

    /// Places a bid of `shares` shares at `price_per_share` in a running
    /// auction, paid with `sent`. The new bid displaces the cheapest open
    /// bids, which must hold at least `shares` shares, so the stock's supply
    /// stays fixed; their owners are refunded what the displaced shares cost them,
    /// the bidder gets back what was sent beyond the bid's price, and the
    /// influencer is paid the rest.
    pub fn place_bid(&mut self, bidder: u64, stock_id: u64, price_per_share: u128, shares: u64, sent: u128, now: u64) -> (r: Result<Outcome, MarketError>)
        requires
            old(self).wf(),
        ensures
            final(self).wf(),
            match old(self).place_bid_error(stock_id, price_per_share, shares, sent, now) {
                Some(e) => r is Err && r->Err_0 == e && *final(self) == *old(self),
                None => {
                    let f = cascade(old(self).bids@, stock_id, shares);
                    let expected = price_per_share as nat * shares as nat;
                    &&& r is Ok
                    &&& r->Ok_0.id == old(self).bids@.len() + 1
                    &&& final(self).bids@ == outbid(old(self).bids@, f, true).push(
                        Bid {
                            id: (old(self).bids@.len() + 1) as u64,
                            stock_id,
                            bidder,
                            price_per_share,
                            shares_requested: shares,
                            remaining_shares: shares,
                            created_at: now,
                            open: true,
                            active: true,
                        },
                    )
                    &&& r->Ok_0.transfers@ == pay(bidder, (sent - expected) as nat) + payouts(f) + pay(
                        old(self).stock(stock_id).influencer,
                        (expected - fills_cost(f)) as nat,
                    )
                    // every coin that came in goes out again
                    &&& transfers_total(r->Ok_0.transfers@) == sent
                    // the open bids still hold as many shares as before
                    &&& open_remaining(final(self).bids@, stock_id, final(self).bids@.len() as int)
                        == open_remaining(old(self).bids@, stock_id, old(self).bids@.len() as int)
                    &&& final(self).stocks == old(self).stocks
                    &&& final(self).shares == old(self).shares
                    &&& final(self).sell_orders == old(self).sell_orders
                    &&& final(self).buy_orders == old(self).buy_orders
                    &&& final(self).sales == old(self).sales
                    &&& final(self).owner == old(self).owner
                },
            },
    {
        if !self.room() {
            return Err(MarketError::StoreFull);
        }
        if shares == 0 {
            return Err(MarketError::ZeroShares);
        }
        let expected = match price_per_share.checked_mul(shares as u128) {
            Some(e) => e,
            None => {
                return Err(MarketError::Overflow);
            },
        };
        if sent < expected {
            return Err(MarketError::InsufficientFunds);
        }
        if stock_id == 0 || stock_id > self.stocks.len() as u64 {
            return Err(MarketError::StockNotFound);
        }
        let si = (stock_id - 1) as usize;
        match self.stocks[si].auction_end {
            Some(e) => {
                if now > e {
                    return Err(MarketError::AuctionEnded);
                }
            },
            None => {},
        }
        if self.stocks[si].auction_start.is_none() {
            return Err(MarketError::AuctionNotStarted);
        }
        if self.closed_auction(stock_id) {
            return Err(MarketError::AuctionEnded);
        }
        let influencer = self.stocks[si].influencer;
        match self.get_minimum_bid_price(stock_id, shares) {
            Ok(m) => {
                if price_per_share < m.min_price {
                    return Err(MarketError::BidTooLow);
                }
            },
            Err(_) => {
                return Err(MarketError::BidTooLow);
            },
        }
        let book = self.open_bid_book(stock_id);
        let ghost levels = book@;
        proof {
            lemma_walk_pos(levels, false, shares as nat, None, self.bids@.len() as int);
            lemma_walk_shares(levels, false, shares as nat, None);
        }
        let f = walk_book(book, false, shares, None);
        if shares_moved(&f) < shares {
            return Err(MarketError::ExceedsSupply);
        }
        let cost = match total_cost(&f) {
            Some(c) => c,
            None => {
                return Err(MarketError::BidTooLow);
            },
        };
        if cost > expected {
            return Err(MarketError::BidTooLow);
        }
        assert(f@.len() > 0);
        // payments: the bidder's change, the payouts, the influencer's pay
        let mut transfers: Vec<Transfer> = Vec::new();
        if sent - expected > 0 {
            transfers.push(Transfer { to: bidder, amount: sent - expected });
        }
        let ghost head = transfers@;
        assert(head == pay(bidder, (sent - expected) as nat));
        let mut k: usize = 0;
        while k < f.len()
            invariant
                k <= f@.len(),
                fills_cost(f@) == cost as nat,
                transfers@ == head + payouts(f@.subrange(0, k as int)),
            decreases f@.len() - k,
        {
            let x = f[k];
            proof {
                let t = f@.subrange(0, k as int + 1);
                assert(t.drop_last() =~= f@.subrange(0, k as int));
                assert(t.last() == x);
                lemma_cost_prefix(f@, k as int + 1);
                assert(x.take as nat * x.price as nat == x.price as nat * x.take as nat) by (nonlinear_arith);
            }
            let amount = x.price * x.take as u128;
            if amount > 0 {
                transfers.push(Transfer { to: x.owner, amount });
            }
            proof {
                let t = f@.subrange(0, k as int + 1);
                assert(transfers@ =~= head + payouts(t));
            }
            k = k + 1;
        }
        assert(f@.subrange(0, f@.len() as int) =~= f@);
        if expected - cost > 0 {
            transfers.push(Transfer { to: influencer, amount: expected - cost });
        }
        proof {
            let tail = pay(influencer, (expected - cost) as nat);
            assert(transfers@ =~= head + payouts(f@) + tail);
            lemma_pay_total(bidder, (sent - expected) as nat);
            lemma_pay_total(influencer, (expected - cost) as nat);
            lemma_payouts_total(f@);
            lemma_total_concat(head, payouts(f@));
            lemma_total_concat(head + payouts(f@), tail);
        }
        // the cascade
        let n = f.len();
        let mut k: usize = 0;
        while k < n
            invariant
                n == f@.len(),
                k <= n,
                self.bids@.len() == old(self).bids@.len(),
                forall|j: int| 0 <= j < f@.len() ==> (#[trigger] f@[j]).pos < self.bids@.len(),
                k < n ==> self.bids@ == outbid(old(self).bids@, f@.subrange(0, k as int), false),
                k == n ==> self.bids@ == outbid(old(self).bids@, f@, true),
                forall|j: int| 0 <= j < self.bids@.len() ==> #[trigger] self.bids@[j].id == j + 1,
                forall|j: int| 0 <= j < self.bids@.len() ==> #[trigger] self.bids@[j].stock_id == old(self).bids@[j].stock_id,
                old(self).wf(),
                self.stocks == old(self).stocks,
                self.shares == old(self).shares,
                self.sell_orders == old(self).sell_orders,
                self.buy_orders == old(self).buy_orders,
                self.sales == old(self).sales,
                self.owner == old(self).owner,
            decreases n - k,
        {
            let x = f[k];
            let b = self.bids[x.pos];
            let keep = k + 1 == n;
            let nb = if keep {
                let left = if b.remaining_shares >= x.take { b.remaining_shares - x.take } else { 0 };
                Bid { remaining_shares: left, open: left > 0, ..b }
            } else {
                Bid { remaining_shares: 0, open: false, ..b }
            };
            proof {
                let t = f@.subrange(0, k as int + 1);
                assert(t.drop_last() =~= f@.subrange(0, k as int));
                assert(t.last() == x);
                if k + 1 == n {
                    assert(t =~= f@);
                }
            }
            self.bids.set(x.pos, nb);
            k = k + 1;
        }
        assert forall|j: int| 0 <= j < self.bids@.len() implies {
            let b = #[trigger] self.bids@[j];
            1 <= b.stock_id <= self.stocks@.len() && self.stocks@[b.stock_id - 1].auction_start is Some
        } by {
            assert(self.bids@[j].stock_id == old(self).bids@[j].stock_id);
            assert(old(self).bids@[j] == old(self).bids@[j]);
        }
        let id = self.bids.len() as u64 + 1;
        let new_bid = Bid {
            id,
            stock_id,
            bidder,
            price_per_share,
            shares_requested: shares,
            remaining_shares: shares,
            created_at: now,
            open: true,
            active: true,
        };
        proof {
            assert(old(self).bids@.len() <= usize::MAX);
            lemma_covered_bid_keeps_open_shares(old(self).bids@, stock_id, new_bid);
        }
        self.bids.push(new_bid);
        Ok(Outcome { id, transfers })
    }

    /// Why `end_auction` refuses, if it does.
    pub open spec fn end_auction_error(&self, caller: u64, stock_id: u64, now: u64) -> Option<MarketError> {
        if !self.has_room() {
            Some(MarketError::StoreFull)
        } else if !self.has_stock(stock_id) {
            Some(MarketError::StockNotFound)
        } else if caller != self.owner && caller != self.stock(stock_id).influencer {
            Some(MarketError::Unauthorized)
        } else if self.stock(stock_id).auction_end is Some && now > self.stock(stock_id).auction_end->Some_0 {
            Some(MarketError::AlreadyInSale)
        } else if self.stock(stock_id).auction_start is None {
            Some(MarketError::AuctionNotStarted)
        } else if auction_closed(self.bids@, stock_id) {
            Some(MarketError::AlreadyInSale)
        } else if awarded(self.shares@, self.bids@, stock_id, self.bids@.len() as int) is None {
            Some(MarketError::Overflow)
        } else {
            None
        }
    }

    /// Closes the auction of a stock now: each open bid becomes shares of
    /// its bidder, and every bid of the stock is closed and made inactive.
    /// Returns whether the caller was the influencer.
    pub fn end_auction(&mut self, caller: u64, stock_id: u64, now: u64) -> (r: Result<bool, MarketError>)
        requires
            old(self).wf(),
        ensures
            final(self).wf(),
            match old(self).end_auction_error(caller, stock_id, now) {
                Some(e) => r is Err && r->Err_0 == e && *final(self) == *old(self),
                None => {
                    let st = old(self).stock(stock_id);
                    &&& r == Ok::<bool, MarketError>(caller == st.influencer)
                    &&& final(self).stocks@ == old(self).stocks@.update(
                        stock_id - 1,
                        Stock { auction_end: Some(now), ..st },
                    )
                    &&& final(self).shares@ == awarded(old(self).shares@, old(self).bids@, stock_id, old(self).bids@.len() as int)->Some_0
                    &&& final(self).bids@.len() == old(self).bids@.len()
                    &&& forall|j: int| 0 <= j < old(self).bids@.len() ==> #[trigger] final(self).bids@[j] == retired(old(self).bids@[j], stock_id)
                    // the open bids' shares are now held, and no other stock changes
                    &&& stock_total(final(self).shares@, stock_id) == stock_total(old(self).shares@, stock_id)
                        + open_remaining(old(self).bids@, stock_id, old(self).bids@.len() as int)
                    &&& forall|other: u64| other != stock_id ==> #[trigger] stock_total(final(self).shares@, other) == stock_total(old(self).shares@, other)
                    &&& final(self).sell_orders == old(self).sell_orders
                    &&& final(self).buy_orders == old(self).buy_orders
                    &&& final(self).sales == old(self).sales
                    &&& final(self).owner == old(self).owner
                },
            },
    {
        if !self.room() {
            return Err(MarketError::StoreFull);
        }
        if stock_id == 0 || stock_id > self.stocks.len() as u64 {
            return Err(MarketError::StockNotFound);
        }
        let si = (stock_id - 1) as usize;
        let is_owner = caller == self.owner;
        let is_influencer = caller == self.stocks[si].influencer;
        if !is_owner && !is_influencer {
            return Err(MarketError::Unauthorized);
        }
        match self.stocks[si].auction_end {
            Some(e) => {
                if now > e {
                    return Err(MarketError::AlreadyInSale);
                }
            },
            None => {},
        }
        if self.stocks[si].auction_start.is_none() {
            return Err(MarketError::AuctionNotStarted);
        }
        if self.closed_auction(stock_id) {
            return Err(MarketError::AlreadyInSale);
        }
        // credit the open bids on a copy of the ledger
        let mut work = copy_rows(&self.shares);
        let mut k: usize = 0;
        while k < self.bids.len()
            invariant
                k <= self.bids@.len(),
                *self == *old(self),
                old(self).wf(),
                old(self).end_auction_error(caller, stock_id, now) == if awarded(self.shares@, self.bids@, stock_id, self.bids@.len() as int) is None {
                    Some(MarketError::Overflow)
                } else {
                    None::<MarketError>
                },
                self.shares@.len() < ROW_LIMIT,
                self.bids@.len() < ROW_LIMIT,
                work@.len() <= self.shares@.len() + k,
                awarded(self.shares@, self.bids@, stock_id, k as int) == Some(work@),
                forall|st: u64| #[trigger] stock_total(work@, st) == stock_total(self.shares@, st) + if st == stock_id {
                    open_remaining(self.bids@, stock_id, k as int)
                } else {
                    0
                },
            decreases self.bids@.len() - k,
        {
            let x = self.bids[k];
            if x.stock_id == stock_id && x.open && x.remaining_shares > 0 {
                let ghost prev = work@;
                if !credit(&mut work, stock_id, x.bidder, x.remaining_shares) {
                    proof {
                        lemma_awarded_none(self.shares@, self.bids@, stock_id, k as int + 1);
                    }
                    return Err(MarketError::Overflow);
                }
                proof {
                    lemma_credited_total(prev, stock_id, x.bidder, x.remaining_shares);
                }
            }
            k = k + 1;
        }
        let mut st = self.stocks.remove(si);
        st.auction_end = Some(now);
        self.stocks.insert(si, st);
        proof {
            assert(self.stocks@ =~= old(self).stocks@.update(
                stock_id - 1,
                Stock { auction_end: Some(now), ..old(self).stock(stock_id) },
            ));
        }
        self.shares = work;
        let ghost stocks_now = self.stocks@;
        let ghost shares_now = self.shares@;
        let mut k: usize = 0;
        while k < self.bids.len()
            invariant
                k <= self.bids@.len(),
                old(self).wf(),
                self.stocks@ == stocks_now,
                self.shares@ == shares_now,
                self.sell_orders == old(self).sell_orders,
                self.buy_orders == old(self).buy_orders,
                self.sales == old(self).sales,
                self.owner == old(self).owner,
                self.bids@.len() == old(self).bids@.len(),
                forall|j: int| 0 <= j < k ==> #[trigger] self.bids@[j] == retired(old(self).bids@[j], stock_id),
                forall|j: int| k <= j < self.bids@.len() ==> #[trigger] self.bids@[j] == old(self).bids@[j],
            decreases self.bids@.len() - k,
        {
            let x = self.bids[k];
            if x.stock_id == stock_id {
                self.bids.set(k, Bid { open: false, active: false, ..x });
            }
            k = k + 1;
        }
        assert forall|j: int| 0 <= j < self.bids@.len() implies #[trigger] self.bids@[j].id == j + 1 by {
            assert(self.bids@[j] == retired(old(self).bids@[j], stock_id));
            assert(old(self).bids@[j].id == j + 1);
        }
        assert forall|j: int| 0 <= j < self.stocks@.len() implies #[trigger] self.stocks@[j].id == j + 1 by {
            assert(old(self).stocks@[j].id == j + 1);
        }
        assert(self.shares@ == awarded(old(self).shares@, old(self).bids@, stock_id, old(self).bids@.len() as int)->Some_0);
        assert(stock_total(self.shares@, stock_id) == stock_total(old(self).shares@, stock_id)
            + open_remaining(old(self).bids@, stock_id, old(self).bids@.len() as int));
        assert(is_influencer == (caller == old(self).stock(stock_id).influencer));
        Ok(is_influencer)
    }
}

} // verus!
