use vstd::prelude::*;
use crate::market::{Market, in_auction, in_sale};
use crate::msg::GetSalesByUserResponse;
use crate::rank::{Entry, ranked, rank, lemma_ranked_pos};
use crate::types::{Bid, BuyOrder, MarketError, OrderSort, Sale, SellOrder, Share, Stock};

verus! {

/// The records among the first `k` that `keep` selects, newest first.
pub open spec fn pick_desc<T>(s: Seq<T>, k: int, keep: spec_fn(T) -> bool) -> Seq<T>
    decreases k,
{
    if k <= 0 {
        seq![]
    } else {
        (if keep(s[k - 1]) { seq![s[k - 1]] } else { seq![] }) + pick_desc(s, k - 1, keep)
    }
}

/// Whether two stocks hold the same values.
pub open spec fn same_stock(a: Stock, b: Stock) -> bool {
    &&& a.id == b.id
    &&& a.ticker@ == b.ticker@
    &&& a.influencer == b.influencer
    &&& a.total_shares == b.total_shares
    &&& a.auction_start == b.auction_start
    &&& a.auction_end == b.auction_end
    &&& a.created_at == b.created_at
}

pub open spec fn same_stocks(a: Seq<Stock>, b: Seq<Stock>) -> bool {
    a.len() == b.len() && forall|i: int| 0 <= i < a.len() ==> same_stock(#[trigger] a[i], b[i])
}

/// The listing filter of `get_all_stocks`.
pub open spec fn stock_selected(s: Stock, in_auction_filter: Option<bool>, in_sale_filter: Option<bool>, now: u64) -> bool {
    &&& (in_auction_filter is Some ==> in_auction(s, now) == in_auction_filter->Some_0)
    &&& (in_sale_filter is Some ==> in_sale(s, now) == in_sale_filter->Some_0)
}

/// How many of the newest stocks a listing that starts after `start_after`
/// leaves out: all from that id up.
pub open spec fn listing_top(len: nat, start_after: Option<u64>) -> int {
    match start_after {
        None => len as int,
        Some(id) => if id == 0 {
            0
        } else if id - 1 < len {
            id - 1
        } else {
            len as int
        },
    }
}

/// The bid filter of `get_bids_by_bidder`.
pub open spec fn bid_selected(b: Bid, bidder: u64, is_open: Option<bool>, is_active: Option<bool>, stock_id: Option<u64>) -> bool {
    &&& b.bidder == bidder
    &&& (stock_id is Some ==> b.stock_id == stock_id->Some_0)
    &&& (is_open is Some ==> b.open == is_open->Some_0)
    &&& (is_active is Some ==> b.active == is_active->Some_0)
}

/// Entries of the open bids of `stock` among the first `k`, keyed by price.
pub open spec fn open_bid_entries(b: Seq<Bid>, stock: u64, k: int) -> Seq<Entry>
    decreases k,
{
    if k <= 0 {
        seq![]
    } else {
        let prev = open_bid_entries(b, stock, k - 1);
        let x = b[k - 1];
        if x.stock_id == stock && x.open {
            prev.push(Entry { pos: (k - 1) as usize, key: x.price_per_share, id: x.id })
        } else {
            prev
        }
    }
}

/// The key an open order is listed by under `sort`.
pub open spec fn sort_key(price: u128, created_at: u64, sort: OrderSort) -> u128 {
    match sort {
        OrderSort::PriceAsc | OrderSort::PriceDesc => price,
        _ => created_at as u128,
    }
}

pub open spec fn key_desc(sort: OrderSort) -> bool {
    sort == OrderSort::PriceDesc || sort == OrderSort::CreatedAtDesc
}

/// Entries of the open sell orders among the first `k` that belong to
/// `who`: the owner where `by_owner`, else the stock.
pub open spec fn sell_entries(o: Seq<SellOrder>, by_owner: bool, who: u64, sort: OrderSort, k: int) -> Seq<Entry>
    decreases k,
{
    if k <= 0 {
        seq![]
    } else {
        let prev = sell_entries(o, by_owner, who, sort, k - 1);
        let x = o[k - 1];
        if x.resolved_at is None && (if by_owner { x.owner == who } else { x.stock_id == who }) {
            prev.push(Entry { pos: (k - 1) as usize, key: sort_key(x.price_per_share, x.created_at, sort), id: x.id })
        } else {
            prev
        }
    }
}

/// Entries of the open buy orders among the first `k` that belong to `who`.
pub open spec fn buy_entries(o: Seq<BuyOrder>, by_owner: bool, who: u64, sort: OrderSort, k: int) -> Seq<Entry>
    decreases k,
{
    if k <= 0 {
        seq![]
    } else {
        let prev = buy_entries(o, by_owner, who, sort, k - 1);
        let x = o[k - 1];
        if x.resolved_at is None && (if by_owner { x.owner == who } else { x.stock_id == who }) {
            prev.push(Entry { pos: (k - 1) as usize, key: sort_key(x.price_per_share, x.created_at, sort), id: x.id })
        } else {
            prev
        }
    }
}

/// Entries of the sales among the first `k` with `user` as buyer (`bought`)
/// or seller, keyed by time.
pub open spec fn sale_entries(s: Seq<Sale>, user: u64, bought: bool, k: int) -> Seq<Entry>
    decreases k,
{
    if k <= 0 {
        seq![]
    } else {
        let prev = sale_entries(s, user, bought, k - 1);
        let x = s[k - 1];
        if (if bought { x.to == user } else { x.from == user }) {
            prev.push(Entry { pos: (k - 1) as usize, key: x.created_at as u128, id: x.id })
        } else {
            prev
        }
    }
}

/// Entries of the share rows of `stock` among the first `k`, keyed by size.
pub open spec fn share_entries(s: Seq<Share>, stock: u64, k: int) -> Seq<Entry>
    decreases k,
{
    if k <= 0 {
        seq![]
    } else {
        let prev = share_entries(s, stock, k - 1);
        let x = s[k - 1];
        if x.stock_id == stock {
            prev.push(Entry { pos: (k - 1) as usize, key: x.no_of_shares as u128, id: x.id })
        } else {
            prev
        }
    }
}

pub fn copy_stock(s: &Stock) -> (r: Stock)
    ensures
        same_stock(r, *s),
{
    Stock {
        id: s.id,
        ticker: s.ticker.clone(),
        influencer: s.influencer,
        total_shares: s.total_shares,
        auction_start: s.auction_start,
        auction_end: s.auction_end,
        created_at: s.created_at,
    }
}

/// The records at the positions of `entries`, in their order.
pub fn rows_at<T: Copy>(table: &Vec<T>, entries: &Vec<Entry>) -> (r: Vec<T>)
    requires
        forall|j: int| 0 <= j < entries@.len() ==> (#[trigger] entries@[j]).pos < table@.len(),
    ensures
        r@ == entries@.map_values(|e: Entry| table@[e.pos as int]),
{
    let mut out: Vec<T> = Vec::new();
    let mut k: usize = 0;
    while k < entries.len()
        invariant
            k <= entries@.len(),
            forall|j: int| 0 <= j < entries@.len() ==> (#[trigger] entries@[j]).pos < table@.len(),
            out@ == entries@.subrange(0, k as int).map_values(|e: Entry| table@[e.pos as int]),
        decreases entries@.len() - k,
    {
        let e = entries[k];
        assert(entries@[k as int] == e);
        out.push(table[e.pos]);
        proof {
            assert(out@ =~= entries@.subrange(0, k as int + 1).map_values(|e: Entry| table@[e.pos as int]));
        }
        k = k + 1;
    }
    assert(entries@.subrange(0, entries@.len() as int) =~= entries@);
    out
}

impl Market {
    pub fn get_stock_by_id(&self, stock_id: u64) -> (r: Result<Stock, MarketError>)
        ensures
            self.has_stock(stock_id) ==> r is Ok && same_stock(r->Ok_0, self.stock(stock_id)),
            !self.has_stock(stock_id) ==> r == Err::<Stock, MarketError>(MarketError::StockNotFound),
    {
        if stock_id == 0 || stock_id > self.stocks.len() as u64 {
            return Err(MarketError::StockNotFound);
        }
        Ok(copy_stock(&self.stocks[(stock_id - 1) as usize]))
    }

    /// All stocks, newest first, below `start_after` where given, and
    /// filtered by whether they are in auction or in sale at `now`.
    pub fn get_all_stocks(&self, start_after: Option<u64>, in_auction_filter: Option<bool>, in_sale_filter: Option<bool>, now: u64) -> (r: Vec<Stock>)
        ensures
            same_stocks(r@, pick_desc(self.stocks@, listing_top(self.stocks@.len(), start_after), |s: Stock| stock_selected(s, in_auction_filter, in_sale_filter, now))),
    {
        let ghost keep = |s: Stock| stock_selected(s, in_auction_filter, in_sale_filter, now);
        let top: usize = match start_after {
            None => self.stocks.len(),
            Some(id) => if id == 0 {
                0
            } else if id - 1 < self.stocks.len() as u64 {
                (id - 1) as usize
            } else {
                self.stocks.len()
            },
        };
        let ghost want = pick_desc(self.stocks@, top as int, keep);
        let mut out: Vec<Stock> = Vec::new();
        let mut k: usize = top;
        while k > 0
            invariant
                k <= top <= self.stocks@.len(),
                want == pick_desc(self.stocks@, top as int, keep),
                keep == (|s: Stock| stock_selected(s, in_auction_filter, in_sale_filter, now)),
                same_stocks(out@ + pick_desc(self.stocks@, k as int, keep), want),
            decreases k,
        {
            let x = &self.stocks[k - 1];
            let ia = x.auction_start.is_some() && match x.auction_end {
                None => true,
                Some(e) => e > now,
            };
            let is = match x.auction_end {
                None => false,
                Some(e) => e <= now,
            };
            let sel = match in_auction_filter {
                None => true,
                Some(b) => ia == b,
            } && match in_sale_filter {
                None => true,
                Some(b) => is == b,
            };
            let ghost old_out = out@;
            proof {
                assert(keep(self.stocks@[k - 1]) == sel);
            }
            if sel {
                let c = copy_stock(x);
                out.push(c);
                proof {
                    let rest = pick_desc(self.stocks@, k - 1, keep);
                    assert(pick_desc(self.stocks@, k as int, keep) == seq![self.stocks@[k - 1]] + rest);
                    assert(same_stocks(out@ + rest, old_out + (seq![self.stocks@[k - 1]] + rest)));
                }
            } else {
                proof {
                    let rest = pick_desc(self.stocks@, k - 1, keep);
                    assert(pick_desc(self.stocks@, k as int, keep) =~= rest);
                }
            }
            k = k - 1;
        }
        proof {
            assert(out@ + pick_desc(self.stocks@, 0, keep) =~= out@);
        }
        out
    }

    /// A bidder's bids, newest first, filtered by stock, by whether they are
    /// open and by whether their auction is running.
    pub fn get_bids_by_bidder(&self, bidder: u64, is_open: Option<bool>, is_active: Option<bool>, stock_id: Option<u64>) -> (r: Vec<Bid>)
        ensures
            r@ == pick_desc(self.bids@, self.bids@.len() as int, |x: Bid| bid_selected(x, bidder, is_open, is_active, stock_id)),
    {
        let ghost keep = |x: Bid| bid_selected(x, bidder, is_open, is_active, stock_id);
        let mut out: Vec<Bid> = Vec::new();
        let mut k: usize = self.bids.len();
        while k > 0
            invariant
                k <= self.bids@.len(),
                keep == (|x: Bid| bid_selected(x, bidder, is_open, is_active, stock_id)),
                out@ + pick_desc(self.bids@, k as int, keep) == pick_desc(self.bids@, self.bids@.len() as int, keep),
            decreases k,
        {
            let x = self.bids[k - 1];
            let sel = x.bidder == bidder && match stock_id { None => true, Some(s) => x.stock_id == s } && match is_open { None => true, Some(b) => x.open == b } && match is_active { None => true, Some(b) => x.active == b };
            proof {
                assert(self.bids@[k - 1] == x);
                assert(keep(x) == sel);
            }
            let ghost old_out = out@;
            if sel {
                out.push(x);
            }
            proof {
                let rest = pick_desc(self.bids@, k - 1, keep);
                if sel {
                    assert(out@ + rest =~= old_out + (seq![x] + rest));
                } else {
                    assert(pick_desc(self.bids@, k as int, keep) =~= rest);
                }
            }
            k = k - 1;
        }
        proof {
            assert(out@ + pick_desc(self.bids@, 0, keep) =~= out@);
        }
        out
    }

    /// The bids on a stock, newest first.
    pub fn get_bids_by_stock_id(&self, stock_id: u64) -> (r: Vec<Bid>)
        ensures
            r@ == pick_desc(self.bids@, self.bids@.len() as int, |x: Bid| x.stock_id == stock_id),
    {
        let ghost keep = |x: Bid| x.stock_id == stock_id;
        let mut out: Vec<Bid> = Vec::new();
        let mut k: usize = self.bids.len();
        while k > 0
            invariant
                k <= self.bids@.len(),
                keep == (|x: Bid| x.stock_id == stock_id),
                out@ + pick_desc(self.bids@, k as int, keep) == pick_desc(self.bids@, self.bids@.len() as int, keep),
            decreases k,
        {
            let x = self.bids[k - 1];
            let sel = x.stock_id == stock_id;
            proof {
                assert(self.bids@[k - 1] == x);
                assert(keep(x) == sel);
            }
            let ghost old_out = out@;
            if sel {
                out.push(x);
            }
            proof {
                let rest = pick_desc(self.bids@, k - 1, keep);
                if sel {
                    assert(out@ + rest =~= old_out + (seq![x] + rest));
                } else {
                    assert(pick_desc(self.bids@, k as int, keep) =~= rest);
                }
            }
            k = k - 1;
        }
        proof {
            assert(out@ + pick_desc(self.bids@, 0, keep) =~= out@);
        }
        out
    }

    /// The sales of a stock, newest first.
    pub fn get_sales_by_stock_id(&self, stock_id: u64) -> (r: Vec<Sale>)
        ensures
            r@ == pick_desc(self.sales@, self.sales@.len() as int, |x: Sale| x.stock_id == stock_id),
    {
        let ghost keep = |x: Sale| x.stock_id == stock_id;
        let mut out: Vec<Sale> = Vec::new();
        let mut k: usize = self.sales.len();
        while k > 0
            invariant
                k <= self.sales@.len(),
                keep == (|x: Sale| x.stock_id == stock_id),
                out@ + pick_desc(self.sales@, k as int, keep) == pick_desc(self.sales@, self.sales@.len() as int, keep),
            decreases k,
        {
            let x = self.sales[k - 1];
            let sel = x.stock_id == stock_id;
            proof {
                assert(self.sales@[k - 1] == x);
                assert(keep(x) == sel);
            }
            let ghost old_out = out@;
            if sel {
                out.push(x);
            }
            proof {
                let rest = pick_desc(self.sales@, k - 1, keep);
                if sel {
                    assert(out@ + rest =~= old_out + (seq![x] + rest));
                } else {
                    assert(pick_desc(self.sales@, k as int, keep) =~= rest);
                }
            }
            k = k - 1;
        }
        proof {
            assert(out@ + pick_desc(self.sales@, 0, keep) =~= out@);
        }
        out
    }

    /// An owner's share rows, newest first.
    pub fn get_shares_by_owner(&self, owner: u64) -> (r: Vec<Share>)
        ensures
            r@ == pick_desc(self.shares@, self.shares@.len() as int, |x: Share| x.owner == owner),
    {
        let ghost keep = |x: Share| x.owner == owner;
        let mut out: Vec<Share> = Vec::new();
        let mut k: usize = self.shares.len();
        while k > 0
            invariant
                k <= self.shares@.len(),
                keep == (|x: Share| x.owner == owner),
                out@ + pick_desc(self.shares@, k as int, keep) == pick_desc(self.shares@, self.shares@.len() as int, keep),
            decreases k,
        {
            let x = self.shares[k - 1];
            let sel = x.owner == owner;
            proof {
                assert(self.shares@[k - 1] == x);
                assert(keep(x) == sel);
            }
            let ghost old_out = out@;
            if sel {
                out.push(x);
            }
            proof {
                let rest = pick_desc(self.shares@, k - 1, keep);
                if sel {
                    assert(out@ + rest =~= old_out + (seq![x] + rest));
                } else {
                    assert(pick_desc(self.shares@, k as int, keep) =~= rest);
                }
            }
            k = k - 1;
        }
        proof {
            assert(out@ + pick_desc(self.shares@, 0, keep) =~= out@);
        }
        out
    }

    /// The open bids on a stock, cheapest first, oldest first among equal
    /// prices.
    pub fn get_open_bids_by_stock(&self, stock_id: u64) -> (r: Vec<Bid>)
        ensures
            r@ == ranked(open_bid_entries(self.bids@, stock_id, self.bids@.len() as int), false, false).map_values(|e: Entry| self.bids@[e.pos as int]),
    {
        let mut es: Vec<Entry> = Vec::new();
        let mut k: usize = 0;
        while k < self.bids.len()
            invariant
                k <= self.bids@.len(),
                es@ == open_bid_entries(self.bids@, stock_id, k as int),
                forall|j: int| 0 <= j < es@.len() ==> (#[trigger] es@[j]).pos < k,
            decreases self.bids@.len() - k,
        {
            let x = self.bids[k];
            proof {
                assert(self.bids@[k as int] == x);
            }
            if x.stock_id == stock_id && x.open {
                es.push(Entry { pos: k, key: x.price_per_share, id: x.id });
            }
            k = k + 1;
        }
        let key_desc_flag = false;
        let id_desc_flag = false;
        proof {
            lemma_ranked_pos(es@, key_desc_flag, id_desc_flag, self.bids@.len() as int);
        }
        let sorted = rank(es, key_desc_flag, id_desc_flag);
        rows_at(&self.bids, &sorted)
    }

    /// The share rows of a stock, largest first, oldest first among equal
    /// sizes.
    pub fn get_shares_by_stock_id(&self, stock_id: u64) -> (r: Vec<Share>)
        ensures
            r@ == ranked(share_entries(self.shares@, stock_id, self.shares@.len() as int), true, false).map_values(|e: Entry| self.shares@[e.pos as int]),
    {
        let mut es: Vec<Entry> = Vec::new();
        let mut k: usize = 0;
        while k < self.shares.len()
            invariant
                k <= self.shares@.len(),
                es@ == share_entries(self.shares@, stock_id, k as int),
                forall|j: int| 0 <= j < es@.len() ==> (#[trigger] es@[j]).pos < k,
            decreases self.shares@.len() - k,
        {
            let x = self.shares[k];
            proof {
                assert(self.shares@[k as int] == x);
            }
            if x.stock_id == stock_id {
                es.push(Entry { pos: k, key: x.no_of_shares as u128, id: x.id });
            }
            k = k + 1;
        }
        let key_desc_flag = true;
        let id_desc_flag = false;
        proof {
            lemma_ranked_pos(es@, key_desc_flag, id_desc_flag, self.shares@.len() as int);
        }
        let sorted = rank(es, key_desc_flag, id_desc_flag);
        rows_at(&self.shares, &sorted)
    }

    /// The open sell orders of a stock in the order `sort` asks for; equal
    /// keys go oldest first.
    pub fn get_open_sell_orders_by_stock_id(&self, stock_id: u64, sort: OrderSort) -> (r: Vec<SellOrder>)
        ensures
            r@ == ranked(sell_entries(self.sell_orders@, false, stock_id, sort, self.sell_orders@.len() as int), key_desc(sort), false).map_values(|e: Entry| self.sell_orders@[e.pos as int]),
    {
        let mut es: Vec<Entry> = Vec::new();
        let mut k: usize = 0;
        while k < self.sell_orders.len()
            invariant
                k <= self.sell_orders@.len(),
                es@ == sell_entries(self.sell_orders@, false, stock_id, sort, k as int),
                forall|j: int| 0 <= j < es@.len() ==> (#[trigger] es@[j]).pos < k,
            decreases self.sell_orders@.len() - k,
        {
            let x = self.sell_orders[k];
            proof {
                assert(self.sell_orders@[k as int] == x);
            }
            if x.resolved_at.is_none() && x.stock_id == stock_id {
                es.push(Entry { pos: k, key: match sort { OrderSort::PriceAsc | OrderSort::PriceDesc => x.price_per_share, _ => x.created_at as u128 }, id: x.id });
            }
            k = k + 1;
        }
        let key_desc_flag = match sort { OrderSort::PriceDesc | OrderSort::CreatedAtDesc => true, _ => false };
        let id_desc_flag = false;
        proof {
            lemma_ranked_pos(es@, key_desc_flag, id_desc_flag, self.sell_orders@.len() as int);
        }
        let sorted = rank(es, key_desc_flag, id_desc_flag);
        rows_at(&self.sell_orders, &sorted)
    }

    /// An owner's open sell orders in the order `sort` asks for; equal keys
    /// go newest first.
    pub fn get_open_sell_orders_by_owner(&self, owner: u64, sort: OrderSort) -> (r: Vec<SellOrder>)
        ensures
            r@ == ranked(sell_entries(self.sell_orders@, true, owner, sort, self.sell_orders@.len() as int), key_desc(sort), true).map_values(|e: Entry| self.sell_orders@[e.pos as int]),
    {
        let mut es: Vec<Entry> = Vec::new();
        let mut k: usize = 0;
        while k < self.sell_orders.len()
            invariant
                k <= self.sell_orders@.len(),
                es@ == sell_entries(self.sell_orders@, true, owner, sort, k as int),
                forall|j: int| 0 <= j < es@.len() ==> (#[trigger] es@[j]).pos < k,
            decreases self.sell_orders@.len() - k,
        {
            let x = self.sell_orders[k];
            proof {
                assert(self.sell_orders@[k as int] == x);
            }
            if x.resolved_at.is_none() && x.owner == owner {
                es.push(Entry { pos: k, key: match sort { OrderSort::PriceAsc | OrderSort::PriceDesc => x.price_per_share, _ => x.created_at as u128 }, id: x.id });
            }
            k = k + 1;
        }
        let key_desc_flag = match sort { OrderSort::PriceDesc | OrderSort::CreatedAtDesc => true, _ => false };
        let id_desc_flag = true;
        proof {
            lemma_ranked_pos(es@, key_desc_flag, id_desc_flag, self.sell_orders@.len() as int);
        }
        let sorted = rank(es, key_desc_flag, id_desc_flag);
        rows_at(&self.sell_orders, &sorted)
    }

    /// The open buy orders of a stock in the order `sort` asks for; equal
    /// keys go oldest first.
    pub fn get_open_buy_orders_by_stock_id(&self, stock_id: u64, sort: OrderSort) -> (r: Vec<BuyOrder>)
        ensures
            r@ == ranked(buy_entries(self.buy_orders@, false, stock_id, sort, self.buy_orders@.len() as int), key_desc(sort), false).map_values(|e: Entry| self.buy_orders@[e.pos as int]),
    {
        let mut es: Vec<Entry> = Vec::new();
        let mut k: usize = 0;
        while k < self.buy_orders.len()
            invariant
                k <= self.buy_orders@.len(),
                es@ == buy_entries(self.buy_orders@, false, stock_id, sort, k as int),
                forall|j: int| 0 <= j < es@.len() ==> (#[trigger] es@[j]).pos < k,
            decreases self.buy_orders@.len() - k,
        {
            let x = self.buy_orders[k];
            proof {
                assert(self.buy_orders@[k as int] == x);
            }
            if x.resolved_at.is_none() && x.stock_id == stock_id {
                es.push(Entry { pos: k, key: match sort { OrderSort::PriceAsc | OrderSort::PriceDesc => x.price_per_share, _ => x.created_at as u128 }, id: x.id });
            }
            k = k + 1;
        }
        let key_desc_flag = match sort { OrderSort::PriceDesc | OrderSort::CreatedAtDesc => true, _ => false };
        let id_desc_flag = false;
        proof {
            lemma_ranked_pos(es@, key_desc_flag, id_desc_flag, self.buy_orders@.len() as int);
        }
        let sorted = rank(es, key_desc_flag, id_desc_flag);
        rows_at(&self.buy_orders, &sorted)
    }

    /// An owner's open buy orders in the order `sort` asks for; equal keys
    /// go newest first.
    pub fn get_open_buy_orders_by_owner(&self, owner: u64, sort: OrderSort) -> (r: Vec<BuyOrder>)
        ensures
            r@ == ranked(buy_entries(self.buy_orders@, true, owner, sort, self.buy_orders@.len() as int), key_desc(sort), true).map_values(|e: Entry| self.buy_orders@[e.pos as int]),
    {
        let mut es: Vec<Entry> = Vec::new();
        let mut k: usize = 0;
        while k < self.buy_orders.len()
            invariant
                k <= self.buy_orders@.len(),
                es@ == buy_entries(self.buy_orders@, true, owner, sort, k as int),
                forall|j: int| 0 <= j < es@.len() ==> (#[trigger] es@[j]).pos < k,
            decreases self.buy_orders@.len() - k,
        {
            let x = self.buy_orders[k];
            proof {
                assert(self.buy_orders@[k as int] == x);
            }
            if x.resolved_at.is_none() && x.owner == owner {
                es.push(Entry { pos: k, key: match sort { OrderSort::PriceAsc | OrderSort::PriceDesc => x.price_per_share, _ => x.created_at as u128 }, id: x.id });
            }
            k = k + 1;
        }
        let key_desc_flag = match sort { OrderSort::PriceDesc | OrderSort::CreatedAtDesc => true, _ => false };
        let id_desc_flag = true;
        proof {
            lemma_ranked_pos(es@, key_desc_flag, id_desc_flag, self.buy_orders@.len() as int);
        }
        let sorted = rank(es, key_desc_flag, id_desc_flag);
        rows_at(&self.buy_orders, &sorted)
    }

    /// The sales a user bought in, latest first, newest first among equal
    /// times.
    pub fn get_sales_bought_by(&self, user: u64) -> (r: Vec<Sale>)
        ensures
            r@ == ranked(sale_entries(self.sales@, user, true, self.sales@.len() as int), true, true).map_values(|e: Entry| self.sales@[e.pos as int]),
    {
        let mut es: Vec<Entry> = Vec::new();
        let mut k: usize = 0;
        while k < self.sales.len()
            invariant
                k <= self.sales@.len(),
                es@ == sale_entries(self.sales@, user, true, k as int),
                forall|j: int| 0 <= j < es@.len() ==> (#[trigger] es@[j]).pos < k,
            decreases self.sales@.len() - k,
        {
            let x = self.sales[k];
            proof {
                assert(self.sales@[k as int] == x);
            }
            if x.to == user {
                es.push(Entry { pos: k, key: x.created_at as u128, id: x.id });
            }
            k = k + 1;
        }
        let key_desc_flag = true;
        let id_desc_flag = true;
        proof {
            lemma_ranked_pos(es@, key_desc_flag, id_desc_flag, self.sales@.len() as int);
        }
        let sorted = rank(es, key_desc_flag, id_desc_flag);
        rows_at(&self.sales, &sorted)
    }

    /// The sales a user sold in, latest first, newest first among equal
    /// times.
    pub fn get_sales_sold_by(&self, user: u64) -> (r: Vec<Sale>)
        ensures
            r@ == ranked(sale_entries(self.sales@, user, false, self.sales@.len() as int), true, true).map_values(|e: Entry| self.sales@[e.pos as int]),
    {
        let mut es: Vec<Entry> = Vec::new();
        let mut k: usize = 0;
        while k < self.sales.len()
            invariant
                k <= self.sales@.len(),
                es@ == sale_entries(self.sales@, user, false, k as int),
                forall|j: int| 0 <= j < es@.len() ==> (#[trigger] es@[j]).pos < k,
            decreases self.sales@.len() - k,
        {
            let x = self.sales[k];
            proof {
                assert(self.sales@[k as int] == x);
            }
            if x.from == user {
                es.push(Entry { pos: k, key: x.created_at as u128, id: x.id });
            }
            k = k + 1;
        }
        let key_desc_flag = true;
        let id_desc_flag = true;
        proof {
            lemma_ranked_pos(es@, key_desc_flag, id_desc_flag, self.sales@.len() as int);
        }
        let sorted = rank(es, key_desc_flag, id_desc_flag);
        rows_at(&self.sales, &sorted)
    }

    /// The bid with the given id.
    pub fn get_bid_by_id(&self, id: u64) -> (r: Result<Bid, MarketError>)
        ensures
            1 <= id <= self.bids@.len() ==> r == Ok::<Bid, MarketError>(self.bids@[id - 1]),
            !(1 <= id <= self.bids@.len()) ==> r == Err::<Bid, MarketError>(MarketError::BidNotFound),
    {
        if id == 0 || id > self.bids.len() as u64 {
            return Err(MarketError::BidNotFound);
        }
        Ok(self.bids[(id - 1) as usize])
    }

    /// The sell order with the given id.
    pub fn get_sell_order_by_id(&self, id: u64) -> (r: Result<SellOrder, MarketError>)
        ensures
            1 <= id <= self.sell_orders@.len() ==> r == Ok::<SellOrder, MarketError>(self.sell_orders@[id - 1]),
            !(1 <= id <= self.sell_orders@.len()) ==> r == Err::<SellOrder, MarketError>(MarketError::OrderNotFound),
    {
        if id == 0 || id > self.sell_orders.len() as u64 {
            return Err(MarketError::OrderNotFound);
        }
        Ok(self.sell_orders[(id - 1) as usize])
    }

    /// The buy order with the given id.
    pub fn get_buy_order_by_id(&self, id: u64) -> (r: Result<BuyOrder, MarketError>)
        ensures
            1 <= id <= self.buy_orders@.len() ==> r == Ok::<BuyOrder, MarketError>(self.buy_orders@[id - 1]),
            !(1 <= id <= self.buy_orders@.len()) ==> r == Err::<BuyOrder, MarketError>(MarketError::OrderNotFound),
    {
        if id == 0 || id > self.buy_orders.len() as u64 {
            return Err(MarketError::OrderNotFound);
        }
        Ok(self.buy_orders[(id - 1) as usize])
    }

    /// The sale with the given id.
    pub fn get_sale_by_id(&self, id: u64) -> (r: Result<Sale, MarketError>)
        ensures
            1 <= id <= self.sales@.len() ==> r == Ok::<Sale, MarketError>(self.sales@[id - 1]),
            !(1 <= id <= self.sales@.len()) ==> r == Err::<Sale, MarketError>(MarketError::SaleNotFound),
    {
        if id == 0 || id > self.sales.len() as u64 {
            return Err(MarketError::SaleNotFound);
        }
        Ok(self.sales[(id - 1) as usize])
    }

    /// The share row with the given id.
    pub fn get_shares_by_id(&self, id: u64) -> (r: Result<Share, MarketError>)
        ensures
            1 <= id <= self.shares@.len() ==> r == Ok::<Share, MarketError>(self.shares@[id - 1]),
            !(1 <= id <= self.shares@.len()) ==> r == Err::<Share, MarketError>(MarketError::ShareNotFound),
    {
        if id == 0 || id > self.shares.len() as u64 {
            return Err(MarketError::ShareNotFound);
        }
        Ok(self.shares[(id - 1) as usize])
    }

    /// The sales a user took part in: as buyer and as seller, each latest
    /// first.
    pub fn get_sales_by_user(&self, user: u64) -> (r: GetSalesByUserResponse)
        ensures
            r.buy@ == ranked(sale_entries(self.sales@, user, true, self.sales@.len() as int), true, true).map_values(|e: Entry| self.sales@[e.pos as int]),
            r.sell@ == ranked(sale_entries(self.sales@, user, false, self.sales@.len() as int), true, true).map_values(|e: Entry| self.sales@[e.pos as int]),
    {
        GetSalesByUserResponse { buy: self.get_sales_bought_by(user), sell: self.get_sales_sold_by(user) }
    }

    /// An influencer's stocks, newest first, below `start_after` where given.
    pub fn get_stocks_by_influencer(&self, influencer: u64, start_after: Option<u64>) -> (r: Vec<Stock>)
        ensures
            same_stocks(r@, pick_desc(self.stocks@, listing_top(self.stocks@.len(), start_after), |s: Stock| s.influencer == influencer)),
    {
        let ghost keep = |s: Stock| s.influencer == influencer;
        let top: usize = match start_after {
            None => self.stocks.len(),
            Some(id) => if id == 0 {
                0
            } else if id - 1 < self.stocks.len() as u64 {
                (id - 1) as usize
            } else {
                self.stocks.len()
            },
        };
        let ghost want = pick_desc(self.stocks@, top as int, keep);
        let mut out: Vec<Stock> = Vec::new();
        let mut k: usize = top;
        while k > 0
            invariant
                k <= top <= self.stocks@.len(),
                want == pick_desc(self.stocks@, top as int, keep),
                keep == (|s: Stock| s.influencer == influencer),
                same_stocks(out@ + pick_desc(self.stocks@, k as int, keep), want),
            decreases k,
        {
            let x = &self.stocks[k - 1];
            let sel = x.influencer == influencer;
            let ghost old_out = out@;
            if sel {
                let c = copy_stock(x);
                out.push(c);
                proof {
                    let rest = pick_desc(self.stocks@, k - 1, keep);
                    assert(pick_desc(self.stocks@, k as int, keep) == seq![self.stocks@[k - 1]] + rest);
                    assert(same_stocks(out@ + rest, old_out + (seq![self.stocks@[k - 1]] + rest)));
                }
            } else {
                proof {
                    let rest = pick_desc(self.stocks@, k - 1, keep);
                    assert(pick_desc(self.stocks@, k as int, keep) =~= rest);
                }
            }
            k = k - 1;
        }
        proof {
            assert(out@ + pick_desc(self.stocks@, 0, keep) =~= out@);
        }
        out
    }
}

} // verus!
