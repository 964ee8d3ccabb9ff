use vstd::prelude::*;
use crate::auction::{lemma_total_concat, lemma_pay_total, lemma_payouts_total};
use crate::book::{Fill, Level, fills_cost, lemma_cost_prefix};
use crate::market::{Market, transfers_total, pay, payouts};
use crate::types::{BuyOrder, Sale, SellOrder, Transfer};

verus! {

/// Open sell orders of `stock` among the first `k`, as levels of a book.
pub open spec fn sell_levels(o: Seq<SellOrder>, stock: u64, k: int) -> Seq<Level>
    decreases k,
{
    if k <= 0 {
        seq![]
    } else {
        let prev = sell_levels(o, stock, k - 1);
        let x = o[k - 1];
        if x.stock_id == stock && x.resolved_at is None {
            prev.push(Level { pos: (k - 1) as usize, id: x.id, owner: x.owner, price: x.price_per_share, balance: (x.available_shares - x.sold_shares) as u64 })
        } else {
            prev
        }
    }
}

/// Open buy orders of `stock` among the first `k`, as levels of a book.
pub open spec fn buy_levels(o: Seq<BuyOrder>, stock: u64, k: int) -> Seq<Level>
    decreases k,
{
    if k <= 0 {
        seq![]
    } else {
        let prev = buy_levels(o, stock, k - 1);
        let x = o[k - 1];
        if x.stock_id == stock && x.resolved_at is None {
            prev.push(Level { pos: (k - 1) as usize, id: x.id, owner: x.owner, price: x.price_per_share, balance: (x.requested_shares - x.bought_shares) as u64 })
        } else {
            prev
        }
    }
}

pub open spec fn open_sells(o: Seq<SellOrder>, stock: u64) -> Seq<Level> {
    sell_levels(o, stock, o.len() as int)
}

pub open spec fn open_buys(o: Seq<BuyOrder>, stock: u64) -> Seq<Level> {
    buy_levels(o, stock, o.len() as int)
}

/// `a + b`, capped at `cap`.
pub open spec fn capped(a: u64, b: u64, cap: u64) -> u64 {
    if a + b <= cap {
        (a + b) as u64
    } else {
        cap
    }
}

/// The sell orders after the fills: each sells what it gave, and is
/// resolved at `now` once nothing is left.
pub open spec fn sold_into(o: Seq<SellOrder>, f: Seq<Fill>, now: u64) -> Seq<SellOrder>
    decreases f.len(),
{
    if f.len() == 0 {
        o
    } else {
        let p = sold_into(o, f.drop_last(), now);
        let x = f.last();
        let ord = p[x.pos as int];
        let sold = capped(ord.sold_shares, x.take, ord.available_shares);
        p.update(
            x.pos as int,
            SellOrder {
                sold_shares: sold,
                resolved_at: if sold == ord.available_shares {
                    Some(now)
                } else {
                    ord.resolved_at
                },
                ..ord
            },
        )
    }
}

/// The buy orders after the fills: each buys what it took, and is
/// resolved at `now` once nothing is left.
pub open spec fn bought_into(o: Seq<BuyOrder>, f: Seq<Fill>, now: u64) -> Seq<BuyOrder>
    decreases f.len(),
{
    if f.len() == 0 {
        o
    } else {
        let p = bought_into(o, f.drop_last(), now);
        let x = f.last();
        let ord = p[x.pos as int];
        let bought = capped(ord.bought_shares, x.take, ord.requested_shares);
        p.update(
            x.pos as int,
            BuyOrder {
                bought_shares: bought,
                resolved_at: if bought == ord.requested_shares {
                    Some(now)
                } else {
                    ord.resolved_at
                },
                ..ord
            },
        )
    }
}

/// One sale per fill, at the resting order's price, numbered on from
/// `base`.
pub open spec fn sales_of(f: Seq<Fill>, stock: u64, trader: u64, trader_buys: bool, now: u64, base: nat) -> Seq<Sale>
    decreases f.len(),
{
    if f.len() == 0 {
        seq![]
    } else {
        let x = f.last();
        sales_of(f.drop_last(), stock, trader, trader_buys, now, base).push(
            Sale {
                id: (base + f.len()) as u64,
                stock_id: stock,
                no_of_shares: x.take,
                price_per_share: x.price,
                from: if trader_buys { x.owner } else { trader },
                to: if trader_buys { trader } else { x.owner },
                created_at: now,
            },
        )
    }
}

/// A payment to `trader` for each fill, of what it sold there.
pub open spec fn proceeds(f: Seq<Fill>, trader: u64) -> Seq<Transfer>
    decreases f.len(),
{
    if f.len() == 0 {
        seq![]
    } else {
        proceeds(f.drop_last(), trader) + pay(trader, f.last().take as nat * f.last().price as nat)
    }
}

pub proof fn lemma_proceeds_total(f: Seq<Fill>, trader: u64)
    requires
        fills_cost(f) <= u128::MAX,
    ensures
        transfers_total(proceeds(f, trader)) == fills_cost(f),
    decreases f.len(),
{
    if f.len() > 0 {
        lemma_cost_prefix(f, f.len() - 1);
        assert(f.subrange(0, f.len() - 1) =~= f.drop_last());
        lemma_proceeds_total(f.drop_last(), trader);
        let x = f.last();
        lemma_pay_total(trader, x.take as nat * x.price as nat);
        lemma_total_concat(proceeds(f.drop_last(), trader), pay(trader, x.take as nat * x.price as nat));
    }
}

/// The payments of the fills: to each resting order's owner where
/// `to_owners`, else all to `trader`.
pub fn fill_payments(f: &Vec<Fill>, trader: u64, to_owners: bool) -> (r: Vec<Transfer>)
    requires
        fills_cost(f@) <= u128::MAX,
    ensures
        to_owners ==> r@ == payouts(f@),
        !to_owners ==> r@ == proceeds(f@, trader),
        transfers_total(r@) == fills_cost(f@),
{
    let mut out: Vec<Transfer> = Vec::new();
    let mut k: usize = 0;
    while k < f.len()
        invariant
            k <= f@.len(),
            fills_cost(f@) <= u128::MAX,
            to_owners ==> out@ == payouts(f@.subrange(0, k as int)),
            !to_owners ==> out@ == proceeds(f@.subrange(0, k as int), trader),
        decreases f@.len() - k,
    {
        let x = f[k];
        proof {
            let t = f@.subrange(0, k as int + 1);
            assert(t.drop_last() =~= f@.subrange(0, k as int));
            assert(t.last() == x);
            lemma_cost_prefix(f@, k as int + 1);
            lemma_cost_prefix(t, k as int);
            assert(t.subrange(0, k as int) =~= t.drop_last());
            assert(x.take as nat * x.price as nat == x.price as nat * x.take as nat) by (nonlinear_arith);
        }
        let amount = x.price * x.take as u128;
        if amount > 0 {
            out.push(Transfer { to: if to_owners { x.owner } else { trader }, amount });
        }
        proof {
            let t = f@.subrange(0, k as int + 1);
            if to_owners {
                assert(out@ =~= payouts(t));
            } else {
                assert(out@ =~= proceeds(t, trader));
            }
        }
        k = k + 1;
    }
    assert(f@.subrange(0, f@.len() as int) =~= f@);
    proof {
        if to_owners {
            lemma_payouts_total(f@);
        } else {
            lemma_proceeds_total(f@, trader);
        }
    }
    out
}

impl Market {
    /// The open sell orders of a stock as a book.
    pub fn open_sell_book(&self, stock_id: u64) -> (r: Vec<Level>)
        requires
            self.wf(),
        ensures
            r@ == open_sells(self.sell_orders@, stock_id),
            forall|j: int| 0 <= j < r@.len() ==> (#[trigger] r@[j]).pos < self.sell_orders@.len(),
            r@.len() <= self.sell_orders@.len(),
    {
        let mut out: Vec<Level> = Vec::new();
        let mut k: usize = 0;
        while k < self.sell_orders.len()
            invariant
                self.wf(),
                k <= self.sell_orders@.len(),
                out@.len() <= k,
                out@ == sell_levels(self.sell_orders@, stock_id, k as int),
                forall|j: int| 0 <= j < out@.len() ==> (#[trigger] out@[j]).pos < k,
            decreases self.sell_orders@.len() - k,
        {
            let x = self.sell_orders[k];
            proof {
                assert(self.sell_orders@[k as int] == x);
            }
            if x.stock_id == stock_id && x.resolved_at.is_none() {
                out.push(Level { pos: k, id: x.id, owner: x.owner, price: x.price_per_share, balance: x.available_shares - x.sold_shares });
            }
            k = k + 1;
        }
        out
    }

    /// The open buy orders of a stock as a book.
    pub fn open_buy_book(&self, stock_id: u64) -> (r: Vec<Level>)
        requires
            self.wf(),
        ensures
            r@ == open_buys(self.buy_orders@, stock_id),
            forall|j: int| 0 <= j < r@.len() ==> (#[trigger] r@[j]).pos < self.buy_orders@.len(),
            r@.len() <= self.buy_orders@.len(),
    {
        let mut out: Vec<Level> = Vec::new();
        let mut k: usize = 0;
        while k < self.buy_orders.len()
            invariant
                self.wf(),
                k <= self.buy_orders@.len(),
                out@.len() <= k,
                out@ == buy_levels(self.buy_orders@, stock_id, k as int),
                forall|j: int| 0 <= j < out@.len() ==> (#[trigger] out@[j]).pos < k,
            decreases self.buy_orders@.len() - k,
        {
            let x = self.buy_orders[k];
            proof {
                assert(self.buy_orders@[k as int] == x);
            }
            if x.stock_id == stock_id && x.resolved_at.is_none() {
                out.push(Level { pos: k, id: x.id, owner: x.owner, price: x.price_per_share, balance: x.requested_shares - x.bought_shares });
            }
            k = k + 1;
        }
        out
    }

    /// Records the fills on the resting sell orders.
    pub fn apply_sell_fills(&mut self, f: &Vec<Fill>, now: u64)
        requires
            old(self).wf(),
            forall|j: int| 0 <= j < f@.len() ==> (#[trigger] f@[j]).pos < old(self).sell_orders@.len(),
        ensures
            final(self).wf(),
            final(self).sell_orders@ == sold_into(old(self).sell_orders@, f@, now),
            final(self).stocks == old(self).stocks,
            final(self).bids == old(self).bids,
            final(self).shares == old(self).shares,
            final(self).buy_orders == old(self).buy_orders,
            final(self).sales == old(self).sales,
            final(self).owner == old(self).owner,
    {
        let mut k: usize = 0;
        while k < f.len()
            invariant
                k <= f@.len(),
                self.wf(),
                self.sell_orders@.len() == old(self).sell_orders@.len(),
                forall|j: int| 0 <= j < f@.len() ==> (#[trigger] f@[j]).pos < old(self).sell_orders@.len(),
                self.sell_orders@ == sold_into(old(self).sell_orders@, f@.subrange(0, k as int), now),
                self.stocks == old(self).stocks,
                self.bids == old(self).bids,
                self.shares == old(self).shares,
                self.buy_orders == old(self).buy_orders,
                self.sales == old(self).sales,
                self.owner == old(self).owner,
            decreases f@.len() - k,
        {
            let x = f[k];
            proof {
                let t = f@.subrange(0, k as int + 1);
                assert(t.drop_last() =~= f@.subrange(0, k as int));
                assert(t.last() == x);
                assert(f@[k as int] == x);
            }
            let o = self.sell_orders[x.pos];
            proof {
                assert(self.sell_orders@[x.pos as int] == o);
            }
            let sold = if x.take <= o.available_shares - o.sold_shares {
                o.sold_shares + x.take
            } else {
                o.available_shares
            };
            let resolved_at = if sold == o.available_shares {
                Some(now)
            } else {
                o.resolved_at
            };
            self.sell_orders.set(x.pos, SellOrder { sold_shares: sold, resolved_at, ..o });
            k = k + 1;
        }
        assert(f@.subrange(0, f@.len() as int) =~= f@);
    }

    /// Records the fills on the resting buy orders.
    pub fn apply_buy_fills(&mut self, f: &Vec<Fill>, now: u64)
        requires
            old(self).wf(),
            forall|j: int| 0 <= j < f@.len() ==> (#[trigger] f@[j]).pos < old(self).buy_orders@.len(),
        ensures
            final(self).wf(),
            final(self).buy_orders@ == bought_into(old(self).buy_orders@, f@, now),
            final(self).stocks == old(self).stocks,
            final(self).bids == old(self).bids,
            final(self).shares == old(self).shares,
            final(self).sell_orders == old(self).sell_orders,
            final(self).sales == old(self).sales,
            final(self).owner == old(self).owner,
    {
        let mut k: usize = 0;
        while k < f.len()
            invariant
                k <= f@.len(),
                self.wf(),
                self.buy_orders@.len() == old(self).buy_orders@.len(),
                forall|j: int| 0 <= j < f@.len() ==> (#[trigger] f@[j]).pos < old(self).buy_orders@.len(),
                self.buy_orders@ == bought_into(old(self).buy_orders@, f@.subrange(0, k as int), now),
                self.stocks == old(self).stocks,
                self.bids == old(self).bids,
                self.shares == old(self).shares,
                self.sell_orders == old(self).sell_orders,
                self.sales == old(self).sales,
                self.owner == old(self).owner,
            decreases f@.len() - k,
        {
            let x = f[k];
            proof {
                let t = f@.subrange(0, k as int + 1);
                assert(t.drop_last() =~= f@.subrange(0, k as int));
                assert(t.last() == x);
                assert(f@[k as int] == x);
            }
            let o = self.buy_orders[x.pos];
            proof {
                assert(self.buy_orders@[x.pos as int] == o);
            }
            let bought = if x.take <= o.requested_shares - o.bought_shares {
                o.bought_shares + x.take
            } else {
                o.requested_shares
            };
            let resolved_at = if bought == o.requested_shares {
                Some(now)
            } else {
                o.resolved_at
            };
            self.buy_orders.set(x.pos, BuyOrder { bought_shares: bought, resolved_at, ..o });
            k = k + 1;
        }
        assert(f@.subrange(0, f@.len() as int) =~= f@);
    }

    /// Appends one sale per fill to the journal.
    pub fn record_sales(&mut self, f: &Vec<Fill>, stock_id: u64, trader: u64, trader_buys: bool, now: u64)
        requires
            old(self).wf(),
            old(self).sales@.len() + f@.len() < u64::MAX,
        ensures
            final(self).wf(),
            final(self).sales@ == old(self).sales@ + sales_of(f@, stock_id, trader, trader_buys, now, old(self).sales@.len()),
            final(self).stocks == old(self).stocks,
            final(self).bids == old(self).bids,
            final(self).shares == old(self).shares,
            final(self).sell_orders == old(self).sell_orders,
            final(self).buy_orders == old(self).buy_orders,
            final(self).owner == old(self).owner,
    {
        let ghost base = old(self).sales@.len();
        let mut k: usize = 0;
        while k < f.len()
            invariant
                k <= f@.len(),
                self.wf(),
                base == old(self).sales@.len(),
                base + f@.len() < u64::MAX,
                self.sales@ == old(self).sales@ + sales_of(f@.subrange(0, k as int), stock_id, trader, trader_buys, now, base),
                self.sales@.len() == base + k,
                self.stocks == old(self).stocks,
                self.bids == old(self).bids,
                self.shares == old(self).shares,
                self.sell_orders == old(self).sell_orders,
                self.buy_orders == old(self).buy_orders,
                self.owner == old(self).owner,
            decreases f@.len() - k,
        {
            let x = f[k];
            proof {
                let t = f@.subrange(0, k as int + 1);
                assert(t.drop_last() =~= f@.subrange(0, k as int));
                assert(t.last() == x);
            }
            let id = self.sales.len() as u64 + 1;
            self.sales.push(
                Sale {
                    id,
                    stock_id,
                    no_of_shares: x.take,
                    price_per_share: x.price,
                    from: if trader_buys { x.owner } else { trader },
                    to: if trader_buys { trader } else { x.owner },
                    created_at: now,
                },
            );
            proof {
                let t = f@.subrange(0, k as int + 1);
                assert(self.sales@ =~= old(self).sales@ + sales_of(t, stock_id, trader, trader_buys, now, base));
            }
            k = k + 1;
        }
        assert(f@.subrange(0, f@.len() as int) =~= f@);
    }
}

} // verus!
