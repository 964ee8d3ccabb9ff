use vstd::prelude::*;
use crate::book::Fill;
use crate::types::Share;

verus! {

/// Index of the first row that holds `owner`'s shares of `stock`, or -1.
pub open spec fn row_of(s: Seq<Share>, stock: u64, owner: u64) -> int
    decreases s.len(),
{
    if s.len() == 0 {
        -1
    } else {
        let j = row_of(s.drop_last(), stock, owner);
        if j >= 0 {
            j
        } else if s.last().stock_id == stock && s.last().owner == owner {
            s.len() - 1
        } else {
            -1
        }
    }
}

/// Shares of `stock` that `owner` holds.
pub open spec fn balance(s: Seq<Share>, stock: u64, owner: u64) -> nat {
    let i = row_of(s, stock, owner);
    if i >= 0 {
        s[i].no_of_shares as nat
    } else {
        0
    }
}

/// Sum of all rows of `stock`.
pub open spec fn stock_total(s: Seq<Share>, stock: u64) -> nat
    decreases s.len(),
{
    if s.len() == 0 {
        0
    } else {
        stock_total(s.drop_last(), stock) + if s.last().stock_id == stock {
            s.last().no_of_shares as nat
        } else {
            0
        }
    }
}

pub open spec fn can_debit(s: Seq<Share>, stock: u64, owner: u64, n: u64) -> bool {
    row_of(s, stock, owner) >= 0 && s[row_of(s, stock, owner)].no_of_shares >= n
}

pub open spec fn debited(s: Seq<Share>, stock: u64, owner: u64, n: u64) -> Seq<Share> {
    let i = row_of(s, stock, owner);
    s.update(i, Share { no_of_shares: (s[i].no_of_shares - n) as u64, ..s[i] })
}

pub open spec fn can_credit(s: Seq<Share>, stock: u64, owner: u64, n: u64) -> bool {
    row_of(s, stock, owner) < 0 || s[row_of(s, stock, owner)].no_of_shares + n <= u64::MAX
}

/// The ledger after `n` shares of `stock` are added to `owner`: the row is
/// looked up and grown, or created with the next id.
pub open spec fn credited(s: Seq<Share>, stock: u64, owner: u64, n: u64) -> Seq<Share> {
    let i = row_of(s, stock, owner);
    if i >= 0 {
        s.update(i, Share { no_of_shares: (s[i].no_of_shares + n) as u64, ..s[i] })
    } else {
        s.push(Share { id: (s.len() + 1) as u64, stock_id: stock, no_of_shares: n, owner })
    }
}

/// The ledger after `n` shares move from `from` to `to`, or `None` where
/// `from` holds too few or `to`'s row would overflow.
pub open spec fn moved(s: Seq<Share>, stock: u64, from: u64, to: u64, n: u64) -> Option<Seq<Share>> {
    if !can_debit(s, stock, from, n) {
        None
    } else if !can_credit(debited(s, stock, from, n), stock, to, n) {
        None
    } else {
        Some(credited(debited(s, stock, from, n), stock, to, n))
    }
}

/// The ledger after the shares of every fill move between `trader` and the
/// owner of the resting order, in order of the fills.
pub open spec fn settled(s: Seq<Share>, stock: u64, trader: u64, trader_buys: bool, f: Seq<Fill>) -> Option<Seq<Share>>
    decreases f.len(),
{
    if f.len() == 0 {
        Some(s)
    } else {
        match settled(s, stock, trader, trader_buys, f.drop_last()) {
            None => None,
            Some(p) => {
                let x = f.last();
                if trader_buys {
                    moved(p, stock, x.owner, trader, x.take)
                } else {
                    moved(p, stock, trader, x.owner, x.take)
                }
            },
        }
    }
}

pub proof fn lemma_row_of_bounds(s: Seq<Share>, stock: u64, owner: u64)
    ensures
        -1 <= row_of(s, stock, owner) < s.len(),
        row_of(s, stock, owner) >= 0 ==> s[row_of(s, stock, owner)].stock_id == stock
            && s[row_of(s, stock, owner)].owner == owner,
    decreases s.len(),
{
    if s.len() > 0 {
        lemma_row_of_bounds(s.drop_last(), stock, owner);
    }
}

pub proof fn lemma_row_of_update(s: Seq<Share>, i: int, v: Share, stock: u64, owner: u64)
    requires
        0 <= i < s.len(),
        v.stock_id == s[i].stock_id,
        v.owner == s[i].owner,
    ensures
        row_of(s.update(i, v), stock, owner) == row_of(s, stock, owner),
    decreases s.len(),
{
    if i < s.len() - 1 {
        lemma_row_of_update(s.drop_last(), i, v, stock, owner);
        assert(s.update(i, v).drop_last() =~= s.drop_last().update(i, v));
    } else {
        assert(s.update(i, v).drop_last() =~= s.drop_last());
    }
}

pub proof fn lemma_total_update(s: Seq<Share>, i: int, v: Share, stock: u64)
    requires
        0 <= i < s.len(),
        v.stock_id == s[i].stock_id,
    ensures
        s[i].stock_id == stock ==> stock_total(s.update(i, v), stock) + s[i].no_of_shares
            == stock_total(s, stock) + v.no_of_shares,
        s[i].stock_id != stock ==> stock_total(s.update(i, v), stock) == stock_total(s, stock),
    decreases s.len(),
{
    if i < s.len() - 1 {
        lemma_total_update(s.drop_last(), i, v, stock);
        assert(s.update(i, v).drop_last() =~= s.drop_last().update(i, v));
    } else {
        assert(s.update(i, v).drop_last() =~= s.drop_last());
    }
}

pub proof fn lemma_total_push(s: Seq<Share>, v: Share, stock: u64)
    ensures
        stock_total(s.push(v), stock) == stock_total(s, stock) + if v.stock_id == stock {
            v.no_of_shares as nat
        } else {
            0
        },
{
    assert(s.push(v).drop_last() =~= s);
}

/// Moving shares within a stock leaves every stock's total as it was.
pub proof fn lemma_moved_conserves(s: Seq<Share>, stock: u64, from: u64, to: u64, n: u64)
    requires
        moved(s, stock, from, to, n) is Some,
    ensures
        forall|st: u64| #[trigger]
            stock_total(moved(s, stock, from, to, n)->Some_0, st) == stock_total(s, st),
        moved(s, stock, from, to, n)->Some_0.len() <= s.len() + 1,
{
    lemma_row_of_bounds(s, stock, from);
    let i = row_of(s, stock, from);
    let d = debited(s, stock, from, n);
    let vd = Share { no_of_shares: (s[i].no_of_shares - n) as u64, ..s[i] };
    lemma_row_of_bounds(d, stock, to);
    let j = row_of(d, stock, to);
    assert forall|st: u64| #[trigger]
        stock_total(moved(s, stock, from, to, n)->Some_0, st) == stock_total(s, st) by {
        lemma_total_update(s, i, vd, st);
        if j >= 0 {
            let vc = Share { no_of_shares: (d[j].no_of_shares + n) as u64, ..d[j] };
            lemma_total_update(d, j, vc, st);
        } else {
            let vc = Share { id: (d.len() + 1) as u64, stock_id: stock, no_of_shares: n, owner: to };
            lemma_total_push(d, vc, st);
        }
    }
}

/// Settling fills leaves every stock's total as it was.
pub proof fn lemma_settled_conserves(s: Seq<Share>, stock: u64, trader: u64, trader_buys: bool, f: Seq<Fill>)
    requires
        settled(s, stock, trader, trader_buys, f) is Some,
    ensures
        forall|st: u64| #[trigger]
            stock_total(settled(s, stock, trader, trader_buys, f)->Some_0, st) == stock_total(s, st),
        settled(s, stock, trader, trader_buys, f)->Some_0.len() <= s.len() + f.len(),
    decreases f.len(),
{
    if f.len() > 0 {
        lemma_settled_conserves(s, stock, trader, trader_buys, f.drop_last());
        let p = settled(s, stock, trader, trader_buys, f.drop_last())->Some_0;
        let x = f.last();
        if trader_buys {
            lemma_moved_conserves(p, stock, x.owner, trader, x.take);
        } else {
            lemma_moved_conserves(p, stock, trader, x.owner, x.take);
        }
    }
}

pub proof fn lemma_row_of_prefix(s: Seq<Share>, k: int, stock: u64, owner: u64)
    requires
        0 <= k <= s.len(),
        row_of(s.subrange(0, k), stock, owner) >= 0,
    ensures
        row_of(s, stock, owner) == row_of(s.subrange(0, k), stock, owner),
    decreases s.len() - k,
{
    if k < s.len() {
        let t = s.subrange(0, k + 1);
        assert(t.drop_last() =~= s.subrange(0, k));
        lemma_row_of_prefix(s, k + 1, stock, owner);
    } else {
        assert(s.subrange(0, k) =~= s);
    }
}

/// Looks up the row of `owner`'s shares of `stock`.
pub fn find_share_row(s: &Vec<Share>, stock: u64, owner: u64) -> (r: Option<usize>)
    ensures
        match r {
            Some(i) => i as int == row_of(s@, stock, owner) && i < s@.len(),
            None => row_of(s@, stock, owner) == -1,
        },
{
    let mut k: usize = 0;
    while k < s.len()
        invariant
            k <= s@.len(),
            row_of(s@.subrange(0, k as int), stock, owner) == -1,
        decreases s@.len() - k,
    {
        proof {
            let t = s@.subrange(0, k as int + 1);
            assert(t.drop_last() =~= s@.subrange(0, k as int));
        }
        if s[k].stock_id == stock && s[k].owner == owner {
            proof {
                lemma_row_of_prefix(s@, k as int + 1, stock, owner);
            }
            return Some(k);
        }
        k = k + 1;
    }
    assert(s@.subrange(0, s@.len() as int) =~= s@);
    None
}

/// Shares of `stock` that `owner` holds.
pub fn balance_of(s: &Vec<Share>, stock: u64, owner: u64) -> (r: u64)
    ensures
        r as nat == balance(s@, stock, owner),
{
    match find_share_row(s, stock, owner) {
        Some(i) => s[i].no_of_shares,
        None => 0,
    }
}

/// Moves `n` shares of `stock` from `from` to `to`; leaves the ledger as it
/// was and returns false where that cannot be done.
pub fn move_shares(s: &mut Vec<Share>, stock: u64, from: u64, to: u64, n: u64) -> (ok: bool)
    requires
        old(s)@.len() < u64::MAX,
    ensures
        ok == moved(old(s)@, stock, from, to, n) is Some,
        ok ==> final(s)@ == moved(old(s)@, stock, from, to, n)->Some_0,
        !ok ==> final(s)@ == old(s)@,
{
    proof {
        lemma_row_of_bounds(s@, stock, from);
    }
    let i = match find_share_row(s, stock, from) {
        Some(i) => i,
        None => {
            return false;
        },
    };
    let row = s[i];
    if row.no_of_shares < n {
        return false;
    }
    let dv = Share { no_of_shares: row.no_of_shares - n, ..row };
    let ghost d = old(s)@.update(i as int, dv);
    proof {
        lemma_row_of_update(old(s)@, i as int, dv, stock, to);
        lemma_row_of_bounds(d, stock, to);
    }
    match find_share_row(s, stock, to) {
        Some(j) => {
            let target = if j == i {
                dv
            } else {
                s[j]
            };
            if target.no_of_shares > u64::MAX - n {
                return false;
            }
            s.set(i, dv);
            assert(s@ == d);
            s.set(j, Share { no_of_shares: target.no_of_shares + n, ..target });
        },
        None => {
            s.set(i, dv);
            assert(s@ == d);
            let id = s.len() as u64 + 1;
            s.push(Share { id, stock_id: stock, no_of_shares: n, owner: to });
        },
    }
    true
}

/// A copy of the ledger, to work on before committing.
pub fn copy_rows(s: &Vec<Share>) -> (r: Vec<Share>)
    ensures
        r@ == s@,
{
    let mut work: Vec<Share> = Vec::new();
    let mut c: usize = 0;
    while c < s.len()
        invariant
            c <= s@.len(),
            work@ == s@.subrange(0, c as int),
        decreases s@.len() - c,
    {
        let row = s[c];
        work.push(row);
        proof {
            assert(work@ =~= s@.subrange(0, c as int + 1));
        }
        c = c + 1;
    }
    assert(work@ =~= s@);
    work
}

/// Adds `n` shares of `stock` to `owner`'s row, creating it if needed;
/// leaves the ledger as it was and returns false where the row would
/// overflow.
pub fn credit(s: &mut Vec<Share>, stock: u64, owner: u64, n: u64) -> (ok: bool)
    requires
        old(s)@.len() < u64::MAX,
    ensures
        ok == can_credit(old(s)@, stock, owner, n),
        ok ==> final(s)@ == credited(old(s)@, stock, owner, n),
        !ok ==> final(s)@ == old(s)@,
{
    match find_share_row(s, stock, owner) {
        Some(j) => {
            let row = s[j];
            if row.no_of_shares > u64::MAX - n {
                return false;
            }
            s.set(j, Share { no_of_shares: row.no_of_shares + n, ..row });
        },
        None => {
            let id = s.len() as u64 + 1;
            s.push(Share { id, stock_id: stock, no_of_shares: n, owner });
        },
    }
    true
}

/// Crediting `n` shares of `stock` adds `n` to that stock's total and
/// leaves the others alone.
pub proof fn lemma_credited_total(s: Seq<Share>, stock: u64, owner: u64, n: u64)
    requires
        can_credit(s, stock, owner, n),
    ensures
        forall|st: u64| #[trigger] stock_total(credited(s, stock, owner, n), st) == stock_total(s, st) + if st == stock {
            n as nat
        } else {
            0
        },
        credited(s, stock, owner, n).len() <= s.len() + 1,
{
    lemma_row_of_bounds(s, stock, owner);
    let j = row_of(s, stock, owner);
    assert forall|st: u64| #[trigger] stock_total(credited(s, stock, owner, n), st) == stock_total(s, st) + if st == stock {
        n as nat
    } else {
        0
    } by {
        if j >= 0 {
            lemma_total_update(s, j, Share { no_of_shares: (s[j].no_of_shares + n) as u64, ..s[j] }, st);
        } else {
            lemma_total_push(s, Share { id: (s.len() + 1) as u64, stock_id: stock, no_of_shares: n, owner }, st);
        }
    }
}

/// Moves the shares of every fill between `trader` and the owner of the
/// resting order; leaves the ledger as it was and returns false where one
/// move cannot be done.
pub fn settle(s: &mut Vec<Share>, stock: u64, trader: u64, trader_buys: bool, f: &Vec<Fill>) -> (ok: bool)
    requires
        old(s)@.len() + f@.len() < u64::MAX,
    ensures
        ok == settled(old(s)@, stock, trader, trader_buys, f@) is Some,
        ok ==> final(s)@ == settled(old(s)@, stock, trader, trader_buys, f@)->Some_0,
        !ok ==> *final(s) == *old(s),
{
    let mut work = copy_rows(s);
    let mut k: usize = 0;
    while k < f.len()
        invariant
            k <= f@.len(),
            *s == *old(s),
            old(s)@.len() + f@.len() < u64::MAX,
            settled(old(s)@, stock, trader, trader_buys, f@.subrange(0, k as int)) == Some(work@),
            work@.len() <= old(s)@.len() + k,
        decreases f@.len() - k,
    {
        let x = f[k];
        proof {
            let t = f@.subrange(0, k as int + 1);
            assert(t.drop_last() =~= f@.subrange(0, k as int));
            assert(t.last() == x);
        }
        assert(work@.len() < u64::MAX);
        let ghost prev = work@;
        let ok = if trader_buys {
            move_shares(&mut work, stock, x.owner, trader, x.take)
        } else {
            move_shares(&mut work, stock, trader, x.owner, x.take)
        };
        if !ok {
            proof {
                lemma_settled_none(old(s)@, stock, trader, trader_buys, f@, k as int + 1);
            }
            return false;
        }
        proof {
            if trader_buys {
                lemma_moved_conserves(prev, stock, x.owner, trader, x.take);
            } else {
                lemma_moved_conserves(prev, stock, trader, x.owner, x.take);
            }
        }
        k = k + 1;
    }
    assert(f@.subrange(0, f@.len() as int) =~= f@);
    *s = work;
    true
}

pub proof fn lemma_settled_none(s: Seq<Share>, stock: u64, trader: u64, trader_buys: bool, f: Seq<Fill>, k: int)
    requires
        0 <= k <= f.len(),
        settled(s, stock, trader, trader_buys, f.subrange(0, k)) is None,
    ensures
        settled(s, stock, trader, trader_buys, f) is None,
    decreases f.len() - k,
{
    if k < f.len() {
        let t = f.subrange(0, k + 1);
        assert(t.drop_last() =~= f.subrange(0, k));
        lemma_settled_none(s, stock, trader, trader_buys, f, k + 1);
    } else {
        assert(f.subrange(0, k) =~= f);
    }
}

} // verus!
