use vstd::prelude::*;

verus! {

/// One resting order seen from the side that trades against it.
#[derive(Clone, Copy, Debug, PartialEq, Eq)]
pub struct Level {
    /// Position of the order in its table.
    pub pos: usize,
    pub id: u64,
    pub owner: u64,
    pub price: u128,
    /// Shares still open on the order.
    pub balance: u64,
}

/// Shares taken from one resting order in a matching pass.
#[derive(Clone, Copy, Debug, PartialEq, Eq)]
pub struct Fill {
    pub pos: usize,
    pub owner: u64,
    pub price: u128,
    pub take: u64,
}

/// Whether `a` comes before `b` in price-time priority. The bid side
/// (`highest_first`) prefers the higher price, the ask side the lower;
/// equal prices go by id, that is by age.
pub open spec fn before(a: Level, b: Level, highest_first: bool) -> bool {
    if a.price == b.price {
        a.id < b.id
    } else if highest_first {
        a.price > b.price
    } else {
        a.price < b.price
    }
}

/// Index of the level that trades first.
pub open spec fn best_index(s: Seq<Level>, highest_first: bool) -> int
    decreases s.len(),
{
    if s.len() <= 1 {
        0
    } else {
        let j = best_index(s.drop_last(), highest_first);
        if before(s.last(), s[j], highest_first) {
            s.len() - 1
        } else {
            j
        }
    }
}

pub proof fn lemma_best_index_bounds(s: Seq<Level>, highest_first: bool)
    requires
        s.len() > 0,
    ensures
        0 <= best_index(s, highest_first) < s.len(),
    decreases s.len(),
{
    if s.len() > 1 {
        lemma_best_index_bounds(s.drop_last(), highest_first);
    }
}

/// Whether a resting order at `price` may trade against an incoming
/// order with the given limit (`None`: any price).
pub open spec fn acceptable(price: u128, limit: Option<u128>, highest_first: bool) -> bool {
    match limit {
        None => true,
        Some(l) => if highest_first {
            price >= l
        } else {
            price <= l
        },
    }
}

pub open spec fn min_nat(a: nat, b: nat) -> nat {
    if a <= b {
        a
    } else {
        b
    }
}

/// The fills of an incoming order of `n` shares against the book `s`:
/// best level first, each level giving as much as is still wanted, until
/// the order is covered, the book is empty or the best price is not
/// acceptable.
pub open spec fn walk(s: Seq<Level>, highest_first: bool, n: nat, limit: Option<u128>) -> Seq<Fill>
    decreases s.len(),
{
    if n == 0 || s.len() == 0 {
        seq![]
    } else {
        let i = best_index(s, highest_first);
        let l = s[i];
        if !acceptable(l.price, limit, highest_first) {
            seq![]
        } else {
            proof {
                lemma_best_index_bounds(s, highest_first);
            }
            let take = min_nat(n, l.balance as nat);
            seq![Fill { pos: l.pos, owner: l.owner, price: l.price, take: take as u64 }] + walk(
                s.remove(i),
                highest_first,
                (n - take) as nat,
                limit,
            )
        }
    }
}

/// What the fills cost in total.
pub open spec fn fills_cost(f: Seq<Fill>) -> nat
    decreases f.len(),
{
    if f.len() == 0 {
        0
    } else {
        fills_cost(f.drop_last()) + f.last().take as nat * f.last().price as nat
    }
}

/// How many shares the fills move in total.
pub open spec fn fills_shares(f: Seq<Fill>) -> nat
    decreases f.len(),
{
    if f.len() == 0 {
        0
    } else {
        fills_shares(f.drop_last()) + f.last().take as nat
    }
}

/// Open volume of a book.
pub open spec fn volume(s: Seq<Level>) -> nat
    decreases s.len(),
{
    if s.len() == 0 {
        0
    } else {
        volume(s.drop_last()) + s.last().balance as nat
    }
}

pub fn best_level(s: &Vec<Level>, highest_first: bool) -> (r: usize)
    requires
        s@.len() > 0,
    ensures
        r as int == best_index(s@, highest_first),
        r < s@.len(),
{
    let mut best: usize = 0;
    let mut k: usize = 1;
    while k < s.len()
        invariant
            1 <= k <= s@.len(),
            best < k,
            best as int == best_index(s@.subrange(0, k as int), highest_first),
        decreases s@.len() - k,
    {
        proof {
            let t = s@.subrange(0, k as int + 1);
            assert(t.drop_last() =~= s@.subrange(0, k as int));
        }
        let a = s[k];
        let b = s[best];
        let earlier = if a.price == b.price {
            a.id < b.id
        } else if highest_first {
            a.price > b.price
        } else {
            a.price < b.price
        };
        if earlier {
            best = k;
        }
        k = k + 1;
    }
    assert(s@.subrange(0, s@.len() as int) =~= s@);
    best
}

/// Matches an incoming order of `n` shares against `book`.
pub fn walk_book(book: Vec<Level>, highest_first: bool, n: u64, limit: Option<u128>) -> (r: Vec<Fill>)
    ensures
        r@ == walk(book@, highest_first, n as nat, limit),
{
    let mut s = book;
    let mut rem = n;
    let mut out: Vec<Fill> = Vec::new();
    let mut blocked = false;
    while !blocked && rem > 0 && s.len() > 0
        invariant
            out@ + walk(s@, highest_first, rem as nat, limit) == walk(book@, highest_first, n as nat, limit),
            blocked ==> walk(s@, highest_first, rem as nat, limit) == Seq::<Fill>::empty(),
        decreases s@.len() + (if blocked { 0int } else { 1int }),
    {
        let i = best_level(&s, highest_first);
        let l = s[i];
        let ok = match limit {
            None => true,
            Some(lim) => if highest_first {
                l.price >= lim
            } else {
                l.price <= lim
            },
        };
        if !ok {
            blocked = true;
            proof {
                assert(walk(s@, highest_first, rem as nat, limit) =~= Seq::<Fill>::empty());
            }
            continue;
        }
        let take = if rem <= l.balance {
            rem
        } else {
            l.balance
        };
        let f = Fill { pos: l.pos, owner: l.owner, price: l.price, take };
        let ghost before_s = s@;
        let ghost before_out = out@;
        out.push(f);
        s.remove(i);
        rem = rem - take;
        proof {
            assert(walk(before_s, highest_first, (rem + take) as nat, limit) == seq![f] + walk(
                s@,
                highest_first,
                rem as nat,
                limit,
            ));
            assert(out@ == before_out + seq![f]);
            assert(out@ + walk(s@, highest_first, rem as nat, limit) =~= before_out + (seq![f]
                + walk(s@, highest_first, rem as nat, limit)));
        }
    }
    proof {
        assert(walk(s@, highest_first, rem as nat, limit) =~= seq![]);
        assert(out@ + seq![] =~= out@);
    }
    out
}

pub proof fn lemma_cost_prefix(f: Seq<Fill>, k: int)
    requires
        0 <= k <= f.len(),
    ensures
        fills_cost(f.subrange(0, k)) <= fills_cost(f),
    decreases f.len() - k,
{
    if k < f.len() {
        lemma_cost_prefix(f, k + 1);
        let t = f.subrange(0, k + 1);
        assert(t.drop_last() =~= f.subrange(0, k));
    } else {
        assert(f.subrange(0, k) =~= f);
    }
}

/// Total cost of `f`, or `None` where it does not fit in a `u128`.
pub fn total_cost(f: &Vec<Fill>) -> (r: Option<u128>)
    ensures
        match r {
            Some(c) => c as nat == fills_cost(f@),
            None => fills_cost(f@) > u128::MAX,
        },
{
    let mut acc: u128 = 0;
    let mut k: usize = 0;
    while k < f.len()
        invariant
            k <= f@.len(),
            acc as nat == fills_cost(f@.subrange(0, k as int)),
        decreases f@.len() - k,
    {
        proof {
            let t = f@.subrange(0, k as int + 1);
            assert(t.drop_last() =~= f@.subrange(0, k as int));
            lemma_cost_prefix(f@, k as int + 1);
        }
        let x = f[k];
        let term = match x.price.checked_mul(x.take as u128) {
            Some(t) => t,
            None => {
                proof {
                    assert(x.take as nat * x.price as nat == x.price as nat * x.take as nat) by (nonlinear_arith);
                }
                return None;
            },
        };
        proof {
            assert(x.take as nat * x.price as nat == x.price as nat * x.take as nat) by (nonlinear_arith);
        }
        acc = match acc.checked_add(term) {
            Some(a) => a,
            None => {
                return None;
            },
        };
        k = k + 1;
    }
    assert(f@.subrange(0, f@.len() as int) =~= f@);
    Some(acc)
}

/// Total open volume of `s`, or `None` where it does not fit in a `u64`.
pub fn total_volume(s: &Vec<Level>) -> (r: Option<u64>)
    ensures
        match r {
            Some(v) => v as nat == volume(s@),
            None => volume(s@) > u64::MAX,
        },
{
    let mut acc: u64 = 0;
    let mut k: usize = 0;
    while k < s.len()
        invariant
            k <= s@.len(),
            acc as nat == volume(s@.subrange(0, k as int)),
            volume(s@.subrange(0, k as int)) <= volume(s@),
        decreases s@.len() - k,
    {
        proof {
            let t = s@.subrange(0, k as int + 1);
            assert(t.drop_last() =~= s@.subrange(0, k as int));
            lemma_volume_prefix(s@, k as int + 1);
        }
        acc = match acc.checked_add(s[k].balance) {
            Some(a) => a,
            None => {
                return None;
            },
        };
        k = k + 1;
    }
    assert(s@.subrange(0, s@.len() as int) =~= s@);
    Some(acc)
}

pub proof fn lemma_volume_prefix(s: Seq<Level>, k: int)
    requires
        0 <= k <= s.len(),
    ensures
        volume(s.subrange(0, k)) <= volume(s),
    decreases s.len() - k,
{
    if k < s.len() {
        lemma_volume_prefix(s, k + 1);
        let t = s.subrange(0, k + 1);
        assert(t.drop_last() =~= s.subrange(0, k));
    } else {
        assert(s.subrange(0, k) =~= s);
    }
}

pub proof fn lemma_shares_prefix(f: Seq<Fill>, k: int)
    requires
        0 <= k <= f.len(),
    ensures
        fills_shares(f.subrange(0, k)) <= fills_shares(f),
    decreases f.len() - k,
{
    if k < f.len() {
        lemma_shares_prefix(f, k + 1);
        let t = f.subrange(0, k + 1);
        assert(t.drop_last() =~= f.subrange(0, k));
    } else {
        assert(f.subrange(0, k) =~= f);
    }
}

pub proof fn lemma_shares_cons(x: Fill, r: Seq<Fill>)
    ensures
        fills_shares(seq![x] + r) == x.take + fills_shares(r),
        fills_cost(seq![x] + r) == x.take as nat * x.price as nat + fills_cost(r),
    decreases r.len(),
{
    let t = seq![x] + r;
    if r.len() == 0 {
        assert(t =~= seq![x]);
        assert(t.drop_last() =~= Seq::<Fill>::empty());
        assert(t.last() == x);
        assert(fills_shares(Seq::<Fill>::empty()) == 0);
        assert(fills_cost(Seq::<Fill>::empty()) == 0);
    } else {
        lemma_shares_cons(x, r.drop_last());
        assert(t.drop_last() =~= seq![x] + r.drop_last());
        assert(t.last() == r.last());
    }
}

/// A walk never fills more than was asked.
pub proof fn lemma_walk_shares(s: Seq<Level>, highest_first: bool, n: nat, limit: Option<u128>)
    ensures
        fills_shares(walk(s, highest_first, n, limit)) <= n,
    decreases s.len(),
{
    if n > 0 && s.len() > 0 {
        let i = best_index(s, highest_first);
        lemma_best_index_bounds(s, highest_first);
        let l = s[i];
        if acceptable(l.price, limit, highest_first) {
            let take = min_nat(n, l.balance as nat);
            let x = Fill { pos: l.pos, owner: l.owner, price: l.price, take: take as u64 };
            lemma_walk_shares(s.remove(i), highest_first, (n - take) as nat, limit);
            lemma_shares_cons(x, walk(s.remove(i), highest_first, (n - take) as nat, limit));
        }
    }
}

/// Every fill of a walk comes from a level of the book.
pub proof fn lemma_walk_pos(s: Seq<Level>, highest_first: bool, n: nat, limit: Option<u128>, bound: int)
    requires
        forall|j: int| 0 <= j < s.len() ==> (#[trigger] s[j]).pos < bound,
    ensures
        forall|k: int| 0 <= k < walk(s, highest_first, n, limit).len() ==> (#[trigger] walk(s, highest_first, n, limit)[k]).pos < bound,
    decreases s.len(),
{
    if n > 0 && s.len() > 0 {
        let i = best_index(s, highest_first);
        lemma_best_index_bounds(s, highest_first);
        let l = s[i];
        if acceptable(l.price, limit, highest_first) {
            let take = min_nat(n, l.balance as nat);
            let r = s.remove(i);
            assert forall|j: int| 0 <= j < r.len() implies (#[trigger] r[j]).pos < bound by {
                if j < i {
                    assert(r[j] == s[j]);
                } else {
                    assert(r[j] == s[j + 1]);
                }
            }
            lemma_walk_pos(r, highest_first, (n - take) as nat, limit, bound);
            let x = Fill { pos: l.pos, owner: l.owner, price: l.price, take: take as u64 };
            let w = walk(r, highest_first, (n - take) as nat, limit);
            assert(walk(s, highest_first, n, limit) == seq![x] + w);
            assert forall|k: int| 0 <= k < (seq![x] + w).len() implies (#[trigger] (seq![x] + w)[k]).pos < bound by {
                if k > 0 {
                    assert((seq![x] + w)[k] == w[k - 1]);
                }
            }
        }
    }
}

/// Shares moved by `f`, where they fit in a `u64`.
pub fn shares_moved(f: &Vec<Fill>) -> (r: u64)
    requires
        fills_shares(f@) <= u64::MAX,
    ensures
        r as nat == fills_shares(f@),
{
    let mut acc: u64 = 0;
    let mut k: usize = 0;
    while k < f.len()
        invariant
            k <= f@.len(),
            fills_shares(f@) <= u64::MAX,
            acc as nat == fills_shares(f@.subrange(0, k as int)),
        decreases f@.len() - k,
    {
        proof {
            let t = f@.subrange(0, k as int + 1);
            assert(t.drop_last() =~= f@.subrange(0, k as int));
            lemma_shares_prefix(f@, k as int + 1);
        }
        acc = acc + f[k].take;
        k = k + 1;
    }
    assert(f@.subrange(0, f@.len() as int) =~= f@);
    acc
}

/// A walk has at most one fill per level.
pub proof fn lemma_walk_len(s: Seq<Level>, highest_first: bool, n: nat, limit: Option<u128>)
    ensures
        walk(s, highest_first, n, limit).len() <= s.len(),
    decreases s.len(),
{
    if n > 0 && s.len() > 0 {
        let i = best_index(s, highest_first);
        lemma_best_index_bounds(s, highest_first);
        let l = s[i];
        if acceptable(l.price, limit, highest_first) {
            let take = min_nat(n, l.balance as nat);
            lemma_walk_len(s.remove(i), highest_first, (n - take) as nat, limit);
        }
    }
}

/// A buy walk limited to `p` pays at most `p` for each share.
pub proof fn lemma_walk_cost_bound(s: Seq<Level>, n: nat, p: u128)
    ensures
        fills_cost(walk(s, false, n, Some(p))) <= p as nat * fills_shares(walk(s, false, n, Some(p))),
    decreases s.len(),
{
    let w = walk(s, false, n, Some(p));
    if n > 0 && s.len() > 0 {
        let i = best_index(s, false);
        lemma_best_index_bounds(s, false);
        let l = s[i];
        if acceptable(l.price, Some(p), false) {
            let take = min_nat(n, l.balance as nat);
            let x = Fill { pos: l.pos, owner: l.owner, price: l.price, take: take as u64 };
            let r = walk(s.remove(i), false, (n - take) as nat, Some(p));
            lemma_walk_cost_bound(s.remove(i), (n - take) as nat, p);
            lemma_shares_cons(x, r);
            let a = x.take as nat;
            let c = fills_cost(r);
            let q = fills_shares(r);
            assert(a * (x.price as nat) <= a * (p as nat)) by (nonlinear_arith)
                requires x.price <= p;
            assert(a * (p as nat) + (p as nat) * q == (p as nat) * (a + q)) by (nonlinear_arith);
        } else {
            assert(w =~= Seq::<Fill>::empty());
        }
    } else {
        assert(w =~= Seq::<Fill>::empty());
    }
}

/// Price-time priority: no level of the book comes before the one a walk
/// fills first, so an incoming order always trades with the best price
/// available and, among equal prices, with the oldest order.
pub proof fn lemma_walk_takes_best_first(s: Seq<Level>, highest_first: bool, n: nat, limit: Option<u128>)
    requires
        walk(s, highest_first, n, limit).len() > 0,
    ensures
        exists|i: int|
            0 <= i < s.len() && s[i].pos == walk(s, highest_first, n, limit)[0].pos
                && s[i].price == walk(s, highest_first, n, limit)[0].price
                && forall|j: int| 0 <= j < s.len() ==> !before(#[trigger] s[j], s[i], highest_first),
{
    let i = best_index(s, highest_first);
    lemma_best_index_bounds(s, highest_first);
    lemma_best_index_least(s, highest_first);
    assert(walk(s, highest_first, n, limit)[0].pos == s[i].pos);
}

/// Nothing in the book comes before the level `best_index` picks.
pub proof fn lemma_best_index_least(s: Seq<Level>, highest_first: bool)
    requires
        s.len() > 0,
    ensures
        forall|j: int| 0 <= j < s.len() ==> !before(#[trigger] s[j], s[best_index(s, highest_first)], highest_first),
    decreases s.len(),
{
    lemma_best_index_bounds(s, highest_first);
    if s.len() > 1 {
        let t = s.drop_last();
        lemma_best_index_least(t, highest_first);
        lemma_best_index_bounds(t, highest_first);
        let j0 = best_index(t, highest_first);
        assert forall|j: int| 0 <= j < s.len() implies !before(#[trigger] s[j], s[best_index(s, highest_first)], highest_first) by {
            if j < s.len() - 1 {
                assert(s[j] == t[j]);
                assert(!before(t[j], t[j0], highest_first));
            }
        }
    }
}

pub proof fn lemma_volume_remove(s: Seq<Level>, i: int)
    requires
        0 <= i < s.len(),
    ensures
        volume(s.remove(i)) + s[i].balance == volume(s),
    decreases s.len(),
{
    if i < s.len() - 1 {
        lemma_volume_remove(s.drop_last(), i);
        assert(s.remove(i).drop_last() =~= s.drop_last().remove(i));
        assert(s.remove(i).last() == s.last());
    } else {
        assert(s.remove(i) =~= s.drop_last());
    }
}

/// A walk with no price limit over a book holding at least `n` shares
/// fills exactly `n`.
pub proof fn lemma_walk_fills_all(s: Seq<Level>, highest_first: bool, n: nat)
    requires
        volume(s) >= n,
    ensures
        fills_shares(walk(s, highest_first, n, None)) == n,
    decreases s.len(),
{
    if n > 0 {
        if s.len() == 0 {
            assert(volume(s) == 0);
        } else {
            let i = best_index(s, highest_first);
            lemma_best_index_bounds(s, highest_first);
            let l = s[i];
            let take = min_nat(n, l.balance as nat);
            let x = Fill { pos: l.pos, owner: l.owner, price: l.price, take: take as u64 };
            lemma_volume_remove(s, i);
            lemma_walk_fills_all(s.remove(i), highest_first, (n - take) as nat);
            lemma_shares_cons(x, walk(s.remove(i), highest_first, (n - take) as nat, None));
        }
    } else {
        assert(walk(s, highest_first, n, None) =~= Seq::<Fill>::empty());
    }
}

} // verus!
