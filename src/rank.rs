use vstd::prelude::*;

verus! {

/// A record to be listed: its position in its table, the key it is
/// listed by, and its id, which breaks ties.
#[derive(Clone, Copy, Debug, PartialEq, Eq)]
pub struct Entry {
    pub pos: usize,
    pub key: u128,
    pub id: u64,
}

/// Whether `a` is listed before `b`: by key, descending where `key_desc`,
/// and among equal keys by id, descending where `id_desc`.
pub open spec fn listed_before(a: Entry, b: Entry, key_desc: bool, id_desc: bool) -> bool {
    if a.key != b.key {
        if key_desc {
            a.key > b.key
        } else {
            a.key < b.key
        }
    } else if id_desc {
        a.id > b.id
    } else {
        a.id < b.id
    }
}

pub open spec fn first_index(s: Seq<Entry>, key_desc: bool, id_desc: bool) -> int
    decreases s.len(),
{
    if s.len() <= 1 {
        0
    } else {
        let j = first_index(s.drop_last(), key_desc, id_desc);
        if listed_before(s.last(), s[j], key_desc, id_desc) {
            s.len() - 1
        } else {
            j
        }
    }
}

pub proof fn lemma_first_index_bounds(s: Seq<Entry>, key_desc: bool, id_desc: bool)
    requires
        s.len() > 0,
    ensures
        0 <= first_index(s, key_desc, id_desc) < s.len(),
    decreases s.len(),
{
    if s.len() > 1 {
        lemma_first_index_bounds(s.drop_last(), key_desc, id_desc);
    }
}

/// The entries in listing order: the entry nothing comes before, then the
/// rest in listing order. `lemma_ranked_sorted` states what this gives.
pub open spec fn ranked(s: Seq<Entry>, key_desc: bool, id_desc: bool) -> Seq<Entry>
    decreases s.len(),
{
    if s.len() == 0 {
        seq![]
    } else {
        let i = first_index(s, key_desc, id_desc);
        proof {
            lemma_first_index_bounds(s, key_desc, id_desc);
        }
        seq![s[i]] + ranked(s.remove(i), key_desc, id_desc)
    }
}

pub proof fn lemma_ranked_pos(s: Seq<Entry>, key_desc: bool, id_desc: bool, bound: int)
    requires
        forall|j: int| 0 <= j < s.len() ==> (#[trigger] s[j]).pos < bound,
    ensures
        ranked(s, key_desc, id_desc).len() == s.len(),
        forall|k: int| 0 <= k < s.len() ==> (#[trigger] ranked(s, key_desc, id_desc)[k]).pos < bound,
    decreases s.len(),
{
    if s.len() > 0 {
        let i = first_index(s, key_desc, id_desc);
        lemma_first_index_bounds(s, key_desc, id_desc);
        let r = s.remove(i);
        assert forall|j: int| 0 <= j < r.len() implies (#[trigger] r[j]).pos < bound by {
            if j < i {
                assert(r[j] == s[j]);
            } else {
                assert(r[j] == s[j + 1]);
            }
        }
        lemma_ranked_pos(r, key_desc, id_desc, bound);
        let w = ranked(r, key_desc, id_desc);
        assert forall|k: int| 0 <= k < (seq![s[i]] + w).len() implies (#[trigger] (seq![s[i]] + w)[k]).pos < bound by {
            if k > 0 {
                assert((seq![s[i]] + w)[k] == w[k - 1]);
            }
        }
    }
}

/// Nothing comes before the entry `first_index` picks.
pub proof fn lemma_first_index_least(s: Seq<Entry>, key_desc: bool, id_desc: bool)
    requires
        s.len() > 0,
    ensures
        forall|j: int| 0 <= j < s.len() ==> !listed_before(#[trigger] s[j], s[first_index(s, key_desc, id_desc)], key_desc, id_desc),
    decreases s.len(),
{
    lemma_first_index_bounds(s, key_desc, id_desc);
    if s.len() > 1 {
        let t = s.drop_last();
        lemma_first_index_least(t, key_desc, id_desc);
        lemma_first_index_bounds(t, key_desc, id_desc);
        let j0 = first_index(t, key_desc, id_desc);
        assert forall|j: int| 0 <= j < s.len() implies !listed_before(#[trigger] s[j], s[first_index(s, key_desc, id_desc)], key_desc, id_desc) by {
            if j < s.len() - 1 {
                assert(s[j] == t[j]);
                assert(!listed_before(t[j], t[j0], key_desc, id_desc));
            }
        }
    }
}

/// The listing order: `ranked` keeps every entry, takes nothing from
/// elsewhere, and no entry comes before the one listed ahead of it.
pub proof fn lemma_ranked_sorted(s: Seq<Entry>, key_desc: bool, id_desc: bool)
    ensures
        ranked(s, key_desc, id_desc).len() == s.len(),
        forall|k: int| 0 <= k < s.len() ==> s.contains(#[trigger] ranked(s, key_desc, id_desc)[k]),
        forall|k: int|
            0 <= k < s.len() - 1 ==> !listed_before(
                #[trigger] ranked(s, key_desc, id_desc)[k + 1],
                ranked(s, key_desc, id_desc)[k],
                key_desc,
                id_desc,
            ),
    decreases s.len(),
{
    if s.len() > 0 {
        let i = first_index(s, key_desc, id_desc);
        lemma_first_index_bounds(s, key_desc, id_desc);
        lemma_first_index_least(s, key_desc, id_desc);
        let r = s.remove(i);
        lemma_ranked_sorted(r, key_desc, id_desc);
        let w = ranked(r, key_desc, id_desc);
        let all = seq![s[i]] + w;
        assert(ranked(s, key_desc, id_desc) == all);
        assert forall|j: int| 0 <= j < r.len() implies s.contains(#[trigger] r[j]) by {
            if j < i {
                assert(r[j] == s[j]);
            } else {
                assert(r[j] == s[j + 1]);
            }
        }
        assert forall|k: int| 0 <= k < s.len() implies s.contains(#[trigger] all[k]) by {
            if k == 0 {
                assert(all[0] == s[i]);
            } else {
                assert(all[k] == w[k - 1]);
                assert(r.contains(w[k - 1]));
            }
        }
        assert forall|k: int| 0 <= k < s.len() - 1 implies !listed_before(#[trigger] all[k + 1], all[k], key_desc, id_desc) by {
            assert(all[k + 1] == w[k]);
            if k == 0 {
                assert(r.contains(w[0]));
                let j = choose|j: int| 0 <= j < r.len() && r[j] == w[0];
                let j2 = if j < i { j } else { j + 1 };
                assert(r[j] == s[j2]);
                assert(!listed_before(s[j2], s[i], key_desc, id_desc));
            } else {
                assert(all[k] == w[k - 1]);
                let k1 = k - 1;
                assert(0 <= k1 < r.len() - 1);
                assert(!listed_before(w[k1 + 1], w[k1], key_desc, id_desc));
                assert(k1 + 1 == k);
            }
        }
    }
}

fn first_entry(s: &Vec<Entry>, key_desc: bool, id_desc: bool) -> (r: usize)
    requires
        s@.len() > 0,
    ensures
        r as int == first_index(s@, key_desc, id_desc),
        r < s@.len(),
{
    let mut best: usize = 0;
    let mut k: usize = 1;
    while k < s.len()
        invariant
            1 <= k <= s@.len(),
            best < k,
            best as int == first_index(s@.subrange(0, k as int), key_desc, id_desc),
        decreases s@.len() - k,
    {
        proof {
            let t = s@.subrange(0, k as int + 1);
            assert(t.drop_last() =~= s@.subrange(0, k as int));
        }
        let a = s[k];
        let b = s[best];
        let earlier = if a.key != b.key {
            if key_desc {
                a.key > b.key
            } else {
                a.key < b.key
            }
        } else if id_desc {
            a.id > b.id
        } else {
            a.id < b.id
        };
        if earlier {
            best = k;
        }
        k = k + 1;
    }
    assert(s@.subrange(0, s@.len() as int) =~= s@);
    best
}

/// Puts the entries in listing order.
pub fn rank(entries: Vec<Entry>, key_desc: bool, id_desc: bool) -> (r: Vec<Entry>)
    ensures
        r@ == ranked(entries@, key_desc, id_desc),
{
    let mut s = entries;
    let mut out: Vec<Entry> = Vec::new();
    while s.len() > 0
        invariant
            out@ + ranked(s@, key_desc, id_desc) == ranked(entries@, key_desc, id_desc),
        decreases s@.len(),
    {
        let i = first_entry(&s, key_desc, id_desc);
        let e = s[i];
        let ghost before_s = s@;
        let ghost before_out = out@;
        out.push(e);
        s.remove(i);
        proof {
            assert(ranked(before_s, key_desc, id_desc) == seq![e] + ranked(s@, key_desc, id_desc));
            assert(out@ + ranked(s@, key_desc, id_desc) =~= before_out + (seq![e] + ranked(s@, key_desc, id_desc)));
        }
    }
    proof {
        assert(ranked(s@, key_desc, id_desc) =~= Seq::<Entry>::empty());
        assert(out@ + Seq::<Entry>::empty() =~= out@);
    }
    out
}

} // verus!
