//! Stable descending order of items by an integer key, and the top entries
//! of that order.
use vstd::prelude::*;

verus! {

/// Inserts index `i` into `s` before the first index whose key is smaller
/// than `keys[i]`, that is after every index whose key is at least as large.
pub open spec fn insert_desc(s: Seq<int>, keys: Seq<int>, i: int) -> Seq<int>
    decreases s.len(),
{
    if s.len() == 0 {
        seq![i]
    } else if keys[s[0]] < keys[i] {
        seq![i] + s
    } else {
        seq![s[0]] + insert_desc(s.drop_first(), keys, i)
    }
}

/// The indices `0..n` ordered by descending key; equal keys keep their index
/// order (a stable sort).
pub open spec fn sort_desc(keys: Seq<int>, n: int) -> Seq<int>
    decreases n,
{
    if n <= 0 {
        Seq::empty()
    } else {
        insert_desc(sort_desc(keys, n - 1), keys, n - 1)
    }
}

/// The first `limit` indices of the stable descending order of `keys`.
pub open spec fn top_indices(keys: Seq<int>, limit: int) -> Seq<int> {
    let s = sort_desc(keys, keys.len() as int);
    if limit < s.len() {
        s.take(limit)
    } else {
        s
    }
}

/// Whether the keys of the indices in `s` never increase along `s`.
pub open spec fn descending(s: Seq<int>, keys: Seq<int>) -> bool {
    forall|a: int, b: int| 0 <= a < b < s.len() ==> keys[s[a]] >= keys[s[b]]
}

proof fn lemma_insert_at(s: Seq<int>, keys: Seq<int>, i: int, p: int)
    requires
        0 <= p <= s.len(),
        forall|q: int| 0 <= q < p ==> keys[s[q]] >= keys[i],
        p < s.len() ==> keys[s[p]] < keys[i],
    ensures
        insert_desc(s, keys, i) == s.insert(p, i),
    decreases s.len(),
{
    if s.len() == 0 {
        assert(s.insert(p, i) =~= seq![i]);
    } else if p == 0 {
        assert(s.insert(p, i) =~= seq![i] + s);
    } else {
        let t = s.drop_first();
        assert forall|q: int| 0 <= q < p - 1 implies keys[t[q]] >= keys[i] by {
            assert(t[q] == s[q + 1]);
        }
        lemma_insert_at(t, keys, i, p - 1);
        assert(s.insert(p, i) =~= seq![s[0]] + t.insert(p - 1, i));
    }
}

proof fn lemma_insert_props(s: Seq<int>, keys: Seq<int>, i: int)
    requires
        descending(s, keys),
        0 <= i < keys.len(),
        forall|q: int| 0 <= q < s.len() ==> 0 <= #[trigger] s[q] < keys.len(),
    ensures
        descending(insert_desc(s, keys, i), keys),
        insert_desc(s, keys, i).len() == s.len() + 1,
        forall|q: int|
            0 <= q < insert_desc(s, keys, i).len() ==> 0 <= #[trigger] insert_desc(s, keys, i)[q]
                < keys.len(),
    decreases s.len(),
{
    let r = insert_desc(s, keys, i);
    if s.len() == 0 {
    } else if keys[s[0]] < keys[i] {
        assert forall|a: int, b: int| 0 <= a < b < r.len() implies keys[r[a]] >= keys[r[b]] by {
            if a == 0 {
                assert(keys[s[0]] >= keys[s[b - 1]] || b - 1 == 0);
            } else {
                assert(r[a] == s[a - 1] && r[b] == s[b - 1]);
            }
        }
    } else {
        let t = s.drop_first();
        assert(descending(t, keys)) by {
            assert forall|a: int, b: int| 0 <= a < b < t.len() implies keys[t[a]] >= keys[t[b]] by {
                assert(t[a] == s[a + 1] && t[b] == s[b + 1]);
            }
        }
        assert forall|q: int| 0 <= q < t.len() implies 0 <= #[trigger] t[q] < keys.len() by {
            assert(t[q] == s[q + 1]);
        }
        lemma_insert_props(t, keys, i);
        let u = insert_desc(t, keys, i);
        assert(r == seq![s[0]] + u);
        assert forall|b: int| 0 <= b < u.len() implies keys[s[0]] >= keys[#[trigger] u[b]] by {
            lemma_insert_member(t, keys, i, b);
            if u[b] != i {
                let q = choose|q: int| 0 <= q < t.len() && t[q] == u[b];
                assert(t[q] == s[q + 1]);
            }
        }
        assert forall|a: int, b: int| 0 <= a < b < r.len() implies keys[r[a]] >= keys[r[b]] by {
            if a == 0 {
                assert(r[b] == u[b - 1]);
            } else {
                assert(r[a] == u[a - 1] && r[b] == u[b - 1]);
            }
        }
        assert forall|q: int| 0 <= q < r.len() implies 0 <= #[trigger] r[q] < keys.len() by {
            if q > 0 {
                assert(r[q] == u[q - 1]);
            }
        }
    }
}

proof fn lemma_insert_member(s: Seq<int>, keys: Seq<int>, i: int, b: int)
    requires
        0 <= b < insert_desc(s, keys, i).len(),
    ensures
        insert_desc(s, keys, i)[b] == i || exists|q: int|
            0 <= q < s.len() && s[q] == insert_desc(s, keys, i)[b],
    decreases s.len(),
{
    let r = insert_desc(s, keys, i);
    if s.len() == 0 {
    } else if keys[s[0]] < keys[i] {
        if b > 0 {
            assert(s[b - 1] == r[b]);
        }
    } else {
        if b == 0 {
            assert(s[0] == r[0]);
        } else {
            let t = s.drop_first();
            lemma_insert_member(t, keys, i, b - 1);
            if r[b] != i {
                let q = choose|q: int| 0 <= q < t.len() && t[q] == r[b];
                assert(s[q + 1] == r[b]);
            }
        }
    }
}

/// The stable descending order is descending, holds each of `0..n` once at
/// most, and has `n` entries.
pub proof fn lemma_sort_desc(keys: Seq<int>, n: int)
    requires
        0 <= n <= keys.len(),
    ensures
        sort_desc(keys, n).len() == n,
        descending(sort_desc(keys, n), keys),
        forall|q: int| 0 <= q < n ==> 0 <= #[trigger] sort_desc(keys, n)[q] < keys.len(),
    decreases n,
{
    if n > 0 {
        lemma_sort_desc(keys, n - 1);
        lemma_insert_props(sort_desc(keys, n - 1), keys, n - 1);
    }
}

/// The first `limit` entries of the stable descending order are descending,
/// and there are `min(limit, keys.len())` of them.
pub proof fn lemma_top_indices(keys: Seq<int>, limit: int)
    requires
        0 <= limit,
    ensures
        top_indices(keys, limit).len() == if limit < keys.len() {
            limit
        } else {
            keys.len() as int
        },
        descending(top_indices(keys, limit), keys),
        forall|q: int|
            0 <= q < top_indices(keys, limit).len() ==> 0 <= #[trigger] top_indices(keys, limit)[q]
                < keys.len(),
{
    lemma_sort_desc(keys, keys.len() as int);
}

/// The indices of `keys` in stable descending order of key.
pub fn rank_desc(keys: &Vec<u64>) -> (r: Vec<usize>)
    ensures
        r@.map_values(|i: usize| i as int) == sort_desc(
            keys@.map_values(|k: u64| k as int),
            keys@.len() as int,
        ),
{
    let ghost ks = keys@.map_values(|k: u64| k as int);
    let mut r: Vec<usize> = Vec::new();
    let mut i: usize = 0;
    while i < keys.len()
        invariant
            i <= keys.len(),
            ks == keys@.map_values(|k: u64| k as int),
            r@.map_values(|x: usize| x as int) == sort_desc(ks, i as int),
            forall|q: int| 0 <= q < r@.len() ==> 0 <= #[trigger] r@[q] < i,
        decreases keys.len() - i,
    {
        let ghost s = r@.map_values(|x: usize| x as int);
        let mut p: usize = 0;
        while p < r.len() && keys[r[p]] >= keys[i]
            invariant
                p <= r.len(),
                i < keys.len(),
                ks == keys@.map_values(|k: u64| k as int),
                s == r@.map_values(|x: usize| x as int),
                forall|q: int| 0 <= q < r@.len() ==> 0 <= #[trigger] r@[q] < i,
                forall|q: int| 0 <= q < p ==> ks[s[q]] >= ks[i as int],
            decreases r.len() - p,
        {
            assert(s[p as int] == r@[p as int] as int);
            assert(ks[r@[p as int] as int] == keys@[r@[p as int] as int] as int);
            p = p + 1;
        }
        proof {
            if p < r.len() {
                assert(s[p as int] == r@[p as int] as int);
            }
            lemma_insert_at(s, ks, i as int, p as int);
        }
        r.insert(p, i);
        assert(r@.map_values(|x: usize| x as int) =~= s.insert(p as int, i as int));
        i = i + 1;
    }
    r
}

} // verus!
