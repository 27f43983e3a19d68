//! Limiting the results of a file to a maximum count.

use vstd::prelude::*;
use crate::matcher::{SearchMatch, SearchMode, Similarity, match_views};

verus! {

/// Whether `s` lists each of `0..n` exactly once.
pub open spec fn is_index_perm(s: Seq<int>, n: int) -> bool {
    &&& s.len() == n
    &&& forall|a: int| 0 <= a < s.len() ==> 0 <= #[trigger] s[a] < n
    &&& forall|a: int, b: int| 0 <= a < b < s.len() ==> s[a] != s[b]
}

/// Index `x` comes before index `y` when ordered by key, ties in index order.
pub open spec fn key_before(keys: Seq<int>, x: int, y: int) -> bool {
    keys[x] < keys[y] || (keys[x] == keys[y] && x < y)
}

/// `s` is ordered by `key_before`.
pub open spec fn ordered_by_key(keys: Seq<int>, s: Seq<int>) -> bool {
    forall|a: int, b: int| 0 <= a < b < s.len() ==> key_before(keys, s[a], s[b])
}

/// The values of a sequence of indices, as integers.
pub open spec fn idx_ints(s: Seq<usize>) -> Seq<int> {
    s.map_values(|i: usize| i as int)
}

/// The values of a sequence of keys, as integers.
pub open spec fn key_ints(s: Seq<u128>) -> Seq<int> {
    s.map_values(|k: u128| k as int)
}

fn key_less(keys: &Vec<u128>, x: usize, y: usize) -> (res: bool)
    requires
        x < keys.len(),
        y < keys.len(),
    ensures
        res == key_before(key_ints(keys@), x as int, y as int),
{
    keys[x] < keys[y] || (keys[x] == keys[y] && x < y)
}

/// The indices `0..keys.len()` in the order of their keys, ties in index order.
pub fn sort_indices_by_key(keys: &Vec<u128>) -> (res: Vec<usize>)
    ensures
        is_index_perm(idx_ints(res@), keys.len() as int),
        ordered_by_key(key_ints(keys@), idx_ints(res@)),
{
    let n = keys.len();
    let ghost ks = key_ints(keys@);
    let mut v: Vec<usize> = Vec::new();
    for i in 0..n
        invariant
            v.len() == i,
            forall|a: int| 0 <= a < i ==> v@[a] == a,
    {
        v.push(i);
    }
    for i in 0..n
        invariant
            n == keys.len(),
            ks == key_ints(keys@),
            v.len() == n,
            forall|a: int| 0 <= a < n ==> #[trigger] v@[a] < n,
            forall|a: int, b: int| 0 <= a < b < n ==> v@[a] != v@[b],
            forall|a: int, b: int| 0 <= a < b < i ==> key_before(ks, v@[a] as int, v@[b] as int),
    {
        let mut j = i;
        while j > 0 && key_less(keys, v[j], v[j - 1])
            invariant
                n == keys.len(),
                ks == key_ints(keys@),
                v.len() == n,
                j <= i < n,
                forall|a: int| 0 <= a < n ==> #[trigger] v@[a] < n,
                forall|a: int, b: int| 0 <= a < b < n ==> v@[a] != v@[b],
                forall|a: int, b: int| 0 <= a < b < j ==> key_before(ks, v@[a] as int, v@[b] as int),
                forall|a: int, b: int| j <= a < b <= i ==> key_before(ks, v@[a] as int, v@[b] as int),
                forall|a: int, b: int| 0 <= a < j && j < b <= i ==> key_before(ks, v@[a] as int, v@[b] as int),
            decreases j,
        {
            let ghost old_v = v@;
            let x = v[j - 1];
            let y = v[j];
            v.set(j - 1, y);
            v.set(j, x);
            assert(v@ =~= old_v.update(j - 1, y).update(j as int, x));
            j = j - 1;
        }
        assert forall|a: int, b: int| 0 <= a < b < i + 1 implies key_before(ks, v@[a] as int, v@[b] as int) by {
            if j > 0 {
                assert(v@[j - 1] != v@[j as int]);
                assert(key_before(ks, v@[j - 1] as int, v@[j as int] as int));
                if b == j && a < j - 1 {
                    assert(key_before(ks, v@[a] as int, v@[j - 1] as int));
                }
            }
        }
    }
    assert(is_index_perm(idx_ints(v@), n as int));
    v
}

/// How a result ranks by score: no score lowest, then by score rank.
pub open spec fn score_key(m: SearchMatch) -> int {
    match m.similarity {
        Some(s) => s.rank as int + 1,
        None => 0,
    }
}

/// Keys that order results best score first.
pub open spec fn best_first_keys(results: Seq<SearchMatch>) -> Seq<int> {
    Seq::new(results.len(), |i: int| 0x1_0000_0000_0000_0000int - score_key(results[i]))
}

/// The line numbers of the results `order[0..m]`.
pub open spec fn line_keys(results: Seq<SearchMatch>, order: Seq<int>, m: int) -> Seq<int> {
    Seq::new(m as nat, |p: int| results[order[p]].line_number as int)
}

/// The smaller of `a` and `b`.
pub open spec fn min_int(a: int, b: int) -> int {
    if a < b { a } else { b }
}

/// `out` keeps the `k` best-scored results (ties in input order), listed by line
/// number (ties best score first): `order` is the input sorted best score first
/// and `ps` lists its first `min(k, n)` positions by line number.
pub open spec fn best_by_line(results: Seq<SearchMatch>, k: int, order: Seq<int>, ps: Seq<int>, out: Seq<crate::matcher::MatchView>) -> bool {
    let m = min_int(k, results.len() as int);
    &&& is_index_perm(order, results.len() as int)
    &&& ordered_by_key(best_first_keys(results), order)
    &&& is_index_perm(ps, m)
    &&& ordered_by_key(line_keys(results, order, m), ps)
    &&& out == Seq::new(m as nat, |t: int| results[order[ps[t]]]@)
}

/// At most `max_count` results: for a similarity search the best-scored ones
/// (ties in input order), put back in line order; otherwise the first ones.
pub fn apply_max_count(results: Vec<SearchMatch>, mode: &SearchMode, max_count: Option<usize>) -> (res: Vec<SearchMatch>)
    ensures
        match max_count {
            None => res@ == results@,
            Some(k) => if mode is Semantic {
                exists|order: Seq<int>, ps: Seq<int>| best_by_line(results@, k as int, order, ps, match_views(res@))
            } else {
                res@ == results@.take(min_int(k as int, results.len() as int))
            },
        },
{
    let k = match max_count {
        None => return results,
        Some(k) => k,
    };
    let semantic = match mode {
        SearchMode::Semantic { .. } => true,
        SearchMode::Regex { .. } => false,
    };
    if !semantic {
        let mut results = results;
        results.truncate(k);
        return results;
    }
    let n = results.len();
    let mut keys: Vec<u128> = Vec::new();
    for i in 0..n
        invariant
            n == results.len(),
            keys.len() == i,
            forall|a: int| 0 <= a < i ==> keys@[a] as int == best_first_keys(results@)[a],
    {
        let key: u128 = match &results[i].similarity {
            Some(s) => 0x1_0000_0000_0000_0000u128 - (s.rank as u128 + 1),
            None => 0x1_0000_0000_0000_0000u128,
        };
        keys.push(key);
    }
    assert(key_ints(keys@) =~= best_first_keys(results@));
    let order = sort_indices_by_key(&keys);
    assert forall|a: int| 0 <= a < n implies #[trigger] order@[a] < n by {
        assert(idx_ints(order@)[a] == order@[a] as int);
    }
    let m: usize = if k < n { k } else { n };
    let mut line_keys_v: Vec<u128> = Vec::new();
    for p in 0..m
        invariant
            m <= n,
            n == results.len(),
            order.len() == n,
            forall|a: int| 0 <= a < n ==> #[trigger] order@[a] < n,
            line_keys_v.len() == p,
            forall|a: int| 0 <= a < p ==> line_keys_v@[a] as int == results@[order@[a] as int].line_number as int,
    {
        line_keys_v.push(results[order[p]].line_number as u128);
    }
    let ghost ord = idx_ints(order@);
    assert(key_ints(line_keys_v@) =~= line_keys(results@, ord, m as int));
    let ps = sort_indices_by_key(&line_keys_v);
    assert forall|a: int| 0 <= a < m implies #[trigger] ps@[a] < m by {
        assert(idx_ints(ps@)[a] == ps@[a] as int);
    }
    let mut out: Vec<SearchMatch> = Vec::new();
    for t in 0..m
        invariant
            m <= n,
            n == results.len(),
            order.len() == n,
            ps.len() == m,
            ord == idx_ints(order@),
            forall|a: int| 0 <= a < n ==> #[trigger] order@[a] < n,
            forall|a: int| 0 <= a < m ==> #[trigger] ps@[a] < m,
            out.len() == t,
            forall|a: int| 0 <= a < t ==> #[trigger] out@[a]@ == results@[order@[ps@[a] as int] as int]@,
    {
        let mm = results[order[ps[t]]].copy();
        out.push(mm);
    }
    assert(match_views(out@) =~= Seq::new(m as nat, |t: int| results@[ord[idx_ints(ps@)[t]]]@));
    assert(best_by_line(results@, k as int, ord, idx_ints(ps@), match_views(out@)));
    out
}

/// Whether `s` lists distinct values, each in `0..keys.len()`, in key order.
pub open spec fn distinct_in_key_order(keys: Seq<int>, s: Seq<int>) -> bool {
    &&& forall|a: int| 0 <= a < s.len() ==> 0 <= #[trigger] s[a] < keys.len()
    &&& forall|a: int, b: int| 0 <= a < b < s.len() ==> s[a] != s[b]
    &&& ordered_by_key(keys, s)
}

proof fn lemma_key_order_unique(keys: Seq<int>, s1: Seq<int>, s2: Seq<int>)
    requires
        distinct_in_key_order(keys, s1),
        distinct_in_key_order(keys, s2),
        s1.len() == s2.len(),
        forall|x: int| s1.contains(x) <==> s2.contains(x),
    ensures
        s1 == s2,
    decreases s1.len(),
{
    if s1.len() > 0 {
        let x = s1[0];
        let y = s2[0];
        if x != y {
            assert(s2.contains(x));
            let b = choose|b: int| 0 <= b < s2.len() && s2[b] == x;
            assert(s1.contains(y)) by {
                assert(s2.contains(y));
            }
            let a = choose|a: int| 0 <= a < s1.len() && s1[a] == y;
            assert(key_before(keys, y, x));
            assert(key_before(keys, x, y));
            assert(false);
        }
        let t1 = s1.drop_first();
        let t2 = s2.drop_first();
        assert forall|z: int| t1.contains(z) <==> t2.contains(z) by {
            if t1.contains(z) {
                let a = choose|a: int| 0 <= a < t1.len() && t1[a] == z;
                assert(s1[a + 1] == z);
                assert(z != x);
                assert(s2.contains(z));
                let b = choose|b: int| 0 <= b < s2.len() && s2[b] == z;
                assert(b != 0);
                assert(t2[b - 1] == z);
            }
            if t2.contains(z) {
                let b = choose|b: int| 0 <= b < t2.len() && t2[b] == z;
                assert(s2[b + 1] == z);
                assert(z != y);
                assert(s1.contains(z));
                let a = choose|a: int| 0 <= a < s1.len() && s1[a] == z;
                assert(a != 0);
                assert(t1[a - 1] == z);
            }
        }
        lemma_key_order_unique(keys, t1, t2);
        assert(s1 =~= seq![x] + t1);
        assert(s2 =~= seq![y] + t2);
    }
}

proof fn lemma_index_perm_contains(s: Seq<int>, n: int, x: int)
    requires
        is_index_perm(s, n),
        0 <= x < n,
    ensures
        s.contains(x),
{
    // s holds n distinct values of 0..n, hence all of them
    assert(s.no_duplicates()) by {
        assert forall|i: int, j: int| 0 <= i < s.len() && 0 <= j < s.len() && i != j implies s[i] != s[j] by {
            if i < j {
                assert(s[i] != s[j]);
            } else {
                assert(s[j] != s[i]);
            }
        }
    }
    s.unique_seq_to_set();
    vstd::set_lib::lemma_int_range(0, n);
    let range = vstd::set_lib::set_int_range(0, n);
    if !s.contains(x) {
        assert(s.to_set().subset_of(range.remove(x))) by {
            assert forall|v: int| s.to_set().contains(v) implies range.remove(x).contains(v) by {
                let a = choose|a: int| 0 <= a < s.len() && s[a] == v;
                assert(0 <= s[a] < n);
            }
        }
        assert(range.contains(x));
        vstd::set_lib::lemma_len_subset(s.to_set(), range.remove(x));
        assert(false);
    }
}

/// Ordering all indices by key has exactly one outcome: two permutations of
/// `0..keys.len()` both in key order are equal.
pub proof fn law_key_order_unique(keys: Seq<int>, s1: Seq<int>, s2: Seq<int>)
    requires
        is_index_perm(s1, keys.len() as int),
        is_index_perm(s2, keys.len() as int),
        ordered_by_key(keys, s1),
        ordered_by_key(keys, s2),
    ensures
        s1 == s2,
{
    let n = keys.len() as int;
    assert forall|x: int| s1.contains(x) <==> s2.contains(x) by {
        if s1.contains(x) {
            let a = choose|a: int| 0 <= a < s1.len() && s1[a] == x;
            lemma_index_perm_contains(s2, n, x);
        }
        if s2.contains(x) {
            let a = choose|a: int| 0 <= a < s2.len() && s2[a] == x;
            lemma_index_perm_contains(s1, n, x);
        }
    }
    lemma_key_order_unique(keys, s1, s2);
}

/// Limiting a similarity search keeps `min(k, n)` results, listed by line
/// number, and every kept result scores at least as high as every dropped one;
/// and the kept list is fully determined by the input.
pub proof fn law_best_by_line(
    results: Seq<SearchMatch>,
    k: int,
    order: Seq<int>,
    ps: Seq<int>,
    out: Seq<crate::matcher::MatchView>,
    order2: Seq<int>,
    ps2: Seq<int>,
    out2: Seq<crate::matcher::MatchView>,
)
    requires
        0 <= k,
        best_by_line(results, k, order, ps, out),
        best_by_line(results, k, order2, ps2, out2),
    ensures
        out.len() == min_int(k, results.len() as int),
        forall|t: int, u: int| 0 <= t < u < out.len() ==> out[t].line_number <= out[u].line_number,
        forall|a: int, b: int| 0 <= a < min_int(k, results.len() as int) <= b < results.len()
            ==> score_key(results[order[a]]) >= score_key(results[order[b]]),
        out2 == out,
{
    let n = results.len() as int;
    let m = min_int(k, n);
    let lk = line_keys(results, order, m);
    assert forall|t: int, u: int| 0 <= t < u < out.len() implies out[t].line_number <= out[u].line_number by {
        assert(key_before(lk, ps[t], ps[u]));
        assert(out[t] == results[order[ps[t]]]@);
        assert(out[u] == results[order[ps[u]]]@);
    }
    assert forall|a: int, b: int| 0 <= a < m <= b < n implies score_key(results[order[a]]) >= score_key(results[order[b]]) by {
        assert(key_before(best_first_keys(results), order[a], order[b]));
    }
    law_key_order_unique(best_first_keys(results), order, order2);
    assert(line_keys(results, order2, m) == lk);
    law_key_order_unique(lk, ps, ps2);
    assert(out2 =~= out);
}

/// Whether score `a` ranks at least as high as score `b`: no score ranks
/// lowest, and two scores compare by their full rank.
pub open spec fn ranks_at_least(a: Option<Similarity>, b: Option<Similarity>) -> bool {
    match (a, b) {
        (_, None) => true,
        (None, Some(_)) => false,
        (Some(x), Some(y)) => x.rank >= y.rank,
    }
}

/// Limiting a similarity search to `k` results never drops a result while
/// keeping one that ranks lower: every kept result ranks at least as high as
/// every dropped one, by the full rank of its score. The kept results are
/// `order[0..min(k, n)]`, and the output lists exactly those.
pub proof fn law_max_count_keeps_the_best(
    results: Seq<SearchMatch>,
    k: int,
    order: Seq<int>,
    ps: Seq<int>,
    out: Seq<crate::matcher::MatchView>,
)
    requires
        0 <= k,
        best_by_line(results, k, order, ps, out),
    ensures
        forall|a: int, b: int| 0 <= a < min_int(k, results.len() as int) <= b < results.len()
            ==> ranks_at_least(#[trigger] results[order[a]].similarity, #[trigger] results[order[b]].similarity),
        forall|t: int| 0 <= t < out.len() ==> 0 <= #[trigger] ps[t] < min_int(k, results.len() as int)
            && out[t] == results[order[ps[t]]]@,
{
    let n = results.len() as int;
    let m = min_int(k, n);
    assert forall|a: int, b: int| 0 <= a < m <= b < n
        implies ranks_at_least(#[trigger] results[order[a]].similarity, #[trigger] results[order[b]].similarity) by {
        assert(key_before(best_first_keys(results), order[a], order[b]));
        assert(best_first_keys(results)[order[a]] == 0x1_0000_0000_0000_0000int - score_key(results[order[a]]));
        assert(best_first_keys(results)[order[b]] == 0x1_0000_0000_0000_0000int - score_key(results[order[b]]));
    }
}

} // verus!
