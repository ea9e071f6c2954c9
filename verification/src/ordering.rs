//! Sorting with duplicates removed, for timestamps and for time regions.
use vstd::prelude::*;

verus! {

pub open spec fn strictly_increasing(s: Seq<i64>) -> bool {
    forall|i: int, j: int| 0 <= i < j < s.len() ==> s[i] < s[j]
}

/// `s` with `x` put in its place, unless `s` holds it already.
pub open spec fn insert_sorted(s: Seq<i64>, x: i64) -> Seq<i64>
    decreases s.len(),
{
    if s.len() == 0 {
        seq![x]
    } else if x < s[0] {
        seq![x] + s
    } else if x == s[0] {
        s
    } else {
        seq![s[0]] + insert_sorted(s.drop_first(), x)
    }
}

/// The distinct values of `s` in increasing order: what `sort_unstable`
/// followed by `dedup` leaves.
pub open spec fn sorted_distinct(s: Seq<i64>) -> Seq<i64>
    decreases s.len(),
{
    if s.len() == 0 {
        Seq::empty()
    } else {
        insert_sorted(sorted_distinct(s.drop_last()), s.last())
    }
}

pub open spec fn pair_lt(a: (i64, i64), b: (i64, i64)) -> bool {
    a.0 < b.0 || (a.0 == b.0 && a.1 < b.1)
}

pub open spec fn pairs_strictly_increasing(s: Seq<(i64, i64)>) -> bool {
    forall|i: int, j: int| 0 <= i < j < s.len() ==> pair_lt(s[i], s[j])
}

pub open spec fn insert_sorted_pair(s: Seq<(i64, i64)>, x: (i64, i64)) -> Seq<(i64, i64)>
    decreases s.len(),
{
    if s.len() == 0 {
        seq![x]
    } else if pair_lt(x, s[0]) {
        seq![x] + s
    } else if x == s[0] {
        s
    } else {
        seq![s[0]] + insert_sorted_pair(s.drop_first(), x)
    }
}

/// The distinct pairs of `s` in lexicographic order.
pub open spec fn sorted_distinct_pairs(s: Seq<(i64, i64)>) -> Seq<(i64, i64)>
    decreases s.len(),
{
    if s.len() == 0 {
        Seq::empty()
    } else {
        insert_sorted_pair(sorted_distinct_pairs(s.drop_last()), s.last())
    }
}

// ---------------------------------------------------------------- lemmas

pub proof fn lemma_insert_sorted(s: Seq<i64>, x: i64)
    requires
        strictly_increasing(s),
    ensures
        strictly_increasing(insert_sorted(s, x)),
        forall|y: i64| #[trigger] insert_sorted(s, x).contains(y) <==> (s.contains(y) || y == x),
    decreases s.len(),
{
    let r = insert_sorted(s, x);
    if s.len() == 0 {
        assert(r =~= seq![x]);
        assert forall|y: i64| r.contains(y) <==> (s.contains(y) || y == x) by {
            if y == x {
                assert(r[0] == x);
            }
        }
    } else if x < s[0] {
        assert forall|i: int, j: int| 0 <= i < j < r.len() implies r[i] < r[j] by {
            if i > 0 {
                assert(r[i] == s[i - 1] && r[j] == s[j - 1]);
            } else {
                assert(r[j] == s[j - 1]);
                assert(s[0] <= s[j - 1]);
            }
        }
        assert forall|y: i64| r.contains(y) <==> (s.contains(y) || y == x) by {
            if r.contains(y) {
                let k = choose|k: int| 0 <= k < r.len() && r[k] == y;
                if k > 0 {
                    assert(s[k - 1] == y);
                }
            }
            if s.contains(y) {
                let k = choose|k: int| 0 <= k < s.len() && s[k] == y;
                assert(r[k + 1] == y);
            }
            if y == x {
                assert(r[0] == y);
            }
        }
    } else if x == s[0] {
        assert forall|y: i64| r.contains(y) <==> (s.contains(y) || y == x) by {
            if y == x {
                assert(s[0] == y);
            }
        }
    } else {
        let t = s.drop_first();
        assert(strictly_increasing(t)) by {
            assert forall|i: int, j: int| 0 <= i < j < t.len() implies t[i] < t[j] by {
                assert(t[i] == s[i + 1] && t[j] == s[j + 1]);
            }
        }
        lemma_insert_sorted(t, x);
        let rt = insert_sorted(t, x);
        assert(r == seq![s[0]] + rt);
        assert forall|k: int| 0 <= k < rt.len() implies s[0] < #[trigger] rt[k] by {
            assert(rt.contains(rt[k]));
            if t.contains(rt[k]) {
                let m = choose|m: int| 0 <= m < t.len() && t[m] == rt[k];
                assert(s[m + 1] == rt[k]);
            }
        }
        assert forall|i: int, j: int| 0 <= i < j < r.len() implies r[i] < r[j] by {
            if i > 0 {
                assert(r[i] == rt[i - 1] && r[j] == rt[j - 1]);
            } else {
                assert(r[j] == rt[j - 1]);
            }
        }
        assert forall|y: i64| r.contains(y) <==> (s.contains(y) || y == x) by {
            if r.contains(y) {
                let k = choose|k: int| 0 <= k < r.len() && r[k] == y;
                if k > 0 {
                    assert(rt[k - 1] == y);
                    assert(rt.contains(y));
                    if t.contains(y) {
                        let m = choose|m: int| 0 <= m < t.len() && t[m] == y;
                        assert(s[m + 1] == y);
                    }
                } else {
                    assert(s[0] == y);
                }
            }
            if s.contains(y) {
                let k = choose|k: int| 0 <= k < s.len() && s[k] == y;
                if k > 0 {
                    assert(t[k - 1] == y);
                    assert(t.contains(y));
                    assert(rt.contains(y));
                    let m = choose|m: int| 0 <= m < rt.len() && rt[m] == y;
                    assert(r[m + 1] == y);
                } else {
                    assert(r[0] == y);
                }
            }
            if y == x {
                assert(t.contains(y) || y == x);
                assert(rt.contains(y));
                let m = choose|m: int| 0 <= m < rt.len() && rt[m] == y;
                assert(r[m + 1] == y);
            }
        }
    }
}

/// Two strictly increasing sequences that hold the same values are equal.
pub proof fn lemma_increasing_same_values(x: Seq<i64>, y: Seq<i64>)
    requires
        strictly_increasing(x),
        strictly_increasing(y),
        forall|v: i64| x.contains(v) <==> y.contains(v),
    ensures
        x == y,
    decreases x.len(),
{
    if x.len() == 0 {
        if y.len() > 0 {
            assert(y.contains(y[0]));
        }
        assert(x =~= y);
    } else {
        assert(x.contains(x[0]));
        assert(y.len() > 0);
        assert(y.contains(y[0]));
        let i = choose|i: int| 0 <= i < y.len() && y[i] == x[0];
        let j = choose|j: int| 0 <= j < x.len() && x[j] == y[0];
        assert(x[0] == y[0]) by {
            if i > 0 {
                assert(y[0] < y[i]);
            }
            if j > 0 {
                assert(x[0] < x[j]);
            }
        }
        let xt = x.drop_first();
        let yt = y.drop_first();
        assert forall|v: i64| xt.contains(v) <==> yt.contains(v) by {
            if xt.contains(v) {
                let k = choose|k: int| 0 <= k < xt.len() && xt[k] == v;
                assert(x[k + 1] == v);
                assert(x.contains(v));
                let m = choose|m: int| 0 <= m < y.len() && y[m] == v;
                assert(x[0] < x[k + 1]);
                assert(m != 0);
                assert(yt[m - 1] == v);
            }
            if yt.contains(v) {
                let k = choose|k: int| 0 <= k < yt.len() && yt[k] == v;
                assert(y[k + 1] == v);
                assert(y.contains(v));
                let m = choose|m: int| 0 <= m < x.len() && x[m] == v;
                assert(y[0] < y[k + 1]);
                assert(m != 0);
                assert(xt[m - 1] == v);
            }
        }
        lemma_increasing_same_values(xt, yt);
        assert(x =~= seq![x[0]] + xt);
        assert(y =~= seq![y[0]] + yt);
    }
}

/// The result of `sorted_distinct` increases strictly and holds exactly
/// the values of its input.
pub proof fn lemma_sorted_distinct(s: Seq<i64>)
    ensures
        strictly_increasing(sorted_distinct(s)),
        forall|y: i64| sorted_distinct(s).contains(y) <==> s.contains(y),
    decreases s.len(),
{
    if s.len() > 0 {
        lemma_sorted_distinct(s.drop_last());
        lemma_insert_sorted(sorted_distinct(s.drop_last()), s.last());
        assert forall|y: i64| sorted_distinct(s).contains(y) <==> s.contains(y) by {
            if s.drop_last().contains(y) {
                let k = choose|k: int| 0 <= k < s.drop_last().len() && s.drop_last()[k] == y;
                assert(s[k] == y);
            }
            if s.contains(y) {
                let k = choose|k: int| 0 <= k < s.len() && s[k] == y;
                if k < s.len() - 1 {
                    assert(s.drop_last()[k] == y);
                }
            }
        }
    }
}

// ---------------------------------------------------------------- exec

/// `insert_sorted(r, x)` in place.
pub fn insert_sorted_in_place(r: &mut Vec<i64>, x: i64)
    requires
        strictly_increasing(old(r)@),
    ensures
        final(r)@ == insert_sorted(old(r)@, x),
{
    let ghost s = r@;
    let mut p: usize = 0;
    assert(s.skip(0) =~= s);
    assert(s.take(0) + s =~= s);
    while p < r.len() && r[p] < x
        invariant
            0 <= p <= r@.len(),
            r@ == s,
            strictly_increasing(s),
            forall|k: int| 0 <= k < p ==> s[k] < x,
            insert_sorted(s, x) == s.take(p as int) + insert_sorted(s.skip(p as int), x),
        decreases r@.len() - p,
    {
        proof {
            let t = s.skip(p as int);
            assert(t[0] == s[p as int]);
            assert(t.drop_first() =~= s.skip(p + 1));
            assert(insert_sorted(t, x) == seq![t[0]] + insert_sorted(s.skip(p + 1), x));
            assert(s.take(p as int) + (seq![s[p as int]] + insert_sorted(s.skip(p + 1), x))
                =~= s.take(p + 1) + insert_sorted(s.skip(p + 1), x));
        }
        p += 1;
    }
    if p < r.len() && r[p] == x {
        proof {
            let t = s.skip(p as int);
            assert(t[0] == x);
            assert(s.take(p as int) + t =~= s);
        }
        return;
    }
    proof {
        let t = s.skip(p as int);
        if p < s.len() {
            assert(t[0] == s[p as int]);
            assert(x < t[0]);
            assert(insert_sorted(t, x) == seq![x] + t);
        } else {
            assert(t.len() == 0);
        }
        assert(s.take(p as int) + (seq![x] + t) =~= s.insert(p as int, x));
    }
    r.insert(p, x);
}

/// The distinct values of `v` in increasing order.
pub fn sort_distinct(v: &Vec<i64>) -> (r: Vec<i64>)
    ensures
        r@ == sorted_distinct(v@),
{
    let mut r: Vec<i64> = Vec::new();
    let mut i: usize = 0;
    while i < v.len()
        invariant
            0 <= i <= v@.len(),
            r@ == sorted_distinct(v@.take(i as int)),
        decreases v.len() - i,
    {
        proof {
            lemma_sorted_distinct(v@.take(i as int));
            assert(v@.take(i + 1).drop_last() =~= v@.take(i as int));
        }
        insert_sorted_in_place(&mut r, v[i]);
        i += 1;
    }
    assert(v@.take(i as int) =~= v@);
    r
}


pub proof fn lemma_insert_sorted_pair(s: Seq<(i64, i64)>, x: (i64, i64))
    requires
        pairs_strictly_increasing(s),
    ensures
        pairs_strictly_increasing(insert_sorted_pair(s, x)),
        forall|y: (i64, i64)| #[trigger] insert_sorted_pair(s, x).contains(y) <==> (s.contains(y) || y == x),
    decreases s.len(),
{
    let r = insert_sorted_pair(s, x);
    if s.len() == 0 {
        assert(r =~= seq![x]);
        assert forall|y: (i64, i64)| r.contains(y) <==> (s.contains(y) || y == x) by {
            if y == x {
                assert(r[0] == x);
            }
        }
    } else if pair_lt(x, s[0]) {
        assert forall|i: int, j: int| 0 <= i < j < r.len() implies pair_lt(r[i], r[j]) by {
            if i > 0 {
                assert(r[i] == s[i - 1] && r[j] == s[j - 1]);
            } else {
                assert(r[j] == s[j - 1]);
                assert((s[0] == s[j - 1] || pair_lt(s[0], s[j - 1])));
            }
        }
        assert forall|y: (i64, i64)| r.contains(y) <==> (s.contains(y) || y == x) by {
            if r.contains(y) {
                let k = choose|k: int| 0 <= k < r.len() && r[k] == y;
                if k > 0 {
                    assert(s[k - 1] == y);
                }
            }
            if s.contains(y) {
                let k = choose|k: int| 0 <= k < s.len() && s[k] == y;
                assert(r[k + 1] == y);
            }
            if y == x {
                assert(r[0] == y);
            }
        }
    } else if x == s[0] {
        assert forall|y: (i64, i64)| r.contains(y) <==> (s.contains(y) || y == x) by {
            if y == x {
                assert(s[0] == y);
            }
        }
    } else {
        let t = s.drop_first();
        assert(pairs_strictly_increasing(t)) by {
            assert forall|i: int, j: int| 0 <= i < j < t.len() implies pair_lt(t[i], t[j]) by {
                assert(t[i] == s[i + 1] && t[j] == s[j + 1]);
            }
        }
        lemma_insert_sorted_pair(t, x);
        let rt = insert_sorted_pair(t, x);
        assert(r == seq![s[0]] + rt);
        assert forall|k: int| 0 <= k < rt.len() implies pair_lt(s[0], #[trigger] rt[k]) by {
            assert(rt.contains(rt[k]));
            if t.contains(rt[k]) {
                let m = choose|m: int| 0 <= m < t.len() && t[m] == rt[k];
                assert(s[m + 1] == rt[k]);
            }
        }
        assert forall|i: int, j: int| 0 <= i < j < r.len() implies pair_lt(r[i], r[j]) by {
            if i > 0 {
                assert(r[i] == rt[i - 1] && r[j] == rt[j - 1]);
            } else {
                assert(r[j] == rt[j - 1]);
            }
        }
        assert forall|y: (i64, i64)| r.contains(y) <==> (s.contains(y) || y == x) by {
            if r.contains(y) {
                let k = choose|k: int| 0 <= k < r.len() && r[k] == y;
                if k > 0 {
                    assert(rt[k - 1] == y);
                    assert(rt.contains(y));
                    if t.contains(y) {
                        let m = choose|m: int| 0 <= m < t.len() && t[m] == y;
                        assert(s[m + 1] == y);
                    }
                } else {
                    assert(s[0] == y);
                }
            }
            if s.contains(y) {
                let k = choose|k: int| 0 <= k < s.len() && s[k] == y;
                if k > 0 {
                    assert(t[k - 1] == y);
                    assert(t.contains(y));
                    assert(rt.contains(y));
                    let m = choose|m: int| 0 <= m < rt.len() && rt[m] == y;
                    assert(r[m + 1] == y);
                } else {
                    assert(r[0] == y);
                }
            }
            if y == x {
                assert(t.contains(y) || y == x);
                assert(rt.contains(y));
                let m = choose|m: int| 0 <= m < rt.len() && rt[m] == y;
                assert(r[m + 1] == y);
            }
        }
    }
}

/// The result of `sorted_distinct` increases strictly and holds exactly
/// the values of its input.
pub proof fn lemma_sorted_distinct_pairs(s: Seq<(i64, i64)>)
    ensures
        pairs_strictly_increasing(sorted_distinct_pairs(s)),
        forall|y: (i64, i64)| sorted_distinct_pairs(s).contains(y) <==> s.contains(y),
    decreases s.len(),
{
    if s.len() > 0 {
        lemma_sorted_distinct_pairs(s.drop_last());
        lemma_insert_sorted_pair(sorted_distinct_pairs(s.drop_last()), s.last());
        assert forall|y: (i64, i64)| sorted_distinct_pairs(s).contains(y) <==> s.contains(y) by {
            if s.drop_last().contains(y) {
                let k = choose|k: int| 0 <= k < s.drop_last().len() && s.drop_last()[k] == y;
                assert(s[k] == y);
            }
            if s.contains(y) {
                let k = choose|k: int| 0 <= k < s.len() && s[k] == y;
                if k < s.len() - 1 {
                    assert(s.drop_last()[k] == y);
                }
            }
        }
    }
}

pub fn pair_lt_exec(a: (i64, i64), b: (i64, i64)) -> (r: bool)
    ensures
        r == pair_lt(a, b),
{
    a.0 < b.0 || (a.0 == b.0 && a.1 < b.1)
}

/// `insert_sorted_pair(r, x)` in place.
pub fn insert_sorted_pair_in_place(r: &mut Vec<(i64, i64)>, x: (i64, i64))
    requires
        pairs_strictly_increasing(old(r)@),
    ensures
        final(r)@ == insert_sorted_pair(old(r)@, x),
{
    let ghost s = r@;
    let mut p: usize = 0;
    assert(s.skip(0) =~= s);
    assert(s.take(0) + s =~= s);
    while p < r.len() && pair_lt_exec(r[p], x)
        invariant
            0 <= p <= r@.len(),
            r@ == s,
            pairs_strictly_increasing(s),
            forall|k: int| 0 <= k < p ==> pair_lt(s[k], x),
            insert_sorted_pair(s, x) == s.take(p as int) + insert_sorted_pair(s.skip(p as int), x),
        decreases r@.len() - p,
    {
        proof {
            let t = s.skip(p as int);
            assert(t[0] == s[p as int]);
            assert(t.drop_first() =~= s.skip(p + 1));
            assert(insert_sorted_pair(t, x) == seq![t[0]] + insert_sorted_pair(s.skip(p + 1), x));
            assert(s.take(p as int) + (seq![s[p as int]] + insert_sorted_pair(s.skip(p + 1), x))
                =~= s.take(p + 1) + insert_sorted_pair(s.skip(p + 1), x));
        }
        p += 1;
    }
    if p < r.len() && (r[p].0 == x.0 && r[p].1 == x.1) {
        proof {
            let t = s.skip(p as int);
            assert(t[0] == x);
            assert(s.take(p as int) + t =~= s);
        }
        return;
    }
    proof {
        let t = s.skip(p as int);
        if p < s.len() {
            assert(t[0] == s[p as int]);
            assert(pair_lt(x, t[0]));
            assert(insert_sorted_pair(t, x) == seq![x] + t);
        } else {
            assert(t.len() == 0);
        }
        assert(s.take(p as int) + (seq![x] + t) =~= s.insert(p as int, x));
    }
    r.insert(p, x);
}

/// The distinct pairs of `v` in lexicographic order.
pub fn sort_distinct_pairs(v: &Vec<(i64, i64)>) -> (r: Vec<(i64, i64)>)
    ensures
        r@ == sorted_distinct_pairs(v@),
{
    let mut r: Vec<(i64, i64)> = Vec::new();
    let mut i: usize = 0;
    while i < v.len()
        invariant
            0 <= i <= v@.len(),
            r@ == sorted_distinct_pairs(v@.take(i as int)),
        decreases v.len() - i,
    {
        proof {
            lemma_sorted_distinct_pairs(v@.take(i as int));
            assert(v@.take(i + 1).drop_last() =~= v@.take(i as int));
        }
        insert_sorted_pair_in_place(&mut r, v[i]);
        i += 1;
    }
    assert(v@.take(i as int) =~= v@);
    r
}

} // verus!
