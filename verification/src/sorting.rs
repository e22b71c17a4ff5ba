//! Stable ordering of timeline rows by timestamp (`sort_by_key`).
use vstd::prelude::*;

verus! {

/// Number of leading elements whose key is at most `k`.
pub open spec fn upper_bound<T>(s: Seq<(i64, T)>, k: i64) -> nat
    decreases s.len(),
{
    if s.len() == 0 || s[0].0 > k {
        0
    } else {
        1 + upper_bound(s.drop_first(), k)
    }
}

/// Insert `x` after every element whose key is at most its own.
pub open spec fn insert_sorted<T>(s: Seq<(i64, T)>, x: (i64, T)) -> Seq<(i64, T)> {
    s.insert(upper_bound(s, x.0) as int, x)
}

/// Stable sort by key: what `sort_by_key(|(ts, _)| *ts)` produces.
pub open spec fn sort_by_ts<T>(s: Seq<(i64, T)>) -> Seq<(i64, T)>
    decreases s.len(),
{
    if s.len() == 0 {
        Seq::empty()
    } else {
        insert_sorted(sort_by_ts(s.drop_last()), s.last())
    }
}

pub open spec fn ascending<T>(s: Seq<(i64, T)>) -> bool {
    forall|i: int, j: int| 0 <= i < j < s.len() ==> (#[trigger] s[i]).0 <= (#[trigger] s[j]).0
}

proof fn lemma_upper_bound_at<T>(s: Seq<(i64, T)>, k: i64, pos: int)
    requires
        0 <= pos <= s.len(),
        forall|j: int| 0 <= j < pos ==> (#[trigger] s[j]).0 <= k,
        pos == s.len() || s[pos].0 > k,
    ensures
        upper_bound(s, k) == pos,
    decreases pos,
{
    if pos > 0 {
        assert(s[0].0 <= k);
        let t = s.drop_first();
        assert forall|j: int| 0 <= j < pos - 1 implies (#[trigger] t[j]).0 <= k by {
            assert(t[j] == s[j + 1]);
        }
        if pos - 1 < t.len() {
            assert(t[pos - 1] == s[pos]);
        }
        lemma_upper_bound_at(t, k, pos - 1);
    }
}

proof fn lemma_upper_bound_le<T>(s: Seq<(i64, T)>, k: i64)
    ensures
        upper_bound(s, k) <= s.len(),
        forall|j: int| 0 <= j < upper_bound(s, k) ==> (#[trigger] s[j]).0 <= k,
        upper_bound(s, k) < s.len() ==> s[upper_bound(s, k) as int].0 > k,
    decreases s.len(),
{
    if s.len() > 0 && s[0].0 <= k {
        let t = s.drop_first();
        lemma_upper_bound_le(t, k);
        assert forall|j: int| 0 <= j < upper_bound(s, k) implies (#[trigger] s[j]).0 <= k by {
            if j > 0 {
                assert(s[j] == t[j - 1]);
            }
        }
        if upper_bound(s, k) < s.len() {
            assert(s[upper_bound(s, k) as int] == t[upper_bound(t, k) as int]);
        }
    }
}

/// Inserting into an ascending sequence keeps it ascending.
pub proof fn lemma_insert_sorted_ascending<T>(s: Seq<(i64, T)>, x: (i64, T))
    requires
        ascending(s),
    ensures
        ascending(insert_sorted(s, x)),
        insert_sorted(s, x).len() == s.len() + 1,
{
    lemma_upper_bound_le(s, x.0);
    let p = upper_bound(s, x.0) as int;
    let r = insert_sorted(s, x);
    s.insert_ensures(p, x);
    assert forall|i: int, j: int| 0 <= i < j < r.len() implies (#[trigger] r[i]).0 <= (
    #[trigger] r[j]).0 by {
        if i < p && j == p {
        } else if i == p && j > p {
            assert(r[j] == s[j - 1]);
            assert(s[p].0 > x.0);
            if j - 1 > p {
                assert(s[p].0 <= s[j - 1].0);
            }
        } else if j < p {
        } else if i < p && j > p {
            assert(r[j] == s[j - 1]);
        } else {
            assert(r[i] == s[i - 1]);
            assert(r[j] == s[j - 1]);
        }
    }
}

/// A stably sorted sequence is ascending by key.
pub proof fn lemma_sort_by_ts_ascending<T>(s: Seq<(i64, T)>)
    ensures
        ascending(sort_by_ts(s)),
        sort_by_ts(s).len() == s.len(),
    decreases s.len(),
{
    if s.len() > 0 {
        lemma_sort_by_ts_ascending(s.drop_last());
        lemma_insert_sorted_ascending(sort_by_ts(s.drop_last()), s.last());
    }
}

/// Order rows by timestamp, keeping the given order among equal timestamps.
pub fn sort_rows_by_ts<T>(rows: Vec<(i64, T)>) -> (out: Vec<(i64, T)>)
    ensures
        out@ == sort_by_ts(rows@),
{
    let ghost input = rows@;
    let mut out: Vec<(i64, T)> = Vec::new();
    let mut rest = rows;
    let mut i: usize = 0;
    let n = rest.len();
    while rest.len() > 0
        invariant
            n == input.len(),
            i + rest.len() == n,
            rest@ == input.subrange(i as int, n as int),
            out@ == sort_by_ts(input.take(i as int)),
            ascending(out@),
        decreases rest.len(),
    {
        let x = rest.remove(0);
        assert(x == input[i as int]);
        let mut pos: usize = 0;
        while pos < out.len() && out[pos].0 <= x.0
            invariant
                pos <= out.len(),
                forall|j: int| 0 <= j < pos ==> (#[trigger] out@[j]).0 <= x.0,
            decreases out.len() - pos,
        {
            pos += 1;
        }
        proof {
            lemma_upper_bound_at(out@, x.0, pos as int);
            lemma_insert_sorted_ascending(out@, x);
            assert(input.take(i + 1).drop_last() =~= input.take(i as int));
            assert(input.take(i + 1).last() == x);
            assert(rest@ =~= input.subrange(i + 1, n as int));
        }
        out.insert(pos, x);
        i += 1;
    }
    assert(input.take(n as int) =~= input);
    out
}


/// Sorting only reorders: the result holds the same rows, as often.
pub proof fn lemma_sort_by_ts_perm<T>(s: Seq<(i64, T)>)
    ensures
        sort_by_ts(s).to_multiset() == s.to_multiset(),
    decreases s.len(),
{
    if s.len() > 0 {
        let rest = s.drop_last();
        lemma_sort_by_ts_perm(rest);
        lemma_sort_by_ts_ascending(rest);
        let t = sort_by_ts(rest);
        lemma_upper_bound_le(t, s.last().0);
        vstd::seq_lib::to_multiset_insert(t, upper_bound(t, s.last().0) as int, s.last());
        vstd::seq_lib::to_multiset_build(rest, s.last());
        assert(rest.push(s.last()) =~= s);
        assert(sort_by_ts(s) == t.insert(upper_bound(t, s.last().0) as int, s.last()));
    } else {
        assert(s =~= Seq::<(i64, T)>::empty());
        assert(sort_by_ts(s) =~= s);
    }
}

/// Mapping two orderings of the same items gives two orderings of the same
/// mapped items.
pub proof fn lemma_map_keeps_multiset<A, B>(a: Seq<A>, b: Seq<A>, f: spec_fn(A) -> B)
    requires
        a.to_multiset() == b.to_multiset(),
    ensures
        a.map_values(f).to_multiset() == b.map_values(f).to_multiset(),
    decreases a.len(),
{
    broadcast use vstd::multiset::group_multiset_axioms;

    vstd::seq_lib::to_multiset_len(a);
    vstd::seq_lib::to_multiset_len(b);
    if a.len() == 0 {
        assert(b.len() == 0);
        assert(a.map_values(f) =~= b.map_values(f));
    } else {
        let x = a.last();
        let rest = a.drop_last();
        assert(rest.push(x) =~= a);
        vstd::seq_lib::to_multiset_build(rest, x);
        assert(a.to_multiset().count(x) > 0);
        vstd::seq_lib::to_multiset_contains(b, x);
        let i = choose|i: int| 0 <= i < b.len() && b[i] == x;
        let b2 = b.remove(i);
        vstd::seq_lib::to_multiset_remove(b, i);
        assert(rest.to_multiset() =~= b2.to_multiset());
        lemma_map_keeps_multiset(rest, b2, f);
        let ma = a.map_values(f);
        let mb = b.map_values(f);
        assert(ma =~= rest.map_values(f).push(f(x)));
        vstd::seq_lib::to_multiset_build(rest.map_values(f), f(x));
        assert(mb.remove(i) =~= b2.map_values(f));
        vstd::seq_lib::to_multiset_remove(mb, i);
        assert(mb[i] == f(x));
        vstd::seq_lib::to_multiset_contains(mb, f(x));
        assert(mb.to_multiset() =~= mb.remove(i).to_multiset().insert(f(x)));
    }
}

} // verus!
