//! Sets of memory addresses, backed by `rangeset::set::RangeSet<usize>`.
//!
//! The set operations themselves are done by the `rangeset` crate; this module
//! gives each of them a contract over the mathematical set of addresses that a
//! `RangeSet` holds, and proves the facts about the sorted range decomposition
//! that the stores rely on.
use vstd::prelude::*;
use rangeset::set::RangeSet;
use rangeset::ops::Set as SetOps;

verus! {

#[verifier::external_type_specification]
#[verifier::external_body]
#[verifier::reject_recursive_types(T)]
pub struct ExRangeSet<T>(RangeSet<T>);

/// The addresses that a `RangeSet<usize>` holds.
pub uninterp spec fn rs_view(s: RangeSet<usize>) -> Set<int>;

/// The half-open interval `[start, end)` of addresses.
pub open spec fn interval(start: int, end: int) -> Set<int> {
    Set::new(|i: int| start <= i < end)
}

/// Whether `i` lies in one of the ranges of `r`.
pub open spec fn in_ranges(r: Seq<(usize, usize)>, i: int) -> bool {
    exists|k: int| 0 <= k < r.len() && #[trigger] r[k].0 <= i && i < r[k].1
}

/// `r` is the sorted decomposition of `s` into non-empty, non-adjacent ranges.
pub open spec fn covers(r: Seq<(usize, usize)>, s: Set<int>) -> bool {
    &&& forall|k: int| 0 <= k < r.len() ==> #[trigger] r[k].0 < r[k].1
    &&& forall|k: int, l: int| 0 <= k < l < r.len() ==> #[trigger] r[k].1 < #[trigger] r[l].0
    &&& forall|i: int| #[trigger] s.contains(i) <==> in_ranges(r, i)
}

/// The addresses `start, start + 1, .., end - 1` in order.
pub open spec fn range_seq(start: int, end: int) -> Seq<int> {
    Seq::new((end - start) as nat, |j: int| start + j)
}

/// The addresses of the ranges `r`, range after range, in order.
pub open spec fn flatten(r: Seq<(usize, usize)>) -> Seq<int>
    decreases r.len(),
{
    if r.len() == 0 {
        Seq::empty()
    } else {
        flatten(r.drop_last()) + range_seq(r.last().0 as int, r.last().1 as int)
    }
}

/// Every element of `q` is smaller than the next one.
pub open spec fn increasing(q: Seq<int>) -> bool {
    forall|a: int, b: int| 0 <= a < b < q.len() ==> #[trigger] q[a] < #[trigger] q[b]
}

/// The addresses of a finite set in increasing order.
pub open spec fn addrs(s: Set<int>) -> Seq<int> {
    choose|q: Seq<int>| increasing(q) && q.to_set() == s
}

/// `s` is finite and `addrs(s)` enumerates it in increasing order.
pub open spec fn enumerable(s: Set<int>) -> bool {
    &&& s.finite()
    &&& increasing(addrs(s))
    &&& addrs(s).to_set() == s
    &&& addrs(s).len() == s.len()
    &&& forall|j: int| 0 <= j < addrs(s).len() ==> 0 <= #[trigger] addrs(s)[j] < usize::MAX
}

/// The number of addresses in the ranges `r`.
pub open spec fn ranges_len(r: Seq<(usize, usize)>) -> int {
    flatten(r).len() as int
}

/// `RangeSet::default`: the empty set.
#[verifier::external_body]
pub(crate) fn rs_empty() -> (r: RangeSet<usize>)
    ensures
        rs_view(r) == Set::<int>::empty(),
{
    RangeSet::default()
}

/// `RangeSet::from(start..end)`: the addresses of one range.
#[verifier::external_body]
pub(crate) fn rs_from_range(start: usize, end: usize) -> (r: RangeSet<usize>)
    ensures
        rs_view(r) == interval(start as int, end as int),
{
    RangeSet::from(start..end)
}

/// `RangeSet::clone`: the same addresses.
#[verifier::external_body]
pub(crate) fn rs_clone(s: &RangeSet<usize>) -> (r: RangeSet<usize>)
    ensures
        rs_view(r) == rs_view(*s),
{
    s.clone()
}

/// `RangeSet |= &RangeSet`: adds the addresses of `other`.
#[verifier::external_body]
pub(crate) fn rs_union(s: &mut RangeSet<usize>, other: &RangeSet<usize>)
    ensures
        rs_view(*final(s)) == rs_view(*old(s)).union(rs_view(*other)),
{
    *s |= other;
}

/// `RangeSet -= &RangeSet`: removes the addresses of `other`.
#[verifier::external_body]
pub(crate) fn rs_difference(s: &mut RangeSet<usize>, other: &RangeSet<usize>)
    ensures
        rs_view(*final(s)) == rs_view(*old(s)).difference(rs_view(*other)),
{
    *s -= other;
}

/// `RangeSet &= &RangeSet`: keeps the addresses that are also in `other`.
#[verifier::external_body]
pub(crate) fn rs_intersection(s: &mut RangeSet<usize>, other: &RangeSet<usize>)
    ensures
        rs_view(*final(s)) == rs_view(*old(s)).intersect(rs_view(*other)),
{
    *s &= other;
}

/// `RangeSet::is_subset(&RangeSet)`: whether every address of `a` is in `b`.
#[verifier::external_body]
pub(crate) fn rs_is_subset(a: &RangeSet<usize>, b: &RangeSet<usize>) -> (r: bool)
    ensures
        r == rs_view(*a).subset_of(rs_view(*b)),
{
    a.is_subset(b)
}

/// `RangeSet::is_disjoint(&RangeSet)`: whether `a` and `b` share no address.
#[verifier::external_body]
pub(crate) fn rs_is_disjoint(a: &RangeSet<usize>, b: &RangeSet<usize>) -> (r: bool)
    ensures
        r == rs_view(*a).disjoint(rs_view(*b)),
{
    a.is_disjoint(b)
}

/// `RangeSet::is_empty`: whether the set holds no address.
#[verifier::external_body]
pub(crate) fn rs_is_empty(a: &RangeSet<usize>) -> (r: bool)
    ensures
        r == (rs_view(*a) == Set::<int>::empty()),
{
    a.is_empty()
}

/// `RangeSet::clear`: removes every address.
#[verifier::external_body]
pub(crate) fn rs_clear(s: &mut RangeSet<usize>)
    ensures
        rs_view(*final(s)) == Set::<int>::empty(),
{
    s.clear();
}

/// `RangeSet == RangeSet`. A `RangeSet` keeps its ranges sorted, non-empty and
/// non-adjacent, so two sets compare equal exactly when they hold the same
/// addresses.
#[verifier::external_body]
pub(crate) fn rs_eq(a: &RangeSet<usize>, b: &RangeSet<usize>) -> (r: bool)
    ensures
        r == (rs_view(*a) == rs_view(*b)),
{
    a == b
}

/// `RangeSet::iter`: the ranges of the set, each as `(start, end)`. The ranges
/// are sorted, non-empty and non-adjacent, and together hold exactly the
/// addresses of the set.
#[verifier::external_body]
pub(crate) fn rs_ranges(a: &RangeSet<usize>) -> (r: Vec<(usize, usize)>)
    ensures
        covers(r@, rs_view(*a)),
{
    a.iter().map(|range| (range.start, range.end)).collect()
}

/// `RangeSet::len`: the number of addresses.
#[verifier::external_body]
pub(crate) fn rs_len(a: &RangeSet<usize>) -> (r: usize)
    ensures
        r as int == rs_view(*a).len(),
{
    a.len()
}

// ---------------------------------------------------------------------------
// Facts about range decompositions.

proof fn lemma_range_seq_index(start: int, end: int, j: int)
    requires
        start <= end,
        0 <= j < end - start,
    ensures
        range_seq(start, end)[j] == start + j,
{
}

/// The flattened addresses of a prefix are a prefix of the flattened addresses.
pub proof fn lemma_flatten_push(r: Seq<(usize, usize)>, k: int)
    requires
        0 <= k < r.len(),
        forall|m: int| 0 <= m < r.len() ==> #[trigger] r[m].0 < r[m].1,
    ensures
        flatten(r.take(k + 1)) == flatten(r.take(k)) + range_seq(r[k].0 as int, r[k].1 as int),
{
    assert(r.take(k + 1).drop_last() =~= r.take(k));
}

/// Every flattened address lies in `[r[0].0, r.last().1)` and the sequence is
/// increasing when the ranges are sorted.
proof fn lemma_flatten_bounds(r: Seq<(usize, usize)>)
    requires
        forall|k: int| 0 <= k < r.len() ==> #[trigger] r[k].0 < r[k].1,
        forall|k: int, l: int| 0 <= k < l < r.len() ==> #[trigger] r[k].1 < #[trigger] r[l].0,
    ensures
        increasing(flatten(r)),
        flatten(r).len() > 0 ==> r.len() > 0,
        r.len() > 0 ==> forall|j: int|
            0 <= j < flatten(r).len() ==> r[0].0 <= #[trigger] flatten(r)[j] < r.last().1,
        forall|i: int| flatten(r).contains(i) <==> in_ranges(r, i),
    decreases r.len(),
{
    if r.len() == 0 {
        assert forall|i: int| flatten(r).contains(i) <==> in_ranges(r, i) by {}
    } else {
        let p = r.drop_last();
        lemma_flatten_bounds(p);
        let a = r.last().0 as int;
        let b = r.last().1 as int;
        let fp = flatten(p);
        let rs = range_seq(a, b);
        assert(flatten(r) == fp + rs);
        if p.len() > 0 {
            assert(p.last() == r[r.len() - 2]);
            assert(p.last().1 < a);
        }
        assert forall|x: int, y: int| 0 <= x < y < flatten(r).len() implies
            #[trigger] flatten(r)[x] < #[trigger] flatten(r)[y] by {
            if y < fp.len() {
            } else if x >= fp.len() {
                lemma_range_seq_index(a, b, x - fp.len());
                lemma_range_seq_index(a, b, y - fp.len());
            } else {
                lemma_range_seq_index(a, b, y - fp.len());
                assert(fp[x] < p.last().1);
            }
        }
        assert forall|j: int| 0 <= j < flatten(r).len() implies r[0].0 <= #[trigger] flatten(r)[j]
            < r.last().1 by {
            if j < fp.len() {
                assert(p[0] == r[0]);
                assert(fp[j] < p.last().1);
            } else {
                lemma_range_seq_index(a, b, j - fp.len());
                if p.len() > 0 {
                    assert(r[0].1 <= r[0].1);
                    if r.len() > 1 {
                        assert(r[0].1 < r[r.len() - 1].0);
                    }
                }
            }
        }
        assert forall|i: int| flatten(r).contains(i) <==> in_ranges(r, i) by {
            if flatten(r).contains(i) {
                let j = choose|j: int| 0 <= j < flatten(r).len() && flatten(r)[j] == i;
                if j < fp.len() {
                    assert(fp[j] == i);
                    assert(fp.contains(i));
                    assert(in_ranges(p, i));
                    let k = choose|k: int| 0 <= k < p.len() && #[trigger] p[k].0 <= i && i < p[k].1;
                    assert(r[k] == p[k]);
                    assert(r[k].0 <= i && i < r[k].1);
                } else {
                    lemma_range_seq_index(a, b, j - fp.len());
                    assert(r[r.len() - 1].0 <= i && i < r[r.len() - 1].1);
                }
            }
            if in_ranges(r, i) {
                let k = choose|k: int| 0 <= k < r.len() && #[trigger] r[k].0 <= i && i < r[k].1;
                if k < r.len() - 1 {
                    assert(p[k] == r[k]);
                    assert(in_ranges(p, i));
                    let j = choose|j: int| 0 <= j < fp.len() && fp[j] == i;
                    assert(flatten(r)[j] == i);
                } else {
                    lemma_range_seq_index(a, b, i - a);
                    assert(flatten(r)[fp.len() + (i - a)] == i);
                }
            }
        }
    }
}

/// Two increasing sequences with the same elements are equal.
pub proof fn lemma_increasing_unique(q1: Seq<int>, q2: Seq<int>)
    requires
        increasing(q1),
        increasing(q2),
        q1.to_set() == q2.to_set(),
    ensures
        q1 == q2,
    decreases q1.len(),
{
    if q1.len() == 0 {
        if q2.len() > 0 {
            assert(q2.to_set().contains(q2[0]));
        }
        assert(q1 =~= q2);
    } else if q2.len() == 0 {
        assert(q1.to_set().contains(q1[0]));
    } else {
        // Both start with the minimum element.
        assert(q1.to_set().contains(q1[0]));
        assert(q2.to_set().contains(q2[0]));
        let j2 = choose|j: int| 0 <= j < q2.len() && q2[j] == q1[0];
        let j1 = choose|j: int| 0 <= j < q1.len() && q1[j] == q2[0];
        if j2 > 0 {
            assert(q2[0] < q2[j2]);
            if j1 > 0 {
                assert(q1[0] < q1[j1]);
            }
        }
        assert(q1[0] == q2[0]) by {
            if j1 > 0 {
                assert(q1[0] < q1[j1]);
                assert(q2[0] <= q2[j2]);
            }
        }
        let t1 = q1.drop_first();
        let t2 = q2.drop_first();
        assert forall|x: int| t1.to_set().contains(x) <==> t2.to_set().contains(x) by {
            if t1.to_set().contains(x) {
                let a = choose|a: int| 0 <= a < t1.len() && t1[a] == x;
                assert(q1[a + 1] == x);
                assert(q1[0] < x);
                assert(q1.to_set().contains(x));
                let b = choose|b: int| 0 <= b < q2.len() && q2[b] == x;
                assert(b != 0);
                assert(t2[b - 1] == x);
            }
            if t2.to_set().contains(x) {
                let a = choose|a: int| 0 <= a < t2.len() && t2[a] == x;
                assert(q2[a + 1] == x);
                assert(q2[0] < x);
                assert(q2.to_set().contains(x));
                let b = choose|b: int| 0 <= b < q1.len() && q1[b] == x;
                assert(b != 0);
                assert(t1[b - 1] == x);
            }
        }
        assert(t1.to_set() =~= t2.to_set());
        lemma_increasing_unique(t1, t2);
        assert(q1 =~= q2) by {
            assert forall|i: int| 0 <= i < q1.len() implies q1[i] == q2[i] by {
                if i > 0 {
                    assert(t1[i - 1] == t2[i - 1]);
                }
            }
        }
    }
}

/// A range decomposition of `s` enumerates `s` in increasing order: its
/// flattening is `addrs(s)`, and `s` is finite with that many addresses.
pub proof fn lemma_covers(r: Seq<(usize, usize)>, s: Set<int>)
    requires
        covers(r, s),
    ensures
        flatten(r) == addrs(s),
        increasing(addrs(s)),
        addrs(s).to_set() == s,
        s.finite(),
        s.len() == flatten(r).len(),
        forall|i: int| #[trigger] s.contains(i) ==> 0 <= i < usize::MAX,
        enumerable(s),
{
    lemma_flatten_bounds(r);
    let q = flatten(r);
    assert(q.to_set() =~= s) by {
        assert forall|i: int| q.to_set().contains(i) <==> s.contains(i) by {}
    }
    assert(increasing(q) && q.to_set() == s);
    let c = addrs(s);
    assert(increasing(c) && c.to_set() == s);
    lemma_increasing_unique(q, c);
    assert(q.no_duplicates()) by {
        assert forall|a: int, b: int| 0 <= a < q.len() && 0 <= b < q.len() && a != b implies
            q[a] != q[b] by {
            if a < b {
                assert(q[a] < q[b]);
            } else {
                assert(q[b] < q[a]);
            }
        }
    }
    q.unique_seq_to_set();
    assert forall|i: int| #[trigger] s.contains(i) implies 0 <= i < usize::MAX by {
        let k = choose|k: int| 0 <= k < r.len() && #[trigger] r[k].0 <= i && i < r[k].1;
    }
    assert forall|j: int| 0 <= j < addrs(s).len() implies 0 <= #[trigger] addrs(s)[j] < usize::MAX by {
        assert(addrs(s).to_set().contains(addrs(s)[j]));
    }
}

} // verus!
