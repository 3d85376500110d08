//! A growable store of memory cells, each of which is either set or not.
use vstd::prelude::*;
use rangeset::set::RangeSet;

use crate::memory::Slice;
use crate::range_set::{
    addrs, covers, enumerable, flatten, in_ranges, interval, lemma_covers, lemma_flatten_push, range_seq, rs_empty,
    rs_is_subset, rs_ranges, rs_union, rs_view,
};

verus! {

/// Error of a [`CellStore`] operation.
#[derive(Debug, Clone, Copy, PartialEq, Eq, Structural)]
pub enum StoreError {
    /// The slice reaches past the allocated memory.
    OutOfBounds { slice: Slice },
    /// Some cell of the slice is not set.
    Uninit { slice: Slice },
    /// The number of values differs from the length of the slice.
    LengthMismatch { expected: usize, actual: usize },
}

/// A store of memory cells of type `T`, each of which is set or not.
pub struct CellStore<T> {
    pub(crate) cells: Vec<T>,
    pub(crate) set: RangeSet<usize>,
}

/// A store of bits.
pub type BitStore = CellStore<bool>;

impl<T: Copy> CellStore<T> {
    /// The values of the cells, set or not.
    pub open(crate) spec fn cells(&self) -> Seq<T> {
        self.cells@
    }

    /// The addresses of the cells that are set.
    pub open(crate) spec fn set_addrs(&self) -> Set<int> {
        rs_view(self.set)
    }

    /// The number of allocated cells.
    pub open(crate) spec fn size(&self) -> nat {
        self.cells@.len()
    }

    /// Only allocated cells are set.
    pub open(crate) spec fn wf(&self) -> bool {
        self.set_addrs().subset_of(interval(0, self.size() as int))
    }

    /// Creates an empty store.
    pub fn new() -> (r: Self)
        ensures
            r.wf(),
            r.cells() == Seq::<T>::empty(),
            r.set_addrs() == Set::<int>::empty(),
    {
        Self { cells: Vec::new(), set: rs_empty() }
    }

    /// Returns the number of allocated cells.
    pub fn len(&self) -> (r: usize)
        ensures
            r == self.size(),
    {
        self.cells.len()
    }

    /// Allocates `size` unset cells holding `fill`, returning their slice.
    pub fn allocate(&mut self, size: usize, fill: T) -> (slice: Slice)
        requires
            old(self).wf(),
            old(self).size() + size <= usize::MAX,
        ensures
            final(self).wf(),
            slice.start() == old(self).size(),
            slice.size() == size,
            slice.fits(),
            final(self).cells() == old(self).cells() + Seq::new(size as nat, |i: int| fill),
            final(self).set_addrs() == old(self).set_addrs(),
    {
        let start = self.cells.len();
        let mut i: usize = 0;
        while i < size
            invariant
                i <= size,
                self.cells@ == old(self).cells@ + Seq::new(i as nat, |j: int| fill),
                self.set == old(self).set,
                start == old(self).cells@.len(),
                old(self).size() + size <= usize::MAX,
            decreases size - i,
        {
            self.cells.push(fill);
            assert(self.cells@ =~= old(self).cells@ + Seq::new((i + 1) as nat, |j: int| fill));
            i = i + 1;
        }
        Slice::from_bounds(start, start + size)
    }

    /// Allocates set cells holding `values`, returning their slice.
    pub fn alloc_with(&mut self, values: &[T]) -> (slice: Slice)
        requires
            old(self).wf(),
            old(self).size() + values.len() <= usize::MAX,
        ensures
            final(self).wf(),
            slice.start() == old(self).size(),
            slice.size() == values.len(),
            slice.fits(),
            final(self).cells() == old(self).cells() + values@,
            final(self).set_addrs() == old(self).set_addrs().union(slice.addrs()),
    {
        let start = self.cells.len();
        let mut i: usize = 0;
        while i < values.len()
            invariant
                i <= values.len(),
                self.cells@ == old(self).cells@ + values@.take(i as int),
                self.set == old(self).set,
                start == old(self).cells@.len(),
                old(self).size() + values.len() <= usize::MAX,
            decreases values.len() - i,
        {
            self.cells.push(values[i]);
            assert(values@.take(i + 1) =~= values@.take(i as int).push(values@[i as int]));
            i = i + 1;
        }
        assert(values@.take(values.len() as int) =~= values@);
        let slice = Slice::from_bounds(start, start + values.len());
        let added = slice.to_range_set();
        rs_union(&mut self.set, &added);
        slice
    }

    /// Returns whether every cell of the slice is set.
    pub fn is_set(&self, slice: Slice) -> (r: bool)
        requires
            self.wf(),
        ensures
            r == slice.addrs().subset_of(self.set_addrs()),
    {
        let n = self.cells.len();
        if slice.ptr.0 > usize::MAX - slice.size {
            proof {
                assert(slice.addrs().contains(usize::MAX as int));
                assert(!self.set_addrs().contains(usize::MAX as int));
            }
            false
        } else {
            let range = slice.to_range_set();
            rs_is_subset(&range, &self.set)
        }
    }

    /// Returns the values of the slice if all its cells are set.
    pub fn try_get(&self, slice: Slice) -> (r: Result<Vec<T>, StoreError>)
        requires
            self.wf(),
        ensures
            r is Ok <==> slice.addrs().subset_of(self.set_addrs()),
            r matches Ok(v) ==> v@ == Seq::new(slice.size(), |i: int| self.cells()[slice.start() + i]),
            r is Ok && slice.size() > 0 ==> slice.end() <= self.size(),
            r matches Err(e) ==> e == (StoreError::Uninit { slice }),
    {
        if !self.is_set(slice) {
            return Err(StoreError::Uninit { slice });
        }
        if slice.size == 0 {
            let empty: Vec<T> = Vec::new();
            assert(empty@ =~= Seq::new(slice.size(), |i: int| self.cells()[slice.start() + i]));
            return Ok(empty);
        }
        let n = self.cells.len();
        proof {
            assert(slice.addrs().contains(slice.end() - 1));
            assert(slice.end() <= n);
        }
        let start = slice.ptr.0;
        let end = start + slice.size;
        let mut out: Vec<T> = Vec::new();
        let mut i: usize = start;
        while i < end
            invariant
                start <= i <= end,
                end <= self.cells@.len(),
                out@ == self.cells@.subrange(start as int, i as int),
            decreases end - i,
        {
            out.push(self.cells[i]);
            assert(self.cells@.subrange(start as int, i + 1) =~= self.cells@.subrange(
                start as int,
                i as int,
            ).push(self.cells@[i as int]));
            i = i + 1;
        }
        assert(out@ =~= Seq::new(slice.size(), |i: int| self.cells()[slice.start() + i]));
        Ok(out)
    }

    /// Sets the cells of the slice to `values`.
    pub fn try_set(&mut self, slice: Slice, values: &[T]) -> (r: Result<(), StoreError>)
        requires
            old(self).wf(),
        ensures
            final(self).wf(),
            r is Ok <==> (slice.end() <= old(self).size() && values.len() == slice.size()),
            r is Ok ==> final(self).cells() == old(self).cells().take(slice.start()) + values@
                + old(self).cells().skip(slice.end()),
            r is Ok ==> final(self).set_addrs() == old(self).set_addrs().union(slice.addrs()),
            r is Err ==> *final(self) == *old(self),
            r matches Err(e) ==> e == (if slice.end() > old(self).size() {
                StoreError::OutOfBounds { slice }
            } else {
                StoreError::LengthMismatch { expected: slice.size() as usize, actual: values.len() }
            }),
    {
        if slice.ptr.0 > self.cells.len() || slice.size > self.cells.len() - slice.ptr.0 {
            return Err(StoreError::OutOfBounds { slice });
        }
        if values.len() != slice.size {
            return Err(StoreError::LengthMismatch { expected: slice.size, actual: values.len() });
        }
        let start = slice.ptr.0;
        let end = start + slice.size;
        let mut i: usize = 0;
        while i < slice.size
            invariant
                start + slice.size == end,
                end <= self.cells@.len(),
                values.len() == slice.size,
                i <= slice.size,
                self.cells@.len() == old(self).cells@.len(),
                self.cells@ == old(self).cells@.take(start as int) + values@.take(i as int)
                    + old(self).cells@.skip(start + i),
                self.set == old(self).set,
            decreases slice.size - i,
        {
            self.cells.set(start + i, values[i]);
            assert(self.cells@ =~= old(self).cells@.take(start as int) + values@.take(i + 1)
                + old(self).cells@.skip(start + i + 1));
            i = i + 1;
        }
        assert(values@.take(slice.size as int) =~= values@);
        let added = slice.to_range_set();
        rs_union(&mut self.set, &added);
        Ok(())
    }

    /// Returns the values of all addresses of `ranges`, in increasing address
    /// order, if all of them are set.
    pub fn gather(&self, ranges: &RangeSet<usize>) -> (r: Result<Vec<T>, StoreError>)
        requires
            self.wf(),
        ensures
            enumerable(rs_view(*ranges)),
            r is Ok <==> rs_view(*ranges).subset_of(self.set_addrs()),
            r matches Ok(v) ==> v@ == addrs(rs_view(*ranges)).map_values(
                |a: int| self.cells()[a],
            ),
            r matches Err(e) ==> e is Uninit,
    {
        let rs = rs_ranges(ranges);
        let ghost s = rs_view(*ranges);
        proof {
            lemma_covers(rs@, s);
        }
        let mut out: Vec<T> = Vec::new();
        let mut k: usize = 0;
        while k < rs.len()
            invariant
                self.wf(),
                s == rs_view(*ranges),
                covers(rs@, s),
                enumerable(s),
                k <= rs.len(),
                out@ == flatten(rs@.take(k as int)).map_values(|a: int| self.cells()[a]),
                forall|m: int| 0 <= m < k ==> interval(rs@[m].0 as int, rs@[m].1 as int).subset_of(
                    self.set_addrs(),
                ),
            decreases rs.len() - k,
        {
            let (a, b) = rs[k];
            let slice = Slice::from_bounds(a, b);
            match self.try_get(slice) {
                Ok(vals) => {
                    proof {
                        lemma_flatten_push(rs@, k as int);
                        assert(slice.addrs() == interval(a as int, b as int));
                    }
                    let ghost prev = out@;
                    let mut j: usize = 0;
                    while j < vals.len()
                        invariant
                            j <= vals.len(),
                            vals@ == Seq::new(slice.size(), |i: int| self.cells()[slice.start() + i]),
                            out@ == prev + range_seq(a as int, a + j).map_values(
                                |x: int| self.cells()[x],
                            ),
                            slice.start() == a,
                        decreases vals.len() - j,
                    {
                        out.push(vals[j]);
                        assert(range_seq(a as int, a + j + 1).map_values(|x: int| self.cells()[x])
                            =~= range_seq(a as int, a + j).map_values(|x: int| self.cells()[x]).push(
                            self.cells()[a + j]));
                        j = j + 1;
                    }
                    assert(flatten(rs@.take(k + 1)).map_values(|x: int| self.cells()[x]) =~= prev
                        + range_seq(a as int, b as int).map_values(|x: int| self.cells()[x]));
                },
                Err(e) => {
                    proof {
                        assert(!interval(a as int, b as int).subset_of(self.set_addrs()));
                        let x = choose|x: int|
                            interval(a as int, b as int).contains(x) && !self.set_addrs().contains(
                                x,
                            );
                        assert(rs@[k as int].0 <= x && x < rs@[k as int].1);
                        assert(in_ranges(rs@, x));
                        assert(s.contains(x));
                        assert(!s.subset_of(self.set_addrs()));
                    }
                    return Err(e);
                },
            }
            k = k + 1;
        }
        proof {
            assert(rs@.take(rs.len() as int) =~= rs@);
            assert forall|x: int| s.contains(x) implies self.set_addrs().contains(x) by {
                let m = choose|m: int| 0 <= m < rs@.len() && #[trigger] rs@[m].0 <= x && x < rs@[m].1;
                assert(interval(rs@[m].0 as int, rs@[m].1 as int).contains(x));
            }
        }
        Ok(out)
    }

    /// Sets the addresses of `ranges`, in increasing address order, to the
    /// leading values of `values`.
    pub fn scatter(&mut self, ranges: &RangeSet<usize>, values: &[T]) -> (r: Result<
        (),
        StoreError,
    >)
        requires
            old(self).wf(),
            values.len() >= rs_view(*ranges).len(),
        ensures
            final(self).wf(),
            enumerable(rs_view(*ranges)),
            r is Ok <==> rs_view(*ranges).subset_of(interval(0, old(self).size() as int)),
            r is Ok ==> final(self).size() == old(self).size(),
            r is Ok ==> forall|j: int|
                0 <= j < addrs(rs_view(*ranges)).len() ==> final(self).cells()[#[trigger] addrs(
                    rs_view(*ranges),
                )[j]] == values@[j],
            r is Ok ==> forall|a: int|
                0 <= a < old(self).size() && !rs_view(*ranges).contains(a)
                    ==> final(self).cells()[a] == old(self).cells()[a],
            r is Ok ==> final(self).set_addrs() == old(self).set_addrs().union(rs_view(*ranges)),
            r is Err ==> *final(self) == *old(self),
            r matches Err(e) ==> e is OutOfBounds,
    {
        let rs = rs_ranges(ranges);
        let ghost s = rs_view(*ranges);
        proof {
            lemma_covers(rs@, s);
        }
        let n = rs.len();
        if n > 0 && rs[n - 1].1 > self.cells.len() {
            let (a, b) = rs[n - 1];
            proof {
                assert(in_ranges(rs@, b - 1));
                assert(s.contains(b - 1));
            }
            return Err(StoreError::OutOfBounds { slice: Slice::from_bounds(a, b) });
        }
        proof {
            assert forall|x: int| s.contains(x) implies interval(0, old(self).size() as int).contains(
                x,
            ) by {
                let m = choose|m: int| 0 <= m < rs@.len() && #[trigger] rs@[m].0 <= x && x < rs@[m].1;
                if m < n - 1 {
                    assert(rs@[m].1 < rs@[n - 1].0);
                }
            }
        }
        let mut i: usize = 0;
        let mut k: usize = 0;
        while k < n
            invariant
                s == rs_view(*ranges),
                covers(rs@, s),
                flatten(rs@) == addrs(s),
                n == rs.len(),
                k <= n,
                s.subset_of(interval(0, old(self).size() as int)),
                values.len() >= flatten(rs@).len(),
                i == flatten(rs@.take(k as int)).len(),
                self.cells@.len() == old(self).cells@.len(),
                self.set == old(self).set,
                forall|j: int|
                    0 <= j < i ==> self.cells@[#[trigger] flatten(rs@.take(k as int))[j]]
                        == values@[j],
                forall|a: int|
                    0 <= a < old(self).size() && !in_ranges(rs@.take(k as int), a) ==> self.cells@[a]
                        == old(self).cells@[a],
            decreases n - k,
        {
            let (a, b) = rs[k];
            proof {
                lemma_flatten_push(rs@, k as int);
                assert(flatten(rs@.take(k as int + 1)).len() <= flatten(rs@).len()) by {
                    lemma_flatten_prefix(rs@, k as int + 1);
                }
                assert(s.contains(b - 1)) by {
                    assert(in_ranges(rs@, b - 1));
                }
            }
            let ghost before = self.cells@;
            let ghost prefix = flatten(rs@.take(k as int));
            let mut x: usize = a;
            while x < b
                invariant
                    a <= x <= b,
                    b <= self.cells@.len(),
                    i == prefix.len() + (x - a),
                    i <= values.len() + 0,
                    prefix.len() + (b - a) <= values.len(),
                    self.cells@.len() == before.len(),
                    self.set == old(self).set,
                    forall|y: int| a <= y < x ==> #[trigger] self.cells@[y] == values@[prefix.len() + (y - a)],
                    forall|y: int| 0 <= y < self.cells@.len() && !(a <= y < x) ==> #[trigger] self.cells@[y] == before[y],
                decreases b - x,
            {
                self.cells.set(x, values[i]);
                i = i + 1;
                x = x + 1;
            }
            proof {
                let next = flatten(rs@.take(k as int + 1));
                assert(next == prefix + range_seq(a as int, b as int));
                assert forall|j: int| 0 <= j < i implies self.cells@[#[trigger] next[j]]
                    == values@[j] by {
                    if j < prefix.len() {
                        assert(next[j] == prefix[j]);
                        lemma_flatten_lt(rs@, k as int, j);
                        assert(before[prefix[j]] == values@[j]);
                        assert(0 <= prefix[j]) by {
                            lemma_flatten_in(rs@.take(k as int), j);
                            let m = choose|m: int| 0 <= m < k && #[trigger] rs@.take(k as int)[m].0 <= prefix[j] && prefix[j] < rs@.take(k as int)[m].1;
                        }
                    } else {
                        assert(next[j] == a + (j - prefix.len()));
                    }
                }
                assert forall|y: int|
                    0 <= y < old(self).size() && !in_ranges(rs@.take(k as int + 1), y) implies self.cells@[y]
                    == old(self).cells@[y] by {
                    assert(!in_ranges(rs@.take(k as int), y)) by {
                        if in_ranges(rs@.take(k as int), y) {
                            let m = choose|m: int| 0 <= m < k && #[trigger] rs@.take(k as int)[m].0 <= y && y < rs@.take(k as int)[m].1;
                            assert(rs@.take(k as int + 1)[m] == rs@.take(k as int)[m]);
                        }
                    }
                    if a <= y < b {
                        assert(rs@.take(k as int + 1)[k as int] == rs@[k as int]);
                    }
                }
            }
            k = k + 1;
        }
        proof {
            assert(rs@.take(n as int) =~= rs@);
        }
        rs_union(&mut self.set, ranges);
        Ok(())
    }

    /// Returns the set cells.
    pub fn set_ranges(&self) -> (r: &RangeSet<usize>)
        ensures
            rs_view(*r) == self.set_addrs(),
    {
        &self.set
    }
}

/// The flattening of a prefix of the ranges is no longer than the whole.
pub proof fn lemma_flatten_prefix(r: Seq<(usize, usize)>, k: int)
    requires
        0 <= k <= r.len(),
        forall|m: int| 0 <= m < r.len() ==> #[trigger] r[m].0 < r[m].1,
    ensures
        flatten(r.take(k)).len() <= flatten(r).len(),
        flatten(r.take(k)) == flatten(r).take(flatten(r.take(k)).len() as int),
    decreases r.len() - k,
{
    if k == r.len() {
        assert(r.take(k) =~= r);
    } else {
        lemma_flatten_push(r, k);
        lemma_flatten_prefix(r, k + 1);
        let fk = flatten(r.take(k));
        let fk1 = flatten(r.take(k + 1));
        assert(fk1 == fk + range_seq(r[k].0 as int, r[k].1 as int));
        assert(fk =~= fk1.take(fk.len() as int));
        assert(fk =~= flatten(r).take(fk.len() as int));
    }
}

/// Addresses flattened from the first `k` ranges lie before `r[k].0`.
proof fn lemma_flatten_lt(r: Seq<(usize, usize)>, k: int, j: int)
    requires
        covers_shape(r),
        0 <= k < r.len(),
        0 <= j < flatten(r.take(k)).len(),
    ensures
        flatten(r.take(k))[j] < r[k].0,
{
    let p = r.take(k);
    lemma_flatten_in(p, j);
    let m = choose|m: int| 0 <= m < p.len() && #[trigger] p[m].0 <= flatten(p)[j] && flatten(p)[j] < p[m].1;
    assert(p[m] == r[m]);
    assert(r[m].1 < r[k].0);
}

/// The ranges are non-empty and sorted with gaps.
pub open spec fn covers_shape(r: Seq<(usize, usize)>) -> bool {
    &&& forall|k: int| 0 <= k < r.len() ==> #[trigger] r[k].0 < r[k].1
    &&& forall|k: int, l: int| 0 <= k < l < r.len() ==> #[trigger] r[k].1 < #[trigger] r[l].0
}

/// Each flattened address lies in one of the ranges.
proof fn lemma_flatten_in(r: Seq<(usize, usize)>, j: int)
    requires
        0 <= j < flatten(r).len(),
        forall|m: int| 0 <= m < r.len() ==> #[trigger] r[m].0 < r[m].1,
    ensures
        in_ranges(r, flatten(r)[j]),
    decreases r.len(),
{
    let p = r.drop_last();
    let fp = flatten(p);
    if j < fp.len() {
        assert(flatten(r)[j] == fp[j]);
        lemma_flatten_in(p, j);
        let m = choose|m: int| 0 <= m < p.len() && #[trigger] p[m].0 <= fp[j] && fp[j] < p[m].1;
        assert(r[m] == p[m]);
        assert(r[m].0 <= flatten(r)[j] && flatten(r)[j] < r[m].1);
    } else {
        let a = r.last().0 as int;
        assert(r[r.len() - 1] == r.last());
        assert(r.last().0 < r.last().1);
        assert(flatten(r)[j] == a + (j - fp.len()));
        assert(r[r.len() - 1].0 <= flatten(r)[j] && flatten(r)[j] < r[r.len() - 1].1);
    }
}

} // verus!
