//! Virtual-machine memory: pointers, slices and the typed views over them.
use vstd::prelude::*;
use core::cmp::Ordering;
use core::marker::PhantomData;
use vstd::std_specs::cmp::PartialOrdSpecImpl;
use rangeset::set::RangeSet;

use crate::decode::{DecodeFuture, DecodeFutureTyped};
use crate::range_set::{interval, rs_empty, rs_from_range, rs_union, rs_view};

verus! {

/// Memory pointer, ordered by address.
#[derive(Debug, Clone, Copy, PartialEq, Eq, Structural, Ord, Hash)]
pub struct Ptr(pub(crate) usize);

impl PartialOrd for Ptr {
    fn partial_cmp(&self, other: &Ptr) -> (r: Option<Ordering>) {
        if self.0 < other.0 {
            Some(Ordering::Less)
        } else if self.0 == other.0 {
            Some(Ordering::Equal)
        } else {
            Some(Ordering::Greater)
        }
    }
}

impl PartialOrdSpecImpl for Ptr {
    open spec fn obeys_partial_cmp_spec() -> bool {
        true
    }

    open spec fn partial_cmp_spec(&self, other: &Ptr) -> Option<Ordering> {
        if self.addr() < other.addr() {
            Some(Ordering::Less)
        } else if self.addr() == other.addr() {
            Some(Ordering::Equal)
        } else {
            Some(Ordering::Greater)
        }
    }
}

impl Ptr {
    /// The address the pointer points to.
    pub open(crate) spec fn addr(self) -> int {
        self.0 as int
    }

    /// Creates a pointer to `ptr`.
    pub fn new(ptr: usize) -> (r: Self)
        ensures
            r.addr() == ptr,
    {
        Self(ptr)
    }

    /// Returns the pointer as a `usize`.
    pub fn as_usize(&self) -> (r: usize)
        ensures
            r == self.addr(),
    {
        self.0
    }
}

/// A slice of contiguous memory.
#[derive(Debug, Clone, Copy, PartialEq, Eq, Structural, Hash)]
pub struct Slice {
    pub(crate) ptr: Ptr,
    pub(crate) size: usize,
}

impl Slice {
    /// The first address of the slice.
    pub open(crate) spec fn start(self) -> int {
        self.ptr.0 as int
    }

    /// The number of addresses in the slice.
    pub open(crate) spec fn size(self) -> nat {
        self.size as nat
    }

    /// One past the last address of the slice.
    pub open spec fn end(self) -> int {
        self.start() + self.size()
    }

    /// The addresses of the slice.
    pub open spec fn addrs(self) -> Set<int> {
        interval(self.start(), self.end())
    }

    /// The slice's end address fits in a `usize`.
    pub open spec fn fits(self) -> bool {
        self.end() <= usize::MAX
    }

    /// Creates a new slice.
    ///
    /// Do not use this unless you know what you're doing. It will cause bugs
    /// and break security.
    pub fn new_unchecked(ptr: Ptr, size: usize) -> (r: Self)
        ensures
            r.start() == ptr.addr(),
            r.size() == size,
    {
        Self { ptr, size }
    }

    /// Creates a new slice from a range.
    ///
    /// Do not use this unless you know what you're doing. It will cause bugs
    /// and break security.
    pub fn from_range_unchecked(range: core::ops::Range<usize>) -> (r: Self)
        ensures
            r.start() == range.start,
            r.size() == if range.start < range.end { range.end - range.start } else { 0 },
    {
        let size = if range.start < range.end { range.end - range.start } else { 0 };
        Self { ptr: Ptr::new(range.start), size }
    }

    /// Creates the slice `[start, end)`.
    pub(crate) fn from_bounds(start: usize, end: usize) -> (r: Self)
        requires
            start <= end,
        ensures
            r.start() == start,
            r.end() == end,
            r.fits(),
    {
        Self { ptr: Ptr::new(start), size: end - start }
    }

    /// Returns a pointer to the start of slice.
    pub fn ptr(&self) -> (r: Ptr)
        ensures
            r.addr() == self.start(),
    {
        self.ptr
    }

    /// Returns the length of the slice.
    pub fn len(&self) -> (r: usize)
        ensures
            r == self.size(),
    {
        self.size
    }

    /// Returns the memory range of the slice.
    pub fn to_range(&self) -> (r: core::ops::Range<usize>)
        requires
            self.fits(),
        ensures
            r.start == self.start(),
            r.end == self.end(),
    {
        self.ptr.0..self.ptr.0 + self.size
    }

    /// Returns the slice's addresses as a set.
    pub fn to_range_set(&self) -> (r: RangeSet<usize>)
        requires
            self.fits(),
        ensures
            rs_view(r) == self.addrs(),
    {
        rs_from_range(self.ptr.0, self.ptr.0 + self.size)
    }

    /// Returns a `RangeSet` of the slices.
    pub fn to_rangeset(slices: Vec<Slice>) -> (r: RangeSet<usize>)
        requires
            forall|k: int| 0 <= k < slices.len() ==> (#[trigger] slices[k]).fits(),
        ensures
            forall|i: int|
                rs_view(r).contains(i) <==> exists|k: int|
                    0 <= k < slices.len() && (#[trigger] slices[k]).addrs().contains(i),
    {
        let mut set = rs_empty();
        let mut k: usize = 0;
        while k < slices.len()
            invariant
                k <= slices.len(),
                forall|j: int| 0 <= j < slices.len() ==> (#[trigger] slices[j]).fits(),
                forall|i: int|
                    rs_view(set).contains(i) <==> exists|j: int|
                        0 <= j < k && (#[trigger] slices[j]).addrs().contains(i),
            decreases slices.len() - k,
        {
            let one = slices[k].to_range_set();
            rs_union(&mut set, &one);
            proof {
                assert forall|i: int|
                    rs_view(set).contains(i) <==> exists|j: int|
                        0 <= j < k + 1 && (#[trigger] slices[j]).addrs().contains(i) by {
                    if rs_view(set).contains(i) && !rs_view(one).contains(i) {
                        let j = choose|j: int| 0 <= j < k && (#[trigger] slices[j]).addrs().contains(i);
                    }
                    if exists|j: int| 0 <= j < k + 1 && (#[trigger] slices[j]).addrs().contains(i) {
                        let j = choose|j: int| 0 <= j < k + 1 && (#[trigger] slices[j]).addrs().contains(i);
                        if j < k {
                        } else {
                            assert(slices[j as int] == slices[k as int]);
                        }
                    }
                }
            }
            k = k + 1;
        }
        set
    }
}

/// A type of memory: what a raw value of it holds.
pub trait MemoryType {
    /// Raw memory type.
    type Raw;
}

/// A value that refers to a slice of memory.
pub trait ToRaw {
    /// The slice the value refers to.
    spec fn raw(&self) -> Slice;

    /// Returns the underlying raw memory slice.
    fn to_raw(&self) -> (r: Slice)
        ensures
            r == self.raw(),
    ;
}

/// A value that can be made from a slice of memory.
pub trait FromRaw: Sized {
    /// The value made from `slice`.
    spec fn from_raw_spec(slice: Slice) -> Self;

    /// Creates a new value from a raw memory slice.
    fn from_raw(slice: Slice) -> (r: Self)
        ensures
            r == Self::from_raw_spec(slice),
    ;
}

/// Both results succeed with the same value, or both fail.
pub open spec fn same_outcome<V, E1, E2>(a: Result<V, E1>, b: Result<V, E2>) -> bool {
    match (a, b) {
        (Ok(x), Ok(y)) => x == y,
        (Err(_), Err(_)) => true,
        _ => false,
    }
}

/// The typed outcome of an allocation: the value made from the allocated
/// slice, or the same error.
pub open spec fn typed_alloc<R: FromRaw, E>(s: Result<Slice, E>) -> Result<R, E> {
    match s {
        Ok(slice) => Ok(R::from_raw_spec(slice)),
        Err(e) => Err(e),
    }
}

/// The typed outcome of a decoding: a typed future around the raw future,
/// or the same error.
pub open spec fn typed_decode<T: MemoryType, C: ClearValue<T>, E>(
    s: Result<DecodeFuture<T::Raw>, E>,
    r: Result<DecodeFutureTyped<T, C>, E>,
) -> bool {
    match (s, r) {
        (Ok(f), Ok(t)) => t.future() == f,
        (Err(a), Err(b)) => a == b,
        _ => false,
    }
}

/// A typed value in memory of type `T`.
pub trait Repr<T: MemoryType>: FromRaw + ToRaw {
    /// The number of memory cells the value occupies.
    const SIZE: usize;

    /// The clear value type.
    type Clear: ClearValue<T>;
}

/// A clear value that can be stored in memory of type `T`.
pub trait ClearValue<T: MemoryType>: Sized {
    /// Whether `raw` is the raw clear value of `self`.
    spec fn is_clear_of(&self, raw: T::Raw) -> bool;

    /// Whether `raw` has the shape of a raw clear value of this type.
    spec fn fits_raw(raw: T::Raw) -> bool;

    /// Converts `self` into a raw clear value.
    fn into_clear(self) -> (r: T::Raw)
        ensures
            self.is_clear_of(r),
            Self::fits_raw(r),
    ;

    /// Converts a raw clear value into `Self`.
    fn from_clear(value: T::Raw) -> (r: Self)
        ensures
            Self::fits_raw(value) ==> r.is_clear_of(value),
    ;

    /// A raw clear value is the raw clear value of at most one value, so
    /// converting a value to raw and back gives the value.
    proof fn lemma_clear_unique(a: Self, b: Self, raw: T::Raw)
        requires
            a.is_clear_of(raw),
            b.is_clear_of(raw),
        ensures
            a == b,
    ;
}

/// Virtual-machine memory.
pub trait Memory<T: MemoryType> {
    /// Memory error type.
    type Error;

    /// The memory is well formed.
    spec fn memory_wf(&self) -> bool;

    /// `size` more cells can be allocated.
    spec fn can_alloc(&self, size: usize) -> bool;

    /// What allocating `size` cells does: from `old` to `new`, with result `r`.
    spec fn alloc_post(old: &Self, new: &Self, size: usize, r: Result<Slice, Self::Error>) -> bool;

    /// What assigning `data` to `slice` does.
    spec fn assign_post(old: &Self, new: &Self, slice: Slice, data: T::Raw, r: Result<(), Self::Error>) -> bool;

    /// What committing `slice` does.
    spec fn commit_post(old: &Self, new: &Self, slice: Slice, r: Result<(), Self::Error>) -> bool;

    /// What decoding `slice` does.
    spec fn decode_post(
        old: &Self,
        new: &Self,
        slice: Slice,
        r: Result<DecodeFuture<T::Raw>, Self::Error>,
    ) -> bool;

    /// Allocates a new slice of memory.
    fn alloc_raw(&mut self, size: usize) -> (r: Result<Slice, Self::Error>)
        requires
            old(self).memory_wf(),
            old(self).can_alloc(size),
        ensures
            final(self).memory_wf(),
            Self::alloc_post(&*old(self), &*final(self), size, r),
    ;

    /// Assigns data to the slice.
    fn assign_raw(&mut self, slice: Slice, data: T::Raw) -> (r: Result<(), Self::Error>)
        requires
            old(self).memory_wf(),
            slice.fits(),
        ensures
            final(self).memory_wf(),
            Self::assign_post(&*old(self), &*final(self), slice, data, r),
    ;

    /// Commits the slice of memory.
    fn commit_raw(&mut self, slice: Slice) -> (r: Result<(), Self::Error>)
        requires
            old(self).memory_wf(),
            slice.fits(),
        ensures
            final(self).memory_wf(),
            Self::commit_post(&*old(self), &*final(self), slice, r),
    ;

    /// Decodes data from memory.
    ///
    /// Returns a future which will resolve to the value when it is ready.
    fn decode_raw(&mut self, slice: Slice) -> (r: Result<DecodeFuture<T::Raw>, Self::Error>)
        requires
            old(self).memory_wf(),
            slice.fits(),
        ensures
            final(self).memory_wf(),
            Self::decode_post(&*old(self), &*final(self), slice, r),
    ;
}

/// Extension trait for [`Memory`].
pub trait MemoryExt<T: MemoryType>: Memory<T> {
    /// Allocates a new value.
    fn alloc_value<R: Repr<T>>(&mut self) -> (r: Result<R, Self::Error>)
        requires
            old(self).memory_wf(),
            old(self).can_alloc(R::SIZE),
        ensures
            final(self).memory_wf(),
            exists|s: Result<Slice, Self::Error>|
                #[trigger] Self::alloc_post(&*old(self), &*final(self), R::SIZE, s) && r == typed_alloc::<R, Self::Error>(s),
    {
        match self.alloc_raw(R::SIZE) {
            Ok(slice) => Ok(R::from_raw(slice)),
            Err(e) => Err(e),
        }
    }

    /// Assigns the value to memory.
    fn assign<R: Repr<T>>(&mut self, value: R, clear: R::Clear) -> (r: Result<(), Self::Error>)
        requires
            old(self).memory_wf(),
            value.raw().fits(),
        ensures
            final(self).memory_wf(),
            exists|raw: T::Raw|
                #[trigger] Self::assign_post(&*old(self), &*final(self), value.raw(), raw, r)
                    && clear.is_clear_of(raw) && <R::Clear as ClearValue<T>>::fits_raw(raw),
    {
        self.assign_raw(value.to_raw(), clear.into_clear())
    }

    /// Commits the value to memory.
    fn commit<R: Repr<T>>(&mut self, value: R) -> (r: Result<(), Self::Error>)
        requires
            old(self).memory_wf(),
            value.raw().fits(),
        ensures
            final(self).memory_wf(),
            Self::commit_post(&*old(self), &*final(self), value.raw(), r),
    {
        self.commit_raw(value.to_raw())
    }

    /// Decodes the value.
    ///
    /// Returns a future which will resolve to the value when it is ready.
    fn decode<R: Repr<T>>(&mut self, value: R) -> (r: Result<
        DecodeFutureTyped<T, R::Clear>,
        Self::Error,
    >)
        requires
            old(self).memory_wf(),
            value.raw().fits(),
        ensures
            final(self).memory_wf(),
            exists|s: Result<DecodeFuture<T::Raw>, Self::Error>|
                #[trigger] Self::decode_post(&*old(self), &*final(self), value.raw(), s)
                    && typed_decode::<T, R::Clear, Self::Error>(s, r),
    {
        match self.decode_raw(value.to_raw()) {
            Ok(fut) => Ok(DecodeFutureTyped::new(fut)),
            Err(e) => Err(e),
        }
    }
}

impl<T: MemoryType, M: Memory<T>> MemoryExt<T> for M {

}

/// Two-party memory view.
pub trait View {
    /// View error type.
    type Error;

    /// The view is well formed.
    spec fn view_wf(&self) -> bool;

    /// What marking `slice` as public does.
    spec fn mark_public_post(old: &Self, new: &Self, slice: Slice, r: Result<(), Self::Error>) -> bool;

    /// What marking `slice` as private does.
    spec fn mark_private_post(old: &Self, new: &Self, slice: Slice, r: Result<(), Self::Error>) -> bool;

    /// What marking `slice` as blind does.
    spec fn mark_blind_post(old: &Self, new: &Self, slice: Slice, r: Result<(), Self::Error>) -> bool;

    /// Marks the slice as public.
    fn mark_public_raw(&mut self, slice: Slice) -> (r: Result<(), Self::Error>)
        requires
            old(self).view_wf(),
            slice.fits(),
        ensures
            final(self).view_wf(),
            Self::mark_public_post(&*old(self), &*final(self), slice, r),
    ;

    /// Marks the slice as private.
    fn mark_private_raw(&mut self, slice: Slice) -> (r: Result<(), Self::Error>)
        requires
            old(self).view_wf(),
            slice.fits(),
        ensures
            final(self).view_wf(),
            Self::mark_private_post(&*old(self), &*final(self), slice, r),
    ;

    /// Marks the slice as blind.
    fn mark_blind_raw(&mut self, slice: Slice) -> (r: Result<(), Self::Error>)
        requires
            old(self).view_wf(),
            slice.fits(),
        ensures
            final(self).view_wf(),
            Self::mark_blind_post(&*old(self), &*final(self), slice, r),
    ;
}

/// Extension trait for [`View`].
pub trait ViewExt: View {
    /// Marks the value as public.
    fn mark_public<R: ToRaw>(&mut self, value: R) -> (r: Result<(), Self::Error>)
        requires
            old(self).view_wf(),
            value.raw().fits(),
        ensures
            final(self).view_wf(),
            Self::mark_public_post(&*old(self), &*final(self), value.raw(), r),
    {
        self.mark_public_raw(value.to_raw())
    }

    /// Marks the value as private.
    fn mark_private<R: ToRaw>(&mut self, value: R) -> (r: Result<(), Self::Error>)
        requires
            old(self).view_wf(),
            value.raw().fits(),
        ensures
            final(self).view_wf(),
            Self::mark_private_post(&*old(self), &*final(self), value.raw(), r),
    {
        self.mark_private_raw(value.to_raw())
    }

    /// Marks the value as blind.
    fn mark_blind<R: ToRaw>(&mut self, value: R) -> (r: Result<(), Self::Error>)
        requires
            old(self).view_wf(),
            value.raw().fits(),
        ensures
            final(self).view_wf(),
            Self::mark_blind_post(&*old(self), &*final(self), value.raw(), r),
    {
        self.mark_blind_raw(value.to_raw())
    }
}

impl<M: View> ViewExt for M {

}

/// An array of `N` values of `T`.
#[derive(Debug)]
pub struct Array<T, const N: usize> {
    slice: Slice,
    _pd: PhantomData<T>,
}

impl<T, const N: usize> Clone for Array<T, N> {
    fn clone(&self) -> (r: Self)
        ensures
            r == *self,
    {
        *self
    }
}

impl<T, const N: usize> Copy for Array<T, N> {

}

impl<T, const N: usize> FromRaw for Array<T, N> {
    closed spec fn from_raw_spec(slice: Slice) -> Self {
        Array { slice, _pd: PhantomData }
    }

    fn from_raw(slice: Slice) -> (r: Self)
        ensures
            r.raw() == slice,
    {
        Self { slice, _pd: PhantomData }
    }
}

impl<T, const N: usize> ToRaw for Array<T, N> {
    closed spec fn raw(&self) -> Slice {
        self.slice
    }

    fn to_raw(&self) -> (r: Slice) {
        self.slice
    }
}

impl<T: Repr<R>, R: MemoryType, const N: usize> Repr<R> for Array<T, N> where
    [T::Clear; N]: ClearValue<R>,
 {
    const SIZE: usize = T::SIZE * N;

    type Clear = [T::Clear; N];
}

/// A vector of values of `T`.
#[derive(Debug)]
pub struct Vector<T> {
    ptr: Ptr,
    len: usize,
    _pd: PhantomData<T>,
}

impl<T> Clone for Vector<T> {
    fn clone(&self) -> (r: Self)
        ensures
            r == *self,
    {
        *self
    }
}

impl<T> Copy for Vector<T> {

}

} // verus!
