//! Two-party visibility of memory: each address is public (both parties know
//! it), private (only this party knows it), blind (only the other party knows
//! it), or not yet set.
use vstd::prelude::*;
use rangeset::set::RangeSet;

use crate::memory::Slice;
use crate::range_set::{
    rs_clone, rs_empty, rs_is_disjoint, rs_is_subset, rs_union, rs_view,
};

verus! {

/// The visibility of each address of memory.
pub struct Visibility {
    pub(crate) public: RangeSet<usize>,
    pub(crate) private: RangeSet<usize>,
    pub(crate) blind: RangeSet<usize>,
    pub(crate) size: usize,
}

impl Visibility {
    /// Addresses known to both parties.
    pub open(crate) spec fn public_addrs(&self) -> Set<int> {
        rs_view(self.public)
    }

    /// Addresses known to this party only.
    pub open(crate) spec fn private_addrs(&self) -> Set<int> {
        rs_view(self.private)
    }

    /// Addresses known to the other party only.
    pub open(crate) spec fn blind_addrs(&self) -> Set<int> {
        rs_view(self.blind)
    }

    /// Addresses whose visibility is set.
    pub open spec fn set_addrs(&self) -> Set<int> {
        self.public_addrs().union(self.private_addrs()).union(self.blind_addrs())
    }

    /// Addresses whose value this party knows.
    pub open spec fn visible_addrs(&self) -> Set<int> {
        self.public_addrs().union(self.private_addrs())
    }

    /// The number of allocated addresses.
    pub open(crate) spec fn allocated(&self) -> nat {
        self.size as nat
    }

    /// Each address has at most one visibility.
    pub open spec fn wf(&self) -> bool {
        &&& self.public_addrs().disjoint(self.private_addrs())
        &&& self.public_addrs().disjoint(self.blind_addrs())
        &&& self.private_addrs().disjoint(self.blind_addrs())
    }

    /// Creates a view with no memory.
    pub fn new() -> (r: Self)
        ensures
            r.wf(),
            r.public_addrs() == Set::<int>::empty(),
            r.private_addrs() == Set::<int>::empty(),
            r.blind_addrs() == Set::<int>::empty(),
            r.allocated() == 0,
    {
        Self { public: rs_empty(), private: rs_empty(), blind: rs_empty(), size: 0 }
    }

    /// Allocates `size` more addresses, with no visibility set.
    pub fn allocate(&mut self, size: usize)
        requires
            old(self).allocated() + size <= usize::MAX,
        ensures
            final(self).allocated() == old(self).allocated() + size,
            final(self).public_addrs() == old(self).public_addrs(),
            final(self).private_addrs() == old(self).private_addrs(),
            final(self).blind_addrs() == old(self).blind_addrs(),
    {
        self.size = self.size + size;
    }

    /// Returns the union of the three visibilities.
    fn all(&self) -> (r: RangeSet<usize>)
        ensures
            rs_view(r) == self.set_addrs(),
    {
        let mut all = rs_clone(&self.public);
        rs_union(&mut all, &self.private);
        rs_union(&mut all, &self.blind);
        all
    }

    /// Returns whether the visibility of every address of the slice is set.
    pub fn is_set(&self, slice: Slice) -> (r: bool)
        requires
            slice.fits(),
        ensures
            r == slice.addrs().subset_of(self.set_addrs()),
    {
        let all = self.all();
        rs_is_subset(&slice.to_range_set(), &all)
    }

    /// Returns whether the visibility of any address of the slice is set.
    pub fn is_set_any(&self, slice: Slice) -> (r: bool)
        requires
            slice.fits(),
        ensures
            r == !slice.addrs().disjoint(self.set_addrs()),
    {
        let all = self.all();
        !rs_is_disjoint(&slice.to_range_set(), &all)
    }

    /// Returns whether every address of the slice is public or private.
    pub fn is_visible(&self, slice: Slice) -> (r: bool)
        requires
            slice.fits(),
        ensures
            r == slice.addrs().subset_of(self.visible_addrs()),
    {
        let visible = self.visible();
        rs_is_subset(&slice.to_range_set(), &visible)
    }

    /// Returns whether every address of the slice is public.
    pub fn is_public(&self, slice: Slice) -> (r: bool)
        requires
            slice.fits(),
        ensures
            r == slice.addrs().subset_of(self.public_addrs()),
    {
        rs_is_subset(&slice.to_range_set(), &self.public)
    }

    /// Marks the slice as public.
    pub fn set_public(&mut self, slice: Slice)
        requires
            slice.fits(),
        ensures
            final(self).public_addrs() == old(self).public_addrs().union(slice.addrs()),
            final(self).private_addrs() == old(self).private_addrs(),
            final(self).blind_addrs() == old(self).blind_addrs(),
            final(self).allocated() == old(self).allocated(),
    {
        rs_union(&mut self.public, &slice.to_range_set());
    }

    /// Marks the slice as private.
    pub fn set_private(&mut self, slice: Slice)
        requires
            slice.fits(),
        ensures
            final(self).public_addrs() == old(self).public_addrs(),
            final(self).private_addrs() == old(self).private_addrs().union(slice.addrs()),
            final(self).blind_addrs() == old(self).blind_addrs(),
            final(self).allocated() == old(self).allocated(),
    {
        rs_union(&mut self.private, &slice.to_range_set());
    }

    /// Marks the slice as blind.
    pub fn set_blind(&mut self, slice: Slice)
        requires
            slice.fits(),
        ensures
            final(self).public_addrs() == old(self).public_addrs(),
            final(self).private_addrs() == old(self).private_addrs(),
            final(self).blind_addrs() == old(self).blind_addrs().union(slice.addrs()),
            final(self).allocated() == old(self).allocated(),
    {
        rs_union(&mut self.blind, &slice.to_range_set());
    }

    /// Returns the public addresses.
    pub fn public(&self) -> (r: &RangeSet<usize>)
        ensures
            rs_view(*r) == self.public_addrs(),
    {
        &self.public
    }

    /// Returns the private addresses.
    pub fn private(&self) -> (r: &RangeSet<usize>)
        ensures
            rs_view(*r) == self.private_addrs(),
    {
        &self.private
    }

    /// Returns the blind addresses.
    pub fn blind(&self) -> (r: &RangeSet<usize>)
        ensures
            rs_view(*r) == self.blind_addrs(),
    {
        &self.blind
    }

    /// Returns the public and private addresses.
    pub fn visible(&self) -> (r: RangeSet<usize>)
        ensures
            rs_view(r) == self.visible_addrs(),
    {
        let mut visible = rs_clone(&self.public);
        rs_union(&mut visible, &self.private);
        visible
    }
}

} // verus!
