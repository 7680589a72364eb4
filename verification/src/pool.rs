//! The host-tracked half of a growable GPU-resident pool: its logical length,
//! capacity, generation and growth history. Growth allocates a larger buffer,
//! copies the live prefix GPU-to-GPU and retires the old allocation; nothing
//! is read back to grow. The allocations themselves belong to the host program.
use vstd::prelude::*;
use crate::backend::Error;

verus! {

/// Evidence for one host-driven growth step.
#[derive(Clone, Copy, Debug, PartialEq, Eq, Structural)]
pub struct GrowthRecord {
    pub old_capacity: usize,
    pub new_capacity: usize,
    /// Live bytes copied GPU-to-GPU; never read back.
    pub copied_bytes: u64,
}

/// The logical length, capacity, element stride, generation and growth
/// history of one pool.
pub struct PoolState {
    len: usize,
    capacity: usize,
    stride: u32,
    generation: u64,
    growths: Vec<GrowthRecord>,
}

/// The capacity a pool is created with: at least what was asked for, at
/// least the initial elements, and at least one element.
pub open spec fn initial_capacity(len: usize, capacity: usize) -> usize {
    let c = if capacity >= len { capacity } else { len };
    if c >= 1 { c } else { 1 }
}

/// Double `capacity`, saturating at `usize::MAX`.
pub open spec fn doubled_capacity(capacity: usize) -> usize {
    if capacity * 2 > usize::MAX { usize::MAX } else { (capacity * 2) as usize }
}

/// The capacity growth moves to: at least `required`, and at least double
/// the old capacity (saturating at `usize::MAX`).
pub open spec fn grown_capacity(old_capacity: usize, required: usize) -> usize {
    let doubled = doubled_capacity(old_capacity);
    if required >= doubled { required } else { doubled }
}

/// A growth history that ends at `capacity`: each growth enlarges the
/// capacity at least geometrically, starts where the previous one ended, and
/// the last one ends at the current capacity.
pub open spec fn growth_chain(growths: Seq<GrowthRecord>, capacity: usize) -> bool {
    &&& forall|k: int| 0 <= k < growths.len() ==> (#[trigger] growths[k]).old_capacity < growths[k].new_capacity
        && growths[k].new_capacity >= doubled_capacity(growths[k].old_capacity)
    &&& forall|k: int| 0 <= k < growths.len() - 1 ==> (#[trigger] growths[k + 1]).old_capacity == growths[k].new_capacity
    &&& growths.len() > 0 ==> growths.last().new_capacity == capacity
}

impl PoolState {
    /// The pool holds `len` live elements of `capacity` allocated.
    pub closed spec fn spec_len(&self) -> usize {
        self.len
    }

    pub closed spec fn spec_capacity(&self) -> usize {
        self.capacity
    }

    pub closed spec fn spec_stride(&self) -> u32 {
        self.stride
    }

    pub closed spec fn spec_generation(&self) -> u64 {
        self.generation
    }

    pub closed spec fn spec_growths(&self) -> Seq<GrowthRecord> {
        self.growths@
    }

    /// The live elements fit in the allocation, which is never empty; the
    /// generation counts the growths, and the growth history is a chain of
    /// geometric growths that ends at the current capacity.
    pub open spec fn wf(&self) -> bool {
        &&& 1 <= self.spec_capacity() && self.spec_len() <= self.spec_capacity()
        &&& self.spec_generation() == self.spec_growths().len()
        &&& growth_chain(self.spec_growths(), self.spec_capacity())
    }

    /// A pool created with `len` initial elements of `stride` bytes and room
    /// for at least `capacity` elements.
    pub fn new(len: usize, capacity: usize, stride: u32) -> (r: Self)
        ensures
            r.wf(),
            r.spec_len() == len,
            r.spec_capacity() == initial_capacity(len, capacity),
            r.spec_stride() == stride,
            r.spec_generation() == 0,
            r.spec_growths() == Seq::<GrowthRecord>::empty(),
    {
        let c = if capacity >= len { capacity } else { len };
        let c = if c >= 1 { c } else { 1 };
        PoolState { len, capacity: c, stride, generation: 0, growths: Vec::new() }
    }

    /// Live element count; elements at or beyond it hold unspecified bytes.
    pub fn len(&self) -> (r: usize)
        ensures
            r == self.spec_len(),
    {
        self.len
    }

    pub fn is_empty(&self) -> (r: bool)
        ensures
            r == (self.spec_len() == 0),
    {
        self.len == 0
    }

    /// Allocation size in elements; kernels observe it as the buffer's length.
    pub fn capacity(&self) -> (r: usize)
        ensures
            r == self.spec_capacity(),
    {
        self.capacity
    }

    /// Incremented by every growth.
    pub fn generation(&self) -> (r: u64)
        ensures
            r == self.spec_generation(),
    {
        self.generation
    }

    pub fn growth_history(&self) -> (r: &[GrowthRecord])
        ensures
            r@ == self.spec_growths(),
    {
        self.growths.as_slice()
    }

    /// Ensures capacity for `required` elements without changing the length:
    /// the growth to perform, if the capacity does not suffice. The live
    /// prefix is what the growth copies.
    pub fn reserve(&mut self, required: usize) -> (r: Option<GrowthRecord>)
        requires
            old(self).wf(),
            old(self).spec_len() * old(self).spec_stride() <= u64::MAX,
            old(self).spec_generation() < u64::MAX,
        ensures
            final(self).wf(),
            final(self).spec_len() == old(self).spec_len(),
            final(self).spec_stride() == old(self).spec_stride(),
            required <= old(self).spec_capacity() ==> r is None && *final(self) == *old(self),
            required > old(self).spec_capacity() ==> {
                let record = GrowthRecord {
                    old_capacity: old(self).spec_capacity(),
                    new_capacity: grown_capacity(old(self).spec_capacity(), required),
                    copied_bytes: (old(self).spec_len() * old(self).spec_stride()) as u64,
                };
                &&& r == Some(record)
                &&& final(self).spec_capacity() == record.new_capacity
                &&& final(self).spec_generation() == old(self).spec_generation() + 1
                &&& final(self).spec_growths() == old(self).spec_growths().push(record)
            },
    {
        let old_capacity = self.capacity;
        if required <= old_capacity {
            return None;
        }
        let doubled = if old_capacity > usize::MAX / 2 { usize::MAX } else { old_capacity * 2 };
        let new_capacity = if required >= doubled { required } else { doubled };
        proof {
            assert(self.len * self.stride <= u64::MAX);
        }
        assert((self.len as u64) * (self.stride as u64) <= u64::MAX) by (nonlinear_arith)
            requires
                self.len * self.stride <= u64::MAX;
        let copied_bytes = (self.len as u64) * (self.stride as u64);
        let record = GrowthRecord { old_capacity, new_capacity, copied_bytes };
        self.capacity = new_capacity;
        self.generation = self.generation + 1;
        self.growths.push(record);
        Some(record)
    }

    /// Appends `count` elements, growing first when the capacity does not
    /// suffice: the growth performed, if any.
    pub fn push(&mut self, count: usize) -> (r: Option<GrowthRecord>)
        requires
            old(self).wf(),
            old(self).spec_len() + count <= usize::MAX,
            old(self).spec_len() * old(self).spec_stride() <= u64::MAX,
            old(self).spec_generation() < u64::MAX,
        ensures
            final(self).wf(),
            final(self).spec_len() == old(self).spec_len() + count,
            final(self).spec_stride() == old(self).spec_stride(),
            old(self).spec_len() + count <= old(self).spec_capacity() ==> r is None
                && final(self).spec_capacity() == old(self).spec_capacity()
                && final(self).spec_generation() == old(self).spec_generation()
                && final(self).spec_growths() == old(self).spec_growths(),
            old(self).spec_len() + count > old(self).spec_capacity() ==> {
                let record = GrowthRecord {
                    old_capacity: old(self).spec_capacity(),
                    new_capacity: grown_capacity(old(self).spec_capacity(), (old(self).spec_len() + count) as usize),
                    copied_bytes: (old(self).spec_len() * old(self).spec_stride()) as u64,
                };
                &&& r == Some(record)
                &&& final(self).spec_capacity() == record.new_capacity
                &&& final(self).spec_generation() == old(self).spec_generation() + 1
                &&& final(self).spec_growths() == old(self).spec_growths().push(record)
            },
    {
        let required = self.len + count;
        let growth = self.reserve(required);
        self.len = required;
        growth
    }

    /// Shortens the pool without GPU work; a longer `len` is refused.
    pub fn truncate(&mut self, len: usize) -> (r: Result<(), Error>)
        requires
            old(self).wf(),
        ensures
            final(self).wf(),
            len > old(self).spec_len() ==> *final(self) == *old(self) && (r matches Err(
                Error::PoolTruncateGrows { len: l, requested },
            ) && l == old(self).spec_len() && requested == len),
            len <= old(self).spec_len() ==> r is Ok && final(self).spec_len() == len
                && final(self).spec_capacity() == old(self).spec_capacity()
                && final(self).spec_stride() == old(self).spec_stride()
                && final(self).spec_generation() == old(self).spec_generation()
                && final(self).spec_growths() == old(self).spec_growths(),
    {
        if len > self.len {
            return Err(Error::PoolTruncateGrows { len: self.len, requested: len });
        }
        self.len = len;
        Ok(())
    }
}

} // verus!
