//! Rust shadow types for the Slang vocabulary of annotated kernel modules.
//! They let rustc resolve and type-check kernel source; the GPU runs the
//! Slang translation, not these definitions.
use vstd::prelude::*;

verus! {

#[derive(Clone, Copy, Debug, Default, PartialEq, Eq, Structural)]
pub struct UVec3 {
    pub x: u32,
    pub y: u32,
    pub z: u32,
}

/// GPU invocation metadata.
#[derive(Clone, Copy, Debug, Default, PartialEq, Eq, Structural)]
pub struct Invocation {
    global_id: UVec3,
}

impl Invocation {
    pub closed spec fn spec_global_id(self) -> UVec3 {
        self.global_id
    }

    pub fn new(global_id: UVec3) -> (r: Self)
        ensures
            r.spec_global_id() == global_id,
    {
        Self { global_id }
    }

    pub fn global_id(self) -> (r: UVec3)
        ensures
            r == self.spec_global_id(),
    {
        self.global_id
    }
}

/// Rust shadow type for Slang's read-only structured buffer.
#[derive(Clone, Copy, Debug)]
pub struct Storage<'a, T> {
    values: &'a [T],
}

impl<'a, T> Storage<'a, T> {
    pub closed spec fn values(self) -> Seq<T> {
        self.values@
    }

    pub fn new(values: &'a [T]) -> (r: Self)
        ensures
            r.values() == values@,
    {
        Self { values }
    }

    /// Element count; GPU buffers hold at most `u32::MAX` elements.
    pub fn len(&self) -> (r: u32)
        requires
            self.values().len() <= u32::MAX,
        ensures
            r == self.values().len(),
    {
        self.values.len() as u32
    }

    pub fn is_empty(&self) -> (r: bool)
        ensures
            r == (self.values().len() == 0),
    {
        self.values.len() == 0
    }

    /// The element at `index`.
    pub fn index(&self, index: u32) -> (r: &T)
        requires
            index < self.values().len(),
        ensures
            *r == self.values()[index as int],
    {
        &self.values[index as usize]
    }
}

/// Rust shadow type for Slang's read-write structured buffer.
#[derive(Debug)]
pub struct StorageMut<'a, T> {
    values: &'a mut [T],
}

impl<'a, T> StorageMut<'a, T> {
    pub closed spec fn values(&self) -> Seq<T> {
        self.values@
    }

    pub fn new(values: &'a mut [T]) -> (r: Self)
        ensures
            r.values() == old(values)@,
    {
        Self { values }
    }

    /// Element count; GPU buffers hold at most `u32::MAX` elements.
    pub fn len(&self) -> (r: u32)
        requires
            self.values().len() <= u32::MAX,
        ensures
            r == self.values().len(),
    {
        self.values.len() as u32
    }

    pub fn is_empty(&self) -> (r: bool)
        ensures
            r == (self.values().len() == 0),
    {
        self.values.len() == 0
    }

    /// The element at `index`.
    pub fn index(&self, index: u32) -> (r: &T)
        requires
            index < self.values().len(),
        ensures
            *r == self.values()[index as int],
    {
        &self.values[index as usize]
    }

    /// The element at `index`, for writing.
    pub fn index_mut(&mut self, index: u32) -> (r: &mut T)
        requires
            index < old(self).values().len(),
        ensures
            *r == old(self).values()[index as int],
            final(self).values() == old(self).values().update(index as int, *final(r)),
    {
        &mut self.values[index as usize]
    }
}

/// Rust shadow of a Slang uniform value.
#[derive(Clone, Copy, Debug, Default, PartialEq)]
pub struct Uniform<T>(pub T);

impl<T> Uniform<T> {
    /// The uniform's value.
    pub fn deref(&self) -> (r: &T)
        ensures
            *r == self.0,
    {
        &self.0
    }
}

/// Shadow of Slang's `InterlockedCompareExchange`; it performs no CPU work and
/// reports no exchange.
pub fn atomic_compare_exchange<T>(target: &mut T, compare: T, value: T) -> (r: bool)
    ensures
        !r,
        *final(target) == *old(target),
{
    false
}

} // verus!
