use vstd::prelude::*;

use core::marker::PhantomData;

use crate::error::Error;

verus! {

/// What a buffer is bound as on the device.
#[derive(Clone, Copy, Debug, PartialEq, Eq, Hash, Structural)]
pub enum BufferUsage {
    Vertex,
    Index,
    Uniform,
    TransferSrc,
}

/// The device objects behind a buffer: the buffer handle and its memory.
#[derive(Clone, Copy, Debug, PartialEq, Eq, Hash, Structural)]
pub struct Allocation {
    pub handle: u64,
    pub memory: u64,
}

/// Bytes taken by `len` records of `stride` bytes each.
pub open spec fn bytes_for(stride: nat, len: nat) -> nat {
    stride * len
}

/// A host-visible device buffer of records of type `T`. It tracks the
/// allocation it currently owns and that allocation's size in bytes.
pub struct Buffer<T> {
    allocation: Allocation,
    usage: BufferUsage,
    size: usize,
    marker: PhantomData<T>,
}

/// Number of bytes taken by `len` records of `T`.
pub fn byte_size<T>(len: usize) -> (r: usize)
    requires
        bytes_for(vstd::layout::size_of::<T>(), len as nat) <= usize::MAX,
    ensures
        r == bytes_for(vstd::layout::size_of::<T>(), len as nat),
{
    core::mem::size_of::<T>() * len
}

impl<T> Buffer<T> {
    pub closed spec fn size_view(&self) -> nat {
        self.size as nat
    }

    pub closed spec fn allocation_view(&self) -> Allocation {
        self.allocation
    }

    pub closed spec fn usage_view(&self) -> BufferUsage {
        self.usage
    }

    /// A buffer for `len` records, backed by `allocation`, which the device
    /// made with `byte_size::<T>(len)` bytes.
    pub fn dynamic(usage: BufferUsage, len: usize, allocation: Allocation) -> (r: Self)
        requires
            bytes_for(vstd::layout::size_of::<T>(), len as nat) <= usize::MAX,
        ensures
            r.size_view() == bytes_for(vstd::layout::size_of::<T>(), len as nat),
            r.allocation_view() == allocation,
            r.usage_view() == usage,
    {
        let size = byte_size::<T>(len);
        Buffer { allocation, usage, size, marker: PhantomData }
    }

    /// A transfer-source buffer sized for exactly `data`, backed by
    /// `allocation`; the data is then copied in with `copy_from_data`.
    pub fn staging(data: &[T], allocation: Allocation) -> (r: Self)
        requires
            bytes_for(vstd::layout::size_of::<T>(), data@.len()) <= usize::MAX,
        ensures
            r.size_view() == bytes_for(vstd::layout::size_of::<T>(), data@.len()),
            r.allocation_view() == allocation,
            r.usage_view() == BufferUsage::TransferSrc,
    {
        let size = byte_size::<T>(data.len());
        Buffer { allocation, usage: BufferUsage::TransferSrc, size, marker: PhantomData }
    }

    /// Moves the buffer onto `allocation`, made for `len` records, and hands
    /// back the previous allocation, which the caller frees. Descriptors that
    /// pointed at the old allocation have to be written again.
    pub fn resize(&mut self, len: usize, allocation: Allocation) -> (r: Allocation)
        requires
            old(self).usage_view() != BufferUsage::TransferSrc,
            bytes_for(vstd::layout::size_of::<T>(), len as nat) <= usize::MAX,
        ensures
            r == old(self).allocation_view(),
            final(self).allocation_view() == allocation,
            final(self).size_view() == bytes_for(vstd::layout::size_of::<T>(), len as nat),
            final(self).usage_view() == old(self).usage_view(),
    {
        let previous = self.allocation;
        self.size = byte_size::<T>(len);
        self.allocation = allocation;
        previous
    }

    /// Checks that `data` fits and returns the number of bytes to copy into
    /// the mapped memory.
    pub fn copy_from_data(&self, data: &[T]) -> (r: Result<usize, Error>)
        ensures
            bytes_for(vstd::layout::size_of::<T>(), data@.len()) <= self.size_view() <==> r is Ok,
            r is Ok ==> r->Ok_0 == bytes_for(vstd::layout::size_of::<T>(), data@.len()),
            r is Err ==> r->Err_0 == Error::BufferTooSmall,
    {
        let stride = core::mem::size_of::<T>();
        match stride.checked_mul(data.len()) {
            Some(bytes) => {
                if bytes <= self.size {
                    Ok(bytes)
                } else {
                    Err(Error::BufferTooSmall)
                }
            },
            None => Err(Error::BufferTooSmall),
        }
    }

    pub fn handle(&self) -> (r: u64)
        ensures
            r == self.allocation_view().handle,
    {
        self.allocation.handle
    }

    pub fn memory(&self) -> (r: u64)
        ensures
            r == self.allocation_view().memory,
    {
        self.allocation.memory
    }

    /// Size of the current allocation in bytes.
    pub fn size(&self) -> (r: usize)
        ensures
            r == self.size_view(),
    {
        self.size
    }

    /// Number of whole records that fit in the current allocation.
    pub fn len(&self) -> (r: usize)
        requires
            vstd::layout::size_of::<T>() > 0,
        ensures
            r == self.size_view() / vstd::layout::size_of::<T>(),
    {
        self.size / core::mem::size_of::<T>()
    }

    /// Hands back the allocation for the caller to free.
    pub fn destroy(&self) -> (r: Allocation)
        ensures
            r == self.allocation_view(),
    {
        self.allocation
    }

    /// Two buffers are the same buffer when they own the same device handle.
    pub fn same_buffer(&self, other: &Buffer<T>) -> (r: bool)
        ensures
            r == (self.allocation_view().handle == other.allocation_view().handle),
    {
        self.allocation.handle == other.allocation.handle
    }
}

/// Growing a buffer to `n` records makes room for a write of `n` records.
pub proof fn lemma_write_fits_after_resize<T>(b: Buffer<T>, previous_len: nat, n: nat, data_len: nat)
    requires
        n >= previous_len,
        b.size_view() == bytes_for(vstd::layout::size_of::<T>(), n),
        data_len == n,
    ensures
        bytes_for(vstd::layout::size_of::<T>(), data_len) <= b.size_view(),
{
}

} // verus!
