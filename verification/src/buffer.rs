use vstd::prelude::*;
use std::marker::PhantomData;
use crate::cache::CacheEntry;
use crate::count::Ident;
use crate::flag::AllocFlag;

pub mod num;

pub use num::Num;

verus! {

/// What a buffer of a host device points with: the handle of its allocation on
/// that device, the number of its elements, and who answers for the
/// allocation.
#[derive(Clone, Copy, Debug, PartialEq, Eq, Structural)]
pub struct CPUPtr {
    pub handle: u64,
    pub len: usize,
    pub flag: AllocFlag,
}

/// The handle that an operation is given and gives back: a pointer `P` to
/// elements of type `T`, with the identity under which the cache handed it out
/// and the node that the graph keeps for it.
///
/// With a `CPUPtr` it stands for an allocation of a device, is read and
/// written through that device, and is given up through it: a buffer that is
/// dropped without being given up leaves its hold on the allocation in place.
/// With a `Num` it is a single value that lives in the buffer itself, belongs
/// to no device and has length 0.
///
/// Only a buffer that was drawn from a cache has an identity. A buffer that
/// was made outside the cache has none: it is known by its handle alone, so
/// it can have no gradient and no recorded operation can take it. Data that
/// is to take part in a recorded operation is put on its device with an
/// identity, as `CPU::cached_with` does.
pub struct Buffer<T, P = CPUPtr> {
    ptr: P,
    ident: Option<Ident>,
    node: Option<usize>,
    elem: PhantomData<T>,
}

impl<T, P> Buffer<T, P> {
    /// The pointer.
    pub closed spec fn raw(&self) -> P {
        self.ptr
    }

    /// The identity under which a cache handed the buffer out, if one did.
    pub closed spec fn slot(&self) -> Option<Ident> {
        self.ident
    }

    /// The index of the node that the graph keeps for the buffer, if it keeps
    /// one.
    pub closed spec fn graph_node(&self) -> Option<usize> {
        self.node
    }

    /// A buffer made of its parts.
    pub fn from_parts(ptr: P, ident: Option<Ident>, node: Option<usize>) -> (buf: Buffer<T, P>)
        ensures
            buf.raw() == ptr,
            buf.slot() == ident,
            buf.graph_node() == node,
    {
        Buffer { ptr, ident, node, elem: PhantomData }
    }

    pub fn ptr(&self) -> (ptr: &P)
        ensures
            *ptr == self.raw(),
    {
        &self.ptr
    }

    pub fn ident(&self) -> (ident: Option<Ident>)
        ensures
            ident == self.slot(),
    {
        self.ident
    }

    pub fn node(&self) -> (node: Option<usize>)
        ensures
            node == self.graph_node(),
    {
        self.node
    }
}

impl<T> Buffer<T, CPUPtr> {
    /// The buffer that a cache hands out for `entry`, drawn under `ident`.
    pub fn cached(entry: CacheEntry, ident: Ident) -> (buf: Buffer<T, CPUPtr>)
        ensures
            buf.raw() == (CPUPtr { handle: entry.handle, len: entry.len, flag: AllocFlag::Cache }),
            buf.slot() == Some(ident),
            buf.graph_node() == entry.node,
    {
        Buffer {
            ptr: CPUPtr { handle: entry.handle, len: entry.len, flag: AllocFlag::Cache },
            ident: Some(ident),
            node: entry.node,
            elem: PhantomData,
        }
    }

    /// Handle of the allocation on the device.
    pub fn handle(&self) -> (handle: u64)
        ensures
            handle == self.raw().handle,
    {
        self.ptr.handle
    }

    /// Number of elements.
    pub fn len(&self) -> (len: usize)
        ensures
            len == self.raw().len,
    {
        self.ptr.len
    }

    pub fn is_empty(&self) -> (b: bool)
        ensures
            b == (self.raw().len == 0),
    {
        self.ptr.len == 0
    }

    /// Who answers for the allocation.
    pub fn flag(&self) -> (flag: AllocFlag)
        ensures
            flag == self.raw().flag,
    {
        self.ptr.flag
    }
}

} // verus!
