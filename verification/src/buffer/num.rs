use vstd::prelude::*;
use vstd::std_specs::convert::FromSpecImpl;
use std::marker::PhantomData;
use crate::buffer::Buffer;
use crate::number::Number;

verus! {

/// The pointer of a buffer that is a single value: the value itself.
#[derive(Debug)]
pub struct Num<T> {
    pub num: T,
}

impl<T> View for Buffer<T, Num<T>> {
    type V = T;

    /// The value.
    open spec fn view(&self) -> T {
        self.raw().num
    }
}

impl<T: Number> From<T> for Buffer<T, Num<T>> {
    /// The buffer that is the value `num`: without identity, node or device.
    fn from(num: T) -> (buf: Buffer<T, Num<T>>) {
        Buffer::from_parts(Num { num }, None, None)
    }
}

impl<T: Number> FromSpecImpl<T> for Buffer<T, Num<T>> {
    open spec fn obeys_from_spec() -> bool {
        true
    }

    open spec fn from_spec(num: T) -> Buffer<T, Num<T>> {
        Buffer::scalar(num)
    }
}

impl<T> Buffer<T, Num<T>> {
    /// The buffer that is the value `num`.
    pub closed spec fn scalar(num: T) -> Buffer<T, Num<T>> {
        Buffer { ptr: Num { num }, ident: None, node: None, elem: PhantomData }
    }

    /// A scalar buffer is nothing but its value.
    pub proof fn lemma_scalar(num: T)
        ensures
            Self::scalar(num)@ == num,
            Self::scalar(num).slot() == None::<crate::count::Ident>,
            Self::scalar(num).graph_node() == None::<usize>,
    {
    }

    /// A second buffer with the same value, identity and node.
    pub fn copy(&self) -> (buf: Buffer<T, Num<T>>) where T: Copy
        ensures
            buf == *self,
    {
        Buffer { ptr: Num { num: self.ptr.num }, ident: self.ident, node: self.node, elem: PhantomData }
    }

    /// The value.
    pub fn item(&self) -> (num: T) where T: Copy
        ensures
            num == self@,
    {
        self.ptr.num
    }

    /// Number of elements of the allocation behind the buffer: a scalar has
    /// none.
    pub fn len(&self) -> (len: usize)
        ensures
            len == 0,
    {
        0
    }
}

impl<T> core::ops::Deref for Buffer<T, Num<T>> {
    type Target = T;

    fn deref(&self) -> (num: &T)
        ensures
            *num == self@,
    {
        &self.ptr.num
    }
}

impl<T> core::ops::DerefMut for Buffer<T, Num<T>> {
    fn deref_mut(&mut self) -> (num: &mut T)
        ensures
            *num == old(self)@,
            final(self)@ == *final(num),
            final(self).slot() == old(self).slot(),
            final(self).graph_node() == old(self).graph_node(),
    {
        &mut self.ptr.num
    }
}

} // verus!
