use vstd::prelude::*;
use crate::buffer::{Buffer, CPUPtr};
use crate::cache::{
    after_get, after_miss, answers, backed, data_after_miss, hit, kept, recorded, with_node,
    CacheEntry,
};
use crate::count::{Counter, Ident};
use crate::error::DeviceError;
use crate::flag::AllocFlag;
use crate::graph::{ordered, Deps, Node};
use crate::number::{zeros, Number};
use crate::raw::{released, retained, RawInfo};

verus! {

/// What every device shows of itself, and what the contracts of the
/// operations on its buffers are stated over.
pub trait Device<T: Number>: Sized {
    /// The filled slots of the cache.
    spec fn slots(&self) -> Map<u64, CacheEntry>;

    /// The nodes of the graph.
    spec fn nodes(&self) -> Seq<Node>;

    /// The books of the allocations that are alive.
    spec fn live(&self) -> Map<u64, RawInfo>;

    /// The elements of the allocations that are alive.
    spec fn data(&self) -> Map<u64, Seq<T>>;

    /// How many allocations the device has made.
    spec fn made(&self) -> nat;

    /// How many allocations the device has freed.
    spec fn freed(&self) -> nat;

    /// What the device was opened with for room. No operation changes it.
    spec fn capacity(&self) -> nat;

    /// Whether the device will grant `len` more elements.
    spec fn has_room(&self, len: usize) -> bool;

    /// The device's books are in order.
    spec fn wf(&self) -> bool;

    /// What holds of a well-formed device: the cache keeps live allocations
    /// only, under their true length and with nodes of this graph; no
    /// allocation sits in two slots; elements and books agree; there are
    /// finitely many live allocations, each with a holder and an element; the
    /// graph is in order.
    proof fn lemma_wf(&self)
        requires
            self.wf(),
        ensures
            forall|c: u64| #[trigger]
                self.slots().contains_key(c) ==> {
                    &&& self.live().contains_key(self.slots()[c].handle)
                    &&& self.live()[self.slots()[c].handle].len == self.slots()[c].len
                    &&& (self.slots()[c].node matches Some(i) ==> i < self.nodes().len())
                },
            forall|a: u64, b: u64|
                self.slots().contains_key(a) && self.slots().contains_key(b)
                    && #[trigger] self.slots()[a].handle == #[trigger] self.slots()[b].handle
                    ==> a == b,
            self.data().dom() == self.live().dom(),
            self.live().dom().finite(),
            forall|h: u64| #[trigger]
                self.live().contains_key(h) ==> {
                    &&& self.data()[h].len() == self.live()[h].len
                    &&& self.live()[h].refs >= 1
                    &&& self.live()[h].len >= 1
                },
            ordered(self.nodes()),
            self.freed() <= self.made(),
    ;
}

/// What the contracts of the operations say of a device, over what the device
/// shows of itself.
pub trait DeviceSpec<T: Number>: Device<T> {
    /// The buffer points to a live allocation of this device, of the
    /// buffer's length, and its node is one of this device's graph.
    spec fn holds(&self, buf: &Buffer<T>) -> bool;

    /// The buffer can be given up without taking from the cache an allocation
    /// that the cache still keeps.
    spec fn can_release(&self, buf: &Buffer<T>) -> bool;

    /// The elements that the buffer points to.
    spec fn contents(&self, buf: &Buffer<T>) -> Seq<T>;

    /// Nothing that can be seen of the device has changed.
    spec fn same_as(&self, before: &Self) -> bool;

    /// The device and the buffer after the elements `elems` were put on the
    /// device `before` in an allocation of their own, which the buffer owns:
    /// the graph has a leaf more, and nothing else has changed, the cache
    /// least of all.
    spec fn placed(&self, before: &Self, buf: &Buffer<T>, elems: Seq<T>) -> bool;

    /// The device after the elements of `buf` were replaced by `elems`:
    /// nothing else has changed.
    spec fn stored(&self, before: &Self, buf: &Buffer<T>, elems: Seq<T>) -> bool;

    /// Whether a request under `ident` will be granted: it asks for an
    /// element at least, and the allocation it hits can take one more holder,
    /// or the device has room for the allocation it misses.
    spec fn grants(&self, ident: Ident) -> bool;

    /// The books of the device, and the buffer, after a cache with the slots
    /// `slots`, whose allocations are on the device `before`, answered a
    /// request under `ident` with `buf`.
    ///
    /// On a hit the buffer points to the allocation in the slot, which has
    /// gained a holder; no allocation was made and the graph is as it was. On
    /// a miss it points to a new allocation, which is held by the cache and by
    /// the buffer; the graph has recorded the node that `deps` names; and what
    /// the slot held before has lost the hold of the cache, and is freed if
    /// that was the last.
    spec fn drawn_from(
        &self,
        before: &Self,
        slots: Map<u64, CacheEntry>,
        ident: Ident,
        deps: Option<Deps>,
        buf: &Buffer<T>,
    ) -> bool;

    /// The elements on the device after a cache with the slots `slots`
    /// answered a request under `ident` with the allocation `handle`: on a hit
    /// what they were, on a miss with zeros in the new allocation and without
    /// what the miss has freed.
    spec fn data_after_get(
        &self,
        slots: Map<u64, CacheEntry>,
        ident: Ident,
        handle: u64,
    ) -> Map<u64, Seq<T>>;

    /// The device and the buffer after the cache of the device `before`
    /// answered a request under `ident` with `buf`: the books as `drawn_from`
    /// says, the slots as the request left them.
    spec fn drawn(
        &self,
        before: &Self,
        ident: Ident,
        deps: Option<Deps>,
        buf: &Buffer<T>,
    ) -> bool;

    /// The device and the buffer after the cache of the device `before`
    /// answered a request under `ident` with `buf`, the elements left as the
    /// cache hands them out.
    spec fn fetched(
        &self,
        before: &Self,
        ident: Ident,
        deps: Option<Deps>,
        buf: &Buffer<T>,
    ) -> bool;

    /// The device and the buffer after an operation on the device `before`
    /// drew `buf` from the cache under `ident` and filled it with its result.
    spec fn emitted(
        &self,
        before: &Self,
        ident: Ident,
        deps: Option<Deps>,
        buf: &Buffer<T>,
    ) -> bool;

    /// The device after the buffer `buf` was given up on the device
    /// `before`: its allocation has lost a holder, and is gone with its
    /// elements if that was the last. A buffer that wraps memory of somebody
    /// else gives up nothing.
    spec fn dropped(&self, before: &Self, buf: &Buffer<T>, gone: bool) -> bool;
}

impl<T: Number, D: Device<T>> DeviceSpec<T> for D {
    open spec fn holds(&self, buf: &Buffer<T>) -> bool {
        &&& self.live().contains_key(buf.raw().handle)
        &&& self.live()[buf.raw().handle].len == buf.raw().len
        &&& (buf.graph_node() matches Some(i) ==> i < self.nodes().len())
    }

    open spec fn can_release(&self, buf: &Buffer<T>) -> bool {
        &&& self.holds(buf)
        &&& buf.raw().flag.counts() && kept(self.slots(), buf.raw().handle)
            ==> self.live()[buf.raw().handle].refs >= 2
    }

    open spec fn contents(&self, buf: &Buffer<T>) -> Seq<T> {
        self.data()[buf.raw().handle]
    }

    open spec fn same_as(&self, before: &Self) -> bool {
        &&& self.slots() == before.slots()
        &&& self.nodes() == before.nodes()
        &&& self.live() == before.live()
        &&& self.data() == before.data()
        &&& self.made() == before.made()
        &&& self.freed() == before.freed()
        &&& self.capacity() == before.capacity()
    }

    open spec fn placed(&self, before: &Self, buf: &Buffer<T>, elems: Seq<T>) -> bool {
        let handle = buf.raw().handle;
        &&& buf.raw() == (CPUPtr { handle, len: elems.len() as usize, flag: AllocFlag::Owned })
        &&& buf.slot() == None::<Ident>
        &&& buf.graph_node() == Some(before.nodes().len() as usize)
        &&& !before.live().contains_key(handle)
        &&& self.live() == before.live().insert(
            handle,
            RawInfo { len: elems.len() as usize, refs: 1 },
        )
        &&& self.data() == before.data().insert(handle, elems)
        &&& self.nodes() == before.nodes().push(
            Node {
                idx: before.nodes().len() as usize,
                deps: Deps::Leaf,
                len: elems.len() as usize,
            },
        )
        &&& self.slots() == before.slots()
        &&& self.made() == before.made() + 1
        &&& self.freed() == before.freed()
        &&& self.capacity() == before.capacity()
    }

    open spec fn stored(&self, before: &Self, buf: &Buffer<T>, elems: Seq<T>) -> bool {
        &&& self.data() == before.data().insert(buf.raw().handle, elems)
        &&& self.live() == before.live()
        &&& self.slots() == before.slots()
        &&& self.nodes() == before.nodes()
        &&& self.made() == before.made()
        &&& self.freed() == before.freed()
        &&& self.capacity() == before.capacity()
    }

    open spec fn grants(&self, ident: Ident) -> bool {
        ident.len > 0 && (if hit(self.slots(), ident) {
            self.live()[self.slots()[ident.count].handle].refs < usize::MAX
        } else {
            self.has_room(ident.len)
        })
    }

    open spec fn drawn_from(
        &self,
        before: &Self,
        slots: Map<u64, CacheEntry>,
        ident: Ident,
        deps: Option<Deps>,
        buf: &Buffer<T>,
    ) -> bool {
        let handle = buf.raw().handle;
        &&& buf.raw().flag == AllocFlag::Cache
        &&& buf.slot() == Some(ident)
        &&& self.capacity() == before.capacity()
        &&& answers(slots, ident, entry_of(buf))
        &&& if hit(slots, ident) {
            &&& self.nodes() == before.nodes()
            &&& self.live() == retained(before.live(), handle)
            &&& self.made() == before.made()
            &&& self.freed() == before.freed()
        } else {
            &&& !before.live().contains_key(handle)
            &&& buf.graph_node() == (if deps is Some {
                Some(before.nodes().len() as usize)
            } else {
                None
            })
            &&& self.nodes() == with_node(
                before.nodes(),
                recorded(before.nodes().len(), ident.len, deps),
            )
            &&& self.live() == after_miss(before.live(), slots, ident, handle)
            &&& self.made() == before.made() + 1
            &&& self.freed() == before.freed() + (if slots.contains_key(ident.count)
                && before.live()[slots[ident.count].handle].refs == 1 {
                1nat
            } else {
                0nat
            })
        }
    }

    open spec fn data_after_get(
        &self,
        slots: Map<u64, CacheEntry>,
        ident: Ident,
        handle: u64,
    ) -> Map<u64, Seq<T>> {
        if hit(slots, ident) {
            self.data()
        } else {
            data_after_miss(self.data(), self.live(), slots, ident, handle)
        }
    }

    open spec fn drawn(
        &self,
        before: &Self,
        ident: Ident,
        deps: Option<Deps>,
        buf: &Buffer<T>,
    ) -> bool {
        &&& self.drawn_from(before, before.slots(), ident, deps, buf)
        &&& self.slots() == after_get(before.slots(), ident, entry_of(buf))
    }

    open spec fn fetched(
        &self,
        before: &Self,
        ident: Ident,
        deps: Option<Deps>,
        buf: &Buffer<T>,
    ) -> bool {
        &&& self.drawn(before, ident, deps, buf)
        &&& self.data() == before.data_after_get(before.slots(), ident, buf.raw().handle)
    }

    open spec fn emitted(
        &self,
        before: &Self,
        ident: Ident,
        deps: Option<Deps>,
        buf: &Buffer<T>,
    ) -> bool {
        &&& self.drawn(before, ident, deps, buf)
        &&& self.data() == before.data_after_get(before.slots(), ident, buf.raw().handle).insert(
            buf.raw().handle,
            self.contents(buf),
        )
        &&& self.contents(buf).len() == ident.len
    }

    open spec fn dropped(&self, before: &Self, buf: &Buffer<T>, gone: bool) -> bool {
        let handle = buf.raw().handle;
        &&& gone == (buf.raw().flag.counts() && before.live()[handle].refs == 1)
        &&& self.live() == (if buf.raw().flag.counts() {
            released(before.live(), handle)
        } else {
            before.live()
        })
        &&& self.data() == (if gone {
            before.data().remove(handle)
        } else {
            before.data()
        })
        &&& self.slots() == before.slots()
        &&& self.nodes() == before.nodes()
        &&& self.made() == before.made()
        &&& self.freed() == before.freed() + (if gone {
            1nat
        } else {
            0nat
        })
        &&& self.capacity() == before.capacity()
    }
}

/// Giving up the buffer that alone holds an allocation frees the allocation,
/// once: it is gone from the device, one more allocation counts as freed, and
/// the buffer can neither be used nor given up again.
pub proof fn lemma_drop_frees_once<T: Number, D: Device<T>>(
    before: D,
    after: D,
    buf: Buffer<T>,
    gone: bool,
)
    requires
        before.wf(),
        before.holds(&buf),
        buf.raw().flag.counts(),
        before.live()[buf.raw().handle].refs == 1,
        after.dropped(&before, &buf, gone),
    ensures
        gone,
        !after.live().contains_key(buf.raw().handle),
        !after.data().contains_key(buf.raw().handle),
        after.freed() == before.freed() + 1,
        after.made() == before.made(),
        !after.holds(&buf),
        !after.can_release(&buf),
{
}

/// Giving up a buffer does not free what the cache keeps: the allocation
/// stays alive with its elements, and every slot of the cache still holds a
/// live allocation of its length.
pub proof fn lemma_cache_keeps<T: Number, D: Device<T>>(
    before: D,
    after: D,
    buf: Buffer<T>,
    gone: bool,
)
    requires
        before.wf(),
        before.can_release(&buf),
        after.dropped(&before, &buf, gone),
    ensures
        kept(before.slots(), buf.raw().handle) ==> {
            &&& !gone
            &&& after.live().contains_key(buf.raw().handle)
            &&& after.data() == before.data()
            &&& after.freed() == before.freed()
        },
        backed(after.slots(), after.live()),
{
    before.lemma_wf();
    assert forall|c: u64| #[trigger] after.slots().contains_key(c) implies after.live().contains_key(
        after.slots()[c].handle,
    ) && after.live()[after.slots()[c].handle].len == after.slots()[c].len by {
        assert(before.slots().contains_key(c));
        assert(before.live().contains_key(before.slots()[c].handle));
        if before.slots()[c].handle == buf.raw().handle {
            assert(kept(before.slots(), buf.raw().handle));
        }
    }
}

/// The cache entry that a buffer stands for.
pub open spec fn entry_of<T>(buf: &Buffer<T>) -> CacheEntry {
    CacheEntry { len: buf.raw().len, handle: buf.raw().handle, node: buf.graph_node() }
}

/// The dependencies of a result made from the buffers `lhs` and `rhs`.
pub open spec fn deps_of<T>(lhs: &Buffer<T>, rhs: Option<&Buffer<T>>) -> Deps {
    match (lhs.graph_node(), rhs) {
        (Some(a), Some(r)) => match r.graph_node() {
            Some(b) => Deps::Binary(a, b),
            None => Deps::Unary(a),
        },
        (Some(a), None) => Deps::Unary(a),
        (None, Some(r)) => match r.graph_node() {
            Some(b) => Deps::Unary(b),
            None => Deps::Leaf,
        },
        (None, None) => Deps::Leaf,
    }
}

/// Stands where a buffer names its device, for a buffer that belongs to none.
#[derive(Clone, Copy, Debug)]
pub struct Deviceless;

/// Devices whose buffers can outlive the borrow of the device: their memory
/// is the host's.
pub trait DevicelessAble<T: Number>: Device<T> {
}

/// Reading buffers.
pub trait Read<T: Number>: Device<T> {
    /// The elements of the buffer, in place where the device's memory is the
    /// host's.
    fn read<'a>(&'a self, buf: &Buffer<T>) -> (elems: &'a [T])
        requires
            self.wf(),
            self.holds(buf),
        ensures
            elems@ == self.contents(buf),
    ;

    /// A copy of the elements of the buffer.
    fn read_to_vec(&self, buf: &Buffer<T>) -> (elems: Vec<T>)
        requires
            self.wf(),
            self.holds(buf),
        ensures
            elems@ == self.contents(buf),
    ;
}

/// Reading buffers into vectors.
pub trait VecRead<T: Number>: Device<T> {
    /// A copy of the elements of the buffer.
    fn read_vec(&self, buf: &Buffer<T>) -> (elems: Vec<T>)
        requires
            self.wf(),
            self.holds(buf),
        ensures
            elems@ == self.contents(buf),
    ;
}

/// Writing data to buffers.
pub trait WriteBuf<T: Number>: Device<T> {
    /// Overwrites the buffer with `data`, which has the buffer's length.
    fn write(&mut self, buf: &Buffer<T>, data: &[T])
        requires
            old(self).wf(),
            old(self).holds(buf),
            data@.len() == buf.raw().len,
        ensures
            final(self).wf(),
            final(self).stored(old(self), buf, data@),
    ;
}

/// Clearing buffers.
pub trait ClearBuf<T: Number>: Device<T> {
    /// Sets every element of the buffer to zero.
    fn clear(&mut self, buf: &Buffer<T>)
        requires
            old(self).wf(),
            old(self).holds(buf),
        ensures
            final(self).wf(),
            final(self).stored(old(self), buf, zeros::<T>(buf.raw().len as nat)),
    ;
}

/// Cloning buffers on their device.
pub trait CloneBuf<T: Number>: Device<T> {
    /// A deep copy of the buffer on this device: a buffer of its own, owned
    /// and outside the cache, with the same elements.
    ///
    /// Fails with `AllocationError` where the device has no room; a failure
    /// changes nothing.
    fn clone_buf(&mut self, buf: &Buffer<T>) -> (res: Result<Buffer<T>, DeviceError>)
        requires
            old(self).wf(),
            old(self).holds(buf),
        ensures
            final(self).wf(),
            res.is_ok() <==> old(self).has_room(buf.raw().len),
            res matches Err(e) ==> e == DeviceError::AllocationError && final(self).same_as(
                old(self),
            ),
            res matches Ok(copy) ==> final(self).placed(old(self), &copy, old(self).contents(buf))
                && final(self).holds(&copy),
    ;
}

/// Drawing buffers from the cache of a device.
pub trait CacheBuf<T: Number>: Device<T> {
    /// Draws the next identity for `len` elements and asks the cache for its
    /// buffer, as a leaf of the graph. The counter advances where a buffer is
    /// handed out.
    ///
    /// Fails with `InvalidLength` where `len` is 0, and with
    /// `AllocationError` where the device refuses; a failure changes nothing,
    /// the counter included.
    fn cached(&mut self, counter: &mut Counter, len: usize) -> (res: Result<
        Buffer<T>,
        DeviceError,
    >)
        requires
            old(self).wf(),
            old(counter)@ < u64::MAX,
        ensures
            final(self).wf(),
            res.is_ok() <==> old(self).grants(Ident { count: old(counter)@, len }),
            res matches Err(e) ==> {
                &&& e == (if len == 0 {
                    DeviceError::InvalidLength
                } else {
                    DeviceError::AllocationError
                })
                &&& final(self).same_as(old(self))
                &&& final(counter)@ == old(counter)@
            },
            res matches Ok(buf) ==> {
                &&& final(self).fetched(
                    old(self),
                    Ident { count: old(counter)@, len },
                    Some(Deps::Leaf),
                    &buf,
                )
                &&& final(self).holds(&buf)
                &&& final(counter)@ == old(counter)@ + 1
            },
    ;
}

/// Mapping a function over a buffer.
pub trait ApplyFunction<T: Number>: Device<T> {
    /// Draws a buffer of the length of `buf` from the cache, under the next
    /// identity and as made from `buf`, and fills it with the results of `f`
    /// on the elements of `buf`. The counter advances where a buffer is
    /// handed out.
    ///
    /// Fails with `AllocationError` where the device refuses; a failure
    /// changes nothing, the counter included.
    fn apply_fn<F: Fn(T) -> T>(&mut self, counter: &mut Counter, buf: &Buffer<T>, f: F) -> (res:
        Result<Buffer<T>, DeviceError>)
        requires
            old(self).wf(),
            old(self).holds(buf),
            old(counter)@ < u64::MAX,
            forall|x: T| call_requires(f, (x,)),
        ensures
            final(self).wf(),
            res.is_ok() <==> old(self).grants(Ident { count: old(counter)@, len: buf.raw().len }),
            res matches Err(e) ==> {
                &&& e == DeviceError::AllocationError
                &&& final(self).same_as(old(self))
                &&& final(counter)@ == old(counter)@
            },
            res matches Ok(out) ==> {
                &&& final(self).emitted(
                    old(self),
                    Ident { count: old(counter)@, len: buf.raw().len },
                    Some(deps_of(buf, None)),
                    &out,
                )
                &&& final(self).holds(&out)
                &&& final(counter)@ == old(counter)@ + 1
                &&& forall|i: int|
                    0 <= i < buf.raw().len ==> call_ensures(
                        f,
                        (old(self).contents(buf)[i],),
                        #[trigger] final(self).contents(&out)[i],
                    )
            },
    ;
}

/// `new` is `grad` with the gradient of one input element added: the product
/// of `out`, the gradient of the output element, and a value of the
/// derivative `f` at the input element `x`.
pub open spec fn accumulated<T: Number, F: Fn(T) -> T>(f: F, x: T, grad: T, out: T, new: T) -> bool {
    exists|d: T| #[trigger] call_ensures(f, (x,), d) && new == grad.plus_spec(out.times_spec(d))
}

/// `news` is `grads` with the gradients of the input elements `xs` added, as
/// far as the shortest of `xs`, `grads` and `outs` reaches: element by element
/// the product of `outs` and a value of the derivative `f` at `xs`.
pub open spec fn accumulated_all<T: Number, F: Fn(T) -> T>(
    f: F,
    xs: Seq<T>,
    grads: Seq<T>,
    outs: Seq<T>,
    news: Seq<T>,
) -> bool {
    let upto = if xs.len() <= grads.len() && xs.len() <= outs.len() {
        xs.len()
    } else if grads.len() <= outs.len() {
        grads.len()
    } else {
        outs.len()
    };
    &&& news.len() == grads.len()
    &&& forall|i: int| 0 <= i < upto ==> accumulated(f, xs[i], grads[i], outs[i], #[trigger] news[i])
    &&& forall|i: int| upto <= i < grads.len() ==> #[trigger] news[i] == grads[i]
}

/// The backward step of a unary operation.
pub trait UnaryGrad<T: Number>: Device<T> {
    /// Adds to the elements of `lhs_grad`, the gradient of the input `lhs`,
    /// what the gradient `out` of the output contributes: element by element
    /// the product of `out` and the derivative `lhs_grad_fn` at `lhs`, as far
    /// as the shortest of the three buffers reaches.
    fn add_unary_grad<F: Fn(T) -> T>(
        &mut self,
        lhs: &Buffer<T>,
        lhs_grad: &Buffer<T>,
        out: &Buffer<T>,
        lhs_grad_fn: F,
    )
        requires
            old(self).wf(),
            old(self).holds(lhs),
            old(self).holds(lhs_grad),
            old(self).holds(out),
            forall|x: T| call_requires(lhs_grad_fn, (x,)),
        ensures
            final(self).wf(),
            final(self).stored(old(self), lhs_grad, final(self).contents(lhs_grad)),
            accumulated_all(
                lhs_grad_fn,
                old(self).contents(lhs),
                old(self).contents(lhs_grad),
                old(self).contents(out),
                final(self).contents(lhs_grad),
            ),
    ;
}

/// Unary operations on buffers, forwards.
pub trait UnaryElementWise<T: Number>: Device<T> {
    /// The buffer of the results of `forward_fn` on the elements of `buf`:
    /// what `ApplyFunction::apply_fn` hands out for it. `grad_fn`, the
    /// derivative of `forward_fn`, is for a backward pass and is not called
    /// here.
    fn unary_ew<FO: Fn(T) -> T, GO: Fn(T) -> T>(
        &mut self,
        counter: &mut Counter,
        buf: &Buffer<T>,
        forward_fn: FO,
        grad_fn: GO,
    ) -> (res: Result<Buffer<T>, DeviceError>)
        requires
            old(self).wf(),
            old(self).holds(buf),
            old(counter)@ < u64::MAX,
            forall|x: T| call_requires(forward_fn, (x,)),
        ensures
            final(self).wf(),
            res.is_ok() <==> old(self).grants(Ident { count: old(counter)@, len: buf.raw().len }),
            res matches Err(e) ==> {
                &&& e == DeviceError::AllocationError
                &&& final(self).same_as(old(self))
                &&& final(counter)@ == old(counter)@
            },
            res matches Ok(out) ==> {
                &&& final(self).emitted(
                    old(self),
                    Ident { count: old(counter)@, len: buf.raw().len },
                    Some(deps_of(buf, None)),
                    &out,
                )
                &&& final(self).holds(&out)
                &&& final(counter)@ == old(counter)@ + 1
                &&& forall|i: int|
                    0 <= i < buf.raw().len ==> call_ensures(
                        forward_fn,
                        (old(self).contents(buf)[i],),
                        #[trigger] final(self).contents(&out)[i],
                    )
            },
    ;
}

impl<T: Number, D: ApplyFunction<T>> UnaryElementWise<T> for D {
    fn unary_ew<FO: Fn(T) -> T, GO: Fn(T) -> T>(
        &mut self,
        counter: &mut Counter,
        buf: &Buffer<T>,
        forward_fn: FO,
        grad_fn: GO,
    ) -> (res: Result<Buffer<T>, DeviceError>) {
        self.apply_fn(counter, buf, forward_fn)
    }
}

} // verus!
