use vstd::prelude::*;
use crate::buffer::{Buffer, CPUPtr};
use crate::cache::{after_get, apart, backed, hit, kept, nodes_below, Cache, CacheEntry};
use crate::count::{Counter, Ident};
use crate::error::DeviceError;
use crate::flag::AllocFlag;
use crate::graph::{Deps, Graph, Node};
use crate::host::{spliced, HostMemory};
use crate::number::{zeros, Number};
use crate::op_traits::{
    accumulated, deps_of, entry_of, ApplyFunction, CacheBuf, ClearBuf, CloneBuf, Device,
    DeviceSpec, DevicelessAble, Read, UnaryGrad, VecRead, WriteBuf,
};
use crate::raw::{Alloc, RawInfo};

verus! {

/// The host as a compute device: its memory, the cache of the allocations it
/// handed out under an identity, and the graph of the buffers it produced.
pub struct CPU<T> {
    cache: Cache,
    graph: Graph,
    mem: HostMemory<T>,
}

impl<T: Number> Device<T> for CPU<T> {
    closed spec fn slots(&self) -> Map<u64, CacheEntry> {
        self.cache@
    }

    closed spec fn nodes(&self) -> Seq<Node> {
        self.graph@
    }

    closed spec fn live(&self) -> Map<u64, RawInfo> {
        self.mem.live()
    }

    closed spec fn data(&self) -> Map<u64, Seq<T>> {
        self.mem.data()
    }

    closed spec fn made(&self) -> nat {
        self.mem.made()
    }

    closed spec fn freed(&self) -> nat {
        self.mem.freed()
    }

    closed spec fn capacity(&self) -> nat {
        self.mem.capacity()
    }

    closed spec fn has_room(&self, len: usize) -> bool {
        self.mem.has_room(len)
    }

    closed spec fn wf(&self) -> bool {
        &&& self.cache.wf()
        &&& self.graph.wf()
        &&& self.mem.wf()
        &&& self.cache.backed_by(&self.mem)
        &&& forall|c: u64| #[trigger]
            self.cache@.contains_key(c) ==> (self.cache@[c].node matches Some(i) ==> i
                < self.graph@.len())
    }

    proof fn lemma_wf(&self) {
        self.mem.lemma_data_dom();
        assert forall|h: u64| #[trigger] self.live().contains_key(h) implies {
            &&& self.data()[h].len() == self.live()[h].len
            &&& self.live()[h].refs >= 1
            &&& self.live()[h].len >= 1
        } by {
            self.mem.lemma_live_held(h);
        }
        assert forall|a: u64, b: u64|
            self.slots().contains_key(a) && self.slots().contains_key(b)
                && #[trigger] self.slots()[a].handle == #[trigger] self.slots()[b].handle implies a
            == b by {
            self.cache.lemma_one_slot(a, b);
        }
        self.mem.lemma_counts();
    }
}

impl<T: Number> CPU<T> {
    /// A device without allocations, with an empty cache and an empty graph,
    /// and without a limit of its own on the number of allocations.
    pub fn new() -> (device: CPU<T>)
        ensures
            device.wf(),
            device.slots() == Map::<u64, CacheEntry>::empty(),
            device.nodes() == Seq::<Node>::empty(),
            device.live() == Map::<u64, RawInfo>::empty(),
            device.data() == Map::<u64, Seq<T>>::empty(),
            device.made() == 0,
            device.freed() == 0,
            device.capacity() == usize::MAX,
    {
        CPU { cache: Cache::new(), graph: Graph::new(), mem: HostMemory::new() }
    }

    /// A device without allocations, with an empty cache and an empty graph,
    /// on which at most `limit` allocations are alive at a time.
    pub fn with_limit(limit: usize) -> (device: CPU<T>)
        ensures
            device.wf(),
            device.slots() == Map::<u64, CacheEntry>::empty(),
            device.nodes() == Seq::<Node>::empty(),
            device.live() == Map::<u64, RawInfo>::empty(),
            device.data() == Map::<u64, Seq<T>>::empty(),
            device.made() == 0,
            device.freed() == 0,
            device.capacity() == limit,
    {
        CPU { cache: Cache::new(), graph: Graph::new(), mem: HostMemory::with_limit(limit) }
    }

    /// The device has room for an allocation while fewer allocations are
    /// alive than its capacity allows, and handles are left to give out.
    pub proof fn lemma_room(&self, len: usize)
        requires
            self.wf(),
        ensures
            self.has_room(len) == (self.live().len() < self.capacity() && self.made()
                < u64::MAX),
    {
        self.mem.lemma_room(len);
    }

    /// Wraps a fresh allocation, held once, in a buffer that owns it, and
    /// records the buffer as a leaf of the graph.
    fn own(&mut self, handle: u64, len: usize) -> (buf: Buffer<T>)
        requires
            old(self).cache.wf(),
            old(self).graph.wf(),
        ensures
            final(self).cache == old(self).cache,
            final(self).mem == old(self).mem,
            final(self).graph.wf(),
            final(self).graph@ == old(self).graph@.push(
                Node { idx: old(self).graph@.len() as usize, deps: Deps::Leaf, len },
            ),
            buf.raw() == (CPUPtr { handle, len, flag: AllocFlag::Owned }),
            buf.slot() == None::<Ident>,
            buf.graph_node() == Some(old(self).graph@.len() as usize),
    {
        let node = self.graph.add_leaf(len);
        Buffer::from_parts(CPUPtr { handle, len, flag: AllocFlag::Owned }, None, Some(node.idx))
    }

    /// `wf` after an allocation that the cache does not keep.
    proof fn lemma_grown(&self, before: &CPU<T>, handle: u64, len: usize)
        requires
            before.wf(),
            self.cache == before.cache,
            self.mem.wf(),
            self.graph.wf(),
            self.graph@.len() >= before.graph@.len(),
            !before.mem.live().contains_key(handle),
            self.mem.live() == before.mem.live().insert(handle, RawInfo { len, refs: 1 }),
        ensures
            self.wf(),
    {
        assert forall|c: u64| #[trigger] self.cache@.contains_key(c) implies self.mem.live().contains_key(
            self.cache@[c].handle,
        ) && self.mem.live()[self.cache@[c].handle].len == self.cache@[c].len by {
            assert(before.mem.live().contains_key(before.cache@[c].handle));
        }
    }

    /// `wf` after a change of elements only.
    proof fn lemma_stored(&self, before: &CPU<T>)
        requires
            before.wf(),
            self.cache == before.cache,
            self.graph == before.graph,
            self.mem.wf(),
            self.mem.live() == before.mem.live(),
        ensures
            self.wf(),
    {
    }

    /// A buffer of `len` zeros on the device: freshly allocated, owned by the
    /// buffer alone, outside the cache, and recorded as a leaf.
    ///
    /// Fails with `InvalidLength` where `len` is 0 and with `AllocationError`
    /// where the device has no room; a failure changes nothing.
    pub fn buffer(&mut self, len: usize) -> (res: Result<Buffer<T>, DeviceError>)
        requires
            old(self).wf(),
        ensures
            final(self).wf(),
            res.is_ok() <==> len > 0 && old(self).has_room(len),
            res matches Err(e) ==> e == (if len == 0 {
                DeviceError::InvalidLength
            } else {
                DeviceError::AllocationError
            }) && final(self).same_as(old(self)),
            res matches Ok(buf) ==> final(self).placed(old(self), &buf, zeros::<T>(len as nat))
                && final(self).holds(&buf),
    {
        match self.mem.allocate(len) {
            Ok(handle) => {
                let buf = self.own(handle, len);
                proof {
                    self.lemma_grown(old(self), handle, len);
                }
                Ok(buf)
            },
            Err(e) => Err(e),
        }
    }

    /// A buffer that holds a copy of `data`: owned by the buffer alone,
    /// outside the cache, and recorded as a leaf.
    ///
    /// Fails with `InvalidLength` on empty data and with `AllocationError`
    /// where the device has no room; a failure changes nothing.
    pub fn with_slice(&mut self, data: &[T]) -> (res: Result<Buffer<T>, DeviceError>)
        requires
            old(self).wf(),
        ensures
            final(self).wf(),
            res.is_ok() <==> data@.len() > 0 && old(self).has_room(data@.len() as usize),
            res matches Err(e) ==> e == (if data@.len() == 0 {
                DeviceError::InvalidLength
            } else {
                DeviceError::AllocationError
            }) && final(self).same_as(old(self)),
            res matches Ok(buf) ==> final(self).placed(old(self), &buf, data@) && final(self).holds(&buf),
    {
        let len = data.len();
        match self.mem.allocate_from_slice(data) {
            Ok(handle) => {
                let buf = self.own(handle, len);
                proof {
                    self.lemma_grown(old(self), handle, len);
                }
                Ok(buf)
            },
            Err(e) => Err(e),
        }
    }

    /// A buffer that takes the elements of `vec` over without copying them:
    /// owned by the buffer alone, outside the cache, and recorded as a leaf.
    ///
    /// Fails as `with_slice` does.
    pub fn alloc_with_vec(&mut self, vec: Vec<T>) -> (res: Result<Buffer<T>, DeviceError>)
        requires
            old(self).wf(),
        ensures
            final(self).wf(),
            res.is_ok() <==> vec@.len() > 0 && old(self).has_room(vec@.len() as usize),
            res matches Err(e) ==> e == (if vec@.len() == 0 {
                DeviceError::InvalidLength
            } else {
                DeviceError::AllocationError
            }) && final(self).same_as(old(self)),
            res matches Ok(buf) ==> final(self).placed(old(self), &buf, vec@) && final(self).holds(&buf),
    {
        let len = vec.len();
        match self.mem.allocate_from_vec(vec) {
            Ok(handle) => {
                let buf = self.own(handle, len);
                proof {
                    self.lemma_grown(old(self), handle, len);
                }
                Ok(buf)
            },
            Err(e) => Err(e),
        }
    }

    /// Whether `buf` points to a live allocation of this device, of the
    /// buffer's length, with a node of this device's graph.
    pub fn owns(&self, buf: &Buffer<T>) -> (b: bool)
        requires
            self.wf(),
        ensures
            b == self.holds(buf),
    {
        let node_ok = match buf.node() {
            Some(i) => i < self.graph.len(),
            None => true,
        };
        match self.mem.info(buf.handle()) {
            Some(info) => info.len == buf.len() && node_ok,
            None => false,
        }
    }

    /// Whether `buf` can be given up.
    pub fn releasable(&self, buf: &Buffer<T>) -> (b: bool)
        requires
            self.wf(),
        ensures
            b == self.can_release(buf),
    {
        if !self.owns(buf) {
            return false;
        }
        if buf.flag().is_counted() && self.cache.contains_handle(buf.handle()) {
            match self.mem.info(buf.handle()) {
                Some(info) => info.refs >= 2,
                None => false,
            }
        } else {
            true
        }
    }

    /// Whether a request under `ident` will be granted.
    pub fn will_grant(&self, ident: Ident) -> (b: bool)
        requires
            self.wf(),
        ensures
            b == self.grants(ident),
    {
        if ident.len == 0 {
            return false;
        }
        match self.cache.lookup(ident) {
            Some(entry) => match self.mem.info(entry.handle) {
                Some(info) => info.refs < usize::MAX,
                None => false,
            },
            None => self.mem.room(ident.len),
        }
    }

    /// Asks the cache of the device for the buffer of `ident`, to be recorded
    /// as made from `deps` if it has to be allocated.
    ///
    /// Fails with `InvalidLength` where `ident` asks for no elements, and
    /// with `AllocationError` where the device refuses; a failure changes
    /// nothing.
    pub fn get_cached(&mut self, ident: Ident, deps: Option<Deps>) -> (res: Result<
        Buffer<T>,
        DeviceError,
    >)
        requires
            old(self).wf(),
            deps matches Some(d) ==> d.below(old(self).nodes().len() as int),
        ensures
            final(self).wf(),
            res.is_ok() <==> old(self).grants(ident),
            res matches Err(e) ==> {
                &&& e == (if ident.len == 0 {
                    DeviceError::InvalidLength
                } else {
                    DeviceError::AllocationError
                })
                &&& final(self).same_as(old(self))
            },
            res matches Ok(buf) ==> final(self).fetched(old(self), ident, deps, &buf)
                && final(self).holds(&buf),
    {
        match self.cache.get(&mut self.mem, &mut self.graph, ident, deps) {
            Ok(entry) => {
                let buf = Buffer::cached(entry, ident);
                proof {
                    assert(self.cache@.contains_key(ident.count));
                    assert forall|c: u64| #[trigger] self.cache@.contains_key(c) implies (
                    self.cache@[c].node matches Some(i) ==> i < self.graph@.len()) by {
                        if c != ident.count || hit(old(self).cache@, ident) {
                            assert(old(self).cache@.contains_key(c));
                        }
                    }
                }
                Ok(buf)
            },
            Err(e) => Err(e),
        }
    }

    /// Asks `cache`, a cache of allocations of this device that shares none
    /// with the device's own, for the buffer of `ident`, to be recorded as
    /// made from `deps` if it has to be allocated and `deps` names a node.
    ///
    /// Fails with `InvalidLength` where `ident` asks for no elements, and
    /// with `AllocationError` where the device refuses; a failure changes
    /// nothing.
    pub fn get_from(&mut self, cache: &mut Cache, ident: Ident, deps: Option<Deps>) -> (res:
        Result<Buffer<T>, DeviceError>)
        requires
            old(self).wf(),
            old(cache).wf(),
            backed(old(cache)@, old(self).live()),
            apart(old(cache)@, old(self).slots()),
            nodes_below(old(cache)@, old(self).nodes().len()),
            deps matches Some(d) ==> d.below(old(self).nodes().len() as int),
        ensures
            final(self).wf(),
            final(cache).wf(),
            backed(final(cache)@, final(self).live()),
            apart(final(cache)@, final(self).slots()),
            nodes_below(final(cache)@, final(self).nodes().len()),
            res.is_ok() <==> ident.len > 0 && (if hit(old(cache)@, ident) {
                old(self).live()[old(cache)@[ident.count].handle].refs < usize::MAX
            } else {
                old(self).has_room(ident.len)
            }),
            res matches Err(e) ==> {
                &&& e == (if ident.len == 0 {
                    DeviceError::InvalidLength
                } else {
                    DeviceError::AllocationError
                })
                &&& final(self).same_as(old(self))
                &&& final(cache)@ == old(cache)@
            },
            res matches Ok(buf) ==> {
                &&& final(self).drawn_from(old(self), old(cache)@, ident, deps, &buf)
                &&& final(self).data() == old(self).data_after_get(
                    old(cache)@,
                    ident,
                    buf.raw().handle,
                )
                &&& final(self).slots() == old(self).slots()
                &&& final(cache)@ == after_get(old(cache)@, ident, entry_of(&buf))
                &&& final(self).holds(&buf)
            },
    {
        match cache.get(&mut self.mem, &mut self.graph, ident, deps) {
            Ok(entry) => {
                let buf = Buffer::cached(entry, ident);
                proof {
                    assert(cache@.contains_key(ident.count));
                    assert forall|c: u64| #[trigger] self.cache@.contains_key(c) implies self.mem.live().contains_key(
                        self.cache@[c].handle,
                    ) && self.mem.live()[self.cache@[c].handle].len == self.cache@[c].len by {
                        assert(old(self).mem.live().contains_key(self.cache@[c].handle));
                        if old(cache)@.contains_key(ident.count) {
                            assert(old(cache)@[ident.count].handle != self.cache@[c].handle);
                        }
                    }
                    assert forall|x: u64, y: u64|
                        cache@.contains_key(x) && self.cache@.contains_key(y) implies #[trigger] cache@[x].handle
                        != #[trigger] self.cache@[y].handle by {
                        assert(old(self).mem.live().contains_key(self.cache@[y].handle));
                        if x != ident.count || hit(old(cache)@, ident) {
                            assert(old(cache)@.contains_key(x));
                        }
                    }
                }
                Ok(buf)
            },
            Err(e) => Err(e),
        }
    }

    /// Draws a buffer of `elems.len()` elements from the cache, under the
    /// next identity and as made from `deps`, and fills it with `elems`.
    fn emit(&mut self, counter: &mut Counter, deps: Deps, elems: Vec<T>) -> (res: Result<
        Buffer<T>,
        DeviceError,
    >)
        requires
            old(self).wf(),
            old(counter)@ < u64::MAX,
            deps.below(old(self).nodes().len() as int),
        ensures
            final(self).wf(),
            res.is_ok() <==> old(self).grants(
                Ident { count: old(counter)@, len: elems@.len() as usize },
            ),
            res matches Err(e) ==> {
                &&& e == (if elems@.len() == 0 {
                    DeviceError::InvalidLength
                } else {
                    DeviceError::AllocationError
                })
                &&& final(self).same_as(old(self))
                &&& final(counter)@ == old(counter)@
            },
            res matches Ok(out) ==> {
                &&& final(self).emitted(
                    old(self),
                    Ident { count: old(counter)@, len: elems@.len() as usize },
                    Some(deps),
                    &out,
                )
                &&& final(self).contents(&out) == elems@
                &&& final(self).holds(&out)
                &&& final(counter)@ == old(counter)@ + 1
            },
    {
        let ident = counter.peek_ident(elems.len());
        match self.get_cached(ident, Some(deps)) {
            Ok(out) => {
                let ghost mid = *self;
                proof {
                    self.mem.lemma_data_dom();
                    self.mem.lemma_live_held(out.raw().handle);
                }
                self.mem.write(out.handle(), elems.as_slice());
                counter.bump_count();
                proof {
                    self.lemma_stored(&mid);
                }
                Ok(out)
            },
            Err(e) => Err(e),
        }
    }

    /// A buffer that holds a copy of `data` and has an identity: drawn from
    /// the cache under the next identity, as a leaf of the graph, and filled
    /// with `data`. This is how data from outside takes part in operations
    /// that are recorded for a backward pass, which know their buffers by
    /// identity. The counter advances where a buffer is handed out.
    ///
    /// Fails with `InvalidLength` on empty data and with `AllocationError`
    /// where the device refuses; a failure changes nothing, the counter
    /// included.
    pub fn cached_with(&mut self, counter: &mut Counter, data: &[T]) -> (res: Result<
        Buffer<T>,
        DeviceError,
    >)
        requires
            old(self).wf(),
            old(counter)@ < u64::MAX,
        ensures
            final(self).wf(),
            res.is_ok() <==> old(self).grants(
                Ident { count: old(counter)@, len: data@.len() as usize },
            ),
            res matches Err(e) ==> {
                &&& e == (if data@.len() == 0 {
                    DeviceError::InvalidLength
                } else {
                    DeviceError::AllocationError
                })
                &&& final(self).same_as(old(self))
                &&& final(counter)@ == old(counter)@
            },
            res matches Ok(buf) ==> {
                &&& final(self).emitted(
                    old(self),
                    Ident { count: old(counter)@, len: data@.len() as usize },
                    Some(Deps::Leaf),
                    &buf,
                )
                &&& final(self).contents(&buf) == data@
                &&& final(self).holds(&buf)
                &&& final(counter)@ == old(counter)@ + 1
            },
    {
        let mut elems: Vec<T> = Vec::new();
        let mut i: usize = 0;
        while i < data.len()
            invariant
                i <= data@.len(),
                elems@ == data@.subrange(0, i as int),
            decreases data@.len() - i,
        {
            elems.push(data[i]);
            i = i + 1;
            assert(elems@ =~= data@.subrange(0, i as int));
        }
        assert(elems@ =~= data@);
        self.emit(counter, Deps::Leaf, elems)
    }

    /// Gives the buffer up, and frees its allocation if the buffer was its
    /// last holder. Returns whether the allocation was freed.
    ///
    /// An allocation that the cache keeps is not freed: the cache holds it
    /// too.
    pub fn release(&mut self, buf: Buffer<T>) -> (gone: bool)
        requires
            old(self).wf(),
            old(self).can_release(&buf),
        ensures
            final(self).wf(),
            final(self).dropped(old(self), &buf, gone),
            kept(old(self).slots(), buf.raw().handle) ==> !gone,
    {
        if !buf.flag().is_counted() {
            return false;
        }
        let handle = buf.handle();
        let gone = self.mem.release(handle);
        proof {
            assert forall|c: u64| #[trigger] self.cache@.contains_key(c) implies self.mem.live().contains_key(
                self.cache@[c].handle,
            ) && self.mem.live()[self.cache@[c].handle].len == self.cache@[c].len by {
                assert(old(self).mem.live().contains_key(self.cache@[c].handle));
            }
        }
        gone
    }

    /// Copies the elements of `src` in `src_range` over those of `dst` in
    /// `dst_range`, which is as long.
    pub fn copy_slice_to(
        &mut self,
        src: &Buffer<T>,
        src_range: core::ops::Range<usize>,
        dst: &Buffer<T>,
        dst_range: core::ops::Range<usize>,
    )
        requires
            old(self).wf(),
            old(self).holds(src),
            old(self).holds(dst),
            src_range.start <= src_range.end <= src.raw().len,
            dst_range.start <= dst_range.end <= dst.raw().len,
            src_range.end - src_range.start == dst_range.end - dst_range.start,
        ensures
            final(self).wf(),
            final(self).stored(
                old(self),
                dst,
                spliced(
                    old(self).contents(dst),
                    dst_range.start as int,
                    old(self).contents(src).subrange(
                        src_range.start as int,
                        src_range.end as int,
                    ),
                ),
            ),
    {
        proof {
            self.mem.lemma_data_dom();
            self.mem.lemma_live_held(src.raw().handle);
            self.mem.lemma_live_held(dst.raw().handle);
        }
        self.mem.copy_within(
            src.handle(),
            src_range.start,
            dst.handle(),
            dst_range.start,
            src_range.end - src_range.start,
        );
        proof {
            self.lemma_stored(old(self));
        }
    }

    /// Copies range by range: for each pair in `ranges`, in their order, the
    /// elements of `src` in the first range over those of `dst` in the
    /// second, as `copy_slice_to` does.
    pub fn copy_slice_all(
        &mut self,
        src: &Buffer<T>,
        dst: &Buffer<T>,
        ranges: &[(core::ops::Range<usize>, core::ops::Range<usize>)],
    )
        requires
            old(self).wf(),
            old(self).holds(src),
            old(self).holds(dst),
            forall|i: int|
                0 <= i < ranges@.len() ==> fits(
                    #[trigger] ranges@[i],
                    src.raw().len as int,
                    dst.raw().len as int,
                ),
        ensures
            final(self).wf(),
            final(self).stored(
                old(self),
                dst,
                copied_all(
                    old(self).contents(dst),
                    old(self).contents(src),
                    src.raw().handle == dst.raw().handle,
                    ranges@,
                ),
            ),
    {
        proof {
            self.lemma_wf();
            assert(self.data() =~= old(self).data().insert(
                dst.raw().handle,
                old(self).contents(dst),
            ));
            assert(ranges@.subrange(0, 0) =~= Seq::empty());
        }
        let ghost same = src.raw().handle == dst.raw().handle;
        let mut i: usize = 0;
        while i < ranges.len()
            invariant
                i <= ranges@.len(),
                self.wf(),
                old(self).wf(),
                self.holds(src),
                self.holds(dst),
                same == (src.raw().handle == dst.raw().handle),
                forall|k: int|
                    0 <= k < ranges@.len() ==> fits(
                        #[trigger] ranges@[k],
                        src.raw().len as int,
                        dst.raw().len as int,
                    ),
                !same ==> self.contents(src) == old(self).contents(src),
                self.stored(
                    old(self),
                    dst,
                    copied_all(
                        old(self).contents(dst),
                        old(self).contents(src),
                        same,
                        ranges@.subrange(0, i as int),
                    ),
                ),
            decreases ranges@.len() - i,
        {
            let ghost before = *self;
            assert(fits(ranges@[i as int], src.raw().len as int, dst.raw().len as int));
            let from = ranges[i].0.start..ranges[i].0.end;
            let to = ranges[i].1.start..ranges[i].1.end;
            self.copy_slice_to(src, from, dst, to);
            proof {
                let done = ranges@.subrange(0, i + 1);
                assert(done.drop_last() =~= ranges@.subrange(0, i as int));
                assert(done.last() == ranges@[i as int]);
                assert(self.data() =~= old(self).data().insert(
                    dst.raw().handle,
                    self.contents(dst),
                ));
            }
            i = i + 1;
        }
        assert(ranges@.subrange(0, i as int) =~= ranges@);
    }

    /// Tears the device down to what it was when it was opened: the cache and
    /// the graph are emptied and every allocation is freed, whoever holds it.
    /// Buffers of the device that are still about point to nothing from now
    /// on; no later allocation takes their handles.
    pub fn reset(&mut self)
        requires
            old(self).wf(),
        ensures
            final(self).wf(),
            final(self).slots() == Map::<u64, CacheEntry>::empty(),
            final(self).nodes() == Seq::<Node>::empty(),
            final(self).live() == Map::<u64, RawInfo>::empty(),
            final(self).data() == Map::<u64, Seq<T>>::empty(),
            final(self).made() == old(self).made(),
            final(self).freed() == old(self).made(),
            final(self).capacity() == old(self).capacity(),
    {
        self.cache = Cache::new();
        self.graph = Graph::new();
        self.mem.clear();
    }

    /// Number of filled slots of the cache.
    pub fn cache_len(&self) -> (n: usize)
        ensures
            n == self.slots().len(),
            self.slots().dom().finite(),
    {
        self.cache.len()
    }

    /// The cache of the device.
    pub fn cache(&self) -> (cache: &Cache)
        ensures
            cache@ == self.slots(),
    {
        &self.cache
    }

    /// The graph of the device.
    pub fn graph(&self) -> (graph: &Graph)
        ensures
            graph@ == self.nodes(),
    {
        &self.graph
    }

    /// Number of allocations the device has made so far.
    pub fn allocations(&self) -> (n: u64)
        ensures
            n == self.made(),
    {
        self.mem.made_count()
    }

    /// Number of allocations that are alive.
    pub fn live_allocations(&self) -> (n: usize)
        requires
            self.wf(),
        ensures
            n == self.made() - self.freed(),
            n == self.live().len(),
    {
        self.mem.live_count()
    }

    /// The books of the allocation that `buf` points to, if it is alive.
    pub fn info(&self, buf: &Buffer<T>) -> (info: Option<RawInfo>)
        requires
            self.wf(),
        ensures
            info == (if self.live().contains_key(buf.raw().handle) {
                Some(self.live()[buf.raw().handle])
            } else {
                None
            }),
    {
        self.mem.info(buf.handle())
    }
}

impl<T: Number> DevicelessAble<T> for CPU<T> {
}

impl<T: Number> Read<T> for CPU<T> {
    fn read<'a>(&'a self, buf: &Buffer<T>) -> (elems: &'a [T]) {
        proof {
            self.mem.lemma_live_held(buf.raw().handle);
        }
        self.mem.read(buf.handle())
    }

    fn read_to_vec(&self, buf: &Buffer<T>) -> (elems: Vec<T>) {
        proof {
            self.mem.lemma_live_held(buf.raw().handle);
        }
        self.mem.read_to_vec(buf.handle())
    }
}

impl<T: Number> VecRead<T> for CPU<T> {
    fn read_vec(&self, buf: &Buffer<T>) -> (elems: Vec<T>) {
        self.read_to_vec(buf)
    }
}

impl<T: Number> WriteBuf<T> for CPU<T> {
    fn write(&mut self, buf: &Buffer<T>, data: &[T]) {
        proof {
            self.mem.lemma_live_held(buf.raw().handle);
        }
        self.mem.write(buf.handle(), data);
        proof {
            self.lemma_stored(old(self));
        }
    }
}

impl<T: Number> ClearBuf<T> for CPU<T> {
    fn clear(&mut self, buf: &Buffer<T>) {
        proof {
            self.mem.lemma_live_held(buf.raw().handle);
        }
        self.mem.fill(buf.handle(), T::zero());
        proof {
            self.lemma_stored(old(self));
            assert(Seq::new(old(self).data()[buf.raw().handle].len(), |i: int| T::zero_spec())
                =~= zeros::<T>(buf.raw().len as nat));
        }
    }
}

impl<T: Number> CloneBuf<T> for CPU<T> {
    fn clone_buf(&mut self, buf: &Buffer<T>) -> (res: Result<Buffer<T>, DeviceError>) {
        proof {
            self.lemma_wf();
        }
        let elems = self.read_to_vec(buf);
        self.alloc_with_vec(elems)
    }
}

impl<T: Number> CacheBuf<T> for CPU<T> {
    fn cached(&mut self, counter: &mut Counter, len: usize) -> (res: Result<
        Buffer<T>,
        DeviceError,
    >) {
        let ident = counter.peek_ident(len);
        match self.get_cached(ident, Some(Deps::Leaf)) {
            Ok(buf) => {
                counter.bump_count();
                Ok(buf)
            },
            Err(e) => Err(e),
        }
    }
}

impl<T: Number> ApplyFunction<T> for CPU<T> {
    fn apply_fn<F: Fn(T) -> T>(&mut self, counter: &mut Counter, buf: &Buffer<T>, f: F) -> (res:
        Result<Buffer<T>, DeviceError>) {
        proof {
            self.lemma_wf();
        }
        let src = self.read(buf);
        let mut out: Vec<T> = Vec::new();
        let mut i: usize = 0;
        while i < src.len()
            invariant
                i <= src@.len(),
                out@.len() == i,
                forall|x: T| call_requires(f, (x,)),
                forall|j: int| 0 <= j < i ==> call_ensures(f, (src@[j],), #[trigger] out@[j]),
            decreases src@.len() - i,
        {
            out.push(f(src[i]));
            i = i + 1;
        }
        let deps = Deps::of(buf.node(), None);
        self.emit(counter, deps, out)
    }
}

impl<T: Number> UnaryGrad<T> for CPU<T> {
    fn add_unary_grad<F: Fn(T) -> T>(
        &mut self,
        lhs: &Buffer<T>,
        lhs_grad: &Buffer<T>,
        out: &Buffer<T>,
        lhs_grad_fn: F,
    ) {
        proof {
            self.lemma_wf();
        }
        let xs = self.read(lhs);
        let grads = self.read(lhs_grad);
        let outs = self.read(out);
        let upto = if xs.len() <= grads.len() && xs.len() <= outs.len() {
            xs.len()
        } else if grads.len() <= outs.len() {
            grads.len()
        } else {
            outs.len()
        };
        let mut new: Vec<T> = Vec::new();
        let mut i: usize = 0;
        while i < grads.len()
            invariant
                i <= grads@.len(),
                upto <= xs@.len(),
                upto <= grads@.len(),
                upto <= outs@.len(),
                new@.len() == i,
                forall|x: T| call_requires(lhs_grad_fn, (x,)),
                forall|j: int|
                    0 <= j < i && j < upto ==> accumulated(
                        lhs_grad_fn,
                        xs@[j],
                        grads@[j],
                        outs@[j],
                        #[trigger] new@[j],
                    ),
                forall|j: int| upto <= j < i ==> #[trigger] new@[j] == grads@[j],
            decreases grads@.len() - i,
        {
            if i < upto {
                let d = lhs_grad_fn(xs[i]);
                new.push(grads[i].plus(outs[i].times(d)));
            } else {
                new.push(grads[i]);
            }
            i = i + 1;
        }
        self.mem.write(lhs_grad.handle(), new.as_slice());
        proof {
            self.lemma_stored(old(self));
            assert(xs@.len() == lhs.raw().len);
            assert(grads@.len() == lhs_grad.raw().len);
            assert(outs@.len() == out.raw().len);
        }
    }
}

impl<T: Number> Default for CPU<T> {
    fn default() -> (device: CPU<T>)
        ensures
            device.wf(),
            device.slots() == Map::<u64, CacheEntry>::empty(),
            device.nodes() == Seq::<Node>::empty(),
            device.live() == Map::<u64, RawInfo>::empty(),
            device.data() == Map::<u64, Seq<T>>::empty(),
            device.made() == 0,
            device.freed() == 0,
            device.capacity() == usize::MAX,
    {
        CPU::new()
    }
}

impl<T: Number> Buffer<T, CPUPtr> {
    /// A buffer of `len` zeros on `device`: freshly allocated, owned by the
    /// buffer alone, outside the cache, and recorded as a leaf.
    ///
    /// Fails with `InvalidLength` where `len` is 0 and with `AllocationError`
    /// where the device has no room; a failure changes nothing.
    pub fn new(device: &mut CPU<T>, len: usize) -> (res: Result<Buffer<T>, DeviceError>)
        requires
            old(device).wf(),
        ensures
            final(device).wf(),
            res.is_ok() <==> len > 0 && old(device).has_room(len),
            res matches Err(e) ==> e == (if len == 0 {
                DeviceError::InvalidLength
            } else {
                DeviceError::AllocationError
            }) && final(device).same_as(old(device)),
            res matches Ok(buf) ==> final(device).placed(
                old(device),
                &buf,
                zeros::<T>(len as nat),
            ) && final(device).holds(&buf),
    {
        device.buffer(len)
    }
}

/// Draws the next identity for `len` elements and asks the cache of `device`
/// for its buffer, as a leaf of the graph. The counter advances where a
/// buffer is handed out.
///
/// Fails with `InvalidLength` where `len` is 0, and with `AllocationError`
/// where the device refuses; a failure changes nothing, the counter included.
pub fn cpu_cached<T: Number>(device: &mut CPU<T>, counter: &mut Counter, len: usize) -> (res:
    Result<Buffer<T>, DeviceError>)
    requires
        old(device).wf(),
        old(counter)@ < u64::MAX,
    ensures
        final(device).wf(),
        res.is_ok() <==> old(device).grants(Ident { count: old(counter)@, len }),
        res matches Err(e) ==> {
            &&& e == (if len == 0 {
                DeviceError::InvalidLength
            } else {
                DeviceError::AllocationError
            })
            &&& final(device).same_as(old(device))
            &&& final(counter)@ == old(counter)@
        },
        res matches Ok(buf) ==> {
            &&& final(device).fetched(
                old(device),
                Ident { count: old(counter)@, len },
                Some(Deps::Leaf),
                &buf,
            )
            &&& final(device).holds(&buf)
            &&& final(counter)@ == old(counter)@ + 1
        },
{
    device.cached(counter, len)
}

/// Draws a buffer from the cache of `device`, under the next identity and as
/// made from `lhs` and `rhs`, and fills it with the results of `f` on the
/// elements of `lhs` and `rhs`, pair by pair, as far as the shorter of the two
/// reaches. The counter advances where a buffer is handed out.
///
/// Fails with `AllocationError` where the device refuses; a failure changes
/// nothing, the counter included.
pub fn ew_op<T: Number, F: Fn(T, T) -> T>(
    device: &mut CPU<T>,
    counter: &mut Counter,
    lhs: &Buffer<T>,
    rhs: &Buffer<T>,
    f: F,
) -> (res: Result<Buffer<T>, DeviceError>)
    requires
        old(device).wf(),
        old(device).holds(lhs),
        old(device).holds(rhs),
        old(counter)@ < u64::MAX,
        forall|x: T, y: T| call_requires(f, (x, y)),
    ensures
        final(device).wf(),
        res.is_ok() <==> old(device).grants(
            Ident { count: old(counter)@, len: shorter(lhs.raw().len, rhs.raw().len) },
        ),
        res matches Err(e) ==> {
            &&& e == DeviceError::AllocationError
            &&& final(device).same_as(old(device))
            &&& final(counter)@ == old(counter)@
        },
        res matches Ok(out) ==> {
            &&& ew_done(f, *old(device), *final(device), old(counter)@, lhs, rhs, &out)
            &&& final(device).holds(&out)
            &&& final(counter)@ == old(counter)@ + 1
        },
{
    proof {
        device.lemma_wf();
    }
    let a = device.read(lhs);
    let b = device.read(rhs);
    let len = if a.len() <= b.len() {
        a.len()
    } else {
        b.len()
    };
    let mut out: Vec<T> = Vec::new();
    let mut i: usize = 0;
    while i < len
        invariant
            i <= len,
            len <= a@.len(),
            len <= b@.len(),
            out@.len() == i,
            forall|x: T, y: T| call_requires(f, (x, y)),
            forall|j: int| 0 <= j < i ==> call_ensures(f, (a@[j], b@[j]), #[trigger] out@[j]),
        decreases len - i,
    {
        out.push(f(a[i], b[i]));
        i = i + 1;
    }
    let deps = Deps::of(lhs.node(), rhs.node());
    device.emit(counter, deps, out)
}

/// Both ranges of the pair are in order, the first within `src_len` elements
/// and the second within `dst_len`, and they are equally long.
pub open spec fn fits(
    pair: (core::ops::Range<usize>, core::ops::Range<usize>),
    src_len: int,
    dst_len: int,
) -> bool {
    &&& pair.0.start <= pair.0.end <= src_len
    &&& pair.1.start <= pair.1.end <= dst_len
    &&& pair.0.end - pair.0.start == pair.1.end - pair.1.start
}

/// The elements `dst` after the copies that `ranges` name, one after the
/// other, from the elements `src`, or from `dst` itself as the copies so far
/// have left it where `same` says that source and destination are one.
pub open spec fn copied_all<T>(
    dst: Seq<T>,
    src: Seq<T>,
    same: bool,
    ranges: Seq<(core::ops::Range<usize>, core::ops::Range<usize>)>,
) -> Seq<T>
    decreases ranges.len(),
{
    if ranges.len() == 0 {
        dst
    } else {
        let so_far = copied_all(dst, src, same, ranges.drop_last());
        let from = if same {
            so_far
        } else {
            src
        };
        spliced(
            so_far,
            ranges.last().1.start as int,
            from.subrange(ranges.last().0.start as int, ranges.last().0.end as int),
        )
    }
}

/// The elements of `lhs` and `rhs` combined by `op`, pair by pair, as far as
/// the shorter of the two reaches.
pub open spec fn combined<T>(lhs: Seq<T>, rhs: Seq<T>, op: spec_fn(T, T) -> T) -> Seq<T> {
    Seq::new(
        if lhs.len() <= rhs.len() {
            lhs.len()
        } else {
            rhs.len()
        },
        |i: int| op(lhs[i], rhs[i]),
    )
}

impl<T: Number> CPU<T> {
    /// What an operation of the device that combines `lhs` and `rhs` by `op`
    /// has made of the device `before`, where the counter stood at `count`:
    /// it drew `out` from the cache under the identity at the counter, as
    /// made from the two, and filled it with the elements of `lhs` and `rhs`
    /// as they were on `before`, combined by `op`. No element is left over
    /// from what the slot held.
    pub open spec fn ew_filled(
        &self,
        before: &CPU<T>,
        count: u64,
        lhs: &Buffer<T>,
        rhs: &Buffer<T>,
        out: &Buffer<T>,
        op: spec_fn(T, T) -> T,
    ) -> bool {
        &&& self.emitted(
            before,
            Ident { count, len: shorter(lhs.raw().len, rhs.raw().len) },
            Some(deps_of(lhs, Some(rhs))),
            out,
        )
        &&& self.contents(out) == combined(before.contents(lhs), before.contents(rhs), op)
    }

    /// The sums of the elements of `lhs` and `rhs`, pair by pair, in a buffer
    /// drawn from the cache under the next identity: `ew_op` with the sum of
    /// the element type. The counter advances where a buffer is handed out.
    ///
    /// Fails with `AllocationError` where the device refuses; a failure
    /// changes nothing, the counter included.
    pub fn add(&mut self, counter: &mut Counter, lhs: &Buffer<T>, rhs: &Buffer<T>) -> (res: Result<
        Buffer<T>,
        DeviceError,
    >)
        requires
            old(self).wf(),
            old(self).holds(lhs),
            old(self).holds(rhs),
            old(counter)@ < u64::MAX,
        ensures
            final(self).wf(),
            res.is_ok() <==> old(self).grants(
                Ident { count: old(counter)@, len: shorter(lhs.raw().len, rhs.raw().len) },
            ),
            res matches Err(e) ==> {
                &&& e == DeviceError::AllocationError
                &&& final(self).same_as(old(self))
                &&& final(counter)@ == old(counter)@
            },
            res matches Ok(out) ==> {
                &&& final(self).ew_filled(
                    old(self),
                    old(counter)@,
                    lhs,
                    rhs,
                    &out,
                    |x: T, y: T| x.plus_spec(y),
                )
                &&& final(self).holds(&out)
                &&& final(counter)@ == old(counter)@ + 1
            },
    {
        proof {
            self.lemma_wf();
        }
        let sum = |x: T, y: T| -> (r: T)
            ensures
                r == x.plus_spec(y),
            { x.plus(y) };
        let res = ew_op(self, counter, lhs, rhs, sum);
        proof {
            if res is Ok {
                let out = res->Ok_0;
                assert(self.contents(&out) =~= combined(
                    old(self).contents(lhs),
                    old(self).contents(rhs),
                    |x: T, y: T| x.plus_spec(y),
                ));
            }
        }
        res
    }

    /// The differences of the elements of `lhs` and `rhs`, pair by pair: as
    /// `add`, with the difference of the element type.
    pub fn sub(&mut self, counter: &mut Counter, lhs: &Buffer<T>, rhs: &Buffer<T>) -> (res: Result<
        Buffer<T>,
        DeviceError,
    >)
        requires
            old(self).wf(),
            old(self).holds(lhs),
            old(self).holds(rhs),
            old(counter)@ < u64::MAX,
        ensures
            final(self).wf(),
            res.is_ok() <==> old(self).grants(
                Ident { count: old(counter)@, len: shorter(lhs.raw().len, rhs.raw().len) },
            ),
            res matches Err(e) ==> {
                &&& e == DeviceError::AllocationError
                &&& final(self).same_as(old(self))
                &&& final(counter)@ == old(counter)@
            },
            res matches Ok(out) ==> {
                &&& final(self).ew_filled(
                    old(self),
                    old(counter)@,
                    lhs,
                    rhs,
                    &out,
                    |x: T, y: T| x.minus_spec(y),
                )
                &&& final(self).holds(&out)
                &&& final(counter)@ == old(counter)@ + 1
            },
    {
        proof {
            self.lemma_wf();
        }
        let difference = |x: T, y: T| -> (r: T)
            ensures
                r == x.minus_spec(y),
            { x.minus(y) };
        let res = ew_op(self, counter, lhs, rhs, difference);
        proof {
            if res is Ok {
                let out = res->Ok_0;
                assert(self.contents(&out) =~= combined(
                    old(self).contents(lhs),
                    old(self).contents(rhs),
                    |x: T, y: T| x.minus_spec(y),
                ));
            }
        }
        res
    }

    /// The products of the elements of `lhs` and `rhs`, pair by pair: as
    /// `add`, with the product of the element type.
    pub fn mul(&mut self, counter: &mut Counter, lhs: &Buffer<T>, rhs: &Buffer<T>) -> (res: Result<
        Buffer<T>,
        DeviceError,
    >)
        requires
            old(self).wf(),
            old(self).holds(lhs),
            old(self).holds(rhs),
            old(counter)@ < u64::MAX,
        ensures
            final(self).wf(),
            res.is_ok() <==> old(self).grants(
                Ident { count: old(counter)@, len: shorter(lhs.raw().len, rhs.raw().len) },
            ),
            res matches Err(e) ==> {
                &&& e == DeviceError::AllocationError
                &&& final(self).same_as(old(self))
                &&& final(counter)@ == old(counter)@
            },
            res matches Ok(out) ==> {
                &&& final(self).ew_filled(
                    old(self),
                    old(counter)@,
                    lhs,
                    rhs,
                    &out,
                    |x: T, y: T| x.times_spec(y),
                )
                &&& final(self).holds(&out)
                &&& final(counter)@ == old(counter)@ + 1
            },
    {
        proof {
            self.lemma_wf();
        }
        let product = |x: T, y: T| -> (r: T)
            ensures
                r == x.times_spec(y),
            { x.times(y) };
        let res = ew_op(self, counter, lhs, rhs, product);
        proof {
            if res is Ok {
                let out = res->Ok_0;
                assert(self.contents(&out) =~= combined(
                    old(self).contents(lhs),
                    old(self).contents(rhs),
                    |x: T, y: T| x.times_spec(y),
                ));
            }
        }
        res
    }

    /// A repeated operation refills the slot it reuses.
    ///
    /// Let `add`, `sub` or `mul` be called with the counter where it stood at
    /// an earlier call with operands of these lengths, so that the slot of
    /// its identity holds the output of that call. The elements of the
    /// operands may have been overwritten since. Then the call allocates
    /// nothing and leaves cache and graph as they are; it hands out the
    /// allocation in the slot, with the length of the shorter operand; every
    /// element of it is the operands' elements as they are now, combined; and
    /// every other allocation holds what it held, the operands among them
    /// unless one of them is the output itself.
    pub proof fn lemma_reused_slot_refilled(
        &self,
        before: &CPU<T>,
        count: u64,
        lhs: &Buffer<T>,
        rhs: &Buffer<T>,
        out: &Buffer<T>,
        op: spec_fn(T, T) -> T,
    )
        requires
            before.wf(),
            before.holds(lhs),
            before.holds(rhs),
            hit(before.slots(), Ident { count, len: shorter(lhs.raw().len, rhs.raw().len) }),
            self.ew_filled(before, count, lhs, rhs, out, op),
        ensures
            self.made() == before.made(),
            self.freed() == before.freed(),
            self.slots() == before.slots(),
            self.nodes() == before.nodes(),
            out.raw().handle == before.slots()[count].handle,
            out.raw().len == shorter(lhs.raw().len, rhs.raw().len),
            self.contents(out).len() == out.raw().len,
            forall|i: int|
                0 <= i < out.raw().len ==> #[trigger] self.contents(out)[i] == op(
                    before.contents(lhs)[i],
                    before.contents(rhs)[i],
                ),
            forall|h: u64|
                h != out.raw().handle && before.data().contains_key(h)
                    ==> #[trigger] self.data()[h] == before.data()[h],
            lhs.raw().handle != out.raw().handle ==> self.contents(lhs) == before.contents(lhs),
            rhs.raw().handle != out.raw().handle ==> self.contents(rhs) == before.contents(rhs),
    {
        before.lemma_wf();
    }
}

/// What `ew_op` with the function `f` has made of the device `before`, where
/// the counter stood at `count`: it drew `out` from the cache under the
/// identity at the counter, for as many elements as the shorter of `lhs` and
/// `rhs` has and as made from the two, and filled it with results of `f` on
/// the elements that `lhs` and `rhs` held on `before`, pair by pair.
pub open spec fn ew_done<T: Number, F: Fn(T, T) -> T>(
    f: F,
    before: CPU<T>,
    after: CPU<T>,
    count: u64,
    lhs: &Buffer<T>,
    rhs: &Buffer<T>,
    out: &Buffer<T>,
) -> bool {
    &&& after.emitted(
        &before,
        Ident { count, len: shorter(lhs.raw().len, rhs.raw().len) },
        Some(deps_of(lhs, Some(rhs))),
        out,
    )
    &&& forall|i: int|
        0 <= i < shorter(lhs.raw().len, rhs.raw().len) ==> call_ensures(
            f,
            (before.contents(lhs)[i], before.contents(rhs)[i]),
            #[trigger] after.contents(out)[i],
        )
}

/// A repeated operation refills the slot it reuses.
///
/// Let `ew_op` be called with the counter where it stood at an earlier call,
/// so that the slot of its identity holds the output of that call, and let
/// `f` have one result for each pair, `result(x, y)`. The elements of the
/// operands may have been overwritten since. Then the call allocates nothing
/// and leaves cache and graph as they are; it hands out the allocation in the
/// slot; this holds, element by element, the results of `f` on the elements
/// that the operands hold now, and nothing more; and every other allocation
/// holds what it held, the operands among them unless one of them is the
/// output itself.
pub proof fn lemma_ew_op_refills<T: Number, F: Fn(T, T) -> T>(
    f: F,
    result: spec_fn(T, T) -> T,
    before: CPU<T>,
    after: CPU<T>,
    count: u64,
    lhs: Buffer<T>,
    rhs: Buffer<T>,
    out: Buffer<T>,
)
    requires
        before.wf(),
        before.holds(&lhs),
        before.holds(&rhs),
        hit(before.slots(), Ident { count, len: shorter(lhs.raw().len, rhs.raw().len) }),
        forall|x: T, y: T, r: T| call_ensures(f, (x, y), r) ==> r == result(x, y),
        ew_done(f, before, after, count, &lhs, &rhs, &out),
    ensures
        after.made() == before.made(),
        after.freed() == before.freed(),
        after.slots() == before.slots(),
        after.nodes() == before.nodes(),
        out.raw().handle == before.slots()[count].handle,
        out.raw().len == shorter(lhs.raw().len, rhs.raw().len),
        after.contents(&out) == Seq::new(
            shorter(lhs.raw().len, rhs.raw().len) as nat,
            |i: int| result(before.contents(&lhs)[i], before.contents(&rhs)[i]),
        ),
        forall|h: u64|
            h != out.raw().handle && before.data().contains_key(h) ==> #[trigger] after.data()[h]
                == before.data()[h],
        lhs.raw().handle != out.raw().handle ==> after.contents(&lhs) == before.contents(&lhs),
        rhs.raw().handle != out.raw().handle ==> after.contents(&rhs) == before.contents(&rhs),
{
    before.lemma_wf();
    let len = shorter(lhs.raw().len, rhs.raw().len);
    assert(after.contents(&out) =~= Seq::new(
        len as nat,
        |i: int| result(before.contents(&lhs)[i], before.contents(&rhs)[i]),
    ));
}

/// The smaller of two lengths.
pub open spec fn shorter(a: usize, b: usize) -> usize {
    if a <= b {
        a
    } else {
        b
    }
}

} // verus!
