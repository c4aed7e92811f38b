use vstd::prelude::*;
use std::collections::HashMap;
use crate::error::DeviceError;
use crate::number::{zeros, Number};
use crate::raw::{Alloc, RawInfo};

verus! {

/// One allocation in host memory: its elements and the number of its holders.
struct HostAlloc<T> {
    data: Vec<T>,
    refs: usize,
}

/// Host memory as a device sees it: allocations under handles that are given
/// out in rising order and never twice, and no more of them at a time than a
/// limit allows.
pub struct HostMemory<T> {
    slots: HashMap<u64, HostAlloc<T>>,
    next: u64,
    limit: usize,
}

impl<T: Number> HostMemory<T> {
    /// The handle that the next allocation gets: every handle below it has
    /// been given out, none at or above it.
    pub closed spec fn next_handle(&self) -> u64 {
        self.next
    }

    /// Every live allocation was made before the next one.
    pub proof fn lemma_handles_below(&self, handle: u64)
        requires
            self.wf(),
            self.live().contains_key(handle),
        ensures
            handle < self.next_handle(),
    {
    }

    /// There is room for an allocation while fewer allocations are alive
    /// than the limit allows, and handles are left to give out.
    pub proof fn lemma_room(&self, len: usize)
        requires
            self.wf(),
        ensures
            self.has_room(len) == (self.live().len() < self.capacity() && self.made() < u64::MAX),
    {
        assert(self.live().dom() =~= self.slots@.dom());
    }

    /// Host memory without allocations and without a limit of its own.
    pub fn new() -> (mem: HostMemory<T>)
        ensures
            mem.wf(),
            mem.data() == Map::<u64, Seq<T>>::empty(),
            mem.live() == Map::<u64, RawInfo>::empty(),
            mem.next_handle() == 0,
            mem.made() == 0,
            mem.freed() == 0,
            mem.capacity() == usize::MAX,
    {
        HostMemory::with_limit(usize::MAX)
    }

    /// Host memory without allocations, in which at most `limit` allocations
    /// are alive at a time.
    pub fn with_limit(limit: usize) -> (mem: HostMemory<T>)
        ensures
            mem.wf(),
            mem.data() == Map::<u64, Seq<T>>::empty(),
            mem.live() == Map::<u64, RawInfo>::empty(),
            mem.next_handle() == 0,
            mem.made() == 0,
            mem.freed() == 0,
            mem.capacity() == limit,
    {
        let mem = HostMemory { slots: HashMap::new(), next: 0, limit };
        assert(mem.data() =~= Map::<u64, Seq<T>>::empty());
        assert(mem.live() =~= Map::<u64, RawInfo>::empty());
        mem
    }

    /// Frees every allocation at once, for the teardown of a device. The
    /// handles that were given out stay given out: none of them is alive, and
    /// none will be given out again.
    pub fn clear(&mut self)
        requires
            old(self).wf(),
        ensures
            final(self).wf(),
            final(self).live() == Map::<u64, RawInfo>::empty(),
            final(self).data() == Map::<u64, Seq<T>>::empty(),
            final(self).next_handle() == old(self).next_handle(),
            final(self).capacity() == old(self).capacity(),
            final(self).made() == old(self).made(),
            final(self).freed() == old(self).made(),
    {
        self.slots = HashMap::new();
        assert(self.data() =~= Map::<u64, Seq<T>>::empty());
        assert(self.live() =~= Map::<u64, RawInfo>::empty());
    }

    /// Whether `len` more elements will be granted.
    pub fn room(&self, len: usize) -> (b: bool)
        requires
            self.wf(),
        ensures
            b == self.has_room(len),
    {
        self.next < u64::MAX && self.slots.len() < self.limit
    }

    /// Number of allocations made so far.
    pub fn made_count(&self) -> (n: u64)
        ensures
            n == self.made(),
    {
        self.next
    }

    /// Number of allocations that are alive.
    pub fn live_count(&self) -> (n: usize)
        requires
            self.wf(),
        ensures
            n == self.live().len(),
            n == self.made() - self.freed(),
            self.live().dom().finite(),
    {
        assert(self.live().dom() =~= self.slots@.dom());
        self.slots.len()
    }

    /// No more allocations were freed than were made.
    pub proof fn lemma_counts(&self)
        requires
            self.wf(),
        ensures
            self.freed() <= self.made(),
            self.made() - self.freed() == self.live().len(),
    {
        assert(self.live().dom() =~= self.slots@.dom());
    }

    /// Puts `data` under the next handle, held once.
    fn adopt(&mut self, data: Vec<T>) -> (handle: u64)
        requires
            old(self).wf(),
            old(self).has_room(data@.len() as usize),
            data@.len() >= 1,
        ensures
            final(self).wf(),
            final(self).capacity() == old(self).capacity(),
            handle == old(self).next_handle(),
            final(self).next_handle() == handle + 1,
            !old(self).live().contains_key(handle),
            final(self).live() == old(self).live().insert(
                handle,
                RawInfo { len: data@.len() as usize, refs: 1 },
            ),
            final(self).data() == old(self).data().insert(handle, data@),
            final(self).made() == old(self).made() + 1,
            final(self).freed() == old(self).freed(),
    {
        let handle = self.next;
        let ghost before = self.slots@;
        let ghost elems = data@;
        let ghost n = data.len();
        self.slots.insert(handle, HostAlloc { data, refs: 1 });
        self.next = handle + 1;
        proof {
            assert(!before.contains_key(handle));
            assert(self.slots@.dom() =~= before.dom().insert(handle));
            assert(self.live() =~= old(self).live().insert(
                handle,
                RawInfo { len: n, refs: 1 },
            ));
            assert(self.data() =~= old(self).data().insert(handle, elems));
        }
        handle
    }

    /// Allocates a copy of `data`, held once by the caller.
    ///
    /// Fails as `allocate` does: with `InvalidLength` on empty data, with
    /// `AllocationError` where there is no room.
    pub fn allocate_from_slice(&mut self, data: &[T]) -> (res: Result<u64, DeviceError>)
        requires
            old(self).wf(),
        ensures
            final(self).wf(),
            res.is_ok() <==> data@.len() > 0 && old(self).has_room(data@.len() as usize),
            match res {
                Ok(handle) => {
                    &&& handle == old(self).next_handle()
                    &&& final(self).next_handle() == handle + 1
                    &&& !old(self).live().contains_key(handle)
                    &&& final(self).live() == old(self).live().insert(
                        handle,
                        RawInfo { len: data@.len() as usize, refs: 1 },
                    )
                    &&& final(self).data() == old(self).data().insert(handle, data@)
                    &&& final(self).capacity() == old(self).capacity()
                    &&& final(self).made() == old(self).made() + 1
                    &&& final(self).freed() == old(self).freed()
                },
                Err(e) => {
                    &&& e == (if data@.len() == 0 {
                        DeviceError::InvalidLength
                    } else {
                        DeviceError::AllocationError
                    })
                    &&& *final(self) == *old(self)
                },
            },
    {
        if data.len() == 0 {
            return Err(DeviceError::InvalidLength);
        }
        if !self.room(0) {
            return Err(DeviceError::AllocationError);
        }
        let mut copy: Vec<T> = Vec::new();
        let mut i: usize = 0;
        while i < data.len()
            invariant
                i <= data@.len(),
                copy@ == data@.subrange(0, i as int),
            decreases data@.len() - i,
        {
            copy.push(data[i]);
            i = i + 1;
            assert(copy@ =~= data@.subrange(0, i as int));
        }
        assert(copy@ =~= data@);
        let handle = self.adopt(copy);
        Ok(handle)
    }

    /// Takes `vec` over as an allocation, without copying; held once by the
    /// caller.
    pub fn allocate_from_vec(&mut self, vec: Vec<T>) -> (res: Result<u64, DeviceError>)
        requires
            old(self).wf(),
        ensures
            final(self).wf(),
            res.is_ok() <==> vec@.len() > 0 && old(self).has_room(vec@.len() as usize),
            match res {
                Ok(handle) => {
                    &&& handle == old(self).next_handle()
                    &&& final(self).next_handle() == handle + 1
                    &&& !old(self).live().contains_key(handle)
                    &&& final(self).live() == old(self).live().insert(
                        handle,
                        RawInfo { len: vec@.len() as usize, refs: 1 },
                    )
                    &&& final(self).data() == old(self).data().insert(handle, vec@)
                    &&& final(self).capacity() == old(self).capacity()
                    &&& final(self).made() == old(self).made() + 1
                    &&& final(self).freed() == old(self).freed()
                },
                Err(e) => {
                    &&& e == (if vec@.len() == 0 {
                        DeviceError::InvalidLength
                    } else {
                        DeviceError::AllocationError
                    })
                    &&& *final(self) == *old(self)
                },
            },
    {
        if vec.len() == 0 {
            return Err(DeviceError::InvalidLength);
        }
        if !self.room(0) {
            return Err(DeviceError::AllocationError);
        }
        let handle = self.adopt(vec);
        Ok(handle)
    }
}

impl<T: Number> Alloc<T> for HostMemory<T> {
    closed spec fn live(&self) -> Map<u64, RawInfo> {
        Map::new(
            |h: u64| self.slots@.contains_key(h),
            |h: u64| RawInfo { len: self.slots@[h].data.len(), refs: self.slots@[h].refs },
        )
    }

    closed spec fn data(&self) -> Map<u64, Seq<T>> {
        Map::new(|h: u64| self.slots@.contains_key(h), |h: u64| self.slots@[h].data@)
    }

    closed spec fn made(&self) -> nat {
        self.next as nat
    }

    closed spec fn freed(&self) -> nat {
        (self.next - self.slots@.len()) as nat
    }

    /// The number of allocations that may be alive at a time.
    closed spec fn capacity(&self) -> nat {
        self.limit as nat
    }

    closed spec fn has_room(&self, len: usize) -> bool {
        self.next < u64::MAX && self.slots@.len() < self.limit
    }

    closed spec fn wf(&self) -> bool {
        &&& self.slots@.dom().finite()
        &&& self.slots@.len() <= self.next
        &&& forall|h: u64| #[trigger]
            self.slots@.contains_key(h) ==> h < self.next && self.slots@[h].refs >= 1
                && self.slots@[h].data@.len() >= 1
    }

    proof fn lemma_live_held(&self, handle: u64) {
    }

    proof fn lemma_data_dom(&self) {
        assert(self.data().dom() =~= self.live().dom());
        assert(self.live().dom() =~= self.slots@.dom());
    }

    fn allocate(&mut self, len: usize) -> (res: Result<u64, DeviceError>)
        ensures
            res matches Ok(handle) ==> handle == old(self).next_handle()
                && final(self).next_handle() == handle + 1,
            res is Err ==> *final(self) == *old(self),
    {
        if len == 0 {
            return Err(DeviceError::InvalidLength);
        }
        if !self.room(0) {
            return Err(DeviceError::AllocationError);
        }
        let mut fresh: Vec<T> = Vec::new();
        let mut i: usize = 0;
        while i < len
            invariant
                i <= len,
                fresh@ == zeros::<T>(i as nat),
            decreases len - i,
        {
            fresh.push(T::zero());
            i = i + 1;
            assert(fresh@ =~= zeros::<T>(i as nat));
        }
        let handle = self.adopt(fresh);
        Ok(handle)
    }

    fn info(&self, handle: u64) -> (info: Option<RawInfo>) {
        match self.slots.get(&handle) {
            Some(slot) => Some(RawInfo { len: slot.data.len(), refs: slot.refs }),
            None => None,
        }
    }

    fn retain(&mut self, handle: u64) -> (held: bool)
        ensures
            final(self).next_handle() == old(self).next_handle(),
    {
        let ghost before = self.slots@;
        let slot = self.slots.remove(&handle);
        let mut slot = slot.unwrap();
        let held = slot.refs < usize::MAX;
        if held {
            slot.refs = slot.refs + 1;
        }
        let ghost after = slot;
        self.slots.insert(handle, slot);
        proof {
            assert(self.slots@ =~= before.insert(handle, after));
            assert(self.slots@.dom() =~= before.dom());
            assert(self.data() =~= old(self).data());
            if held {
                assert(self.live() =~= old(self).live().insert(
                    handle,
                    RawInfo {
                        len: old(self).live()[handle].len,
                        refs: (old(self).live()[handle].refs + 1) as usize,
                    },
                ));
            } else {
                assert(self.live() =~= old(self).live());
            }
        }
        held
    }

    fn release(&mut self, handle: u64) -> (gone: bool)
        ensures
            final(self).next_handle() == old(self).next_handle(),
    {
        let ghost before = self.slots@;
        let slot = self.slots.remove(&handle);
        let mut slot = slot.unwrap();
        if slot.refs == 1 {
            proof {
                before.lemma_remove_key_len(handle);
                assert(self.slots@ =~= before.remove(handle));
                assert(self.live() =~= old(self).live().remove(handle));
                assert(self.data() =~= old(self).data().remove(handle));
            }
            true
        } else {
            slot.refs = slot.refs - 1;
            let ghost after = slot;
            self.slots.insert(handle, slot);
            proof {
                assert(self.slots@ =~= before.insert(handle, after));
                assert(self.slots@.dom() =~= before.dom());
                assert(self.data() =~= old(self).data());
                assert(self.live() =~= old(self).live().insert(
                    handle,
                    RawInfo {
                        len: old(self).live()[handle].len,
                        refs: (old(self).live()[handle].refs - 1) as usize,
                    },
                ));
            }
            false
        }
    }
}


impl<T: Number> HostMemory<T> {
    /// The elements of a live allocation, in place.
    pub fn read(&self, handle: u64) -> (elems: &[T])
        requires
            self.wf(),
            self.data().contains_key(handle),
        ensures
            elems@ == self.data()[handle],
    {
        let slot = self.slots.get(&handle);
        let slot = slot.unwrap();
        slot.data.as_slice()
    }

    /// A copy of the elements of a live allocation.
    pub fn read_to_vec(&self, handle: u64) -> (elems: Vec<T>)
        requires
            self.wf(),
            self.data().contains_key(handle),
        ensures
            elems@ == self.data()[handle],
    {
        let src = self.read(handle);
        let mut out: Vec<T> = Vec::new();
        let mut i: usize = 0;
        while i < src.len()
            invariant
                i <= src@.len(),
                out@ == src@.subrange(0, i as int),
            decreases src@.len() - i,
        {
            out.push(src[i]);
            i = i + 1;
            assert(out@ =~= src@.subrange(0, i as int));
        }
        assert(out@ =~= src@);
        out
    }

    /// Puts `elems`, which has the allocation's length, in place of the
    /// elements of a live allocation.
    fn put(&mut self, handle: u64, elems: Vec<T>)
        requires
            old(self).wf(),
            old(self).data().contains_key(handle),
            elems@.len() == old(self).data()[handle].len(),
        ensures
            final(self).wf(),
            final(self).data() == old(self).data().insert(handle, elems@),
            final(self).live() == old(self).live(),
            final(self).next_handle() == old(self).next_handle(),
            final(self).capacity() == old(self).capacity(),
            final(self).made() == old(self).made(),
            final(self).freed() == old(self).freed(),
    {
        let ghost before = self.slots@;
        let ghost new_elems = elems@;
        let slot = self.slots.remove(&handle);
        let slot = slot.unwrap();
        let fresh = HostAlloc { data: elems, refs: slot.refs };
        let ghost after = fresh;
        self.slots.insert(handle, fresh);
        proof {
            assert(self.slots@ =~= before.insert(handle, after));
            assert(self.slots@.dom() =~= before.dom());
            assert(self.data() =~= old(self).data().insert(handle, new_elems));
            assert(self.live() =~= old(self).live());
        }
    }

    /// Overwrites a live allocation with `data`, which has its length.
    pub fn write(&mut self, handle: u64, data: &[T])
        requires
            old(self).wf(),
            old(self).data().contains_key(handle),
            data@.len() == old(self).data()[handle].len(),
        ensures
            final(self).wf(),
            final(self).data() == old(self).data().insert(handle, data@),
            final(self).live() == old(self).live(),
            final(self).next_handle() == old(self).next_handle(),
            final(self).capacity() == old(self).capacity(),
            final(self).made() == old(self).made(),
            final(self).freed() == old(self).freed(),
    {
        let mut copy: Vec<T> = Vec::new();
        let mut i: usize = 0;
        while i < data.len()
            invariant
                i <= data@.len(),
                copy@ == data@.subrange(0, i as int),
            decreases data@.len() - i,
        {
            copy.push(data[i]);
            i = i + 1;
            assert(copy@ =~= data@.subrange(0, i as int));
        }
        assert(copy@ =~= data@);
        self.put(handle, copy);
    }

    /// Sets every element of a live allocation to `value`.
    pub fn fill(&mut self, handle: u64, value: T)
        requires
            old(self).wf(),
            old(self).data().contains_key(handle),
        ensures
            final(self).wf(),
            final(self).data() == old(self).data().insert(
                handle,
                Seq::new(old(self).data()[handle].len(), |i: int| value),
            ),
            final(self).live() == old(self).live(),
            final(self).next_handle() == old(self).next_handle(),
            final(self).capacity() == old(self).capacity(),
            final(self).made() == old(self).made(),
            final(self).freed() == old(self).freed(),
    {
        let len = self.read(handle).len();
        let mut filled: Vec<T> = Vec::new();
        let mut i: usize = 0;
        while i < len
            invariant
                i <= len,
                filled@ == Seq::new(i as nat, |j: int| value),
            decreases len - i,
        {
            filled.push(value);
            i = i + 1;
            assert(filled@ =~= Seq::new(i as nat, |j: int| value));
        }
        self.put(handle, filled);
    }

    /// Copies `count` elements of the allocation `src`, from `src_start` on,
    /// over those of the allocation `dst` from `dst_start` on. The two may be
    /// the same allocation: what is copied is what `src` held before.
    pub fn copy_within(
        &mut self,
        src: u64,
        src_start: usize,
        dst: u64,
        dst_start: usize,
        count: usize,
    )
        requires
            old(self).wf(),
            old(self).data().contains_key(src),
            old(self).data().contains_key(dst),
            src_start + count <= old(self).data()[src].len(),
            dst_start + count <= old(self).data()[dst].len(),
        ensures
            final(self).wf(),
            final(self).data() == old(self).data().insert(
                dst,
                spliced(
                    old(self).data()[dst],
                    dst_start as int,
                    old(self).data()[src].subrange(src_start as int, src_start + count),
                ),
            ),
            final(self).live() == old(self).live(),
            final(self).next_handle() == old(self).next_handle(),
            final(self).capacity() == old(self).capacity(),
            final(self).made() == old(self).made(),
            final(self).freed() == old(self).freed(),
    {
        let source = self.read(src);
        let target = self.read(dst);
        let ghost part = source@.subrange(src_start as int, src_start + count);
        let source_len = source.len();
        let mut out: Vec<T> = Vec::new();
        let mut i: usize = 0;
        while i < target.len()
            invariant
                i <= target@.len(),
                source_len == source@.len(),
                src_start + count <= source@.len(),
                dst_start + count <= target@.len(),
                part == source@.subrange(src_start as int, src_start + count),
                out@ == spliced(target@, dst_start as int, part).subrange(0, i as int),
            decreases target@.len() - i,
        {
            if dst_start <= i && i - dst_start < count {
                out.push(source[src_start + (i - dst_start)]);
            } else {
                out.push(target[i]);
            }
            i = i + 1;
            assert(out@ =~= spliced(target@, dst_start as int, part).subrange(0, i as int));
        }
        assert(out@ =~= spliced(target@, dst_start as int, part));
        self.put(dst, out);
    }
}

/// `base` with the elements from `at` on replaced by those of `part`.
pub open spec fn spliced<T>(base: Seq<T>, at: int, part: Seq<T>) -> Seq<T> {
    Seq::new(
        base.len(),
        |i: int|
            if at <= i < at + part.len() {
                part[i - at]
            } else {
                base[i]
            },
    )
}

} // verus!
