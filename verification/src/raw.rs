use vstd::prelude::*;
use crate::error::DeviceError;
use crate::number::{zeros, Number};

verus! {

/// What a device knows of one raw allocation.
#[derive(Clone, Copy, Debug, PartialEq, Eq, Structural)]
pub struct RawInfo {
    /// Number of elements.
    pub len: usize,
    /// Number of holders: the buffers that point to it, and the cache if it
    /// keeps it.
    pub refs: usize,
}

/// The books after one more hold is taken on `handle`.
pub open spec fn retained(live: Map<u64, RawInfo>, handle: u64) -> Map<u64, RawInfo> {
    live.insert(
        handle,
        RawInfo { len: live[handle].len, refs: (live[handle].refs + 1) as usize },
    )
}

/// The books after one hold on `handle` is given back: the allocation leaves
/// them with its last holder.
pub open spec fn released(live: Map<u64, RawInfo>, handle: u64) -> Map<u64, RawInfo> {
    if live[handle].refs == 1 {
        live.remove(handle)
    } else {
        live.insert(
            handle,
            RawInfo { len: live[handle].len, refs: (live[handle].refs - 1) as usize },
        )
    }
}

/// The books after `k` holds on `handle` are given back, one after the other.
pub open spec fn released_times(live: Map<u64, RawInfo>, handle: u64, k: nat) -> Map<u64, RawInfo>
    decreases k,
{
    if k == 0 {
        live
    } else {
        released(released_times(live, handle, (k - 1) as nat), handle)
    }
}

/// An allocation is freed when the last of its holders gives it up, and not
/// before: after `k` of its holders have given it up it is alive exactly if
/// it had more than `k`, and then with `k` holders less; no other allocation
/// is touched.
pub proof fn lemma_last_drop_frees(live: Map<u64, RawInfo>, handle: u64, k: nat)
    requires
        live.contains_key(handle),
        live[handle].refs >= 1,
        k <= live[handle].refs,
    ensures
        released_times(live, handle, k).contains_key(handle) == (k < live[handle].refs),
        k < live[handle].refs ==> released_times(live, handle, k)[handle] == (RawInfo {
            len: live[handle].len,
            refs: (live[handle].refs - k) as usize,
        }),
        forall|other: u64|
            other != handle ==> (#[trigger] released_times(live, handle, k).contains_key(other))
                == live.contains_key(other),
        forall|other: u64|
            other != handle && live.contains_key(other) ==> (#[trigger] released_times(
                live,
                handle,
                k,
            )[other]) == live[other],
    decreases k,
{
    if k > 0 {
        lemma_last_drop_frees(live, handle, (k - 1) as nat);
        let before = released_times(live, handle, (k - 1) as nat);
        assert forall|other: u64| other != handle implies (#[trigger] released(
            before,
            handle,
        ).contains_key(other)) == live.contains_key(other) by {
            assert(before.contains_key(other) == live.contains_key(other));
        }
        assert forall|other: u64| other != handle && live.contains_key(other) implies (
        #[trigger] released(before, handle)[other]) == live[other] by {
            assert(before[other] == live[other]);
        }
    }
}

/// Raw allocations of a device, each under a handle and shared by counting its
/// holders.
///
/// This is all a cache needs of a backend: to allocate a number of elements,
/// to take and give back a hold, and so to free what nobody holds any more.
pub trait Alloc<T: Number> {
    /// The allocations that are alive.
    spec fn live(&self) -> Map<u64, RawInfo>;

    /// The elements of the allocations that are alive.
    spec fn data(&self) -> Map<u64, Seq<T>>;

    /// How many allocations the device has made so far.
    spec fn made(&self) -> nat;

    /// How many of them it has freed.
    spec fn freed(&self) -> nat;

    /// What the backend was opened with for room. No operation changes it.
    spec fn capacity(&self) -> nat;

    /// Whether the backend will grant `len` more elements.
    spec fn has_room(&self, len: usize) -> bool;

    /// The device's books are in order.
    spec fn wf(&self) -> bool;

    /// An allocation that is alive has a holder and at least one element, and
    /// as many elements as its books say.
    proof fn lemma_live_held(&self, handle: u64)
        requires
            self.wf(),
            self.live().contains_key(handle),
        ensures
            self.live()[handle].refs >= 1,
            self.live()[handle].len >= 1,
            self.data().contains_key(handle),
            self.data()[handle].len() == self.live()[handle].len,
    ;

    /// Only allocations that are alive have elements, and there are finitely
    /// many of them.
    proof fn lemma_data_dom(&self)
        requires
            self.wf(),
        ensures
            self.data().dom() == self.live().dom(),
            self.live().dom().finite(),
    ;

    /// Allocates `len` zeros, held once by the caller.
    ///
    /// A request for no elements is refused as `InvalidLength`, and one that
    /// the backend has no room for as `AllocationError`; a refusal changes
    /// nothing.
    fn allocate(&mut self, len: usize) -> (res: Result<u64, DeviceError>)
        requires
            old(self).wf(),
        ensures
            final(self).wf(),
            final(self).capacity() == old(self).capacity(),
            res.is_ok() <==> len > 0 && old(self).has_room(len),
            match res {
                Ok(handle) => {
                    &&& !old(self).live().contains_key(handle)
                    &&& final(self).live() == old(self).live().insert(
                        handle,
                        RawInfo { len, refs: 1 },
                    )
                    &&& final(self).data() == old(self).data().insert(
                        handle,
                        zeros::<T>(len as nat),
                    )
                    &&& final(self).made() == old(self).made() + 1
                    &&& final(self).freed() == old(self).freed()
                },
                Err(e) => {
                    &&& e == (if len == 0 {
                        DeviceError::InvalidLength
                    } else {
                        DeviceError::AllocationError
                    })
                    &&& final(self).live() == old(self).live()
                    &&& final(self).data() == old(self).data()
                    &&& final(self).made() == old(self).made()
                    &&& final(self).freed() == old(self).freed()
                },
            },
    ;

    /// What the device knows of `handle`, if that allocation is alive.
    fn info(&self, handle: u64) -> (info: Option<RawInfo>)
        requires
            self.wf(),
        ensures
            info == (if self.live().contains_key(handle) {
                Some(self.live()[handle])
            } else {
                None
            }),
    ;

    /// Takes one more hold on a live allocation. Returns `false`, and changes
    /// nothing, where the count of holders cannot grow.
    fn retain(&mut self, handle: u64) -> (held: bool)
        requires
            old(self).wf(),
            old(self).live().contains_key(handle),
        ensures
            final(self).wf(),
            final(self).capacity() == old(self).capacity(),
            held == (old(self).live()[handle].refs < usize::MAX),
            final(self).live() == (if held {
                retained(old(self).live(), handle)
            } else {
                old(self).live()
            }),
            final(self).data() == old(self).data(),
            final(self).made() == old(self).made(),
            final(self).freed() == old(self).freed(),
            forall|len: usize| final(self).has_room(len) == old(self).has_room(len),
    ;

    /// Gives back one hold on a live allocation, and frees the allocation if
    /// that was the last. Returns whether it was freed.
    fn release(&mut self, handle: u64) -> (gone: bool)
        requires
            old(self).wf(),
            old(self).live().contains_key(handle),
        ensures
            final(self).wf(),
            final(self).capacity() == old(self).capacity(),
            gone == (old(self).live()[handle].refs == 1),
            final(self).live() == released(old(self).live(), handle),
            final(self).data() == (if gone {
                old(self).data().remove(handle)
            } else {
                old(self).data()
            }),
            final(self).made() == old(self).made(),
            final(self).freed() == old(self).freed() + (if gone {
                1nat
            } else {
                0nat
            }),
            forall|len: usize| old(self).has_room(len) ==> final(self).has_room(len),
    ;
}

} // verus!
