use vstd::prelude::*;
use std::collections::HashMap;
use crate::cache::{after_miss, backed, hit, kept, Cache, CacheEntry};
use crate::count::Ident;
use crate::error::DeviceError;
use crate::raw::{released, retained, RawInfo};

verus! {

/// The books of the memory that a driver allocates for a device: which
/// pointer sits in which slot of the cache, and how many holders every live
/// pointer has, the cache and the buffers that point to it.
///
/// The books allocate and free nothing. They take the pointers that the
/// driver has made, and say when a pointer has lost its last holder and is to
/// be freed.
pub struct PtrBooks {
    cache: Cache,
    live: HashMap<u64, RawInfo>,
}

impl PtrBooks {
    /// The filled slots of the cache.
    pub closed spec fn slots(&self) -> Map<u64, CacheEntry> {
        self.cache@
    }

    /// The pointers that are alive, each with its length and the number of
    /// its holders.
    pub closed spec fn live(&self) -> Map<u64, RawInfo> {
        self.live@
    }

    pub closed spec fn wf(&self) -> bool {
        &&& self.cache.wf()
        &&& backed(self.cache@, self.live@)
        &&& forall|p: u64| #[trigger] self.live@.contains_key(p) ==> self.live@[p].refs >= 1
    }

    /// What holds of books in order: the cache keeps live pointers only,
    /// under their length, and none in two slots; every live pointer has a
    /// holder.
    pub proof fn lemma_wf(&self)
        requires
            self.wf(),
        ensures
            backed(self.slots(), self.live()),
            forall|p: u64| #[trigger] self.live().contains_key(p) ==> self.live()[p].refs >= 1,
            forall|a: u64, b: u64|
                self.slots().contains_key(a) && self.slots().contains_key(b)
                    && #[trigger] self.slots()[a].handle == #[trigger] self.slots()[b].handle
                    ==> a == b,
    {
        assert forall|a: u64, b: u64|
            self.slots().contains_key(a) && self.slots().contains_key(b)
                && #[trigger] self.slots()[a].handle == #[trigger] self.slots()[b].handle implies a
            == b by {
            self.cache.lemma_one_slot(a, b);
        }
    }

    /// Books without pointers.
    pub fn new() -> (books: PtrBooks)
        ensures
            books.wf(),
            books.slots() == Map::<u64, CacheEntry>::empty(),
            books.live() == Map::<u64, RawInfo>::empty(),
    {
        PtrBooks { cache: Cache::new(), live: HashMap::new() }
    }

    /// Number of filled slots.
    pub fn len(&self) -> (n: usize)
        ensures
            n == self.slots().len(),
    {
        self.cache.len()
    }

    /// Number of holders of `ptr`: 0 where it is not alive.
    pub fn held(&self, ptr: u64) -> (n: usize)
        ensures
            n == (if self.live().contains_key(ptr) {
                self.live()[ptr].refs
            } else {
                0
            }),
    {
        match self.live.get(&ptr) {
            Some(info) => info.refs,
            None => 0,
        }
    }

    /// What the slot at position `count` holds.
    pub fn entry(&self, count: u64) -> (entry: Option<CacheEntry>)
        ensures
            entry == (if self.slots().contains_key(count) {
                Some(self.slots()[count])
            } else {
                None
            }),
    {
        self.cache.entry(count)
    }

    /// Asks the cache for the slot of `ident`. On a hit the pointer in the
    /// slot gains a holder, the buffer that the caller makes of the entry.
    ///
    /// Fails with `InvalidLength` where `ident` asks for no elements, and
    /// with `AllocationError` where the pointer it hits cannot take one more
    /// holder; a failure and a miss change nothing.
    pub fn fetch(&mut self, ident: Ident) -> (res: Result<Option<CacheEntry>, DeviceError>)
        requires
            old(self).wf(),
        ensures
            final(self).wf(),
            final(self).slots() == old(self).slots(),
            res is Err <==> ident.len == 0 || (hit(old(self).slots(), ident) && old(self).live()[old(self).slots()[ident.count].handle].refs == usize::MAX),
            res matches Err(e) ==> {
                &&& e == (if ident.len == 0 {
                    DeviceError::InvalidLength
                } else {
                    DeviceError::AllocationError
                })
                &&& final(self).live() == old(self).live()
            },
            res matches Ok(found) ==> {
                &&& found == (if hit(old(self).slots(), ident) {
                    Some(old(self).slots()[ident.count])
                } else {
                    None
                })
                &&& final(self).live() == (if hit(old(self).slots(), ident) {
                    retained(old(self).live(), old(self).slots()[ident.count].handle)
                } else {
                    old(self).live()
                })
            },
    {
        if ident.len == 0 {
            return Err(DeviceError::InvalidLength);
        }
        match self.cache.lookup(ident) {
            Some(entry) => {
                let ghost before = self.live@;
                assert(before.contains_key(entry.handle));
                let info = self.live.remove(&entry.handle);
                let info = info.unwrap();
                if info.refs == usize::MAX {
                    self.live.insert(entry.handle, info);
                    assert(self.live@ =~= before);
                    return Err(DeviceError::AllocationError);
                }
                self.live.insert(entry.handle, RawInfo { len: info.len, refs: info.refs + 1 });
                proof {
                    assert(self.live@ =~= retained(before, entry.handle));
                    assert forall|c: u64| #[trigger] self.cache@.contains_key(c) implies self.live@.contains_key(
                        self.cache@[c].handle,
                    ) && self.live@[self.cache@[c].handle].len == self.cache@[c].len by {
                        assert(before.contains_key(self.cache@[c].handle));
                    }
                }
                Ok(Some(entry))
            },
            None => Ok(None),
        }
    }

    /// Takes away one holder of a live pointer. Returns whether it was the
    /// last.
    fn drop_hold(&mut self, ptr: u64) -> (gone: bool)
        requires
            old(self).live@.contains_key(ptr),
            old(self).live@[ptr].refs >= 1,
        ensures
            final(self).cache == old(self).cache,
            final(self).live@ == released(old(self).live@, ptr),
            gone == (old(self).live@[ptr].refs == 1),
    {
        let ghost before = self.live@;
        let info = self.live.remove(&ptr);
        let info = info.unwrap();
        if info.refs == 1 {
            assert(self.live@ =~= released(before, ptr));
            true
        } else {
            self.live.insert(ptr, RawInfo { len: info.len, refs: info.refs - 1 });
            assert(self.live@ =~= released(before, ptr));
            false
        }
    }

    /// Files `ptr`, a pointer that the driver has just made for `ident`, in
    /// the slot of `ident`, held by the cache and by the buffer that the
    /// caller makes of it. What the slot held before loses the hold of the
    /// cache. It is returned, for the caller to free, where that was its last
    /// holder, and stays alive where a buffer still holds it.
    pub fn file(&mut self, ident: Ident, ptr: u64, node: Option<usize>) -> (freed: Option<
        CacheEntry,
    >)
        requires
            old(self).wf(),
            !old(self).live().contains_key(ptr),
        ensures
            final(self).wf(),
            final(self).slots() == old(self).slots().insert(
                ident.count,
                CacheEntry { len: ident.len, handle: ptr, node },
            ),
            final(self).live() == after_miss(old(self).live(), old(self).slots(), ident, ptr),
            freed == (if old(self).slots().contains_key(ident.count) && old(self).live()[old(self).slots()[ident.count].handle].refs == 1 {
                Some(old(self).slots()[ident.count])
            } else {
                None
            }),
    {
        proof {
            assert(!self.cache.keeps(ptr)) by {
                if self.cache.keeps(ptr) {
                    let c = choose|c: u64| #[trigger]
                        self.cache@.contains_key(c) && self.cache@[c].handle == ptr;
                    assert(self.live@.contains_key(self.cache@[c].handle));
                }
            }
        }
        let ghost before = self.live@;
        self.live.insert(ptr, RawInfo { len: ident.len, refs: 2 });
        let ghost grown = self.live@;
        let evicted = self.cache.insert(ident, ptr, node);
        match evicted {
            Some(old_entry) => {
                proof {
                    assert(old(self).cache@.contains_key(ident.count));
                    assert(before.contains_key(old_entry.handle));
                    assert(old_entry.handle != ptr);
                }
                let gone = self.drop_hold(old_entry.handle);
                proof {
                    assert forall|c: u64| #[trigger] self.cache@.contains_key(c) implies self.live@.contains_key(
                        self.cache@[c].handle,
                    ) && self.live@[self.cache@[c].handle].len == self.cache@[c].len by {
                        if c != ident.count {
                            assert(old(self).cache@.contains_key(c));
                            assert(before.contains_key(old(self).cache@[c].handle));
                            if old(self).cache@[c].handle == old_entry.handle {
                                old(self).cache.lemma_one_slot(c, ident.count);
                            }
                        }
                    }
                }
                if gone {
                    Some(old_entry)
                } else {
                    None
                }
            },
            None => {
                proof {
                    assert forall|c: u64| #[trigger] self.cache@.contains_key(c) implies self.live@.contains_key(
                        self.cache@[c].handle,
                    ) && self.live@[self.cache@[c].handle].len == self.cache@[c].len by {
                        if c != ident.count {
                            assert(old(self).cache@.contains_key(c));
                            assert(before.contains_key(old(self).cache@[c].handle));
                        }
                    }
                }
                None
            },
        }
    }

    /// Whether a buffer can give up its hold on `ptr`: the pointer is alive,
    /// and has a holder besides the cache where the cache keeps it.
    pub open spec fn can_release(&self, ptr: u64) -> bool {
        &&& self.live().contains_key(ptr)
        &&& kept(self.slots(), ptr) ==> self.live()[ptr].refs >= 2
    }

    /// Gives up the hold of a buffer on `ptr`. Returns whether the buffer was
    /// the last holder, so that the pointer is to be freed now. A pointer
    /// that the cache keeps is not freed: the cache holds it too. Where `ptr`
    /// has no hold that a buffer could give up, nothing changes.
    pub fn release(&mut self, ptr: u64) -> (gone: bool)
        requires
            old(self).wf(),
        ensures
            final(self).wf(),
            final(self).slots() == old(self).slots(),
            final(self).live() == (if old(self).can_release(ptr) {
                released(old(self).live(), ptr)
            } else {
                old(self).live()
            }),
            gone == (old(self).can_release(ptr) && old(self).live()[ptr].refs == 1),
            kept(old(self).slots(), ptr) ==> !gone,
    {
        let refs = self.held(ptr);
        if refs == 0 {
            return false;
        }
        if refs == 1 && self.cache.contains_handle(ptr) {
            return false;
        }
        let ghost before = self.live@;
        let gone = self.drop_hold(ptr);
        proof {
            assert forall|c: u64| #[trigger] self.cache@.contains_key(c) implies self.live@.contains_key(
                self.cache@[c].handle,
            ) && self.live@[self.cache@[c].handle].len == self.cache@[c].len by {
                assert(before.contains_key(self.cache@[c].handle));
                if self.cache@[c].handle == ptr {
                    assert(kept(self.cache@, ptr));
                }
            }
        }
        gone
    }

    /// Empties the books and hands out every pointer that was alive, with
    /// its length and the number of holders it had: they are the caller's to
    /// free.
    pub fn take_all(&mut self) -> (taken: HashMap<u64, RawInfo>)
        ensures
            final(self).wf(),
            final(self).slots() == Map::<u64, CacheEntry>::empty(),
            final(self).live() == Map::<u64, RawInfo>::empty(),
            taken@ == old(self).live(),
    {
        let mut taken: HashMap<u64, RawInfo> = HashMap::new();
        core::mem::swap(&mut self.live, &mut taken);
        self.cache = Cache::new();
        taken
    }
}

} // verus!
