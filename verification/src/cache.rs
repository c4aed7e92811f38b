use vstd::prelude::*;
use std::collections::HashMap;
use crate::count::Ident;
use crate::error::DeviceError;
use crate::graph::{Deps, Graph, Node};
use crate::number::{zeros, Number};
use crate::raw::{released, retained, Alloc, RawInfo};

verus! {

/// What a cache keeps of one slot: the allocation it holds there, and how many
/// elements that allocation has.
#[derive(Clone, Copy, Debug, PartialEq, Eq, Structural)]
pub struct CacheEntry {
    /// Number of elements of the allocation.
    pub len: usize,
    /// Handle of the allocation on its device.
    pub handle: u64,
    /// Index of the graph node that was recorded when the allocation was made,
    /// if one was.
    pub node: Option<usize>,
}

/// The slot of `ident` is filled with an allocation of the length asked for.
pub open spec fn hit(slots: Map<u64, CacheEntry>, ident: Ident) -> bool {
    slots.contains_key(ident.count) && slots[ident.count].len == ident.len
}

/// What a request under `ident` may be answered with: on a hit what the slot
/// holds, otherwise an entry of the length asked for.
pub open spec fn answers(slots: Map<u64, CacheEntry>, ident: Ident, entry: CacheEntry) -> bool {
    if hit(slots, ident) {
        entry == slots[ident.count]
    } else {
        entry.len == ident.len
    }
}

/// The slots after a request under `ident` was answered with `entry`: a hit
/// leaves them as they are, a miss puts `entry` in the slot of `ident`.
pub open spec fn after_get(slots: Map<u64, CacheEntry>, ident: Ident, entry: CacheEntry) -> Map<
    u64,
    CacheEntry,
> {
    if hit(slots, ident) {
        slots
    } else {
        slots.insert(ident.count, entry)
    }
}

/// The node that a miss records for a buffer of `len` elements made from
/// `deps`, in a graph of `at` nodes.
pub open spec fn recorded(at: nat, len: usize, deps: Option<Deps>) -> Option<Node> {
    match deps {
        Some(deps) => Some(Node { idx: at as usize, deps, len }),
        None => None,
    }
}

/// The graph after a miss recorded `node`, if it recorded one.
pub open spec fn with_node(nodes: Seq<Node>, node: Option<Node>) -> Seq<Node> {
    match node {
        Some(node) => nodes.push(node),
        None => nodes,
    }
}

/// The books of a device after a miss in the slot of `ident`: the new
/// allocation `handle` is held by the cache and by the buffer handed out, and
/// the cache has given back its hold on what the slot held before.
pub open spec fn after_miss(
    live: Map<u64, RawInfo>,
    slots: Map<u64, CacheEntry>,
    ident: Ident,
    handle: u64,
) -> Map<u64, RawInfo> {
    let grown = live.insert(handle, RawInfo { len: ident.len, refs: 2 });
    if slots.contains_key(ident.count) {
        released(grown, slots[ident.count].handle)
    } else {
        grown
    }
}

/// The elements on a device after a miss in the slot of `ident`: the new
/// allocation `handle` holds zeros, and what the slot held before is gone if
/// the cache was its last holder.
pub open spec fn data_after_miss<T: Number>(
    data: Map<u64, Seq<T>>,
    live: Map<u64, RawInfo>,
    slots: Map<u64, CacheEntry>,
    ident: Ident,
    handle: u64,
) -> Map<u64, Seq<T>> {
    let grown = data.insert(handle, zeros::<T>(ident.len as nat));
    if slots.contains_key(ident.count) && live[slots[ident.count].handle].refs == 1 {
        grown.remove(slots[ident.count].handle)
    } else {
        grown
    }
}

/// Every allocation in the slots is alive in the books `live`, with the length
/// that its slot states.
pub open spec fn backed(slots: Map<u64, CacheEntry>, live: Map<u64, RawInfo>) -> bool {
    forall|c: u64| #[trigger]
        slots.contains_key(c) ==> live.contains_key(slots[c].handle) && live[slots[c].handle].len
            == slots[c].len
}

/// Every node that a slot names has an index under `bound`.
pub open spec fn nodes_below(slots: Map<u64, CacheEntry>, bound: nat) -> bool {
    forall|c: u64| #[trigger]
        slots.contains_key(c) ==> (slots[c].node matches Some(i) ==> i < bound)
}

/// No allocation sits in a slot of both.
pub open spec fn apart(a: Map<u64, CacheEntry>, b: Map<u64, CacheEntry>) -> bool {
    forall|x: u64, y: u64|
        a.contains_key(x) && b.contains_key(y) ==> #[trigger] a[x].handle != #[trigger] b[y].handle
}

/// Some slot holds the allocation `handle`.
pub open spec fn kept(slots: Map<u64, CacheEntry>, handle: u64) -> bool {
    exists|c: u64| #[trigger] slots.contains_key(c) && slots[c].handle == handle
}

/// Per device, the allocations that were handed out under an identity and can
/// be handed out again.
///
/// A slot is the position part of an identity. It holds at most one
/// allocation, and no allocation sits in two slots.
pub struct Cache {
    nodes: HashMap<u64, CacheEntry>,
    slot_of: HashMap<u64, u64>,
}

impl View for Cache {
    type V = Map<u64, CacheEntry>;

    closed spec fn view(&self) -> Map<u64, CacheEntry> {
        self.nodes@
    }
}

impl Cache {
    /// Each allocation in the cache is filed under the slot that holds it.
    pub closed spec fn wf(&self) -> bool {
        &&& forall|c: u64| #[trigger]
            self.nodes@.contains_key(c) ==> self.slot_of@.contains_key(self.nodes@[c].handle)
                && self.slot_of@[self.nodes@[c].handle] == c
        &&& forall|h: u64| #[trigger]
            self.slot_of@.contains_key(h) ==> self.nodes@.contains_key(self.slot_of@[h])
                && self.nodes@[self.slot_of@[h]].handle == h
    }

    /// Some slot holds the allocation `handle`.
    pub open spec fn keeps(&self, handle: u64) -> bool {
        kept(self@, handle)
    }

    /// Every allocation in the cache is alive on `mem`, with the length that
    /// its slot states.
    pub open spec fn backed_by<T: Number, A: Alloc<T>>(&self, mem: &A) -> bool {
        backed(self@, mem.live())
    }

    /// No allocation sits in two slots.
    pub proof fn lemma_one_slot(&self, a: u64, b: u64)
        requires
            self.wf(),
            self@.contains_key(a),
            self@.contains_key(b),
            self@[a].handle == self@[b].handle,
        ensures
            a == b,
    {
    }

    proof fn lemma_keeps(&self, handle: u64)
        requires
            self.wf(),
        ensures
            self.keeps(handle) == self.slot_of@.contains_key(handle),
    {
        if self.slot_of@.contains_key(handle) {
            assert(self@.contains_key(self.slot_of@[handle]));
        }
    }

    /// A cache without entries.
    pub fn new() -> (cache: Cache)
        ensures
            cache@ == Map::<u64, CacheEntry>::empty(),
            cache.wf(),
    {
        Cache { nodes: HashMap::new(), slot_of: HashMap::new() }
    }

    /// Number of filled slots.
    pub fn len(&self) -> (n: usize)
        ensures
            n == self@.len(),
            self@.dom().finite(),
    {
        self.nodes.len()
    }

    pub fn is_empty(&self) -> (b: bool)
        ensures
            b == (self@.len() == 0),
            self@.dom().finite(),
    {
        self.nodes.len() == 0
    }

    /// What the slot at position `count` holds.
    pub fn entry(&self, count: u64) -> (entry: Option<CacheEntry>)
        ensures
            entry == (if self@.contains_key(count) {
                Some(self@[count])
            } else {
                None
            }),
    {
        match self.nodes.get(&count) {
            Some(entry) => Some(*entry),
            None => None,
        }
    }

    /// The entry that a request under `ident` hits, if it hits.
    pub fn lookup(&self, ident: Ident) -> (entry: Option<CacheEntry>)
        ensures
            entry == (if hit(self@, ident) {
                Some(self@[ident.count])
            } else {
                None
            }),
    {
        match self.nodes.get(&ident.count) {
            Some(entry) => {
                if entry.len == ident.len {
                    Some(*entry)
                } else {
                    None
                }
            },
            None => None,
        }
    }

    /// Whether some slot holds the allocation `handle`.
    pub fn contains_handle(&self, handle: u64) -> (b: bool)
        requires
            self.wf(),
        ensures
            b == self.keeps(handle),
    {
        proof {
            self.lemma_keeps(handle);
        }
        self.slot_of.contains_key(&handle)
    }

    /// Empties the slot at position `count` and returns what it held. The hold
    /// of the cache on that allocation passes to the caller.
    pub fn remove(&mut self, count: u64) -> (entry: Option<CacheEntry>)
        requires
            old(self).wf(),
        ensures
            final(self).wf(),
            final(self)@ == old(self)@.remove(count),
            entry == (if old(self)@.contains_key(count) {
                Some(old(self)@[count])
            } else {
                None
            }),
    {
        let entry = self.nodes.remove(&count);
        match entry {
            Some(e) => {
                self.slot_of.remove(&e.handle);
                Some(e)
            },
            None => None,
        }
    }

    /// Puts the allocation `handle`, which no slot holds yet, in the slot of
    /// `ident`, and returns what the slot held before. With it the hold of the
    /// cache on that earlier allocation passes to the caller.
    pub fn insert(&mut self, ident: Ident, handle: u64, node: Option<usize>) -> (evicted: Option<
        CacheEntry,
    >)
        requires
            old(self).wf(),
            !old(self).keeps(handle),
        ensures
            final(self).wf(),
            final(self)@ == old(self)@.insert(
                ident.count,
                CacheEntry { len: ident.len, handle, node },
            ),
            evicted == (if old(self)@.contains_key(ident.count) {
                Some(old(self)@[ident.count])
            } else {
                None
            }),
    {
        proof {
            self.lemma_keeps(handle);
        }
        let evicted = self.remove(ident.count);
        proof {
            self.lemma_keeps(handle);
            assert(!self.slot_of@.contains_key(handle)) by {
                if self.slot_of@.contains_key(handle) {
                    assert(self@.contains_key(self.slot_of@[handle]));
                    assert(old(self)@.contains_key(self.slot_of@[handle]));
                }
            }
        }
        self.nodes.insert(ident.count, CacheEntry { len: ident.len, handle, node });
        self.slot_of.insert(handle, ident.count);
        proof {
            assert(self@ =~= old(self)@.insert(
                ident.count,
                CacheEntry { len: ident.len, handle, node },
            ));
        }
        evicted
    }
}

impl Cache {
    /// Hands out the allocation for `ident`: the one in its slot where that
    /// has the length asked for, and otherwise a new one, which takes the slot.
    ///
    /// A request for no elements fails with `InvalidLength`. On a hit the
    /// allocation in the slot gains a holder; no allocation is made and the
    /// graph is left alone. On a miss the device allocates, the graph records
    /// the node where `deps` names one, and the slot takes the new allocation,
    /// held by the cache and by the caller; what the slot held before loses
    /// the hold of the cache, and is freed unless a buffer still holds it.
    /// Where the device refuses, the call fails with `AllocationError`. A
    /// failed call changes nothing.
    pub fn get<T: Number, A: Alloc<T>>(
        &mut self,
        mem: &mut A,
        graph: &mut Graph,
        ident: Ident,
        deps: Option<Deps>,
    ) -> (res: Result<CacheEntry, DeviceError>)
        requires
            old(self).wf(),
            old(mem).wf(),
            old(graph).wf(),
            old(self).backed_by(old(mem)),
            deps matches Some(d) ==> d.below(old(graph)@.len() as int),
        ensures
            final(self).wf(),
            final(mem).wf(),
            final(graph).wf(),
            final(self).backed_by(final(mem)),
            final(mem).capacity() == old(mem).capacity(),
            res.is_ok() <==> ident.len > 0 && (if hit(old(self)@, ident) {
                old(mem).live()[old(self)@[ident.count].handle].refs < usize::MAX
            } else {
                old(mem).has_room(ident.len)
            }),
            res matches Err(e) ==> {
                &&& e == (if ident.len == 0 {
                    DeviceError::InvalidLength
                } else {
                    DeviceError::AllocationError
                })
                &&& final(self)@ == old(self)@
                &&& final(graph)@ == old(graph)@
                &&& final(mem).live() == old(mem).live()
                &&& final(mem).data() == old(mem).data()
                &&& final(mem).made() == old(mem).made()
                &&& final(mem).freed() == old(mem).freed()
            },
            res matches Ok(entry) ==> {
                &&& answers(old(self)@, ident, entry)
                &&& final(self)@ == after_get(old(self)@, ident, entry)
            },
            res matches Ok(entry) ==> hit(old(self)@, ident) ==> {
                &&& final(graph)@ == old(graph)@
                &&& final(mem).live() == retained(old(mem).live(), entry.handle)
                &&& final(mem).data() == old(mem).data()
                &&& final(mem).made() == old(mem).made()
                &&& final(mem).freed() == old(mem).freed()
            },
            res matches Ok(entry) ==> !hit(old(self)@, ident) ==> {
                &&& !old(mem).live().contains_key(entry.handle)
                &&& entry.node == (if deps is Some {
                    Some(old(graph)@.len() as usize)
                } else {
                    None
                })
                &&& final(graph)@ == with_node(
                    old(graph)@,
                    recorded(old(graph)@.len(), ident.len, deps),
                )
                &&& final(mem).live() == after_miss(
                    old(mem).live(),
                    old(self)@,
                    ident,
                    entry.handle,
                )
                &&& final(mem).data() == data_after_miss(
                    old(mem).data(),
                    old(mem).live(),
                    old(self)@,
                    ident,
                    entry.handle,
                )
                &&& final(mem).made() == old(mem).made() + 1
                &&& final(mem).freed() == old(mem).freed() + (if old(self)@.contains_key(
                    ident.count,
                ) && old(mem).live()[old(self)@[ident.count].handle].refs == 1 {
                    1nat
                } else {
                    0nat
                })
            },
    {
        if ident.len == 0 {
            return Err(DeviceError::InvalidLength);
        }
        match self.lookup(ident) {
            Some(entry) => {
                if mem.retain(entry.handle) {
                    proof {
                        assert forall|c: u64| #[trigger] self@.contains_key(c) implies mem.live().contains_key(
                            self@[c].handle,
                        ) && mem.live()[self@[c].handle].len == self@[c].len by {
                            assert(old(mem).live().contains_key(self@[c].handle));
                        }
                    }
                    Ok(entry)
                } else {
                    Err(DeviceError::AllocationError)
                }
            },
            None => {
                let handle = match mem.allocate(ident.len) {
                    Ok(handle) => handle,
                    Err(e) => {
                        return Err(DeviceError::AllocationError);
                    },
                };
                let ghost grown1 = mem.live();
                let held = mem.retain(handle);
                let ghost grown = mem.live();
                proof {
                    assert(held);
                    assert(grown =~= old(mem).live().insert(
                        handle,
                        RawInfo { len: ident.len, refs: 2 },
                    ));
                    assert(!self.keeps(handle)) by {
                        if self.keeps(handle) {
                            let c = choose|c: u64| #[trigger]
                                self@.contains_key(c) && self@[c].handle == handle;
                            assert(old(mem).live().contains_key(self@[c].handle));
                        }
                    }
                }
                let node = match deps {
                    Some(d) => Some(graph.add(ident.len, d).idx),
                    None => None,
                };
                let evicted = self.insert(ident, handle, node);
                let entry = CacheEntry { len: ident.len, handle, node };
                match evicted {
                    Some(gone) => {
                        proof {
                            assert(old(self)@.contains_key(ident.count));
                            assert(old(mem).live().contains_key(gone.handle));
                            assert(gone.handle != handle);
                            assert(grown.contains_key(gone.handle));
                        }
                        let freed = mem.release(gone.handle);
                        proof {
                            assert(grown[gone.handle] == old(mem).live()[gone.handle]);
                            assert forall|c: u64| #[trigger] self@.contains_key(c) implies mem.live().contains_key(
                                self@[c].handle,
                            ) && mem.live()[self@[c].handle].len == self@[c].len by {
                                if c != ident.count {
                                    assert(old(self)@.contains_key(c));
                                    assert(old(mem).live().contains_key(old(self)@[c].handle));
                                    if old(self)@[c].handle == gone.handle {
                                        old(self).lemma_one_slot(c, ident.count);
                                    }
                                }
                            }
                        }
                    },
                    None => {
                        proof {
                            assert forall|c: u64| #[trigger] self@.contains_key(c) implies mem.live().contains_key(
                                self@[c].handle,
                            ) && mem.live()[self@[c].handle].len == self@[c].len by {
                                if c != ident.count {
                                    assert(old(self)@.contains_key(c));
                                    assert(old(mem).live().contains_key(old(self)@[c].handle));
                                }
                            }
                        }
                    },
                }
                Ok(entry)
            },
        }
    }
}

impl Default for Cache {
    fn default() -> (cache: Cache)
        ensures
            cache@ == Map::<u64, CacheEntry>::empty(),
            cache.wf(),
    {
        Cache::new()
    }
}


/// An identity is allocated for once: after a request under `ident` was
/// answered with `entry`, a second request under `ident` hits, is answered
/// with the same entry, and leaves the slots as they are.
pub proof fn lemma_hit_after_get(slots: Map<u64, CacheEntry>, ident: Ident, entry: CacheEntry)
    requires
        answers(slots, ident, entry),
    ensures
        hit(after_get(slots, ident, entry), ident),
        forall|again: CacheEntry| #[trigger]
            answers(after_get(slots, ident, entry), ident, again) ==> again == entry,
        after_get(after_get(slots, ident, entry), ident, entry) == after_get(slots, ident, entry),
{
}

/// A request leaves the slots of other positions alone.
pub proof fn lemma_get_leaves_others(
    slots: Map<u64, CacheEntry>,
    ident: Ident,
    entry: CacheEntry,
    other: Ident,
)
    requires
        other.count != ident.count,
    ensures
        hit(after_get(slots, ident, entry), other) == hit(slots, other),
        after_get(slots, ident, entry).contains_key(other.count) == slots.contains_key(
            other.count,
        ),
        after_get(slots, ident, entry)[other.count] == slots[other.count],
{
}

/// The identity that the `i`-th request of a pass draws, where the counter
/// stood at `start` when the pass began and the requests ask for `lens`.
pub open spec fn ident_at(start: u64, lens: Seq<usize>, i: int) -> Ident {
    Ident { count: (start + i) as u64, len: lens[i] }
}

/// The slots after the first `k` requests of a pass were answered with
/// `entries`.
pub open spec fn slots_after(
    slots: Map<u64, CacheEntry>,
    start: u64,
    lens: Seq<usize>,
    entries: Seq<CacheEntry>,
    k: nat,
) -> Map<u64, CacheEntry>
    decreases k,
{
    if k == 0 {
        slots
    } else {
        after_get(
            slots_after(slots, start, lens, entries, (k - 1) as nat),
            ident_at(start, lens, k - 1),
            entries[k - 1],
        )
    }
}

/// Each of the first `k` requests of a pass was answered as `Cache::get`
/// answers it.
pub open spec fn pass_answered(
    slots: Map<u64, CacheEntry>,
    start: u64,
    lens: Seq<usize>,
    entries: Seq<CacheEntry>,
    k: nat,
) -> bool {
    forall|i: nat|
        i < k ==> answers(
            #[trigger] slots_after(slots, start, lens, entries, i),
            ident_at(start, lens, i as int),
            entries[i as int],
        )
}

/// The requests of a pass leave the slots of other positions alone.
proof fn lemma_other_slots(
    slots: Map<u64, CacheEntry>,
    start: u64,
    lens: Seq<usize>,
    entries: Seq<CacheEntry>,
    k: nat,
    c: u64,
)
    requires
        start + k <= u64::MAX,
        c < start || c >= start + k,
    ensures
        slots_after(slots, start, lens, entries, k).contains_key(c) == slots.contains_key(c),
        slots_after(slots, start, lens, entries, k)[c] == slots[c],
    decreases k,
{
    if k > 0 {
        lemma_other_slots(slots, start, lens, entries, (k - 1) as nat, c);
    }
}

/// After a pass, the slot of its `j`-th request holds what that request was
/// answered with.
pub proof fn lemma_slot_filled(
    slots: Map<u64, CacheEntry>,
    start: u64,
    lens: Seq<usize>,
    entries: Seq<CacheEntry>,
    k: nat,
    j: nat,
)
    requires
        start + k <= u64::MAX,
        j < k,
        pass_answered(slots, start, lens, entries, k),
    ensures
        slots_after(slots, start, lens, entries, k).contains_key((start + j) as u64),
        slots_after(slots, start, lens, entries, k)[(start + j) as u64] == entries[j as int],
        entries[j as int].len == lens[j as int],
    decreases k,
{
    let before = slots_after(slots, start, lens, entries, (k - 1) as nat);
    if j == k - 1 {
        assert(answers(before, ident_at(start, lens, j as int), entries[j as int]));
    } else {
        lemma_slot_filled(slots, start, lens, entries, (k - 1) as nat, j);
    }
}

/// The slots after the first `k` requests of a pass depend on these requests
/// and their answers only.
pub proof fn lemma_slots_after_prefix(
    slots: Map<u64, CacheEntry>,
    start: u64,
    lens: Seq<usize>,
    entries: Seq<CacheEntry>,
    other_lens: Seq<usize>,
    other_entries: Seq<CacheEntry>,
    k: nat,
)
    requires
        forall|i: int| 0 <= i < k ==> lens[i] == other_lens[i] && entries[i] == other_entries[i],
    ensures
        slots_after(slots, start, lens, entries, k) == slots_after(
            slots,
            start,
            other_lens,
            other_entries,
            k,
        ),
    decreases k,
{
    if k > 0 {
        lemma_slots_after_prefix(
            slots,
            start,
            lens,
            entries,
            other_lens,
            other_entries,
            (k - 1) as nat,
        );
    }
}

/// A pass in which every request hits leaves the slots as they were.
proof fn lemma_all_hits(
    slots: Map<u64, CacheEntry>,
    start: u64,
    lens: Seq<usize>,
    entries: Seq<CacheEntry>,
    k: nat,
)
    requires
        forall|i: nat|
            i < k ==> hit(
                #[trigger] slots_after(slots, start, lens, entries, i),
                ident_at(start, lens, i as int),
            ),
    ensures
        slots_after(slots, start, lens, entries, k) == slots,
    decreases k,
{
    if k > 0 {
        lemma_all_hits(slots, start, lens, entries, (k - 1) as nat);
        assert(hit(
            slots_after(slots, start, lens, entries, (k - 1) as nat),
            ident_at(start, lens, k - 1),
        ));
    }
}

/// Replaying a pass hits the cache.
///
/// Let a pass of `n` requests start with the counter at `start`, ask for
/// `lens1` and be answered with `entries1`. Let the counter then be set back
/// to `start` and a second pass ask for `lens2`. Then every request of the
/// second pass that asks for the length asked for at its position before hits
/// the cache and is answered with the entry, and so with the allocation, of
/// the first pass. A hit makes no allocation. Where no length has changed, the
/// second pass leaves the cache as it found it.
pub proof fn lemma_replay_hits(
    slots: Map<u64, CacheEntry>,
    start: u64,
    lens1: Seq<usize>,
    entries1: Seq<CacheEntry>,
    lens2: Seq<usize>,
    entries2: Seq<CacheEntry>,
)
    requires
        lens1.len() == entries1.len(),
        lens2.len() == lens1.len(),
        entries2.len() == lens1.len(),
        start + lens1.len() <= u64::MAX,
        pass_answered(slots, start, lens1, entries1, lens1.len()),
        pass_answered(
            slots_after(slots, start, lens1, entries1, lens1.len()),
            start,
            lens2,
            entries2,
            lens2.len(),
        ),
    ensures
        forall|i: int|
            0 <= i < lens1.len() && lens2[i] == lens1[i] ==> #[trigger] entries2[i]
                == entries1[i],
        forall|i: nat|
            i < lens1.len() && lens2[i as int] == lens1[i as int] ==> hit(
                #[trigger] slots_after(
                    slots_after(slots, start, lens1, entries1, lens1.len()),
                    start,
                    lens2,
                    entries2,
                    i,
                ),
                ident_at(start, lens2, i as int),
            ),
        lens2 == lens1 ==> slots_after(
            slots_after(slots, start, lens1, entries1, lens1.len()),
            start,
            lens2,
            entries2,
            lens2.len(),
        ) == slots_after(slots, start, lens1, entries1, lens1.len()),
{
    let n = lens1.len();
    let first = slots_after(slots, start, lens1, entries1, n);
    assert forall|i: nat| i < n && lens2[i as int] == lens1[i as int] implies hit(
        #[trigger] slots_after(first, start, lens2, entries2, i),
        ident_at(start, lens2, i as int),
    ) by {
        lemma_slot_filled(slots, start, lens1, entries1, n, i);
        lemma_other_slots(first, start, lens2, entries2, i, (start + i) as u64);
    }
    assert forall|i: int| 0 <= i < n && lens2[i] == lens1[i] implies #[trigger] entries2[i]
        == entries1[i] by {
        lemma_slot_filled(slots, start, lens1, entries1, n, i as nat);
        lemma_other_slots(first, start, lens2, entries2, i as nat, (start + i) as u64);
        assert(answers(
            slots_after(first, start, lens2, entries2, i as nat),
            ident_at(start, lens2, i),
            entries2[i],
        ));
    }
    if lens2 == lens1 {
        lemma_all_hits(first, start, lens2, entries2, n);
    }
}

/// A changed shape replaces the allocation of a slot.
///
/// Let the slot of `ident` hold an allocation of another length, and let a
/// request under `ident` be answered with the new allocation `handle`. Then
/// the slot holds the new allocation, no slot holds the old one, and the old
/// one is still alive on the device exactly if it had a holder besides the
/// cache.
pub proof fn lemma_shape_change(
    cache: Cache,
    live: Map<u64, RawInfo>,
    ident: Ident,
    entry: CacheEntry,
    next: Cache,
)
    requires
        cache.wf(),
        next.wf(),
        cache@.contains_key(ident.count),
        cache@[ident.count].len != ident.len,
        live.contains_key(cache@[ident.count].handle),
        live[cache@[ident.count].handle].refs >= 1,
        !live.contains_key(entry.handle),
        answers(cache@, ident, entry),
        next@ == after_get(cache@, ident, entry),
    ensures
        next@[ident.count] == entry,
        entry.len == ident.len,
        entry.handle != cache@[ident.count].handle,
        !next.keeps(cache@[ident.count].handle),
        after_miss(live, cache@, ident, entry.handle).contains_key(cache@[ident.count].handle)
            == (live[cache@[ident.count].handle].refs >= 2),
        after_miss(live, cache@, ident, entry.handle).contains_key(entry.handle),
{
    let old_handle = cache@[ident.count].handle;
    if next.keeps(old_handle) {
        let c = choose|c: u64| #[trigger] next@.contains_key(c) && next@[c].handle == old_handle;
        if c != ident.count {
            assert(cache@.contains_key(c));
            cache.lemma_one_slot(c, ident.count);
        }
    }
}

} // verus!
