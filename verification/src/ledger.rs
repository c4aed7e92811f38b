use vstd::prelude::*;
use vstd::multiset::Multiset;
use crate::buffer::Buffer;
use crate::cache::{after_get, apart, backed, hit, kept, CacheEntry};
use crate::count::Ident;
use crate::graph::Deps;
use crate::number::Number;
use crate::op_traits::{entry_of, Device, DeviceSpec};

verus! {

/// No allocation sits in two of the slots.
pub open spec fn single(slots: Map<u64, CacheEntry>) -> bool {
    forall|a: u64, b: u64|
        slots.contains_key(a) && slots.contains_key(b) && #[trigger] slots[a].handle
            == #[trigger] slots[b].handle ==> a == b
}

/// The hold that the slots have on the allocation `handle`: one where they
/// keep it, none where they do not.
pub open spec fn share(slots: Map<u64, CacheEntry>, handle: u64) -> nat {
    if kept(slots, handle) {
        1
    } else {
        0
    }
}

/// The books of the device balance against the buffers in hand.
///
/// `hands` holds the handle of every buffer that somebody holds, once for
/// each such buffer, and `grads` are the slots of the gradients on the device.
/// Then every allocation that is alive has exactly the buffers in hand and
/// the caches that keep it for holders, and every buffer in hand points to an
/// allocation that is alive.
pub open spec fn balanced<T: Number, D: Device<T>>(
    device: D,
    grads: Map<u64, CacheEntry>,
    hands: Multiset<u64>,
) -> bool {
    &&& forall|h: u64| #[trigger]
        device.live().contains_key(h) ==> device.live()[h].refs == hands.count(h) + share(
            device.slots(),
            h,
        ) + share(grads, h)
    &&& forall|h: u64| #[trigger] hands.count(h) > 0 ==> device.live().contains_key(h)
}

/// The gradients are on the device, in slots of their own.
pub open spec fn sound<T: Number, D: Device<T>>(device: D, grads: Map<u64, CacheEntry>) -> bool {
    &&& device.wf()
    &&& single(grads)
    &&& backed(grads, device.live())
    &&& apart(grads, device.slots())
}

/// After a request, the slots keep what they kept, but for the allocation
/// that a miss has put in the slot and the one it has put out.
pub proof fn lemma_kept_after_get(
    slots: Map<u64, CacheEntry>,
    ident: Ident,
    entry: CacheEntry,
    handle: u64,
)
    requires
        single(slots),
        !hit(slots, ident) ==> !kept(slots, entry.handle),
    ensures
        kept(after_get(slots, ident, entry), handle) == (if hit(slots, ident) {
            kept(slots, handle)
        } else if handle == entry.handle {
            true
        } else if slots.contains_key(ident.count) && slots[ident.count].handle == handle {
            false
        } else {
            kept(slots, handle)
        }),
        hit(slots, ident) || single(after_get(slots, ident, entry)),
{
    let after = after_get(slots, ident, entry);
    if !hit(slots, ident) {
        assert(after.contains_key(ident.count));
        if kept(after, handle) {
            let c = choose|c: u64| #[trigger] after.contains_key(c) && after[c].handle == handle;
            if c != ident.count {
                assert(slots.contains_key(c));
            }
        }
        if kept(slots, handle) && handle != entry.handle && !(slots.contains_key(ident.count)
            && slots[ident.count].handle == handle) {
            let c = choose|c: u64| #[trigger] slots.contains_key(c) && slots[c].handle == handle;
            assert(after.contains_key(c));
        }
        assert forall|a: u64, b: u64|
            after.contains_key(a) && after.contains_key(b) && #[trigger] after[a].handle
                == #[trigger] after[b].handle implies a == b by {
            if a != ident.count {
                assert(slots.contains_key(a));
            }
            if b != ident.count {
                assert(slots.contains_key(b));
            }
        }
    }
}

/// A device without allocations balances against empty hands.
pub proof fn lemma_balanced_empty<T: Number, D: Device<T>>(device: D)
    requires
        device.live() == Map::<u64, crate::raw::RawInfo>::empty(),
    ensures
        balanced(device, Map::<u64, CacheEntry>::empty(), Multiset::<u64>::empty()),
{
}


/// The buffers that somebody must hold for the books to balance: for every
/// allocation as many as it has holders besides the caches.
pub open spec fn in_hands<T: Number, D: Device<T>>(
    device: D,
    grads: Map<u64, CacheEntry>,
) -> Multiset<u64> {
    Multiset::from_map(
        Map::new(
            |h: u64| device.live().contains_key(h),
            |h: u64|
                (device.live()[h].refs - share(device.slots(), h) - share(grads, h)) as nat,
        ),
    )
}

/// The books of a sound device always balance against some hands: those that
/// hold, for every allocation, as many buffers as it has holders besides the
/// caches.
pub proof fn lemma_balance_exists<T: Number, D: Device<T>>(device: D, grads: Map<u64, CacheEntry>)
    requires
        sound(device, grads),
    ensures
        balanced(device, grads, in_hands(device, grads)),
{
    device.lemma_wf();
    let counts = Map::new(
        |h: u64| device.live().contains_key(h),
        |h: u64| (device.live()[h].refs - share(device.slots(), h) - share(grads, h)) as nat,
    );
    assert(counts.dom() =~= device.live().dom());
    assert forall|h: u64| #[trigger] device.live().contains_key(h) implies device.live()[h].refs
        == in_hands(device, grads).count(h) + share(device.slots(), h) + share(grads, h) by {
        assert(counts.contains_key(h));
        if kept(device.slots(), h) && kept(grads, h) {
            let a = choose|a: u64| #[trigger] grads.contains_key(a) && grads[a].handle == h;
            let b = choose|b: u64| #[trigger]
                device.slots().contains_key(b) && device.slots()[b].handle == h;
            assert(grads[a].handle != device.slots()[b].handle);
        }
    }
    assert forall|h: u64| #[trigger]
        in_hands(device, grads).count(h) > 0 implies device.live().contains_key(h) by {
        if !device.live().contains_key(h) {
            assert(!counts.contains_key(h));
        }
    }
}

/// The books balance against one set of hands only.
pub proof fn lemma_balance_unique<T: Number, D: Device<T>>(
    device: D,
    grads: Map<u64, CacheEntry>,
    one: Multiset<u64>,
    other: Multiset<u64>,
)
    requires
        balanced(device, grads, one),
        balanced(device, grads, other),
    ensures
        one == other,
{
    assert forall|h: u64| one.count(h) == other.count(h) by {
        if device.live().contains_key(h) {
        } else {
            if one.count(h) > 0 {
            }
            if other.count(h) > 0 {
            }
        }
    }
    assert(one =~= other);
}

/// A buffer that was placed in an allocation of its own is one more buffer in
/// hand, and the books balance with it.
pub proof fn lemma_balanced_placed<T: Number, D: Device<T>>(
    before: D,
    after: D,
    grads: Map<u64, CacheEntry>,
    hands: Multiset<u64>,
    buf: Buffer<T>,
    elems: Seq<T>,
)
    requires
        sound(before, grads),
        balanced(before, grads, hands),
        after.placed(&before, &buf, elems),
    ensures
        balanced(after, grads, hands.insert(buf.raw().handle)),
        backed(grads, after.live()),
        apart(grads, after.slots()),
        forall|held: Buffer<T>| before.holds(&held) ==> #[trigger] after.holds(&held),
{
    before.lemma_wf();
    let h = buf.raw().handle;
    assert(hands.count(h) == 0) by {
        if hands.count(h) > 0 {
        }
    }
    assert(!kept(before.slots(), h)) by {
        if kept(before.slots(), h) {
            let c = choose|c: u64| #[trigger]
                before.slots().contains_key(c) && before.slots()[c].handle == h;
        }
    }
    assert(!kept(grads, h)) by {
        if kept(grads, h) {
            let c = choose|c: u64| #[trigger] grads.contains_key(c) && grads[c].handle == h;
        }
    }
    assert forall|c: u64| #[trigger] grads.contains_key(c) implies after.live().contains_key(
        grads[c].handle,
    ) && after.live()[grads[c].handle].len == grads[c].len by {
        assert(before.live().contains_key(grads[c].handle));
    }
}

/// A buffer that the cache of the device has handed out is one more buffer in
/// hand, and the books balance with it: what a miss has put out of the slot
/// has lost the cache for a holder, no buffer in hand.
pub proof fn lemma_balanced_drawn<T: Number, D: Device<T>>(
    before: D,
    after: D,
    grads: Map<u64, CacheEntry>,
    hands: Multiset<u64>,
    ident: Ident,
    deps: Option<Deps>,
    buf: Buffer<T>,
)
    requires
        sound(before, grads),
        balanced(before, grads, hands),
        before.grants(ident),
        after.drawn(&before, ident, deps, &buf),
    ensures
        balanced(after, grads, hands.insert(buf.raw().handle)),
        backed(grads, after.live()),
        apart(grads, after.slots()),
        forall|held: Buffer<T>|
            before.holds(&held) && hands.count(held.raw().handle) >= 1
                ==> #[trigger] after.holds(&held),
{
    before.lemma_wf();
    let h = buf.raw().handle;
    let slots = before.slots();
    let entry = entry_of(&buf);
    assert(single(slots));
    if !hit(slots, ident) {
        assert(!kept(slots, h)) by {
            if kept(slots, h) {
                let c = choose|c: u64| #[trigger] slots.contains_key(c) && slots[c].handle == h;
            }
        }
        assert(!kept(grads, h)) by {
            if kept(grads, h) {
                let c = choose|c: u64| #[trigger] grads.contains_key(c) && grads[c].handle == h;
            }
        }
        assert(hands.count(h) == 0) by {
            if hands.count(h) > 0 {
            }
        }
        if slots.contains_key(ident.count) {
            let e = slots[ident.count].handle;
            assert(before.live().contains_key(e));
            assert(kept(slots, e));
            assert(!kept(grads, e)) by {
                if kept(grads, e) {
                    let c = choose|c: u64| #[trigger] grads.contains_key(c) && grads[c].handle == e;
                    assert(grads[c].handle != slots[ident.count].handle);
                }
            }
        }
    } else {
        assert(before.live().contains_key(slots[ident.count].handle));
    }
    assert forall|x: u64| #[trigger] after.live().contains_key(x) implies after.live()[x].refs
        == hands.insert(h).count(x) + share(after.slots(), x) + share(grads, x) by {
        lemma_kept_after_get(slots, ident, entry, x);
        if hit(slots, ident) || x == h || !(slots.contains_key(ident.count)
            && slots[ident.count].handle == x) {
            if x != h {
                assert(before.live().contains_key(x));
            }
        } else {
            assert(before.live().contains_key(x));
        }
    }
    assert forall|x: u64| #[trigger] hands.insert(h).count(x) > 0 implies after.live().contains_key(
        x,
    ) by {
        if x != h {
            assert(hands.count(x) > 0);
            assert(before.live().contains_key(x));
        }
    }
    assert forall|c: u64| #[trigger] grads.contains_key(c) implies after.live().contains_key(
        grads[c].handle,
    ) && after.live()[grads[c].handle].len == grads[c].len by {
        assert(before.live().contains_key(grads[c].handle));
        if slots.contains_key(ident.count) {
            assert(grads[c].handle != slots[ident.count].handle);
        }
    }
    assert forall|x: u64, y: u64|
        grads.contains_key(x) && after.slots().contains_key(y) implies #[trigger] grads[x].handle
        != #[trigger] after.slots()[y].handle by {
        assert(before.live().contains_key(grads[x].handle));
        if y != ident.count || hit(slots, ident) {
            assert(slots.contains_key(y));
        }
    }
}


/// A buffer that the gradients have handed out is one more buffer in hand,
/// and the books balance with it and with the gradients as the request left
/// them.
pub proof fn lemma_balanced_grad<T: Number, D: Device<T>>(
    before: D,
    after: D,
    grads: Map<u64, CacheEntry>,
    hands: Multiset<u64>,
    ident: Ident,
    buf: Buffer<T>,
)
    requires
        sound(before, grads),
        balanced(before, grads, hands),
        ident.len > 0,
        hit(grads, ident) ==> before.live()[grads[ident.count].handle].refs < usize::MAX,
        after.wf(),
        after.drawn_from(&before, grads, ident, None, &buf),
        after.slots() == before.slots(),
    ensures
        balanced(
            after,
            after_get(grads, ident, entry_of(&buf)),
            hands.insert(buf.raw().handle),
        ),
        sound(after, after_get(grads, ident, entry_of(&buf))),
        forall|held: Buffer<T>|
            before.holds(&held) && hands.count(held.raw().handle) >= 1
                ==> #[trigger] after.holds(&held),
{
    before.lemma_wf();
    let h = buf.raw().handle;
    let slots = before.slots();
    let entry = entry_of(&buf);
    let grads_after = after_get(grads, ident, entry);
    if !hit(grads, ident) {
        assert(!kept(slots, h)) by {
            if kept(slots, h) {
                let c = choose|c: u64| #[trigger] slots.contains_key(c) && slots[c].handle == h;
            }
        }
        assert(!kept(grads, h)) by {
            if kept(grads, h) {
                let c = choose|c: u64| #[trigger] grads.contains_key(c) && grads[c].handle == h;
            }
        }
        assert(hands.count(h) == 0) by {
            if hands.count(h) > 0 {
            }
        }
        if grads.contains_key(ident.count) {
            let e = grads[ident.count].handle;
            assert(before.live().contains_key(e));
            assert(kept(grads, e));
            assert(!kept(slots, e)) by {
                if kept(slots, e) {
                    let c = choose|c: u64| #[trigger] slots.contains_key(c) && slots[c].handle == e;
                    assert(grads[ident.count].handle != slots[c].handle);
                }
            }
        }
    } else {
        assert(before.live().contains_key(grads[ident.count].handle));
    }
    lemma_kept_after_get(grads, ident, entry, h);
    assert forall|x: u64| #[trigger] after.live().contains_key(x) implies after.live()[x].refs
        == hands.insert(h).count(x) + share(after.slots(), x) + share(grads_after, x) by {
        lemma_kept_after_get(grads, ident, entry, x);
        if x != h {
            assert(before.live().contains_key(x));
        }
    }
    assert forall|x: u64| #[trigger] hands.insert(h).count(x) > 0 implies after.live().contains_key(
        x,
    ) by {
        if x != h {
            assert(hands.count(x) > 0);
            assert(before.live().contains_key(x));
        }
    }
    assert forall|c: u64| #[trigger] grads_after.contains_key(c) implies after.live().contains_key(
        grads_after[c].handle,
    ) && after.live()[grads_after[c].handle].len == grads_after[c].len by {
        if c != ident.count || hit(grads, ident) {
            assert(grads.contains_key(c));
            assert(before.live().contains_key(grads[c].handle));
            if grads.contains_key(ident.count) && c != ident.count {
                assert(grads[c].handle != grads[ident.count].handle);
            }
        }
    }
    assert forall|x: u64, y: u64|
        grads_after.contains_key(x) && after.slots().contains_key(y) implies #[trigger] grads_after[x].handle
        != #[trigger] after.slots()[y].handle by {
        assert(before.live().contains_key(slots[y].handle));
        if x != ident.count || hit(grads, ident) {
            assert(grads.contains_key(x));
        }
    }
}

/// A change of elements leaves the books in balance.
pub proof fn lemma_balanced_stored<T: Number, D: Device<T>>(
    before: D,
    after: D,
    grads: Map<u64, CacheEntry>,
    hands: Multiset<u64>,
)
    requires
        balanced(before, grads, hands),
        after.live() == before.live(),
        after.slots() == before.slots(),
    ensures
        balanced(after, grads, hands),
{
}

/// A buffer in hand can be given up.
pub proof fn lemma_in_hand_can_go<T: Number, D: Device<T>>(
    device: D,
    grads: Map<u64, CacheEntry>,
    hands: Multiset<u64>,
    buf: Buffer<T>,
)
    requires
        balanced(device, grads, hands),
        device.holds(&buf),
        buf.raw().flag.counts() ==> hands.count(buf.raw().handle) >= 1,
    ensures
        device.can_release(&buf),
{
}

/// Giving up a buffer in hand takes it from the hands, and the books balance
/// without it. Its allocation is freed exactly if it was the last buffer in
/// hand for the allocation and no cache keeps the allocation.
pub proof fn lemma_balanced_dropped<T: Number, D: Device<T>>(
    before: D,
    after: D,
    grads: Map<u64, CacheEntry>,
    hands: Multiset<u64>,
    buf: Buffer<T>,
    gone: bool,
)
    requires
        sound(before, grads),
        balanced(before, grads, hands),
        before.holds(&buf),
        buf.raw().flag.counts(),
        hands.count(buf.raw().handle) >= 1,
        after.dropped(&before, &buf, gone),
    ensures
        balanced(after, grads, hands.remove(buf.raw().handle)),
        backed(grads, after.live()),
        apart(grads, after.slots()),
        backed(after.slots(), after.live()),
        gone == (hands.count(buf.raw().handle) == 1 && !kept(before.slots(), buf.raw().handle)
            && !kept(grads, buf.raw().handle)),
        forall|held: Buffer<T>|
            before.holds(&held) && hands.remove(buf.raw().handle).count(held.raw().handle) >= 1
                ==> #[trigger] after.holds(&held),
{
    before.lemma_wf();
    let h = buf.raw().handle;
    assert forall|x: u64| #[trigger] after.live().contains_key(x) implies after.live()[x].refs
        == hands.remove(h).count(x) + share(after.slots(), x) + share(grads, x) by {
        assert(before.live().contains_key(x));
    }
    assert forall|x: u64| #[trigger] hands.remove(h).count(x) > 0 implies after.live().contains_key(
        x,
    ) by {
        assert(hands.count(x) > 0);
        assert(before.live().contains_key(x));
    }
    assert forall|c: u64| #[trigger] grads.contains_key(c) implies after.live().contains_key(
        grads[c].handle,
    ) && after.live()[grads[c].handle].len == grads[c].len by {
        assert(before.live().contains_key(grads[c].handle));
        if grads[c].handle == h {
            assert(kept(grads, h));
        }
    }
    assert forall|c: u64| #[trigger] after.slots().contains_key(c) implies after.live().contains_key(
        after.slots()[c].handle,
    ) && after.live()[after.slots()[c].handle].len == after.slots()[c].len by {
        assert(before.slots().contains_key(c));
        assert(before.live().contains_key(before.slots()[c].handle));
        if before.slots()[c].handle == h {
            assert(kept(before.slots(), h));
        }
    }
}

/// Where nobody holds a buffer, nothing but the caches keeps an allocation
/// alive: every allocation is kept by the cache of the device or by the
/// gradients, and has this one holder.
pub proof fn lemma_nothing_leaks<T: Number, D: Device<T>>(
    device: D,
    grads: Map<u64, CacheEntry>,
    handle: u64,
)
    requires
        sound(device, grads),
        balanced(device, grads, Multiset::<u64>::empty()),
        device.live().contains_key(handle),
    ensures
        kept(device.slots(), handle) != kept(grads, handle),
        device.live()[handle].refs == 1,
{
    device.lemma_wf();
    if kept(device.slots(), handle) && kept(grads, handle) {
        let a = choose|a: u64| #[trigger] grads.contains_key(a) && grads[a].handle == handle;
        let b = choose|b: u64| #[trigger]
            device.slots().contains_key(b) && device.slots()[b].handle == handle;
        assert(grads[a].handle != device.slots()[b].handle);
    }
}

/// A buffer that is held stays held while it is in hand: no operation that
/// keeps its allocation alive changes the allocation's length, and the graph
/// only grows.
pub proof fn lemma_still_held<T: Number, D: Device<T>>(before: D, after: D, buf: Buffer<T>)
    requires
        before.holds(&buf),
        after.live().contains_key(buf.raw().handle),
        after.live()[buf.raw().handle].len == before.live()[buf.raw().handle].len,
        after.nodes().len() >= before.nodes().len(),
    ensures
        after.holds(&buf),
{
}

} // verus!
