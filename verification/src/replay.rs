use vstd::prelude::*;
use crate::buffer::Buffer;
use crate::cache::{
    answers, hit, ident_at, lemma_slot_filled, lemma_slots_after_prefix, pass_answered,
    slots_after, CacheEntry,
};
use crate::graph::Deps;
use crate::number::Number;
use crate::op_traits::{entry_of, Device, DeviceSpec};

verus! {

/// The cache entries that the buffers stand for.
pub open spec fn entries_of<T>(bufs: Seq<Buffer<T>>) -> Seq<CacheEntry> {
    Seq::new(bufs.len(), |i: int| entry_of(&bufs[i]))
}

/// The device `after` is what a pass of calls of `CacheBuf::cached` has made
/// of the device `before`: the counter stood at `start` when the pass began,
/// the calls asked for `lens` in this order, each was granted on what the one
/// before it left, and they handed out `bufs`.
pub open spec fn cached_pass<T: Number, D: Device<T>>(
    before: D,
    start: u64,
    lens: Seq<usize>,
    bufs: Seq<Buffer<T>>,
    after: D,
) -> bool
    decreases lens.len(),
{
    &&& bufs.len() == lens.len()
    &&& if lens.len() == 0 {
        after == before
    } else {
        exists|mid: D|
            {
                &&& cached_pass(before, start, lens.drop_last(), bufs.drop_last(), mid)
                &&& mid.wf()
                &&& mid.grants(ident_at(start, lens, lens.len() - 1))
                &&& #[trigger] after.fetched(
                    &mid,
                    ident_at(start, lens, lens.len() - 1),
                    Some(Deps::Leaf),
                    &bufs.last(),
                )
            }
    }
}

/// A pass of calls of `CacheBuf::cached` is a pass of requests to the cache:
/// every call was answered as the cache answers, and the slots of the device
/// are what the requests have made of them.
pub proof fn lemma_pass_slots<T: Number, D: Device<T>>(
    before: D,
    start: u64,
    lens: Seq<usize>,
    bufs: Seq<Buffer<T>>,
    after: D,
)
    requires
        cached_pass(before, start, lens, bufs, after),
        start + lens.len() <= u64::MAX,
    ensures
        pass_answered(before.slots(), start, lens, entries_of(bufs), lens.len()),
        after.slots() == slots_after(before.slots(), start, lens, entries_of(bufs), lens.len()),
    decreases lens.len(),
{
    let n = lens.len();
    let slots = before.slots();
    let entries = entries_of(bufs);
    if n > 0 {
        let mid = choose|mid: D|
            {
                &&& cached_pass(before, start, lens.drop_last(), bufs.drop_last(), mid)
                &&& mid.wf()
                &&& mid.grants(ident_at(start, lens, n - 1))
                &&& #[trigger] after.fetched(
                    &mid,
                    ident_at(start, lens, n - 1),
                    Some(Deps::Leaf),
                    &bufs.last(),
                )
            };
        lemma_pass_slots(before, start, lens.drop_last(), bufs.drop_last(), mid);
        let short_lens = lens.drop_last();
        let short = entries_of(bufs.drop_last());
        assert forall|i: nat| i < n implies answers(
            #[trigger] slots_after(slots, start, lens, entries, i),
            ident_at(start, lens, i as int),
            entries[i as int],
        ) by {
            lemma_slots_after_prefix(slots, start, lens, entries, short_lens, short, i);
            if i < n - 1 {
                assert(answers(
                    slots_after(slots, start, short_lens, short, i),
                    ident_at(start, short_lens, i as int),
                    short[i as int],
                ));
            } else {
                assert(entries[i as int] == entry_of(&bufs.last()));
            }
        }
        lemma_slots_after_prefix(slots, start, lens, entries, short_lens, short, (n - 1) as nat);
        assert(entries[n - 1] == entry_of(&bufs.last()));
    }
}

/// The slot of the `i`-th request of a pass holds `entries[i]`, an entry of
/// the length that the request asked for.
pub open spec fn slot_holds(
    slots: Map<u64, CacheEntry>,
    start: u64,
    lens: Seq<usize>,
    entries: Seq<CacheEntry>,
    i: int,
) -> bool {
    &&& slots.contains_key((start + i) as u64)
    &&& slots[(start + i) as u64] == entries[i]
    &&& entries[i].len == lens[i]
}

/// A pass that repeats the first calls of an earlier pass hits the cache at
/// every call: it leaves cache, graph and the counts of allocations as they
/// were, and hands out the allocations that the earlier pass handed out.
pub proof fn lemma_repeated_pass_hits<T: Number, D: Device<T>>(
    first: D,
    start: u64,
    lens: Seq<usize>,
    entries: Seq<CacheEntry>,
    again: Seq<usize>,
    bufs: Seq<Buffer<T>>,
    after: D,
)
    requires
        again.len() <= lens.len(),
        entries.len() == lens.len(),
        start + lens.len() <= u64::MAX,
        forall|i: int| 0 <= i < again.len() ==> again[i] == lens[i],
        forall|i: int|
            0 <= i < lens.len() ==> #[trigger] slot_holds(first.slots(), start, lens, entries, i),
        cached_pass(first, start, again, bufs, after),
    ensures
        after.slots() == first.slots(),
        after.nodes() == first.nodes(),
        after.made() == first.made(),
        after.freed() == first.freed(),
        forall|i: int| 0 <= i < again.len() ==> entry_of(&#[trigger] bufs[i]) == entries[i],
    decreases again.len(),
{
    let n = again.len();
    if n > 0 {
        let mid = choose|mid: D|
            {
                &&& cached_pass(first, start, again.drop_last(), bufs.drop_last(), mid)
                &&& mid.wf()
                &&& mid.grants(ident_at(start, again, n - 1))
                &&& #[trigger] after.fetched(
                    &mid,
                    ident_at(start, again, n - 1),
                    Some(Deps::Leaf),
                    &bufs.last(),
                )
            };
        assert forall|i: int| 0 <= i < again.drop_last().len() implies again.drop_last()[i]
            == lens[i] by {
            assert(again.drop_last()[i] == again[i]);
        }
        lemma_repeated_pass_hits(
            first,
            start,
            lens,
            entries,
            again.drop_last(),
            bufs.drop_last(),
            mid,
        );
        let ident = ident_at(start, again, n - 1);
        assert(slot_holds(first.slots(), start, lens, entries, n - 1));
        assert(again[n - 1] == lens[n - 1]);
        assert(hit(mid.slots(), ident));
        assert(entry_of(&bufs.last()) == entries[n - 1]);
        assert forall|i: int| 0 <= i < n implies entry_of(&#[trigger] bufs[i]) == entries[i] by {
            if i < n - 1 {
                assert(bufs.drop_last()[i] == bufs[i]);
                assert(entry_of(&bufs.drop_last()[i]) == entries[i]);
            } else {
                assert(bufs[i] == bufs.last());
            }
        }
    }
}

/// Replaying a pass allocates nothing.
///
/// Let a pass of calls of `CacheBuf::cached` begin with the counter at
/// `start` and ask for `lens`. Let the counter then be set back to `start`,
/// let the first `j` calls be repeated, and let the next call ask for what
/// the call at its position asked for before. Then this call hits the cache:
/// it allocates nothing, it leaves the cache with the allocations it held
/// after the first pass, it leaves the graph alone, and it hands out the
/// allocation that the first pass handed out at its position. So did every
/// call repeated before it.
pub proof fn lemma_replayed_call_allocates_nothing<T: Number, D: Device<T>>(
    before: D,
    start: u64,
    lens: Seq<usize>,
    bufs: Seq<Buffer<T>>,
    first: D,
    j: int,
    repeated: Seq<Buffer<T>>,
    second: D,
    buf: Buffer<T>,
    after: D,
)
    requires
        start + lens.len() <= u64::MAX,
        0 <= j < lens.len(),
        cached_pass(before, start, lens, bufs, first),
        cached_pass(first, start, lens.subrange(0, j), repeated, second),
        after.fetched(&second, ident_at(start, lens, j), Some(Deps::Leaf), &buf),
    ensures
        hit(second.slots(), ident_at(start, lens, j)),
        after.made() == first.made(),
        after.freed() == first.freed(),
        after.slots() == first.slots(),
        after.nodes() == first.nodes(),
        buf.raw().handle == bufs[j].raw().handle,
        forall|i: int|
            0 <= i < j ==> (#[trigger] repeated[i]).raw().handle == bufs[i].raw().handle,
{
    let entries = entries_of(bufs);
    lemma_pass_slots(before, start, lens, bufs, first);
    assert forall|i: int| 0 <= i < lens.len() implies #[trigger] slot_holds(
        first.slots(),
        start,
        lens,
        entries,
        i,
    ) by {
        lemma_slot_filled(before.slots(), start, lens, entries, lens.len(), i as nat);
    }
    lemma_repeated_pass_hits(first, start, lens, entries, lens.subrange(0, j), repeated, second);
    assert(slot_holds(first.slots(), start, lens, entries, j));
    assert forall|i: int| 0 <= i < j implies (#[trigger] repeated[i]).raw().handle
        == bufs[i].raw().handle by {
        assert(entry_of(&repeated[i]) == entries[i]);
    }
}

} // verus!
